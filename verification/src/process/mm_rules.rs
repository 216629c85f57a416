//! What mappings hold, where they lie, and what is written back of them.

use vstd::prelude::*;

use crate::addr::{canonical, page_floor, pages_for};
use crate::process::{KernelView, Pid, ProcView};
use crate::process::mm::{
    file_plan, grown, has_room, in_tail, known_frames, mappings_ok, noted, page_ceil, page_of,
    ref_count, region_at, region_of, released, released_all, reserved, staged, unmappable, with_brk,
    with_region, without_region, BRK_REGION_CEILING, FilePlan, MMAP_REGION_CEILING, MappingView,
    MmapFileRegion,
};
use crate::process::mm_laws::{lemma_released_all, mappings_of};

verus! {

/// How many pages so many bytes take: as many as are needed and no more.
pub proof fn law_pages(len: u64)
    ensures
        pages_for(len) * 4096 >= len,
        pages_for(len) * 4096 < len + 4096,
        len == 0 <==> pages_for(len) == 0,
        page_floor(len) % 4096 == 0,
        page_floor(len) <= len < page_floor(len) + 4096,
{
}

/// A mapping has exactly the pages backed that it asks for and that the file reaches into.
pub proof fn law_plan_pages(m: MappingView, page_count: u64, prot: u64, id: u64, size: i64, k: int)
    requires
        k >= 0,
    ensures
        ({
            let p = file_plan(m, page_count, prot, id, size);
            &&& p.content_id == id
            &&& p.page_count == page_count
            &&& k < p.covered_pages <==> k < page_count && k * 4096 < size
            &&& p.writable <==> prot & 2 != 0
        }),
{
}

/// A plan has frames made exactly for the backed pages that have none yet, from the first of those
/// on, and reads into them every byte of the file that belongs there and no other.
pub proof fn law_plan_reads_all(
    m: MappingView,
    page_count: u64,
    prot: u64,
    id: u64,
    size: i64,
    i: int,
)
    ensures
        ({
            let p = file_plan(m, page_count, prot, id, size);
            let have = known_frames(m, id).len();
            &&& have >= p.covered_pages ==> p.new_frames == 0 && p.read_len == 0
            &&& have < p.covered_pages ==> {
                &&& p.new_frames == p.covered_pages - have
                &&& p.read_off == have * 4096
                &&& p.read_off <= i < p.read_off + p.read_len <==> p.read_off <= i < size && i
                    < p.covered_pages * 4096
            }
        }),
{
}

/// The new frames of a plan hold the file's bytes, page for page, with zeros only behind its end.
pub proof fn law_frames_hold_file(
    m: MappingView,
    page_count: u64,
    prot: u64,
    id: u64,
    file: Seq<u8>,
    k: int,
    j: int,
)
    requires
        file.len() <= i64::MAX,
        ({
            let p = file_plan(m, page_count, prot, id, file.len() as i64);
            0 <= k < p.new_frames
        }),
        0 <= j < 4096,
    ensures
        ({
            let p = file_plan(m, page_count, prot, id, file.len() as i64);
            let read = file.subrange(p.read_off as int, p.read_off + p.read_len);
            let at = (known_frames(m, id).len() + k) * 4096 + j;
            page_of(read, k)[j] == (if at < file.len() {
                file[at]
            } else {
                0
            })
        }),
{
    let p = file_plan(m, page_count, prot, id, file.len() as i64);
    let read = file.subrange(p.read_off as int, p.read_off + p.read_len);
    let at = (known_frames(m, id).len() + k) * 4096 + j;
    assert(at == p.read_off + k * 4096 + j);
    assert(k * 4096 + j < p.new_frames * 4096);
    if k * 4096 + j < read.len() {
        assert(read[k * 4096 + j] == file[p.read_off + (k * 4096 + j)]);
    }
}

/// Address space is handed out upwards, once, up to the end of the region for it.
pub proof fn law_reserved(m: MappingView, len: int)
    requires
        0 <= len,
        has_room(m, len),
    ensures
        reserved(m, len).next_page == m.next_page + len,
        reserved(m, len).next_page <= 0x3000_0000_0000,
        reserved(m, len).refs == m.refs && reserved(m, len).cache == m.cache,
        has_room(m, len) <==> m.next_page + len <= 0x3000_0000_0000,
        MMAP_REGION_CEILING == 0x3000_0000_0000,
{
}

/// The frames known of a file are those known before with the new ones behind; those of other
/// files stay.
pub proof fn law_grown(m: MappingView, id: u64, more: Seq<u64>, other: u64)
    ensures
        grown(m, id, more).cache.contains_key(id),
        known_frames(grown(m, id, more), id) == known_frames(m, id) + more,
        other != id ==> known_frames(grown(m, id, more), other) == known_frames(m, other),
        grown(m, id, more).refs == m.refs && grown(m, id, more).next_page == m.next_page,
{
}

/// The mapping that a plan leads to, and which of its addresses lie behind the end of its file:
/// exactly those behind the backed pages.
pub proof fn law_region(plan: FilePlan, base: u64, addr: u64)
    ensures
        ({
            let r = region_of(plan, base);
            &&& r.va_start == base
            &&& r.npages == plan.page_count
            &&& r.mapped_pages == plan.covered_pages
            &&& r.content_id == plan.content_id
            &&& r.writable == plan.writable
            &&& in_tail(r, addr) <==> plan.covered_pages * 4096 <= addr - base < plan.page_count
                * 4096
        }),
{
}

/// A mapping that is made is its process's newest and counts once more for its file.
pub proof fn law_mapped(s: KernelView, pid: Pid, r: MmapFileRegion, other: u64)
    requires
        s.procs.contains_key(pid),
        ref_count(s.mem, r.content_id) < u64::MAX,
    ensures
        ({
            let t = with_region(s, pid, r);
            &&& t.procs[pid] == (ProcView {
                mmap_file_regions: s.procs[pid].mmap_file_regions.push(r),
                ..s.procs[pid]
            })
            &&& ref_count(t.mem, r.content_id) == ref_count(s.mem, r.content_id) + 1
            &&& other != r.content_id ==> ref_count(t.mem, other) == ref_count(s.mem, other)
            &&& t.mem.cache == s.mem.cache && t.mem.writebacks == s.mem.writebacks
            &&& forall|o: Pid| o != pid && s.procs.contains_key(o) ==> #[trigger] t.procs[o]
                == s.procs[o]
        }),
{
}

/// A mapping is put down for writing back exactly where it may be written to and its file's frames
/// are known; it goes behind those that were put down before, with those frames.
pub proof fn law_noted(m: MappingView, r: MmapFileRegion)
    ensures
        r.writable && m.cache.contains_key(r.content_id) ==> noted(m, r).writebacks
            == m.writebacks.push((r, m.cache[r.content_id])),
        !(r.writable && m.cache.contains_key(r.content_id)) ==> noted(m, r).writebacks
            == m.writebacks,
        noted(m, r).refs == m.refs && noted(m, r).cache == m.cache && noted(m, r).next_page
            == m.next_page,
{
}

/// A mapping that is taken away is gone from its process and the others stay; what was written to
/// is put down for writing back; the frames are forgotten with the last mapping of the file and not
/// before.
pub proof fn law_unmapped(s: KernelView, pid: Pid, i: int, dirty: bool)
    requires
        s.procs.contains_key(pid),
        0 <= i < s.procs[pid].mmap_file_regions.len(),
        mappings_ok(s.mem),
        ref_count(s.mem, s.procs[pid].mmap_file_regions[i].content_id) > 0,
    ensures
        ({
            let r = s.procs[pid].mmap_file_regions[i];
            let t = without_region(s, pid, i, dirty);
            let n = ref_count(s.mem, r.content_id);
            &&& t.procs[pid].mmap_file_regions == s.procs[pid].mmap_file_regions.take(i)
                + s.procs[pid].mmap_file_regions.skip(i + 1)
            &&& ref_count(t.mem, r.content_id) == n - 1
            &&& n > 1 ==> t.mem.cache == s.mem.cache
            &&& n == 1 ==> !t.mem.cache.contains_key(r.content_id)
            &&& dirty && r.writable && s.mem.cache.contains_key(r.content_id)
                ==> t.mem.writebacks == s.mem.writebacks.push((r, s.mem.cache[r.content_id]))
            &&& !(dirty && r.writable) ==> t.mem.writebacks == s.mem.writebacks
            &&& forall|o: Pid| o != pid && s.procs.contains_key(o) ==> #[trigger] t.procs[o]
                == s.procs[o]
        }),
{
    let r = s.procs[pid].mmap_file_regions[i];
    let all = s.procs[pid].mmap_file_regions;
    assert(s.mem.refs.contains_key(r.content_id));
    assert(all.remove(i) =~= all.take(i) + all.skip(i + 1));
}

/// Whatever a process still has mapped when it lets go of everything is written back if it may be
/// written to: each mapping once, with the frames that its file had. What was put down before
/// stays.
pub proof fn law_all_written_back(m: MappingView, regions: Seq<MmapFileRegion>)
    requires
        mappings_ok(m),
        forall|id: u64| #[trigger] ref_count(m, id) >= mappings_of(regions, id),
        forall|i: int|
            0 <= i < regions.len() ==> m.cache.contains_key((#[trigger] regions[i]).content_id),
    ensures
        ({
            let t = released_all(m, regions);
            &&& m.writebacks.is_prefix_of(t.writebacks)
            &&& forall|i: int|
                0 <= i < regions.len() && (#[trigger] regions[i]).writable ==> t.writebacks.contains(
                    (regions[i], m.cache[regions[i].content_id]),
                )
            &&& forall|k: int|
                m.writebacks.len() <= k < t.writebacks.len() ==> (#[trigger] t.writebacks[k]).0.writable
                    && regions.contains(t.writebacks[k].0)
            &&& forall|id: u64| #[trigger]
                ref_count(t, id) > 0 && m.cache.contains_key(id) ==> t.cache.contains_key(id)
                    && t.cache[id] == m.cache[id]
        }),
    decreases regions.len(),
{
    if regions.len() > 0 {
        let before = regions.drop_last();
        let r = regions.last();
        assert forall|id: u64| #[trigger] ref_count(m, id) >= mappings_of(before, id) by {
            assert(ref_count(m, id) >= mappings_of(regions, id));
        }
        assert forall|i: int| 0 <= i < before.len() implies m.cache.contains_key(
            (#[trigger] before[i]).content_id,
        ) by {
            assert(before[i] == regions[i]);
        }
        law_all_written_back(m, before);
        lemma_released_all(m, before);
        let a = released_all(m, before);
        let b = noted(a, r);
        let t = released(b, r.content_id);
        assert(regions[regions.len() - 1] == r);
        assert(ref_count(a, r.content_id) > 0) by {
            assert(ref_count(m, r.content_id) >= mappings_of(regions, r.content_id));
            assert(ref_count(a, r.content_id) == ref_count(m, r.content_id) - mappings_of(
                before,
                r.content_id,
            ));
        }
        assert(a.cache.contains_key(r.content_id) && a.cache[r.content_id]
            == m.cache[r.content_id]);
        assert(t.writebacks == b.writebacks);
        assert forall|i: int|
            0 <= i < regions.len() && (#[trigger] regions[i]).writable implies t.writebacks.contains(
            (regions[i], m.cache[regions[i].content_id]),
        ) by {
            if i < before.len() {
                assert(before[i] == regions[i]);
                let w = (regions[i], m.cache[regions[i].content_id]);
                assert(a.writebacks.contains(w));
                let k = choose|k: int| 0 <= k < a.writebacks.len() && a.writebacks[k] == w;
                assert(t.writebacks[k] == w);
            } else {
                assert(t.writebacks[a.writebacks.len() as int] == (r, m.cache[r.content_id]));
            }
        }
        assert forall|k: int|
            m.writebacks.len() <= k < t.writebacks.len() implies (#[trigger] t.writebacks[k]).0.writable
            && regions.contains(t.writebacks[k].0) by {
            if k < a.writebacks.len() {
                assert(t.writebacks[k] == a.writebacks[k]);
                assert(before.contains(a.writebacks[k].0));
                let j = choose|j: int| 0 <= j < before.len() && before[j] == a.writebacks[k].0;
                assert(regions[j] == a.writebacks[k].0);
            }
        }
        assert forall|id: u64| #[trigger]
            ref_count(t, id) > 0 && m.cache.contains_key(id) implies t.cache.contains_key(id)
            && t.cache[id] == m.cache[id] by {
            assert(ref_count(a, id) > 0);
        }
    }
}

/// What is written back: byte for byte what the frames hold.
pub proof fn law_staged(frames: Seq<Seq<u8>>, len: nat, page: int, off: int)
    requires
        0 <= page < frames.len(),
        0 <= off < 4096,
        page * 4096 + off < len,
    ensures
        staged(frames, len).len() == len,
        staged(frames, len)[page * 4096 + off] == frames[page][off],
{
    assert((page * 4096 + off) / 4096 == page && (page * 4096 + off) % 4096 == off);
}

/// Beyond the frames there is nothing but zeros.
pub proof fn law_staged_rest(frames: Seq<Seq<u8>>, len: nat, i: int)
    requires
        frames.len() * 4096 <= i < len,
    ensures
        staged(frames, len)[i] == 0,
{
}

/// What can be unmapped: a range of at least one byte that ends before the last address and begins
/// and ends at addresses that the processor takes.
pub proof fn law_unmappable(addr: u64, len: u64)
    ensures
        len == 0 ==> !unmappable(addr, len),
        unmappable(addr, len) <==> len > 0 && addr + pages_for(len) * 4096 <= u64::MAX && canonical(
            addr,
        ) && canonical((addr + pages_for(len) * 4096 - 1) as u64),
        canonical(addr) <==> (addr <= 0x7fff_ffff_ffff || addr >= 0xffff_8000_0000_0000),
{
}

/// Which mapping an address names: the first that starts there, and no two are the first.
pub proof fn law_region_at(regions: Seq<MmapFileRegion>, addr: u64, i: int, j: int)
    requires
        region_at(regions, addr, i),
        0 <= j < regions.len(),
        regions[j].va_start == addr,
    ensures
        i <= j,
        regions[i].va_start == addr,
{
}

/// Growing a heap backs exactly the pages that are new to it: every page with a byte between the
/// old end and the new one, but for the one that the old end reaches into.
pub proof fn law_heap_pages(top: u64, addr: u64, page: u64)
    requires
        top < addr,
        page % 4096 == 0,
        page_ceil(top) < addr,
    ensures
        page_ceil(top) % 4096 == 0,
        page_ceil(top) <= page <= page_floor((addr - 1) as u64) <==> top <= page < addr,
        BRK_REGION_CEILING == 0x1000_0000,
{
}

/// Moving the end of a heap moves nothing else.
pub proof fn law_heap_end(s: KernelView, pid: Pid, top: u64)
    requires
        s.procs.contains_key(pid),
    ensures
        with_brk(s, pid, top).procs[pid] == (ProcView { brk: top, ..s.procs[pid] }),
        forall|o: Pid| o != pid && s.procs.contains_key(o) ==> #[trigger] with_brk(
            s,
            pid,
            top,
        ).procs[o] == s.procs[o],
        with_brk(s, pid, top).mem == s.mem && with_brk(s, pid, top).ready == s.ready,
{
}

} // verus!
