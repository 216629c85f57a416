//! Memory mappings: `mmap`, `munmap`, `mprotect` and `brk`.
//!
//! Page tables and file contents belong to the caller. What is decided here is which addresses a
//! mapping gets, which of its pages are backed, which frames two mappings of one file share, when
//! a file's frames are let go, and what has to be written back.

use vstd::prelude::*;
use crate::addr::{canonical, is_canonical, page_floor, pages_for, PAGE_SIZE};
use crate::exec::strings;
use crate::errno::{EINVAL, ENODEV, ENOMEM};
use crate::ordmap::OrdMap;
use crate::process::{with_proc, Kernel, KernelView, Pid, ProcView, SIGBUS, SIGSEGV};

verus! {

/// Where mappings start.
pub const MMAP_REGION_BASE: u64 = 0x2000_0000_0000;
/// Where mappings end.
pub const MMAP_REGION_CEILING: u64 = 0x3000_0000_0000;
/// A mapping may be written through.
pub const PROT_WRITE: u64 = 0x2;
/// How far a heap can grow.
pub const BRK_REGION_CEILING: u64 = 0x1000_0000;

/// A live mapping of a file.
#[derive(Clone, Copy, PartialEq, Eq, Structural, Debug)]
pub struct MmapFileRegion {
    pub va_start: u64,
    pub npages: u64,
    /// How many of the pages are backed; the rest lies beyond the end of the file.
    pub mapped_pages: u64,
    pub content_id: u64,
    pub writable: bool,
}

/// A mapping that lies inside the region set aside for mappings.
pub open spec fn region_ok(r: MmapFileRegion) -> bool {
    &&& r.mapped_pages <= r.npages
    &&& r.va_start + r.npages * PAGE_SIZE <= MMAP_REGION_CEILING
}

/// Every mapping lies inside the region.
pub open spec fn regions_ok(regions: Seq<MmapFileRegion>) -> bool {
    forall|i: int| 0 <= i < regions.len() ==> region_ok(#[trigger] regions[i])
}

/// A mapping to be written back to its file, with the frames that hold its contents.
pub struct Writeback {
    pub region: MmapFileRegion,
    pub frames: Vec<u64>,
}

/// Addresses handed out, and the frames that mappings of files share.
pub struct MappingState {
    /// The next address to hand out.
    pub next_page: u64,
    /// The frames of each mapped file.
    pub cache: OrdMap<Vec<u64>>,
    /// How many live mappings each file has.
    pub refs: OrdMap<u64>,
    /// What is still to be written back, in order.
    pub writebacks: Vec<Writeback>,
}

/// The mapping state as contracts see it.
#[verifier::ext_equal]
pub struct MappingView {
    pub next_page: u64,
    pub cache: Map<u64, Seq<u64>>,
    pub refs: Map<u64, u64>,
    pub writebacks: Seq<(MmapFileRegion, Seq<u64>)>,
}

/// Frame lists as sequences.
pub open spec fn frame_views(m: Map<u64, Vec<u64>>) -> Map<u64, Seq<u64>> {
    Map::new(|k: u64| m.contains_key(k), |k: u64| m[k]@)
}

/// Writebacks as pairs.
pub open spec fn writeback_views(w: Seq<Writeback>) -> Seq<(MmapFileRegion, Seq<u64>)> {
    Seq::new(w.len(), |i: int| (w[i].region, w[i].frames@))
}

impl View for MappingState {
    type V = MappingView;

    open spec fn view(&self) -> MappingView {
        MappingView {
            next_page: self.next_page,
            cache: frame_views(self.cache@),
            refs: self.refs@,
            writebacks: writeback_views(self.writebacks@),
        }
    }
}

/// Nothing mapped yet.
pub open spec fn empty_mappings() -> MappingView {
    MappingView {
        next_page: MMAP_REGION_BASE,
        cache: Map::empty(),
        refs: Map::empty(),
        writebacks: Seq::empty(),
    }
}

/// The next address is page-aligned and inside the region, and every count is positive.
pub open spec fn mappings_ok(m: MappingView) -> bool {
    &&& MMAP_REGION_BASE <= m.next_page <= MMAP_REGION_CEILING
    &&& m.next_page % PAGE_SIZE == 0
    &&& forall|id: u64| #[trigger] m.refs.contains_key(id) ==> m.refs[id] >= 1
}

impl MappingState {
    /// The tables are well formed and their contents consistent.
    pub open spec fn wf(&self) -> bool {
        &&& self.cache.wf()
        &&& self.refs.wf()
        &&& mappings_ok(self@)
    }

    /// Nothing mapped yet.
    pub fn new() -> (m: Self)
        ensures
            m.wf(),
            m@ == empty_mappings(),
    {
        let m = MappingState {
            next_page: MMAP_REGION_BASE,
            cache: OrdMap::new(),
            refs: OrdMap::new(),
            writebacks: Vec::new(),
        };
        assert(m@ =~= empty_mappings());
        m
    }
}

/// One mapping of `id` fewer; with the last one the file's frames are forgotten.
pub open spec fn released(m: MappingView, id: u64) -> MappingView {
    if !m.refs.contains_key(id) {
        m
    } else if m.refs[id] == 1 {
        MappingView { refs: m.refs.remove(id), cache: m.cache.remove(id), ..m }
    } else {
        MappingView { refs: m.refs.insert(id, (m.refs[id] - 1) as u64), ..m }
    }
}

/// A writable mapping of a file whose frames are known is put down for writing back.
pub open spec fn noted(m: MappingView, r: MmapFileRegion) -> MappingView {
    if r.writable && m.cache.contains_key(r.content_id) {
        MappingView { writebacks: m.writebacks.push((r, m.cache[r.content_id])), ..m }
    } else {
        m
    }
}

/// Every mapping of `regions` put down for writing back and released, in order.
pub open spec fn released_all(m: MappingView, regions: Seq<MmapFileRegion>) -> MappingView
    decreases regions.len(),
{
    if regions.len() == 0 {
        m
    } else {
        let r = regions.last();
        released(noted(released_all(m, regions.drop_last()), r), r.content_id)
    }
}

/// Releases one mapping of `content_id`.
pub fn release_mmap_file_ref(m: &mut MappingState, content_id: u64)
    requires
        old(m).wf(),
    ensures
        final(m).wf(),
        final(m)@ == released(old(m)@, content_id),
{
    let ghost before = m@;
    let count: u64 = match m.refs.get(content_id) {
        Some(c) => *c,
        None => {
            return ;
        },
    };
    if count == 1 {
        m.refs.remove(content_id);
        m.cache.remove(content_id);
        assert(m@.cache =~= before.cache.remove(content_id));
    } else {
        m.refs.insert(content_id, count - 1);
    }
}

/// Puts `region` down for writing back.
fn note_writeback(m: &mut MappingState, region: MmapFileRegion)
    requires
        old(m).wf(),
    ensures
        final(m).wf(),
        final(m)@ == noted(old(m)@, region),
{
    let ghost before = m@;
    if !region.writable {
        return ;
    }
    let frames: Vec<u64> = match m.cache.get(region.content_id) {
        Some(f) => f.clone(),
        None => {
            return ;
        },
    };
    assert(frames@ =~= before.cache[region.content_id]);
    m.writebacks.push(Writeback { region, frames });
    assert(m@.writebacks =~= before.writebacks.push((region, before.cache[region.content_id])));
}

/// How many bytes of a mapping go back to its file, which is `size` bytes long: all of the file,
/// unless the mapping is read-only, the file is empty or it has outgrown the mapping.
pub fn writeback_extent(region: &MmapFileRegion, size: i64) -> (r: Option<u64>)
    requires
        region_ok(*region),
    ensures
        r == if region.writable && 0 < size <= region.npages * PAGE_SIZE {
            Some(size as u64)
        } else {
            None::<u64>
        },
{
    if !region.writable || size <= 0 {
        return None;
    }
    let current: u64 = size as u64;
    if current > region.npages * PAGE_SIZE {
        return None;
    }
    Some(current)
}

/// The contents of a mapping as far as its frames go, and zeros beyond.
pub open spec fn staged(frames: Seq<Seq<u8>>, len: nat) -> Seq<u8> {
    Seq::new(
        len,
        |i: int|
            if i / 4096 < frames.len() {
                frames[i / 4096][i % 4096]
            } else {
                0u8
            },
    )
}

/// Page number `i` of `data`, with zeros beyond its end.
pub open spec fn page_of(data: Seq<u8>, i: int) -> Seq<u8> {
    Seq::new(
        4096,
        |j: int|
            if i * 4096 + j < data.len() {
                data[i * 4096 + j]
            } else {
                0u8
            },
    )
}

/// What goes into `count` new frames of a file: the bytes that were read for them, and zeros.
pub fn populate_frames(data: &[u8], count: u64) -> (r: Vec<Vec<u8>>)
    requires
        count <= 0x000f_ffff_ffff_ffff,
    ensures
        strings(r@) == Seq::new(count as nat, |i: int| page_of(data@, i)),
{
    let mut pages: Vec<Vec<u8>> = Vec::new();
    let mut i: u64 = 0;
    assert(strings(pages@) =~= Seq::new(0, |k: int| page_of(data@, k)));
    while i < count
        invariant
            i <= count <= 0x000f_ffff_ffff_ffff,
            strings(pages@) == Seq::new(i as nat, |k: int| page_of(data@, k)),
        decreases count - i,
    {
        let mut page: Vec<u8> = Vec::new();
        let mut j: u64 = 0;
        while j < 4096
            invariant
                j <= 4096,
                i < 0x000f_ffff_ffff_ffff,
                page@ == page_of(data@, i as int).take(j as int),
            decreases 4096 - j,
        {
            let at: u64 = i * 4096 + j;
            let byte: u8 = if at < data.len() as u64 {
                data[at as usize]
            } else {
                0
            };
            page.push(byte);
            j += 1;
            assert(page@ =~= page_of(data@, i as int).take(j as int));
        }
        assert(page@ =~= page_of(data@, i as int));
        let ghost before = pages@;
        pages.push(page);
        i += 1;
        assert(strings(pages@) =~= strings(before).push(page_of(data@, i - 1)));
        assert(strings(pages@) =~= Seq::new(i as nat, |k: int| page_of(data@, k)));
    }
    pages
}

/// What is written back to a mapping's file, which is `size` bytes long: the contents of the frames
/// up to the end of the file. `None` where nothing is written.
pub fn writeback_region(region: &MmapFileRegion, size: i64, frames: &Vec<Vec<u8>>) -> (r: Option<
    Vec<u8>,
>)
    requires
        region_ok(*region),
        forall|i: int| 0 <= i < frames@.len() ==> (#[trigger] frames@[i])@.len() == 4096,
    ensures
        match r {
            Some(bytes) => {
                &&& region.writable && 0 < size <= region.npages * PAGE_SIZE
                &&& bytes@ == staged(strings(frames@), size as nat)
            },
            None => !(region.writable && 0 < size <= region.npages * PAGE_SIZE),
        },
{
    let len: u64 = match writeback_extent(region, size) {
        Some(n) => n,
        None => {
            return None;
        },
    };
    let mut out: Vec<u8> = Vec::new();
    let mut i: u64 = 0;
    while i < len
        invariant
            i <= len,
            len == size,
            forall|j: int| 0 <= j < frames@.len() ==> (#[trigger] frames@[j])@.len() == 4096,
            out@ == staged(strings(frames@), i as nat),
        decreases len - i,
    {
        let page: u64 = i / 4096;
        let off: usize = (i % 4096) as usize;
        let byte: u8 = if page < frames.len() as u64 {
            frames[page as usize][off]
        } else {
            0
        };
        out.push(byte);
        i += 1;
        assert(out@ =~= staged(strings(frames@), i as nat));
    }
    Some(out)
}

/// Hands out the next `len` bytes of address space.
pub open spec fn reserved(m: MappingView, len: int) -> MappingView {
    MappingView { next_page: (m.next_page + len) as u64, ..m }
}

/// Whether `len` more bytes of address space are left.
pub open spec fn has_room(m: MappingView, len: int) -> bool {
    m.next_page + len <= MMAP_REGION_CEILING
}

fn reserve(m: &mut MappingState, len: u64) -> (r: Result<u64, u64>)
    requires
        old(m).wf(),
        len % PAGE_SIZE == 0,
    ensures
        final(m).wf(),
        has_room(old(m)@, len as int) ==> r == Ok::<u64, u64>(old(m)@.next_page) && final(m)@
            == reserved(old(m)@, len as int),
        !has_room(old(m)@, len as int) ==> r == Err::<u64, u64>(ENOMEM) && final(m)@ == old(m)@,
{
    let base: u64 = m.next_page;
    match base.checked_add(len) {
        Some(end) => {
            if end > MMAP_REGION_CEILING {
                return Err(ENOMEM);
            }
            assert(end % 4096 == 0) by {
                assert(base % 4096 == 0 && len % 4096 == 0);
            }
            let ghost before = m@;
            m.next_page = end;
            assert(m@.refs == before.refs);
            Ok(base)
        },
        None => Err(ENOMEM),
    }
}

/// What is needed before a file can be mapped.
#[derive(Clone, Copy, PartialEq, Eq, Structural, Debug)]
pub struct FilePlan {
    pub content_id: u64,
    /// Pages of address space asked for.
    pub page_count: u64,
    /// Pages that the file reaches into, at most `page_count`.
    pub covered_pages: u64,
    /// Frames to allocate, zero and add to the file's list.
    pub new_frames: u64,
    /// Where in the file the new frames start.
    pub read_off: u64,
    /// How many bytes of the file go into them.
    pub read_len: u64,
    pub writable: bool,
}

/// The smaller of two numbers.
pub open spec fn min_of(a: int, b: int) -> int {
    if a <= b {
        a
    } else {
        b
    }
}

/// The frames known of a file.
pub open spec fn known_frames(m: MappingView, id: u64) -> Seq<u64> {
    if m.cache.contains_key(id) {
        m.cache[id]
    } else {
        Seq::empty()
    }
}

/// The plan for mapping `page_count` pages of a file of `size` bytes: pages wholly beyond its end
/// stay unbacked, frames already known are shared, and the missing ones take the bytes of the file
/// that fall into them.
pub open spec fn file_plan(
    m: MappingView,
    page_count: u64,
    prot: u64,
    id: u64,
    size: i64,
) -> FilePlan {
    let bytes: u64 = if size > 0 {
        size as u64
    } else {
        0
    };
    let covered = min_of(pages_for(bytes), page_count as int);
    let have = known_frames(m, id).len() as int;
    let grow = have < covered;
    FilePlan {
        content_id: id,
        page_count,
        covered_pages: covered as u64,
        new_frames: if grow {
            (covered - have) as u64
        } else {
            0
        },
        read_off: if grow {
            (have * PAGE_SIZE) as u64
        } else {
            0
        },
        read_len: if grow {
            min_of(bytes - have * PAGE_SIZE, (covered - have) * PAGE_SIZE) as u64
        } else {
            0
        },
        writable: prot & PROT_WRITE != 0,
    }
}

/// Plans the mapping of a file. `content` is the file's identity and length, if the descriptor
/// names a file at all.
pub fn do_mmap_file_backed(
    m: &MappingState,
    page_count: u64,
    prot: u64,
    off: u32,
    content: Option<(u64, i64)>,
) -> (r: Result<FilePlan, u64>)
    requires
        m.wf(),
    ensures
        off != 0 ==> r == Err::<FilePlan, u64>(EINVAL),
        off == 0 && content is None ==> r == Err::<FilePlan, u64>(ENODEV),
        off == 0 ==> (content matches Some(c) ==> r == Ok::<FilePlan, u64>(
            file_plan(m@, page_count, prot, c.0, c.1),
        )),
{
    if off != 0 {
        return Err(EINVAL);
    }
    let (content_id, size): (u64, i64) = match content {
        Some(c) => c,
        None => {
            return Err(ENODEV);
        },
    };
    let bytes: u64 = if size > 0 {
        size as u64
    } else {
        0
    };
    let reach: u64 = crate::addr::page_count(bytes);
    let covered: u64 = if reach < page_count {
        reach
    } else {
        page_count
    };
    let have: u64 = match m.cache.get(content_id) {
        Some(f) => f.len() as u64,
        None => 0,
    };
    let writable: bool = prot & PROT_WRITE != 0;
    if have < covered {
        let read_off: u64 = have * PAGE_SIZE;
        let left: u64 = bytes - read_off;
        let room: u64 = (covered - have) * PAGE_SIZE;
        let read_len: u64 = if left < room {
            left
        } else {
            room
        };
        Ok(
            FilePlan {
                content_id,
                page_count,
                covered_pages: covered,
                new_frames: covered - have,
                read_off,
                read_len,
                writable,
            },
        )
    } else {
        Ok(
            FilePlan {
                content_id,
                page_count,
                covered_pages: covered,
                new_frames: 0,
                read_off: 0,
                read_len: 0,
                writable,
            },
        )
    }
}

/// What `do_mmap` asks of the caller.
#[derive(Clone, Copy, PartialEq, Eq, Structural, Debug)]
pub enum MmapPlan {
    /// Back `pages` pages from `base` on with zeroed frames.
    Anonymous { base: u64, pages: u64 },
    /// Get the frames of a file ready, then go on with `place_file_mapping`.
    File(FilePlan),
}

/// Plans a mapping of `len` bytes: of zeroed memory where `fd` is negative, else of the file that
/// `content` describes. The address hint is not followed.
pub fn do_mmap(
    m: &mut MappingState,
    addr_hint: u64,
    len: u64,
    prot: u64,
    fd: i32,
    off: u32,
    content: Option<(u64, i64)>,
) -> (r: Result<MmapPlan, u64>)
    requires
        old(m).wf(),
        len <= 0xffff_ffff_ffff_f000,
    ensures
        final(m).wf(),
        len == 0 ==> r == Err::<MmapPlan, u64>(EINVAL) && final(m)@ == old(m)@,
        len > 0 && fd >= 0 ==> {
            &&& final(m)@ == old(m)@
            &&& off != 0 ==> r == Err::<MmapPlan, u64>(EINVAL)
            &&& off == 0 && content is None ==> r == Err::<MmapPlan, u64>(ENODEV)
            &&& off == 0 ==> (content matches Some(c) ==> r == Ok::<MmapPlan, u64>(
                MmapPlan::File(file_plan(old(m)@, pages_for(len) as u64, prot, c.0, c.1)),
            ))
        },
        len > 0 && fd < 0 ==> {
            let bytes = pages_for(len) * PAGE_SIZE;
            if has_room(old(m)@, bytes) {
                &&& r == Ok::<MmapPlan, u64>(
                    MmapPlan::Anonymous { base: old(m)@.next_page, pages: pages_for(len) as u64 },
                )
                &&& final(m)@ == reserved(old(m)@, bytes)
            } else {
                r == Err::<MmapPlan, u64>(ENOMEM) && final(m)@ == old(m)@
            }
        },
{
    if len == 0 {
        return Err(EINVAL);
    }
    let pages: u64 = crate::addr::page_count(len);
    if fd >= 0 {
        return match do_mmap_file_backed(m, pages, prot, off, content) {
            Ok(p) => Ok(MmapPlan::File(p)),
            Err(e) => Err(e),
        };
    }
    let bytes: u64 = pages * PAGE_SIZE;
    match reserve(m, bytes) {
        Ok(base) => Ok(MmapPlan::Anonymous { base, pages }),
        Err(e) => Err(e),
    }
}

/// The answer to `mmap` once the pages were, or could not be, backed.
pub fn mmap_result(base: u64, backed: bool) -> (r: Result<u64, u64>)
    ensures
        r == if backed {
            Ok::<u64, u64>(base)
        } else {
            Err(ENOMEM)
        },
{
    if backed {
        Ok(base)
    } else {
        Err(ENOMEM)
    }
}

/// The frames of `id` with `more` behind them.
pub open spec fn grown(m: MappingView, id: u64, more: Seq<u64>) -> MappingView {
    MappingView { cache: m.cache.insert(id, known_frames(m, id) + more), ..m }
}

/// Files the frames that the plan asked for and finds room for the mapping. On success the answer
/// is its address and the frames that back its first `covered_pages` pages; the frames stay filed
/// even where no room is left.
pub fn place_file_mapping(m: &mut MappingState, plan: &FilePlan, frames: Vec<u64>) -> (r: Result<
    (u64, Vec<u64>),
    u64,
>)
    requires
        old(m).wf(),
        plan.page_count <= 0x000f_ffff_ffff_ffff,
    ensures
        final(m).wf(),
        ({
            let g = grown(old(m)@, plan.content_id, frames@);
            let bytes = plan.page_count * PAGE_SIZE;
            let all = g.cache[plan.content_id];
            if has_room(g, bytes) {
                &&& r is Ok
                &&& r->Ok_0.0 == g.next_page
                &&& r->Ok_0.1@ == all.take(min_of(plan.covered_pages as int, all.len() as int))
                &&& final(m)@ == reserved(g, bytes)
            } else {
                r == Err::<(u64, Vec<u64>), u64>(ENOMEM) && final(m)@ == g
            }
        }),
{
    let ghost before = m@;
    let mut all: Vec<u64> = match m.cache.get(plan.content_id) {
        Some(f) => f.clone(),
        None => Vec::new(),
    };
    assert(all@ =~= known_frames(before, plan.content_id));
    let mut more: Vec<u64> = frames;
    all.append(&mut more);
    let mut backing: Vec<u64> = Vec::new();
    let mut i: usize = 0;
    while i < all.len() && (i as u64) < plan.covered_pages
        invariant
            i <= all@.len(),
            i <= plan.covered_pages,
            backing@ == all@.take(i as int),
        decreases all@.len() - i,
    {
        backing.push(all[i]);
        i += 1;
    }
    m.cache.insert(plan.content_id, all);
    assert(m@.cache =~= grown(before, plan.content_id, frames@).cache);
    match reserve(m, plan.page_count * PAGE_SIZE) {
        Ok(base) => Ok((base, backing)),
        Err(e) => Err(e),
    }
}

/// The mapping that a plan placed at `base` leads to.
pub open spec fn region_of(plan: FilePlan, base: u64) -> MmapFileRegion {
    MmapFileRegion {
        va_start: base,
        npages: plan.page_count,
        mapped_pages: plan.covered_pages,
        content_id: plan.content_id,
        writable: plan.writable,
    }
}

/// How many live mappings `id` has.
pub open spec fn ref_count(m: MappingView, id: u64) -> int {
    if m.refs.contains_key(id) {
        m.refs[id] as int
    } else {
        0
    }
}

/// One more mapping of `id`.
pub open spec fn retained(m: MappingView, id: u64) -> MappingView {
    MappingView { refs: m.refs.insert(id, (ref_count(m, id) + 1) as u64), ..m }
}

/// `s` after process `pid` has gained the mapping `r`.
pub open spec fn with_region(s: KernelView, pid: Pid, r: MmapFileRegion) -> KernelView {
    let p = s.procs[pid];
    KernelView {
        mem: retained(s.mem, r.content_id),
        ..with_proc(s, pid, ProcView { mmap_file_regions: p.mmap_file_regions.push(r), ..p })
    }
}

/// Records a mapping whose pages are in place.
pub fn commit_file_mapping(k: &mut Kernel, caller_pid: Pid, plan: &FilePlan, base: u64)
    requires
        old(k).wf(),
        old(k)@.procs.contains_key(caller_pid),
        region_ok(region_of(*plan, base)),
        ref_count(old(k)@.mem, plan.content_id) < u64::MAX,
    ensures
        final(k).wf(),
        final(k)@ == with_region(old(k)@, caller_pid, region_of(*plan, base)),
{
    broadcast use crate::process::group_views;

    let ghost before = k@;
    let count: u64 = match k.mem.refs.get(plan.content_id) {
        Some(c) => *c,
        None => 0,
    };
    k.mem.refs.insert(plan.content_id, count + 1);
    let r = MmapFileRegion {
        va_start: base,
        npages: plan.page_count,
        mapped_pages: plan.covered_pages,
        content_id: plan.content_id,
        writable: plan.writable,
    };
    if let Some(p) = k.procs.get_mut(caller_pid) {
        p.mmap_file_regions.push(r);
    }
    assert(k@ =~= with_region(before, caller_pid, r));
}

/// Whether `addr` lies in the part of a mapping beyond the end of its file.
pub open spec fn in_tail(r: MmapFileRegion, addr: u64) -> bool {
    r.va_start + r.mapped_pages * PAGE_SIZE <= addr < r.va_start + r.npages * PAGE_SIZE
}

/// The signal that a program earns by touching the unmapped address `addr`.
pub fn signal_for_user_fault(k: &Kernel, caller_pid: Pid, addr: u64) -> (r: u64)
    requires
        k.wf(),
    ensures
        r == if k@.procs.contains_key(caller_pid) && exists|i: int|
            0 <= i < k@.procs[caller_pid].mmap_file_regions.len() && in_tail(
                #[trigger] k@.procs[caller_pid].mmap_file_regions[i],
                addr,
            ) {
            SIGBUS
        } else {
            SIGSEGV
        },
{
    let me = match k.procs.get(caller_pid) {
        Some(p) => p,
        None => {
            return SIGSEGV;
        },
    };
    let ghost regions = k@.procs[caller_pid].mmap_file_regions;
    assert(k@.procs.contains_key(caller_pid));
    assert(crate::process::proc_ok(k@.procs[caller_pid]));
    let mut i: usize = 0;
    while i < me.mmap_file_regions.len()
        invariant
            regions == me.mmap_file_regions@,
            regions == k@.procs[caller_pid].mmap_file_regions,
            k@.procs.contains_key(caller_pid),
            i <= regions.len(),
            regions_ok(regions),
            forall|j: int| 0 <= j < i ==> !in_tail(#[trigger] regions[j], addr),
        decreases regions.len() - i,
    {
        let r = me.mmap_file_regions[i];
        assert(region_ok(regions[i as int]));
        assert(r.mapped_pages * PAGE_SIZE <= r.npages * PAGE_SIZE);
        let backed_end: u64 = r.va_start + r.mapped_pages * PAGE_SIZE;
        let reserved_end: u64 = r.va_start + r.npages * PAGE_SIZE;
        if addr >= backed_end && addr < reserved_end {
            assert(in_tail(regions[i as int], addr));
            return SIGBUS;
        }
        i += 1;
    }
    SIGSEGV
}

/// The pages that `munmap` clears, first and last.
#[derive(Clone, Copy, PartialEq, Eq, Structural, Debug)]
pub struct UnmapPlan {
    pub first_page: u64,
    pub last_page: u64,
    /// Whether a mapping of a file starts at the address.
    pub file_region: bool,
}

/// Whether `[addr, addr + len)`, rounded up to whole pages, is a range of addresses at all.
pub open spec fn unmappable(addr: u64, len: u64) -> bool {
    let end = addr + pages_for(len) * PAGE_SIZE - 1;
    &&& len > 0
    &&& pages_for(len) * PAGE_SIZE <= u64::MAX
    &&& end < u64::MAX
    &&& canonical(addr)
    &&& canonical(end as u64)
}

/// The position of the mapping of a file that starts at `addr`.
pub open spec fn region_at(regions: Seq<MmapFileRegion>, addr: u64, i: int) -> bool {
    &&& 0 <= i < regions.len()
    &&& regions[i].va_start == addr
    &&& forall|j: int| 0 <= j < i ==> (#[trigger] regions[j]).va_start != addr
}

fn find_region(regions: &Vec<MmapFileRegion>, addr: u64) -> (r: Option<usize>)
    ensures
        match r {
            Some(i) => region_at(regions@, addr, i as int),
            None => forall|i: int| !#[trigger] region_at(regions@, addr, i),
        },
{
    let mut i: usize = 0;
    while i < regions.len()
        invariant
            i <= regions@.len(),
            forall|j: int| 0 <= j < i ==> (#[trigger] regions@[j]).va_start != addr,
        decreases regions@.len() - i,
    {
        if regions[i].va_start == addr {
            return Some(i);
        }
        i += 1;
    }
    None
}

/// Plans `munmap`. The caller clears every page of the plan that user code may touch, notes
/// whether any of them was written to, and goes on with `complete_munmap`.
pub fn do_munmap(k: &Kernel, caller_pid: Pid, addr: u64, len: u64) -> (r: Result<UnmapPlan, u64>)
    requires
        k.wf(),
        unmappable(addr, len) ==> k@.procs.contains_key(caller_pid),
    ensures
        !unmappable(addr, len) ==> r == Err::<UnmapPlan, u64>(EINVAL),
        unmappable(addr, len) ==> {
            &&& r is Ok
            &&& r->Ok_0.first_page == page_floor(addr)
            &&& r->Ok_0.last_page == page_floor((addr + pages_for(len) * PAGE_SIZE - 1) as u64)
            &&& r->Ok_0.file_region <==> exists|i: int|
                #[trigger] region_at(k@.procs[caller_pid].mmap_file_regions, addr, i)
        },
{
    if len == 0 {
        return Err(EINVAL);
    }
    let pages: u64 = crate::addr::page_count(len);
    let region_len: u64 = match pages.checked_mul(PAGE_SIZE) {
        Some(l) => l,
        None => {
            return Err(EINVAL);
        },
    };
    let end: u64 = match addr.checked_add(region_len) {
        Some(e) => e,
        None => {
            return Err(EINVAL);
        },
    };
    let last: u64 = match end.checked_sub(1) {
        Some(l) => l,
        None => {
            return Err(EINVAL);
        },
    };
    if !is_canonical(addr) || !is_canonical(last) {
        return Err(EINVAL);
    }
    let file_region: bool = match k.procs.get(caller_pid) {
        Some(p) => match find_region(&p.mmap_file_regions, addr) {
            Some(i) => {
                assert(region_at(k@.procs[caller_pid].mmap_file_regions, addr, i as int));
                true
            },
            None => false,
        },
        None => false,
    };
    assert(last == addr + pages_for(len) * PAGE_SIZE - 1);
    Ok(
        UnmapPlan {
            first_page: addr - addr % PAGE_SIZE,
            last_page: last - last % PAGE_SIZE,
            file_region,
        },
    )
}

/// `s` after the mapping of a file at position `i` of process `pid` has gone; it is put down for
/// writing back where it was written to.
pub open spec fn without_region(s: KernelView, pid: Pid, i: int, dirty: bool) -> KernelView {
    let p = s.procs[pid];
    let r = p.mmap_file_regions[i];
    let m = if dirty {
        noted(s.mem, r)
    } else {
        s.mem
    };
    KernelView {
        mem: released(m, r.content_id),
        ..with_proc(s, pid, ProcView { mmap_file_regions: p.mmap_file_regions.remove(i), ..p })
    }
}

/// Finishes `munmap` once the pages are cleared: a mapping of a file that starts at `addr` ends.
pub fn complete_munmap(k: &mut Kernel, caller_pid: Pid, addr: u64, any_dirty: bool) -> (r: Result<
    u64,
    u64,
>)
    requires
        old(k).wf(),
        old(k)@.procs.contains_key(caller_pid),
    ensures
        final(k).wf(),
        r == Ok::<u64, u64>(0),
        forall|i: int| #[trigger]
            region_at(old(k)@.procs[caller_pid].mmap_file_regions, addr, i) ==> final(k)@
                == without_region(old(k)@, caller_pid, i, any_dirty),
        (forall|i: int|
            !#[trigger] region_at(old(k)@.procs[caller_pid].mmap_file_regions, addr, i))
            ==> final(k)@ == old(k)@,
{
    broadcast use crate::process::group_views;

    let ghost before = k@;
    if let Some(p) = k.procs.get_mut(caller_pid) {
        if let Some(i) = find_region(&p.mmap_file_regions, addr) {
            let r = p.mmap_file_regions.remove(i);
            if any_dirty {
                note_writeback(&mut k.mem, r);
            }
            release_mmap_file_ref(&mut k.mem, r.content_id);
            assert(k@ =~= without_region(before, caller_pid, i as int, any_dirty));
        } else {
            assert(k@ =~= before);
        }
    }
    Ok(0)
}

/// `s` after every mapping of a file that `pid` had is put down for writing back and released.
pub open spec fn without_regions(s: KernelView, pid: Pid) -> KernelView {
    if s.procs.contains_key(pid) {
        let p = s.procs[pid];
        KernelView {
            mem: released_all(s.mem, p.mmap_file_regions),
            ..with_proc(s, pid, ProcView { mmap_file_regions: Seq::empty(), ..p })
        }
    } else {
        s
    }
}

/// Ends every mapping of a file that process `pid` still has.
pub fn cleanup_mmap_file_regions_for_exit(k: &mut Kernel, pid: Pid)
    requires
        old(k).wf(),
    ensures
        final(k).wf(),
        final(k)@ == without_regions(old(k)@, pid),
{
    broadcast use crate::process::group_views;

    let ghost before = k@;
    let mut regions: Vec<MmapFileRegion> = Vec::new();
    match k.procs.get_mut(pid) {
        Some(p) => {
            std::mem::swap(&mut regions, &mut p.mmap_file_regions);
        },
        None => {
            return ;
        },
    }
    let ghost mem0 = k.mem@;
    let ghost after = k@;
    let mut i: usize = 0;
    while i < regions.len()
        invariant
            i <= regions@.len(),
            k.mem.wf(),
            k.mem@ == released_all(mem0, regions@.take(i as int)),
            k.procs.wf(),
            (KernelView { mem: mem0, ..k@ }) == after,
        decreases regions@.len() - i,
    {
        let r = regions[i];
        proof {
            assert(regions@.take(i + 1).drop_last() =~= regions@.take(i as int));
        }
        note_writeback(&mut k.mem, r);
        release_mmap_file_ref(&mut k.mem, r.content_id);
        i += 1;
    }
    assert(regions@.take(i as int) =~= regions@);
    assert(k@ =~= without_regions(before, pid));
}

/// Changes nothing: page protection is not enforced.
pub fn do_mprotect(addr: u64, len: u64, prot: u64) -> (r: Result<u64, u64>)
    ensures
        r == Ok::<u64, u64>(0),
{
    Ok(0)
}

/// How `brk` goes on.
#[derive(Clone, Copy, PartialEq, Eq, Debug)]
pub enum BrkPlan {
    /// It is over, with this answer.
    Done(Result<u64, u64>),
    /// Back the pages from `first_page` to `last_page` with zeroed frames, then go on with
    /// `complete_brk`.
    Grow { first_page: u64, last_page: u64, new_top: u64 },
}

/// The first address past the page that `top` reaches into.
pub open spec fn page_ceil(top: u64) -> int {
    pages_for(top) * PAGE_SIZE
}

/// `s` with the heap of `pid` ending at `top`.
pub open spec fn with_brk(s: KernelView, pid: Pid, top: u64) -> KernelView {
    with_proc(s, pid, ProcView { brk: top, ..s.procs[pid] })
}

/// Moves the end of the caller's heap to `addr`; `0` asks where it is.
pub fn do_brk(k: &mut Kernel, caller_pid: Pid, addr: u64) -> (r: BrkPlan)
    requires
        old(k).wf(),
        old(k)@.procs.contains_key(caller_pid),
    ensures
        final(k).wf(),
        ({
            let s = old(k)@;
            let top = s.procs[caller_pid].brk;
            if addr == 0 {
                r == BrkPlan::Done(Ok(top)) && final(k)@ == s
            } else if addr <= top {
                r == BrkPlan::Done(Ok(addr)) && final(k)@ == with_brk(s, caller_pid, addr)
            } else if addr > BRK_REGION_CEILING {
                r == BrkPlan::Done(Err(ENOMEM)) && final(k)@ == s
            } else if addr <= page_ceil(top) {
                r == BrkPlan::Done(Ok(addr)) && final(k)@ == with_brk(s, caller_pid, addr)
            } else {
                r == (BrkPlan::Grow {
                    first_page: page_ceil(top) as u64,
                    last_page: page_floor((addr - 1) as u64) as u64,
                    new_top: addr,
                }) && final(k)@ == s
            }
        }),
{
    broadcast use crate::process::group_views;

    let ghost before = k@;
    if let Some(p) = k.procs.get_mut(caller_pid) {
        let top: u64 = p.brk;
        if addr == 0 {
            assert(k@ =~= before);
            return BrkPlan::Done(Ok(top));
        }
        if addr <= top {
            p.brk = addr;
            assert(k@ =~= with_brk(before, caller_pid, addr));
            return BrkPlan::Done(Ok(addr));
        }
        if addr > BRK_REGION_CEILING {
            assert(k@ =~= before);
            return BrkPlan::Done(Err(ENOMEM));
        }
        let pages: u64 = crate::addr::page_count(top);
        let map_start: u64 = pages * PAGE_SIZE;
        if addr <= map_start {
            p.brk = addr;
            assert(k@ =~= with_brk(before, caller_pid, addr));
            return BrkPlan::Done(Ok(addr));
        }
        assert(k@ =~= before);
        let last: u64 = addr - 1;
        BrkPlan::Grow {
            first_page: map_start,
            last_page: last - last % PAGE_SIZE,
            new_top: addr,
        }
    } else {
        BrkPlan::Done(Err(ENOMEM))
    }
}

/// Finishes growing a heap once its pages were, or could not be, backed.
pub fn complete_brk(k: &mut Kernel, caller_pid: Pid, new_top: u64, backed: bool) -> (r: Result<
    u64,
    u64,
>)
    requires
        old(k).wf(),
        old(k)@.procs.contains_key(caller_pid),
    ensures
        final(k).wf(),
        backed ==> r == Ok::<u64, u64>(new_top) && final(k)@ == with_brk(
            old(k)@,
            caller_pid,
            new_top,
        ),
        !backed ==> r == Err::<u64, u64>(ENOMEM) && final(k)@ == old(k)@,
{
    broadcast use crate::process::group_views;

    let ghost before = k@;
    if !backed {
        return Err(ENOMEM);
    }
    if let Some(p) = k.procs.get_mut(caller_pid) {
        p.brk = new_top;
    }
    assert(k@ =~= with_brk(before, caller_pid, new_top));
    Ok(new_top)
}

// ---------------------------------------------------------------------------------------------
// Laws
// ---------------------------------------------------------------------------------------------
/// Mappings never overlap: addresses that were handed out lie below all that are handed out later.
pub proof fn law_mappings_apart(m: MappingView, first: u64, second: u64)
    requires
        mappings_ok(m),
        has_room(m, pages_for(first) * PAGE_SIZE),
        has_room(reserved(m, pages_for(first) * PAGE_SIZE), pages_for(second) * PAGE_SIZE),
    ensures
        ({
            let a = m.next_page;
            let t = reserved(m, pages_for(first) * PAGE_SIZE);
            let b = t.next_page;
            &&& mappings_ok(t)
            &&& a + first <= b
            &&& b + second <= MMAP_REGION_CEILING
            &&& b % PAGE_SIZE == 0
        }),
{
    let n = pages_for(first) * PAGE_SIZE;
    assert(first <= n < first + PAGE_SIZE);
    assert(second <= pages_for(second) * PAGE_SIZE);
    assert((m.next_page + n) % 4096 == 0);
}

/// A mapping that is released leaves the counts as they were before it was made; a file that had
/// none has no frames known any more.
pub proof fn law_release_undoes_retain(m: MappingView, id: u64)
    requires
        mappings_ok(m),
        ref_count(m, id) < u64::MAX,
    ensures
        released(retained(m, id), id) == (if m.refs.contains_key(id) {
            m
        } else {
            MappingView { cache: m.cache.remove(id), ..m }
        }),
{
    let t = released(retained(m, id), id);
    if m.refs.contains_key(id) {
        assert(t.refs =~= m.refs);
    } else {
        assert(t.refs =~= m.refs);
    }
}

/// Releasing a mapping of one file leaves every other file alone.
pub proof fn law_release_keeps_others(m: MappingView, id: u64, other: u64)
    requires
        other != id,
    ensures
        ref_count(released(m, id), other) == ref_count(m, other),
        known_frames(released(m, id), other) == known_frames(m, other),
{
}

/// Mappings of one file share its frames: adding frames keeps those that were there, so a page has
/// the same frame in every mapping of the file.
pub proof fn law_frames_shared(m: MappingView, id: u64, more: Seq<u64>, page: int)
    requires
        0 <= page < known_frames(m, id).len(),
    ensures
        known_frames(grown(m, id, more), id)[page] == known_frames(m, id)[page],
{
}

/// A file whose frames hold what was read of it is written back as it was read.
pub proof fn law_writeback_restores(data: Seq<u8>, count: nat)
    requires
        data.len() <= count * 4096,
    ensures
        staged(Seq::new(count, |i: int| page_of(data, i)), data.len()) == data,
{
    assert(staged(Seq::new(count, |i: int| page_of(data, i)), data.len()) =~= data);
}

/// A plan gets ready exactly the frames that the file reaches into and the mapping covers, and
/// reads no more into them than they hold.
pub proof fn law_plan_covers(m: MappingView, page_count: u64, prot: u64, id: u64, size: i64)
    ensures
        ({
            let p = file_plan(m, page_count, prot, id, size);
            &&& p.covered_pages <= page_count
            &&& known_frames(m, id).len() + p.new_frames >= p.covered_pages
            &&& p.read_len <= p.new_frames * PAGE_SIZE
            &&& size > 0 ==> p.read_off + p.read_len <= size || p.new_frames == 0
        }),
{
}

} // verus!
