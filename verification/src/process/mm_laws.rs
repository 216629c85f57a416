//! The count of a file's mappings is the number of its mappings.

use vstd::prelude::*;

use crate::ordmap::without_key;
use crate::process::laws::lemma_without;
use crate::process::lifecycle::{born, buried};
use crate::process::mm::{
    mappings_ok, noted, ref_count, released, released_all, with_region, without_region,
    without_regions, MappingView, MmapFileRegion,
};
use crate::process::{KernelView, Pid, ProcView};

verus! {

/// How many of the mappings are of file `id`.
pub open spec fn mappings_of(regions: Seq<MmapFileRegion>, id: u64) -> nat
    decreases regions.len(),
{
    if regions.len() == 0 {
        0
    } else {
        mappings_of(regions.drop_last(), id) + if regions.last().content_id == id {
            1nat
        } else {
            0nat
        }
    }
}

/// How many mappings of file `id` the listed processes have.
pub open spec fn mappings_among(procs: Map<Pid, ProcView>, pids: Seq<Pid>, id: u64) -> nat
    decreases pids.len(),
{
    if pids.len() == 0 {
        0
    } else {
        mappings_among(procs, pids.drop_last(), id) + mappings_of(
            procs[pids.last()].mmap_file_regions,
            id,
        )
    }
}

/// Every file's count is the number of its mappings in all processes.
pub open spec fn counts_ok(s: KernelView) -> bool {
    forall|id: u64| #[trigger]
        ref_count(s.mem, id) == mappings_among(s.procs, s.pids, id)
}

/// The list of processes names each once, and `pid` among them.
pub open spec fn listed(s: KernelView, pid: Pid) -> bool {
    s.pids.no_duplicates() && s.pids.contains(pid)
}

/// Changing a process that is not listed changes nothing.
proof fn lemma_unlisted(procs: Map<Pid, ProcView>, pids: Seq<Pid>, pid: Pid, p: ProcView, id: u64)
    requires
        !pids.contains(pid),
    ensures
        mappings_among(procs.insert(pid, p), pids, id) == mappings_among(procs, pids, id),
    decreases pids.len(),
{
    if pids.len() > 0 {
        let t = pids.drop_last();
        assert(pids[pids.len() - 1] == pids.last());
        assert(!t.contains(pid)) by {
            if t.contains(pid) {
                let i = t.index_of(pid);
                assert(pids[i] == pid);
            }
        }
        lemma_unlisted(procs, t, pid, p, id);
    }
}

/// Changing one process changes the sum by what changed in it.
proof fn lemma_one_changed(procs: Map<Pid, ProcView>, pids: Seq<Pid>, pid: Pid, p: ProcView, id: u64)
    requires
        pids.no_duplicates(),
        pids.contains(pid),
    ensures
        mappings_among(procs.insert(pid, p), pids, id) + mappings_of(
            procs[pid].mmap_file_regions,
            id,
        ) == mappings_among(procs, pids, id) + mappings_of(p.mmap_file_regions, id),
        mappings_among(procs, pids, id) >= mappings_of(procs[pid].mmap_file_regions, id),
    decreases pids.len(),
{
    let t = pids.drop_last();
    assert(t.no_duplicates());
    if pids.last() == pid {
        assert(!t.contains(pid)) by {
            if t.contains(pid) {
                let i = t.index_of(pid);
                assert(pids[i] == pids[pids.len() - 1]);
            }
        }
        lemma_unlisted(procs, t, pid, p, id);
    } else {
        assert(t.contains(pid)) by {
            let i = pids.index_of(pid);
            assert(t[i] == pid);
        }
        lemma_one_changed(procs, t, pid, p, id);
    }
}

proof fn lemma_pushed(regions: Seq<MmapFileRegion>, r: MmapFileRegion, id: u64)
    ensures
        mappings_of(regions.push(r), id) == mappings_of(regions, id) + if r.content_id == id {
            1nat
        } else {
            0nat
        },
{
    assert(regions.push(r).drop_last() =~= regions);
}

proof fn lemma_removed(regions: Seq<MmapFileRegion>, i: int, id: u64)
    requires
        0 <= i < regions.len(),
    ensures
        mappings_of(regions, id) == mappings_of(regions.remove(i), id) + if regions[i].content_id
            == id {
            1nat
        } else {
            0nat
        },
    decreases regions.len(),
{
    let t = regions.drop_last();
    if i == regions.len() - 1 {
        assert(regions.remove(i) =~= t);
    } else {
        lemma_removed(t, i, id);
        assert(regions.remove(i).drop_last() =~= t.remove(i));
        assert(regions.remove(i).last() == regions.last());
    }
}

/// A new mapping is counted.
pub proof fn law_mapping_counted(s: KernelView, pid: Pid, r: MmapFileRegion)
    requires
        counts_ok(s),
        listed(s, pid),
        ref_count(s.mem, r.content_id) < u64::MAX,
    ensures
        counts_ok(with_region(s, pid, r)),
{
    let t = with_region(s, pid, r);
    let p = s.procs[pid];
    let q = ProcView { mmap_file_regions: p.mmap_file_regions.push(r), ..p };
    assert forall|id: u64| #[trigger] ref_count(t.mem, id) == mappings_among(t.procs, t.pids, id) by {
        assert(ref_count(s.mem, id) == mappings_among(s.procs, s.pids, id));
        lemma_one_changed(s.procs, s.pids, pid, q, id);
        lemma_pushed(p.mmap_file_regions, r, id);
    }
}

proof fn lemma_released(m: MappingView, id: u64, other: u64)
    requires
        mappings_ok(m),
        ref_count(m, id) > 0,
    ensures
        mappings_ok(released(m, id)),
        ref_count(released(m, id), other) == ref_count(m, other) - if id == other {
            1int
        } else {
            0int
        },
{
    assert(m.refs.contains_key(id));
    assert forall|x: u64| #[trigger] released(m, id).refs.contains_key(x) implies released(
        m,
        id,
    ).refs[x] >= 1 by {
        assert(m.refs.contains_key(x));
    }
}

/// A mapping that is taken away is no longer counted.
pub proof fn law_unmapping_counted(s: KernelView, pid: Pid, i: int, dirty: bool)
    requires
        counts_ok(s),
        mappings_ok(s.mem),
        listed(s, pid),
        0 <= i < s.procs[pid].mmap_file_regions.len(),
    ensures
        counts_ok(without_region(s, pid, i, dirty)),
{
    let t = without_region(s, pid, i, dirty);
    let p = s.procs[pid];
    let r = p.mmap_file_regions[i];
    let q = ProcView { mmap_file_regions: p.mmap_file_regions.remove(i), ..p };
    let m = if dirty {
        noted(s.mem, r)
    } else {
        s.mem
    };
    assert(mappings_ok(m) && m.refs == s.mem.refs);
    assert(ref_count(m, r.content_id) > 0) by {
        assert(ref_count(s.mem, r.content_id) == mappings_among(s.procs, s.pids, r.content_id));
        lemma_one_changed(s.procs, s.pids, pid, q, r.content_id);
        lemma_removed(p.mmap_file_regions, i, r.content_id);
    }
    assert forall|id: u64| #[trigger] ref_count(t.mem, id) == mappings_among(t.procs, t.pids, id) by {
        assert(ref_count(s.mem, id) == mappings_among(s.procs, s.pids, id));
        assert(ref_count(m, id) == ref_count(s.mem, id));
        lemma_one_changed(s.procs, s.pids, pid, q, id);
        lemma_removed(p.mmap_file_regions, i, id);
        lemma_released(m, r.content_id, id);
    }
}

pub proof fn lemma_released_all(m: MappingView, regions: Seq<MmapFileRegion>)
    requires
        mappings_ok(m),
        forall|id: u64| #[trigger] ref_count(m, id) >= mappings_of(regions, id),
    ensures
        mappings_ok(released_all(m, regions)),
        forall|id: u64| #[trigger]
            ref_count(released_all(m, regions), id) == ref_count(m, id) - mappings_of(regions, id),
    decreases regions.len(),
{
    if regions.len() > 0 {
        let t = regions.drop_last();
        let r = regions.last();
        assert forall|id: u64| #[trigger] ref_count(m, id) >= mappings_of(t, id) by {
            assert(ref_count(m, id) >= mappings_of(regions, id));
        }
        lemma_released_all(m, t);
        let a = released_all(m, t);
        let b = noted(a, r);
        assert(b.refs == a.refs && mappings_ok(b));
        assert(ref_count(a, r.content_id) > 0) by {
            assert(ref_count(m, r.content_id) >= mappings_of(regions, r.content_id));
        }
        assert(ref_count(b, r.content_id) == ref_count(a, r.content_id));
        lemma_released(b, r.content_id, r.content_id);
        assert forall|id: u64| #[trigger] ref_count(released_all(m, regions), id) == ref_count(m, id)
            - mappings_of(regions, id) by {
            assert(ref_count(a, id) == ref_count(m, id) - mappings_of(t, id));
            assert(ref_count(b, id) == ref_count(a, id));
            lemma_released(b, r.content_id, id);
        }
    }
}

/// When a process lets go of all its mappings, none of them is counted any more.
pub proof fn law_exit_counted(s: KernelView, pid: Pid)
    requires
        counts_ok(s),
        mappings_ok(s.mem),
        s.procs.contains_key(pid) ==> listed(s, pid),
    ensures
        counts_ok(without_regions(s, pid)),
{
    if s.procs.contains_key(pid) {
        let t = without_regions(s, pid);
        let p = s.procs[pid];
        let q = ProcView { mmap_file_regions: Seq::empty(), ..p };
        assert forall|id: u64| #[trigger] ref_count(s.mem, id) >= mappings_of(
            p.mmap_file_regions,
            id,
        ) by {
            assert(ref_count(s.mem, id) == mappings_among(s.procs, s.pids, id));
            lemma_one_changed(s.procs, s.pids, pid, q, id);
        }
        lemma_released_all(s.mem, p.mmap_file_regions);
        assert forall|id: u64| #[trigger] ref_count(t.mem, id) == mappings_among(
            t.procs,
            t.pids,
            id,
        ) by {
            assert(ref_count(s.mem, id) == mappings_among(s.procs, s.pids, id));
            lemma_one_changed(s.procs, s.pids, pid, q, id);
            assert(mappings_of(Seq::<MmapFileRegion>::empty(), id) == 0);
        }
    }
}

/// A file's frames are forgotten no earlier than with its last mapping: while some process maps it,
/// its count stands.
pub proof fn law_mapped_is_counted(s: KernelView, pid: Pid, i: int)
    requires
        counts_ok(s),
        listed(s, pid),
        0 <= i < s.procs[pid].mmap_file_regions.len(),
    ensures
        s.mem.refs.contains_key(s.procs[pid].mmap_file_regions[i].content_id),
{
    let p = s.procs[pid];
    let id = p.mmap_file_regions[i].content_id;
    assert(ref_count(s.mem, id) == mappings_among(s.procs, s.pids, id));
    lemma_one_changed(s.procs, s.pids, pid, p, id);
    lemma_removed(p.mmap_file_regions, i, id);
}

/// Processes with the same mappings have the same sum.
proof fn lemma_same_mappings(a: Map<Pid, ProcView>, b: Map<Pid, ProcView>, pids: Seq<Pid>, id: u64)
    requires
        forall|i: int|
            0 <= i < pids.len() ==> a[#[trigger] pids[i]].mmap_file_regions
                == b[pids[i]].mmap_file_regions,
    ensures
        mappings_among(a, pids, id) == mappings_among(b, pids, id),
    decreases pids.len(),
{
    if pids.len() > 0 {
        let t = pids.drop_last();
        assert forall|i: int| 0 <= i < t.len() implies a[#[trigger] t[i]].mmap_file_regions
            == b[t[i]].mmap_file_regions by {
            assert(t[i] == pids[i]);
        }
        lemma_same_mappings(a, b, t, id);
        assert(pids[pids.len() - 1] == pids.last());
    }
}

/// A process that is born without mappings changes no count.
pub proof fn law_birth_counted(s: KernelView, parent: Option<Pid>, child: ProcView)
    requires
        counts_ok(s),
        !s.pids.contains(s.next_pid),
        child.mmap_file_regions.len() == 0,
    ensures
        counts_ok(born(s, parent, child)),
{
    let t = born(s, parent, child);
    assert forall|id: u64| #[trigger] ref_count(t.mem, id) == mappings_among(t.procs, t.pids, id) by {
        assert(ref_count(s.mem, id) == mappings_among(s.procs, s.pids, id));
        assert(t.pids.drop_last() =~= s.pids);
        assert forall|i: int| 0 <= i < s.pids.len() implies t.procs[#[trigger] s.pids[i]].mmap_file_regions
            == s.procs[s.pids[i]].mmap_file_regions by {
            assert(s.pids.contains(s.pids[i]));
        }
        lemma_same_mappings(t.procs, s.procs, s.pids, id);
    }
}

/// Leaving out a process that has no mappings changes no sum.
proof fn lemma_left_out(procs: Map<Pid, ProcView>, pids: Seq<Pid>, pid: Pid, id: u64)
    requires
        procs[pid].mmap_file_regions.len() == 0,
    ensures
        mappings_among(procs, without_key(pids, pid), id) == mappings_among(procs, pids, id),
    decreases pids.len(),
{
    reveal(Seq::filter);
    if pids.len() > 0 {
        let t = pids.drop_last();
        lemma_left_out(procs, t, pid, id);
        if pids.last() != pid {
            let w = without_key(t, pid);
            assert(without_key(pids, pid) == w.push(pids.last()));
            assert(w.push(pids.last()).drop_last() =~= w);
        }
    }
}

/// Telling a parent of the end of a child that let go of its mappings changes no count.
pub proof fn law_burial_counted(s: KernelView, caller: Pid, child: Pid)
    requires
        counts_ok(s),
        s.procs[child].mmap_file_regions.len() == 0,
        caller != child,
    ensures
        counts_ok(buried(s, caller, child)),
{
    let t = buried(s, caller, child);
    assert forall|id: u64| #[trigger] ref_count(t.mem, id) == mappings_among(t.procs, t.pids, id) by {
        assert(ref_count(s.mem, id) == mappings_among(s.procs, s.pids, id));
        lemma_left_out(s.procs, s.pids, child, id);
        lemma_without(s.pids, child);
        assert forall|i: int| 0 <= i < t.pids.len() implies t.procs[#[trigger] t.pids[i]].mmap_file_regions
            == s.procs[t.pids[i]].mmap_file_regions by {
            assert(t.pids.contains(t.pids[i]));
        }
        lemma_same_mappings(t.procs, s.procs, t.pids, id);
    }
}

} // verus!
