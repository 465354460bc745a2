//! Firmware memory descriptors and the free-memory reconciler.

use vstd::prelude::*;

verus! {

/// The memory types a firmware memory map can report.
#[derive(Clone, Copy, PartialEq, Eq, Structural, Debug)]
pub enum MemoryKind {
    Reserved,
    LoaderCode,
    LoaderData,
    BootServicesCode,
    BootServicesData,
    RuntimeServicesCode,
    RuntimeServicesData,
    Conventional,
    Unusable,
    AcpiReclaim,
    AcpiNonVolatile,
    Mmio,
    MmioPortSpace,
    PalCode,
    PersistentMemory,
}

/// One firmware-reported region: a run of 4 KiB pages of one memory
/// type with one attribute mask.
#[derive(Clone, Copy, PartialEq, Eq, Structural, Debug)]
pub struct MemoryDescriptor {
    pub kind: MemoryKind,
    pub phys_start: u64,
    pub virt_start: u64,
    pub page_count: u64,
    pub att: u64,
}

pub const PAGE_SIZE: u64 = 4096;

/// A descriptor is reusable when its memory can be handed to the
/// allocator once boot services are done.
pub open spec fn is_reusable(d: MemoryDescriptor) -> bool {
    d.kind == MemoryKind::Conventional || d.kind == MemoryKind::BootServicesData
        || d.kind == MemoryKind::BootServicesCode
}

/// One-past-the-end byte address of a descriptor, as a mathematical
/// integer.
pub open spec fn desc_end(d: MemoryDescriptor) -> int {
    d.phys_start + d.page_count * (PAGE_SIZE as int)
}

/// The descriptor's byte range stays inside the physical address space.
pub open spec fn desc_wf(d: MemoryDescriptor) -> bool {
    desc_end(d) <= u64::MAX
}

pub open spec fn all_wf(s: Seq<MemoryDescriptor>) -> bool {
    forall|i: int| 0 <= i < s.len() ==> desc_wf(#[trigger] s[i])
}

/// Whether a reusable descriptor extends the tail extent: byte
/// contiguous and with the exact same attribute mask.
pub open spec fn can_merge(tail: MemoryDescriptor, d: MemoryDescriptor) -> bool {
    desc_end(tail) == d.phys_start && tail.att == d.att
}

/// The tail extent after a descriptor has been merged into it.
pub open spec fn merged(tail: MemoryDescriptor, d: MemoryDescriptor) -> MemoryDescriptor {
    MemoryDescriptor { page_count: (tail.page_count + d.page_count) as u64, ..tail }
}

/// A descriptor re-typed as a free extent: reclaimed memory is always
/// reported as conventional.
pub open spec fn as_extent(d: MemoryDescriptor) -> MemoryDescriptor {
    MemoryDescriptor { kind: MemoryKind::Conventional, ..d }
}

/// One reconciliation step: fold the next descriptor into the extent
/// list built so far.
pub open spec fn reconcile_step(
    acc: Seq<MemoryDescriptor>,
    d: MemoryDescriptor,
) -> Seq<MemoryDescriptor> {
    if !is_reusable(d) {
        acc
    } else if acc.len() > 0 && can_merge(acc.last(), d) {
        acc.update(acc.len() - 1, merged(acc.last(), d))
    } else {
        acc.push(as_extent(d))
    }
}

/// The reconciled extent list of a descriptor sequence.
pub open spec fn reconcile(descs: Seq<MemoryDescriptor>) -> Seq<MemoryDescriptor>
    decreases descs.len(),
{
    if descs.len() == 0 {
        Seq::empty()
    } else {
        reconcile_step(reconcile(descs.drop_last()), descs.last())
    }
}

/// Scans a memory map in order and returns the maximal coalesced free
/// extents: reusable descriptors are re-typed as conventional and
/// merged with the tail extent whenever they are byte-contiguous with
/// it and carry the same attributes; everything else is skipped.
pub fn get_free_memory(mmap: Vec<MemoryDescriptor>) -> (free: Vec<MemoryDescriptor>)
    requires
        all_wf(mmap@),
    ensures
        free@ == reconcile(mmap@),
        all_wf(free@),
{
    let mut free: Vec<MemoryDescriptor> = Vec::new();
    let n = mmap.len();
    let mut i: usize = 0;
    while i < n
        invariant
            n == mmap@.len(),
            0 <= i <= n,
            all_wf(mmap@),
            free@ == reconcile(mmap@.subrange(0, i as int)),
            all_wf(free@),
        decreases n - i,
    {
        let d = mmap[i];
        proof {
            assert(mmap@.subrange(0, i + 1).drop_last() =~= mmap@.subrange(0, i as int));
            assert(mmap@.subrange(0, i + 1).last() == d);
            assert(desc_wf(mmap@[i as int]));
        }
        let reusable = matches!(d.kind, MemoryKind::Conventional)
            || matches!(d.kind, MemoryKind::BootServicesData)
            || matches!(d.kind, MemoryKind::BootServicesCode);
        if reusable {
            let len = free.len();
            let mut merge = false;
            if len > 0 {
                let tail = free[len - 1];
                proof {
                    assert(desc_wf(free@.last()));
                    assert(tail.page_count * (PAGE_SIZE as int) <= u64::MAX - tail.phys_start);
                }
                let tail_end = tail.phys_start + tail.page_count * PAGE_SIZE;
                merge = tail_end == d.phys_start && tail.att == d.att;
            }
            if merge {
                let tail = free[len - 1];
                proof {
                    assert(desc_wf(mmap@[i as int]));
                    assert(desc_end(tail) == d.phys_start);
                    assert((tail.page_count + d.page_count) * (PAGE_SIZE as int) == tail.page_count
                        * (PAGE_SIZE as int) + d.page_count * (PAGE_SIZE as int)) by (nonlinear_arith);
                }
                let grown = MemoryDescriptor {
                    page_count: tail.page_count + d.page_count,
                    ..tail
                };
                free[len - 1] = grown;
                proof {
                    assert(free@ =~= reconcile(mmap@.subrange(0, i as int)).update(
                        reconcile(mmap@.subrange(0, i as int)).len() - 1,
                        merged(tail, d),
                    ));
                }
            } else {
                let ext = MemoryDescriptor { kind: MemoryKind::Conventional, ..d };
                free.push(ext);
            }
        }
        i = i + 1;
    }
    proof {
        assert(mmap@.subrange(0, n as int) =~= mmap@);
    }
    free
}

/// No two neighbouring extents could still be merged.
pub open spec fn no_mergeable_adjacent(s: Seq<MemoryDescriptor>) -> bool {
    forall|i: int| 1 <= i < s.len() ==> !can_merge(#[trigger] s[i - 1], s[i])
}

/// Every extent is reported as conventional memory.
pub open spec fn all_conventional(s: Seq<MemoryDescriptor>) -> bool {
    forall|i: int| 0 <= i < s.len() ==> (#[trigger] s[i]).kind == MemoryKind::Conventional
}

/// The extent `e` covers the whole byte range of `x`.
pub open spec fn covers(e: MemoryDescriptor, x: MemoryDescriptor) -> bool {
    e.phys_start <= x.phys_start && desc_end(x) <= desc_end(e)
}

/// The byte address `a` falls inside the range of `d`.
pub open spec fn in_range(a: int, d: MemoryDescriptor) -> bool {
    d.phys_start <= a < desc_end(d)
}

/// No two descriptors of the sequence share a byte address.
pub open spec fn pairwise_disjoint(s: Seq<MemoryDescriptor>) -> bool {
    forall|i: int, k: int|
        0 <= i < s.len() && 0 <= k < s.len() && i != k ==> desc_end(#[trigger] s[i])
            <= (#[trigger] s[k]).phys_start || desc_end(s[k]) <= s[i].phys_start
}

/// Total page count of a sequence of descriptors.
pub open spec fn sum_pages(s: Seq<MemoryDescriptor>) -> int
    decreases s.len(),
{
    if s.len() == 0 {
        0
    } else {
        sum_pages(s.drop_last()) + s.last().page_count
    }
}

/// Total page count of the reusable descriptors of a sequence.
pub open spec fn reusable_pages(s: Seq<MemoryDescriptor>) -> int
    decreases s.len(),
{
    if s.len() == 0 {
        0
    } else {
        reusable_pages(s.drop_last()) + if is_reusable(s.last()) {
            s.last().page_count as int
        } else {
            0int
        }
    }
}

/// Shape of a reconciled extent list: every extent stays inside the
/// address space, is typed conventional, and no neighbouring pair is
/// still mergeable.
pub proof fn lemma_reconcile_shape(d: Seq<MemoryDescriptor>)
    requires
        all_wf(d),
    ensures
        all_wf(reconcile(d)),
        all_conventional(reconcile(d)),
        no_mergeable_adjacent(reconcile(d)),
    decreases d.len(),
{
    if d.len() > 0 {
        let prev = d.drop_last();
        let dl = d.last();
        assert(all_wf(prev)) by {
            assert(forall|i: int| 0 <= i < prev.len() ==> prev[i] == d[i]);
        }
        lemma_reconcile_shape(prev);
        let r = reconcile(prev);
        assert(desc_wf(d[d.len() - 1]));
        if is_reusable(dl) {
            if r.len() > 0 && can_merge(r.last(), dl) {
                let tail = r[r.len() - 1];
                let m = merged(tail, dl);
                assert(desc_wf(tail));
                assert((tail.page_count + dl.page_count) * (PAGE_SIZE as int) == tail.page_count
                    * (PAGE_SIZE as int) + dl.page_count * (PAGE_SIZE as int))
                    by (nonlinear_arith);
                assert(tail.page_count + dl.page_count <= u64::MAX) by {
                    assert((tail.page_count + dl.page_count) * (PAGE_SIZE as int) <= u64::MAX);
                    assert(tail.page_count + dl.page_count <= (tail.page_count + dl.page_count) * (
                    PAGE_SIZE as int)) by (nonlinear_arith);
                }
                assert(m.page_count == tail.page_count + dl.page_count);
                assert(desc_end(m) == desc_end(dl));
                assert(desc_wf(m));
                assert(all_wf(reconcile(d)));
                assert(all_conventional(reconcile(d)));
                assert(no_mergeable_adjacent(reconcile(d))) by {
                    assert(forall|i: int|
                        1 <= i < r.len() - 1 ==> !can_merge(
                            #[trigger] reconcile(d)[i - 1],
                            reconcile(d)[i],
                        ));
                    if r.len() >= 2 {
                        let i = r.len() - 1;
                        assert(!can_merge(r[i - 1], r[i]));
                        assert(m.phys_start == tail.phys_start && m.att == tail.att);
                    }
                }
            } else {
                let e = as_extent(dl);
                assert(desc_end(e) == desc_end(dl));
                if r.len() > 0 {
                    assert(e.phys_start == dl.phys_start && e.att == dl.att);
                    assert(!can_merge(r.last(), e));
                }
            }
        }
    }
}

/// A list that already has the reconciled shape reconciles to itself.
pub proof fn lemma_reconcile_fixed(s: Seq<MemoryDescriptor>)
    requires
        all_conventional(s),
        no_mergeable_adjacent(s),
    ensures
        reconcile(s) == s,
    decreases s.len(),
{
    if s.len() > 0 {
        let prev = s.drop_last();
        let sl = s.last();
        assert(forall|i: int| 0 <= i < prev.len() ==> prev[i] == s[i]);
        lemma_reconcile_fixed(prev);
        assert(sl.kind == MemoryKind::Conventional);
        assert(is_reusable(sl));
        if prev.len() > 0 {
            assert(!can_merge(prev.last(), sl)) by {
                assert(prev.last() == s[s.len() - 2]);
            }
        }
        assert(as_extent(sl) == sl);
        assert(reconcile(s) == prev.push(sl));
        assert(prev.push(sl) =~= s);
    } else {
        assert(reconcile(s) =~= s);
    }
}

/// Reconciliation is idempotent: feeding the reconciled extents back
/// through the reconciler changes nothing.
pub proof fn lemma_reconcile_idempotent(d: Seq<MemoryDescriptor>)
    requires
        all_wf(d),
    ensures
        reconcile(reconcile(d)) == reconcile(d),
{
    lemma_reconcile_shape(d);
    lemma_reconcile_fixed(reconcile(d));
}

/// No page is dropped or invented: the pages of the output extents
/// are exactly the pages of the reusable input descriptors.
pub proof fn lemma_reconcile_conserves_pages(d: Seq<MemoryDescriptor>)
    requires
        all_wf(d),
    ensures
        sum_pages(reconcile(d)) == reusable_pages(d),
    decreases d.len(),
{
    if d.len() > 0 {
        let prev = d.drop_last();
        let dl = d.last();
        assert(all_wf(prev)) by {
            assert(forall|i: int| 0 <= i < prev.len() ==> prev[i] == d[i]);
        }
        lemma_reconcile_conserves_pages(prev);
        lemma_reconcile_shape(prev);
        let r = reconcile(prev);
        assert(desc_wf(d[d.len() - 1]));
        if is_reusable(dl) {
            if r.len() > 0 && can_merge(r.last(), dl) {
                let tail = r[r.len() - 1];
                let m = merged(tail, dl);
                assert(desc_wf(tail));
                assert((tail.page_count + dl.page_count) * (PAGE_SIZE as int) == tail.page_count
                    * (PAGE_SIZE as int) + dl.page_count * (PAGE_SIZE as int))
                    by (nonlinear_arith);
                assert(tail.page_count + dl.page_count <= u64::MAX) by {
                    assert((tail.page_count + dl.page_count) * (PAGE_SIZE as int) <= u64::MAX);
                    assert(tail.page_count + dl.page_count <= (tail.page_count + dl.page_count) * (
                    PAGE_SIZE as int)) by (nonlinear_arith);
                }
                let upd = r.update(r.len() - 1, m);
                assert(upd.drop_last() =~= r.drop_last());
                assert(upd.last() == m);
                assert(sum_pages(upd) == sum_pages(r.drop_last()) + m.page_count);
                assert(sum_pages(r) == sum_pages(r.drop_last()) + tail.page_count);
            } else {
                let e = as_extent(dl);
                assert(r.push(e).drop_last() =~= r);
                assert(sum_pages(r.push(e)) == sum_pages(r) + e.page_count);
            }
        }
    }
}

/// Every reusable input descriptor ends up wholly inside one of the
/// output extents.
pub proof fn lemma_reconcile_covers(d: Seq<MemoryDescriptor>)
    requires
        all_wf(d),
    ensures
        forall|i: int|
            0 <= i < d.len() && is_reusable(#[trigger] d[i]) ==> exists|j: int|
                0 <= j < reconcile(d).len() && covers(#[trigger] reconcile(d)[j], d[i]),
    decreases d.len(),
{
    if d.len() > 0 {
        let prev = d.drop_last();
        let dl = d.last();
        assert(all_wf(prev)) by {
            assert(forall|i: int| 0 <= i < prev.len() ==> prev[i] == d[i]);
        }
        lemma_reconcile_covers(prev);
        lemma_reconcile_shape(prev);
        let r = reconcile(prev);
        let rd = reconcile(d);
        assert(desc_wf(d[d.len() - 1]));
        if !is_reusable(dl) {
            assert(rd == r);
            assert forall|i: int| 0 <= i < d.len() && is_reusable(#[trigger] d[i]) implies exists|
                j: int,
            | 0 <= j < rd.len() && covers(#[trigger] rd[j], d[i]) by {
                assert(d[i] == prev[i]);
                let j = choose|j: int| 0 <= j < r.len() && covers(#[trigger] r[j], prev[i]);
                assert(covers(rd[j], d[i]));
            }
        } else if r.len() > 0 && can_merge(r.last(), dl) {
            let tail = r[r.len() - 1];
            let m = merged(tail, dl);
            assert(desc_wf(tail));
            assert((tail.page_count + dl.page_count) * (PAGE_SIZE as int) == tail.page_count * (
            PAGE_SIZE as int) + dl.page_count * (PAGE_SIZE as int)) by (nonlinear_arith);
            assert(tail.page_count + dl.page_count <= u64::MAX) by {
                assert((tail.page_count + dl.page_count) * (PAGE_SIZE as int) <= u64::MAX);
                assert(tail.page_count + dl.page_count <= (tail.page_count + dl.page_count) * (
                PAGE_SIZE as int)) by (nonlinear_arith);
            }
            assert(desc_end(m) == desc_end(dl));
            assert(dl.page_count * (PAGE_SIZE as int) >= 0) by (nonlinear_arith);
            assert(tail.page_count * (PAGE_SIZE as int) >= 0) by (nonlinear_arith);
            assert(rd.len() == r.len());
            assert(covers(m, dl)) by {
                assert(m.phys_start == tail.phys_start);
                assert(tail.phys_start <= desc_end(tail));
            }
            assert(covers(rd[r.len() - 1], d[d.len() - 1]));
            assert forall|i: int| 0 <= i < d.len() && is_reusable(#[trigger] d[i]) implies exists|
                j: int,
            | 0 <= j < rd.len() && covers(#[trigger] rd[j], d[i]) by {
                if i < d.len() - 1 {
                    assert(d[i] == prev[i]);
                    let j = choose|j: int| 0 <= j < r.len() && covers(#[trigger] r[j], prev[i]);
                    if j == r.len() - 1 {
                        assert(covers(m, tail));
                        assert(covers(rd[j], d[i]));
                    } else {
                        assert(rd[j] == r[j]);
                        assert(covers(rd[j], d[i]));
                    }
                } else {
                    assert(covers(rd[r.len() - 1], d[i]));
                }
            }
        } else {
            let e = as_extent(dl);
            assert(rd == r.push(e));
            assert(covers(e, dl));
            assert(rd[rd.len() - 1] == e);
            assert forall|i: int| 0 <= i < d.len() && is_reusable(#[trigger] d[i]) implies exists|
                j: int,
            | 0 <= j < rd.len() && covers(#[trigger] rd[j], d[i]) by {
                if i < d.len() - 1 {
                    assert(d[i] == prev[i]);
                    let j = choose|j: int| 0 <= j < r.len() && covers(#[trigger] r[j], prev[i]);
                    assert(rd[j] == r[j]);
                    assert(covers(rd[j], d[i]));
                } else {
                    assert(covers(rd[rd.len() - 1], d[i]));
                }
            }
        }
    }
}

/// Every byte of every output extent comes from some reusable input
/// descriptor.
pub proof fn lemma_extent_bytes_reusable(d: Seq<MemoryDescriptor>)
    requires
        all_wf(d),
    ensures
        forall|j: int, a: int|
            0 <= j < reconcile(d).len() && #[trigger] in_range(a, reconcile(d)[j]) ==> exists|
                i: int,
            | 0 <= i < d.len() && is_reusable(#[trigger] d[i]) && in_range(a, d[i]),
    decreases d.len(),
{
    if d.len() > 0 {
        let prev = d.drop_last();
        let dl = d.last();
        assert(all_wf(prev)) by {
            assert(forall|i: int| 0 <= i < prev.len() ==> prev[i] == d[i]);
        }
        lemma_extent_bytes_reusable(prev);
        lemma_reconcile_shape(prev);
        let r = reconcile(prev);
        let rd = reconcile(d);
        assert(desc_wf(d[d.len() - 1]));
        assert forall|j: int, a: int|
            0 <= j < rd.len() && #[trigger] in_range(a, rd[j]) implies exists|i: int|
            0 <= i < d.len() && is_reusable(#[trigger] d[i]) && in_range(a, d[i]) by {
            if !is_reusable(dl) {
                assert(rd[j] == r[j]);
                let i = choose|i: int|
                    0 <= i < prev.len() && is_reusable(#[trigger] prev[i]) && in_range(a, prev[i]);
                assert(is_reusable(d[i]) && in_range(a, d[i]));
            } else if r.len() > 0 && can_merge(r.last(), dl) {
                let tail = r[r.len() - 1];
                let m = merged(tail, dl);
                assert(desc_wf(tail));
                assert((tail.page_count + dl.page_count) * (PAGE_SIZE as int) == tail.page_count
                    * (PAGE_SIZE as int) + dl.page_count * (PAGE_SIZE as int))
                    by (nonlinear_arith);
                assert(tail.page_count + dl.page_count <= u64::MAX) by {
                    assert((tail.page_count + dl.page_count) * (PAGE_SIZE as int) <= u64::MAX);
                    assert(tail.page_count + dl.page_count <= (tail.page_count + dl.page_count) * (
                    PAGE_SIZE as int)) by (nonlinear_arith);
                }
                assert(desc_end(m) == desc_end(dl));
                if j == r.len() - 1 && a >= desc_end(tail) {
                    assert(in_range(a, dl));
                    assert(is_reusable(d[d.len() - 1]) && in_range(a, d[d.len() - 1]));
                } else {
                    assert(in_range(a, r[j])) by {
                        if j == r.len() - 1 {
                            assert(m.phys_start == tail.phys_start);
                        } else {
                            assert(rd[j] == r[j]);
                        }
                    }
                    let i = choose|i: int|
                        0 <= i < prev.len() && is_reusable(#[trigger] prev[i]) && in_range(
                            a,
                            prev[i],
                        );
                    assert(is_reusable(d[i]) && in_range(a, d[i]));
                }
            } else {
                if j == rd.len() - 1 {
                    assert(rd[j] == as_extent(dl));
                    assert(in_range(a, dl));
                    assert(is_reusable(d[d.len() - 1]) && in_range(a, d[d.len() - 1]));
                } else {
                    assert(rd[j] == r[j]);
                    let i = choose|i: int|
                        0 <= i < prev.len() && is_reusable(#[trigger] prev[i]) && in_range(
                            a,
                            prev[i],
                        );
                    assert(is_reusable(d[i]) && in_range(a, d[i]));
                }
            }
        }
    }
}

/// On maps whose descriptors do not overlap, no output extent touches
/// a byte of any non-reusable descriptor.
pub proof fn lemma_reconcile_excludes(d: Seq<MemoryDescriptor>)
    requires
        all_wf(d),
        pairwise_disjoint(d),
    ensures
        forall|j: int, k: int, a: int|
            #![trigger in_range(a, reconcile(d)[j]), in_range(a, d[k])]
            0 <= j < reconcile(d).len() && 0 <= k < d.len() && !is_reusable(d[k]) && in_range(
                a,
                reconcile(d)[j],
            ) ==> !in_range(a, d[k]),
{
    lemma_extent_bytes_reusable(d);
    let rd = reconcile(d);
    assert forall|j: int, k: int, a: int|
        #![trigger in_range(a, rd[j]), in_range(a, d[k])]
        0 <= j < rd.len() && 0 <= k < d.len() && !is_reusable(d[k]) && in_range(
            a,
            rd[j],
        ) implies !in_range(a, d[k]) by {
        let i = choose|i: int|
            0 <= i < d.len() && is_reusable(#[trigger] d[i]) && in_range(a, d[i]);
        assert(i != k);
        if in_range(a, d[k]) {
            assert(desc_end(d[i]) <= d[k].phys_start || desc_end(d[k]) <= d[i].phys_start);
        }
    }
}

/// The memory kinds in the order the map summary reports them.
pub open spec fn kind_list() -> Seq<MemoryKind> {
    seq![
        MemoryKind::Reserved,
        MemoryKind::LoaderCode,
        MemoryKind::LoaderData,
        MemoryKind::BootServicesCode,
        MemoryKind::BootServicesData,
        MemoryKind::RuntimeServicesCode,
        MemoryKind::RuntimeServicesData,
        MemoryKind::Conventional,
        MemoryKind::Unusable,
        MemoryKind::AcpiReclaim,
        MemoryKind::AcpiNonVolatile,
        MemoryKind::Mmio,
        MemoryKind::MmioPortSpace,
        MemoryKind::PalCode,
        MemoryKind::PersistentMemory,
    ]
}

/// Where a kind stands in `kind_list`.
pub open spec fn kind_index(k: MemoryKind) -> int {
    match k {
        MemoryKind::Reserved => 0,
        MemoryKind::LoaderCode => 1,
        MemoryKind::LoaderData => 2,
        MemoryKind::BootServicesCode => 3,
        MemoryKind::BootServicesData => 4,
        MemoryKind::RuntimeServicesCode => 5,
        MemoryKind::RuntimeServicesData => 6,
        MemoryKind::Conventional => 7,
        MemoryKind::Unusable => 8,
        MemoryKind::AcpiReclaim => 9,
        MemoryKind::AcpiNonVolatile => 10,
        MemoryKind::Mmio => 11,
        MemoryKind::MmioPortSpace => 12,
        MemoryKind::PalCode => 13,
        MemoryKind::PersistentMemory => 14,
    }
}

/// How many descriptors of kind `k` the sequence holds.
pub open spec fn count_of_kind(s: Seq<MemoryDescriptor>, k: MemoryKind) -> int
    decreases s.len(),
{
    if s.len() == 0 {
        0
    } else {
        count_of_kind(s.drop_last(), k) + if s.last().kind == k {
            1int
        } else {
            0int
        }
    }
}

proof fn lemma_count_of_kind_bound(s: Seq<MemoryDescriptor>, k: MemoryKind)
    ensures
        0 <= count_of_kind(s, k) <= s.len(),
    decreases s.len(),
{
    if s.len() > 0 {
        lemma_count_of_kind_bound(s.drop_last(), k);
    }
}

/// The slot of a descriptor's kind in the summary vector.
fn kind_slot(k: MemoryKind) -> (i: usize)
    ensures
        i == kind_index(k),
{
    match k {
        MemoryKind::Reserved => 0,
        MemoryKind::LoaderCode => 1,
        MemoryKind::LoaderData => 2,
        MemoryKind::BootServicesCode => 3,
        MemoryKind::BootServicesData => 4,
        MemoryKind::RuntimeServicesCode => 5,
        MemoryKind::RuntimeServicesData => 6,
        MemoryKind::Conventional => 7,
        MemoryKind::Unusable => 8,
        MemoryKind::AcpiReclaim => 9,
        MemoryKind::AcpiNonVolatile => 10,
        MemoryKind::Mmio => 11,
        MemoryKind::MmioPortSpace => 12,
        MemoryKind::PalCode => 13,
        MemoryKind::PersistentMemory => 14,
    }
}

/// Counts the descriptors of each memory type, in the order of
/// `kind_list`.  The console front end turns these counts into the
/// textual map summary.
pub fn count_descriptors(mmap: &Vec<MemoryDescriptor>) -> (counts: Vec<usize>)
    ensures
        counts@.len() == kind_list().len(),
        forall|j: int|
            0 <= j < kind_list().len() ==> counts@[j] == count_of_kind(
                mmap@,
                #[trigger] kind_list()[j],
            ),
{
    let mut counts: Vec<usize> = Vec::new();
    let mut z: usize = 0;
    while z < 15
        invariant
            0 <= z <= 15,
            counts@.len() == z,
            forall|j: int| 0 <= j < z ==> counts@[j] == 0,
        decreases 15 - z,
    {
        counts.push(0);
        z = z + 1;
    }
    let n = mmap.len();
    let mut i: usize = 0;
    while i < n
        invariant
            n == mmap@.len(),
            0 <= i <= n,
            counts@.len() == kind_list().len(),
            forall|j: int|
                0 <= j < kind_list().len() ==> counts@[j] == count_of_kind(
                    mmap@.subrange(0, i as int),
                    #[trigger] kind_list()[j],
                ),
        decreases n - i,
    {
        let d = mmap[i];
        let slot = kind_slot(d.kind);
        proof {
            lemma_count_of_kind_bound(mmap@.subrange(0, i as int), d.kind);
            assert(kind_list()[kind_index(d.kind)] == d.kind);
        }
        let c = counts[slot];
        counts[slot] = c + 1;
        proof {
            let prev = mmap@.subrange(0, i as int);
            let cur = mmap@.subrange(0, i + 1);
            assert(cur.drop_last() =~= prev);
            assert(cur.last() == d);
            assert(forall|j: int|
                0 <= j < kind_list().len() ==> count_of_kind(cur, #[trigger] kind_list()[j])
                    == count_of_kind(prev, kind_list()[j]) + if kind_list()[j] == d.kind {
                    1int
                } else {
                    0int
                });
        }
        i = i + 1;
    }
    proof {
        assert(mmap@.subrange(0, n as int) =~= mmap@);
    }
    counts
}

/// Tallies a memory map for the boot log: the same per-type counts
/// that `count_descriptors` computes; printing them is the console's
/// business.
pub fn read_memory_map(mmap: &Vec<MemoryDescriptor>) -> (counts: Vec<usize>)
    ensures
        counts@.len() == kind_list().len(),
        forall|j: int|
            0 <= j < kind_list().len() ==> counts@[j] == count_of_kind(
                mmap@,
                #[trigger] kind_list()[j],
            ),
{
    count_descriptors(mmap)
}

} // verus!

