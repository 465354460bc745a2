//! Page-frame allocator fed by reconciled free extents.

use vstd::prelude::*;
use crate::memory_map::{MemoryDescriptor, MemoryKind, desc_wf, PAGE_SIZE};

verus! {

/// One candidate page frame: its base address and whether it is still
/// free.
pub type FrameEntry = (u64, bool);

/// How many entries of the list are still free.
pub open spec fn free_frames(s: Seq<FrameEntry>) -> int
    decreases s.len(),
{
    if s.len() == 0 {
        0
    } else {
        free_frames(s.drop_last()) + if s.last().1 {
            1int
        } else {
            0int
        }
    }
}

/// Index of the first free entry, or `-1` if none is free.
pub open spec fn first_free_index(s: Seq<FrameEntry>) -> int
    decreases s.len(),
{
    if s.len() == 0 {
        -1
    } else if s.first().1 {
        0
    } else if first_free_index(s.drop_first()) < 0 {
        -1
    } else {
        1 + first_free_index(s.drop_first())
    }
}

/// The frame entries a descriptor contributes: one free frame per
/// 4 KiB page.
pub open spec fn frames_of(d: MemoryDescriptor) -> Seq<FrameEntry> {
    Seq::new(d.page_count as nat, |i: int| ((d.phys_start + i * (PAGE_SIZE as int)) as u64, true))
}

/// What one `reclaim` call does to the frame list and the bootstrap
/// record.
pub open spec fn spec_reclaim(
    frames: Seq<FrameEntry>,
    bootstrap: Option<u64>,
    d: MemoryDescriptor,
) -> (Seq<FrameEntry>, Option<u64>) {
    if frames.len() == 0 && d.page_count > 0 {
        (frames_of(d).drop_first(), Some(d.phys_start))
    } else {
        (frames + frames_of(d), bootstrap)
    }
}

/// What reclaiming every descriptor of one kind, in map order, does.
pub open spec fn spec_reclaim_kind(
    frames: Seq<FrameEntry>,
    bootstrap: Option<u64>,
    descs: Seq<MemoryDescriptor>,
    mt: MemoryKind,
) -> (Seq<FrameEntry>, Option<u64>)
    decreases descs.len(),
{
    if descs.len() == 0 {
        (frames, bootstrap)
    } else {
        let prev = spec_reclaim_kind(frames, bootstrap, descs.drop_last(), mt);
        if descs.last().kind == mt {
            spec_reclaim(prev.0, prev.1, descs.last())
        } else {
            prev
        }
    }
}

/// What one `allocate_frame` call does: the first free entry is
/// handed out and marked allocated; with no free entry the list is
/// unchanged and nothing is handed out.
pub open spec fn spec_allocate(s: Seq<FrameEntry>) -> (Seq<FrameEntry>, Option<u64>) {
    let f = first_free_index(s);
    if f >= 0 {
        (s.update(f, (s[f].0, false)), Some(s[f].0))
    } else {
        (s, None)
    }
}

/// Boot-time physical page-frame allocator: a flat list of candidate
/// frames, served by linear scan.  The very first reclaimed frame of
/// an empty allocator is consumed to bootstrap the allocator's own
/// backing storage and is never offered to callers.
pub struct FrameAllocator {
    frames: Vec<FrameEntry>,
    bootstrap: Option<u64>,
}

impl FrameAllocator {
    pub closed spec fn frames_view(&self) -> Seq<FrameEntry> {
        self.frames@
    }

    pub closed spec fn bootstrap_frame(&self) -> Option<u64> {
        self.bootstrap
    }

    /// Creates an empty frame allocator.
    pub fn new() -> (fa: FrameAllocator)
        ensures
            fa.frames_view() == Seq::<FrameEntry>::empty(),
            fa.bootstrap_frame() is None,
    {
        FrameAllocator { frames: Vec::new(), bootstrap: None }
    }

    /// Reclaims a region of memory described by a descriptor: every
    /// 4 KiB page becomes a free frame, except that the first frame
    /// ever seen by an empty allocator bootstraps the allocator's own
    /// storage.
    pub fn reclaim(&mut self, d: &MemoryDescriptor)
        requires
            desc_wf(*d),
        ensures
            (final(self).frames_view(), final(self).bootstrap_frame()) == spec_reclaim(
                old(self).frames_view(),
                old(self).bootstrap_frame(),
                *d,
            ),
    {
        let was_empty = self.frames.len() == 0;
        let pc = d.page_count;
        let mut i: u64 = 0;
        while i < pc
            invariant
                pc == d.page_count,
                desc_wf(*d),
                0 <= i <= pc,
                self.bootstrap == if was_empty && i > 0 {
                    Some(d.phys_start)
                } else {
                    old(self).bootstrap
                },
                was_empty ==> self.frames@ =~= frames_of(*d).subrange(
                    if i > 0 {
                        1int
                    } else {
                        0int
                    },
                    i as int,
                ),
                !was_empty ==> self.frames@ =~= old(self).frames@ + frames_of(*d).subrange(
                    0,
                    i as int,
                ),
                !was_empty ==> self.frames@.len() > 0,
            decreases pc - i,
        {
            proof {
                assert(i * (PAGE_SIZE as int) < d.page_count * (PAGE_SIZE as int) <= u64::MAX
                    - d.phys_start) by (nonlinear_arith)
                    requires
                        0 <= i < d.page_count,
                        desc_wf(*d),
                ;
                assert(i * (PAGE_SIZE as int) >= 0) by (nonlinear_arith)
                    requires
                        i >= 0,
                ;
            }
            let addr = d.phys_start + i * PAGE_SIZE;
            if was_empty && i == 0 {
                self.bootstrap = Some(d.phys_start);
            } else {
                self.frames.push((addr, true));
            }
            proof {
                assert(frames_of(*d)[i as int] == (addr, true));
            }
            i = i + 1;
        }
        proof {
            if was_empty && pc > 0 {
                assert(self.frames@ =~= frames_of(*d).drop_first());
            } else if !was_empty {
                assert(self.frames@ =~= old(self).frames@ + frames_of(*d));
            } else {
                assert(frames_of(*d).len() == 0);
                assert(self.frames@ =~= old(self).frames@ + frames_of(*d));
            }
        }
    }

    /// Reclaims all memory of a certain type in a memory map, in map
    /// order.
    pub fn reclaim_type(&mut self, map: &Vec<MemoryDescriptor>, mt: MemoryKind)
        requires
            forall|i: int| 0 <= i < map@.len() ==> desc_wf(#[trigger] map@[i]),
        ensures
            (final(self).frames_view(), final(self).bootstrap_frame()) == spec_reclaim_kind(
                old(self).frames_view(),
                old(self).bootstrap_frame(),
                map@,
                mt,
            ),
    {
        let n = map.len();
        let mut i: usize = 0;
        while i < n
            invariant
                n == map@.len(),
                0 <= i <= n,
                forall|k: int| 0 <= k < map@.len() ==> desc_wf(#[trigger] map@[k]),
                (self.frames_view(), self.bootstrap_frame()) == spec_reclaim_kind(
                    old(self).frames_view(),
                    old(self).bootstrap_frame(),
                    map@.subrange(0, i as int),
                    mt,
                ),
            decreases n - i,
        {
            let d = map[i];
            proof {
                assert(map@.subrange(0, i + 1).drop_last() =~= map@.subrange(0, i as int));
                assert(map@.subrange(0, i + 1).last() == d);
                assert(desc_wf(map@[i as int]));
            }
            if kind_eq(d.kind, mt) {
                self.reclaim(&d);
            }
            i = i + 1;
        }
        proof {
            assert(map@.subrange(0, n as int) =~= map@);
        }
    }

    /// Fills an empty allocator from a memory map: every conventional
    /// descriptor is reclaimed, in map order.
    pub fn init(&mut self, map: &Vec<MemoryDescriptor>)
        requires
            forall|i: int| 0 <= i < map@.len() ==> desc_wf(#[trigger] map@[i]),
        ensures
            (final(self).frames_view(), final(self).bootstrap_frame()) == spec_reclaim_kind(
                old(self).frames_view(),
                old(self).bootstrap_frame(),
                map@,
                MemoryKind::Conventional,
            ),
    {
        self.reclaim_type(map, MemoryKind::Conventional);
    }

    /// Hands out the first free frame and marks it allocated; with no
    /// free frame left it returns nothing and changes nothing.
    pub fn allocate_frame(&mut self) -> (r: Option<u64>)
        ensures
            (final(self).frames_view(), r) == spec_allocate(old(self).frames_view()),
            final(self).bootstrap_frame() == old(self).bootstrap_frame(),
            r is Some <==> free_frames(old(self).frames_view()) > 0,
            r is Some ==> free_frames(final(self).frames_view()) == free_frames(
                old(self).frames_view(),
            ) - 1,
            r is None ==> final(self).frames_view() == old(self).frames_view(),
    {
        proof {
            lemma_first_free_correct(self.frames@);
            lemma_free_frames_nonneg(self.frames@);
        }
        let n = self.frames.len();
        let mut j: usize = 0;
        let mut found: Option<u64> = None;
        while j < n
            invariant
                n == self.frames@.len(),
                0 <= j <= n,
                found is None,
                *self == *old(self),
                forall|t: int| 0 <= t < j ==> !(#[trigger] self.frames@[t]).1,
            decreases n - j,
        {
            let entry = self.frames[j];
            if entry.1 {
                self.frames[j] = (entry.0, false);
                proof {
                    let f = first_free_index(old(self).frames@);
                    assert(f == j) by {
                        lemma_first_free_correct(old(self).frames@);
                        if f < j {
                            assert(!old(self).frames@[f].1);
                        }
                        if f > j {
                            assert(!old(self).frames@[j as int].1);
                        }
                    }
                    lemma_free_frames_update(old(self).frames@, j as int);
                    lemma_free_frames_nonneg(
                        old(self).frames@.update(j as int, (old(self).frames@[j as int].0, false)),
                    );
                }
                return Some(entry.0);
            }
            j = j + 1;
        }
        proof {
            let f = first_free_index(self.frames@);
            lemma_first_free_correct(self.frames@);
            if f >= 0 {
                assert(!self.frames@[f].1);
            }
            lemma_free_frames_all_taken(self.frames@);
        }
        None
    }
}

/// Exec equality of memory kinds.
pub fn kind_eq(a: MemoryKind, b: MemoryKind) -> (r: bool)
    ensures
        r == (a == b),
{
    a == b
}

pub proof fn lemma_free_frames_nonneg(s: Seq<FrameEntry>)
    ensures
        0 <= free_frames(s) <= s.len(),
    decreases s.len(),
{
    if s.len() > 0 {
        lemma_free_frames_nonneg(s.drop_last());
    }
}

/// The first-free index is the least free index: before it nothing is
/// free, and at it (when it exists) the entry is free.
pub proof fn lemma_first_free_correct(s: Seq<FrameEntry>)
    ensures
        first_free_index(s) == -1 ==> forall|i: int| 0 <= i < s.len() ==> !(#[trigger] s[i]).1,
        first_free_index(s) >= 0 ==> 0 <= first_free_index(s) < s.len() && s[first_free_index(
            s,
        )].1 && forall|i: int| 0 <= i < first_free_index(s) ==> !(#[trigger] s[i]).1,
    decreases s.len(),
{
    if s.len() > 0 && !s.first().1 {
        lemma_first_free_correct(s.drop_first());
        let f = first_free_index(s.drop_first());
        assert(forall|i: int| 0 <= i < s.drop_first().len() ==> s.drop_first()[i] == s[i + 1]);
        if f == -1 {
            assert forall|i: int| 0 <= i < s.len() implies !(#[trigger] s[i]).1 by {
                if i > 0 {
                    assert(!s.drop_first()[i - 1].1);
                }
            }
        } else {
            assert forall|i: int| 0 <= i < first_free_index(s) implies !(#[trigger] s[i]).1 by {
                if i > 0 {
                    assert(!s.drop_first()[i - 1].1);
                }
            }
        }
    }
}

/// Marking a free entry allocated lowers the free count by one.
pub proof fn lemma_free_frames_update(s: Seq<FrameEntry>, i: int)
    requires
        0 <= i < s.len(),
        s[i].1,
    ensures
        free_frames(s.update(i, (s[i].0, false))) == free_frames(s) - 1,
    decreases s.len(),
{
    let u = s.update(i, (s[i].0, false));
    if i == s.len() - 1 {
        assert(u.drop_last() =~= s.drop_last());
        assert(u.last() == (s[i].0, false));
    } else {
        assert(u.drop_last() =~= s.drop_last().update(i, (s[i].0, false)));
        assert(s.drop_last()[i] == s[i]);
        lemma_free_frames_update(s.drop_last(), i);
        assert(u.last() == s.last());
    }
}

/// With nothing free the free count is zero.
pub proof fn lemma_free_frames_all_taken(s: Seq<FrameEntry>)
    requires
        forall|i: int| 0 <= i < s.len() ==> !(#[trigger] s[i]).1,
    ensures
        free_frames(s) == 0,
    decreases s.len(),
{
    if s.len() > 0 {
        assert(forall|i: int| 0 <= i < s.drop_last().len() ==> s.drop_last()[i] == s[i]);
        lemma_free_frames_all_taken(s.drop_last());
    }
}

/// Repeated allocation, at the specification level.
pub open spec fn allocate_n(s: Seq<FrameEntry>, k: nat) -> Seq<FrameEntry>
    decreases k,
{
    if k == 0 {
        s
    } else {
        spec_allocate(allocate_n(s, (k - 1) as nat)).0
    }
}

proof fn lemma_allocate_step(s: Seq<FrameEntry>)
    ensures
        free_frames(s) > 0 ==> spec_allocate(s).1 is Some && free_frames(spec_allocate(s).0)
            == free_frames(s) - 1,
        free_frames(s) == 0 ==> spec_allocate(s).1 is None && spec_allocate(s).0 == s,
{
    lemma_first_free_correct(s);
    lemma_free_frames_nonneg(s);
    let f = first_free_index(s);
    if f >= 0 {
        lemma_free_frames_update(s, f);
        if free_frames(s) == 0 {
            lemma_free_frames_nonneg(spec_allocate(s).0);
        }
    } else {
        lemma_free_frames_all_taken(s);
    }
}

proof fn lemma_allocate_n_free(s: Seq<FrameEntry>, k: nat)
    requires
        k <= free_frames(s),
    ensures
        free_frames(allocate_n(s, k)) == free_frames(s) - k,
    decreases k,
{
    if k > 0 {
        lemma_allocate_n_free(s, (k - 1) as nat);
        lemma_allocate_step(allocate_n(s, (k - 1) as nat));
    }
}

/// Exhaustion: an allocator holding exactly `n` free frames serves
/// exactly `n` allocations; each of the first `n` requests gets a
/// frame, and the request after that gets none.
pub proof fn lemma_allocation_exhaustion(s: Seq<FrameEntry>, n: nat)
    requires
        free_frames(s) == n,
    ensures
        forall|k: nat| k < n ==> spec_allocate(#[trigger] allocate_n(s, k)).1 is Some,
        spec_allocate(allocate_n(s, n)).1 is None,
{
    assert forall|k: nat| k < n implies spec_allocate(#[trigger] allocate_n(s, k)).1 is Some by {
        lemma_allocate_n_free(s, k);
        lemma_allocate_step(allocate_n(s, k));
    }
    lemma_allocate_n_free(s, n);
    lemma_allocate_step(allocate_n(s, n));
}

} // verus!
