//! Byte-size allocator serving requests from a pool of free regions.

use vstd::prelude::*;
use crate::frame_allocator::{FrameAllocator, FrameEntry, first_free_index, spec_allocate};
use crate::memory_map::PAGE_SIZE;

verus! {

/// One carved region: where it starts and how many bytes it spans.
#[derive(Clone, Copy, PartialEq, Eq, Structural, Debug)]
pub struct Allocation {
    pub start: u64,
    pub size: usize,
}

/// The region stays inside the physical address space.
pub open spec fn alloc_wf(a: Allocation) -> bool {
    a.start + a.size <= u64::MAX
}

pub open spec fn all_allocs_wf(s: Seq<Allocation>) -> bool {
    forall|i: int| 0 <= i < s.len() ==> alloc_wf(#[trigger] s[i])
}

/// Every frame base the allocator may split leaves room for one page.
pub open spec fn frames_wf(s: Seq<FrameEntry>) -> bool {
    forall|i: int| 0 <= i < s.len() ==> (#[trigger] s[i]).0 + PAGE_SIZE <= u64::MAX
}

/// First region of exactly the requested size, or `-1`.
pub open spec fn find_exact(s: Seq<Allocation>, size: int) -> int
    decreases s.len(),
{
    if s.len() == 0 {
        -1
    } else if s.first().size == size {
        0
    } else if find_exact(s.drop_first(), size) < 0 {
        -1
    } else {
        1 + find_exact(s.drop_first(), size)
    }
}

/// First smallest region of at least the requested size, or `-1`.
pub open spec fn find_fit(s: Seq<Allocation>, size: int) -> int
    decreases s.len(),
{
    if s.len() == 0 {
        -1
    } else {
        let rest = find_fit(s.drop_first(), size);
        if s.first().size >= size && (rest < 0 || s.first().size <= s.drop_first()[rest].size) {
            0
        } else if rest < 0 {
            -1
        } else {
            1 + rest
        }
    }
}

/// First region equal to the given start and size, or `-1`.
pub open spec fn find_alloc(s: Seq<Allocation>, start: u64, size: int) -> int
    decreases s.len(),
{
    if s.len() == 0 {
        -1
    } else if s.first().start == start && s.first().size == size {
        0
    } else if find_alloc(s.drop_first(), start, size) < 0 {
        -1
    } else {
        1 + find_alloc(s.drop_first(), start, size)
    }
}

/// Removing a region keeps every remaining region well formed.
pub proof fn lemma_wf_remove(s: Seq<Allocation>, i: int)
    requires
        all_allocs_wf(s),
        0 <= i < s.len(),
    ensures
        all_allocs_wf(s.remove(i)),
{
    assert forall|t: int| 0 <= t < s.remove(i).len() implies alloc_wf(#[trigger] s.remove(i)[t]) by {
        if t < i {
            assert(s.remove(i)[t] == s[t]);
        } else {
            assert(s.remove(i)[t] == s[t + 1]);
        }
    }
}

/// Appending a well-formed region keeps the list well formed.
pub proof fn lemma_wf_push(s: Seq<Allocation>, x: Allocation)
    requires
        all_allocs_wf(s),
        alloc_wf(x),
    ensures
        all_allocs_wf(s.push(x)),
{
    assert forall|t: int| 0 <= t < s.push(x).len() implies alloc_wf(#[trigger] s.push(x)[t]) by {
        if t < s.len() {
            assert(s.push(x)[t] == s[t]);
        } else {
            assert(s.push(x)[t] == x);
        }
    }
}

/// `find_exact` returns the first index whose region has exactly the
/// requested size.
pub proof fn lemma_find_exact(s: Seq<Allocation>, size: int)
    ensures
        find_exact(s, size) < 0 ==> forall|i: int|
            0 <= i < s.len() ==> (#[trigger] s[i]).size != size,
        find_exact(s, size) >= 0 ==> 0 <= find_exact(s, size) < s.len() && s[find_exact(
            s,
            size,
        )].size == size && forall|i: int|
            0 <= i < find_exact(s, size) ==> (#[trigger] s[i]).size != size,
    decreases s.len(),
{
    if s.len() > 0 && s.first().size != size {
        lemma_find_exact(s.drop_first(), size);
        assert(forall|i: int| 0 <= i < s.drop_first().len() ==> s.drop_first()[i] == s[i + 1]);
        let f = find_exact(s.drop_first(), size);
        if f < 0 {
            assert forall|i: int| 0 <= i < s.len() implies (#[trigger] s[i]).size != size by {
                if i > 0 {
                    assert(s.drop_first()[i - 1].size != size);
                }
            }
        } else {
            assert forall|i: int| 0 <= i < find_exact(s, size) implies (#[trigger] s[i]).size
                != size by {
                if i > 0 {
                    assert(s.drop_first()[i - 1].size != size);
                }
            }
        }
    }
}

/// `find_fit` returns the first index attaining the smallest size at
/// least as large as requested.
pub proof fn lemma_find_fit(s: Seq<Allocation>, size: int)
    ensures
        find_fit(s, size) < 0 ==> forall|i: int|
            0 <= i < s.len() ==> (#[trigger] s[i]).size < size,
        find_fit(s, size) >= 0 ==> 0 <= find_fit(s, size) < s.len() && s[find_fit(s, size)].size
            >= size && (forall|i: int|
            0 <= i < s.len() && (#[trigger] s[i]).size >= size ==> s[find_fit(s, size)].size
                <= s[i].size) && (forall|i: int|
            0 <= i < find_fit(s, size) && (#[trigger] s[i]).size >= size ==> s[find_fit(
                s,
                size,
            )].size < s[i].size),
    decreases s.len(),
{
    if s.len() > 0 {
        lemma_find_fit(s.drop_first(), size);
        assert(forall|i: int| 0 <= i < s.drop_first().len() ==> s.drop_first()[i] == s[i + 1]);
        let rest = find_fit(s.drop_first(), size);
        let f = find_fit(s, size);
        if s.first().size >= size && (rest < 0 || s.first().size <= s.drop_first()[rest].size) {
            assert(f == 0);
            assert forall|i: int| 0 <= i < s.len() && (#[trigger] s[i]).size >= size implies s[
                f
            ].size <= s[i].size by {
                if i > 0 {
                    assert(s.drop_first()[i - 1].size >= size);
                    if rest < 0 {
                        assert(s.drop_first()[i - 1].size < size);
                    } else {
                        assert(s.drop_first()[rest].size <= s.drop_first()[i - 1].size);
                    }
                }
            }
        } else if rest >= 0 {
            assert(f == rest + 1);
            assert(s[f].size == s.drop_first()[rest].size);
            assert forall|i: int| 0 <= i < s.len() && (#[trigger] s[i]).size >= size implies s[
                f
            ].size <= s[i].size by {
                if i > 0 {
                    assert(s.drop_first()[i - 1].size >= size);
                }
            }
            assert forall|i: int| 0 <= i < f && (#[trigger] s[i]).size >= size implies s[f].size
                < s[i].size by {
                if i == 0 {
                    assert(!(s.first().size <= s.drop_first()[rest].size));
                } else {
                    assert(s.drop_first()[i - 1].size >= size);
                }
            }
        } else {
            assert forall|i: int| 0 <= i < s.len() implies (#[trigger] s[i]).size < size by {
                if i > 0 {
                    assert(s.drop_first()[i - 1].size < size);
                }
            }
        }
    }
}

/// `find_alloc` returns the first index holding exactly the given
/// region.
pub proof fn lemma_find_alloc(s: Seq<Allocation>, start: u64, size: int)
    ensures
        find_alloc(s, start, size) < 0 ==> forall|i: int|
            0 <= i < s.len() ==> !((#[trigger] s[i]).start == start && s[i].size == size),
        find_alloc(s, start, size) >= 0 ==> 0 <= find_alloc(s, start, size) < s.len() && s[
            find_alloc(s, start, size)
        ].start == start && s[find_alloc(s, start, size)].size == size && forall|i: int|
            0 <= i < find_alloc(s, start, size) ==> !((#[trigger] s[i]).start == start && s[i].size
                == size),
    decreases s.len(),
{
    if s.len() > 0 && !(s.first().start == start && s.first().size == size) {
        lemma_find_alloc(s.drop_first(), start, size);
        assert(forall|i: int| 0 <= i < s.drop_first().len() ==> s.drop_first()[i] == s[i + 1]);
        let f = find_alloc(s.drop_first(), start, size);
        if f < 0 {
            assert forall|i: int| 0 <= i < s.len() implies !((#[trigger] s[i]).start == start && s[
                i
            ].size == size) by {
                if i > 0 {
                    assert(!(s.drop_first()[i - 1].start == start && s.drop_first()[i - 1].size
                        == size));
                }
            }
        } else {
            assert forall|i: int| 0 <= i < find_alloc(s, start, size) implies !((
            #[trigger] s[i]).start == start && s[i].size == size) by {
                if i > 0 {
                    assert(!(s.drop_first()[i - 1].start == start && s.drop_first()[i - 1].size
                        == size));
                }
            }
        }
    }
}

/// Free-region allocator: carved regions live in two ordered lists,
/// the outstanding allocations and the free pool.  Deallocations that
/// match nothing are counted rather than silently swallowed, a known
/// gap of the design this reproduces.
pub struct Allocator {
    allocations: Vec<Allocation>,
    free_regions: Vec<Allocation>,
    missed_frees: usize,
}

impl Allocator {
    pub closed spec fn allocs_view(&self) -> Seq<Allocation> {
        self.allocations@
    }

    pub closed spec fn free_view(&self) -> Seq<Allocation> {
        self.free_regions@
    }

    pub closed spec fn missed_free_count(&self) -> int {
        self.missed_frees as int
    }

    pub open spec fn wf(&self) -> bool {
        all_allocs_wf(self.allocs_view()) && all_allocs_wf(self.free_view())
    }

    /// Creates an allocator with no regions at all.
    pub fn new() -> (a: Allocator)
        ensures
            a.allocs_view() == Seq::<Allocation>::empty(),
            a.free_view() == Seq::<Allocation>::empty(),
            a.missed_free_count() == 0,
            a.wf(),
    {
        Allocator { allocations: Vec::new(), free_regions: Vec::new(), missed_frees: 0 }
    }

    /// How many deallocations matched nothing and were dropped.
    pub fn missed_free_events(&self) -> (n: usize)
        ensures
            n == self.missed_free_count(),
    {
        self.missed_frees
    }

    /// Tries to serve a request from the known free regions: a region
    /// of exactly the requested size is handed out whole; otherwise
    /// the smallest free region that still fits is split into an
    /// allocated prefix and a free remainder.  With no fitting region
    /// nothing changes and nothing is handed out.
    pub fn alloc_from_free(&mut self, size: usize) -> (r: Option<u64>)
        requires
            old(self).wf(),
        ensures
            final(self).wf(),
            final(self).missed_free_count() == old(self).missed_free_count(),
            ({
                let free = old(self).free_view();
                let allocs = old(self).allocs_view();
                let e = find_exact(free, size as int);
                let b = find_fit(free, size as int);
                if e >= 0 {
                    r == Some(free[e].start) && final(self).free_view() == free.remove(e) && final(self).allocs_view() == allocs.push(free[e])
                } else if b >= 0 {
                    r == Some(free[b].start) && final(self).free_view() == free.remove(b).push(
                        Allocation {
                            start: (free[b].start + size) as u64,
                            size: (free[b].size - size) as usize,
                        },
                    ) && final(self).allocs_view() == allocs.push(
                        Allocation { start: free[b].start, size: size },
                    )
                } else {
                    r is None && final(self).free_view() == free && final(self).allocs_view()
                        == allocs
                }
            }),
    {
        let n = self.free_regions.len();

        // Exact-size match first.
        let mut j: usize = 0;
        while j < n
            invariant
                old(self).wf(),
                n == self.free_regions@.len(),
                0 <= j <= n,
                *self == *old(self),
                forall|t: int| 0 <= t < j ==> (#[trigger] self.free_regions@[t]).size != size,
            decreases n - j,
        {
            let reg = self.free_regions[j];
            if reg.size == size {
                proof {
                    let fv = self.free_regions@;
                    lemma_find_exact(fv, size as int);
                    let e = find_exact(fv, size as int);
                    assert(fv[j as int].size == size);
                    assert(e >= 0) by {
                        if e < 0 {
                            assert(fv[j as int].size != size);
                        }
                    }
                    assert(e == j) by {
                        if e < j {
                            assert(fv[e].size != size);
                        }
                        if e > j {
                            assert(fv[j as int].size != size);
                        }
                    }
                }
                proof {
                    assert(all_allocs_wf(self.free_regions@));
                    assert(all_allocs_wf(self.allocations@));
                    assert(alloc_wf(self.free_regions@[j as int]));
                    lemma_wf_remove(self.free_regions@, j as int);
                    lemma_wf_push(self.allocations@, self.free_regions@[j as int]);
                }
                let reg = self.free_regions.remove(j);
                self.allocations.push(reg);
                return Some(reg.start);
            }
            j = j + 1;
        }

        // Best fit: the first smallest region that is large enough.
        let mut best: usize = 0;
        let mut have_best = false;
        let mut k: usize = 0;
        while k < n
            invariant
                old(self).wf(),
                n == self.free_regions@.len(),
                0 <= k <= n,
                *self == *old(self),
                forall|t: int| 0 <= t < n ==> (#[trigger] self.free_regions@[t]).size != size,
                !have_best ==> forall|t: int|
                    0 <= t < k ==> (#[trigger] self.free_regions@[t]).size < size,
                have_best ==> 0 <= best < k && self.free_regions@[best as int].size >= size && (
                forall|t: int|
                    0 <= t < k && (#[trigger] self.free_regions@[t]).size >= size
                        ==> self.free_regions@[best as int].size <= self.free_regions@[t].size) && (
                forall|t: int|
                    0 <= t < best && (#[trigger] self.free_regions@[t]).size >= size
                        ==> self.free_regions@[best as int].size < self.free_regions@[t].size),
            decreases n - k,
        {
            let reg = self.free_regions[k];
            if reg.size >= size {
                if !have_best {
                    best = k;
                    have_best = true;
                } else if reg.size < self.free_regions[best].size {
                    best = k;
                }
            }
            k = k + 1;
        }
        proof {
            if !have_best {
                let fv = self.free_regions@;
                lemma_find_exact(fv, size as int);
                lemma_find_fit(fv, size as int);
                let e = find_exact(fv, size as int);
                let b = find_fit(fv, size as int);
                if e >= 0 {
                    assert(fv[e].size != size);
                }
                if b >= 0 {
                    assert(fv[b].size < size);
                }
            }
        }
        if have_best {
            proof {
                let fv = self.free_regions@;
                lemma_find_fit(fv, size as int);
                let b = find_fit(fv, size as int);
                assert(fv[best as int].size >= size);
                assert(b >= 0) by {
                    if b < 0 {
                        assert(fv[best as int].size < size);
                    }
                }
                assert(b == best) by {
                    assert(fv[b].size <= fv[best as int].size);
                    assert(fv[best as int].size <= fv[b].size);
                    if b < best {
                        assert(fv[best as int].size < fv[b].size);
                    }
                    if best < b {
                        assert(fv[b].size < fv[best as int].size);
                    }
                }
                assert(alloc_wf(fv[b]));
                assert(find_exact(old(self).free_view(), size as int) < 0) by {
                    lemma_find_exact(fv, size as int);
                    let e = find_exact(fv, size as int);
                    if e >= 0 {
                        assert(fv[e].size != size);
                    }
                }
            }
            proof {
                lemma_wf_remove(self.free_regions@, best as int);
            }
            let reg = self.free_regions.remove(best);
            let new_free = Allocation { start: reg.start + size as u64, size: reg.size - size };
            let new_alloc = Allocation { start: reg.start, size: size };
            proof {
                lemma_wf_push(self.free_regions@, new_free);
                lemma_wf_push(self.allocations@, new_alloc);
            }
            self.free_regions.push(new_free);
            self.allocations.push(new_alloc);
            return Some(reg.start);
        }
        None
    }

    /// Serves a request by splitting a freshly allocated page frame:
    /// the remainder of the frame past the requested bytes joins the
    /// free pool.  The carved prefix itself is not recorded in the
    /// allocation list, matching the allocator this reproduces; such
    /// regions can never be handed back.
    pub fn get_frame(&mut self, fa: &mut FrameAllocator, size: usize) -> (r: Option<u64>)
        requires
            old(self).wf(),
            size <= PAGE_SIZE,
            frames_wf(old(fa).frames_view()),
        ensures
            final(self).wf(),
            final(self).missed_free_count() == old(self).missed_free_count(),
            final(self).allocs_view() == old(self).allocs_view(),
            final(fa).bootstrap_frame() == old(fa).bootstrap_frame(),
            ({
                let taken = spec_allocate(old(fa).frames_view());
                final(fa).frames_view() == taken.0 && (match taken.1 {
                    Some(base) => r == Some(base) && final(self).free_view() == old(self).free_view().push(
                        Allocation {
                            start: (base + size) as u64,
                            size: (PAGE_SIZE - size) as usize,
                        },
                    ),
                    None => r is None && final(self).free_view() == old(self).free_view(),
                })
            }),
    {
        let frame = fa.allocate_frame();
        match frame {
            None => None,
            Some(base) => {
                proof {
                    let f = first_free_index(old(fa).frames_view());
                    crate::frame_allocator::lemma_first_free_correct(old(fa).frames_view());
                    assert(old(fa).frames_view()[f].0 + PAGE_SIZE <= u64::MAX);
                }
                let new_free = Allocation {
                    start: base + size as u64,
                    size: (PAGE_SIZE as usize) - size,
                };
                proof {
                    lemma_wf_push(self.free_regions@, new_free);
                }
                self.free_regions.push(new_free);
                Some(base)
            },
        }
    }

    /// Serves an allocation request of at most one page: first from
    /// the free pool, then from a fresh frame; with neither available
    /// nothing is handed out.
    pub fn allocate(&mut self, fa: &mut FrameAllocator, size: usize) -> (r: Option<u64>)
        requires
            old(self).wf(),
            size <= PAGE_SIZE,
            frames_wf(old(fa).frames_view()),
        ensures
            final(self).wf(),
            final(self).missed_free_count() == old(self).missed_free_count(),
            final(fa).bootstrap_frame() == old(fa).bootstrap_frame(),
            ({
                let free = old(self).free_view();
                let allocs = old(self).allocs_view();
                let e = find_exact(free, size as int);
                let b = find_fit(free, size as int);
                if e >= 0 {
                    r == Some(free[e].start) && final(self).free_view() == free.remove(e) && final(self).allocs_view() == allocs.push(free[e]) && *final(fa) == *old(fa)
                } else if b >= 0 {
                    r == Some(free[b].start) && final(self).free_view() == free.remove(b).push(
                        Allocation {
                            start: (free[b].start + size) as u64,
                            size: (free[b].size - size) as usize,
                        },
                    ) && final(self).allocs_view() == allocs.push(
                        Allocation { start: free[b].start, size: size },
                    ) && *final(fa) == *old(fa)
                } else {
                    final(self).allocs_view() == allocs && ({
                        let taken = spec_allocate(old(fa).frames_view());
                        final(fa).frames_view() == taken.0 && (match taken.1 {
                            Some(base) => r == Some(base) && final(self).free_view() == free.push(
                                Allocation {
                                    start: (base + size) as u64,
                                    size: (PAGE_SIZE - size) as usize,
                                },
                            ),
                            None => r is None && final(self).free_view() == free,
                        })
                    })
                }
            }),
    {
        let from_free = self.alloc_from_free(size);
        if from_free.is_some() {
            return from_free;
        }
        self.get_frame(fa, size)
    }

    /// Hands a region back: only an allocation recorded with exactly
    /// this start and size is recycled into the free pool; anything
    /// else is dropped and only counted.
    pub fn dealloc(&mut self, ptr: u64, size: usize) -> (freed: bool)
        requires
            old(self).wf(),
        ensures
            final(self).wf(),
            ({
                let allocs = old(self).allocs_view();
                let i = find_alloc(allocs, ptr, size as int);
                if i >= 0 {
                    freed && final(self).allocs_view() == allocs.remove(i) && final(self).free_view() == old(self).free_view().push(allocs[i]) && final(self).missed_free_count() == old(self).missed_free_count()
                } else {
                    !freed && final(self).allocs_view() == allocs && final(self).free_view() == old(self).free_view() && final(self).missed_free_count() == if old(self).missed_free_count() < usize::MAX {
                        old(self).missed_free_count() + 1
                    } else {
                        old(self).missed_free_count()
                    }
                }
            }),
    {
        let n = self.allocations.len();
        let mut j: usize = 0;
        while j < n
            invariant
                old(self).wf(),
                n == self.allocations@.len(),
                0 <= j <= n,
                *self == *old(self),
                forall|t: int|
                    0 <= t < j ==> !((#[trigger] self.allocations@[t]).start == ptr
                        && self.allocations@[t].size == size),
            decreases n - j,
        {
            let a = self.allocations[j];
            if a.start == ptr && a.size == size {
                proof {
                    let av = self.allocations@;
                    lemma_find_alloc(av, ptr, size as int);
                    let f = find_alloc(av, ptr, size as int);
                    assert(av[j as int].start == ptr && av[j as int].size == size);
                    assert(f >= 0) by {
                        if f < 0 {
                            assert(!(av[j as int].start == ptr && av[j as int].size == size));
                        }
                    }
                    assert(f == j) by {
                        if f < j {
                            assert(!(av[f].start == ptr && av[f].size == size));
                        }
                        if f > j {
                            assert(!(av[j as int].start == ptr && av[j as int].size == size));
                        }
                    }
                }
                proof {
                    assert(all_allocs_wf(self.free_regions@));
                    assert(all_allocs_wf(self.allocations@));
                    assert(alloc_wf(self.allocations@[j as int]));
                    lemma_wf_remove(self.allocations@, j as int);
                    lemma_wf_push(self.free_regions@, self.allocations@[j as int]);
                }
                let recycled = self.allocations.remove(j);
                self.free_regions.push(recycled);
                return true;
            }
            j = j + 1;
        }
        proof {
            let av = self.allocations@;
            lemma_find_alloc(av, ptr, size as int);
            let f = find_alloc(av, ptr, size as int);
            if f >= 0 {
                assert(av[f].start == ptr && av[f].size == size);
                assert(!(av[f].start == ptr && av[f].size == size));
            }
        }
        if self.missed_frees < usize::MAX {
            self.missed_frees = self.missed_frees + 1;
        }
        false
    }
}

/// Handle for the firmware-pool-backed global allocator.  The pool
/// calls themselves are firmware services and stay with the loader;
/// the handle only marks which allocator the loader routes through.
pub struct GlobalAllocator {}

impl GlobalAllocator {
    /// Creates the routing handle.
    pub fn new() -> GlobalAllocator {
        GlobalAllocator {  }
    }
}

} // verus!
