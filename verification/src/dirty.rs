//! Dirty-region accumulation.
//!
//! The engine reports the bounding boxes of layers that changed; this merges
//! overlapping / touching boxes so a backend sends a handful of regions instead
//! of dozens of tiny ones.

use vstd::prelude::*;

use crate::frame::Rect;

verus! {

/// True if the rectangles overlap or share an edge.
pub open spec fn spec_touches(a: Rect, b: Rect) -> bool {
    a.x <= b.right() && b.x <= a.right() && a.y <= b.bottom() && b.y <= a.bottom()
}

/// `big` covers every pixel of `small`.
pub open spec fn encloses(big: Rect, small: Rect) -> bool {
    big.x <= small.x && small.right() <= big.right() && big.y <= small.y && small.bottom()
        <= big.bottom()
}

/// Some entry of `s` covers every pixel of `x`.
pub open spec fn covered(s: Seq<Rect>, x: Rect) -> bool {
    exists|i: int| 0 <= i < s.len() && encloses(#[trigger] s[i], x)
}

/// A region worth tracking: non-empty and with representable far edges.
pub open spec fn good_region(r: Rect) -> bool {
    r.in_range() && r.w > 0 && r.h > 0
}

/// No two entries of `s` touch (so, in particular, no entry occurs twice).
pub open spec fn pairwise_apart(s: Seq<Rect>) -> bool {
    forall|i: int, j: int|
        0 <= i < s.len() && 0 <= j < s.len() && i != j ==> !spec_touches(
            #[trigger] s[i],
            #[trigger] s[j],
        )
}

/// Every edge of `m` is the matching edge of `r` or of a rectangle of `old`
/// that `now` no longer holds.
pub open spec fn edges_attained(m: Rect, r: Rect, old: Seq<Rect>, now: Seq<Rect>) -> bool {
    &&& (m.x == r.x || exists|o: Rect| old.contains(o) && !now.contains(o) && o.x == m.x)
    &&& (m.y == r.y || exists|o: Rect| old.contains(o) && !now.contains(o) && o.y == m.y)
    &&& (m.right() == r.right() || exists|o: Rect|
        old.contains(o) && !now.contains(o) && o.right() == m.right())
    &&& (m.bottom() == r.bottom() || exists|o: Rect|
        old.contains(o) && !now.contains(o) && o.bottom() == m.bottom())
}

/// Box `b` holds `r` and every rectangle of `t`, and touches no rectangle of
/// `old` outside `t`: merging `r` with `t` into `b` would leave the rest of
/// `old` untouched.
pub open spec fn confines(old: Seq<Rect>, r: Rect, t: Set<Rect>, b: Rect) -> bool {
    &&& encloses(b, r)
    &&& forall|o: Rect| #[trigger] t.contains(o) ==> encloses(b, o)
    &&& forall|o: Rect| #[trigger] old.contains(o) && !t.contains(o) ==> !spec_touches(o, b)
}

#[derive(Debug, Default)]
pub struct DirtyTracker {
    regions: Vec<Rect>,
}

impl View for DirtyTracker {
    type V = Seq<Rect>;

    closed spec fn view(&self) -> Seq<Rect> {
        self.regions@
    }
}

impl DirtyTracker {
    /// Every region is non-empty, in range, and no two regions touch.
    pub open spec fn wf(&self) -> bool {
        &&& forall|i: int| 0 <= i < self@.len() ==> good_region(#[trigger] self@[i])
        &&& pairwise_apart(self@)
    }

    pub fn new() -> (t: Self)
        ensures
            t.wf(),
            t@ == Seq::<Rect>::empty(),
    {
        DirtyTracker { regions: Vec::new() }
    }

    pub fn clear(&mut self)
        ensures
            final(self).wf(),
            final(self)@ == Seq::<Rect>::empty(),
    {
        self.regions.clear();
    }

    pub fn is_empty(&self) -> (b: bool)
        ensures
            b == (self@.len() == 0),
    {
        self.regions.is_empty()
    }

    pub fn regions(&self) -> (s: &[Rect])
        ensures
            s@ == self@,
    {
        self.regions.as_slice()
    }

    /// Add a rectangle, merging it into any existing region it touches.
    ///
    /// An empty rectangle changes nothing. Otherwise the regions that the
    /// growing box touches are removed and the box becomes the bounding box of
    /// `r` and all of them; it is appended last. Untouched regions stay as
    /// they were.
    pub fn add(&mut self, r: Rect)
        requires
            old(self).wf(),
            r.w > 0 && r.h > 0 ==> r.in_range(),
        ensures
            final(self).wf(),
            r.w == 0 || r.h == 0 ==> final(self)@ == old(self)@,
            forall|x: Rect| covered(old(self)@, x) ==> #[trigger] covered(final(self)@, x),
            r.w > 0 && r.h > 0 ==> covered(final(self)@, r),
            r.w > 0 && r.h > 0 ==> {
                let new = final(self)@;
                let m = new.last();
                &&& new.len() > 0
                &&& encloses(m, r)
                &&& forall|i: int| 0 <= i < new.len() - 1 ==> old(self)@.contains(#[trigger] new[i])
                &&& forall|o: Rect|
                    #[trigger] old(self)@.contains(o) ==> new.drop_last().contains(o) || encloses(m, o)
                &&& forall|o: Rect|
                    #[trigger] old(self)@.contains(o) && !new.drop_last().contains(o) ==> encloses(m, o)
                &&& forall|o: Rect|
                    #[trigger] old(self)@.contains(o) && !spec_touches(o, m) ==> new.drop_last().contains(o)
                &&& forall|t: Set<Rect>, b: Rect, o: Rect|
                    #![trigger confines(old(self)@, r, t, b), new.drop_last().contains(o)]
                    confines(old(self)@, r, t, b) && old(self)@.contains(o) && !new.drop_last().contains(o)
                        ==> t.contains(o)
                &&& edges_attained(m, r, old(self)@, new.drop_last())
            },
    {
        if r.w == 0 || r.h == 0 {
            return;
        }
        let ghost orig = self.regions@;
        let mut merged = r;
        let mut i: usize = 0;
        while i < self.regions.len()
            invariant
                pairwise_apart(orig),
                forall|j: int| 0 <= j < orig.len() ==> good_region(#[trigger] orig[j]),
                good_region(merged),
                encloses(merged, r),
                forall|j: int| 0 <= j < self.regions@.len() ==> orig.contains(#[trigger] self.regions@[j]),
                pairwise_apart(self.regions@),
                forall|o: Rect| #[trigger] orig.contains(o) ==> self.regions@.contains(o) || encloses(merged, o),
                forall|o: Rect|
                    #[trigger] orig.contains(o) && !self.regions@.contains(o) ==> encloses(merged, o),
                forall|o: Rect|
                    #[trigger] orig.contains(o) && !self.regions@.contains(o) ==> spec_touches(o, merged),
                forall|t: Set<Rect>, b: Rect| #[trigger] confines(orig, r, t, b) ==> encloses(b, merged),
                forall|t: Set<Rect>, b: Rect, o: Rect|
                    #![trigger confines(orig, r, t, b), self.regions@.contains(o)]
                    confines(orig, r, t, b) && orig.contains(o) && !self.regions@.contains(o) ==> t.contains(o),
                edges_attained(merged, r, orig, self.regions@),
                forall|j: int| 0 <= j < i ==> !spec_touches(#[trigger] self.regions@[j], merged),
                i <= self.regions@.len(),
            decreases self.regions@.len(), self.regions@.len() - i,
        {
            if touches(self.regions[i], merged) {
                let ghost before = self.regions@;
                let ghost gone = before[i as int];
                let taken = self.regions.swap_remove(i);
                proof {
                    lemma_swap_remove_contains(before, i as int);
                }
                let ghost prev = merged;
                merged = taken.union(merged);
                proof {
                    assert(orig.contains(gone));
                    assert(!self.regions@.contains(gone)) by {
                        if self.regions@.contains(gone) {
                            let j = choose|j: int| 0 <= j < self.regions@.len() && self.regions@[j] == gone;
                            assert(before.contains(self.regions@[j]));
                            let k = choose|k: int| 0 <= k < before.len() && k != i && before[k] == gone;
                            assert(spec_touches(before[k], before[i as int]));
                        }
                    }
                    assert forall|o: Rect| #[trigger] orig.contains(o) implies self.regions@.contains(o)
                        || encloses(merged, o) by {
                        if !self.regions@.contains(o) {
                            if o != gone {
                                assert(!before.contains(o));
                                assert(encloses(prev, o));
                            }
                        }
                    }
                    assert forall|o: Rect|
                        #[trigger] orig.contains(o) && !self.regions@.contains(o) implies encloses(
                        merged,
                        o,
                    ) by {
                        if o != gone {
                            assert(!before.contains(o));
                        }
                    }
                    assert forall|o: Rect|
                        #[trigger] orig.contains(o) && !self.regions@.contains(o) implies spec_touches(
                        o,
                        merged,
                    ) by {
                        if o != gone {
                            assert(!before.contains(o));
                            assert(spec_touches(o, prev));
                        }
                    }
                    assert forall|o: Rect|
                        orig.contains(o) && !before.contains(o) implies !self.regions@.contains(o) by {
                        if self.regions@.contains(o) {
                            let j = choose|j: int| 0 <= j < self.regions@.len() && self.regions@[j] == o;
                            assert(before.contains(self.regions@[j]));
                        }
                    }
                    assert forall|t: Set<Rect>, b: Rect| #[trigger] confines(orig, r, t, b) implies encloses(
                        b,
                        merged,
                    ) && t.contains(gone) by {
                        assert(encloses(b, prev));
                        if !t.contains(gone) {
                            assert(!spec_touches(gone, b));
                        }
                    }
                    assert forall|t: Set<Rect>, b: Rect, o: Rect|
                        confines(orig, r, t, b) && orig.contains(o) && !self.regions@.contains(
                            o,
                        ) implies t.contains(o) by {
                        if o != gone {
                            assert(!before.contains(o));
                        }
                    }
                    assert(edges_attained(merged, r, orig, self.regions@));
                    assert(pairwise_apart(self.regions@)) by {
                        assert forall|a: int, b: int|
                            0 <= a < self.regions@.len() && 0 <= b < self.regions@.len() && a != b
                            implies !spec_touches(
                            #[trigger] self.regions@[a],
                            #[trigger] self.regions@[b],
                        ) by {
                            let ia = if a == i { before.len() - 1 } else { a };
                            let ib = if b == i { before.len() - 1 } else { b };
                            assert(self.regions@[a] == before[ia]);
                            assert(self.regions@[b] == before[ib]);
                        }
                    }
                }
                i = 0;
            } else {
                i += 1;
            }
        }
        let ghost kept = self.regions@;
        self.regions.push(merged);
        proof {
            let new = self.regions@;
            assert(new.drop_last() == kept);
            assert(new.last() == merged);
            assert forall|a: int, b: int| 0 <= a < new.len() && 0 <= b < new.len() && a != b implies !spec_touches(
                #[trigger] new[a],
                #[trigger] new[b],
            ) by {
                if a == new.len() - 1 {
                    assert(!spec_touches(kept[b], merged));
                } else if b == new.len() - 1 {
                    assert(!spec_touches(kept[a], merged));
                } else {
                    assert(new[a] == kept[a] && new[b] == kept[b]);
                }
            }
            assert forall|j: int| 0 <= j < new.len() implies good_region(#[trigger] new[j]) by {
                if j < new.len() - 1 {
                    assert(new[j] == kept[j]);
                    assert(orig.contains(kept[j]));
                }
            }
            assert forall|j: int| 0 <= j < new.len() - 1 implies orig.contains(#[trigger] new[j]) by {
                assert(new[j] == kept[j]);
            }
            assert forall|x: Rect| covered(orig, x) implies #[trigger] covered(new, x) by {
                let i = choose|i: int| 0 <= i < orig.len() && encloses(#[trigger] orig[i], x);
                let o = orig[i];
                assert(orig.contains(o));
                if kept.contains(o) {
                    let j = choose|j: int| 0 <= j < kept.len() && kept[j] == o;
                    assert(new[j] == o);
                } else {
                    assert(encloses(merged, o));
                    assert(new[new.len() - 1] == merged);
                }
            }
            assert(new[new.len() - 1] == merged);
            assert(covered(new, r));
        }
    }
}

/// True if the rectangles overlap or share an edge.
fn touches(a: Rect, b: Rect) -> (t: bool)
    ensures
        t == spec_touches(a, b),
{
    let ax1 = a.x as i32 + a.w as i32;
    let ay1 = a.y as i32 + a.h as i32;
    let bx1 = b.x as i32 + b.w as i32;
    let by1 = b.y as i32 + b.h as i32;
    (a.x as i32) <= bx1 && (b.x as i32) <= ax1 && (a.y as i32) <= by1 && (b.y as i32) <= ay1
}

/// What `swap_remove(i)` keeps: everything but the element at `i`.
proof fn lemma_swap_remove_contains(s: Seq<Rect>, i: int)
    requires
        0 <= i < s.len(),
    ensures
        forall|k: int|
            0 <= k < s.len() && k != i ==> s.update(i, s.last()).drop_last().contains(#[trigger] s[k]),
        forall|o: Rect| s.update(i, s.last()).drop_last().contains(o) ==> #[trigger] s.contains(o),
        s.update(i, s.last()).drop_last().len() == s.len() - 1,
        forall|a: int|
            0 <= a < s.len() - 1 ==> #[trigger] s.update(i, s.last()).drop_last()[a] == if a == i {
                s[s.len() - 1]
            } else {
                s[a]
            },
{
    let t = s.update(i, s.last()).drop_last();
    assert forall|k: int| 0 <= k < s.len() && k != i implies t.contains(#[trigger] s[k]) by {
        if k == s.len() - 1 {
            assert(t[i] == s[k]);
        } else {
            assert(t[k] == s[k]);
        }
    }
    assert forall|o: Rect| t.contains(o) implies #[trigger] s.contains(o) by {
        let j = choose|j: int| 0 <= j < t.len() && t[j] == o;
        if j == i {
            assert(s[s.len() - 1] == o);
        } else {
            assert(s[j] == o);
        }
    }
}

} // verus!
