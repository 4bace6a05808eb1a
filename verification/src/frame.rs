//! A per-trajectory filter over frame positions.

use vstd::prelude::*;
use crate::range::Range;

verus! {

/// A sequence of indices in strictly ascending order, hence without
/// duplicates.
pub open spec fn strictly_increasing(s: Seq<usize>) -> bool {
    forall|i: int, j: int| 0 <= i < j < s.len() ==> s[i] < s[j]
}

/// A selection of frames.
#[derive(Debug, Clone)]
pub enum FrameSelection {
    /// Include all frames that are in a trajectory.
    All,
    /// Include frames that lie within a certain [`Range`].
    Range(Range),
    /// Include frames that match the indices in this list.
    ///
    /// Invariant: the indices in the list are unique and sorted ascending.
    FrameList(Vec<usize>),
}

impl FrameSelection {
    /// A `FrameSelection` is well formed when its `Range` is well formed,
    /// respectively when its frame list is sorted ascending without
    /// duplicates.
    pub open spec fn wf(self) -> bool {
        match self {
            FrameSelection::All => true,
            FrameSelection::Range(range) => range.wf(),
            FrameSelection::FrameList(indices) => strictly_increasing(indices@),
        }
    }

    /// The three-valued membership answer: `All` includes every frame;
    /// `Range` answers by stride arithmetic; `FrameList` answers `None` for
    /// an empty list or past the largest listed index, and membership in the
    /// list otherwise.
    pub open spec fn spec_is_included(self, idx: usize) -> Option<bool> {
        match self {
            FrameSelection::All => Some(true),
            FrameSelection::Range(range) => range.spec_is_included(idx as u64),
            FrameSelection::FrameList(indices) => if indices@.len() == 0 {
                None
            } else if indices@.last() < idx {
                None
            } else {
                Some(indices@.contains(idx))
            },
        }
    }

    /// What `until` returns: `None` for `All` or an unbounded `Range`; one
    /// past the last index of a bounded `Range`; one past the largest listed
    /// frame index, or one for an empty list.
    pub open spec fn spec_until(self) -> Option<usize> {
        match self {
            FrameSelection::All => None,
            FrameSelection::Range(range) => match range.spec_last() {
                Some(last) => Some((last + 1) as usize),
                None => None,
            },
            FrameSelection::FrameList(indices) => if indices@.len() == 0 {
                Some(1)
            } else {
                Some((indices@.last() + 1) as usize)
            },
        }
    }

    /// Whether the exclusive bound `until` computes fits in a `usize` on the
    /// machine at hand.
    pub open spec fn until_in_bounds(self) -> bool {
        match self {
            FrameSelection::All => true,
            FrameSelection::Range(range) => range.end matches Some(end) ==> end < usize::MAX,
            FrameSelection::FrameList(indices) => indices@.len() > 0 ==> indices@.last()
                < usize::MAX,
        }
    }

    /// Create a new `FrameSelection::FrameList` variant from a list of
    /// indices, deduplicating and sorting them ascending.
    pub fn framelist_from_iter(indices: &[usize]) -> (r: Self)
        ensures
            r matches FrameSelection::FrameList(list) && {
                &&& strictly_increasing(list@)
                &&& forall|x: usize| #![auto] list@.contains(x) <==> indices@.contains(x)
            },
    {
        let mut list: Vec<usize> = Vec::new();
        let mut j: usize = 0;
        while j < indices.len()
            invariant
                j <= indices@.len(),
                strictly_increasing(list@),
                forall|x: usize| #![auto]
                    list@.contains(x) <==> indices@.take(j as int).contains(x),
            decreases indices@.len() - j,
        {
            insert_unique_sorted(&mut list, indices[j]);
            assert(indices@.take(j + 1).drop_last() =~= indices@.take(j as int));
            assert forall|x: usize| #![auto]
                list@.contains(x) <==> indices@.take(j + 1).contains(x) by {
                let taken = indices@.take(j + 1);
                if list@.contains(x) {
                    if x == indices@[j as int] {
                        assert(taken[j as int] == x);
                    } else {
                        let w = choose|w: int|
                            0 <= w < j && indices@.take(j as int)[w] == x;
                        assert(taken[w] == x);
                    }
                } else {
                    if taken.contains(x) {
                        let w = choose|w: int| 0 <= w < taken.len() && taken[w] == x;
                        if w < j {
                            assert(indices@.take(j as int)[w] == x);
                        }
                    }
                }
            }
            j += 1;
        }
        assert(indices@.take(indices@.len() as int) =~= indices@);
        FrameSelection::FrameList(list)
    }

    /// Determine whether some index `idx` is included in this
    /// `FrameSelection`.
    ///
    /// Returns `None` once the index is beyond the scope of this selection:
    /// the caller must stop querying rather than interpret the answer as
    /// exclusion.
    pub fn is_included(&self, idx: usize) -> (r: Option<bool>)
        requires
            self.wf(),
        ensures
            r == self.spec_is_included(idx),
    {
        match self {
            FrameSelection::All => Some(true),
            FrameSelection::Range(range) => range.is_included(idx as u64),
            FrameSelection::FrameList(indices) => {
                if indices.len() == 0 {
                    None
                } else if indices[indices.len() - 1] < idx {
                    None
                } else {
                    Some(contains_index(indices, idx))
                }
            },
        }
    }

    /// If available, return the index of the frame up to which the frames
    /// should be read.
    ///
    /// This is an exclusive value: if some index is returned, the index
    /// itself is not included in the `FrameSelection`, but the frame before
    /// it is the last one that can be.
    pub fn until(&self) -> (r: Option<usize>)
        requires
            self.wf(),
            self.until_in_bounds(),
        ensures
            r == self.spec_until(),
    {
        match self {
            FrameSelection::All => None,
            FrameSelection::Range(range) => {
                proof {
                    if let Some(end) = range.end {
                        let length: int = if range.start <= end {
                            end - range.start
                        } else {
                            0
                        };
                        assert(0 <= length % (range.step as int) <= length) by (nonlinear_arith)
                            requires
                                range.step >= 1,
                                length >= 0,
                        ;
                        assert(range.spec_last() matches Some(last) && last <= end);
                    }
                }
                match range.last() {
                    Some(last) => Some(last + 1),
                    None => None,
                }
            },
            FrameSelection::FrameList(indices) => {
                if indices.len() == 0 {
                    Some(1)
                } else {
                    Some(indices[indices.len() - 1] + 1)
                }
            },
        }
    }
}

/// Law: the all-frames selection includes every index unconditionally, at
/// any magnitude.
pub proof fn lemma_all_frames_included(idx: usize)
    ensures
        FrameSelection::All.spec_is_included(idx) == Some(true),
{
}

/// A stride multiple below `length` stays below the last stride multiple,
/// `length` minus its remainder.
proof fn lemma_stride_multiple_below_remainder(d: int, length: int, step: int)
    requires
        step >= 1,
        0 <= d <= length,
        d % step == 0,
    ensures
        d <= length - length % step,
{
    vstd::arithmetic::div_mod::lemma_fundamental_div_mod(d, step);
    vstd::arithmetic::div_mod::lemma_fundamental_div_mod(length, step);
    vstd::arithmetic::div_mod::lemma_mod_bound(d, step);
    vstd::arithmetic::div_mod::lemma_mod_bound(length, step);
    let qd = d / step;
    let ql = length / step;
    assert(qd <= ql) by (nonlinear_arith)
        requires
            step >= 1,
            d == step * qd,
            length == step * ql + length % step,
            0 <= length % step < step,
            d <= length,
            qd >= 0,
            ql >= 0,
    ;
    assert(step * qd <= step * ql) by (nonlinear_arith)
        requires
            step >= 1,
            qd <= ql,
    ;
}

/// Law: when `until` returns an index, no frame at or past that index is
/// included in the selection, so a reader may stop consuming the trajectory
/// there without missing a selected frame.
pub proof fn lemma_until_bounds_selection(sel: FrameSelection, idx: usize)
    requires
        sel.wf(),
        sel.until_in_bounds(),
        sel.spec_until() matches Some(u) && u <= idx,
    ensures
        sel.spec_is_included(idx) != Some(true),
{
    match sel {
        FrameSelection::All => {},
        FrameSelection::Range(range) => {
            if let Some(end) = range.end {
                let start = range.start as int;
                let step = range.step as int;
                let length: int = if start <= end {
                    end - start
                } else {
                    0
                };
                assert(0 <= length % step <= length) by (nonlinear_arith)
                    requires
                        step >= 1,
                        length >= 0,
                ;
                if range.start <= (idx as u64) && (idx as u64) < end {
                    let d = idx - start;
                    if d % step == 0 {
                        lemma_stride_multiple_below_remainder(d, length, step);
                    }
                }
            }
        },
        FrameSelection::FrameList(indices) => {
            if indices@.len() > 0 && indices@.contains(idx) {
                let w = choose|w: int| 0 <= w < indices@.len() && indices@[w] == idx;
                assert(indices@[w] <= indices@[indices@.len() - 1]);
            }
        },
    }
}

/// Law: for a nonempty frame list the bound `until` computes is tight: the
/// frame right below it is included.
pub proof fn lemma_list_until_is_tight(sel: FrameSelection)
    requires
        sel matches FrameSelection::FrameList(indices) && indices@.len() > 0,
        sel.wf(),
        sel.until_in_bounds(),
    ensures
        sel.spec_until() matches Some(u) && 1 <= u && sel.spec_is_included((u - 1) as usize)
            == Some(true),
{
    if let FrameSelection::FrameList(indices) = sel {
        assert(indices@.contains(indices@.last())) by {
            assert(indices@[indices@.len() - 1] == indices@.last());
        }
    }
}

impl Default for FrameSelection {
    /// The default `FrameSelection` includes all frames.
    fn default() -> (r: Self)
        ensures
            r is All,
    {
        FrameSelection::All
    }
}

/// Insert `x` into the sorted duplicate-free vector `list`, keeping it
/// sorted and duplicate-free; inserting an index that is already present
/// leaves the vector unchanged.
fn insert_unique_sorted(list: &mut Vec<usize>, x: usize)
    requires
        strictly_increasing(old(list)@),
    ensures
        strictly_increasing(final(list)@),
        forall|y: usize|
            (#[trigger] final(list)@.contains(y)) <==> (old(list)@.contains(y) || y == x),
{
    let mut i: usize = 0;
    while i < list.len() && list[i] < x
        invariant
            strictly_increasing(list@),
            *list == *old(list),
            i <= list@.len(),
            forall|k: int| 0 <= k < i ==> list@[k] < x,
        decreases list@.len() - i,
    {
        i += 1;
    }
    if i < list.len() && list[i] == x {
        proof {
            assert(list@.contains(x));
        }
        return;
    }
    let ghost pre = list@;
    list.insert(i, x);
    proof {
        assert forall|a: int, b: int| 0 <= a < b < list@.len() implies list@[a] < list@[b] by {
            if b < i {
                assert(list@[a] == pre[a] && list@[b] == pre[b]);
            } else if a > i {
                assert(list@[a] == pre[a - 1] && list@[b] == pre[b - 1]);
            } else if a < i && b == i {
                assert(list@[a] == pre[a] && list@[b] == x);
            } else if a == i && b > i {
                assert(list@[a] == x && list@[b] == pre[b - 1]);
                if i < pre.len() {
                    assert(pre[i as int] != x && pre[i as int] >= x);
                    assert(pre[b - 1] >= pre[i as int]);
                }
            } else if a < i && b > i {
                assert(list@[a] == pre[a] && list@[b] == pre[b - 1]);
            }
        }
        assert forall|y: usize|
            (#[trigger] list@.contains(y)) <==> (pre.contains(y) || y == x) by {
            if list@.contains(y) {
                let w = choose|w: int| 0 <= w < list@.len() && list@[w] == y;
                if w < i {
                    assert(pre[w] == y);
                } else if w > i {
                    assert(pre[w - 1] == y);
                }
            }
            if pre.contains(y) {
                let w = choose|w: int| 0 <= w < pre.len() && pre[w] == y;
                if w < i {
                    assert(list@[w] == y);
                } else {
                    assert(list@[w + 1] == y);
                }
            }
            if y == x {
                assert(list@[i as int] == y);
            }
        }
    }
}

/// Whether `idx` occurs in `list`, by linear scan.
fn contains_index(list: &Vec<usize>, idx: usize) -> (r: bool)
    ensures
        r == list@.contains(idx),
{
    let mut i: usize = 0;
    while i < list.len()
        invariant
            i <= list@.len(),
            forall|k: int| 0 <= k < i ==> list@[k] != idx,
        decreases list@.len() - i,
    {
        if list[i] == idx {
            return true;
        }
        i += 1;
    }
    false
}

} // verus!
