//! A per-frame filter over atom positions.

use vstd::prelude::*;

verus! {

/// A selection of atoms.
#[derive(Debug, Clone)]
pub enum AtomSelection {
    /// Include all atoms.
    All,
    /// A mask of the positions to include in the selection.
    ///
    /// If the value of the mask at an index `n` is `true`, the position at
    /// that same index `n` is included in the selection.
    Mask(Vec<bool>),
    /// Cutoff position: every position up to and including this index is in
    /// the selection, and every later position is beyond its scope.
    Until(u32),
}

/// The number of `true` entries in a mask.
pub open spec fn count_true(s: Seq<bool>) -> nat
    decreases s.len(),
{
    if s.len() == 0 {
        0
    } else {
        count_true(s.drop_last()) + if s.last() { 1nat } else { 0nat }
    }
}

/// One past the index of the last `true` entry of a mask, or zero when no
/// entry is `true`: the number of positions a scan must visit to cover every
/// selected one.
pub open spec fn scan_limit(s: Seq<bool>) -> nat
    decreases s.len(),
{
    if s.len() == 0 {
        0
    } else if s.last() {
        s.len()
    } else {
        scan_limit(s.drop_last())
    }
}

impl AtomSelection {
    /// The three-valued membership answer: `All` includes every position;
    /// `Mask` answers by table lookup while the position is within the mask
    /// and `None` beyond it; `Until` includes every position up to and
    /// including the cutoff and answers `None` beyond it.
    pub open spec fn spec_is_included(self, idx: usize) -> Option<bool> {
        match self {
            AtomSelection::All => Some(true),
            AtomSelection::Mask(mask) => if idx < mask@.len() {
                Some(mask@[idx as int])
            } else {
                None
            },
            AtomSelection::Until(until) => if idx <= until {
                Some(true)
            } else {
                None
            },
        }
    }

    /// What `last` returns: `None` for `All`, the scan limit of the mask for
    /// `Mask`, and the cutoff itself for `Until`.
    pub open spec fn spec_last(self) -> Option<usize> {
        match self {
            AtomSelection::All => None,
            AtomSelection::Mask(mask) => Some(scan_limit(mask@) as usize),
            AtomSelection::Until(until) => Some(until as usize),
        }
    }

    /// What `natoms_selected` returns: the number of positions the selection
    /// keeps among the first `frame_natoms` ones.
    pub open spec fn spec_natoms_selected(self, frame_natoms: usize) -> nat {
        match self {
            AtomSelection::All => frame_natoms as nat,
            AtomSelection::Mask(mask) => count_true(
                mask@.take(vstd::math::min(frame_natoms as int, mask@.len() as int)),
            ),
            AtomSelection::Until(until) => vstd::math::min(
                until as int,
                frame_natoms as int,
            ) as nat,
        }
    }

    /// What `reading_limit` returns: the last index of the selection, clipped
    /// to `frame_natoms`, defaulting to `frame_natoms` when the selection has
    /// no last index.
    pub open spec fn spec_reading_limit(self, frame_natoms: usize) -> nat {
        match self.spec_last() {
            Some(n) => vstd::math::min(n as int, frame_natoms as int) as nat,
            None => frame_natoms as nat,
        }
    }

    /// Create a boolean mask from a list of indices.
    ///
    /// The mask is exactly long enough to hold the largest listed index, is
    /// `true` at every listed index, and `false` everywhere else. An empty
    /// list yields an empty mask.
    pub fn from_index_list(indices: &[u32]) -> (r: Self)
        requires
            forall|j: int| 0 <= j < indices@.len() ==> indices@[j] < usize::MAX,
        ensures
            r matches AtomSelection::Mask(mask) && {
                &&& forall|i: int|
                    0 <= i < mask@.len() ==> ((#[trigger] mask@[i]) <==> indices@.contains(
                        i as u32,
                    ))
                &&& forall|j: int| 0 <= j < indices@.len() ==> (#[trigger] indices@[j]) < mask@.len()
                &&& indices@.len() == 0 ==> mask@.len() == 0
                &&& indices@.len() > 0 ==> exists|j: int|
                    0 <= j < indices@.len() && #[trigger] indices@[j] + 1 == mask@.len()
            },
    {
        if indices.len() == 0 {
            return AtomSelection::Mask(Vec::new());
        }

        let mut max: u32 = indices[0];
        let mut j: usize = 1;
        while j < indices.len()
            invariant
                1 <= j <= indices@.len(),
                forall|k: int| 0 <= k < j ==> indices@[k] <= max,
                exists|k: int| 0 <= k < j && indices@[k] == max,
                forall|k: int| 0 <= k < indices@.len() ==> indices@[k] < usize::MAX,
            decreases indices@.len() - j,
        {
            if indices[j] > max {
                max = indices[j];
            }
            j += 1;
        }

        let len = max as usize + 1;
        let mut mask: Vec<bool> = Vec::new();
        let mut i: usize = 0;
        while i < len
            invariant
                i <= len,
                mask@.len() == i,
                forall|k: int| 0 <= k < i ==> !(#[trigger] mask@[k]),
            decreases len - i,
        {
            mask.push(false);
            i += 1;
        }

        let mut j: usize = 0;
        while j < indices.len()
            invariant
                j <= indices@.len(),
                mask@.len() == len,
                len == max as usize + 1,
                forall|k: int| 0 <= k < indices@.len() ==> indices@[k] <= max,
                forall|i: int|
                    0 <= i < mask@.len() ==> ((#[trigger] mask@[i]) <==> indices@.take(
                        j as int,
                    ).contains(i as u32)),
            decreases indices@.len() - j,
        {
            let idx = indices[j] as usize;
            mask[idx] = true;
            assert(indices@.take(j + 1).drop_last() =~= indices@.take(j as int));
            assert forall|i: int| 0 <= i < mask@.len() implies ((#[trigger] mask@[i])
                <==> indices@.take(j + 1).contains(i as u32)) by {
                let taken = indices@.take(j + 1);
                if mask@[i] {
                    if i == idx {
                        assert(taken.last() == indices@[j as int]);
                        assert(taken.contains(i as u32));
                    } else {
                        let w = choose|w: int|
                            0 <= w < j && indices@.take(j as int)[w] == i as u32;
                        assert(taken[w] == i as u32);
                    }
                } else {
                    if taken.contains(i as u32) {
                        let w = choose|w: int| 0 <= w < taken.len() && taken[w] == i as u32;
                        if w < j {
                            assert(indices@.take(j as int)[w] == i as u32);
                        } else {
                            assert(i == idx);
                        }
                    }
                }
            }
            j += 1;
        }
        assert(indices@.take(indices@.len() as int) =~= indices@);
        AtomSelection::Mask(mask)
    }

    /// Determine whether some index `idx` is included in this
    /// `AtomSelection`.
    ///
    /// Returns `None` once the index is beyond the scope of this selection:
    /// the caller must stop querying rather than interpret the answer as
    /// exclusion.
    pub fn is_included(&self, idx: usize) -> (r: Option<bool>)
        ensures
            r == self.spec_is_included(idx),
    {
        match self {
            AtomSelection::All => Some(true),
            AtomSelection::Mask(mask) => if idx < mask.len() {
                Some(mask[idx])
            } else {
                None
            },
            AtomSelection::Until(until) => if idx <= *until as usize {
                Some(true)
            } else {
                None
            },
        }
    }

    /// Return the last index in this `AtomSelection`.
    ///
    /// For `All` the last index is unknown (`None`, size determined
    /// externally). For `Mask` it is one past the last `true` entry, or zero
    /// when no entry is `true`: the number of positions a scan must visit to
    /// cover every selected one. For `Until` it is the cutoff itself.
    pub fn last(&self) -> (r: Option<usize>)
        ensures
            r == self.spec_last(),
    {
        match self {
            AtomSelection::All => None,
            AtomSelection::Mask(mask) => {
                let mut i: usize = mask.len();
                assert(mask@.take(i as int) =~= mask@);
                while i > 0
                    invariant
                        *self == AtomSelection::Mask(*mask),
                        i <= mask@.len(),
                        scan_limit(mask@) == scan_limit(mask@.take(i as int)),
                    decreases i,
                {
                    if mask[i - 1] {
                        assert(mask@.take(i as int).last() == mask@[i - 1]);
                        assert(scan_limit(mask@.take(i as int)) == i);
                        return Some(i);
                    }
                    assert(mask@.take(i as int).drop_last() =~= mask@.take(i - 1));
                    i -= 1;
                }
                Some(0)
            },
            AtomSelection::Until(until) => Some(*until as usize),
        }
    }

    /// The number of positions selected by this `AtomSelection` among the
    /// first `frame_natoms` ones.
    ///
    /// This function returns at most `frame_natoms`. For `Mask`, entries
    /// beyond `frame_natoms` are ignored, and positions within `frame_natoms`
    /// but beyond the mask's own length count as absent.
    pub fn natoms_selected(&self, frame_natoms: usize) -> (r: usize)
        ensures
            r == self.spec_natoms_selected(frame_natoms),
    {
        match self {
            AtomSelection::All => frame_natoms,
            AtomSelection::Mask(mask) => {
                let n = if frame_natoms < mask.len() {
                    frame_natoms
                } else {
                    mask.len()
                };
                let mut count: usize = 0;
                let mut i: usize = 0;
                while i < n
                    invariant
                        i <= n <= mask@.len(),
                        count == count_true(mask@.take(i as int)),
                        count <= i,
                    decreases n - i,
                {
                    assert(mask@.take(i + 1).drop_last() =~= mask@.take(i as int));
                    if mask[i] {
                        count += 1;
                    }
                    i += 1;
                }
                count
            },
            AtomSelection::Until(until) => {
                let cutoff = *until as usize;
                if cutoff < frame_natoms {
                    cutoff
                } else {
                    frame_natoms
                }
            },
        }
    }

    /// The number of positions that must be read or scanned from the
    /// underlying frame to satisfy this `AtomSelection`.
    ///
    /// This function returns at most `frame_natoms`. Its result differs from
    /// `natoms_selected` only for the `Mask` variant, whose `true` entries
    /// may be scattered up to a late index even though few are selected.
    pub fn reading_limit(&self, frame_natoms: usize) -> (r: usize)
        ensures
            r == self.spec_reading_limit(frame_natoms),
    {
        match self.last() {
            Some(n) => if n < frame_natoms {
                n
            } else {
                frame_natoms
            },
            None => frame_natoms,
        }
    }
}

/// The count of `true` entries in a mask never exceeds its scan limit, which
/// in turn never exceeds the mask's length.
pub proof fn lemma_count_true_le_scan_limit(s: Seq<bool>)
    ensures
        count_true(s) <= scan_limit(s) <= s.len(),
    decreases s.len(),
{
    if s.len() > 0 {
        lemma_count_true_le_scan_limit(s.drop_last());
    }
}

/// Truncating a mask can only lower its scan limit.
pub proof fn lemma_scan_limit_take(s: Seq<bool>, m: int)
    requires
        0 <= m <= s.len(),
    ensures
        scan_limit(s.take(m)) <= scan_limit(s),
    decreases s.len(),
{
    if m < s.len() {
        assert(s.drop_last().take(m) =~= s.take(m));
        lemma_scan_limit_take(s.drop_last(), m);
        lemma_count_true_le_scan_limit(s.drop_last());
    } else {
        assert(s.take(m) =~= s);
    }
}

/// Law: a selection never keeps more positions than the reader must scan for
/// it. `natoms_selected` is bounded by `reading_limit`, and the two can
/// differ only for the `Mask` variant, whose `true` entries may be scattered
/// up to a late index even though few are selected.
pub proof fn lemma_selected_within_reading_limit(sel: AtomSelection, frame_natoms: usize)
    ensures
        sel.spec_natoms_selected(frame_natoms) <= sel.spec_reading_limit(frame_natoms),
        !(sel is Mask) ==> sel.spec_natoms_selected(frame_natoms) == sel.spec_reading_limit(
            frame_natoms,
        ),
{
    if let AtomSelection::Mask(mask) = sel {
        let m = vstd::math::min(frame_natoms as int, mask@.len() as int);
        vstd::std_specs::vec::axiom_spec_len(&mask);
        lemma_count_true_le_scan_limit(mask@);
        lemma_count_true_le_scan_limit(mask@.take(m));
        lemma_scan_limit_take(mask@, m);
        assert(mask@.take(m).len() == m);
        assert(scan_limit(mask@) <= mask@.len() <= usize::MAX);
        assert(count_true(mask@.take(m)) <= scan_limit(mask@.take(m)) <= scan_limit(mask@));
        assert(count_true(mask@.take(m)) <= m <= frame_natoms);
    }
}

/// Law: the all-atoms selection includes every position unconditionally, at
/// any magnitude.
pub proof fn lemma_all_atoms_included(idx: usize)
    ensures
        AtomSelection::All.spec_is_included(idx) == Some(true),
{
}

impl Default for AtomSelection {
    /// The default `AtomSelection` includes all atoms.
    fn default() -> (r: Self)
        ensures
            r is All,
    {
        AtomSelection::All
    }
}

} // verus!
