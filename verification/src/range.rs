//! Arithmetic over a half-open, strided interval of unsigned indices.

use vstd::prelude::*;

verus! {

/// A half-open, strided interval of unsigned indices.
///
/// A `Range` describes the arithmetic progression `start, start + step,
/// start + 2 * step, ...`, bounded above (exclusively) by `end` when `end`
/// is present.
///
/// A `Range` where `start > end` is a valid value, but it selects no index
/// at all: every in-scope membership query answers `Some(false)`.
#[derive(Debug, Clone, Copy)]
pub struct Range {
    /// The inclusive lower bound of the interval; zero by default.
    pub start: u64,
    /// The exclusive upper bound of the interval.
    ///
    /// When `end` is `None` the interval is unbounded above, and a reader
    /// consuming it should read up to and including the last frame.
    pub end: Option<u64>,
    /// The distance between consecutive selected indices; one by default.
    ///
    /// The number of skipped indices in each stride is `step - 1`. For
    /// instance, given a `step` of four, one index is selected and the
    /// following three are skipped. A well-formed `Range` has `step >= 1`.
    pub step: u64,
}

impl Range {
    /// A `Range` is well formed when its step is positive.
    pub open spec fn wf(self) -> bool {
        self.step >= 1
    }

    /// Whether the bounded last index fits in a `usize` on the machine at
    /// hand; trivially true for an unbounded `Range`.
    pub open spec fn last_fits(self) -> bool {
        self.end matches Some(end) ==> end <= usize::MAX
    }

    /// Whether `idx` lies on the arithmetic progression starting at `start`
    /// with the given `step`, ignoring the upper bound.
    pub open spec fn spec_selects(self, idx: u64) -> bool {
        self.start <= idx && (idx - self.start) % (self.step as int) == 0
    }

    /// The three-valued membership answer: `None` once `idx` reaches `end`
    /// (beyond scope), otherwise whether `idx` lies on the progression.
    pub open spec fn spec_is_included(self, idx: u64) -> Option<bool> {
        if self.end matches Some(end) && end <= idx {
            None
        } else {
            Some(self.spec_selects(idx))
        }
    }

    /// The value `last` computes: `end - ((end - start) mod step)`, with the
    /// subtraction `end - start` saturating to zero when `start` exceeds
    /// `end`. `None` when the range is unbounded.
    pub open spec fn spec_last(self) -> Option<usize> {
        match self.end {
            None => None,
            Some(end) => {
                let length: int = if self.start <= end { end - self.start } else { 0 };
                Some((end - length % (self.step as int)) as usize)
            },
        }
    }

    /// Build a `Range`, filling in the defaults `start = 0` and `step = 1`
    /// for omitted fields; `end` is stored verbatim.
    pub fn new(start: Option<u64>, end: Option<u64>, step: Option<u64>) -> (r: Self)
        requires
            step matches Some(s) ==> s >= 1,
        ensures
            r.start == match start {
                Some(s) => s,
                None => 0u64,
            },
            r.end == end,
            r.step == match step {
                Some(s) => s,
                None => 1u64,
            },
            r.wf(),
    {
        let mut sel = Range { start: 0, end, step: 1 };
        if let Some(start) = start {
            sel.start = start;
        }
        if let Some(step) = step {
            sel.step = step;
        }
        sel
    }

    /// If known, return whether some index is included in this range.
    ///
    /// Returns `None` once `idx` is at or beyond `end`: the caller must stop
    /// querying rather than interpret the answer as exclusion.
    pub fn is_included(&self, idx: u64) -> (r: Option<bool>)
        requires
            self.wf(),
        ensures
            r == self.spec_is_included(idx),
    {
        if let Some(end) = self.end {
            if end <= idx {
                return None;
            }
        }
        let in_range = self.start <= idx;
        // The saturating subtraction never underflows when `idx < start`;
        // the remainder it yields there is irrelevant because `in_range`
        // is already false.
        let in_step = self.step == 1 || idx.saturating_sub(self.start) % self.step == 0;
        Some(in_range && in_step)
    }

    /// Return the last index in this `Range`.
    ///
    /// Note that this is not always equal to a `Range`'s `end` field. In some
    /// cases, the `step` of a `Range` may not neatly visit the index right
    /// before the `end`: this function returns `end` minus the part of a
    /// stride left over below it. In the degenerate case where `start >= end`
    /// the result equals `end` itself, which callers must tolerate.
    pub fn last(&self) -> (r: Option<usize>)
        requires
            self.wf(),
            self.last_fits(),
        ensures
            r == self.spec_last(),
    {
        match self.end {
            None => None,
            Some(end) => {
                let length = end.saturating_sub(self.start);
                let remainder = length % self.step;
                assert(remainder <= length) by (nonlinear_arith)
                    requires
                        self.step >= 1,
                        remainder == length % self.step,
                ;
                Some((end - remainder) as usize)
            },
        }
    }
}

/// Law: a `Range` whose `start` is at or above its bounded `end` selects no
/// index at all. A violated `start <= end` shape degrades silently into an
/// empty selection instead of a failure.
pub proof fn lemma_degenerate_range_selects_nothing(r: Range, idx: u64)
    requires
        r.wf(),
        r.end matches Some(end) && end <= r.start,
    ensures
        r.spec_is_included(idx) != Some(true),
{
}

impl Default for Range {
    /// The default `Range` selects every index: it starts at zero, is
    /// unbounded above, and strides by one.
    fn default() -> (r: Self)
        ensures
            r == (Range { start: 0u64, end: None::<u64>, step: 1u64 }),
    {
        Range { start: 0, end: None, step: 1 }
    }
}

} // verus!
