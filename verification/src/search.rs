//! Binary search for the earliest divergent block.
//!
//! The search narrows a closed block range `[low, high]` by probing its
//! midpoint: when the probe reports disagreement the midpoint becomes the
//! current candidate and the upper half is discarded, otherwise the lower
//! half is discarded. The probe itself is network work and belongs to the
//! caller; `SearchState` holds the range and decides each step, so a caller
//! alternates `next_probe` with `step` until the state goes inactive.
//!
//! The result is the earliest divergent block only under the
//! monotonic-divergence assumption: divergence, once present at a block,
//! persists at every later block. The engine does not verify that assumption
//! against the nodes; `lemma_search_finds_first_divergence` states exactly
//! what is owed when it holds.

use vstd::prelude::*;

use crate::errors::FatalError;

verus! {

/// Midpoint of `[lo, hi]` in the low-plus-half-of-span form, which cannot
/// overflow fixed-width bounds.
pub open spec fn spec_mid(lo: int, hi: int) -> int {
    lo + (hi - lo) / 2
}

proof fn lemma_mid_bounds(lo: int, hi: int)
    requires
        lo <= hi,
    ensures
        lo <= spec_mid(lo, hi) <= hi,
{
    assert(0 <= (hi - lo) / 2 <= hi - lo) by (nonlinear_arith)
        requires lo <= hi;
}

/// Whether `f` is monotonic on `[lo, hi]`: once true, true at every later
/// point of the range.
pub open spec fn monotonic_on(f: spec_fn(int) -> bool, lo: int, hi: int) -> bool {
    forall|i: int, j: int|
        #![trigger f(i), f(j)]
        lo <= i <= j <= hi && f(i) ==> f(j)
}

/// The mathematical model of the whole search loop: probe the midpoint of
/// `[lo, hi]` with the divergence oracle `f`, record it and move left when it
/// diverges, move right otherwise, until the range is empty.
pub open spec fn run_search(f: spec_fn(int) -> bool, lo: int, hi: int, found: Option<int>) -> Option<int>
    decreases hi + 1 - lo,
{
    if lo > hi {
        found
    } else {
        let mid = spec_mid(lo, hi);
        if f(mid) {
            run_search(f, lo, mid - 1, Some(mid))
        } else {
            run_search(f, mid + 1, hi, found)
        }
    }
}

/// Induction behind the search law. `[glo, ghi]` is the whole range;
/// `[lo, hi]` the range still open; `found` the candidate recorded so far.
proof fn lemma_run_search_invariant(
    f: spec_fn(int) -> bool,
    glo: int,
    ghi: int,
    lo: int,
    hi: int,
    found: Option<int>,
)
    requires
        glo <= lo,
        lo <= hi + 1,
        hi <= ghi,
        monotonic_on(f, glo, ghi),
        forall|i: int| glo <= i < lo ==> !(#[trigger] f(i)),
        match found {
            Some(c) => c == hi + 1 && c <= ghi && f(c),
            None => forall|i: int| hi < i <= ghi ==> !(#[trigger] f(i)),
        },
    ensures
        match run_search(f, lo, hi, found) {
            Some(c) => glo <= c <= ghi && f(c) && (forall|i: int| glo <= i < c ==> !(#[trigger] f(i))),
            None => forall|i: int| glo <= i <= ghi ==> !(#[trigger] f(i)),
        },
    decreases hi + 1 - lo,
{
    if lo > hi {
        assert(lo == hi + 1);
    } else {
        let mid = spec_mid(lo, hi);
        lemma_mid_bounds(lo, hi);
        if f(mid) {
            lemma_run_search_invariant(f, glo, ghi, lo, mid - 1, Some(mid));
        } else {
            assert forall|i: int| glo <= i < mid + 1 implies !(#[trigger] f(i)) by {
                if lo <= i && f(i) {
                    assert(f(mid));
                }
            }
            lemma_run_search_invariant(f, glo, ghi, mid + 1, hi, found);
        }
    }
}

/// Law: when the divergence oracle is monotonic on `[lo, hi]`, the search
/// run over that range yields the smallest block of the range where the
/// oracle is true, and yields nothing exactly when the oracle is false
/// throughout.
pub proof fn lemma_search_finds_first_divergence(f: spec_fn(int) -> bool, lo: int, hi: int)
    requires
        lo <= hi + 1,
        monotonic_on(f, lo, hi),
    ensures
        match run_search(f, lo, hi, None) {
            Some(c) => lo <= c <= hi && f(c) && (forall|i: int| lo <= i < c ==> !(#[trigger] f(i))),
            None => forall|i: int| lo <= i <= hi ==> !(#[trigger] f(i)),
        },
{
    lemma_run_search_invariant(f, lo, hi, lo, hi, None);
}

/// The live state of one search run: the open range, the candidate recorded
/// so far, and whether another probe is still owed. Destroyed when the run
/// returns; nothing persists across runs.
#[derive(Clone, Copy, Debug)]
pub struct SearchState {
    pub low: u32,
    pub high: u32,
    pub found: Option<u32>,
    pub active: bool,
}

/// The recorded candidate, as a mathematical value.
pub open spec fn spec_found_int(found: Option<u32>) -> Option<int> {
    match found {
        Some(c) => Some(c as int),
        None => None,
    }
}

/// One transition of the search: discard the half of the range that the
/// probe outcome at the midpoint rules out, recording the midpoint when it
/// diverged; go inactive when the kept half is empty.
pub open spec fn spec_step(s: SearchState, diverged: bool) -> SearchState
    recommends
        s.active,
        s.low <= s.high,
{
    let mid = spec_mid(s.low as int, s.high as int);
    if diverged {
        if mid == s.low {
            SearchState { found: Some(mid as u32), active: false, ..s }
        } else {
            SearchState { high: (mid - 1) as u32, found: Some(mid as u32), ..s }
        }
    } else {
        if mid == s.high {
            SearchState { active: false, ..s }
        } else {
            SearchState { low: (mid + 1) as u32, ..s }
        }
    }
}

impl SearchState {
    /// An active state keeps a non-empty range.
    pub open spec fn wf(self) -> bool {
        self.active ==> self.low <= self.high
    }

    /// The result this state reaches when every remaining probe is answered
    /// by the oracle `f`.
    pub open spec fn outcome(self, f: spec_fn(int) -> bool) -> Option<int> {
        if self.active {
            run_search(f, self.low as int, self.high as int, spec_found_int(self.found))
        } else {
            spec_found_int(self.found)
        }
    }

    /// Begin a search over the closed range `[low, high]`. A range with its
    /// start above its end is rejected before any probe.
    pub fn start(low: u32, high: u32) -> (r: Result<SearchState, FatalError>)
        ensures
            low <= high ==> r == Ok::<SearchState, FatalError>(
                SearchState { low, high, found: None, active: true },
            ),
            low > high ==> r == Err::<SearchState, FatalError>(FatalError::InvalidRange),
    {
        if low <= high {
            Ok(SearchState { low, high, found: None, active: true })
        } else {
            Err(FatalError::InvalidRange)
        }
    }

    /// The block the caller must probe next: the midpoint of the open range,
    /// or nothing once the search has finished.
    pub fn next_probe(&self) -> (r: Option<u32>)
        requires
            self.wf(),
        ensures
            self.active ==> r == Some((spec_mid(self.low as int, self.high as int)) as u32),
            !self.active ==> r is None,
    {
        if self.active {
            proof {
                lemma_mid_bounds(self.low as int, self.high as int);
            }
            Some(self.low + (self.high - self.low) / 2)
        } else {
            None
        }
    }

    /// Consume the outcome of the probe at the current midpoint: `diverged`
    /// says whether at least one peer disagreed there.
    pub fn step(&mut self, diverged: bool)
        requires
            old(self).wf(),
            old(self).active,
        ensures
            *final(self) == spec_step(*old(self), diverged),
            final(self).wf(),
    {
        proof {
            lemma_mid_bounds(self.low as int, self.high as int);
        }
        let mid = self.low + (self.high - self.low) / 2;
        if diverged {
            self.found = Some(mid);
            if mid == self.low {
                self.active = false;
            } else {
                self.high = mid - 1;
            }
        } else {
            if mid == self.high {
                self.active = false;
            } else {
                self.low = mid + 1;
            }
        }
    }

    /// Whether another probe is owed.
    pub fn is_active(&self) -> (r: bool)
        ensures
            r == self.active,
    {
        self.active
    }

    /// The candidate recorded so far; after the state goes inactive, the
    /// search's answer.
    pub fn result(&self) -> (r: Option<u32>)
        ensures
            r == self.found,
    {
        self.found
    }
}

/// Each step of the live state refines the mathematical search: when the
/// probe outcome agrees with an oracle `f` at the midpoint, the outcome the
/// state will reach under `f` is unchanged. Driving an active state to rest
/// with probe answers drawn from `f` therefore ends with exactly
/// `run_search(f, low, high, None)`, the value the search law speaks of.
pub proof fn lemma_step_preserves_outcome(s: SearchState, diverged: bool, f: spec_fn(int) -> bool)
    requires
        s.wf(),
        s.active,
        f(spec_mid(s.low as int, s.high as int)) == diverged,
    ensures
        spec_step(s, diverged).wf(),
        spec_step(s, diverged).outcome(f) == s.outcome(f),
{
    let lo = s.low as int;
    let hi = s.high as int;
    let mid = spec_mid(lo, hi);
    lemma_mid_bounds(lo, hi);
    let post = spec_step(s, diverged);
    if diverged {
        assert(s.outcome(f) == run_search(f, lo, mid - 1, Some(mid)));
        if mid == lo {
            assert(run_search(f, lo, mid - 1, Some(mid)) == Some(mid));
        }
    } else {
        assert(s.outcome(f) == run_search(f, mid + 1, hi, spec_found_int(s.found)));
        if mid == hi {
            assert(run_search(f, mid + 1, hi, spec_found_int(s.found)) == spec_found_int(s.found));
        }
    }
}

/// A finished state reports its recorded candidate as the outcome.
pub proof fn lemma_inactive_outcome(s: SearchState, f: spec_fn(int) -> bool)
    requires
        !s.active,
    ensures
        s.outcome(f) == spec_found_int(s.found),
{
}

} // verus!
