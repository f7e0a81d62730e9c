//! A score derived from comparing a needle and a haystack, with optional
//! match-position information. Equality and ordering compare the value
//! alone.

use vstd::prelude::*;
use crate::score_value::{s_le, s_lt, ScoreValue, SpecScore};
use crate::scorer;
use crate::scorer::{positions_shape, score_spec};

verus! {

/// The outcome of scoring a needle against a haystack.
#[derive(Debug, Clone)]
pub struct Score {
    /// The computed score value.
    pub value: ScoreValue,
    /// The haystack positions matched by each needle character, when they
    /// were requested.
    pub positions: Option<Vec<usize>>,
}

impl Score {
    /// Scores `needle` against `haystack`, without positions.
    pub fn new(needle: &str, haystack: &str) -> (s: Score)
        ensures
            s.value@ == score_spec(needle@, haystack@),
            s.positions is None,
    {
        Score { value: scorer::score(needle, haystack), positions: None }
    }

    /// Scores `needle` against `haystack` and records match positions.
    pub fn with_positions(needle: &str, haystack: &str) -> (s: Score)
        ensures
            s.value@ == score_spec(needle@, haystack@),
            s.positions matches Some(p) && positions_shape(needle@, haystack@, p@),
    {
        let (value, positions) = scorer::score_with_positions(needle, haystack);
        Score { value, positions: Some(positions) }
    }
}

impl PartialEq for Score {
    fn eq(&self, other: &Score) -> (r: bool) {
        self.value == other.value
    }
}

impl vstd::std_specs::cmp::PartialEqSpecImpl for Score {
    open spec fn obeys_eq_spec() -> bool {
        true
    }

    open spec fn eq_spec(&self, other: &Score) -> bool {
        self.value@ == other.value@
    }
}

impl PartialOrd for Score {
    fn partial_cmp(&self, other: &Score) -> (r: Option<core::cmp::Ordering>) {
        if self.value.lt(&other.value) {
            Some(core::cmp::Ordering::Less)
        } else if other.value.lt(&self.value) {
            Some(core::cmp::Ordering::Greater)
        } else {
            Some(core::cmp::Ordering::Equal)
        }
    }
}

impl vstd::std_specs::cmp::PartialOrdSpecImpl for Score {
    open spec fn obeys_partial_cmp_spec() -> bool {
        true
    }

    open spec fn partial_cmp_spec(&self, other: &Score) -> Option<core::cmp::Ordering> {
        if s_lt(self.value@, other.value@) {
            Some(core::cmp::Ordering::Less)
        } else if s_lt(other.value@, self.value@) {
            Some(core::cmp::Ordering::Greater)
        } else {
            Some(core::cmp::Ordering::Equal)
        }
    }
}

} // verus!
