//! The totally ordered score type, with sentinels for "no match" and
//! "perfect match" below and above every finite score.

use vstd::prelude::*;

verus! {

/// The mathematical value of a score: minus infinity, a finite number of
/// 1/200 match points, or plus infinity.
pub enum SpecScore {
    MinusInf,
    Fin(int),
    PlusInf,
}

/// An executable score: minus infinity, a finite number of 1/200 match
/// points, or plus infinity.
#[derive(Clone, Copy, Debug, PartialEq, Eq, PartialOrd, Ord, Structural)]
pub enum ScoreValue {
    MinusInf,
    Fin(i128),
    PlusInf,
}

impl View for ScoreValue {
    type V = SpecScore;

    open spec fn view(&self) -> SpecScore {
        match *self {
            ScoreValue::MinusInf => SpecScore::MinusInf,
            ScoreValue::Fin(x) => SpecScore::Fin(x as int),
            ScoreValue::PlusInf => SpecScore::PlusInf,
        }
    }
}

/// Strict order on scores: minus infinity below every finite value, plus
/// infinity above.
pub open spec fn s_lt(a: SpecScore, b: SpecScore) -> bool {
    match (a, b) {
        (SpecScore::MinusInf, SpecScore::MinusInf) => false,
        (SpecScore::MinusInf, _) => true,
        (SpecScore::Fin(_), SpecScore::MinusInf) => false,
        (SpecScore::Fin(x), SpecScore::Fin(y)) => x < y,
        (SpecScore::Fin(_), SpecScore::PlusInf) => true,
        (SpecScore::PlusInf, _) => false,
    }
}

pub open spec fn s_le(a: SpecScore, b: SpecScore) -> bool {
    a == b || s_lt(a, b)
}

/// Adding a finite constant leaves the infinities unchanged.
pub open spec fn s_add(a: SpecScore, c: int) -> SpecScore {
    match a {
        SpecScore::MinusInf => SpecScore::MinusInf,
        SpecScore::Fin(x) => SpecScore::Fin(x + c),
        SpecScore::PlusInf => SpecScore::PlusInf,
    }
}

pub open spec fn s_max(a: SpecScore, b: SpecScore) -> SpecScore {
    if s_lt(a, b) {
        b
    } else {
        a
    }
}

/// Whether `a` is a finite score.
pub open spec fn s_is_fin(a: SpecScore) -> bool {
    a matches SpecScore::Fin(_)
}

/// The finite value of a score (meaningful only when `s_is_fin` holds).
pub open spec fn s_fin(a: SpecScore) -> int {
    match a {
        SpecScore::Fin(x) => x,
        _ => 0,
    }
}

impl ScoreValue {
    /// Compares two scores; the strict order of `s_lt`.
    pub fn lt(&self, other: &ScoreValue) -> (r: bool)
        ensures
            r == s_lt(self@, other@),
    {
        match (self, other) {
            (ScoreValue::MinusInf, ScoreValue::MinusInf) => false,
            (ScoreValue::MinusInf, _) => true,
            (ScoreValue::Fin(_), ScoreValue::MinusInf) => false,
            (ScoreValue::Fin(x), ScoreValue::Fin(y)) => x < y,
            (ScoreValue::Fin(_), ScoreValue::PlusInf) => true,
            (ScoreValue::PlusInf, _) => false,
        }
    }

    /// Compares two scores; the reflexive order of `s_le`.
    pub fn le(&self, other: &ScoreValue) -> (r: bool)
        ensures
            r == s_le(self@, other@),
    {
        !other.lt(self)
    }

    /// Adds a finite constant, leaving the infinities unchanged.
    pub fn add_const(self, c: i128) -> (r: ScoreValue)
        requires
            self@ matches SpecScore::Fin(x) ==> i128::MIN <= x + c <= i128::MAX,
        ensures
            r@ == s_add(self@, c as int),
    {
        match self {
            ScoreValue::MinusInf => ScoreValue::MinusInf,
            ScoreValue::Fin(x) => ScoreValue::Fin(x + c),
            ScoreValue::PlusInf => ScoreValue::PlusInf,
        }
    }

    /// The larger of two scores.
    pub fn max_of(self, other: ScoreValue) -> (r: ScoreValue)
        ensures
            r@ == s_max(self@, other@),
            r == self || r == other,
    {
        if self.lt(&other) {
            other
        } else {
            self
        }
    }
}

/// `s_le` totally orders scores.
pub proof fn lemma_s_le_total(a: SpecScore, b: SpecScore)
    ensures
        s_le(a, b) || s_le(b, a),
        s_le(a, b) && s_le(b, a) ==> a == b,
{
}

} // verus!
