//! A score matrix: a flat row-major buffer with bounds-checked accessors.

use vstd::prelude::*;
use crate::score_value::{ScoreValue, SpecScore};

verus! {

/// A matrix of scores, stored as a single flat buffer.
pub struct Mat {
    cols: usize,
    contents: Vec<ScoreValue>,
}

impl Mat {
    /// The number of entries a row holds.
    pub closed spec fn spec_cols(&self) -> nat {
        self.cols as nat
    }

    /// The flat contents of the matrix.
    pub closed spec fn spec_contents(&self) -> Seq<SpecScore> {
        self.contents@.map_values(|v: ScoreValue| v@)
    }

    /// The entry at row `x`, column `y`.
    pub open spec fn entry(&self, x: int, y: int) -> SpecScore {
        self.spec_contents()[x * self.spec_cols() + y]
    }

    /// Creates a new matrix with `width` rows of `height` columns, every
    /// entry zero.
    pub fn new(width: usize, height: usize) -> (r: Mat)
        requires
            width * height <= usize::MAX,
        ensures
            r.spec_cols() == height,
            r.spec_contents().len() == width * height,
            forall|k: int|
                0 <= k < r.spec_contents().len() ==> r.spec_contents()[k] == SpecScore::Fin(0),
    {
        let total = width * height;
        let mut contents: Vec<ScoreValue> = Vec::new();
        let mut k: usize = 0;
        while k < total
            invariant
                k <= total,
                contents@.len() == k,
                forall|i: int| 0 <= i < k ==> contents@[i] == ScoreValue::Fin(0),
            decreases total - k,
        {
            contents.push(ScoreValue::Fin(0));
            k += 1;
        }
        Mat { cols: height, contents }
    }

    /// Gets the value at the given coordinates, when they are in range.
    pub fn get(&self, x: usize, y: usize) -> (r: Option<ScoreValue>)
        requires
            x * self.spec_cols() + y <= usize::MAX,
        ensures
            match r {
                Some(v) => x * self.spec_cols() + y < self.spec_contents().len() && v@
                    == self.entry(x as int, y as int),
                None => x * self.spec_cols() + y >= self.spec_contents().len(),
            },
    {
        let idx = x * self.cols + y;
        if idx < self.contents.len() {
            Some(self.contents[idx])
        } else {
            None
        }
    }

    /// Sets the value at the given coordinates.
    pub fn set(&mut self, x: usize, y: usize, value: ScoreValue)
        requires
            x * old(self).spec_cols() + y < old(self).spec_contents().len(),
        ensures
            final(self).spec_cols() == old(self).spec_cols(),
            final(self).spec_contents() == old(self).spec_contents().update(
                x * old(self).spec_cols() + y,
                value@,
            ),
    {
        let n = self.contents.len();
        proof {
            assert(self.spec_contents().len() == self.contents@.len());
            assert(x * self.spec_cols() + y < n);
        }
        let idx = x * self.cols + y;
        self.contents.set(idx, value);
        proof {
            assert(self.spec_contents() =~= old(self).spec_contents().update(
                x * old(self).spec_cols() + y,
                value@,
            ));
        }
    }
}

} // verus!
