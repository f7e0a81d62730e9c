//! Clearing parts of the screen.

use vstd::prelude::*;
use crate::ansi::{csi_seq, csi_start};
use crate::text::string_from_chars;

verus! {

/// Clears from the cursor to the end of the line.
#[derive(Copy, Clone)]
pub struct AfterCursor;

impl AfterCursor {
    pub fn text(&self) -> (r: String)
        ensures
            r@ == csi_seq(seq!['K']),
    {
        let mut v = csi_start();
        v.push('K');
        proof {
            assert(v@ =~= csi_seq(seq!['K']));
        }
        string_from_chars(&v)
    }
}

/// Clears from the cursor to the beginning of the line.
#[derive(Copy, Clone)]
pub struct BeforeCursor;

impl BeforeCursor {
    pub fn text(&self) -> (r: String)
        ensures
            r@ == csi_seq(seq!['1', 'K']),
    {
        let mut v = csi_start();
        v.push('1');
        v.push('K');
        proof {
            assert(v@ =~= csi_seq(seq!['1', 'K']));
        }
        string_from_chars(&v)
    }
}

/// Clears the current line.
#[derive(Copy, Clone)]
pub struct Line;

impl Line {
    pub fn text(&self) -> (r: String)
        ensures
            r@ == csi_seq(seq!['2', 'K']),
    {
        let mut v = csi_start();
        v.push('2');
        v.push('K');
        proof {
            assert(v@ =~= csi_seq(seq!['2', 'K']));
        }
        string_from_chars(&v)
    }
}

/// Clears from the cursor until the end of the screen.
#[derive(Copy, Clone)]
pub struct Screen;

impl Screen {
    pub fn text(&self) -> (r: String)
        ensures
            r@ == csi_seq(seq!['J']),
    {
        let mut v = csi_start();
        v.push('J');
        proof {
            assert(v@ =~= csi_seq(seq!['J']));
        }
        string_from_chars(&v)
    }
}

} // verus!
