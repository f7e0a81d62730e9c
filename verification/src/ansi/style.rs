//! Text style control.

use vstd::prelude::*;
use crate::ansi::{csi_seq, csi_start};
use crate::text::string_from_chars;

verus! {

/// Resets every text attribute.
#[derive(Copy, Clone)]
pub struct Reset;

impl Reset {
    pub fn text(&self) -> (r: String)
        ensures
            r@ == csi_seq(seq!['m']),
    {
        let mut v = csi_start();
        v.push('m');
        proof {
            assert(v@ =~= csi_seq(seq!['m']));
        }
        string_from_chars(&v)
    }
}

/// Turns inverted video on.
#[derive(Copy, Clone)]
pub struct Invert;

impl Invert {
    pub fn text(&self) -> (r: String)
        ensures
            r@ == csi_seq(seq!['7', 'm']),
    {
        let mut v = csi_start();
        v.push('7');
        v.push('m');
        proof {
            assert(v@ =~= csi_seq(seq!['7', 'm']));
        }
        string_from_chars(&v)
    }
}

/// Turns inverted video off.
#[derive(Copy, Clone)]
pub struct NoInvert;

impl NoInvert {
    pub fn text(&self) -> (r: String)
        ensures
            r@ == csi_seq(seq!['2', '7', 'm']),
    {
        let mut v = csi_start();
        v.push('2');
        v.push('7');
        v.push('m');
        proof {
            assert(v@ =~= csi_seq(seq!['2', '7', 'm']));
        }
        string_from_chars(&v)
    }
}

/// Turns bold on.
#[derive(Copy, Clone)]
pub struct Bold;

impl Bold {
    pub fn text(&self) -> (r: String)
        ensures
            r@ == csi_seq(seq!['1', 'm']),
    {
        let mut v = csi_start();
        v.push('1');
        v.push('m');
        proof {
            assert(v@ =~= csi_seq(seq!['1', 'm']));
        }
        string_from_chars(&v)
    }
}

/// Turns bold off.
#[derive(Copy, Clone)]
pub struct NoBold;

impl NoBold {
    pub fn text(&self) -> (r: String)
        ensures
            r@ == csi_seq(seq!['2', '1', 'm']),
    {
        let mut v = csi_start();
        v.push('2');
        v.push('1');
        v.push('m');
        proof {
            assert(v@ =~= csi_seq(seq!['2', '1', 'm']));
        }
        string_from_chars(&v)
    }
}

/// Turns italics on.
#[derive(Copy, Clone)]
pub struct Italic;

impl Italic {
    pub fn text(&self) -> (r: String)
        ensures
            r@ == csi_seq(seq!['3', 'm']),
    {
        let mut v = csi_start();
        v.push('3');
        v.push('m');
        proof {
            assert(v@ =~= csi_seq(seq!['3', 'm']));
        }
        string_from_chars(&v)
    }
}

/// Turns italics off.
#[derive(Copy, Clone)]
pub struct NoItalic;

impl NoItalic {
    pub fn text(&self) -> (r: String)
        ensures
            r@ == csi_seq(seq!['2', '3', 'm']),
    {
        let mut v = csi_start();
        v.push('2');
        v.push('3');
        v.push('m');
        proof {
            assert(v@ =~= csi_seq(seq!['2', '3', 'm']));
        }
        string_from_chars(&v)
    }
}

/// Turns underlining on.
#[derive(Copy, Clone)]
pub struct Underline;

impl Underline {
    pub fn text(&self) -> (r: String)
        ensures
            r@ == csi_seq(seq!['4', 'm']),
    {
        let mut v = csi_start();
        v.push('4');
        v.push('m');
        proof {
            assert(v@ =~= csi_seq(seq!['4', 'm']));
        }
        string_from_chars(&v)
    }
}

/// Turns underlining off.
#[derive(Copy, Clone)]
pub struct NoUnderline;

impl NoUnderline {
    pub fn text(&self) -> (r: String)
        ensures
            r@ == csi_seq(seq!['2', '4', 'm']),
    {
        let mut v = csi_start();
        v.push('2');
        v.push('4');
        v.push('m');
        proof {
            assert(v@ =~= csi_seq(seq!['2', '4', 'm']));
        }
        string_from_chars(&v)
    }
}

} // verus!
