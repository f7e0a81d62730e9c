//! Cursor positioning and movement.

use vstd::prelude::*;
use crate::ansi::{csi_seq, csi_start};
use crate::text::{dec_spec, push_dec, string_from_chars};

verus! {

/// Moves the cursor to a (row, column) position; both coordinates are
/// 1-based.
#[derive(Copy, Clone)]
pub struct GoTo(pub u16, pub u16);

impl GoTo {
    pub fn text(&self) -> (r: String)
        requires
            self.0 > 0,
            self.1 > 0,
        ensures
            r@ == csi_seq(
                dec_spec(self.0 as int) + seq![';'] + dec_spec(self.1 as int) + seq!['H'],
            ),
    {
        let mut v = csi_start();
        push_dec(&mut v, self.0 as usize);
        v.push(';');
        push_dec(&mut v, self.1 as usize);
        v.push('H');
        proof {
            assert(v@ =~= csi_seq(
                dec_spec(self.0 as int) + seq![';'] + dec_spec(self.1 as int) + seq!['H'],
            ));
        }
        string_from_chars(&v)
    }
}

/// Sets the cursor column; 1-based.
#[derive(Copy, Clone)]
pub struct Column(pub u16);

impl Column {
    pub fn text(&self) -> (r: String)
        requires
            self.0 > 0,
        ensures
            r@ == csi_seq(dec_spec(self.0 as int) + seq!['G']),
    {
        let mut v = csi_start();
        push_dec(&mut v, self.0 as usize);
        v.push('G');
        proof {
            assert(v@ =~= csi_seq(dec_spec(self.0 as int) + seq!['G']));
        }
        string_from_chars(&v)
    }
}

/// Moves the cursor up by a number of rows.
#[derive(Copy, Clone)]
pub struct Up(pub u16);

impl Up {
    pub fn text(&self) -> (r: String)
        ensures
            r@ == csi_seq(dec_spec(self.0 as int) + seq!['A']),
    {
        let mut v = csi_start();
        push_dec(&mut v, self.0 as usize);
        v.push('A');
        proof {
            assert(v@ =~= csi_seq(dec_spec(self.0 as int) + seq!['A']));
        }
        string_from_chars(&v)
    }
}

/// Moves the cursor down by a number of rows.
#[derive(Copy, Clone)]
pub struct Down(pub u16);

impl Down {
    pub fn text(&self) -> (r: String)
        ensures
            r@ == csi_seq(dec_spec(self.0 as int) + seq!['B']),
    {
        let mut v = csi_start();
        push_dec(&mut v, self.0 as usize);
        v.push('B');
        proof {
            assert(v@ =~= csi_seq(dec_spec(self.0 as int) + seq!['B']));
        }
        string_from_chars(&v)
    }
}

/// Moves the cursor left by a number of columns.
#[derive(Copy, Clone)]
pub struct Left(pub u16);

impl Left {
    pub fn text(&self) -> (r: String)
        ensures
            r@ == csi_seq(dec_spec(self.0 as int) + seq!['D']),
    {
        let mut v = csi_start();
        push_dec(&mut v, self.0 as usize);
        v.push('D');
        proof {
            assert(v@ =~= csi_seq(dec_spec(self.0 as int) + seq!['D']));
        }
        string_from_chars(&v)
    }
}

/// Moves the cursor right by a number of columns.
#[derive(Copy, Clone)]
pub struct Right(pub u16);

impl Right {
    pub fn text(&self) -> (r: String)
        ensures
            r@ == csi_seq(dec_spec(self.0 as int) + seq!['C']),
    {
        let mut v = csi_start();
        push_dec(&mut v, self.0 as usize);
        v.push('C');
        proof {
            assert(v@ =~= csi_seq(dec_spec(self.0 as int) + seq!['C']));
        }
        string_from_chars(&v)
    }
}

/// Moves the cursor up by a number of lines, to the beginning of the line.
#[derive(Copy, Clone)]
pub struct UpLine(pub u16);

impl UpLine {
    pub fn text(&self) -> (r: String)
        ensures
            r@ == csi_seq(dec_spec(self.0 as int) + seq!['F']),
    {
        let mut v = csi_start();
        push_dec(&mut v, self.0 as usize);
        v.push('F');
        proof {
            assert(v@ =~= csi_seq(dec_spec(self.0 as int) + seq!['F']));
        }
        string_from_chars(&v)
    }
}

/// Moves the cursor down by a number of lines, to the beginning of the
/// line.
#[derive(Copy, Clone)]
pub struct DownLine(pub u16);

impl DownLine {
    pub fn text(&self) -> (r: String)
        ensures
            r@ == csi_seq(dec_spec(self.0 as int) + seq!['E']),
    {
        let mut v = csi_start();
        push_dec(&mut v, self.0 as usize);
        v.push('E');
        proof {
            assert(v@ =~= csi_seq(dec_spec(self.0 as int) + seq!['E']));
        }
        string_from_chars(&v)
    }
}

} // verus!
