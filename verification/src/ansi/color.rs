//! 256-color foreground and background escapes.

use vstd::prelude::*;
use crate::ansi::{csi_seq, csi_start};
use crate::text::{dec_spec, push_dec, string_from_chars};

verus! {

/// Anything paintable as a terminal color.
pub trait Color {
    /// The escape sequence that sets this color as the foreground.
    spec fn fg_spec(&self) -> Seq<char>;

    /// The escape sequence that sets this color as the background.
    spec fn bg_spec(&self) -> Seq<char>;

    /// Renders the foreground escape sequence.
    fn write_fg(&self) -> (r: String)
        ensures
            r@ == self.fg_spec(),
    ;

    /// Renders the background escape sequence.
    fn write_bg(&self) -> (r: String)
        ensures
            r@ == self.bg_spec(),
    ;
}

/// The sixteen palette colors.
#[derive(Copy, Clone, Debug)]
pub enum Colors {
    Black,
    Red,
    Green,
    Yellow,
    Blue,
    Magenta,
    Cyan,
    White,
    LightBlack,
    LightRed,
    LightGreen,
    LightYellow,
    LightBlue,
    LightMagenta,
    LightCyan,
    LightWhite,
}

/// The palette index of a color.
pub open spec fn color_index(c: Colors) -> int {
    match c {
        Colors::Black => 0,
        Colors::Red => 1,
        Colors::Green => 2,
        Colors::Yellow => 3,
        Colors::Blue => 4,
        Colors::Magenta => 5,
        Colors::Cyan => 6,
        Colors::White => 7,
        Colors::LightBlack => 8,
        Colors::LightRed => 9,
        Colors::LightGreen => 10,
        Colors::LightYellow => 11,
        Colors::LightBlue => 12,
        Colors::LightMagenta => 13,
        Colors::LightCyan => 14,
        Colors::LightWhite => 15,
    }
}

impl Colors {
    /// The palette index of this color.
    pub fn index(&self) -> (r: usize)
        ensures
            r as int == color_index(*self),
    {
        match *self {
            Colors::Black => 0,
            Colors::Red => 1,
            Colors::Green => 2,
            Colors::Yellow => 3,
            Colors::Blue => 4,
            Colors::Magenta => 5,
            Colors::Cyan => 6,
            Colors::White => 7,
            Colors::LightBlack => 8,
            Colors::LightRed => 9,
            Colors::LightGreen => 10,
            Colors::LightYellow => 11,
            Colors::LightBlue => 12,
            Colors::LightMagenta => 13,
            Colors::LightCyan => 14,
            Colors::LightWhite => 15,
        }
    }
}

impl Color for Colors {
    open spec fn fg_spec(&self) -> Seq<char> {
        csi_seq(seq!['3', '8', ';', '5', ';'] + dec_spec(color_index(*self)) + seq!['m'])
    }

    open spec fn bg_spec(&self) -> Seq<char> {
        csi_seq(seq!['4', '8', ';', '5', ';'] + dec_spec(color_index(*self)) + seq!['m'])
    }

    fn write_fg(&self) -> (r: String) {
        let mut v = csi_start();
        v.push('3');
        v.push('8');
        v.push(';');
        v.push('5');
        v.push(';');
        push_dec(&mut v, self.index());
        v.push('m');
        proof {
            assert(v@ =~= self.fg_spec());
        }
        string_from_chars(&v)
    }

    fn write_bg(&self) -> (r: String) {
        let mut v = csi_start();
        v.push('4');
        v.push('8');
        v.push(';');
        v.push('5');
        v.push(';');
        push_dec(&mut v, self.index());
        v.push('m');
        proof {
            assert(v@ =~= self.bg_spec());
        }
        string_from_chars(&v)
    }
}

/// The default foreground or background color.
#[derive(Copy, Clone, Debug)]
pub struct Reset;

impl Color for Reset {
    open spec fn fg_spec(&self) -> Seq<char> {
        csi_seq(seq!['3', '9', 'm'])
    }

    open spec fn bg_spec(&self) -> Seq<char> {
        csi_seq(seq!['4', '9', 'm'])
    }

    fn write_fg(&self) -> (r: String) {
        let mut v = csi_start();
        v.push('3');
        v.push('9');
        v.push('m');
        proof {
            assert(v@ =~= self.fg_spec());
        }
        string_from_chars(&v)
    }

    fn write_bg(&self) -> (r: String) {
        let mut v = csi_start();
        v.push('4');
        v.push('9');
        v.push('m');
        proof {
            assert(v@ =~= self.bg_spec());
        }
        string_from_chars(&v)
    }
}

/// A foreground color.
#[derive(Copy, Clone)]
pub struct Fg<C: Color>(pub C);

impl<C: Color> Fg<C> {
    pub fn text(&self) -> (r: String)
        ensures
            r@ == self.0.fg_spec(),
    {
        self.0.write_fg()
    }
}

/// A background color.
#[derive(Copy, Clone)]
pub struct Bg<C: Color>(pub C);

impl<C: Color> Bg<C> {
    pub fn text(&self) -> (r: String)
        ensures
            r@ == self.0.bg_spec(),
    {
        self.0.write_bg()
    }
}

} // verus!
