//! ANSI escape-sequence formatting: pure string building for cursor
//! movement, clearing, text style and color.

use vstd::prelude::*;
use crate::matcher::chars_of;
use crate::text::string_from_chars;

pub mod clear;
pub mod color;
pub mod cursor;
pub mod style;

verus! {

/// An ESC-prefixed control sequence introducer followed by `body`.
pub open spec fn csi_seq(body: Seq<char>) -> Seq<char> {
    seq!['\x1b', '['] + body
}

/// A character buffer already holding the control sequence introducer.
pub fn csi_start() -> (v: Vec<char>)
    ensures
        v@ == seq!['\x1b', '['],
{
    let mut v: Vec<char> = Vec::new();
    v.push('\x1b');
    v.push('[');
    proof {
        assert(v@ =~= seq!['\x1b', '[']);
    }
    v
}

/// The ESC-prefixed CSI sequence with the given body.
pub fn csi(body: &str) -> (r: String)
    ensures
        r@ == csi_seq(body@),
{
    let mut v = csi_start();
    let tail = chars_of(body);
    let mut i: usize = 0;
    while i < tail.len()
        invariant
            i <= tail.len(),
            tail@ == body@,
            v@ == seq!['\x1b', '['] + tail@.take(i as int),
        decreases tail.len() - i,
    {
        v.push(tail[i]);
        proof {
            assert(v@ =~= seq!['\x1b', '['] + tail@.take(i + 1));
        }
        i += 1;
    }
    proof {
        assert(tail@.take(tail@.len() as int) =~= tail@);
    }
    string_from_chars(&v)
}

} // verus!
