//! Parsing raw terminal bytes into key events.
//!
//! Reads from a terminal may split an escape sequence or a multi-byte
//! UTF-8 character at any point, so parsing is expressed over a buffer of
//! the bytes available so far: a parse either finds one complete event and
//! says how many bytes it consumed, or reports that more bytes are needed.

use vstd::prelude::*;

verus! {

/// A key press.
#[derive(Clone, Copy, Debug, PartialEq, Eq, Structural)]
pub enum Key {
    Escape,
    Backspace,
    Tab,
    Left,
    Right,
    Up,
    Down,
    Home,
    End,
    PageUp,
    PageDown,
    Delete,
    Insert,
    Char(char),
    Alt(char),
    Ctrl(char),
    F(u8),
    Null,
}

/// A structured input event: a recognized key, or the raw bytes of an
/// unrecognized sequence.
#[derive(Clone, Debug)]
pub enum Event {
    Key(Key),
    Unknown(Vec<u8>),
}

/// Byte-for-byte equality of two vectors.
fn bytes_eq(x: &Vec<u8>, y: &Vec<u8>) -> (r: bool)
    ensures
        r == (x@ == y@),
{
    if x.len() != y.len() {
        assert(x@ != y@);
        return false;
    }
    let mut i: usize = 0;
    while i < x.len()
        invariant
            i <= x.len(),
            x.len() == y.len(),
            forall|k: int| 0 <= k < i ==> x@[k] == y@[k],
        decreases x.len() - i,
    {
        if x[i] != y[i] {
            assert(x@ != y@);
            return false;
        }
        i += 1;
    }
    proof {
        assert(x@ =~= y@);
    }
    true
}

impl PartialEq for Event {
    fn eq(&self, other: &Event) -> (r: bool) {
        match (self, other) {
            (Event::Key(a), Event::Key(b)) => *a == *b,
            (Event::Unknown(x), Event::Unknown(y)) => bytes_eq(x, y),
            _ => false,
        }
    }
}

impl vstd::std_specs::cmp::PartialEqSpecImpl for Event {
    open spec fn obeys_eq_spec() -> bool {
        true
    }

    open spec fn eq_spec(&self, other: &Event) -> bool {
        match (self, other) {
            (Event::Key(a), Event::Key(b)) => a == b,
            (Event::Unknown(x), Event::Unknown(y)) => x@ == y@,
            _ => false,
        }
    }
}

/// The mathematical description of a key, with code points as integers.
pub enum KeySpec {
    KEscape,
    KBackspace,
    KTab,
    KLeft,
    KRight,
    KUp,
    KDown,
    KHome,
    KEnd,
    KPageUp,
    KPageDown,
    KDelete,
    KInsert,
    KChar(int),
    KAlt(int),
    KCtrl(int),
    KF(int),
    KNull,
}

/// The outcome of parsing at some buffer position: more bytes are needed,
/// a key was recognized, or the bytes up to the given index form an
/// unrecognized sequence.
pub enum EventSpec {
    More,
    EKey(KeySpec, int),
    EUnknown(int),
}

/// The outcome of decoding one UTF-8 scalar value.
pub enum Utf8Spec {
    UMore,
    UScalar(int, int),
    UBad(int),
}

/// Whether an executable key agrees with its description.
pub open spec fn key_matches(k: Key, ks: KeySpec) -> bool {
    match ks {
        KeySpec::KEscape => k == Key::Escape,
        KeySpec::KBackspace => k == Key::Backspace,
        KeySpec::KTab => k == Key::Tab,
        KeySpec::KLeft => k == Key::Left,
        KeySpec::KRight => k == Key::Right,
        KeySpec::KUp => k == Key::Up,
        KeySpec::KDown => k == Key::Down,
        KeySpec::KHome => k == Key::Home,
        KeySpec::KEnd => k == Key::End,
        KeySpec::KPageUp => k == Key::PageUp,
        KeySpec::KPageDown => k == Key::PageDown,
        KeySpec::KDelete => k == Key::Delete,
        KeySpec::KInsert => k == Key::Insert,
        KeySpec::KChar(v) => k matches Key::Char(c) && c as u32 == v,
        KeySpec::KAlt(v) => k matches Key::Alt(c) && c as u32 == v,
        KeySpec::KCtrl(v) => k matches Key::Ctrl(c) && c as u32 == v,
        KeySpec::KF(v) => k matches Key::F(x) && x as int == v,
        KeySpec::KNull => k == Key::Null,
    }
}

/// A UTF-8 continuation byte.
pub open spec fn is_cont(b: u8) -> bool {
    0x80 <= b && b < 0xC0
}

/// Not enough bytes to finish rejecting a malformed sequence, or the
/// four-byte window that the parser gives up on.
pub open spec fn utf8_bad(b: Seq<u8>, start: int) -> Utf8Spec {
    if start + 4 > b.len() {
        Utf8Spec::UMore
    } else {
        Utf8Spec::UBad(start + 4)
    }
}

/// Decoding one UTF-8 scalar beginning at `start`: ASCII passes through; a
/// valid multi-byte encoding yields its scalar value; a malformed sequence
/// consumes four bytes and fails; a truncated one waits for more input.
pub open spec fn utf8_spec(b: Seq<u8>, start: int) -> Utf8Spec {
    let b0 = b[start];
    if b0 < 0x80 {
        Utf8Spec::UScalar(b0 as int, start + 1)
    } else if 0xC2 <= b0 && b0 <= 0xDF {
        if start + 2 > b.len() {
            Utf8Spec::UMore
        } else if is_cont(b[start + 1]) {
            Utf8Spec::UScalar((b0 - 0xC0) * 0x40 + (b[start + 1] - 0x80), start + 2)
        } else {
            utf8_bad(b, start)
        }
    } else if 0xE0 <= b0 && b0 <= 0xEF {
        if start + 3 > b.len() {
            Utf8Spec::UMore
        } else if utf8_valid3(b0, b[start + 1], b[start + 2]) {
            Utf8Spec::UScalar(
                (b0 - 0xE0) * 0x1000 + (b[start + 1] - 0x80) * 0x40 + (b[start + 2] - 0x80),
                start + 3,
            )
        } else {
            utf8_bad(b, start)
        }
    } else if 0xF0 <= b0 && b0 <= 0xF4 {
        if start + 4 > b.len() {
            Utf8Spec::UMore
        } else if utf8_valid4(b0, b[start + 1], b[start + 2], b[start + 3]) {
            Utf8Spec::UScalar(
                (b0 - 0xF0) * 0x40000 + (b[start + 1] - 0x80) * 0x1000 + (b[start + 2] - 0x80)
                    * 0x40 + (b[start + 3] - 0x80),
                start + 4,
            )
        } else {
            utf8_bad(b, start)
        }
    } else {
        utf8_bad(b, start)
    }
}

/// A valid three-byte encoding: the first continuation range depends on
/// the lead byte, excluding overlong forms and surrogates.
pub open spec fn utf8_valid3(b0: u8, b1: u8, b2: u8) -> bool {
    &&& if b0 == 0xE0 {
        0xA0 <= b1 && b1 <= 0xBF
    } else if b0 == 0xED {
        0x80 <= b1 && b1 <= 0x9F
    } else {
        is_cont(b1)
    }
    &&& is_cont(b2)
}

/// A valid four-byte encoding: the first continuation range depends on the
/// lead byte, excluding overlong forms and values beyond the last scalar.
pub open spec fn utf8_valid4(b0: u8, b1: u8, b2: u8, b3: u8) -> bool {
    &&& if b0 == 0xF0 {
        0x90 <= b1 && b1 <= 0xBF
    } else if b0 == 0xF4 {
        0x80 <= b1 && b1 <= 0x8F
    } else {
        is_cont(b1)
    }
    &&& is_cont(b2)
    &&& is_cont(b3)
}

/// The index of the first CSI final byte at or after `j`, or a negative
/// value when the buffer ends first.
pub open spec fn csi_scan(b: Seq<u8>, j: int) -> int
    decreases b.len() - j,
{
    if j >= b.len() {
        -1
    } else if 64 <= b[j] && b[j] <= 126 {
        j
    } else {
        csi_scan(b, j + 1)
    }
}

/// Whether every byte in `[from, to)` is an ASCII digit.
pub open spec fn all_digits(b: Seq<u8>, from: int, to: int) -> bool {
    forall|k: int| from <= k < to ==> 0x30 <= #[trigger] b[k] && b[k] <= 0x39
}

/// The decimal value of the digit bytes in `[from, to)`.
pub open spec fn digits_value(b: Seq<u8>, from: int, to: int) -> int
    decreases to - from,
{
    if from >= to {
        0
    } else {
        digits_value(b, from, to - 1) * 10 + (b[to - 1] - 0x30)
    }
}

/// The key that a numbered escape code denotes, if any.
pub open spec fn numbered_key(v: int) -> Option<KeySpec> {
    if v == 1 || v == 7 {
        Some(KeySpec::KHome)
    } else if v == 2 {
        Some(KeySpec::KInsert)
    } else if v == 3 {
        Some(KeySpec::KDelete)
    } else if v == 4 || v == 8 {
        Some(KeySpec::KEnd)
    } else if v == 5 {
        Some(KeySpec::KPageUp)
    } else if v == 6 {
        Some(KeySpec::KPageDown)
    } else if 11 <= v && v <= 15 {
        Some(KeySpec::KF(v - 10))
    } else if 17 <= v && v <= 21 {
        Some(KeySpec::KF(v - 11))
    } else if 23 <= v && v <= 24 {
        Some(KeySpec::KF(v - 12))
    } else {
        None
    }
}

/// Parsing a CSI sequence whose introducer ends just before `i`: single
/// final bytes map to arrows and Home/End; a run of parameter bytes closed
/// by `~` encodes a numbered key; everything else, including
/// multi-parameter sequences, is unrecognized.
pub open spec fn csi_spec(b: Seq<u8>, i: int) -> EventSpec {
    if i >= b.len() {
        EventSpec::More
    } else {
        let c = b[i];
        if c == 0x44 {
            EventSpec::EKey(KeySpec::KLeft, i + 1)
        } else if c == 0x43 {
            EventSpec::EKey(KeySpec::KRight, i + 1)
        } else if c == 0x41 {
            EventSpec::EKey(KeySpec::KUp, i + 1)
        } else if c == 0x42 {
            EventSpec::EKey(KeySpec::KDown, i + 1)
        } else if c == 0x48 {
            EventSpec::EKey(KeySpec::KHome, i + 1)
        } else if c == 0x46 {
            EventSpec::EKey(KeySpec::KEnd, i + 1)
        } else if 0x30 <= c && c <= 0x39 {
            let f = csi_scan(b, i + 1);
            if f < 0 {
                EventSpec::More
            } else if b[f] == 0x7E && all_digits(b, i, f) && numbered_key(digits_value(b, i, f))
                is Some {
                EventSpec::EKey(numbered_key(digits_value(b, i, f)).unwrap(), f + 1)
            } else {
                EventSpec::EUnknown(f + 1)
            }
        } else {
            EventSpec::EUnknown(i + 1)
        }
    }
}

/// Parsing one event beginning at `start`: the escape-sequence state
/// machine over whatever bytes are available.
pub open spec fn event_spec(b: Seq<u8>, start: int) -> EventSpec {
    let c = b[start];
    if c == 0x1B {
        if start + 1 >= b.len() {
            EventSpec::More
        } else {
            let c1 = b[start + 1];
            if c1 == 0x4F {
                if start + 2 >= b.len() {
                    EventSpec::More
                } else if 0x50 <= b[start + 2] && b[start + 2] <= 0x53 {
                    EventSpec::EKey(KeySpec::KF(1 + b[start + 2] - 0x50), start + 3)
                } else {
                    EventSpec::EUnknown(start + 3)
                }
            } else if c1 == 0x5B {
                csi_spec(b, start + 2)
            } else {
                match utf8_spec(b, start + 1) {
                    Utf8Spec::UScalar(v, n) => EventSpec::EKey(KeySpec::KAlt(v), n),
                    Utf8Spec::UBad(n) => EventSpec::EUnknown(n),
                    Utf8Spec::UMore => EventSpec::More,
                }
            }
        }
    } else if c == 0x0A || c == 0x0D {
        EventSpec::EKey(KeySpec::KChar(10), start + 1)
    } else if c == 0x09 {
        EventSpec::EKey(KeySpec::KChar(9), start + 1)
    } else if c == 0x7F {
        EventSpec::EKey(KeySpec::KBackspace, start + 1)
    } else if 0x01 <= c && c <= 0x1A {
        EventSpec::EKey(KeySpec::KCtrl(c - 1 + 0x61), start + 1)
    } else if 0x1C <= c && c <= 0x1F {
        EventSpec::EKey(KeySpec::KCtrl(c - 0x1C + 0x34), start + 1)
    } else if c == 0x00 {
        EventSpec::EKey(KeySpec::KNull, start + 1)
    } else {
        match utf8_spec(b, start) {
            Utf8Spec::UScalar(v, n) => EventSpec::EKey(KeySpec::KChar(v), n),
            Utf8Spec::UBad(n) => EventSpec::EUnknown(n),
            Utf8Spec::UMore => EventSpec::More,
        }
    }
}

/// Whether a parsed event with its consumed-until index agrees with the
/// parse description for the buffer.
pub open spec fn event_ok(e: Event, next: int, es: EventSpec, b: Seq<u8>, start: int) -> bool {
    match es {
        EventSpec::EKey(ks, n) => next == n && (e matches Event::Key(k) && key_matches(k, ks)),
        EventSpec::EUnknown(n) => next == n && (e matches Event::Unknown(raw) && raw@
            == b.subrange(start, n)),
        EventSpec::More => false,
    }
}

/// The outcome of a parse attempt over the bytes available so far.
#[derive(Debug)]
pub enum Parsed {
    /// One complete event, and the index just after its last byte.
    Found(Event, usize),
    /// The available bytes end inside a sequence; more are needed.
    Incomplete,
}

/// The outcome of parsing a CSI sequence.
#[derive(Debug)]
pub enum CsiParsed {
    Found(Key, usize),
    Unrecognized(usize),
    Incomplete,
}

/// The outcome of decoding one UTF-8 character.
#[derive(Debug)]
pub enum Utf8Parsed {
    Scalar(char, usize),
    Invalid(usize),
    Incomplete,
}

/// Relies on char::from_u32: it returns the character with the given code
/// point, and None exactly for surrogates and values beyond the last
/// scalar value.
#[verifier::external_body]
fn char_from_u32(v: u32) -> (r: Option<char>)
    ensures
        match r {
            Some(c) => c as u32 == v && !((0xD800 <= v && v < 0xE000) || v > 0x10FFFF),
            None => (0xD800 <= v && v < 0xE000) || v > 0x10FFFF,
        },
{
    char::from_u32(v)
}

/// Copies the bytes in `[from, to)` out of `v`.
fn copy_range(v: &Vec<u8>, from: usize, to: usize) -> (out: Vec<u8>)
    requires
        from <= to,
        to <= v@.len(),
    ensures
        out@ == v@.subrange(from as int, to as int),
{
    let mut out: Vec<u8> = Vec::new();
    let mut k: usize = from;
    while k < to
        invariant
            from <= k <= to,
            to <= v@.len(),
            out@ == v@.subrange(from as int, k as int),
        decreases to - k,
    {
        out.push(v[k]);
        proof {
            assert(out@ =~= v@.subrange(from as int, k + 1));
        }
        k += 1;
    }
    out
}

/// Decodes one character beginning at `start`: an ASCII byte, or a
/// multi-byte UTF-8 encoding pulled from the following bytes, up to four
/// in total.
pub fn parse_utf8_char(buf: &Vec<u8>, start: usize) -> (r: Utf8Parsed)
    requires
        start < buf@.len(),
    ensures
        match r {
            Utf8Parsed::Scalar(c, next) => start < next <= buf@.len() && (utf8_spec(
                buf@,
                start as int,
            ) matches Utf8Spec::UScalar(v, n) && c as u32 == v && next == n),
            Utf8Parsed::Invalid(next) => start < next <= buf@.len() && (utf8_spec(
                buf@,
                start as int,
            ) matches Utf8Spec::UBad(n) && next == n),
            Utf8Parsed::Incomplete => utf8_spec(buf@, start as int) is UMore,
        },
{
    let len = buf.len();
    let rem = len - start;
    let b0 = buf[start];
    if b0 < 0x80 {
        match char_from_u32(b0 as u32) {
            Some(c) => Utf8Parsed::Scalar(c, start + 1),
            None => {
                proof {
                    assert(false);
                }
                Utf8Parsed::Incomplete
            },
        }
    } else if 0xC2 <= b0 && b0 <= 0xDF {
        if rem < 2 {
            Utf8Parsed::Incomplete
        } else {
            let b1 = buf[start + 1];
            if 0x80 <= b1 && b1 < 0xC0 {
                let v: u32 = (b0 as u32 - 0xC0) * 0x40 + (b1 as u32 - 0x80);
                match char_from_u32(v) {
                    Some(c) => Utf8Parsed::Scalar(c, start + 2),
                    None => {
                        proof {
                            assert(false);
                        }
                        Utf8Parsed::Incomplete
                    },
                }
            } else if rem < 4 {
                Utf8Parsed::Incomplete
            } else {
                Utf8Parsed::Invalid(start + 4)
            }
        }
    } else if 0xE0 <= b0 && b0 <= 0xEF {
        if rem < 3 {
            Utf8Parsed::Incomplete
        } else {
            let b1 = buf[start + 1];
            let b2 = buf[start + 2];
            let b1_ok = if b0 == 0xE0 {
                0xA0 <= b1 && b1 <= 0xBF
            } else if b0 == 0xED {
                0x80 <= b1 && b1 <= 0x9F
            } else {
                0x80 <= b1 && b1 < 0xC0
            };
            if b1_ok && 0x80 <= b2 && b2 < 0xC0 {
                let v: u32 = (b0 as u32 - 0xE0) * 0x1000 + (b1 as u32 - 0x80) * 0x40 + (b2 as u32
                    - 0x80);
                match char_from_u32(v) {
                    Some(c) => Utf8Parsed::Scalar(c, start + 3),
                    None => {
                        proof {
                            assert(false);
                        }
                        Utf8Parsed::Incomplete
                    },
                }
            } else if rem < 4 {
                Utf8Parsed::Incomplete
            } else {
                Utf8Parsed::Invalid(start + 4)
            }
        }
    } else if 0xF0 <= b0 && b0 <= 0xF4 {
        if rem < 4 {
            Utf8Parsed::Incomplete
        } else {
            let b1 = buf[start + 1];
            let b2 = buf[start + 2];
            let b3 = buf[start + 3];
            let b1_ok = if b0 == 0xF0 {
                0x90 <= b1 && b1 <= 0xBF
            } else if b0 == 0xF4 {
                0x80 <= b1 && b1 <= 0x8F
            } else {
                0x80 <= b1 && b1 < 0xC0
            };
            if b1_ok && 0x80 <= b2 && b2 < 0xC0 && 0x80 <= b3 && b3 < 0xC0 {
                let v: u32 = (b0 as u32 - 0xF0) * 0x40000 + (b1 as u32 - 0x80) * 0x1000 + (
                b2 as u32 - 0x80) * 0x40 + (b3 as u32 - 0x80);
                match char_from_u32(v) {
                    Some(c) => Utf8Parsed::Scalar(c, start + 4),
                    None => {
                        proof {
                            assert(false);
                        }
                        Utf8Parsed::Incomplete
                    },
                }
            } else {
                Utf8Parsed::Invalid(start + 4)
            }
        }
    } else {
        if rem < 4 {
            Utf8Parsed::Incomplete
        } else {
            Utf8Parsed::Invalid(start + 4)
        }
    }
}

/// The key a recognized numbered escape code denotes.
fn numbered_key_exec(v: u32) -> (r: Option<Key>)
    ensures
        match r {
            Some(k) => numbered_key(v as int) matches Some(ks) && key_matches(k, ks),
            None => numbered_key(v as int) is None,
        },
{
    if v == 1 || v == 7 {
        Some(Key::Home)
    } else if v == 2 {
        Some(Key::Insert)
    } else if v == 3 {
        Some(Key::Delete)
    } else if v == 4 || v == 8 {
        Some(Key::End)
    } else if v == 5 {
        Some(Key::PageUp)
    } else if v == 6 {
        Some(Key::PageDown)
    } else if 11 <= v && v <= 15 {
        Some(Key::F((v - 10) as u8))
    } else if 17 <= v && v <= 21 {
        Some(Key::F((v - 11) as u8))
    } else if 23 <= v && v <= 24 {
        Some(Key::F((v - 12) as u8))
    } else {
        None
    }
}

/// Parses a CSI sequence whose introducer ends just before `start`.
pub fn parse_csi(buf: &Vec<u8>, start: usize) -> (r: CsiParsed)
    requires
        start <= buf@.len(),
    ensures
        match r {
            CsiParsed::Found(k, next) => start < next <= buf@.len() && (csi_spec(
                buf@,
                start as int,
            ) matches EventSpec::EKey(ks, n) && key_matches(k, ks) && next == n),
            CsiParsed::Unrecognized(next) => start < next <= buf@.len() && (csi_spec(
                buf@,
                start as int,
            ) matches EventSpec::EUnknown(n) && next == n),
            CsiParsed::Incomplete => csi_spec(buf@, start as int) is More,
        },
{
    let len = buf.len();
    if start >= len {
        return CsiParsed::Incomplete;
    }
    let c = buf[start];
    if c == 0x44 {
        CsiParsed::Found(Key::Left, start + 1)
    } else if c == 0x43 {
        CsiParsed::Found(Key::Right, start + 1)
    } else if c == 0x41 {
        CsiParsed::Found(Key::Up, start + 1)
    } else if c == 0x42 {
        CsiParsed::Found(Key::Down, start + 1)
    } else if c == 0x48 {
        CsiParsed::Found(Key::Home, start + 1)
    } else if c == 0x46 {
        CsiParsed::Found(Key::End, start + 1)
    } else if 0x30 <= c && c <= 0x39 {
        let mut f: usize = start + 1;
        while f < len && !(64 <= buf[f] && buf[f] <= 126)
            invariant
                start + 1 <= f <= len,
                len == buf@.len(),
                csi_scan(buf@, start + 1) == csi_scan(buf@, f as int),
            decreases len - f,
        {
            f += 1;
        }
        if f == len {
            return CsiParsed::Incomplete;
        }
        proof {
            assert(csi_scan(buf@, f as int) == f as int);
        }
        if buf[f] != 0x7E {
            return CsiParsed::Unrecognized(f + 1);
        }
        let mut all_dig = true;
        let mut big = false;
        let mut value: u32 = 0;
        let mut k: usize = start;
        while k < f
            invariant
                start <= k <= f,
                f < len == buf@.len(),
                all_dig == all_digits(buf@, start as int, k as int),
                all_dig ==> digits_value(buf@, start as int, k as int) >= 0,
                all_dig && !big ==> value == digits_value(buf@, start as int, k as int) && value
                    <= 255,
                all_dig && big ==> digits_value(buf@, start as int, k as int) > 255,
            decreases f - k,
        {
            let d = buf[k];
            if !(0x30 <= d && d <= 0x39) {
                all_dig = false;
            } else if all_dig && !big {
                let next_val: u32 = value * 10 + (d as u32 - 0x30);
                if next_val > 255 {
                    big = true;
                } else {
                    value = next_val;
                }
            }
            proof {
                if all_dig {
                    assert(digits_value(buf@, start as int, k + 1) == digits_value(
                        buf@,
                        start as int,
                        k as int,
                    ) * 10 + (buf@[k as int] - 0x30));
                }
            }
            k += 1;
        }
        if all_dig && !big {
            match numbered_key_exec(value) {
                Some(key) => CsiParsed::Found(key, f + 1),
                None => CsiParsed::Unrecognized(f + 1),
            }
        } else {
            proof {
                if all_dig && big {
                    assert(numbered_key(digits_value(buf@, start as int, f as int)) is None);
                }
            }
            CsiParsed::Unrecognized(f + 1)
        }
    } else {
        CsiParsed::Unrecognized(start + 1)
    }
}

/// Parses one event beginning at `start`, following the escape-sequence
/// state machine.
pub fn parse_event(buf: &Vec<u8>, start: usize) -> (r: Parsed)
    requires
        start < buf@.len(),
    ensures
        match r {
            Parsed::Found(e, next) => start < next <= buf@.len() && event_ok(
                e,
                next as int,
                event_spec(buf@, start as int),
                buf@,
                start as int,
            ),
            Parsed::Incomplete => event_spec(buf@, start as int) is More,
        },
{
    let len = buf.len();
    let b0 = buf[start];
    if b0 == 0x1B {
        if len - start < 2 {
            return Parsed::Incomplete;
        }
        let b1 = buf[start + 1];
        if b1 == 0x4F {
            if len - start < 3 {
                return Parsed::Incomplete;
            }
            let b2 = buf[start + 2];
            if 0x50 <= b2 && b2 <= 0x53 {
                Parsed::Found(Event::Key(Key::F(1 + (b2 - 0x50))), start + 3)
            } else {
                Parsed::Found(Event::Unknown(copy_range(buf, start, start + 3)), start + 3)
            }
        } else if b1 == 0x5B {
            match parse_csi(buf, start + 2) {
                CsiParsed::Found(k, next) => Parsed::Found(Event::Key(k), next),
                CsiParsed::Unrecognized(next) => Parsed::Found(
                    Event::Unknown(copy_range(buf, start, next)),
                    next,
                ),
                CsiParsed::Incomplete => Parsed::Incomplete,
            }
        } else {
            match parse_utf8_char(buf, start + 1) {
                Utf8Parsed::Scalar(c, next) => Parsed::Found(Event::Key(Key::Alt(c)), next),
                Utf8Parsed::Invalid(next) => Parsed::Found(
                    Event::Unknown(copy_range(buf, start, next)),
                    next,
                ),
                Utf8Parsed::Incomplete => Parsed::Incomplete,
            }
        }
    } else if b0 == 0x0A || b0 == 0x0D {
        Parsed::Found(Event::Key(Key::Char('\n')), start + 1)
    } else if b0 == 0x09 {
        Parsed::Found(Event::Key(Key::Char('\t')), start + 1)
    } else if b0 == 0x7F {
        Parsed::Found(Event::Key(Key::Backspace), start + 1)
    } else if 0x01 <= b0 && b0 <= 0x1A {
        match char_from_u32(b0 as u32 - 1 + 0x61) {
            Some(c) => Parsed::Found(Event::Key(Key::Ctrl(c)), start + 1),
            None => {
                proof {
                    assert(false);
                }
                Parsed::Incomplete
            },
        }
    } else if 0x1C <= b0 && b0 <= 0x1F {
        match char_from_u32(b0 as u32 - 0x1C + 0x34) {
            Some(c) => Parsed::Found(Event::Key(Key::Ctrl(c)), start + 1),
            None => {
                proof {
                    assert(false);
                }
                Parsed::Incomplete
            },
        }
    } else if b0 == 0x00 {
        Parsed::Found(Event::Key(Key::Null), start + 1)
    } else {
        match parse_utf8_char(buf, start) {
            Utf8Parsed::Scalar(c, next) => Parsed::Found(Event::Key(Key::Char(c)), next),
            Utf8Parsed::Invalid(next) => Parsed::Found(
                Event::Unknown(copy_range(buf, start, next)),
                next,
            ),
            Utf8Parsed::Incomplete => Parsed::Incomplete,
        }
    }
}

} // verus!
