//! Per-character positional bonuses for a candidate string.

use vstd::prelude::*;
use crate::consts::{SCORE_MATCH_SLASH, SCORE_MATCH_WORD, SCORE_MATCH_CAPITAL, SCORE_MATCH_DOT};

verus! {

/// The bonus a character earns from the character standing before it.
pub open spec fn bonus_for_prev_spec(prev: char) -> int {
    if prev == '/' {
        SCORE_MATCH_SLASH as int
    } else if prev == '-' || prev == '_' || prev == ' ' {
        SCORE_MATCH_WORD as int
    } else if prev == '.' {
        SCORE_MATCH_DOT as int
    } else {
        0
    }
}

/// The bonus for a character: a camel-case transition from a lower-case
/// predecessor to an upper-case character, or the predecessor's own bonus.
pub open spec fn for_char_spec(prev: char, current: char) -> int {
    if 97 <= prev as u32 && prev as u32 <= 122 {
        if 65 <= current as u32 && current as u32 <= 90 {
            SCORE_MATCH_CAPITAL as int
        } else {
            0
        }
    } else {
        bonus_for_prev_spec(prev)
    }
}

/// The bonus of the character at position `j` of `h`; the string is treated
/// as if a path separator stood before its first character.
pub open spec fn bonus_at(h: Seq<char>, j: int) -> int {
    if j == 0 {
        for_char_spec('/', h[0])
    } else {
        for_char_spec(h[j - 1], h[j])
    }
}

/// Derives the score bonus awarded to `current` after `prev`.
pub fn for_char(prev: char, current: char) -> (r: i128)
    ensures
        r == for_char_spec(prev, current),
{
    let p = prev as u32;
    if 97 <= p && p <= 122 {
        let c = current as u32;
        if 65 <= c && c <= 90 {
            SCORE_MATCH_CAPITAL
        } else {
            0
        }
    } else if prev == '/' {
        SCORE_MATCH_SLASH
    } else if prev == '-' || prev == '_' || prev == ' ' {
        SCORE_MATCH_WORD
    } else if prev == '.' {
        SCORE_MATCH_DOT
    } else {
        0
    }
}

/// Calculates the vector of match bonuses for the characters of `haystack`.
pub fn compute(haystack: &Vec<char>) -> (r: Vec<i128>)
    ensures
        r@.len() == haystack@.len(),
        forall|j: int| 0 <= j < r@.len() ==> #[trigger] r@[j] == bonus_at(haystack@, j),
{
    let mut prev: char = '/';
    let mut bonus: Vec<i128> = Vec::new();
    let mut k: usize = 0;
    while k < haystack.len()
        invariant
            k <= haystack.len(),
            bonus@.len() == k,
            prev == if k == 0 {
                '/'
            } else {
                haystack@[k - 1]
            },
            forall|j: int| 0 <= j < k ==> #[trigger] bonus@[j] == bonus_at(haystack@, j),
        decreases haystack.len() - k,
    {
        let current = haystack[k];
        bonus.push(for_char(prev, current));
        prev = current;
        k += 1;
    }
    bonus
}

/// Every bonus lies between zero and the path-separator reward.
pub proof fn lemma_bonus_range(h: Seq<char>, j: int)
    ensures
        0 <= bonus_at(h, j) <= SCORE_MATCH_SLASH as int,
{
}

} // verus!
