//! Constants for score calculations.
//!
//! Scores are integers in units of 1/200 of a match point: every weight the
//! scorer uses is a multiple of 0.005, so this scale represents each of them
//! exactly and keeps every comparison between scores unchanged.

use vstd::prelude::*;

verus! {

/// Penalty per skipped character before the first match of the needle.
pub const SCORE_GAP_LEADING: i128 = -1;

/// Penalty per skipped character while matching the last needle character.
pub const SCORE_GAP_TRAILING: i128 = -1;

/// Penalty per skipped character between needle characters.
pub const SCORE_GAP_INNER: i128 = -2;

/// Reward for matching immediately after the previous needle character.
pub const SCORE_MATCH_CONSECUTIVE: i128 = 200;

/// Reward for a match right after a path separator.
pub const SCORE_MATCH_SLASH: i128 = 180;

/// Reward for a match right after a dash, underscore or space.
pub const SCORE_MATCH_WORD: i128 = 160;

/// Reward for an upper-case match right after a lower-case character.
pub const SCORE_MATCH_CAPITAL: i128 = 140;

/// Reward for a match right after a dot.
pub const SCORE_MATCH_DOT: i128 = 120;

/// No candidate longer than this many characters is scored.
pub const CANDIDATE_MAX_CHARS: usize = 1024;

} // verus!
