//! A fuzzy finder library: a Unicode-aware subsequence matcher, a
//! dynamic-programming scorer with match-position recovery, a ranking
//! engine, a key-event parser for raw terminal byte streams, ANSI escape
//! formatting, and the interactive search interface's state machine.

pub mod ansi;
pub mod bonus;
pub mod choice;
pub mod consts;
pub mod event;
pub mod input;
pub mod interface;
pub mod mat;
pub mod matcher;
pub mod score;
pub mod score_value;
pub mod scorer;
pub mod text;
