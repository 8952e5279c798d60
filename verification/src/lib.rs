//! A parser and interpreter for a small line-oriented music-notation
//! language. Source text is scanned by a backtracking cursor into an ordered
//! instruction sequence (labels, chords, verb/argument pairs, variable
//! declarations); a label/goto interpreter then executes that sequence with
//! one global and one call-scoped variable table, reporting its observable
//! actions (debug prints, warnings, chord playback requests) as a sequence of
//! events.

pub mod cli;
pub mod compiler;
pub mod data;
pub mod dict;
pub mod error;
pub mod parser;
pub mod text;
