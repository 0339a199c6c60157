//! Builds shared-prefix key-sequence automata from named sections of
//! `input sequence -> output string` rules, evaluates input strings against
//! them, and renders the section data in several textual formats.

pub mod automaton;
pub mod compose;
pub mod kbdlayout;
pub mod kbdwriter;
pub mod textops;
