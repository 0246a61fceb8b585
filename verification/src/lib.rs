//! A lexical scanner for a small scripting language.
//!
//! The scanner turns source text into a flat sequence of classified tokens.
//! What it produces is defined by the mathematical model in [`grammar`]; the
//! executable scanner in [`scanner`] is proved to compute exactly that model,
//! and [`laws`] states general facts about every scan.

pub mod chars;
pub mod token;
pub mod grammar;
pub mod scanner;
pub mod laws;
