//! A small, composable parsing engine.
//!
//! The crate provides a uniform parser abstraction ([`parse::Parser`]), a set
//! of primitive parsers (literal, identifier, any-character), the core
//! combinators (`pair`, `map`, `left`, `right`, `pred`, `one_or_more`,
//! `zero_or_more`), and a grammar fragment for a minimal tag-based markup
//! subset (quoted strings, attribute lists, tag openings) built strictly from
//! those layers.
//!
//! Input is a sequence of Unicode scalar values (`&[char]`); every parser is a
//! pure function from input to an outcome that carries the unconsumed
//! remainder.  Each parser's executable `parse` method is verified against a
//! mathematical specification over `Seq<char>`.

pub mod classify;
pub mod combinators;
pub mod grammar;
pub mod parse;
pub mod primitives;
