//! Analysis of PATH-style strings: splitting them into segments, expanding
//! `%NAME%` tokens, recognising known software installations and proposing
//! variable references for them.
pub mod text;
pub mod parse;
pub mod expand;
pub mod detect;
pub mod analysis;
