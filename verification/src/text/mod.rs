//! Text primitives shared by the address grammars: numerals, delimited
//! fields, and conversion between strings and character sequences.

pub mod chars;
pub mod digits;
pub mod fields;
