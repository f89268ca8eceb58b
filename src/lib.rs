//! A text-editing cursor over a single line of input, with character and
//! word navigation that never leaves a character boundary.

pub mod cursor;
pub mod text;
pub mod words;
