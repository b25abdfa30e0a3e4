//! The editing core of a code/text editor: a mutable text buffer backed by a
//! rope, a cursor model in character coordinates, a tokenizer that covers each
//! line with typed spans, and a pointer-to-text-coordinate mapper.

pub mod buffer;
pub mod editor;
pub mod pointer;
pub mod text;
pub mod token;
