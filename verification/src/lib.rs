//! The editing core of a modal terminal text editor: a rope-backed buffer
//! with a line/offset coordinate model, a coalescing transaction log with an
//! exact inverse, and a keymap trie that resolves multi-key commands.

pub mod buffer;
pub mod chars;
pub mod command;
pub mod event;
pub mod keymap;
pub mod rope;
pub mod text;
pub mod transaction;
