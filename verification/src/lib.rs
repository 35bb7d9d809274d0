//! A minimal line-based text editor core: a document buffer of lines,
//! a clamped cursor, and a verified editing state machine.

pub mod document;
pub mod editor;
pub mod render;
