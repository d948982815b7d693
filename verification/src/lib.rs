//! Draws a multi-line text payload inside a box of border glyphs.
//!
//! Each character of the text is classified as narrow (one display column) or
//! wide (two display columns, East-Asian full-width). The box's horizontal
//! border is sized to the longest line and mirrors, position by position, the
//! width class of that line's characters, so that narrow columns get a narrow
//! border glyph and wide columns a wide one. Every content line is wrapped in
//! vertical side glyphs; empty input gets a fixed two-row frame of its own.

pub mod content;
pub mod frame;
pub mod line;
pub mod rectangle;
pub mod textops;
pub mod width;
