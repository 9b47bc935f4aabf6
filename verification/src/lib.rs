//! Terminal renderer for lightweight markup.
//!
//! The renderer scans raw text line by line, detects block structure
//! (tables, headings, fenced code, block quotes, thematic breaks) and
//! produces a UTF-8 stream interleaved with ANSI escape codes. Beside
//! it stand the stateful building blocks of styled output: the style
//! stack that nests and un-nests overlapping inline styles, and the
//! list formatter that numbers and indents nested lists. Every emitting
//! function carries a contract that pins its output down to the exact
//! character sequence.

pub mod ansi_styles;
pub mod lists;
pub mod renderer;
pub mod scan;
pub mod style_stack;
pub mod table;
