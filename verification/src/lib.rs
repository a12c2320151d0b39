//! mdview: the logic of a terminal Markdown viewer.
//!
//! The library turns Markdown into styled text lines, renders tables and
//! code blocks, searches the rendered text, and drives the viewer's state
//! from key and mouse input. Terminal drawing and I/O live in the program
//! around it.
use vstd::prelude::*;

pub mod text;
pub mod style;
pub mod theme;
pub mod markdown;
pub mod search;
pub mod ui;
pub mod app;

verus! {

} // verus!
