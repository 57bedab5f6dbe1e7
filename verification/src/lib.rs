//! Verified core of a terminal fuzzy file picker: query editing, result
//! navigation and multi-selection, the assembly of search results, match
//! highlighting, the text layout of result rows and of the rest of a frame,
//! and the command-line level decisions.
#![allow(unused_imports)]

pub mod text;
pub mod numfmt;
pub mod width;
pub mod paths;
pub mod picker;
pub mod highlight;
pub mod assemble;
pub mod app;
pub mod row;
pub mod screen;
pub mod cli;
pub mod laws;
pub mod search_laws;
