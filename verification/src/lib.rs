//! Keeps doc comments in code files in step with named segments of markdown files.
//!
//! A code file marks a region with a pair of marker lines that name a markdown
//! file, a segment of it and a comment symbol. The markdown file marks the
//! segment with a pair of comment lines. The text of the segment, every line of
//! it behind the comment symbol, takes the place of whatever stood between the
//! two markers of the code file. The marker lines themselves stay.
//!
//! All texts are byte strings and all positions are byte offsets. Reading and
//! writing files is left to the caller: [`rewrite::rewrite_code_file`] says
//! which markdown file it needs next, or hands back the new text, and
//! [`cache::get_md_segments_using_cache`] takes the content of a markdown file
//! in.
//!
//! - [`pattern`] finds the marker lines of a text,
//! - [`markers`] pairs those of a code file,
//! - [`segments`] pairs those of a markdown file and renders the bodies with
//!   [`format`],
//! - [`cache`] keeps the segments of every markdown file that was read,
//! - [`rewrite`] fills the regions of a code file,
//! - [`text`] holds what all of them need of byte strings.

use vstd::prelude::*;

pub mod cache;
pub mod error;
pub mod format;
pub mod markers;
pub mod pattern;
pub mod rewrite;
pub mod segments;
pub mod text;

verus! {

/// Prepares the terminal for colored output.
///
/// Terminals of the unix family interpret ANSI escape sequences as they come,
/// so there is nothing to switch on.
pub fn enable_ansi_support() {
}

} // verus!
