//! What can stop the work on a file.

use vstd::prelude::*;

verus! {

/// Why a run has to stop. None of these can be recovered from: the file at
/// hand is malformed, or refers to something that does not exist.
#[derive(Debug, Clone, Copy, PartialEq, Eq, Structural)]
pub enum SyncError {
    /// The pattern of a marker line was not accepted by the pattern engine.
    BadPattern,
    /// An end marker names a file and segment that no start marker names.
    UnmatchedEnd,
    /// The markers do not enclose ranges of the text that lie one behind the
    /// other: a start marker has no end marker behind it, or two regions lie
    /// in one another or across one another.
    BrokenRange,
    /// The markdown file has no segment of the requested name.
    SegmentNotFound,
}

} // verus!
