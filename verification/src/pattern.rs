//! Finding marker lines: the one place where the pattern engine is called.

use vstd::prelude::*;
use crate::error::SyncError;
use crate::text::copy_bytes;

verus! {

/// The error that the pattern engine gives for a pattern it cannot compile.
#[verifier::external_type_specification]
#[verifier::external_body]
pub struct ExPatternError(regex::Error);

/// One match of a pattern in a text.
#[derive(Debug, Clone, PartialEq, Eq)]
pub struct LineMatch {
    /// Offset of the first byte of the match.
    pub start: usize,
    /// Offset just behind the last byte of the match.
    pub end: usize,
    /// What each capture group holds, the whole match being group 0. A group
    /// that took no part in the match holds `None`.
    pub groups: Vec<Option<Vec<u8>>>,
}

/// A match as a mathematical value.
pub struct FoundLine {
    pub start: int,
    pub end: int,
    pub groups: Seq<Option<Seq<u8>>>,
}

impl View for LineMatch {
    type V = FoundLine;

    open spec fn view(&self) -> FoundLine {
        FoundLine {
            start: self.start as int,
            end: self.end as int,
            groups: Seq::new(
                self.groups@.len(),
                |i: int|
                    match self.groups@[i] {
                        Some(g) => Some(g@),
                        None => None,
                    },
            ),
        }
    }
}

impl FoundLine {
    /// What capture group `i` holds: nothing where the pattern has no such
    /// group or the group took no part in the match.
    pub open spec fn group(self, i: int) -> Seq<u8> {
        if 0 <= i < self.groups.len() {
            match self.groups[i] {
                Some(text) => text,
                None => Seq::empty(),
            }
        } else {
            Seq::empty()
        }
    }
}

impl LineMatch {
    /// A copy of what capture group `i` holds.
    pub fn group(&self, i: usize) -> (text: Vec<u8>)
        ensures
            text@ == self@.group(i as int),
    {
        if i < self.groups.len() {
            match &self.groups[i] {
                Some(text) => copy_bytes(text.as_slice()),
                None => Vec::new(),
            }
        } else {
            Vec::new()
        }
    }
}

/// The offset just behind the line terminator that follows a line ending at
/// `end`. It stays at `end` where no larger offset exists.
pub open spec fn after_line(end: int) -> int {
    if end < usize::MAX {
        end + 1
    } else {
        end
    }
}

/// The offset just behind the line terminator that follows a line ending at
/// `end`.
pub fn line_after(end: usize) -> (pos: usize)
    ensures
        pos == after_line(end as int),
{
    if end < usize::MAX {
        end + 1
    } else {
        end
    }
}

/// The views of a list of matches, in order.
pub open spec fn found_lines(matches: Seq<LineMatch>) -> Seq<FoundLine> {
    matches.map_values(|m: LineMatch| m@)
}

/// Whether the pattern engine accepts `pattern`.
pub uninterp spec fn pattern_compiles(pattern: Seq<char>) -> bool;

/// The successive non-overlapping matches of `pattern` in `text`, from left to
/// right, as the pattern engine finds them.
pub uninterp spec fn pattern_matches(pattern: Seq<char>, text: Seq<u8>) -> Seq<FoundLine>;

/// Compiles `pattern` with `regex::bytes::Regex::new` and walks `text` with
/// `regex::bytes::Regex::captures_iter`.
///
/// Nothing is proved of either call. The contract only gives their results
/// names: whether the pattern compiles depends on the pattern alone, and the
/// matches depend on the pattern and the text alone. It says nothing of what
/// a pattern matches.
///
/// Each match is handed out as it comes: the offsets of the whole match from
/// `Captures::get_match`, and for every group that `Captures::iter` yields,
/// the whole match first, a copy of the bytes it holds.
#[verifier::external_body]
pub(crate) fn scan_lines(pattern: &str, text: &[u8]) -> (r: Result<Vec<LineMatch>, regex::Error>)
    ensures
        r is Ok <==> pattern_compiles(pattern@),
        r matches Ok(found) ==> found_lines(found@) == pattern_matches(pattern@, text@),
{
    let engine = regex::bytes::Regex::new(pattern)?;
    Ok(engine.captures_iter(text).map(|c| LineMatch {
        start: c.get_match().start(),
        end: c.get_match().end(),
        groups: c.iter().map(|g| g.map(|m| m.as_bytes().to_vec())).collect(),
    }).collect())
}

/// What a search for `pattern` in `text` gives: the matches, or the refusal
/// of the pattern.
pub open spec fn scanned(pattern: Seq<char>, text: Seq<u8>) -> Result<Seq<FoundLine>, SyncError> {
    if pattern_compiles(pattern) {
        Ok(pattern_matches(pattern, text))
    } else {
        Err(SyncError::BadPattern)
    }
}

/// The result of a search as a mathematical value.
pub open spec fn search_view(r: Result<Vec<LineMatch>, SyncError>) -> Result<
    Seq<FoundLine>,
    SyncError,
> {
    match r {
        Ok(found) => Ok(found_lines(found@)),
        Err(e) => Err(e),
    }
}

/// All matches of `pattern` in `text`, from left to right.
pub fn find_lines(pattern: &str, text: &[u8]) -> (r: Result<Vec<LineMatch>, SyncError>)
    ensures
        search_view(r) == scanned(pattern@, text@),
{
    match scan_lines(pattern, text) {
        Ok(found) => Ok(found),
        Err(_) => Err(SyncError::BadPattern),
    }
}

} // verus!
