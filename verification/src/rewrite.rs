//! Filling the regions of a code file.

use vstd::prelude::*;
use crate::error::SyncError;
use crate::markers::{code_markers, marker_views, rs_file_markers, Marker, RsMarker};
use crate::cache::{cache_holds_file, cached_segment_text, cached_text, holds_file};
use crate::segments::{segment_views, MdSegment, Segment};
use crate::text::{append_bytes, copy_bytes};

verus! {

/// What is to be done with a code file.
#[derive(Debug, Clone, PartialEq, Eq)]
pub enum Outcome {
    /// The file has no markers. It is not to be written.
    Untouched,
    /// The cache does not hold this markdown file yet. Its content is to be
    /// read and handed to `get_md_segments_using_cache` with these names;
    /// then the code file can be taken up again.
    NeedsMarkdown { md_filename: Vec<u8>, marker_name: Vec<u8>, comment_symbol: Vec<u8> },
    /// All regions are filled. This is the text to write.
    Rewritten(Vec<u8>),
    /// The file cannot be rewritten, and the run is to stop.
    Failed(SyncError),
}

/// An outcome as a mathematical value.
pub enum Verdict {
    Untouched,
    NeedsMarkdown { md_filename: Seq<u8>, marker_name: Seq<u8>, comment_symbol: Seq<u8> },
    Rewritten(Seq<u8>),
    Failed(SyncError),
}

impl View for Outcome {
    type V = Verdict;

    open spec fn view(&self) -> Verdict {
        match *self {
            Outcome::Untouched => Verdict::Untouched,
            Outcome::NeedsMarkdown { md_filename, marker_name, comment_symbol } => Verdict::NeedsMarkdown {
                md_filename: md_filename@,
                marker_name: marker_name@,
                comment_symbol: comment_symbol@,
            },
            Outcome::Rewritten(text) => Verdict::Rewritten(text@),
            Outcome::Failed(e) => Verdict::Failed(e),
        }
    }
}

/// Whether the regions lie one behind the other in a text of `len` bytes:
/// none begins behind its end, none reaches beyond the text, and each ends
/// before the next begins. A marker without an end marker has no such region,
/// nor has one whose end marker stands before it, and regions that lie in one
/// another or across one another are not in order either.
pub open spec fn well_placed(markers: Seq<Marker>, len: int) -> bool {
    &&& forall|i: int|
        0 <= i < markers.len() ==> 0 <= (#[trigger] markers[i]).pos_start <= markers[i].pos_end <= len
    &&& forall|i: int, j: int|
        0 <= i < j < markers.len() ==> (#[trigger] markers[i]).pos_end <= (#[trigger] markers[j]).pos_start
}

/// Whether the cache holds the file of the marker, and in it the segment.
pub open spec fn is_cached(cache: Seq<Segment>, m: Marker) -> bool {
    holds_file(cache, m.md_filename) && cached_text(cache, m.md_filename, m.marker_name) is Ok
}

/// Whether the cache has a text for every marker.
pub open spec fn all_cached(markers: Seq<Marker>, cache: Seq<Segment>) -> bool {
    forall|i: int| 0 <= i < markers.len() ==> is_cached(cache, #[trigger] markers[i])
}

/// Index of the last of the first `n` markers that the cache has no text
/// for.
pub open spec fn last_uncached(markers: Seq<Marker>, cache: Seq<Segment>, n: nat) -> Option<int>
    decreases n,
{
    if n == 0 || n > markers.len() {
        None
    } else if !is_cached(cache, markers[n - 1]) {
        Some(n - 1)
    } else {
        last_uncached(markers, cache, (n - 1) as nat)
    }
}

/// What is to be done about a marker that the cache has no text for: its
/// markdown file is to be read, or, where the cache holds the file, the
/// segment does not exist.
pub open spec fn refusal(cache: Seq<Segment>, m: Marker) -> Verdict {
    if holds_file(cache, m.md_filename) {
        Verdict::Failed(SyncError::SegmentNotFound)
    } else {
        Verdict::NeedsMarkdown {
            md_filename: m.md_filename,
            marker_name: m.marker_name,
            comment_symbol: m.comment_symbol,
        }
    }
}

/// The text that the cache has for the region of `m`.
pub open spec fn replacement(cache: Seq<Segment>, m: Marker) -> Seq<u8> {
    match cached_text(cache, m.md_filename, m.marker_name) {
        Ok(text) => text,
        Err(_) => Seq::empty(),
    }
}

/// Where the untouched bytes before region `k` begin: at the end of the
/// region before it, or at the beginning of the text.
pub open spec fn gap_start(markers: Seq<Marker>, k: int) -> int {
    if 0 < k <= markers.len() {
        markers[k - 1].pos_end
    } else {
        0
    }
}

/// The text from the end of region `k - 1` on, every region from `k` on
/// holding the text of its segment: the untouched bytes before region `k`,
/// the text for region `k`, and so on to the untouched bytes behind the last
/// region.
pub open spec fn woven_from(text: Seq<u8>, markers: Seq<Marker>, cache: Seq<Segment>, k: int) -> Seq<u8>
    decreases markers.len() - k,
{
    if k < 0 || k >= markers.len() {
        text.subrange(gap_start(markers, k), text.len() as int)
    } else {
        text.subrange(gap_start(markers, k), markers[k].pos_start) + replacement(cache, markers[k]) + woven_from(
            text,
            markers,
            cache,
            k + 1,
        )
    }
}

/// The text with every region holding the text of its segment, and all bytes
/// outside the regions, the marker lines among them, where they were, one
/// behind the other.
pub open spec fn woven(text: Seq<u8>, markers: Seq<Marker>, cache: Seq<Segment>) -> Seq<u8> {
    woven_from(text, markers, cache, 0)
}

/// What comes of filling the regions of `text`.
///
/// Regions that do not lie one behind the other end the work. Otherwise the
/// last marker that the cache has no text for decides: the work waits for its
/// markdown file, or ends for want of the segment. Where the cache has a text
/// for every marker, the regions are filled.
pub open spec fn filled(text: Seq<u8>, markers: Seq<Marker>, cache: Seq<Segment>) -> Verdict {
    if !well_placed(markers, text.len() as int) {
        Verdict::Failed(SyncError::BrokenRange)
    } else {
        match last_uncached(markers, cache, markers.len()) {
            Some(k) => refusal(cache, markers[k]),
            None => Verdict::Rewritten(woven(text, markers, cache)),
        }
    }
}

/// What is to be done with the code file `text`, given what the cache holds.
pub open spec fn rewritten(text: Seq<u8>, cache: Seq<Segment>) -> Verdict {
    match code_markers(text) {
        Ok(markers) => if markers.len() == 0 {
            Verdict::Untouched
        } else {
            filled(text, markers, cache)
        },
        Err(e) => Verdict::Failed(e),
    }
}

/// `text` with `with` in the place of the bytes from `from` up to `to`.
pub open spec fn spliced(text: Seq<u8>, from: int, to: int, with: Seq<u8>) -> Seq<u8> {
    text.subrange(0, from) + with + text.subrange(to, text.len() as int)
}

/// Puts `with` in the place of the bytes of `text` from `from` up to `to`.
/// Every byte before `from` and every byte from `to` on stays as it is.
pub fn splice(text: &[u8], from: usize, to: usize, with: &[u8]) -> (out: Vec<u8>)
    requires
        from <= to <= text@.len(),
    ensures
        out@ == spliced(text@, from as int, to as int, with@),
{
    let mut out = copy_bytes(vstd::slice::slice_subrange(text, 0, from));
    append_bytes(&mut out, with);
    append_bytes(&mut out, vstd::slice::slice_subrange(text, to, text.len()));
    out
}

/// Whether the regions lie one behind the other in a text of `len` bytes.
pub fn regions_in_order(markers: &Vec<RsMarker>, len: usize) -> (in_order: bool)
    ensures
        in_order == well_placed(marker_views(markers@), len as int),
{
    let ghost views = marker_views(markers@);
    let mut reached: usize = 0;
    let mut i: usize = 0;
    while i < markers.len()
        invariant
            i <= markers@.len(),
            views == marker_views(markers@),
            reached == gap_start(views, i as int),
            forall|k: int| 0 <= k < i ==> 0 <= (#[trigger] views[k]).pos_start <= views[k].pos_end <= len,
            forall|k: int| 0 <= k < i ==> (#[trigger] views[k]).pos_end <= reached,
            forall|a: int, b: int| 0 <= a < b < i ==> (#[trigger] views[a]).pos_end <= (#[trigger] views[b]).pos_start,
        decreases markers@.len() - i,
    {
        let marker = &markers[i];
        if !(reached <= marker.pos_start && marker.pos_start <= marker.pos_end && marker.pos_end <= len) {
            proof {
                if reached > marker.pos_start {
                    assert(views[i as int - 1].pos_end > views[i as int].pos_start);
                }
            }
            return false;
        }
        reached = marker.pos_end;
        i += 1;
    }
    true
}

/// The untouched bytes before a region and the region itself lie in the text,
/// one behind the other.
proof fn lemma_gap_fits(markers: Seq<Marker>, len: int, k: int)
    requires
        well_placed(markers, len),
        0 <= k < markers.len(),
    ensures
        0 <= gap_start(markers, k) <= markers[k].pos_start <= markers[k].pos_end <= len,
{
}

/// Fills the regions of `text` that `markers` describes with the texts that
/// `cache` has for them.
///
/// The regions are filled from the last to the first, so that the offsets of
/// the markers not yet dealt with stay good while the text grows or shrinks
/// behind them.
pub fn fill_markers(text: &[u8], markers: &Vec<RsMarker>, cache: &Vec<MdSegment>) -> (r: Outcome)
    ensures
        r@ == filled(text@, marker_views(markers@), segment_views(cache@)),
        !well_placed(marker_views(markers@), text@.len() as int) <==> r@ == Verdict::Failed(SyncError::BrokenRange),
        r@ != Verdict::Untouched,
{
    if !regions_in_order(markers, text.len()) {
        return Outcome::Failed(SyncError::BrokenRange);
    }
    let ghost views = marker_views(markers@);
    let ghost held = segment_views(cache@);
    let mut buffer = copy_bytes(text);
    let mut n: usize = markers.len();
    while n > 0
        invariant
            n <= markers@.len(),
            views == marker_views(markers@),
            held == segment_views(cache@),
            well_placed(views, text@.len() as int),
            last_uncached(views, held, markers@.len() as nat) == last_uncached(views, held, n as nat),
            buffer@ == text@.subrange(0, gap_start(views, n as int)) + woven_from(text@, views, held, n as int),
        decreases n,
    {
        let marker = &markers[n - 1];
        if !cache_holds_file(cache, marker.md_filename.as_slice()) {
            return Outcome::NeedsMarkdown {
                md_filename: copy_bytes(marker.md_filename.as_slice()),
                marker_name: copy_bytes(marker.marker_name.as_slice()),
                comment_symbol: copy_bytes(marker.comment_symbol.as_slice()),
            };
        }
        match cached_segment_text(cache, marker.md_filename.as_slice(), marker.marker_name.as_slice()) {
            Ok(with) => {
                proof {
                    lemma_gap_fits(views, text@.len() as int, n - 1);
                    assert(spliced(buffer@, marker.pos_start as int, marker.pos_end as int, with@)
                        =~= text@.subrange(0, gap_start(views, n - 1)) + woven_from(text@, views, held, n - 1));
                }
                buffer = splice(buffer.as_slice(), marker.pos_start, marker.pos_end, with.as_slice());
            },
            Err(e) => {
                return Outcome::Failed(e);
            },
        }
        n -= 1;
    }
    Outcome::Rewritten(buffer)
}

/// Says what is to be done with a code file.
///
/// The markers are searched. A file without markers stays untouched. In any
/// other file the regions are filled from the cache. Nothing is read and
/// nothing is written here: the outcome says what the caller has to do.
pub fn rewrite_code_file(rs_text_content: &[u8], cache: &Vec<MdSegment>) -> (r: Outcome)
    ensures
        r@ == rewritten(rs_text_content@, segment_views(cache@)),
        code_markers(rs_text_content@) matches Ok(markers) ==> (markers.len() == 0 <==> r@ == Verdict::Untouched),
        code_markers(rs_text_content@) matches Err(e) ==> r@ == Verdict::Failed(e),
{
    match rs_file_markers(rs_text_content) {
        Ok(markers) => {
            if markers.len() == 0 {
                Outcome::Untouched
            } else {
                fill_markers(rs_text_content, &markers, cache)
            }
        },
        Err(e) => Outcome::Failed(e),
    }
}

/// By how many bytes the first `k` regions grow when they are filled.
pub open spec fn growth(markers: Seq<Marker>, cache: Seq<Segment>, k: int) -> int
    decreases k,
{
    if k <= 0 || k > markers.len() {
        0
    } else {
        growth(markers, cache, k - 1) + replacement(cache, markers[k - 1]).len() - (markers[k - 1].pos_end
            - markers[k - 1].pos_start)
    }
}

/// The markers of the filled text: each region has moved by the growth of the
/// regions before it, and is as long as the text of its segment.
pub open spec fn relocated(markers: Seq<Marker>, cache: Seq<Segment>) -> Seq<Marker> {
    Seq::new(
        markers.len(),
        |i: int|
            Marker {
                pos_start: markers[i].pos_start + growth(markers, cache, i),
                pos_end: markers[i].pos_start + growth(markers, cache, i) + replacement(cache, markers[i]).len(),
                ..markers[i]
            },
    )
}

/// The untouched bytes before a region move by the growth of the regions
/// before them.
proof fn lemma_moved_gap(markers: Seq<Marker>, cache: Seq<Segment>, k: int)
    requires
        0 <= k <= markers.len(),
    ensures
        gap_start(relocated(markers, cache), k) == gap_start(markers, k) + growth(markers, cache, k),
{
}

/// The filled text, from where the untouched bytes before region `k` have
/// moved to, is the weave from region `k` on.
proof fn lemma_woven_tail(text: Seq<u8>, markers: Seq<Marker>, cache: Seq<Segment>, k: int)
    requires
        well_placed(markers, text.len() as int),
        0 <= k <= markers.len(),
    ensures
        0 <= gap_start(markers, k) + growth(markers, cache, k) <= woven(text, markers, cache).len(),
        woven(text, markers, cache).subrange(
            gap_start(markers, k) + growth(markers, cache, k),
            woven(text, markers, cache).len() as int,
        ) == woven_from(text, markers, cache, k),
    decreases k,
{
    let out = woven(text, markers, cache);
    if k > 0 {
        lemma_woven_tail(text, markers, cache, k - 1);
        lemma_gap_fits(markers, text.len() as int, k - 1);
        let at = gap_start(markers, k - 1) + growth(markers, cache, k - 1);
        let gap = text.subrange(gap_start(markers, k - 1), markers[k - 1].pos_start);
        let with = replacement(cache, markers[k - 1]);
        let tail = woven_from(text, markers, cache, k - 1);
        assert(out.subrange(at + gap.len() + with.len(), out.len() as int) =~= tail.subrange(
            (gap.len() + with.len()) as int,
            tail.len() as int,
        ));
        assert(tail.subrange((gap.len() + with.len()) as int, tail.len() as int) =~= woven_from(
            text,
            markers,
            cache,
            k,
        ));
    }
}

/// Later regions stand further behind in the filled text.
proof fn lemma_gap_grows(text: Seq<u8>, markers: Seq<Marker>, cache: Seq<Segment>, i: int, j: int)
    requires
        well_placed(markers, text.len() as int),
        0 <= i <= j <= markers.len(),
    ensures
        gap_start(markers, i) + growth(markers, cache, i) <= gap_start(markers, j) + growth(markers, cache, j),
    decreases j - i,
{
    if i < j {
        lemma_gap_grows(text, markers, cache, i, j - 1);
        lemma_gap_fits(markers, text.len() as int, j - 1);
    }
}

/// Filling preserves everything outside the regions.
///
/// Let the regions lie one behind the other. In the filled text every region
/// stands where `relocated` says and holds the text of its segment. The bytes
/// between two regions, those before the first region and those behind the
/// last one stand in the filled text as they stood in the text, byte for
/// byte, moved by the growth of the regions before them. The filled text holds
/// nothing else.
pub proof fn lemma_filling_keeps_surroundings(text: Seq<u8>, markers: Seq<Marker>, cache: Seq<Segment>)
    requires
        well_placed(markers, text.len() as int),
    ensures
        well_placed(relocated(markers, cache), woven(text, markers, cache).len() as int),
        woven(text, markers, cache).len() == text.len() + growth(markers, cache, markers.len() as int),
        forall|k: int|
            0 <= k < markers.len() ==> woven(text, markers, cache).subrange(
                (#[trigger] relocated(markers, cache)[k]).pos_start,
                relocated(markers, cache)[k].pos_end,
            ) == replacement(cache, markers[k]),
        forall|k: int|
            0 <= k < markers.len() ==> woven(text, markers, cache).subrange(
                gap_start(relocated(markers, cache), k),
                (#[trigger] relocated(markers, cache)[k]).pos_start,
            ) == text.subrange(gap_start(markers, k), markers[k].pos_start),
        woven(text, markers, cache).subrange(
            gap_start(relocated(markers, cache), markers.len() as int),
            woven(text, markers, cache).len() as int,
        ) == text.subrange(gap_start(markers, markers.len() as int), text.len() as int),
{
    let out = woven(text, markers, cache);
    let again = relocated(markers, cache);
    let n = markers.len() as int;
    assert forall|k: int| 0 <= k < n implies {
        &&& 0 <= (#[trigger] again[k]).pos_start <= again[k].pos_end <= out.len()
        &&& out.subrange(again[k].pos_start, again[k].pos_end) == replacement(cache, markers[k])
        &&& out.subrange(gap_start(again, k), again[k].pos_start) == text.subrange(
            gap_start(markers, k),
            markers[k].pos_start,
        )
    } by {
        lemma_woven_tail(text, markers, cache, k);
        lemma_woven_tail(text, markers, cache, k + 1);
        lemma_gap_fits(markers, text.len() as int, k);
        lemma_moved_gap(markers, cache, k);
        let at = gap_start(markers, k) + growth(markers, cache, k);
        let gap = text.subrange(gap_start(markers, k), markers[k].pos_start);
        let with = replacement(cache, markers[k]);
        let tail = woven_from(text, markers, cache, k);
        assert(out.subrange(at + gap.len(), at + gap.len() + with.len()) =~= tail.subrange(
            gap.len() as int,
            (gap.len() + with.len()) as int,
        ));
    }
    assert forall|i: int, j: int| 0 <= i < j < again.len() implies (#[trigger] again[i]).pos_end <= (
    #[trigger] again[j]).pos_start by {
        lemma_gap_grows(text, markers, cache, i + 1, j);
        lemma_gap_fits(markers, text.len() as int, j);
    }
    lemma_woven_tail(text, markers, cache, n);
    lemma_moved_gap(markers, cache, n);
    if n > 0 {
        lemma_gap_fits(markers, text.len() as int, n - 1);
    }
    assert(woven_from(text, markers, cache, n).len() == text.len() - gap_start(markers, n));
}

/// The weave of the filled text over the moved regions is the weave of the
/// text over the regions.
proof fn lemma_woven_again(text: Seq<u8>, markers: Seq<Marker>, cache: Seq<Segment>, k: int)
    requires
        well_placed(markers, text.len() as int),
        0 <= k <= markers.len(),
    ensures
        woven_from(woven(text, markers, cache), relocated(markers, cache), cache, k) == woven_from(
            text,
            markers,
            cache,
            k,
        ),
    decreases markers.len() - k,
{
    lemma_filling_keeps_surroundings(text, markers, cache);
    lemma_woven_tail(text, markers, cache, k);
    lemma_moved_gap(markers, cache, k);
    if k < markers.len() {
        lemma_woven_again(text, markers, cache, k + 1);
    }
}

/// Where the cache has a text for every marker, no marker is without one.
proof fn lemma_all_cached(markers: Seq<Marker>, cache: Seq<Segment>, n: nat)
    requires
        all_cached(markers, cache),
    ensures
        last_uncached(markers, cache, n) is None,
    decreases n,
{
    if n > 0 && n <= markers.len() {
        lemma_all_cached(markers, cache, (n - 1) as nat);
    }
}

/// Filling a filled text again changes nothing.
///
/// Let the regions lie one behind the other and the cache have a text for
/// each. The text is then filled. In the filled text the regions stand where
/// `relocated` says, and filling them from the same cache gives the filled
/// text back, byte for byte.
pub proof fn lemma_second_filling_changes_nothing(text: Seq<u8>, markers: Seq<Marker>, cache: Seq<Segment>)
    requires
        well_placed(markers, text.len() as int),
        all_cached(markers, cache),
    ensures
        filled(text, markers, cache) == Verdict::Rewritten(woven(text, markers, cache)),
        filled(woven(text, markers, cache), relocated(markers, cache), cache) == Verdict::Rewritten(
            woven(text, markers, cache),
        ),
{
    let again = relocated(markers, cache);
    lemma_all_cached(markers, cache, markers.len());
    lemma_filling_keeps_surroundings(text, markers, cache);
    assert(all_cached(again, cache));
    lemma_all_cached(again, cache, again.len());
    lemma_woven_again(text, markers, cache, 0);
}

/// A second run writes what the first run wrote.
///
/// Let the markers of a code file lie one behind the other and the cache have
/// a text for each. Then the file is rewritten to the weave of its untouched
/// bytes and those texts. If the search finds in the new text the markers of
/// the file, each where its region has moved to, then rewriting the new text
/// gives the new text again, byte for byte.
pub proof fn lemma_second_run_writes_the_same(text: Seq<u8>, markers: Seq<Marker>, cache: Seq<Segment>)
    requires
        code_markers(text) == Ok::<Seq<Marker>, SyncError>(markers),
        markers.len() > 0,
        well_placed(markers, text.len() as int),
        all_cached(markers, cache),
        code_markers(woven(text, markers, cache)) == Ok::<Seq<Marker>, SyncError>(relocated(markers, cache)),
    ensures
        rewritten(text, cache) == Verdict::Rewritten(woven(text, markers, cache)),
        rewritten(woven(text, markers, cache), cache) == Verdict::Rewritten(woven(text, markers, cache)),
{
    lemma_second_filling_changes_nothing(text, markers, cache);
}

} // verus!
