//! The cache of segments: every markdown file is read and taken apart once.

use vstd::prelude::*;
use crate::error::SyncError;
use crate::segments::{
    find_segment, first_segment, lemma_first_segment_from, md_file_segments, md_segments, segment_views, text_view,
    MdSegment, Segment,
};
use crate::text::{copy_bytes, same_bytes};

verus! {

/// Whether the cache holds a segment of that file: the file has been read,
/// and is not read again.
pub open spec fn holds_file(cache: Seq<Segment>, md_filename: Seq<u8>) -> bool {
    exists|i: int| 0 <= i < cache.len() && (#[trigger] cache[i]).md_filename == md_filename
}

/// The text that the cache has for that segment of that file.
pub open spec fn cached_text(cache: Seq<Segment>, md_filename: Seq<u8>, marker_name: Seq<u8>) -> Result<
    Seq<u8>,
    SyncError,
> {
    match first_segment(cache, md_filename, marker_name) {
        Some(i) => Ok(cache[i].text),
        None => Err(SyncError::SegmentNotFound),
    }
}

/// The cache after a request for a segment. A file that the cache holds is
/// not looked at again. Any other is taken apart with the comment symbol of
/// this request, and its segments stand behind those that the cache held; a
/// file that cannot be taken apart leaves the cache as it was.
pub open spec fn cache_after(cache: Seq<Segment>, md_filename: Seq<u8>, md_text: Seq<u8>, symbol: Seq<u8>) -> Seq<
    Segment,
> {
    if holds_file(cache, md_filename) {
        cache
    } else {
        match md_segments(md_filename, md_text, symbol) {
            Ok(segments) => cache + segments,
            Err(_) => cache,
        }
    }
}

/// The answer to a request for a segment: the text that the cache has for
/// it once the file is known, or the reason why there is none.
pub open spec fn resolved_text(
    cache: Seq<Segment>,
    md_filename: Seq<u8>,
    marker_name: Seq<u8>,
    symbol: Seq<u8>,
    md_text: Seq<u8>,
) -> Result<Seq<u8>, SyncError> {
    if holds_file(cache, md_filename) {
        cached_text(cache, md_filename, marker_name)
    } else {
        match md_segments(md_filename, md_text, symbol) {
            Ok(segments) => cached_text(cache + segments, md_filename, marker_name),
            Err(e) => Err(e),
        }
    }
}

/// The cache keeps the comment symbol that it saw first.
///
/// Once a request for a segment of a file has been answered, the cache holds
/// the file. Every later request for that segment gets the same text,
/// whatever comment symbol and whatever file content come with it, and leaves
/// the cache as it is.
pub proof fn lemma_first_symbol_stays(
    cache: Seq<Segment>,
    md_filename: Seq<u8>,
    marker_name: Seq<u8>,
    symbol: Seq<u8>,
    md_text: Seq<u8>,
    later_symbol: Seq<u8>,
    later_text: Seq<u8>,
)
    requires
        resolved_text(cache, md_filename, marker_name, symbol, md_text) is Ok,
    ensures
        holds_file(cache_after(cache, md_filename, md_text, symbol), md_filename),
        cache_after(cache_after(cache, md_filename, md_text, symbol), md_filename, later_text, later_symbol)
            == cache_after(cache, md_filename, md_text, symbol),
        resolved_text(
            cache_after(cache, md_filename, md_text, symbol),
            md_filename,
            marker_name,
            later_symbol,
            later_text,
        ) == resolved_text(cache, md_filename, marker_name, symbol, md_text),
{
    // the segment that answered the request lies in the file
    lemma_first_segment_from(cache_after(cache, md_filename, md_text, symbol), md_filename, marker_name, 0);
}

/// Whether the cache holds a segment of that file.
pub fn cache_holds_file(cache: &Vec<MdSegment>, md_filename: &[u8]) -> (held: bool)
    ensures
        held == holds_file(segment_views(cache@), md_filename@),
{
    let ghost views = segment_views(cache@);
    let mut i: usize = 0;
    while i < cache.len()
        invariant
            i <= cache@.len(),
            views == segment_views(cache@),
            forall|k: int| 0 <= k < i ==> (#[trigger] views[k]).md_filename != md_filename@,
        decreases cache@.len() - i,
    {
        assert(views[i as int] == cache@[i as int]@);
        if same_bytes(cache[i].md_filename.as_slice(), md_filename) {
            return true;
        }
        i += 1;
    }
    false
}

/// The text that the cache has for that segment of that file.
pub fn cached_segment_text(cache: &Vec<MdSegment>, md_filename: &[u8], marker_name: &[u8]) -> (r: Result<
    Vec<u8>,
    SyncError,
>)
    ensures
        text_view(r) == cached_text(segment_views(cache@), md_filename@, marker_name@),
{
    match find_segment(cache, md_filename, marker_name) {
        Some(i) => Ok(copy_bytes(cache[i].text.as_slice())),
        None => Err(SyncError::SegmentNotFound),
    }
}

/// Answers a request for a segment of a markdown file.
///
/// Where the cache holds a segment of the file, the answer comes from the
/// cache, and neither `md_text_content` nor `comment_symbol` is looked at: the
/// text stands behind the comment symbol of the request that had the file
/// read. Otherwise `md_text_content`, the content of the file, is taken apart
/// with `comment_symbol`, all its segments go into the cache, and the answer
/// comes from there.
pub fn get_md_segments_using_cache(
    cache: &mut Vec<MdSegment>,
    md_filename: &[u8],
    marker_name: &[u8],
    comment_symbol: &[u8],
    md_text_content: &[u8],
) -> (r: Result<Vec<u8>, SyncError>)
    ensures
        segment_views(final(cache)@) == cache_after(
            segment_views(old(cache)@),
            md_filename@,
            md_text_content@,
            comment_symbol@,
        ),
        text_view(r) == resolved_text(
            segment_views(old(cache)@),
            md_filename@,
            marker_name@,
            comment_symbol@,
            md_text_content@,
        ),
        r is Ok ==> holds_file(segment_views(final(cache)@), md_filename@),
{
    proof {
        if resolved_text(segment_views(cache@), md_filename@, marker_name@, comment_symbol@, md_text_content@) is Ok {
            lemma_first_symbol_stays(
                segment_views(cache@),
                md_filename@,
                marker_name@,
                comment_symbol@,
                md_text_content@,
                comment_symbol@,
                md_text_content@,
            );
        }
    }
    if !cache_holds_file(cache, md_filename) {
        let ghost before = segment_views(cache@);
        match md_file_segments(md_filename, md_text_content, comment_symbol) {
            Ok(segments) => {
                let mut segments = segments;
                let ghost added = segment_views(segments@);
                cache.append(&mut segments);
                assert(segment_views(cache@) =~= before + added);
            },
            Err(e) => {
                return Err(e);
            },
        }
    }
    cached_segment_text(cache, md_filename, marker_name)
}

} // verus!
