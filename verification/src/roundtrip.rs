//! What holds between embedding and extraction.

use crate::embed::{
    carrier_segments, embedded, first_occurrence, framed, frames, lemma_first_occurrence,
    lemma_first_occurrence_is, lemma_first_occurrence_none, lemma_occurs_at_bounds,
    lemma_occurs_at_byte, lemma_occurs_at_intro, mark_end, mark_start, occurs_at, segments_from,
};
use vstd::prelude::*;

verus! {

/// The first opening marker that a scan of `base` followed by an opening
/// marker meets is that marker: the base holds no opening marker, and does
/// not end in a piece of one that the embedded marker would complete.
pub open spec fn clean_base(base: Seq<u8>) -> bool {
    forall|j: int|
        0 <= j < base.len() ==> !#[trigger] occurs_at(base + mark_start(), mark_start(), j)
}

/// The first closing marker that a scan of `segment` followed by a closing
/// marker meets is that marker: the segment holds no closing marker, and does
/// not end in a piece of one that the embedded marker would complete.
pub open spec fn delimitable(segment: Seq<u8>) -> bool {
    forall|j: int|
        0 <= j < segment.len() ==> !#[trigger] occurs_at(segment + mark_end(), mark_end(), j)
}

/// `pat` stands somewhere in `buf`.
pub open spec fn contains(buf: Seq<u8>, pat: Seq<u8>) -> bool {
    exists|at: int| occurs_at(buf, pat, at)
}

/// `buf` ends in `tail`.
pub open spec fn ends_with(buf: Seq<u8>, tail: Seq<u8>) -> bool {
    tail.len() <= buf.len() && occurs_at(buf, tail, buf.len() - tail.len())
}

/// A marker of this codec: it begins and ends with the same byte twice, and
/// holds that byte nowhere else.
pub open spec fn dashed(marker: Seq<u8>) -> bool {
    &&& marker.len() >= 5
    &&& marker[1] == marker[0]
    &&& marker[marker.len() - 2] == marker[0]
    &&& marker[marker.len() - 1] == marker[0]
    &&& forall|k: int| 2 <= k < marker.len() - 2 ==> #[trigger] marker[k] != marker[0]
}

/// A buffer that ends in all of a dashed marker but its last one or two
/// bytes is completed to the marker by a marker that follows it.
proof fn lemma_partial_marker_completed(buf: Seq<u8>, marker: Seq<u8>, missing: int)
    requires
        dashed(marker),
        1 <= missing <= 2,
        ends_with(buf, marker.take(marker.len() - missing)),
    ensures
        occurs_at(buf + marker, marker, buf.len() - (marker.len() - missing)),
        buf.len() - (marker.len() - missing) < buf.len(),
{
    reveal(occurs_at);
    let part = marker.take(marker.len() - missing);
    let at = buf.len() - part.len();
    assert forall|t: int| 0 <= t < marker.len() implies (buf + marker).subrange(
        at,
        at + marker.len(),
    )[t] == marker[t] by {
        if t < part.len() {
            assert(buf.subrange(at, at + part.len())[t] == part[t]);
        }
    }
    assert((buf + marker).subrange(at, at + marker.len()) =~= marker);
}

/// A dashed marker that stands across the end of a buffer and a marker that
/// follows it stands with all but its last one or two bytes in the buffer.
proof fn lemma_overlap_is_partial_marker(buf: Seq<u8>, marker: Seq<u8>, at: int)
    requires
        dashed(marker),
        occurs_at(buf + marker, marker, at),
        at < buf.len() < at + marker.len(),
    ensures
        ends_with(buf, marker.take(marker.len() - 1)) || ends_with(
            buf,
            marker.take(marker.len() - 2),
        ),
{
    let inside = buf.len() - at;
    let size = marker.len() as int;
    lemma_occurs_at_bounds(buf + marker, marker, at);
    if inside >= size - 2 {
        let part = marker.take(inside);
        assert forall|t: int| 0 <= t < inside implies buf.subrange(at, buf.len() as int)[t]
            == part[t] by {
            lemma_occurs_at_byte(buf + marker, marker, at, t);
        }
        assert(buf.subrange(at, at + part.len()) =~= part);
        lemma_occurs_at_intro(buf, part, at);
    } else {
        let t = if inside == 1 {
            2
        } else {
            inside
        };
        lemma_occurs_at_byte(buf + marker, marker, at, t);
        assert((buf + marker)[at + t] == marker[t - inside]);
    }
}

/// What it takes for the marker behind a buffer to be the first that a scan
/// meets: the buffer holds no marker, and does not end in all of a marker but
/// its last one or two bytes.
pub proof fn lemma_first_marker_is_appended(buf: Seq<u8>, marker: Seq<u8>)
    requires
        dashed(marker),
    ensures
        (forall|j: int|
            0 <= j < buf.len() ==> !#[trigger] occurs_at(buf + marker, marker, j)) <==> {
            &&& !contains(buf, marker)
            &&& !ends_with(buf, marker.take(marker.len() - 1))
            &&& !ends_with(buf, marker.take(marker.len() - 2))
        },
{
    let joined = buf + marker;
    assert(joined.subrange(0, buf.len() as int) =~= buf);
    if contains(buf, marker) {
        let at = choose|at: int| occurs_at(buf, marker, at);
        lemma_occurs_at_bounds(buf, marker, at);
        lemma_occurs_in_window(joined, buf, 0, marker, at);
    }
    if ends_with(buf, marker.take(marker.len() - 1)) {
        lemma_partial_marker_completed(buf, marker, 1);
    }
    if ends_with(buf, marker.take(marker.len() - 2)) {
        lemma_partial_marker_completed(buf, marker, 2);
    }
    if exists|j: int| 0 <= j < buf.len() && occurs_at(joined, marker, j) {
        let j = choose|j: int| 0 <= j < buf.len() && occurs_at(joined, marker, j);
        if j + marker.len() <= buf.len() {
            lemma_occurs_in_window(joined, buf, 0, marker, j);
        } else {
            lemma_overlap_is_partial_marker(buf, marker, j);
        }
    }
}

/// The two markers are dashed.
pub proof fn lemma_markers_dashed()
    ensures
        dashed(mark_start()),
        dashed(mark_end()),
{
}

/// A base is clean exactly if it holds no opening marker and does not end in
/// `--EMBED_START` or `--EMBED_START-`.
pub proof fn lemma_clean_base_means(base: Seq<u8>)
    ensures
        clean_base(base) <==> {
            &&& !contains(base, mark_start())
            &&& !ends_with(base, mark_start().take(14))
            &&& !ends_with(base, mark_start().take(13))
        },
{
    lemma_markers_dashed();
    lemma_first_marker_is_appended(base, mark_start());
}

/// A segment is delimitable exactly if it holds no closing marker and does
/// not end in `--EMBED_END` or `--EMBED_END-`.
pub proof fn lemma_delimitable_means(segment: Seq<u8>)
    ensures
        delimitable(segment) <==> {
            &&& !contains(segment, mark_end())
            &&& !ends_with(segment, mark_end().take(12))
            &&& !ends_with(segment, mark_end().take(11))
        },
{
    lemma_markers_dashed();
    lemma_first_marker_is_appended(segment, mark_end());
}

/// The frames of a list are the frame of its first segment, then the frames
/// of the others.
pub proof fn lemma_frames_first(segments: Seq<Seq<u8>>)
    requires
        segments.len() > 0,
    ensures
        frames(segments) == framed(segments[0]) + frames(segments.drop_first()),
    decreases segments.len(),
{
    if segments.len() == 1 {
        assert(segments.drop_last() =~= Seq::empty());
        assert(segments.drop_first() =~= Seq::empty());
        assert(frames(segments) =~= framed(segments[0]) + frames(segments.drop_first()));
    } else {
        lemma_frames_first(segments.drop_last());
        assert(segments.drop_last().drop_first() =~= segments.drop_first().drop_last());
        assert(segments.drop_first().last() == segments.last());
        assert(segments.drop_last()[0] == segments[0]);
        assert(frames(segments) =~= framed(segments[0]) + frames(segments.drop_first()));
    }
}

/// A pattern stands in a buffer at an index inside a window of it exactly
/// where it stands in the window, as long as it fits in the window.
pub proof fn lemma_occurs_in_window(
    buf: Seq<u8>,
    window: Seq<u8>,
    offset: int,
    pat: Seq<u8>,
    at: int,
)
    requires
        0 <= offset,
        offset + window.len() <= buf.len(),
        buf.subrange(offset, offset + window.len()) == window,
        offset <= at,
        at + pat.len() <= offset + window.len(),
    ensures
        occurs_at(buf, pat, at) == occurs_at(window, pat, at - offset),
{
    reveal(occurs_at);
    assert(buf.subrange(at, at + pat.len()) =~= window.subrange(
        at - offset,
        at - offset + pat.len(),
    ));
}

/// In a buffer made of `pre`, one framed segment and `tail`, a scan from the
/// end of `pre` meets the opening marker at once, and the segment's own
/// closing marker as the first one behind it.
pub proof fn lemma_scan_one_frame(pre: Seq<u8>, segment: Seq<u8>, tail: Seq<u8>)
    requires
        delimitable(segment),
    ensures
        ({
            let buf = pre + framed(segment) + tail;
            let body = (pre.len() + mark_start().len()) as int;
            let close = body + segment.len();
            &&& first_occurrence(buf, mark_start(), pre.len() as int) == Some(pre.len() as int)
            &&& first_occurrence(buf, mark_end(), body) == Some(close)
            &&& buf.subrange(body, close) == segment
            &&& close + mark_end().len() == (pre + framed(segment)).len()
        }),
{
    let open = mark_start();
    let shut = mark_end();
    let buf = pre + framed(segment) + tail;
    let pos = pre.len() as int;
    let body = pos + open.len();
    let close = body + segment.len();
    assert(occurs_at(buf, open, pos)) by {
        assert(buf.subrange(pos, body) =~= open);
        lemma_occurs_at_intro(buf, open, pos);
    }
    assert(occurs_at(buf, shut, close)) by {
        assert(buf.subrange(close, close + shut.len()) =~= shut);
        lemma_occurs_at_intro(buf, shut, close);
    }
    let window = segment + shut;
    assert(buf.subrange(body, body + window.len()) =~= window);
    assert forall|j: int| body <= j < close implies !occurs_at(buf, shut, j) by {
        lemma_occurs_in_window(buf, window, body, shut, j);
    }
    lemma_first_occurrence_is(buf, shut, body, close);
    assert(buf.subrange(body, close) =~= segment);
}

/// A scan that starts right behind `pre` finds the framed segments that
/// follow it, each as it was framed.
pub proof fn lemma_scan_frames(pre: Seq<u8>, segments: Seq<Seq<u8>>)
    requires
        forall|i: int| 0 <= i < segments.len() ==> delimitable(#[trigger] segments[i]),
    ensures
        segments_from(pre + frames(segments), pre.len() as int) == segments,
    decreases segments.len(),
{
    let buf = pre + frames(segments);
    let pos = pre.len() as int;
    if segments.len() == 0 {
        assert(first_occurrence(buf, mark_start(), pos) is None);
        assert(segments_from(buf, pos) =~= segments);
    } else {
        let first = segments[0];
        let rest = segments.drop_first();
        lemma_frames_first(segments);
        let next = pre + framed(first);
        assert(buf =~= next + frames(rest));
        lemma_scan_one_frame(pre, first, frames(rest));
        assert forall|i: int| 0 <= i < rest.len() implies delimitable(#[trigger] rest[i]) by {
            assert(rest[i] == segments[i + 1]);
        }
        lemma_scan_frames(next, rest);
        assert(segments_from(buf, pos) == seq![first] + segments_from(buf, next.len() as int));
        assert(seq![first] + rest =~= segments);
    }
}

/// A scan of a carrier with a clean base meets nothing before the end of
/// the base.
pub proof fn lemma_scan_clean_base(base: Seq<u8>, segments: Seq<Seq<u8>>)
    requires
        clean_base(base),
    ensures
        carrier_segments(embedded(base, segments)) == segments_from(
            embedded(base, segments),
            base.len() as int,
        ),
{
    let buf = embedded(base, segments);
    let pos = base.len() as int;
    if segments.len() == 0 {
        assert(buf =~= base);
        assert forall|j: int| 0 <= j implies !occurs_at(buf, mark_start(), j) by {
            if occurs_at(buf, mark_start(), j) {
                lemma_occurs_at_bounds(buf, mark_start(), j);
                assert((base + mark_start()).subrange(0, buf.len() as int) =~= buf);
                lemma_occurs_in_window(base + mark_start(), buf, 0, mark_start(), j);
            }
        }
        lemma_first_occurrence_none(buf, mark_start(), 0);
        lemma_first_occurrence_none(buf, mark_start(), pos);
    } else {
        lemma_frames_first(segments);
        let window = base + mark_start();
        assert(buf.subrange(0, window.len() as int) =~= window);
        assert(occurs_at(buf, mark_start(), pos)) by {
            assert(buf.subrange(pos, pos + mark_start().len()) =~= mark_start());
            lemma_occurs_at_intro(buf, mark_start(), pos);
        }
        assert forall|j: int| 0 <= j < pos implies !occurs_at(buf, mark_start(), j) by {
            lemma_occurs_in_window(buf, window, 0, mark_start(), j);
        }
        lemma_first_occurrence_is(buf, mark_start(), 0, pos);
        assert(first_occurrence(buf, mark_start(), pos) == Some(pos));
    }
}

/// Extraction undoes embedding: the segments of a carrier built from a clean
/// base and delimitable segments are those segments, in their order.
pub proof fn lemma_extract_embedded(base: Seq<u8>, segments: Seq<Seq<u8>>)
    requires
        clean_base(base),
        forall|i: int| 0 <= i < segments.len() ==> delimitable(#[trigger] segments[i]),
    ensures
        carrier_segments(embedded(base, segments)) == segments,
{
    lemma_scan_clean_base(base, segments);
    lemma_scan_frames(base, segments);
}

/// In a buffer made of `pre`, one framed segment that is not delimitable and
/// `tail`, a scan from the end of `pre` captures less than the segment.
pub proof fn lemma_scan_cut_frame(pre: Seq<u8>, segment: Seq<u8>, tail: Seq<u8>)
    requires
        !delimitable(segment),
    ensures
        ({
            let found = segments_from(pre + framed(segment) + tail, pre.len() as int);
            found.len() > 0 && found[0].len() < segment.len()
        }),
{
    let open = mark_start();
    let shut = mark_end();
    let buf = pre + framed(segment) + tail;
    let pos = pre.len() as int;
    let body = pos + open.len();
    assert(first_occurrence(buf, open, pos) == Some(pos)) by {
        assert(buf.subrange(pos, body) =~= open);
        lemma_occurs_at_intro(buf, open, pos);
    }
    let window = segment + shut;
    let j = choose|j: int| 0 <= j < segment.len() && occurs_at(window, shut, j);
    assert(occurs_at(buf, shut, body + j)) by {
        lemma_occurs_at_bounds(window, shut, j);
        assert(buf.subrange(body, body + window.len()) =~= window);
        lemma_occurs_in_window(buf, window, body, shut, body + j);
    }
    lemma_first_occurrence(buf, shut, body);
}

/// A scan that starts right behind `pre` does not find the framed segments
/// that follow it if one of them is not delimitable and those before it are.
pub proof fn lemma_scan_cut_frames(pre: Seq<u8>, segments: Seq<Seq<u8>>, cut: int)
    requires
        0 <= cut < segments.len(),
        forall|i: int| 0 <= i < cut ==> delimitable(#[trigger] segments[i]),
        !delimitable(segments[cut]),
    ensures
        segments_from(pre + frames(segments), pre.len() as int) != segments,
    decreases cut,
{
    let buf = pre + frames(segments);
    let pos = pre.len() as int;
    let first = segments[0];
    let rest = segments.drop_first();
    lemma_frames_first(segments);
    let next = pre + framed(first);
    assert(buf =~= next + frames(rest));
    if cut == 0 {
        lemma_scan_cut_frame(pre, first, frames(rest));
    } else {
        lemma_scan_one_frame(pre, first, frames(rest));
        assert forall|i: int| 0 <= i < cut - 1 implies delimitable(#[trigger] rest[i]) by {
            assert(rest[i] == segments[i + 1]);
        }
        assert(rest[cut - 1] == segments[cut]);
        lemma_scan_cut_frames(next, rest, cut - 1);
        let found = segments_from(buf, next.len() as int);
        assert(segments_from(buf, pos) == seq![first] + found);
        if seq![first] + found == segments {
            assert((seq![first] + found).drop_first() =~= found);
        }
    }
}

/// Extraction does not undo embedding where a segment is not delimitable:
/// the first such segment comes back cut short.
pub proof fn lemma_extract_embedded_cut(base: Seq<u8>, segments: Seq<Seq<u8>>, cut: int)
    requires
        clean_base(base),
        0 <= cut < segments.len(),
        forall|i: int| 0 <= i < cut ==> delimitable(#[trigger] segments[i]),
        !delimitable(segments[cut]),
    ensures
        carrier_segments(embedded(base, segments)) != segments,
{
    lemma_scan_clean_base(base, segments);
    lemma_scan_cut_frames(base, segments, cut);
}

/// A carrier in which no closing marker follows an opening marker holds no
/// segment.
pub proof fn lemma_unterminated_is_empty(buf: Seq<u8>)
    requires
        forall|start: int, end: int|
            occurs_at(buf, mark_start(), start) && start + mark_start().len() <= end
                ==> !occurs_at(buf, mark_end(), end),
    ensures
        carrier_segments(buf) == Seq::<Seq<u8>>::empty(),
{
    lemma_first_occurrence(buf, mark_start(), 0);
    if let Some(start) = first_occurrence(buf, mark_start(), 0) {
        lemma_first_occurrence(buf, mark_end(), start + mark_start().len());
    }
}

} // verus!
