//! The carrier framing codec: segments appended to a base image between two
//! fixed markers, and the scanner that finds them again.

use vstd::prelude::*;
use vstd::slice::{slice_subrange, slice_to_vec};

verus! {

/// Marker that opens an embedded segment: the ASCII text `--EMBED_START--`.
pub const MAGIC_HEADER: [u8; 15] = [45, 45, 69, 77, 66, 69, 68, 95, 83, 84, 65, 82, 84, 45, 45];

/// Marker that closes an embedded segment: the ASCII text `--EMBED_END--`.
pub const MAGIC_FOOTER: [u8; 13] = [45, 45, 69, 77, 66, 69, 68, 95, 69, 78, 68, 45, 45];

/// The opening marker as a sequence of bytes.
pub open spec fn mark_start() -> Seq<u8> {
    MAGIC_HEADER@
}

/// The closing marker as a sequence of bytes.
pub open spec fn mark_end() -> Seq<u8> {
    MAGIC_FOOTER@
}

/// `pat` stands in `buf` at index `at`.
#[verifier::opaque]
pub open spec fn occurs_at(buf: Seq<u8>, pat: Seq<u8>, at: int) -> bool {
    &&& 0 <= at
    &&& at + pat.len() <= buf.len()
    &&& buf.subrange(at, at + pat.len()) == pat
}

/// Bytes of `buf` from `at` on that are those of `pat` make an occurrence.
pub proof fn lemma_occurs_at_intro(buf: Seq<u8>, pat: Seq<u8>, at: int)
    requires
        0 <= at,
        at + pat.len() <= buf.len(),
        buf.subrange(at, at + pat.len()) == pat,
    ensures
        occurs_at(buf, pat, at),
{
    reveal(occurs_at);
}

/// An occurrence lies inside the buffer, and holds each byte of the pattern
/// in its place.
pub proof fn lemma_occurs_at_byte(buf: Seq<u8>, pat: Seq<u8>, at: int, k: int)
    requires
        occurs_at(buf, pat, at),
        0 <= k < pat.len(),
    ensures
        0 <= at,
        at + pat.len() <= buf.len(),
        buf[at + k] == pat[k],
{
    reveal(occurs_at);
    assert(buf.subrange(at, at + pat.len())[k] == pat[k]);
}

/// An occurrence lies inside the buffer.
pub proof fn lemma_occurs_at_bounds(buf: Seq<u8>, pat: Seq<u8>, at: int)
    requires
        occurs_at(buf, pat, at),
    ensures
        0 <= at,
        at + pat.len() <= buf.len(),
{
    reveal(occurs_at);
}

/// The least index at or after `from` at which `pat` stands in `buf`, if any.
pub open spec fn first_occurrence(buf: Seq<u8>, pat: Seq<u8>, from: int) -> Option<int>
    decreases buf.len() - pat.len() - from + 1,
{
    if from < 0 || from + pat.len() > buf.len() {
        None
    } else if occurs_at(buf, pat, from) {
        Some(from)
    } else {
        first_occurrence(buf, pat, from + 1)
    }
}

/// What `first_occurrence` means: the index it gives holds the pattern and no
/// index between `from` and it does; where it gives none, no index from
/// `from` on holds the pattern.
pub proof fn lemma_first_occurrence(buf: Seq<u8>, pat: Seq<u8>, from: int)
    requires
        0 <= from,
    ensures
        match first_occurrence(buf, pat, from) {
            Some(at) => {
                &&& from <= at
                &&& at + pat.len() <= buf.len()
                &&& occurs_at(buf, pat, at)
                &&& forall|j: int| from <= j < at ==> !#[trigger] occurs_at(buf, pat, j)
            },
            None => forall|j: int| from <= j ==> !#[trigger] occurs_at(buf, pat, j),
        },
    decreases buf.len() - pat.len() - from + 1,
{
    reveal(occurs_at);
    if from + pat.len() > buf.len() {
    } else if occurs_at(buf, pat, from) {
    } else {
        lemma_first_occurrence(buf, pat, from + 1);
    }
}

/// An index that holds the pattern, with none before it from `from` on, is
/// the first occurrence.
pub proof fn lemma_first_occurrence_is(buf: Seq<u8>, pat: Seq<u8>, from: int, at: int)
    requires
        0 <= from <= at,
        occurs_at(buf, pat, at),
        forall|j: int| from <= j < at ==> !#[trigger] occurs_at(buf, pat, j),
    ensures
        first_occurrence(buf, pat, from) == Some(at),
    decreases at - from,
{
    lemma_occurs_at_bounds(buf, pat, at);
    if from < at {
        lemma_first_occurrence_is(buf, pat, from + 1, at);
    }
}

/// Where no index from `from` on holds the pattern, there is no first
/// occurrence.
pub proof fn lemma_first_occurrence_none(buf: Seq<u8>, pat: Seq<u8>, from: int)
    requires
        0 <= from,
        forall|j: int| from <= j ==> !#[trigger] occurs_at(buf, pat, j),
    ensures
        first_occurrence(buf, pat, from) is None,
{
    lemma_first_occurrence(buf, pat, from);
}

/// Whether `pat` stands in `buf` at index `at`.
fn matches_at(buf: &[u8], pat: &[u8], at: usize) -> (r: bool)
    requires
        at + pat.len() <= buf.len(),
    ensures
        r == occurs_at(buf@, pat@, at as int),
{
    let mut k: usize = 0;
    while k < pat.len()
        invariant
            k <= pat.len(),
            at + pat.len() <= buf.len(),
            forall|j: int| 0 <= j < k ==> buf@[at + j] == pat@[j],
        decreases pat.len() - k,
    {
        if buf[at + k] != pat[k] {
            proof {
                reveal(occurs_at);
                assert(buf@.subrange(at as int, at + pat.len())[k as int] != pat@[k as int]);
            }
            return false;
        }
        k += 1;
    }
    proof {
        reveal(occurs_at);
        assert(buf@.subrange(at as int, at + pat.len()) =~= pat@);
    }
    true
}

/// Finds the first place at or after `from` where `pat` stands in `buf`.
pub fn find_marker(buf: &[u8], pat: &[u8], from: usize) -> (r: Option<usize>)
    ensures
        match r {
            Some(at) => first_occurrence(buf@, pat@, from as int) == Some(at as int),
            None => first_occurrence(buf@, pat@, from as int) is None,
        },
{
    if pat.len() > buf.len() || from > buf.len() - pat.len() {
        return None;
    }
    let last: usize = buf.len() - pat.len();
    let mut at: usize = from;
    loop
        invariant
            from <= at <= last,
            last == buf.len() - pat.len(),
            first_occurrence(buf@, pat@, from as int) == first_occurrence(buf@, pat@, at as int),
        decreases last - at,
    {
        if matches_at(buf, pat, at) {
            return Some(at);
        }
        if at == last {
            assert(first_occurrence(buf@, pat@, at + 1) is None);
            return None;
        }
        at += 1;
    }
}

/// The views of a list of segments.
pub open spec fn segment_views(segments: Seq<Vec<u8>>) -> Seq<Seq<u8>> {
    Seq::new(segments.len(), |i: int| segments[i]@)
}

/// One segment between its two markers.
pub open spec fn framed(segment: Seq<u8>) -> Seq<u8> {
    mark_start() + segment + mark_end()
}

/// The framed segments one after another, in order.
pub open spec fn frames(segments: Seq<Seq<u8>>) -> Seq<u8>
    decreases segments.len(),
{
    if segments.len() == 0 {
        Seq::empty()
    } else {
        frames(segments.drop_last()) + framed(segments.last())
    }
}

/// A carrier: the base image, unchanged, followed by the framed segments.
pub open spec fn embedded(base: Seq<u8>, segments: Seq<Seq<u8>>) -> Seq<u8> {
    base + frames(segments)
}

/// The segments that a left-to-right scan of `buf` from index `pos` captures:
/// at each step the first opening marker, then the first closing marker
/// behind it, and the bytes between the two; the scan goes on right behind
/// that closing marker and ends where either marker is missing.
pub open spec fn segments_from(buf: Seq<u8>, pos: int) -> Seq<Seq<u8>>
    decreases buf.len() - pos,
    via segments_from_decreases
{
    if pos < 0 {
        Seq::empty()
    } else {
        match first_occurrence(buf, mark_start(), pos) {
            None => Seq::empty(),
            Some(start) => match first_occurrence(buf, mark_end(), start + mark_start().len()) {
                None => Seq::empty(),
                Some(end) => seq![buf.subrange(start + mark_start().len(), end)] + segments_from(
                    buf,
                    end + mark_end().len(),
                ),
            },
        }
    }
}

#[via_fn]
proof fn segments_from_decreases(buf: Seq<u8>, pos: int) {
    if pos >= 0 {
        lemma_first_occurrence(buf, mark_start(), pos);
        if let Some(start) = first_occurrence(buf, mark_start(), pos) {
            lemma_first_occurrence(buf, mark_end(), start + mark_start().len());
        }
    }
}

/// The segments that a carrier holds.
pub open spec fn carrier_segments(buf: Seq<u8>) -> Seq<Seq<u8>> {
    segments_from(buf, 0)
}

/// Extracts the embedded segments of a carrier, in the order in which they
/// were embedded. An opening marker that no closing marker follows ends the
/// scan; what stands behind it is dropped.
pub fn extract_from_stub(exe: &[u8]) -> (payloads: Vec<Vec<u8>>)
    ensures
        segment_views(payloads@) == carrier_segments(exe@),
{
    let mut payloads: Vec<Vec<u8>> = Vec::new();
    let mut search_start: usize = 0;
    loop
        invariant
            search_start <= exe.len(),
            carrier_segments(exe@) == segment_views(payloads@) + segments_from(
                exe@,
                search_start as int,
            ),
        ensures
            carrier_segments(exe@) == segment_views(payloads@),
        decreases exe.len() - search_start,
    {
        proof {
            lemma_first_occurrence(exe@, mark_start(), search_start as int);
        }
        let start: usize = match find_marker(exe, &MAGIC_HEADER, search_start) {
            Some(start) => start,
            None => {
                assert(segments_from(exe@, search_start as int) =~= Seq::empty());
                break;
            },
        };
        let payload_start: usize = start + MAGIC_HEADER.len();
        proof {
            lemma_first_occurrence(exe@, mark_end(), payload_start as int);
        }
        let end: usize = match find_marker(exe, &MAGIC_FOOTER, payload_start) {
            Some(end) => end,
            None => {
                assert(segments_from(exe@, search_start as int) =~= Seq::empty());
                break;
            },
        };
        let payload = slice_to_vec(slice_subrange(exe, payload_start, end));
        proof {
            let before = segment_views(payloads@);
            let after = segment_views(payloads@.push(payload));
            assert(after =~= before + seq![payload@]);
            assert(before + (seq![payload@] + segments_from(exe@, end + mark_end().len()))
                =~= after + segments_from(exe@, end + mark_end().len()));
        }
        payloads.push(payload);
        search_start = end + MAGIC_FOOTER.len();
    }
    payloads
}

/// Appending one more segment appends its frame.
pub proof fn lemma_frames_push(segments: Seq<Seq<u8>>, segment: Seq<u8>)
    ensures
        frames(segments.push(segment)) == frames(segments) + framed(segment),
{
    assert(segments.push(segment).drop_last() =~= segments);
}

/// Appends each payload, between the two markers, to a copy of the stub, in
/// the order given. With no payload the result is the stub unchanged.
pub fn embed_multiple_into_stub(payloads: &[Vec<u8>], stub: &[u8]) -> (carrier: Vec<u8>)
    ensures
        carrier@ == embedded(stub@, segment_views(payloads@)),
{
    let mut result: Vec<u8> = slice_to_vec(stub);
    let mut index: usize = 0;
    proof {
        assert(segment_views(payloads@.take(0)) =~= Seq::empty());
        assert(result@ =~= embedded(stub@, segment_views(payloads@.take(0))));
    }
    while index < payloads.len()
        invariant
            index <= payloads.len(),
            result@ == embedded(stub@, segment_views(payloads@.take(index as int))),
        decreases payloads.len() - index,
    {
        let ghost before = result@;
        let payload = &payloads[index];
        result.extend_from_slice(&MAGIC_HEADER);
        result.extend_from_slice(payload.as_slice());
        result.extend_from_slice(&MAGIC_FOOTER);
        proof {
            let done = segment_views(payloads@.take(index as int));
            assert(result@ =~= before + framed(payload@));
            assert(segment_views(payloads@.take(index + 1)) =~= done.push(payload@));
            lemma_frames_push(done, payload@);
            assert(stub@ + (frames(done) + framed(payload@)) =~= before + framed(payload@));
        }
        index += 1;
    }
    proof {
        assert(payloads@.take(index as int) =~= payloads@);
    }
    result
}

/// Appends one payload, between the two markers, to a copy of the stub.
pub fn embed_into_stub(payload: &[u8], stub: &[u8]) -> (carrier: Vec<u8>)
    ensures
        carrier@ == embedded(stub@, seq![payload@]),
{
    let mut result: Vec<u8> = slice_to_vec(stub);
    result.extend_from_slice(&MAGIC_HEADER);
    result.extend_from_slice(payload);
    result.extend_from_slice(&MAGIC_FOOTER);
    proof {
        lemma_frames_push(Seq::empty(), payload@);
        assert(Seq::<Seq<u8>>::empty().push(payload@) =~= seq![payload@]);
        assert(result@ =~= stub@ + (frames(Seq::empty()) + framed(payload@)));
    }
    result
}

} // verus!
