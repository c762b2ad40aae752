//! The segmentation of a byte buffer, as a mathematical model.
//!
//! A lead byte fixes how long its segment is: one byte for ASCII, three after
//! the supplementary marker, two for any other byte with the high bit set.
//! Cutting greedily from the left gives every buffer exactly one list of
//! segments; only the last one can be cut short by the end of the buffer.

use vstd::prelude::*;

verus! {

/// Lead byte of a three-byte supplementary segment.
pub const SUPPLEMENTARY_MARKER: u8 = 0x8F;

/// The fullwidth tilde: a supplementary segment.
pub open spec fn fullwidth_tilde() -> Seq<u8> {
    seq![0x8Fu8, 0xA2u8, 0xB7u8]
}

/// The wave dash: a double-byte segment.
pub open spec fn wave_dash() -> Seq<u8> {
    seq![0xA1u8, 0xC1u8]
}

/// How many bytes a segment with this lead byte has.
pub open spec fn segment_len(lead: u8) -> int {
    if lead < 0x80 {
        1
    } else if lead == SUPPLEMENTARY_MARKER {
        3
    } else {
        2
    }
}

/// Length of the first segment of `s`: what its lead byte asks for, or all of
/// `s` where the buffer ends before that.
pub open spec fn first_len(s: Seq<u8>) -> int {
    if s.len() == 0 {
        0
    } else if segment_len(s[0]) <= s.len() {
        segment_len(s[0])
    } else {
        s.len() as int
    }
}

/// The segments of `s`, in order. Their concatenation is `s`.
pub open spec fn segments(s: Seq<u8>) -> Seq<Seq<u8>>
    decreases s.len(),
{
    if s.len() == 0 {
        Seq::empty()
    } else {
        seq![s.take(first_len(s))] + segments(s.skip(first_len(s)))
    }
}

/// A segment that has all the bytes its lead byte asks for.
pub open spec fn is_complete(seg: Seq<u8>) -> bool {
    seg.len() > 0 && seg.len() == segment_len(seg[0])
}

/// No segment of `s` is cut short by the end of the buffer.
pub open spec fn well_segmented(s: Seq<u8>) -> bool {
    forall|k: int| 0 <= k < segments(s).len() ==> is_complete(#[trigger] segments(s)[k])
}

/// Where the segment that the end of the buffer cuts short begins; the
/// length of `s` where there is none.
pub open spec fn truncation_offset(s: Seq<u8>) -> int {
    if well_segmented(s) {
        s.len() as int
    } else {
        s.len() - segments(s).last().len()
    }
}

/// A buffer no longer than its lead byte asks for is one segment.
pub proof fn lemma_segments_single(seg: Seq<u8>)
    requires
        seg.len() > 0,
        seg.len() <= segment_len(seg[0]),
    ensures
        segments(seg) == seq![seg],
{
    let n = first_len(seg);
    assert(seg.take(n) == seg);
    assert(seg.skip(n).len() == 0);
    assert(segments(seg.skip(n)) == Seq::<Seq<u8>>::empty());
    assert(segments(seg) =~= seq![seg]);
}

/// A buffer is well segmented exactly if its first segment is complete and
/// what follows it is well segmented.
pub proof fn lemma_well_segmented_unfold(s: Seq<u8>)
    requires
        s.len() > 0,
    ensures
        well_segmented(s) <==> (segment_len(s[0]) <= s.len() && well_segmented(
            s.skip(segment_len(s[0])),
        )),
{
    let n = first_len(s);
    let head = s.take(n);
    let tail = segments(s.skip(n));
    assert(segments(s) == seq![head] + tail);
    assert(segments(s)[0] == head);
    assert(head[0] == s[0]);
    if well_segmented(s) {
        assert(is_complete(segments(s)[0]));
        assert forall|k: int| 0 <= k < tail.len() implies is_complete(#[trigger] tail[k]) by {
            assert(segments(s)[k + 1] == tail[k]);
        }
    }
    if segment_len(s[0]) <= s.len() && well_segmented(s.skip(segment_len(s[0]))) {
        assert forall|k: int| 0 <= k < segments(s).len() implies is_complete(
            #[trigger] segments(s)[k],
        ) by {
            if k > 0 {
                assert(segments(s)[k] == tail[k - 1]);
            }
        }
    }
}

/// Segmentation goes through concatenation where the left part ends on a
/// segment boundary.
pub proof fn lemma_segments_concat(a: Seq<u8>, b: Seq<u8>)
    requires
        well_segmented(a),
    ensures
        segments(a + b) == segments(a) + segments(b),
    decreases a.len(),
{
    if a.len() == 0 {
        assert(a + b == b);
        assert(segments(a) + segments(b) == segments(b));
    } else {
        lemma_well_segmented_unfold(a);
        let n = segment_len(a[0]);
        assert((a + b)[0] == a[0]);
        assert(first_len(a + b) == n);
        assert((a + b).take(n) == a.take(n));
        assert((a + b).skip(n) == a.skip(n) + b);
        lemma_segments_concat(a.skip(n), b);
        assert(segments(a + b) =~= segments(a) + segments(b));
    }
}

/// Appending one complete segment to a well-segmented buffer appends it to
/// the list of segments.
pub proof fn lemma_segments_push(a: Seq<u8>, seg: Seq<u8>)
    requires
        well_segmented(a),
        seg.len() > 0,
        seg.len() <= segment_len(seg[0]),
    ensures
        segments(a + seg) == segments(a).push(seg),
        well_segmented(a + seg) <==> is_complete(seg),
{
    lemma_segments_concat(a, seg);
    lemma_segments_single(seg);
    assert(segments(a) + seq![seg] =~= segments(a).push(seg));
    let all = segments(a + seg);
    assert(all[all.len() - 1] == seg);
    if is_complete(seg) {
        assert forall|k: int| 0 <= k < all.len() implies is_complete(#[trigger] all[k]) by {
            if k < segments(a).len() {
                assert(all[k] == segments(a)[k]);
            }
        }
    }
}

/// One step of a scan: if the buffer is well segmented up to `i` and the
/// segment that begins at `i` fits, it is well segmented up to the end of
/// that segment, with that segment as the next one.
pub proof fn lemma_scan_step(s: Seq<u8>, i: int)
    requires
        0 <= i < s.len(),
        well_segmented(s.take(i)),
        i + segment_len(s[i]) <= s.len(),
    ensures
        well_segmented(s.take(i + segment_len(s[i]))),
        segments(s.take(i + segment_len(s[i]))) == segments(s.take(i)).push(
            s.subrange(i, i + segment_len(s[i])),
        ),
{
    let n = segment_len(s[i]);
    let seg = s.subrange(i, i + n);
    assert(seg[0] == s[i]);
    assert(s.take(i + n) == s.take(i) + seg);
    lemma_segments_push(s.take(i), seg);
}

/// The end of a scan: a buffer that is well segmented up to its end is well
/// segmented.
pub proof fn lemma_scan_done(s: Seq<u8>)
    ensures
        s.take(s.len() as int) == s,
{
}

/// A scan that finds the segment at `i` cut short: the buffer is not well
/// segmented, and `i` is where the incomplete segment begins.
pub proof fn lemma_scan_truncated(s: Seq<u8>, i: int)
    requires
        0 <= i < s.len(),
        well_segmented(s.take(i)),
        i + segment_len(s[i]) > s.len(),
    ensures
        !well_segmented(s),
        truncation_offset(s) == i,
{
    let rest = s.skip(i);
    assert(rest[0] == s[i]);
    assert(s == s.take(i) + rest);
    lemma_segments_push(s.take(i), rest);
    assert(segments(s).last() == rest);
}

} // verus!
