//! The rewriter: fullwidth tildes become wave dashes, nothing else changes.

use crate::segment::{
    fullwidth_tilde, lemma_scan_done, lemma_scan_step, lemma_scan_truncated, segment_len,
    segments, truncation_offset, wave_dash, well_segmented, SUPPLEMENTARY_MARKER,
};
use vstd::prelude::*;

verus! {

/// A buffer ends inside a multi-byte segment: its lead byte is at `offset`,
/// and the buffer is too short to hold the bytes that must follow it.
#[derive(Debug, Clone, Copy, PartialEq, Eq)]
pub struct TruncatedSequenceError {
    pub offset: usize,
}

/// What the rewriter makes of one segment.
pub open spec fn rewrite_segment(seg: Seq<u8>) -> Seq<u8> {
    if seg == fullwidth_tilde() {
        wave_dash()
    } else {
        seg
    }
}

/// What the rewriter makes of each segment of a list.
pub open spec fn rewrite_all(segs: Seq<Seq<u8>>) -> Seq<Seq<u8>> {
    segs.map_values(|seg: Seq<u8>| rewrite_segment(seg))
}

/// The buffer `s` with every fullwidth-tilde segment replaced by a wave dash.
pub open spec fn unified(s: Seq<u8>) -> Seq<u8> {
    rewrite_all(segments(s)).flatten()
}

/// A three-byte sequence is the fullwidth tilde exactly if its bytes are.
pub proof fn lemma_is_fullwidth_tilde(seg: Seq<u8>)
    ensures
        seg == fullwidth_tilde() <==> (seg.len() == 3 && seg[0] == 0x8F && seg[1] == 0xA2 && seg[2]
            == 0xB7),
{
    let t = fullwidth_tilde();
    assert(t.len() == 3 && t[0] == 0x8F && t[1] == 0xA2 && t[2] == 0xB7);
    if seg.len() == 3 && seg[0] == 0x8F && seg[1] == 0xA2 && seg[2] == 0xB7 {
        assert(seg =~= t);
    }
}

/// Rewriting goes through appending one segment.
pub proof fn lemma_rewrite_all_push(segs: Seq<Seq<u8>>, seg: Seq<u8>)
    ensures
        rewrite_all(segs.push(seg)) == rewrite_all(segs).push(rewrite_segment(seg)),
        rewrite_all(segs.push(seg)).flatten() == rewrite_all(segs).flatten() + rewrite_segment(
            seg,
        ),
{
    assert(rewrite_all(segs.push(seg)) =~= rewrite_all(segs).push(rewrite_segment(seg)));
    rewrite_all(segs).lemma_flatten_push(rewrite_segment(seg));
}

/// Replaces every fullwidth tilde in `contents` by a wave dash and copies
/// every other segment through unchanged.
///
/// Fails, without output, exactly if the buffer ends inside a multi-byte
/// segment; the error says where that segment begins.
pub fn unify_tilde(contents: Vec<u8>) -> (r: Result<Vec<u8>, TruncatedSequenceError>)
    ensures
        r is Ok <==> well_segmented(contents@),
        r matches Ok(out) ==> out@ == unified(contents@),
        r matches Err(e) ==> e.offset == truncation_offset(contents@),
{
    let size = contents.len();
    let mut i: usize = 0;
    let mut new_contents: Vec<u8> = Vec::new();
    while i < size
        invariant
            size == contents.len(),
            i <= size,
            well_segmented(contents@.take(i as int)),
            new_contents@ == unified(contents@.take(i as int)),
        decreases size - i,
    {
        let lead = contents[i];
        assert((lead & 0x80 == 0x00) == (lead < 0x80)) by (bit_vector);
        let ghost seg = contents@.subrange(i as int, i + segment_len(lead));
        proof {
            if i + segment_len(lead) <= size {
                lemma_scan_step(contents@, i as int);
                lemma_rewrite_all_push(segments(contents@.take(i as int)), seg);
                lemma_is_fullwidth_tilde(seg);
            } else {
                lemma_scan_truncated(contents@, i as int);
            }
        }
        if lead & 0x80 == 0x00 {
            new_contents.push(lead);
            i += 1;
        } else if lead == SUPPLEMENTARY_MARKER {
            if size - i < 3 {
                return Err(TruncatedSequenceError { offset: i });
            }
            if contents[i + 1] == 0xA2 && contents[i + 2] == 0xB7 {
                new_contents.push(0xA1);
                new_contents.push(0xC1);
            } else {
                new_contents.push(lead);
                new_contents.push(contents[i + 1]);
                new_contents.push(contents[i + 2]);
            }
            i += 3;
        } else {
            if size - i < 2 {
                return Err(TruncatedSequenceError { offset: i });
            }
            new_contents.push(lead);
            new_contents.push(contents[i + 1]);
            i += 2;
        }
    }
    proof {
        lemma_scan_done(contents@);
    }
    Ok(new_contents)
}

} // verus!
