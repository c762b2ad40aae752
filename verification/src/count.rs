//! The counter: how many wave dashes and how many fullwidth tildes a buffer
//! holds, each counted as a whole segment.

use crate::rewrite::{lemma_is_fullwidth_tilde, TruncatedSequenceError};
use crate::segment::{
    fullwidth_tilde, lemma_scan_done, lemma_scan_step, lemma_scan_truncated, segment_len,
    segments, truncation_offset, wave_dash, well_segmented, SUPPLEMENTARY_MARKER,
};
use vstd::prelude::*;

verus! {

/// How many of the segments `segs` are equal to `pattern`.
pub open spec fn occurrences(segs: Seq<Seq<u8>>, pattern: Seq<u8>) -> nat {
    segs.filter(|seg: Seq<u8>| seg == pattern).len()
}

/// How many segments of `s` are a wave dash.
pub open spec fn wave_dash_count(s: Seq<u8>) -> nat {
    occurrences(segments(s), wave_dash())
}

/// How many segments of `s` are a fullwidth tilde.
pub open spec fn fullwidth_tilde_count(s: Seq<u8>) -> nat {
    occurrences(segments(s), fullwidth_tilde())
}

/// A two-byte sequence is the wave dash exactly if its bytes are.
pub proof fn lemma_is_wave_dash(seg: Seq<u8>)
    ensures
        seg == wave_dash() <==> (seg.len() == 2 && seg[0] == 0xA1 && seg[1] == 0xC1),
{
    let w = wave_dash();
    assert(w.len() == 2 && w[0] == 0xA1 && w[1] == 0xC1);
    if seg.len() == 2 && seg[0] == 0xA1 && seg[1] == 0xC1 {
        assert(seg =~= w);
    }
}

/// No segment is counted in an empty list.
pub proof fn lemma_occurrences_empty(pattern: Seq<u8>)
    ensures
        occurrences(Seq::empty(), pattern) == 0,
{
    reveal(Seq::filter);
}

/// Appending a segment adds one to the count if it is the pattern, and
/// nothing if it is not.
pub proof fn lemma_occurrences_push(segs: Seq<Seq<u8>>, seg: Seq<u8>, pattern: Seq<u8>)
    ensures
        occurrences(segs.push(seg), pattern) == occurrences(segs, pattern) + (if seg == pattern {
            1nat
        } else {
            0nat
        }),
        occurrences(segs.push(seg), pattern) <= segs.len() + 1,
{
    reveal(Seq::filter);
    let longer = segs.push(seg);
    assert(longer.drop_last() == segs);
    assert(longer.last() == seg);
    segs.lemma_filter_len(|s: Seq<u8>| s == pattern);
}

/// Counts the wave-dash segments and the fullwidth-tilde segments of
/// `contents`, in that order.
///
/// Fails exactly if the buffer ends inside a multi-byte segment; the error
/// says where that segment begins.
pub fn count_tilde(contents: Vec<u8>) -> (r: Result<(u64, u64), TruncatedSequenceError>)
    ensures
        r is Ok <==> well_segmented(contents@),
        r matches Ok(counts) ==> counts.0 == wave_dash_count(contents@) && counts.1
            == fullwidth_tilde_count(contents@),
        r matches Err(e) ==> e.offset == truncation_offset(contents@),
{
    let mut wave_dash_count: u64 = 0;
    let mut full_width_tilde_count: u64 = 0;

    let size = contents.len();
    let mut i: usize = 0;
    proof {
        lemma_occurrences_empty(wave_dash());
        lemma_occurrences_empty(fullwidth_tilde());
    }
    while i < size
        invariant
            size == contents.len(),
            i <= size,
            well_segmented(contents@.take(i as int)),
            wave_dash_count == self::wave_dash_count(contents@.take(i as int)),
            full_width_tilde_count == fullwidth_tilde_count(contents@.take(i as int)),
            wave_dash_count + full_width_tilde_count <= i,
        decreases size - i,
    {
        let lead = contents[i];
        assert((lead & 0x80 == 0x00) == (lead < 0x80)) by (bit_vector);
        proof {
            if i + segment_len(lead) <= size {
                let seg = contents@.subrange(i as int, i + segment_len(lead));
                let before = segments(contents@.take(i as int));
                lemma_scan_step(contents@, i as int);
                lemma_occurrences_push(before, seg, wave_dash());
                lemma_occurrences_push(before, seg, fullwidth_tilde());
                lemma_is_wave_dash(seg);
                lemma_is_fullwidth_tilde(seg);
            } else {
                lemma_scan_truncated(contents@, i as int);
            }
        }
        if lead & 0x80 == 0x00 {
            i += 1;
        } else if lead == SUPPLEMENTARY_MARKER {
            if size - i < 3 {
                return Err(TruncatedSequenceError { offset: i });
            }
            if contents[i + 1] == 0xA2 && contents[i + 2] == 0xB7 {
                full_width_tilde_count += 1;
            }
            i += 3;
        } else {
            if size - i < 2 {
                return Err(TruncatedSequenceError { offset: i });
            }
            if lead == 0xA1 && contents[i + 1] == 0xC1 {
                wave_dash_count += 1;
            }
            i += 2;
        }
    }
    proof {
        lemma_scan_done(contents@);
    }
    Ok((wave_dash_count, full_width_tilde_count))
}

} // verus!
