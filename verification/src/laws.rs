//! What holds of the rewriter and the counter together, for every buffer.
//!
//! The model keeps a segment that the end of the buffer cuts short as it is,
//! so each law holds of every buffer; the executable functions answer only
//! for the well-segmented ones, and the first law says that rewriting keeps a
//! buffer so.

use crate::count::{
    fullwidth_tilde_count, lemma_occurrences_empty, lemma_occurrences_push, occurrences,
    wave_dash_count,
};
use crate::rewrite::{lemma_rewrite_all_push, rewrite_all, rewrite_segment, unified};
use crate::segment::{
    first_len, fullwidth_tilde, is_complete, lemma_segments_concat, lemma_segments_single,
    segment_len, segments, wave_dash, well_segmented,
};
use vstd::prelude::*;

verus! {

/// The rewriter's image of a buffer begins with the image of its first
/// segment and goes on with the image of the rest.
pub proof fn lemma_unified_unfold(s: Seq<u8>)
    requires
        s.len() > 0,
    ensures
        unified(s) == rewrite_segment(s.take(first_len(s))) + unified(s.skip(first_len(s))),
{
    let n = first_len(s);
    let tail = segments(s.skip(n));
    let image = rewrite_all(segments(s));
    assert(image =~= seq![rewrite_segment(s.take(n))] + rewrite_all(tail));
    assert(image.drop_first() =~= rewrite_all(tail));
}

/// The segments of a buffer, put together again, are the buffer.
pub proof fn lemma_segments_flatten(s: Seq<u8>)
    ensures
        segments(s).flatten() == s,
    decreases s.len(),
{
    if s.len() == 0 {
        assert(segments(s).flatten() =~= s);
    } else {
        let n = first_len(s);
        lemma_segments_flatten(s.skip(n));
        assert(segments(s).drop_first() =~= segments(s.skip(n)));
        assert(s.take(n) + s.skip(n) =~= s);
    }
}

/// Rewriting changes a segment into a segment: the image is complete
/// exactly if the segment is, and it is never a fullwidth tilde.
pub proof fn lemma_rewrite_segment_kind(seg: Seq<u8>)
    ensures
        is_complete(rewrite_segment(seg)) <==> is_complete(seg),
        rewrite_segment(seg) != fullwidth_tilde(),
        rewrite_segment(rewrite_segment(seg)) == rewrite_segment(seg),
        rewrite_segment(seg).len() == seg.len() - (if seg == fullwidth_tilde() {
            1int
        } else {
            0int
        }),
        rewrite_segment(seg) == wave_dash() <==> (seg == wave_dash() || seg == fullwidth_tilde()),
{
    let t = fullwidth_tilde();
    let w = wave_dash();
    assert(t.len() == 3 && t[0] == 0x8F);
    assert(w.len() == 2 && w[0] == 0xA1);
}

/// Segment preservation: the rewriter's output has the segments of its
/// input, one for one and in the same order, each unchanged unless it is a
/// fullwidth tilde, which has become a wave dash. The output is well
/// segmented exactly if the input is.
pub proof fn lemma_unified_segments(b: Seq<u8>)
    ensures
        segments(unified(b)) == rewrite_all(segments(b)),
        segments(unified(b)).len() == segments(b).len(),
        forall|k: int|
            0 <= k < segments(b).len() ==> #[trigger] segments(unified(b))[k] == (if segments(
                b,
            )[k] == fullwidth_tilde() {
                wave_dash()
            } else {
                segments(b)[k]
            }),
        well_segmented(unified(b)) <==> well_segmented(b),
    decreases b.len(),
{
    if b.len() == 0 {
        assert(rewrite_all(segments(b)) =~= Seq::<Seq<u8>>::empty());
        assert(unified(b) =~= Seq::<u8>::empty());
    } else {
        let n = first_len(b);
        let head = b.take(n);
        let rest = b.skip(n);
        let image = rewrite_segment(head);
        lemma_unified_unfold(b);
        lemma_unified_segments(rest);
        lemma_rewrite_segment_kind(head);
        assert(head[0] == b[0]);
        assert(rewrite_all(segments(b)) =~= seq![image] + rewrite_all(segments(rest)));
        if segment_len(b[0]) <= b.len() {
            assert(is_complete(head));
            lemma_segments_single(image);
            lemma_segments_concat(image, unified(rest));
        } else {
            assert(rest.len() == 0);
            assert(head == b);
            assert(unified(rest) =~= Seq::<u8>::empty());
            assert(unified(b) =~= b);
            lemma_segments_single(b);
        }
    }
    let before = segments(b);
    let after = segments(unified(b));
    assert forall|k: int| 0 <= k < before.len() implies (is_complete(#[trigger] after[k])
        <==> is_complete(before[k])) by {
        lemma_rewrite_segment_kind(before[k]);
    }
    if well_segmented(b) {
        assert forall|k: int| 0 <= k < after.len() implies is_complete(#[trigger] after[k]) by {
            assert(is_complete(before[k]));
        }
    }
    if well_segmented(unified(b)) {
        assert forall|k: int| 0 <= k < before.len() implies is_complete(
            #[trigger] before[k],
        ) by {
            assert(is_complete(after[k]));
        }
    }
}

/// Idempotence: rewriting what the rewriter gave changes nothing.
pub proof fn lemma_unified_idempotent(b: Seq<u8>)
    ensures
        unified(unified(b)) == unified(b),
{
    lemma_unified_segments(b);
    let once = rewrite_all(segments(b));
    assert forall|k: int| 0 <= k < once.len() implies #[trigger] rewrite_all(once)[k]
        == once[k] by {
        lemma_rewrite_segment_kind(segments(b)[k]);
    }
    assert(rewrite_all(once) =~= once);
}

/// In a rewritten list of segments the wave dashes are those that were wave
/// dashes or fullwidth tildes before, and no fullwidth tilde is left.
pub proof fn lemma_occurrences_rewritten(segs: Seq<Seq<u8>>)
    ensures
        occurrences(rewrite_all(segs), wave_dash()) == occurrences(segs, wave_dash())
            + occurrences(segs, fullwidth_tilde()),
        occurrences(rewrite_all(segs), fullwidth_tilde()) == 0,
        rewrite_all(segs).flatten().len() == segs.flatten().len() - occurrences(
            segs,
            fullwidth_tilde(),
        ),
    decreases segs.len(),
{
    if segs.len() == 0 {
        lemma_occurrences_empty(wave_dash());
        lemma_occurrences_empty(fullwidth_tilde());
        assert(rewrite_all(segs) =~= segs);
    } else {
        let shorter = segs.drop_last();
        let seg = segs.last();
        assert(segs == shorter.push(seg));
        lemma_occurrences_rewritten(shorter);
        lemma_rewrite_all_push(shorter, seg);
        lemma_rewrite_segment_kind(seg);
        lemma_occurrences_push(shorter, seg, wave_dash());
        lemma_occurrences_push(shorter, seg, fullwidth_tilde());
        lemma_occurrences_push(rewrite_all(shorter), rewrite_segment(seg), wave_dash());
        lemma_occurrences_push(rewrite_all(shorter), rewrite_segment(seg), fullwidth_tilde());
        shorter.lemma_flatten_push(seg);
        assert(wave_dash() != fullwidth_tilde());
    }
}

/// Count consistency: after rewriting, the wave dashes are as many as the
/// wave dashes and the fullwidth tildes were together, and no fullwidth
/// tilde is left.
pub proof fn lemma_counts_after_unify(b: Seq<u8>)
    ensures
        wave_dash_count(unified(b)) == wave_dash_count(b) + fullwidth_tilde_count(b),
        fullwidth_tilde_count(unified(b)) == 0,
{
    lemma_unified_segments(b);
    lemma_occurrences_rewritten(segments(b));
}

/// Length: each fullwidth tilde makes the output one byte shorter than the
/// input, and nothing else changes the length. So the output is never
/// longer, and as long as the input exactly if that holds no fullwidth
/// tilde.
pub proof fn lemma_unified_len(b: Seq<u8>)
    ensures
        unified(b).len() == b.len() - fullwidth_tilde_count(b),
        unified(b).len() <= b.len(),
        unified(b).len() == b.len() <==> fullwidth_tilde_count(b) == 0,
{
    lemma_occurrences_rewritten(segments(b));
    lemma_segments_flatten(b);
}

/// A list counts no occurrence of a pattern exactly if none of its segments
/// is the pattern.
pub proof fn lemma_occurrences_zero(segs: Seq<Seq<u8>>, pattern: Seq<u8>)
    ensures
        occurrences(segs, pattern) == 0 <==> (forall|k: int|
            0 <= k < segs.len() ==> #[trigger] segs[k] != pattern),
    decreases segs.len(),
{
    if segs.len() == 0 {
        lemma_occurrences_empty(pattern);
    } else {
        let shorter = segs.drop_last();
        let seg = segs.last();
        assert(segs == shorter.push(seg));
        lemma_occurrences_zero(shorter, pattern);
        lemma_occurrences_push(shorter, seg, pattern);
        if occurrences(segs, pattern) == 0 {
            assert forall|k: int| 0 <= k < segs.len() implies #[trigger] segs[k] != pattern by {
                if k < shorter.len() {
                    assert(shorter[k] == segs[k]);
                }
            }
        }
        if forall|k: int| 0 <= k < segs.len() ==> #[trigger] segs[k] != pattern {
            assert forall|k: int| 0 <= k < shorter.len() implies #[trigger] shorter[k]
                != pattern by {
                assert(shorter[k] == segs[k]);
            }
            assert(segs[segs.len() - 1] != pattern);
        }
    }
}

/// The rewriter leaves a buffer as it is exactly if the counter finds no
/// fullwidth tilde in it.
pub proof fn lemma_unified_fixed_point(b: Seq<u8>)
    ensures
        unified(b) == b <==> fullwidth_tilde_count(b) == 0,
{
    lemma_unified_len(b);
    if fullwidth_tilde_count(b) == 0 {
        lemma_occurrences_zero(segments(b), fullwidth_tilde());
        assert(rewrite_all(segments(b)) =~= segments(b));
        lemma_segments_flatten(b);
    }
}

} // verus!
