//! One file's worth of work: check the encoding, then rewrite or count.

use crate::count::{count_tilde, fullwidth_tilde_count, wave_dash_count};
use crate::encoding::{euc_jp_decode_has_errors, is_encoding_euc_jp, MAX_DECODE_LEN};
use crate::laws::{lemma_unified_fixed_point, lemma_unified_len};
use crate::rewrite::{unified, unify_tilde, TruncatedSequenceError};
use crate::segment::{truncation_offset, well_segmented};
use vstd::prelude::*;

verus! {

/// What was made of a buffer.
#[derive(Debug, Clone, PartialEq, Eq)]
pub enum Outcome {
    /// The rewritten buffer, and whether it differs from the input.
    Unified { contents: Vec<u8>, changed: bool },
    /// The number of wave dashes and of fullwidth tildes.
    Counted { wave_dash: u64, fullwidth_tilde: u64 },
}

/// Why nothing was made of a buffer.
#[derive(Debug, Clone, Copy, PartialEq, Eq)]
pub enum ProcessError {
    /// The buffer does not decode as EUC-JP.
    Decode,
    /// The buffer ends inside a multi-byte segment.
    TruncatedSequence(TruncatedSequenceError),
}

/// The one result that is right for a buffer, a mode and the answer of the
/// encoding check: a failed check comes first, then a truncated segment;
/// otherwise the counts in count mode, and the rewritten buffer in the other.
pub open spec fn is_outcome_of(
    r: Result<Outcome, ProcessError>,
    contents: Seq<u8>,
    count: bool,
    is_euc_jp: bool,
) -> bool {
    match r {
        Err(ProcessError::Decode) => !is_euc_jp,
        Err(ProcessError::TruncatedSequence(e)) => {
            &&& is_euc_jp
            &&& !well_segmented(contents)
            &&& e.offset == truncation_offset(contents)
        },
        Ok(Outcome::Counted { wave_dash, fullwidth_tilde }) => {
            &&& is_euc_jp
            &&& well_segmented(contents)
            &&& count
            &&& wave_dash == wave_dash_count(contents)
            &&& fullwidth_tilde == fullwidth_tilde_count(contents)
        },
        Ok(Outcome::Unified { contents: out, changed }) => {
            &&& is_euc_jp
            &&& well_segmented(contents)
            &&& !count
            &&& out@ == unified(contents)
            &&& changed == (out@ != contents)
            &&& changed == (fullwidth_tilde_count(contents) > 0)
        },
    }
}

/// Rewrites or counts a buffer of which the encoding check has given its
/// answer `is_euc_jp`.
pub fn process_checked(contents: Vec<u8>, count: bool, is_euc_jp: bool) -> (r: Result<
    Outcome,
    ProcessError,
>)
    ensures
        is_outcome_of(r, contents@, count, is_euc_jp),
{
    if !is_euc_jp {
        return Err(ProcessError::Decode);
    }
    if count {
        match count_tilde(contents) {
            Ok((wave_dash, fullwidth_tilde)) => Ok(Outcome::Counted { wave_dash, fullwidth_tilde }),
            Err(e) => Err(ProcessError::TruncatedSequence(e)),
        }
    } else {
        let size = contents.len();
        let ghost before = contents@;
        match unify_tilde(contents) {
            Ok(out) => {
                proof {
                    lemma_unified_len(before);
                    lemma_unified_fixed_point(before);
                }
                let changed = out.len() != size;
                Ok(Outcome::Unified { contents: out, changed })
            },
            Err(e) => Err(ProcessError::TruncatedSequence(e)),
        }
    }
}

/// Checks that a buffer decodes as EUC-JP, then rewrites or counts it.
pub fn process(contents: Vec<u8>, count: bool) -> (r: Result<Outcome, ProcessError>)
    requires
        contents@.len() <= MAX_DECODE_LEN,
    ensures
        is_outcome_of(r, contents@, count, !euc_jp_decode_has_errors(contents@)),
{
    let is_euc_jp = is_encoding_euc_jp(contents.as_slice());
    process_checked(contents, count, is_euc_jp)
}

} // verus!
