//! The encoding check that comes before any scan, made by `encoding_rs`.

use vstd::prelude::*;

verus! {

/// Whether `encoding_rs`, decoding `bytes` as EUC-JP, meets a malformed
/// sequence. The decoder first looks for a byte order mark, and decodes a
/// buffer that begins with one as UTF-8 or UTF-16 in place of EUC-JP.
///
/// Nothing is proved of this value: it names what the decoder answers.
pub uninterp spec fn euc_jp_decode_has_errors(bytes: Seq<u8>) -> bool;

/// The longest buffer that is handed to the decoder. It reserves up to three
/// bytes of output for each byte of input and stops the program where that
/// size cannot be allocated; below this length it always can be asked for.
pub const MAX_DECODE_LEN: usize = usize::MAX / 8;

/// Calls `encoding_rs::Encoding::decode` on `encoding_rs::EUC_JP` and hands
/// back the third part of its result, which says whether a malformed
/// sequence was replaced. The contract claims only that this answer depends
/// on the bytes alone.
#[verifier::external_body]
fn decode_has_errors(bytes: &[u8]) -> (had_errors: bool)
    requires
        bytes@.len() <= MAX_DECODE_LEN,
    ensures
        had_errors == euc_jp_decode_has_errors(bytes@),
{
    let (_, _, had_errors) = encoding_rs::EUC_JP.decode(bytes);
    had_errors
}

/// Whether `bytes` decode as EUC-JP without a malformed sequence.
pub fn is_encoding_euc_jp(bytes: &[u8]) -> (ok: bool)
    requires
        bytes@.len() <= MAX_DECODE_LEN,
    ensures
        ok == !euc_jp_decode_has_errors(bytes@),
{
    !decode_has_errors(bytes)
}

} // verus!
