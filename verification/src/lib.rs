//! Byte-level normalisation of EUC-JP text: every fullwidth tilde
//! (`8F A2 B7`) becomes a wave dash (`A1 C1`), and both forms can be counted.
//!
//! The buffer is never decoded. It is cut into segments by the lead byte of
//! each, and all contracts speak of that segmentation.

pub mod count;
pub mod encoding;
pub mod laws;
pub mod process;
pub mod rewrite;
pub mod segment;

pub use count::count_tilde;
pub use encoding::{is_encoding_euc_jp, MAX_DECODE_LEN};
pub use process::{process, process_checked, Outcome, ProcessError};
pub use rewrite::{unify_tilde, TruncatedSequenceError};
