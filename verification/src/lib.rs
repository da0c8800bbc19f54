//! A verified parser for breached-password corpora: line-oriented
//! `hash:occurrence_count` records, exposed as an entry sequence over the
//! file's lines and as a lookup index that answers how often a password was
//! observed.
use vstd::prelude::*;

pub mod haveibeenpwned;
pub mod index;
pub mod parse;

verus! {

/// One parsed record of the corpus: the hash text of a breached password,
/// how often it was observed, and how many bytes of the stream the line took.
pub struct PasswordHashEntry {
    /// The hash text of the record, normalized to lowercase.
    pub hash: String,
    /// How many times the password behind this hash was observed.
    pub occurrences: u64,
    /// The number of bytes the line occupied in the stream, terminator included.
    pub entry_size: u64,
}

} // verus!
