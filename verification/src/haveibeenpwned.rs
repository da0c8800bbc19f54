//! The parser for the password files published by https://haveibeenpwned.com:
//! construction errors, the corpus handle's verified state, and the password
//! lookup path over a built index.
use crate::index::HashCountIndex;
use crate::index::index_of_entries;
use crate::PasswordHashEntry;
use crypto::digest::Digest;
use vstd::prelude::*;
use vstd::string::StringExecFns;

verus! {

/// The more specific error when the format of the file could not be read.
pub enum FormatErrorKind {
    /// It seems that the file is not a plain text file.
    NotATextFile,
    /// It seems that the format of at least one of the lines in the file is invalid.
    LineFormatNotCorrect,
}

impl FormatErrorKind {
    /// The description of the format fault.
    pub open spec fn message_spec(self) -> Seq<char> {
        match self {
            FormatErrorKind::NotATextFile => "not a text file which can be parsed"@,
            FormatErrorKind::LineFormatNotCorrect => "format of lines does not match the required format"@,
        }
    }

    /// The description of the format fault.
    pub fn to_string(&self) -> (r: &str)
        ensures
            r@ == self.message_spec(),
    {
        match *self {
            FormatErrorKind::NotATextFile => "not a text file which can be parsed",
            FormatErrorKind::LineFormatNotCorrect => {
                "format of lines does not match the required format"
            },
        }
    }
}

/// The possible errors which can occur on construction of a
/// [`HaveIBeenPwnedParser`].
pub enum CreateInstanceError {
    /// It seems that the format of the file is not as expected.
    Format(FormatErrorKind),
    /// There was a generic IO error; the payload is its message.
    Io(String),
}

impl CreateInstanceError {
    /// How the error renders: its kind, then the underlying message.
    pub open spec fn message_spec(self) -> Seq<char> {
        match self {
            CreateInstanceError::Format(kind) => "Format error: "@ + kind.message_spec(),
            CreateInstanceError::Io(msg) => "IO error: "@ + msg@,
        }
    }

    /// The error rendered as text: its kind, then the underlying message.
    pub fn message(&self) -> (r: String)
        ensures
            r@ == self.message_spec(),
    {
        match self {
            CreateInstanceError::Format(kind) => String::from_str("Format error: ").concat(
                kind.to_string(),
            ),
            CreateInstanceError::Io(msg) => String::from_str("IO error: ").concat(msg.as_str()),
        }
    }
}

/// The hexadecimal SHA-1 digest of a password, as the hashing collaborator
/// computes it: a function of the password's characters alone.
pub uninterp spec fn sha1_hex_of(password: Seq<char>) -> Seq<char>;

/// Relies on crypto's `Sha1` through `Digest::input_str` and
/// `Digest::result_str`: the digest is a function of the input characters
/// alone, rendered as 40 lowercase hexadecimal characters, two per digest
/// byte. The length bound keeps the hasher's bit counter, which panics past
/// 2^64 bits of input, out of reach.
#[verifier::external_body]
fn sha1_hex(password: &str) -> (r: String)
    requires
        password@.len() < 0x800_0000_0000_0000,
    ensures
        r@ == sha1_hex_of(password@),
        r@.len() == 40,
{
    let mut hasher = crypto::sha1::Sha1::new();
    hasher.input_str(password);
    hasher.result_str()
}

/// This class can be used to parse the password files provided by
/// https://haveibeenpwned.com. It is constructed over the byte length of the
/// backing file; reading the file itself and feeding its lines to the line
/// parser is its caller's concern.
pub struct HaveIBeenPwnedParser {
    known_password_hashes: Option<HashCountIndex>,
    file_size: u64,
    file_backed: bool,
}

impl HaveIBeenPwnedParser {
    /// Whether the held index, if any, is well formed.
    pub closed spec fn wf(self) -> bool {
        match self.known_password_hashes {
            Some(idx) => idx.wf(),
            None => true,
        }
    }

    /// The byte length of the backing file, absent for a handle that was
    /// never file-backed.
    pub closed spec fn spec_file_size(self) -> Option<u64> {
        if self.file_backed {
            Some(self.file_size)
        } else {
            None
        }
    }

    /// The built lookup mapping, absent before any build.
    pub closed spec fn spec_index(self) -> Option<Map<Seq<char>, u64>> {
        match self.known_password_hashes {
            Some(idx) => Some(idx@),
            None => None,
        }
    }

    /// What a query answers: the count stored under the password's digest,
    /// zero when the password is absent or no index has been built.
    pub open spec fn spec_usage_count(self, password: Seq<char>) -> u64 {
        match self.spec_index() {
            None => 0u64,
            Some(m) => if m.contains_key(sha1_hex_of(password)) {
                m[sha1_hex_of(password)]
            } else {
                0u64
            },
        }
    }

    /// A handle over a file of the given byte length, captured at
    /// construction time; no index is built yet.
    pub fn from_file_size(file_size: u64) -> (r: HaveIBeenPwnedParser)
        ensures
            r.wf(),
            r.spec_file_size() == Some(file_size),
            r.spec_index() is None,
    {
        HaveIBeenPwnedParser { known_password_hashes: None, file_size, file_backed: true }
    }

    /// A handle that was never file-backed (a test double): its file size is
    /// unavailable and every query answers zero until an index is built.
    pub fn detached() -> (r: HaveIBeenPwnedParser)
        ensures
            r.wf(),
            r.spec_file_size() is None,
            r.spec_index() is None,
    {
        HaveIBeenPwnedParser { known_password_hashes: None, file_size: 0, file_backed: false }
    }

    /// Get the size of the original password file, as captured when the
    /// handle was constructed; unavailable only for a handle that was never
    /// file-backed.
    pub fn get_file_size(&self) -> (r: Option<u64>)
        ensures
            r == self.spec_file_size(),
    {
        if self.file_backed {
            return Some(self.file_size);
        }
        None
    }

    /// Builds the lookup index from a fully drained entry sequence, inserting
    /// every entry's hash and count in order: an entry seen later overwrites
    /// an earlier one bearing the same hash.
    pub fn build_index(&mut self, entries: &Vec<PasswordHashEntry>)
        ensures
            final(self).wf(),
            final(self).spec_index() == Some(index_of_entries(entries@)),
            final(self).spec_file_size() == old(self).spec_file_size(),
    {
        let mut idx = HashCountIndex::new();
        let n = entries.len();
        let mut i: usize = 0;
        proof {
            assert(entries@.subrange(0, 0) =~= Seq::<PasswordHashEntry>::empty());
        }
        while i < n
            invariant
                i <= n,
                n == entries@.len(),
                idx.wf(),
                idx@ == index_of_entries(entries@.subrange(0, i as int)),
            decreases n - i,
        {
            let hash = entries[i].hash.clone();
            let count = entries[i].occurrences;
            idx.insert(hash, count);
            proof {
                assert(entries@.subrange(0, i + 1).drop_last() =~= entries@.subrange(0, i as int));
                assert(entries@.subrange(0, i + 1).last() == entries@[i as int]);
            }
            i = i + 1;
        }
        proof {
            assert(entries@.subrange(0, n as int) =~= entries@);
        }
        self.known_password_hashes = Some(idx);
    }

    /// Get the number of occurrences of a password according to the loaded
    /// hash file: the count stored under the password's SHA-1 hex digest,
    /// zero when the password is absent or no index has been built yet.
    pub fn get_usage_count(&self, password: &str) -> (r: u64)
        requires
            self.wf(),
            password@.len() < 0x800_0000_0000_0000,
        ensures
            r == self.spec_usage_count(password@),
    {
        match &self.known_password_hashes {
            Some(idx) => {
                let password_hash = sha1_hex(password);
                idx.get_count(&password_hash)
            },
            None => 0,
        }
    }
}

/// Law: a query for a password whose digest matches a stored entry, with no
/// later entry bearing the same hash, answers that entry's stored count.
pub proof fn lemma_query_matches_stored_entry(
    parser: HaveIBeenPwnedParser,
    entries: Seq<PasswordHashEntry>,
    password: Seq<char>,
    i: int,
)
    requires
        parser.spec_index() == Some(index_of_entries(entries)),
        0 <= i < entries.len(),
        entries[i].hash@ == sha1_hex_of(password),
        forall|j: int| i < j < entries.len() ==> (#[trigger] entries[j].hash@) != sha1_hex_of(
            password,
        ),
    ensures
        parser.spec_usage_count(password) == entries[i].occurrences,
{
    crate::index::lemma_last_duplicate_wins(entries, i);
}

/// Law: a query for a password no entry's hash matches answers zero, and so
/// does any query made before an index is built.
pub proof fn lemma_query_absent_returns_zero(
    parser: HaveIBeenPwnedParser,
    entries: Seq<PasswordHashEntry>,
    password: Seq<char>,
)
    requires
        parser.spec_index() is None || (parser.spec_index() == Some(index_of_entries(entries))
            && forall|i: int|
            0 <= i < entries.len() ==> (#[trigger] entries[i].hash@) != sha1_hex_of(password)),
    ensures
        parser.spec_usage_count(password) == 0,
{
    if parser.spec_index() is Some {
        crate::index::lemma_index_holds_exactly_seen_hashes(entries, sha1_hex_of(password));
    }
}

} // verus!
