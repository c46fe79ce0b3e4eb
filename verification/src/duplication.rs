//! Duplicate detection against the digest ledger.
//!
//! A file counts as a duplicate when a file of the same size with the
//! same content digest has been seen before.  Reading file contents and
//! moving duplicates aside is the surrounding binary's job; the verified
//! side owns the classification and the ledger update.

use vstd::prelude::*;

use crate::config::Config;
use crate::hash_table::HashTable;

verus! {

/// The content digest of a byte string, as 64 lowercase hexadecimal
/// characters; a function of the bytes alone.
pub uninterp spec fn blake3_hex_of(data: Seq<u8>) -> Seq<char>;

/// Relies on `blake3::hash` and `blake3::Hash::to_hex`: the 256-bit
/// digest of the input bytes, a pure function of the bytes alone,
/// rendered as exactly 64 lowercase hexadecimal characters.
#[verifier::external_body]
fn hash_bytes_hex(data: &[u8]) -> (r: String)
    ensures
        r@ == blake3_hex_of(data@),
        r@.len() == 64,
{
    let digest = blake3::hash(data);
    digest.to_hex().as_str().to_string()
}

/// The content digest of a byte string, 64 hexadecimal characters.
pub fn calculate_data_hash(data: &[u8]) -> (r: String)
    ensures
        r@ == blake3_hex_of(data@),
        r@.len() == 64,
{
    hash_bytes_hex(data)
}

/// How one file was classified against the ledger.
#[derive(Debug, Clone, Copy, PartialEq, Eq, Structural)]
pub enum FileClass {
    /// Same size and same digest as a recorded file.
    Duplicate,
    /// Recorded now as new.
    New,
}

/// Classifies a file's content against the ledger and records it when it
/// is new: a duplicate is exactly a file whose size was known and whose
/// digest was already recorded under that size.  Duplicates leave the
/// ledger untouched; new files are recorded.
pub fn register_file(table: &mut HashTable, size: u64, data: &[u8]) -> (r: FileClass)
    requires
        old(table).wf(),
    ensures
        final(table).wf(),
        r == FileClass::Duplicate <==> old(table).spec_contains(size, blake3_hex_of(data@)),
        r == FileClass::Duplicate ==> *final(table) == *old(table),
        r == FileClass::New ==> {
            &&& final(table).spec_contains(size, blake3_hex_of(data@))
            &&& forall|s2: u64, h2: Seq<char>|
                #[trigger] final(table).spec_contains(s2, h2) <==> old(table).spec_contains(s2, h2)
                    || (s2 == size && h2 == blake3_hex_of(data@))
        },
{
    if !table.has_size(size) {
        let hash = hash_bytes_hex(data);
        proof {
            lemma_no_size_no_hash(*table, size, blake3_hex_of(data@));
        }
        table.insert(size, hash);
        return FileClass::New;
    }
    let hash = hash_bytes_hex(data);
    if table.contains_hash(size, hash.as_str()) {
        FileClass::Duplicate
    } else {
        table.insert(size, hash);
        FileClass::New
    }
}

/// A digest cannot be recorded under a size the ledger does not know.
proof fn lemma_no_size_no_hash(table: HashTable, size: u64, hash: Seq<char>)
    requires
        !table.spec_has_size(size),
    ensures
        !table.spec_contains(size, hash),
{
    if table.spec_contains(size, hash) {
        crate::hash_table::lemma_contains_implies_size(table, size, hash);
    }
}

/// The duplicate-detection run: configuration plus the fixed location of
/// the persisted ledger.
pub struct DuplicationChecker {
    pub config: Config,
}

impl DuplicationChecker {
    /// Wraps the configuration for one run.
    pub fn new(config: Config) -> (r: DuplicationChecker)
        ensures
            r.config == config,
    {
        DuplicationChecker { config }
    }

    /// Where the digest ledger is persisted: next to the program, so it
    /// moves with it.
    pub fn get_hash_table_path(&self) -> (r: String)
        ensures
            r@ == "hash_table.json"@,
    {
        "hash_table.json".to_owned()
    }
}

} // verus!
