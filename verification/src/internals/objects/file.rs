//! File contents and file metadata as they are hashed and stored.

use std::time::{SystemTime, UNIX_EPOCH};
use vstd::prelude::*;

use crate::internals::hash::commit_hash::{
    lemma_be_bytes_roundtrip, lemma_be_roundtrip, spec_be_bytes, spec_be_value, u64_from_be_bytes,
    u64_to_be_bytes,
};

verus! {

/// The current time as whole seconds since the Unix epoch, read through
/// `SystemTime::now`, `duration_since(UNIX_EPOCH)` and `as_secs`; `None` when
/// the clock is set before the epoch. Nothing is promised of the value: it is
/// the time.
#[verifier::external_body]
fn now_unix_seconds() -> Option<u64> {
    match SystemTime::now().duration_since(UNIX_EPOCH) {
        Ok(d) => Some(d.as_secs()),
        Err(_) => None,
    }
}

/// The content of a file together with its name and metadata.
#[derive(Debug, PartialEq)]
pub struct FileContent {
    /// File name
    pub fname: String,
    /// File content as a string
    pub content: String,
    /// Metadata
    pub metadata: FileMetadata,
}

impl FileContent {
    pub fn new(fname: String, content: String, metadata: FileMetadata) -> (r: Self)
        ensures
            r.fname == fname,
            r.content == content,
            r.metadata == metadata,
    {
        Self { fname, content, metadata }
    }
}

/// Metadata of a file: the time of its last modification, in seconds since
/// the Unix epoch, and its size in bytes.
#[derive(Debug, Clone, Copy, PartialEq, Eq, Structural)]
pub struct FileMetadata {
    pub last_modified: u64,
    pub filesize: u64,
}

/// The encoding of metadata: | last_modified (8 bytes) | filesize (8 bytes) |,
/// both big-endian.
pub open spec fn spec_metadata_bytes(m: FileMetadata) -> Seq<u8> {
    spec_be_bytes(m.last_modified) + spec_be_bytes(m.filesize)
}

/// The metadata that 16 bytes encode.
pub open spec fn spec_metadata_of(b: Seq<u8>) -> FileMetadata {
    FileMetadata {
        last_modified: spec_be_value(b.subrange(0, 8)),
        filesize: spec_be_value(b.subrange(8, 16)),
    }
}

impl FileMetadata {
    pub const BYTE_LEN: usize = 16;

    /// Metadata stamped with the current time (0 for a clock set before the
    /// Unix epoch) and the placeholder size 1234.
    pub fn default() -> (r: Self)
        ensures
            r.filesize == 1234,
    {
        let last_modified = match now_unix_seconds() {
            Some(secs) => secs,
            None => 0,
        };
        Self { last_modified, filesize: 1234 }
    }

    pub fn new(last_modified: u64, filesize: u64) -> (r: Self)
        ensures
            r.last_modified == last_modified,
            r.filesize == filesize,
    {
        Self { last_modified, filesize }
    }

    /// | last_modified (8b) | filesize (8b) |
    pub fn to_bytes(&self) -> (r: [u8; 16])
        ensures
            r@ == spec_metadata_bytes(*self),
    {
        let a = u64_to_be_bytes(self.last_modified);
        let b = u64_to_be_bytes(self.filesize);
        let r: [u8; 16] = [
            a[0],
            a[1],
            a[2],
            a[3],
            a[4],
            a[5],
            a[6],
            a[7],
            b[0],
            b[1],
            b[2],
            b[3],
            b[4],
            b[5],
            b[6],
            b[7],
        ];
        assert(r@ =~= spec_metadata_bytes(*self));
        r
    }

    /// The metadata encoded by 16 bytes. Bytes of any other length encode
    /// nothing, and give the placeholder metadata of `default`.
    pub fn from_bytes(bytes: &[u8]) -> (r: Option<Self>)
        ensures
            bytes@.len() == 16 ==> r == Some(spec_metadata_of(bytes@)),
            bytes@.len() != 16 ==> (r matches Some(m) && m.filesize == 1234),
    {
        if bytes.len() != 16 {
            return Some(Self::default());
        }
        let a: [u8; 8] = [
            bytes[0],
            bytes[1],
            bytes[2],
            bytes[3],
            bytes[4],
            bytes[5],
            bytes[6],
            bytes[7],
        ];
        let b: [u8; 8] = [
            bytes[8],
            bytes[9],
            bytes[10],
            bytes[11],
            bytes[12],
            bytes[13],
            bytes[14],
            bytes[15],
        ];
        assert(a@ =~= bytes@.subrange(0, 8));
        assert(b@ =~= bytes@.subrange(8, 16));
        Some(Self { last_modified: u64_from_be_bytes(&a), filesize: u64_from_be_bytes(&b) })
    }
}

/// Reading the encoding of metadata gives back the metadata.
pub proof fn law_metadata_roundtrip(m: FileMetadata)
    ensures
        spec_metadata_bytes(m).len() == 16,
        spec_metadata_of(spec_metadata_bytes(m)) == m,
{
    let b = spec_metadata_bytes(m);
    assert(b.subrange(0, 8) =~= spec_be_bytes(m.last_modified));
    assert(b.subrange(8, 16) =~= spec_be_bytes(m.filesize));
    lemma_be_roundtrip(m.last_modified);
    lemma_be_roundtrip(m.filesize);
}

/// Encoding the metadata that 16 bytes encode gives back the bytes.
pub proof fn law_metadata_bytes_roundtrip(b: Seq<u8>)
    requires
        b.len() == 16,
    ensures
        spec_metadata_bytes(spec_metadata_of(b)) == b,
{
    lemma_be_bytes_roundtrip(b.subrange(0, 8));
    lemma_be_bytes_roundtrip(b.subrange(8, 16));
    assert(spec_metadata_bytes(spec_metadata_of(b)) =~= b);
}

} // verus!
