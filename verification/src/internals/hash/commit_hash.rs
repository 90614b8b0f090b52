//! The hash value that names every stored object.

use std::collections::hash_map::DefaultHasher;
use std::hash::Hasher;
use std::path::PathBuf;
use vstd::prelude::*;
use vstd::std_specs::hash::DefaultHasherAdditionalSpecFns;
use vstd::utf8::*;

use crate::text::{decimal_numeral, lemma_parse_decimal_numeral, spec_parse_u64, str_bytes, u64_to_decimal};

verus! {

/// The hash that `Hash for str` feeds a fresh `DefaultHasher` with: the
/// UTF-8 bytes of the string, then the terminator byte `0xFF`.
pub open spec fn spec_str_hash(s: Seq<char>) -> u64 {
    DefaultHasher::spec_finish(seq![encode_utf8(s), seq![0xFFu8]])
}

/// The eight big-endian bytes of a 64-bit value.
pub open spec fn spec_be_bytes(v: u64) -> Seq<u8> {
    seq![
        (v >> 56u64) as u8,
        (v >> 48u64) as u8,
        (v >> 40u64) as u8,
        (v >> 32u64) as u8,
        (v >> 24u64) as u8,
        (v >> 16u64) as u8,
        (v >> 8u64) as u8,
        v as u8,
    ]
}

/// The 64-bit value of eight big-endian bytes.
pub open spec fn spec_be_value(b: Seq<u8>) -> u64 {
    ((b[0] as u64) << 56u64) | ((b[1] as u64) << 48u64) | ((b[2] as u64) << 40u64) | ((
    b[3] as u64) << 32u64) | ((b[4] as u64) << 24u64) | ((b[5] as u64) << 16u64) | ((
    b[6] as u64) << 8u64) | (b[7] as u64)
}

proof fn lemma_be_value_of_bytes(v: u64)
    by (bit_vector)
    ensures
        ((((v >> 56u64) as u8) as u64) << 56u64) | ((((v >> 48u64) as u8) as u64) << 48u64) | ((((v
            >> 40u64) as u8) as u64) << 40u64) | ((((v >> 32u64) as u8) as u64) << 32u64) | ((((v
            >> 24u64) as u8) as u64) << 24u64) | ((((v >> 16u64) as u8) as u64) << 16u64) | ((((v
            >> 8u64) as u8) as u64) << 8u64) | ((v as u8) as u64) == v,
{
}

proof fn lemma_bytes_of_be_value(b0: u8, b1: u8, b2: u8, b3: u8, b4: u8, b5: u8, b6: u8, b7: u8)
    by (bit_vector)
    ensures
        ({
            let v: u64 = ((b0 as u64) << 56u64) | ((b1 as u64) << 48u64) | ((b2 as u64) << 40u64)
                | ((b3 as u64) << 32u64) | ((b4 as u64) << 24u64) | ((b5 as u64) << 16u64) | ((
            b6 as u64) << 8u64) | (b7 as u64);
            &&& (v >> 56u64) as u8 == b0
            &&& (v >> 48u64) as u8 == b1
            &&& (v >> 40u64) as u8 == b2
            &&& (v >> 32u64) as u8 == b3
            &&& (v >> 24u64) as u8 == b4
            &&& (v >> 16u64) as u8 == b5
            &&& (v >> 8u64) as u8 == b6
            &&& v as u8 == b7
        }),
{
}

/// Reading back the big-endian bytes of a value gives the value.
pub proof fn lemma_be_roundtrip(v: u64)
    ensures
        spec_be_value(spec_be_bytes(v)) == v,
{
    lemma_be_value_of_bytes(v);
}

/// Writing the value of eight bytes gives back the bytes.
pub proof fn lemma_be_bytes_roundtrip(b: Seq<u8>)
    requires
        b.len() == 8,
    ensures
        spec_be_bytes(spec_be_value(b)) == b,
{
    lemma_bytes_of_be_value(b[0], b[1], b[2], b[3], b[4], b[5], b[6], b[7]);
    assert(spec_be_bytes(spec_be_value(b)) =~= b);
}

/// Big-endian bytes of a 64-bit value.
pub fn u64_to_be_bytes(v: u64) -> (r: [u8; 8])
    ensures
        r@ == spec_be_bytes(v),
{
    let r: [u8; 8] = [
        (v >> 56u64) as u8,
        (v >> 48u64) as u8,
        (v >> 40u64) as u8,
        (v >> 32u64) as u8,
        (v >> 24u64) as u8,
        (v >> 16u64) as u8,
        (v >> 8u64) as u8,
        v as u8,
    ];
    assert(r@ =~= spec_be_bytes(v));
    r
}

/// The 64-bit value of eight big-endian bytes.
pub fn u64_from_be_bytes(b: &[u8; 8]) -> (r: u64)
    ensures
        r == spec_be_value(b@),
{
    ((b[0] as u64) << 56u64) | ((b[1] as u64) << 48u64) | ((b[2] as u64) << 40u64) | ((
    b[3] as u64) << 32u64) | ((b[4] as u64) << 24u64) | ((b[5] as u64) << 16u64) | ((
    b[6] as u64) << 8u64) | (b[7] as u64)
}

/// A file system path, carried through as an opaque value.
#[verifier::external_type_specification]
#[verifier::external_body]
pub struct ExPathBuf(PathBuf);

/// The path that `PathBuf::from` makes of a text.
pub uninterp spec fn path_buf_of(s: Seq<char>) -> PathBuf;

/// `PathBuf::from`: the path made of the given text, a function of the
/// text alone.
#[verifier::external_body]
fn path_buf_from(s: String) -> (r: PathBuf)
    ensures
        r == path_buf_of(s@),
{
    PathBuf::from(s)
}

/// Main structure used for hashing.
/// Any hashing is done via a `CommitHash` (not just commits, also blobs,
/// trees, etc.).
#[derive(Debug, PartialEq, Eq, Structural, Clone, Copy, Hash)]
pub struct CommitHash {
    pub hash: u64,
}

impl CommitHash {
    /// The length of a hash in bytes.
    pub const HASH_LEN: usize = 8;

    /// The hash of a string, as `Hash for str` computes it with a fresh
    /// `DefaultHasher`.
    pub fn new(s: &str) -> (r: Self)
        ensures
            r.hash == spec_str_hash(s@),
    {
        let bytes = str_bytes(s);
        let mut h = DefaultHasher::new();
        h.write(bytes.as_slice());
        let terminator: [u8; 1] = [0xFFu8];
        h.write(terminator.as_slice());
        proof {
            assert(terminator@ =~= seq![0xFFu8]);
            assert(h@ =~= seq![encode_utf8(s@), seq![0xFFu8]]);
        }
        Self { hash: h.finish() }
    }

    /// The file name under which an object with this hash is stored: the
    /// path made of the hash's decimal numeral.
    pub fn to_path_buf(&self) -> (r: PathBuf)
        ensures
            r == path_buf_of(decimal_numeral(self.hash as nat)),
    {
        path_buf_from(u64_to_decimal(self.hash))
    }

    /// The decimal numeral of the hash.
    pub fn to_str(&self) -> (r: String)
        ensures
            r@ == decimal_numeral(self.hash as nat),
    {
        u64_to_decimal(self.hash)
    }

    /// The eight big-endian bytes of the hash.
    pub fn to_bytes(&self) -> (r: [u8; 8])
        ensures
            r@ == spec_be_bytes(self.hash),
    {
        u64_to_be_bytes(self.hash)
    }

    /// The hash whose big-endian bytes are `bytes`.
    pub fn from_bytes(bytes: &[u8; 8]) -> (r: Self)
        ensures
            r.hash == spec_be_value(bytes@),
    {
        Self { hash: u64_from_be_bytes(bytes) }
    }
}

/// Reading the bytes of a hash gives back the hash.
pub proof fn law_hash_bytes_roundtrip(h: CommitHash)
    ensures
        spec_be_value(spec_be_bytes(h.hash)) == h.hash,
{
    lemma_be_roundtrip(h.hash);
}

/// Reading the text of a hash as a `u64` numeral gives back the hash.
pub proof fn law_hash_text_roundtrip(h: CommitHash)
    ensures
        spec_parse_u64(decimal_numeral(h.hash as nat)) == Some(h.hash),
{
    lemma_parse_decimal_numeral(h.hash);
}

} // verus!
