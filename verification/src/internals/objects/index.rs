//! The staging area and its on-disk encoding.

use vstd::prelude::*;
use vstd::utf8::*;

use crate::bytes::{
    field_end, find_field_end, join_separated, join_terminated, lemma_field_end,
    lemma_field_end_of_piece, lemma_join_terminated_separated, lemma_join_terminated_take,
};
use crate::internals::hash::commit_hash::{
    lemma_be_roundtrip, spec_be_bytes, spec_be_value, CommitHash,
};
use crate::internals::objects::diff::{find_path, has_path, paths_unique};
use crate::internals::objects::file::{
    law_metadata_roundtrip, spec_metadata_bytes, spec_metadata_of, FileMetadata,
};
use crate::text::{lemma_encode_utf8_ascii_byte, str_bytes, string_from_utf8_lossy, utf8_lossy};

verus! {

/// Entry in the index structure.
#[derive(Clone, Debug)]
pub struct IndexTreeEntry {
    pub metadata: FileMetadata,
    pub hash: CommitHash,
    pub filepath: String,
}

/// What an entry holds, with its path as characters.
pub open spec fn entry_view(e: IndexTreeEntry) -> (FileMetadata, u64, Seq<char>) {
    (e.metadata, e.hash.hash, e.filepath@)
}

/// The stored form of an entry:
/// | metadata (16 bytes) | hash (8 bytes) | filepath (UTF-8, to the end) |
pub open spec fn spec_entry_bytes(e: IndexTreeEntry) -> Seq<u8> {
    spec_metadata_bytes(e.metadata) + spec_be_bytes(e.hash.hash) + encode_utf8(e.filepath@)
}

/// A path read as `from_utf8_lossy` reads it: valid UTF-8 decoded as it
/// is.
pub open spec fn spec_lossy_path(b: Seq<u8>) -> Seq<char> {
    if valid_utf8(b) {
        decode_utf8(b)
    } else {
        utf8_lossy(b)
    }
}

/// The entry that bytes hold: `None` when they are shorter than the fixed
/// part and one byte of path; the path is read as `from_utf8_lossy` reads it.
pub open spec fn spec_entry_parse(b: Seq<u8>) -> Option<(FileMetadata, u64, Seq<char>)> {
    if b.len() < 25 {
        None
    } else {
        Some(
            (
                spec_metadata_of(b.subrange(0, 16)),
                spec_be_value(b.subrange(16, 24)),
                spec_lossy_path(b.subrange(24, b.len() as int)),
            ),
        )
    }
}

impl IndexTreeEntry {
    pub fn new(metadata: FileMetadata, hash: CommitHash, filepath: String) -> (r: Self)
        ensures
            r.metadata == metadata,
            r.hash == hash,
            r.filepath == filepath,
    {
        Self { metadata, hash, filepath }
    }

    /// IndexTreeEntry -> bytes
    /// | metadata (16b) | hash (8b) | filepath (n bytes) |
    pub fn to_bytes(&self) -> (r: Vec<u8>)
        ensures
            r@ == spec_entry_bytes(*self),
    {
        let md = self.metadata.to_bytes();
        let h = self.hash.to_bytes();
        let mut bytes: Vec<u8> = Vec::new();
        let mut i: usize = 0;
        while i < 16
            invariant
                0 <= i <= 16,
                md@.len() == 16,
                bytes@ == md@.take(i as int),
            decreases 16 - i,
        {
            bytes.push(md[i]);
            i += 1;
            assert(bytes@ =~= md@.take(i as int));
        }
        let mut j: usize = 0;
        while j < 8
            invariant
                0 <= j <= 8,
                md@.len() == 16,
                h@.len() == 8,
                bytes@ == md@ + h@.take(j as int),
            decreases 8 - j,
        {
            bytes.push(h[j]);
            j += 1;
            assert(bytes@ =~= md@ + h@.take(j as int));
        }
        assert(md@.take(16) =~= md@);
        assert(h@.take(8) =~= h@);
        let mut path = str_bytes(self.filepath.as_str());
        bytes.append(&mut path);
        bytes
    }

    /// Reads an entry; bytes shorter than the fixed part and one byte of
    /// path are refused.
    pub fn from_bytes(bytes: &[u8]) -> (r: Option<Self>)
        ensures
            match spec_entry_parse(bytes@) {
                None => r is None,
                Some(v) => r matches Some(e) && entry_view(e) == v,
            },
    {
        if bytes.len() < 25 {
            return None;
        }
        let metadata = match FileMetadata::from_bytes(vstd::slice::slice_subrange(bytes, 0, 16)) {
            Some(m) => m,
            None => {
                return None;
            },
        };
        let hb: [u8; 8] = [
            bytes[16],
            bytes[17],
            bytes[18],
            bytes[19],
            bytes[20],
            bytes[21],
            bytes[22],
            bytes[23],
        ];
        assert(hb@ =~= bytes@.subrange(16, 24));
        let hash = CommitHash::from_bytes(&hb);
        let filepath = string_from_utf8_lossy(vstd::slice::slice_subrange(bytes, 24, bytes.len()));
        Some(Self { metadata, hash, filepath })
    }
}

/// Reading the stored form of an entry with a nonempty path gives back the
/// entry.
pub proof fn law_index_entry_roundtrip(e: IndexTreeEntry)
    requires
        e.filepath@.len() > 0,
    ensures
        spec_entry_parse(spec_entry_bytes(e)) == Some(entry_view(e)),
{
    let b = spec_entry_bytes(e);
    let pb = encode_utf8(e.filepath@);
    law_metadata_roundtrip(e.metadata);
    lemma_be_roundtrip(e.hash.hash);
    crate::text::lemma_encode_utf8_len(e.filepath@);
    assert(b.subrange(0, 16) =~= spec_metadata_bytes(e.metadata));
    assert(b.subrange(16, 24) =~= spec_be_bytes(e.hash.hash));
    assert(b.subrange(24, b.len() as int) =~= pb);
    encode_utf8_valid_utf8(e.filepath@);
    encode_utf8_decode_utf8(e.filepath@);
}

/// Structure that represents the staging area.
/// The index is cached in the gitrs/index file.
pub struct Index {
    entries: Vec<IndexTreeEntry>,
}

/// The stored forms of entries, in order.
pub open spec fn spec_entries_bytes(es: Seq<IndexTreeEntry>) -> Seq<Seq<u8>> {
    es.map_values(|e: IndexTreeEntry| spec_entry_bytes(e))
}

/// The stored form of an index: the entries' stored forms with the
/// separator 0 between each two of them.
pub open spec fn spec_index_bytes(es: Seq<IndexTreeEntry>) -> Seq<u8> {
    join_separated(spec_entries_bytes(es), 0u8)
}

/// The entries that stored bytes hold, read one after another: each entry
/// is its fixed 24-byte part followed by its path, which runs to the next
/// separator 0 or to the end; after a separator another entry must follow.
/// `None` when an entry is cut short or has an empty path.
pub open spec fn spec_index_parse(b: Seq<u8>) -> Option<Seq<(FileMetadata, u64, Seq<char>)>>
    decreases b.len(),
{
    if b.len() < 25 {
        None
    } else {
        let end = field_end(b, 24, 0u8);
        match spec_entry_parse(b.take(end)) {
            None => None,
            Some(e) => if end == b.len() {
                Some(seq![e])
            } else {
                match spec_index_parse(b.skip(end + 1)) {
                    Some(es) => Some(seq![e] + es),
                    None => None,
                }
            },
        }
    }
}

/// Whether entry `k` of `s` is the last one with its path.
pub open spec fn is_last_for_path(s: Seq<IndexTreeEntry>, k: int) -> bool {
    forall|m: int| k < m < s.len() ==> (#[trigger] s[m]).filepath@ != s[k].filepath@
}

/// The paths of entries, in order.
pub open spec fn entry_paths(s: Seq<IndexTreeEntry>) -> Seq<Seq<char>> {
    s.map_values(|e: IndexTreeEntry| e.filepath@)
}

/// The distinct paths of entries, in the order they first occur.
pub open spec fn first_paths(s: Seq<IndexTreeEntry>) -> Seq<Seq<char>>
    decreases s.len(),
{
    if s.len() == 0 {
        seq![]
    } else if has_path(s.drop_last(), s.last().filepath@) {
        first_paths(s.drop_last())
    } else {
        first_paths(s.drop_last()).push(s.last().filepath@)
    }
}

/// Whether `e` is an entry of `s` that no later entry of `s` replaces.
pub open spec fn stands_last(s: Seq<IndexTreeEntry>, e: IndexTreeEntry) -> bool {
    exists|j: int| 0 <= j < s.len() && s[j] == e && is_last_for_path(s, j)
}

impl Index {
    /// Separates entries in the index file.
    pub const INDEX_ENTRY_SEPARATOR: u8 = 0u8;

    /// An index holding the given entries.
    pub fn new(entries: Vec<IndexTreeEntry>) -> (r: Self)
        ensures
            r.spec_entries() == entries@,
    {
        Self { entries }
    }

    /// The entries of the index, in order.
    pub closed spec fn spec_entries(&self) -> Seq<IndexTreeEntry> {
        self.entries@
    }

    /// | IndexTreeEntry_1 | INDEX_ENTRY_SEPARATOR | ... | INDEX_ENTRY_SEPARATOR | IndexTreeEntry_n |
    pub fn to_bytes(&self) -> (r: Vec<u8>)
        ensures
            r@ == spec_index_bytes(self.spec_entries()),
    {
        let ghost parts = spec_entries_bytes(self.entries@);
        let mut bytes: Vec<u8> = Vec::new();
        let mut i: usize = 0;
        while i < self.entries.len()
            invariant
                0 <= i <= self.entries@.len(),
                parts == spec_entries_bytes(self.entries@),
                bytes@ == join_terminated(parts.take(i as int), 0u8),
            decreases self.entries@.len() - i,
        {
            let mut b = self.entries[i].to_bytes();
            proof {
                lemma_join_terminated_take(parts, 0u8, i as int);
            }
            bytes.append(&mut b);
            bytes.push(Self::INDEX_ENTRY_SEPARATOR);
            i += 1;
        }
        assert(parts.take(i as int) =~= parts);
        if bytes.len() > 0 {
            proof {
                if parts.len() == 0 {
                    assert(join_terminated(parts, 0u8) =~= Seq::<u8>::empty());
                }
                lemma_join_terminated_separated(parts, 0u8);
            }
            bytes.pop();
        } else {
            proof {
                if parts.len() > 0 {
                    lemma_join_terminated_separated(parts, 0u8);
                }
            }
        }
        bytes
    }

    /// One entry per path, for comparing snapshots: of the entries with a
    /// path, the last one stands; paths come in the order they first occur.
    pub fn to_map(&self) -> (r: Vec<IndexTreeEntry>)
        ensures
            paths_unique(r@),
            forall|p: Seq<char>|
                #![trigger has_path(r@, p)]
                #![trigger has_path(self.spec_entries(), p)]
                has_path(r@, p) <==> has_path(self.spec_entries(), p),
            forall|k: int| 0 <= k < r@.len() ==> stands_last(self.spec_entries(), #[trigger] r@[k]),
            entry_paths(r@) == first_paths(self.spec_entries()),
    {
        let ghost es = self.entries@;
        let mut res: Vec<IndexTreeEntry> = Vec::new();
        let mut i: usize = 0;
        while i < self.entries.len()
            invariant
                0 <= i <= es.len(),
                es == self.entries@,
                paths_unique(res@),
                forall|p: Seq<char>|
                    #[trigger] has_path(res@, p) <==> exists|j: int|
                        0 <= j < i && (#[trigger] es[j]).filepath@ == p,
                forall|k: int|
                    0 <= k < res@.len() ==> exists|j: int|
                        0 <= j < i && es[j] == (#[trigger] res@[k]) && forall|m: int|
                            j < m < i ==> (#[trigger] es[m]).filepath@ != res@[k].filepath@,
                entry_paths(res@) == first_paths(es.take(i as int)),
            decreases es.len() - i,
        {
            let e = IndexTreeEntry {
                metadata: self.entries[i].metadata,
                hash: self.entries[i].hash,
                filepath: self.entries[i].filepath.clone(),
            };
            assert(e == es[i as int]);
            let ghost old_res = res@;
            let ghost p = e.filepath@;
            proof {
                let pre = es.take(i as int);
                assert(es.take(i + 1).drop_last() =~= pre);
                assert(es.take(i + 1).last() == es[i as int]);
                if has_path(pre, p) {
                    let c = choose|c: int| 0 <= c < pre.len() && (#[trigger] pre[c]).filepath@ == p;
                    assert(es[c].filepath@ == p);
                    assert(has_path(old_res, p));
                }
                if has_path(old_res, p) {
                    let j = choose|j: int| 0 <= j < i && (#[trigger] es[j]).filepath@ == p;
                    assert(pre[j] == es[j]);
                    assert(has_path(pre, p));
                }
            }
            match find_path(&res, e.filepath.as_str()) {
                Some(idx) => {
                    res.set(idx, e);
                    proof {
                        assert(entry_paths(res@) =~= entry_paths(old_res));
                        assert forall|k: int| 0 <= k < res@.len() implies exists|j: int|
                            0 <= j < i + 1 && es[j] == (#[trigger] res@[k]) && forall|m: int|
                                j < m < i + 1 ==> (#[trigger] es[m]).filepath@
                                    != res@[k].filepath@ by {
                            if k == idx {
                                assert(es[i as int] == res@[k]);
                            } else {
                                let j = choose|j: int|
                                    0 <= j < i && es[j] == (#[trigger] old_res[k]) && forall|m: int|
                                        j < m < i ==> (#[trigger] es[m]).filepath@
                                            != old_res[k].filepath@;
                                assert(old_res[k] == res@[k]);
                                assert(old_res[idx as int].filepath@ == p);
                                assert forall|m: int| j < m < i + 1 implies (#[trigger] es[m]).filepath@
                                    != res@[k].filepath@ by {
                                    if m == i {
                                        assert(old_res[k].filepath@ != old_res[idx as int].filepath@);
                                    }
                                }
                            }
                        }
                        assert forall|q: Seq<char>| #[trigger] has_path(res@, q) <==> exists|j: int|
                            0 <= j < i + 1 && (#[trigger] es[j]).filepath@ == q by {
                            if has_path(res@, q) {
                                let c = choose|c: int| 0 <= c < res@.len() && (#[trigger] res@[c]).filepath@ == q;
                                if c == idx {
                                    assert(es[i as int].filepath@ == q);
                                } else {
                                    assert(old_res[c] == res@[c]);
                                    assert(has_path(old_res, q));
                                }
                            }
                            if exists|j: int| 0 <= j < i + 1 && (#[trigger] es[j]).filepath@ == q {
                                let j = choose|j: int| 0 <= j < i + 1 && (#[trigger] es[j]).filepath@ == q;
                                if j == i {
                                    assert(res@[idx as int].filepath@ == q);
                                } else {
                                    assert(has_path(old_res, q));
                                    let c = choose|c: int| 0 <= c < old_res.len() && (#[trigger] old_res[c]).filepath@ == q;
                                    if c == idx {
                                        assert(res@[idx as int].filepath@ == q);
                                    } else {
                                        assert(res@[c] == old_res[c]);
                                    }
                                }
                            }
                        }
                    }
                },
                None => {
                    res.push(e);
                    proof {
                        assert(entry_paths(res@) =~= entry_paths(old_res).push(p));
                        assert forall|k: int| 0 <= k < res@.len() implies exists|j: int|
                            0 <= j < i + 1 && es[j] == (#[trigger] res@[k]) && forall|m: int|
                                j < m < i + 1 ==> (#[trigger] es[m]).filepath@
                                    != res@[k].filepath@ by {
                            if k == old_res.len() {
                                assert(es[i as int] == res@[k]);
                            } else {
                                let j = choose|j: int|
                                    0 <= j < i && es[j] == (#[trigger] old_res[k]) && forall|m: int|
                                        j < m < i ==> (#[trigger] es[m]).filepath@
                                            != old_res[k].filepath@;
                                assert(old_res[k] == res@[k]);
                                assert forall|m: int| j < m < i + 1 implies (#[trigger] es[m]).filepath@
                                    != res@[k].filepath@ by {
                                    if m == i {
                                        if old_res[k].filepath@ == p {
                                            assert(has_path(old_res, p));
                                        }
                                    }
                                }
                            }
                        }
                        assert forall|a: int, b: int|
                            0 <= a < res@.len() && 0 <= b < res@.len() && a != b implies (#[trigger] res@[a]).filepath@ != (
                            #[trigger] res@[b]).filepath@ by {
                            if a == old_res.len() {
                                assert(old_res[b] == res@[b]);
                                if res@[b].filepath@ == p {
                                    assert(has_path(old_res, p));
                                }
                            } else if b == old_res.len() {
                                assert(old_res[a] == res@[a]);
                                if res@[a].filepath@ == p {
                                    assert(has_path(old_res, p));
                                }
                            } else {
                                assert(old_res[a] == res@[a]);
                                assert(old_res[b] == res@[b]);
                            }
                        }
                        assert forall|q: Seq<char>| #[trigger] has_path(res@, q) <==> exists|j: int|
                            0 <= j < i + 1 && (#[trigger] es[j]).filepath@ == q by {
                            if has_path(res@, q) {
                                let c = choose|c: int| 0 <= c < res@.len() && (#[trigger] res@[c]).filepath@ == q;
                                if c == old_res.len() {
                                    assert(es[i as int].filepath@ == q);
                                } else {
                                    assert(old_res[c] == res@[c]);
                                    assert(has_path(old_res, q));
                                }
                            }
                            if exists|j: int| 0 <= j < i + 1 && (#[trigger] es[j]).filepath@ == q {
                                let j = choose|j: int| 0 <= j < i + 1 && (#[trigger] es[j]).filepath@ == q;
                                if j == i {
                                    assert(res@[old_res.len() as int].filepath@ == q);
                                } else {
                                    assert(has_path(old_res, q));
                                    let c = choose|c: int| 0 <= c < old_res.len() && (#[trigger] old_res[c]).filepath@ == q;
                                    assert(res@[c] == old_res[c]);
                                }
                            }
                        }
                    }
                },
            }
            i += 1;
        }
        proof {
            assert(es.take(i as int) =~= es);
            assert forall|q: Seq<char>| #[trigger] has_path(res@, q) <==> has_path(es, q) by {
                if has_path(es, q) {
                    let j = choose|j: int| 0 <= j < es.len() && (#[trigger] es[j]).filepath@ == q;
                    assert(es[j].filepath@ == q);
                }
            }
            assert(self.spec_entries() == es);
            assert forall|k: int| 0 <= k < res@.len() implies stands_last(self.spec_entries(), #[trigger] res@[k]) by {
                assert(i == es.len());
                let j = choose|j: int|
                    0 <= j < i && es[j] == (#[trigger] res@[k]) && forall|m: int|
                        j < m < i ==> (#[trigger] es[m]).filepath@ != res@[k].filepath@;
                assert(is_last_for_path(es, j));
                assert(0 <= j < es.len() && es[j] == res@[k]);
            }
        }
        res
    }

    /// Reads an index, entry after entry; bytes that do not hold a sequence
    /// of entries are refused.
    pub fn from_bytes(bytes: Vec<u8>) -> (r: Option<Self>)
        ensures
            match spec_index_parse(bytes@) {
                None => r is None,
                Some(vs) => r matches Some(idx) && idx.spec_entries().map_values(
                    |e: IndexTreeEntry| entry_view(e),
                ) == vs,
            },
    {
        let b = bytes.as_slice();
        let mut entries: Vec<IndexTreeEntry> = Vec::new();
        let mut p: usize = 0;
        assert(bytes@.skip(0) =~= bytes@);
        assert(entries@.map_values(|e: IndexTreeEntry| entry_view(e)) =~= Seq::<
            (FileMetadata, u64, Seq<char>),
        >::empty());
        loop
            invariant
                p <= bytes@.len(),
                b@ == bytes@,
                spec_index_parse(bytes@) == (match spec_index_parse(bytes@.skip(p as int)) {
                    Some(es) => Some(entries@.map_values(|e: IndexTreeEntry| entry_view(e)) + es),
                    None => None,
                }),
            decreases bytes@.len() - p,
        {
            let ghost t = bytes@.skip(p as int);
            if b.len() - p < 25 {
                return None;
            }
            let e = find_field_end(b, p + 24, Self::INDEX_ENTRY_SEPARATOR);
            proof {
                assert forall|j: int| 24 <= j < e - p implies t[j] != 0u8 by {
                    assert(t[j] == bytes@[p + j]);
                }
                if e < b.len() {
                    assert(t[e - p] == bytes@[e as int]);
                }
                lemma_field_end(t, 24, 0u8, e - p);
                assert(t.take(e - p) =~= bytes@.subrange(p as int, e as int));
                if e < b.len() {
                    assert(t.skip(e - p + 1) =~= bytes@.skip(e + 1));
                }
            }
            let entry = match IndexTreeEntry::from_bytes(vstd::slice::slice_subrange(b, p, e)) {
                Some(x) => x,
                None => {
                    return None;
                },
            };
            let ghost old_entries = entries@;
            entries.push(entry);
            proof {
                assert(entries@.map_values(|x: IndexTreeEntry| entry_view(x)) =~= old_entries.map_values(
                    |x: IndexTreeEntry| entry_view(x),
                ).push(entry_view(entry)));
            }
            if e == b.len() {
                proof {
                    assert(old_entries.map_values(|x: IndexTreeEntry| entry_view(x)) + seq![
                        entry_view(entry),
                    ] =~= entries@.map_values(|x: IndexTreeEntry| entry_view(x)));
                }
                return Some(Self { entries });
            }
            proof {
                if let Some(es) = spec_index_parse(bytes@.skip(e + 1)) {
                    assert(old_entries.map_values(|x: IndexTreeEntry| entry_view(x)) + (seq![
                        entry_view(entry),
                    ] + es) =~= entries@.map_values(|x: IndexTreeEntry| entry_view(x)) + es);
                }
            }
            p = e + 1;
        }
    }
}

/// Reading the stored form of a nonempty index gives back its entries.
proof fn lemma_index_parse_bytes(es: Seq<IndexTreeEntry>)
    requires
        es.len() > 0,
        forall|i: int|
            0 <= i < es.len() ==> (#[trigger] es[i]).filepath@.len() > 0 && !es[i].filepath@.contains(
                '\0',
            ),
    ensures
        spec_index_parse(spec_index_bytes(es)) == Some(
            es.map_values(|e: IndexTreeEntry| entry_view(e)),
        ),
    decreases es.len(),
{
    let parts = spec_entries_bytes(es);
    let e0 = es[0];
    let rest = es.drop_first();
    let p = spec_entry_bytes(e0);
    law_index_entry_roundtrip(e0);
    crate::text::lemma_encode_utf8_len(e0.filepath@);
    assert(parts[0] == p);
    assert(p.skip(24) =~= encode_utf8(e0.filepath@));
    lemma_encode_utf8_ascii_byte(e0.filepath@, 0u8);
    assert((0u8) as char == '\0');
    assert(p.take(p.len() as int) =~= p);
    assert(parts.drop_first() =~= spec_entries_bytes(rest));
    if es.len() == 1 {
        assert(spec_index_bytes(es) == p);
        lemma_field_end_of_piece(p, seq![], 24, 0u8);
        assert(seq![entry_view(e0)] =~= es.map_values(|e: IndexTreeEntry| entry_view(e)));
    } else {
        assert forall|i: int| 0 <= i < rest.len() implies (#[trigger] rest[i]).filepath@.len() > 0
            && !rest[i].filepath@.contains('\0') by {
            assert(rest[i] == es[i + 1]);
        }
        lemma_index_parse_bytes(rest);
        let j = join_separated(parts.drop_first(), 0u8);
        let b = p + seq![0u8] + j;
        assert(spec_index_bytes(es) == b);
        lemma_field_end_of_piece(p, j, 24, 0u8);
        assert(b.take(p.len() as int) =~= p);
        assert(b.skip(p.len() + 1int) =~= j);
        assert(seq![entry_view(e0)] + rest.map_values(|e: IndexTreeEntry| entry_view(e))
            =~= es.map_values(|e: IndexTreeEntry| entry_view(e)));
    }
}

/// Reading the stored form of an index gives back its entries, for every
/// index whose paths are nonempty and hold no NUL character; the stored
/// form of the empty index holds no bytes and reads as no index.
pub proof fn law_index_roundtrip(es: Seq<IndexTreeEntry>)
    requires
        forall|i: int| 0 <= i < es.len() ==> (#[trigger] es[i]).filepath@.len() > 0,
        forall|i: int| 0 <= i < es.len() ==> !(#[trigger] es[i]).filepath@.contains('\0'),
    ensures
        es.len() > 0 ==> spec_index_parse(spec_index_bytes(es)) == Some(
            es.map_values(|e: IndexTreeEntry| entry_view(e)),
        ),
        es.len() == 0 ==> spec_index_parse(spec_index_bytes(es)) is None,
{
    if es.len() > 0 {
        lemma_index_parse_bytes(es);
    }
}

/// Where an entry's fields stand in its stored form: the metadata in the
/// first 16 bytes, the hash big-endian in the next 8, then the path.
pub proof fn law_entry_layout(e: IndexTreeEntry)
    ensures
        spec_entry_bytes(e).len() == 24 + encode_utf8(e.filepath@).len(),
        spec_metadata_of(spec_entry_bytes(e).subrange(0, 16)) == e.metadata,
        spec_be_value(spec_entry_bytes(e).subrange(16, 24)) == e.hash.hash,
        spec_entry_bytes(e).subrange(24, spec_entry_bytes(e).len() as int) == encode_utf8(
            e.filepath@,
        ),
{
    let b = spec_entry_bytes(e);
    law_metadata_roundtrip(e.metadata);
    lemma_be_roundtrip(e.hash.hash);
    assert(b.subrange(0, 16) =~= spec_metadata_bytes(e.metadata));
    assert(b.subrange(16, 24) =~= spec_be_bytes(e.hash.hash));
    assert(b.subrange(24, b.len() as int) =~= encode_utf8(e.filepath@));
}

} // verus!
