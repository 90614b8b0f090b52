//! Directory snapshots: the in-memory tree, and its flattened, hash-chained
//! form that is stored.

use std::collections::HashMap;
use vstd::prelude::*;
use vstd::utf8::*;

use crate::bytes::{
    field_end, find_field_end, join_separated, join_terminated, lemma_field_end,
    lemma_field_end_of_piece, lemma_join_terminated_separated, lemma_join_terminated_take,
};
use crate::internals::hash::commit_hash::{
    lemma_be_roundtrip, spec_be_bytes, spec_be_value, spec_str_hash, CommitHash,
};
use crate::internals::objects::file::{
    law_metadata_roundtrip, spec_metadata_bytes, spec_metadata_of, FileContent, FileMetadata,
};
use crate::internals::objects::{
    law_object_type_roundtrip, spec_object_type_code, spec_object_type_of, ObjectType,
};
use crate::text::{decimal_numeral, lemma_encode_utf8_ascii_byte, str_bytes, string_from_utf8};

verus! {

broadcast use vstd::std_specs::hash::group_hash_axioms;

/// A snapshot of the file system.
/// A tree consists of all root level nodes which in turn reference their
/// children (if they themselves are sub-directories).
#[derive(Debug, PartialEq)]
pub struct GitrsTree {
    pub dir_name: String,
    pub content: Vec<TreeNode>,
}

/// Nodes in the tree structure.
#[derive(Debug, PartialEq)]
#[allow(inconsistent_fields)]
pub enum TreeNode {
    File {
        /// Filename
        name: String,
        /// The file's content
        content: String,
        /// metadata
        metadata: FileMetadata,
    },
    Subdir {
        /// Subdirectory name
        name: String,
        /// The directory's content
        content: GitrsTree,
    },
}

/// An I/O error, carried through as an opaque value.
#[verifier::external_type_specification]
#[verifier::external_body]
pub struct ExIoError(std::io::Error);

/// An entry of a stored tree: a file (blob) or a sub-directory (tree),
/// referred to by hash.
#[derive(Debug, PartialEq, Clone)]
pub struct FileTreeNode {
    /// File (blob) or Subdir
    pub object_type: ObjectType,
    /// The file or subdir hashed
    pub hash: CommitHash,
    /// File or dir name
    pub filepath: String,
    /// Metadata of dir or file
    pub metadata: FileMetadata,
}

/// What a node holds, with its name as characters.
pub open spec fn node_view(n: FileTreeNode) -> (ObjectType, u64, Seq<char>, FileMetadata) {
    (n.object_type, n.hash.hash, n.filepath@, n.metadata)
}

/// The stored form of a node:
/// | object_type (1 byte) | metadata (16 bytes) | hash (8 bytes) | name (UTF-8, to the end) |
pub open spec fn spec_ft_node_bytes(n: FileTreeNode) -> Seq<u8> {
    seq![spec_object_type_code(n.object_type)] + spec_metadata_bytes(n.metadata) + spec_be_bytes(
        n.hash.hash,
    ) + encode_utf8(n.filepath@)
}

/// Whether bytes can be read as a node without stopping: they hold the
/// fixed-size part, a type byte that names a type, and a UTF-8 name.
pub open spec fn spec_ft_node_readable(b: Seq<u8>) -> bool {
    &&& b.len() >= 25
    &&& b[0] <= 2
    &&& valid_utf8(b.subrange(25, b.len() as int))
}

/// The node that readable bytes hold.
pub open spec fn spec_ft_node_parse(b: Seq<u8>) -> (ObjectType, u64, Seq<char>, FileMetadata) {
    (
        spec_object_type_of(b[0]).unwrap(),
        spec_be_value(b.subrange(17, 25)),
        decode_utf8(b.subrange(25, b.len() as int)),
        spec_metadata_of(b.subrange(1, 17)),
    )
}

impl FileTreeNode {
    /// | object_type (1 byte) | metadata (16 bytes) | hash (8 bytes) | filename (n bytes; until EOF) |
    pub fn to_bytes(&self) -> (r: Vec<u8>)
        ensures
            r@ == spec_ft_node_bytes(*self),
    {
        let mut bytes: Vec<u8> = Vec::new();
        bytes.push(self.object_type.to_u8());
        let md = self.metadata.to_bytes();
        let mut i: usize = 0;
        while i < 16
            invariant
                0 <= i <= 16,
                md@ == spec_metadata_bytes(self.metadata),
                md@.len() == 16,
                bytes@ == seq![spec_object_type_code(self.object_type)] + md@.take(i as int),
            decreases 16 - i,
        {
            bytes.push(md[i]);
            i += 1;
            assert(bytes@ =~= seq![spec_object_type_code(self.object_type)] + md@.take(i as int));
        }
        let h = self.hash.to_bytes();
        let mut j: usize = 0;
        while j < 8
            invariant
                0 <= j <= 8,
                h@ == spec_be_bytes(self.hash.hash),
                h@.len() == 8,
                bytes@ == seq![spec_object_type_code(self.object_type)] + md@ + h@.take(j as int),
            decreases 8 - j,
        {
            bytes.push(h[j]);
            j += 1;
            assert(bytes@ =~= seq![spec_object_type_code(self.object_type)] + md@ + h@.take(
                j as int,
            ));
        }
        assert(md@.take(16) =~= md@);
        assert(h@.take(8) =~= h@);
        let mut name = str_bytes(self.filepath.as_str());
        bytes.append(&mut name);
        bytes
    }

    /// Reads a node from its stored form.
    pub fn from_bytes(bytes: &[u8]) -> (r: Result<Self, std::io::Error>)
        requires
            spec_ft_node_readable(bytes@),
        ensures
            r matches Ok(n) && node_view(n) == spec_ft_node_parse(bytes@),
    {
        let object_type = match ObjectType::from_u8(bytes[0]) {
            Some(t) => t,
            None => {
                proof {
                    assert(false);
                }
                ObjectType::Blob
            },
        };
        let md_slice = vstd::slice::slice_subrange(bytes, 1, 17);
        let metadata = match FileMetadata::from_bytes(md_slice) {
            Some(m) => m,
            None => {
                proof {
                    assert(false);
                }
                FileMetadata::new(0, 0)
            },
        };
        let hb: [u8; 8] = [
            bytes[17],
            bytes[18],
            bytes[19],
            bytes[20],
            bytes[21],
            bytes[22],
            bytes[23],
            bytes[24],
        ];
        assert(hb@ =~= bytes@.subrange(17, 25));
        let hash = CommitHash::from_bytes(&hb);
        let name_slice = vstd::slice::slice_subrange(bytes, 25, bytes.len());
        let name_bytes = vstd::slice::slice_to_vec(name_slice);
        let filepath = match string_from_utf8(name_bytes) {
            Some(s) => s,
            None => {
                proof {
                    assert(false);
                }
                String::new()
            },
        };
        Ok(Self { object_type, hash, filepath, metadata })
    }
}

/// Reading the stored form of a node gives back the node.
pub proof fn law_ft_node_roundtrip(n: FileTreeNode)
    ensures
        spec_ft_node_readable(spec_ft_node_bytes(n)),
        spec_ft_node_parse(spec_ft_node_bytes(n)) == node_view(n),
        spec_ft_node_bytes(n).len() >= 25,
{
    let b = spec_ft_node_bytes(n);
    let mb = spec_metadata_bytes(n.metadata);
    let hb = spec_be_bytes(n.hash.hash);
    let nb = encode_utf8(n.filepath@);
    law_metadata_roundtrip(n.metadata);
    lemma_be_roundtrip(n.hash.hash);
    law_object_type_roundtrip(n.object_type, 0);
    assert(mb.len() == 16);
    assert(hb.len() == 8);
    assert(b.subrange(1, 17) =~= mb);
    assert(b.subrange(17, 25) =~= hb);
    assert(b.subrange(25, b.len() as int) =~= nb);
    encode_utf8_valid_utf8(n.filepath@);
    encode_utf8_decode_utf8(n.filepath@);
}

/// GitrsTree representation on file.
/// Instead of recursive tree references, the hash of the subtree is kept.
#[derive(Debug, Default, PartialEq)]
pub struct FileTree {
    /// Immediate children.
    /// Only chained by hash value
    pub values: Vec<FileTreeNode>,
    /// In memory version of all of the FT's children
    pub children: Option<Vec<FileTree>>,
    /// Blob contents by their hash values.
    /// Only stored in the root.
    pub blobs: Option<HashMap<u64, String>>,
}

/// The stored forms of the nodes, in order.
pub open spec fn spec_nodes_bytes(ns: Seq<FileTreeNode>) -> Seq<Seq<u8>> {
    ns.map_values(|n: FileTreeNode| spec_ft_node_bytes(n))
}

/// The stored form of a tree: the nodes' stored forms with the separator
/// byte `\n` between each two of them.
pub open spec fn spec_ft_bytes(ns: Seq<FileTreeNode>) -> Seq<u8> {
    join_separated(spec_nodes_bytes(ns), 10u8)
}

/// The nodes that a stored tree holds, read one after another: each node
/// is its fixed 25-byte part followed by its name, which runs to the next
/// `\n` or to the end; a `\n` where a node would start is skipped. `None`
/// when a node is cut short, names no type, or has a name that is not UTF-8.
pub open spec fn spec_ft_nodes_of(b: Seq<u8>) -> Option<Seq<(ObjectType, u64, Seq<char>, FileMetadata)>>
    decreases b.len(),
{
    if b.len() == 0 {
        Some(seq![])
    } else if b[0] == 10u8 {
        spec_ft_nodes_of(b.drop_first())
    } else if b.len() < 25 {
        None
    } else {
        let end = field_end(b, 25, 10u8);
        if !spec_ft_node_readable(b.take(end)) {
            None
        } else {
            match spec_ft_nodes_of(b.skip(end)) {
                Some(ns) => Some(seq![spec_ft_node_parse(b.take(end))] + ns),
                None => None,
            }
        }
    }
}

/// Whether a stored tree can be read without stopping.
pub open spec fn spec_ft_readable(b: Seq<u8>) -> bool {
    spec_ft_nodes_of(b) is Some
}

/// Whether bytes are a tree stored as an object: the type byte of a tree,
/// then a readable stored tree.
pub open spec fn spec_ft_object_readable(b: Seq<u8>) -> bool {
    b.len() > 0 && b[0] == spec_object_type_code(ObjectType::Tree) && spec_ft_readable(b.skip(1))
}

/// The nodes a readable stored tree holds.
pub open spec fn spec_ft_parse(b: Seq<u8>) -> Seq<(ObjectType, u64, Seq<char>, FileMetadata)> {
    spec_ft_nodes_of(b).unwrap()
}

/// The decimal numerals of hash values, one after another.
pub open spec fn spec_hash_numerals(hs: Seq<u64>) -> Seq<char>
    decreases hs.len(),
{
    if hs.len() == 0 {
        seq![]
    } else {
        spec_hash_numerals(hs.drop_last()) + decimal_numeral(hs.last() as nat)
    }
}

/// The hash values of nodes, in order.
pub open spec fn spec_node_hashes(ns: Seq<FileTreeNode>) -> Seq<u64> {
    ns.map_values(|n: FileTreeNode| n.hash.hash)
}

/// The hash of a stored tree: the hash of the decimal numerals of its
/// nodes' hashes, written one after another.
pub open spec fn spec_ft_hash(ns: Seq<FileTreeNode>) -> u64 {
    spec_str_hash(spec_hash_numerals(spec_node_hashes(ns)))
}

impl FileTree {
    pub const FT_NODE_SEPARATOR: u8 = 10u8;

    /// Compute a file tree's hash.
    pub fn to_hash(&self) -> (r: CommitHash)
        ensures
            r.hash == spec_ft_hash(self.values@),
    {
        let mut s = String::new();
        let mut i: usize = 0;
        while i < self.values.len()
            invariant
                0 <= i <= self.values@.len(),
                s@ == spec_hash_numerals(spec_node_hashes(self.values@).take(i as int)),
            decreases self.values@.len() - i,
        {
            let num = self.values[i].hash.to_str();
            s.append(num.as_str());
            proof {
                let hs = spec_node_hashes(self.values@);
                assert(hs.take(i + 1).drop_last() =~= hs.take(i as int));
                assert(hs.take(i + 1).last() == self.values@[i as int].hash.hash);
            }
            i += 1;
        }
        assert(spec_node_hashes(self.values@).take(i as int) =~= spec_node_hashes(self.values@));
        CommitHash::new(s.as_str())
    }

    /// | FileTreeNode 0 | FT_NODE_SEPARATOR (1 byte) | FileTreeNode 1 | FT_NODE_SEPARATOR | ... | FT_NODE_SEPARATOR | FileTreeNode n |
    pub fn to_bytes(&self) -> (r: Vec<u8>)
        ensures
            r@ == spec_ft_bytes(self.values@),
    {
        let ghost parts = spec_nodes_bytes(self.values@);
        let mut bytes: Vec<u8> = Vec::new();
        let mut i: usize = 0;
        while i < self.values.len()
            invariant
                0 <= i <= self.values@.len(),
                parts == spec_nodes_bytes(self.values@),
                bytes@ == join_terminated(parts.take(i as int), 10u8),
            decreases self.values@.len() - i,
        {
            let mut nb = self.values[i].to_bytes();
            proof {
                lemma_join_terminated_take(parts, 10u8, i as int);
            }
            bytes.append(&mut nb);
            bytes.push(Self::FT_NODE_SEPARATOR);
            i += 1;
        }
        assert(parts.take(i as int) =~= parts);
        if bytes.len() > 0 {
            proof {
                if parts.len() == 0 {
                    assert(join_terminated(parts, 10u8) =~= Seq::<u8>::empty());
                }
                lemma_join_terminated_separated(parts, 10u8);
            }
            bytes.pop();
        } else {
            proof {
                if parts.len() > 0 {
                    lemma_join_terminated_separated(parts, 10u8);
                }
            }
        }
        bytes
    }

    /// The stored form of a tree as an object: the type byte of a tree,
    /// then the tree's stored form.
    pub fn to_object_bytes(&self) -> (r: Vec<u8>)
        ensures
            r@ == seq![spec_object_type_code(ObjectType::Tree)] + spec_ft_bytes(self.values@),
    {
        let mut v: Vec<u8> = Vec::new();
        v.push(ObjectType::Tree.to_u8());
        let mut b = self.to_bytes();
        v.append(&mut b);
        v
    }

    /// Tests `spec_ft_object_readable`: whether `from_object_bytes` can read
    /// the bytes without stopping.
    pub fn object_bytes_readable(bytes: &Vec<u8>) -> (r: bool)
        ensures
            r == spec_ft_object_readable(bytes@),
    {
        if bytes.len() == 0 || bytes[0] != ObjectType::Tree.to_u8() {
            return false;
        }
        let rest = vstd::slice::slice_to_vec(vstd::slice::slice_subrange(bytes.as_slice(), 1, bytes.len()));
        assert(rest@ =~= bytes@.skip(1));
        Self::bytes_readable(&rest)
    }

    /// Reads a tree from its stored form as an object.
    pub fn from_object_bytes(bytes: Vec<u8>) -> (r: Result<Self, std::io::Error>)
        requires
            spec_ft_object_readable(bytes@),
        ensures
            r matches Ok(ft) && ft.values@.map_values(|n: FileTreeNode| node_view(n))
                == spec_ft_parse(bytes@.skip(1)) && ft.children is None && ft.blobs is None,
    {
        let rest = vstd::slice::slice_to_vec(vstd::slice::slice_subrange(bytes.as_slice(), 1, bytes.len()));
        assert(rest@ =~= bytes@.skip(1));
        Self::from_bytes(rest)
    }

    /// Tests `spec_ft_readable`: whether `from_bytes` can read the bytes
    /// without stopping.
    pub fn bytes_readable(bytes: &Vec<u8>) -> (r: bool)
        ensures
            r == spec_ft_readable(bytes@),
    {
        let b = bytes.as_slice();
        let mut p: usize = 0;
        assert(bytes@.skip(0) =~= bytes@);
        while p < b.len()
            invariant
                p <= bytes@.len(),
                b@ == bytes@,
                spec_ft_readable(bytes@) == spec_ft_readable(bytes@.skip(p as int)),
            decreases bytes@.len() - p,
        {
            let ghost t = bytes@.skip(p as int);
            if b[p] == Self::FT_NODE_SEPARATOR {
                assert(t.drop_first() =~= bytes@.skip(p + 1));
                p += 1;
            } else {
                if b.len() - p < 25 {
                    return false;
                }
                let e = find_field_end(b, p + 25, Self::FT_NODE_SEPARATOR);
                proof {
                    lemma_ft_node_field(bytes@, p as int, e as int);
                }
                let ok = b[p] <= 2 && string_from_utf8(
                    vstd::slice::slice_to_vec(vstd::slice::slice_subrange(b, p + 25, e)),
                ).is_some();
                if !ok {
                    proof {
                        assert(bytes@.subrange(p as int, e as int).subrange(25, e - p) =~= bytes@.subrange(
                            p + 25,
                            e as int,
                        ));
                    }
                    return false;
                }
                proof {
                    assert(bytes@.subrange(p as int, e as int).subrange(25, e - p) =~= bytes@.subrange(
                        p + 25,
                        e as int,
                    ));
                }
                p = e;
            }
        }
        proof {
            assert(bytes@.skip(p as int) =~= Seq::<u8>::empty());
        }
        true
    }

    /// Reads a tree from its stored form, node after node.
    pub fn from_bytes(bytes: Vec<u8>) -> (r: Result<Self, std::io::Error>)
        requires
            spec_ft_readable(bytes@),
        ensures
            r matches Ok(ft) && ft.values@.map_values(|n: FileTreeNode| node_view(n))
                == spec_ft_parse(bytes@) && ft.children is None && ft.blobs is None,
    {
        let b = bytes.as_slice();
        let mut values: Vec<FileTreeNode> = Vec::new();
        let mut p: usize = 0;
        assert(bytes@.skip(0) =~= bytes@);
        assert(values@.map_values(|n: FileTreeNode| node_view(n)) =~= Seq::<
            (ObjectType, u64, Seq<char>, FileMetadata),
        >::empty());
        while p < b.len()
            invariant
                p <= bytes@.len(),
                b@ == bytes@,
                spec_ft_nodes_of(bytes@.skip(p as int)) is Some,
                spec_ft_nodes_of(bytes@) == Some(
                    values@.map_values(|n: FileTreeNode| node_view(n)) + spec_ft_nodes_of(
                        bytes@.skip(p as int),
                    ).unwrap(),
                ),
            decreases bytes@.len() - p,
        {
            let ghost t = bytes@.skip(p as int);
            if b[p] == Self::FT_NODE_SEPARATOR {
                assert(t.drop_first() =~= bytes@.skip(p + 1));
                p += 1;
            } else {
                let e = find_field_end(b, p + 25, Self::FT_NODE_SEPARATOR);
                proof {
                    lemma_ft_node_field(bytes@, p as int, e as int);
                }
                let node = match FileTreeNode::from_bytes(vstd::slice::slice_subrange(b, p, e)) {
                    Ok(n) => n,
                    Err(err) => {
                        proof {
                            assert(false);
                        }
                        return Err(err);
                    },
                };
                let ghost old_values = values@;
                values.push(node);
                proof {
                    let rest = spec_ft_nodes_of(bytes@.skip(e as int)).unwrap();
                    assert(values@.map_values(|n: FileTreeNode| node_view(n)) =~= old_values.map_values(
                        |n: FileTreeNode| node_view(n),
                    ).push(node_view(node)));
                    assert(old_values.map_values(|n: FileTreeNode| node_view(n)) + (seq![
                        node_view(node),
                    ] + rest) =~= values@.map_values(|n: FileTreeNode| node_view(n)) + rest);
                }
                p = e;
            }
        }
        proof {
            assert(bytes@.skip(p as int) =~= Seq::<u8>::empty());
            assert(values@.map_values(|n: FileTreeNode| node_view(n)) + Seq::<
                (ObjectType, u64, Seq<char>, FileMetadata),
            >::empty() =~= values@.map_values(|n: FileTreeNode| node_view(n)));
        }
        Ok(Self { values, children: None, blobs: None })
    }
}

/// Where a node of a stored tree that starts at `p`, not at a separator,
/// ends when `e` is the end of its name: the node is `b[p..e]` and reading
/// goes on at `e`.
proof fn lemma_ft_node_field(b: Seq<u8>, p: int, e: int)
    requires
        0 <= p < b.len(),
        b[p] != 10u8,
        p + 25 <= e <= b.len(),
        forall|j: int| p + 25 <= j < e ==> b[j] != 10u8,
        e < b.len() ==> b[e] == 10u8,
    ensures
        ({
            let t = b.skip(p);
            &&& t.len() >= 25
            &&& field_end(t, 25, 10u8) == e - p
            &&& t.take(e - p) == b.subrange(p, e)
            &&& t.skip(e - p) == b.skip(e)
            &&& spec_ft_nodes_of(t) == (if !spec_ft_node_readable(b.subrange(p, e)) {
                None
            } else {
                match spec_ft_nodes_of(b.skip(e)) {
                    Some(ns) => Some(seq![spec_ft_node_parse(b.subrange(p, e))] + ns),
                    None => None,
                }
            })
        }),
{
    let t = b.skip(p);
    assert forall|j: int| 25 <= j < e - p implies t[j] != 10u8 by {
        assert(t[j] == b[p + j]);
    }
    if e < b.len() {
        assert(t[e - p] == b[e]);
    }
    lemma_field_end(t, 25, 10u8, e - p);
    assert(t.take(e - p) =~= b.subrange(p, e));
    assert(t.skip(e - p) =~= b.skip(e));
    assert(t[0] == b[p]);
}

/// Reading the nodes of the stored form of a tree gives back the nodes, when
/// no name holds a newline.
proof fn lemma_ft_nodes_of_bytes(ns: Seq<FileTreeNode>)
    requires
        forall|i: int| 0 <= i < ns.len() ==> !(#[trigger] ns[i]).filepath@.contains('\n'),
    ensures
        spec_ft_nodes_of(spec_ft_bytes(ns)) == Some(ns.map_values(|n: FileTreeNode| node_view(n))),
    decreases ns.len(),
{
    let parts = spec_nodes_bytes(ns);
    if ns.len() == 0 {
        assert(ns.map_values(|n: FileTreeNode| node_view(n)) =~= Seq::<
            (ObjectType, u64, Seq<char>, FileMetadata),
        >::empty());
    } else {
        let n0 = ns[0];
        let rest = ns.drop_first();
        let p = spec_ft_node_bytes(n0);
        law_ft_node_roundtrip(n0);
        law_object_type_roundtrip(n0.object_type, 0);
        assert(parts[0] == p);
        assert(p.skip(25) =~= encode_utf8(n0.filepath@));
        lemma_encode_utf8_ascii_byte(n0.filepath@, 10u8);
        assert((10u8) as char == '\n');
        assert(p.take(p.len() as int) =~= p);
        assert(p[0] == spec_object_type_code(n0.object_type));
        assert forall|i: int| 0 <= i < rest.len() implies !(#[trigger] rest[i]).filepath@.contains(
            '\n',
        ) by {
            assert(rest[i] == ns[i + 1]);
        }
        lemma_ft_nodes_of_bytes(rest);
        assert(parts.drop_first() =~= spec_nodes_bytes(rest));
        let vs = rest.map_values(|n: FileTreeNode| node_view(n));
        assert(seq![node_view(n0)] + vs =~= ns.map_values(|n: FileTreeNode| node_view(n)));
        if ns.len() == 1 {
            assert(spec_ft_bytes(ns) == p);
            lemma_field_end_of_piece(p, seq![], 25, 10u8);
            assert(p.skip(p.len() as int) =~= Seq::<u8>::empty());
            assert(rest.len() == 0);
            assert(vs =~= Seq::<(ObjectType, u64, Seq<char>, FileMetadata)>::empty());
        } else {
            let j = join_separated(parts.drop_first(), 10u8);
            let b = p + seq![10u8] + j;
            assert(spec_ft_bytes(ns) == b);
            lemma_field_end_of_piece(p, j, 25, 10u8);
            assert(b.take(p.len() as int) =~= p);
            let after = b.skip(p.len() as int);
            assert(after =~= seq![10u8] + j);
            assert(after.drop_first() =~= j);
            assert(spec_ft_nodes_of(after) == spec_ft_nodes_of(j));
            assert(b[0] == p[0]);
        }
    }
}

/// Reading a tree stored as an object gives back its nodes, for every tree
/// whose names hold no newline.
pub proof fn law_tree_object_roundtrip(ns: Seq<FileTreeNode>)
    requires
        forall|i: int| 0 <= i < ns.len() ==> !(#[trigger] ns[i]).filepath@.contains('\n'),
    ensures
        spec_ft_object_readable(seq![spec_object_type_code(ObjectType::Tree)] + spec_ft_bytes(ns)),
        spec_ft_parse((seq![spec_object_type_code(ObjectType::Tree)] + spec_ft_bytes(ns)).skip(1))
            == ns.map_values(|n: FileTreeNode| node_view(n)),
{
    lemma_ft_nodes_of_bytes(ns);
    let b = seq![spec_object_type_code(ObjectType::Tree)] + spec_ft_bytes(ns);
    assert(b.skip(1) =~= spec_ft_bytes(ns));
}

/// Reading the stored form of a tree gives back its nodes, for every tree
/// whose names hold no newline.
pub proof fn law_file_tree_roundtrip(ns: Seq<FileTreeNode>)
    requires
        forall|i: int| 0 <= i < ns.len() ==> !(#[trigger] ns[i]).filepath@.contains('\n'),
    ensures
        spec_ft_readable(spec_ft_bytes(ns)),
        spec_ft_parse(spec_ft_bytes(ns)) == ns.map_values(|n: FileTreeNode| node_view(n)),
{
    lemma_ft_nodes_of_bytes(ns);
}

// ---------------------------------------------------------------------
// Flattening a directory tree into stored trees
// ---------------------------------------------------------------------
/// What a produced node records: its type, hash and name, and for a file
/// the file's metadata (a directory's node carries fresh placeholder
/// metadata instead).
pub type NodeKey = (ObjectType, CommitHash, String, Option<FileMetadata>);

/// The record of a produced node.
pub open spec fn node_key(n: FileTreeNode) -> NodeKey {
    (
        n.object_type,
        n.hash,
        n.filepath,
        if n.object_type == ObjectType::Blob {
            Some(n.metadata)
        } else {
            None
        },
    )
}

/// The records of the nodes of each tree.
pub open spec fn trees_keys(ts: Seq<FileTree>) -> Seq<Seq<NodeKey>> {
    ts.map_values(|t: FileTree| t.values@.map_values(|n: FileTreeNode| node_key(n)))
}

/// Whether every tree is a plain stored tree: no children or blobs kept in
/// memory, and every directory node carrying the placeholder size.
pub open spec fn trees_plain(ts: Seq<FileTree>) -> bool {
    forall|i: int|
        0 <= i < ts.len() ==> {
            &&& (#[trigger] ts[i]).children is None
            &&& ts[i].blobs is None
            &&& forall|j: int|
                0 <= j < ts[i].values@.len() ==> ((#[trigger] ts[i].values@[j]).object_type
                    == ObjectType::Tree ==> ts[i].values@[j].metadata.filesize == 1234)
        }
}

/// The hash values of node records, in order.
pub open spec fn key_hashes(ks: Seq<NodeKey>) -> Seq<u64> {
    ks.map_values(|k: NodeKey| k.1.hash)
}

/// Flattening a directory tree after `trees` were produced and `blobs`
/// gathered: the trees of its sub-directories come first (depth first, in
/// order), then its own tree; every file's content is recorded under the
/// hash of the content; the result names the directory by the hash of its
/// own tree.
pub open spec fn flat_tree(t: GitrsTree, trees: Seq<Seq<NodeKey>>, blobs: Map<u64, String>) -> (
    Seq<Seq<NodeKey>>,
    Map<u64, String>,
    NodeKey,
)
    decreases t,
{
    let (tr, bl, ks) = flat_nodes(t.content@, trees, blobs);
    let h = CommitHash { hash: spec_str_hash(spec_hash_numerals(key_hashes(ks))) };
    (tr.push(ks), bl, (ObjectType::Tree, h, t.dir_name, None))
}

/// Flattening the entries of a directory, in order.
pub open spec fn flat_nodes(ns: Seq<TreeNode>, trees: Seq<Seq<NodeKey>>, blobs: Map<u64, String>) -> (
    Seq<Seq<NodeKey>>,
    Map<u64, String>,
    Seq<NodeKey>,
)
    decreases ns,
{
    if ns.len() == 0 {
        (trees, blobs, seq![])
    } else {
        let (tr, bl, ks) = flat_nodes(ns.drop_last(), trees, blobs);
        match ns.last() {
            TreeNode::File { name, content, metadata } => {
                let h = spec_str_hash(content@);
                (
                    tr,
                    bl.insert(h, content),
                    ks.push((ObjectType::Blob, CommitHash { hash: h }, name, Some(metadata))),
                )
            },
            TreeNode::Subdir { name: _, content: sub } => {
                let (tr2, bl2, k) = flat_tree(sub, tr, bl);
                (tr2, bl2, ks.push(k))
            },
        }
    }
}

impl GitrsTree {
    /// GitrsTree to file trees from scratch.
    /// Returns the root hash, all file trees (the root's own last) and the
    /// blob contents by hash value.
    /// To be storable, a GitrsTree must be converted to hash-chained file
    /// trees.
    pub fn to_file_trees(&self) -> (r: (CommitHash, Vec<FileTree>, HashMap<u64, String>))
        ensures
            ({
                let (tr, bl, k) = flat_tree(*self, seq![], Map::empty());
                &&& trees_keys(r.1@) == tr
                &&& r.2@ == bl
                &&& r.0 == k.1
                &&& trees_plain(r.1@)
            }),
            r.1@.len() > 0,
            r.0.hash == spec_ft_hash(r.1@.last().values@),
    {
        let mut file_trees: Vec<FileTree> = Vec::new();
        let mut blob_contents: HashMap<u64, String> = HashMap::new();
        proof {
            assert(trees_keys(file_trees@) =~= Seq::<Seq<NodeKey>>::empty());
            assert(blob_contents@ =~= Map::<u64, String>::empty());
        }
        let root = self.flatten_recursive(&mut file_trees, &mut blob_contents);
        proof {
            let (tr, bl, k) = flat_tree(*self, seq![], Map::empty());
            let (tr1, bl1, ks) = flat_nodes(self.content@, seq![], Map::empty());
            assert(trees_keys(file_trees@).len() == file_trees@.len());
            assert(trees_keys(file_trees@).last() == ks);
            let last = file_trees@.last();
            assert(trees_keys(file_trees@)[file_trees@.len() - 1] == last.values@.map_values(
                |n: FileTreeNode| node_key(n),
            ));
            assert(spec_node_hashes(last.values@) =~= key_hashes(ks));
        }
        (root.hash, file_trees, blob_contents)
    }

    fn flatten_recursive(
        &self,
        trees: &mut Vec<FileTree>,
        blob_contents: &mut HashMap<u64, String>,
    ) -> (r: FileTreeNode)
        requires
            trees_plain(old(trees)@),
        ensures
            ({
                let (tr, bl, k) = flat_tree(*self, trees_keys(old(trees)@), old(blob_contents)@);
                &&& trees_keys(final(trees)@) == tr
                &&& final(blob_contents)@ == bl
                &&& node_key(r) == k
                &&& r.metadata.filesize == 1234
                &&& trees_plain(final(trees)@)
            }),
        decreases self,
    {
        let ghost t0 = trees_keys(trees@);
        let ghost b0 = blob_contents@;
        let mut ftns: Vec<FileTreeNode> = Vec::new();
        let mut i: usize = 0;
        while i < self.content.len()
            invariant
                0 <= i <= self.content@.len(),
                ({
                    let (tr, bl, ks) = flat_nodes(self.content@.take(i as int), t0, b0);
                    &&& trees_keys(trees@) == tr
                    &&& blob_contents@ == bl
                    &&& ftns@.map_values(|n: FileTreeNode| node_key(n)) == ks
                }),
                trees_plain(trees@),
                forall|j: int|
                    0 <= j < ftns@.len() ==> ((#[trigger] ftns@[j]).object_type == ObjectType::Tree
                        ==> ftns@[j].metadata.filesize == 1234),
            decreases self.content@.len() - i,
        {
            let ghost pre = self.content@.take(i as int);
            let ghost old_ftns = ftns@;
            proof {
                assert(self.content@.take(i + 1).drop_last() =~= pre);
                assert(self.content@.take(i + 1).last() == self.content@[i as int]);
            }
            match &self.content[i] {
                TreeNode::File { name, content, metadata } => {
                    let h = CommitHash::new(content.as_str());
                    blob_contents.insert(h.hash, content.clone());
                    ftns.push(
                        FileTreeNode {
                            object_type: ObjectType::Blob,
                            hash: h,
                            filepath: name.clone(),
                            metadata: *metadata,
                        },
                    );
                },
                TreeNode::Subdir { name: _, content } => {
                    let ftn = content.flatten_recursive(trees, blob_contents);
                    ftns.push(ftn);
                },
            }
            proof {
                assert(ftns@.map_values(|n: FileTreeNode| node_key(n)) =~= old_ftns.map_values(
                    |n: FileTreeNode| node_key(n),
                ).push(node_key(ftns@.last())));
            }
            i += 1;
        }
        proof {
            assert(self.content@.take(i as int) =~= self.content@);
        }
        let new_ft = FileTree { values: ftns, children: None, blobs: None };
        let hash = new_ft.to_hash();
        proof {
            let ks = new_ft.values@.map_values(|n: FileTreeNode| node_key(n));
            assert(spec_node_hashes(new_ft.values@) =~= key_hashes(ks));
        }
        let ghost old_trees = trees@;
        trees.push(new_ft);
        proof {
            assert(trees_keys(trees@) =~= trees_keys(old_trees).push(
                new_ft.values@.map_values(|n: FileTreeNode| node_key(n)),
            ));
        }
        FileTreeNode {
            object_type: ObjectType::Tree,
            hash,
            filepath: self.dir_name.clone(),
            metadata: FileMetadata::default(),
        }
    }
}

/// The files that the blob nodes of a stored tree stand for, in order:
/// each node's name and metadata with the content recorded under its hash.
/// `None` when a blob node's hash has no recorded content.
pub open spec fn spec_blob_files(ns: Seq<FileTreeNode>, blobs: Map<u64, String>) -> Option<
    Seq<FileContent>,
>
    decreases ns.len(),
{
    if ns.len() == 0 {
        Some(seq![])
    } else {
        match spec_blob_files(ns.drop_last(), blobs) {
            None => None,
            Some(fs) => {
                let n = ns.last();
                if n.object_type != ObjectType::Blob {
                    Some(fs)
                } else if blobs.contains_key(n.hash.hash) {
                    Some(
                        fs.push(
                            FileContent {
                                fname: n.filepath,
                                content: blobs[n.hash.hash],
                                metadata: n.metadata,
                            },
                        ),
                    )
                } else {
                    None
                }
            },
        }
    }
}

/// A blob node without recorded content in a prefix leaves the whole tree
/// without its blob files.
proof fn lemma_blob_files_prefix_none(ns: Seq<FileTreeNode>, blobs: Map<u64, String>, k: int)
    requires
        0 <= k <= ns.len(),
        spec_blob_files(ns.take(k), blobs) is None,
    ensures
        spec_blob_files(ns, blobs) is None,
    decreases ns.len(),
{
    if k == ns.len() {
        assert(ns.take(k) =~= ns);
    } else {
        assert(ns.drop_last().take(k) =~= ns.take(k));
        lemma_blob_files_prefix_none(ns.drop_last(), blobs, k);
    }
}

impl FileTree {
    /// The blobs to store beside a stored tree: a file for each blob node,
    /// with the content that `blobs` records under the node's hash.
    pub fn blob_files(&self, blobs: &HashMap<u64, String>) -> (r: Option<Vec<FileContent>>)
        ensures
            match spec_blob_files(self.values@, blobs@) {
                None => r is None,
                Some(fs) => r matches Some(v) && v@ == fs,
            },
    {
        let mut out: Vec<FileContent> = Vec::new();
        let mut i: usize = 0;
        while i < self.values.len()
            invariant
                0 <= i <= self.values@.len(),
                spec_blob_files(self.values@.take(i as int), blobs@) == Some(out@),
            decreases self.values@.len() - i,
        {
            let n = &self.values[i];
            proof {
                assert(self.values@.take(i + 1).drop_last() =~= self.values@.take(i as int));
                assert(self.values@.take(i + 1).last() == self.values@[i as int]);
            }
            if n.object_type == ObjectType::Blob {
                match blobs.get(&n.hash.hash) {
                    Some(c) => {
                        out.push(
                            FileContent {
                                fname: n.filepath.clone(),
                                content: c.clone(),
                                metadata: n.metadata,
                            },
                        );
                    },
                    None => {
                        proof {
                            lemma_blob_files_prefix_none(self.values@, blobs@, i + 1);
                        }
                        return None;
                    },
                }
            }
            i += 1;
        }
        assert(self.values@.take(i as int) =~= self.values@);
        Some(out)
    }

    /// The stored root of a directory tree, built in memory from scratch:
    /// the root's own tree, with the trees of all sub-directories as its
    /// children and all file contents as its blobs.
    pub fn from_gitrs_tree(gitrs_tree: &GitrsTree) -> (r: Self)
        ensures
            ({
                let (tr, bl, k) = flat_tree(*gitrs_tree, seq![], Map::empty());
                &&& r.values@.map_values(|n: FileTreeNode| node_key(n)) == tr.last()
                &&& r.children matches Some(c) && trees_keys(c@) == tr.drop_last() && trees_plain(
                    c@,
                )
                &&& r.blobs matches Some(b) && b@ == bl
            }),
            forall|j: int|
                0 <= j < r.values@.len() ==> ((#[trigger] r.values@[j]).object_type
                    == ObjectType::Tree ==> r.values@[j].metadata.filesize == 1234),
    {
        let (_, mut fts, blob_contents) = gitrs_tree.to_file_trees();
        let ghost all = fts@;
        let root = match fts.pop() {
            Some(t) => t,
            None => {
                proof {
                    assert(trees_keys(all).len() > 0);
                    assert(false);
                }
                FileTree { values: Vec::new(), children: None, blobs: None }
            },
        };
        proof {
            assert(all == fts@.push(root));
            assert(trees_keys(fts@) =~= trees_keys(all).drop_last());
            assert(trees_keys(all).last() == root.values@.map_values(|n: FileTreeNode| node_key(n)));
            assert(root == all[all.len() - 1]);
            assert(trees_plain(fts@)) by {
                assert forall|i: int| 0 <= i < fts@.len() implies #[trigger] fts@[i] == all[i] by {}
            }
        }
        FileTree { values: root.values, children: Some(fts), blobs: Some(blob_contents) }
    }
}

/// The text a tree's hash is taken of holds the decimal numeral of every
/// entry's hash, in order: no entries give the empty text, and one more
/// entry appends its numeral.
pub proof fn law_tree_hash_covers_entries(hs: Seq<u64>, h: u64, ns: Seq<FileTreeNode>, n: FileTreeNode)
    ensures
        spec_hash_numerals(seq![]) == Seq::<char>::empty(),
        spec_hash_numerals(hs.push(h)) == spec_hash_numerals(hs) + decimal_numeral(h as nat),
        spec_ft_hash(seq![]) == spec_str_hash(Seq::<char>::empty()),
        spec_ft_hash(ns.push(n)) == spec_str_hash(
            spec_hash_numerals(spec_node_hashes(ns)) + decimal_numeral(n.hash.hash as nat),
        ),
{
    assert(hs.push(h).drop_last() =~= hs);
    assert(spec_node_hashes(ns.push(n)) =~= spec_node_hashes(ns).push(n.hash.hash));
    assert(spec_node_hashes(ns.push(n)).drop_last() =~= spec_node_hashes(ns));
    assert(spec_node_hashes(Seq::<FileTreeNode>::empty()) =~= Seq::<u64>::empty());
}

} // verus!
