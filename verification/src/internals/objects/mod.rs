//! Stored objects and their on-disk encoding.

pub mod cat_file;
pub mod commit;
pub mod diff;
pub mod file;
pub mod index;
pub mod tree;
pub mod tree_clone;

use vstd::prelude::*;
use vstd::utf8::*;

use crate::bytes::{lemma_position_of, lemma_position_of_at, position_of};
use crate::internals::objects::commit::Commit;
use crate::internals::objects::file::{FileContent, FileMetadata};
use crate::internals::objects::tree::GitrsTree;
use crate::text::{lemma_encode_utf8_ascii_byte, lemma_encode_utf8_concat, str_bytes, string_from_utf8};

verus! {

broadcast use vstd::utf8::encode_utf8_decode_utf8, vstd::utf8::encode_utf8_valid_utf8;

/// Object enum without any values associated with a type.
/// Must have the same variants as enum Object.
/// Check out the -t flag at https://git-scm.com/docs/git-hash-object
#[derive(Debug, PartialEq, Eq, Structural, Clone, Copy)]
pub enum ObjectType {
    Commit,
    Blob,
    Tree,
}

/// The byte that stands for an object type.
pub open spec fn spec_object_type_code(t: ObjectType) -> u8 {
    match t {
        ObjectType::Commit => 0,
        ObjectType::Blob => 1,
        ObjectType::Tree => 2,
    }
}

/// The object type a byte stands for.
pub open spec fn spec_object_type_of(v: u8) -> Option<ObjectType> {
    if v == 0 {
        Some(ObjectType::Commit)
    } else if v == 1 {
        Some(ObjectType::Blob)
    } else if v == 2 {
        Some(ObjectType::Tree)
    } else {
        None
    }
}

impl ObjectType {
    pub fn to_u8(&self) -> (r: u8)
        ensures
            r == spec_object_type_code(*self),
    {
        match self {
            Self::Commit => 0,
            Self::Blob => 1,
            Self::Tree => 2,
        }
    }

    pub fn from_u8(val: u8) -> (r: Option<Self>)
        ensures
            r == spec_object_type_of(val),
    {
        match val {
            0 => Some(Self::Commit),
            1 => Some(Self::Blob),
            2 => Some(Self::Tree),
            _ => None,
        }
    }
}

/// Reading the byte of a type gives back the type, and the bytes that
/// stand for a type are exactly 0, 1 and 2.
pub proof fn law_object_type_roundtrip(t: ObjectType, v: u8)
    ensures
        spec_object_type_of(spec_object_type_code(t)) == Some(t),
        spec_object_type_code(t) <= 2,
        spec_object_type_of(v) is Some <==> v <= 2,
        spec_object_type_of(v) matches Some(u) ==> spec_object_type_code(u) == v,
{
}

/// All objects are stored in the objects dir.
/// An object must always be hashable.
#[derive(Debug, PartialEq)]
pub enum Object {
    /// contents of a file
    Blob(FileContent),
    /// A snapshot of the working tree
    Commit(Commit),
    /// a directory listing
    Tree(GitrsTree),
}

/// The stored form of a blob:
/// | type byte 1 | file name | 0 (ends the file name) | file content |.
pub open spec fn spec_blob_bytes(fc: FileContent) -> Seq<u8> {
    seq![1u8] + encode_utf8(fc.fname@) + seq![0u8] + encode_utf8(fc.content@)
}

/// The file name and content that the stored form of a blob holds, cut at
/// the first 0 byte.
pub open spec fn spec_blob_fields(b: Seq<u8>) -> Option<(Seq<char>, Seq<char>)> {
    match position_of(b, 0) {
        Some(i) => Some(
            (
                decode_utf8(b.subrange(1, i as int)),
                decode_utf8(b.subrange(i + 1int, b.len() as int)),
            ),
        ),
        None => None,
    }
}

/// Whether `Object::from_bytes` reads these bytes without stopping: the
/// type byte, if it names a type, names a blob, and a blob's name and content
/// are UTF-8.
pub open spec fn spec_object_bytes_readable(b: Seq<u8>) -> bool {
    (b.len() > 0 && b[0] <= 2) ==> {
        &&& b[0] == 1
        &&& match position_of(b, 0) {
            Some(i) => valid_utf8(b.subrange(1, i as int)) && valid_utf8(
                b.subrange(i + 1int, b.len() as int),
            ),
            None => true,
        }
    }
}

/// Copies `b[from..to]`.
fn copy_range(b: &Vec<u8>, from: usize, to: usize) -> (r: Vec<u8>)
    requires
        from <= to <= b@.len(),
    ensures
        r@ == b@.subrange(from as int, to as int),
{
    let mut r: Vec<u8> = Vec::new();
    let mut k: usize = from;
    while k < to
        invariant
            from <= k <= to <= b@.len(),
            r@ == b@.subrange(from as int, k as int),
        decreases to - k,
    {
        r.push(b[k]);
        k += 1;
    }
    r
}

impl Object {
    /// Convert an object to be 'file-writable'.
    /// Structure:
    ///     | ObjectType (1 byte) | Content (based on ObjectType) |
    /// Only blobs have a stored form so far.
    pub fn to_bytes(&self) -> (r: Vec<u8>)
        requires
            self is Blob,
        ensures
            r@ == spec_blob_bytes(self->Blob_0),
    {
        match self {
            Object::Blob(fc) => {
                let mut v: Vec<u8> = Vec::new();
                v.push(self.to_object_type().to_u8());
                let mut name = str_bytes(fc.fname.as_str());
                v.append(&mut name);
                v.push(0u8);
                let mut content = str_bytes(fc.content.as_str());
                v.append(&mut content);
                v
            },
            _ => {
                proof {
                    assert(false);
                }
                Vec::new()
            },
        }
    }

    /// Read an object from its stored form. Bytes that are empty, or whose
    /// first byte names no type, or that hold a blob without the 0 byte that
    /// ends its name, are refused.
    pub fn from_bytes(bytes: Vec<u8>) -> (r: Option<Self>)
        requires
            spec_object_bytes_readable(bytes@),
        ensures
            (bytes@.len() == 0 || bytes@[0] > 2) ==> r is None,
            (bytes@.len() > 0 && bytes@[0] == 1) ==> match spec_blob_fields(bytes@) {
                None => r is None,
                Some((n, c)) => r matches Some(Object::Blob(fc)) && fc.fname@ == n
                    && fc.content@ == c && fc.metadata.filesize == 1234,
            },
    {
        if bytes.len() == 0 {
            return None;
        }
        let tp = match ObjectType::from_u8(bytes[0]) {
            Some(t) => t,
            None => {
                return None;
            },
        };
        match tp {
            ObjectType::Blob => {
                let mut i: usize = 0;
                while i < bytes.len() && bytes[i] != 0u8
                    invariant
                        0 <= i <= bytes@.len(),
                        forall|j: int| 0 <= j < i ==> bytes@[j] != 0u8,
                    decreases bytes@.len() - i,
                {
                    i += 1;
                }
                if i == bytes.len() {
                    proof {
                        lemma_position_of(bytes@, 0);
                        if let Some(k) = position_of(bytes@, 0) {
                            assert(bytes@[k as int] == 0);
                        }
                    }
                    return None;
                }
                proof {
                    lemma_position_of_at(bytes@, 0, i as int);
                }
                let name_bytes = copy_range(&bytes, 1, i);
                let content_bytes = copy_range(&bytes, i + 1, bytes.len());
                let fname = match string_from_utf8(name_bytes) {
                    Some(s) => s,
                    None => {
                        proof {
                            assert(false);
                        }
                        String::new()
                    },
                };
                let content = match string_from_utf8(content_bytes) {
                    Some(s) => s,
                    None => {
                        proof {
                            assert(false);
                        }
                        String::new()
                    },
                };
                Some(Self::Blob(FileContent { fname, content, metadata: FileMetadata::default() }))
            },
            _ => {
                proof {
                    assert(false);
                }
                None
            },
        }
    }

    /// Tests `spec_object_bytes_readable`: whether `from_bytes` can read the
    /// bytes without stopping.
    pub fn bytes_readable(bytes: &Vec<u8>) -> (r: bool)
        ensures
            r == spec_object_bytes_readable(bytes@),
    {
        if bytes.len() == 0 || bytes[0] > 2 {
            return true;
        }
        if bytes[0] != 1 {
            return false;
        }
        let mut i: usize = 0;
        while i < bytes.len() && bytes[i] != 0u8
            invariant
                0 <= i <= bytes@.len(),
                forall|j: int| 0 <= j < i ==> bytes@[j] != 0u8,
            decreases bytes@.len() - i,
        {
            i += 1;
        }
        if i == bytes.len() {
            proof {
                lemma_position_of(bytes@, 0);
                if let Some(k) = position_of(bytes@, 0) {
                    assert(bytes@[k as int] == 0);
                }
            }
            return true;
        }
        proof {
            lemma_position_of_at(bytes@, 0, i as int);
        }
        let name_ok = string_from_utf8(copy_range(bytes, 1, i)).is_some();
        let content_ok = string_from_utf8(copy_range(bytes, i + 1, bytes.len())).is_some();
        name_ok && content_ok
    }

    /// Convert an object to bytes and return its size.
    pub fn size(&self) -> (r: usize)
        requires
            self is Blob,
        ensures
            r == spec_blob_bytes(self->Blob_0).len(),
    {
        self.to_bytes().len()
    }

    /// Returns the corresponding object type without a value associated with it.
    /// This is useful for e.g. converting it to a u8 for binary storage.
    pub fn to_object_type(&self) -> (r: ObjectType)
        ensures
            r == match self {
                Object::Blob(_) => ObjectType::Blob,
                Object::Commit(_) => ObjectType::Commit,
                Object::Tree(_) => ObjectType::Tree,
            },
    {
        match self {
            Object::Blob(_) => ObjectType::Blob,
            Object::Commit(_) => ObjectType::Commit,
            Object::Tree(_) => ObjectType::Tree,
        }
    }

    /// Returns the pretty printed content of the object: for a blob, the
    /// file content.
    pub fn content(&self) -> (r: String)
        requires
            self is Blob,
        ensures
            r@ == self->Blob_0.content@,
    {
        match self {
            Object::Blob(fc) => fc.content.clone(),
            _ => {
                proof {
                    assert(false);
                }
                String::new()
            },
        }
    }
}

/// Reading the stored form of a blob whose name has no NUL character gives
/// back its name and content.
pub proof fn law_blob_roundtrip(fc: FileContent)
    requires
        !fc.fname@.contains('\0'),
    ensures
        spec_blob_bytes(fc).len() > 0,
        spec_blob_bytes(fc)[0] == 1,
        spec_object_bytes_readable(spec_blob_bytes(fc)),
        spec_blob_fields(spec_blob_bytes(fc)) == Some((fc.fname@, fc.content@)),
{
    let en = encode_utf8(fc.fname@);
    let ec = encode_utf8(fc.content@);
    let b = spec_blob_bytes(fc);
    lemma_encode_utf8_ascii_byte(fc.fname@, 0u8);
    assert((0u8) as char == '\0');
    let i: int = 1 + en.len() as int;
    assert(b[i] == 0u8);
    assert forall|j: int| 0 <= j < i implies b[j] != 0u8 by {
        if j > 0 {
            assert(b[j] == en[j - 1]);
            if en[j - 1] == 0u8 {
                assert(en.contains(0u8));
            }
        }
    }
    lemma_position_of_at(b, 0u8, i as int);
    assert(b.subrange(1, i as int) =~= en);
    assert(b.subrange(i + 1int, b.len() as int) =~= ec);
}

} // verus!
