use gitrs::internals::hash::commit_hash::CommitHash;
use gitrs::internals::objects::file::{FileContent, FileMetadata};
use gitrs::internals::objects::tree::{FileTree, FileTreeNode};
use gitrs::internals::objects::{Object, ObjectType};

#[test]
fn object_serialization() {
    let obj_blob = Object::Blob(FileContent::new(
        "hello.c".into(),
        "void main(){return 0;}".to_string(),
        FileMetadata::default(),
    ));
    let bytes = obj_blob.to_bytes();
    let obj_blob_new = Object::from_bytes(bytes).unwrap();
    // The stored form of a blob holds its name and content; the metadata of
    // the blob read back is stamped anew, so only its size is compared.
    match (&obj_blob, &obj_blob_new) {
        (Object::Blob(a), Object::Blob(b)) => {
            assert_eq!(a.fname, b.fname);
            assert_eq!(a.content, b.content);
            assert_eq!(a.metadata.filesize, b.metadata.filesize);
        }
        _ => panic!("expected blobs"),
    }
}

#[test]
fn file_tree_node_serialization() {
    let ft_nodes = [
        FileTreeNode {
            object_type: ObjectType::Tree,
            hash: CommitHash::new("a tree"),
            filepath: String::from("subdir"),
            metadata: FileMetadata::default(),
        },
        FileTreeNode {
            object_type: ObjectType::Blob,
            hash: CommitHash::new("a blob"),
            filepath: String::from("file.txt"),
            metadata: FileMetadata::default(),
        },
    ];

    for node_old in ft_nodes {
        let bytes = node_old.to_bytes();
        let node_new =
            FileTreeNode::from_bytes(&bytes).expect("Failed to convert: bytes -> FT Node");
        assert_eq!(node_old, node_new);
    }
}

#[test]
fn file_tree_serialization() {
    let ft_nodes = vec![
        FileTreeNode {
            object_type: ObjectType::Tree,
            hash: CommitHash::new("a tree"),
            filepath: String::from("subdir"),
            metadata: FileMetadata::default(),
        },
        FileTreeNode {
            object_type: ObjectType::Blob,
            hash: CommitHash::new("a blob"),
            filepath: String::from("file.txt"),
            metadata: FileMetadata::default(),
        },
    ];
    let ft = FileTree { values: ft_nodes, children: None, blobs: None };
    let bytes = ft.to_bytes();
    let ft_new = FileTree::from_bytes(bytes).expect("Failed to convert: bytes -> FT");
    assert_eq!(ft, ft_new);
}

#[test]
fn file_tree_serialization_with_newline_bytes() {
    // hashes and metadata that hold the separator byte 10 read back too
    let ft_nodes = vec![
        FileTreeNode {
            object_type: ObjectType::Tree,
            hash: CommitHash { hash: 0x0A0A_0A0A_0A0A_0A0A },
            filepath: String::from("subdir"),
            metadata: FileMetadata::new(0x0A, 0x0A00),
        },
        FileTreeNode {
            object_type: ObjectType::Blob,
            hash: CommitHash { hash: 0x0A },
            filepath: String::new(),
            metadata: FileMetadata::new(1_600_000_010, 10),
        },
        FileTreeNode {
            object_type: ObjectType::Blob,
            hash: CommitHash { hash: 0xFFEE_DDCC_BBAA_9988 },
            filepath: String::from("file.txt"),
            metadata: FileMetadata::new(1_600_000_000, 42),
        },
    ];
    let ft = FileTree { values: ft_nodes, children: None, blobs: None };
    let bytes = ft.to_bytes();
    assert!(FileTree::bytes_readable(&bytes));
    let ft_new = FileTree::from_bytes(bytes).expect("Failed to convert: bytes -> FT");
    assert_eq!(ft, ft_new);
}

#[test]
fn file_tree_bytes_refused() {
    assert!(!FileTree::bytes_readable(&vec![1, 2, 3]));
    let node = FileTreeNode {
        object_type: ObjectType::Blob,
        hash: CommitHash { hash: 1 },
        filepath: String::from("a"),
        metadata: FileMetadata::new(3, 4),
    };
    let mut bad_type = node.to_bytes();
    bad_type[0] = 7;
    assert!(!FileTree::bytes_readable(&bad_type));
    let mut bad_name = node.to_bytes();
    bad_name.push(0xFF);
    assert!(!FileTree::bytes_readable(&bad_name));
    assert!(FileTree::bytes_readable(&node.to_bytes()));
}

#[test]
fn file_tree_bytes_layout() {
    let node = FileTreeNode {
        object_type: ObjectType::Blob,
        hash: CommitHash { hash: 0x0102_0304_0506_0708 },
        filepath: String::from("a"),
        metadata: FileMetadata::new(3, 4),
    };
    let ft = FileTree { values: vec![node], children: None, blobs: None };
    let bytes = ft.to_bytes();
    let mut expected = vec![1u8];
    expected.extend([0, 0, 0, 0, 0, 0, 0, 3, 0, 0, 0, 0, 0, 0, 0, 4]);
    expected.extend([1, 2, 3, 4, 5, 6, 7, 8]);
    expected.push(b'a');
    assert_eq!(bytes, expected);
    // two nodes: the separator stands between them, none after the last
    let two = FileTree { values: vec![ft.values[0].clone(), ft.values[0].clone()], children: None, blobs: None };
    let mut expected_two = expected.clone();
    expected_two.push(b'\n');
    expected_two.extend(expected.clone());
    assert_eq!(two.to_bytes(), expected_two);
}

#[test]
fn file_tree_from_bytes_skips_empty_pieces() {
    let node = FileTreeNode {
        object_type: ObjectType::Tree,
        hash: CommitHash { hash: 77 },
        filepath: String::from("dir"),
        metadata: FileMetadata::new(5, 6),
    };
    let mut bytes = vec![b'\n', b'\n'];
    bytes.extend(node.to_bytes());
    bytes.push(b'\n');
    bytes.push(b'\n');
    let ft = FileTree::from_bytes(bytes).unwrap();
    assert_eq!(ft.values, vec![node]);
    assert!(ft.children.is_none());
    assert!(ft.blobs.is_none());
}

#[test]
fn object_type_codes() {
    assert_eq!(ObjectType::Commit.to_u8(), 0);
    assert_eq!(ObjectType::Blob.to_u8(), 1);
    assert_eq!(ObjectType::Tree.to_u8(), 2);
    for t in [ObjectType::Commit, ObjectType::Blob, ObjectType::Tree] {
        assert_eq!(ObjectType::from_u8(t.to_u8()), Some(t));
    }
    assert_eq!(ObjectType::from_u8(3), None);
    assert_eq!(ObjectType::from_u8(255), None);
}

#[test]
fn blob_bytes_layout() {
    let obj = Object::Blob(FileContent::new("ab".to_string(), "xyz".to_string(), FileMetadata::new(1, 2)));
    assert_eq!(obj.to_bytes(), vec![1, b'a', b'b', 0, b'x', b'y', b'z']);
    assert_eq!(obj.size(), 7);
    assert_eq!(obj.to_object_type(), ObjectType::Blob);
    assert_eq!(obj.content(), "xyz".to_string());
}

#[test]
fn blob_with_unicode_roundtrip() {
    let obj = Object::Blob(FileContent::new(
        "Grüße.txt".to_string(),
        "Ünïcödé\0 content with a NUL".to_string(),
        FileMetadata::default(),
    ));
    let back = Object::from_bytes(obj.to_bytes()).unwrap();
    match (obj, back) {
        (Object::Blob(a), Object::Blob(b)) => {
            assert_eq!(a.fname, b.fname);
            assert_eq!(a.content, b.content);
            assert_eq!(b.metadata.filesize, 1234);
        }
        _ => panic!("expected blobs"),
    }
}

#[test]
fn object_from_bytes_refusals() {
    assert!(Object::from_bytes(vec![]).is_none());
    assert!(Object::from_bytes(vec![7, 1, 2]).is_none());
    // a blob whose name is not terminated by a 0 byte
    assert!(Object::from_bytes(vec![1, b'a', b'b']).is_none());
    // an empty name and empty content
    match Object::from_bytes(vec![1, 0]) {
        Some(Object::Blob(fc)) => {
            assert_eq!(fc.fname, "");
            assert_eq!(fc.content, "");
        }
        _ => panic!("expected a blob"),
    }
}

#[test]
fn metadata_bytes_roundtrip() {
    let m = FileMetadata::new(0x1122_3344_5566_7788, 0x99AA_BBCC_DDEE_FF00);
    let b = m.to_bytes();
    assert_eq!(
        b,
        [0x11, 0x22, 0x33, 0x44, 0x55, 0x66, 0x77, 0x88, 0x99, 0xAA, 0xBB, 0xCC, 0xDD, 0xEE, 0xFF, 0x00]
    );
    assert_eq!(FileMetadata::from_bytes(&b), Some(m));
    assert_eq!(FileMetadata::from_bytes(&b[..15]).unwrap().filesize, 1234);
    assert_eq!(FileMetadata::BYTE_LEN, 16);
}

#[test]
fn metadata_default_size() {
    let m = FileMetadata::default();
    assert_eq!(m.filesize, 1234);
}

#[test]
fn tree_object_bytes_roundtrip() {
    let ft = FileTree {
        values: vec![FileTreeNode {
            object_type: ObjectType::Blob,
            hash: CommitHash { hash: 0x0A },
            filepath: String::from("a.txt"),
            metadata: FileMetadata::new(10, 10),
        }],
        children: None,
        blobs: None,
    };
    let b = ft.to_object_bytes();
    assert_eq!(b[0], ObjectType::Tree.to_u8());
    assert_eq!(&b[1..], &ft.to_bytes()[..]);
    assert!(FileTree::object_bytes_readable(&b));
    assert_eq!(FileTree::from_object_bytes(b.clone()).unwrap(), ft);
    // a blob object is not a tree object
    assert!(!FileTree::object_bytes_readable(&ft.to_bytes()));
    assert!(!FileTree::object_bytes_readable(&vec![]));
    // the object layer does not read trees
    assert!(!Object::bytes_readable(&b));
}

#[test]
fn trees_clone() {
    let ft = FileTree {
        values: vec![FileTreeNode {
            object_type: ObjectType::Tree,
            hash: CommitHash { hash: 3 },
            filepath: String::from("d"),
            metadata: FileMetadata::new(1, 2),
        }],
        children: Some(vec![FileTree::default()]),
        blobs: Some(std::collections::HashMap::from([(3u64, "x".to_string())])),
    };
    assert_eq!(ft.clone(), ft);
    assert_eq!(FileTree::default().values.len(), 0);
}
