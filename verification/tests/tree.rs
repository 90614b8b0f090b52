use gitrs::internals::hash::commit_hash::CommitHash;
use gitrs::internals::objects::file::FileMetadata;
use gitrs::internals::objects::tree::{FileTree, GitrsTree, TreeNode};
use gitrs::internals::objects::ObjectType;

fn sample() -> GitrsTree {
    GitrsTree {
        dir_name: "root".to_string(),
        content: vec![
            TreeNode::File {
                name: "a.txt".to_string(),
                content: "alpha".to_string(),
                metadata: FileMetadata::new(10, 5),
            },
            TreeNode::Subdir {
                name: "sub".to_string(),
                content: GitrsTree {
                    dir_name: "sub".to_string(),
                    content: vec![TreeNode::File {
                        name: "b.txt".to_string(),
                        content: "beta".to_string(),
                        metadata: FileMetadata::new(11, 4),
                    }],
                },
            },
        ],
    }
}

#[test]
fn flatten_to_file_trees() {
    let (root_hash, trees, blobs) = sample().to_file_trees();
    assert_eq!(trees.len(), 2);
    // the sub-directory's tree first, the root's own last
    let sub = &trees[0];
    assert_eq!(sub.values.len(), 1);
    assert_eq!(sub.values[0].object_type, ObjectType::Blob);
    assert_eq!(sub.values[0].hash, CommitHash::new("beta"));
    assert_eq!(sub.values[0].filepath, "b.txt");
    assert_eq!(sub.values[0].metadata, FileMetadata::new(11, 4));
    let root = &trees[1];
    assert_eq!(root.values.len(), 2);
    assert_eq!(root.values[0].hash, CommitHash::new("alpha"));
    assert_eq!(root.values[1].object_type, ObjectType::Tree);
    assert_eq!(root.values[1].hash, sub.to_hash());
    assert_eq!(root.values[1].filepath, "sub");
    assert_eq!(root.values[1].metadata.filesize, 1234);
    assert_eq!(root_hash, root.to_hash());
    // the tree hash is the hash of the hashes' numerals
    let text = format!("{}{}", root.values[0].hash.hash, root.values[1].hash.hash);
    assert_eq!(root.to_hash(), CommitHash::new(&text));
    assert_eq!(blobs.len(), 2);
    assert_eq!(blobs.get(&CommitHash::new("alpha").hash), Some(&"alpha".to_string()));
    assert_eq!(blobs.get(&CommitHash::new("beta").hash), Some(&"beta".to_string()));
}

#[test]
fn stored_root_of_tree() {
    let t = sample();
    let root = FileTree::from_gitrs_tree(&t);
    let (root_hash, _, _) = t.to_file_trees();
    assert_eq!(root.to_hash(), root_hash);
    assert_eq!(root.children.as_ref().unwrap().len(), 1);
    assert_eq!(root.blobs.as_ref().unwrap().len(), 2);
}

#[test]
fn empty_tree_hash() {
    let ft = FileTree { values: vec![], children: None, blobs: None };
    assert_eq!(ft.to_hash(), CommitHash::new(""));
    assert_eq!(ft.to_bytes(), Vec::<u8>::new());
    assert_eq!(FileTree::from_bytes(vec![]).unwrap().values.len(), 0);
}

#[test]
fn blob_files_of_a_stored_tree() {
    let t = sample();
    let root = FileTree::from_gitrs_tree(&t);
    let blobs = root.blobs.as_ref().unwrap();
    let files = root.blob_files(blobs).unwrap();
    assert_eq!(files.len(), 1);
    assert_eq!(files[0].fname, "a.txt");
    assert_eq!(files[0].content, "alpha");
    assert_eq!(files[0].metadata, FileMetadata::new(10, 5));
    let sub = &root.children.as_ref().unwrap()[0];
    let sub_files = sub.blob_files(blobs).unwrap();
    assert_eq!(sub_files.len(), 1);
    assert_eq!(sub_files[0].content, "beta");
    // a blob whose content was not recorded
    let empty = std::collections::HashMap::new();
    assert!(root.blob_files(&empty).is_none());
    // a tree without blobs needs no contents
    let dirs_only = FileTree { values: vec![root.values[1].clone()], children: None, blobs: None };
    assert_eq!(dirs_only.blob_files(&empty).unwrap().len(), 0);
}

#[test]
fn directory_trees_clone() {
    let t = sample();
    assert_eq!(t.clone(), t);
    assert_eq!(t.content[1].clone(), t.content[1]);
}
