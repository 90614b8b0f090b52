use gitrs::internals::hash::commit_hash::CommitHash;
use gitrs::internals::objects::diff::Diff;
use gitrs::internals::objects::file::FileMetadata;
use gitrs::internals::objects::index::{Index, IndexTreeEntry};

fn entry(path: &str, h: u64) -> IndexTreeEntry {
    IndexTreeEntry::new(FileMetadata::new(0x0101_0101_0101_0101, 0x0202_0202_0202_0202), CommitHash { hash: h }, path.to_string())
}

#[test]
fn index_entry_roundtrip() {
    let e = entry("dir/file.txt", 0x1111_1111_1111_1111);
    let b = e.to_bytes();
    assert_eq!(b.len(), 16 + 8 + 12);
    let back = IndexTreeEntry::from_bytes(&b).unwrap();
    assert_eq!(back.metadata, e.metadata);
    assert_eq!(back.hash, e.hash);
    assert_eq!(back.filepath, e.filepath);
    assert!(IndexTreeEntry::from_bytes(&b[..24]).is_none());
}

#[test]
fn index_entry_lossy_path() {
    let mut b = entry("x", 0x3333_3333_3333_3333).to_bytes();
    b.pop();
    b.push(0xFF);
    let back = IndexTreeEntry::from_bytes(&b).unwrap();
    assert_eq!(back.filepath, "\u{FFFD}");
}

#[test]
fn index_roundtrip() {
    let idx = Index::new(vec![entry("a", 0x1111_1111_1111_1111), entry("b", 0x2222_2222_2222_2222)]);
    let b = idx.to_bytes();
    assert_eq!(b.len(), 2 * 25 + 1);
    assert_eq!(b[25], Index::INDEX_ENTRY_SEPARATOR);
    let back = Index::from_bytes(b).unwrap();
    assert_eq!(back.to_bytes(), idx.to_bytes());
    assert!(Index::from_bytes(vec![]).is_none());
    assert_eq!(Index::new(vec![]).to_bytes(), Vec::<u8>::new());
}

#[test]
fn diff_of_snapshots() {
    let s1 = vec![entry("a.txt", 1), entry("b.txt", 2), entry("c.txt", 3)];
    let s2 = vec![entry("a.txt", 10), entry("c.txt", 3), entry("d.txt", 4)];
    let d = Diff::new(&s1, &s2);
    let text = format!("{:?}", d);
    assert!(text.contains("Modified"));
    assert!(text.contains("Deleted"));
    assert!(text.contains("Added"));
    assert!(!text.contains("c.txt"));
    let same = Diff::new(&s1, &s1);
    assert_eq!(format!("{:?}", same), "Diff { diffs: [] }");
}

#[test]
fn index_to_map_keeps_last_entry_per_path() {
    let idx = Index::new(vec![
        entry("a", 1),
        entry("b", 2),
        entry("a", 3),
        entry("c", 4),
        entry("b", 5),
    ]);
    let m = idx.to_map();
    let got: Vec<(String, u64)> = m.iter().map(|e| (e.filepath.clone(), e.hash.hash)).collect();
    assert_eq!(
        got,
        vec![("a".to_string(), 3), ("b".to_string(), 5), ("c".to_string(), 4)]
    );
    assert!(Index::new(vec![]).to_map().is_empty());
}

#[test]
fn index_to_map_feeds_diff() {
    let before = Index::new(vec![entry("a", 1), entry("a", 2), entry("b", 3)]).to_map();
    let after = Index::new(vec![entry("a", 2), entry("c", 9)]).to_map();
    let d = Diff::new(&before, &after);
    let s = format!("{:?}", d);
    assert!(s.contains("Deleted"));
    assert!(s.contains("Added"));
    assert!(!s.contains("Modified"));
}

#[test]
fn index_roundtrip_with_zero_bytes() {
    // real timestamps and small sizes hold zero bytes in their encoding
    let mk = |path: &str, h: u64, t: u64, size: u64| {
        IndexTreeEntry::new(FileMetadata::new(t, size), CommitHash { hash: h }, path.to_string())
    };
    let idx = Index::new(vec![
        mk("src/main.rs", 0x00FF_0000_0000_0001, 1_700_000_000, 0),
        mk("b", 0, 0, 0),
        mk("c/d.txt", 0x1234, 1_600_000_000, 17),
    ]);
    let b = idx.to_bytes();
    let back = Index::from_bytes(b).unwrap();
    let got: Vec<(u64, u64, u64, String)> = back
        .to_map()
        .iter()
        .map(|e| (e.metadata.last_modified, e.metadata.filesize, e.hash.hash, e.filepath.clone()))
        .collect();
    assert_eq!(
        got,
        vec![
            (1_700_000_000, 0, 0x00FF_0000_0000_0001, "src/main.rs".to_string()),
            (0, 0, 0, "b".to_string()),
            (1_600_000_000, 17, 0x1234, "c/d.txt".to_string()),
        ]
    );
    assert_eq!(back.to_bytes(), idx.to_bytes());
}

#[test]
fn index_bytes_refused() {
    let one = Index::new(vec![entry("a", 1)]).to_bytes();
    // a separator with no entry after it
    let mut trailing = one.clone();
    trailing.push(0);
    assert!(Index::from_bytes(trailing).is_none());
    // an entry cut short
    assert!(Index::from_bytes(one[..24].to_vec()).is_none());
    assert!(Index::from_bytes(one).is_some());
}
