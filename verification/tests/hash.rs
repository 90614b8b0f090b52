use std::collections::hash_map::DefaultHasher;
use std::hash::{Hash, Hasher};

use gitrs::internals::hash::commit_hash::CommitHash;
use gitrs::internals::hash::{HashObjectConfig, HashObjectFlags};
use gitrs::internals::objects::ObjectType;

fn std_hash(s: &str) -> u64 {
    let mut h = DefaultHasher::new();
    s.hash(&mut h);
    h.finish()
}

#[test]
fn commit_hash_new_is_str_hash() {
    for s in ["", "abc", "void main(){return 0;}", "Grüße", "a tree"] {
        assert_eq!(CommitHash::new(s).hash, std_hash(s));
    }
    assert_ne!(CommitHash::new("a").hash, CommitHash::new("b").hash);
}

#[test]
fn commit_hash_text() {
    assert_eq!(CommitHash { hash: 0 }.to_str(), "0");
    assert_eq!(CommitHash { hash: 1234567890 }.to_str(), "1234567890");
    assert_eq!(CommitHash { hash: u64::MAX }.to_str(), "18446744073709551615");
    assert_eq!(
        CommitHash { hash: 42 }.to_path_buf(),
        std::path::PathBuf::from("42")
    );
}

#[test]
fn commit_hash_bytes() {
    let h = CommitHash { hash: 0x0102_0304_0506_0708 };
    assert_eq!(h.to_bytes(), [1, 2, 3, 4, 5, 6, 7, 8]);
    assert_eq!(CommitHash::from_bytes(&h.to_bytes()), h);
    assert_eq!(CommitHash::from_bytes(&[0xFF; 8]).hash, u64::MAX);
    assert_eq!(CommitHash::HASH_LEN, 8);
}

#[test]
fn hash_object_config() {
    let flags = HashObjectFlags::new(ObjectType::Tree, true);
    assert_eq!(flags.tp, ObjectType::Tree);
    assert!(flags.write);
    let c = HashObjectConfig::new("dir", flags.clone());
    assert_eq!(c.value, "dir");
    assert_eq!(c.flags, flags);
}
