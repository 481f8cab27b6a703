use timelord::{Cache, HashedFile, RelativePath, Timestamp, Workspace, TIMELORD_CACHE_VERSION};

fn record(path: &str, content: &[u8], secs: i64) -> HashedFile {
    HashedFile {
        path: RelativePath(path.to_string()),
        hash: timelord::snapshot::Hash::of_contents(content),
        size: content.len() as u64,
        timestamp: Timestamp::new(secs, 0),
    }
}

fn empty_cache() -> Cache {
    Cache::empty(String::from("/src"), Timestamp::new(0, 0), String::from("host"))
}

#[test]
fn fingerprint_is_seahash_of_content() {
    assert_eq!(timelord::snapshot::Hash::of_contents(b"hello").0, seahash::hash(b"hello"));
    assert_eq!(timelord::snapshot::Hash::of_contents(b"").0, seahash::hash(b""));
}

#[test]
fn fingerprint_changes_with_same_length_content() {
    assert_ne!(timelord::snapshot::Hash::of_contents(b"hello").0, timelord::snapshot::Hash::of_contents(b"hellp").0);
}

#[test]
fn hash_hex_has_sixteen_digits() {
    assert_eq!(timelord::snapshot::Hash(0x1234_abcd).to_string(), "000000001234abcd");
    assert_eq!(timelord::snapshot::Hash(u64::MAX).to_string(), "ffffffffffffffff");
    assert_eq!(timelord::snapshot::Hash(0).to_string(), "0000000000000000");
}

#[test]
fn empty_cache_has_current_version() {
    let c = empty_cache();
    assert_eq!(c.len(), 0);
    assert_eq!(c.version, TIMELORD_CACHE_VERSION);
    assert_eq!(c.absolute_path, "/src");
    assert_eq!(c.hostname, "host");
}

#[test]
fn new_cache_is_empty_and_current() {
    let c = Cache::new(String::from("/tree"));
    assert_eq!(c.len(), 0);
    assert_eq!(c.version, TIMELORD_CACHE_VERSION);
    assert_eq!(c.absolute_path, "/tree");
    assert!(c.crawl_time.secs > 0);
}

#[test]
fn insert_keeps_entries_sorted_and_unique() {
    let mut c = empty_cache();
    c.insert(record("b.txt", b"world", 20));
    c.insert(record("a.txt", b"hello", 10));
    c.insert(record("src/main.rs", b"fn main() {}", 30));
    c.insert(record("a.txt", b"hello again", 40));
    let paths: Vec<&str> = c.entries.iter().map(|e| e.path.as_str()).collect();
    assert_eq!(paths, vec!["a.txt", "b.txt", "src/main.rs"]);
    assert_eq!(c.get("a.txt").unwrap().timestamp, Timestamp::new(40, 0));
    assert_eq!(c.get("a.txt").unwrap().size, 11);
    assert!(c.get("missing.txt").is_none());
    assert!(c.is_ordered());
}

#[test]
fn search_reports_insertion_point() {
    let mut c = empty_cache();
    c.insert(record("a", b"1", 1));
    c.insert(record("c", b"3", 3));
    assert_eq!(c.search("a"), Ok(0));
    assert_eq!(c.search("b"), Err(1));
    assert_eq!(c.search("d"), Err(2));
}

#[test]
fn unordered_entries_are_detected() {
    let mut c = empty_cache();
    c.entries.push(record("b", b"1", 1));
    c.entries.push(record("a", b"2", 2));
    assert!(!c.is_ordered());
    let mut d = empty_cache();
    d.entries.push(record("a", b"1", 1));
    d.entries.push(record("a", b"2", 2));
    assert!(!d.is_ordered());
}

#[test]
fn relative_path_joins_onto_workspace() {
    let ws = Workspace { source_dir: String::from("/work/tree") };
    let p = RelativePath(String::from("src/main.rs"));
    assert_eq!(p.to_absolute_path(&ws), "/work/tree/src/main.rs");
}

#[test]
fn record_from_contents_strips_root() {
    let f = HashedFile::from_contents("/work", "/work/src/lib.rs", b"abc", Timestamp::new(5, 7)).unwrap();
    assert_eq!(f.path.as_str(), "src/lib.rs");
    assert_eq!(f.size, 3);
    assert_eq!(f.hash.0, seahash::hash(b"abc"));
    assert_eq!(f.timestamp, Timestamp::new(5, 7));
    assert!(HashedFile::from_contents("/work", "/elsewhere/x", b"abc", Timestamp::new(5, 7)).is_none());
}
