use timelord::{
    cache_file_path, check_loaded, decode_frame, encode_frame, read_or_create_cache, Cache, CacheError, HashedFile,
    RelativePath, Timestamp, TIMELORD_CACHE_VERSION,
};

fn record(path: &str, secs: i64) -> HashedFile {
    HashedFile {
        path: RelativePath(path.to_string()),
        hash: timelord::snapshot::Hash::of_contents(path.as_bytes()),
        size: path.len() as u64,
        timestamp: Timestamp::new(secs, 0),
    }
}

fn cache_with(paths: &[&str]) -> Cache {
    let mut c = Cache::empty(String::from("/src"), Timestamp::new(1, 0), String::from("h"));
    for (i, p) in paths.iter().enumerate() {
        c.insert(record(p, i as i64));
    }
    c
}

#[test]
fn cache_file_lives_in_cache_dir() {
    assert_eq!(cache_file_path("/var/cache"), "/var/cache/timelord.db");
}

#[test]
fn frame_round_trip() {
    let framed = encode_frame(b"payload");
    assert_eq!(&framed[..4], &TIMELORD_CACHE_VERSION.to_le_bytes());
    assert_eq!(framed.len(), 11);
    assert_eq!(decode_frame(&framed), Ok(b"payload".to_vec()));
    assert_eq!(decode_frame(&encode_frame(b"")), Ok(Vec::new()));
}

#[test]
fn truncated_file_is_refused() {
    assert_eq!(decode_frame(b""), Err(CacheError::Truncated));
    assert_eq!(decode_frame(&[3, 0, 0]), Err(CacheError::Truncated));
}

#[test]
fn other_version_is_refused_before_payload() {
    let mut bytes = 2u32.to_le_bytes().to_vec();
    bytes.extend_from_slice(b"perfectly good payload");
    assert_eq!(decode_frame(&bytes), Err(CacheError::WrongVersion(2)));
    let mut newer = 4u32.to_le_bytes().to_vec();
    newer.extend_from_slice(b"x");
    assert_eq!(decode_frame(&newer), Err(CacheError::WrongVersion(4)));
}

#[test]
fn garbage_is_refused() {
    let garbage = vec![0xde, 0xad, 0xbe, 0xef, 1, 2, 3];
    assert_eq!(decode_frame(&garbage), Err(CacheError::WrongVersion(0xefbeadde)));
}

#[test]
fn loaded_cache_of_other_version_is_refused() {
    let mut c = cache_with(&["a"]);
    c.version = 2;
    assert_eq!(check_loaded(c).err(), Some(CacheError::WrongVersion(2)));
}

#[test]
fn loaded_cache_out_of_order_is_refused() {
    let mut c = cache_with(&[]);
    c.entries.push(record("b", 1));
    c.entries.push(record("a", 2));
    assert_eq!(check_loaded(c).err(), Some(CacheError::Undecodable));
}

#[test]
fn loaded_cache_is_kept() {
    let c = check_loaded(cache_with(&["a", "b"])).unwrap();
    let base = read_or_create_cache(Ok(c));
    assert_eq!(base.len(), 2);
    assert_eq!(base.absolute_path, "/src");
}

#[test]
fn failed_load_falls_back_to_empty() {
    for e in [CacheError::Missing, CacheError::Unreadable, CacheError::Truncated, CacheError::WrongVersion(9), CacheError::Undecodable] {
        let base = read_or_create_cache(Err(e));
        assert_eq!(base.len(), 0);
        assert_eq!(base.version, TIMELORD_CACHE_VERSION);
        assert_eq!(base.absolute_path, "");
    }
    let mut stale = cache_with(&["a"]);
    stale.version = 1;
    let base = read_or_create_cache(Ok(stale));
    assert_eq!(base.len(), 0);
    assert_eq!(base.version, TIMELORD_CACHE_VERSION);
}

#[test]
fn only_missing_cache_is_quiet() {
    assert!(!CacheError::Missing.is_loud());
    assert!(CacheError::Unreadable.is_loud());
    assert!(CacheError::Truncated.is_loud());
    assert!(CacheError::WrongVersion(1).is_loud());
    assert!(CacheError::Undecodable.is_loud());
}
