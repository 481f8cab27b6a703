use timelord::{bad_cache_disclaimer, directory_breakdown, format_timestamp, format_timestamp_diff, highlight_changes};
use timelord::{Cache, HashedFile, RelativePath, Timestamp};

#[test]
fn timestamp_is_formatted_in_utc() {
    assert_eq!(format_timestamp(Timestamp::new(0, 0)).unwrap(), "1970-01-01 00:00:00");
    assert_eq!(format_timestamp(Timestamp::new(1_700_000_000, 5)).unwrap(), "2023-11-14 22:13:20");
    assert!(format_timestamp(Timestamp::new(i64::MAX, 0)).is_none());
}

#[test]
fn diff_marks_changed_characters_red() {
    let d = format_timestamp_diff(Timestamp::new(0, 0), Timestamp::new(3600, 0)).unwrap();
    assert_eq!(d, "1970-01-01 0\x1b[31m1\x1b[39m:00:00");
    let same = format_timestamp_diff(Timestamp::new(60, 0), Timestamp::new(60, 0)).unwrap();
    assert_eq!(same, "1970-01-01 00:01:00");
}

#[test]
fn highlight_stops_at_shorter_string() {
    assert_eq!(highlight_changes("abc", "abd"), "ab\x1b[31md\x1b[39m");
    assert_eq!(highlight_changes("ab", "abcd"), "ab");
    assert_eq!(highlight_changes("", "x"), "");
}

#[test]
fn disclaimer_has_three_lines() {
    let lines = bad_cache_disclaimer("Cache file has wrong version, starting fresh!");
    let rule = format!("\x1b[31m{}\x1b[39m", "=".repeat(80));
    assert_eq!(lines.len(), 3);
    assert_eq!(lines[0], rule);
    assert_eq!(
        lines[1],
        "\u{26a0}\u{fe0f}  \x1b[31m\x1b[1mCache file has wrong version, starting fresh!\x1b[0m\x1b[39m \u{26a0}\u{fe0f}"
    );
    assert_eq!(lines[2], rule);
}

fn record(path: &str, size: u64) -> HashedFile {
    HashedFile {
        path: RelativePath(path.to_string()),
        hash: timelord::snapshot::Hash(size),
        size,
        timestamp: Timestamp::new(0, 0),
    }
}

#[test]
fn breakdown_groups_by_directory() {
    let mut c = Cache::empty(String::from("/src"), Timestamp::new(0, 0), String::from("h"));
    c.insert(record("README.md", 10));
    c.insert(record("src/main.rs", 100));
    c.insert(record("src/lib.rs", 50));
    c.insert(record("tests/deep/it.rs", 7));
    let b = directory_breakdown(&c);
    assert_eq!(b.dirs.len(), b.infos.len());
    assert!(b.dirs[0].is_empty());
    let find = |d: &[&str]| {
        let i = b.dirs.iter().position(|x| x.iter().map(|s| s.as_str()).collect::<Vec<_>>() == d).unwrap();
        (b.infos[i].files, b.infos[i].total_size)
    };
    assert_eq!(find(&[]), (1, 10));
    assert_eq!(find(&["src"]), (2, 150));
    assert_eq!(find(&["tests"]), (0, 0));
    assert_eq!(find(&["tests", "deep"]), (1, 7));
    assert_eq!(b.dirs.len(), 4);
}

#[test]
fn breakdown_of_empty_cache_is_root_only() {
    let c = Cache::empty(String::new(), Timestamp::new(0, 0), String::new());
    let b = directory_breakdown(&c);
    assert_eq!(b.dirs.len(), 1);
    assert_eq!((b.infos[0].files, b.infos[0].total_size), (0, 0));
}

#[test]
fn directory_info_counts_files() {
    let mut d = timelord::DirectoryInfo::new();
    d.add_file(5);
    d.add_file(7);
    assert_eq!((d.files, d.total_size), (2, 12));
}
