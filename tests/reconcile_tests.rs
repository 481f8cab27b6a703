use timelord::{classify, plan_sync, Cache, Change, HashedFile, RelativePath, Timestamp, Workspace};

fn record(path: &str, content: &[u8], secs: i64) -> HashedFile {
    HashedFile {
        path: RelativePath(path.to_string()),
        hash: timelord::snapshot::Hash::of_contents(content),
        size: content.len() as u64,
        timestamp: Timestamp::new(secs, 0),
    }
}

fn cache_of(root: &str, files: Vec<HashedFile>) -> Cache {
    let mut c = Cache::empty(root.to_string(), Timestamp::new(0, 0), String::from("host"));
    for f in files {
        c.insert(f);
    }
    c
}

fn ws(root: &str) -> Workspace {
    Workspace { source_dir: root.to_string() }
}

#[test]
fn classify_each_case() {
    let old = record("a", b"hello", 1);
    assert_eq!(classify(None, &old), Change::New);
    assert_eq!(classify(Some(&old), &record("a", b"hellp", 1)), Change::ContentChanged);
    let mut same_hash_other_size = record("a", b"hello", 1);
    same_hash_other_size.size = 99;
    assert_eq!(classify(Some(&old), &same_hash_other_size), Change::SizeChanged);
    assert_eq!(classify(Some(&old), &record("a", b"hello", 500)), Change::Unchanged);
}

#[test]
fn example_two_files_one_touched() {
    let t0 = 1_700_000_000;
    let old = cache_of("/src", vec![record("a.txt", b"hello", t0), record("b.txt", b"world", t0)]);
    assert_eq!(old.len(), 2);
    let new = cache_of("/src", vec![record("a.txt", b"hello", t0 - 3600), record("b.txt", b"world", t0)]);
    let plan = plan_sync(&old, &new, &ws("/src"));
    assert_eq!(plan.changes, vec![Change::Unchanged, Change::Unchanged]);
    assert_eq!(plan.fresh, 2);
    assert_eq!(plan.dirty, 0);
    assert_eq!(plan.restorations.len(), 1);
    assert_eq!(plan.restorations[0].path.as_str(), "a.txt");
    assert_eq!(plan.restorations[0].absolute_path, "/src/a.txt");
    assert_eq!(plan.restorations[0].timestamp, Timestamp::new(t0, 0));
}

#[test]
fn same_snapshot_restores_nothing() {
    let c = cache_of("/src", vec![record("a", b"1", 10), record("b/c", b"2", 20)]);
    let d = cache_of("/src", vec![record("a", b"1", 10), record("b/c", b"2", 20)]);
    let plan = plan_sync(&c, &d, &ws("/src"));
    assert_eq!(plan.changes, vec![Change::Unchanged, Change::Unchanged]);
    assert!(plan.restorations.is_empty());
}

#[test]
fn second_run_after_restoration_is_idle() {
    let old = cache_of("/src", vec![record("a", b"1", 10), record("b", b"2", 20)]);
    let new = cache_of("/src", vec![record("a", b"1", 99), record("b", b"2", 98)]);
    let first = plan_sync(&old, &new, &ws("/src"));
    assert_eq!(first.restorations.len(), 2);
    let mut after = cache_of("/src", vec![]);
    for e in &new.entries {
        let mut f = e.clone();
        for r in &first.restorations {
            if r.path == f.path {
                f.timestamp = r.timestamp;
            }
        }
        after.insert(f);
    }
    let second = plan_sync(&old, &after, &ws("/src"));
    assert_eq!(second.changes, first.changes);
    assert!(second.restorations.is_empty());
}

#[test]
fn content_change_is_detected_and_not_restored() {
    let old = cache_of("/src", vec![record("a", b"hello", 10)]);
    let new = cache_of("/src", vec![record("a", b"jello", 50)]);
    let plan = plan_sync(&old, &new, &ws("/src"));
    assert_eq!(plan.changes, vec![Change::ContentChanged]);
    assert!(plan.restorations.is_empty());
    assert_eq!(plan.dirty, 1);
}

#[test]
fn mtime_only_change_is_restored_exactly() {
    let old = cache_of("/src", vec![HashedFile {
        path: RelativePath(String::from("x.rs")),
        hash: timelord::snapshot::Hash::of_contents(b"x"),
        size: 1,
        timestamp: Timestamp::new(1234, 567_890),
    }]);
    let new = cache_of("/src", vec![record("x.rs", b"x", 9999)]);
    let plan = plan_sync(&old, &new, &ws("/src"));
    assert_eq!(plan.changes, vec![Change::Unchanged]);
    assert_eq!(plan.restorations[0].timestamp, Timestamp::new(1234, 567_890));
}

#[test]
fn only_unchanged_files_are_restored() {
    let old = cache_of(
        "/src",
        vec![record("a", b"1", 10), record("b", b"2", 20), record("c", b"3", 30), record("d", b"4", 40)],
    );
    let new = cache_of(
        "/src",
        vec![record("a", b"1", 100), record("b", b"changed", 200), record("c", b"3", 300), record("d", b"4", 400)],
    );
    let plan = plan_sync(&old, &new, &ws("/src"));
    let restored: Vec<&str> = plan.restorations.iter().map(|r| r.path.as_str()).collect();
    assert_eq!(restored, vec!["a", "c", "d"]);
    assert_eq!(plan.changes[1], Change::ContentChanged);
    assert_eq!(plan.fresh, 3);
    assert_eq!(plan.dirty, 1);
}

#[test]
fn new_files_are_left_alone() {
    let old = cache_of("/src", vec![record("a", b"1", 10)]);
    let new = cache_of("/src", vec![record("a", b"1", 10), record("z", b"new", 50)]);
    let plan = plan_sync(&old, &new, &ws("/src"));
    assert_eq!(plan.changes, vec![Change::Unchanged, Change::New]);
    assert!(plan.restorations.is_empty());
}

#[test]
fn relocated_tree_still_restores() {
    let old = cache_of("/old/root", vec![record("src/a.rs", b"a", 10), record("src/b.rs", b"b", 20)]);
    let new = cache_of("/new/root", vec![record("src/a.rs", b"a", 77), record("src/b.rs", b"b", 20)]);
    let plan = plan_sync(&old, &new, &ws("/new/root"));
    assert_eq!(plan.restorations.len(), 1);
    assert_eq!(plan.restorations[0].absolute_path, "/new/root/src/a.rs");
    assert_eq!(plan.restorations[0].timestamp, Timestamp::new(10, 0));
}

#[test]
fn empty_baseline_marks_everything_new() {
    let old = cache_of("", vec![]);
    let new = cache_of("/src", vec![record("a", b"1", 10), record("b", b"2", 20)]);
    let plan = plan_sync(&old, &new, &ws("/src"));
    assert_eq!(plan.changes, vec![Change::New, Change::New]);
    assert_eq!(plan.fresh, 0);
    assert_eq!(plan.dirty, 2);
}
