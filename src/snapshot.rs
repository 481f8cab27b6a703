use vstd::prelude::*;
use core::cmp::Ordering;
use crate::paths::{compare_paths, path_lt, lemma_path_lt_transitive, lemma_path_lt_irreflexive};
use crate::paths::{joined_path, join_path, stripped_path, strip_root};
use crate::timestamp::Timestamp;

verus! {

/// The format version that this library writes and accepts.
pub const TIMELORD_CACHE_VERSION: u32 = 3;

/// A source tree on disk.
#[derive(Clone, Debug)]
pub struct Workspace {
    pub source_dir: String,
}

/// A file's location relative to the root of its source tree.
#[derive(Clone, Debug, PartialEq, Eq)]
pub struct RelativePath(pub String);

impl View for RelativePath {
    type V = Seq<char>;

    open spec fn view(&self) -> Seq<char> {
        self.0@
    }
}

impl RelativePath {
    pub fn as_str(&self) -> (r: &str)
        ensures
            r@ == self@,
    {
        self.0.as_str()
    }

    /// The file's absolute location inside `workspace`.
    pub fn to_absolute_path(&self, workspace: &Workspace) -> (r: String)
        ensures
            r@ == joined_path(workspace.source_dir@, self@),
    {
        join_path(workspace.source_dir.as_str(), self.0.as_str())
    }

    pub fn duplicate(&self) -> (r: RelativePath)
        ensures
            r@ == self@,
    {
        RelativePath(self.0.clone())
    }
}

/// The fingerprint of a file's content.
#[derive(Clone, Copy, Debug, PartialEq, Eq, Structural, PartialOrd, Ord, Hash)]
pub struct Hash(pub u64);

/// What seahash gives for these bytes.
pub uninterp spec fn seahash_of(bytes: Seq<u8>) -> u64;

/// Relies on `seahash::hash`, a function of the bytes alone.
#[verifier::external_body]
fn seahash_bytes(bytes: &[u8]) -> (r: u64)
    ensures
        r == seahash_of(bytes@),
{
    seahash::hash(bytes)
}

impl Hash {
    /// The fingerprint of `contents`.
    pub fn of_contents(contents: &[u8]) -> (r: Hash)
        ensures
            r.0 == seahash_of(contents@),
    {
        Hash(seahash_bytes(contents))
    }
}

/// What a snapshot records of one file.
pub struct FileRecord {
    pub path: Seq<char>,
    pub hash: u64,
    pub size: u64,
    pub timestamp: Timestamp,
}

/// One tracked file: its path, the fingerprint and size of its content, and
/// its modification time when it was scanned.
#[derive(Clone, Debug, PartialEq, Eq)]
pub struct HashedFile {
    pub path: RelativePath,
    pub hash: Hash,
    pub size: u64,
    pub timestamp: Timestamp,
}

impl View for HashedFile {
    type V = FileRecord;

    open spec fn view(&self) -> FileRecord {
        FileRecord { path: self.path@, hash: self.hash.0, size: self.size, timestamp: self.timestamp }
    }
}

impl HashedFile {
    /// The record of a file read at `path` inside the tree rooted at `root`,
    /// with content `contents` and modification time `timestamp`; `None` where
    /// `path` does not lie under `root`.
    pub fn from_contents(root: &str, path: &str, contents: &[u8], timestamp: Timestamp) -> (r: Option<
        HashedFile,
    >)
        ensures
            match r {
                Some(f) => {
                    &&& stripped_path(path@, root@) == Some(f.path@)
                    &&& f.hash.0 == seahash_of(contents@)
                    &&& f.size == contents@.len()
                    &&& f.timestamp == timestamp
                },
                None => stripped_path(path@, root@) is None,
            },
    {
        match strip_root(path, root) {
            Some(rel) => Some(
                HashedFile {
                    path: RelativePath(rel),
                    hash: Hash::of_contents(contents),
                    size: contents.len() as u64,
                    timestamp,
                },
            ),
            None => None,
        }
    }
}

/// The records' paths are strictly increasing, so each path occurs once.
pub open spec fn sorted_by_path(s: Seq<FileRecord>) -> bool {
    forall|i: int, j: int| 0 <= i < j < s.len() ==> path_lt(#[trigger] s[i].path, #[trigger] s[j].path)
}

pub open spec fn has_path(s: Seq<FileRecord>, p: Seq<char>) -> bool {
    exists|i: int| 0 <= i < s.len() && #[trigger] s[i].path == p
}

/// The record for path `p`, if there is one.
pub open spec fn lookup(s: Seq<FileRecord>, p: Seq<char>) -> Option<FileRecord> {
    if has_path(s, p) {
        Some(s[choose|i: int| 0 <= i < s.len() && #[trigger] s[i].path == p])
    } else {
        None
    }
}

pub proof fn lemma_lookup_at(s: Seq<FileRecord>, i: int)
    requires
        sorted_by_path(s),
        0 <= i < s.len(),
    ensures
        lookup(s, s[i].path) == Some(s[i]),
{
    assert(has_path(s, s[i].path));
    let j = choose|j: int| 0 <= j < s.len() && #[trigger] s[j].path == s[i].path;
    if j != i {
        lemma_path_lt_irreflexive(s[i].path);
    }
}

/// The recorded state of a source tree: one record per file, ordered by path,
/// with the provenance of the scan.
#[derive(Debug)]
pub struct Cache {
    pub entries: Vec<HashedFile>,
    pub version: u32,
    pub crawl_time: Timestamp,
    pub absolute_path: String,
    pub hostname: String,
}

impl Cache {
    pub open spec fn records(&self) -> Seq<FileRecord> {
        self.entries@.map_values(|f: HashedFile| f@)
    }

    pub open spec fn wf(&self) -> bool {
        sorted_by_path(self.records())
    }

    /// A snapshot of no files, stamped with the current format version.
    pub fn empty(absolute_path: String, crawl_time: Timestamp, hostname: String) -> (r: Cache)
        ensures
            r.wf(),
            r.entries@.len() == 0,
            r.version == TIMELORD_CACHE_VERSION,
            r.crawl_time == crawl_time,
            r.absolute_path@ == absolute_path@,
            r.hostname@ == hostname@,
    {
        let r = Cache { entries: Vec::new(), version: TIMELORD_CACHE_VERSION, crawl_time, absolute_path, hostname };
        assert(r.records() =~= Seq::<FileRecord>::empty());
        r
    }

    /// An empty snapshot of the tree at `absolute_path`, taken now on this
    /// machine (an empty host name where the machine's name cannot be read).
    pub fn new(absolute_path: String) -> (r: Cache)
        ensures
            r.wf(),
            r.entries@.len() == 0,
            r.version == TIMELORD_CACHE_VERSION,
            r.crawl_time.wf(),
            r.absolute_path@ == absolute_path@,
    {
        let host = match machine_hostname() {
            Some(h) => h,
            None => String::new(),
        };
        Cache::empty(absolute_path, Timestamp::now(), host)
    }

    pub fn len(&self) -> (r: usize)
        ensures
            r == self.entries@.len(),
    {
        self.entries.len()
    }

    /// Whether the entries are strictly ordered by path, as `wf` asks.
    pub fn is_ordered(&self) -> (r: bool)
        ensures
            r == self.wf(),
    {
        let ghost s = self.records();
        let n = self.entries.len();
        if n == 0 {
            return true;
        }
        let mut i: usize = 1;
        while i < n
            invariant
                s == self.records(),
                s.len() == n,
                1 <= i <= n,
                forall|a: int, b: int| 0 <= a < b < i ==> path_lt(#[trigger] s[a].path, #[trigger] s[b].path),
            decreases n - i,
        {
            assert(s[i - 1] == self.entries[i - 1]@ && s[i as int] == self.entries[i as int]@);
            match compare_paths(self.entries[i - 1].path.as_str(), self.entries[i].path.as_str()) {
                Ordering::Less => {
                    assert forall|a: int, b: int| 0 <= a < b < i + 1 implies path_lt(
                        #[trigger] s[a].path,
                        #[trigger] s[b].path,
                    ) by {
                        if b == i && a < i - 1 {
                            lemma_path_lt_transitive(s[a].path, s[i - 1].path, s[b].path);
                        }
                    }
                },
                _ => {
                    proof {
                        if self.wf() {
                            let a = i - 1;
                            let b = i as int;
                            assert(path_lt(s[a].path, s[b].path));
                            crate::paths::lemma_bytes_lt_asymmetric(
                                crate::paths::path_key(s[a].path),
                                crate::paths::path_key(s[b].path),
                            );
                            lemma_path_lt_irreflexive(s[a].path);
                        }
                    }
                    return false;
                },
            }
            i = i + 1;
        }
        true
    }

    /// Where `path` stands among the entries: `Ok` with its index, or `Err`
    /// with the index at which it would be inserted.
    pub fn search(&self, path: &str) -> (r: Result<usize, usize>)
        requires
            self.wf(),
        ensures
            match r {
                Ok(i) => i < self.entries@.len() && self.records()[i as int].path == path@,
                Err(i) => {
                    &&& i <= self.entries@.len()
                    &&& forall|k: int| 0 <= k < i ==> path_lt(#[trigger] self.records()[k].path, path@)
                    &&& forall|k: int| i <= k < self.entries@.len() ==> path_lt(path@, #[trigger] self.records()[k].path)
                },
            },
    {
        let ghost s = self.records();
        let mut lo: usize = 0;
        let mut hi: usize = self.entries.len();
        while lo < hi
            invariant
                s == self.records(),
                sorted_by_path(s),
                s.len() == self.entries@.len(),
                lo <= hi <= s.len(),
                forall|k: int| 0 <= k < lo ==> path_lt(#[trigger] s[k].path, path@),
                forall|k: int| hi <= k < s.len() ==> path_lt(path@, #[trigger] s[k].path),
            decreases hi - lo,
        {
            let mid = lo + (hi - lo) / 2;
            let e = &self.entries[mid];
            assert(s[mid as int] == e@);
            match compare_paths(e.path.0.as_str(), path) {
                Ordering::Less => {
                    assert forall|k: int| 0 <= k < mid + 1 implies path_lt(#[trigger] s[k].path, path@) by {
                        if k < mid {
                            lemma_path_lt_transitive(s[k].path, s[mid as int].path, path@);
                        }
                    }
                    lo = mid + 1;
                },
                Ordering::Greater => {
                    assert forall|k: int| mid <= k < s.len() implies path_lt(path@, #[trigger] s[k].path) by {
                        if k > mid {
                            lemma_path_lt_transitive(path@, s[mid as int].path, s[k].path);
                        }
                    }
                    hi = mid;
                },
                Ordering::Equal => {
                    return Ok(mid);
                },
            }
        }
        Err(lo)
    }

    /// The record for `path`, if the snapshot has one.
    pub fn get(&self, path: &str) -> (r: Option<&HashedFile>)
        requires
            self.wf(),
        ensures
            match r {
                Some(f) => lookup(self.records(), path@) == Some(f@),
                None => lookup(self.records(), path@) is None,
            },
    {
        match self.search(path) {
            Ok(i) => {
                proof {
                    lemma_lookup_at(self.records(), i as int);
                }
                Some(&self.entries[i])
            },
            Err(i) => {
                assert forall|k: int| 0 <= k < self.records().len() implies #[trigger] self.records()[k].path
                    != path@ by {
                    lemma_path_lt_irreflexive(path@);
                }
                None
            },
        }
    }

    /// Adds `file`, replacing the record of the same path if there is one; no
    /// other record is lost or changed.
    pub fn insert(&mut self, file: HashedFile)
        requires
            old(self).wf(),
        ensures
            final(self).wf(),
            final(self).version == old(self).version,
            final(self).crawl_time == old(self).crawl_time,
            final(self).absolute_path == old(self).absolute_path,
            final(self).hostname == old(self).hostname,
            lookup(final(self).records(), file.path@) == Some(file@),
            forall|p: Seq<char>|
                p != file.path@ ==> #[trigger] lookup(final(self).records(), p) == lookup(old(self).records(), p),
    {
        let ghost s0 = self.records();
        let ghost fv = file@;
        match self.search(file.path.0.as_str()) {
            Ok(i) => {
                self.entries.set(i, file);
                let ghost s1 = self.records();
                assert(s1 =~= s0.update(i as int, fv));
                assert(sorted_by_path(s1)) by {
                    assert forall|a: int, b: int| 0 <= a < b < s1.len() implies path_lt(
                        #[trigger] s1[a].path,
                        #[trigger] s1[b].path,
                    ) by {
                        assert(s1[a].path == s0[a].path);
                        assert(s1[b].path == s0[b].path);
                    }
                }
                proof {
                    lemma_lookup_at(s1, i as int);
                    assert forall|p: Seq<char>| p != fv.path implies #[trigger] lookup(s1, p) == lookup(s0, p) by {
                        if has_path(s0, p) {
                            let j = choose|j: int| 0 <= j < s0.len() && #[trigger] s0[j].path == p;
                            lemma_lookup_at(s0, j);
                            assert(s1[j].path == p);
                            lemma_lookup_at(s1, j);
                        } else {
                            assert forall|k: int| 0 <= k < s1.len() implies #[trigger] s1[k].path != p by {
                                if k != i {
                                    assert(s1[k] == s0[k]);
                                }
                            }
                        }
                    }
                }
            },
            Err(i) => {
                self.entries.insert(i, file);
                let ghost s1 = self.records();
                assert(s1 =~= s0.insert(i as int, fv));
                assert(sorted_by_path(s1)) by {
                    assert forall|a: int, b: int| 0 <= a < b < s1.len() implies path_lt(
                        #[trigger] s1[a].path,
                        #[trigger] s1[b].path,
                    ) by {
                        if a < i && b < i {
                            assert(s1[a] == s0[a] && s1[b] == s0[b]);
                        } else if a < i && b == i {
                            assert(s1[a] == s0[a]);
                        } else if a < i {
                            assert(s1[a] == s0[a] && s1[b] == s0[b - 1]);
                        } else if a == i {
                            assert(s1[b] == s0[b - 1]);
                        } else {
                            assert(s1[a] == s0[a - 1] && s1[b] == s0[b - 1]);
                        }
                    }
                }
                proof {
                    lemma_lookup_at(s1, i as int);
                    assert forall|p: Seq<char>| p != fv.path implies #[trigger] lookup(s1, p) == lookup(s0, p) by {
                        if has_path(s0, p) {
                            let j = choose|j: int| 0 <= j < s0.len() && #[trigger] s0[j].path == p;
                            lemma_lookup_at(s0, j);
                            let j1 = if j < i { j } else { j + 1 };
                            assert(s1[j1] == s0[j]);
                            lemma_lookup_at(s1, j1);
                        } else {
                            assert forall|k: int| 0 <= k < s1.len() implies #[trigger] s1[k].path != p by {
                                if k < i {
                                    assert(s1[k] == s0[k]);
                                } else if k > i {
                                    assert(s1[k] == s0[k - 1]);
                                }
                            }
                        }
                    }
                }
            },
        }
    }
}

/// Relies on `hostname::get`, the name written lossily as UTF-8; it depends on
/// the machine, so nothing is promised of it.
#[verifier::external_body]
fn machine_hostname() -> (r: Option<String>) {
    match hostname::get() {
        Ok(h) => Some(h.to_string_lossy().into_owned()),
        Err(_) => None,
    }
}

} // verus!
