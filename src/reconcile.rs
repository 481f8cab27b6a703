use vstd::prelude::*;
use crate::paths::joined_path;
use crate::snapshot::{Cache, FileRecord, HashedFile, RelativePath, Workspace};
use crate::snapshot::{has_path, lookup, lemma_lookup_at, sorted_by_path};
use crate::timestamp::Timestamp;

verus! {

/// How a file of the new snapshot compares with the old one.
#[derive(Clone, Copy, Debug, PartialEq, Eq, Structural)]
pub enum Change {
    /// The old snapshot has no file at this path.
    New,
    /// The fingerprint differs.
    ContentChanged,
    /// The fingerprint matches but the size differs.
    SizeChanged,
    /// Fingerprint and size both match.
    Unchanged,
}

pub open spec fn classify_spec(old: Option<FileRecord>, new: FileRecord) -> Change {
    match old {
        None => Change::New,
        Some(o) => if new.hash != o.hash {
            Change::ContentChanged
        } else if new.size != o.size {
            Change::SizeChanged
        } else {
            Change::Unchanged
        },
    }
}

/// The change of record `n` against the records `old`.
pub open spec fn change_of(old: Seq<FileRecord>, n: FileRecord) -> Change {
    classify_spec(lookup(old, n.path), n)
}

/// `n` is unchanged against `old`, and its modification time is not the
/// recorded one.
pub open spec fn needs_restore(old: Seq<FileRecord>, n: FileRecord) -> bool {
    &&& change_of(old, n) == Change::Unchanged
    &&& lookup(old, n.path).unwrap().timestamp != n.timestamp
}

/// The paths to restore, in the order of `new`, each with the modification
/// time that `old` recorded for it.
pub open spec fn restorations_of(old: Seq<FileRecord>, new: Seq<FileRecord>) -> Seq<(Seq<char>, Timestamp)>
    decreases new.len(),
{
    if new.len() == 0 {
        Seq::empty()
    } else {
        let rest = restorations_of(old, new.drop_last());
        let n = new.last();
        if needs_restore(old, n) {
            rest.push((n.path, lookup(old, n.path).unwrap().timestamp))
        } else {
            rest
        }
    }
}

/// How many records of `new` are unchanged against `old`.
pub open spec fn count_unchanged(old: Seq<FileRecord>, new: Seq<FileRecord>) -> nat
    decreases new.len(),
{
    if new.len() == 0 {
        0
    } else {
        count_unchanged(old, new.drop_last()) + if change_of(old, new.last()) == Change::Unchanged {
            1nat
        } else {
            0nat
        }
    }
}

/// The records of `new` as they stand once the restorations are done: each
/// file that needs it carries the recorded modification time.
pub open spec fn restored(old: Seq<FileRecord>, new: Seq<FileRecord>) -> Seq<FileRecord> {
    new.map_values(
        |n: FileRecord|
            if needs_restore(old, n) {
                FileRecord { timestamp: lookup(old, n.path).unwrap().timestamp, ..n }
            } else {
                n
            },
    )
}

pub open spec fn opt_record(f: Option<&HashedFile>) -> Option<FileRecord> {
    match f {
        Some(f) => Some(f@),
        None => None,
    }
}

/// Classifies `new` against the old record of its path, if there is one.
pub fn classify(old: Option<&HashedFile>, new: &HashedFile) -> (r: Change)
    ensures
        r == classify_spec(opt_record(old), new@),
{
    match old {
        None => Change::New,
        Some(o) => {
            if new.hash.0 != o.hash.0 {
                Change::ContentChanged
            } else if new.size != o.size {
                Change::SizeChanged
            } else {
                Change::Unchanged
            }
        },
    }
}

/// One file whose modification time is to be set back.
#[derive(Clone, Debug, PartialEq, Eq)]
pub struct Restoration {
    pub path: RelativePath,
    pub absolute_path: String,
    pub timestamp: Timestamp,
}

/// What a run does with a new snapshot against the old one.
#[derive(Clone, Debug, PartialEq, Eq)]
pub struct SyncPlan {
    /// The change of each entry of the new snapshot, in its order.
    pub changes: Vec<Change>,
    /// The unchanged files whose modification time differs from the recorded one.
    pub restorations: Vec<Restoration>,
    /// How many files are unchanged.
    pub fresh: usize,
    /// How many files are new or changed.
    pub dirty: usize,
}

/// Compares the freshly scanned `new` with the recorded `old`: classifies each
/// file of `new`, and lists the unchanged files whose modification time is to
/// be set back to the recorded one, located inside `workspace`.
pub fn plan_sync(old: &Cache, new: &Cache, workspace: &Workspace) -> (r: SyncPlan)
    requires
        old.wf(),
        new.wf(),
    ensures
        r.changes@.len() == new.records().len(),
        forall|k: int|
            0 <= k < r.changes@.len() ==> #[trigger] r.changes@[k] == change_of(old.records(), new.records()[k]),
        r.restorations@.len() == restorations_of(old.records(), new.records()).len(),
        forall|k: int|
            0 <= k < r.restorations@.len() ==> {
                let e = restorations_of(old.records(), new.records())[k];
                &&& (#[trigger] r.restorations@[k]).path@ == e.0
                &&& r.restorations@[k].timestamp == e.1
                &&& r.restorations@[k].absolute_path@ == joined_path(workspace.source_dir@, e.0)
            },
        r.fresh == count_unchanged(old.records(), new.records()),
        r.fresh + r.dirty == new.records().len(),
{
    let ghost os = old.records();
    let ghost ns = new.records();
    let mut changes: Vec<Change> = Vec::new();
    let mut restorations: Vec<Restoration> = Vec::new();
    let mut fresh: usize = 0;
    let mut dirty: usize = 0;
    let mut k: usize = 0;
    while k < new.entries.len()
        invariant
            os == old.records(),
            ns == new.records(),
            old.wf(),
            ns.len() == new.entries@.len(),
            k <= ns.len(),
            changes@.len() == k,
            forall|j: int| 0 <= j < k ==> #[trigger] changes@[j] == change_of(os, ns[j]),
            restorations@.len() == restorations_of(os, ns.subrange(0, k as int)).len(),
            forall|j: int|
                0 <= j < restorations@.len() ==> {
                    let e = restorations_of(os, ns.subrange(0, k as int))[j];
                    &&& (#[trigger] restorations@[j]).path@ == e.0
                    &&& restorations@[j].timestamp == e.1
                    &&& restorations@[j].absolute_path@ == joined_path(workspace.source_dir@, e.0)
                },
            fresh == count_unchanged(os, ns.subrange(0, k as int)),
            fresh + dirty == k,
        decreases new.entries.len() - k,
    {
        let n = &new.entries[k];
        assert(ns[k as int] == n@);
        let o = old.get(n.path.as_str());
        let c = classify(o, n);
        let ghost prev = ns.subrange(0, k as int);
        let ghost cur = ns.subrange(0, k as int + 1);
        assert(cur.drop_last() =~= prev);
        assert(cur.last() == n@);
        changes.push(c);
        if c == Change::Unchanged {
            fresh = fresh + 1;
            match o {
                Some(o) => {
                    if o.timestamp != n.timestamp {
                        let path = n.path.duplicate();
                        let absolute_path = n.path.to_absolute_path(workspace);
                        restorations.push(Restoration { path, absolute_path, timestamp: o.timestamp });
                    }
                },
                None => {},
            }
        } else {
            dirty = dirty + 1;
        }
        k = k + 1;
    }
    assert(ns.subrange(0, k as int) =~= ns);
    SyncPlan { changes, restorations, fresh, dirty }
}

/// A snapshot compared with itself: every file is unchanged and nothing is
/// restored.
pub proof fn lemma_same_snapshot_unchanged(s: Seq<FileRecord>)
    requires
        sorted_by_path(s),
    ensures
        forall|k: int| 0 <= k < s.len() ==> #[trigger] change_of(s, s[k]) == Change::Unchanged,
        forall|k: int| 0 <= k < s.len() ==> !needs_restore(s, #[trigger] s[k]),
        restorations_of(s, s).len() == 0,
{
    assert forall|k: int| 0 <= k < s.len() implies #[trigger] change_of(s, s[k]) == Change::Unchanged
        && !needs_restore(s, s[k]) by {
        lemma_lookup_at(s, k);
    }
    lemma_no_restorations(s, s);
}

/// Where no record of `new` needs it, nothing is restored.
pub proof fn lemma_no_restorations(old: Seq<FileRecord>, new: Seq<FileRecord>)
    requires
        forall|k: int| 0 <= k < new.len() ==> !needs_restore(old, #[trigger] new[k]),
    ensures
        restorations_of(old, new).len() == 0,
    decreases new.len(),
{
    if new.len() > 0 {
        assert(!needs_restore(old, new[new.len() - 1]));
        lemma_no_restorations(old, new.drop_last());
    }
}

/// Reconciling twice against the same baseline: once the restorations of
/// the first run are done, the second run classifies every file as the first
/// did and has nothing left to restore.
pub proof fn lemma_reconcile_idempotent(old: Seq<FileRecord>, new: Seq<FileRecord>)
    ensures
        restored(old, new).len() == new.len(),
        forall|k: int|
            0 <= k < new.len() ==> #[trigger] change_of(old, restored(old, new)[k]) == change_of(old, new[k]),
        restorations_of(old, restored(old, new)).len() == 0,
{
    let r = restored(old, new);
    assert forall|k: int| 0 <= k < new.len() implies #[trigger] change_of(old, r[k]) == change_of(old, new[k])
        && !needs_restore(old, r[k]) by {
        assert(r[k].path == new[k].path);
    }
    lemma_no_restorations(old, r);
}

/// A file whose content changed is classified `ContentChanged` and keeps its
/// time; a file with the recorded fingerprint and size is `Unchanged`, and is
/// restored exactly when its time is not the recorded one.
pub proof fn lemma_change_detection(old: Seq<FileRecord>, n: FileRecord)
    requires
        has_path(old, n.path),
    ensures
        n.hash != lookup(old, n.path).unwrap().hash ==> change_of(old, n) == Change::ContentChanged
            && !needs_restore(old, n),
        n.hash == lookup(old, n.path).unwrap().hash && n.size == lookup(old, n.path).unwrap().size
            ==> change_of(old, n) == Change::Unchanged && (needs_restore(old, n) <==> n.timestamp
            != lookup(old, n.path).unwrap().timestamp),
{
}

/// Each restoration sets its file to the time the old snapshot recorded for
/// that path, and once done every unchanged file carries that time.
pub proof fn lemma_restoration_correct(old: Seq<FileRecord>, new: Seq<FileRecord>)
    ensures
        forall|k: int|
            0 <= k < restorations_of(old, new).len() ==> {
                let e = #[trigger] restorations_of(old, new)[k];
                &&& has_path(old, e.0)
                &&& e.1 == lookup(old, e.0).unwrap().timestamp
            },
        forall|k: int|
            0 <= k < new.len() && change_of(old, new[k]) == Change::Unchanged ==> #[trigger] restored(
                old,
                new,
            )[k].timestamp == lookup(old, new[k].path).unwrap().timestamp,
    decreases new.len(),
{
    if new.len() > 0 {
        lemma_restoration_correct(old, new.drop_last());
    }
}

/// A path of `new` is among the restorations exactly when its file is
/// unchanged and its time differs from the recorded one: files with changed
/// content are never touched.
#[verifier::spinoff_prover]
#[verifier::rlimit(30)]
pub proof fn lemma_selective_restoration(old: Seq<FileRecord>, new: Seq<FileRecord>, k: int)
    requires
        sorted_by_path(new),
        0 <= k < new.len(),
    ensures
        (exists|j: int| 0 <= j < restorations_of(old, new).len() && #[trigger] restorations_of(old, new)[j].0
            == new[k].path) <==> needs_restore(old, new[k]),
    decreases new.len(),
{
    let rs = restorations_of(old, new);
    let last = new.len() - 1;
    let prev = new.drop_last();
    let rp = restorations_of(old, prev);
    let nl = new[last];
    assert(new.last() == nl);
    assert(rs == (if needs_restore(old, nl) {
        rp.push((nl.path, lookup(old, nl.path).unwrap().timestamp))
    } else {
        rp
    }));
    assert(sorted_by_path(prev)) by {
        assert forall|a: int, b: int| 0 <= a < b < prev.len() implies crate::paths::path_lt(
            #[trigger] prev[a].path,
            #[trigger] prev[b].path,
        ) by {
            assert(prev[a] == new[a] && prev[b] == new[b]);
        }
    }
    let p = new[k].path;
    if k < last {
        lemma_selective_restoration(old, prev, k);
        assert(prev[k] == new[k]);
        assert(nl.path != p) by {
            crate::paths::lemma_path_lt_irreflexive(p);
        }
        if exists|j: int| 0 <= j < rs.len() && #[trigger] rs[j].0 == p {
            let j = choose|j: int| 0 <= j < rs.len() && #[trigger] rs[j].0 == p;
            assert(j < rp.len());
            assert(rp[j] == rs[j]);
            assert(needs_restore(old, new[k]));
        }
        if needs_restore(old, new[k]) {
            let j = choose|j: int| 0 <= j < rp.len() && #[trigger] rp[j].0 == p;
            assert(rs[j] == rp[j]);
            assert(exists|j: int| 0 <= j < rs.len() && #[trigger] rs[j].0 == p);
        }
    } else {
        if needs_restore(old, nl) {
            assert(rs[rp.len() as int].0 == p);
            assert(exists|j: int| 0 <= j < rs.len() && #[trigger] rs[j].0 == p);
        } else {
            lemma_restorations_paths(old, prev);
            if exists|j: int| 0 <= j < rs.len() && #[trigger] rs[j].0 == p {
                let j = choose|j: int| 0 <= j < rs.len() && #[trigger] rs[j].0 == p;
                assert(rs[j] == rp[j]);
                let i = choose|i: int| 0 <= i < prev.len() && #[trigger] prev[i].path == rp[j].0;
                assert(prev[i] == new[i]);
                crate::paths::lemma_path_lt_irreflexive(p);
                assert(false);
            }
        }
    }
}

/// Every restored path is the path of a record of `new`.
pub proof fn lemma_restorations_paths(old: Seq<FileRecord>, new: Seq<FileRecord>)
    ensures
        forall|j: int|
            0 <= j < restorations_of(old, new).len() ==> exists|i: int|
                0 <= i < new.len() && #[trigger] new[i].path == (#[trigger] restorations_of(old, new)[j]).0,
    decreases new.len(),
{
    if new.len() > 0 {
        let prev = new.drop_last();
        lemma_restorations_paths(old, prev);
        let rs = restorations_of(old, new);
        let rp = restorations_of(old, prev);
        assert forall|j: int| 0 <= j < rs.len() implies exists|i: int|
            0 <= i < new.len() && #[trigger] new[i].path == (#[trigger] rs[j]).0 by {
            if j < rp.len() {
                assert(rs[j] == rp[j]);
                let i = choose|i: int| 0 <= i < prev.len() && #[trigger] prev[i].path == rp[j].0;
                assert(new[i] == prev[i]);
            } else {
                assert(new[new.len() - 1].path == rs[j].0);
            }
        }
    }
}

/// Decisions rest on the records alone, keyed by relative path: a tree moved
/// to another root, with the same records, gets the same classifications and
/// restorations, located under the new root.
pub proof fn lemma_relocation(old: &Cache, moved: &Cache, original: &Cache)
    requires
        moved.records() == original.records(),
    ensures
        restorations_of(old.records(), moved.records()) == restorations_of(old.records(), original.records()),
        forall|k: int|
            0 <= k < moved.records().len() ==> #[trigger] change_of(old.records(), moved.records()[k])
                == change_of(old.records(), original.records()[k]),
{
}

} // verus!
