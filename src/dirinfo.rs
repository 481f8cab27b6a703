use vstd::prelude::*;
use crate::paths::{path_components, split_components};
use crate::snapshot::{Cache, FileRecord};

verus! {

/// The files that lie directly in one directory: how many, and their bytes.
#[derive(Clone, Copy, Debug, PartialEq, Eq, Structural)]
pub struct DirectoryInfo {
    pub files: usize,
    pub total_size: u64,
}

impl DirectoryInfo {
    pub fn new() -> (r: DirectoryInfo)
        ensures
            r.files == 0,
            r.total_size == 0,
    {
        DirectoryInfo { files: 0, total_size: 0 }
    }

    /// Counts one more file of `size` bytes.
    pub fn add_file(&mut self, size: u64)
        requires
            old(self).files < usize::MAX,
            old(self).total_size + size <= u64::MAX,
        ensures
            final(self).files == old(self).files + 1,
            final(self).total_size == old(self).total_size + size,
    {
        self.files = self.files + 1;
        self.total_size = self.total_size + size;
    }
}

pub open spec fn dir_view(v: Vec<String>) -> Seq<Seq<char>> {
    v@.map_values(|s: String| s@)
}

/// The directory that holds the file at `p`, as a list of component names
/// (empty for the root).
pub open spec fn parent_dir(p: Seq<char>) -> Seq<Seq<char>> {
    let c = path_components(p);
    if c.len() == 0 {
        c
    } else {
        c.drop_last()
    }
}

/// How many of the records lie directly in `d`.
pub open spec fn files_in(s: Seq<FileRecord>, d: Seq<Seq<char>>) -> nat
    decreases s.len(),
{
    if s.len() == 0 {
        0
    } else {
        files_in(s.drop_last(), d) + if parent_dir(s.last().path) == d {
            1nat
        } else {
            0nat
        }
    }
}

/// The bytes of the records that lie directly in `d`.
pub open spec fn bytes_in(s: Seq<FileRecord>, d: Seq<Seq<char>>) -> nat
    decreases s.len(),
{
    if s.len() == 0 {
        0
    } else {
        bytes_in(s.drop_last(), d) + if parent_dir(s.last().path) == d {
            s.last().size as nat
        } else {
            0nat
        }
    }
}

/// The bytes of all records.
pub open spec fn total_bytes(s: Seq<FileRecord>) -> nat
    decreases s.len(),
{
    if s.len() == 0 {
        0
    } else {
        total_bytes(s.drop_last()) + s.last().size as nat
    }
}

/// `d` is the root, or a directory on the way to one of the records.
pub open spec fn is_listed_dir(s: Seq<FileRecord>, d: Seq<Seq<char>>) -> bool {
    ||| d.len() == 0
    ||| exists|k: int, m: int|
        0 <= k < s.len() && 0 <= m <= parent_dir(s[k].path).len() && d == #[trigger] parent_dir(
            s[k].path,
        ).subrange(0, m)
}

/// Some directory of `dirs` is `d`.
pub open spec fn listed_in(dirs: Seq<Vec<String>>, d: Seq<Seq<char>>) -> bool {
    exists|i: int| 0 <= i < dirs.len() && #[trigger] dir_view(dirs[i]) == d
}

proof fn lemma_counts_bounded(s: Seq<FileRecord>, d: Seq<Seq<char>>)
    ensures
        files_in(s, d) <= s.len(),
        bytes_in(s, d) <= total_bytes(s),
    decreases s.len(),
{
    if s.len() > 0 {
        lemma_counts_bounded(s.drop_last(), d);
    }
}

proof fn lemma_total_prefix(s: Seq<FileRecord>, k: int)
    requires
        0 <= k <= s.len(),
    ensures
        total_bytes(s.subrange(0, k)) <= total_bytes(s),
    decreases s.len() - k,
{
    if k < s.len() {
        lemma_total_prefix(s, k + 1);
        assert(s.subrange(0, k + 1).drop_last() =~= s.subrange(0, k));
    } else {
        assert(s.subrange(0, k) =~= s);
    }
}

/// The directories of a snapshot, each with the files that lie directly in it.
pub struct DirectoryBreakdown {
    /// Each directory as its component names; the root comes first.
    pub dirs: Vec<Vec<String>>,
    /// The counts of the directory at the same index.
    pub infos: Vec<DirectoryInfo>,
}

impl DirectoryBreakdown {
    pub open spec fn dir_at(&self, i: int) -> Seq<Seq<char>> {
        dir_view(self.dirs@[i])
    }

    /// The breakdown is exact for the records `s`: every directory listed
    /// once, each with its counts, and nothing else.
    pub open spec fn describes(&self, s: Seq<FileRecord>) -> bool {
        &&& self.dirs@.len() == self.infos@.len()
        &&& self.dirs@.len() > 0
        &&& self.dir_at(0).len() == 0
        &&& forall|i: int, j: int| 0 <= i < j < self.dirs@.len() ==> self.dir_at(i) != self.dir_at(j)
        &&& forall|i: int|
            0 <= i < self.dirs@.len() ==> {
                &&& is_listed_dir(s, #[trigger] self.dir_at(i))
                &&& self.infos@[i].files == files_in(s, self.dir_at(i))
                &&& self.infos@[i].total_size == bytes_in(s, self.dir_at(i))
            }
        &&& forall|d: Seq<Seq<char>>| is_listed_dir(s, d) ==> exists|i: int| 0 <= i < self.dirs@.len() && #[trigger] self.dir_at(i) == d
    }
}

/// Whether `a` names the directory of the first `m` components of `b`.
fn same_dir(a: &Vec<String>, b: &Vec<String>, m: usize) -> (r: bool)
    requires
        m <= b@.len(),
    ensures
        r == (dir_view(*a) == dir_view(*b).subrange(0, m as int)),
{
    if a.len() != m {
        assert(dir_view(*a).len() != dir_view(*b).subrange(0, m as int).len());
        return false;
    }
    let mut i: usize = 0;
    while i < m
        invariant
            a@.len() == m,
            m <= b@.len(),
            i <= m,
            forall|j: int| 0 <= j < i ==> a@[j]@ == b@[j]@,
        decreases m - i,
    {
        if a[i] != b[i] {
            assert(dir_view(*a)[i as int] != dir_view(*b).subrange(0, m as int)[i as int]);
            return false;
        }
        i = i + 1;
    }
    assert(dir_view(*a) =~= dir_view(*b).subrange(0, m as int));
    true
}

/// The first `m` components of `b`.
fn prefix_of(b: &Vec<String>, m: usize) -> (r: Vec<String>)
    requires
        m <= b@.len(),
    ensures
        dir_view(r) == dir_view(*b).subrange(0, m as int),
{
    let mut r: Vec<String> = Vec::new();
    let mut i: usize = 0;
    while i < m
        invariant
            m <= b@.len(),
            i <= m,
            r@.len() == i,
            forall|j: int| 0 <= j < i ==> r@[j]@ == b@[j]@,
        decreases m - i,
    {
        r.push(b[i].clone());
        i = i + 1;
    }
    assert(dir_view(r) =~= dir_view(*b).subrange(0, m as int));
    r
}

fn find_dir(dirs: &Vec<Vec<String>>, b: &Vec<String>, m: usize) -> (r: Option<usize>)
    requires
        m <= b@.len(),
    ensures
        match r {
            Some(i) => i < dirs@.len() && dir_view(dirs@[i as int]) == dir_view(*b).subrange(0, m as int),
            None => forall|i: int| 0 <= i < dirs@.len() ==> dir_view(#[trigger] dirs@[i]) != dir_view(*b).subrange(0, m as int),
        },
{
    let mut i: usize = 0;
    while i < dirs.len()
        invariant
            m <= b@.len(),
            i <= dirs@.len(),
            forall|j: int| 0 <= j < i ==> dir_view(#[trigger] dirs@[j]) != dir_view(*b).subrange(0, m as int),
        decreases dirs.len() - i,
    {
        if same_dir(&dirs[i], b, m) {
            return Some(i);
        }
        i = i + 1;
    }
    None
}

/// Groups the files of `cache` by the directory that holds them, listing
/// every directory on the way to a file, the root first.
pub fn directory_breakdown(cache: &Cache) -> (r: DirectoryBreakdown)
    requires
        total_bytes(cache.records()) <= u64::MAX,
    ensures
        r.describes(cache.records()),
{
    let ghost s = cache.records();
    let mut dirs: Vec<Vec<String>> = Vec::new();
    let mut infos: Vec<DirectoryInfo> = Vec::new();
    dirs.push(Vec::new());
    infos.push(DirectoryInfo::new());
    let mut k: usize = 0;
    proof {
        assert(dir_view(dirs@[0]) =~= Seq::<Seq<char>>::empty());
        let b0 = DirectoryBreakdown { dirs, infos };
        assert forall|d: Seq<Seq<char>>| is_listed_dir(s.subrange(0, 0), d) implies exists|i: int|
            0 <= i < b0.dirs@.len() && #[trigger] b0.dir_at(i) == d by {
            assert(b0.dir_at(0) == d);
        }
    }
    while k < cache.entries.len()
        invariant
            s == cache.records(),
            s.len() == cache.entries@.len(),
            total_bytes(s) <= u64::MAX,
            k <= s.len(),
            (DirectoryBreakdown { dirs, infos }).describes(s.subrange(0, k as int)),
        decreases cache.entries.len() - k,
    {
        let e = &cache.entries[k];
        assert(s[k as int] == e@);
        let comps = split_components(e.path.as_str());
        let ghost cv = path_components(e.path@);
        assert(dir_view(comps) =~= cv);
        let depth = if comps.len() == 0 { 0 } else { comps.len() - 1 };
        let ghost par = parent_dir(e.path@);
        assert(dir_view(comps).subrange(0, depth as int) =~= par);
        let ghost prev = s.subrange(0, k as int);
        let ghost cur = s.subrange(0, k as int + 1);
        assert(cur.drop_last() =~= prev);
        assert(cur.last() == e@);
        proof {
            let b = DirectoryBreakdown { dirs, infos };
            assert(b.describes(prev));
            assert forall|i: int| 0 <= i < dirs@.len() implies is_listed_dir(cur, #[trigger] dir_view(dirs@[i])) by {
                assert(b.dir_at(i) == dir_view(dirs@[i]));
                let d = dir_view(dirs@[i]);
                if d.len() != 0 {
                    let (kk, mm) = choose|kk: int, mm: int|
                        0 <= kk < prev.len() && 0 <= mm <= parent_dir(prev[kk].path).len() && d == #[trigger] parent_dir(
                            prev[kk].path,
                        ).subrange(0, mm);
                    assert(cur[kk] == prev[kk]);
                    assert(d == parent_dir(cur[kk].path).subrange(0, mm));
                }
            }
            assert forall|d: Seq<Seq<char>>| is_listed_dir(prev, d) implies exists|i: int|
                0 <= i < dirs@.len() && #[trigger] dir_view(dirs@[i]) == d by {
                let i = choose|i: int| 0 <= i < b.dirs@.len() && #[trigger] b.dir_at(i) == d;
                assert(dir_view(dirs@[i]) == d);
            }
            assert forall|i: int, j: int| 0 <= i < j < dirs@.len() implies dir_view(dirs@[i]) != dir_view(dirs@[j]) by {
                assert(b.dir_at(i) != b.dir_at(j));
            }
            assert forall|i: int| 0 <= i < dirs@.len() implies {
                &&& infos@[i].files == files_in(prev, dir_view(dirs@[i]))
                &&& infos@[i].total_size == bytes_in(prev, dir_view(dirs@[i]))
            } by {
                assert(is_listed_dir(prev, b.dir_at(i)));
            }
            assert(dir_view(dirs@[0]) == b.dir_at(0));
        }
        // Make sure every directory on the way to the file is listed.
        let mut m: usize = 0;
        let mut target: usize = 0;
        while m <= depth
            invariant
                depth <= comps@.len(),
                depth < usize::MAX,
                dir_view(comps).subrange(0, depth as int) == par,
                par == parent_dir(cur.last().path),
                cur.drop_last() == prev,
                cur.len() == prev.len() + 1,
                cur == s.subrange(0, k as int + 1),
                k < s.len(),
                m <= depth + 1,
                dirs@.len() == infos@.len(),
                dirs@.len() > 0,
                dir_view(dirs@[0]).len() == 0,
                forall|i: int, j: int| 0 <= i < j < dirs@.len() ==> dir_view(dirs@[i]) != dir_view(dirs@[j]),
                forall|i: int|
                    0 <= i < dirs@.len() ==> {
                        &&& is_listed_dir(cur, #[trigger] dir_view(dirs@[i]))
                        &&& infos@[i].files == files_in(prev, dir_view(dirs@[i]))
                        &&& infos@[i].total_size == bytes_in(prev, dir_view(dirs@[i]))
                    },
                forall|d: Seq<Seq<char>>| is_listed_dir(prev, d) ==> exists|i: int| 0 <= i < dirs@.len() && #[trigger] dir_view(dirs@[i]) == d,
                forall|j: int| 0 <= j < m ==> listed_in(dirs@, #[trigger] par.subrange(0, j)),
                m > 0 ==> target < dirs@.len() && dir_view(dirs@[target as int]) == par.subrange(0, m - 1),
            decreases depth + 1 - m,
        {
            assert(dir_view(comps).subrange(0, m as int) =~= par.subrange(0, m as int));
            let ghost d = par.subrange(0, m as int);
            match find_dir(&dirs, &comps, m) {
                Some(i) => {
                    target = i;
                    assert(listed_in(dirs@, d));
                },
                None => {
                    let fresh_dir = prefix_of(&comps, m);
                    let ghost old_dirs = dirs@;
                    let ghost old_infos = infos@;
                    proof {
                        assert(is_listed_dir(cur, d)) by {
                            assert(d == parent_dir(cur[k as int].path).subrange(0, m as int));
                        }
                        assert(files_in(prev, d) == 0 && bytes_in(prev, d) == 0) by {
                            assert forall|kk: int| 0 <= kk < prev.len() implies parent_dir(#[trigger] prev[kk].path)
                                != d by {
                                let pp = parent_dir(prev[kk].path);
                                if pp == d {
                                    assert(pp.subrange(0, pp.len() as int) =~= pp);
                                    assert(is_listed_dir(prev, d));
                                }
                            }
                            lemma_absent_dir_empty(prev, d);
                        }
                    }
                    dirs.push(fresh_dir);
                    infos.push(DirectoryInfo::new());
                    target = dirs.len() - 1;
                    proof {
                        let n = old_dirs.len() as int;
                        assert(dirs@ == old_dirs.push(fresh_dir));
                        assert(dir_view(dirs@[n]) == d);
                        assert forall|i: int| 0 <= i < n implies dirs@[i] == old_dirs[i] && infos@[i] == old_infos[i] by {
                        }
                        assert forall|d2: Seq<Seq<char>>| is_listed_dir(prev, d2) implies exists|i: int|
                            0 <= i < dirs@.len() && #[trigger] dir_view(dirs@[i]) == d2 by {
                            let i = choose|i: int| 0 <= i < old_dirs.len() && #[trigger] dir_view(old_dirs[i]) == d2;
                            assert(dirs@[i] == old_dirs[i]);
                        }
                        assert forall|j: int| 0 <= j < m + 1 implies listed_in(dirs@, #[trigger] par.subrange(0, j)) by {
                            if j < m {
                                assert(listed_in(old_dirs, par.subrange(0, j)));
                                let i = choose|i: int| 0 <= i < old_dirs.len() && #[trigger] dir_view(old_dirs[i]) == par.subrange(0, j);
                                assert(dirs@[i] == old_dirs[i]);
                            } else {
                                assert(dir_view(dirs@[n]) == par.subrange(0, j));
                            }
                        }
                        assert forall|i: int, j: int| 0 <= i < j < dirs@.len() implies dir_view(dirs@[i]) != dir_view(dirs@[j]) by {
                            if j == n {
                                assert(dirs@[i] == old_dirs[i]);
                            } else {
                                assert(dirs@[i] == old_dirs[i] && dirs@[j] == old_dirs[j]);
                            }
                        }
                    }
                },
            }
            m = m + 1;
        }
        assert(dir_view(dirs@[target as int]) == par);
        let ghost before = DirectoryBreakdown { dirs, infos };
        let mut info = infos[target];
        proof {
            lemma_counts_bounded(cur, par);
            lemma_total_prefix(s, k as int + 1);
            assert(files_in(cur, par) == files_in(prev, par) + 1);
            assert(bytes_in(cur, par) == bytes_in(prev, par) + e.size);
        }
        info.add_file(e.size);
        infos.set(target, info);
        proof {
            assert forall|i: int| 0 <= i < dirs@.len() implies {
                &&& infos@[i].files == files_in(cur, dir_view(dirs@[i]))
                &&& infos@[i].total_size == bytes_in(cur, dir_view(dirs@[i]))
            } by {
                if i != target {
                    assert(dir_view(dirs@[i]) != par);
                }
            }
            assert forall|d: Seq<Seq<char>>| is_listed_dir(cur, d) implies exists|i: int|
                0 <= i < dirs@.len() && #[trigger] dir_view(dirs@[i]) == d by {
                if d.len() != 0 {
                    let (kk, mm) = choose|kk: int, mm: int|
                        0 <= kk < cur.len() && 0 <= mm <= parent_dir(cur[kk].path).len() && d == #[trigger] parent_dir(
                            cur[kk].path,
                        ).subrange(0, mm);
                    if kk < k {
                        assert(cur[kk] == prev[kk]);
                        assert(is_listed_dir(prev, d));
                    } else {
                        assert(d == par.subrange(0, mm));
                        assert(listed_in(dirs@, par.subrange(0, mm)));
                    }
                } else {
                    assert(dir_view(dirs@[0]) =~= d);
                }
            }
            let b = DirectoryBreakdown { dirs, infos };
            assert forall|i: int| 0 <= i < b.dirs@.len() implies {
                &&& is_listed_dir(cur, #[trigger] b.dir_at(i))
                &&& b.infos@[i].files == files_in(cur, b.dir_at(i))
                &&& b.infos@[i].total_size == bytes_in(cur, b.dir_at(i))
            } by {
                assert(b.dir_at(i) == dir_view(dirs@[i]));
            }
            assert forall|i: int, j: int| 0 <= i < j < b.dirs@.len() implies b.dir_at(i) != b.dir_at(j) by {
                assert(b.dir_at(i) == dir_view(dirs@[i]) && b.dir_at(j) == dir_view(dirs@[j]));
            }
            assert forall|d: Seq<Seq<char>>| is_listed_dir(cur, d) implies exists|i: int|
                0 <= i < b.dirs@.len() && #[trigger] b.dir_at(i) == d by {
                let i = choose|i: int| 0 <= i < dirs@.len() && #[trigger] dir_view(dirs@[i]) == d;
                assert(b.dir_at(i) == d);
            }
            assert(b.dir_at(0) == dir_view(dirs@[0]));
            assert(b.describes(cur));
        }
        k = k + 1;
    }
    assert(s.subrange(0, k as int) =~= s);
    DirectoryBreakdown { dirs, infos }
}

proof fn lemma_absent_dir_empty(s: Seq<FileRecord>, d: Seq<Seq<char>>)
    requires
        forall|k: int| 0 <= k < s.len() ==> parent_dir(#[trigger] s[k].path) != d,
    ensures
        files_in(s, d) == 0,
        bytes_in(s, d) == 0,
    decreases s.len(),
{
    if s.len() > 0 {
        let t = s.drop_last();
        assert forall|k: int| 0 <= k < t.len() implies parent_dir(#[trigger] t[k].path) != d by {
            assert(t[k] == s[k]);
        }
        lemma_absent_dir_empty(t, d);
        assert(parent_dir(s[s.len() - 1].path) != d);
    }
}

} // verus!
