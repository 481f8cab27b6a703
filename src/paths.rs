use vstd::prelude::*;
use vstd::utf8::encode_utf8;
use vstd::utf8::encode_utf8_decode_utf8;
use core::cmp::Ordering;

verus! {

/// Lexicographic order on byte strings: the first differing byte decides,
/// and a proper prefix comes first.
pub open spec fn bytes_lt(a: Seq<u8>, b: Seq<u8>) -> bool {
    exists|i: int| #[trigger] lt_at(a, b, i)
}

/// `a` and `b` agree before `i`, and `i` is where `a` comes first.
pub open spec fn lt_at(a: Seq<u8>, b: Seq<u8>, i: int) -> bool {
    &&& 0 <= i <= a.len()
    &&& i < b.len()
    &&& forall|j: int| 0 <= j < i ==> a[j] == b[j]
    &&& (i == a.len() || a[i] < b[i])
}

/// The bytes by which a path is ordered: its UTF-8 encoding, as `str` orders.
pub open spec fn path_key(p: Seq<char>) -> Seq<u8> {
    encode_utf8(p)
}

/// Paths are ordered by their UTF-8 bytes.
pub open spec fn path_lt(a: Seq<char>, b: Seq<char>) -> bool {
    bytes_lt(path_key(a), path_key(b))
}

pub proof fn lemma_bytes_lt_irreflexive(a: Seq<u8>)
    ensures
        !bytes_lt(a, a),
{
}

pub proof fn lemma_bytes_lt_transitive(a: Seq<u8>, b: Seq<u8>, c: Seq<u8>)
    requires
        bytes_lt(a, b),
        bytes_lt(b, c),
    ensures
        bytes_lt(a, c),
{
    let i = choose|i: int| lt_at(a, b, i);
    let k = choose|k: int| lt_at(b, c, k);
    if i <= k {
        assert(lt_at(a, c, i));
    } else {
        assert(lt_at(a, c, k));
    }
}

pub proof fn lemma_bytes_lt_asymmetric(a: Seq<u8>, b: Seq<u8>)
    requires
        bytes_lt(a, b),
    ensures
        !bytes_lt(b, a),
{
    if bytes_lt(b, a) {
        lemma_bytes_lt_transitive(a, b, a);
        lemma_bytes_lt_irreflexive(a);
    }
}

/// Distinct paths have distinct keys.
pub proof fn lemma_path_key_injective(a: Seq<char>, b: Seq<char>)
    requires
        path_key(a) == path_key(b),
    ensures
        a == b,
{
    encode_utf8_decode_utf8(a);
    encode_utf8_decode_utf8(b);
}

pub proof fn lemma_path_lt_transitive(a: Seq<char>, b: Seq<char>, c: Seq<char>)
    requires
        path_lt(a, b),
        path_lt(b, c),
    ensures
        path_lt(a, c),
{
    lemma_bytes_lt_transitive(path_key(a), path_key(b), path_key(c));
}

pub proof fn lemma_path_lt_irreflexive(a: Seq<char>)
    ensures
        !path_lt(a, a),
{
    lemma_bytes_lt_irreflexive(path_key(a));
}

/// Compares two byte strings in the order of `bytes_lt`.
pub fn compare_bytes(a: &[u8], b: &[u8]) -> (r: Ordering)
    ensures
        r == Ordering::Less <==> bytes_lt(a@, b@),
        r == Ordering::Greater <==> bytes_lt(b@, a@),
        r == Ordering::Equal <==> a@ == b@,
{
    let mut i: usize = 0;
    while i < a.len() && i < b.len()
        invariant
            i <= a@.len(),
            i <= b@.len(),
            forall|j: int| 0 <= j < i ==> a@[j] == b@[j],
        decreases a.len() - i,
    {
        if a[i] != b[i] {
            if a[i] < b[i] {
                assert(lt_at(a@, b@, i as int));
                assert forall|k: int| !lt_at(b@, a@, k) by {
                    if lt_at(b@, a@, k) && k > i {
                        assert(b@[i as int] == a@[i as int]);
                    }
                }
                return Ordering::Less;
            } else {
                assert(lt_at(b@, a@, i as int));
                assert forall|k: int| !lt_at(a@, b@, k) by {
                    if lt_at(a@, b@, k) && k > i {
                        assert(a@[i as int] == b@[i as int]);
                    }
                }
                return Ordering::Greater;
            }
        }
        i = i + 1;
    }
    if a.len() < b.len() {
        assert(lt_at(a@, b@, i as int));
        assert(a@ != b@);
        Ordering::Less
    } else if b.len() < a.len() {
        assert(lt_at(b@, a@, i as int));
        assert(a@ != b@);
        Ordering::Greater
    } else {
        assert(a@ =~= b@);
        proof {
            lemma_bytes_lt_irreflexive(a@);
        }
        Ordering::Equal
    }
}

/// Compares two paths by their UTF-8 bytes.
pub fn compare_paths(a: &str, b: &str) -> (r: Ordering)
    ensures
        r == Ordering::Less <==> path_lt(a@, b@),
        r == Ordering::Greater <==> path_lt(b@, a@),
        r == Ordering::Equal <==> a@ == b@,
{
    let r = compare_bytes(a.as_bytes(), b.as_bytes());
    proof {
        if path_key(a@) == path_key(b@) {
            lemma_path_key_injective(a@, b@);
        }
    }
    r
}

/// What joining `rel` onto `base` gives (`Utf8Path::join`).
pub uninterp spec fn joined_path(base: Seq<char>, rel: Seq<char>) -> Seq<char>;

/// What remains of `path` once the leading `root` is taken off
/// (`Utf8Path::strip_prefix`), or `None` where `root` does not lead it.
pub uninterp spec fn stripped_path(path: Seq<char>, root: Seq<char>) -> Option<Seq<char>>;

/// The names of a path's components (`Utf8Path::components`).
pub uninterp spec fn path_components(path: Seq<char>) -> Seq<Seq<char>>;

/// Relies on camino's `Utf8Path::join`, which depends on its two arguments alone.
#[verifier::external_body]
pub(crate) fn join_path(base: &str, rel: &str) -> (r: String)
    ensures
        r@ == joined_path(base@, rel@),
{
    camino::Utf8Path::new(base).join(rel).into_string()
}

/// Relies on camino's `Utf8Path::strip_prefix`, which depends on its two
/// arguments alone.
#[verifier::external_body]
pub(crate) fn strip_root(path: &str, root: &str) -> (r: Option<String>)
    ensures
        match r {
            Some(s) => stripped_path(path@, root@) == Some(s@),
            None => stripped_path(path@, root@) is None,
        },
{
    match camino::Utf8Path::new(path).strip_prefix(root) {
        Ok(p) => Some(p.as_str().to_string()),
        Err(_) => None,
    }
}

/// Relies on camino's `Utf8Path::components`, each component written as a
/// string; the result depends on the path alone.
#[verifier::external_body]
pub(crate) fn split_components(path: &str) -> (r: Vec<String>)
    ensures
        r@.len() == path_components(path@).len(),
        forall|i: int| 0 <= i < r@.len() ==> #[trigger] r@[i]@ == path_components(path@)[i],
{
    camino::Utf8Path::new(path).components().map(|c| c.as_str().to_string()).collect()
}

} // verus!
