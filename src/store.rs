use vstd::prelude::*;
use crate::paths::{joined_path, join_path};
use crate::snapshot::{Cache, TIMELORD_CACHE_VERSION};

verus! {

/// The name of the cache file inside its cache directory.
pub open spec fn cache_file_name() -> Seq<char> {
    seq!['t', 'i', 'm', 'e', 'l', 'o', 'r', 'd', '.', 'd', 'b']
}

/// The cache file of the cache directory `cache_dir`.
pub fn cache_file_path(cache_dir: &str) -> (r: String)
    ensures
        r@ == joined_path(cache_dir@, cache_file_name()),
{
    let name = "timelord.db";
    proof {
        reveal_strlit("timelord.db");
    }
    assert(name@ =~= cache_file_name());
    join_path(cache_dir, name)
}

/// Why a cache file gives no baseline.
#[derive(Clone, Copy, Debug, PartialEq, Eq, Structural)]
pub enum CacheError {
    /// There is no cache file: the first run.
    Missing,
    /// The file exists but could not be read.
    Unreadable,
    /// The file is too short to hold its header.
    Truncated,
    /// The file was written in another format version.
    WrongVersion(u32),
    /// The payload does not decode to a well-formed snapshot.
    Undecodable,
}

impl CacheError {
    /// Whether the user is to be warned: every case but the first run.
    pub fn is_loud(&self) -> (r: bool)
        ensures
            r <==> !(*self is Missing),
    {
        match self {
            CacheError::Missing => false,
            _ => true,
        }
    }
}

/// A version number as four little-endian bytes.
pub open spec fn u32_le_bytes(v: u32) -> Seq<u8> {
    seq![v as u8, (v >> 8u32) as u8, (v >> 16u32) as u8, (v >> 24u32) as u8]
}

/// The version number that the first four bytes of `b` hold, little-endian.
pub open spec fn le_u32(b: Seq<u8>) -> u32
    recommends
        b.len() >= 4,
{
    (b[0] as u32) | ((b[1] as u32) << 8u32) | ((b[2] as u32) << 16u32) | ((b[3] as u32) << 24u32)
}

/// The bytes of a cache file: the current version, then the payload.
pub open spec fn frame_spec(payload: Seq<u8>) -> Seq<u8> {
    u32_le_bytes(TIMELORD_CACHE_VERSION) + payload
}

/// What reading the header of a cache file gives: the payload, or why there is
/// none. The version is checked before anything of the payload is read.
pub open spec fn unframe_spec(bytes: Seq<u8>) -> Result<Seq<u8>, CacheError> {
    if bytes.len() < 4 {
        Err(CacheError::Truncated)
    } else if le_u32(bytes) != TIMELORD_CACHE_VERSION {
        Err(CacheError::WrongVersion(le_u32(bytes)))
    } else {
        Ok(bytes.subrange(4, bytes.len() as int))
    }
}

pub proof fn lemma_le_u32_round_trip(v: u32)
    ensures
        le_u32(u32_le_bytes(v)) == v,
{
    let b = u32_le_bytes(v);
    assert(b[0] == v as u8 && b[1] == (v >> 8u32) as u8 && b[2] == (v >> 16u32) as u8 && b[3] == (v >> 24u32) as u8);
    assert((((v as u8) as u32) | ((((v >> 8u32) as u8) as u32) << 8u32) | ((((v >> 16u32) as u8) as u32) << 16u32)
        | ((((v >> 24u32) as u8) as u32) << 24u32)) == v) by (bit_vector);
}

/// Prefixes `payload` with the current format version.
pub fn encode_frame(payload: &[u8]) -> (r: Vec<u8>)
    ensures
        r@ == frame_spec(payload@),
{
    let v = TIMELORD_CACHE_VERSION;
    let mut r: Vec<u8> = Vec::new();
    r.push(v as u8);
    r.push((v >> 8u32) as u8);
    r.push((v >> 16u32) as u8);
    r.push((v >> 24u32) as u8);
    let mut i: usize = 0;
    while i < payload.len()
        invariant
            i <= payload@.len(),
            r@ == u32_le_bytes(v) + payload@.subrange(0, i as int),
        decreases payload.len() - i,
    {
        r.push(payload[i]);
        assert(payload@.subrange(0, i as int + 1) =~= payload@.subrange(0, i as int).push(payload@[i as int]));
        i = i + 1;
    }
    assert(payload@.subrange(0, i as int) =~= payload@);
    assert(r@ =~= frame_spec(payload@));
    r
}

/// Reads the header of a cache file's bytes: the payload where the version is
/// the current one.
pub fn decode_frame(bytes: &[u8]) -> (r: Result<Vec<u8>, CacheError>)
    ensures
        match r {
            Ok(p) => unframe_spec(bytes@) == Ok::<Seq<u8>, CacheError>(p@),
            Err(e) => unframe_spec(bytes@) == Err::<Seq<u8>, CacheError>(e),
        },
{
    if bytes.len() < 4 {
        return Err(CacheError::Truncated);
    }
    let v = (bytes[0] as u32) | ((bytes[1] as u32) << 8u32) | ((bytes[2] as u32) << 16u32) | ((bytes[3] as u32)
        << 24u32);
    if v != TIMELORD_CACHE_VERSION {
        return Err(CacheError::WrongVersion(v));
    }
    let mut r: Vec<u8> = Vec::new();
    let mut i: usize = 4;
    while i < bytes.len()
        invariant
            4 <= i <= bytes@.len(),
            r@ == bytes@.subrange(4, i as int),
        decreases bytes.len() - i,
    {
        r.push(bytes[i]);
        assert(bytes@.subrange(4, i as int + 1) =~= bytes@.subrange(4, i as int).push(bytes@[i as int]));
        i = i + 1;
    }
    Ok(r)
}

/// A written cache file reads back to its payload.
pub proof fn lemma_frame_round_trip(payload: Seq<u8>)
    ensures
        unframe_spec(frame_spec(payload)) == Ok::<Seq<u8>, CacheError>(payload),
        frame_spec(payload).len() == payload.len() + 4,
{
    let b = frame_spec(payload);
    lemma_le_u32_round_trip(TIMELORD_CACHE_VERSION);
    assert(b.subrange(0, 4) =~= u32_le_bytes(TIMELORD_CACHE_VERSION));
    assert(le_u32(b) == le_u32(b.subrange(0, 4)));
    assert(b.subrange(4, b.len() as int) =~= payload);
}

/// A file stamped with any other version is refused as such, whatever
/// follows the header: nothing of the rest is read.
pub proof fn lemma_version_gating(v: u32, rest: Seq<u8>)
    requires
        v != TIMELORD_CACHE_VERSION,
    ensures
        unframe_spec(u32_le_bytes(v) + rest) == Err::<Seq<u8>, CacheError>(CacheError::WrongVersion(v)),
{
    let b = u32_le_bytes(v) + rest;
    lemma_le_u32_round_trip(v);
    assert(b.subrange(0, 4) =~= u32_le_bytes(v));
    assert(le_u32(b) == le_u32(b.subrange(0, 4)));
}

/// Whatever a damaged file holds, reading its header gives either the payload
/// of a file stamped with the current version, or an error that is reported
/// to the user.
pub proof fn lemma_damaged_file_is_reported(bytes: Seq<u8>)
    ensures
        match unframe_spec(bytes) {
            Ok(p) => bytes.len() >= 4 && le_u32(bytes) == TIMELORD_CACHE_VERSION && p == bytes.subrange(
                4,
                bytes.len() as int,
            ),
            Err(e) => !(e is Missing),
        },
{
}

/// Accepts a decoded snapshot only where it carries the current version and
/// its entries are strictly ordered by path.
pub fn check_loaded(cache: Cache) -> (r: Result<Cache, CacheError>)
    ensures
        match r {
            Ok(c) => c == cache && c.wf() && c.version == TIMELORD_CACHE_VERSION,
            Err(e) => {
                &&& cache.version != TIMELORD_CACHE_VERSION ==> e == CacheError::WrongVersion(cache.version)
                &&& cache.version == TIMELORD_CACHE_VERSION ==> e == CacheError::Undecodable && !cache.wf()
            },
        },
{
    if cache.version != TIMELORD_CACHE_VERSION {
        return Err(CacheError::WrongVersion(cache.version));
    }
    if !cache.is_ordered() {
        return Err(CacheError::Undecodable);
    }
    Ok(cache)
}

/// The baseline of a run: the loaded snapshot, or an empty one of the current
/// version wherever loading failed, so a damaged cache costs one run's
/// restorations and never the run.
pub fn read_or_create_cache(loaded: Result<Cache, CacheError>) -> (r: Cache)
    ensures
        r.wf(),
        r.version == TIMELORD_CACHE_VERSION,
        match loaded {
            Ok(c) => if c.wf() && c.version == TIMELORD_CACHE_VERSION {
                r == c
            } else {
                r.entries@.len() == 0
            },
            Err(_) => r.entries@.len() == 0 && r.absolute_path@.len() == 0,
        },
{
    match loaded {
        Ok(c) => match check_loaded(c) {
            Ok(c) => c,
            Err(_) => Cache::new(String::new()),
        },
        Err(_) => Cache::new(String::new()),
    }
}

} // verus!
