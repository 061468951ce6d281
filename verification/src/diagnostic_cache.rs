//! A bounded cache of the diagnostics of cells, by their fingerprints. The
//! least recently used entry leaves first.
use lru::LruCache;
use std::hash::RandomState;
use std::num::NonZeroUsize;
use vstd::prelude::*;

use crate::diagnostics::{diagnostic_models, Diagnostic, DiagnosticModel};

verus! {

/// The cache of the `lru` crate.
#[verifier::external_type_specification]
#[verifier::external_body]
#[verifier::reject_recursive_types(K)]
#[verifier::reject_recursive_types(V)]
#[verifier::reject_recursive_types(S)]
pub struct ExLruCache<K, V, S>(lru::LruCache<K, V, S>);

/// A cache of diagnostics by fingerprint.
pub type DiagnosticCache = LruCache<String, Vec<Diagnostic>, RandomState>;

/// The fingerprints and diagnostics that a cache holds, the most recently used
/// first.
pub uninterp spec fn cache_entries(cache: LruCache<String, Vec<Diagnostic>, RandomState>) -> Seq<
    (Seq<char>, Seq<DiagnosticModel>),
>;

/// How many entries a cache may hold.
pub uninterp spec fn cache_limit(cache: LruCache<String, Vec<Diagnostic>, RandomState>) -> nat;

/// The position of a key, or the number of entries.
pub open spec fn key_index(
    entries: Seq<(Seq<char>, Seq<DiagnosticModel>)>,
    key: Seq<char>,
) -> int
    decreases entries.len(),
{
    if entries.len() == 0 || entries[0].0 == key {
        0
    } else {
        1 + key_index(entries.drop_first(), key)
    }
}

/// The value of a key, if it is there.
pub open spec fn cached_value(
    entries: Seq<(Seq<char>, Seq<DiagnosticModel>)>,
    key: Seq<char>,
) -> Option<Seq<DiagnosticModel>> {
    let at = key_index(entries, key);
    if at < entries.len() {
        Some(entries[at].1)
    } else {
        None
    }
}

/// The entries after a key is used: it comes first.
pub open spec fn after_get(
    entries: Seq<(Seq<char>, Seq<DiagnosticModel>)>,
    key: Seq<char>,
) -> Seq<(Seq<char>, Seq<DiagnosticModel>)> {
    let at = key_index(entries, key);
    if at < entries.len() {
        seq![entries[at]] + entries.remove(at)
    } else {
        entries
    }
}

/// The entries after a value is put under a key: it comes first. Where a new
/// key does not fit, the least recently used one leaves.
pub open spec fn after_put(
    entries: Seq<(Seq<char>, Seq<DiagnosticModel>)>,
    limit: nat,
    key: Seq<char>,
    value: Seq<DiagnosticModel>,
) -> Seq<(Seq<char>, Seq<DiagnosticModel>)> {
    let at = key_index(entries, key);
    let others = if at < entries.len() {
        entries.remove(at)
    } else if entries.len() == limit {
        entries.drop_last()
    } else {
        entries
    };
    seq![(key, value)] + others
}

/// Calls `LruCache::with_hasher`: an empty cache for at most `limit` entries.
#[verifier::external_body]
fn empty_cache(limit: usize) -> (cache: DiagnosticCache)
    requires
        limit > 0,
    ensures
        cache_entries(cache) == Seq::<(Seq<char>, Seq<DiagnosticModel>)>::empty(),
        cache_limit(cache) == limit,
{
    LruCache::with_hasher(NonZeroUsize::new(limit).unwrap(), RandomState::new())
}

/// Calls `LruCache::get`: the value of a key, which thereby becomes the most
/// recently used; nothing changes if it is not there.
#[verifier::external_body]
pub(crate) fn cache_get<'a>(cache: &'a mut DiagnosticCache, key: &str) -> (value: Option<
    &'a Vec<Diagnostic>,
>)
    ensures
        match value {
            Some(v) => cached_value(cache_entries(*old(cache)), key@) == Some(
                diagnostic_models(v@),
            ),
            None => cached_value(cache_entries(*old(cache)), key@) is None,
        },
        cache_entries(*final(cache)) == after_get(cache_entries(*old(cache)), key@),
        cache_limit(*final(cache)) == cache_limit(*old(cache)),
{
    cache.get(key)
}

/// Calls `LruCache::put`: the key gets the value and becomes the most recently
/// used. If it is new and the cache is full, the least recently used one leaves.
#[verifier::external_body]
pub(crate) fn cache_put(cache: &mut DiagnosticCache, key: String, value: Vec<Diagnostic>)
    ensures
        cache_entries(*final(cache)) == after_put(
            cache_entries(*old(cache)),
            cache_limit(*old(cache)),
            key@,
            diagnostic_models(value@),
        ),
        cache_limit(*final(cache)) == cache_limit(*old(cache)),
{
    cache.put(key, value);
}

/// Calls `LruCache::len`: the number of entries.
#[verifier::external_body]
fn cache_len(cache: &DiagnosticCache) -> (count: usize)
    ensures
        count == cache_entries(*cache).len(),
{
    cache.len()
}

/// How many entries the cache of the server may hold.
pub const CACHE_LIMIT: usize = 256;

/// The cache of the server, empty.
pub fn new_cache() -> (cache: DiagnosticCache)
    ensures
        cache_entries(cache) == Seq::<(Seq<char>, Seq<DiagnosticModel>)>::empty(),
        cache_limit(cache) == CACHE_LIMIT,
{
    empty_cache(CACHE_LIMIT)
}

/// The number of cells whose diagnostics are cached.
pub fn cached_count(cache: &DiagnosticCache) -> (count: usize)
    ensures
        count == cache_entries(*cache).len(),
{
    cache_len(cache)
}

} // verus!
