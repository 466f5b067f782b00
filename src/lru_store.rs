use crate::message::CachedMessage;
use lru::LruCache;
use std::num::NonZeroUsize;
use vstd::prelude::*;

verus! {

#[verifier::external_type_specification]
#[verifier::external_body]
#[verifier::reject_recursive_types(K)]
#[verifier::reject_recursive_types(V)]
#[verifier::reject_recursive_types(S)]
pub struct ExLruCache<K, V, S>(LruCache<K, V, S>);

#[verifier::external_type_specification]
#[verifier::external_body]
pub struct ExLruDefaultHasher(lru::DefaultHasher);

/// The cached entries of an LRU store, least recently used first.
pub uninterp spec fn lru_entries(c: LruCache<u64, CachedMessage>) -> Seq<(u64, CachedMessage)>;

/// The capacity an LRU store was created with.
pub uninterp spec fn lru_capacity(c: LruCache<u64, CachedMessage>) -> nat;

pub open spec fn has_key(s: Seq<(u64, CachedMessage)>, k: u64) -> bool {
    exists|i: int| 0 <= i < s.len() && #[trigger] s[i].0 == k
}

pub open spec fn keys_unique(s: Seq<(u64, CachedMessage)>) -> bool {
    forall|i: int, j: int| 0 <= i < j < s.len() ==> #[trigger] s[i].0 != #[trigger] s[j].0
}

/// The value stored under `k`, if any.
pub open spec fn lookup(s: Seq<(u64, CachedMessage)>, k: u64) -> Option<CachedMessage> {
    if has_key(s, k) {
        Some(s[choose|i: int| 0 <= i < s.len() && #[trigger] s[i].0 == k].1)
    } else {
        None
    }
}

/// Holds of the entries not stored under `k`.
pub open spec fn key_differs(k: u64) -> spec_fn((u64, CachedMessage)) -> bool {
    |e: (u64, CachedMessage)| e.0 != k
}

pub open spec fn without_key(s: Seq<(u64, CachedMessage)>, k: u64) -> Seq<(u64, CachedMessage)> {
    s.filter(key_differs(k))
}

/// Entries after `put(k, v)`: an existing key is updated and becomes most recent;
/// a new key evicts the least recent entry when the store is full.
pub open spec fn put_model(
    s: Seq<(u64, CachedMessage)>,
    k: u64,
    v: CachedMessage,
    cap: nat,
) -> Seq<(u64, CachedMessage)> {
    if has_key(s, k) {
        without_key(s, k).push((k, v))
    } else if s.len() == cap {
        s.subrange(1, s.len() as int).push((k, v))
    } else {
        s.push((k, v))
    }
}

/// Entries after a recency-updating read of `k`.
pub open spec fn touch_model(s: Seq<(u64, CachedMessage)>, k: u64) -> Seq<(u64, CachedMessage)> {
    match lookup(s, k) {
        Some(v) => without_key(s, k).push((k, v)),
        None => s,
    }
}

/// Relies on `LruCache::new`: an empty store with the given capacity.
#[verifier::external_body]
pub(crate) fn lru_new(cap: usize) -> (r: LruCache<u64, CachedMessage>)
    requires
        cap > 0,
    ensures
        lru_entries(r) == Seq::<(u64, CachedMessage)>::empty(),
        lru_capacity(r) == cap,
{
    LruCache::new(NonZeroUsize::new(cap).unwrap())
}

/// Relies on `LruCache::put`: updates an existing key and moves it to the most
/// recent end, or adds a new entry there after evicting the least recent one
/// when the store is full.
#[verifier::external_body]
pub(crate) fn lru_put(c: &mut LruCache<u64, CachedMessage>, k: u64, v: CachedMessage)
    ensures
        lru_entries(*final(c)) == put_model(lru_entries(*old(c)), k, v, lru_capacity(*old(c))),
        lru_capacity(*final(c)) == lru_capacity(*old(c)),
{
    c.put(k, v);
}

/// Relies on `LruCache::get` (and `Clone` of the message): returns the value
/// under `k` and marks it most recently used.
#[verifier::external_body]
pub(crate) fn lru_get(c: &mut LruCache<u64, CachedMessage>, k: u64) -> (r: Option<CachedMessage>)
    ensures
        r == lookup(lru_entries(*old(c)), k),
        lru_entries(*final(c)) == touch_model(lru_entries(*old(c)), k),
        lru_capacity(*final(c)) == lru_capacity(*old(c)),
{
    c.get(&k).cloned()
}

/// Relies on `LruCache::peek` (and `Clone` of the message): returns the value
/// under `k` without changing the recency order.
#[verifier::external_body]
pub(crate) fn lru_peek(c: &LruCache<u64, CachedMessage>, k: u64) -> (r: Option<CachedMessage>)
    ensures
        r == lookup(lru_entries(*c), k),
{
    c.peek(&k).cloned()
}

/// Relies on `LruCache::pop`: removes the entry under `k`, if any.
#[verifier::external_body]
pub(crate) fn lru_pop(c: &mut LruCache<u64, CachedMessage>, k: u64)
    ensures
        lru_entries(*final(c)) == without_key(lru_entries(*old(c)), k),
        lru_capacity(*final(c)) == lru_capacity(*old(c)),
{
    c.pop(&k);
}

/// Relies on `LruCache::len`: the number of entries held.
#[verifier::external_body]
pub(crate) fn lru_len(c: &LruCache<u64, CachedMessage>) -> (r: usize)
    ensures
        r == lru_entries(*c).len(),
{
    c.len()
}

/// Relies on `LruCache::iter`, which visits the entries most recently used first;
/// only the keys are handed out.
#[verifier::external_body]
pub(crate) fn lru_keys(c: &LruCache<u64, CachedMessage>) -> (r: Vec<u64>)
    ensures
        r@.len() == lru_entries(*c).len(),
        forall|i: int|
            0 <= i < r@.len() ==> #[trigger] r@[i] == lru_entries(*c)[r@.len() - 1 - i].0,
{
    c.iter().map(|(k, _)| *k).collect()
}

} // verus!
