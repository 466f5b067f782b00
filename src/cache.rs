use crate::clock::unix_now;
use crate::lru_store::{
    has_key, key_differs, keys_unique, lookup, lru_capacity, lru_entries, lru_get, lru_keys, lru_len, lru_new,
    lru_peek, lru_pop, lru_put, put_model, touch_model, without_key,
};
use crate::message::CachedMessage;
use crate::seq_facts::{lemma_filter_agree, lemma_filter_filter, lemma_filter_map_prefix_step, lemma_filter_prefix_step};
use lru::LruCache;
use std::collections::{HashMap, VecDeque};
use vstd::prelude::*;
use vstd::std_specs::iter::IteratorSpec;

verus! {

broadcast use vstd::std_specs::hash::group_hash_axioms;

/// Bounded cache of recent messages with least-recently-used eviction, plus a
/// per-channel index of message ids in insertion order.
pub struct MessageCache {
    cache: LruCache<u64, CachedMessage>,
    channel_index: HashMap<u64, VecDeque<u64>>,
    capacity: usize,
    index_limit: usize,
}

/// Capacity of the LRU store for a requested capacity: zero falls back to 100.
pub open spec fn store_capacity(capacity: nat) -> nat {
    if capacity == 0 {
        100
    } else {
        capacity
    }
}

/// Bound on each channel's id queue: twice the store's capacity, saturated at
/// the largest `usize`.
pub open spec fn queue_bound(capacity: nat) -> nat {
    if 2 * store_capacity(capacity) <= usize::MAX {
        2 * store_capacity(capacity)
    } else {
        usize::MAX as nat
    }
}

/// The last `n` elements of `s` (all of them when there are fewer).
pub open spec fn keep_last(s: Seq<u64>, n: nat) -> Seq<u64> {
    if s.len() > n {
        s.subrange(s.len() - n, s.len() as int)
    } else {
        s
    }
}

/// The id queue recorded for channel `ch` (empty when there is none).
pub open spec fn queue_of(m: Map<u64, VecDeque<u64>>, ch: u64) -> Seq<u64> {
    if m.contains_key(ch) {
        m[ch]@
    } else {
        Seq::empty()
    }
}

/// Every entry is stored under its message's id.
pub open spec fn keyed_by_id(s: Seq<(u64, CachedMessage)>) -> bool {
    forall|i: int| 0 <= i < s.len() ==> #[trigger] s[i].0 == s[i].1.id
}

/// The messages that the ids resolve to, in the order of the ids, skipping ids
/// that are not cached.
pub open spec fn resolve(s: Seq<(u64, CachedMessage)>, ids: Seq<u64>) -> Seq<CachedMessage> {
    ids.filter_map(|id: u64| lookup(s, id))
}

/// Holds of the entries whose key is not in `ks`.
pub open spec fn key_not_in(ks: Seq<u64>) -> spec_fn((u64, CachedMessage)) -> bool {
    |e: (u64, CachedMessage)| !ks.contains(e.0)
}

/// Holds of the ids not in `ks`.
pub open spec fn id_not_in(ks: Seq<u64>) -> spec_fn(u64) -> bool {
    |id: u64| !ks.contains(id)
}

/// Holds of the entries whose message is not older than `cutoff`.
pub open spec fn fresh_since(cutoff: int) -> spec_fn((u64, CachedMessage)) -> bool {
    |e: (u64, CachedMessage)| e.1.timestamp as int >= cutoff
}

/// Holds of the entries whose message was not written by `user`.
pub open spec fn not_by(user: u64) -> spec_fn((u64, CachedMessage)) -> bool {
    |e: (u64, CachedMessage)| e.1.author_id != user
}

/// Whether `id` names a cached message older than `cutoff`.
pub open spec fn stale(s: Seq<(u64, CachedMessage)>, cutoff: int, id: u64) -> bool {
    match lookup(s, id) {
        Some(m) => (m.timestamp as int) < cutoff,
        None => false,
    }
}

/// Whether `id` names a cached message written by `user`.
pub open spec fn authored_by(s: Seq<(u64, CachedMessage)>, user: u64, id: u64) -> bool {
    match lookup(s, id) {
        Some(m) => m.author_id == user,
        None => false,
    }
}

/// Which cached messages a sweep removes.
enum Doom {
    OlderThan(i128),
    AuthoredBy(u64),
}

spec fn doomed(d: Doom, m: CachedMessage) -> bool {
    match d {
        Doom::OlderThan(cutoff) => (m.timestamp as int) < cutoff as int,
        Doom::AuthoredBy(user) => m.author_id == user,
    }
}

spec fn doomed_id(s: Seq<(u64, CachedMessage)>, d: Doom, id: u64) -> bool {
    match lookup(s, id) {
        Some(m) => doomed(d, m),
        None => false,
    }
}

proof fn lemma_lookup_at(s: Seq<(u64, CachedMessage)>, k: u64, j: int)
    requires
        keys_unique(s),
        0 <= j < s.len(),
        s[j].0 == k,
    ensures
        lookup(s, k) == Some(s[j].1),
{
    let i = choose|i: int| 0 <= i < s.len() && #[trigger] s[i].0 == k;
    assert(s[i].0 == k);
    if i != j {
        if i < j {
            assert(s[i].0 != s[j].0);
        } else {
            assert(s[j].0 != s[i].0);
        }
    }
}

/// A filter keeps unique keys unique, and keeps every entry keyed by its id.
proof fn lemma_filter_entries(s: Seq<(u64, CachedMessage)>, p: spec_fn((u64, CachedMessage)) -> bool)
    requires
        keys_unique(s),
        keyed_by_id(s),
    ensures
        keys_unique(s.filter(p)),
        keyed_by_id(s.filter(p)),
        s.filter(p).len() <= s.len(),
    decreases s.len(),
{
    reveal(Seq::filter);
    broadcast use vstd::seq_lib::group_filter_ensures;
    let f = s.filter(p);
    assert forall|i: int| 0 <= i < f.len() implies #[trigger] f[i].0 == f[i].1.id by {
        assert(f.contains(f[i]));
        s.lemma_filter_contains_rev(p, f[i]);
        let k = choose|k: int| 0 <= k < s.len() && s[k] == f[i];
        assert(s[k].0 == s[k].1.id);
    }
    if s.len() > 0 {
        let t = s.drop_last();
        assert forall|i: int, j: int| 0 <= i < j < t.len() implies #[trigger] t[i].0 != #[trigger] t[j].0 by {
            assert(t[i] == s[i] && t[j] == s[j]);
        }
        assert forall|i: int| 0 <= i < t.len() implies #[trigger] t[i].0 == t[i].1.id by {
            assert(t[i] == s[i]);
        }
        lemma_filter_entries(t, p);
        let ft = t.filter(p);
        if p(s.last()) {
            let r = ft.push(s.last());
            assert forall|i: int, j: int| 0 <= i < j < r.len() implies #[trigger] r[i].0 != #[trigger] r[j].0 by {
                if j == r.len() - 1 {
                    assert(ft.contains(ft[i]));
                    t.lemma_filter_contains_rev(p, ft[i]);
                    let k = choose|k: int| 0 <= k < t.len() && t[k] == ft[i];
                    assert(s[k] == t[k]);
                    assert(s[k].0 != s[s.len() - 1].0);
                } else {
                    assert(r[i] == ft[i] && r[j] == ft[j]);
                }
            }
        }
    }
}

/// Removing a present key shortens the entries, and leaves no entry under that key.
proof fn lemma_without_key(s: Seq<(u64, CachedMessage)>, k: u64)
    requires
        keys_unique(s),
        keyed_by_id(s),
    ensures
        keys_unique(without_key(s, k)),
        keyed_by_id(without_key(s, k)),
        without_key(s, k).len() <= s.len(),
        has_key(s, k) ==> without_key(s, k).len() < s.len(),
        !has_key(without_key(s, k), k),
        forall|k2: u64| k2 != k ==> #[trigger] has_key(without_key(s, k), k2) == has_key(s, k2),
    decreases s.len(),
{
    reveal(Seq::filter);
    broadcast use vstd::seq_lib::group_filter_ensures;
    let p = key_differs(k);
    lemma_filter_entries(s, p);
    let w = without_key(s, k);
    if s.len() > 0 {
        let t = s.drop_last();
        assert forall|i: int, j: int| 0 <= i < j < t.len() implies #[trigger] t[i].0 != #[trigger] t[j].0 by {
            assert(t[i] == s[i] && t[j] == s[j]);
        }
        assert forall|i: int| 0 <= i < t.len() implies #[trigger] t[i].0 == t[i].1.id by {
            assert(t[i] == s[i]);
        }
        lemma_without_key(t, k);
        if has_key(s, k) {
            let i = choose|i: int| 0 <= i < s.len() && #[trigger] s[i].0 == k;
            if i < s.len() - 1 {
                assert(t[i].0 == k);
                assert(has_key(t, k));
            } else {
                assert(s.last().0 == k);
                assert(t.filter(p).len() <= t.len());
            }
        }
    }
    assert forall|i: int| 0 <= i < w.len() implies #[trigger] w[i].0 != k by {
        assert(p(w[i]));
    }
    assert forall|k2: u64| k2 != k implies #[trigger] has_key(w, k2) == has_key(s, k2) by {
        if has_key(s, k2) {
            let i = choose|i: int| 0 <= i < s.len() && #[trigger] s[i].0 == k2;
            assert(p(s[i]));
            assert(w.contains(s[i]));
            let j = choose|j: int| 0 <= j < w.len() && w[j] == s[i];
            assert(w[j].0 == k2);
        }
        if has_key(w, k2) {
            let j = choose|j: int| 0 <= j < w.len() && #[trigger] w[j].0 == k2;
            assert(w.contains(w[j]));
            s.lemma_filter_contains_rev(p, w[j]);
            let i = choose|i: int| 0 <= i < s.len() && s[i] == w[j];
            assert(s[i].0 == k2);
        }
    }
}

/// `put_model` keeps the store well formed: unique keys, keyed by id, within capacity.
proof fn lemma_put_wf(s: Seq<(u64, CachedMessage)>, m: CachedMessage, cap: nat)
    requires
        keys_unique(s),
        keyed_by_id(s),
        s.len() <= cap,
        cap > 0,
    ensures
        keys_unique(put_model(s, m.id, m, cap)),
        keyed_by_id(put_model(s, m.id, m, cap)),
        put_model(s, m.id, m, cap).len() <= cap,
        has_key(put_model(s, m.id, m, cap), m.id),
{
    let r = put_model(s, m.id, m, cap);
    let n = r.len() - 1;
    assert(r[n].0 == m.id);
    if has_key(s, m.id) {
        lemma_without_key(s, m.id);
        let w = without_key(s, m.id);
        assert forall|i: int, j: int| 0 <= i < j < r.len() implies #[trigger] r[i].0 != #[trigger] r[j].0 by {
            if j == n {
                assert(r[i] == w[i]);
                if w[i].0 == m.id {
                    assert(has_key(w, m.id));
                }
            } else {
                assert(r[i] == w[i] && r[j] == w[j]);
            }
        }
        assert forall|i: int| 0 <= i < r.len() implies #[trigger] r[i].0 == r[i].1.id by {
            if i < n {
                assert(r[i] == w[i]);
            }
        }
    } else {
        let t = if s.len() == cap { s.subrange(1, s.len() as int) } else { s };
        assert(r == t.push((m.id, m)));
        assert forall|i: int, j: int| 0 <= i < j < r.len() implies #[trigger] r[i].0 != #[trigger] r[j].0 by {
            if s.len() == cap {
                if j == n {
                    assert(r[i] == s[i + 1]);
                    if s[i + 1].0 == m.id {
                        assert(has_key(s, m.id));
                    }
                } else {
                    assert(r[i] == s[i + 1] && r[j] == s[j + 1]);
                }
            } else {
                if j == n {
                    assert(r[i] == s[i]);
                    if s[i].0 == m.id {
                        assert(has_key(s, m.id));
                    }
                } else {
                    assert(r[i] == s[i] && r[j] == s[j]);
                }
            }
        }
        assert forall|i: int| 0 <= i < r.len() implies #[trigger] r[i].0 == r[i].1.id by {
            if i < n {
                if s.len() == cap {
                    assert(r[i] == s[i + 1]);
                } else {
                    assert(r[i] == s[i]);
                }
            }
        }
    }
}

fn contains_id(v: &Vec<u64>, x: u64) -> (r: bool)
    ensures
        r == v@.contains(x),
{
    let mut i: usize = 0;
    while i < v.len()
        invariant
            i <= v@.len(),
            forall|j: int| 0 <= j < i ==> #[trigger] v@[j] != x,
        decreases v@.len() - i,
    {
        if v[i] == x {
            assert(v@[i as int] == x);
            return true;
        }
        i += 1;
    }
    false
}

/// The ids of `ids` that are not in `doomed`, in their order.
fn retain_ids(ids: &VecDeque<u64>, doomed: &Vec<u64>) -> (r: VecDeque<u64>)
    ensures
        r@ == ids@.filter(id_not_in(doomed@)),
{
    let ghost p = id_not_in(doomed@);
    let mut out: VecDeque<u64> = VecDeque::new();
    let mut j: usize = 0;
    while j < ids.len()
        invariant
            j <= ids@.len(),
            out@ == ids@.subrange(0, j as int).filter(p),
            p == id_not_in(doomed@),
        decreases ids@.len() - j,
    {
        proof {
            lemma_filter_prefix_step(ids@, p, j as int);
        }
        if !contains_id(doomed, ids[j]) {
            out.push_back(ids[j]);
        }
        j += 1;
    }
    assert(ids@.subrange(0, ids@.len() as int) =~= ids@);
    out
}

/// `q` followed by `id`, keeping only its last `limit` ids.
fn append_bounded(q: &mut VecDeque<u64>, id: u64, limit: usize)
    ensures
        final(q)@ == keep_last(old(q)@.push(id), limit as nat),
{
    q.push_back(id);
    let ghost full = q@;
    let ghost mut k: int = 0;
    while q.len() > limit
        invariant
            0 <= k <= full.len(),
            k <= (if full.len() > limit { full.len() - limit } else { 0 }),
            q@ == full.subrange(k, full.len() as int),
        decreases q@.len(),
    {
        q.pop_front();
        proof {
            k = k + 1;
            assert(q@ =~= full.subrange(k, full.len() as int));
        }
    }
    proof {
        if full.len() > limit {
            assert(k == full.len() - limit);
        } else {
            assert(k == 0);
            assert(full.subrange(0, full.len() as int) =~= full);
        }
    }
}

/// The channels that have a queue.
fn channel_keys(m: &HashMap<u64, VecDeque<u64>>) -> (r: Vec<u64>)
    ensures
        forall|k: u64| r@.contains(k) <==> m@.contains_key(k),
{
    let mut out: Vec<u64> = Vec::new();
    for k in it: m.keys()
        invariant
            out@.len() == it.index(),
            forall|j: int| 0 <= j < out@.len() ==> out@[j] == *it.seq()[j],
            it.seq() == vstd::std_specs::hash::spec_keys_iter(m).remaining(),
        ensures
            out@.len() == vstd::std_specs::hash::spec_keys_iter(m).remaining().len(),
            forall|j: int|
                0 <= j < out@.len() ==> out@[j] == *vstd::std_specs::hash::spec_keys_iter(m).remaining()[j],
    {
        out.push(*k);
    }
    proof {
        let rem = vstd::std_specs::hash::spec_keys_iter(m).remaining();
        assert forall|k: u64| out@.contains(k) <==> m@.contains_key(k) by {
            if m@.contains_key(k) {
                assert(rem.unref().to_set().contains(k));
                assert(rem.unref().contains(k));
                let j = choose|j: int| 0 <= j < rem.unref().len() && rem.unref()[j] == k;
                assert(out@[j] == k);
            }
            if out@.contains(k) {
                let j = choose|j: int| 0 <= j < out@.len() && out@[j] == k;
                assert(rem.unref()[j] == k);
                assert(rem.unref().contains(k));
            }
        }
    }
    out
}

/// What an entry's lookup gives after a put: the new message under its id;
/// under any other key, the old value or nothing (evicted).
proof fn lemma_put_lookup(s: Seq<(u64, CachedMessage)>, m: CachedMessage, cap: nat, x: u64)
    requires
        keys_unique(s),
        keyed_by_id(s),
        s.len() <= cap,
        cap > 0,
    ensures
        x == m.id ==> lookup(put_model(s, m.id, m, cap), x) == Some(m),
        x != m.id ==> lookup(put_model(s, m.id, m, cap), x) is None || lookup(put_model(s, m.id, m, cap), x)
            == lookup(s, x),
{
    lemma_put_wf(s, m, cap);
    let r = put_model(s, m.id, m, cap);
    let n = r.len() - 1;
    assert(r[n] == (m.id, m));
    if x == m.id {
        lemma_lookup_at(r, x, n);
    } else if has_key(r, x) {
        let j = choose|j: int| 0 <= j < r.len() && #[trigger] r[j].0 == x;
        lemma_lookup_at(r, x, j);
        assert(j < n);
        if has_key(s, m.id) {
            let w = without_key(s, m.id);
            assert(r[j] == w[j]);
            assert(w.contains(w[j]));
            s.lemma_filter_contains_rev(key_differs(m.id), w[j]);
            let k = choose|k: int| 0 <= k < s.len() && s[k] == w[j];
            lemma_lookup_at(s, x, k);
        } else if s.len() == cap {
            assert(r[j] == s[j + 1]);
            lemma_lookup_at(s, x, j + 1);
        } else {
            assert(r[j] == s[j]);
            lemma_lookup_at(s, x, j);
        }
    }
}

/// A filtered store holds, under any key, nothing or what the store held.
proof fn lemma_filter_lookup(s: Seq<(u64, CachedMessage)>, p: spec_fn((u64, CachedMessage)) -> bool, x: u64)
    requires
        keys_unique(s),
        keyed_by_id(s),
    ensures
        lookup(s.filter(p), x) is None || lookup(s.filter(p), x) == lookup(s, x),
{
    lemma_filter_entries(s, p);
    let f = s.filter(p);
    if has_key(f, x) {
        let j = choose|j: int| 0 <= j < f.len() && #[trigger] f[j].0 == x;
        lemma_lookup_at(f, x, j);
        assert(f.contains(f[j]));
        s.lemma_filter_contains_rev(p, f[j]);
        let k = choose|k: int| 0 <= k < s.len() && s[k] == f[j];
        lemma_lookup_at(s, x, k);
    }
}

/// Every cached message reached through a channel's queue belongs to that channel.
pub open spec fn channels_consistent(c: &MessageCache) -> bool {
    forall|ch: u64, i: int|
        0 <= i < c.history_ids(ch).len() ==> match #[trigger] lookup(c.entries(), c.history_ids(ch)[i]) {
            Some(m) => m.channel_id == ch,
            None => true,
        }
}

/// A cache whose queues agree with its messages' channels returns, as a
/// channel's history, only messages of that channel. `new` makes a cache
/// agree, `insert` keeps it so when the message's id is not queued under
/// another channel, and every other operation keeps it so.
pub proof fn lemma_history_in_channel(c: &MessageCache, ch: u64, limit: nat)
    requires
        channels_consistent(c),
    ensures
        forall|i: int|
            0 <= i < resolve(c.entries(), keep_last(c.history_ids(ch), limit)).len() ==> (#[trigger] resolve(
                c.entries(),
                keep_last(c.history_ids(ch), limit),
            )[i]).channel_id == ch,
{
    let q = c.history_ids(ch);
    let t = keep_last(q, limit);
    let f = |id: u64| lookup(c.entries(), id);
    let r = resolve(c.entries(), t);
    assert forall|i: int| 0 <= i < r.len() implies (#[trigger] r[i]).channel_id == ch by {
        assert(r.contains(r[i]));
        t.lemma_filter_map_contains(f, r[i]);
        let id = choose|id: u64| #[trigger] t.contains(id) && f(id) == Some(r[i]);
        let k = choose|k: int| 0 <= k < t.len() && t[k] == id;
        let off = if q.len() > limit { q.len() - limit } else { 0 };
        assert(t[k] == q[k + off]);
        assert(match lookup(c.entries(), q[k + off]) {
            Some(m) => m.channel_id == ch,
            None => true,
        });
    }
}

/// `after` is `before` without the messages older than `cutoff`, in the store
/// and in every channel queue.
pub open spec fn swept(before: &MessageCache, after: &MessageCache, cutoff: int) -> bool {
    &&& after.entries() == before.entries().filter(fresh_since(cutoff))
    &&& forall|ch: u64|
        #[trigger] after.history_ids(ch) == before.history_ids(ch).filter(
            |id: u64| !stale(before.entries(), cutoff, id),
        )
}

impl MessageCache {
    /// The cached entries, least recently used first.
    pub closed spec fn entries(&self) -> Seq<(u64, CachedMessage)> {
        lru_entries(self.cache)
    }

    /// How many entries the cache holds at most.
    pub closed spec fn store_cap(&self) -> nat {
        lru_capacity(self.cache)
    }

    /// The capacity asked for at construction.
    pub closed spec fn requested_capacity(&self) -> nat {
        self.capacity as nat
    }

    /// How many ids each channel's queue keeps at most.
    pub closed spec fn queue_limit(&self) -> nat {
        self.index_limit as nat
    }

    /// The ids recorded for channel `ch`, oldest first.
    pub closed spec fn history_ids(&self, ch: u64) -> Seq<u64> {
        queue_of(self.channel_index@, ch)
    }

    pub closed spec fn wf(&self) -> bool {
        &&& keys_unique(self.entries())
        &&& keyed_by_id(self.entries())
        &&& self.entries().len() <= self.store_cap()
        &&& self.store_cap() == store_capacity(self.capacity as nat)
        &&& self.index_limit as nat == queue_bound(self.capacity as nat)
    }

    /// An empty cache. A capacity of zero gives a store of 100 entries.
    pub fn new(capacity: usize) -> (r: Self)
        ensures
            r.wf(),
            r.entries() == Seq::<(u64, CachedMessage)>::empty(),
            r.store_cap() == store_capacity(capacity as nat),
            r.requested_capacity() == capacity,
            r.queue_limit() == queue_bound(capacity as nat),
            forall|ch: u64| #[trigger] r.history_ids(ch) == Seq::<u64>::empty(),
            channels_consistent(&r),
    {
        let cap: usize = if capacity == 0 { 100 } else { capacity };
        let index_limit: usize = if cap <= usize::MAX / 2 { cap * 2 } else { usize::MAX };
        MessageCache { cache: lru_new(cap), channel_index: HashMap::new(), capacity, index_limit }
    }

    /// Stores `message` under its id, making it the most recent entry (evicting
    /// the least recent one when full), and appends its id to its channel's
    /// queue, which keeps only its last `queue_limit()` ids.
    pub fn insert(&mut self, message: CachedMessage)
        requires
            old(self).wf(),
        ensures
            final(self).wf(),
            final(self).entries() == put_model(
                old(self).entries(),
                message.id,
                message,
                old(self).store_cap(),
            ),
            final(self).store_cap() == old(self).store_cap(),
            final(self).requested_capacity() == old(self).requested_capacity(),
            final(self).queue_limit() == old(self).queue_limit(),
            forall|ch: u64|
                #[trigger] final(self).history_ids(ch) == if ch == message.channel_id {
                    keep_last(old(self).history_ids(ch).push(message.id), old(self).queue_limit())
                } else {
                    old(self).history_ids(ch)
                },
            channels_consistent(old(self)) && (forall|ch: u64|
                ch != message.channel_id ==> !(#[trigger] old(self).history_ids(ch)).contains(message.id))
                ==> channels_consistent(final(self)),
    {
        let ghost before = *self;
        let ghost m0 = message;
        let id = message.id;
        let ch = message.channel_id;
        proof {
            lemma_put_wf(self.entries(), message, self.store_cap());
        }
        lru_put(&mut self.cache, id, message);
        let ghost old_m = self.channel_index@;
        let mut q = match self.channel_index.remove(&ch) {
            Some(q) => q,
            None => VecDeque::new(),
        };
        assert(q@ == queue_of(old_m, ch));
        append_bounded(&mut q, id, self.index_limit);
        self.channel_index.insert(ch, q);
        proof {
            let m = self.channel_index@;
            assert forall|c: u64| c != ch implies #[trigger] queue_of(m, c) == queue_of(old_m, c) by {
                assert(m.contains_key(c) == old_m.contains_key(c));
                if m.contains_key(c) {
                    assert(m[c] == old_m[c]);
                }
            }
            assert(queue_of(m, ch) == m[ch]@);
        }
        proof {
            if channels_consistent(&before) && (forall|ch: u64|
                ch != m0.channel_id ==> !(#[trigger] before.history_ids(ch)).contains(m0.id)) {
                assert forall|ch: u64, i: int| 0 <= i < self.history_ids(ch).len() implies match #[trigger] lookup(
                    self.entries(),
                    self.history_ids(ch)[i],
                ) {
                    Some(m) => m.channel_id == ch,
                    None => true,
                } by {
                    let x = self.history_ids(ch)[i];
                    lemma_put_lookup(before.entries(), m0, before.store_cap(), x);
                    if x != m0.id {
                        let q = before.history_ids(ch);
                        if ch == m0.channel_id {
                            let p = q.push(m0.id);
                            let off = if p.len() > before.queue_limit() { p.len() - before.queue_limit() } else { 0 };
                            assert(self.history_ids(ch)[i] == p[i + off]);
                            assert(p[i + off] == q[i + off]);
                            assert(match lookup(before.entries(), q[i + off]) {
                                Some(m) => m.channel_id == ch,
                                None => true,
                            });
                        } else {
                            assert(match lookup(before.entries(), q[i]) {
                                Some(m) => m.channel_id == ch,
                                None => true,
                            });
                        }
                    } else if ch != m0.channel_id {
                        assert(before.history_ids(ch).contains(x));
                    }
                }
            }
        }
    }

    /// Looks up a message by id, marking it most recently used.
    pub fn get(&mut self, message_id: u64) -> (r: Option<CachedMessage>)
        requires
            old(self).wf(),
        ensures
            final(self).wf(),
            r == lookup(old(self).entries(), message_id),
            final(self).entries() == touch_model(old(self).entries(), message_id),
            final(self).store_cap() == old(self).store_cap(),
            final(self).requested_capacity() == old(self).requested_capacity(),
            final(self).queue_limit() == old(self).queue_limit(),
            forall|ch: u64| #[trigger] final(self).history_ids(ch) == old(self).history_ids(ch),
            channels_consistent(old(self)) ==> channels_consistent(final(self)),
    {
        let ghost s = self.entries();
        let ghost before = *self;
        proof {
            if let Some(v) = lookup(s, message_id) {
                let i = choose|i: int| 0 <= i < s.len() && #[trigger] s[i].0 == message_id;
                assert(s[i].1.id == message_id);
                let m = s[i].1;
                lemma_put_wf(s, m, self.store_cap());
                assert(put_model(s, message_id, m, self.store_cap()) == touch_model(s, message_id));
            }
        }
        let r = lru_get(&mut self.cache, message_id);
        proof {
            if channels_consistent(&before) {
                assert forall|ch: u64, i: int| 0 <= i < self.history_ids(ch).len() implies match #[trigger] lookup(
                    self.entries(),
                    self.history_ids(ch)[i],
                ) {
                    Some(m) => m.channel_id == ch,
                    None => true,
                } by {
                    let x = self.history_ids(ch)[i];
                    assert(self.history_ids(ch) == before.history_ids(ch));
                    assert(match lookup(s, x) {
                        Some(m) => m.channel_id == ch,
                        None => true,
                    });
                    if let Some(v) = lookup(s, message_id) {
                        let j = choose|j: int| 0 <= j < s.len() && #[trigger] s[j].0 == message_id;
                        lemma_lookup_at(s, message_id, j);
                        lemma_put_lookup(s, s[j].1, before.store_cap(), x);
                    }
                }
            }
        }
        r
    }

    /// The last `limit` messages recorded for the channel that are still cached,
    /// oldest first. Does not change the recency order.
    pub fn get_channel_history(&self, channel_id: u64, limit: usize) -> (r: Vec<CachedMessage>)
        requires
            self.wf(),
        ensures
            r@ == resolve(self.entries(), keep_last(self.history_ids(channel_id), limit as nat)),
    {
        let ghost f = |id: u64| lookup(self.entries(), id);
        let mut out: Vec<CachedMessage> = Vec::new();
        match self.channel_index.get(&channel_id) {
            None => {
                assert(self.history_ids(channel_id) =~= Seq::<u64>::empty());
                out
            },
            Some(ids) => {
                let start: usize = if ids.len() > limit { ids.len() - limit } else { 0 };
                let mut j: usize = start;
                while j < ids.len()
                    invariant
                        start <= j <= ids@.len(),
                        out@ == ids@.subrange(start as int, j as int).filter_map(f),
                        f == (|id: u64| lookup(self.entries(), id)),
                    decreases ids@.len() - j,
                {
                    proof {
                        lemma_filter_map_prefix_step(ids@, f, start as int, j as int);
                    }
                    match lru_peek(&self.cache, ids[j]) {
                        Some(m) => out.push(m),
                        None => {},
                    }
                    j += 1;
                }
                proof {
                    if ids@.len() <= limit {
                        assert(ids@.subrange(0, ids@.len() as int) =~= ids@);
                    }
                }
                out
            },
        }
    }

    /// The ids of the cached messages that `d` selects.
    fn select_ids(&self, d: Doom) -> (r: Vec<u64>)
        requires
            self.wf(),
        ensures
            forall|id: u64| #[trigger] r@.contains(id) == doomed_id(self.entries(), d, id),
    {
        let ghost s = self.entries();
        let keys = lru_keys(&self.cache);
        let mut out: Vec<u64> = Vec::new();
        let mut i: usize = 0;
        while i < keys.len()
            invariant
                i <= keys@.len(),
                s == self.entries(),
                self.wf(),
                keys@.len() == s.len(),
                forall|k: int| 0 <= k < keys@.len() ==> #[trigger] keys@[k] == s[keys@.len() - 1 - k].0,
                forall|id: u64|
                    #[trigger] out@.contains(id) == (keys@.subrange(0, i as int).contains(id)
                        && doomed_id(s, d, id)),
            decreases keys@.len() - i,
        {
            let k = keys[i];
            let ghost before = out@;
            let hit = match lru_peek(&self.cache, k) {
                Some(m) => match d {
                    Doom::OlderThan(cutoff) => (m.timestamp as i128) < cutoff,
                    Doom::AuthoredBy(user) => m.author_id == user,
                },
                None => false,
            };
            if hit {
                out.push(k);
            }
            proof {
                let a = keys@.subrange(0, i as int);
                let b = keys@.subrange(0, i + 1);
                assert(b[i as int] == k);
                assert forall|id: u64| #[trigger] out@.contains(id) == (b.contains(id) && doomed_id(s, d, id)) by {
                    if b.contains(id) {
                        let j = choose|j: int| 0 <= j < b.len() && b[j] == id;
                        if j < i {
                            assert(a[j] == id);
                        }
                    }
                    if a.contains(id) {
                        let j = choose|j: int| 0 <= j < a.len() && a[j] == id;
                        assert(b[j] == id);
                    }
                    if hit && id == k {
                        assert(out@[out@.len() - 1] == k);
                    }
                    if out@.contains(id) && !(hit && id == k) {
                        let j = choose|j: int| 0 <= j < out@.len() && out@[j] == id;
                        if hit {
                            assert(before[j] == id);
                        }
                        assert(before.contains(id));
                    }
                    if before.contains(id) {
                        let j = choose|j: int| 0 <= j < before.len() && before[j] == id;
                        assert(out@[j] == id);
                    }
                }
            }
            i += 1;
        }
        proof {
            assert(keys@.subrange(0, keys@.len() as int) =~= keys@);
            assert forall|id: u64| #[trigger] out@.contains(id) == doomed_id(s, d, id) by {
                if doomed_id(s, d, id) {
                    let j = choose|j: int| 0 <= j < s.len() && #[trigger] s[j].0 == id;
                    let k = s.len() - 1 - j;
                    assert(keys@[k] == id);
                }
            }
        }
        out
    }

    /// Removes the cached messages that `d` selects, and their ids from every
    /// channel queue; returns how many were removed.
    fn sweep(&mut self, d: Doom) -> (r: usize)
        requires
            old(self).wf(),
        ensures
            final(self).wf(),
            final(self).entries() == old(self).entries().filter(
                |e: (u64, CachedMessage)| !doomed(d, e.1),
            ),
            forall|ch: u64|
                #[trigger] final(self).history_ids(ch) == old(self).history_ids(ch).filter(
                    |id: u64| !doomed_id(old(self).entries(), d, id),
                ),
            r == old(self).entries().len() - final(self).entries().len(),
            final(self).store_cap() == old(self).store_cap(),
            final(self).requested_capacity() == old(self).requested_capacity(),
            final(self).queue_limit() == old(self).queue_limit(),
            channels_consistent(old(self)) ==> channels_consistent(final(self)),
    {
        let ghost s = self.entries();
        let ghost old_self = *self;
        let ids = self.select_ids(d);
        let before = lru_len(&self.cache);
        self.remove_ids(&ids);
        let after = lru_len(&self.cache);
        proof {
            assert forall|i: int| 0 <= i < s.len() implies key_not_in(ids@)(#[trigger] s[i]) == (|e: (u64, CachedMessage)| !doomed(d, e.1))(s[i]) by {
                lemma_lookup_at(s, s[i].0, i);
            }
            lemma_filter_agree(s, key_not_in(ids@), |e: (u64, CachedMessage)| !doomed(d, e.1));
            assert forall|ch: u64| #[trigger] self.history_ids(ch) == old_self.history_ids(ch).filter(
                |id: u64| !doomed_id(s, d, id)) by {
                let q = old_self.history_ids(ch);
                lemma_filter_agree(q, id_not_in(ids@), |id: u64| !doomed_id(s, d, id));
            }
        }
        before - after
    }

    /// Removes the cached messages with a timestamp before `cutoff` (seconds
    /// since the Unix epoch), and their ids from every channel queue; returns how
    /// many were removed.
    pub fn remove_messages_before(&mut self, cutoff: i128) -> (r: usize)
        requires
            old(self).wf(),
        ensures
            final(self).wf(),
            swept(old(self), final(self), cutoff as int),
            r == old(self).entries().len() - final(self).entries().len(),
            final(self).store_cap() == old(self).store_cap(),
            final(self).requested_capacity() == old(self).requested_capacity(),
            final(self).queue_limit() == old(self).queue_limit(),
            channels_consistent(old(self)) ==> channels_consistent(final(self)),
    {
        let ghost s = self.entries();
        let ghost old_self = *self;
        let r = self.sweep(Doom::OlderThan(cutoff));
        proof {
            let d = Doom::OlderThan(cutoff);
            lemma_filter_agree(s, |e: (u64, CachedMessage)| !doomed(d, e.1), fresh_since(cutoff as int));
            assert forall|ch: u64| #[trigger] self.history_ids(ch) == old_self.history_ids(ch).filter(
                |id: u64| !stale(s, cutoff as int, id)) by {
                let q = old_self.history_ids(ch);
                lemma_filter_agree(q, |id: u64| !doomed_id(s, d, id), |id: u64| !stale(s, cutoff as int, id));
            }
        }
        r
    }

    /// Removes the cached messages older than `retention_hours` hours before now,
    /// and their ids from every channel queue; returns how many were removed. A
    /// retention of zero turns the sweep off.
    pub fn cleanup_old_messages(&mut self, retention_hours: u64) -> (r: usize)
        requires
            old(self).wf(),
        ensures
            final(self).wf(),
            retention_hours == 0 ==> r == 0 && *final(self) == *old(self),
            retention_hours > 0 ==> exists|now: i64|
                #[trigger] swept(old(self), final(self), now - retention_hours * 3600),
            r == old(self).entries().len() - final(self).entries().len(),
            final(self).store_cap() == old(self).store_cap(),
            final(self).requested_capacity() == old(self).requested_capacity(),
            final(self).queue_limit() == old(self).queue_limit(),
            channels_consistent(old(self)) ==> channels_consistent(final(self)),
    {
        if retention_hours == 0 {
            return 0;
        }
        let now = unix_now();
        let cutoff: i128 = now as i128 - (retention_hours as i128) * 3600;
        let r = self.remove_messages_before(cutoff);
        assert(swept(old(self), self, now - retention_hours * 3600));
        r
    }

    /// Removes every cached message written by `user_id`, and their ids from
    /// every channel queue; returns how many were removed.
    pub fn purge_user_messages(&mut self, user_id: u64) -> (r: usize)
        requires
            old(self).wf(),
        ensures
            final(self).wf(),
            final(self).entries() == old(self).entries().filter(not_by(user_id)),
            forall|ch: u64|
                #[trigger] final(self).history_ids(ch) == old(self).history_ids(ch).filter(
                    |id: u64| !authored_by(old(self).entries(), user_id, id),
                ),
            r == old(self).entries().len() - final(self).entries().len(),
            final(self).store_cap() == old(self).store_cap(),
            final(self).requested_capacity() == old(self).requested_capacity(),
            final(self).queue_limit() == old(self).queue_limit(),
            channels_consistent(old(self)) ==> channels_consistent(final(self)),
    {
        let ghost s = self.entries();
        let ghost old_self = *self;
        let r = self.sweep(Doom::AuthoredBy(user_id));
        proof {
            let d = Doom::AuthoredBy(user_id);
            lemma_filter_agree(s, |e: (u64, CachedMessage)| !doomed(d, e.1), not_by(user_id));
            assert forall|ch: u64| #[trigger] self.history_ids(ch) == old_self.history_ids(ch).filter(
                |id: u64| !authored_by(s, user_id, id)) by {
                let q = old_self.history_ids(ch);
                lemma_filter_agree(q, |id: u64| !doomed_id(s, d, id), |id: u64| !authored_by(s, user_id, id));
            }
        }
        r
    }

    /// Removes every cached entry whose id is in `doomed`, and those ids from
    /// every channel queue.
    fn remove_ids(&mut self, doomed: &Vec<u64>)
        requires
            old(self).wf(),
        ensures
            final(self).wf(),
            final(self).entries() == old(self).entries().filter(key_not_in(doomed@)),
            final(self).store_cap() == old(self).store_cap(),
            final(self).requested_capacity() == old(self).requested_capacity(),
            final(self).queue_limit() == old(self).queue_limit(),
            forall|ch: u64|
                #[trigger] final(self).history_ids(ch) == old(self).history_ids(ch).filter(
                    id_not_in(doomed@),
                ),
            channels_consistent(old(self)) ==> channels_consistent(final(self)),
    {
        let ghost s0 = self.entries();
        let ghost before = *self;
        let mut j: usize = 0;
        proof {
            lemma_filter_agree(s0, key_not_in(doomed@.subrange(0, 0)), |e: (u64, CachedMessage)| true);
            lemma_filter_all(s0);
        }
        while j < doomed.len()
            invariant
                j <= doomed@.len(),
                self.entries() == s0.filter(key_not_in(doomed@.subrange(0, j as int))),
                keys_unique(s0),
                keyed_by_id(s0),
                s0.len() <= self.store_cap(),
                self.store_cap() == old(self).store_cap(),
                self.capacity == old(self).capacity,
                self.index_limit == old(self).index_limit,
                self.channel_index == old(self).channel_index,
            decreases doomed@.len() - j,
        {
            let ghost pj = key_not_in(doomed@.subrange(0, j as int));
            let ghost d = doomed@[j as int];
            lru_pop(&mut self.cache, doomed[j]);
            proof {
                let q = key_differs(d);
                lemma_filter_filter(s0, pj, q);
                let pn = key_not_in(doomed@.subrange(0, j + 1));
                let a = doomed@.subrange(0, j as int);
                let b = doomed@.subrange(0, j + 1);
                assert(b[j as int] == d);
                assert forall|i: int| 0 <= i < s0.len() implies (pj(#[trigger] s0[i]) && q(s0[i])) == pn(s0[i]) by {
                    let x = s0[i].0;
                    if b.contains(x) {
                        let k = choose|k: int| 0 <= k < b.len() && b[k] == x;
                        if k < j {
                            assert(a[k] == x);
                        } else {
                            assert(x == d);
                        }
                    }
                    if a.contains(x) {
                        let k = choose|k: int| 0 <= k < a.len() && a[k] == x;
                        assert(b[k] == x);
                    }
                }
                lemma_filter_agree(s0, |e: (u64, CachedMessage)| pj(e) && q(e), pn);
            }
            j += 1;
        }
        proof {
            assert(doomed@.subrange(0, doomed@.len() as int) =~= doomed@);
            lemma_filter_entries(s0, key_not_in(doomed@));
        }
        let ghost old_m = self.channel_index@;
        let keys = channel_keys(&self.channel_index);
        let mut new_index: HashMap<u64, VecDeque<u64>> = HashMap::new();
        let mut i: usize = 0;
        while i < keys.len()
            invariant
                i <= keys@.len(),
                self.channel_index@ == old_m,
                forall|k: u64| keys@.contains(k) <==> old_m.contains_key(k),
                forall|c: u64|
                    #[trigger] queue_of(new_index@, c) == if keys@.subrange(0, i as int).contains(c) {
                        queue_of(old_m, c).filter(id_not_in(doomed@))
                    } else {
                        Seq::<u64>::empty()
                    },
            decreases keys@.len() - i,
        {
            let k = keys[i];
            let ghost before_new = new_index@;
            proof {
                assert(keys@.contains(k));
            }
            match self.channel_index.get(&k) {
                Some(q) => {
                    let kept = retain_ids(q, doomed);
                    assert(q@ == queue_of(old_m, k));
                    new_index.insert(k, kept);
                    assert(queue_of(new_index@, k) == queue_of(old_m, k).filter(id_not_in(doomed@)));
                },
                None => {
                    // `k` was read from the index's own keys
                    assert(false);
                },
            }
            proof {
                let a = keys@.subrange(0, i as int);
                let b = keys@.subrange(0, i + 1);
                assert(b[i as int] == k);
                assert forall|c: u64| #[trigger] queue_of(new_index@, c) == if b.contains(c) {
                    queue_of(old_m, c).filter(id_not_in(doomed@))
                } else {
                    Seq::<u64>::empty()
                } by {
                    if b.contains(c) && c != k {
                        let j = choose|j: int| 0 <= j < b.len() && b[j] == c;
                        assert(a[j] == c);
                    }
                    if a.contains(c) {
                        let j = choose|j: int| 0 <= j < a.len() && a[j] == c;
                        assert(b[j] == c);
                    }
                    if c != k {
                        assert(queue_of(before_new, c) == if a.contains(c) {
                            queue_of(old_m, c).filter(id_not_in(doomed@))
                        } else {
                            Seq::<u64>::empty()
                        });
                        assert(new_index@.contains_key(c) == before_new.contains_key(c));
                        if new_index@.contains_key(c) {
                            assert(new_index@[c] == before_new[c]);
                        }
                        assert(queue_of(new_index@, c) == queue_of(before_new, c));
                    }
                }
            }
            i += 1;
        }
        self.channel_index = new_index;
        proof {
            assert(keys@.subrange(0, keys@.len() as int) =~= keys@);
            assert forall|c: u64| #[trigger] queue_of(self.channel_index@, c) == queue_of(old_m, c).filter(id_not_in(doomed@)) by {
                if !old_m.contains_key(c) {
                    reveal(Seq::filter);
                    assert(Seq::<u64>::empty().filter(id_not_in(doomed@)) =~= Seq::<u64>::empty());
                }
            }
        }
        proof {
            if channels_consistent(&before) {
                assert forall|ch: u64, i: int| 0 <= i < self.history_ids(ch).len() implies match #[trigger] lookup(
                    self.entries(),
                    self.history_ids(ch)[i],
                ) {
                    Some(m) => m.channel_id == ch,
                    None => true,
                } by {
                    let q = before.history_ids(ch);
                    let fq = self.history_ids(ch);
                    let x = fq[i];
                    assert(fq.contains(x));
                    q.lemma_filter_contains_rev(id_not_in(doomed@), x);
                    let k = choose|k: int| 0 <= k < q.len() && q[k] == x;
                    assert(match lookup(s0, q[k]) {
                        Some(m) => m.channel_id == ch,
                        None => true,
                    });
                    lemma_filter_lookup(s0, key_not_in(doomed@), x);
                }
            }
        }
    }
}

proof fn lemma_filter_all(s: Seq<(u64, CachedMessage)>)
    ensures
        s.filter(|e: (u64, CachedMessage)| true) == s,
    decreases s.len(),
{
    reveal(Seq::filter);
    if s.len() > 0 {
        lemma_filter_all(s.drop_last());
        assert(s.drop_last().push(s.last()) =~= s);
    }
}


/// Entries after putting each message of `msgs`, in order, under its id.
pub open spec fn put_all(
    s: Seq<(u64, CachedMessage)>,
    msgs: Seq<CachedMessage>,
    cap: nat,
) -> Seq<(u64, CachedMessage)>
    decreases msgs.len(),
{
    if msgs.len() == 0 {
        s
    } else {
        put_model(put_all(s, msgs.drop_last(), cap), msgs.last().id, msgs.last(), cap)
    }
}

pub open spec fn ids_distinct(msgs: Seq<CachedMessage>) -> bool {
    forall|i: int, j: int| 0 <= i < j < msgs.len() ==> #[trigger] msgs[i].id != #[trigger] msgs[j].id
}

proof fn lemma_put_all_inv(msgs: Seq<CachedMessage>, cap: nat)
    requires
        cap > 0,
        ids_distinct(msgs),
    ensures
        ({
            let r = put_all(Seq::empty(), msgs, cap);
            &&& keys_unique(r)
            &&& keyed_by_id(r)
            &&& r.len() == if msgs.len() < cap { msgs.len() } else { cap }
            &&& forall|i: int| 0 <= i < r.len() ==> exists|j: int| 0 <= j < msgs.len() && #[trigger] r[i].0 == msgs[j].id
            &&& msgs.len() > 0 ==> has_key(r, msgs.last().id)
        }),
    decreases msgs.len(),
{
    if msgs.len() > 0 {
        let pre = msgs.drop_last();
        assert forall|i: int, j: int| 0 <= i < j < pre.len() implies #[trigger] pre[i].id != #[trigger] pre[j].id by {
            assert(pre[i] == msgs[i] && pre[j] == msgs[j]);
        }
        lemma_put_all_inv(pre, cap);
        let p = put_all(Seq::empty(), pre, cap);
        let m = msgs.last();
        assert(m == msgs[msgs.len() - 1]);
        if has_key(p, m.id) {
            let i = choose|i: int| 0 <= i < p.len() && #[trigger] p[i].0 == m.id;
            let j = choose|j: int| 0 <= j < pre.len() && #[trigger] p[i].0 == pre[j].id;
            assert(pre[j] == msgs[j]);
            assert(msgs[j].id != msgs[msgs.len() - 1].id);
        }
        lemma_put_wf(p, m, cap);
        let r = put_model(p, m.id, m, cap);
        assert forall|i: int| 0 <= i < r.len() implies exists|j: int| 0 <= j < msgs.len() && #[trigger] r[i].0 == msgs[j].id by {
            if i == r.len() - 1 {
                assert(r[i].0 == msgs[msgs.len() - 1].id);
            } else {
                let k = if p.len() == cap { i + 1 } else { i };
                assert(r[i] == p[k]);
                let j = choose|j: int| 0 <= j < pre.len() && #[trigger] p[k].0 == pre[j].id;
                assert(pre[j] == msgs[j]);
            }
        }
    }
}

/// Putting messages with distinct ids, one after another, into an empty store
/// of capacity `cap` leaves as many entries as there were messages, but never
/// more than `cap`; the last message put is always among them. In particular
/// `cap + 1` messages leave exactly `cap` entries.
pub proof fn lemma_lru_bound(msgs: Seq<CachedMessage>, cap: nat)
    requires
        cap > 0,
        ids_distinct(msgs),
    ensures
        put_all(Seq::empty(), msgs, cap).len() == if msgs.len() < cap { msgs.len() } else { cap },
        msgs.len() == cap + 1 ==> put_all(Seq::empty(), msgs, cap).len() == cap,
        msgs.len() > 0 ==> has_key(put_all(Seq::empty(), msgs, cap), msgs.last().id),
{
    lemma_put_all_inv(msgs, cap);
}

/// In a store that holds at least two entries, putting any message never evicts
/// the most recently used entry.
pub proof fn lemma_most_recent_kept(s: Seq<(u64, CachedMessage)>, cap: nat, m: CachedMessage)
    requires
        keys_unique(s),
        keyed_by_id(s),
        s.len() <= cap,
        cap >= 2,
        s.len() > 0,
    ensures
        has_key(put_model(s, m.id, m, cap), s.last().0),
        has_key(put_model(s, m.id, m, cap), m.id),
{
    broadcast use vstd::seq_lib::group_filter_ensures;
    let k = s.last().0;
    let n = s.len() - 1;
    assert(s[n] == s.last());
    lemma_put_wf(s, m, cap);
    let r = put_model(s, m.id, m, cap);
    if k == m.id {
        assert(r[r.len() - 1].0 == k);
    } else if has_key(s, m.id) {
        lemma_without_key(s, m.id);
        assert(key_differs(m.id)(s[n]));
        assert(without_key(s, m.id).contains(s[n]));
        let j = choose|j: int| 0 <= j < without_key(s, m.id).len() && without_key(s, m.id)[j] == s[n];
        assert(r[j].0 == k);
    } else if s.len() == cap {
        assert(r[n - 1] == s[n]);
    } else {
        assert(r[n] == s[n]);
    }
}

/// A message just read with `get` survives the next put of another message,
/// in a store of capacity at least two.
pub proof fn lemma_recently_read_kept(
    s: Seq<(u64, CachedMessage)>,
    cap: nat,
    k: u64,
    m: CachedMessage,
)
    requires
        keys_unique(s),
        keyed_by_id(s),
        s.len() <= cap,
        cap >= 2,
        has_key(s, k),
    ensures
        has_key(put_model(touch_model(s, k), m.id, m, cap), k),
{
    let i = choose|i: int| 0 <= i < s.len() && #[trigger] s[i].0 == k;
    let v = s[i].1;
    assert(v.id == k);
    lemma_lookup_at(s, k, i);
    lemma_put_wf(s, v, cap);
    let t = touch_model(s, k);
    assert(t == put_model(s, k, v, cap));
    assert(t.last().0 == k);
    lemma_most_recent_kept(t, cap, m);
}

/// An id appended to a channel's queue that is still below its bound is kept
/// whole: the queue becomes the old one followed by the id.
pub proof fn lemma_queue_appends(q: Seq<u64>, id: u64, bound: nat)
    requires
        q.len() < bound,
    ensures
        keep_last(q.push(id), bound) == q.push(id),
{
}

proof fn lemma_resolve_all_present(s: Seq<(u64, CachedMessage)>, ms: Seq<CachedMessage>)
    requires
        forall|i: int| 0 <= i < ms.len() ==> lookup(s, (#[trigger] ms[i]).id) == Some(ms[i]),
    ensures
        resolve(s, ms.map_values(|m: CachedMessage| m.id)) == ms,
    decreases ms.len(),
{
    let ids = ms.map_values(|m: CachedMessage| m.id);
    if ms.len() > 0 {
        let pre = ms.drop_last();
        assert forall|i: int| 0 <= i < pre.len() implies lookup(s, (#[trigger] pre[i]).id) == Some(pre[i]) by {
            assert(pre[i] == ms[i]);
        }
        lemma_resolve_all_present(s, pre);
        assert(ids.drop_last() =~= pre.map_values(|m: CachedMessage| m.id));
        assert(ids.last() == ms[ms.len() - 1].id);
        assert(ms.last() == ms[ms.len() - 1]);
        assert(pre + seq![ms.last()] =~= ms);
    } else {
        assert(ids.len() == 0);
        assert(ms =~= Seq::<CachedMessage>::empty());
    }
}

/// The last `n` messages of `msgs` (all of them when there are fewer).
pub open spec fn last_messages(msgs: Seq<CachedMessage>, n: nat) -> Seq<CachedMessage> {
    if msgs.len() > n {
        msgs.subrange(msgs.len() - n, msgs.len() as int)
    } else {
        msgs
    }
}

/// When a channel's queue holds exactly the ids of `msgs` in order (as
/// inserting them one after another leaves it while the queue is below its
/// bound, by `insert` and `lemma_queue_appends`), and each of them is still
/// cached, the channel's history for `limit` is the last `min(limit, k)` of
/// `msgs`, oldest first.
pub proof fn lemma_history_is_latest(c: &MessageCache, ch: u64, msgs: Seq<CachedMessage>, limit: nat)
    requires
        c.history_ids(ch) == msgs.map_values(|m: CachedMessage| m.id),
        forall|i: int| 0 <= i < msgs.len() ==> lookup(c.entries(), (#[trigger] msgs[i]).id) == Some(msgs[i]),
    ensures
        resolve(c.entries(), keep_last(c.history_ids(ch), limit)) == last_messages(msgs, limit),
{
    let tail = last_messages(msgs, limit);
    assert(keep_last(c.history_ids(ch), limit) =~= tail.map_values(|m: CachedMessage| m.id));
    assert forall|i: int| 0 <= i < tail.len() implies lookup(c.entries(), (#[trigger] tail[i]).id) == Some(tail[i]) by {
        if msgs.len() > limit {
            assert(tail[i] == msgs[msgs.len() - limit + i]);
        }
    }
    lemma_resolve_all_present(c.entries(), tail);
}

} // verus!
