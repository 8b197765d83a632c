//! The answer cache: a bounded LRU map from domain to records, with each
//! record dropped once its absolute expiry time has passed.
use crate::dns::{IpAddress, Record};
use lru::LruCache;
use vstd::prelude::*;

verus! {

/// The LRU map of the `lru` crate, held opaque.
#[verifier::external_type_specification]
#[verifier::external_body]
#[verifier::reject_recursive_types(K)]
#[verifier::reject_recursive_types(V)]
#[verifier::reject_recursive_types(S)]
pub struct ExLruCache<K, V, S>(LruCache<K, V, S>);

/// The default hasher of the `lru` crate, held opaque.
#[verifier::external_type_specification]
#[verifier::external_body]
pub struct ExLruHasher(lru::DefaultHasher);

/// A cached record with the Unix time (seconds) at which it expires.
#[derive(PartialEq, Eq, Clone, Debug)]
pub struct CachedRecord {
    pub record: Record,
    pub expires: u64,
}

impl CachedRecord {
    /// A copy of this entry.
    pub fn copy(&self) -> (r: Self)
        ensures
            r == *self,
    {
        CachedRecord { record: self.record.copy(), expires: self.expires }
    }
}

/// The entries of an answer LRU, most recently used first: each key's
/// characters with its record list.
pub uninterp spec fn rr_entries(c: LruCache<String, Vec<CachedRecord>>) -> Seq<(Seq<char>, Seq<CachedRecord>)>;

/// The number of entries an answer LRU was made to hold.
pub uninterp spec fn rr_capacity(c: LruCache<String, Vec<CachedRecord>>) -> nat;

/// Whether some entry of `s` has key `k`.
pub open spec fn has_key<K, V>(s: Seq<(K, V)>, k: K) -> bool {
    exists|i: int| 0 <= i < s.len() && s[i].0 == k
}

/// No two entries of `s` share a key.
pub open spec fn unique_keys<K, V>(s: Seq<(K, V)>) -> bool {
    forall|i: int, j: int| 0 <= i < s.len() && 0 <= j < s.len() && i != j ==> s[i].0 != s[j].0
}

/// The entries after `(k, v)` is stored in an LRU of capacity `cap` holding `s`:
/// the pair goes to the front; a previous entry for `k` leaves; otherwise, at
/// capacity, the least recently used entry (the last) is evicted.
pub open spec fn lru_after_put<K, V>(s: Seq<(K, V)>, cap: nat, k: K, v: V) -> Seq<(K, V)> {
    if has_key(s, k) {
        let i = choose|i: int| 0 <= i < s.len() && s[i].0 == k;
        seq![(k, v)] + s.remove(i)
    } else if s.len() >= cap {
        seq![(k, v)] + s.drop_last()
    } else {
        seq![(k, v)] + s
    }
}

/// Relies on `LruCache::new`: an empty cache that holds at most `cap` entries.
#[verifier::external_body]
fn rr_lru_new(cap: usize) -> (r: LruCache<String, Vec<CachedRecord>>)
    requires
        cap > 0,
    ensures
        rr_entries(r) == Seq::<(Seq<char>, Seq<CachedRecord>)>::empty(),
        rr_capacity(r) == cap,
{
    LruCache::new(std::num::NonZeroUsize::new(cap).unwrap())
}

/// Relies on `LruCache::pop`: removes the key's entry, if any, and hands back its value.
#[verifier::external_body]
fn rr_lru_pop(c: &mut LruCache<String, Vec<CachedRecord>>, k: &String) -> (r: Option<
    Vec<CachedRecord>,
>)
    ensures
        rr_capacity(*final(c)) == rr_capacity(*old(c)),
        r is None ==> !has_key(rr_entries(*old(c)), k@) && rr_entries(*final(c)) == rr_entries(
            *old(c),
        ),
        r is Some ==> exists|i: int|
            0 <= i < rr_entries(*old(c)).len() && rr_entries(*old(c))[i] == (k@, r->0@)
                && rr_entries(*final(c)) == rr_entries(*old(c)).remove(i),
{
    c.pop(k)
}

/// Relies on `LruCache::put`: stores the pair as the most recently used entry,
/// replacing the key's old entry or, when full, evicting the least recently used one.
#[verifier::external_body]
fn rr_lru_put(c: &mut LruCache<String, Vec<CachedRecord>>, k: String, v: Vec<CachedRecord>)
    ensures
        rr_capacity(*final(c)) == rr_capacity(*old(c)),
        rr_entries(*final(c)) == lru_after_put(rr_entries(*old(c)), rr_capacity(*old(c)), k@, v@),
{
    c.put(k, v);
}

/// Whether a record with this expiry is still live at Unix time `now`.
pub open spec fn is_live(r: CachedRecord, now: u64) -> bool {
    r.expires > now
}

/// The records of `s` that are still live at `now`, in order.
pub open spec fn live(s: Seq<CachedRecord>, now: u64) -> Seq<CachedRecord> {
    s.filter(|r: CachedRecord| is_live(r, now))
}

/// The records of `s` of type `rtype`, in order.
pub open spec fn of_type(s: Seq<CachedRecord>, rtype: u16) -> Seq<CachedRecord> {
    s.filter(|r: CachedRecord| r.record.rtype == rtype)
}

/// The key of the least recently used entry.
pub open spec fn lru_key(s: Seq<(Seq<char>, Seq<CachedRecord>)>) -> Seq<char> {
    s.last().0
}

/// The position of the entry with key `k` (meaningful when there is one).
pub open spec fn key_index<K, V>(s: Seq<(K, V)>, k: K) -> int {
    choose|i: int| 0 <= i < s.len() && s[i].0 == k
}

/// The record list stored under `k`.
pub open spec fn stored<V>(s: Seq<(Seq<char>, V)>, k: Seq<char>) -> V {
    s[key_index(s, k)].1
}

/// The list `put` stores for `k`: the live part of the old list with the new
/// records appended, or the new records alone for a new key.
pub open spec fn put_list(
    s: Seq<(Seq<char>, Seq<CachedRecord>)>,
    k: Seq<char>,
    rrs: Seq<CachedRecord>,
    now: u64,
) -> Seq<CachedRecord> {
    if has_key(s, k) {
        live(stored(s, k), now) + rrs
    } else {
        rrs
    }
}

/// The entries after `get(k, _)` at time `now`: the key's list is pruned to
/// its live records and moved to the front, or dropped once nothing is live.
pub open spec fn entries_after_get(
    s: Seq<(Seq<char>, Seq<CachedRecord>)>,
    k: Seq<char>,
    now: u64,
) -> Seq<(Seq<char>, Seq<CachedRecord>)> {
    if !has_key(s, k) {
        s
    } else if live(stored(s, k), now).len() == 0 {
        s.remove(key_index(s, k))
    } else {
        seq![(k, live(stored(s, k), now))] + s.remove(key_index(s, k))
    }
}

/// What `get(k, rtype)` returns at time `now`: nothing for an absent key or
/// one with no live record, else the live records of that type, in order.
pub open spec fn get_result(
    s: Seq<(Seq<char>, Seq<CachedRecord>)>,
    k: Seq<char>,
    rtype: u16,
    now: u64,
) -> Option<Seq<CachedRecord>> {
    if !has_key(s, k) || live(stored(s, k), now).len() == 0 {
        None
    } else {
        Some(of_type(live(stored(s, k), now), rtype))
    }
}

/// A copy of the records of `rrs`.
pub fn copy_records(rrs: &[CachedRecord]) -> (r: Vec<CachedRecord>)
    ensures
        r@ == rrs@,
{
    let mut out: Vec<CachedRecord> = Vec::new();
    let mut i: usize = 0;
    while i < rrs.len()
        invariant
            i <= rrs@.len(),
            out@ == rrs@.take(i as int),
        decreases rrs@.len() - i,
    {
        out.push(rrs[i].copy());
        i = i + 1;
        assert(out@ =~= rrs@.take(i as int));
    }
    assert(rrs@.take(i as int) =~= rrs@);
    out
}

/// Keeps the records of `rrs` that are still live at `now`, in order.
pub fn retain_live(rrs: &Vec<CachedRecord>, now: u64) -> (r: Vec<CachedRecord>)
    ensures
        r@ == live(rrs@, now),
{
    let mut out: Vec<CachedRecord> = Vec::new();
    let mut i: usize = 0;
    while i < rrs.len()
        invariant
            i <= rrs.len(),
            out@ == live(rrs@.take(i as int), now),
        decreases rrs.len() - i,
    {
        proof {
            assert(rrs@.take(i as int + 1) =~= rrs@.take(i as int).push(rrs@[i as int]));
            rrs@.take(i as int).lemma_filter_push(rrs@[i as int], |r: CachedRecord| is_live(r, now));
        }
        if rrs[i].expires > now {
            out.push(rrs[i].copy());
        }
        i = i + 1;
    }
    assert(rrs@.take(rrs.len() as int) =~= rrs@);
    out
}

/// The records of `rrs` whose type is `rtype`, in order.
pub fn select_type(rrs: &Vec<CachedRecord>, rtype: u16) -> (r: Vec<CachedRecord>)
    ensures
        r@ == of_type(rrs@, rtype),
{
    let mut out: Vec<CachedRecord> = Vec::new();
    let mut i: usize = 0;
    while i < rrs.len()
        invariant
            i <= rrs.len(),
            out@ == of_type(rrs@.take(i as int), rtype),
        decreases rrs.len() - i,
    {
        proof {
            assert(rrs@.take(i as int + 1) =~= rrs@.take(i as int).push(rrs@[i as int]));
            rrs@.take(i as int).lemma_filter_push(
                rrs@[i as int],
                |r: CachedRecord| r.record.rtype == rtype,
            );
        }
        if rrs[i].record.rtype == rtype {
            out.push(rrs[i].copy());
        }
        i = i + 1;
    }
    assert(rrs@.take(rrs.len() as int) =~= rrs@);
    out
}

proof fn lemma_remove_keeps_unique<K, V>(s: Seq<(K, V)>, i: int)
    requires
        unique_keys(s),
        0 <= i < s.len(),
    ensures
        unique_keys(s.remove(i)),
        !has_key(s.remove(i), s[i].0),
        forall|k: K| k != s[i].0 ==> (has_key(s.remove(i), k) == has_key(s, k)),
{
    let t = s.remove(i);
    assert forall|k: K| k != s[i].0 implies (has_key(t, k) == has_key(s, k)) by {
        if has_key(s, k) {
            let j = choose|j: int| 0 <= j < s.len() && s[j].0 == k;
            if j < i {
                assert(t[j] == s[j]);
            } else {
                assert(t[j - 1] == s[j]);
            }
        }
        if has_key(t, k) {
            let j = choose|j: int| 0 <= j < t.len() && t[j].0 == k;
            if j < i {
                assert(t[j] == s[j]);
            } else {
                assert(t[j] == s[j + 1]);
            }
        }
    }
    assert forall|a: int, b: int| 0 <= a < t.len() && 0 <= b < t.len() && a != b implies t[a].0
        != t[b].0 by {
        let sa = if a < i { a } else { a + 1 };
        let sb = if b < i { b } else { b + 1 };
        assert(t[a] == s[sa]);
        assert(t[b] == s[sb]);
    }
    if has_key(t, s[i].0) {
        let j = choose|j: int| 0 <= j < t.len() && t[j].0 == s[i].0;
        let sj = if j < i { j } else { j + 1 };
        assert(t[j] == s[sj]);
    }
}

proof fn lemma_front_unique<K, V>(s: Seq<(K, V)>, k: K, v: V)
    requires
        unique_keys(s),
        !has_key(s, k),
    ensures
        unique_keys(seq![(k, v)] + s),
{
    let t = seq![(k, v)] + s;
    assert forall|a: int, b: int| 0 <= a < t.len() && 0 <= b < t.len() && a != b implies t[a].0
        != t[b].0 by {
        if a > 0 {
            assert(t[a] == s[a - 1]);
        }
        if b > 0 {
            assert(t[b] == s[b - 1]);
        }
    }
}

proof fn lemma_key_index_unique<K, V>(s: Seq<(K, V)>, i: int)
    requires
        unique_keys(s),
        0 <= i < s.len(),
    ensures
        has_key(s, s[i].0),
        key_index(s, s[i].0) == i,
{
    assert(has_key(s, s[i].0));
}

/// The LRU map behind the answer cache.
pub struct Inner {
    lru: LruCache<String, Vec<CachedRecord>>,
}

impl Inner {
    /// The entries, most recently used first.
    pub closed spec fn entries(&self) -> Seq<(Seq<char>, Seq<CachedRecord>)> {
        rr_entries(self.lru)
    }

    /// The number of keys the cache holds at most.
    pub closed spec fn capacity(&self) -> nat {
        rr_capacity(self.lru)
    }

    /// Keys are unique and there are at most `capacity` of them.
    pub open spec fn wf(&self) -> bool {
        &&& self.capacity() > 0
        &&& self.entries().len() <= self.capacity()
        &&& unique_keys(self.entries())
    }

    /// An empty cache holding up to `capacity` keys.
    pub fn with_capacity(capacity: usize) -> (r: Self)
        requires
            capacity > 0,
        ensures
            r.wf(),
            r.capacity() == capacity,
            r.entries().len() == 0,
    {
        Inner { lru: rr_lru_new(capacity) }
    }
}


impl Inner {
    /// Stores `rrs` under `domain` and makes it the most recently used key.
    /// An existing key keeps its live records, followed by the new ones; a new
    /// key at capacity evicts the least recently used key.
    pub fn put(&mut self, domain: String, rrs: &[CachedRecord], now: u64)
        requires
            old(self).wf(),
        ensures
            final(self).wf(),
            final(self).capacity() == old(self).capacity(),
            final(self).entries() == lru_after_put(
                old(self).entries(),
                old(self).capacity(),
                domain@,
                put_list(old(self).entries(), domain@, rrs@, now),
            ),
    {
        let ghost s = self.entries();
        let ghost cap = self.capacity();
        let fresh = copy_records(rrs);
        match rr_lru_pop(&mut self.lru, &domain) {
            Some(old_list) => {
                let ghost i = choose|i: int|
                    0 <= i < s.len() && s[i] == (domain@, old_list@) && self.entries() == s.remove(
                        i,
                    );
                proof {
                    lemma_key_index_unique(s, i);
                    lemma_remove_keeps_unique(s, i);
                }
                let mut list = retain_live(&old_list, now);
                let mut fresh = fresh;
                list.append(&mut fresh);
                assert(list@ == put_list(s, domain@, rrs@, now));
                let ghost mid = self.entries();
                assert(!has_key(mid, domain@));
                assert(mid.len() < cap);
                rr_lru_put(&mut self.lru, domain, list);
                proof {
                    lemma_front_unique(mid, domain@, list@);
                }
            },
            None => {
                let ghost v = fresh@;
                rr_lru_put(&mut self.lru, domain, fresh);
                proof {
                    if s.len() >= cap {
                        lemma_remove_keeps_unique(s, s.len() - 1);
                        assert(s.drop_last() == s.remove(s.len() - 1));
                        lemma_front_unique(s.drop_last(), domain@, v);
                    } else {
                        lemma_front_unique(s, domain@, v);
                    }
                }
            },
        }
    }

    /// Prunes the records of `domain` that expired by `now`: a key left with
    /// none is removed and gives `None`; otherwise the key becomes the most
    /// recently used one and its live records of type `rtype` come back.
    pub fn get(&mut self, domain: &String, rtype: u16, now: u64) -> (r: Option<Vec<CachedRecord>>)
        requires
            old(self).wf(),
        ensures
            final(self).wf(),
            final(self).capacity() == old(self).capacity(),
            final(self).entries() == entries_after_get(old(self).entries(), domain@, now),
            match r {
                None => get_result(old(self).entries(), domain@, rtype, now) is None,
                Some(v) => get_result(old(self).entries(), domain@, rtype, now) == Some(v@),
            },
    {
        let ghost s = self.entries();
        let ghost cap = self.capacity();
        match rr_lru_pop(&mut self.lru, domain) {
            None => None,
            Some(old_list) => {
                let ghost i = choose|i: int|
                    0 <= i < s.len() && s[i] == (domain@, old_list@) && self.entries() == s.remove(
                        i,
                    );
                proof {
                    lemma_key_index_unique(s, i);
                    lemma_remove_keeps_unique(s, i);
                }
                let list = retain_live(&old_list, now);
                if list.len() == 0 {
                    None
                } else {
                    let found = select_type(&list, rtype);
                    let ghost mid = self.entries();
                    rr_lru_put(&mut self.lru, domain.clone(), list);
                    proof {
                        lemma_front_unique(mid, domain@, live(old_list@, now));
                    }
                    Some(found)
                }
            },
        }
    }
}

/// The answer cache; a capacity of zero disables it, and every operation is
/// then a no-op that finds nothing.
pub struct Cache {
    inner: Option<Inner>,
}

impl Cache {
    /// The cache is disabled or its map is well formed.
    pub open spec fn wf(&self) -> bool {
        self.view() is Some ==> self.view()->0.wf()
    }

    /// The map behind the cache, if it is enabled.
    pub closed spec fn view(&self) -> Option<Inner> {
        self.inner
    }

    /// Whether the cache holds anything at all (its capacity is not zero).
    pub fn enabled(&self) -> (r: bool)
        ensures
            r == (self.view() is Some),
    {
        self.inner.is_some()
    }

    /// A cache of `capacity` keys; disabled when `capacity` is zero.
    pub fn with_capacity(capacity: usize) -> (r: Self)
        ensures
            r.wf(),
            (r.view() is Some) == (capacity > 0),
            r.view() is Some ==> r.view()->0.capacity() == capacity && r.view()->0.entries().len()
                == 0,
    {
        if capacity == 0 {
            Cache { inner: None }
        } else {
            Cache { inner: Some(Inner::with_capacity(capacity)) }
        }
    }

    /// The map behind the cache, for reading and writing, when it is enabled.
    pub fn access(&mut self) -> (r: Option<&mut Inner>)
        requires
            old(self).wf(),
        ensures
            (r is Some) == (old(self).view() is Some),
            r is Some ==> *r->0 == old(self).view()->0 && final(self).view() == Some(*final(r->0)),
            r is None ==> final(self).view() == old(self).view(),
    {
        match &mut self.inner {
            Some(inner) => Some(inner),
            None => None,
        }
    }
}

/// A record stored with `put` and still live is found by a `get` of its
/// domain and type right after.
pub proof fn lemma_put_then_get(
    before: Seq<(Seq<char>, Seq<CachedRecord>)>,
    cap: nat,
    domain: Seq<char>,
    r: CachedRecord,
    now: u64,
)
    requires
        cap > 0,
        unique_keys(before),
        before.len() <= cap,
        is_live(r, now),
    ensures
        ({
            let after = lru_after_put(before, cap, domain, put_list(before, domain, seq![r], now));
            let found = get_result(after, domain, r.record.rtype, now);
            found is Some && found->0.contains(r)
        }),
{
    let list = put_list(before, domain, seq![r], now);
    let after = lru_after_put(before, cap, domain, list);
    assert(after[0] == (domain, list));
    assert(unique_keys(after)) by {
        if has_key(before, domain) {
            let i = choose|i: int| 0 <= i < before.len() && before[i].0 == domain;
            lemma_remove_keeps_unique(before, i);
            lemma_front_unique(before.remove(i), domain, list);
        } else if before.len() >= cap {
            lemma_remove_keeps_unique(before, before.len() - 1);
            assert(before.drop_last() == before.remove(before.len() - 1));
            lemma_front_unique(before.drop_last(), domain, list);
        } else {
            lemma_front_unique(before, domain, list);
        }
    }
    lemma_key_index_unique(after, 0);
    assert(stored(after, domain) == list);
    let n = list.len() - 1;
    assert(list[n] == r);
    list.lemma_filter_contains(|x: CachedRecord| is_live(x, now), n);
    let lv = live(list, now);
    assert(lv.contains(r));
    let j = choose|j: int| 0 <= j < lv.len() && lv[j] == r;
    lv.lemma_filter_contains(|x: CachedRecord| x.record.rtype == r.record.rtype, j);
}

/// Nothing that `get` returns has expired: every record has an expiry later than `now`.
pub proof fn lemma_get_only_live(
    s: Seq<(Seq<char>, Seq<CachedRecord>)>,
    domain: Seq<char>,
    rtype: u16,
    now: u64,
)
    ensures
        get_result(s, domain, rtype, now) matches Some(v) ==> forall|i: int|
            0 <= i < v.len() ==> (#[trigger] v[i]).expires > now,
{
    broadcast use vstd::seq_lib::group_filter_ensures;

    if let Some(v) = get_result(s, domain, rtype, now) {
        let lv = live(stored(s, domain), now);
        assert forall|i: int| 0 <= i < v.len() implies (#[trigger] v[i]).expires > now by {
            lv.lemma_filter_contains_rev(|x: CachedRecord| x.record.rtype == rtype, v[i]);
            let j = choose|j: int| 0 <= j < lv.len() && lv[j] == v[i];
            stored(s, domain).lemma_filter_pred(|x: CachedRecord| is_live(x, now), j);
        }
    }
}

/// A `put` of a new key into a full cache evicts the least recently used key,
/// and only that one.
pub proof fn lemma_put_evicts_lru(
    before: Seq<(Seq<char>, Seq<CachedRecord>)>,
    cap: nat,
    domain: Seq<char>,
    rrs: Seq<CachedRecord>,
    now: u64,
)
    requires
        cap > 0,
        unique_keys(before),
        before.len() == cap,
        !has_key(before, domain),
    ensures
        ({
            let after = lru_after_put(before, cap, domain, put_list(before, domain, rrs, now));
            &&& !has_key(after, lru_key(before))
            &&& after.len() == cap
            &&& forall|i: int| 0 <= i < before.len() - 1 ==> has_key(after, #[trigger] before[i].0)
        }),
{
    let after = lru_after_put(before, cap, domain, rrs);
    assert(after == seq![(domain, rrs)] + before.drop_last());
    lemma_remove_keeps_unique(before, before.len() - 1);
    assert(before.drop_last() == before.remove(before.len() - 1));
    if has_key(after, lru_key(before)) {
        let j = choose|j: int| 0 <= j < after.len() && after[j].0 == lru_key(before);
        if j == 0 {
            assert(has_key(before, domain));
        } else {
            assert(after[j] == before.drop_last()[j - 1]);
            assert(has_key(before.drop_last(), lru_key(before)));
        }
    }
    assert forall|i: int| 0 <= i < before.len() - 1 implies has_key(after, #[trigger] before[i].0) by {
        assert(after[i + 1] == before[i]);
    }
}

/// How many addresses the ping verdict cache remembers.
pub const PING_CACHE_SIZE: usize = 455;

/// The entries of a ping-verdict LRU, most recently used first.
pub uninterp spec fn ping_entries(c: LruCache<(bool, u128), bool>) -> Seq<((bool, u128), bool)>;

/// The number of entries a ping-verdict LRU was made to hold.
pub uninterp spec fn ping_capacity(c: LruCache<(bool, u128), bool>) -> nat;

/// Relies on `LruCache::new`: an empty cache that holds at most `cap` entries.
#[verifier::external_body]
fn ping_lru_new(cap: usize) -> (r: LruCache<(bool, u128), bool>)
    requires
        cap > 0,
    ensures
        ping_entries(r) == Seq::<((bool, u128), bool)>::empty(),
        ping_capacity(r) == cap,
{
    LruCache::new(std::num::NonZeroUsize::new(cap).unwrap())
}

/// Relies on `LruCache::get`: the key's value, and the key becomes the most recently used.
#[verifier::external_body]
fn ping_lru_get(c: &mut LruCache<(bool, u128), bool>, k: (bool, u128)) -> (r: Option<bool>)
    ensures
        ping_capacity(*final(c)) == ping_capacity(*old(c)),
        r is None ==> !has_key(ping_entries(*old(c)), k) && ping_entries(*final(c)) == ping_entries(*old(c)),
        r is Some ==> exists|i: int|
            0 <= i < ping_entries(*old(c)).len() && ping_entries(*old(c))[i] == (k, r->0)
                && ping_entries(*final(c)) == seq![(k, r->0)] + ping_entries(*old(c)).remove(i),
{
    c.get(&k).copied()
}

/// Relies on `LruCache::put`: stores the pair as the most recently used entry,
/// replacing the key's old entry or, when full, evicting the least recently used one.
#[verifier::external_body]
fn ping_lru_put(c: &mut LruCache<(bool, u128), bool>, k: (bool, u128), v: bool)
    ensures
        ping_capacity(*final(c)) == ping_capacity(*old(c)),
        ping_entries(*final(c)) == lru_after_put(ping_entries(*old(c)), ping_capacity(*old(c)), k, v),
{
    c.put(k, v);
}

/// The key an address is remembered under: its family and its value.
pub open spec fn ping_key(a: IpAddress) -> (bool, u128) {
    match a {
        IpAddress::V4(v) => (false, v as u128),
        IpAddress::V6(v) => (true, v),
    }
}

/// The value stored under `k`, if any.
pub open spec fn ping_value(s: Seq<((bool, u128), bool)>, k: (bool, u128)) -> Option<bool> {
    if has_key(s, k) {
        Some(s[key_index(s, k)].1)
    } else {
        None
    }
}

/// Remembers whether addresses answered a ping, for the `pingable` rule.
pub struct PingCache {
    lru: LruCache<(bool, u128), bool>,
}

impl PingCache {
    /// The remembered verdicts, most recently used first.
    pub closed spec fn entries(&self) -> Seq<((bool, u128), bool)> {
        ping_entries(self.lru)
    }

    /// How many addresses it remembers at most.
    pub closed spec fn capacity(&self) -> nat {
        ping_capacity(self.lru)
    }

    /// Keys are unique and there are at most `capacity` of them.
    pub open spec fn wf(&self) -> bool {
        &&& self.capacity() > 0
        &&& self.entries().len() <= self.capacity()
        &&& unique_keys(self.entries())
    }

    /// An empty cache of 455 verdicts.
    pub fn new() -> (r: Self)
        ensures
            r.wf(),
            r.capacity() == PING_CACHE_SIZE,
            r.entries().len() == 0,
    {
        PingCache { lru: ping_lru_new(PING_CACHE_SIZE) }
    }

    /// The remembered verdict for `addr`, which becomes the most recently used.
    pub fn lookup(&mut self, addr: IpAddress) -> (r: Option<bool>)
        requires
            old(self).wf(),
        ensures
            final(self).wf(),
            final(self).capacity() == old(self).capacity(),
            r == ping_value(old(self).entries(), ping_key(addr)),
            r is None ==> final(self).entries() == old(self).entries(),
    {
        let k = match addr {
            IpAddress::V4(v) => (false, v as u128),
            IpAddress::V6(v) => (true, v),
        };
        let ghost s = self.entries();
        let r = ping_lru_get(&mut self.lru, k);
        proof {
            if r is Some {
                let i = choose|i: int|
                    0 <= i < s.len() && s[i] == (k, r->0) && self.entries() == seq![(k, r->0)] + s.remove(i);
                lemma_key_index_unique(s, i);
                lemma_remove_keeps_unique(s, i);
                lemma_front_unique(s.remove(i), k, r->0);
            }
        }
        r
    }

    /// Remembers the verdict for `addr`.
    pub fn record(&mut self, addr: IpAddress, reachable: bool)
        requires
            old(self).wf(),
        ensures
            final(self).wf(),
            final(self).capacity() == old(self).capacity(),
            final(self).entries() == lru_after_put(old(self).entries(), old(self).capacity(), ping_key(addr), reachable),
            ping_value(final(self).entries(), ping_key(addr)) == Some(reachable),
    {
        let k = match addr {
            IpAddress::V4(v) => (false, v as u128),
            IpAddress::V6(v) => (true, v),
        };
        let ghost s = self.entries();
        let ghost cap = self.capacity();
        ping_lru_put(&mut self.lru, k, reachable);
        proof {
            if has_key(s, k) {
                let i = choose|i: int| 0 <= i < s.len() && s[i].0 == k;
                lemma_remove_keeps_unique(s, i);
                lemma_front_unique(s.remove(i), k, reachable);
            } else if s.len() >= cap {
                lemma_remove_keeps_unique(s, s.len() - 1);
                assert(s.drop_last() == s.remove(s.len() - 1));
                lemma_front_unique(s.drop_last(), k, reachable);
            } else {
                lemma_front_unique(s, k, reachable);
            }
            lemma_key_index_unique(self.entries(), 0);
        }
    }
}

} // verus!
