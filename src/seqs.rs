//! "First element that satisfies" over sequences, and keyed lists of pairs.
use vstd::prelude::*;

verus! {

/// The position of the first element of `s` that satisfies `p`.
pub open spec fn first_index<T>(s: Seq<T>, p: spec_fn(T) -> bool) -> Option<int> {
    if exists|i: int| 0 <= i < s.len() && p(s[i]) {
        Some(
            choose|i: int|
                0 <= i < s.len() && p(s[i]) && forall|j: int| 0 <= j < i ==> !p(#[trigger] s[j]),
        )
    } else {
        None
    }
}

/// If `s[i]` is the first element that satisfies `p`, `first_index` finds it.
pub proof fn lemma_first_index_is<T>(s: Seq<T>, p: spec_fn(T) -> bool, i: int)
    requires
        0 <= i < s.len(),
        p(s[i]),
        forall|j: int| 0 <= j < i ==> !p(#[trigger] s[j]),
    ensures
        first_index(s, p) == Some(i),
{
    let c = choose|c: int|
        0 <= c < s.len() && p(s[c]) && forall|j: int| 0 <= j < c ==> !p(#[trigger] s[j]);
    assert(0 <= i < s.len() && p(s[i]));
    if c < i {
    } else if c > i {
    }
}

/// What `first_index` finds is in range and satisfies `p`, and no earlier element does.
pub proof fn lemma_first_index_found<T>(s: Seq<T>, p: spec_fn(T) -> bool)
    ensures
        first_index(s, p) matches Some(i) ==> 0 <= i < s.len() && p(s[i]) && forall|j: int|
            0 <= j < i ==> !p(#[trigger] s[j]),
{
    if exists|i: int| 0 <= i < s.len() && p(s[i]) {
        let w = choose|i: int| 0 <= i < s.len() && p(s[i]);
        lemma_least_witness(s, p, w);
    }
}

proof fn lemma_least_witness<T>(s: Seq<T>, p: spec_fn(T) -> bool, w: int)
    requires
        0 <= w < s.len(),
        p(s[w]),
    ensures
        exists|i: int| 0 <= i < s.len() && p(s[i]) && forall|j: int| 0 <= j < i ==> !p(#[trigger] s[j]),
    decreases w,
{
    if exists|j: int| 0 <= j < w && p(s[j]) {
        let j = choose|j: int| 0 <= j < w && p(s[j]);
        lemma_least_witness(s, p, j);
    } else {
        assert(forall|j: int| 0 <= j < w ==> !p(#[trigger] s[j]));
    }
}

/// If no element satisfies `p`, `first_index` finds nothing.
pub proof fn lemma_first_index_none<T>(s: Seq<T>, p: spec_fn(T) -> bool)
    requires
        forall|j: int| 0 <= j < s.len() ==> !p(#[trigger] s[j]),
    ensures
        first_index(s, p) is None,
{
}

/// Whether a pair's key is `k`.
pub open spec fn key_is<V>(k: Seq<char>) -> spec_fn((String, V)) -> bool {
    |e: (String, V)| e.0@ == k
}

/// The position of the first pair of `s` whose key is `k`.
pub open spec fn key_pos<V>(s: Seq<(String, V)>, k: Seq<char>) -> Option<int> {
    first_index(s, key_is(k))
}

/// The value stored under `k`, if any.
pub open spec fn value_of<V>(s: Seq<(String, V)>, k: Seq<char>) -> Option<V> {
    match key_pos(s, k) {
        Some(i) => Some(s[i].1),
        None => None,
    }
}

/// The list after storing `v` under `k`: in place of the first pair with that
/// key, or appended at the end.
pub open spec fn upsert<V>(s: Seq<(String, V)>, k: String, v: V) -> Seq<(String, V)> {
    match key_pos(s, k@) {
        Some(i) => s.update(i, (k, v)),
        None => s.push((k, v)),
    }
}

/// Finds the first pair whose key is `k`.
pub fn find_key<V>(s: &Vec<(String, V)>, k: &str) -> (r: Option<usize>)
    ensures
        match r {
            Some(i) => key_pos(s@, k@) == Some(i as int),
            None => key_pos(s@, k@) is None,
        },
{
    let mut i: usize = 0;
    while i < s.len()
        invariant
            i <= s@.len(),
            forall|j: int| 0 <= j < i ==> !key_is::<V>(k@)(#[trigger] s@[j]),
        decreases s@.len() - i,
    {
        let same = crate::text::str_eq(s[i].0.as_str(), k);
        assert(key_is::<V>(k@)(s@[i as int]) == (s@[i as int].0@ == k@));
        if same {
            proof {
                lemma_first_index_is(s@, key_is::<V>(k@), i as int);
            }
            return Some(i);
        }
        i = i + 1;
    }
    proof {
        lemma_first_index_none(s@, key_is::<V>(k@));
    }
    None
}

/// Stores `v` under `k`, replacing the value of an existing key.
pub fn insert_pair<V>(s: &mut Vec<(String, V)>, k: String, v: V)
    ensures
        final(s)@ == upsert(old(s)@, k, v),
{
    proof {
        lemma_first_index_found(s@, key_is::<V>(k@));
    }
    match find_key(s, k.as_str()) {
        Some(i) => {
            s.set(i, (k, v));
        },
        None => {
            s.push((k, v));
        },
    }
}

} // verus!
