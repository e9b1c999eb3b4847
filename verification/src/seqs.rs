//! First-match search over sequences, and lists keyed by name.

use vstd::prelude::*;

use crate::text::str_eq;

verus! {

/// Index of the first element satisfying `p`.
pub open spec fn first_index<T>(s: Seq<T>, p: spec_fn(T) -> bool) -> Option<int>
    decreases s.len(),
{
    if s.len() == 0 {
        None
    } else if p(s[0]) {
        Some(0)
    } else {
        match first_index(s.drop_first(), p) {
            Some(j) => Some(j + 1),
            None => None,
        }
    }
}

/// The first match is at `i` when `s[i]` matches and nothing before it does.
pub proof fn lemma_first_index_at<T>(s: Seq<T>, p: spec_fn(T) -> bool, i: int)
    requires
        0 <= i < s.len(),
        p(s[i]),
        forall|k: int| 0 <= k < i ==> !p(#[trigger] s[k]),
    ensures
        first_index(s, p) == Some(i),
    decreases i,
{
    if i > 0 {
        assert(!p(s[0]));
        assert forall|k: int| 0 <= k < i - 1 implies !p(#[trigger] s.drop_first()[k]) by {
            assert(s.drop_first()[k] == s[k + 1]);
        }
        lemma_first_index_at(s.drop_first(), p, i - 1);
    }
}

/// There is no match when no element matches.
pub proof fn lemma_first_index_none<T>(s: Seq<T>, p: spec_fn(T) -> bool)
    requires
        forall|k: int| 0 <= k < s.len() ==> !p(#[trigger] s[k]),
    ensures
        first_index(s, p) is None,
    decreases s.len(),
{
    if s.len() > 0 {
        assert forall|k: int| 0 <= k < s.len() - 1 implies !p(#[trigger] s.drop_first()[k]) by {
            assert(s.drop_first()[k] == s[k + 1]);
        }
        lemma_first_index_none(s.drop_first(), p);
    }
}

/// A match found is a match, and nothing before it matches.
pub proof fn lemma_first_index_found<T>(s: Seq<T>, p: spec_fn(T) -> bool)
    ensures
        first_index(s, p) matches Some(i) ==> 0 <= i < s.len() && p(s[i]) && forall|k: int|
            0 <= k < i ==> !p(#[trigger] s[k]),
        first_index(s, p) is None ==> forall|k: int| 0 <= k < s.len() ==> !p(#[trigger] s[k]),
    decreases s.len(),
{
    if s.len() > 0 {
        lemma_first_index_found(s.drop_first(), p);
        if !p(s[0]) {
            assert forall|k: int| 1 <= k < s.len() implies s[k] == s.drop_first()[k - 1] by {}
        }
    }
}

/// The text of each string.
pub open spec fn string_views(v: Seq<String>) -> Seq<Seq<char>> {
    v.map_values(|s: String| s@)
}

/// Whether an entry of a keyed list carries the given key.
pub open spec fn keyed<X>(key: Seq<char>) -> spec_fn((String, X)) -> bool {
    |e: (String, X)| e.0@ == key
}

/// No key occurs twice in a keyed list.
pub open spec fn keys_unique<X>(v: Seq<(String, X)>) -> bool {
    forall|i: int, j: int| 0 <= i < j < v.len() ==> #[trigger] v[i].0@ != #[trigger] v[j].0@
}

/// Position of the entry with the given key.
pub fn find_key<X>(v: &Vec<(String, X)>, key: &str) -> (r: Option<usize>)
    ensures
        r matches Some(i) ==> first_index(v@, keyed(key@)) == Some(i as int),
        r is None ==> first_index(v@, keyed(key@)) is None,
{
    let mut i: usize = 0;
    while i < v.len()
        invariant
            i <= v@.len(),
            forall|k: int| 0 <= k < i ==> !keyed::<X>(key@)(#[trigger] v@[k]),
        decreases v.len() - i,
    {
        if str_eq(v[i].0.as_str(), key) {
            proof {
                lemma_first_index_at(v@, keyed(key@), i as int);
            }
            return Some(i);
        }
        i = i + 1;
    }
    proof {
        lemma_first_index_none(v@, keyed(key@));
    }
    None
}

/// Removing an entry keeps the keys apart.
pub proof fn lemma_keys_unique_remove<X>(v: Seq<(String, X)>, i: int)
    requires
        keys_unique(v),
        0 <= i < v.len(),
    ensures
        keys_unique(v.remove(i)),
{
    let w = v.remove(i);
    assert forall|a: int, b: int| 0 <= a < b < w.len() implies #[trigger] w[a].0@ != #[trigger] w[b].0@ by {
        let a2 = if a < i { a } else { a + 1 };
        let b2 = if b < i { b } else { b + 1 };
        assert(w[a] == v[a2]);
        assert(w[b] == v[b2]);
    }
}

/// Appending an entry whose key is absent keeps the keys apart.
pub proof fn lemma_keys_unique_push<X>(v: Seq<(String, X)>, e: (String, X))
    requires
        keys_unique(v),
        first_index(v, keyed::<X>(e.0@)) is None,
    ensures
        keys_unique(v.push(e)),
{
    lemma_first_index_found(v, keyed::<X>(e.0@));
    let w = v.push(e);
    assert forall|a: int, b: int| 0 <= a < b < w.len() implies #[trigger] w[a].0@ != #[trigger] w[b].0@ by {
        assert(w[a] == v[a]);
        if b < v.len() {
            assert(w[b] == v[b]);
        } else {
            assert(!keyed::<X>(e.0@)(v[a]));
        }
    }
}

/// Replacing an entry by one with the same key keeps the keys apart.
pub proof fn lemma_keys_unique_update<X>(v: Seq<(String, X)>, i: int, e: (String, X))
    requires
        keys_unique(v),
        0 <= i < v.len(),
        e.0@ == v[i].0@,
    ensures
        keys_unique(v.update(i, e)),
{
    let w = v.update(i, e);
    assert forall|a: int, b: int| 0 <= a < b < w.len() implies #[trigger] w[a].0@ != #[trigger] w[b].0@ by {
        assert(w[a].0@ == v[a].0@);
        assert(w[b].0@ == v[b].0@);
    }
}

} // verus!
