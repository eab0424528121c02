//! Lists of `(name, value)` pairs with distinct names, read as maps from the
//! names to the values.

use vstd::prelude::*;

verus! {

/// No two pairs share a name.
pub open spec fn keys_unique<V>(s: Seq<(String, V)>) -> bool {
    forall|i: int, j: int|
        0 <= i < s.len() && 0 <= j < s.len() && i != j ==> (#[trigger] s[i]).0@ != (
        #[trigger] s[j]).0@
}

/// Whether some pair is named `k`.
pub open spec fn has_key<V>(s: Seq<(String, V)>, k: Seq<char>) -> bool {
    exists|i: int| 0 <= i < s.len() && (#[trigger] s[i]).0@ == k
}

/// An index of a pair named `k` (the only one when names are distinct).
pub open spec fn key_index<V>(s: Seq<(String, V)>, k: Seq<char>) -> int {
    choose|i: int| 0 <= i < s.len() && (#[trigger] s[i]).0@ == k
}

/// The map from names to the images under `f` of their values.
pub open spec fn assoc_view<V, W>(s: Seq<(String, V)>, f: spec_fn(V) -> W) -> Map<Seq<char>, W> {
    Map::new(|k: Seq<char>| has_key(s, k), |k: Seq<char>| f(s[key_index(s, k)].1))
}

/// The pair at `j` gives the map's entry for its name.
pub proof fn lemma_assoc_at<V, W>(s: Seq<(String, V)>, j: int, f: spec_fn(V) -> W)
    requires
        keys_unique(s),
        0 <= j < s.len(),
    ensures
        assoc_view(s, f).contains_key(s[j].0@),
        assoc_view(s, f)[s[j].0@] == f(s[j].1),
        key_index(s, s[j].0@) == j,
{
    assert(has_key(s, s[j].0@));
}

/// Replacing the pair at `j` by one of the same name updates that entry.
pub proof fn lemma_assoc_update<V, W>(s: Seq<(String, V)>, j: int, p: (String, V), f: spec_fn(V) -> W)
    requires
        keys_unique(s),
        0 <= j < s.len(),
        p.0@ == s[j].0@,
    ensures
        keys_unique(s.update(j, p)),
        assoc_view(s.update(j, p), f) == assoc_view(s, f).insert(p.0@, f(p.1)),
{
    let t = s.update(j, p);
    assert forall|a: int, b: int|
        0 <= a < t.len() && 0 <= b < t.len() && a != b implies (#[trigger] t[a]).0@ != (
        #[trigger] t[b]).0@ by {
        assert(s[a].0@ != s[b].0@);
    }
    assert forall|k: Seq<char>| has_key(t, k) == has_key(s, k) by {
        if has_key(s, k) {
            let i = key_index(s, k);
            assert(t[i].0@ == k);
        }
        if has_key(t, k) {
            let i = key_index(t, k);
            assert(s[i].0@ == k);
        }
    }
    assert forall|k: Seq<char>| #[trigger] has_key(t, k) implies assoc_view(t, f)[k] == assoc_view(
        s,
        f,
    ).insert(p.0@, f(p.1))[k] by {
        let i = key_index(t, k);
        if k != p.0@ {
            let i2 = key_index(s, k);
            assert(t[i2].0@ == k);
        }
    }
    assert(assoc_view(t, f) =~= assoc_view(s, f).insert(p.0@, f(p.1)));
}

/// Appending a pair with a new name adds that entry.
pub proof fn lemma_assoc_push<V, W>(s: Seq<(String, V)>, p: (String, V), f: spec_fn(V) -> W)
    requires
        keys_unique(s),
        !has_key(s, p.0@),
    ensures
        keys_unique(s.push(p)),
        assoc_view(s.push(p), f) == assoc_view(s, f).insert(p.0@, f(p.1)),
{
    let t = s.push(p);
    assert forall|a: int, b: int|
        0 <= a < t.len() && 0 <= b < t.len() && a != b implies (#[trigger] t[a]).0@ != (
        #[trigger] t[b]).0@ by {
        if a < s.len() && b < s.len() {
            assert(s[a].0@ != s[b].0@);
        } else if a < s.len() {
            assert(t[a] == s[a]);
        } else {
            assert(t[b] == s[b]);
        }
    }
    assert forall|k: Seq<char>| has_key(t, k) == (has_key(s, k) || k == p.0@) by {
        if has_key(s, k) {
            let i = key_index(s, k);
            assert(t[i].0@ == k);
        }
        if k == p.0@ {
            assert(t[s.len() as int].0@ == k);
        }
        if has_key(t, k) && k != p.0@ {
            let i = key_index(t, k);
            assert(i < s.len());
            assert(s[i].0@ == k);
        }
    }
    assert forall|k: Seq<char>| #[trigger] has_key(t, k) implies assoc_view(t, f)[k] == assoc_view(
        s,
        f,
    ).insert(p.0@, f(p.1))[k] by {
        let i = key_index(t, k);
        if k != p.0@ {
            let i2 = key_index(s, k);
            assert(t[i2].0@ == k);
        } else {
            assert(t[s.len() as int].0@ == k);
        }
    }
    assert(assoc_view(t, f) =~= assoc_view(s, f).insert(p.0@, f(p.1)));
}

/// The index of the pair named `k`, if there is one.
pub fn find_key<V>(s: &Vec<(String, V)>, k: &String) -> (r: Option<usize>)
    ensures
        match r {
            Some(j) => j < s@.len() && s@[j as int].0@ == k@,
            None => !has_key(s@, k@),
        },
{
    let mut i: usize = 0;
    while i < s.len()
        invariant
            i <= s@.len(),
            forall|j: int| 0 <= j < i ==> (#[trigger] s@[j]).0@ != k@,
        decreases s@.len() - i,
    {
        if s[i].0 == *k {
            return Some(i);
        }
        i = i + 1;
    }
    None
}

/// Sets the value of `key`: replaces the pair of that name, or appends one.
pub fn assoc_insert<V>(s: &mut Vec<(String, V)>, key: String, value: V)
    requires
        keys_unique(old(s)@),
    ensures
        keys_unique(final(s)@),
        final(s)@ == if has_key(old(s)@, key@) {
            old(s)@.update(key_index(old(s)@, key@), (key, value))
        } else {
            old(s)@.push((key, value))
        },
{
    match find_key(s, &key) {
        Some(j) => {
            proof {
                lemma_assoc_at(s@, j as int, |v: V| v);
            }
            s.remove(j);
            s.insert(j, (key, value));
            proof {
                assert(s@ =~= old(s)@.update(j as int, (key, value)));
                lemma_assoc_update(old(s)@, j as int, (key, value), |v: V| v);
            }
        },
        None => {
            s.push((key, value));
            proof {
                lemma_assoc_push(old(s)@, (key, value), |v: V| v);
            }
        },
    }
}

} // verus!
