//! A small map from strings to values, held as a vector of pairs with unique keys.
//!
//! The host's maps are a few dozen entries at most, and a vector keeps the order the
//! entries arrived in — which the callers that walk a map need to be deterministic.
use vstd::prelude::*;

use crate::text::str_eq;

verus! {

/// No key occurs twice.
pub open spec fn keys_unique<V>(s: Seq<(String, V)>) -> bool {
    forall|i: int, j: int| 0 <= i < j < s.len() ==> s[i].0@ != s[j].0@
}

/// Some entry has this key.
pub open spec fn holds_key<V>(s: Seq<(String, V)>, k: Seq<char>) -> bool {
    exists|i: int| 0 <= i < s.len() && s[i].0@ == k
}

/// The entries as a map from each key to its value.
pub open spec fn table_map<V>(s: Seq<(String, V)>) -> Map<Seq<char>, V> {
    Map::new(
        |k: Seq<char>| holds_key(s, k),
        |k: Seq<char>| s[choose|i: int| 0 <= i < s.len() && s[i].0@ == k].1,
    )
}

/// The entry at `i` is what the map holds for its key.
pub proof fn lemma_table_at<V>(s: Seq<(String, V)>, i: int)
    requires
        keys_unique(s),
        0 <= i < s.len(),
    ensures
        table_map(s).contains_key(s[i].0@),
        table_map(s)[s[i].0@] == s[i].1,
{
    let k = s[i].0@;
    assert(holds_key(s, k));
    let w = choose|j: int| 0 <= j < s.len() && s[j].0@ == k;
    if w != i {
        if w < i {
            assert(s[w].0@ != s[i].0@);
        } else {
            assert(s[i].0@ != s[w].0@);
        }
    }
}

/// Pushing an entry with a new key inserts it.
pub proof fn lemma_table_push<V>(s: Seq<(String, V)>, e: (String, V))
    requires
        keys_unique(s),
        !holds_key(s, e.0@),
    ensures
        keys_unique(s.push(e)),
        table_map(s.push(e)) == table_map(s).insert(e.0@, e.1),
{
    let s2 = s.push(e);
    assert forall|i: int, j: int| 0 <= i < j < s2.len() implies s2[i].0@ != s2[j].0@ by {
        if j == s.len() {
            assert(s[i].0@ == s2[i].0@);
        }
    }
    let m = table_map(s).insert(e.0@, e.1);
    assert forall|k: Seq<char>| #[trigger] holds_key(s2, k) == m.contains_key(k) by {
        if holds_key(s2, k) {
            let q = choose|q: int| 0 <= q < s2.len() && s2[q].0@ == k;
            if q < s.len() {
                assert(s[q] == s2[q]);
                assert(holds_key(s, k));
            }
        }
        if holds_key(s, k) {
            let q = choose|q: int| 0 <= q < s.len() && s[q].0@ == k;
            assert(s2[q] == s[q]);
        }
        if k == e.0@ {
            assert(s2[s.len() as int] == e);
        }
    }
    assert forall|k: Seq<char>| m.contains_key(k) implies table_map(s2)[k] == m[k] by {
        if k == e.0@ {
            lemma_table_at(s2, s.len() as int);
        } else {
            let q = choose|q: int| 0 <= q < s.len() && s[q].0@ == k;
            lemma_table_at(s, q);
            lemma_table_at(s2, q);
        }
    }
    assert(table_map(s2) =~= m);
}

/// Replacing the value of an entry inserts it under the same key.
pub proof fn lemma_table_update<V>(s: Seq<(String, V)>, i: int, e: (String, V))
    requires
        keys_unique(s),
        0 <= i < s.len(),
        s[i].0@ == e.0@,
    ensures
        keys_unique(s.update(i, e)),
        table_map(s.update(i, e)) == table_map(s).insert(e.0@, e.1),
{
    let s2 = s.update(i, e);
    let m = table_map(s).insert(e.0@, e.1);
    assert forall|a: int, b: int| 0 <= a < b < s2.len() implies s2[a].0@ != s2[b].0@ by {
        assert(s2[a].0@ == s[a].0@);
        assert(s2[b].0@ == s[b].0@);
    }
    assert forall|k: Seq<char>| #[trigger] holds_key(s2, k) == m.contains_key(k) by {
        if holds_key(s2, k) {
            let q = choose|q: int| 0 <= q < s2.len() && s2[q].0@ == k;
            assert(s[q].0@ == k);
        }
        if holds_key(s, k) {
            let q = choose|q: int| 0 <= q < s.len() && s[q].0@ == k;
            assert(s2[q].0@ == k);
        }
    }
    assert forall|k: Seq<char>| m.contains_key(k) implies table_map(s2)[k] == m[k] by {
        if k == e.0@ {
            lemma_table_at(s2, i);
        } else {
            let q = choose|q: int| 0 <= q < s.len() && s[q].0@ == k;
            lemma_table_at(s, q);
            lemma_table_at(s2, q);
        }
    }
    assert(table_map(s2) =~= m);
}

/// The map has one key per entry.
pub proof fn lemma_table_len<V>(s: Seq<(String, V)>)
    requires
        keys_unique(s),
    ensures
        table_map(s).dom().finite(),
        table_map(s).dom().len() == s.len(),
    decreases s.len(),
{
    if s.len() == 0 {
        assert(table_map(s).dom() =~= Set::<Seq<char>>::empty());
    } else {
        let t = s.drop_last();
        assert forall|i: int, j: int| 0 <= i < j < t.len() implies t[i].0@ != t[j].0@ by {
            assert(t[i] == s[i] && t[j] == s[j]);
        }
        lemma_table_len(t);
        let e = s.last();
        assert(!holds_key(t, e.0@)) by {
            if holds_key(t, e.0@) {
                let q = choose|q: int| 0 <= q < t.len() && t[q].0@ == e.0@;
                assert(s[q].0@ != s[s.len() - 1].0@);
            }
        }
        lemma_table_push(t, e);
        assert(t.push(e) =~= s);
        assert(table_map(s).dom() =~= table_map(t).dom().insert(e.0@));
    }
}

/// Where the entry with key `k` is, if there is one.
pub fn find_key<V>(s: &Vec<(String, V)>, k: &str) -> (r: Option<usize>)
    ensures
        match r {
            Some(i) => i < s@.len() && s@[i as int].0@ == k@,
            None => !holds_key(s@, k@),
        },
{
    let mut i: usize = 0;
    while i < s.len()
        invariant
            i <= s@.len(),
            forall|q: int| 0 <= q < i ==> s@[q].0@ != k@,
        decreases s@.len() - i,
    {
        if str_eq(s[i].0.as_str(), k) {
            return Some(i);
        }
        i = i + 1;
    }
    None
}

/// Set the value under `k`, replacing the one it had.
pub fn upsert<V>(s: &mut Vec<(String, V)>, k: String, v: V)
    requires
        keys_unique(old(s)@),
    ensures
        keys_unique(final(s)@),
        table_map(final(s)@) == table_map(old(s)@).insert(k@, v),
{
    match find_key(s, k.as_str()) {
        Some(i) => {
            proof {
                lemma_table_update(s@, i as int, (k, v));
            }
            s.set(i, (k, v));
        },
        None => {
            proof {
                lemma_table_push(s@, (k, v));
            }
            s.push((k, v));
        },
    }
}

} // verus!
