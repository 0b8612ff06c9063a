//! Small string-keyed tables kept in a `Vec`, read as a `Map` through the first pair
//! that names each key.

use vstd::prelude::*;
use crate::text::str_eq;

verus! {

/// The value of the first pair in `v` keyed `k`.
pub open spec fn lookup<V>(v: Seq<(String, V)>, k: Seq<char>) -> Option<V>
    decreases v.len(),
{
    if v.len() == 0 {
        None
    } else if v[0].0@ == k {
        Some(v[0].1)
    } else {
        lookup(v.drop_first(), k)
    }
}

/// The table `v` as a map.
pub open spec fn lookup_map<V>(v: Seq<(String, V)>) -> Map<Seq<char>, V> {
    Map::new(|k: Seq<char>| lookup(v, k) is Some, |k: Seq<char>| lookup(v, k)->0)
}

/// No key occurs twice.
pub open spec fn unique_keys<V>(v: Seq<(String, V)>) -> bool {
    forall|i: int, j: int|
        0 <= i < v.len() && 0 <= j < v.len() && i != j ==> #[trigger] v[i].0@ != #[trigger] v[j].0@
}

pub proof fn lemma_lookup_found<V>(v: Seq<(String, V)>, i: int, k: Seq<char>)
    requires
        0 <= i < v.len(),
        v[i].0@ == k,
        forall|j: int| 0 <= j < i ==> v[j].0@ != k,
    ensures
        lookup(v, k) == Some(v[i].1),
    decreases i,
{
    if i > 0 {
        lemma_lookup_found(v.drop_first(), i - 1, k);
    }
}

pub proof fn lemma_lookup_missing<V>(v: Seq<(String, V)>, k: Seq<char>)
    requires
        forall|j: int| 0 <= j < v.len() ==> v[j].0@ != k,
    ensures
        lookup(v, k) is None,
    decreases v.len(),
{
    if v.len() > 0 {
        lemma_lookup_missing(v.drop_first(), k);
    }
}

/// Replacing the value of the first pair keyed `k` replaces the value of `k` alone.
pub proof fn lemma_map_update<V>(v: Seq<(String, V)>, i: int, val: V)
    requires
        0 <= i < v.len(),
        forall|j: int| 0 <= j < i ==> v[j].0@ != v[i].0@,
    ensures
        lookup_map(v.update(i, (v[i].0, val))) == lookup_map(v).insert(v[i].0@, val),
{
    assert forall|k: Seq<char>| true implies lookup(v.update(i, (v[i].0, val)), k) == if k
        == v[i].0@ {
        Some(val)
    } else {
        lookup(v, k)
    } by {
        lemma_lookup_update(v, i, val, k);
    }
    assert(lookup_map(v.update(i, (v[i].0, val))) =~= lookup_map(v).insert(v[i].0@, val));
}

proof fn lemma_lookup_update<V>(v: Seq<(String, V)>, i: int, val: V, k: Seq<char>)
    requires
        0 <= i < v.len(),
        forall|j: int| 0 <= j < i ==> v[j].0@ != v[i].0@,
    ensures
        lookup(v.update(i, (v[i].0, val)), k) == if k == v[i].0@ {
            Some(val)
        } else {
            lookup(v, k)
        },
    decreases i,
{
    let w = v.update(i, (v[i].0, val));
    if i == 0 {
        assert(w.drop_first() =~= v.drop_first());
    } else {
        assert(w.drop_first() =~= v.drop_first().update(i - 1, (v[i].0, val)));
        lemma_lookup_update(v.drop_first(), i - 1, val, k);
    }
}

/// Appending a pair with a new key adds that key alone.
pub proof fn lemma_map_push<V>(v: Seq<(String, V)>, x: (String, V))
    requires
        forall|j: int| 0 <= j < v.len() ==> v[j].0@ != x.0@,
    ensures
        lookup_map(v.push(x)) == lookup_map(v).insert(x.0@, x.1),
{
    assert forall|k: Seq<char>| true implies lookup(v.push(x), k) == if k == x.0@ {
        Some(x.1)
    } else {
        lookup(v, k)
    } by {
        lemma_lookup_push(v, x, k);
    }
    assert(lookup_map(v.push(x)) =~= lookup_map(v).insert(x.0@, x.1));
}

proof fn lemma_lookup_push<V>(v: Seq<(String, V)>, x: (String, V), k: Seq<char>)
    requires
        forall|j: int| 0 <= j < v.len() ==> v[j].0@ != x.0@,
    ensures
        lookup(v.push(x), k) == if k == x.0@ {
            Some(x.1)
        } else {
            lookup(v, k)
        },
    decreases v.len(),
{
    if v.len() == 0 {
        assert(v.push(x).drop_first() =~= v);
    } else {
        assert(v.push(x).drop_first() =~= v.drop_first().push(x));
        lemma_lookup_push(v.drop_first(), x, k);
    }
}

/// In a table without repeated keys, removing the pair keyed `k` removes `k` alone.
pub proof fn lemma_map_remove<V>(v: Seq<(String, V)>, i: int)
    requires
        unique_keys(v),
        0 <= i < v.len(),
    ensures
        lookup_map(v.remove(i)) == lookup_map(v).remove(v[i].0@),
        unique_keys(v.remove(i)),
{
    assert forall|k: Seq<char>| true implies lookup(v.remove(i), k) == if k == v[i].0@ {
        None
    } else {
        lookup(v, k)
    } by {
        lemma_lookup_remove(v, i, k);
    }
    assert(lookup_map(v.remove(i)) =~= lookup_map(v).remove(v[i].0@));
    let r = v.remove(i);
    assert forall|a: int, b: int|
        0 <= a < r.len() && 0 <= b < r.len() && a != b implies #[trigger] r[a].0@
        != #[trigger] r[b].0@ by {
        let a2 = if a < i { a } else { a + 1 };
        let b2 = if b < i { b } else { b + 1 };
        assert(r[a] == v[a2]);
        assert(r[b] == v[b2]);
    }
}

proof fn lemma_lookup_remove<V>(v: Seq<(String, V)>, i: int, k: Seq<char>)
    requires
        unique_keys(v),
        0 <= i < v.len(),
    ensures
        lookup(v.remove(i), k) == if k == v[i].0@ {
            None
        } else {
            lookup(v, k)
        },
    decreases i,
{
    let t = v.drop_first();
    assert(unique_keys(t)) by {
        assert forall|a: int, b: int|
            0 <= a < t.len() && 0 <= b < t.len() && a != b implies #[trigger] t[a].0@
            != #[trigger] t[b].0@ by {
            assert(t[a] == v[a + 1] && t[b] == v[b + 1]);
        }
    }
    if i == 0 {
        assert(v.remove(0) =~= t);
        if k == v[0].0@ {
            assert forall|j: int| 0 <= j < t.len() implies t[j].0@ != k by {
                assert(t[j] == v[j + 1]);
            }
            lemma_lookup_missing(t, k);
        }
    } else {
        assert(v.remove(i).drop_first() =~= t.remove(i - 1));
        assert(v.remove(i)[0] == v[0]);
        assert(t[i - 1] == v[i]);
        lemma_lookup_remove(t, i - 1, k);
    }
}

/// The keys of the table, in order.
pub open spec fn keys<V>(v: Seq<(String, V)>) -> Seq<Seq<char>> {
    v.map_values(|p: (String, V)| p.0@)
}

proof fn lemma_lookup_some_iff<V>(v: Seq<(String, V)>, k: Seq<char>)
    ensures
        lookup(v, k) is Some <==> keys(v).contains(k),
    decreases v.len(),
{
    if v.len() > 0 {
        let t = v.drop_first();
        lemma_lookup_some_iff(t, k);
        if keys(t).contains(k) {
            let j = choose|j: int| 0 <= j < keys(t).len() && keys(t)[j] == k;
            assert(keys(v)[j + 1] == k);
        }
        if keys(v).contains(k) && v[0].0@ != k {
            let j = choose|j: int| 0 <= j < keys(v).len() && keys(v)[j] == k;
            assert(j != 0);
            assert(keys(t)[j - 1] == k);
        }
        if v[0].0@ == k {
            assert(keys(v)[0] == k);
        }
    }
}

/// A table without repeated keys holds exactly as many keys as pairs.
pub proof fn lemma_map_size<V>(v: Seq<(String, V)>)
    requires
        unique_keys(v),
    ensures
        lookup_map(v).dom().finite(),
        lookup_map(v).dom().len() == v.len(),
{
    assert forall|k: Seq<char>| #[trigger] lookup_map(v).dom().contains(k) == keys(v).to_set().contains(k) by {
        lemma_lookup_some_iff(v, k);
    }
    assert(lookup_map(v).dom() =~= keys(v).to_set());
    assert(keys(v).no_duplicates()) by {
        assert forall|i: int, j: int| 0 <= i < keys(v).len() && 0 <= j < keys(v).len() && i != j implies keys(v)[i] != keys(v)[j] by {
            assert(v[i].0@ != v[j].0@);
        }
    }
    keys(v).unique_seq_to_set();
    keys(v).lemma_cardinality_of_set();
    vstd::seq_lib::seq_to_set_is_finite(keys(v));
}

/// Where the pair keyed `key` stands.
pub fn position<V>(v: &Vec<(String, V)>, key: &str) -> (r: Option<usize>)
    ensures
        match r {
            Some(i) => {
                &&& i < v@.len()
                &&& v@[i as int].0@ == key@
                &&& forall|j: int| 0 <= j < i ==> v@[j].0@ != key@
                &&& lookup(v@, key@) == Some(v@[i as int].1)
            },
            None => {
                &&& forall|j: int| 0 <= j < v@.len() ==> v@[j].0@ != key@
                &&& lookup(v@, key@) is None
            },
        },
{
    let n = v.len();
    let mut i: usize = 0;
    while i < n
        invariant
            i <= n,
            n == v@.len(),
            forall|j: int| 0 <= j < i ==> v@[j].0@ != key@,
        decreases n - i,
    {
        if str_eq(v[i].0.as_str(), key) {
            proof {
                lemma_lookup_found(v@, i as int, key@);
            }
            return Some(i);
        }
        i = i + 1;
    }
    proof {
        lemma_lookup_missing(v@, key@);
    }
    None
}

} // verus!
