//! Association tables: sequences of key-value entries with unique keys,
//! the mathematical model behind every mapping the ledger holds.

use vstd::prelude::*;

verus! {

/// The value bound to key `k`, scanning from the end so that the most
/// recently appended entry for a key would win.
pub open spec fn table_get<K, V>(s: Seq<(K, V)>, k: K) -> Option<V>
    decreases s.len(),
{
    if s.len() == 0 {
        None
    } else if s.last().0 == k {
        Some(s.last().1)
    } else {
        table_get(s.drop_last(), k)
    }
}

/// No two entries share a key.
pub open spec fn unique_keys<K, V>(s: Seq<(K, V)>) -> bool {
    forall|i: int, j: int| 0 <= i < j < s.len() ==> s[i].0 != s[j].0
}

/// How many entries carry the value `v`.
pub open spec fn count_of<K, V>(s: Seq<(K, V)>, v: V) -> nat
    decreases s.len(),
{
    if s.len() == 0 {
        0
    } else {
        count_of(s.drop_last(), v) + (if s.last().1 == v {
            1nat
        } else {
            0nat
        })
    }
}

/// Dropping the last entry keeps the keys unique.
pub proof fn lemma_unique_drop_last<K, V>(s: Seq<(K, V)>)
    requires
        unique_keys(s),
        s.len() > 0,
    ensures
        unique_keys(s.drop_last()),
{
    assert forall|i: int, j: int| 0 <= i < j < s.drop_last().len() implies s.drop_last()[i].0
        != s.drop_last()[j].0 by {
        assert(s.drop_last()[i] == s[i]);
        assert(s.drop_last()[j] == s[j]);
    }
}

/// When keys are unique, the entry at any index is what the table binds
/// its key to.
pub proof fn lemma_get_at_index<K, V>(s: Seq<(K, V)>, i: int)
    requires
        unique_keys(s),
        0 <= i < s.len(),
    ensures
        table_get(s, s[i].0) == Some(s[i].1),
    decreases s.len(),
{
    if i == s.len() - 1 {
        assert(s.last() == s[i]);
    } else {
        assert(s.last().0 != s[i].0);
        lemma_unique_drop_last(s);
        assert(s.drop_last()[i] == s[i]);
        lemma_get_at_index(s.drop_last(), i);
    }
}

/// A key is bound exactly when some entry carries it, and then an entry
/// holds the bound value.
pub proof fn lemma_get_some_index<K, V>(s: Seq<(K, V)>, k: K)
    ensures
        (table_get(s, k) is Some) <==> exists|i: int| 0 <= i < s.len() && s[i].0 == k,
        table_get(s, k) matches Some(v) ==> exists|i: int| 0 <= i < s.len() && s[i] == (k, v),
    decreases s.len(),
{
    if s.len() == 0 {
    } else if s.last().0 == k {
        assert(s[s.len() - 1] == s.last());
    } else {
        lemma_get_some_index(s.drop_last(), k);
        if exists|i: int| 0 <= i < s.len() && s[i].0 == k {
            let i = choose|i: int| 0 <= i < s.len() && s[i].0 == k;
            assert(i < s.len() - 1);
            assert(s.drop_last()[i] == s[i]);
        }
        if table_get(s, k) is Some {
            let v = table_get(s, k)->Some_0;
            let i = choose|i: int| 0 <= i < s.drop_last().len() && s.drop_last()[i] == (k, v);
            assert(s[i] == (k, v));
        }
    }
}

/// A value bound to some key is counted at least once.
pub proof fn lemma_get_counted<K, V>(s: Seq<(K, V)>, k: K, v: V)
    requires
        table_get(s, k) == Some(v),
    ensures
        count_of(s, v) >= 1,
    decreases s.len(),
{
    if s.len() > 0 && s.last().0 != k {
        lemma_get_counted(s.drop_last(), k, v);
    }
}

/// Appending an entry under a fresh key binds that key, keeps every
/// other key's binding, and raises only the new value's count.
pub proof fn lemma_push_entry<K, V>(s: Seq<(K, V)>, k: K, v: V)
    requires
        unique_keys(s),
        table_get(s, k) is None,
    ensures
        unique_keys(s.push((k, v))),
        table_get(s.push((k, v)), k) == Some(v),
        forall|k2: K| k2 != k ==> table_get(s.push((k, v)), k2) == table_get(s, k2),
        forall|w: V|
            count_of(s.push((k, v)), w) == count_of(s, w) + (if v == w {
                1int
            } else {
                0int
            }),
{
    let t = s.push((k, v));
    lemma_get_some_index(s, k);
    assert(t.drop_last() =~= s);
    assert(t.last() == (k, v));
    assert forall|i: int, j: int| 0 <= i < j < t.len() implies t[i].0 != t[j].0 by {
        if j == t.len() - 1 {
            assert(t[i] == s[i]);
        }
    }
}

/// Removing the entry at `i` unbinds its key, keeps every other key's
/// binding, and lowers only its value's count.
pub proof fn lemma_remove_entry<K, V>(s: Seq<(K, V)>, i: int)
    requires
        unique_keys(s),
        0 <= i < s.len(),
    ensures
        unique_keys(s.remove(i)),
        table_get(s.remove(i), s[i].0) is None,
        forall|k: K| k != s[i].0 ==> table_get(s.remove(i), k) == table_get(s, k),
        forall|v: V|
            count_of(s.remove(i), v) == count_of(s, v) - (if s[i].1 == v {
                1int
            } else {
                0int
            }),
    decreases s.len(),
{
    let r = s.remove(i);
    assert forall|a: int, b: int| 0 <= a < b < r.len() implies r[a].0 != r[b].0 by {
        let a2: int = if a < i { a } else { a + 1 };
        let b2: int = if b < i { b } else { b + 1 };
        assert(r[a] == s[a2]);
        assert(r[b] == s[b2]);
    }
    if i == s.len() - 1 {
        assert(r =~= s.drop_last());
        lemma_get_some_index(s.drop_last(), s[i].0);
        assert forall|j: int| 0 <= j < s.drop_last().len() implies s.drop_last()[j].0 != s[i].0 by {
            assert(s.drop_last()[j] == s[j]);
        }
        assert(table_get(r, s[i].0) is None);
        assert(s.last() == s[i]);
    } else {
        lemma_unique_drop_last(s);
        lemma_remove_entry(s.drop_last(), i);
        assert(r.drop_last() =~= s.drop_last().remove(i));
        assert(r.last() == s.last());
        assert(s.drop_last()[i] == s[i]);
        assert(s.last().0 != s[i].0);
        assert(table_get(r, s[i].0) == table_get(r.drop_last(), s[i].0));
        assert forall|k: K| k != s[i].0 implies table_get(r, k) == table_get(s, k) by {
            if k == s.last().0 {
                assert(table_get(r, k) == Some(r.last().1));
                assert(table_get(s, k) == Some(s.last().1));
            } else {
                assert(table_get(r, k) == table_get(r.drop_last(), k));
                assert(table_get(s, k) == table_get(s.drop_last(), k));
            }
        }
        assert forall|v: V|
            count_of(r, v) == count_of(s, v) - (if s[i].1 == v {
                1int
            } else {
                0int
            }) by {
            assert(count_of(r, v) == count_of(r.drop_last(), v) + (if r.last().1 == v {
                1int
            } else {
                0int
            }));
            assert(count_of(s, v) == count_of(s.drop_last(), v) + (if s.last().1 == v {
                1int
            } else {
                0int
            }));
        }
    }
}

/// Overwriting the value of the entry at `i` rebinds only that entry's
/// key; counts shift from the old value to the new one.
pub proof fn lemma_update_value<K, V>(s: Seq<(K, V)>, i: int, v: V)
    requires
        unique_keys(s),
        0 <= i < s.len(),
    ensures
        unique_keys(s.update(i, (s[i].0, v))),
        table_get(s.update(i, (s[i].0, v)), s[i].0) == Some(v),
        forall|k: K| k != s[i].0 ==> table_get(s.update(i, (s[i].0, v)), k) == table_get(s, k),
        forall|w: V|
            count_of(s.update(i, (s[i].0, v)), w) == count_of(s, w) - (if s[i].1 == w {
                1int
            } else {
                0int
            }) + (if v == w {
                1int
            } else {
                0int
            }),
    decreases s.len(),
{
    let u = s.update(i, (s[i].0, v));
    assert forall|a: int, b: int| 0 <= a < b < u.len() implies u[a].0 != u[b].0 by {
        assert(u[a].0 == s[a].0);
        assert(u[b].0 == s[b].0);
    }
    if i == s.len() - 1 {
        assert(u.drop_last() =~= s.drop_last());
        assert(u.last() == (s[i].0, v));
        assert(s.last() == s[i]);
    } else {
        lemma_unique_drop_last(s);
        assert(s.drop_last()[i] == s[i]);
        lemma_update_value(s.drop_last(), i, v);
        assert(u.drop_last() =~= s.drop_last().update(i, (s[i].0, v)));
        assert(u.last() == s.last());
        assert(s.last().0 != s[i].0);
        assert forall|k: K| k != s[i].0 implies table_get(u, k) == table_get(s, k) by {
            if k != s.last().0 {
                assert(table_get(u, k) == table_get(u.drop_last(), k));
                assert(table_get(s, k) == table_get(s.drop_last(), k));
            }
        }
        assert forall|w: V|
            count_of(u, w) == count_of(s, w) - (if s[i].1 == w {
                1int
            } else {
                0int
            }) + (if v == w {
                1int
            } else {
                0int
            }) by {
            assert(count_of(u, w) == count_of(u.drop_last(), w) + (if u.last().1 == w {
                1int
            } else {
                0int
            }));
            assert(count_of(s, w) == count_of(s.drop_last(), w) + (if s.last().1 == w {
                1int
            } else {
                0int
            }));
        }
    }
}

/// With unique keys, the keys bound to a value form a finite set whose
/// size is that value's count.
pub proof fn lemma_count_is_key_set_len<K, V>(s: Seq<(K, V)>, v: V)
    requires
        unique_keys(s),
    ensures
        Set::new(|k: K| table_get(s, k) == Some(v)).finite(),
        Set::new(|k: K| table_get(s, k) == Some(v)).len() == count_of(s, v),
    decreases s.len(),
{
    broadcast use vstd::set::group_set_axioms;

    let owned = Set::new(|k: K| table_get(s, k) == Some(v));
    if s.len() == 0 {
        assert(owned =~= Set::<K>::empty());
    } else {
        let s1 = s.drop_last();
        let lk = s.last().0;
        lemma_unique_drop_last(s);
        lemma_count_is_key_set_len(s1, v);
        let owned1 = Set::new(|k: K| table_get(s1, k) == Some(v));
        lemma_get_some_index(s1, lk);
        assert forall|j: int| 0 <= j < s1.len() implies s1[j].0 != lk by {
            assert(s1[j] == s[j]);
            assert(s.last() == s[s.len() - 1]);
        }
        assert(table_get(s1, lk) is None);
        if s.last().1 == v {
            assert(owned =~= owned1.insert(lk));
            assert(!owned1.contains(lk));
            vstd::set::axiom_set_insert_len(owned1, lk);
        } else {
            assert(owned =~= owned1);
        }
    }
}

} // verus!
