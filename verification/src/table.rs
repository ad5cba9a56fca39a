//! A table as a list of keys and a list of values: the map that the two
//! lists stand for while no key occurs twice, and what pushing, replacing
//! and removing an entry does to that map.

use vstd::prelude::*;

verus! {

/// No key occurs twice in `keys`.
pub open spec fn distinct(keys: Seq<Seq<char>>) -> bool {
    forall|i: int, j: int| 0 <= i < j < keys.len() ==> keys[i] != keys[j]
}

/// The map that a list of keys and the list of their values stand for.
pub open spec fn table<V>(keys: Seq<Seq<char>>, vals: Seq<V>) -> Map<Seq<char>, V> {
    Map::new(
        |k: Seq<char>| exists|i: int| 0 <= i < keys.len() && keys[i] == k,
        |k: Seq<char>| vals[choose|i: int| 0 <= i < keys.len() && keys[i] == k],
    )
}

pub(crate) proof fn lemma_table_at<V>(keys: Seq<Seq<char>>, vals: Seq<V>, i: int)
    requires
        distinct(keys),
        keys.len() == vals.len(),
        0 <= i < keys.len(),
    ensures
        table(keys, vals).contains_key(keys[i]),
        table(keys, vals)[keys[i]] == vals[i],
{
    let j = choose|j: int| 0 <= j < keys.len() && keys[j] == keys[i];
    assert(j == i);
}

pub(crate) proof fn lemma_table_absent<V>(keys: Seq<Seq<char>>, vals: Seq<V>, k: Seq<char>)
    requires
        forall|i: int| 0 <= i < keys.len() ==> keys[i] != k,
    ensures
        !table(keys, vals).contains_key(k),
{
}

pub(crate) proof fn lemma_table_push<V>(keys: Seq<Seq<char>>, vals: Seq<V>, k: Seq<char>, v: V)
    requires
        distinct(keys),
        keys.len() == vals.len(),
        forall|i: int| 0 <= i < keys.len() ==> keys[i] != k,
    ensures
        distinct(keys.push(k)),
        table(keys.push(k), vals.push(v)) == table(keys, vals).insert(k, v),
{
    let keys2 = keys.push(k);
    let vals2 = vals.push(v);
    assert forall|x: Seq<char>| #[trigger]
        table(keys2, vals2).contains_key(x) <==> table(keys, vals).insert(k, v).contains_key(
            x,
        ) by {
        if table(keys2, vals2).contains_key(x) {
            let i = choose|i: int| 0 <= i < keys2.len() && keys2[i] == x;
            if i < keys.len() {
                assert(keys[i] == x);
            }
        }
        if table(keys, vals).contains_key(x) {
            let i = choose|i: int| 0 <= i < keys.len() && keys[i] == x;
            assert(keys2[i] == x);
        }
        if x == k {
            assert(keys2[keys.len() as int] == x);
        }
    }
    assert forall|x: Seq<char>| #[trigger]
        table(keys2, vals2).contains_key(x) implies table(keys2, vals2)[x] == table(
        keys,
        vals,
    ).insert(k, v)[x] by {
        let i = choose|i: int| 0 <= i < keys2.len() && keys2[i] == x;
        lemma_table_at(keys2, vals2, i);
        if i < keys.len() {
            lemma_table_at(keys, vals, i);
        }
    }
    assert(table(keys2, vals2) =~= table(keys, vals).insert(k, v));
}

pub(crate) proof fn lemma_table_update<V>(keys: Seq<Seq<char>>, vals: Seq<V>, i: int, v: V)
    requires
        distinct(keys),
        keys.len() == vals.len(),
        0 <= i < keys.len(),
    ensures
        table(keys, vals.update(i, v)) == table(keys, vals).insert(keys[i], v),
{
    let vals2 = vals.update(i, v);
    assert forall|x: Seq<char>| #[trigger]
        table(keys, vals2).contains_key(x) implies table(keys, vals2)[x] == table(
        keys,
        vals,
    ).insert(keys[i], v)[x] by {
        let j = choose|j: int| 0 <= j < keys.len() && keys[j] == x;
        lemma_table_at(keys, vals2, j);
        lemma_table_at(keys, vals, j);
    }
    assert(table(keys, vals).contains_key(keys[i]));
    assert(table(keys, vals2) =~= table(keys, vals).insert(keys[i], v));
}

pub(crate) proof fn lemma_table_remove<V>(keys: Seq<Seq<char>>, vals: Seq<V>, i: int)
    requires
        distinct(keys),
        keys.len() == vals.len(),
        0 <= i < keys.len(),
    ensures
        distinct(keys.remove(i)),
        table(keys.remove(i), vals.remove(i)) == table(keys, vals).remove(keys[i]),
{
    let keys2 = keys.remove(i);
    let vals2 = vals.remove(i);
    assert forall|a: int, b: int| 0 <= a < b < keys2.len() implies keys2[a] != keys2[b] by {
        let a1 = if a < i { a } else { a + 1 };
        let b1 = if b < i { b } else { b + 1 };
        assert(keys2[a] == keys[a1] && keys2[b] == keys[b1]);
    }
    assert forall|x: Seq<char>| #[trigger]
        table(keys2, vals2).contains_key(x) <==> table(keys, vals).remove(keys[i]).contains_key(
            x,
        ) by {
        if table(keys2, vals2).contains_key(x) {
            let j = choose|j: int| 0 <= j < keys2.len() && keys2[j] == x;
            let j1 = if j < i { j } else { j + 1 };
            assert(keys[j1] == x);
        }
        if table(keys, vals).remove(keys[i]).contains_key(x) {
            let j = choose|j: int| 0 <= j < keys.len() && keys[j] == x;
            let j2 = if j < i { j } else { j - 1 };
            assert(keys2[j2] == x);
        }
    }
    assert forall|x: Seq<char>| #[trigger]
        table(keys2, vals2).contains_key(x) implies table(keys2, vals2)[x] == table(
        keys,
        vals,
    ).remove(keys[i])[x] by {
        let j = choose|j: int| 0 <= j < keys2.len() && keys2[j] == x;
        let j1 = if j < i { j } else { j + 1 };
        lemma_table_at(keys2, vals2, j);
        lemma_table_at(keys, vals, j1);
    }
    assert(table(keys2, vals2) =~= table(keys, vals).remove(keys[i]));
}

pub(crate) proof fn lemma_table_len<V>(keys: Seq<Seq<char>>, vals: Seq<V>)
    requires
        distinct(keys),
        keys.len() == vals.len(),
    ensures
        table(keys, vals).dom().finite(),
        table(keys, vals).len() == keys.len(),
    decreases keys.len(),
{
    if keys.len() == 0 {
        assert(table(keys, vals) =~= Map::<Seq<char>, V>::empty());
    } else {
        let k = keys.drop_last();
        let v = vals.drop_last();
        lemma_table_len(k, v);
        lemma_table_push(k, v, keys.last(), vals.last());
        assert(k.push(keys.last()) =~= keys);
        assert(v.push(vals.last()) =~= vals);
        lemma_table_absent(k, v, keys.last());
    }
}

} // verus!
