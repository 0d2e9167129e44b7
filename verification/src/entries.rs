//! Ordered key/value sequences: the mathematical model of the insertion-ordered
//! maps that hold projects, environments and secrets.

use vstd::prelude::*;

verus! {

/// The secrets of one environment, in insertion order.
pub type SecretsModel = Seq<(Seq<char>, Seq<char>)>;

/// The environments of one project, in insertion order.
pub type EnvsModel = Seq<(Seq<char>, SecretsModel)>;

/// A project: its default environment, its folder, and its environments.
pub type ProjectModel = (Option<Seq<char>>, Option<Seq<char>>, EnvsModel);

/// The whole store: its projects, in insertion order.
pub type StoreModel = Seq<(Seq<char>, ProjectModel)>;

/// Position of the first entry whose key is `k`.
pub open spec fn find_key<V>(es: Seq<(Seq<char>, V)>, k: Seq<char>) -> Option<int>
    decreases es.len(),
{
    if es.len() == 0 {
        None
    } else {
        match find_key(es.drop_last(), k) {
            Some(i) => Some(i),
            None => if es.last().0 == k {
                Some(es.len() - 1)
            } else {
                None
            },
        }
    }
}

/// Whether some entry has key `k`.
pub open spec fn has_key<V>(es: Seq<(Seq<char>, V)>, k: Seq<char>) -> bool {
    exists|i: int| 0 <= i < es.len() && (#[trigger] es[i]).0 == k
}

/// The value stored under `k`, if any.
pub open spec fn lookup<V>(es: Seq<(Seq<char>, V)>, k: Seq<char>) -> Option<V> {
    match find_key(es, k) {
        Some(i) => Some(es[i].1),
        None => None,
    }
}

/// Inserting `k`: an existing key keeps its place and takes the new value; a
/// new key goes last.
pub open spec fn insert_entry<V>(es: Seq<(Seq<char>, V)>, k: Seq<char>, v: V) -> Seq<(Seq<char>, V)> {
    match find_key(es, k) {
        Some(i) => es.update(i, (k, v)),
        None => es.push((k, v)),
    }
}

/// Removing `k`: every other entry stays, in order.
pub open spec fn remove_key<V>(es: Seq<(Seq<char>, V)>, k: Seq<char>) -> Seq<(Seq<char>, V)>
    decreases es.len(),
{
    if es.len() == 0 {
        es
    } else if es.last().0 == k {
        remove_key(es.drop_last(), k)
    } else {
        remove_key(es.drop_last(), k).push(es.last())
    }
}

/// The keys, in order.
pub open spec fn keys_of<V>(es: Seq<(Seq<char>, V)>) -> Seq<Seq<char>> {
    es.map_values(|e: (Seq<char>, V)| e.0)
}

/// No key occurs twice.
pub open spec fn unique_keys<V>(es: Seq<(Seq<char>, V)>) -> bool {
    forall|i: int, j: int| 0 <= i < j < es.len() ==> (#[trigger] es[i]).0 != (#[trigger] es[j]).0
}

pub proof fn lemma_find_key<V>(es: Seq<(Seq<char>, V)>, k: Seq<char>)
    ensures
        match find_key(es, k) {
            Some(i) => 0 <= i < es.len() && es[i].0 == k && forall|j: int| 0 <= j < i ==> (#[trigger] es[j]).0 != k,
            None => forall|j: int| 0 <= j < es.len() ==> (#[trigger] es[j]).0 != k,
        },
        find_key(es, k) is Some <==> has_key(es, k),
    decreases es.len(),
{
    if es.len() > 0 {
        let p = es.drop_last();
        lemma_find_key(p, k);
        assert forall|j: int| 0 <= j < es.len() - 1 implies es[j] == (#[trigger] p[j]) by {}
        match find_key(p, k) {
            Some(i) => {
                assert(es[i] == p[i]);
                assert forall|j: int| 0 <= j < i implies (#[trigger] es[j]).0 != k by {
                    assert(es[j] == p[j]);
                }
            }
            None => {
                assert(es[es.len() - 1] == es.last());
                assert forall|j: int| 0 <= j < es.len() - 1 implies (#[trigger] es[j]).0 != k by {
                    assert(es[j] == p[j]);
                }
            }
        }
    }
    match find_key(es, k) {
        Some(i) => {
            assert(es[i].0 == k);
        }
        None => {}
    }
}

pub proof fn lemma_find_key_push<V>(es: Seq<(Seq<char>, V)>, k: Seq<char>, e: (Seq<char>, V))
    ensures
        find_key(es.push(e), k) == (match find_key(es, k) {
            Some(i) => Some(i),
            None => if e.0 == k { Some(es.len() as int) } else { None },
        }),
{
    assert(es.push(e).drop_last() =~= es);
}

pub proof fn lemma_lookup_push<V>(es: Seq<(Seq<char>, V)>, k: Seq<char>, e: (Seq<char>, V))
    ensures
        lookup(es.push(e), k) == (match lookup(es, k) {
            Some(v) => Some(v),
            None => if e.0 == k { Some(e.1) } else { None },
        }),
{
    lemma_find_key_push(es, k, e);
    lemma_find_key(es, k);
    match find_key(es, k) {
        Some(i) => { assert(es.push(e)[i] == es[i]); }
        None => {}
    }
}

pub proof fn lemma_insert_entry<V>(es: Seq<(Seq<char>, V)>, k: Seq<char>, v: V)
    ensures
        lookup(insert_entry(es, k, v), k) == Some(v),
        forall|k2: Seq<char>| k2 != k ==> #[trigger] lookup(insert_entry(es, k, v), k2) == lookup(es, k2),
        has_key(es, k) ==> insert_entry(es, k, v).len() == es.len(),
        !has_key(es, k) ==> insert_entry(es, k, v).len() == es.len() + 1,
        keys_of(insert_entry(es, k, v)) == (if has_key(es, k) { keys_of(es) } else { keys_of(es).push(k) }),
        unique_keys(es) ==> unique_keys(insert_entry(es, k, v)),
{
    lemma_find_key(es, k);
    let r = insert_entry(es, k, v);
    lemma_find_key(r, k);
    match find_key(es, k) {
        Some(i) => {
            assert(r[i].0 == k);
            assert forall|k2: Seq<char>| k2 != k implies #[trigger] lookup(r, k2) == lookup(es, k2) by {
                lemma_find_key(es, k2);
                lemma_find_key(r, k2);
                assert(keys_of(r) =~= keys_of(es));
                match find_key(es, k2) {
                    Some(a) => {
                        assert(r[a].0 == k2);
                        let b = find_key(r, k2).unwrap();
                        assert(r[b].0 == es[b].0);
                    }
                    None => {
                        if find_key(r, k2) is Some {
                            let b = find_key(r, k2).unwrap();
                            assert(r[b].0 == es[b].0);
                        }
                    }
                }
            }
            assert(keys_of(r) =~= keys_of(es));
        }
        None => {
            lemma_find_key_push(es, k, (k, v));
            assert forall|k2: Seq<char>| k2 != k implies #[trigger] lookup(r, k2) == lookup(es, k2) by {
                lemma_find_key_push(es, k2, (k, v));
                lemma_find_key(es, k2);
            }
            assert(keys_of(r) =~= keys_of(es).push(k));
        }
    }
}

pub proof fn lemma_remove_key<V>(es: Seq<(Seq<char>, V)>, k: Seq<char>)
    ensures
        !has_key(remove_key(es, k), k),
        lookup(remove_key(es, k), k) is None,
        forall|k2: Seq<char>| k2 != k ==> #[trigger] lookup(remove_key(es, k), k2) == lookup(es, k2),
        remove_key(es, k).len() <= es.len(),
        has_key(es, k) ==> remove_key(es, k).len() < es.len(),
        !has_key(es, k) ==> remove_key(es, k) == es,
        unique_keys(es) ==> unique_keys(remove_key(es, k)),
    decreases es.len(),
{
    let r = remove_key(es, k);
    if es.len() > 0 {
        let p = es.drop_last();
        let rp = remove_key(p, k);
        lemma_remove_key(p, k);
        lemma_find_key(r, k);
        assert(p.push(es.last()) =~= es);
        assert forall|k2: Seq<char>| k2 != k implies #[trigger] lookup(r, k2) == lookup(es, k2) by {
            lemma_lookup_push(p, k2, es.last());
            if es.last().0 != k {
                lemma_lookup_push(rp, k2, es.last());
            }
        }
        lemma_lookup_push(rp, k, es.last());
        if has_key(es, k) {
            let i = choose|i: int| 0 <= i < es.len() && (#[trigger] es[i]).0 == k;
            if i < es.len() - 1 {
                assert(es[i] == p[i]);
            }
        }
        if !has_key(es, k) {
            assert forall|i: int| 0 <= i < p.len() implies (#[trigger] p[i]).0 != k by {
                assert(es[i].0 != k);
            }
            assert(es.last().0 != k);
            assert(p.push(es.last()) =~= es);
        }
        if unique_keys(es) {
            assert forall|i: int, j: int| 0 <= i < j < p.len() implies (#[trigger] p[i]).0 != (#[trigger] p[j]).0 by {
                assert(es[i] == p[i]);
                assert(es[j] == p[j]);
            }
            if es.last().0 != k {
                assert forall|i: int, j: int| 0 <= i < j < r.len() implies (#[trigger] r[i]).0 != (#[trigger] r[j]).0 by {
                    if j == r.len() - 1 {
                        lemma_remove_sub(p, k, i);
                        let a = choose|a: int| 0 <= a < p.len() && p[a] == rp[i];
                        assert(es[a] == p[a]);
                        assert(es[es.len() - 1] == es.last());
                    } else {
                        assert(r[i] == rp[i] && r[j] == rp[j]);
                    }
                }
            }
        }
    }
}

/// Every entry that survives a removal was there before.
pub proof fn lemma_remove_sub<V>(es: Seq<(Seq<char>, V)>, k: Seq<char>, i: int)
    requires
        0 <= i < remove_key(es, k).len(),
    ensures
        exists|a: int| 0 <= a < es.len() && es[a] == remove_key(es, k)[i],
    decreases es.len(),
{
    let p = es.drop_last();
    let rp = remove_key(p, k);
    if es.last().0 == k {
        lemma_remove_sub(p, k, i);
        let a = choose|a: int| 0 <= a < p.len() && p[a] == rp[i];
        assert(es[a] == p[a]);
    } else if i < rp.len() {
        lemma_remove_sub(p, k, i);
        let a = choose|a: int| 0 <= a < p.len() && p[a] == rp[i];
        assert(es[a] == p[a]);
    } else {
        assert(es[es.len() - 1] == remove_key(es, k)[i]);
    }
}

/// Writing back the value a key already has changes nothing.
pub proof fn lemma_insert_same<V>(es: Seq<(Seq<char>, V)>, k: Seq<char>, v: V)
    requires
        lookup(es, k) == Some(v),
    ensures
        insert_entry(es, k, v) == es,
{
    lemma_find_key(es, k);
    let i = find_key(es, k).unwrap();
    assert(es.update(i, (k, v)) =~= es);
}

/// Writing a key twice leaves the second value.
pub proof fn lemma_insert_twice<V>(es: Seq<(Seq<char>, V)>, k: Seq<char>, a: V, b: V)
    ensures
        insert_entry(insert_entry(es, k, a), k, b) == insert_entry(es, k, b),
        lookup(insert_entry(es, k, a), k) == Some(a),
{
    lemma_find_key(es, k);
    let e1 = insert_entry(es, k, a);
    lemma_find_key(e1, k);
    match find_key(es, k) {
        Some(i) => {
            assert(e1[i].0 == k);
            assert(e1.update(i, (k, b)) =~= es.update(i, (k, b)));
        }
        None => {
            lemma_find_key_push(es, k, (k, a));
            assert(e1.update(es.len() as int, (k, b)) =~= es.push((k, b)));
        }
    }
}

} // verus!
