//! Association lists with unique keys, the shape of every mapping in a
//! request snapshot. The mathematical content of such a list is the map it
//! folds to, with a later entry for a key overriding an earlier one.

use vstd::prelude::*;

verus! {

/// The map an association list denotes; a later entry wins.
pub open spec fn amap<K, V>(es: Seq<(K, V)>) -> Map<K, V>
    decreases es.len(),
{
    if es.len() == 0 {
        Map::empty()
    } else {
        amap(es.drop_last()).insert(es.last().0, es.last().1)
    }
}

/// No key occurs twice.
pub open spec fn akeys_unique<K, V>(es: Seq<(K, V)>) -> bool {
    forall|i: int, j: int| 0 <= i < j < es.len() ==> (#[trigger] es[i]).0 != (#[trigger] es[j]).0
}

/// The denoted map's domain is exactly the set of listed keys.
pub proof fn lemma_amap_dom<K, V>(es: Seq<(K, V)>, k: K)
    ensures
        amap(es).dom().contains(k) <==> exists|i: int|
            0 <= i < es.len() && (#[trigger] es[i]).0 == k,
    decreases es.len(),
{
    if es.len() > 0 {
        lemma_amap_dom(es.drop_last(), k);
        if amap(es).dom().contains(k) {
            if es.last().0 == k {
                assert(es[es.len() - 1].0 == k);
            } else {
                let i = choose|i: int| 0 <= i < es.drop_last().len() && (#[trigger] es.drop_last()[i]).0 == k;
                assert(es[i].0 == k);
            }
        }
        if exists|i: int| 0 <= i < es.len() && (#[trigger] es[i]).0 == k {
            let i = choose|i: int| 0 <= i < es.len() && (#[trigger] es[i]).0 == k;
            if i < es.len() - 1 {
                assert(es.drop_last()[i].0 == k);
            }
        }
    }
}

/// Appending one entry denotes one insertion.
pub proof fn lemma_amap_push<K, V>(es: Seq<(K, V)>, k: K, v: V)
    ensures
        amap(es.push((k, v))) == amap(es).insert(k, v),
{
    assert(es.push((k, v)).drop_last() =~= es);
}

/// With unique keys, looking a listed key up in the denoted map gives the
/// listed value.
pub proof fn lemma_amap_lookup<K, V>(es: Seq<(K, V)>, i: int)
    requires
        akeys_unique(es),
        0 <= i < es.len(),
    ensures
        amap(es).dom().contains(es[i].0),
        amap(es)[es[i].0] == es[i].1,
    decreases es.len(),
{
    if i == es.len() - 1 {
        lemma_amap_dom(es, es[i].0);
    } else {
        lemma_amap_lookup(es.drop_last(), i);
        assert(es.drop_last()[i] == es[i]);
        assert(es[i].0 != es.last().0);
    }
}

/// With unique keys, removing a listed entry removes exactly its key from
/// the denoted map.
pub proof fn lemma_amap_remove<K, V>(es: Seq<(K, V)>, i: int)
    requires
        akeys_unique(es),
        0 <= i < es.len(),
    ensures
        amap(es.remove(i)) == amap(es).remove(es[i].0),
    decreases es.len(),
{
    let k = es[i].0;
    if i == es.len() - 1 {
        assert(es.remove(i) =~= es.drop_last());
        lemma_amap_dom(es.drop_last(), k);
        assert(forall|j: int| 0 <= j < es.drop_last().len() ==> (#[trigger] es.drop_last()[j]).0 != k);
        assert(amap(es.drop_last()).insert(k, es.last().1).remove(k) =~= amap(es.drop_last()));
    } else {
        assert(es.remove(i).drop_last() =~= es.drop_last().remove(i));
        assert(es.remove(i).last() == es.last());
        lemma_amap_remove(es.drop_last(), i);
        assert(es.drop_last()[i] == es[i]);
        assert(k != es.last().0);
        assert(amap(es.drop_last()).remove(k).insert(es.last().0, es.last().1) =~= amap(
            es.drop_last(),
        ).insert(es.last().0, es.last().1).remove(k));
    }
}

/// Replacing a listed key's entry (moving it to the end) denotes one
/// insertion over that key.
pub proof fn lemma_amap_replace<K, V>(es: Seq<(K, V)>, i: int, v: V)
    requires
        akeys_unique(es),
        0 <= i < es.len(),
    ensures
        amap(es.remove(i).push((es[i].0, v))) == amap(es).insert(es[i].0, v),
        akeys_unique(es.remove(i).push((es[i].0, v))),
{
    let k = es[i].0;
    lemma_amap_remove(es, i);
    lemma_amap_push(es.remove(i), k, v);
    assert(amap(es).remove(k).insert(k, v) =~= amap(es).insert(k, v));
    let res = es.remove(i).push((k, v));
    assert forall|a: int, b: int| 0 <= a < b < res.len() implies (#[trigger] res[a]).0 != (
    #[trigger] res[b]).0 by {
        if b == res.len() - 1 {
            let a0 = if a < i {
                a
            } else {
                a + 1
            };
            assert(res[a] == es[a0]);
        } else {
            let a0 = if a < i {
                a
            } else {
                a + 1
            };
            let b0 = if b < i {
                b
            } else {
                b + 1
            };
            assert(res[a] == es[a0] && res[b] == es[b0]);
        }
    }
}

} // verus!
