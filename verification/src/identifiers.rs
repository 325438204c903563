//! What is asked of the identifiers of rectangles, bins and groups, and the order in
//! which a map keyed by them is walked.

use core::cmp::Ordering;
use std::collections::BTreeMap;
use vstd::laws_cmp::obeys_cmp;
use vstd::laws_cmp::obeys_cmp_ord;
use vstd::laws_cmp::obeys_cmp_partial_ord;
use vstd::laws_cmp::obeys_partial_cmp_spec_properties;
use vstd::pervasive::strictly_cloned;
use vstd::prelude::*;
use vstd::std_specs::btree::increasing_seq;
use vstd::std_specs::cmp::OrdSpec;
use vstd::std_specs::cmp::PartialOrdSpec;
use vstd::std_specs::iter::IteratorSpec;

verus! {

broadcast use vstd::std_specs::btree::group_btree_axioms;

/// The comparison of `T` is a total order that agrees with its equality.
pub open spec fn is_ordered<T: Ord>() -> bool {
    obeys_cmp::<T>()
}

/// Whether `T` can serve as an identifier: its comparison is a total order in which
/// only a value itself compares equal to it, and a clone of a value is that value.
pub open spec fn is_identifier<T: Ord + Clone>() -> bool {
    &&& is_ordered::<T>()
    &&& forall|a: T, b: T| #[trigger] a.cmp_spec(&b) is Equal <==> a == b
    &&& forall|a: T, b: T| #[trigger] strictly_cloned(a, b) ==> a == b
}

/// Whether two identifiers are the same.
pub fn same<T: Ord + Clone>(a: &T, b: &T) -> (equal: bool)
    requires
        is_identifier::<T>(),
    ensures
        equal == (*a == *b),
{
    reveal(obeys_cmp_ord);
    reveal(obeys_cmp_partial_ord);
    match a.cmp(b) {
        Ordering::Equal => true,
        _ => false,
    }
}

/// The keys of `map` from the smallest to the largest: the order in which an ordered
/// map is walked.
pub open spec fn keys_in_order<K, V>(map: Map<K, V>) -> Seq<K> {
    choose|keys: Seq<K>| increasing_seq(keys) && keys.to_set() == map.dom()
}

/// A copy of an identifier.
pub fn duplicate<T: Ord + Clone>(id: &T) -> (copy: T)
    requires
        is_identifier::<T>(),
    ensures
        copy == *id,
{
    let copy = id.clone();
    assert(strictly_cloned(*id, copy));
    copy
}

/// The keys of an ordered map, from the smallest to the largest.
pub fn keys_of<K: Ord + Clone, V>(map: &BTreeMap<K, V>) -> (keys: Vec<K>)
    requires
        is_identifier::<K>(),
    ensures
        keys@ == keys_in_order(map@),
        increasing_seq(keys@),
        keys@.to_set() == map@.dom(),
{
    let mut keys: Vec<K> = Vec::new();
    let walk = map.keys();
    for key in it: walk
        invariant
            is_identifier::<K>(),
            keys@.len() == it.index(),
            forall|j: int| 0 <= j < keys@.len() ==> keys@[j] == *it.seq()[j],
    {
        keys.push(duplicate(key));
    }
    proof {
        lemma_keys_of_ordered_map(map);
        assert(keys@ =~= walk.remaining().unref());
    }
    keys
}

/// No value is smaller than itself, and what is smaller than a smaller value is smaller.
pub proof fn lemma_less_is_a_strict_order<K: Ord>()
    requires
        is_ordered::<K>(),
    ensures
        forall|x: K| !(#[trigger] x.cmp_spec(&x) is Less),
        forall|x: K, y: K, z: K|
            #[trigger] x.cmp_spec(&y) is Less && #[trigger] y.cmp_spec(&z) is Less ==> x.cmp_spec(
                &z,
            ) is Less,
{
    reveal(obeys_partial_cmp_spec_properties);
    reveal(obeys_cmp_partial_ord);
    reveal(obeys_cmp_ord);
    assert forall|x: K| !(#[trigger] x.cmp_spec(&x) is Less) by {
        assert(x.partial_cmp_spec(&x) == Some(x.cmp_spec(&x)));
    }
    assert forall|x: K, y: K, z: K|
        #[trigger] x.cmp_spec(&y) is Less && #[trigger] y.cmp_spec(&z) is Less implies x.cmp_spec(
            &z,
        ) is Less by {
        assert(x.partial_cmp_spec(&y) == Some(x.cmp_spec(&y)));
        assert(y.partial_cmp_spec(&z) == Some(y.cmp_spec(&z)));
        assert(x.partial_cmp_spec(&z) == Some(x.cmp_spec(&z)));
    }
}

/// In a list that goes up, no value stands at two places.
pub proof fn lemma_increasing_has_no_duplicates<K: Ord>(keys: Seq<K>)
    requires
        is_ordered::<K>(),
        increasing_seq(keys),
    ensures
        keys.no_duplicates(),
{
    lemma_less_is_a_strict_order::<K>();
    assert forall|i: int, j: int| 0 <= i < keys.len() && 0 <= j < keys.len() && i != j implies keys[i]
        != keys[j] by {
        if i < j {
            assert(keys[i].cmp_spec(&keys[j]) is Less);
        } else {
            assert(keys[j].cmp_spec(&keys[i]) is Less);
        }
    }
}

/// Two lists that go up and hold the same values are the same list.
pub proof fn lemma_increasing_is_unique<K: Ord>(a: Seq<K>, b: Seq<K>)
    requires
        is_ordered::<K>(),
        increasing_seq(a),
        increasing_seq(b),
        a.to_set() == b.to_set(),
    ensures
        a == b,
    decreases a.len(),
{
    lemma_less_is_a_strict_order::<K>();
    lemma_increasing_has_no_duplicates(a);
    lemma_increasing_has_no_duplicates(b);
    if a.len() == 0 {
        if b.len() > 0 {
            assert(b.contains(b[0]));
            assert(a.to_set().contains(b[0]));
        }
        assert(a =~= b);
    } else {
        let top = a.last();
        assert(a.contains(top));
        assert(b.to_set().contains(top));
        let j = choose|j: int| 0 <= j < b.len() && b[j] == top;
        assert(b.contains(b.last()));
        assert(a.to_set().contains(b.last()));
        let i = choose|i: int| 0 <= i < a.len() && a[i] == b.last();
        if j < b.len() - 1 {
            assert(b[j].cmp_spec(&b.last()) is Less);
            if i < a.len() - 1 {
                assert(a[i].cmp_spec(&a.last()) is Less);
            }
        }
        assert(b.last() == top);
        let a0 = a.drop_last();
        let b0 = b.drop_last();
        assert(increasing_seq(a0)) by {
            assert forall|p: int, q: int| 0 <= p < q < a0.len() implies a0[p].cmp_spec(
                &a0[q],
            ) is Less by {
                assert(a[p].cmp_spec(&a[q]) is Less);
            }
        }
        assert(increasing_seq(b0)) by {
            assert forall|p: int, q: int| 0 <= p < q < b0.len() implies b0[p].cmp_spec(
                &b0[q],
            ) is Less by {
                assert(b[p].cmp_spec(&b[q]) is Less);
            }
        }
        assert forall|x: K| a0.to_set().contains(x) <==> b0.to_set().contains(x) by {
            if a0.contains(x) {
                let p = choose|p: int| 0 <= p < a0.len() && a0[p] == x;
                assert(a[p] == x);
                assert(a.contains(x));
                assert(b.to_set().contains(x));
                let q = choose|q: int| 0 <= q < b.len() && b[q] == x;
                assert(b0[q] == x);
            }
            if b0.contains(x) {
                let q = choose|q: int| 0 <= q < b0.len() && b0[q] == x;
                assert(b[q] == x);
                assert(b.contains(x));
                assert(a.to_set().contains(x));
                let p = choose|p: int| 0 <= p < a.len() && a[p] == x;
                assert(a0[p] == x);
            }
        }
        assert(a0.to_set() =~= b0.to_set());
        lemma_increasing_is_unique(a0, b0);
        assert(a =~= a0.push(top));
        assert(b =~= b0.push(top));
    }
}

/// A list that goes up and holds the keys of a map is the map's keys in order.
pub proof fn lemma_keys_in_order<K: Ord, V>(map: Map<K, V>, keys: Seq<K>)
    requires
        is_ordered::<K>(),
        increasing_seq(keys),
        keys.to_set() == map.dom(),
    ensures
        keys_in_order(map) == keys,
{
    lemma_increasing_is_unique(keys_in_order(map), keys);
}

/// The keys of an ordered map, in order, go up and are the keys of the map.
pub proof fn lemma_keys_of_ordered_map<K: Ord, V>(map: &BTreeMap<K, V>)
    requires
        is_ordered::<K>(),
    ensures
        increasing_seq(keys_in_order(map@)),
        keys_in_order(map@).no_duplicates(),
        keys_in_order(map@).to_set() == map@.dom(),
        keys_in_order(map@) == vstd::std_specs::btree::spec_keys_iter(map).remaining().unref(),
{
    let walked = vstd::std_specs::btree::spec_keys_iter(map).remaining();
    let keys = walked.unref();
    vstd::std_specs::btree::axiom_increasing_seq_meaning::<&K>(walked);
    assert forall|i: int, j: int| 0 <= i < j < keys.len() implies keys[i].cmp_spec(
        &keys[j],
    ) is Less by {
        assert(OrdSpec::cmp_spec(&walked[i], &walked[j]) is Less);
    }
    assert(increasing_seq(keys));
    assert(keys.to_set() =~= walked.unref().to_set());
    lemma_keys_in_order(map@, keys);
    lemma_increasing_has_no_duplicates(keys);
}

} // verus!
