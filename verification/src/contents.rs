//! The contents of hash sets and hash maps as vectors, to walk them by
//! position.
use std::collections::{HashMap, HashSet};
use std::hash::Hash;
use vstd::prelude::*;
use vstd::std_specs::hash::obeys_key_model;
use vstd::std_specs::iter::IteratorSpec;

verus! {

/// Pushing onto a sequence inserts into its set of elements.
pub proof fn lemma_push_to_set<T>(items: Seq<T>, item: T)
    ensures
        items.push(item).to_set() == items.to_set().insert(item),
{
    let pushed = items.push(item);
    let inserted = items.to_set().insert(item);
    assert forall|x: T| pushed.to_set().contains(x) <==> inserted.contains(x) by {
        if pushed.contains(x) {
            let i = choose|i: int| 0 <= i < pushed.len() && pushed[i] == x;
            if i < items.len() {
                assert(items[i] == x);
            }
        }
        if items.contains(x) {
            let i = choose|i: int| 0 <= i < items.len() && items[i] == x;
            assert(pushed[i] == x);
        }
        if x == item {
            assert(pushed[items.len() as int] == x);
        }
    }
    assert(pushed.to_set() =~= inserted);
}

/// The items of `set`, each once, in the order in which the set hands them
/// out.
pub fn set_items<K: Copy + Eq + Hash>(set: &HashSet<K>) -> (items: Vec<K>)
    requires
        obeys_key_model::<K>(),
    ensures
        items@.no_duplicates(),
        items@.to_set() == set@,
{
    broadcast use vstd::std_specs::hash::group_hash_axioms;

    let mut items: Vec<K> = Vec::new();
    for item in handed: set.iter()
        invariant
            handed.seq() == set.iter().remaining(),
            items@.len() == handed.index(),
            forall|i: int| 0 <= i < items@.len() ==> items@[i] == *handed.seq()[i],
    {
        items.push(*item);
    }
    proof {
        let all = set.iter().remaining();
        assert(items@ =~= all.unref());
        assert forall|i: int, j: int|
            0 <= i < items@.len() && 0 <= j < items@.len() && i != j implies items@[i]
            != items@[j] by {
            assert(all[i] != all[j]);
        }
    }
    items
}

/// The keys of `map`, each once, in the order in which the map hands them
/// out.
pub fn map_keys<K: Copy + Eq + Hash, V>(map: &HashMap<K, V>) -> (keys: Vec<K>)
    requires
        obeys_key_model::<K>(),
    ensures
        keys@.no_duplicates(),
        keys@.to_set() == map@.dom(),
{
    broadcast use vstd::std_specs::hash::group_hash_axioms;

    let mut keys: Vec<K> = Vec::new();
    for pair in handed: map.iter()
        invariant
            handed.seq() == map.iter().remaining(),
            keys@.len() == handed.index(),
            forall|i: int| 0 <= i < keys@.len() ==> keys@[i] == *handed.seq()[i].0,
    {
        keys.push(*pair.0);
    }
    proof {
        let all = map.iter().remaining();
        assert forall|i: int, j: int|
            0 <= i < keys@.len() && 0 <= j < keys@.len() && i != j implies keys@[i]
            != keys@[j] by {
            assert(map@.contains_key(*all[i].0) && map@[*all[i].0] == *all[i].1);
            assert(map@.contains_key(*all[j].0) && map@[*all[j].0] == *all[j].1);
            assert(all[i] != all[j]);
        }
        assert forall|key: K| keys@.to_set().contains(key) <==> map@.dom().contains(key) by {
            if keys@.contains(key) {
                let i = choose|i: int| 0 <= i < keys@.len() && keys@[i] == key;
                assert(map@.contains_key(*all[i].0));
            }
            if map@.contains_key(key) {
                assert(all.contains((&key, &map@[key])));
                let i = choose|i: int| 0 <= i < all.len() && all[i] == (&key, &map@[key]);
                assert(keys@[i] == key);
            }
        }
        assert(keys@.to_set() =~= map@.dom());
    }
    keys
}

/// The keys of `map` with their values, each key once, in the order in
/// which the map hands them out.
pub fn map_pairs<K: Copy + Eq + Hash, V: Copy>(map: &HashMap<K, V>) -> (pairs: Vec<(K, V)>)
    requires
        obeys_key_model::<K>(),
    ensures
        forall|i: int, j: int|
            0 <= i < pairs@.len() && 0 <= j < pairs@.len() && i != j ==> (#[trigger] pairs@[i]).0
                != (#[trigger] pairs@[j]).0,
        forall|i: int|
            0 <= i < pairs@.len() ==> map@.contains_key((#[trigger] pairs@[i]).0)
                && map@[pairs@[i].0] == pairs@[i].1,
        forall|key: K|
            map@.contains_key(key) ==> exists|i: int|
                0 <= i < pairs@.len() && (#[trigger] pairs@[i]).0 == key,
{
    broadcast use vstd::std_specs::hash::group_hash_axioms;

    let mut pairs: Vec<(K, V)> = Vec::new();
    for pair in handed: map.iter()
        invariant
            handed.seq() == map.iter().remaining(),
            pairs@.len() == handed.index(),
            forall|i: int|
                0 <= i < pairs@.len() ==> pairs@[i].0 == *handed.seq()[i].0 && pairs@[i].1
                    == *handed.seq()[i].1,
    {
        pairs.push((*pair.0, *pair.1));
    }
    proof {
        let all = map.iter().remaining();
        assert forall|i: int|
            0 <= i < pairs@.len() implies map@.contains_key((#[trigger] pairs@[i]).0)
            && map@[pairs@[i].0] == pairs@[i].1 by {
            assert(map@.contains_key(*all[i].0) && map@[*all[i].0] == *all[i].1);
        }
        assert forall|i: int, j: int|
            0 <= i < pairs@.len() && 0 <= j < pairs@.len() && i != j implies (
        #[trigger] pairs@[i]).0 != (#[trigger] pairs@[j]).0 by {
            assert(map@.contains_key(*all[i].0) && map@[*all[i].0] == *all[i].1);
            assert(map@.contains_key(*all[j].0) && map@[*all[j].0] == *all[j].1);
            assert(all[i] != all[j]);
        }
        assert forall|key: K| map@.contains_key(key) implies exists|i: int|
            0 <= i < pairs@.len() && (#[trigger] pairs@[i]).0 == key by {
            assert(all.contains((&key, &map@[key])));
            let i = choose|i: int| 0 <= i < all.len() && all[i] == (&key, &map@[key]);
            assert(pairs@[i].0 == key);
        }
    }
    pairs
}

} // verus!
