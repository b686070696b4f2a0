//! Association lists: sequences of (key, value) pairs read as maps.
use vstd::prelude::*;

verus! {

/// No key occurs twice.
pub open spec fn unique_keys<K, V>(entries: Seq<(K, V)>) -> bool {
    forall|i: int, j: int| 0 <= i < j < entries.len() ==> entries[i].0 != entries[j].0
}

/// The pairs as a map (a later pair wins over an earlier one).
pub open spec fn map_of<K, V>(entries: Seq<(K, V)>) -> Map<K, V>
    decreases entries.len(),
{
    if entries.len() == 0 {
        Map::empty()
    } else {
        map_of(entries.drop_last()).insert(entries.last().0, entries.last().1)
    }
}

/// A key is in the map exactly when some pair carries it, and (keys being
/// unique) the map holds that pair's value.
pub proof fn lemma_map_of<K, V>(entries: Seq<(K, V)>)
    requires
        unique_keys(entries),
    ensures
        forall|id: K|
            #![trigger map_of(entries).contains_key(id)]
            map_of(entries).contains_key(id) <==> exists|i: int|
                0 <= i < entries.len() && entries[i].0 == id,
        forall|i: int|
            #![trigger entries[i]]
            0 <= i < entries.len() ==> map_of(entries).contains_key(entries[i].0) && map_of(
                entries,
            )[entries[i].0] == entries[i].1,
    decreases entries.len(),
{
    if entries.len() > 0 {
        let rest = entries.drop_last();
        assert(unique_keys(rest));
        lemma_map_of(rest);
        assert forall|id: K|
            #![trigger map_of(entries).contains_key(id)]
            map_of(entries).contains_key(id) implies exists|i: int|
                0 <= i < entries.len() && entries[i].0 == id by {
            if id != entries.last().0 {
                assert(map_of(rest).contains_key(id));
                let i = choose|i: int| 0 <= i < rest.len() && rest[i].0 == id;
                assert(rest[i] == entries[i]);
                assert(entries[i].0 == id);
            } else {
                assert(entries[entries.len() - 1].0 == id);
            }
        }
        assert forall|i: int|
            #![trigger entries[i]]
            0 <= i < entries.len() implies map_of(entries).contains_key(entries[i].0)
                && map_of(entries)[entries[i].0] == entries[i].1 by {
            if i < entries.len() - 1 {
                assert(rest[i] == entries[i]);
            }
        }
    }
}

/// Removing the pair at `m` removes its key from the map.
pub proof fn lemma_map_of_remove<K, V>(entries: Seq<(K, V)>, m: int)
    requires
        unique_keys(entries),
        0 <= m < entries.len(),
    ensures
        map_of(entries.remove(m)) == map_of(entries).remove(entries[m].0),
        unique_keys(entries.remove(m)),
    decreases entries.len(),
{
    let rest = entries.drop_last();
    assert(unique_keys(rest));
    if m == entries.len() - 1 {
        assert(entries.remove(m) =~= rest);
        lemma_map_of(rest);
        assert(!map_of(rest).contains_key(entries.last().0)) by {
            if map_of(rest).contains_key(entries.last().0) {
                let i = choose|i: int| 0 <= i < rest.len() && rest[i].0 == entries.last().0;
                assert(entries[i].0 == entries[entries.len() - 1].0);
            }
        }
        assert(map_of(entries.remove(m)) =~= map_of(entries).remove(entries[m].0));
    } else {
        lemma_map_of_remove(rest, m);
        assert(entries.remove(m).drop_last() =~= rest.remove(m));
        assert(entries.remove(m).last() == entries.last());
        assert(entries[m].0 != entries.last().0);
        assert(map_of(entries.remove(m)) =~= map_of(entries).remove(entries[m].0));
    }
}

/// Replacing the value of the pair at `m` replaces it in the map.
pub proof fn lemma_map_of_update<K, V>(entries: Seq<(K, V)>, m: int, e: V)
    requires
        unique_keys(entries),
        0 <= m < entries.len(),
    ensures
        map_of(entries.update(m, (entries[m].0, e))) == map_of(entries).insert(
            entries[m].0,
            e,
        ),
        unique_keys(entries.update(m, (entries[m].0, e))),
    decreases entries.len(),
{
    let rest = entries.drop_last();
    let updated = entries.update(m, (entries[m].0, e));
    assert(unique_keys(rest));
    if m == entries.len() - 1 {
        assert(updated.drop_last() =~= rest);
        assert(map_of(updated) =~= map_of(entries).insert(entries[m].0, e));
    } else {
        lemma_map_of_update(rest, m, e);
        assert(updated.drop_last() =~= rest.update(m, (rest[m].0, e)));
        assert(entries[m].0 != entries.last().0);
        assert(map_of(updated) =~= map_of(entries).insert(entries[m].0, e));
    }
}

/// Appending a pair adds it to the map.
pub proof fn lemma_map_of_push<K, V>(entries: Seq<(K, V)>, p: (K, V))
    ensures
        map_of(entries.push(p)) == map_of(entries).insert(p.0, p.1),
{
    assert(entries.push(p).drop_last() =~= entries);
}

} // verus!
