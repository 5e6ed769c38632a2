//! The map that a list of (key, value) entries with distinct keys denotes.
use vstd::prelude::*;

verus! {

/// The map of `keys[i] => vals[i]`; where a key occurs twice the later entry wins.
pub open spec fn assoc_map<V>(keys: Seq<Seq<char>>, vals: Seq<V>) -> Map<Seq<char>, V>
    decreases keys.len(),
{
    if keys.len() == 0 || vals.len() == 0 {
        Map::empty()
    } else {
        assoc_map(keys.drop_last(), vals.drop_last()).insert(keys.last(), vals.last())
    }
}

/// With distinct keys, the map holds exactly the listed keys, each with its own value.
pub proof fn lemma_assoc_map<V>(keys: Seq<Seq<char>>, vals: Seq<V>)
    requires
        keys.len() == vals.len(),
        keys.no_duplicates(),
    ensures
        forall|k: Seq<char>| #[trigger]
            assoc_map(keys, vals).contains_key(k) <==> keys.contains(k),
        forall|i: int|
            0 <= i < keys.len() ==> #[trigger] assoc_map(keys, vals)[keys[i]] == vals[i],
        assoc_map(keys, vals).dom().finite(),
    decreases keys.len(),
{
    if keys.len() > 0 {
        let ks = keys.drop_last();
        let vs = vals.drop_last();
        assert(ks.no_duplicates()) by {
            assert forall|i: int, j: int| 0 <= i < ks.len() && 0 <= j < ks.len() && i != j implies ks[i]
                != ks[j] by {
                assert(ks[i] == keys[i] && ks[j] == keys[j]);
            }
        }
        lemma_assoc_map(ks, vs);
        let m = assoc_map(keys, vals);
        assert forall|k: Seq<char>| #[trigger] m.contains_key(k) <==> keys.contains(k) by {
            if keys.contains(k) {
                let i = choose|i: int| 0 <= i < keys.len() && keys[i] == k;
                if i < keys.len() - 1 {
                    assert(ks[i] == k);
                }
            }
            if ks.contains(k) {
                let i = choose|i: int| 0 <= i < ks.len() && ks[i] == k;
                assert(keys[i] == k);
            }
            if k == keys.last() {
                assert(keys[keys.len() - 1] == k);
            }
        }
        assert forall|i: int| 0 <= i < keys.len() implies #[trigger] m[keys[i]] == vals[i] by {
            if i < keys.len() - 1 {
                assert(ks[i] == keys[i]);
                assert(keys[i] != keys[keys.len() - 1]);
            }
        }
    }
}

/// Appending an entry inserts it into the map.
pub proof fn lemma_assoc_map_push<V>(keys: Seq<Seq<char>>, vals: Seq<V>, k: Seq<char>, v: V)
    requires
        keys.len() == vals.len(),
    ensures
        assoc_map(keys.push(k), vals.push(v)) == assoc_map(keys, vals).insert(k, v),
{
    assert(keys.push(k).drop_last() =~= keys);
    assert(vals.push(v).drop_last() =~= vals);
}

} // verus!
