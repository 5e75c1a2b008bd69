//! The map described by an association sequence, and what pushing and
//! removing entries do to it. The replication tables store their entries
//! in vectors; their contracts speak in these terms.

use vstd::prelude::*;

verus! {

/// The map holding the last binding of each key in `s`.
pub open spec fn assoc_map<K, V>(s: Seq<(K, V)>) -> Map<K, V>
    decreases s.len(),
{
    if s.len() == 0 {
        Map::empty()
    } else {
        assoc_map(s.drop_last()).insert(s.last().0, s.last().1)
    }
}

/// No key occurs twice.
pub open spec fn distinct_keys<K, V>(s: Seq<(K, V)>) -> bool {
    forall|a: int, b: int| 0 <= a < b < s.len() ==> (#[trigger] s[a]).0 != (#[trigger] s[b]).0
}

pub proof fn lemma_assoc_map_dom<K, V>(s: Seq<(K, V)>, k: K)
    ensures
        assoc_map(s).contains_key(k) <==> exists|j: int| 0 <= j < s.len() && (#[trigger] s[j]).0
            == k,
    decreases s.len(),
{
    if s.len() > 0 {
        lemma_assoc_map_dom(s.drop_last(), k);
        if assoc_map(s).contains_key(k) {
            if s.last().0 != k {
                let j = choose|j: int|
                    0 <= j < s.drop_last().len() && (#[trigger] s.drop_last()[j]).0 == k;
                assert(s[j].0 == k);
            }
        }
        if exists|j: int| 0 <= j < s.len() && (#[trigger] s[j]).0 == k {
            let j = choose|j: int| 0 <= j < s.len() && (#[trigger] s[j]).0 == k;
            if j < s.len() - 1 {
                assert(s.drop_last()[j].0 == k);
            }
        }
    }
}

pub proof fn lemma_assoc_map_value<K, V>(s: Seq<(K, V)>, j: int)
    requires
        0 <= j < s.len(),
        distinct_keys(s),
    ensures
        assoc_map(s).contains_key(s[j].0),
        assoc_map(s)[s[j].0] == s[j].1,
    decreases s.len(),
{
    lemma_assoc_map_dom(s, s[j].0);
    if j < s.len() - 1 {
        assert(distinct_keys(s.drop_last()));
        lemma_assoc_map_value(s.drop_last(), j);
        assert(s.last().0 != s[j].0);
    }
}

/// Removing the entry at `j` removes exactly its key from the model.
pub proof fn lemma_assoc_map_remove<K, V>(s: Seq<(K, V)>, j: int)
    requires
        0 <= j < s.len(),
        distinct_keys(s),
    ensures
        assoc_map(s.remove(j)) == assoc_map(s).remove(s[j].0),
    decreases s.len(),
{
    let key = s[j].0;
    if j == s.len() - 1 {
        assert(s.remove(j) =~= s.drop_last());
        lemma_assoc_map_dom(s.drop_last(), key);
        assert forall|a: int| 0 <= a < s.drop_last().len() implies (#[trigger] s.drop_last()[a]).0
            != key by {
            assert(s[a].0 == s.drop_last()[a].0);
        }
        assert(!assoc_map(s.drop_last()).contains_key(key));
        assert(assoc_map(s).remove(key) =~= assoc_map(s.drop_last()));
    } else {
        let t = s.remove(j);
        assert(t.last() == s.last());
        assert(t.drop_last() =~= s.drop_last().remove(j));
        let dl = s.drop_last();
        assert(distinct_keys(dl));
        lemma_assoc_map_remove(dl, j);
        assert(dl[j] == s[j]);
        assert(assoc_map(t) == assoc_map(dl).remove(key).insert(s.last().0, s.last().1));
        assert(s.last().0 != key);
        assert(assoc_map(dl).remove(key).insert(s.last().0, s.last().1) =~= assoc_map(dl).insert(
            s.last().0,
            s.last().1,
        ).remove(key));
    }
}

} // verus!
