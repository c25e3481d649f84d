use vstd::prelude::*;

verus! {

// ---------------------------------------------------------------------------
// Keyed lists
// ---------------------------------------------------------------------------

/// The map that a list of key-value pairs stands for: each pair in turn,
/// a later pair for a key replacing an earlier one.
pub open spec fn assoc_map<K, V>(m: Seq<(K, V)>) -> Map<K, V>
    decreases m.len(),
{
    if m.len() == 0 {
        Map::empty()
    } else {
        assoc_map(m.drop_last()).insert(m.last().0, m.last().1)
    }
}

/// No key occurs twice.
pub open spec fn keys_distinct<K, V>(m: Seq<(K, V)>) -> bool {
    forall|i: int, j: int| 0 <= i < j < m.len() ==> (#[trigger] m[i]).0 != (#[trigger] m[j]).0
}

pub proof fn lemma_assoc_map<K, V>(m: Seq<(K, V)>)
    requires
        keys_distinct(m),
    ensures
        forall|i: int| 0 <= i < m.len() ==> #[trigger] assoc_map(m).contains_key(m[i].0) && assoc_map(m)[m[i].0] == m[i].1,
        forall|k: K|
            #[trigger] assoc_map(m).contains_key(k) ==> exists|i: int| 0 <= i < m.len() && m[i].0 == k,
    decreases m.len(),
{
    if m.len() > 0 {
        let init = m.drop_last();
        assert forall|i: int, j: int| 0 <= i < j < init.len() implies (#[trigger] init[i]).0 != (#[trigger] init[j]).0 by {
            assert(init[i] == m[i] && init[j] == m[j]);
        }
        lemma_assoc_map(init);
        assert(assoc_map(m) == assoc_map(init).insert(m.last().0, m.last().1));
        assert forall|i: int| 0 <= i < m.len() implies #[trigger] assoc_map(m).contains_key(m[i].0) && assoc_map(m)[m[i].0] == m[i].1 by {
            if i < m.len() - 1 {
                assert(init[i] == m[i]);
                assert(m[i].0 != m[m.len() - 1].0);
            }
        }
        assert forall|k: K| #[trigger] assoc_map(m).contains_key(k) implies exists|i: int| 0 <= i < m.len() && m[i].0 == k by {
            if k != m.last().0 {
                let i = choose|i: int| 0 <= i < init.len() && init[i].0 == k;
                assert(m[i] == init[i]);
            } else {
                assert(m[m.len() - 1].0 == k);
            }
        }
    }
}

pub proof fn lemma_assoc_update<K, V>(m: Seq<(K, V)>, i: int, v: V)
    requires
        keys_distinct(m),
        0 <= i < m.len(),
    ensures
        assoc_map(m.update(i, (m[i].0, v))) == assoc_map(m).insert(m[i].0, v),
        keys_distinct(m.update(i, (m[i].0, v))),
    decreases m.len(),
{
    let u = m.update(i, (m[i].0, v));
    assert forall|a: int, b: int| 0 <= a < b < u.len() implies (#[trigger] u[a]).0 != (#[trigger] u[b]).0 by {
        assert(u[a].0 == m[a].0 && u[b].0 == m[b].0);
    }
    let init = m.drop_last();
    assert forall|a: int, b: int| 0 <= a < b < init.len() implies (#[trigger] init[a]).0 != (#[trigger] init[b]).0 by {
        assert(init[a] == m[a] && init[b] == m[b]);
    }
    if i == m.len() - 1 {
        assert(u.drop_last() =~= init);
        assert(assoc_map(u) =~= assoc_map(m).insert(m[i].0, v));
    } else {
        lemma_assoc_update(init, i, v);
        assert(u.drop_last() =~= init.update(i, (m[i].0, v)));
        assert(m[i].0 != m.last().0);
        assert(assoc_map(u) =~= assoc_map(m).insert(m[i].0, v));
    }
}

} // verus!
