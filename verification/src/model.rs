//! The mathematical model of the container: sequences of keyed pairs and
//! the identity-to-context maps they describe.

use vstd::prelude::*;

verus! {

/// The identity-to-context map described by a sequence of keyed pairs,
/// where a later pair with the same key overrides an earlier one.
pub open spec fn map_of<K, V>(s: Seq<(K, V)>) -> Map<K, V>
    decreases s.len(),
{
    if s.len() == 0 {
        Map::empty()
    } else {
        map_of(s.drop_last()).insert(s.last().0, s.last().1)
    }
}

/// The identity-to-context map described by a sequence of keyed pairs,
/// where an earlier pair with a key shadows every later one with the same
/// key. This is the live insertion rule: a duplicate insert is a no-op.
pub open spec fn first_map_of<K, V>(s: Seq<(K, V)>) -> Map<K, V>
    decreases s.len(),
{
    if s.len() == 0 {
        Map::empty()
    } else if first_map_of(s.drop_last()).contains_key(s.last().0) {
        first_map_of(s.drop_last())
    } else {
        first_map_of(s.drop_last()).insert(s.last().0, s.last().1)
    }
}

/// Whether no two pairs of the sequence share a key.
pub open spec fn distinct_keys<K, V>(s: Seq<(K, V)>) -> bool {
    forall|i: int, j: int| 0 <= i < j < s.len() ==> s[i].0 != s[j].0
}

/// The subsequence of `s` at the positions `keep` marks with `true`.
pub open spec fn filter_by<A>(s: Seq<A>, keep: Seq<bool>) -> Seq<A>
    decreases s.len(),
{
    if s.len() == 0 {
        Seq::empty()
    } else if keep.len() == s.len() && keep.last() {
        filter_by(s.drop_last(), keep.drop_last()).push(s.last())
    } else {
        filter_by(s.drop_last(), keep.drop_last())
    }
}

/// Filtering a distinct-keyed sequence keeps the keys distinct, keeps each
/// surviving pair intact, and keeps exactly the pairs whose position was
/// marked.
pub proof fn lemma_filter_by<K, V>(s: Seq<(K, V)>, keep: Seq<bool>)
    requires
        distinct_keys(s),
        keep.len() == s.len(),
    ensures
        distinct_keys(filter_by(s, keep)),
        forall|k: K| #[trigger]
            map_of(filter_by(s, keep)).contains_key(k) ==> map_of(s).contains_key(k) && map_of(
                filter_by(s, keep),
            )[k] == map_of(s)[k],
        forall|i: int|
            0 <= i < s.len() ==> (keep[i] <==> map_of(filter_by(s, keep)).contains_key(
                #[trigger] s[i].0,
            )),
    decreases s.len(),
{
    if s.len() > 0 {
        let s0 = s.drop_last();
        let k0 = keep.drop_last();
        lemma_filter_by(s0, k0);
        let f = filter_by(s, keep);
        let f0 = filter_by(s0, k0);
        assert forall|j: int| 0 <= j < f0.len() implies exists|i: int|
            0 <= i < s0.len() && s0[i] == #[trigger] f0[j] by {
            lemma_map_of_get(f0, j);
            lemma_map_of_contains(s0, f0[j].0);
            let i = choose|i: int| 0 <= i < s0.len() && s0[i].0 == f0[j].0;
            lemma_map_of_get(s0, i);
            lemma_map_of_get(f0, j);
            assert(map_of(f0)[f0[j].0] == map_of(s0)[s0[i].0]);
            assert(s0[i] == f0[j]);
        }
        if keep.last() {
            assert(f == f0.push(s.last()));
            lemma_map_of_contains(s0, s.last().0);
            lemma_map_of_contains(f0, s.last().0);
            assert(!map_of(f0).contains_key(s.last().0));
            assert forall|a: int, b: int| 0 <= a < b < f.len() implies f[a].0 != f[b].0 by {
                if b < f0.len() {
                    assert(f0[a].0 != f0[b].0);
                } else {
                    lemma_map_of_get(f0, a);
                }
            }
            lemma_map_of_push(f0, s.last());
            assert forall|i: int|
                0 <= i < s.len() implies (keep[i] <==> map_of(f).contains_key(
                #[trigger] s[i].0,
            )) by {
                if i < s.len() - 1 {
                    assert(s0[i] == s[i]);
                    assert(s[i].0 != s.last().0);
                }
            }
        } else {
            assert(f == f0);
            lemma_map_of_contains(f0, s.last().0);
            assert forall|i: int|
                0 <= i < s.len() implies (keep[i] <==> map_of(f).contains_key(
                #[trigger] s[i].0,
            )) by {
                if i < s.len() - 1 {
                    assert(s0[i] == s[i]);
                } else {
                    if map_of(f0).contains_key(s[i].0) {
                        let j = choose|j: int| 0 <= j < s0.len() && s0[j].0 == s[i].0;
                        assert(s[j].0 == s[i].0 && j < i);
                        assert(false);
                    }
                }
            }
        }
    }
}

/// The map of a sequence contains exactly the keys of the sequence.
pub proof fn lemma_map_of_contains<K, V>(s: Seq<(K, V)>, k: K)
    ensures
        map_of(s).contains_key(k) <==> exists|i: int| 0 <= i < s.len() && s[i].0 == k,
    decreases s.len(),
{
    if s.len() > 0 {
        lemma_map_of_contains(s.drop_last(), k);
        if s.last().0 == k {
            assert(s[s.len() - 1].0 == k);
        } else if map_of(s).contains_key(k) {
            let i = choose|i: int| 0 <= i < s.drop_last().len() && s.drop_last()[i].0 == k;
            assert(s[i].0 == k);
        } else if exists|i: int| 0 <= i < s.len() && s[i].0 == k {
            let i = choose|i: int| 0 <= i < s.len() && s[i].0 == k;
            assert(s.drop_last()[i].0 == k);
        }
    }
}

/// With distinct keys, the map sends each key of the sequence to the
/// context stored beside it.
pub proof fn lemma_map_of_get<K, V>(s: Seq<(K, V)>, i: int)
    requires
        distinct_keys(s),
        0 <= i < s.len(),
    ensures
        map_of(s).contains_key(s[i].0),
        map_of(s)[s[i].0] == s[i].1,
    decreases s.len(),
{
    if i == s.len() - 1 {
        lemma_map_of_contains(s, s[i].0);
    } else {
        lemma_map_of_get(s.drop_last(), i);
        assert(s.drop_last()[i] == s[i]);
        assert(s[i].0 != s.last().0);
    }
}

/// The domain of the map of a sequence is finite.
pub proof fn lemma_map_of_finite<K, V>(s: Seq<(K, V)>)
    ensures
        map_of(s).dom().finite(),
    decreases s.len(),
{
    if s.len() > 0 {
        lemma_map_of_finite(s.drop_last());
    }
}

/// With distinct keys, the map of a sequence has exactly one entry per pair.
pub proof fn lemma_map_of_len<K, V>(s: Seq<(K, V)>)
    requires
        distinct_keys(s),
    ensures
        map_of(s).dom().finite(),
        map_of(s).dom().len() == s.len(),
    decreases s.len(),
{
    lemma_map_of_finite(s);
    if s.len() > 0 {
        lemma_map_of_len(s.drop_last());
        lemma_map_of_contains(s.drop_last(), s.last().0);
        lemma_map_of_finite(s.drop_last());
        assert(!map_of(s.drop_last()).contains_key(s.last().0));
        assert(map_of(s).dom() =~= map_of(s.drop_last()).dom().insert(s.last().0));
        vstd::set::axiom_set_insert_len(map_of(s.drop_last()).dom(), s.last().0);
    }
}

/// Appending a pair inserts its key into the map of the sequence.
pub proof fn lemma_map_of_push<K, V>(s: Seq<(K, V)>, p: (K, V))
    ensures
        map_of(s.push(p)) == map_of(s).insert(p.0, p.1),
{
    assert(s.push(p).drop_last() =~= s);
    assert(s.push(p).last() == p);
}

/// Removing the pair at an index removes its key from the map of a
/// distinct-keyed sequence.
pub proof fn lemma_map_of_remove<K, V>(s: Seq<(K, V)>, i: int)
    requires
        distinct_keys(s),
        0 <= i < s.len(),
    ensures
        map_of(s.remove(i)) == map_of(s).remove(s[i].0),
    decreases s.len(),
{
    if i == s.len() - 1 {
        assert(s.remove(i) =~= s.drop_last());
        lemma_map_of_contains(s.drop_last(), s[i].0);
        assert(!map_of(s.drop_last()).contains_key(s[i].0));
        assert(map_of(s.drop_last()).remove(s[i].0) =~= map_of(s.drop_last()));
        assert(map_of(s).remove(s[i].0) =~= map_of(s.drop_last()));
    } else {
        lemma_map_of_remove(s.drop_last(), i);
        assert(s.remove(i).drop_last() =~= s.drop_last().remove(i));
        assert(s.remove(i).last() == s.last());
        assert(map_of(s.remove(i)) == map_of(s.drop_last().remove(i)).insert(
            s.last().0,
            s.last().1,
        ));
        assert(s[i].0 != s.last().0);
        assert(map_of(s).remove(s[i].0) =~= map_of(s.drop_last()).remove(s[i].0).insert(
            s.last().0,
            s.last().1,
        ));
    }
}

/// Two distinct-keyed sequences holding the same pairs, in whatever order,
/// describe the same map.
pub proof fn lemma_map_of_same_elements<K, V>(s1: Seq<(K, V)>, s2: Seq<(K, V)>)
    requires
        distinct_keys(s1),
        distinct_keys(s2),
        forall|i: int|
            0 <= i < s1.len() ==> exists|j: int| 0 <= j < s2.len() && s2[j] == #[trigger] s1[i],
        forall|j: int|
            0 <= j < s2.len() ==> exists|i: int| 0 <= i < s1.len() && s1[i] == #[trigger] s2[j],
    ensures
        map_of(s1) == map_of(s2),
{
    assert forall|k: K| #[trigger]
        map_of(s1).contains_key(k) implies map_of(s2).contains_key(k) && map_of(s2)[k] == map_of(
        s1,
    )[k] by {
        lemma_map_of_contains(s1, k);
        let i = choose|i: int| 0 <= i < s1.len() && s1[i].0 == k;
        lemma_map_of_get(s1, i);
        let j = choose|j: int| 0 <= j < s2.len() && s2[j] == s1[i];
        lemma_map_of_get(s2, j);
    }
    assert forall|k: K| #[trigger] map_of(s2).contains_key(k) implies map_of(s1).contains_key(
        k,
    ) by {
        lemma_map_of_contains(s2, k);
        let j = choose|j: int| 0 <= j < s2.len() && s2[j].0 == k;
        let i = choose|i: int| 0 <= i < s1.len() && s1[i] == s2[j];
        lemma_map_of_contains(s1, k);
    }
    assert(map_of(s1) =~= map_of(s2));
}

/// Swapping two pairs of a distinct-keyed sequence keeps the keys distinct
/// and describes the same map.
pub proof fn lemma_map_of_swap<K, V>(s: Seq<(K, V)>, a: int, b: int)
    requires
        distinct_keys(s),
        0 <= a < b < s.len(),
    ensures
        distinct_keys(s.update(a, s[b]).update(b, s[a])),
        map_of(s.update(a, s[b]).update(b, s[a])) == map_of(s),
{
    let s2 = s.update(a, s[b]).update(b, s[a]);
    assert forall|i: int, j: int| 0 <= i < j < s2.len() implies s2[i].0 != s2[j].0 by {
        let i0 = if i == a { b } else if i == b { a } else { i };
        let j0 = if j == a { b } else if j == b { a } else { j };
        assert(s2[i] == s[i0]);
        assert(s2[j] == s[j0]);
    }
    assert forall|k: K| #[trigger]
        map_of(s).contains_key(k) implies map_of(s2).contains_key(k) && map_of(s2)[k] == map_of(
        s,
    )[k] by {
        lemma_map_of_contains(s, k);
        let i = choose|i: int| 0 <= i < s.len() && s[i].0 == k;
        let i2 = if i == a {
            b
        } else if i == b {
            a
        } else {
            i
        };
        assert(s2[i2] == s[i]);
        lemma_map_of_get(s, i);
        lemma_map_of_get(s2, i2);
    }
    assert forall|k: K| #[trigger] map_of(s2).contains_key(k) implies map_of(s).contains_key(
        k,
    ) by {
        lemma_map_of_contains(s2, k);
        lemma_map_of_contains(s, k);
        let i = choose|i: int| 0 <= i < s2.len() && s2[i].0 == k;
        let i0 = if i == a {
            b
        } else if i == b {
            a
        } else {
            i
        };
        assert(s[i0].0 == k);
    }
    assert(map_of(s2) =~= map_of(s));
}

/// The map of a concatenation is the union of the two maps, with the later
/// part winning on shared keys.
pub proof fn lemma_map_of_concat<K, V>(s1: Seq<(K, V)>, s2: Seq<(K, V)>)
    ensures
        map_of(s1 + s2) == map_of(s1).union_prefer_right(map_of(s2)),
    decreases s2.len(),
{
    if s2.len() == 0 {
        assert(s1 + s2 =~= s1);
        assert(map_of(s1).union_prefer_right(map_of(s2)) =~= map_of(s1));
    } else {
        lemma_map_of_concat(s1, s2.drop_last());
        assert((s1 + s2).drop_last() =~= s1 + s2.drop_last());
        assert((s1 + s2).last() == s2.last());
        assert(map_of(s1).union_prefer_right(map_of(s2)) =~= map_of(s1).union_prefer_right(
            map_of(s2.drop_last()),
        ).insert(s2.last().0, s2.last().1));
    }
}

/// Two sequences with the same keys in the same places describe maps over
/// the same domain.
pub proof fn lemma_map_of_dom_equal<K, V>(s1: Seq<(K, V)>, s2: Seq<(K, V)>)
    requires
        s1.len() == s2.len(),
        forall|i: int| 0 <= i < s1.len() ==> s1[i].0 == s2[i].0,
    ensures
        map_of(s1).dom() == map_of(s2).dom(),
{
    assert forall|k: K| #![auto]
        map_of(s1).contains_key(k) == map_of(s2).contains_key(k) by {
        lemma_map_of_contains(s1, k);
        lemma_map_of_contains(s2, k);
        if map_of(s1).contains_key(k) {
            let i = choose|i: int| 0 <= i < s1.len() && s1[i].0 == k;
            assert(s2[i].0 == k);
        } else if map_of(s2).contains_key(k) {
            let i = choose|i: int| 0 <= i < s2.len() && s2[i].0 == k;
            assert(s1[i].0 == k);
        }
    }
    assert(map_of(s1).dom() =~= map_of(s2).dom());
}

/// Removing a pair from a distinct-keyed sequence keeps the keys distinct
/// and leaves no pair with the removed key behind.
pub proof fn lemma_distinct_remove<K, V>(s: Seq<(K, V)>, i: int)
    requires
        distinct_keys(s),
        0 <= i < s.len(),
    ensures
        distinct_keys(s.remove(i)),
        forall|j: int| 0 <= j < s.remove(i).len() ==> s.remove(i)[j].0 != s[i].0,
{
    assert forall|j: int| 0 <= j < s.remove(i).len() implies s.remove(i)[j].0 != s[i].0 by {
        if j < i {
            assert(s.remove(i)[j] == s[j]);
        } else {
            assert(s.remove(i)[j] == s[j + 1]);
        }
    }
    assert forall|j: int, k: int|
        0 <= j < k < s.remove(i).len() implies s.remove(i)[j].0 != s.remove(i)[k].0 by {
        let j0 = if j < i { j } else { j + 1 };
        let k0 = if k < i { k } else { k + 1 };
        assert(s.remove(i)[j] == s[j0]);
        assert(s.remove(i)[k] == s[k0]);
    }
}

/// Updating the context beside a key rewrites that key's entry in the map
/// of a distinct-keyed sequence.
pub proof fn lemma_map_of_update<K, V>(s: Seq<(K, V)>, i: int, p: (K, V))
    requires
        distinct_keys(s),
        0 <= i < s.len(),
        s[i].0 == p.0,
    ensures
        map_of(s.update(i, p)) == map_of(s).insert(p.0, p.1),
        distinct_keys(s.update(i, p)),
    decreases s.len(),
{
    if i == s.len() - 1 {
        assert(s.update(i, p).drop_last() =~= s.drop_last());
        assert(s.update(i, p).last() == p);
        assert(map_of(s).insert(p.0, p.1) =~= map_of(s.drop_last()).insert(p.0, p.1));
    } else {
        lemma_map_of_update(s.drop_last(), i, p);
        assert(s.update(i, p).drop_last() =~= s.drop_last().update(i, p));
        assert(s.update(i, p).last() == s.last());
        assert(s[i].0 != s.last().0);
        assert(map_of(s).insert(p.0, p.1) =~= map_of(s.drop_last()).insert(p.0, p.1).insert(
            s.last().0,
            s.last().1,
        ));
    }
}

} // verus!
