//! Sortedness by a string key, and the fact that a sorted arrangement of
//! entries with pairwise-distinct keys is unique.  These carry the
//! deterministic-output guarantee of the Monarch converter.

use vstd::prelude::*;

use crate::text::{str_lt, lemma_str_lt_asymmetric, lemma_str_lt_trichotomy,
    lemma_str_lt_transitive};

verus! {

/// Non-strict order: `a` precedes or equals `b`.
pub open spec fn str_le(a: Seq<char>, b: Seq<char>) -> bool {
    str_lt(a, b) || a == b
}

/// A strict bound carries over a non-strict step.
pub proof fn lemma_str_lt_le_trans(a: Seq<char>, b: Seq<char>, c: Seq<char>)
    requires
        str_lt(a, b),
        str_le(b, c),
    ensures
        str_lt(a, c),
{
    if b != c {
        lemma_str_lt_transitive(a, b, c);
    }
}

/// The entries of `s` are ordered (non-strictly) by their keys.
pub open spec fn sorted_by_key<T>(s: Seq<T>, key: spec_fn(T) -> Seq<char>) -> bool {
    forall|i: int, j: int| 0 <= i < j < s.len() ==> str_le(key(#[trigger] s[i]), key(#[trigger] s[j]))
}

/// The entries of `s` carry pairwise-distinct keys.
pub open spec fn distinct_keys<T>(s: Seq<T>, key: spec_fn(T) -> Seq<char>) -> bool {
    forall|i: int, j: int| 0 <= i < j < s.len() ==> key(#[trigger] s[i]) != key(#[trigger] s[j])
}

/// There is exactly one sorted arrangement of a collection of entries with
/// pairwise-distinct keys: two sorted sequences with the same entries are
/// equal, element for element.
pub proof fn lemma_sorted_unique<T>(s1: Seq<T>, s2: Seq<T>, key: spec_fn(T) -> Seq<char>)
    requires
        sorted_by_key(s1, key),
        sorted_by_key(s2, key),
        distinct_keys(s1, key),
        s1.to_multiset() == s2.to_multiset(),
    ensures
        s1 == s2,
    decreases s1.len(),
{
    broadcast use vstd::seq_lib::group_to_multiset_ensures;

    if s1.len() == 0 {
        assert(s2.to_multiset().len() == 0);
        assert(s1 =~= s2);
    } else {
        assert(s1.to_multiset().count(s1[0]) > 0);
        assert(s2.to_multiset().count(s1[0]) > 0);
        assert(s2.contains(s1[0]));
        let j = choose|j: int| 0 <= j < s2.len() && s2[j] == s1[0];
        assert(s1.contains(s2[0])) by {
            assert(s2.to_multiset().count(s2[0]) > 0);
        }
        let i = choose|i: int| 0 <= i < s1.len() && s1[i] == s2[0];
        // the two head keys bound each other, so they are equal
        assert(str_le(key(s1[0]), key(s2[j])) || j == 0);
        assert(str_le(key(s2[0]), key(s1[i])) || i == 0);
        lemma_str_lt_asymmetric(key(s1[0]), key(s2[0]));
        lemma_str_lt_trichotomy(key(s1[0]), key(s2[0]));
        assert(key(s1[0]) == key(s2[0]));
        // distinct keys in s1 force the match to be the head itself
        assert(s1[0] == s2[0]) by {
            if i != 0 {
                assert(key(s1[0]) != key(s1[i]));
            }
        }
        let t1 = s1.drop_first();
        let t2 = s2.drop_first();
        assert(t1 =~= s1.remove(0));
        assert(t2 =~= s2.remove(0));
        assert(t1.to_multiset() == t2.to_multiset()) by {
            assert(s1.remove(0).to_multiset() =~= s1.to_multiset().remove(s1[0]));
            assert(s2.remove(0).to_multiset() =~= s2.to_multiset().remove(s2[0]));
        }
        assert(sorted_by_key(t1, key)) by {
            assert(forall|a: int, b: int|
                0 <= a < b < t1.len() ==> t1[a] == s1[a + 1] && t1[b] == s1[b + 1]);
        }
        assert(sorted_by_key(t2, key)) by {
            assert(forall|a: int, b: int|
                0 <= a < b < t2.len() ==> t2[a] == s2[a + 1] && t2[b] == s2[b + 1]);
        }
        assert(distinct_keys(t1, key)) by {
            assert(forall|a: int, b: int|
                0 <= a < b < t1.len() ==> t1[a] == s1[a + 1] && t1[b] == s1[b + 1]);
        }
        lemma_sorted_unique(t1, t2, key);
        assert(s1 =~= seq![s1[0]] + t1);
        assert(s2 =~= seq![s2[0]] + t2);
    }
}

/// Rearranging a sequence whose entries carry pairwise-distinct keys cannot
/// introduce a duplicate key.
pub proof fn lemma_distinct_keys_transfer<T>(s1: Seq<T>, s2: Seq<T>, key: spec_fn(T) -> Seq<char>)
    requires
        s1.to_multiset() == s2.to_multiset(),
        distinct_keys(s1, key),
    ensures
        distinct_keys(s2, key),
{
    broadcast use vstd::seq_lib::group_to_multiset_ensures;
    broadcast use vstd::multiset::group_multiset_axioms;

    assert forall|i: int, j: int| 0 <= i < j < s2.len() implies key(#[trigger] s2[i]) != key(
        #[trigger] s2[j],
    ) by {
        if key(s2[i]) == key(s2[j]) {
            let x = s2[i];
            let y = s2[j];
            if x == y {
                // the entry occurs twice in s2, so twice in s1, so s1 has a
                // duplicate key
                assert(s2.remove(i).to_multiset() =~= s2.to_multiset().remove(x));
                assert(s2.remove(i)[j - 1] == x);
                assert(s2.remove(i).contains(x));
                assert(s2.remove(i).to_multiset().count(x) > 0);
                assert(s1.to_multiset().count(x) >= 2);
                assert(s1.to_multiset().count(x) > 0);
                assert(s1.contains(x));
                let k = choose|k: int| 0 <= k < s1.len() && s1[k] == x;
                assert(s1.remove(k).to_multiset() =~= s1.to_multiset().remove(x));
                assert(s1.remove(k).to_multiset().count(x) > 0);
                assert(s1.remove(k).contains(x));
                let l0 = choose|l0: int| 0 <= l0 < s1.remove(k).len() && s1.remove(k)[l0] == x;
                let l = if l0 < k {
                    l0
                } else {
                    l0 + 1
                };
                assert(s1[l] == x);
                assert(l != k);
                assert(key(s1[k]) == key(s1[l]));
                assert(false);
            } else {
                assert(s2.contains(x)) by {
                    assert(s2[i] == x);
                }
                assert(s2.contains(y)) by {
                    assert(s2[j] == y);
                }
                assert(s1.to_multiset().count(x) > 0);
                assert(s1.to_multiset().count(y) > 0);
                assert(s1.contains(x));
                assert(s1.contains(y));
                let k = choose|k: int| 0 <= k < s1.len() && s1[k] == x;
                let l = choose|l: int| 0 <= l < s1.len() && s1[l] == y;
                assert(k != l);
                assert(key(s1[k]) == key(s1[l]));
                assert(false);
            }
        }
    }
}

/// Mapping a function over two sequences with the same entries yields
/// sequences with the same entries.
pub proof fn lemma_map_values_multiset<A, B>(s1: Seq<A>, s2: Seq<A>, f: spec_fn(A) -> B)
    requires
        s1.to_multiset() == s2.to_multiset(),
    ensures
        s1.map_values(f).to_multiset() == s2.map_values(f).to_multiset(),
    decreases s1.len(),
{
    broadcast use vstd::seq_lib::group_to_multiset_ensures;

    if s1.len() == 0 {
        assert(s2.to_multiset().len() == 0);
        assert(s1.map_values(f) =~= s2.map_values(f));
    } else {
        assert(s2.contains(s1[0])) by {
            assert(s1.to_multiset().count(s1[0]) > 0);
        }
        let j = choose|j: int| 0 <= j < s2.len() && s2[j] == s1[0];
        let t1 = s1.remove(0);
        let t2 = s2.remove(j);
        assert(t1.to_multiset() == t2.to_multiset()) by {
            assert(s1.remove(0).to_multiset() =~= s1.to_multiset().remove(s1[0]));
            assert(s2.remove(j).to_multiset() =~= s2.to_multiset().remove(s2[j]));
        }
        lemma_map_values_multiset(t1, t2, f);
        assert(s1.map_values(f).remove(0) =~= t1.map_values(f));
        assert(s2.map_values(f).remove(j) =~= t2.map_values(f));
        assert(s1.map_values(f).remove(0).to_multiset() =~= s1.map_values(f).to_multiset().remove(
            f(s1[0]),
        ));
        assert(s2.map_values(f).remove(j).to_multiset() =~= s2.map_values(f).to_multiset().remove(
            f(s2[j]),
        ));
        let m1 = s1.map_values(f).to_multiset();
        let m2 = s2.map_values(f).to_multiset();
        assert(m1.remove(f(s1[0])) == m2.remove(f(s2[j])));
        assert(s1.map_values(f).contains(f(s1[0]))) by {
            assert(s1.map_values(f)[0] == f(s1[0]));
        }
        assert(s2.map_values(f).contains(f(s2[j]))) by {
            assert(s2.map_values(f)[j] == f(s2[j]));
        }
        assert(m1.count(f(s1[0])) > 0);
        assert(m2.count(f(s2[j])) > 0);
        assert(m1 =~= m1.remove(f(s1[0])).insert(f(s1[0])));
        assert(m2 =~= m2.remove(f(s2[j])).insert(f(s2[j])));
        assert(m1 == m2);
    }
}

} // verus!
