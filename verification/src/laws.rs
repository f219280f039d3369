//! Pool-level facts about fitness bookkeeping.
use vstd::prelude::*;

use crate::organism::Organism;
use crate::strategy::Strategy;

verus! {

/// The minimum of a non-empty sequence of fitness values.
pub open spec fn seq_min(s: Seq<i64>) -> i64
    recommends
        s.len() > 0,
    decreases s.len(),
{
    if s.len() <= 1 {
        s[0]
    } else {
        let m = seq_min(s.drop_last());
        if s.last() < m {
            s.last()
        } else {
            m
        }
    }
}

/// The fitness values of a pool, in pool order.
pub open spec fn fitnesses<S: Strategy>(pool: Seq<Organism<S>>) -> Seq<i64> {
    pool.map(|i: int, o: Organism<S>| o.fitness_spec())
}

/// `seq_min` is an element of the sequence and a lower bound of it.
pub proof fn lemma_seq_min_in(s: Seq<i64>)
    requires
        s.len() > 0,
    ensures
        s.contains(seq_min(s)),
        forall|i: int| 0 <= i < s.len() ==> seq_min(s) <= #[trigger] s[i],
    decreases s.len(),
{
    if s.len() == 1 {
        assert(s[0] == seq_min(s));
    } else {
        let dl = s.drop_last();
        lemma_seq_min_in(dl);
        let m = seq_min(dl);
        let k = choose|k: int| 0 <= k < dl.len() && dl[k] == m;
        assert(s[k] == m);
        if s.last() < m {
            assert(s[s.len() - 1] == seq_min(s));
        }
        assert(s.contains(seq_min(s)));
        assert forall|i: int| 0 <= i < s.len() implies seq_min(s) <= #[trigger] s[i] by {
            if i < s.len() - 1 {
                assert(dl[i] == s[i]);
            }
        }
    }
}

/// Any element that is a lower bound of the sequence is its minimum.
pub proof fn lemma_seq_min_unique(s: Seq<i64>, m: i64)
    requires
        s.contains(m),
        forall|i: int| 0 <= i < s.len() ==> m <= #[trigger] s[i],
    ensures
        seq_min(s) == m,
{
    lemma_seq_min_in(s);
    let i = choose|i: int| 0 <= i < s.len() && s[i] == m;
    let j = choose|j: int| 0 <= j < s.len() && s[j] == seq_min(s);
    assert(m <= s[j]);
    assert(seq_min(s) <= s[i]);
}

/// The best fitness of a pool is invariant under pool reordering: it depends
/// only on the multiset of organisms in the pool, not on their order.
pub proof fn lemma_best_fitness_reorder_invariant<S: Strategy>(
    s1: Seq<Organism<S>>,
    s2: Seq<Organism<S>>,
)
    requires
        s1.len() > 0,
        s1.to_multiset() == s2.to_multiset(),
    ensures
        s2.len() > 0,
        seq_min(fitnesses(s1)) == seq_min(fitnesses(s2)),
{
    broadcast use vstd::seq_lib::group_to_multiset_ensures;

    assert(s1.len() == s1.to_multiset().len());
    assert(s2.len() == s2.to_multiset().len());
    lemma_seq_min_in(fitnesses(s1));
    lemma_seq_min_in(fitnesses(s2));
    let f1 = fitnesses(s1);
    let f2 = fitnesses(s2);
    let i1 = choose|i: int| 0 <= i < f1.len() && f1[i] == seq_min(f1);
    assert(s1.contains(s1[i1]));
    assert(s1.to_multiset().count(s1[i1]) > 0);
    assert(s2.to_multiset().count(s1[i1]) > 0);
    assert(s2.contains(s1[i1]));
    let j1 = choose|j: int| 0 <= j < s2.len() && s2[j] == s1[i1];
    assert(f2[j1] == seq_min(f1));
    assert(seq_min(f2) <= seq_min(f1));
    let i2 = choose|i: int| 0 <= i < f2.len() && f2[i] == seq_min(f2);
    assert(s2.contains(s2[i2]));
    assert(s2.to_multiset().count(s2[i2]) > 0);
    assert(s1.to_multiset().count(s2[i2]) > 0);
    assert(s1.contains(s2[i2]));
    let j2 = choose|j: int| 0 <= j < s1.len() && s1[j] == s2[i2];
    assert(f1[j2] == seq_min(f2));
    assert(seq_min(f1) <= seq_min(f2));
}

} // verus!
