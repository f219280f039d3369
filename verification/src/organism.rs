//! An organism: an ordered, fixed-length chromosome of genes plus the bound
//! cost/feasibility strategy.
use vstd::prelude::*;

use vstd::multiset::Multiset;

use crate::gene::{Gene, GeneModel};
use crate::rng::{rand_range, sample_indices};
use crate::strategy::{gene_models, Strategy};
use crate::vec_eq_u64;
use crate::GaError;

verus! {

/// Swapping two positions of a sequence leaves its multiset unchanged.
proof fn lemma_swap_preserves_multiset<A>(s: Seq<A>, i: int, j: int)
    requires
        0 <= i < s.len(),
        0 <= j < s.len(),
    ensures
        s.update(j, s[i]).update(i, s[j]).to_multiset() == s.to_multiset(),
{
    broadcast use vstd::seq_lib::group_to_multiset_ensures;

    let t1 = s.update(j, s[i]);
    let t2 = t1.update(i, s[j]);
    assert(s.contains(s[i]));
    assert(s.contains(s[j]));
    assert(t1[i] == s[i]);
    assert(t1.to_multiset() == s.to_multiset().insert(s[i]).remove(s[j]));
    assert(t2.to_multiset() == t1.to_multiset().insert(s[j]).remove(t1[i]));
    assert(t2.to_multiset() =~= s.to_multiset());
}

/// Fewer distinct indices than slots leave some slot unselected.
proof fn lemma_unselected_index(idxs: Seq<int>, len: int)
    requires
        idxs.no_duplicates(),
        forall|k: int| 0 <= k < idxs.len() ==> 0 <= #[trigger] idxs[k] < len,
        idxs.len() < len,
    ensures
        exists|p: int| 0 <= p < len && !idxs.contains(p),
{
    broadcast use vstd::seq_lib::seq_to_set_is_finite;

    if !(exists|p: int| 0 <= p < len && !idxs.contains(p))  {
        idxs.unique_seq_to_set();
        vstd::set_lib::lemma_int_range(0, len);
        assert(vstd::set_lib::set_int_range(0, len).subset_of(idxs.to_set())) by {
            assert forall|x: int|
                vstd::set_lib::set_int_range(0, len).contains(x) implies idxs.to_set().contains(
                x,
            ) by {
                assert(idxs.contains(x));
            }
        }
        vstd::set_lib::lemma_len_subset(vstd::set_lib::set_int_range(0, len), idxs.to_set());
        assert(false);
    }
}

/// An element of one of two sequences with equal multisets is an element of
/// the other.
proof fn lemma_mset_contains<A>(s1: Seq<A>, s2: Seq<A>, x: A)
    requires
        s1.to_multiset() == s2.to_multiset(),
        s1.contains(x),
    ensures
        s2.contains(x),
{
    broadcast use vstd::seq_lib::group_to_multiset_ensures;

    assert(s1.to_multiset().count(x) > 0);
    assert(s2.to_multiset().count(x) > 0);
}

/// The first slot at or after `j` whose candidate domain equals `cands`;
/// the chromosome length when none matches.
pub open spec fn first_match_from(m: Seq<GeneModel>, cands: Seq<u64>, j: int) -> int
    decreases m.len() - j,
    when 0 <= j
{
    if j >= m.len() {
        m.len() as int
    } else if m[j].cands == cands {
        j
    } else {
        first_match_from(m, cands, j + 1)
    }
}

/// One slot-preserving exchange: the first slot carrying the incoming
/// gene's domain is swapped to position `i`, and position `i` then carries
/// the incoming gene.
pub open spec fn apply_gene_model(m: Seq<GeneModel>, i: int, g: GeneModel) -> Seq<GeneModel> {
    let j = first_match_from(m, g.cands, 0);
    m.update(j, m[i]).update(i, g)
}

/// The slot-preserving exchange of position `x` between two chromosomes:
/// each receives the other's old gene at `x`.
pub open spec fn exchange_at(m1: Seq<GeneModel>, m2: Seq<GeneModel>, x: int) -> (
    Seq<GeneModel>,
    Seq<GeneModel>,
) {
    (apply_gene_model(m1, x, m2[x]), apply_gene_model(m2, x, m1[x]))
}

/// The slot-preserving exchange of every position of `a..=b`, in order.
pub open spec fn exchange_models(m1: Seq<GeneModel>, m2: Seq<GeneModel>, a: int, b: int) -> (
    Seq<GeneModel>,
    Seq<GeneModel>,
)
    decreases b + 1 - a,
{
    if a > b {
        (m1, m2)
    } else {
        let e = exchange_at(m1, m2, a);
        exchange_models(e.0, e.1, a + 1, b)
    }
}

/// The segment exchanges of a whole crossover, applied in order.
pub open spec fn exchange_segments(
    m1: Seq<GeneModel>,
    m2: Seq<GeneModel>,
    cuts: Seq<(int, int)>,
) -> (Seq<GeneModel>, Seq<GeneModel>)
    decreases cuts.len(),
{
    if cuts.len() == 0 {
        (m1, m2)
    } else {
        let e = exchange_models(m1, m2, cuts[0].0, cuts[0].1);
        exchange_segments(e.0, e.1, cuts.drop_first())
    }
}

/// Appending one segment to a crossover's cut list applies its exchange
/// after the others.
proof fn lemma_exchange_segments_push(
    m1: Seq<GeneModel>,
    m2: Seq<GeneModel>,
    cuts: Seq<(int, int)>,
    p: (int, int),
)
    ensures
        exchange_segments(m1, m2, cuts.push(p)) == ({
            let e = exchange_segments(m1, m2, cuts);
            exchange_models(e.0, e.1, p.0, p.1)
        }),
    decreases cuts.len(),
{
    if cuts.len() == 0 {
        let e = exchange_models(m1, m2, p.0, p.1);
        assert(cuts.push(p)[0] == p);
        assert(cuts.push(p).drop_first() =~= Seq::<(int, int)>::empty());
        assert(exchange_segments(m1, m2, cuts.push(p)) == exchange_segments(
            e.0,
            e.1,
            Seq::<(int, int)>::empty(),
        ));
        assert(exchange_segments(e.0, e.1, Seq::<(int, int)>::empty()) == (e.0, e.1));
        assert(exchange_segments(m1, m2, cuts) == (m1, m2));
    } else {
        let e1 = exchange_models(m1, m2, cuts[0].0, cuts[0].1);
        lemma_exchange_segments_push(e1.0, e1.1, cuts.drop_first(), p);
        assert(cuts.push(p)[0] == cuts[0]);
        assert(cuts.push(p).drop_first() =~= cuts.drop_first().push(p));
        assert(exchange_segments(m1, m2, cuts.push(p)) == exchange_segments(
            e1.0,
            e1.1,
            cuts.drop_first().push(p),
        ));
        assert(exchange_segments(m1, m2, cuts) == exchange_segments(e1.0, e1.1, cuts.drop_first()));
    }
}

/// What a crossover may produce: the children arise from the parents by one
/// to fewer-than-half-the-length segment exchanges, each within bounds.
pub open spec fn crossover_outcome(
    m1: Seq<GeneModel>,
    m2: Seq<GeneModel>,
    o1: Seq<GeneModel>,
    o2: Seq<GeneModel>,
) -> bool {
    exists|cuts: Seq<(int, int)>|
        {
            &&& 1 <= cuts.len() < m1.len() / 2
            &&& (forall|k: int|
                0 <= k < cuts.len() ==> 0 <= (#[trigger] cuts[k]).0 <= cuts[k].1 < m1.len())
            &&& (o1, o2) == exchange_segments(m1, m2, cuts)
        }
}

/// A chromosome: an ordered sequence of genes, with a strategy bound at
/// construction.  The multiset of gene candidate domains is fixed for the
/// lifetime of a lineage: crossover preserves it, and mutation only changes
/// values.
pub struct Organism<S> {
    genes: Vec<Gene>,
    strategy: S,
}

impl<S: Strategy> Organism<S> {
    /// The spec-level picture of the chromosome.
    pub closed spec fn models(&self) -> Seq<GeneModel> {
        gene_models(self.genes@)
    }

    /// The chromosome length.
    pub open spec fn len_spec(&self) -> int {
        self.models().len() as int
    }

    /// The candidate domains, slot by slot.
    pub open spec fn doms(&self) -> Seq<Seq<u64>> {
        self.models().map(|i: int, g: GeneModel| g.cands)
    }

    /// The current values, slot by slot.
    pub open spec fn vals(&self) -> Seq<u64> {
        self.models().map(|i: int, g: GeneModel| g.value)
    }

    /// The multiset of candidate domains: the lineage identity.
    pub open spec fn dom_mset(&self) -> Multiset<Seq<u64>> {
        self.doms().to_multiset()
    }

    /// The bound strategy.
    pub closed spec fn strat(&self) -> S {
        self.strategy
    }

    /// Every gene is well formed: non-empty domain, value inside it.
    pub open spec fn genes_wf(&self) -> bool {
        forall|i: int| 0 <= i < self.models().len() ==> (#[trigger] self.models()[i]).wf()
    }

    /// The cost of the current assignment, as the strategy defines it.
    pub open spec fn fitness_spec(&self) -> i64 {
        self.strat().cost_spec(self.models())
    }

    /// Binds a chromosome to its strategy.
    pub fn new(genes: Vec<Gene>, strategy: S) -> (o: Organism<S>)
        ensures
            o.models() == gene_models(genes@),
            o.strat() == strategy,
    {
        Organism { genes, strategy }
    }

    /// The cost of the current assignment, recomputed on every call; lower
    /// is better.
    pub fn fitness(&self) -> (r: i64)
        ensures
            r == self.fitness_spec(),
    {
        self.strategy.cost(&self.genes)
    }

    /// Whether the strategy deems the current assignment feasible.
    pub fn feasible(&self) -> (r: bool)
        ensures
            r == self.strat().feasible_spec(self.models()),
    {
        self.strategy.feasible(&self.genes)
    }

    /// Read-only access to the chromosome.
    pub fn genes(&self) -> (g: &Vec<Gene>)
        ensures
            gene_models(g@) == self.models(),
    {
        &self.genes
    }

    /// The chromosome length.
    pub fn genes_len(&self) -> (n: usize)
        ensures
            n == self.len_spec(),
    {
        self.genes.len()
    }

    /// The first slot whose candidate domain equals `cands`.
    fn find_domain_position(&self, cands: &Vec<u64>) -> (j: usize)
        requires
            self.doms().contains(cands@),
        ensures
            0 <= j < self.len_spec(),
            self.doms()[j as int] == cands@,
            j == first_match_from(self.models(), cands@, 0),
    {
        let n = self.genes.len();
        let mut j: usize = 0;
        while j < n
            invariant
                j <= n,
                n == self.len_spec(),
                self.doms().contains(cands@),
                forall|k: int| 0 <= k < j ==> self.doms()[k] != cands@,
                first_match_from(self.models(), cands@, 0) == first_match_from(
                    self.models(),
                    cands@,
                    j as int,
                ),
            decreases n - j,
        {
            proof {
                assert(self.doms()[j as int] == self.genes@[j as int]@.cands);
                assert(self.models()[j as int].cands == self.doms()[j as int]);
            }
            if vec_eq_u64(self.genes[j].candidates(), cands) {
                return j;
            }
            j += 1;
        }
        proof {
            let k = choose|k: int|
                0 <= k < self.doms().len() && self.doms()[k] == cands@;
            assert(false);
        }
        0
    }

    /// Receives one incoming gene at slot `i`: the first slot currently
    /// carrying an identical candidate domain is swapped into position `i`
    /// and takes the incoming value, so no domain is duplicated or dropped;
    /// every other slot is untouched.
    pub(crate) fn apply_new_gene(&mut self, i: usize, gene: &Gene)
        requires
            old(self).genes_wf(),
            gene@.wf(),
            0 <= i < old(self).len_spec(),
            old(self).doms().contains(gene@.cands),
        ensures
            final(self).models() == apply_gene_model(old(self).models(), i as int, gene@),
            final(self).genes_wf(),
            final(self).len_spec() == old(self).len_spec(),
            final(self).dom_mset() == old(self).dom_mset(),
            final(self).models()[i as int] == gene@,
            final(self).strat() == old(self).strat(),
    {
        let ghost m0 = self.models();
        let ghost d0 = self.doms();
        let j = self.find_domain_position(gene.candidates());
        let gi = self.genes[i].clone();
        let mut gj = self.genes[j].clone();
        proof {
            assert(gj@ == m0[j as int]);
            assert(gj@.cands == d0[j as int]);
            assert(gj@.cands == gene@.cands);
            assert(gj@.cands.contains(gene@.value));
        }
        let _ = gj.set_value(gene.value());
        self.genes[j] = gi;
        self.genes[i] = gj;
        proof {
            assert(gj@ =~= gene@);
            let m2 = self.models();
            assert(m2 =~= m0.update(j as int, m0[i as int]).update(i as int, gene@));
            assert(m2 == apply_gene_model(m0, i as int, gene@));
            let d2 = self.doms();
            assert(d2 =~= d0.update(j as int, d0[i as int]).update(i as int, d0[j as int]));
            lemma_swap_preserves_multiset(d0, i as int, j as int);
            assert(forall|k: int|
                0 <= k < m2.len() ==> (#[trigger] m2[k]).wf());
        }
    }

    /// Draws an amount in `[0, len)`, selects that many distinct slots, and
    /// mutates each selected gene; domains never change, only values, and
    /// since fewer slots are selected than exist, at least one gene is left
    /// exactly as it was.
    pub fn mutate(&mut self)
        requires
            old(self).genes_wf(),
            old(self).len_spec() >= 1,
        ensures
            final(self).genes_wf(),
            final(self).doms() == old(self).doms(),
            final(self).len_spec() == old(self).len_spec(),
            final(self).strat() == old(self).strat(),
            exists|sel: Seq<int>|
                {
                    &&& sel.no_duplicates()
                    &&& 0 <= sel.len() < old(self).len_spec()
                    &&& (forall|t: int| 0 <= t < sel.len() ==> 0 <= #[trigger] sel[t] < old(
                        self,
                    ).len_spec())
                    &&& (forall|p: int|
                        0 <= p < old(self).len_spec() && !sel.contains(p)
                            ==> final(self).models()[p] == old(self).models()[p])
                },
            exists|p: int|
                0 <= p < old(self).len_spec() && final(self).models()[p] == old(self).models()[p],
    {
        let ghost m0 = self.models();
        let ghost d0 = self.doms();
        let len = self.genes.len();
        let amount = rand_range(0, len);
        let idxs = sample_indices(len, amount);
        let ghost iseq = idxs@.map(|t: int, v: usize| v as int);
        proof {
            assert forall|t1: int, t2: int|
                0 <= t1 < iseq.len() && 0 <= t2 < iseq.len() && t1 != t2 implies iseq[t1]
                != iseq[t2] by {
                if t1 < t2 {
                    assert(idxs@[t1] != idxs@[t2]);
                } else {
                    assert(idxs@[t2] != idxs@[t1]);
                }
            }
            assert(iseq.no_duplicates());
            lemma_unselected_index(iseq, len as int);
        }
        let mut k: usize = 0;
        while k < idxs.len()
            invariant
                k <= idxs@.len(),
                forall|t: int| 0 <= t < idxs@.len() ==> idxs@[t] < self.len_spec(),
                iseq == idxs@.map(|t: int, v: usize| v as int),
                self.genes_wf(),
                self.doms() == d0,
                self.len_spec() == m0.len(),
                self.strat() == old(self).strat(),
                forall|p: int|
                    0 <= p < m0.len() && !iseq.contains(p) ==> #[trigger] self.models()[p] == m0[p],
            decreases idxs@.len() - k,
        {
            let i = idxs[k];
            let ghost m_before = self.models();
            let ghost d_before = self.doms();
            proof {
                assert(m_before[i as int] == self.genes@[i as int]@);
                assert(m_before[i as int].wf());
            }
            let mut g = self.genes[i].clone();
            g.mutate();
            self.genes[i] = g;
            proof {
                assert(self.models() =~= m_before.update(i as int, g@));
                assert forall|t: int| 0 <= t < self.models().len() implies (
                #[trigger] self.models()[t]).wf() by {
                    if t != i as int {
                        assert(self.models()[t] == m_before[t]);
                    }
                }
                assert(self.doms() =~= d_before);
                assert(iseq[k as int] == i as int);
                assert(iseq.contains(i as int));
            }
            k += 1;
        }
        proof {
            assert(iseq.no_duplicates());
            assert(forall|p: int|
                0 <= p < m0.len() && !iseq.contains(p) ==> #[trigger] self.models()[p] == m0[p]);
            let p = choose|p: int| 0 <= p < len && !iseq.contains(p);
            assert(self.models()[p] == m0[p]);
        }
    }
}

impl<S: Strategy + Copy> Organism<S> {
    /// Exchanges the genes of the two chromosomes over positions `a..=b`,
    /// slot-preservingly: at each position, each side's first slot carrying
    /// the incoming domain is swapped there and takes the incoming value, so
    /// each side keeps exactly one gene per original domain.
    pub fn exchange_segment(c1: &mut Organism<S>, c2: &mut Organism<S>, a: usize, b: usize)
        requires
            old(c1).genes_wf(),
            old(c2).genes_wf(),
            old(c1).dom_mset() == old(c2).dom_mset(),
            old(c1).len_spec() == old(c2).len_spec(),
            a <= b < old(c1).len_spec(),
        ensures
            (final(c1).models(), final(c2).models()) == exchange_models(
                old(c1).models(),
                old(c2).models(),
                a as int,
                b as int,
            ),
            final(c1).genes_wf(),
            final(c2).genes_wf(),
            final(c1).dom_mset() == old(c1).dom_mset(),
            final(c2).dom_mset() == old(c2).dom_mset(),
            final(c1).len_spec() == old(c1).len_spec(),
            final(c2).len_spec() == old(c2).len_spec(),
            final(c1).strat() == old(c1).strat(),
            final(c2).strat() == old(c2).strat(),
    {
        let ghost ms1 = old(c1).dom_mset();
        let ghost ms2 = old(c2).dom_mset();
        let ghost n = old(c1).len_spec();
        let ghost s1 = old(c1).strat();
        let ghost s2 = old(c2).strat();
        let ghost m1_0 = old(c1).models();
        let ghost m2_0 = old(c2).models();
        let n_exec = c1.genes.len();
        let mut x = a;
        while x <= b
            invariant
                a <= x <= b + 1,
                b < n,
                b < n_exec,
                c1.genes_wf(),
                c2.genes_wf(),
                c1.dom_mset() == ms1,
                c2.dom_mset() == ms2,
                ms1 == ms2,
                c1.len_spec() == n,
                c2.len_spec() == n,
                c1.strat() == s1,
                c2.strat() == s2,
                exchange_models(m1_0, m2_0, a as int, b as int) == exchange_models(
                    c1.models(),
                    c2.models(),
                    x as int,
                    b as int,
                ),
            decreases b + 1 - x,
        {
            let ghost m1c = c1.models();
            let ghost m2c = c2.models();
            let old_c1 = c1.genes[x].clone();
            let old_c2 = c2.genes[x].clone();
            proof {
                assert(old_c2@ == c2.models()[x as int]);
                assert(old_c2@.wf());
                assert(c2.doms()[x as int] == old_c2@.cands);
                assert(c2.doms().contains(old_c2@.cands));
                lemma_mset_contains(c2.doms(), c1.doms(), old_c2@.cands);
                assert(old_c1@ == c1.models()[x as int]);
                assert(old_c1@.wf());
                assert(c1.doms()[x as int] == old_c1@.cands);
                assert(c1.doms().contains(old_c1@.cands));
                lemma_mset_contains(c1.doms(), c2.doms(), old_c1@.cands);
            }
            c1.apply_new_gene(x, &old_c2);
            c2.apply_new_gene(x, &old_c1);
            proof {
                assert(old_c2@ == m2c[x as int]);
                assert(old_c1@ == m1c[x as int]);
                assert((c1.models(), c2.models()) == exchange_at(m1c, m2c, x as int));
                assert(exchange_models(m1c, m2c, x as int, b as int) == exchange_models(
                    c1.models(),
                    c2.models(),
                    x + 1,
                    b as int,
                ));
            }
            x += 1;
        }
        proof {
            assert(exchange_models(c1.models(), c2.models(), b + 1, b as int) == (
            c1.models(),
            c2.models(),
            ));
        }
    }

    /// Recombines two parents of the same lineage into two children, both
    /// keeping exactly one gene per original domain and every gene value
    /// inside its own domain.  A chromosome shorter than four slots leaves
    /// the cut-count range empty and is rejected.
    pub fn crossover(&self, other: &Organism<S>) -> (r: Result<
        (Organism<S>, Organism<S>),
        GaError,
    >)
        requires
            self.genes_wf(),
            other.genes_wf(),
            self.dom_mset() == other.dom_mset(),
            self.len_spec() == other.len_spec(),
        ensures
            self.len_spec() < 4 ==> r == Err::<(Organism<S>, Organism<S>), GaError>(
                GaError::InvariantViolationError,
            ),
            self.len_spec() >= 4 ==> (r matches Ok(c) && crossover_outcome(
                self.models(),
                other.models(),
                c.0.models(),
                c.1.models(),
            ) && c.0.genes_wf() && c.1.genes_wf() && c.0.dom_mset() == self.dom_mset()
                && c.1.dom_mset() == other.dom_mset() && c.0.len_spec() == self.len_spec()
                && c.1.len_spec() == other.len_spec() && c.0.strat() == self.strat()
                && c.1.strat() == other.strat()),
    {
        let len = self.genes.len();
        if len < 4 {
            return Err(GaError::InvariantViolationError);
        }
        let mut c1 = self.clone();
        let mut c2 = other.clone();
        let cut_count = rand_range(1, len / 2);
        let ghost mut cuts: Seq<(int, int)> = Seq::empty();
        let mut k: usize = 0;
        while k < cut_count
            invariant
                4 <= len,
                len == self.len_spec(),
                1 <= cut_count < len / 2,
                k <= cut_count,
                cuts.len() == k,
                forall|t: int| 0 <= t < cuts.len() ==> 0 <= (#[trigger] cuts[t]).0 <= cuts[t].1 < len,
                (c1.models(), c2.models()) == exchange_segments(
                    self.models(),
                    other.models(),
                    cuts,
                ),
                c1.genes_wf(),
                c2.genes_wf(),
                c1.dom_mset() == self.dom_mset(),
                c2.dom_mset() == other.dom_mset(),
                self.dom_mset() == other.dom_mset(),
                c1.len_spec() == self.len_spec(),
                c2.len_spec() == other.len_spec(),
                self.len_spec() == other.len_spec(),
                c1.strat() == self.strat(),
                c2.strat() == other.strat(),
            decreases cut_count - k,
        {
            let a = rand_range(0, len);
            let b = rand_range(a, len);
            proof {
                lemma_exchange_segments_push(
                    self.models(),
                    other.models(),
                    cuts,
                    (a as int, b as int),
                );
            }
            Organism::exchange_segment(&mut c1, &mut c2, a, b);
            proof {
                cuts = cuts.push((a as int, b as int));
            }
            k += 1;
        }
        proof {
            assert((c1.models(), c2.models()) == exchange_segments(
                self.models(),
                other.models(),
                cuts,
            ));
            assert(crossover_outcome(self.models(), other.models(), c1.models(), c2.models()));
        }
        Ok((c1, c2))
    }
}

impl<S: Strategy + Copy> Clone for Organism<S> {
    /// Cloning copies the chromosome gene by gene and shares the strategy.
    fn clone(&self) -> (r: Self)
        ensures
            r.models() == self.models(),
            r.strat() == self.strat(),
    {
        let mut genes: Vec<Gene> = Vec::new();
        let mut i: usize = 0;
        while i < self.genes.len()
            invariant
                i <= self.genes@.len(),
                genes@.len() == i,
                forall|k: int| 0 <= k < i ==> genes@[k]@ == self.models()[k],
            decreases self.genes@.len() - i,
        {
            let g = self.genes[i].clone();
            proof {
                assert(self.models()[i as int] == self.genes@[i as int]@);
            }
            genes.push(g);
            i += 1;
        }
        proof {
            assert(gene_models(genes@) =~= self.models());
        }
        Organism { genes, strategy: self.strategy }
    }
}

} // verus!
