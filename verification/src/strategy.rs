//! The caller-supplied strategy bound into every organism: a cost function
//! and a feasibility predicate over the chromosome.
use vstd::prelude::*;

use crate::gene::{Gene, GeneModel};

verus! {

/// The spec-level picture of a chromosome.
pub open spec fn gene_models(genes: Seq<Gene>) -> Seq<GeneModel> {
    genes.map(|i: int, g: Gene| g@)
}

/// A pair of injected capabilities: a pure, deterministic cost function
/// (lower is better) and a feasibility predicate.  The predicate is required
/// by the engine but not consulted by its replacement policy.
pub trait Strategy: Sized {
    /// What `cost` returns, as a function of the chromosome alone.
    spec fn cost_spec(&self, genes: Seq<GeneModel>) -> i64;

    /// What `feasible` returns, as a function of the chromosome alone.
    spec fn feasible_spec(&self, genes: Seq<GeneModel>) -> bool;

    /// Total cost of a candidate assignment; lower is better.
    fn cost(&self, genes: &Vec<Gene>) -> (r: i64)
        ensures
            r == self.cost_spec(gene_models(genes@)),
    ;

    /// Whether the assignment is feasible.
    fn feasible(&self, genes: &Vec<Gene>) -> (r: bool)
        ensures
            r == self.feasible_spec(gene_models(genes@)),
    ;
}

impl<'s, S: Strategy> Strategy for &'s S {
    open spec fn cost_spec(&self, genes: Seq<GeneModel>) -> i64 {
        (**self).cost_spec(genes)
    }

    open spec fn feasible_spec(&self, genes: Seq<GeneModel>) -> bool {
        (**self).feasible_spec(genes)
    }

    fn cost(&self, genes: &Vec<Gene>) -> (r: i64) {
        (**self).cost(genes)
    }

    fn feasible(&self, genes: &Vec<Gene>) -> (r: bool) {
        (**self).feasible(genes)
    }
}

/// Saturating addition of an unsigned distance into an `i64` accumulator.
pub open spec fn sat_add(acc: i64, v: u64) -> i64 {
    if acc + v > i64::MAX {
        i64::MAX
    } else {
        (acc + v) as i64
    }
}

/// The values of a chromosome, slot by slot.
pub open spec fn values_of(genes: Seq<GeneModel>) -> Seq<u64> {
    genes.map(|i: int, g: GeneModel| g.value)
}

/// The saturating sum of the first `k` values.
pub open spec fn sum_sat(vals: Seq<u64>, k: int) -> i64
    decreases k,
{
    if k <= 0 {
        0
    } else {
        sat_add(sum_sat(vals, k - 1), vals[k - 1])
    }
}

/// A strategy whose cost is the saturating sum of the gene values and whose
/// feasibility answer is a fixed flag.
#[derive(Clone, Copy)]
pub struct SumStrategy {
    pub feasible_flag: bool,
}

impl Strategy for SumStrategy {
    open spec fn cost_spec(&self, genes: Seq<GeneModel>) -> i64 {
        sum_sat(values_of(genes), genes.len() as int)
    }

    open spec fn feasible_spec(&self, genes: Seq<GeneModel>) -> bool {
        self.feasible_flag
    }

    fn cost(&self, genes: &Vec<Gene>) -> (r: i64) {
        let ghost vals = values_of(gene_models(genes@));
        let mut acc: i64 = 0;
        let mut i: usize = 0;
        while i < genes.len()
            invariant
                i <= genes@.len(),
                vals == values_of(gene_models(genes@)),
                vals.len() == genes@.len(),
                forall|k: int| 0 <= k < genes@.len() ==> vals[k] == genes@[k]@.value,
                acc == sum_sat(vals, i as int),
                acc >= 0,
            decreases genes@.len() - i,
        {
            let v = genes[i].value();
            if v > (i64::MAX - acc) as u64 {
                acc = i64::MAX;
            } else {
                acc = acc + (v as i64);
            }
            i += 1;
        }
        acc
    }

    fn feasible(&self, genes: &Vec<Gene>) -> (r: bool) {
        self.feasible_flag
    }
}

} // verus!
