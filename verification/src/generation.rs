//! The population manager: a variable-size pool of organisms evolved by a
//! non-generational, tournament-free replacement policy.
use vstd::prelude::*;

use crate::gene::Gene;
use crate::laws::{fitnesses, lemma_seq_min_unique, seq_min};
use crate::organism::Organism;
use crate::replacement::{choose_replacement, replacement_choice, Replacement};
use crate::rng::{rand_flip, shuffle_vec};
use crate::strategy::Strategy;
use crate::GaError;

verus! {

/// Who survives the replacement decision of one step, in push order: the
/// ordered parents `p1 <= p2`, the ordered children `c1 <= c2`, and the
/// fresh organism that only the residual branch injects.
pub open spec fn replacement_survivors<S: Strategy>(
    p1: Organism<S>,
    p2: Organism<S>,
    c1: Organism<S>,
    c2: Organism<S>,
    fresh: Organism<S>,
) -> Seq<Organism<S>> {
    match replacement_choice(
        p1.fitness_spec(),
        p2.fitness_spec(),
        c1.fitness_spec(),
        c2.fitness_spec(),
    ) {
        Replacement::KeepParentAndChildren => seq![p1, c1, c2],
        Replacement::KeepBestParent => seq![p1],
        Replacement::KeepParentAndBestChild => seq![p1, c1],
        Replacement::RefreshWithBestChild => seq![c1, fresh],
    }
}

/// What one successful step does to the pool.  `topped` is the pool after
/// the floor was restored (the old pool plus fresh organisms up to size
/// two), `shuffled` a permutation of it; the last two of `shuffled` leave as
/// parents and are ordered by fitness into `p1 <= p2`; `c1 <= c2` are the
/// ordered children of the lineage; the rest of `shuffled` stays, followed
/// by exactly the survivors that the replacement rule names, the residual
/// branch injecting the fresh organism.
pub open spec fn step_relation<S: Strategy + Copy, F: OrganismFactory<S>>(
    g0: Generation<S, F>,
    g1: Generation<S, F>,
    topped: Seq<Organism<S>>,
    shuffled: Seq<Organism<S>>,
    c1: Organism<S>,
    c2: Organism<S>,
    fresh: Organism<S>,
) -> bool {
    let n = topped.len() as int;
    let q1 = shuffled[n - 1];
    let q2 = shuffled[n - 2];
    let p1 = if q1.fitness_spec() > q2.fitness_spec() {
        q2
    } else {
        q1
    };
    let p2 = if q1.fitness_spec() > q2.fitness_spec() {
        q1
    } else {
        q2
    };
    &&& n == if g0.pool_len() >= 2 {
        g0.pool_len()
    } else {
        2
    }
    &&& topped.subrange(0, g0.pool_len()) == g0.pool()
    &&& (forall|i: int| 0 <= i < n ==> g0.org_ok(#[trigger] topped[i]))
    &&& shuffled.to_multiset() == topped.to_multiset()
    &&& shuffled.len() == n
    &&& g0.org_ok(c1)
    &&& g0.org_ok(c2)
    &&& g0.org_ok(fresh)
    &&& c1.fitness_spec() <= c2.fitness_spec()
    &&& g1.pool() == shuffled.take(n - 2) + replacement_survivors(p1, p2, c1, c2, fresh)
}

/// A callback able to produce one fresh, independently randomized organism
/// of a fixed lineage on demand.
pub trait OrganismFactory<S: Strategy>: Sized {
    /// The factory's own validity.
    spec fn wf(&self) -> bool;

    /// The fixed slot domains every produced organism carries, in order.
    spec fn doms_spec(&self) -> Seq<Seq<u64>>;

    /// Produces one fresh organism: well formed, with exactly the factory's
    /// slot domains.  Its values are randomized, so nothing is said of them.
    fn make(&self) -> (o: Organism<S>)
        requires
            self.wf(),
        ensures
            o.genes_wf(),
            o.doms() == self.doms_spec(),
    ;
}

/// The spec-level picture of a list of domain vectors.
pub open spec fn domain_views(domains: Seq<Vec<u64>>) -> Seq<Seq<u64>> {
    domains.map(|i: int, d: Vec<u64>| d@)
}

/// The standard factory: it clones a fixed, validated domain list and
/// randomizes every gene of the fresh organism.
pub struct DomainFactory<S> {
    domains: Vec<Vec<u64>>,
    strategy: S,
}

impl<S: Strategy + Copy> DomainFactory<S> {
    /// Builds a factory over the given slot domains; an empty domain is
    /// rejected.
    pub fn new(domains: Vec<Vec<u64>>, strategy: S) -> (r: Result<DomainFactory<S>, GaError>)
        ensures
            (forall|i: int| 0 <= i < domains@.len() ==> (#[trigger] domains@[i])@.len() > 0) ==> (
            r matches Ok(f) && f.wf() && f.doms_spec() == domain_views(domains@)),
            (exists|i: int| 0 <= i < domains@.len() && (#[trigger] domains@[i])@.len() == 0)
                ==> r == Err::<DomainFactory<S>, GaError>(GaError::EmptyDomainError),
    {
        let mut i: usize = 0;
        while i < domains.len()
            invariant
                i <= domains@.len(),
                forall|k: int| 0 <= k < i ==> (#[trigger] domains@[k])@.len() > 0,
            decreases domains@.len() - i,
        {
            if domains[i].len() == 0 {
                return Err(GaError::EmptyDomainError);
            }
            i += 1;
        }
        Ok(DomainFactory { domains, strategy })
    }
}

impl<S: Strategy + Copy> OrganismFactory<S> for DomainFactory<S> {
    closed spec fn wf(&self) -> bool {
        forall|i: int| 0 <= i < self.domains@.len() ==> (#[trigger] self.domains@[i])@.len() > 0
    }

    closed spec fn doms_spec(&self) -> Seq<Seq<u64>> {
        domain_views(self.domains@)
    }

    fn make(&self) -> (o: Organism<S>) {
        let mut genes: Vec<Gene> = Vec::new();
        let mut i: usize = 0;
        while i < self.domains.len()
            invariant
                self.wf(),
                i <= self.domains@.len(),
                genes@.len() == i,
                forall|k: int| 0 <= k < i ==> (#[trigger] genes@[k])@.cands == self.domains@[k]@,
                forall|k: int| 0 <= k < i ==> (#[trigger] genes@[k])@.wf(),
            decreases self.domains@.len() - i,
        {
            let c = crate::copy_vec(&self.domains[i]);
            let mut g = Gene::from_domain(c);
            g.mutate();
            genes.push(g);
            i += 1;
        }
        let o = Organism::new(genes, self.strategy);
        proof {
            assert(o.doms() =~= self.doms_spec());
        }
        o
    }
}

/// The population manager.  The pool is exclusively owned; a step keeps it
/// at size two or more before selection and applies the replacement rule.
pub struct Generation<S, F> {
    random_organism_generator: F,
    local_organisms: Vec<Organism<S>>,
}

impl<S: Strategy + Copy, F: OrganismFactory<S>> Generation<S, F> {
    /// The current pool.
    pub closed spec fn pool(&self) -> Seq<Organism<S>> {
        self.local_organisms@
    }

    /// The bound factory.
    pub closed spec fn factory(&self) -> F {
        self.random_organism_generator
    }

    /// The current pool size.
    pub open spec fn pool_len(&self) -> int {
        self.pool().len() as int
    }

    /// The lineage's slot domains, as the factory fixes them.
    pub open spec fn doms_spec(&self) -> Seq<Seq<u64>> {
        self.factory().doms_spec()
    }

    /// The fitness values of the pool, in pool order.
    pub open spec fn pool_fitnesses(&self) -> Seq<i64> {
        fitnesses(self.pool())
    }

    /// An organism that belongs to this generation's lineage.
    pub open spec fn org_ok(&self, o: Organism<S>) -> bool {
        o.genes_wf() && o.dom_mset() == self.doms_spec().to_multiset() && o.len_spec()
            == self.doms_spec().len()
    }

    /// The generation invariant: a valid factory and a pool of organisms of
    /// its lineage.
    pub open spec fn wf(&self) -> bool {
        self.factory().wf() && forall|i: int|
            0 <= i < self.pool().len() ==> self.org_ok(#[trigger] self.pool()[i])
    }

    /// Starts a generation with one fresh organism in the pool.
    pub fn new(random_organism_generator: F) -> (g: Generation<S, F>)
        requires
            random_organism_generator.wf(),
        ensures
            g.wf(),
            g.pool_len() == 1,
            g.doms_spec() == random_organism_generator.doms_spec(),
    {
        let o = random_organism_generator.make();
        let mut pool: Vec<Organism<S>> = Vec::new();
        pool.push(o);
        Generation { random_organism_generator, local_organisms: pool }
    }

    /// Restores the pool floor: after the call the pool holds at least two
    /// organisms, existing organisms untouched.
    pub fn top_up_pool(&mut self)
        requires
            old(self).wf(),
        ensures
            final(self).wf(),
            final(self).pool_len() >= 2,
            final(self).doms_spec() == old(self).doms_spec(),
            old(self).pool_len() >= 2 ==> final(self).pool() == old(self).pool(),
            old(self).pool_len() < 2 ==> final(self).pool_len() == 2,
            final(self).pool().subrange(0, old(self).pool_len()) == old(self).pool(),
    {
        let ghost p0 = self.pool();
        let ghost f0 = self.factory();
        while self.local_organisms.len() < 2
            invariant
                self.wf(),
                self.factory() == f0,
                self.pool().len() >= p0.len(),
                self.pool().subrange(0, p0.len() as int) == p0,
                p0.len() >= 2 ==> self.pool() == p0,
                self.pool().len() <= 2 || self.pool() == p0,
            decreases 2 - self.pool().len(),
        {
            let o = self.random_organism_generator.make();
            self.local_organisms.push(o);
            proof {
                assert(self.pool().subrange(0, p0.len() as int) =~= p0);
            }
        }
    }

    /// One steady-state step: top the pool up to the floor, select two
    /// parents at random, order them, recombine, mutate exactly one child,
    /// order the children, and apply the replacement rule.  A lineage whose
    /// chromosomes are shorter than four slots cannot be recombined and is
    /// rejected, leaving the topped-up pool unchanged.
    pub fn step(&mut self) -> (r: Result<(), GaError>)
        requires
            old(self).wf(),
        ensures
            final(self).wf(),
            final(self).doms_spec() == old(self).doms_spec(),
            old(self).doms_spec().len() >= 4 ==> r is Ok,
            old(self).doms_spec().len() < 4 ==> r == Err::<(), GaError>(
                GaError::InvariantViolationError,
            ),
            ({
                let start = if old(self).pool_len() >= 2 {
                    old(self).pool_len()
                } else {
                    2
                };
                &&& (r is Ok ==> (final(self).pool_len() == start + 1 || final(self).pool_len()
                    == start || final(self).pool_len() == start - 1))
                &&& (r is Err ==> final(self).pool_len() == start)
            }),
            final(self).pool_len() >= 1,
            r is Ok ==> exists|
                topped: Seq<Organism<S>>,
                shuffled: Seq<Organism<S>>,
                c1: Organism<S>,
                c2: Organism<S>,
                fresh: Organism<S>,
            |
                step_relation(*old(self), *final(self), topped, shuffled, c1, c2, fresh),
    {
        self.top_up_pool();
        let ghost topped = self.pool();
        let chrom_len = self.local_organisms[0].genes_len();
        proof {
            assert(self.org_ok(self.pool()[0]));
            assert(chrom_len == self.doms_spec().len());
        }
        if chrom_len < 4 {
            return Err(GaError::InvariantViolationError);
        }
        let ghost f0 = self.factory();
        shuffle_vec(&mut self.local_organisms);
        proof {
            assert(self.factory() == f0);
            assert forall|i: int|
                0 <= i < self.pool().len() implies self.org_ok(#[trigger] self.pool()[i]) by {
                broadcast use vstd::seq_lib::group_to_multiset_ensures;

                assert(self.pool().contains(self.pool()[i]));
                assert(self.pool().to_multiset().count(self.pool()[i]) > 0);
                assert(topped.to_multiset().count(self.pool()[i]) > 0);
                assert(topped.contains(self.pool()[i]));
                let j = choose|j: int| 0 <= j < topped.len() && topped[j] == self.pool()[i];
            }
        }
        let ghost ga = *self;
        let mut p1 = self.local_organisms.pop().unwrap();
        let mut p2 = self.local_organisms.pop().unwrap();
        let ghost q1 = p1;
        let ghost q2 = p2;
        proof {
            assert(self.factory() == ga.factory());
            assert(p1 == ga.pool()[ga.pool().len() - 1]);
            assert(p2 == ga.pool()[ga.pool().len() - 2]);
            assert(ga.org_ok(p1));
            assert(ga.org_ok(p2));
            assert(self.org_ok(p1));
            assert(self.org_ok(p2));
        }
        if p1.fitness() > p2.fitness() {
            let temp = p1;
            p1 = p2;
            p2 = temp;
        }
        proof {
            assert(p1 == if q1.fitness_spec() > q2.fitness_spec() {
                q2
            } else {
                q1
            });
            assert(p2 == if q1.fitness_spec() > q2.fitness_spec() {
                q1
            } else {
                q2
            });
        }
        let cres = p1.crossover(&p2);
        let cpair = match cres {
            Ok(c) => c,
            Err(e) => {
                return Err(e);
            },
        };
        let (mut c1, mut c2) = cpair;
        if rand_flip() {
            c1.mutate();
        } else {
            c2.mutate();
        }
        if c1.fitness() > c2.fitness() {
            let temp = c1;
            c1 = c2;
            c2 = temp;
        }
        proof {
            assert(self.org_ok(p1));
            assert(self.org_ok(p2));
            assert(self.org_ok(c1));
            assert(self.org_ok(c2));
            assert(c1.fitness_spec() <= c2.fitness_spec());
        }
        let ghost gb = *self;
        let ghost p1g = p1;
        let ghost p2g = p2;
        let ghost c1g = c1;
        let ghost c2g = c2;
        let ghost mut freshw = c1;
        let choice = choose_replacement(p1.fitness(), p2.fitness(), c1.fitness(), c2.fitness());
        match choice {
            Replacement::KeepParentAndChildren => {
                self.local_organisms.push(p1);
                self.local_organisms.push(c1);
                self.local_organisms.push(c2);
                proof {
                    assert(self.pool() =~= gb.pool() + seq![p1g, c1g, c2g]);
                }
            },
            Replacement::KeepBestParent => {
                self.local_organisms.push(p1);
                proof {
                    assert(self.pool() =~= gb.pool() + seq![p1g]);
                }
            },
            Replacement::KeepParentAndBestChild => {
                self.local_organisms.push(p1);
                self.local_organisms.push(c1);
                proof {
                    assert(self.pool() =~= gb.pool() + seq![p1g, c1g]);
                }
            },
            Replacement::RefreshWithBestChild => {
                self.local_organisms.push(c1);
                let fresh = self.random_organism_generator.make();
                proof {
                    freshw = fresh;
                }
                self.local_organisms.push(fresh);
                proof {
                    assert(self.pool() =~= gb.pool() + seq![c1g, freshw]);
                }
            },
        }
        proof {
            assert forall|i: int|
                0 <= i < self.pool().len() implies self.org_ok(#[trigger] self.pool()[i]) by {
                if i < gb.pool().len() {
                    assert(self.pool()[i] == gb.pool()[i]);
                    assert(gb.pool()[i] == ga.pool()[i]);
                    assert(ga.org_ok(ga.pool()[i]));
                }
            }
            let g0 = *old(self);
            let n = topped.len() as int;
            assert(gb.pool() =~= ga.pool().take(n - 2));
            assert(self.org_ok(freshw) && freshw.genes_wf());
            assert(g0.org_ok(c1g) && g0.org_ok(c2g) && g0.org_ok(freshw)) by {
                assert(g0.doms_spec() == self.doms_spec());
            }
            assert forall|i: int| 0 <= i < n implies g0.org_ok(#[trigger] topped[i]) by {
                assert(g0.doms_spec() == self.doms_spec());
            }
            assert(self.pool() == ga.pool().take(n - 2) + replacement_survivors(
                p1g,
                p2g,
                c1g,
                c2g,
                freshw,
            ));
            assert(step_relation(g0, *self, topped, ga.pool(), c1g, c2g, freshw));
        }
        Ok(())
    }

    /// The organism of minimum fitness currently in the pool; ties break to
    /// the first minimum in iteration order.
    pub fn best_organism(&self) -> (r: &Organism<S>)
        requires
            self.wf(),
            self.pool_len() >= 1,
        ensures
            exists|i: int|
                0 <= i < self.pool_len() && self.pool()[i] == *r && (forall|j: int|
                    0 <= j < i ==> #[trigger] self.pool_fitnesses()[j] > r.fitness_spec()),
            forall|j: int|
                0 <= j < self.pool_len() ==> r.fitness_spec() <= #[trigger] self.pool_fitnesses()[j],
            r.fitness_spec() == seq_min(self.pool_fitnesses()),
    {
        let mut best_i: usize = 0;
        let mut best_f = self.local_organisms[0].fitness();
        let mut i: usize = 1;
        while i < self.local_organisms.len()
            invariant
                1 <= i <= self.pool().len(),
                (best_i as int) < i,
                best_f == self.pool_fitnesses()[best_i as int],
                forall|j: int| 0 <= j < i ==> best_f <= #[trigger] self.pool_fitnesses()[j],
                forall|j: int| 0 <= j < best_i ==> #[trigger] self.pool_fitnesses()[j] > best_f,
            decreases self.pool().len() - i,
        {
            let f = self.local_organisms[i].fitness();
            if f < best_f {
                best_f = f;
                best_i = i;
            }
            i += 1;
        }
        let r = &self.local_organisms[best_i];
        proof {
            assert(r.fitness_spec() == self.pool_fitnesses()[best_i as int]);
            assert(self.pool_fitnesses().contains(best_f)) by {
                assert(self.pool_fitnesses()[best_i as int] == best_f);
            }
            lemma_seq_min_unique(self.pool_fitnesses(), best_f);
        }
        r
    }

    /// The current pool size.
    pub fn local_organisms_count(&self) -> (n: usize)
        ensures
            n == self.pool_len(),
    {
        self.local_organisms.len()
    }
}

} // verus!
