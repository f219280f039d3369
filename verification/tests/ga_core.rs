use steady_ga::gene::Gene;
use steady_ga::generation::{DomainFactory, Generation};
use steady_ga::organism::Organism;
use steady_ga::replacement::{choose_replacement, Replacement};
use steady_ga::strategy::SumStrategy;
use steady_ga::GaError;

fn sum_strategy() -> SumStrategy {
    SumStrategy { feasible_flag: true }
}

#[test]
fn gene_new_empty_domain_rejected() {
    let r = Gene::new(Vec::new());
    assert!(r.is_err());
    assert_eq!(r.err().unwrap(), GaError::EmptyDomainError);
}

#[test]
fn gene_new_starts_at_first_candidate() {
    let g = Gene::new(vec![7, 3, 9]).unwrap();
    assert_eq!(g.value(), 7);
    assert_eq!(g.candidates().as_slice(), &[7, 3, 9]);
}

#[test]
fn gene_set_value_outside_domain_rejected() {
    let mut g = Gene::new(vec![1, 2]).unwrap();
    assert!(g.set_value(2).is_ok());
    assert_eq!(g.value(), 2);
    let r = g.set_value(5);
    assert_eq!(r.err().unwrap(), GaError::InvariantViolationError);
    assert_eq!(g.value(), 2);
}

#[test]
fn gene_mutate_stays_in_domain() {
    let mut g = Gene::new(vec![1, 2, 3]).unwrap();
    for _ in 0..100 {
        g.mutate();
        assert!(g.candidates().contains(&g.value()));
    }
}

#[test]
fn organism_fitness_is_sum_of_values() {
    let genes = vec![
        Gene::new(vec![7]).unwrap(),
        Gene::new(vec![3]).unwrap(),
        Gene::new(vec![9]).unwrap(),
        Gene::new(vec![1]).unwrap(),
    ];
    let o = Organism::new(genes, sum_strategy());
    assert_eq!(o.fitness(), 20);
}

#[test]
fn organism_mutate_keeps_values_valid() {
    let genes = vec![
        Gene::new(vec![1, 2, 3]).unwrap(),
        Gene::new(vec![4, 5]).unwrap(),
        Gene::new(vec![6, 7]).unwrap(),
        Gene::new(vec![8, 9]).unwrap(),
    ];
    let mut o = Organism::new(genes, sum_strategy());
    for _ in 0..50 {
        o.mutate();
        for g in o.genes() {
            assert!(g.candidates().contains(&g.value()));
        }
    }
}

#[test]
fn crossover_too_short_rejected() {
    let p1 = Organism::new(
        vec![Gene::new(vec![1, 2]).unwrap(), Gene::new(vec![3, 4]).unwrap()],
        sum_strategy(),
    );
    let p2 = Organism::new(
        vec![Gene::new(vec![1, 2]).unwrap(), Gene::new(vec![3, 4]).unwrap()],
        sum_strategy(),
    );
    let r = p1.crossover(&p2);
    assert_eq!(r.err().unwrap(), GaError::InvariantViolationError);
}

fn count_genes_with_domain<S>(o: &Organism<S>, dom: &[u64]) -> usize
where
    S: steady_ga::strategy::Strategy,
{
    o.genes()
        .iter()
        .filter(|g| g.candidates().as_slice() == dom)
        .count()
}

#[test]
fn crossover_preserves_domain_multisets() {
    let doms: [&[u64]; 4] = [&[1, 2], &[3, 4], &[5, 6], &[7, 8]];
    let make = |second: bool| {
        let mut genes = Vec::new();
        for d in doms.iter() {
            let mut g = Gene::new(d.to_vec()).unwrap();
            if second {
                g.set_value(d[1]).unwrap();
            }
            genes.push(g);
        }
        Organism::new(genes, sum_strategy())
    };
    let p1 = make(false);
    let p2 = make(true);
    for _ in 0..20 {
        let (c1, c2) = p1.crossover(&p2).unwrap();
        for c in [&c1, &c2] {
            assert_eq!(c.genes().len(), 4);
            for d in doms.iter() {
                assert_eq!(count_genes_with_domain(c, d), 1);
            }
            for g in c.genes() {
                assert!(g.candidates().contains(&g.value()));
            }
        }
    }
}

#[test]
fn exchange_full_range_swaps_values_and_keeps_slots() {
    // two genes, domains [1,2] and [3,4]; parents (1,3) and (2,4)
    let p1 = Organism::new(
        vec![Gene::new(vec![1, 2]).unwrap(), Gene::new(vec![3, 4]).unwrap()],
        sum_strategy(),
    );
    let mut g0 = Gene::new(vec![1, 2]).unwrap();
    g0.set_value(2).unwrap();
    let mut g1 = Gene::new(vec![3, 4]).unwrap();
    g1.set_value(4).unwrap();
    let p2 = Organism::new(vec![g0, g1], sum_strategy());
    let mut c1 = p1.clone();
    let mut c2 = p2.clone();
    Organism::exchange_segment(&mut c1, &mut c2, 0, 1);
    // each child holds one gene per domain, never two from the same domain
    for c in [&c1, &c2] {
        assert_eq!(count_genes_with_domain(c, &[1, 2]), 1);
        assert_eq!(count_genes_with_domain(c, &[3, 4]), 1);
    }
    let c1_vals: Vec<u64> = c1.genes().iter().map(|g| g.value()).collect();
    let c2_vals: Vec<u64> = c2.genes().iter().map(|g| g.value()).collect();
    assert_eq!(c1_vals, vec![2, 4]);
    assert_eq!(c2_vals, vec![1, 3]);
}

#[test]
fn replacement_branches_are_decided_in_priority_order() {
    // both children at least as good as the better parent
    assert_eq!(
        choose_replacement(10, 20, 5, 10),
        Replacement::KeepParentAndChildren
    );
    // even the better child is worse than the worse parent
    assert_eq!(choose_replacement(10, 20, 25, 30), Replacement::KeepBestParent);
    // the better child lies between the parents
    assert_eq!(
        choose_replacement(10, 20, 15, 25),
        Replacement::KeepParentAndBestChild
    );
    // the better child ties the better parent, the worse child does not
    assert_eq!(
        choose_replacement(10, 20, 5, 15),
        Replacement::RefreshWithBestChild
    );
}

#[test]
fn single_value_domains_converge_to_fixed_sum() {
    // chromosome length 4, every domain a single fixed value: mutation is a
    // no-op and crossover swaps identical values, so the best fitness is the
    // fixed sum after any number of steps
    let domains = vec![vec![7], vec![3], vec![9], vec![1]];
    let factory = DomainFactory::new(domains, sum_strategy()).unwrap();
    let mut g = Generation::new(factory);
    assert_eq!(g.local_organisms_count(), 1);
    assert_eq!(g.best_organism().fitness(), 20);
    for _ in 0..30 {
        g.step().unwrap();
        assert_eq!(g.best_organism().fitness(), 20);
        assert!(g.local_organisms_count() >= 1);
    }
}

#[test]
fn short_lineage_step_is_rejected() {
    let domains = vec![vec![1], vec![2]];
    let factory = DomainFactory::new(domains, sum_strategy()).unwrap();
    let mut g = Generation::new(factory);
    let r = g.step();
    assert_eq!(r.err().unwrap(), GaError::InvariantViolationError);
    // the pool was still topped up to the floor
    assert_eq!(g.local_organisms_count(), 2);
}

#[test]
fn empty_domain_factory_rejected() {
    let domains = vec![vec![1], Vec::new()];
    let r = DomainFactory::new(domains, sum_strategy());
    assert_eq!(r.err().unwrap(), GaError::EmptyDomainError);
}

#[test]
fn feasibility_flag_has_no_effect_on_convergence() {
    // the feasibility predicate is supplied but unconsulted: an engine whose
    // predicate always fails converges exactly as one whose predicate holds
    let run = |flag: bool| {
        let domains = vec![vec![7], vec![3], vec![9], vec![1]];
        let strat = SumStrategy { feasible_flag: flag };
        let factory = DomainFactory::new(domains, strat).unwrap();
        let mut g = Generation::new(factory);
        for _ in 0..20 {
            g.step().unwrap();
        }
        g.best_organism().fitness()
    };
    assert_eq!(run(false), run(true));
}

#[test]
fn pool_never_falls_below_floor_over_many_steps() {
    // start from the smallest pool and run many steps: even when the
    // shrinking branch fires, the floor is re-established at the top of the
    // next step, so the engine keeps running and the pool stays usable
    let domains = vec![vec![0, 9], vec![0, 9], vec![0, 9], vec![0, 9]];
    let factory = DomainFactory::new(domains, sum_strategy()).unwrap();
    let mut g = Generation::new(factory);
    assert_eq!(g.local_organisms_count(), 1);
    for _ in 0..100 {
        g.step().unwrap();
        assert!(g.local_organisms_count() >= 1);
        let _ = g.best_organism().fitness();
    }
}
