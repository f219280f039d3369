//! A steady-state evolutionary search engine.
//!
//! The engine assigns discrete slots to values drawn from per-slot candidate
//! domains and searches for an assignment of low cost under a caller-supplied
//! cost strategy.  Recombination preserves the structural invariant that each
//! chromosome keeps exactly one gene per original slot domain, and the
//! population is managed by a non-generational replacement policy over an
//! unbounded pool.
#![allow(unused_imports)]
use vstd::prelude::*;

mod rng;
pub mod gene;
pub mod generation;
pub mod grid;
pub mod guide;
pub mod island;
pub mod laws;
pub mod organism;
pub mod replacement;
pub mod route;
pub mod strategy;

verus! {

/// A named, non-recoverable construction or lookup failure.
#[derive(Clone, Copy, Debug, PartialEq, Eq, Structural)]
pub enum GaError {
    /// A gene was given an empty candidate domain.
    EmptyDomainError,
    /// A structural rule of the engine was broken, such as a chromosome too
    /// short for crossover or a recipe expansion that never bottoms out.
    InvariantViolationError,
    /// A lookup key was absent from the reference data.
    LookupNotFoundError,
}

/// Copies a vector of plain values element by element.
pub fn copy_vec<T: Copy>(v: &Vec<T>) -> (r: Vec<T>)
    ensures
        r@ == v@,
{
    let mut r: Vec<T> = Vec::new();
    let mut i: usize = 0;
    while i < v.len()
        invariant
            i <= v@.len(),
            r@ == v@.subrange(0, i as int),
        decreases v@.len() - i,
    {
        r.push(v[i]);
        i += 1;
        proof {
            assert(r@ =~= v@.subrange(0, i as int));
        }
    }
    proof {
        assert(r@ =~= v@);
    }
    r
}

/// Structural equality of two value vectors.
pub fn vec_eq_u64(a: &Vec<u64>, b: &Vec<u64>) -> (r: bool)
    ensures
        r == (a@ == b@),
{
    if a.len() != b.len() {
        return false;
    }
    let mut i: usize = 0;
    while i < a.len()
        invariant
            i <= a@.len(),
            a@.len() == b@.len(),
            forall|k: int| 0 <= k < i ==> a@[k] == b@[k],
        decreases a@.len() - i,
    {
        if a[i] != b[i] {
            return false;
        }
        i += 1;
    }
    proof {
        assert(a@ =~= b@);
    }
    true
}

} // verus!
