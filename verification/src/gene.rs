//! A gene: one assignable slot with a fixed candidate domain and a current
//! value drawn from that domain.
use vstd::prelude::*;

use crate::rng::pick_value;
use crate::GaError;

verus! {

/// The spec-level picture of a gene: its candidate domain and current value.
#[verifier::ext_equal]
pub ghost struct GeneModel {
    pub cands: Seq<u64>,
    pub value: u64,
}

impl GeneModel {
    /// A gene is well formed when its domain is non-empty and its current
    /// value is a member of the domain.
    pub open spec fn wf(self) -> bool {
        self.cands.len() > 0 && self.cands.contains(self.value)
    }
}

/// One slot of a chromosome: a fixed, non-empty candidate domain and a
/// current value, with the invariant `value ∈ candidates`.
pub struct Gene {
    candidates: Vec<u64>,
    value: u64,
}

impl View for Gene {
    type V = GeneModel;

    closed spec fn view(&self) -> GeneModel {
        GeneModel { cands: self.candidates@, value: self.value }
    }
}

impl Clone for Gene {
    /// Cloning copies the domain and the value exactly.
    fn clone(&self) -> (r: Self)
        ensures
            r@ == self@,
    {
        Gene { candidates: crate::copy_vec(&self.candidates), value: self.value }
    }
}

impl Gene {
    pub open spec fn wf(&self) -> bool {
        self@.wf()
    }

    /// A new gene starts at the first domain value; an empty domain is
    /// rejected.
    pub fn new(candidates: Vec<u64>) -> (r: Result<Gene, GaError>)
        ensures
            candidates@.len() > 0 ==> (r matches Ok(g) && g@.cands == candidates@ && g@.value
                == candidates@[0] && g.wf()),
            candidates@.len() == 0 ==> r == Err::<Gene, GaError>(GaError::EmptyDomainError),
    {
        if candidates.len() == 0 {
            return Err(GaError::EmptyDomainError);
        }
        let value = candidates[0];
        Ok(Gene { candidates, value })
    }

    /// Builds the gene of a known non-empty domain, starting at its first
    /// value.
    pub fn from_domain(candidates: Vec<u64>) -> (g: Gene)
        requires
            candidates@.len() > 0,
        ensures
            g@.cands == candidates@,
            g@.value == candidates@[0],
            g.wf(),
    {
        let value = candidates[0];
        Gene { candidates, value }
    }

    /// The current value of the slot.
    pub fn value(&self) -> (v: u64)
        ensures
            v == self@.value,
    {
        self.value
    }

    /// The candidate domain of the slot.
    pub fn candidates(&self) -> (c: &Vec<u64>)
        ensures
            c@ == self@.cands,
    {
        &self.candidates
    }

    /// Overwrites the value; a value outside the domain is rejected and
    /// leaves the gene unchanged.
    pub fn set_value(&mut self, value: u64) -> (r: Result<(), GaError>)
        ensures
            old(self)@.cands.contains(value) ==> (r is Ok && final(self)@.cands == old(
                self,
            )@.cands && final(self)@.value == value),
            !old(self)@.cands.contains(value) ==> (r == Err::<(), GaError>(
                GaError::InvariantViolationError,
            ) && final(self)@ == old(self)@),
    {
        let mut i: usize = 0;
        let n = self.candidates.len();
        while i < n
            invariant
                i <= n,
                n == self.candidates@.len(),
                forall|k: int| 0 <= k < i ==> self.candidates@[k] != value,
                *self == *old(self),
            decreases n - i,
        {
            if self.candidates[i] == value {
                self.value = value;
                return Ok(());
            }
            i += 1;
        }
        Err(GaError::InvariantViolationError)
    }

    /// Reassigns the value to one chosen at random from the full domain;
    /// re-selecting the current value is possible.
    pub fn mutate(&mut self)
        requires
            old(self).wf(),
        ensures
            final(self).wf(),
            final(self)@.cands == old(self)@.cands,
    {
        self.value = pick_value(&self.candidates);
    }
}

} // verus!
