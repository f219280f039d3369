//! The replacement rule of one steady-state step, as a pure decision over
//! the four fitness values involved (parents ordered `p1 <= p2`, children
//! ordered `c1 <= c2`; lower is better).
use vstd::prelude::*;

verus! {

/// Which of the parents and children survive one step.
#[derive(Clone, Copy, Debug, PartialEq, Eq, Structural)]
pub enum Replacement {
    /// Both children at least as good as the better parent: keep `p1`, `c1`
    /// and `c2`, discard `p2`.  Net pool size +1.
    KeepParentAndChildren,
    /// Even the better child is worse than the worse parent: keep only `p1`.
    /// Net pool size -1.
    KeepBestParent,
    /// The better child lies strictly between the parents: keep `p1` and
    /// `c1`.  Net pool size unchanged.
    KeepParentAndBestChild,
    /// The better child ties or beats the better parent while the worse
    /// child does not: keep `c1` and one freshly generated organism.  Net
    /// pool size unchanged.
    RefreshWithBestChild,
}

/// Both children are at least as good as the better parent.
pub open spec fn region_keep_parent_and_children(p1: i64, p2: i64, c1: i64, c2: i64) -> bool {
    c2 <= p1
}

/// Even the better child is worse than the worse parent.
pub open spec fn region_keep_best_parent(p1: i64, p2: i64, c1: i64, c2: i64) -> bool {
    c1 > p2
}

/// The better child lies strictly between the parents while the worse child
/// is worse than the better parent.
pub open spec fn region_keep_parent_and_best_child(p1: i64, p2: i64, c1: i64, c2: i64) -> bool {
    p1 < c1 <= p2 && p1 < c2
}

/// The better child ties or beats the better parent while the worse child
/// does not.
pub open spec fn region_refresh_with_best_child(p1: i64, p2: i64, c1: i64, c2: i64) -> bool {
    c1 <= p1 && p1 < c2
}

/// The decision chain, evaluated in priority order.
pub open spec fn replacement_choice(p1: i64, p2: i64, c1: i64, c2: i64) -> Replacement {
    if c2 <= p1 {
        Replacement::KeepParentAndChildren
    } else if c1 > p2 {
        Replacement::KeepBestParent
    } else if c1 > p1 {
        Replacement::KeepParentAndBestChild
    } else {
        Replacement::RefreshWithBestChild
    }
}

/// The four branches of the replacement rule are mutually exclusive and
/// exhaustive for any fitness values ordered `p1 <= p2` and `c1 <= c2`, and
/// the decision chain picks exactly the branch whose region holds.
pub proof fn lemma_replacement_exhaustive(p1: i64, p2: i64, c1: i64, c2: i64)
    requires
        p1 <= p2,
        c1 <= c2,
    ensures
        region_keep_parent_and_children(p1, p2, c1, c2) || region_keep_best_parent(p1, p2, c1, c2)
            || region_keep_parent_and_best_child(p1, p2, c1, c2) || region_refresh_with_best_child(
            p1,
            p2,
            c1,
            c2,
        ),
        region_keep_parent_and_children(p1, p2, c1, c2) ==> !region_keep_best_parent(p1, p2, c1, c2)
            && !region_keep_parent_and_best_child(p1, p2, c1, c2)
            && !region_refresh_with_best_child(p1, p2, c1, c2),
        region_keep_best_parent(p1, p2, c1, c2) ==> !region_keep_parent_and_best_child(
            p1,
            p2,
            c1,
            c2,
        ) && !region_refresh_with_best_child(p1, p2, c1, c2),
        region_keep_parent_and_best_child(p1, p2, c1, c2) ==> !region_refresh_with_best_child(
            p1,
            p2,
            c1,
            c2,
        ),
        replacement_choice(p1, p2, c1, c2) == Replacement::KeepParentAndChildren
            <==> region_keep_parent_and_children(p1, p2, c1, c2),
        replacement_choice(p1, p2, c1, c2) == Replacement::KeepBestParent
            <==> region_keep_best_parent(p1, p2, c1, c2),
        replacement_choice(p1, p2, c1, c2) == Replacement::KeepParentAndBestChild
            <==> region_keep_parent_and_best_child(p1, p2, c1, c2),
        replacement_choice(p1, p2, c1, c2) == Replacement::RefreshWithBestChild
            <==> region_refresh_with_best_child(p1, p2, c1, c2),
{
}

/// Decides which organisms survive the step, from the four fitness values.
pub fn choose_replacement(p1: i64, p2: i64, c1: i64, c2: i64) -> (r: Replacement)
    ensures
        r == replacement_choice(p1, p2, c1, c2),
{
    if c2 <= p1 {
        Replacement::KeepParentAndChildren
    } else if c1 > p2 {
        Replacement::KeepBestParent
    } else if c1 > p1 {
        Replacement::KeepParentAndBestChild
    } else {
        Replacement::RefreshWithBestChild
    }
}

} // verus!
