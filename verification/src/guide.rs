//! The item build guide: recipe data resolving a target item into its
//! base-level requirements, held as explicit, immutable reference data.
use vstd::prelude::*;

use crate::GaError;

verus! {

/// First-match lookup of a code in the recipe table, scanning from `j`.
pub open spec fn tree_lookup_from(tree: Seq<(u32, (u32, u32))>, code: u32, j: int) -> Option<
    (u32, u32),
>
    decreases tree.len() - j,
{
    if j < 0 || j >= tree.len() {
        None
    } else if tree[j].0 == code {
        Some(tree[j].1)
    } else {
        tree_lookup_from(tree, code, j + 1)
    }
}

/// First-match lookup of a code in the recipe table.
pub open spec fn tree_lookup(tree: Seq<(u32, (u32, u32))>, code: u32) -> Option<(u32, u32)> {
    tree_lookup_from(tree, code, 0)
}

/// First-match lookup of an item name, scanning from `j`.
pub open spec fn name_lookup_from(names: Seq<(u32, Seq<char>)>, name: Seq<char>, j: int) -> Option<
    u32,
>
    decreases names.len() - j,
{
    if j < 0 || j >= names.len() {
        None
    } else if names[j].1 == name {
        Some(names[j].0)
    } else {
        name_lookup_from(names, name, j + 1)
    }
}

/// Whether some entry carries the key `k`.
pub open spec fn has_key(s: Seq<(u32, u32)>, k: u32) -> bool {
    exists|i: int| 0 <= i < s.len() && (#[trigger] s[i]).0 == k
}

/// The predicate keeping the entries whose key `r2` does not carry.
pub open spec fn not_in(r2: Seq<(u32, u32)>) -> spec_fn((u32, u32)) -> bool {
    |p: (u32, u32)| !has_key(r2, p.0)
}

/// Merges two requirement maps; entries of the second overwrite entries of
/// the first that carry the same key.
pub open spec fn merge_requirements(r1: Seq<(u32, u32)>, r2: Seq<(u32, u32)>) -> Seq<(u32, u32)> {
    r1.filter(not_in(r2)) + r2
}

/// The recursive expansion of a target code into base-level requirements:
/// a code both of whose materials are zero is base-level and maps to itself
/// with count one; any other code is the merge of its two materials'
/// expansions.  A missing code fails the lookup; exhausted fuel means the
/// recipe data is cyclic.
pub open spec fn requirements_spec(tree: Seq<(u32, (u32, u32))>, code: u32, fuel: nat) -> Result<
    Seq<(u32, u32)>,
    GaError,
>
    decreases fuel,
{
    if fuel == 0 {
        Err(GaError::InvariantViolationError)
    } else {
        match tree_lookup(tree, code) {
            Option::None => Err(GaError::LookupNotFoundError),
            Option::Some(mats) => {
                if mats.0 == 0 && mats.1 == 0 {
                    Ok(seq![(code, 1u32)])
                } else {
                    match requirements_spec(tree, mats.0, (fuel - 1) as nat) {
                        Result::Err(e) => Err(e),
                        Result::Ok(r1) => match requirements_spec(tree, mats.1, (fuel - 1) as nat) {
                            Result::Err(e) => Err(e),
                            Result::Ok(r2) => Ok(merge_requirements(r1, r2)),
                        },
                    }
                }
            },
        }
    }
}

/// The view of a requirement result.
pub open spec fn req_result_view(r: Result<Vec<(u32, u32)>, GaError>) -> Result<
    Seq<(u32, u32)>,
    GaError,
> {
    match r {
        Result::Ok(v) => Ok(v@),
        Result::Err(e) => Err(e),
    }
}

/// Splitting one element off a prefix commutes with `filter`.
pub(crate) proof fn lemma_filter_step<A>(s: Seq<A>, pred: spec_fn(A) -> bool, i: int)
    requires
        0 <= i < s.len(),
    ensures
        s.subrange(0, i + 1).filter(pred) == if pred(s[i]) {
            s.subrange(0, i).filter(pred).push(s[i])
        } else {
            s.subrange(0, i).filter(pred)
        },
{
    reveal(Seq::filter);
    let t = s.subrange(0, i + 1);
    assert(t.drop_last() =~= s.subrange(0, i));
    assert(t.last() == s[i]);
}

/// Every element of a filtered sequence is an element of the original.
proof fn lemma_filter_subset<A>(s: Seq<A>, pred: spec_fn(A) -> bool, i: int)
    requires
        0 <= i < s.filter(pred).len(),
    ensures
        s.contains(s.filter(pred)[i]),
    decreases s.len(),
{
    reveal(Seq::filter);
    let out = s.filter(pred);
    let sub = s.drop_last().filter(pred);
    if i < sub.len() {
        lemma_filter_subset(s.drop_last(), pred, i);
        let j = choose|j: int| 0 <= j < s.drop_last().len() && s.drop_last()[j] == sub[i];
        assert(s[j] == out[i]);
    } else {
        assert(out[i] == s.last());
        assert(s[s.len() - 1] == out[i]);
    }
}

/// Every entry of a successful expansion is a base-level code with count one.
pub proof fn lemma_requirements_base(tree: Seq<(u32, (u32, u32))>, code: u32, fuel: nat)
    ensures
        requirements_spec(tree, code, fuel) matches Ok(m) ==> forall|k: int|
            0 <= k < m.len() ==> tree_lookup(tree, (#[trigger] m[k]).0) == Some((0u32, 0u32))
                && m[k].1 == 1u32,
    decreases fuel,
{
    if fuel > 0 {
        match tree_lookup(tree, code) {
            Option::None => {},
            Option::Some(mats) => {
                if mats.0 == 0 && mats.1 == 0 {
                } else {
                    lemma_requirements_base(tree, mats.0, (fuel - 1) as nat);
                    lemma_requirements_base(tree, mats.1, (fuel - 1) as nat);
                    let a = requirements_spec(tree, mats.0, (fuel - 1) as nat);
                    let b = requirements_spec(tree, mats.1, (fuel - 1) as nat);
                    match (a, b) {
                        (Result::Ok(r1), Result::Ok(r2)) => {
                            let m = merge_requirements(r1, r2);
                            let f = r1.filter(not_in(r2));
                            assert forall|k: int|
                                0 <= k < m.len() implies tree_lookup(
                                tree,
                                (#[trigger] m[k]).0,
                            ) == Some((0u32, 0u32)) && m[k].1 == 1u32 by {
                                if k < f.len() {
                                    lemma_filter_subset(r1, not_in(r2), k);
                                    let j = choose|j: int| 0 <= j < r1.len() && r1[j] == f[k];
                                    assert(m[k] == r1[j]);
                                } else {
                                    assert(m[k] == r2[k - f.len()]);
                                }
                            }
                        },
                        _ => {},
                    }
                }
            },
        }
    }
}

/// The build guide: a recipe table from item code to its two make-materials,
/// and an item-name table, both constructed once from loaded data and read
/// thereafter.  The loaded tables key each entry once; a lookup resolves a
/// duplicated key to its earliest row, which is the one deliberate choice
/// here where a keyed store would have made the surviving row arbitrary.
pub struct ItemBuildGuide {
    build_tree: Vec<(u32, (u32, u32))>,
    names: Vec<(u32, String)>,
}

impl ItemBuildGuide {
    /// The recipe table.
    pub closed spec fn tree(&self) -> Seq<(u32, (u32, u32))> {
        self.build_tree@
    }

    /// The name table, names as character sequences.
    pub closed spec fn names_view(&self) -> Seq<(u32, Seq<char>)> {
        self.names@.map(|i: int, p: (u32, String)| (p.0, p.1@))
    }

    /// Builds a guide over the given recipe and name tables.
    pub fn new(build_tree: Vec<(u32, (u32, u32))>, names: Vec<(u32, String)>) -> (g:
        ItemBuildGuide)
        ensures
            g.tree() == build_tree@,
            g.names_view() == names@.map(|i: int, p: (u32, String)| (p.0, p.1@)),
    {
        ItemBuildGuide { build_tree, names }
    }

    /// The code of the first item carrying the given display name; an absent
    /// name is a lookup failure.
    pub fn find_item_code_by_name(&self, name: String) -> (r: Result<u32, GaError>)
        ensures
            r == match name_lookup_from(self.names_view(), name@, 0) {
                Option::Some(c) => Ok::<u32, GaError>(c),
                Option::None => Err::<u32, GaError>(GaError::LookupNotFoundError),
            },
    {
        let n = self.names.len();
        let mut i: usize = 0;
        while i < n
            invariant
                i <= n,
                n == self.names@.len(),
                name_lookup_from(self.names_view(), name@, 0) == name_lookup_from(
                    self.names_view(),
                    name@,
                    i as int,
                ),
            decreases n - i,
        {
            if self.names[i].1 == name {
                proof {
                    assert(self.names_view()[i as int].1 == name@);
                }
                return Ok(self.names[i].0);
            }
            proof {
                assert(self.names_view()[i as int].1 != name@) by {
                    assert(self.names_view()[i as int].1 == self.names@[i as int].1@);
                }
            }
            i += 1;
        }
        Err(GaError::LookupNotFoundError)
    }

    /// The two make-materials of the first entry carrying the code.
    pub fn lookup_materials(&self, code: u32) -> (r: Option<(u32, u32)>)
        ensures
            r == tree_lookup(self.tree(), code),
    {
        let n = self.build_tree.len();
        let mut i: usize = 0;
        while i < n
            invariant
                i <= n,
                n == self.tree().len(),
                tree_lookup(self.tree(), code) == tree_lookup_from(self.tree(), code, i as int),
            decreases n - i,
        {
            if self.build_tree[i].0 == code {
                return Some(self.build_tree[i].1);
            }
            i += 1;
        }
        None
    }

    /// Resolves a target code into its base-level requirements: each entry
    /// of the result is a base-level code with count one.  A missing code is
    /// a lookup failure; recipe data whose expansion never bottoms out is an
    /// invariant violation.
    pub fn build_requirements(&self, code: u32) -> (r: Result<Vec<(u32, u32)>, GaError>)
        ensures
            self.tree().len() < usize::MAX ==> req_result_view(r) == requirements_spec(
                self.tree(),
                code,
                (self.tree().len() + 1) as nat,
            ),
            r matches Ok(m) ==> forall|k: int|
                0 <= k < m@.len() ==> tree_lookup(self.tree(), (#[trigger] m@[k]).0) == Some(
                    (0u32, 0u32),
                ) && m@[k].1 == 1u32,
    {
        let n = self.build_tree.len();
        let fuel = if n < usize::MAX {
            n + 1
        } else {
            n
        };
        let r = self.requirements_with_fuel(code, fuel);
        proof {
            lemma_requirements_base(self.tree(), code, fuel as nat);
        }
        r
    }

    /// The fuel-bounded expansion; the fuel falls on each recursion step.
    fn requirements_with_fuel(&self, code: u32, fuel: usize) -> (r: Result<
        Vec<(u32, u32)>,
        GaError,
    >)
        ensures
            req_result_view(r) == requirements_spec(self.tree(), code, fuel as nat),
        decreases fuel,
    {
        if fuel == 0 {
            return Err(GaError::InvariantViolationError);
        }
        let mats = match self.lookup_materials(code) {
            Some(m) => m,
            None => {
                return Err(GaError::LookupNotFoundError);
            },
        };
        if mats.0 == 0 && mats.1 == 0 {
            let mut one: Vec<(u32, u32)> = Vec::new();
            one.push((code, 1u32));
            proof {
                assert(one@ =~= seq![(code, 1u32)]);
            }
            return Ok(one);
        }
        let r1 = match self.requirements_with_fuel(mats.0, fuel - 1) {
            Ok(v) => v,
            Err(e) => {
                return Err(e);
            },
        };
        let r2 = match self.requirements_with_fuel(mats.1, fuel - 1) {
            Ok(v) => v,
            Err(e) => {
                return Err(e);
            },
        };
        Ok(merge_requirements_exec(&r1, &r2))
    }
}

/// Whether the map carries the key.
pub fn has_key_exec(s: &Vec<(u32, u32)>, k: u32) -> (r: bool)
    ensures
        r == has_key(s@, k),
{
    let mut i: usize = 0;
    while i < s.len()
        invariant
            i <= s@.len(),
            forall|j: int| 0 <= j < i ==> (#[trigger] s@[j]).0 != k,
        decreases s@.len() - i,
    {
        if s[i].0 == k {
            return true;
        }
        i += 1;
    }
    false
}

/// Merges two requirement maps, the second overwriting the first on equal
/// keys.
pub fn merge_requirements_exec(r1: &Vec<(u32, u32)>, r2: &Vec<(u32, u32)>) -> (m: Vec<(u32, u32)>)
    ensures
        m@ == merge_requirements(r1@, r2@),
{
    let ghost pred = not_in(r2@);
    let mut m: Vec<(u32, u32)> = Vec::new();
    let mut i: usize = 0;
    while i < r1.len()
        invariant
            i <= r1@.len(),
            pred == not_in(r2@),
            m@ == r1@.subrange(0, i as int).filter(pred),
        decreases r1@.len() - i,
    {
        let e = r1[i];
        proof {
            lemma_filter_step(r1@, pred, i as int);
        }
        if !has_key_exec(r2, e.0) {
            m.push(e);
        }
        i += 1;
    }
    proof {
        assert(r1@.subrange(0, r1@.len() as int) =~= r1@);
    }
    let mut j: usize = 0;
    while j < r2.len()
        invariant
            j <= r2@.len(),
            pred == not_in(r2@),
            m@ == r1@.filter(pred) + r2@.subrange(0, j as int),
        decreases r2@.len() - j,
    {
        m.push(r2[j]);
        j += 1;
        proof {
            assert(m@ =~= r1@.filter(pred) + r2@.subrange(0, j as int));
        }
    }
    proof {
        assert(r2@.subrange(0, r2@.len() as int) =~= r2@);
        assert(m@ == merge_requirements(r1@, r2@));
    }
    m
}

} // verus!
