//! The route-search pipeline: the travel-cost strategy over a distance
//! matrix, and the construction of the target tally and gene domains from
//! the reference data.
use vstd::prelude::*;

use crate::gene::GeneModel;
use crate::guide::{
    has_key, has_key_exec, name_lookup_from, req_result_view, requirements_spec, ItemBuildGuide,
};
use crate::island::{DistanceTable, Loc, LumiaIsland};
use crate::strategy::{gene_models, sat_add, values_of, Strategy};
use crate::GaError;

verus! {

/// The consecutive pairs of a list, in order.
pub fn each_cons<T: Copy>(xs: &Vec<T>) -> (r: Vec<(T, T)>)
    ensures
        xs@.len() <= 1 ==> r@.len() == 0,
        xs@.len() > 1 ==> r@.len() == xs@.len() - 1,
        forall|i: int| 0 <= i < r@.len() ==> #[trigger] r@[i] == (xs@[i], xs@[i + 1]),
{
    let mut r: Vec<(T, T)> = Vec::new();
    if xs.len() > 1 {
        let mut i: usize = 0;
        while i < xs.len() - 1
            invariant
                xs@.len() > 1,
                i <= xs@.len() - 1,
                r@.len() == i,
                forall|k: int| 0 <= k < i ==> #[trigger] r@[k] == (xs@[k], xs@[k + 1]),
            decreases xs@.len() - 1 - i,
        {
            r.push((xs[i], xs[i + 1]));
            i += 1;
        }
    }
    r
}

/// The cost of stepping between two location indices: the matrix entry, or
/// zero where an index runs off the matrix.  The zero totalizes what would
/// otherwise be undefined; the pipeline never produces such an index, as
/// every candidate built by `build_gene_domains` indexes the location list.
pub open spec fn pair_cost(dist: Seq<Seq<u32>>, a: u64, b: u64) -> u32 {
    if a < dist.len() && b < dist[a as int].len() {
        dist[a as int][b as int]
    } else {
        0
    }
}

/// The saturating total of the first `k` consecutive-pair steps of a route.
pub open spec fn route_sum(dist: Seq<Seq<u32>>, vals: Seq<u64>, k: int) -> i64
    decreases k,
{
    if k <= 0 {
        0
    } else {
        sat_add(route_sum(dist, vals, k - 1), pair_cost(dist, vals[k - 1], vals[k]) as u64)
    }
}

/// The total travel cost of a chromosome whose gene values index locations.
pub open spec fn route_cost(dist: Seq<Seq<u32>>, genes: Seq<GeneModel>) -> i64 {
    if genes.len() == 0 {
        0
    } else {
        route_sum(dist, values_of(genes), genes.len() - 1)
    }
}

/// A strategy whose cost is the total travel distance over the sequence of
/// visited locations, read from a precomputed square distance matrix; the
/// feasibility predicate is supplied but constantly true, as the replacement
/// policy does not consult it.
pub struct RouteStrategy {
    dist: Vec<Vec<u32>>,
}

impl RouteStrategy {
    /// The distance matrix.
    pub closed spec fn dist_view(&self) -> Seq<Seq<u32>> {
        self.dist@.map(|i: int, row: Vec<u32>| row@)
    }

    /// Wraps a distance matrix.
    pub fn new(dist: Vec<Vec<u32>>) -> (s: RouteStrategy)
        ensures
            s.dist_view() == dist@.map(|i: int, row: Vec<u32>| row@),
    {
        RouteStrategy { dist }
    }
}

impl Strategy for RouteStrategy {
    open spec fn cost_spec(&self, genes: Seq<GeneModel>) -> i64 {
        route_cost(self.dist_view(), genes)
    }

    open spec fn feasible_spec(&self, genes: Seq<GeneModel>) -> bool {
        true
    }

    fn cost(&self, genes: &Vec<crate::gene::Gene>) -> (r: i64) {
        let ghost vals = values_of(gene_models(genes@));
        if genes.len() == 0 {
            return 0;
        }
        let mut acc: i64 = 0;
        let mut i: usize = 1;
        while i < genes.len()
            invariant
                1 <= i <= genes@.len(),
                vals == values_of(gene_models(genes@)),
                vals.len() == genes@.len(),
                forall|k: int| 0 <= k < genes@.len() ==> vals[k] == genes@[k]@.value,
                acc == route_sum(self.dist_view(), vals, i - 1),
                acc >= 0,
            decreases genes@.len() - i,
        {
            let a = genes[i - 1].value();
            let b = genes[i].value();
            let d: u32 = if a < (self.dist.len() as u64) {
                let row = &self.dist[a as usize];
                if b < (row.len() as u64) {
                    row[b as usize]
                } else {
                    0
                }
            } else {
                0
            };
            proof {
                assert(d == pair_cost(self.dist_view(), vals[i - 1], vals[i as int]));
            }
            if (d as u64) > (i64::MAX - acc) as u64 {
                acc = i64::MAX;
            } else {
                acc = acc + (d as i64);
            }
            i += 1;
        }
        acc
    }

    fn feasible(&self, genes: &Vec<crate::gene::Gene>) -> (r: bool) {
        true
    }
}

/// The matrix entry for a pair of coordinates: zero on the diagonal, else
/// the table's first row for the ordered pair.
pub open spec fn matrix_entry(rows: Seq<(Loc, Loc, u32)>, a: Loc, b: Loc) -> u32 {
    if a == b {
        0u32
    } else {
        match crate::island::distance_lookup_from(rows, a, b, 0) {
            Option::Some(d) => d,
            Option::None => 0u32,
        }
    }
}

/// Builds the full square distance matrix over the given locations: zero on
/// the diagonal, the table row for every other ordered pair.  A pair the
/// table does not know is a lookup failure.
pub fn build_distance_matrix(table: &DistanceTable, locations: &Vec<Loc>) -> (r: Result<
    Vec<Vec<u32>>,
    GaError,
>)
    ensures
        r matches Ok(m) ==> m@.len() == locations@.len() && (forall|i: int|
            0 <= i < m@.len() ==> (#[trigger] m@[i])@.len() == locations@.len()) && (forall|
            i: int,
            j: int,
        |
            #![trigger m@[i]@[j]]
            0 <= i < m@.len() && 0 <= j < m@.len() ==> m@[i]@[j] == matrix_entry(
                table.rows(),
                locations@[i],
                locations@[j],
            ) && (locations@[i] == locations@[j] || crate::island::distance_lookup_from(
                table.rows(),
                locations@[i],
                locations@[j],
                0,
            ) is Some)),
        r matches Err(e) ==> e == GaError::LookupNotFoundError,
{
    let n = locations.len();
    let mut m: Vec<Vec<u32>> = Vec::new();
    let mut i: usize = 0;
    while i < n
        invariant
            i <= n,
            n == locations@.len(),
            m@.len() == i,
            forall|k: int| 0 <= k < i ==> (#[trigger] m@[k])@.len() == n,
            forall|k: int, j2: int|
                #![trigger m@[k]@[j2]]
                0 <= k < i && 0 <= j2 < n ==> m@[k]@[j2] == matrix_entry(
                    table.rows(),
                    locations@[k],
                    locations@[j2],
                ) && (locations@[k] == locations@[j2] || crate::island::distance_lookup_from(
                    table.rows(),
                    locations@[k],
                    locations@[j2],
                    0,
                ) is Some),
        decreases n - i,
    {
        let mut row: Vec<u32> = Vec::new();
        let mut j: usize = 0;
        while j < n
            invariant
                j <= n,
                i < n,
                n == locations@.len(),
                row@.len() == j,
                forall|j2: int|
                    0 <= j2 < j ==> #[trigger] row@[j2] == matrix_entry(
                        table.rows(),
                        locations@[i as int],
                        locations@[j2],
                    ) && (locations@[i as int] == locations@[j2]
                        || crate::island::distance_lookup_from(
                        table.rows(),
                        locations@[i as int],
                        locations@[j2],
                        0,
                    ) is Some),
            decreases n - j,
        {
            let d = match LumiaIsland::distance(table, locations[i], locations[j]) {
                Ok(d) => d,
                Err(e) => {
                    return Err(e);
                },
            };
            proof {
                assert(d == matrix_entry(table.rows(), locations@[i as int], locations@[j as int]));
            }
            row.push(d);
            j += 1;
        }
        m.push(row);
        i += 1;
    }
    Ok(m)
}

/// Sums two tally counts, saturating at the largest count.
pub open spec fn tally_add(a: u32, b: u32) -> u32 {
    if a + b > u32::MAX {
        u32::MAX
    } else {
        (a + b) as u32
    }
}

/// The first index carrying the key, scanning from `i`; the length when the
/// key is absent.
pub open spec fn key_index_from(t: Seq<(u32, u32)>, k: u32, i: int) -> int
    decreases t.len() - i,
    when 0 <= i
{
    if i >= t.len() {
        t.len() as int
    } else if t[i].0 == k {
        i
    } else {
        key_index_from(t, k, i + 1)
    }
}

/// Absorbs one requirement entry into the tally: an existing key takes the
/// saturating sum, a new key is appended.
pub open spec fn tally_insert(t: Seq<(u32, u32)>, rc: u32, rn: u32) -> Seq<(u32, u32)> {
    let i = key_index_from(t, rc, 0);
    if i < t.len() {
        t.update(i, (rc, tally_add(t[i].1, rn)))
    } else {
        t.push((rc, rn))
    }
}

/// Absorbs the requirement entries from `i` on, skipping the excluded code.
pub open spec fn tally_absorb(
    t: Seq<(u32, u32)>,
    reqs: Seq<(u32, u32)>,
    excluded: u32,
    i: int,
) -> Seq<(u32, u32)>
    decreases reqs.len() - i,
    when 0 <= i
{
    if i >= reqs.len() {
        t
    } else {
        let t2 = if reqs[i].0 == excluded {
            t
        } else {
            tally_insert(t, reqs[i].0, reqs[i].1)
        };
        tally_absorb(t2, reqs, excluded, i + 1)
    }
}

/// The whole tally: for each named item in order, its code is looked up and
/// its base-level requirements are expanded and absorbed; a failed lookup or
/// expansion fails the tally.
pub open spec fn tally_build(
    tree: Seq<(u32, (u32, u32))>,
    guide_names: Seq<(u32, Seq<char>)>,
    names: Seq<Seq<char>>,
    excluded: u32,
    fuel: nat,
    ni: int,
    acc: Seq<(u32, u32)>,
) -> Result<Seq<(u32, u32)>, GaError>
    decreases names.len() - ni,
    when 0 <= ni
{
    if ni >= names.len() {
        Ok(acc)
    } else {
        match name_lookup_from(guide_names, names[ni], 0) {
            Option::None => Err(GaError::LookupNotFoundError),
            Option::Some(code) => match requirements_spec(tree, code, fuel) {
                Result::Err(e) => Err(e),
                Result::Ok(reqs) => tally_build(
                    tree,
                    guide_names,
                    names,
                    excluded,
                    fuel,
                    ni + 1,
                    tally_absorb(acc, reqs, excluded, 0),
                ),
            },
        }
    }
}

/// The name views of a list of name strings.
pub open spec fn name_views(names: Seq<String>) -> Seq<Seq<char>> {
    names.map(|i: int, s: String| s@)
}

/// Builds the target tally: for each named item in order, the per-code
/// saturating sums of its base-level requirements, the excluded code left
/// out.  Every key is unique, none equals the excluded code, and every count
/// is at least one.
pub fn build_target_tally(
    guide: &ItemBuildGuide,
    names: Vec<String>,
    excluded: u32,
) -> (r: Result<Vec<(u32, u32)>, GaError>)
    ensures
        guide.tree().len() < usize::MAX ==> req_result_view(r) == tally_build(
            guide.tree(),
            guide.names_view(),
            name_views(names@),
            excluded,
            (guide.tree().len() + 1) as nat,
            0,
            Seq::empty(),
        ),
        r matches Ok(t) ==> (forall|k: int|
            0 <= k < t@.len() ==> (#[trigger] t@[k]).0 != excluded && t@[k].1 >= 1) && (forall|
            k1: int,
            k2: int,
        |
            0 <= k1 < k2 < t@.len() ==> (#[trigger] t@[k1]).0 != (#[trigger] t@[k2]).0),
{
    let ghost cond = guide.tree().len() < usize::MAX;
    let ghost fuel = (guide.tree().len() + 1) as nat;
    let ghost nv = name_views(names@);
    let mut tally: Vec<(u32, u32)> = Vec::new();
    proof {
        assert(Seq::<(u32, u32)>::empty() =~= tally@);
    }
    let mut ni: usize = 0;
    while ni < names.len()
        invariant
            ni <= names@.len(),
            cond == (guide.tree().len() < usize::MAX),
            fuel == (guide.tree().len() + 1) as nat,
            nv == name_views(names@),
            cond ==> tally_build(
                guide.tree(),
                guide.names_view(),
                nv,
                excluded,
                fuel,
                0,
                Seq::empty(),
            ) == tally_build(guide.tree(), guide.names_view(), nv, excluded, fuel, ni as int, tally@),
            forall|k: int|
                0 <= k < tally@.len() ==> (#[trigger] tally@[k]).0 != excluded && tally@[k].1 >= 1,
            forall|k1: int, k2: int|
                0 <= k1 < k2 < tally@.len() ==> (#[trigger] tally@[k1]).0 != (
                #[trigger] tally@[k2]).0,
        decreases names@.len() - ni,
    {
        let name = names[ni].clone();
        proof {
            assert(name@ == nv[ni as int]);
        }
        let code = match guide.find_item_code_by_name(name) {
            Ok(c) => c,
            Err(e) => {
                proof {
                    if cond {
                        assert(tally_build(
                            guide.tree(),
                            guide.names_view(),
                            nv,
                            excluded,
                            fuel,
                            ni as int,
                            tally@,
                        ) == Err::<Seq<(u32, u32)>, GaError>(GaError::LookupNotFoundError));
                    }
                }
                return Err(e);
            },
        };
        let reqs = match guide.build_requirements(code) {
            Ok(m) => m,
            Err(e) => {
                proof {
                    if cond {
                        assert(requirements_spec(guide.tree(), code, fuel) == Err::<
                            Seq<(u32, u32)>,
                            GaError,
                        >(e));
                        assert(tally_build(
                            guide.tree(),
                            guide.names_view(),
                            nv,
                            excluded,
                            fuel,
                            ni as int,
                            tally@,
                        ) == Err::<Seq<(u32, u32)>, GaError>(e));
                    }
                }
                return Err(e);
            },
        };
        let ghost acc0 = tally@;
        let mut ri: usize = 0;
        while ri < reqs.len()
            invariant
                ri <= reqs@.len(),
                tally_absorb(acc0, reqs@, excluded, 0) == tally_absorb(
                    tally@,
                    reqs@,
                    excluded,
                    ri as int,
                ),
                forall|k: int| 0 <= k < reqs@.len() ==> (#[trigger] reqs@[k]).1 == 1,
                forall|k: int|
                    0 <= k < tally@.len() ==> (#[trigger] tally@[k]).0 != excluded && tally@[k].1
                        >= 1,
                forall|k1: int, k2: int|
                    0 <= k1 < k2 < tally@.len() ==> (#[trigger] tally@[k1]).0 != (
                    #[trigger] tally@[k2]).0,
            decreases reqs@.len() - ri,
        {
            let (rc, rn) = reqs[ri];
            let ghost tpre = tally@;
            if rc != excluded {
                let mut found = false;
                let mut ti: usize = 0;
                while ti < tally.len() && !found
                    invariant
                        ti <= tally@.len(),
                        rn >= 1,
                        !found ==> tally@ == tpre,
                        !found ==> key_index_from(tpre, rc, 0) == key_index_from(
                            tpre,
                            rc,
                            ti as int,
                        ),
                        !found ==> forall|k: int| 0 <= k < ti ==> (#[trigger] tally@[k]).0 != rc,
                        found ==> tally@ == tally_insert(tpre, rc, rn),
                        forall|k: int|
                            0 <= k < tally@.len() ==> (#[trigger] tally@[k]).0 != excluded
                                && tally@[k].1 >= 1,
                        forall|k1: int, k2: int|
                            0 <= k1 < k2 < tally@.len() ==> (#[trigger] tally@[k1]).0 != (
                            #[trigger] tally@[k2]).0,
                    decreases tally@.len() - ti + (if found {
                        0int
                    } else {
                        1int
                    }),
                {
                    if tally[ti].0 == rc {
                        let cur = tally[ti].1;
                        let summed = if rn > u32::MAX - cur {
                            u32::MAX
                        } else {
                            cur + rn
                        };
                        let ghost tb = tally@;
                        proof {
                            assert(key_index_from(tpre, rc, ti as int) == ti as int);
                            assert(summed == tally_add(tpre[ti as int].1, rn));
                        }
                        tally[ti] = (rc, summed);
                        found = true;
                        proof {
                            assert(tally@ == tally_insert(tpre, rc, rn));
                            assert forall|k: int|
                                0 <= k < tally@.len() implies (#[trigger] tally@[k]).0 == tb[k].0
                                    && tally@[k].1 >= 1 by {
                                if k != ti as int {
                                    assert(tally@[k] == tb[k]);
                                }
                            }
                        }
                    } else {
                        ti += 1;
                    }
                }
                if !found {
                    proof {
                        assert(key_index_from(tpre, rc, ti as int) == tpre.len() as int);
                    }
                    tally.push((rc, rn));
                    proof {
                        assert(tally@ == tally_insert(tpre, rc, rn));
                    }
                }
            }
            proof {
                assert(tally_absorb(tpre, reqs@, excluded, ri as int) == tally_absorb(
                    tally@,
                    reqs@,
                    excluded,
                    ri + 1,
                ));
            }
            ri += 1;
        }
        proof {
            assert(tally_absorb(tally@, reqs@, excluded, reqs@.len() as int) == tally@);
            if cond {
                assert(requirements_spec(guide.tree(), code, fuel) == Ok::<
                    Seq<(u32, u32)>,
                    GaError,
                >(reqs@));
                assert(tally_build(
                    guide.tree(),
                    guide.names_view(),
                    nv,
                    excluded,
                    fuel,
                    ni as int,
                    acc0,
                ) == tally_build(
                    guide.tree(),
                    guide.names_view(),
                    nv,
                    excluded,
                    fuel,
                    ni + 1,
                    tally@,
                ));
            }
        }
        ni += 1;
    }
    proof {
        if cond {
            assert(tally_build(
                guide.tree(),
                guide.names_view(),
                nv,
                excluded,
                fuel,
                ni as int,
                tally@,
            ) == Ok::<Seq<(u32, u32)>, GaError>(tally@));
        }
    }
    Ok(tally)
}

/// Whether some code of the list is one the tally asks for.
pub open spec fn any_tallied(codes: Seq<u32>, tally: Seq<(u32, u32)>) -> bool {
    exists|c: int| 0 <= c < codes.len() && has_key(tally, #[trigger] codes[c])
}

/// Whether the distributed entries give the location at least one code the
/// tally asks for.
pub open spec fn loc_carries_target(
    entries: Seq<(Loc, Seq<u32>)>,
    tally: Seq<(u32, u32)>,
    l: Loc,
) -> bool {
    match crate::island::loc_lookup_from(entries, l, 0) {
        Option::Some(codes) => any_tallied(codes, tally),
        Option::None => false,
    }
}

/// The predicate form of `loc_carries_target` over fixed data.
pub open spec fn carries_pred(entries: Seq<(Loc, Seq<u32>)>, tally: Seq<(u32, u32)>) -> spec_fn(
    Loc,
) -> bool {
    |l: Loc| loc_carries_target(entries, tally, l)
}

/// Keeps exactly the locations that carry at least one tallied item code, in
/// order.  A location the island does not know is a lookup failure.
pub fn filter_target_locations(
    island: &LumiaIsland,
    locations: &Vec<Loc>,
    tally: &Vec<(u32, u32)>,
) -> (r: Result<Vec<Loc>, GaError>)
    ensures
        r matches Ok(v) ==> v@ == locations@.filter(carries_pred(island.entries(), tally@)),
        r is Err ==> exists|k: int|
            0 <= k < locations@.len() && crate::island::loc_lookup_from(
                island.entries(),
                #[trigger] locations@[k],
                0,
            ) is None,
{
    let ghost pred = carries_pred(island.entries(), tally@);
    let mut r: Vec<Loc> = Vec::new();
    let mut i: usize = 0;
    while i < locations.len()
        invariant
            i <= locations@.len(),
            pred == carries_pred(island.entries(), tally@),
            r@ == locations@.subrange(0, i as int).filter(pred),
        decreases locations@.len() - i,
    {
        let loc = locations[i];
        let codes = match island.check_items(loc) {
            Ok(c) => c,
            Err(e) => {
                proof {
                    assert(crate::island::loc_lookup_from(
                        island.entries(),
                        locations@[i as int],
                        0,
                    ) is None);
                }
                return Err(e);
            },
        };
        let mut any = false;
        let mut ci: usize = 0;
        while ci < codes.len()
            invariant
                ci <= codes@.len(),
                any == exists|c: int| 0 <= c < ci && has_key(tally@, #[trigger] codes@[c]),
            decreases codes@.len() - ci,
        {
            if has_key_exec(tally, codes[ci]) {
                any = true;
                proof {
                    assert(has_key(tally@, codes@[ci as int]));
                }
            }
            ci += 1;
        }
        proof {
            assert(loc == locations@[i as int]);
            assert(crate::island::loc_lookup_from(island.entries(), loc, 0) == Some(codes@));
            assert(any == any_tallied(codes@, tally@));
            assert(any == loc_carries_target(island.entries(), tally@, locations@[i as int]));
            crate::guide::lemma_filter_step(locations@, pred, i as int);
        }
        if any {
            r.push(loc);
        }
        i += 1;
    }
    proof {
        assert(locations@.subrange(0, locations@.len() as int) =~= locations@);
    }
    Ok(r)
}

/// The total number of required item copies in a tally prefix.
pub open spec fn tally_count_sum(tally: Seq<(u32, u32)>, upto: int) -> int
    decreases upto,
{
    if upto <= 0 {
        0
    } else {
        tally_count_sum(tally, upto - 1) + tally[upto - 1].1
    }
}

/// The tally code that owns required-copy index `j`, scanning entries from
/// `t`: each entry owns as many consecutive indices as its count.
pub open spec fn tally_code_at_from(tally: Seq<(u32, u32)>, j: int, t: int) -> u32
    decreases tally.len() - t,
    when 0 <= t
{
    if t >= tally.len() {
        0u32
    } else if j < tally[t].1 {
        tally[t].0
    } else {
        tally_code_at_from(tally, j - tally[t].1, t + 1)
    }
}

/// Prefix sums of tally counts grow monotonically.
proof fn lemma_tally_sum_mono(tally: Seq<(u32, u32)>, a: int, b: int)
    requires
        0 <= a <= b,
    ensures
        tally_count_sum(tally, a) <= tally_count_sum(tally, b),
    decreases b - a,
{
    if a < b {
        lemma_tally_sum_mono(tally, a, b - 1);
    }
}

/// The `c`-th copy of tally entry `ti` sits at required-copy index
/// `prefix sum + c` and is owned by that entry's code.
proof fn lemma_tally_code_at(tally: Seq<(u32, u32)>, t0: int, ti: int, c: int)
    requires
        0 <= t0 <= ti < tally.len(),
        0 <= c < tally[ti].1,
    ensures
        tally_code_at_from(
            tally,
            tally_count_sum(tally, ti) - tally_count_sum(tally, t0) + c,
            t0,
        ) == tally[ti].0,
    decreases ti - t0,
{
    if t0 < ti {
        lemma_tally_code_at(tally, t0 + 1, ti, c);
        lemma_tally_sum_mono(tally, t0 + 1, ti);
        assert(tally_count_sum(tally, t0 + 1) == tally_count_sum(tally, t0) + tally[t0].1);
    }
}

/// Whether the distributed entries give the location this code.
pub open spec fn loc_carries_code(entries: Seq<(Loc, Seq<u32>)>, l: Loc, code: u32) -> bool {
    match crate::island::loc_lookup_from(entries, l, 0) {
        Option::Some(codes) => codes.contains(code),
        Option::None => false,
    }
}

/// The indices, from `i` on, of the locations that carry the code, in
/// order.
pub open spec fn carrier_indices(
    entries: Seq<(Loc, Seq<u32>)>,
    locations: Seq<Loc>,
    code: u32,
    i: int,
) -> Seq<u64>
    decreases locations.len() - i,
    when 0 <= i
{
    if i >= locations.len() {
        Seq::empty()
    } else {
        let rest = carrier_indices(entries, locations, code, i + 1);
        if loc_carries_code(entries, locations[i], code) {
            seq![i as u64] + rest
        } else {
            rest
        }
    }
}

/// Builds one gene domain per required item copy: for each tally entry, the
/// indices of the locations that carry its code, in order, repeated once per
/// required count.  Every produced candidate indexes the location list.
pub fn build_gene_domains(
    island: &LumiaIsland,
    locations: &Vec<Loc>,
    tally: &Vec<(u32, u32)>,
) -> (r: Result<Vec<Vec<u64>>, GaError>)
    ensures
        r matches Ok(doms) ==> doms@.len() == tally_count_sum(tally@, tally@.len() as int) && (
        forall|j: int|
            0 <= j < doms@.len() ==> (#[trigger] doms@[j])@ == carrier_indices(
                island.entries(),
                locations@,
                tally_code_at_from(tally@, j, 0),
                0,
            )) && (forall|j: int, k: int|
            #![trigger doms@[j]@[k]]
            0 <= j < doms@.len() && 0 <= k < doms@[j]@.len() ==> doms@[j]@[k] < locations@.len()),
{
    let mut doms: Vec<Vec<u64>> = Vec::new();
    let mut ti: usize = 0;
    while ti < tally.len()
        invariant
            ti <= tally@.len(),
            doms@.len() == tally_count_sum(tally@, ti as int),
            forall|j: int|
                0 <= j < doms@.len() ==> (#[trigger] doms@[j])@ == carrier_indices(
                    island.entries(),
                    locations@,
                    tally_code_at_from(tally@, j, 0),
                    0,
                ),
            forall|j: int, k: int|
                #![trigger doms@[j]@[k]]
                0 <= j < doms@.len() && 0 <= k < doms@[j]@.len() ==> doms@[j]@[k]
                    < locations@.len(),
        decreases tally@.len() - ti,
    {
        let (code, count) = tally[ti];
        let mut cands: Vec<u64> = Vec::new();
        let mut li: usize = 0;
        proof {
            assert(cands@ + carrier_indices(island.entries(), locations@, code, 0)
                =~= carrier_indices(island.entries(), locations@, code, 0));
        }
        while li < locations.len()
            invariant
                li <= locations@.len(),
                carrier_indices(island.entries(), locations@, code, 0) == cands@
                    + carrier_indices(island.entries(), locations@, code, li as int),
                forall|k: int| 0 <= k < cands@.len() ==> #[trigger] cands@[k] < locations@.len(),
            decreases locations@.len() - li,
        {
            let loc = locations[li];
            let codes = match island.check_items(loc) {
                Ok(c) => c,
                Err(e) => {
                    return Err(e);
                },
            };
            let mut hit = false;
            let mut ci: usize = 0;
            while ci < codes.len()
                invariant
                    ci <= codes@.len(),
                    hit == exists|k: int| 0 <= k < ci && #[trigger] codes@[k] == code,
                decreases codes@.len() - ci,
            {
                if codes[ci] == code {
                    hit = true;
                    proof {
                        assert(codes@[ci as int] == code);
                    }
                }
                ci += 1;
            }
            proof {
                assert(loc == locations@[li as int]);
                assert(crate::island::loc_lookup_from(island.entries(), loc, 0) == Some(codes@));
                assert(hit == codes@.contains(code));
                assert(hit == loc_carries_code(island.entries(), locations@[li as int], code));
                assert(carrier_indices(island.entries(), locations@, code, li as int) == (if hit {
                    seq![li as u64] + carrier_indices(island.entries(), locations@, code, li + 1)
                } else {
                    carrier_indices(island.entries(), locations@, code, li + 1)
                }));
            }
            let ghost cands_before = cands@;
            if hit {
                cands.push(li as u64);
                proof {
                    assert(cands@ + carrier_indices(island.entries(), locations@, code, li + 1)
                        =~= cands_before + (seq![li as u64] + carrier_indices(
                        island.entries(),
                        locations@,
                        code,
                        li + 1,
                    )));
                }
            }
            li += 1;
        }
        proof {
            assert(carrier_indices(island.entries(), locations@, code, locations@.len() as int)
                =~= Seq::<u64>::empty());
            assert(cands@ + Seq::<u64>::empty() =~= cands@);
            assert(cands@ == carrier_indices(island.entries(), locations@, code, 0));
        }
        let mut c: usize = 0;
        while c < count as usize
            invariant
                c <= count as usize,
                ti < tally@.len(),
                count == tally@[ti as int].1,
                code == tally@[ti as int].0,
                cands@ == carrier_indices(island.entries(), locations@, code, 0),
                doms@.len() == tally_count_sum(tally@, ti as int) + c,
                forall|j: int|
                    0 <= j < doms@.len() ==> (#[trigger] doms@[j])@ == carrier_indices(
                        island.entries(),
                        locations@,
                        tally_code_at_from(tally@, j, 0),
                        0,
                    ),
                forall|k: int| 0 <= k < cands@.len() ==> #[trigger] cands@[k] < locations@.len(),
                forall|j: int, k: int|
                    #![trigger doms@[j]@[k]]
                    0 <= j < doms@.len() && 0 <= k < doms@[j]@.len() ==> doms@[j]@[k]
                        < locations@.len(),
            decreases count as int - c,
        {
            proof {
                lemma_tally_code_at(tally@, 0, ti as int, c as int);
                assert(tally_code_at_from(
                    tally@,
                    tally_count_sum(tally@, ti as int) + c,
                    0,
                ) == code);
            }
            doms.push(crate::copy_vec(&cands));
            c += 1;
        }
        ti += 1;
    }
    Ok(doms)
}

} // verus!
