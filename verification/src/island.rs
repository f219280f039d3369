//! The island map data: object locations, item spawns, the precomputed
//! distance table, and the randomized distribution of spawned item codes
//! over the map's item boxes.  All reference data is explicit and immutable,
//! loaded once by the caller and passed in.
use vstd::prelude::*;

use crate::rng::shuffle_vec;
use crate::GaError;

verus! {

/// An item identifier.
pub type ItemCode = u32;

/// A map coordinate.
pub type Loc = (u32, u32);

/// How many fresh shuffles one area may try before its spawn data is
/// rejected as undistributable.
pub const RESHUFFLE_ATTEMPTS: usize = 64;

/// What stands at a map coordinate.
#[derive(Clone, Copy, Debug, PartialEq, Eq, Structural)]
pub enum ObjectKind {
    Item,
    Potato,
    Stone,
    Branch,
    SecurityConsole,
    Hyperloop,
    Water,
    TreeOfLife,
    Carp,
}

/// One object location of the map data.
#[derive(Clone, Copy, Debug, PartialEq, Eq, Structural)]
pub struct ObjectLocation {
    pub x: u32,
    pub y: u32,
    pub kind: ObjectKind,
    pub area_code: u32,
}

/// One item-spawn row of the game data.
#[derive(Clone, Copy, Debug, PartialEq, Eq, Structural)]
pub struct ItemSpawn {
    pub area_code: u32,
    pub item_code: u32,
    pub drop_count: u32,
}

/// The codes a fixed (non-item-box) object always yields.
pub open spec fn fixed_codes(kind: ObjectKind) -> Seq<u32> {
    match kind {
        ObjectKind::Item => Seq::empty(),
        ObjectKind::Potato => seq![302102u32],
        ObjectKind::Stone => seq![112101u32],
        ObjectKind::Branch => seq![108101u32],
        ObjectKind::SecurityConsole => Seq::empty(),
        ObjectKind::Hyperloop => Seq::empty(),
        ObjectKind::Water => seq![301203u32],
        ObjectKind::TreeOfLife => seq![401208u32],
        ObjectKind::Carp => seq![302109u32],
    }
}

/// The codes a fixed object always yields, as a vector.
fn fixed_codes_exec(kind: ObjectKind) -> (r: Vec<u32>)
    ensures
        r@ == fixed_codes(kind),
{
    let mut r: Vec<u32> = Vec::new();
    match kind {
        ObjectKind::Item => {},
        ObjectKind::Potato => {
            r.push(302102u32);
        },
        ObjectKind::Stone => {
            r.push(112101u32);
        },
        ObjectKind::Branch => {
            r.push(108101u32);
        },
        ObjectKind::SecurityConsole => {},
        ObjectKind::Hyperloop => {},
        ObjectKind::Water => {
            r.push(301203u32);
        },
        ObjectKind::TreeOfLife => {
            r.push(401208u32);
        },
        ObjectKind::Carp => {
            r.push(302109u32);
        },
    }
    proof {
        assert(r@ =~= fixed_codes(kind));
    }
    r
}

/// The number of item-box locations of the area among the first `upto`
/// object locations.
pub open spec fn count_item_locs(ols: Seq<ObjectLocation>, area: u32, upto: int) -> int
    decreases upto,
{
    if upto <= 0 {
        0
    } else {
        count_item_locs(ols, area, upto - 1) + if ols[upto - 1].kind == ObjectKind::Item && ols[
            upto - 1
        ].area_code == area {
            1int
        } else {
            0int
        }
    }
}

/// The item-box count grows monotonically with the prefix and never drops
/// below zero.
proof fn lemma_count_mono(ols: Seq<ObjectLocation>, area: u32, a: int, b: int)
    requires
        0 <= a <= b,
    ensures
        0 <= count_item_locs(ols, area, a) <= count_item_locs(ols, area, b),
    decreases b - a,
{
    if a < b {
        lemma_count_mono(ols, area, a, b - 1);
    } else {
        lemma_count_nonneg(ols, area, a);
    }
}

proof fn lemma_count_nonneg(ols: Seq<ObjectLocation>, area: u32, a: int)
    ensures
        count_item_locs(ols, area, a) >= 0,
    decreases a,
{
    if a > 0 {
        lemma_count_nonneg(ols, area, a - 1);
    }
}

/// The number of the area's object locations, of any kind, among the first
/// `upto`.
pub open spec fn count_area_locs(ols: Seq<ObjectLocation>, area: u32, upto: int) -> int
    decreases upto,
{
    if upto <= 0 {
        0
    } else {
        count_area_locs(ols, area, upto - 1) + if ols[upto - 1].area_code == area {
            1int
        } else {
            0int
        }
    }
}

/// The area-location count grows monotonically with the prefix and never
/// drops below zero.
proof fn lemma_area_count_mono(ols: Seq<ObjectLocation>, area: u32, a: int, b: int)
    requires
        0 <= a <= b,
    ensures
        0 <= count_area_locs(ols, area, a) <= count_area_locs(ols, area, b),
    decreases b - a,
{
    if a < b {
        lemma_area_count_mono(ols, area, a, b - 1);
    } else {
        lemma_area_count_nonneg(ols, area, a);
    }
}

proof fn lemma_area_count_nonneg(ols: Seq<ObjectLocation>, area: u32, a: int)
    ensures
        count_area_locs(ols, area, a) >= 0,
    decreases a,
{
    if a > 0 {
        lemma_area_count_nonneg(ols, area, a - 1);
    }
}

/// A code repeated a number of times, as a multiset.
pub open spec fn repeat_mset(code: u32, times: int) -> vstd::multiset::Multiset<u32>
    decreases times,
{
    if times <= 0 {
        vstd::multiset::Multiset::empty()
    } else {
        repeat_mset(code, times - 1).insert(code)
    }
}

/// The multiset of the area's spawned codes among the first `upto` spawn
/// rows, each code repeated by its drop count.
pub open spec fn spawn_codes_mset(spawns: Seq<ItemSpawn>, area: u32, upto: int) -> vstd::multiset::Multiset<u32>
    decreases upto,
{
    if upto <= 0 {
        vstd::multiset::Multiset::empty()
    } else {
        let rest = spawn_codes_mset(spawns, area, upto - 1);
        if spawns[upto - 1].area_code == area {
            rest.add(repeat_mset(spawns[upto - 1].item_code, spawns[upto - 1].drop_count as int))
        } else {
            rest
        }
    }
}

/// The spec-level picture of a list of distributed entries.
pub open spec fn entry_views(s: Seq<(Loc, Vec<ItemCode>)>) -> Seq<(Loc, Seq<u32>)> {
    s.map(|i: int, p: (Loc, Vec<ItemCode>)| (p.0, p.1@))
}

/// The entry a distributed area gives its `u`-th-listed location: placed at
/// `base` plus the number of the area's earlier locations, keyed by the
/// location's coordinates; an item box takes its round-robin bucket of the
/// shuffled codes, any other kind its fixed codes.
pub open spec fn area_entry_at(
    entries: Seq<(Loc, Seq<u32>)>,
    base: int,
    ols: Seq<ObjectLocation>,
    area: u32,
    shuffled: Seq<u32>,
    u: int,
) -> bool {
    let k = base + count_area_locs(ols, area, u);
    let ol = ols[u];
    &&& 0 <= k < entries.len()
    &&& entries[k].0 == (ol.x, ol.y)
    &&& entries[k].1 == if ol.kind == ObjectKind::Item {
        round_robin_row(
            shuffled,
            count_item_locs(ols, area, ols.len() as int),
            count_item_locs(ols, area, u),
        )
    } else {
        fixed_codes(ol.kind)
    }
}

/// Every object location of an area that has at least one item box got an
/// entry of its coordinates.
pub open spec fn covers_item_areas(isl: LumiaIsland, ols: Seq<ObjectLocation>) -> bool {
    forall|t: int|
        0 <= t < ols.len() && count_item_locs(
            ols,
            (#[trigger] ols[t]).area_code,
            ols.len() as int,
        ) >= 1 ==> exists|k: int|
            0 <= k < isl.entries().len() && (#[trigger] isl.entries()[k]).0 == (
            ols[t].x,
            ols[t].y,
            )
}

/// What distributing one area appends to the entry list: one entry per
/// object location of the area, in data order, keyed by its coordinates;
/// item boxes take the round-robin buckets of a shuffled code list whose
/// multiset is exactly the area's spawned codes, other kinds their fixed
/// codes.
pub open spec fn distributed_area(
    entries0: Seq<(Loc, Vec<ItemCode>)>,
    entries1: Seq<(Loc, Vec<ItemCode>)>,
    spawns: Seq<ItemSpawn>,
    ols: Seq<ObjectLocation>,
    area: u32,
    shuffled: Seq<u32>,
) -> bool {
    &&& shuffled.to_multiset() == spawn_codes_mset(spawns, area, spawns.len() as int)
    &&& entries1.len() == entries0.len() + count_area_locs(ols, area, ols.len() as int)
    &&& (forall|u: int|
        0 <= u < ols.len() && (#[trigger] ols[u]).area_code == area ==> area_entry_at(
            entry_views(entries1),
            entries0.len() as int,
            ols,
            area,
            shuffled,
            u,
        ))
}

/// Counts the area's item-box locations.
fn count_item_locs_exec(ols: &Vec<ObjectLocation>, area: u32) -> (n: usize)
    ensures
        n == count_item_locs(ols@, area, ols@.len() as int),
{
    let mut n: usize = 0;
    let mut i: usize = 0;
    while i < ols.len()
        invariant
            i <= ols@.len(),
            n <= i,
            n == count_item_locs(ols@, area, i as int),
        decreases ols@.len() - i,
    {
        let ol = ols[i];
        if matches!(ol.kind, ObjectKind::Item) && ol.area_code == area {
            n += 1;
        }
        i += 1;
    }
    n
}

/// Some spawn row of the area carries this code.
pub open spec fn has_spawn_code(spawns: Seq<ItemSpawn>, area: u32, code: u32) -> bool {
    exists|i: int|
        0 <= i < spawns.len() && (#[trigger] spawns[i]).area_code == area && spawns[i].item_code
            == code
}

/// One distributed map entry is accounted for: its key is an object
/// location's coordinates; a fixed object carries exactly its fixed codes,
/// and an item box carries only codes spawned in its area.
pub open spec fn entry_ok(
    spawns: Seq<ItemSpawn>,
    ols: Seq<ObjectLocation>,
    key: Loc,
    codes: Seq<u32>,
) -> bool {
    exists|t: int|
        0 <= t < ols.len() && (#[trigger] ols[t]).x == key.0 && ols[t].y == key.1 && (ols[t].kind
            == ObjectKind::Item ==> forall|c: int|
            0 <= c < codes.len() ==> has_spawn_code(spawns, ols[t].area_code, #[trigger] codes[c]))
            && (ols[t].kind != ObjectKind::Item ==> codes == fixed_codes(ols[t].kind))
}

/// The elements a round-robin bucket takes: those at positions `j`,
/// `j + n`, `j + 2n`, and so on, in order.
pub open spec fn round_robin_row<I>(xs: Seq<I>, n: int, j: int) -> Seq<I>
    decreases xs.len() - j,
    when n >= 1 && 0 <= j
{
    if j >= xs.len() {
        Seq::empty()
    } else {
        let jn = if j + n >= xs.len() {
            xs.len() as int
        } else {
            j + n
        };
        seq![xs[j]] + round_robin_row(xs, n, jn)
    }
}

/// Every element of a round-robin bucket is an element of the list.
pub proof fn lemma_round_robin_row_elems<I>(xs: Seq<I>, n: int, j: int)
    requires
        n >= 1,
        0 <= j,
    ensures
        forall|k: int|
            0 <= k < round_robin_row(xs, n, j).len() ==> xs.contains(
                #[trigger] round_robin_row(xs, n, j)[k],
            ),
    decreases xs.len() - j,
{
    if j < xs.len() {
        let jn = if j + n >= xs.len() {
            xs.len() as int
        } else {
            j + n
        };
        lemma_round_robin_row_elems(xs, n, jn);
        assert forall|k: int|
            0 <= k < round_robin_row(xs, n, j).len() implies xs.contains(
            #[trigger] round_robin_row(xs, n, j)[k],
        ) by {
            if k == 0 {
                assert(round_robin_row(xs, n, j)[0] == xs[j]);
            } else {
                assert(round_robin_row(xs, n, j)[k] == round_robin_row(xs, n, jn)[k - 1]);
            }
        }
    }
}

/// Distributes a list round-robin over `n` buckets: bucket `j` takes the
/// elements at positions `j`, `j + n`, `j + 2n`, and so on, in order.
pub fn slice_evenly<I: Copy>(xs: Vec<I>, n: usize) -> (r: Vec<Vec<I>>)
    requires
        n == 0 ==> xs@.len() == 0,
    ensures
        r@.len() == n,
        forall|j: int|
            0 <= j < n ==> (#[trigger] r@[j])@ == round_robin_row(xs@, n as int, j),
{
    let mut r: Vec<Vec<I>> = Vec::new();
    let mut j: usize = 0;
    while j < n
        invariant
            j <= n,
            n == 0 ==> xs@.len() == 0,
            r@.len() == j,
            forall|jj: int|
                0 <= jj < j ==> (#[trigger] r@[jj])@ == round_robin_row(xs@, n as int, jj),
        decreases n - j,
    {
        let mut row: Vec<I> = Vec::new();
        let mut pos: usize = j;
        proof {
            assert(row@ + round_robin_row(xs@, n as int, j as int) =~= round_robin_row(
                xs@,
                n as int,
                j as int,
            ));
        }
        while pos < xs.len()
            invariant
                1 <= n,
                j <= pos,
                round_robin_row(xs@, n as int, j as int) == row@ + round_robin_row(
                    xs@,
                    n as int,
                    pos as int,
                ),
            decreases xs@.len() - pos,
        {
            let ghost row_before = row@;
            row.push(xs[pos]);
            let next = if xs.len() - pos <= n {
                xs.len()
            } else {
                pos + n
            };
            proof {
                assert(round_robin_row(xs@, n as int, pos as int) == seq![xs@[pos as int]]
                    + round_robin_row(xs@, n as int, next as int));
                assert(row@ + round_robin_row(xs@, n as int, next as int) =~= row_before + (
                seq![xs@[pos as int]] + round_robin_row(xs@, n as int, next as int)));
            }
            pos = next;
        }
        proof {
            assert(round_robin_row(xs@, n as int, pos as int) =~= Seq::<I>::empty());
            assert(row@ =~= row@ + Seq::<I>::empty());
        }
        r.push(row);
        j += 1;
    }
    r
}

/// Whether some bucket holds more than two copies of one code.
fn has_overfull_box(boxes: &Vec<Vec<u32>>) -> bool {
    let mut b: usize = 0;
    while b < boxes.len()
        invariant
            b <= boxes@.len(),
        decreases boxes@.len() - b,
    {
        let mut c: usize = 0;
        while c < boxes[b].len()
            invariant
                b < boxes@.len(),
                c <= boxes@[b as int]@.len(),
            decreases boxes@[b as int]@.len() - c,
        {
            let v = boxes[b][c];
            let mut cnt: usize = 0;
            let mut t: usize = 0;
            while t < boxes[b].len()
                invariant
                    b < boxes@.len(),
                    t <= boxes@[b as int]@.len(),
                    cnt <= t,
                decreases boxes@[b as int]@.len() - t,
            {
                if boxes[b][t] == v {
                    cnt += 1;
                }
                t += 1;
            }
            if cnt > 2 {
                return true;
            }
            c += 1;
        }
        b += 1;
    }
    false
}

/// An element of one of two sequences with equal multisets is an element of
/// the other.
proof fn lemma_mset_member<A>(s1: Seq<A>, s2: Seq<A>, x: A)
    requires
        s1.to_multiset() == s2.to_multiset(),
        s1.contains(x),
    ensures
        s2.contains(x),
{
    broadcast use vstd::seq_lib::group_to_multiset_ensures;

    assert(s1.to_multiset().count(x) > 0);
    assert(s2.to_multiset().count(x) > 0);
}

/// Whether the value occurs in the vector.
fn contains_u32(v: &Vec<u32>, x: u32) -> (r: bool)
    ensures
        r == v@.contains(x),
{
    let mut i: usize = 0;
    while i < v.len()
        invariant
            i <= v@.len(),
            forall|k: int| 0 <= k < i ==> v@[k] != x,
        decreases v@.len() - i,
    {
        if v[i] == x {
            return true;
        }
        i += 1;
    }
    false
}

/// The precomputed, symmetric travel-distance rows between coordinates.
/// The table keys each ordered pair once; a lookup resolves a duplicated
/// pair to its earliest row, which is the one deliberate choice here where
/// a keyed store would have made the surviving row arbitrary.
pub struct DistanceTable {
    rows: Vec<(Loc, Loc, u32)>,
}

/// First-match lookup of an ordered coordinate pair, scanning from `k`.
pub open spec fn distance_lookup_from(rows: Seq<(Loc, Loc, u32)>, i: Loc, j: Loc, k: int) -> Option<
    u32,
>
    decreases rows.len() - k,
{
    if k < 0 || k >= rows.len() {
        None
    } else if rows[k].0 == i && rows[k].1 == j {
        Some(rows[k].2)
    } else {
        distance_lookup_from(rows, i, j, k + 1)
    }
}

impl DistanceTable {
    /// The table rows.
    pub closed spec fn rows(&self) -> Seq<(Loc, Loc, u32)> {
        self.rows@
    }

    /// Builds a table from loaded rows.
    pub fn new(rows: Vec<(Loc, Loc, u32)>) -> (t: DistanceTable)
        ensures
            t.rows() == rows@,
    {
        DistanceTable { rows }
    }
}

/// The island: which item codes sit at which map coordinate, after one
/// randomized distribution of each area's spawns over its item boxes.
pub struct LumiaIsland {
    item_codes_by_location: Vec<(Loc, Vec<ItemCode>)>,
}

/// First-match lookup of a coordinate among the distributed entries.
pub open spec fn loc_lookup_from(
    entries: Seq<(Loc, Seq<u32>)>,
    key: Loc,
    j: int,
) -> Option<Seq<u32>>
    decreases entries.len() - j,
{
    if j < 0 || j >= entries.len() {
        None
    } else if entries[j].0 == key {
        Some(entries[j].1)
    } else {
        loc_lookup_from(entries, key, j + 1)
    }
}

impl LumiaIsland {
    /// The distributed entries, keys in distribution order.
    pub closed spec fn entries(&self) -> Seq<(Loc, Seq<u32>)> {
        entry_views(self.item_codes_by_location@)
    }

    /// The coordinates of every object location, in data order.
    pub fn locations(object_locations: &Vec<ObjectLocation>) -> (r: Vec<Loc>)
        ensures
            r@.len() == object_locations@.len(),
            forall|i: int|
                0 <= i < r@.len() ==> r@[i] == ((#[trigger] object_locations@[i]).x,
                object_locations@[i].y),
    {
        let mut r: Vec<Loc> = Vec::new();
        let mut i: usize = 0;
        while i < object_locations.len()
            invariant
                i <= object_locations@.len(),
                r@.len() == i,
                forall|k: int|
                    0 <= k < i ==> r@[k] == ((#[trigger] object_locations@[k]).x,
                    object_locations@[k].y),
            decreases object_locations@.len() - i,
        {
            let ol = object_locations[i];
            r.push((ol.x, ol.y));
            i += 1;
        }
        r
    }

    /// The travel distance between two coordinates: zero between a
    /// coordinate and itself, else the table row for the ordered pair; a
    /// missing pair is a lookup failure.
    pub fn distance(table: &DistanceTable, i: Loc, j: Loc) -> (r: Result<u32, GaError>)
        ensures
            i == j ==> r == Ok::<u32, GaError>(0u32),
            i != j ==> r == match distance_lookup_from(table.rows(), i, j, 0) {
                Option::Some(d) => Ok::<u32, GaError>(d),
                Option::None => Err::<u32, GaError>(GaError::LookupNotFoundError),
            },
    {
        if i.0 == j.0 && i.1 == j.1 {
            return Ok(0);
        }
        let n = table.rows.len();
        let mut k: usize = 0;
        while k < n
            invariant
                k <= n,
                i != j,
                n == table.rows().len(),
                distance_lookup_from(table.rows(), i, j, 0) == distance_lookup_from(
                    table.rows(),
                    i,
                    j,
                    k as int,
                ),
            decreases n - k,
        {
            let row = table.rows[k];
            if row.0.0 == i.0 && row.0.1 == i.1 && row.1.0 == j.0 && row.1.1 == j.1 {
                return Ok(row.2);
            }
            k += 1;
        }
        Err(GaError::LookupNotFoundError)
    }

    /// Builds an island by distributing every area's spawned item codes over
    /// that area's item boxes at random; fixed objects get their fixed
    /// codes.  An area that has item boxes but no spawn rows is a lookup
    /// failure.
    pub fn new(spawns: &Vec<ItemSpawn>, object_locations: &Vec<ObjectLocation>) -> (r: Result<
        LumiaIsland,
        GaError,
    >)
        ensures
            r matches Ok(isl) ==> forall|k: int|
                0 <= k < isl.entries().len() ==> entry_ok(
                    spawns@,
                    object_locations@,
                    (#[trigger] isl.entries()[k]).0,
                    isl.entries()[k].1,
                ),
            r matches Ok(isl) ==> covers_item_areas(isl, object_locations@),
            r is Err ==> (r == Err::<LumiaIsland, GaError>(GaError::LookupNotFoundError) || r
                == Err::<LumiaIsland, GaError>(GaError::InvariantViolationError)),
    {
        let generator = LumiaIslandGenerator {  };
        generator.generate(spawns, object_locations)
    }

    /// The item codes distributed to the coordinate; an unknown coordinate
    /// is a lookup failure.
    pub fn check_items(&self, i: Loc) -> (r: Result<&Vec<ItemCode>, GaError>)
        ensures
            match r {
                Result::Ok(v) => loc_lookup_from(self.entries(), i, 0) == Some(v@),
                Result::Err(e) => e == GaError::LookupNotFoundError && loc_lookup_from(
                    self.entries(),
                    i,
                    0,
                ) is None,
            },
    {
        let n = self.item_codes_by_location.len();
        let mut k: usize = 0;
        while k < n
            invariant
                k <= n,
                n == self.entries().len(),
                loc_lookup_from(self.entries(), i, 0) == loc_lookup_from(
                    self.entries(),
                    i,
                    k as int,
                ),
            decreases n - k,
        {
            let key = self.item_codes_by_location[k].0;
            if key.0 == i.0 && key.1 == i.1 {
                return Ok(&self.item_codes_by_location[k].1);
            }
            k += 1;
        }
        Err(GaError::LookupNotFoundError)
    }
}

/// The one-shot generator behind `LumiaIsland::new`.
pub struct LumiaIslandGenerator {}

impl LumiaIslandGenerator {
    /// Walks the object locations area by area, in first-appearance order of
    /// areas that have item boxes, and distributes each such area's spawned
    /// codes over its boxes.
    pub fn generate(&self, spawns: &Vec<ItemSpawn>, object_locations: &Vec<ObjectLocation>) -> (r:
        Result<LumiaIsland, GaError>)
        ensures
            r matches Ok(isl) ==> forall|k: int|
                0 <= k < isl.entries().len() ==> entry_ok(
                    spawns@,
                    object_locations@,
                    (#[trigger] isl.entries()[k]).0,
                    isl.entries()[k].1,
                ),
            r matches Ok(isl) ==> covers_item_areas(isl, object_locations@),
            r is Err ==> (r == Err::<LumiaIsland, GaError>(GaError::LookupNotFoundError) || r
                == Err::<LumiaIsland, GaError>(GaError::InvariantViolationError)),
    {
        let mut entries: Vec<(Loc, Vec<ItemCode>)> = Vec::new();
        let mut seen_areas: Vec<u32> = Vec::new();
        let mut t: usize = 0;
        while t < object_locations.len()
            invariant
                t <= object_locations@.len(),
                forall|k: int|
                    0 <= k < entries@.len() ==> entry_ok(
                        spawns@,
                        object_locations@,
                        (#[trigger] entries@[k]).0,
                        entries@[k].1@,
                    ),
                forall|a: u32|
                    (#[trigger] count_item_locs(object_locations@, a, t as int)) >= 1
                        ==> seen_areas@.contains(a),
                forall|t2: int|
                    0 <= t2 < object_locations@.len() && seen_areas@.contains(
                        (#[trigger] object_locations@[t2]).area_code,
                    ) ==> exists|k: int|
                        0 <= k < entries@.len() && (#[trigger] entries@[k]).0 == (
                        object_locations@[t2].x,
                        object_locations@[t2].y,
                        ),
            decreases object_locations@.len() - t,
        {
            let ol = object_locations[t];
            let processing = matches!(ol.kind, ObjectKind::Item) && !contains_u32(
                &seen_areas,
                ol.area_code,
            );
            if processing {
                let ghost seen_before = seen_areas@;
                seen_areas.push(ol.area_code);
                proof {
                    lemma_count_nonneg(object_locations@, ol.area_code, t as int);
                    assert(count_item_locs(object_locations@, ol.area_code, t + 1) >= 1);
                    lemma_count_mono(
                        object_locations@,
                        ol.area_code,
                        t + 1,
                        object_locations@.len() as int,
                    );
                }
                let ghost entries_before = entries@;
                let res = distribute_area(spawns, object_locations, ol.area_code, &mut entries);
                if let Err(e) = res {
                    return Err(e);
                }
                proof {
                    let shuffled = choose|shuffled: Seq<u32>|
                        distributed_area(
                            entries_before,
                            entries@,
                            spawns@,
                            object_locations@,
                            ol.area_code,
                            shuffled,
                        );
                    assert forall|a: u32|
                        (#[trigger] count_item_locs(object_locations@, a, t + 1)) >= 1
                        implies seen_areas@.contains(a) by {
                        if a == ol.area_code {
                            assert(seen_areas@[seen_areas@.len() - 1] == a);
                        } else {
                            assert(count_item_locs(object_locations@, a, t + 1)
                                == count_item_locs(object_locations@, a, t as int));
                            assert(seen_before.contains(a));
                            let w = choose|w: int|
                                0 <= w < seen_before.len() && seen_before[w] == a;
                            assert(seen_areas@[w] == a);
                        }
                    }
                    assert forall|t2: int|
                        0 <= t2 < object_locations@.len() && seen_areas@.contains(
                            (#[trigger] object_locations@[t2]).area_code,
                        ) implies exists|k: int|
                        0 <= k < entries@.len() && (#[trigger] entries@[k]).0 == (
                        object_locations@[t2].x,
                        object_locations@[t2].y,
                        ) by {
                        if object_locations@[t2].area_code == ol.area_code {
                            assert(area_entry_at(
                                entry_views(entries@),
                                entries_before.len() as int,
                                object_locations@,
                                ol.area_code,
                                shuffled,
                                t2,
                            ));
                            let k = entries_before.len() + count_area_locs(
                                object_locations@,
                                ol.area_code,
                                t2,
                            );
                            assert(entry_views(entries@).len() == entries@.len());
                            assert(entry_views(entries@)[k] == (entries@[k].0, entries@[k].1@));
                            assert(entries@[k].0 == (object_locations@[t2].x,
                            object_locations@[t2].y));
                        } else {
                            assert(seen_before.contains(object_locations@[t2].area_code)) by {
                                let w2 = choose|w2: int|
                                    0 <= w2 < seen_areas@.len() && seen_areas@[w2]
                                        == object_locations@[t2].area_code;
                                assert(seen_before[w2] == object_locations@[t2].area_code);
                            }
                            let k0 = choose|k0: int|
                                0 <= k0 < entries_before.len() && (#[trigger] entries_before[k0]).0
                                    == (object_locations@[t2].x, object_locations@[t2].y);
                            lemma_area_count_nonneg(
                                object_locations@,
                                ol.area_code,
                                object_locations@.len() as int,
                            );
                            assert(entries@.len() >= entries_before.len());
                            assert(entries@[k0] == entries_before[k0]) by {
                                assert(entries@.subrange(0, entries_before.len() as int)
                                    == entries_before);
                                assert(entries@.subrange(0, entries_before.len() as int)[k0]
                                    == entries_before[k0]);
                            }
                            assert(entries@[k0].0 == (object_locations@[t2].x,
                            object_locations@[t2].y));
                        }
                    }
                }
            } else {
                proof {
                    assert forall|a: u32|
                        (#[trigger] count_item_locs(object_locations@, a, t + 1)) >= 1
                        implies seen_areas@.contains(a) by {
                        if count_item_locs(object_locations@, a, t as int) < 1 {
                            assert(object_locations@[t as int].kind == ObjectKind::Item
                                && object_locations@[t as int].area_code == a);
                            assert(seen_areas@.contains(a));
                        }
                    }
                }
            }
            t += 1;
        }
        let isl = LumiaIsland { item_codes_by_location: entries };
        proof {
            assert(covers_item_areas(isl, object_locations@)) by {
                assert forall|t0: int|
                0 <= t0 < object_locations@.len() && count_item_locs(
                    object_locations@,
                    (#[trigger] object_locations@[t0]).area_code,
                    object_locations@.len() as int,
                ) >= 1 implies exists|k: int|
                0 <= k < isl.entries().len() && (#[trigger] isl.entries()[k]).0 == (
                object_locations@[t0].x,
                object_locations@[t0].y,
                ) by {
                let raw = isl.item_codes_by_location@;
                assert(seen_areas@.contains(object_locations@[t0].area_code));
                let k = choose|k: int|
                    0 <= k < raw.len() && (#[trigger] raw[k]).0 == (
                    object_locations@[t0].x,
                    object_locations@[t0].y,
                    );
                    assert(isl.entries().len() == raw.len());
                    assert(isl.entries()[k] == (raw[k].0, raw[k].1@));
                }
            }
        }
        Ok(isl)
    }
}

/// Distributes one area's spawned codes over its item boxes, appending one
/// entry per object location of the area.
fn distribute_area(
    spawns: &Vec<ItemSpawn>,
    object_locations: &Vec<ObjectLocation>,
    area: u32,
    entries: &mut Vec<(Loc, Vec<ItemCode>)>,
) -> (r: Result<(), GaError>)
    requires
        count_item_locs(object_locations@, area, object_locations@.len() as int) >= 1,
        forall|k: int|
            0 <= k < old(entries)@.len() ==> entry_ok(
                spawns@,
                object_locations@,
                (#[trigger] old(entries)@[k]).0,
                old(entries)@[k].1@,
            ),
    ensures
        forall|k: int|
            0 <= k < final(entries)@.len() ==> entry_ok(
                spawns@,
                object_locations@,
                (#[trigger] final(entries)@[k]).0,
                final(entries)@[k].1@,
            ),
        final(entries)@.subrange(0, old(entries)@.len() as int) == old(entries)@,
        r is Ok ==> exists|shuffled: Seq<u32>|
            distributed_area(
                old(entries)@,
                final(entries)@,
                spawns@,
                object_locations@,
                area,
                shuffled,
            ),
        r is Err ==> final(entries)@ == old(entries)@,
        r is Err ==> (r == Err::<(), GaError>(GaError::LookupNotFoundError) || r == Err::<
            (),
            GaError,
        >(GaError::InvariantViolationError)),
{
    broadcast use vstd::seq_lib::group_to_multiset_ensures;

    let ghost base = old(entries)@.len() as int;
    // the area's spawned codes, each repeated by its drop count
    let mut codes: Vec<u32> = Vec::new();
    let mut found_rows = false;
    let mut s: usize = 0;
    while s < spawns.len()
        invariant
            s <= spawns@.len(),
            codes@.to_multiset() == spawn_codes_mset(spawns@, area, s as int),
            forall|c: int| 0 <= c < codes@.len() ==> has_spawn_code(spawns@, area, #[trigger] codes@[c]),
        decreases spawns@.len() - s,
    {
        let sp = spawns[s];
        if sp.area_code == area {
            found_rows = true;
            let mut d: usize = 0;
            proof {
                broadcast use vstd::seq_lib::group_to_multiset_ensures;

                assert(codes@.to_multiset().add(repeat_mset(sp.item_code, 0))
                    =~= codes@.to_multiset());
            }
            while d < sp.drop_count as usize
                invariant
                    0 <= s < spawns@.len(),
                    spawns@[s as int].area_code == area,
                    sp == spawns@[s as int],
                    d <= sp.drop_count,
                    codes@.to_multiset() == spawn_codes_mset(spawns@, area, s as int).add(
                        repeat_mset(sp.item_code, d as int),
                    ),
                    forall|c: int|
                        0 <= c < codes@.len() ==> has_spawn_code(
                            spawns@,
                            area,
                            #[trigger] codes@[c],
                        ),
                decreases sp.drop_count as int - d,
            {
                codes.push(sp.item_code);
                d += 1;
                proof {
                    broadcast use vstd::seq_lib::group_to_multiset_ensures;

                    assert(codes@.to_multiset() =~= spawn_codes_mset(
                        spawns@,
                        area,
                        s as int,
                    ).add(repeat_mset(sp.item_code, d as int)));
                }
            }
            proof {
                assert(d == sp.drop_count);
                assert(spawn_codes_mset(spawns@, area, s + 1) == spawn_codes_mset(
                    spawns@,
                    area,
                    s as int,
                ).add(repeat_mset(sp.item_code, sp.drop_count as int)));
            }
        }
        s += 1;
    }
    if !found_rows {
        return Err(GaError::LookupNotFoundError);
    }
    let n_boxes = count_item_locs_exec(object_locations, area);
    proof {
        lemma_count_nonneg(object_locations@, area, object_locations@.len() as int);
    }
    // retry fresh shuffles until a bucket holds more than two copies of one
    // code; spawn data that never produces one is rejected
    let mut attempt: usize = 0;
    while attempt < RESHUFFLE_ATTEMPTS
        invariant
            n_boxes == count_item_locs(object_locations@, area, object_locations@.len() as int),
            n_boxes >= 1,
            base == old(entries)@.len() as int,
            entries@ == old(entries)@,
            codes@.to_multiset() == spawn_codes_mset(spawns@, area, spawns@.len() as int),
            forall|c: int|
                0 <= c < codes@.len() ==> has_spawn_code(spawns@, area, #[trigger] codes@[c]),
            forall|k: int|
                0 <= k < entries@.len() ==> entry_ok(
                    spawns@,
                    object_locations@,
                    (#[trigger] entries@[k]).0,
                    entries@[k].1@,
                ),
        decreases RESHUFFLE_ATTEMPTS - attempt,
    {
        let mut shuffled = crate::copy_vec(&codes);
        shuffle_vec(&mut shuffled);
        proof {
            assert forall|c: int|
                0 <= c < shuffled@.len() implies has_spawn_code(
                spawns@,
                area,
                #[trigger] shuffled@[c],
            ) by {
                lemma_mset_member(shuffled@, codes@, shuffled@[c]);
                let w = choose|w: int| 0 <= w < codes@.len() && codes@[w] == shuffled@[c];
            }
        }
        let ghost shuffled_view = shuffled@;
        let boxes = slice_evenly(shuffled, n_boxes);
        if has_overfull_box(&boxes) {
            // assign the buckets to the area's locations, in data order
            let mut bi: usize = 0;
            let mut u: usize = 0;
            while u < object_locations.len()
                invariant
                    u <= object_locations@.len(),
                    bi == count_item_locs(object_locations@, area, u as int),
                    n_boxes == count_item_locs(
                        object_locations@,
                        area,
                        object_locations@.len() as int,
                    ),
                    boxes@.len() == n_boxes,
                    base == old(entries)@.len() as int,
                    entries@.len() == base + count_area_locs(object_locations@, area, u as int),
                    entries@.subrange(0, base) == old(entries)@,
                    forall|u2: int|
                        0 <= u2 < u && (#[trigger] object_locations@[u2]).area_code == area
                            ==> area_entry_at(
                            entry_views(entries@),
                            base,
                            object_locations@,
                            area,
                            shuffled_view,
                            u2,
                        ),
                    forall|j: int|
                        0 <= j < n_boxes ==> (#[trigger] boxes@[j])@ == round_robin_row(
                            shuffled_view,
                            n_boxes as int,
                            j,
                        ),
                    shuffled_view.to_multiset() == spawn_codes_mset(
                        spawns@,
                        area,
                        spawns@.len() as int,
                    ),
                    forall|c: int|
                        0 <= c < shuffled_view.len() ==> has_spawn_code(
                            spawns@,
                            area,
                            #[trigger] shuffled_view[c],
                        ),
                    forall|k: int|
                        0 <= k < entries@.len() ==> entry_ok(
                            spawns@,
                            object_locations@,
                            (#[trigger] entries@[k]).0,
                            entries@[k].1@,
                        ),
                decreases object_locations@.len() - u,
            {
                let ol = object_locations[u];
                let ghost rank = count_item_locs(object_locations@, area, u as int);
                if ol.area_code == area {
                    let codes_for: Vec<u32> = if matches!(ol.kind, ObjectKind::Item) {
                        proof {
                            lemma_count_mono(
                                object_locations@,
                                area,
                                u + 1,
                                object_locations@.len() as int,
                            );
                        }
                        let b = crate::copy_vec(&boxes[bi]);
                        bi += 1;
                        proof {
                            lemma_round_robin_row_elems(shuffled_view, n_boxes as int, bi - 1);
                            assert forall|c: int|
                                0 <= c < b@.len() implies has_spawn_code(
                                spawns@,
                                area,
                                #[trigger] b@[c],
                            ) by {
                                assert(shuffled_view.contains(b@[c]));
                                let w = choose|w: int|
                                    0 <= w < shuffled_view.len() && shuffled_view[w] == b@[c];
                            }
                        }
                        b
                    } else {
                        fixed_codes_exec(ol.kind)
                    };
                    proof {
                        assert(entry_ok(
                            spawns@,
                            object_locations@,
                            (ol.x, ol.y),
                            codes_for@,
                        )) by {
                            assert(object_locations@[u as int] == ol);
                        }
                        assert(codes_for@ == if ol.kind == ObjectKind::Item {
                            round_robin_row(shuffled_view, n_boxes as int, rank)
                        } else {
                            fixed_codes(ol.kind)
                        });
                        lemma_area_count_mono(
                            object_locations@,
                            area,
                            u + 1,
                            object_locations@.len() as int,
                        );
                    }
                    let ghost ev_before = entry_views(entries@);
                    let ghost raw_before = entries@;
                    entries.push(((ol.x, ol.y), codes_for));
                    proof {
                        assert(entry_views(entries@) =~= ev_before.push(
                            ((ol.x, ol.y), codes_for@),
                        ));
                        lemma_area_count_nonneg(object_locations@, area, u as int);
                        assert(entries@.subrange(0, base) =~= raw_before.subrange(0, base));
                        assert(count_area_locs(object_locations@, area, u + 1) == count_area_locs(
                            object_locations@,
                            area,
                            u as int,
                        ) + 1);
                        assert forall|u2: int|
                            0 <= u2 < u + 1 && (#[trigger] object_locations@[u2]).area_code == area
                                implies area_entry_at(
                            entry_views(entries@),
                            base,
                            object_locations@,
                            area,
                            shuffled_view,
                            u2,
                        ) by {
                            let k2 = base + count_area_locs(object_locations@, area, u2);
                            if u2 < u {
                                assert(area_entry_at(
                                    ev_before,
                                    base,
                                    object_locations@,
                                    area,
                                    shuffled_view,
                                    u2,
                                ));
                                assert(entry_views(entries@)[k2] == ev_before[k2]);
                            } else {
                                assert(entry_views(entries@)[k2] == ((ol.x, ol.y), codes_for@));
                            }
                        }
                        assert(entries@.subrange(0, base) =~= old(entries)@);
                    }
                } else {
                }
                u += 1;
            }
            proof {
                assert(entry_views(entries@).len() == entries@.len());
                assert(distributed_area(
                    old(entries)@,
                    entries@,
                    spawns@,
                    object_locations@,
                    area,
                    shuffled_view,
                ));
            }
            return Ok(());
        }
        attempt += 1;
    }
    Err(GaError::InvariantViolationError)
}

} // verus!
