//! The obstacle-grid neighborhood used by the offline distance
//! precomputation: eight-directional moves of unit cost over a wall map.
use vstd::prelude::*;

verus! {

/// A grid cell.
#[derive(Clone, Copy, Debug, PartialEq, Eq, Hash, Structural)]
pub struct Pos(pub i32, pub i32);

/// The wall map as plain rows.
pub open spec fn grid_view(walls: Seq<Vec<u8>>) -> Seq<Seq<u8>> {
    walls.map(|i: int, row: Vec<u8>| row@)
}

/// The eight neighbors of a cell, in a fixed order.
pub open spec fn neighbors_of(p: Pos) -> Seq<Pos> {
    seq![
        Pos((p.0 + 1) as i32, (p.1 + 1) as i32),
        Pos((p.0 + 1) as i32, p.1),
        Pos((p.0 + 1) as i32, (p.1 - 1) as i32),
        Pos(p.0, (p.1 + 1) as i32),
        Pos(p.0, (p.1 - 1) as i32),
        Pos((p.0 - 1) as i32, (p.1 + 1) as i32),
        Pos((p.0 - 1) as i32, p.1),
        Pos((p.0 - 1) as i32, (p.1 - 1) as i32),
    ]
}

/// A non-negative cell lies inside the wall map.
pub open spec fn wall_indexable(walls: Seq<Seq<u8>>, p: Pos) -> bool {
    (p.0 >= 0 && p.1 >= 0) ==> (p.1 < walls.len() && p.0 < walls[p.1 as int].len())
}

/// A cell that can be stepped onto: non-negative and not a wall.
pub open spec fn open_cell(walls: Seq<Seq<u8>>, p: Pos) -> bool
    recommends
        wall_indexable(walls, p),
{
    p.0 >= 0 && p.1 >= 0 && walls[p.1 as int][p.0 as int] == 0
}

/// The predicate form of `open_cell` over a fixed wall map.
pub open spec fn open_pred(walls: Seq<Seq<u8>>) -> spec_fn(Pos) -> bool {
    |q: Pos| open_cell(walls, q)
}

/// Pairs a cell with the unit edge cost.
pub open spec fn with_unit_cost() -> spec_fn(int, Pos) -> (Pos, u32) {
    |i: int, q: Pos| (q, 1u32)
}

/// The passable neighbors of a cell with unit costs, in the fixed neighbor
/// order.
pub open spec fn open_successors(walls: Seq<Seq<u8>>, p: Pos) -> Seq<(Pos, u32)> {
    neighbors_of(p).filter(open_pred(walls)).map(with_unit_cost())
}

impl Pos {
    /// The passable neighbors of the cell, each with unit edge cost: exactly
    /// those of the eight surrounding cells that are non-negative and not
    /// walls, in the fixed neighbor order.
    pub fn successors(&self, walls: &Vec<Vec<u8>>) -> (r: Vec<(Pos, u32)>)
        requires
            i32::MIN < self.0 < i32::MAX,
            i32::MIN < self.1 < i32::MAX,
            forall|k: int|
                0 <= k < neighbors_of(*self).len() ==> wall_indexable(
                    grid_view(walls@),
                    #[trigger] neighbors_of(*self)[k],
                ),
        ensures
            r@ == open_successors(grid_view(walls@), *self),
            r@.len() <= neighbors_of(*self).len(),
            forall|t: int|
                0 <= t < r@.len() ==> (#[trigger] r@[t]).1 == 1 && neighbors_of(*self).contains(
                    r@[t].0,
                ) && open_cell(grid_view(walls@), r@[t].0),
            forall|k: int|
                0 <= k < neighbors_of(*self).len() && open_cell(
                    grid_view(walls@),
                    #[trigger] neighbors_of(*self)[k],
                ) ==> r@.contains((neighbors_of(*self)[k], 1u32)),
    {
        let x = self.0;
        let y = self.1;
        let mut cands: Vec<Pos> = Vec::new();
        cands.push(Pos(x + 1, y + 1));
        cands.push(Pos(x + 1, y));
        cands.push(Pos(x + 1, y - 1));
        cands.push(Pos(x, y + 1));
        cands.push(Pos(x, y - 1));
        cands.push(Pos(x - 1, y + 1));
        cands.push(Pos(x - 1, y));
        cands.push(Pos(x - 1, y - 1));
        proof {
            assert(cands@ =~= neighbors_of(*self));
        }
        let ghost gv = grid_view(walls@);
        let mut r: Vec<(Pos, u32)> = Vec::new();
        let mut i: usize = 0;
        while i < cands.len()
            invariant
                i <= cands@.len(),
                cands@ == neighbors_of(*self),
                gv == grid_view(walls@),
                forall|k: int|
                    0 <= k < cands@.len() ==> wall_indexable(
                        grid_view(walls@),
                        #[trigger] cands@[k],
                    ),
                r@.len() <= i,
                r@ == cands@.subrange(0, i as int).filter(open_pred(gv)).map(with_unit_cost()),
                forall|t: int|
                    0 <= t < r@.len() ==> (#[trigger] r@[t]).1 == 1 && cands@.contains(r@[t].0)
                        && open_cell(grid_view(walls@), r@[t].0),
                forall|k: int|
                    0 <= k < i && open_cell(grid_view(walls@), #[trigger] cands@[k])
                        ==> r@.contains((cands@[k], 1u32)),
            decreases cands@.len() - i,
        {
            let p = cands[i];
            let ghost r_prev = r@;
            if p.0 >= 0 && p.1 >= 0 {
                proof {
                    assert(wall_indexable(grid_view(walls@), cands@[i as int]));
                    assert(grid_view(walls@)[p.1 as int] == walls@[p.1 as int]@);
                }
                let row = &walls[p.1 as usize];
                if row[p.0 as usize] == 0 {
                    r.push((p, 1));
                    proof {
                        assert(r@[r@.len() - 1] == (cands@[i as int], 1u32));
                    }
                }
            }
            proof {
                assert forall|k: int|
                    0 <= k < i + 1 && open_cell(grid_view(walls@), #[trigger] cands@[k]) implies r@
                    .contains((cands@[k], 1u32)) by {
                    if k < i {
                        let w = choose|w: int|
                            0 <= w < r_prev.len() && r_prev[w] == (cands@[k], 1u32);
                        assert(r@[w] == (cands@[k], 1u32));
                    } else {
                        assert(r@[r@.len() - 1] == (cands@[k], 1u32));
                    }
                }
                crate::guide::lemma_filter_step(cands@, open_pred(gv), i as int);
                let fprev = cands@.subrange(0, i as int).filter(open_pred(gv));
                let fnow = cands@.subrange(0, i + 1).filter(open_pred(gv));
                if open_cell(gv, cands@[i as int]) {
                    assert(fnow == fprev.push(cands@[i as int]));
                    assert(r@ == r_prev.push((cands@[i as int], 1u32)));
                    assert(r@ =~= fnow.map(with_unit_cost()));
                } else {
                    assert(fnow == fprev);
                    assert(r@ == r_prev);
                    assert(r@ =~= fnow.map(with_unit_cost()));
                }
            }
            i += 1;
        }
        proof {
            assert(cands@.subrange(0, cands@.len() as int) =~= cands@);
            assert(r@ == open_successors(gv, *self));
        }
        r
    }
}

/// Flattens a path of non-negative cells into interleaved coordinates.
pub fn flatten_path(path: &Vec<Pos>) -> (r: Vec<u32>)
    requires
        forall|i: int| 0 <= i < path@.len() ==> (#[trigger] path@[i]).0 >= 0 && path@[i].1 >= 0,
    ensures
        r@.len() == 2 * path@.len(),
        forall|i: int|
            0 <= i < path@.len() ==> r@[2 * i] == (#[trigger] path@[i]).0 as u32 && r@[2 * i + 1]
                == path@[i].1 as u32,
{
    let mut r: Vec<u32> = Vec::new();
    let mut i: usize = 0;
    while i < path.len()
        invariant
            i <= path@.len(),
            forall|k: int| 0 <= k < path@.len() ==> (#[trigger] path@[k]).0 >= 0 && path@[k].1 >= 0,
            r@.len() == 2 * i,
            forall|k: int|
                0 <= k < i ==> r@[2 * k] == (#[trigger] path@[k]).0 as u32 && r@[2 * k + 1]
                    == path@[k].1 as u32,
        decreases path@.len() - i,
    {
        let p = path[i];
        r.push(p.0 as u32);
        r.push(p.1 as u32);
        i += 1;
    }
    r
}

} // verus!
