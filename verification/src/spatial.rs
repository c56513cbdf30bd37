//! Broad-phase spatial grid and geometric contact tests.
//!
//! The grid maps cell coordinates to the bodies overlapping that cell.  It
//! is kept as a flat association list sorted lexicographically by cell
//! coordinate, so traversal order is a function of the data alone: no hash
//! seed or allocation order can reach the result.

use vstd::prelude::*;

verus! {

use crate::scalar::Scalar;
use crate::vec2::Vec2;
use crate::circle::Circle;

/// Grid cell coordinates.
#[derive(Clone, Copy, Debug, PartialEq, Eq, PartialOrd, Ord, Hash, Structural)]
pub struct GridCell {
    pub x: i32,
    pub y: i32,
}

/// Strict lexicographic order on cell coordinates, `(x, y)`.
pub open spec fn cell_lt(a: GridCell, b: GridCell) -> bool {
    a.x < b.x || (a.x == b.x && a.y < b.y)
}

/// Decide the lexicographic order on cell coordinates.
fn cell_lt_exec(a: GridCell, b: GridCell) -> (r: bool)
    ensures
        r == cell_lt(a, b),
{
    a.x < b.x || (a.x == b.x && a.y < b.y)
}

/// The mathematical content of one grid entry: its cell and the bodies
/// listed under it.
pub open spec fn grid_model(cells: Seq<(GridCell, Vec<usize>)>) -> Seq<(GridCell, Seq<usize>)> {
    cells.map_values(|p: (GridCell, Vec<usize>)| (p.0, p.1@))
}

/// Entries are strictly increasing in the lexicographic cell order.
pub open spec fn grid_sorted(m: Seq<(GridCell, Seq<usize>)>) -> bool {
    forall|i: int, j: int| 0 <= i < j < m.len() ==> cell_lt(#[trigger] m[i].0, #[trigger] m[j].0)
}

/// Insert a body index under a cell of the sorted association list:
/// append to the existing entry, or place a fresh singleton entry at the
/// position that keeps the keys ordered.
pub open spec fn spec_grid_insert(
    m: Seq<(GridCell, Seq<usize>)>,
    cell: GridCell,
    idx: usize,
) -> Seq<(GridCell, Seq<usize>)>
    decreases m.len(),
{
    if m.len() == 0 {
        seq![(cell, seq![idx])]
    } else if cell_lt(cell, m[0].0) {
        seq![(cell, seq![idx])] + m
    } else if m[0].0 == cell {
        seq![(m[0].0, m[0].1.push(idx))] + m.skip(1)
    } else {
        seq![m[0]] + spec_grid_insert(m.skip(1), cell, idx)
    }
}

/// The body list recorded under a cell; empty when the cell is absent.
pub open spec fn grid_lookup(m: Seq<(GridCell, Seq<usize>)>, cell: GridCell) -> Seq<usize>
    decreases m.len(),
{
    if m.len() == 0 {
        Seq::empty()
    } else if m[0].0 == cell {
        m[0].1
    } else {
        grid_lookup(m.skip(1), cell)
    }
}

/// Inserting into a sorted list whose first `k` keys are below the new key
/// only touches the tail.
proof fn lemma_grid_insert_skip(m: Seq<(GridCell, Seq<usize>)>, cell: GridCell, idx: usize, k: int)
    requires
        0 <= k <= m.len(),
        forall|j: int| 0 <= j < k ==> cell_lt(#[trigger] m[j].0, cell),
    ensures
        spec_grid_insert(m, cell, idx) == m.take(k) + spec_grid_insert(m.skip(k), cell, idx),
    decreases k,
{
    if k == 0 {
        assert(m.take(0) + spec_grid_insert(m.skip(0), cell, idx) =~= spec_grid_insert(
            m,
            cell,
            idx,
        )) by {
            assert(m.skip(0) =~= m);
        }
    } else {
        assert(cell_lt(m[0].0, cell));
        lemma_grid_insert_skip(m.skip(1), cell, idx, k - 1);
        assert(m.skip(1).take(k - 1) =~= m.take(k).skip(1));
        assert(m.skip(1).skip(k - 1) =~= m.skip(k));
        assert(seq![m[0]] + (m.take(k).skip(1) + spec_grid_insert(m.skip(k), cell, idx)) =~= m.take(
            k,
        ) + spec_grid_insert(m.skip(k), cell, idx));
    }
}

/// Cell coordinate of one axis position: the position divided by the cell
/// size in Q16.16, then truncated toward zero to an integer.
#[verifier::opaque]
pub open spec fn spec_cell_coord(p: Scalar, cs: Scalar) -> int {
    p.spec_div(cs).spec_to_int()
}

/// Compute one cell coordinate.  The result of `to_int` on a 32-bit
/// encoding always lies within `[-0x8000, 0x8000)`.
fn cell_coord(p: Scalar, cs: Scalar) -> (r: i32)
    requires
        cs.bits != 0,
    ensures
        r as int == spec_cell_coord(p, cs),
        -0x8000 <= (r as int),
        (r as int) < 0x8000,
{
    let q = p.div(cs);
    proof {
        reveal(spec_cell_coord);
        crate::scalar::lemma_to_int_small(q);
    }
    q.to_int()
}

/// The cell holding a world position.
pub open spec fn spec_cell_of(pos: Vec2, cs: Scalar) -> GridCell {
    GridCell { x: spec_cell_coord(pos.x, cs) as i32, y: spec_cell_coord(pos.y, cs) as i32 }
}

/// Compute the cell holding a world position.
fn cell_of(pos: Vec2, cs: Scalar) -> (r: GridCell)
    requires
        cs.bits != 0,
    ensures
        r == spec_cell_of(pos, cs),
        -0x8000 <= (r.x as int),
        (r.x as int) < 0x8000,
        -0x8000 <= (r.y as int),
        (r.y as int) < 0x8000,
{
    GridCell { x: cell_coord(pos.x, cs), y: cell_coord(pos.y, cs) }
}

/// Lowest cell column overlapped by the bounding box of a body.
pub open spec fn spec_box_x0(c: Circle, cs: Scalar) -> int {
    spec_cell_coord(c.position.x.spec_sub(c.radius), cs)
}

/// Highest cell column overlapped by the bounding box of a body.
pub open spec fn spec_box_x1(c: Circle, cs: Scalar) -> int {
    spec_cell_coord(c.position.x.spec_add(c.radius), cs)
}

/// Lowest cell row overlapped by the bounding box of a body.
pub open spec fn spec_box_y0(c: Circle, cs: Scalar) -> int {
    spec_cell_coord(c.position.y.spec_sub(c.radius), cs)
}

/// Highest cell row overlapped by the bounding box of a body.
pub open spec fn spec_box_y1(c: Circle, cs: Scalar) -> int {
    spec_cell_coord(c.position.y.spec_add(c.radius), cs)
}

/// Walk one row of a body's bounding box, adding the body under every
/// cell but its home cell.
pub open spec fn spec_insert_row(
    m: Seq<(GridCell, Seq<usize>)>,
    x: int,
    y: int,
    y1: int,
    home: GridCell,
    idx: usize,
) -> Seq<(GridCell, Seq<usize>)>
    decreases y1 + 1 - y,
{
    if y > y1 {
        m
    } else {
        let cell = GridCell { x: x as i32, y: y as i32 };
        let m1 = if cell == home {
            m
        } else {
            spec_grid_insert(m, cell, idx)
        };
        spec_insert_row(m1, x, y + 1, y1, home, idx)
    }
}

/// Walk every row of a body's bounding box.
pub open spec fn spec_insert_rows(
    m: Seq<(GridCell, Seq<usize>)>,
    x: int,
    x1: int,
    y0: int,
    y1: int,
    home: GridCell,
    idx: usize,
) -> Seq<(GridCell, Seq<usize>)>
    decreases x1 + 1 - x,
{
    if x > x1 {
        m
    } else {
        spec_insert_rows(spec_insert_row(m, x, y0, y1, home, idx), x + 1, x1, y0, y1, home, idx)
    }
}

/// Add one body to the grid: first under its home cell, then under every
/// other cell of its bounding box, row by row.
pub open spec fn spec_insert_body(
    m: Seq<(GridCell, Seq<usize>)>,
    c: Circle,
    cs: Scalar,
    idx: usize,
) -> Seq<(GridCell, Seq<usize>)> {
    let home = spec_cell_of(c.position, cs);
    spec_insert_rows(
        spec_grid_insert(m, home, idx),
        spec_box_x0(c, cs),
        spec_box_x1(c, cs),
        spec_box_y0(c, cs),
        spec_box_y1(c, cs),
        home,
        idx,
    )
}

/// Add the bodies from index `i` on to the grid, in index order.
pub open spec fn spec_build_from(
    m: Seq<(GridCell, Seq<usize>)>,
    circles: Seq<Circle>,
    i: int,
    cs: Scalar,
) -> Seq<(GridCell, Seq<usize>)>
    decreases circles.len() - i,
{
    if i < 0 || i >= circles.len() {
        m
    } else {
        spec_build_from(spec_insert_body(m, circles[i], cs, i as usize), circles, i + 1, cs)
    }
}

/// The grid contents determined by the bodies and the cell size.
pub open spec fn spec_build(circles: Seq<Circle>, cs: Scalar) -> Seq<(GridCell, Seq<usize>)> {
    spec_build_from(Seq::empty(), circles, 0, cs)
}

/// The spatial grid: the sorted cell list, the cell edge length, and the
/// world extent it was built for.
pub struct SpatialGrid {
    /// Association list from cell to the indices of the bodies whose
    /// bounding box overlaps that cell, sorted by `cell_lt`.
    pub cells: Vec<(GridCell, Vec<usize>)>,
    /// Edge length of one square cell.
    pub cell_size: Scalar,
    /// World width the grid was built for.
    pub world_width: Scalar,
    /// World height the grid was built for.
    pub world_height: Scalar,
}

impl SpatialGrid {
    /// Create an empty grid.
    pub fn new(cell_size: Scalar, world_width: Scalar, world_height: Scalar) -> (r: SpatialGrid)
        ensures
            r.cells@ =~= Seq::empty(),
            r.cell_size == cell_size,
            r.world_width == world_width,
            r.world_height == world_height,
    {
        SpatialGrid { cells: Vec::new(), cell_size, world_width, world_height }
    }

    /// Build the grid from the bodies: each body is listed under its home
    /// cell and under every other cell its bounding box overlaps, so two
    /// overlapping bodies always share at least one cell.
    pub fn build(
        circles: &Vec<Circle>,
        cell_size: Scalar,
        world_width: Scalar,
        world_height: Scalar,
    ) -> (grid: SpatialGrid)
        requires
            cell_size.bits != 0,
        ensures
            grid_model(grid.cells@) == spec_build(circles@, cell_size),
            grid.cell_size == cell_size,
            grid.world_width == world_width,
            grid.world_height == world_height,
    {
        let ghost target = spec_build(circles@, cell_size);
        let mut cells: Vec<(GridCell, Vec<usize>)> = Vec::new();
        let mut idx: usize = 0;
        while idx < circles.len()
            invariant
                0 <= idx <= circles.len(),
                cell_size.bits != 0,
                spec_build_from(grid_model(cells@), circles@, idx as int, cell_size) == target,
            decreases circles.len() - idx,
        {
            let c = circles[idx];
            grid_insert_body(&mut cells, c, cell_size, idx);
            idx = idx + 1;
        }
        SpatialGrid { cells, cell_size, world_width, world_height }
    }
}

/// Add one body under its home cell and under every other cell of its
/// bounding box.
fn grid_insert_body(cells: &mut Vec<(GridCell, Vec<usize>)>, c: Circle, cell_size: Scalar, idx: usize)
    requires
        cell_size.bits != 0,
    ensures
        grid_model(final(cells)@) == spec_insert_body(grid_model(old(cells)@), c, cell_size, idx),
{
    let home = cell_of(c.position, cell_size);
    grid_insert(cells, home, idx);
    let x0 = cell_coord(c.position.x.sub(c.radius), cell_size);
    let x1 = cell_coord(c.position.x.add(c.radius), cell_size);
    let y0 = cell_coord(c.position.y.sub(c.radius), cell_size);
    let y1 = cell_coord(c.position.y.add(c.radius), cell_size);
    let ghost body_target = spec_insert_body(grid_model(old(cells)@), c, cell_size, idx);
    proof {
        assert(body_target == spec_insert_rows(
            grid_model(cells@),
            x0 as int,
            x1 as int,
            y0 as int,
            y1 as int,
            home,
            idx,
        ));
    }
    let mut x = x0;
    while x <= x1
        invariant
            cell_size.bits != 0,
            -0x8000 <= (x as int),
            (x as int) <= 0x8000,
            -0x8000 <= (x1 as int),
            (x1 as int) < 0x8000,
            -0x8000 <= (y0 as int),
            (y0 as int) < 0x8000,
            -0x8000 <= (y1 as int),
            (y1 as int) < 0x8000,
            spec_insert_rows(
                grid_model(cells@),
                x as int,
                x1 as int,
                y0 as int,
                y1 as int,
                home,
                idx,
            ) == body_target,
        decreases x1 + 1 - x,
    {
        let mut y = y0;
        proof {
            assert(spec_insert_rows(
                grid_model(cells@),
                x as int,
                x1 as int,
                y0 as int,
                y1 as int,
                home,
                idx,
            ) == spec_insert_rows(
                spec_insert_row(grid_model(cells@), x as int, y0 as int, y1 as int, home, idx),
                x as int + 1,
                x1 as int,
                y0 as int,
                y1 as int,
                home,
                idx,
            ));
        }
        while y <= y1
            invariant
                cell_size.bits != 0,
                x <= x1,
                -0x8000 <= (x as int),
                (x as int) < 0x8000,
                -0x8000 <= (y as int),
                (y as int) <= 0x8000,
                -0x8000 <= (x1 as int),
                (x1 as int) < 0x8000,
                -0x8000 <= (y0 as int),
                (y0 as int) < 0x8000,
                -0x8000 <= (y1 as int),
                (y1 as int) < 0x8000,
                spec_insert_rows(
                    spec_insert_row(grid_model(cells@), x as int, y as int, y1 as int, home, idx),
                    x as int + 1,
                    x1 as int,
                    y0 as int,
                    y1 as int,
                    home,
                    idx,
                ) == body_target,
            decreases y1 + 1 - y,
        {
            let cell = GridCell { x, y };
            if !(x == home.x && y == home.y) {
                grid_insert(cells, cell, idx);
                proof {
                    assert(cell != home);
                }
            } else {
                proof {
                    assert(cell == home);
                }
            }
            y = y + 1;
        }
        x = x + 1;
    }
}

/// Add a body index under a cell, keeping the keys sorted.
fn grid_insert(cells: &mut Vec<(GridCell, Vec<usize>)>, cell: GridCell, idx: usize)
    ensures
        grid_model(final(cells)@) == spec_grid_insert(grid_model(old(cells)@), cell, idx),
{
    let ghost m0 = grid_model(cells@);
    let mut k: usize = 0;
    while k < cells.len() && cell_lt_exec(cells[k].0, cell)
        invariant
            0 <= k <= cells.len(),
            *cells == *old(cells),
            forall|j: int| 0 <= j < k ==> cell_lt(#[trigger] cells@[j].0, cell),
        decreases cells.len() - k,
    {
        k = k + 1;
    }
    proof {
        lemma_grid_insert_skip(m0, cell, idx, k as int);
    }
    if k < cells.len() && cells[k].0 == cell {
        let mut entry = cells.remove(k);
        entry.1.push(idx);
        cells.insert(k, entry);
        proof {
            assert(m0.skip(k as int).len() > 0 && m0.skip(k as int)[0].0 == cell);
            assert(spec_grid_insert(m0.skip(k as int), cell, idx) == seq![
                (cell, m0[k as int].1.push(idx)),
            ] + m0.skip(k as int + 1));
            assert(grid_model(cells@) =~= m0.take(k as int) + (seq![
                (cell, m0[k as int].1.push(idx)),
            ] + m0.skip(k as int + 1)));
        }
    } else {
        let mut v: Vec<usize> = Vec::new();
        v.push(idx);
        cells.insert(k, (cell, v));
        proof {
            let tail = m0.skip(k as int);
            if tail.len() > 0 {
                assert(!cell_lt(tail[0].0, cell) && tail[0].0 != cell);
                assert(cell_lt(cell, tail[0].0));
            }
            assert(spec_grid_insert(tail, cell, idx) == seq![(cell, seq![idx])] + tail);
            assert(grid_model(cells@) =~= m0.take(k as int) + (seq![(cell, seq![idx])] + tail));
        }
    }
}

/// A pair ordered as `(min, max)`.
pub open spec fn norm_pair(a: usize, b: usize) -> (usize, usize) {
    if a < b {
        (a, b)
    } else {
        (b, a)
    }
}

/// Normalize a pair to `(min, max)` and append it unless it is already
/// listed.
pub open spec fn add_pair(pairs: Seq<(usize, usize)>, a: usize, b: usize) -> Seq<(usize, usize)> {
    let p = norm_pair(a, b);
    if pairs.contains(p) {
        pairs
    } else {
        pairs.push(p)
    }
}

/// Pairs of the `i`-th body of a cell with each later body of that cell.
pub open spec fn spec_pairs_inner(
    pairs: Seq<(usize, usize)>,
    lst: Seq<usize>,
    i: int,
    j: int,
) -> Seq<(usize, usize)>
    decreases lst.len() - j,
{
    if j < 0 || j >= lst.len() || i < 0 || i >= lst.len() {
        pairs
    } else {
        spec_pairs_inner(add_pair(pairs, lst[i], lst[j]), lst, i, j + 1)
    }
}

/// All pairs of distinct positions within one cell's body list.
pub open spec fn spec_pairs_outer(pairs: Seq<(usize, usize)>, lst: Seq<usize>, i: int) -> Seq<
    (usize, usize),
>
    decreases lst.len() - i,
{
    if i < 0 || i >= lst.len() {
        pairs
    } else {
        spec_pairs_outer(spec_pairs_inner(pairs, lst, i, i + 1), lst, i + 1)
    }
}

/// Candidate pairs accumulated over the cells in key order.
pub open spec fn spec_pairs_cells(
    pairs: Seq<(usize, usize)>,
    m: Seq<(GridCell, Seq<usize>)>,
) -> Seq<(usize, usize)>
    decreases m.len(),
{
    if m.len() == 0 {
        pairs
    } else {
        spec_pairs_cells(spec_pairs_outer(pairs, m[0].1, 0), m.skip(1))
    }
}

/// The deduplicated candidate pair list of a grid, a function of the
/// grid contents alone.
pub open spec fn spec_collision_pairs(m: Seq<(GridCell, Seq<usize>)>) -> Seq<(usize, usize)> {
    spec_pairs_cells(Seq::empty(), m)
}

/// Linear scan for a pair in the list built so far.
fn pairs_contain(pairs: &Vec<(usize, usize)>, a: usize, b: usize) -> (r: bool)
    ensures
        r == pairs@.contains((a, b)),
{
    let mut k: usize = 0;
    while k < pairs.len()
        invariant
            0 <= k <= pairs.len(),
            forall|t: int| 0 <= t < k ==> pairs@[t] != (a, b),
        decreases pairs.len() - k,
    {
        if pairs[k].0 == a && pairs[k].1 == b {
            return true;
        }
        k = k + 1;
    }
    false
}

impl SpatialGrid {
    /// Enumerate the candidate collision pairs: iterate the cells in key
    /// order, emit every pair of bodies sharing a cell as
    /// `(lower index, higher index)`, and list each pair only once.
    pub fn get_collision_pairs(&self) -> (pairs: Vec<(usize, usize)>)
        ensures
            pairs@ == spec_collision_pairs(grid_model(self.cells@)),
    {
        let ghost m = grid_model(self.cells@);
        let ghost target = spec_collision_pairs(m);
        proof {
            assert(m.skip(0) =~= m);
        }
        let mut pairs: Vec<(usize, usize)> = Vec::new();
        let mut ci: usize = 0;
        while ci < self.cells.len()
            invariant
                0 <= ci <= self.cells.len(),
                m == grid_model(self.cells@),
                spec_pairs_cells(pairs@, m.skip(ci as int)) == target,
            decreases self.cells.len() - ci,
        {
            let n = self.cells[ci].1.len();
            let ghost lst = m[ci as int].1;
            proof {
                assert(m.skip(ci as int)[0] == m[ci as int]);
                assert(m.skip(ci as int).skip(1) =~= m.skip(ci as int + 1));
                assert(spec_pairs_cells(pairs@, m.skip(ci as int)) == spec_pairs_cells(
                    spec_pairs_outer(pairs@, lst, 0),
                    m.skip(ci as int + 1),
                ));
            }
            let mut i: usize = 0;
            while i < n
                invariant
                    0 <= i <= n,
                    m == grid_model(self.cells@),
                    ci < self.cells.len(),
                    n == self.cells@[ci as int].1.len(),
                    lst == m[ci as int].1,
                    spec_pairs_cells(
                        spec_pairs_outer(pairs@, lst, i as int),
                        m.skip(ci as int + 1),
                    ) == target,
                decreases n - i,
            {
                let mut j: usize = i + 1;
                while j < n
                    invariant
                        0 <= i < n,
                        i < j <= n,
                        m == grid_model(self.cells@),
                        ci < self.cells.len(),
                        n == self.cells@[ci as int].1.len(),
                        lst == m[ci as int].1,
                        spec_pairs_cells(
                            spec_pairs_outer(
                                spec_pairs_inner(pairs@, lst, i as int, j as int),
                                lst,
                                i as int + 1,
                            ),
                            m.skip(ci as int + 1),
                        ) == target,
                    decreases n - j,
                {
                    let idx_a = self.cells[ci].1[i];
                    let idx_b = self.cells[ci].1[j];
                    let (mn, mx) = if idx_a < idx_b {
                        (idx_a, idx_b)
                    } else {
                        (idx_b, idx_a)
                    };
                    proof {
                        assert(lst[i as int] == idx_a && lst[j as int] == idx_b);
                    }
                    if !pairs_contain(&pairs, mn, mx) {
                        pairs.push((mn, mx));
                        proof {
                            assert(add_pair(pairs@.drop_last(), idx_a, idx_b) =~= pairs@);
                        }
                    } else {
                        proof {
                            assert(add_pair(pairs@, idx_a, idx_b) == pairs@);
                        }
                    }
                    j = j + 1;
                }
                i = i + 1;
            }
            ci = ci + 1;
        }
        proof {
            assert(m.skip(self.cells@.len() as int) =~= Seq::empty());
        }
        pairs
    }
}

/// Every body index recorded anywhere in the grid is below `n`.
pub open spec fn grid_entries_below(m: Seq<(GridCell, Seq<usize>)>, n: nat) -> bool {
    forall|k: int, e: int|
        0 <= k < m.len() && 0 <= e < (#[trigger] m[k]).1.len() ==> (#[trigger] m[k].1[e]) < n
}

/// Both components of every listed pair are below `n`.
pub open spec fn pairs_below(pairs: Seq<(usize, usize)>, n: nat) -> bool {
    forall|k: int| 0 <= k < pairs.len() ==> (#[trigger] pairs[k]).0 < n && pairs[k].1 < n
}

/// Inserting an index below `n` keeps every recorded index below `n`.
proof fn lemma_grid_insert_below(m: Seq<(GridCell, Seq<usize>)>, cell: GridCell, idx: usize, n: nat)
    requires
        grid_entries_below(m, n),
        idx < n,
    ensures
        grid_entries_below(spec_grid_insert(m, cell, idx), n),
    decreases m.len(),
{
    let r = spec_grid_insert(m, cell, idx);
    if m.len() == 0 {
    } else if cell_lt(cell, m[0].0) {
    } else if m[0].0 == cell {
        assert forall|k: int, e: int|
            0 <= k < r.len() && 0 <= e < (#[trigger] r[k]).1.len() implies (#[trigger] r[k].1[e])
            < n by {
            if k > 0 {
                assert(r[k] == m[k]);
            }
        }
    } else {
        assert(grid_entries_below(m.skip(1), n));
        lemma_grid_insert_below(m.skip(1), cell, idx, n);
        assert forall|k: int, e: int|
            0 <= k < r.len() && 0 <= e < (#[trigger] r[k]).1.len() implies (#[trigger] r[k].1[e])
            < n by {
            if k > 0 {
                assert(r[k] == spec_grid_insert(m.skip(1), cell, idx)[k - 1]);
            }
        }
    }
}

/// Walking a row inserts only the given index.
proof fn lemma_insert_row_below(
    m: Seq<(GridCell, Seq<usize>)>,
    x: int,
    y: int,
    y1: int,
    home: GridCell,
    idx: usize,
    n: nat,
)
    requires
        grid_entries_below(m, n),
        idx < n,
    ensures
        grid_entries_below(spec_insert_row(m, x, y, y1, home, idx), n),
    decreases y1 + 1 - y,
{
    if y > y1 {
    } else {
        let cell = GridCell { x: x as i32, y: y as i32 };
        if cell == home {
            lemma_insert_row_below(m, x, y + 1, y1, home, idx, n);
        } else {
            lemma_grid_insert_below(m, cell, idx, n);
            lemma_insert_row_below(spec_grid_insert(m, cell, idx), x, y + 1, y1, home, idx, n);
        }
    }
}

/// Walking every row inserts only the given index.
proof fn lemma_insert_rows_below(
    m: Seq<(GridCell, Seq<usize>)>,
    x: int,
    x1: int,
    y0: int,
    y1: int,
    home: GridCell,
    idx: usize,
    n: nat,
)
    requires
        grid_entries_below(m, n),
        idx < n,
    ensures
        grid_entries_below(spec_insert_rows(m, x, x1, y0, y1, home, idx), n),
    decreases x1 + 1 - x,
{
    if x > x1 {
    } else {
        lemma_insert_row_below(m, x, y0, y1, home, idx, n);
        lemma_insert_rows_below(
            spec_insert_row(m, x, y0, y1, home, idx),
            x + 1,
            x1,
            y0,
            y1,
            home,
            idx,
            n,
        );
    }
}

/// Building from bodies with indices below the body count keeps every
/// recorded index below that count.
proof fn lemma_build_from_below(
    m: Seq<(GridCell, Seq<usize>)>,
    circles: Seq<Circle>,
    i: int,
    cs: Scalar,
)
    requires
        grid_entries_below(m, circles.len()),
        i >= 0,
    ensures
        grid_entries_below(spec_build_from(m, circles, i, cs), circles.len()),
    decreases circles.len() - i,
{
    if i >= circles.len() {
    } else {
        let c = circles[i];
        let home = spec_cell_of(c.position, cs);
        lemma_grid_insert_below(m, home, i as usize, circles.len());
        lemma_insert_rows_below(
            spec_grid_insert(m, home, i as usize),
            spec_box_x0(c, cs),
            spec_box_x1(c, cs),
            spec_box_y0(c, cs),
            spec_box_y1(c, cs),
            home,
            i as usize,
            circles.len(),
        );
        lemma_build_from_below(spec_insert_body(m, c, cs, i as usize), circles, i + 1, cs);
    }
}

/// The grid built from `circles` records only indices below the body
/// count.
pub proof fn lemma_build_below(circles: Seq<Circle>, cs: Scalar)
    ensures
        grid_entries_below(spec_build(circles, cs), circles.len()),
{
    lemma_build_from_below(Seq::empty(), circles, 0, cs);
}

/// Pair normalization keeps components below `n`.
proof fn lemma_add_pair_below(pairs: Seq<(usize, usize)>, a: usize, b: usize, n: nat)
    requires
        pairs_below(pairs, n),
        a < n,
        b < n,
    ensures
        pairs_below(add_pair(pairs, a, b), n),
{
}

/// Inner pair walk keeps components below `n`.
proof fn lemma_pairs_inner_below(
    pairs: Seq<(usize, usize)>,
    lst: Seq<usize>,
    i: int,
    j: int,
    n: nat,
)
    requires
        pairs_below(pairs, n),
        forall|e: int| 0 <= e < lst.len() ==> (#[trigger] lst[e]) < n,
    ensures
        pairs_below(spec_pairs_inner(pairs, lst, i, j), n),
    decreases lst.len() - j,
{
    if j < 0 || j >= lst.len() || i < 0 || i >= lst.len() {
    } else {
        lemma_add_pair_below(pairs, lst[i], lst[j], n);
        lemma_pairs_inner_below(add_pair(pairs, lst[i], lst[j]), lst, i, j + 1, n);
    }
}

/// Outer pair walk keeps components below `n`.
proof fn lemma_pairs_outer_below(pairs: Seq<(usize, usize)>, lst: Seq<usize>, i: int, n: nat)
    requires
        pairs_below(pairs, n),
        forall|e: int| 0 <= e < lst.len() ==> (#[trigger] lst[e]) < n,
    ensures
        pairs_below(spec_pairs_outer(pairs, lst, i), n),
    decreases lst.len() - i,
{
    if i < 0 || i >= lst.len() {
    } else {
        lemma_pairs_inner_below(pairs, lst, i, i + 1, n);
        lemma_pairs_outer_below(spec_pairs_inner(pairs, lst, i, i + 1), lst, i + 1, n);
    }
}

/// Walking the cells keeps pair components below `n`.
proof fn lemma_pairs_cells_below(pairs: Seq<(usize, usize)>, m: Seq<(GridCell, Seq<usize>)>, n: nat)
    requires
        pairs_below(pairs, n),
        grid_entries_below(m, n),
    ensures
        pairs_below(spec_pairs_cells(pairs, m), n),
    decreases m.len(),
{
    if m.len() == 0 {
    } else {
        assert(forall|e: int| 0 <= e < m[0].1.len() ==> (#[trigger] m[0].1[e]) < n);
        lemma_pairs_outer_below(pairs, m[0].1, 0, n);
        assert(grid_entries_below(m.skip(1), n));
        lemma_pairs_cells_below(spec_pairs_outer(pairs, m[0].1, 0), m.skip(1), n);
    }
}

/// The candidate pairs of a grid whose entries are below `n` have both
/// components below `n`.
pub proof fn lemma_collision_pairs_below(m: Seq<(GridCell, Seq<usize>)>, n: nat)
    requires
        grid_entries_below(m, n),
    ensures
        pairs_below(spec_collision_pairs(m), n),
{
    lemma_pairs_cells_below(Seq::empty(), m, n);
}

/// No pair is listed twice.
pub open spec fn pairs_nodup(pairs: Seq<(usize, usize)>) -> bool {
    forall|i: int, j: int| 0 <= i < j < pairs.len() ==> #[trigger] pairs[i] != #[trigger] pairs[j]
}

/// Adding a pair keeps the list duplicate-free and keeps every listed
/// pair listed; the normalized pair itself is listed afterwards.
proof fn lemma_add_pair_props(pairs: Seq<(usize, usize)>, a: usize, b: usize)
    requires
        pairs_nodup(pairs),
    ensures
        pairs_nodup(add_pair(pairs, a, b)),
        forall|p: (usize, usize)| pairs.contains(p) ==> add_pair(pairs, a, b).contains(p),
        add_pair(pairs, a, b).contains(norm_pair(a, b)),
{
    let p = norm_pair(a, b);
    if pairs.contains(p) {
    } else {
        let r = pairs.push(p);
        assert(r[pairs.len() as int] == p);
        assert forall|i: int, j: int| 0 <= i < j < r.len() implies #[trigger] r[i] != #[trigger] r[j] by {
            if j == pairs.len() as int {
                assert(r[i] == pairs[i]);
                assert(pairs.contains(pairs[i]));
            }
        }
        assert forall|q: (usize, usize)| pairs.contains(q) implies r.contains(q) by {
            let w = choose|w: int| 0 <= w < pairs.len() && pairs[w] == q;
            assert(r[w] == q);
        }
    }
}

/// The inner pair walk keeps the list duplicate-free, keeps every listed
/// pair, and lists the normalized pair of position `i` with every
/// position from `j` on.
proof fn lemma_pairs_inner_props(pairs: Seq<(usize, usize)>, lst: Seq<usize>, i: int, j: int)
    requires
        pairs_nodup(pairs),
        0 <= i < lst.len(),
        i < j,
    ensures
        pairs_nodup(spec_pairs_inner(pairs, lst, i, j)),
        forall|p: (usize, usize)|
            pairs.contains(p) ==> spec_pairs_inner(pairs, lst, i, j).contains(p),
        forall|q: int|
            j <= q < lst.len() ==> spec_pairs_inner(pairs, lst, i, j).contains(
                #[trigger] norm_pair(lst[i], lst[q]),
            ),
    decreases lst.len() - j,
{
    if j < 0 || j >= lst.len() {
    } else {
        lemma_add_pair_props(pairs, lst[i], lst[j]);
        let pairs1 = add_pair(pairs, lst[i], lst[j]);
        lemma_pairs_inner_props(pairs1, lst, i, j + 1);
        assert(spec_pairs_inner(pairs, lst, i, j) == spec_pairs_inner(pairs1, lst, i, j + 1));
        assert forall|q: int|
            j <= q < lst.len() implies spec_pairs_inner(pairs, lst, i, j).contains(
            #[trigger] norm_pair(lst[i], lst[q]),
        ) by {
            if q == j {
                assert(pairs1.contains(norm_pair(lst[i], lst[j])));
                assert(spec_pairs_inner(pairs1, lst, i, j + 1).contains(
                    norm_pair(lst[i], lst[j]),
                ));
            }
        }
    }
}

/// The outer pair walk keeps the list duplicate-free, keeps every listed
/// pair, and lists the normalized pair of any two distinct positions at
/// or after `i`.
proof fn lemma_pairs_outer_props(pairs: Seq<(usize, usize)>, lst: Seq<usize>, i: int)
    requires
        pairs_nodup(pairs),
        0 <= i,
    ensures
        pairs_nodup(spec_pairs_outer(pairs, lst, i)),
        forall|p: (usize, usize)|
            pairs.contains(p) ==> spec_pairs_outer(pairs, lst, i).contains(p),
        forall|p: int, q: int|
            i <= p < q < lst.len() ==> spec_pairs_outer(pairs, lst, i).contains(
                #[trigger] norm_pair(lst[p], lst[q]),
            ),
    decreases lst.len() - i,
{
    if i < 0 || i >= lst.len() {
    } else {
        lemma_pairs_inner_props(pairs, lst, i, i + 1);
        let pairs1 = spec_pairs_inner(pairs, lst, i, i + 1);
        lemma_pairs_outer_props(pairs1, lst, i + 1);
        assert(spec_pairs_outer(pairs, lst, i) == spec_pairs_outer(pairs1, lst, i + 1));
        assert forall|p: int, q: int|
            i <= p < q < lst.len() implies spec_pairs_outer(pairs, lst, i).contains(
            #[trigger] norm_pair(lst[p], lst[q]),
        ) by {
            if p == i {
                assert(pairs1.contains(norm_pair(lst[i], lst[q])));
                assert(spec_pairs_outer(pairs1, lst, i + 1).contains(norm_pair(lst[i], lst[q])));
            }
        }
    }
}

/// Walking the cells keeps the list duplicate-free, keeps every listed
/// pair, and lists the normalized pair of any two distinct positions of
/// any one cell's body list.
proof fn lemma_pairs_cells_props(pairs: Seq<(usize, usize)>, m: Seq<(GridCell, Seq<usize>)>)
    requires
        pairs_nodup(pairs),
    ensures
        pairs_nodup(spec_pairs_cells(pairs, m)),
        forall|p: (usize, usize)|
            pairs.contains(p) ==> spec_pairs_cells(pairs, m).contains(p),
        forall|k: int, p: int, q: int|
            0 <= k < m.len() && 0 <= p < q < (#[trigger] m[k]).1.len() ==> spec_pairs_cells(
                pairs,
                m,
            ).contains(#[trigger] norm_pair(m[k].1[p], m[k].1[q])),
    decreases m.len(),
{
    if m.len() == 0 {
    } else {
        lemma_pairs_outer_props(pairs, m[0].1, 0);
        lemma_pairs_cells_props(spec_pairs_outer(pairs, m[0].1, 0), m.skip(1));
        assert forall|k: int, p: int, q: int|
            0 <= k < m.len() && 0 <= p < q < (#[trigger] m[k]).1.len() implies spec_pairs_cells(
            pairs,
            m,
        ).contains(#[trigger] norm_pair(m[k].1[p], m[k].1[q])) by {
            if k > 0 {
                assert(m.skip(1)[k - 1] == m[k]);
            }
        }
    }
}

/// The emitted pair list contains no duplicates.
pub proof fn lemma_collision_pairs_nodup(m: Seq<(GridCell, Seq<usize>)>)
    ensures
        pairs_nodup(spec_collision_pairs(m)),
{
    lemma_pairs_cells_props(Seq::empty(), m);
}

/// Two distinct bodies listed under one cell have their normalized pair
/// emitted at least once.
pub proof fn lemma_collision_pairs_complete(
    m: Seq<(GridCell, Seq<usize>)>,
    k: int,
    p: int,
    q: int,
)
    requires
        0 <= k < m.len(),
        0 <= p < q < m[k].1.len(),
    ensures
        spec_collision_pairs(m).contains(norm_pair(m[k].1[p], m[k].1[q])),
{
    lemma_pairs_cells_props(Seq::empty(), m);
}

/// The grid, and with it the emitted pair list, is a function of the
/// bodies' positions and radii alone: two body sequences that agree on
/// position and radius index by index build equal grids and equal pair
/// lists, whatever their other fields hold.
pub proof fn lemma_pairs_deterministic(c1: Seq<Circle>, c2: Seq<Circle>, cs: Scalar)
    requires
        c1.len() == c2.len(),
        forall|i: int|
            0 <= i < c1.len() ==> (#[trigger] c1[i]).position == (#[trigger] c2[i]).position
                && c1[i].radius == c2[i].radius,
    ensures
        spec_build(c1, cs) == spec_build(c2, cs),
        spec_collision_pairs(spec_build(c1, cs)) == spec_collision_pairs(spec_build(c2, cs)),
{
    lemma_build_from_position_radius(Seq::empty(), c1, c2, 0, cs);
}

/// Building from two body lists that agree on positions and radii gives
/// the same grid.
proof fn lemma_build_from_position_radius(
    m: Seq<(GridCell, Seq<usize>)>,
    c1: Seq<Circle>,
    c2: Seq<Circle>,
    i: int,
    cs: Scalar,
)
    requires
        c1.len() == c2.len(),
        forall|t: int|
            0 <= t < c1.len() ==> (#[trigger] c1[t]).position == (#[trigger] c2[t]).position
                && c1[t].radius == c2[t].radius,
    ensures
        spec_build_from(m, c1, i, cs) == spec_build_from(m, c2, i, cs),
    decreases c1.len() - i,
{
    if i < 0 || i >= c1.len() {
    } else {
        assert(spec_insert_body(m, c1[i], cs, i as usize) == spec_insert_body(
            m,
            c2[i],
            cs,
            i as usize,
        ));
        lemma_build_from_position_radius(spec_insert_body(m, c1[i], cs, i as usize), c1, c2, i + 1, cs);
    }
}

/// A cell below the first key of a sorted list is not listed at all.
proof fn lemma_lookup_absent(m: Seq<(GridCell, Seq<usize>)>, cell: GridCell)
    requires
        forall|k: int| 0 <= k < m.len() ==> (#[trigger] m[k]).0 != cell,
    ensures
        grid_lookup(m, cell) == Seq::<usize>::empty(),
    decreases m.len(),
{
    if m.len() == 0 {
    } else {
        assert(forall|k: int| 0 <= k < m.skip(1).len() ==> (#[trigger] m.skip(1)[k]).0 != cell);
        lemma_lookup_absent(m.skip(1), cell);
    }
}

/// Inserting keeps the keys strictly sorted.
proof fn lemma_insert_sorted(m: Seq<(GridCell, Seq<usize>)>, cell: GridCell, idx: usize)
    requires
        grid_sorted(m),
    ensures
        grid_sorted(spec_grid_insert(m, cell, idx)),
    decreases m.len(),
{
    let r = spec_grid_insert(m, cell, idx);
    if m.len() == 0 {
    } else if cell_lt(cell, m[0].0) {
        assert forall|i: int, j: int| 0 <= i < j < r.len() implies cell_lt(
            #[trigger] r[i].0,
            #[trigger] r[j].0,
        ) by {
            if i > 0 {
                assert(r[i] == m[i - 1] && r[j] == m[j - 1]);
            } else {
                assert(r[j] == m[j - 1]);
            }
        }
    } else if m[0].0 == cell {
        assert forall|i: int, j: int| 0 <= i < j < r.len() implies cell_lt(
            #[trigger] r[i].0,
            #[trigger] r[j].0,
        ) by {
            assert(r[j].0 == m[j].0);
            if i > 0 {
                assert(r[i].0 == m[i].0);
            }
        }
    } else {
        assert(grid_sorted(m.skip(1)));
        lemma_insert_sorted(m.skip(1), cell, idx);
        let tail = spec_grid_insert(m.skip(1), cell, idx);
        assert(cell_lt(m[0].0, cell));
        assert forall|j: int| 0 <= j < tail.len() implies cell_lt(m[0].0, #[trigger] tail[j].0) by {
            lemma_insert_key_origin(m.skip(1), cell, idx, j);
        }
        assert forall|i: int, j: int| 0 <= i < j < r.len() implies cell_lt(
            #[trigger] r[i].0,
            #[trigger] r[j].0,
        ) by {
            if i > 0 {
                assert(r[i] == tail[i - 1] && r[j] == tail[j - 1]);
            } else {
                assert(r[j] == tail[j - 1]);
            }
        }
    }
}

/// Every key of an inserted list is either the new key or a key of the
/// old list.
proof fn lemma_insert_key_origin(m: Seq<(GridCell, Seq<usize>)>, cell: GridCell, idx: usize, j: int)
    requires
        0 <= j < spec_grid_insert(m, cell, idx).len(),
    ensures
        spec_grid_insert(m, cell, idx)[j].0 == cell || exists|k: int|
            0 <= k < m.len() && (#[trigger] m[k]).0 == spec_grid_insert(m, cell, idx)[j].0,
    decreases m.len(),
{
    let r = spec_grid_insert(m, cell, idx);
    if m.len() == 0 {
    } else if cell_lt(cell, m[0].0) {
        if j > 0 {
            assert(m[j - 1].0 == r[j].0);
        }
    } else if m[0].0 == cell {
        if j > 0 {
            assert(m[j].0 == r[j].0);
        }
    } else {
        if j == 0 {
            assert(m[0].0 == r[0].0);
        } else {
            lemma_insert_key_origin(m.skip(1), cell, idx, j - 1);
            if r[j].0 != cell {
                let k = choose|k: int|
                    0 <= k < m.skip(1).len() && (#[trigger] m.skip(1)[k]).0 == r[j].0;
                assert(m[k + 1].0 == r[j].0);
            }
        }
    }
}

/// A listed element stays listed when another is appended.
proof fn lemma_push_contains(s: Seq<usize>, v: usize, e: usize)
    requires
        s.contains(e),
    ensures
        s.push(v).contains(e),
{
    let w = choose|w: int| 0 <= w < s.len() && s[w] == e;
    assert(s.push(v)[w] == e);
}

/// Inserting appends the index to the inserted cell's list and leaves
/// every other list unchanged.
proof fn lemma_insert_lookup(m: Seq<(GridCell, Seq<usize>)>, cell: GridCell, idx: usize)
    requires
        grid_sorted(m),
    ensures
        grid_lookup(spec_grid_insert(m, cell, idx), cell) == grid_lookup(m, cell).push(idx),
        forall|c2: GridCell|
            c2 != cell ==> #[trigger] grid_lookup(spec_grid_insert(m, cell, idx), c2)
                == grid_lookup(m, c2),
    decreases m.len(),
{
    let r = spec_grid_insert(m, cell, idx);
    if m.len() == 0 {
        assert(r[0] == (cell, seq![idx]));
        assert(r.skip(1) =~= Seq::<(GridCell, Seq<usize>)>::empty());
        assert(grid_lookup(m, cell).push(idx) =~= seq![idx]);
        assert forall|c2: GridCell| c2 != cell implies #[trigger] grid_lookup(r, c2)
            == grid_lookup(m, c2) by {
            assert(grid_lookup(r, c2) == grid_lookup(r.skip(1), c2));
        }
    } else if cell_lt(cell, m[0].0) {
        assert(r[0] == (cell, seq![idx]));
        assert(r.skip(1) =~= m);
        assert forall|k: int| 0 <= k < m.len() implies (#[trigger] m[k]).0 != cell by {
            if k > 0 {
                assert(cell_lt(m[0].0, m[k].0));
            }
        }
        lemma_lookup_absent(m, cell);
        assert(grid_lookup(m, cell).push(idx) =~= seq![idx]);
        assert forall|c2: GridCell| c2 != cell implies #[trigger] grid_lookup(r, c2)
            == grid_lookup(m, c2) by {
            assert(grid_lookup(r, c2) == grid_lookup(r.skip(1), c2));
        }
    } else if m[0].0 == cell {
        assert(r[0] == (m[0].0, m[0].1.push(idx)));
        assert(r.skip(1) =~= m.skip(1));
        assert forall|c2: GridCell| c2 != cell implies #[trigger] grid_lookup(r, c2)
            == grid_lookup(m, c2) by {
            assert(grid_lookup(r, c2) == grid_lookup(r.skip(1), c2));
            assert(grid_lookup(m, c2) == grid_lookup(m.skip(1), c2));
        }
    } else {
        assert(grid_sorted(m.skip(1)));
        lemma_insert_lookup(m.skip(1), cell, idx);
        let tail = spec_grid_insert(m.skip(1), cell, idx);
        assert(r[0] == m[0]);
        assert(r.skip(1) =~= tail);
        assert(grid_lookup(r, cell) == grid_lookup(tail, cell));
        assert(grid_lookup(m, cell) == grid_lookup(m.skip(1), cell));
        assert forall|c2: GridCell| c2 != cell implies #[trigger] grid_lookup(r, c2)
            == grid_lookup(m, c2) by {
            if c2 == m[0].0 {
                assert(grid_lookup(r, c2) == r[0].1);
                assert(grid_lookup(m, c2) == m[0].1);
            } else {
                assert(grid_lookup(r, c2) == grid_lookup(tail, c2));
                assert(grid_lookup(tail, c2) == grid_lookup(m.skip(1), c2));
                assert(grid_lookup(m, c2) == grid_lookup(m.skip(1), c2));
            }
        }
    }
}

/// Walking a row keeps the keys sorted, keeps every listed body listed,
/// and lists the body under every row cell but the home cell.
proof fn lemma_row_member(
    m: Seq<(GridCell, Seq<usize>)>,
    x: int,
    y: int,
    y1: int,
    home: GridCell,
    idx: usize,
)
    requires
        grid_sorted(m),
    ensures
        grid_sorted(spec_insert_row(m, x, y, y1, home, idx)),
        forall|c2: GridCell, e: usize|
            #[trigger] grid_lookup(m, c2).contains(e) ==> grid_lookup(
                spec_insert_row(m, x, y, y1, home, idx),
                c2,
            ).contains(e),
        forall|yy: int|
            y <= yy <= y1 && (GridCell { x: x as i32, y: yy as i32 }) != home
                ==> #[trigger] grid_lookup(
                spec_insert_row(m, x, y, y1, home, idx),
                GridCell { x: x as i32, y: yy as i32 },
            ).contains(idx),
    decreases y1 + 1 - y,
{
    if y > y1 {
    } else {
        let cell = GridCell { x: x as i32, y: y as i32 };
        let m1 = if cell == home {
            m
        } else {
            spec_grid_insert(m, cell, idx)
        };
        let rest = spec_insert_row(m1, x, y + 1, y1, home, idx);
        assert(spec_insert_row(m, x, y, y1, home, idx) == rest);
        if cell != home {
            lemma_insert_sorted(m, cell, idx);
            lemma_insert_lookup(m, cell, idx);
        }
        lemma_row_member(m1, x, y + 1, y1, home, idx);
        assert forall|c2: GridCell, e: usize|
            #[trigger] grid_lookup(m, c2).contains(e) implies grid_lookup(rest, c2).contains(
            e,
        ) by {
            if cell != home && c2 == cell {
                lemma_push_contains(grid_lookup(m, c2), idx, e);
                assert(grid_lookup(m1, c2).contains(e));
            } else {
                assert(grid_lookup(m1, c2) == grid_lookup(m, c2));
            }
        }
        assert forall|yy: int|
            y <= yy <= y1 && (GridCell { x: x as i32, y: yy as i32 }) != home
            implies #[trigger] grid_lookup(
            rest,
            GridCell { x: x as i32, y: yy as i32 },
        ).contains(idx) by {
            let cy = GridCell { x: x as i32, y: yy as i32 };
            if cy == cell {
                let base = grid_lookup(m, cell);
                assert(grid_lookup(m1, cell) == base.push(idx));
                assert(base.push(idx)[base.len() as int] == idx);
                assert(grid_lookup(m1, cy).contains(idx));
            }
        }
    }
}

/// Walking every row keeps the keys sorted, keeps every listed body
/// listed, and lists the body under every box cell but the home cell.
proof fn lemma_rows_member(
    m: Seq<(GridCell, Seq<usize>)>,
    x: int,
    x1: int,
    y0: int,
    y1: int,
    home: GridCell,
    idx: usize,
)
    requires
        grid_sorted(m),
    ensures
        grid_sorted(spec_insert_rows(m, x, x1, y0, y1, home, idx)),
        forall|c2: GridCell, e: usize|
            #[trigger] grid_lookup(m, c2).contains(e) ==> grid_lookup(
                spec_insert_rows(m, x, x1, y0, y1, home, idx),
                c2,
            ).contains(e),
        forall|xx: int, yy: int|
            x <= xx <= x1 && y0 <= yy <= y1 && (GridCell { x: xx as i32, y: yy as i32 }) != home
                ==> #[trigger] grid_lookup(
                spec_insert_rows(m, x, x1, y0, y1, home, idx),
                GridCell { x: xx as i32, y: yy as i32 },
            ).contains(idx),
    decreases x1 + 1 - x,
{
    if x > x1 {
    } else {
        lemma_row_member(m, x, y0, y1, home, idx);
        let m1 = spec_insert_row(m, x, y0, y1, home, idx);
        let rest = spec_insert_rows(m1, x + 1, x1, y0, y1, home, idx);
        assert(spec_insert_rows(m, x, x1, y0, y1, home, idx) == rest);
        lemma_rows_member(m1, x + 1, x1, y0, y1, home, idx);
        assert forall|xx: int, yy: int|
            x <= xx <= x1 && y0 <= yy <= y1 && (GridCell { x: xx as i32, y: yy as i32 }) != home
            implies #[trigger] grid_lookup(
            rest,
            GridCell { x: xx as i32, y: yy as i32 },
        ).contains(idx) by {
            let cy = GridCell { x: xx as i32, y: yy as i32 };
            if xx == x {
                assert(grid_lookup(m1, cy).contains(idx));
            }
        }
    }
}

/// Adding one body keeps the keys sorted, keeps every listed body
/// listed, and lists the body under its home cell and under every cell
/// of its bounding box.
#[verifier::rlimit(60)]
proof fn lemma_body_member(m: Seq<(GridCell, Seq<usize>)>, c: Circle, cs: Scalar, idx: usize)
    requires
        grid_sorted(m),
    ensures
        grid_sorted(spec_insert_body(m, c, cs, idx)),
        forall|c2: GridCell, e: usize|
            #[trigger] grid_lookup(m, c2).contains(e) ==> grid_lookup(
                spec_insert_body(m, c, cs, idx),
                c2,
            ).contains(e),
        grid_lookup(spec_insert_body(m, c, cs, idx), spec_cell_of(c.position, cs)).contains(idx),
        forall|xx: int, yy: int|
            spec_box_x0(c, cs) <= xx <= spec_box_x1(c, cs) && spec_box_y0(c, cs) <= yy
                <= spec_box_y1(c, cs) ==> #[trigger] grid_lookup(
                spec_insert_body(m, c, cs, idx),
                GridCell { x: xx as i32, y: yy as i32 },
            ).contains(idx),
{
    let home = spec_cell_of(c.position, cs);
    lemma_insert_sorted(m, home, idx);
    lemma_insert_lookup(m, home, idx);
    let m1 = spec_grid_insert(m, home, idx);
    let base = grid_lookup(m, home);
    assert(base.push(idx)[base.len() as int] == idx);
    assert(grid_lookup(m1, home).contains(idx));
    let x0 = spec_box_x0(c, cs);
    let x1 = spec_box_x1(c, cs);
    let y0 = spec_box_y0(c, cs);
    let y1 = spec_box_y1(c, cs);
    lemma_rows_member(m1, x0, x1, y0, y1, home, idx);
    let r = spec_insert_rows(m1, x0, x1, y0, y1, home, idx);
    assert(r == spec_insert_body(m, c, cs, idx));
    assert(grid_lookup(r, home).contains(idx));
    assert forall|c2: GridCell, e: usize|
        #[trigger] grid_lookup(m, c2).contains(e) implies grid_lookup(r, c2).contains(e) by {
        if c2 == home {
            lemma_push_contains(grid_lookup(m, c2), idx, e);
            assert(grid_lookup(m1, c2).contains(e));
        } else {
            assert(grid_lookup(m1, c2) == grid_lookup(m, c2));
        }
    }
    assert forall|xx: int, yy: int|
        x0 <= xx <= x1 && y0 <= yy <= y1 implies #[trigger] grid_lookup(
        r,
        GridCell { x: xx as i32, y: yy as i32 },
    ).contains(idx) by {
        let cy = GridCell { x: xx as i32, y: yy as i32 };
        if cy == home {
            assert(grid_lookup(r, cy).contains(idx));
        }
    }
}

/// Building never removes a body from a cell's list.
proof fn lemma_build_from_keeps(
    m: Seq<(GridCell, Seq<usize>)>,
    circles: Seq<Circle>,
    i: int,
    cs: Scalar,
)
    requires
        grid_sorted(m),
    ensures
        grid_sorted(spec_build_from(m, circles, i, cs)),
        forall|c2: GridCell, e: usize|
            #[trigger] grid_lookup(m, c2).contains(e) ==> grid_lookup(
                spec_build_from(m, circles, i, cs),
                c2,
            ).contains(e),
    decreases circles.len() - i,
{
    if i < 0 || i >= circles.len() {
    } else {
        lemma_body_member(m, circles[i], cs, i as usize);
        let m1 = spec_insert_body(m, circles[i], cs, i as usize);
        lemma_build_from_keeps(m1, circles, i + 1, cs);
    }
}

/// The built grid lists every body under its home cell and under every
/// cell of its bounding box.
pub proof fn lemma_build_member(circles: Seq<Circle>, cs: Scalar, a: int)
    requires
        0 <= a < circles.len(),
    ensures
        grid_sorted(spec_build(circles, cs)),
        grid_lookup(
            spec_build(circles, cs),
            spec_cell_of(circles[a].position, cs),
        ).contains(a as usize),
        forall|xx: int, yy: int|
            spec_box_x0(circles[a], cs) <= xx <= spec_box_x1(circles[a], cs) && spec_box_y0(
                circles[a],
                cs,
            ) <= yy <= spec_box_y1(circles[a], cs) ==> #[trigger] grid_lookup(
                spec_build(circles, cs),
                GridCell { x: xx as i32, y: yy as i32 },
            ).contains(a as usize),
{
    lemma_build_member_from(Seq::empty(), circles, 0, cs, a);
}

/// The membership of one body survives building in the later bodies.
#[verifier::rlimit(60)]
proof fn lemma_build_member_from(
    m: Seq<(GridCell, Seq<usize>)>,
    circles: Seq<Circle>,
    i: int,
    cs: Scalar,
    a: int,
)
    requires
        grid_sorted(m),
        0 <= i <= a < circles.len(),
    ensures
        grid_sorted(spec_build_from(m, circles, i, cs)),
        grid_lookup(
            spec_build_from(m, circles, i, cs),
            spec_cell_of(circles[a].position, cs),
        ).contains(a as usize),
        forall|xx: int, yy: int|
            spec_box_x0(circles[a], cs) <= xx <= spec_box_x1(circles[a], cs) && spec_box_y0(
                circles[a],
                cs,
            ) <= yy <= spec_box_y1(circles[a], cs) ==> #[trigger] grid_lookup(
                spec_build_from(m, circles, i, cs),
                GridCell { x: xx as i32, y: yy as i32 },
            ).contains(a as usize),
    decreases circles.len() - i,
{
    lemma_body_member(m, circles[i], cs, i as usize);
    let m1 = spec_insert_body(m, circles[i], cs, i as usize);
    let r = spec_build_from(m, circles, i, cs);
    assert(r == spec_build_from(m1, circles, i + 1, cs));
    if i == a {
        lemma_build_from_keeps(m1, circles, i + 1, cs);
        assert forall|xx: int, yy: int|
            spec_box_x0(circles[a], cs) <= xx <= spec_box_x1(circles[a], cs) && spec_box_y0(
                circles[a],
                cs,
            ) <= yy <= spec_box_y1(circles[a], cs) implies #[trigger] grid_lookup(
            r,
            GridCell { x: xx as i32, y: yy as i32 },
        ).contains(a as usize) by {
            assert(grid_lookup(m1, GridCell { x: xx as i32, y: yy as i32 }).contains(a as usize));
        }
    } else {
        lemma_build_member_from(m1, circles, i + 1, cs, a);
    }
}

/// The cell coordinate as a function of a raw encoding: divide by the
/// cell size in Q16.16, truncating toward zero, then take the integer
/// part, truncating toward zero.
pub open spec fn spec_coord_of_bits(v: int, csb: int) -> int {
    crate::scalar::div_trunc(crate::scalar::div_trunc(v * 0x10000, csb), 0x10000)
}

/// The cell coordinate is monotone in the encoding, for a positive cell
/// size.
proof fn lemma_coord_monotone(v1: int, v2: int, csb: int)
    requires
        v1 <= v2,
        csb > 0,
    ensures
        spec_coord_of_bits(v1, csb) <= spec_coord_of_bits(v2, csb),
{
    crate::scalar::lemma_div_trunc_monotone(v1 * 0x10000, v2 * 0x10000, csb);
    crate::scalar::lemma_div_trunc_monotone(
        crate::scalar::div_trunc(v1 * 0x10000, csb),
        crate::scalar::div_trunc(v2 * 0x10000, csb),
        0x10000,
    );
}

/// The box coordinates of a body come out exactly (no wrapping) when its
/// bounding-box encodings and their scaled quotients stay in the 32-bit
/// range.
pub open spec fn box_coords_exact(c: Circle, cs: Scalar) -> bool {
    let px = c.position.x.bits as int;
    let py = c.position.y.bits as int;
    let r = c.radius.bits as int;
    let csb = cs.bits as int;
    &&& crate::scalar::fits32(px - r)
    &&& crate::scalar::fits32(px + r)
    &&& crate::scalar::fits32(py - r)
    &&& crate::scalar::fits32(py + r)
    &&& crate::scalar::fits32(crate::scalar::div_trunc((px - r) * 0x10000, csb))
    &&& crate::scalar::fits32(crate::scalar::div_trunc((px + r) * 0x10000, csb))
    &&& crate::scalar::fits32(crate::scalar::div_trunc((py - r) * 0x10000, csb))
    &&& crate::scalar::fits32(crate::scalar::div_trunc((py + r) * 0x10000, csb))
}

/// Under exactness the box bounds equal the mathematical cell coordinates
/// of the bounding-box encodings.
proof fn lemma_box_coords(c: Circle, cs: Scalar)
    requires
        box_coords_exact(c, cs),
    ensures
        spec_box_x0(c, cs) == spec_coord_of_bits(c.position.x.bits - c.radius.bits, cs.bits as int),
        spec_box_x1(c, cs) == spec_coord_of_bits(c.position.x.bits + c.radius.bits, cs.bits as int),
        spec_box_y0(c, cs) == spec_coord_of_bits(c.position.y.bits - c.radius.bits, cs.bits as int),
        spec_box_y1(c, cs) == spec_coord_of_bits(c.position.y.bits + c.radius.bits, cs.bits as int),
{
    reveal(spec_cell_coord);
    let px = c.position.x.bits as int;
    let py = c.position.y.bits as int;
    let r = c.radius.bits as int;
    let csb = cs.bits as int;
    crate::scalar::lemma_wrap32_id(px - r);
    crate::scalar::lemma_wrap32_id(px + r);
    crate::scalar::lemma_wrap32_id(py - r);
    crate::scalar::lemma_wrap32_id(py + r);
    crate::scalar::lemma_wrap32_id(crate::scalar::div_trunc((px - r) * 0x10000, csb));
    crate::scalar::lemma_wrap32_id(crate::scalar::div_trunc((px + r) * 0x10000, csb));
    crate::scalar::lemma_wrap32_id(crate::scalar::div_trunc((py - r) * 0x10000, csb));
    crate::scalar::lemma_wrap32_id(crate::scalar::div_trunc((py + r) * 0x10000, csb));
}

/// The body list of a present cell is one of the grid's entries.
proof fn lemma_lookup_entry(m: Seq<(GridCell, Seq<usize>)>, cell: GridCell)
    requires
        grid_lookup(m, cell).len() > 0,
    ensures
        exists|k: int|
            0 <= k < m.len() && (#[trigger] m[k]).0 == cell && m[k].1 == grid_lookup(m, cell),
    decreases m.len(),
{
    if m.len() == 0 {
    } else if m[0].0 == cell {
        assert(m[0].0 == cell && m[0].1 == grid_lookup(m, cell));
    } else {
        lemma_lookup_entry(m.skip(1), cell);
        let k = choose|k: int|
            0 <= k < m.skip(1).len() && (#[trigger] m.skip(1)[k]).0 == cell && m.skip(1)[k].1
                == grid_lookup(m.skip(1), cell);
        assert(m[k + 1].0 == cell && m[k + 1].1 == grid_lookup(m, cell));
    }
}

/// Two bodies whose closed disks intersect have a common cell in both
/// bounding boxes.
proof fn lemma_shared_box_cell(ca: Circle, cb: Circle, cs: Scalar) -> (r: (int, int))
    requires
        cs.bits > 0,
        ca.radius.bits >= 0,
        cb.radius.bits >= 0,
        box_coords_exact(ca, cs),
        box_coords_exact(cb, cs),
        (ca.position.x.bits - cb.position.x.bits) * (ca.position.x.bits - cb.position.x.bits) + (
        ca.position.y.bits - cb.position.y.bits) * (ca.position.y.bits - cb.position.y.bits) <= (
        ca.radius.bits + cb.radius.bits) * (ca.radius.bits + cb.radius.bits),
    ensures
        spec_box_x0(ca, cs) <= r.0 <= spec_box_x1(ca, cs),
        spec_box_y0(ca, cs) <= r.1 <= spec_box_y1(ca, cs),
        spec_box_x0(cb, cs) <= r.0 <= spec_box_x1(cb, cs),
        spec_box_y0(cb, cs) <= r.1 <= spec_box_y1(cb, cs),
{
    let ax = ca.position.x.bits as int;
    let ay = ca.position.y.bits as int;
    let ar = ca.radius.bits as int;
    let bx = cb.position.x.bits as int;
    let by = cb.position.y.bits as int;
    let br = cb.radius.bits as int;
    let csb = cs.bits as int;
    let s = ar + br;
    assert((ax - bx) * (ax - bx) <= s * s && (ay - by) * (ay - by) <= s * s) by (nonlinear_arith)
        requires
            (ax - bx) * (ax - bx) + (ay - by) * (ay - by) <= s * s,
    ;
    assert(-s <= ax - bx <= s) by (nonlinear_arith)
        requires
            (ax - bx) * (ax - bx) <= s * s,
            s >= 0,
    ;
    assert(-s <= ay - by <= s) by (nonlinear_arith)
        requires
            (ay - by) * (ay - by) <= s * s,
            s >= 0,
    ;
    let tx = if ax - ar >= bx - br {
        ax - ar
    } else {
        bx - br
    };
    let ty = if ay - ar >= by - br {
        ay - ar
    } else {
        by - br
    };
    let cx = spec_coord_of_bits(tx, csb);
    let cy = spec_coord_of_bits(ty, csb);
    lemma_coord_monotone(ax - ar, tx, csb);
    lemma_coord_monotone(tx, ax + ar, csb);
    lemma_coord_monotone(bx - br, tx, csb);
    lemma_coord_monotone(tx, bx + br, csb);
    lemma_coord_monotone(ay - ar, ty, csb);
    lemma_coord_monotone(ty, ay + ar, csb);
    lemma_coord_monotone(by - br, ty, csb);
    lemma_coord_monotone(ty, by + br, csb);
    lemma_box_coords(ca, cs);
    lemma_box_coords(cb, cs);
    (cx, cy)
}

/// Broad-phase completeness: whenever the closed disks of two bodies
/// intersect — the squared distance of their centers is at most the
/// square of their summed radii, over the exact integers of the
/// encodings — and no bounding-box computation wraps, the two bodies
/// share a grid cell and their pair is emitted at least once.
#[verifier::rlimit(100)]
pub proof fn lemma_broad_phase_complete(circles: Seq<Circle>, cs: Scalar, a: int, b: int)
    requires
        0 <= a < b < circles.len(),
        b <= usize::MAX,
        cs.bits > 0,
        circles[a].radius.bits >= 0,
        circles[b].radius.bits >= 0,
        box_coords_exact(circles[a], cs),
        box_coords_exact(circles[b], cs),
        (circles[a].position.x.bits - circles[b].position.x.bits) * (circles[a].position.x.bits
            - circles[b].position.x.bits) + (circles[a].position.y.bits
            - circles[b].position.y.bits) * (circles[a].position.y.bits
            - circles[b].position.y.bits) <= (circles[a].radius.bits + circles[b].radius.bits) * (
        circles[a].radius.bits + circles[b].radius.bits),
    ensures
        spec_collision_pairs(spec_build(circles, cs)).contains((a as usize, b as usize)),
{
    let ca = circles[a];
    let cb = circles[b];
    let (cx, cy) = lemma_shared_box_cell(ca, cb, cs);
    let cell = GridCell { x: cx as i32, y: cy as i32 };
    let m = spec_build(circles, cs);
    lemma_build_member(circles, cs, a);
    lemma_build_member(circles, cs, b);
    let lst = grid_lookup(m, cell);
    assert(lst.contains(a as usize));
    assert(lst.contains(b as usize));
    lemma_lookup_entry(m, cell);
    let k = choose|k: int|
        0 <= k < m.len() && (#[trigger] m[k]).0 == cell && m[k].1 == grid_lookup(m, cell);
    let p = choose|p: int| 0 <= p < lst.len() && lst[p] == a as usize;
    let q = choose|q: int| 0 <= q < lst.len() && lst[q] == b as usize;
    assert(a as usize != b as usize);
    assert(p != q);
    if p < q {
        lemma_collision_pairs_complete(m, k, p, q);
        assert(norm_pair(lst[p], lst[q]) == (a as usize, b as usize));
    } else {
        lemma_collision_pairs_complete(m, k, q, p);
        assert(norm_pair(lst[q], lst[p]) == (a as usize, b as usize));
    }
}

/// The entries of a body list are strictly increasing.
pub open spec fn seq_increasing(s: Seq<usize>) -> bool {
    forall|p: int, q: int| 0 <= p < q < s.len() ==> #[trigger] s[p] < #[trigger] s[q]
}

/// Every cell list of the grid is strictly increasing: within a cell,
/// body indices appear in index order.
pub open spec fn grid_lists_increasing(m: Seq<(GridCell, Seq<usize>)>) -> bool {
    forall|k: int| 0 <= k < m.len() ==> seq_increasing((#[trigger] m[k]).1)
}

/// Every entry of the list is below `n`.
pub open spec fn list_below(s: Seq<usize>, n: usize) -> bool {
    forall|t: int| 0 <= t < s.len() ==> #[trigger] s[t] < n
}

/// In a grid whose entries are all below `n`, so is every looked-up list.
proof fn lemma_lookup_list_below(m: Seq<(GridCell, Seq<usize>)>, cell: GridCell, n: usize)
    requires
        grid_entries_below(m, n as nat),
    ensures
        list_below(grid_lookup(m, cell), n),
    decreases m.len(),
{
    if m.len() == 0 {
    } else if m[0].0 == cell {
    } else {
        assert(grid_entries_below(m.skip(1), n as nat));
        lemma_lookup_list_below(m.skip(1), cell, n);
    }
}

/// Appending an index larger than everything a cell holds keeps every
/// list strictly increasing.
proof fn lemma_grid_insert_increasing(m: Seq<(GridCell, Seq<usize>)>, cell: GridCell, idx: usize)
    requires
        grid_lists_increasing(m),
        list_below(grid_lookup(m, cell), idx),
    ensures
        grid_lists_increasing(spec_grid_insert(m, cell, idx)),
    decreases m.len(),
{
    let r = spec_grid_insert(m, cell, idx);
    if m.len() == 0 {
        assert(seq_increasing(seq![idx]));
    } else if cell_lt(cell, m[0].0) {
        assert forall|k: int| 0 <= k < r.len() implies seq_increasing((#[trigger] r[k]).1) by {
            if k == 0 {
                assert(seq_increasing(seq![idx]));
            } else {
                assert(r[k] == m[k - 1]);
            }
        }
    } else if m[0].0 == cell {
        let lst = m[0].1;
        assert(grid_lookup(m, cell) == lst);
        assert forall|k: int| 0 <= k < r.len() implies seq_increasing((#[trigger] r[k]).1) by {
            if k == 0 {
                assert(seq_increasing(m[0].1));
                assert(r[0].1 == lst.push(idx));
                assert forall|p: int, q: int|
                    0 <= p < q < lst.push(idx).len() implies #[trigger] lst.push(idx)[p]
                    < #[trigger] lst.push(idx)[q] by {
                    if q == lst.len() as int {
                        assert(lst.push(idx)[p] == lst[p]);
                    }
                }
            } else {
                assert(r[k] == m[k]);
            }
        }
    } else {
        assert(grid_lists_increasing(m.skip(1)));
        assert(grid_lookup(m, cell) == grid_lookup(m.skip(1), cell));
        lemma_grid_insert_increasing(m.skip(1), cell, idx);
        let tail = spec_grid_insert(m.skip(1), cell, idx);
        assert forall|k: int| 0 <= k < r.len() implies seq_increasing((#[trigger] r[k]).1) by {
            if k == 0 {
                assert(r[0] == m[0]);
                assert(seq_increasing(m[0].1));
            } else {
                assert(r[k] == tail[k - 1]);
            }
        }
    }
}

/// Walking one row keeps every list strictly increasing, provided every
/// non-home row cell still lacks the body, and it leaves the lists of
/// other columns and of the home cell alone.
proof fn lemma_row_increasing(
    m: Seq<(GridCell, Seq<usize>)>,
    x: int,
    y: int,
    y1: int,
    home: GridCell,
    idx: usize,
)
    requires
        grid_sorted(m),
        grid_lists_increasing(m),
        -0x8000 <= x < 0x8000,
        -0x8000 <= y,
        y1 < 0x8000,
        forall|yy: int|
            y <= yy <= y1 && (GridCell { x: x as i32, y: yy as i32 }) != home ==> list_below(
                #[trigger] grid_lookup(m, GridCell { x: x as i32, y: yy as i32 }),
                idx,
            ),
    ensures
        grid_sorted(spec_insert_row(m, x, y, y1, home, idx)),
        grid_lists_increasing(spec_insert_row(m, x, y, y1, home, idx)),
        forall|c2: GridCell|
            c2.x != x as i32 || c2 == home ==> #[trigger] grid_lookup(
                spec_insert_row(m, x, y, y1, home, idx),
                c2,
            ) == grid_lookup(m, c2),
    decreases y1 + 1 - y,
{
    if y > y1 {
    } else {
        let cell = GridCell { x: x as i32, y: y as i32 };
        let m1 = if cell == home {
            m
        } else {
            spec_grid_insert(m, cell, idx)
        };
        if cell != home {
            lemma_grid_insert_increasing(m, cell, idx);
            lemma_insert_sorted(m, cell, idx);
            lemma_insert_lookup(m, cell, idx);
        }
        assert forall|yy: int|
            y + 1 <= yy <= y1 && (GridCell { x: x as i32, y: yy as i32 }) != home
            implies list_below(
            #[trigger] grid_lookup(m1, GridCell { x: x as i32, y: yy as i32 }),
            idx,
        ) by {
            let cy = GridCell { x: x as i32, y: yy as i32 };
            assert(cy != cell);
            if cell != home {
                assert(grid_lookup(m1, cy) == grid_lookup(m, cy));
            }
        }
        lemma_row_increasing(m1, x, y + 1, y1, home, idx);
        assert forall|c2: GridCell|
            c2.x != x as i32 || c2 == home implies #[trigger] grid_lookup(
            spec_insert_row(m, x, y, y1, home, idx),
            c2,
        ) == grid_lookup(m, c2) by {
            if cell != home {
                assert(c2 != cell);
                assert(grid_lookup(m1, c2) == grid_lookup(m, c2));
            }
        }
    }
}

/// Walking every row of the box keeps every list strictly increasing,
/// provided no non-home box cell holds the body yet.
proof fn lemma_rows_increasing(
    m: Seq<(GridCell, Seq<usize>)>,
    x: int,
    x1: int,
    y0: int,
    y1: int,
    home: GridCell,
    idx: usize,
)
    requires
        grid_sorted(m),
        grid_lists_increasing(m),
        -0x8000 <= x,
        x1 < 0x8000,
        -0x8000 <= y0,
        y1 < 0x8000,
        forall|xx: int, yy: int|
            x <= xx <= x1 && y0 <= yy <= y1 && (GridCell { x: xx as i32, y: yy as i32 }) != home
                ==> list_below(
                #[trigger] grid_lookup(m, GridCell { x: xx as i32, y: yy as i32 }),
                idx,
            ),
    ensures
        grid_sorted(spec_insert_rows(m, x, x1, y0, y1, home, idx)),
        grid_lists_increasing(spec_insert_rows(m, x, x1, y0, y1, home, idx)),
    decreases x1 + 1 - x,
{
    if x > x1 {
    } else {
        lemma_row_increasing(m, x, y0, y1, home, idx);
        let m1 = spec_insert_row(m, x, y0, y1, home, idx);
        assert forall|xx: int, yy: int|
            x + 1 <= xx <= x1 && y0 <= yy <= y1 && (GridCell { x: xx as i32, y: yy as i32 })
                != home implies list_below(
            #[trigger] grid_lookup(m1, GridCell { x: xx as i32, y: yy as i32 }),
            idx,
        ) by {
            let cy = GridCell { x: xx as i32, y: yy as i32 };
            assert(cy.x != x as i32);
            assert(grid_lookup(m1, cy) == grid_lookup(m, cy));
        }
        lemma_rows_increasing(m1, x + 1, x1, y0, y1, home, idx);
    }
}

/// A cell coordinate always lies in the signed 16-bit range.
proof fn lemma_cell_coord_range(p: Scalar, cs: Scalar)
    ensures
        -0x8000 <= spec_cell_coord(p, cs) < 0x8000,
{
    reveal(spec_cell_coord);
    crate::scalar::lemma_to_int_small(p.spec_div(cs));
}

/// Adding one body keeps every cell list strictly increasing, when every
/// index already recorded is below the new body's index.
proof fn lemma_body_increasing(m: Seq<(GridCell, Seq<usize>)>, c: Circle, cs: Scalar, idx: usize)
    requires
        grid_sorted(m),
        grid_lists_increasing(m),
        grid_entries_below(m, idx as nat),
    ensures
        grid_sorted(spec_insert_body(m, c, cs, idx)),
        grid_lists_increasing(spec_insert_body(m, c, cs, idx)),
{
    let home = spec_cell_of(c.position, cs);
    lemma_lookup_list_below(m, home, idx);
    lemma_grid_insert_increasing(m, home, idx);
    lemma_insert_sorted(m, home, idx);
    lemma_insert_lookup(m, home, idx);
    let m1 = spec_grid_insert(m, home, idx);
    let x0 = spec_box_x0(c, cs);
    let x1 = spec_box_x1(c, cs);
    let y0 = spec_box_y0(c, cs);
    let y1 = spec_box_y1(c, cs);
    lemma_cell_coord_range(c.position.x.spec_sub(c.radius), cs);
    lemma_cell_coord_range(c.position.x.spec_add(c.radius), cs);
    lemma_cell_coord_range(c.position.y.spec_sub(c.radius), cs);
    lemma_cell_coord_range(c.position.y.spec_add(c.radius), cs);
    assert forall|xx: int, yy: int|
        x0 <= xx <= x1 && y0 <= yy <= y1 && (GridCell { x: xx as i32, y: yy as i32 }) != home
        implies list_below(
        #[trigger] grid_lookup(m1, GridCell { x: xx as i32, y: yy as i32 }),
        idx,
    ) by {
        let cy = GridCell { x: xx as i32, y: yy as i32 };
        assert(grid_lookup(m1, cy) == grid_lookup(m, cy));
        lemma_lookup_list_below(m, cy, idx);
    }
    lemma_rows_increasing(m1, x0, x1, y0, y1, home, idx);
}

/// Building from bodies in index order keeps every cell list strictly
/// increasing.
proof fn lemma_build_increasing_from(
    m: Seq<(GridCell, Seq<usize>)>,
    circles: Seq<Circle>,
    i: int,
    cs: Scalar,
)
    requires
        grid_sorted(m),
        grid_lists_increasing(m),
        0 <= i,
        circles.len() <= usize::MAX,
        grid_entries_below(m, i as nat),
    ensures
        grid_lists_increasing(spec_build_from(m, circles, i, cs)),
    decreases circles.len() - i,
{
    if i >= circles.len() {
    } else {
        let c = circles[i];
        let idx = i as usize;
        lemma_body_increasing(m, c, cs, idx);
        let home = spec_cell_of(c.position, cs);
        assert(grid_entries_below(m, (i + 1) as nat));
        lemma_grid_insert_below(m, home, idx, (i + 1) as nat);
        lemma_insert_rows_below(
            spec_grid_insert(m, home, idx),
            spec_box_x0(c, cs),
            spec_box_x1(c, cs),
            spec_box_y0(c, cs),
            spec_box_y1(c, cs),
            home,
            idx,
            (i + 1) as nat,
        );
        let m1 = spec_insert_body(m, c, cs, idx);
        assert(grid_sorted(m1) && grid_entries_below(m1, (i + 1) as nat)) by {
            lemma_body_member(m, c, cs, idx);
        }
        lemma_build_increasing_from(m1, circles, i + 1, cs);
    }
}

/// Insertion order: within every cell of a built grid the body indices
/// appear in strictly increasing index order.
pub proof fn lemma_build_lists_increasing(circles: Seq<Circle>, cs: Scalar)
    requires
        circles.len() <= usize::MAX,
    ensures
        grid_lists_increasing(spec_build(circles, cs)),
{
    lemma_build_increasing_from(Seq::empty(), circles, 0, cs);
}

/// Every listed pair is strictly ordered, lower index first.
pub open spec fn pairs_canonical(pairs: Seq<(usize, usize)>) -> bool {
    forall|t: int| 0 <= t < pairs.len() ==> (#[trigger] pairs[t]).0 < pairs[t].1
}

/// Adding the pair of two distinct indices keeps the list canonical.
proof fn lemma_add_pair_canonical(pairs: Seq<(usize, usize)>, a: usize, b: usize)
    requires
        pairs_canonical(pairs),
        a != b,
    ensures
        pairs_canonical(add_pair(pairs, a, b)),
{
    let p = norm_pair(a, b);
    if pairs.contains(p) {
    } else {
        assert forall|t: int|
            0 <= t < pairs.push(p).len() implies (#[trigger] pairs.push(p)[t]).0 < pairs.push(
            p,
        )[t].1 by {
            if t < pairs.len() {
                assert(pairs.push(p)[t] == pairs[t]);
            }
        }
    }
}

/// The inner pair walk over a strictly increasing list keeps the pair
/// list canonical.
proof fn lemma_pairs_inner_canonical(pairs: Seq<(usize, usize)>, lst: Seq<usize>, i: int, j: int)
    requires
        pairs_canonical(pairs),
        seq_increasing(lst),
        0 <= i,
        i < j,
    ensures
        pairs_canonical(spec_pairs_inner(pairs, lst, i, j)),
    decreases lst.len() - j,
{
    if j < 0 || j >= lst.len() || i < 0 || i >= lst.len() {
    } else {
        assert(lst[i] < lst[j]);
        lemma_add_pair_canonical(pairs, lst[i], lst[j]);
        lemma_pairs_inner_canonical(add_pair(pairs, lst[i], lst[j]), lst, i, j + 1);
    }
}

/// The outer pair walk over a strictly increasing list keeps the pair
/// list canonical.
proof fn lemma_pairs_outer_canonical(pairs: Seq<(usize, usize)>, lst: Seq<usize>, i: int)
    requires
        pairs_canonical(pairs),
        seq_increasing(lst),
        0 <= i,
    ensures
        pairs_canonical(spec_pairs_outer(pairs, lst, i)),
    decreases lst.len() - i,
{
    if i < 0 || i >= lst.len() {
    } else {
        lemma_pairs_inner_canonical(pairs, lst, i, i + 1);
        lemma_pairs_outer_canonical(spec_pairs_inner(pairs, lst, i, i + 1), lst, i + 1);
    }
}

/// Walking the cells of a grid with strictly increasing lists keeps the
/// pair list canonical.
proof fn lemma_pairs_cells_canonical(pairs: Seq<(usize, usize)>, m: Seq<(GridCell, Seq<usize>)>)
    requires
        pairs_canonical(pairs),
        grid_lists_increasing(m),
    ensures
        pairs_canonical(spec_pairs_cells(pairs, m)),
    decreases m.len(),
{
    if m.len() == 0 {
    } else {
        assert(seq_increasing(m[0].1));
        lemma_pairs_outer_canonical(pairs, m[0].1, 0);
        assert(grid_lists_increasing(m.skip(1)));
        lemma_pairs_cells_canonical(spec_pairs_outer(pairs, m[0].1, 0), m.skip(1));
    }
}

/// Canonical ordering: every pair the broad phase emits from a built
/// grid is `(lower index, higher index)`, strictly.
pub proof fn lemma_collision_pairs_canonical(circles: Seq<Circle>, cs: Scalar)
    requires
        circles.len() <= usize::MAX,
    ensures
        pairs_canonical(spec_collision_pairs(spec_build(circles, cs))),
{
    lemma_build_lists_increasing(circles, cs);
    lemma_pairs_cells_canonical(Seq::empty(), spec_build(circles, cs));
}

/// An actual circle-circle contact: indices, unit normal from the first
/// body to the second, penetration depth, and the contact point.
#[derive(Clone, Copy, Debug, PartialEq, Eq, Structural)]
pub struct Collision {
    /// Index of the first circle (the lower one).
    pub idx_a: usize,
    /// Index of the second circle.
    pub idx_b: usize,
    /// Collision normal pointing from the first body to the second.
    pub normal: Vec2,
    /// Penetration depth.
    pub depth: Scalar,
    /// Contact point in world space.
    pub contact: Vec2,
}

/// Which wall a body hit.
#[derive(Clone, Copy, Debug, PartialEq, Eq, Structural)]
pub enum Boundary {
    Left,
    Right,
    Top,
    Bottom,
}

/// A contact between a body and one wall of the world.
#[derive(Clone, Copy, Debug, PartialEq, Eq, Structural)]
pub struct BoundaryCollision {
    /// Index of the circle.
    pub idx: usize,
    /// Which boundary was hit.
    pub boundary: Boundary,
    /// Penetration depth.
    pub depth: Scalar,
    /// Contact point on the wall.
    pub contact: Vec2,
}

/// The geometric contact test for a candidate pair: no contact when the
/// squared distance is zero (coincident centers are left to position
/// correction) or at least the squared radius sum, and also when the
/// approximated distance underflows to zero, which would leave no
/// direction for the normal.
pub open spec fn spec_contact(circles: Seq<Circle>, a: int, b: int) -> Option<Collision> {
    let ca = circles[a];
    let cb = circles[b];
    let delta = cb.position.spec_sub(ca.position);
    let dist_sq = delta.spec_magnitude_squared();
    let sum_radii = ca.radius.spec_add(cb.radius);
    let sum_radii_sq = sum_radii.spec_mul(sum_radii);
    if dist_sq.bits < sum_radii_sq.bits && dist_sq.bits > 0 {
        let dist = dist_sq.spec_sqrt();
        if dist.bits != 0 {
            let normal = delta.spec_div(dist);
            Some(
                Collision {
                    idx_a: a as usize,
                    idx_b: b as usize,
                    normal,
                    depth: sum_radii.spec_sub(dist),
                    contact: ca.position.spec_add(normal.spec_mul(ca.radius)),
                },
            )
        } else {
            None
        }
    } else {
        None
    }
}

/// The contacts found among the candidate pairs from position `k` on,
/// in pair-list order.
pub open spec fn spec_detect_from(
    acc: Seq<Collision>,
    circles: Seq<Circle>,
    pairs: Seq<(usize, usize)>,
    k: int,
) -> Seq<Collision>
    decreases pairs.len() - k,
{
    if k < 0 || k >= pairs.len() {
        acc
    } else {
        let acc1 = match spec_contact(circles, pairs[k].0 as int, pairs[k].1 as int) {
            Some(c) => acc.push(c),
            None => acc,
        };
        spec_detect_from(acc1, circles, pairs, k + 1)
    }
}

/// The contacts found among all candidate pairs.
pub open spec fn spec_detect(circles: Seq<Circle>, pairs: Seq<(usize, usize)>) -> Seq<Collision> {
    spec_detect_from(Seq::empty(), circles, pairs, 0)
}

/// Check each candidate pair for geometric overlap.
pub fn detect_collisions(circles: &Vec<Circle>, pairs: &Vec<(usize, usize)>) -> (out: Vec<
    Collision,
>)
    requires
        forall|k: int|
            0 <= k < pairs@.len() ==> (#[trigger] pairs@[k]).0 < circles@.len() && pairs@[k].1
                < circles@.len(),
    ensures
        out@ == spec_detect(circles@, pairs@),
{
    let ghost target = spec_detect(circles@, pairs@);
    let mut out: Vec<Collision> = Vec::new();
    let mut k: usize = 0;
    while k < pairs.len()
        invariant
            0 <= k <= pairs@.len(),
            forall|t: int|
                0 <= t < pairs@.len() ==> (#[trigger] pairs@[t]).0 < circles@.len() && pairs@[t].1
                    < circles@.len(),
            spec_detect_from(out@, circles@, pairs@, k as int) == target,
        decreases pairs.len() - k,
    {
        let idx_a = pairs[k].0;
        let idx_b = pairs[k].1;
        let ca = circles[idx_a];
        let cb = circles[idx_b];
        let delta = cb.position.sub(ca.position);
        let dist_sq = delta.magnitude_squared();
        let sum_radii = ca.radius.add(cb.radius);
        let sum_radii_sq = sum_radii.mul(sum_radii);
        if dist_sq.bits < sum_radii_sq.bits && dist_sq.bits > 0 {
            let dist = dist_sq.sqrt();
            if dist.bits != 0 {
                let normal = delta.div(dist);
                out.push(
                    Collision {
                        idx_a,
                        idx_b,
                        normal,
                        depth: sum_radii.sub(dist),
                        contact: ca.position.add(normal.mul(ca.radius)),
                    },
                );
            }
        }
        k = k + 1;
    }
    out
}

/// Wall contacts of one body, tested in the order left, right, bottom,
/// top; a body can touch up to four walls at once.
pub open spec fn spec_boundary_contacts(
    c: Circle,
    i: usize,
    width: Scalar,
    height: Scalar,
) -> Seq<BoundaryCollision> {
    let s0: Seq<BoundaryCollision> = Seq::empty();
    let s1 = if c.position.x.spec_sub(c.radius).bits < 0 {
        s0.push(
            BoundaryCollision {
                idx: i,
                boundary: Boundary::Left,
                depth: c.radius.spec_sub(c.position.x),
                contact: Vec2 { x: Scalar::spec_zero(), y: c.position.y },
            },
        )
    } else {
        s0
    };
    let s2 = if c.position.x.spec_add(c.radius).bits > width.bits {
        s1.push(
            BoundaryCollision {
                idx: i,
                boundary: Boundary::Right,
                depth: c.position.x.spec_add(c.radius).spec_sub(width),
                contact: Vec2 { x: width, y: c.position.y },
            },
        )
    } else {
        s1
    };
    let s3 = if c.position.y.spec_sub(c.radius).bits < 0 {
        s2.push(
            BoundaryCollision {
                idx: i,
                boundary: Boundary::Bottom,
                depth: c.radius.spec_sub(c.position.y),
                contact: Vec2 { x: c.position.x, y: Scalar::spec_zero() },
            },
        )
    } else {
        s2
    };
    if c.position.y.spec_add(c.radius).bits > height.bits {
        s3.push(
            BoundaryCollision {
                idx: i,
                boundary: Boundary::Top,
                depth: c.position.y.spec_add(c.radius).spec_sub(height),
                contact: Vec2 { x: c.position.x, y: height },
            },
        )
    } else {
        s3
    }
}

/// Wall contacts of the bodies from index `i` on, in index order.
pub open spec fn spec_boundary_from(
    acc: Seq<BoundaryCollision>,
    circles: Seq<Circle>,
    i: int,
    width: Scalar,
    height: Scalar,
) -> Seq<BoundaryCollision>
    decreases circles.len() - i,
{
    if i < 0 || i >= circles.len() {
        acc
    } else {
        spec_boundary_from(
            acc + spec_boundary_contacts(circles[i], i as usize, width, height),
            circles,
            i + 1,
            width,
            height,
        )
    }
}

/// All wall contacts, in body-index order.
pub open spec fn spec_boundary_collisions(
    circles: Seq<Circle>,
    width: Scalar,
    height: Scalar,
) -> Seq<BoundaryCollision> {
    spec_boundary_from(Seq::empty(), circles, 0, width, height)
}

/// Detect contacts between bodies and the four world walls.
pub fn detect_boundary_collisions(
    circles: &Vec<Circle>,
    world_width: Scalar,
    world_height: Scalar,
) -> (out: Vec<BoundaryCollision>)
    ensures
        out@ == spec_boundary_collisions(circles@, world_width, world_height),
{
    let ghost target = spec_boundary_collisions(circles@, world_width, world_height);
    let mut out: Vec<BoundaryCollision> = Vec::new();
    let mut i: usize = 0;
    while i < circles.len()
        invariant
            0 <= i <= circles@.len(),
            spec_boundary_from(out@, circles@, i as int, world_width, world_height) == target,
        decreases circles.len() - i,
    {
        let c = circles[i];
        let ghost before = out@;
        if c.position.x.sub(c.radius).bits < 0 {
            out.push(
                BoundaryCollision {
                    idx: i,
                    boundary: Boundary::Left,
                    depth: c.radius.sub(c.position.x),
                    contact: Vec2::from_scalars(Scalar::zero(), c.position.y),
                },
            );
        }
        if c.position.x.add(c.radius).bits > world_width.bits {
            out.push(
                BoundaryCollision {
                    idx: i,
                    boundary: Boundary::Right,
                    depth: c.position.x.add(c.radius).sub(world_width),
                    contact: Vec2::from_scalars(world_width, c.position.y),
                },
            );
        }
        if c.position.y.sub(c.radius).bits < 0 {
            out.push(
                BoundaryCollision {
                    idx: i,
                    boundary: Boundary::Bottom,
                    depth: c.radius.sub(c.position.y),
                    contact: Vec2::from_scalars(c.position.x, Scalar::zero()),
                },
            );
        }
        if c.position.y.add(c.radius).bits > world_height.bits {
            out.push(
                BoundaryCollision {
                    idx: i,
                    boundary: Boundary::Top,
                    depth: c.position.y.add(c.radius).sub(world_height),
                    contact: Vec2::from_scalars(c.position.x, world_height),
                },
            );
        }
        proof {
            assert(out@ =~= before + spec_boundary_contacts(
                circles@[i as int],
                i,
                world_width,
                world_height,
            ));
        }
        i = i + 1;
    }
    out
}

} // verus!
