//! Navigation grid and A* pathfinding with two path-refinement passes.
//!
//! The continuous world is discretised into uniform cells; a grid built
//! from the current wall list marks blocked cells, and paths are searched
//! over 4-directional neighbours, then smoothed by string pulling and a
//! wall-hugging waypoint adjustment.

use crate::collision::{
    circle_rect_collision, circle_rect_hit, has_line_of_sight_with_padding, los_pad,
    seg_rect_intersect,
};
use crate::components::{dist_sq, in_coord_range, Position};
use crate::ecs::world::Wall;
use crate::num::abs_spec;
use core::cmp::Ordering;
use vstd::arithmetic::div_mod::lemma_fundamental_div_mod_converse;
use vstd::prelude::*;

verus! {

/// Size of each grid cell, in milli-units (50 world units).
pub const GRID_CELL_SIZE: i64 = 50000;

/// World dimensions, in milli-units (2000 by 2000 world units).
pub const WORLD_WIDTH: i64 = 2000000;

pub const WORLD_HEIGHT: i64 = 2000000;

/// Number of cells along each axis.
pub const GRID_W: i32 = 40;

pub const GRID_H: i32 = 40;

/// Total number of cells.
pub const GRID_CELLS: usize = 1600;

/// Walls handed to the grid keep their corners within this bound, so that
/// every derived quantity stays a valid geometry input.
pub const WALL_LIMIT: i64 = 100000000;

/// Wall padding used by both path-refinement passes, in milli-units.
pub const PATH_WALL_PADDING: i64 = 25000;

/// How far short of an inflated wall boundary an adjusted waypoint stops.
pub const PATH_SAFETY_MARGIN: i64 = 3000;

/// Grid coordinates of a cell.
#[derive(Debug, Clone, Copy, PartialEq, Eq, Hash, Structural)]
pub struct GridCoord {
    pub i: i32,
    pub j: i32,
}

/// The world position of a cell's centre.
pub open spec fn cell_center_spec(c: GridCoord) -> Position {
    Position {
        x: (c.i * GRID_CELL_SIZE + GRID_CELL_SIZE / 2) as i64,
        y: (c.j * GRID_CELL_SIZE + GRID_CELL_SIZE / 2) as i64,
    }
}

/// The cell containing a world position (floor division by the cell size).
pub open spec fn grid_from_pos_spec(p: Position) -> GridCoord {
    GridCoord { i: (p.x as int / (GRID_CELL_SIZE as int)) as i32, j: (p.y as int / (GRID_CELL_SIZE as int)) as i32 }
}

/// Whether a coordinate lies within the grid bounds.
pub open spec fn coord_valid(c: GridCoord) -> bool {
    0 <= c.i < GRID_W && 0 <= c.j < GRID_H
}

/// Whether two cells are 4-directional neighbours.
pub open spec fn cells_adjacent(a: GridCoord, b: GridCoord) -> bool {
    abs_spec(a.i - b.i) + abs_spec(a.j - b.j) == 1
}

impl GridCoord {
    pub fn new(i: i32, j: i32) -> (r: GridCoord)
        ensures
            r == (GridCoord { i, j }),
    {
        GridCoord { i, j }
    }

    /// The cell containing the world position `(x, y)`, by floor division.
    pub fn from_world_pos(x: i64, y: i64) -> (r: GridCoord)
        requires
            abs_spec(x as int) <= crate::num::COORD_LIMIT,
            abs_spec(y as int) <= crate::num::COORD_LIMIT,
        ensures
            r == grid_from_pos_spec(Position { x, y }),
    {
        let i = floor_div_cell(x);
        let j = floor_div_cell(y);
        GridCoord { i, j }
    }

    /// The world position of this cell's centre.
    pub fn to_world_pos(&self) -> (r: Position)
        requires
            abs_spec(self.i as int) <= 1000000,
            abs_spec(self.j as int) <= 1000000,
        ensures
            r == cell_center_spec(*self),
    {
        Position {
            x: (self.i as i64) * GRID_CELL_SIZE + GRID_CELL_SIZE / 2,
            y: (self.j as i64) * GRID_CELL_SIZE + GRID_CELL_SIZE / 2,
        }
    }

    /// Manhattan distance between two cells.
    pub fn manhattan_distance(&self, other: &GridCoord) -> (r: i32)
        requires
            abs_spec(self.i as int) <= 1000000,
            abs_spec(self.j as int) <= 1000000,
            abs_spec(other.i as int) <= 1000000,
            abs_spec(other.j as int) <= 1000000,
        ensures
            r == abs_spec(self.i - other.i) + abs_spec(self.j - other.j),
    {
        let di = if self.i >= other.i {
            self.i - other.i
        } else {
            other.i - self.i
        };
        let dj = if self.j >= other.j {
            self.j - other.j
        } else {
            other.j - self.j
        };
        di + dj
    }

    /// Squared Euclidean distance between two cells, the A* heuristic.
    pub fn distance_squared(&self, other: &GridCoord) -> (r: i32)
        requires
            abs_spec(self.i as int) <= 15000,
            abs_spec(self.j as int) <= 15000,
            abs_spec(other.i as int) <= 15000,
            abs_spec(other.j as int) <= 15000,
        ensures
            r == (self.i - other.i) * (self.i - other.i) + (self.j - other.j) * (self.j
                - other.j),
    {
        let di = self.i - other.i;
        let dj = self.j - other.j;
        proof {
            assert(di * di + dj * dj <= 2 * 30000 * 30000 && di * di >= 0 && dj * dj >= 0)
                by (nonlinear_arith)
                requires
                    -30000 <= di <= 30000,
                    -30000 <= dj <= 30000,
            ;
        }
        di * di + dj * dj
    }

    /// The four 4-directional neighbours: left, right, down, up.
    pub fn neighbors(&self) -> (r: Vec<GridCoord>)
        requires
            i32::MIN < self.i < i32::MAX,
            i32::MIN < self.j < i32::MAX,
        ensures
            r@ == seq![
                GridCoord { i: (self.i - 1) as i32, j: self.j },
                GridCoord { i: (self.i + 1) as i32, j: self.j },
                GridCoord { i: self.i, j: (self.j - 1) as i32 },
                GridCoord { i: self.i, j: (self.j + 1) as i32 },
            ],
            forall|k: int| 0 <= k < 4 ==> cells_adjacent(*self, r@[k]),
    {
        let mut v: Vec<GridCoord> = Vec::new();
        v.push(GridCoord { i: self.i - 1, j: self.j });
        v.push(GridCoord { i: self.i + 1, j: self.j });
        v.push(GridCoord { i: self.i, j: self.j - 1 });
        v.push(GridCoord { i: self.i, j: self.j + 1 });
        proof {
            assert(v@ =~= seq![
                GridCoord { i: (self.i - 1) as i32, j: self.j },
                GridCoord { i: (self.i + 1) as i32, j: self.j },
                GridCoord { i: self.i, j: (self.j - 1) as i32 },
                GridCoord { i: self.i, j: (self.j + 1) as i32 },
            ]);
        }
        v
    }

    /// Whether the coordinate is inside the grid.
    pub fn is_valid(&self) -> (r: bool)
        ensures
            r == coord_valid(*self),
    {
        self.i >= 0 && self.i < GRID_W && self.j >= 0 && self.j < GRID_H
    }
}

/// Floor division of a coordinate by the cell size, exact also for negative
/// coordinates.
fn floor_div_cell(x: i64) -> (r: i32)
    requires
        abs_spec(x as int) <= crate::num::COORD_LIMIT,
    ensures
        r == x as int / (GRID_CELL_SIZE as int),
{
    // Shift by a multiple of the cell size to make the dividend
    // non-negative, divide, and shift back.
    let shifted = (x + 1000000000000) as u64;
    let q = shifted / (GRID_CELL_SIZE as u64);
    proof {
        assert(shifted as int == x + 20000000 * 50000);
        lemma_div_multiple_shift(x as int, 20000000, 50000);
        assert(q as int == x as int / 50000 + 20000000);
        assert(-1000000000 <= x as int);
        vstd::arithmetic::div_mod::lemma_div_is_ordered(
            -1000000000 + 20000000 * 50000,
            shifted as int,
            50000,
        );
        vstd::arithmetic::div_mod::lemma_div_is_ordered(
            shifted as int,
            (1000000000 + 20000000 * 50000) as int,
            50000,
        );
        lemma_fundamental_div_mod_converse(-1000000000 + 20000000 * 50000, 50000, 19980000, 0);
        lemma_fundamental_div_mod_converse((1000000000 + 20000000 * 50000) as int, 50000, 20020000, 0);
    }
    (q as i64 - 20000000) as i32
}

/// `(x + k * d) / d == x / d + k` for positive `d`.
proof fn lemma_div_multiple_shift(x: int, k: int, d: int)
    requires
        d > 0,
    ensures
        (x + k * d) / d == x / d + k,
{
    let q = x / d;
    let r = x % d;
    vstd::arithmetic::div_mod::lemma_fundamental_div_mod(x, d);
    assert(x + k * d == (q + k) * d + r) by (nonlinear_arith)
        requires
            x == q * d + r,
    ;
    lemma_fundamental_div_mod_converse(x + k * d, d, q + k, r);
}

/// Converting a valid cell to its centre position and back yields the same
/// cell: the grid coordinates and world positions are in exact
/// correspondence.
pub proof fn lemma_grid_round_trip(c: GridCoord)
    requires
        coord_valid(c),
    ensures
        grid_from_pos_spec(cell_center_spec(c)) == c,
{
    let cx = c.i * GRID_CELL_SIZE + GRID_CELL_SIZE / 2;
    assert(c.i * 50000 + 25000 == c.i * 50000 + 25000);
    lemma_fundamental_div_mod_converse(c.i * 50000 + 25000, 50000, c.i as int, 25000);
    lemma_fundamental_div_mod_converse(c.j * 50000 + 25000, 50000, c.j as int, 25000);
    assert(cell_center_spec(c).x == c.i * 50000 + 25000);
    assert(cell_center_spec(c).y == c.j * 50000 + 25000);
}

/// A frontier node of the A* search, ordered by lowest f-score first:
/// comparisons are reversed so the node with the smaller f-score is the
/// greater element, as a max-priority frontier expects.
#[derive(Debug, Clone, Copy, PartialEq, Eq, Structural)]
pub struct AStarNode {
    pub coord: GridCoord,
    pub f_score: i64,
}

impl PartialOrd for AStarNode {
    fn partial_cmp(&self, other: &AStarNode) -> (r: Option<Ordering>) {
        if other.f_score < self.f_score {
            Some(Ordering::Less)
        } else if other.f_score == self.f_score {
            Some(Ordering::Equal)
        } else {
            Some(Ordering::Greater)
        }
    }
}

impl vstd::std_specs::cmp::PartialOrdSpecImpl for AStarNode {
    open spec fn obeys_partial_cmp_spec() -> bool {
        true
    }

    open spec fn partial_cmp_spec(&self, other: &AStarNode) -> Option<Ordering> {
        if other.f_score < self.f_score {
            Some(Ordering::Less)
        } else if other.f_score == self.f_score {
            Some(Ordering::Equal)
        } else {
            Some(Ordering::Greater)
        }
    }
}

/// Linear index of a valid cell.
pub open spec fn idx_of(c: GridCoord) -> int {
    c.i * (GRID_H as int) + c.j
}

/// The cell of a linear index.
pub open spec fn coord_of(idx: int) -> GridCoord {
    GridCoord { i: (idx / (GRID_H as int)) as i32, j: (idx % (GRID_H as int)) as i32 }
}

proof fn lemma_idx_bij(c: GridCoord)
    requires
        coord_valid(c),
    ensures
        0 <= idx_of(c) < GRID_CELLS,
        coord_of(idx_of(c)) == c,
{
    assert(0 <= c.i * 40 + c.j < 1600) by (nonlinear_arith)
        requires
            0 <= c.i < 40,
            0 <= c.j < 40,
    ;
    assert(c.i * 40 + c.j == (c.i as int) * 40 + c.j);
    lemma_fundamental_div_mod_converse(c.i * 40 + c.j, 40, c.i as int, c.j as int);
}

proof fn lemma_coord_bij(idx: int)
    requires
        0 <= idx < GRID_CELLS,
    ensures
        coord_valid(coord_of(idx)),
        idx_of(coord_of(idx)) == idx,
{
    vstd::arithmetic::div_mod::lemma_fundamental_div_mod(idx, 40);
    vstd::arithmetic::div_mod::lemma_div_is_ordered(0, idx, 40);
    vstd::arithmetic::div_mod::lemma_div_is_ordered(idx, 1599, 40);
    lemma_fundamental_div_mod_converse(1599, 40, 39, 39);
    lemma_fundamental_div_mod_converse(0, 40, 0, 0);
}

/// A cell is blocked when a circle of half the cell size at its centre
/// collides with some wall; this over-blocks near obstacles on purpose.
pub open spec fn cell_blocked_by_walls(ws: Seq<Wall>, c: GridCoord) -> bool {
    exists|w: int|
        0 <= w < ws.len() && circle_rect_hit(
            cell_center_spec(c),
            (GRID_CELL_SIZE / 2) as int,
            (#[trigger] ws[w]).x as int,
            ws[w].y as int,
            ws[w].width as int,
            ws[w].height as int,
        )
}

/// A wall within the bounds the grid accepts.
pub open spec fn wall_bounded(w: Wall) -> bool {
    &&& abs_spec(w.x as int) <= WALL_LIMIT
    &&& abs_spec(w.y as int) <= WALL_LIMIT
    &&& abs_spec(w.x + w.width) <= WALL_LIMIT
    &&& abs_spec(w.y + w.height) <= WALL_LIMIT
}

pub open spec fn walls_bounded(ws: Seq<Wall>) -> bool {
    forall|i: int| 0 <= i < ws.len() ==> wall_bounded(#[trigger] ws[i])
}

/// Walls within the grid bound are valid geometry inputs.
pub proof fn lemma_walls_bounded_geom(ws: Seq<Wall>)
    requires
        walls_bounded(ws),
    ensures
        crate::collision::walls_in_geom_range(ws),
{
}

/// Navigation grid: an immutable-per-query snapshot of which cells are
/// blocked, with a copy of the walls for the refinement passes.
pub struct NavigationGrid {
    blocked: Vec<bool>,
    walls: Vec<Wall>,
}

impl NavigationGrid {
    /// The walls the grid was built from.
    pub closed spec fn grid_walls(self) -> Seq<Wall> {
        self.walls@
    }

    /// Whether the cell is marked blocked.
    pub closed spec fn blocked_at(self, c: GridCoord) -> bool {
        self.blocked@[idx_of(c)]
    }

    pub closed spec fn wf(self) -> bool {
        self.blocked@.len() == GRID_CELLS && walls_bounded(self.walls@)
    }

    /// A cell is walkable when it lies in the grid and is not blocked.
    pub open spec fn walkable_spec(self, c: GridCoord) -> bool {
        coord_valid(c) && !self.blocked_at(c)
    }

    /// Builds the grid: each cell is blocked exactly when a circle of half
    /// the cell size at its centre collides with some wall.
    pub fn new(walls: &Vec<Wall>) -> (r: NavigationGrid)
        requires
            walls_bounded(walls@),
        ensures
            r.wf(),
            r.grid_walls() == walls@,
            forall|c: GridCoord|
                coord_valid(c) ==> (#[trigger] r.blocked_at(c) == cell_blocked_by_walls(
                    walls@,
                    c,
                )),
    {
        let mut blocked: Vec<bool> = Vec::new();
        let mut idx: usize = 0;
        while idx < GRID_CELLS
            invariant
                idx <= GRID_CELLS,
                blocked@.len() == idx,
                walls_bounded(walls@),
                forall|t: int|
                    0 <= t < idx ==> blocked@[t] == cell_blocked_by_walls(walls@, coord_of(t)),
            decreases GRID_CELLS - idx,
        {
            proof {
                lemma_coord_bij(idx as int);
            }
            let i = (idx / (GRID_H as usize)) as i32;
            let j = (idx % (GRID_H as usize)) as i32;
            let c = GridCoord { i, j };
            let center = c.to_world_pos();
            let hit = cell_hits_some_wall(walls, center);
            blocked.push(hit);
            idx = idx + 1;
        }
        let r = NavigationGrid { blocked, walls: walls.clone() };
        proof {
            assert(r.walls@ =~= walls@);
            assert forall|c: GridCoord| coord_valid(c) implies #[trigger] r.blocked_at(c)
                == cell_blocked_by_walls(walls@, c) by {
                lemma_idx_bij(c);
            }
        }
        r
    }

    /// Whether a grid cell is walkable.
    pub fn is_walkable(&self, coord: &GridCoord) -> (r: bool)
        requires
            self.wf(),
        ensures
            r == self.walkable_spec(*coord),
    {
        if !coord.is_valid() {
            return false;
        }
        proof {
            lemma_idx_bij(*coord);
        }
        let idx = (coord.i as usize) * (GRID_H as usize) + (coord.j as usize);
        !self.blocked[idx]
    }
}

/// Whether the cell-sized circle at `center` collides with some wall.
fn cell_hits_some_wall(walls: &Vec<Wall>, center: Position) -> (r: bool)
    requires
        walls_bounded(walls@),
        abs_spec(center.x as int) <= 2 * WALL_LIMIT,
        abs_spec(center.y as int) <= 2 * WALL_LIMIT,
    ensures
        r == exists|w: int|
            0 <= w < walls@.len() && circle_rect_hit(
                center,
                (GRID_CELL_SIZE / 2) as int,
                (#[trigger] walls@[w]).x as int,
                walls@[w].y as int,
                walls@[w].width as int,
                walls@[w].height as int,
            ),
{
    let n = walls.len();
    let mut w: usize = 0;
    while w < n
        invariant
            w <= n,
            n == walls@.len(),
            walls_bounded(walls@),
            abs_spec(center.x as int) <= 2 * WALL_LIMIT,
            abs_spec(center.y as int) <= 2 * WALL_LIMIT,
            forall|t: int|
                0 <= t < w ==> !circle_rect_hit(
                    center,
                    (GRID_CELL_SIZE / 2) as int,
                    (#[trigger] walls@[t]).x as int,
                    walls@[t].y as int,
                    walls@[t].width as int,
                    walls@[t].height as int,
                ),
        decreases n - w,
    {
        let wall = walls[w];
        if circle_rect_collision(
            center,
            GRID_CELL_SIZE / 2,
            wall.x,
            wall.y,
            wall.width,
            wall.height,
        ) {
            return true;
        }
        w = w + 1;
    }
    false
}

/// A walkable cell path from `s` to `g`: non-empty, endpoints as given, all
/// cells walkable, consecutive cells 4-adjacent.
pub open spec fn cell_path(grid: NavigationGrid, p: Seq<GridCoord>, s: GridCoord, g: GridCoord) -> bool {
    &&& p.len() >= 1
    &&& p[0] == s
    &&& p.last() == g
    &&& forall|k: int| 0 <= k < p.len() ==> grid.walkable_spec(#[trigger] p[k])
    &&& forall|k: int| 0 <= k < p.len() - 1 ==> cells_adjacent(#[trigger] p[k], p[k + 1])
}

/// Number of cells not yet expanded.
spec fn unclosed(s: Seq<bool>) -> nat
    decreases s.len(),
{
    if s.len() == 0 {
        0
    } else {
        unclosed(s.drop_last()) + if s.last() {
            0nat
        } else {
            1nat
        }
    }
}

proof fn lemma_unclosed_le(s: Seq<bool>)
    ensures
        unclosed(s) <= s.len(),
    decreases s.len(),
{
    if s.len() > 0 {
        lemma_unclosed_le(s.drop_last());
    }
}

proof fn lemma_unclosed_update(s: Seq<bool>, i: int)
    requires
        0 <= i < s.len(),
        !s[i],
    ensures
        unclosed(s.update(i, true)) + 1 == unclosed(s),
    decreases s.len(),
{
    let u = s.update(i, true);
    if i == s.len() - 1 {
        assert(u.drop_last() =~= s.drop_last());
        assert(u.last());
    } else {
        assert(u.drop_last() =~= s.drop_last().update(i, true));
        assert(u.last() == s.last());
        lemma_unclosed_update(s.drop_last(), i);
    }
}

/// The search state away from the frontier: sizes, walkability and the
/// parent chain, plus the g-score bound that rules out overflow.
#[verifier::opaque]
spec fn search_inv(
    grid: NavigationGrid,
    gs: Seq<i64>,
    par: Seq<usize>,
    cl: Seq<bool>,
    start: GridCoord,
    goal: GridCoord,
) -> bool {
    &&& gs.len() == GRID_CELLS
    &&& par.len() == GRID_CELLS
    &&& cl.len() == GRID_CELLS
    &&& grid.wf()
    &&& grid.walkable_spec(start)
    &&& grid.walkable_spec(goal)
    &&& 0 <= idx_of(start) < GRID_CELLS
    &&& gs[idx_of(start)] == 0
    &&& !cl[idx_of(goal)]
    &&& forall|x: int|
        0 <= x < GRID_CELLS && #[trigger] gs[x] >= 0 ==> grid.walkable_spec(coord_of(x))
    &&& forall|x: int|
        0 <= x < GRID_CELLS && #[trigger] gs[x] >= 0 ==> gs[x] + unclosed(cl) <= GRID_CELLS
    &&& forall|x: int|
        #![trigger par[x]]
        0 <= x < GRID_CELLS && gs[x] >= 0 && x != idx_of(start) ==> {
            &&& 0 <= par[x] < GRID_CELLS
            &&& gs[par[x] as int] >= 0
            &&& gs[par[x] as int] < gs[x]
            &&& cells_adjacent(coord_of(par[x] as int), coord_of(x))
        }
    &&& forall|x: int| 0 <= x < GRID_CELLS && #[trigger] cl[x] ==> gs[x] >= 0
}

/// Every expanded cell has all its walkable neighbours discovered.
#[verifier::opaque]
spec fn neighbors_done(grid: NavigationGrid, gs: Seq<i64>, cl: Seq<bool>) -> bool {
    forall|x: int, y: int|
        #![trigger cl[x], cells_adjacent(coord_of(x), coord_of(y))]
        0 <= x < GRID_CELLS && cl[x] && 0 <= y < GRID_CELLS && cells_adjacent(
            coord_of(x),
            coord_of(y),
        ) && grid.walkable_spec(coord_of(y)) ==> gs[y] >= 0
}

/// Frontier entries name valid discovered cells.
spec fn open_entries_ok(gs: Seq<i64>, open: Seq<AStarNode>) -> bool {
    forall|k: int|
        0 <= k < open.len() ==> coord_valid((#[trigger] open[k]).coord) && 0 <= idx_of(
            open[k].coord,
        ) < GRID_CELLS && gs[idx_of(open[k].coord)] >= 0
}

/// Every discovered, unexpanded cell other than `except` has a frontier
/// entry.
spec fn open_covers(gs: Seq<i64>, cl: Seq<bool>, open: Seq<AStarNode>, except: int) -> bool {
    forall|x: int|
        0 <= x < GRID_CELLS && #[trigger] gs[x] >= 0 && !cl[x] && x != except ==> exists|k: int|
            0 <= k < open.len() && idx_of((#[trigger] open[k]).coord) == x
}

/// The full frontier invariant.
#[verifier::opaque]
spec fn open_inv(gs: Seq<i64>, cl: Seq<bool>, open: Seq<AStarNode>) -> bool {
    open_entries_ok(gs, open) && open_covers(gs, cl, open, -1)
}

/// After discovering or improving cell `ni` from `cur_idx`, the search and
/// frontier invariants still hold.
proof fn lemma_relax_post(
    grid: NavigationGrid,
    gs0: Seq<i64>,
    par0: Seq<usize>,
    cl: Seq<bool>,
    open0: Seq<AStarNode>,
    ni: int,
    cur_idx: usize,
    tentative: i64,
    node: AStarNode,
    n: GridCoord,
    start: GridCoord,
    goal: GridCoord,
)
    requires
        search_inv(grid, gs0, par0, cl, start, goal),
        open_inv(gs0, cl, open0),
        (cur_idx as int) < GRID_CELLS,
        cl[cur_idx as int],
        gs0[cur_idx as int] >= 0,
        tentative == gs0[cur_idx as int] + 1,
        tentative + unclosed(cl) <= GRID_CELLS,
        0 <= ni < GRID_CELLS,
        ni == idx_of(n),
        coord_of(ni) == n,
        grid.walkable_spec(n),
        cells_adjacent(coord_of(cur_idx as int), n),
        !cl[ni],
        gs0[ni] < 0 || tentative < gs0[ni],
        node.coord == n,
        ni != idx_of(start),
    ensures
        search_inv(grid, gs0.update(ni, tentative), par0.update(ni, cur_idx), cl, start, goal),
        open_inv(gs0.update(ni, tentative), cl, open0.push(node)),
{
    reveal(search_inv);
    reveal(open_inv);
    let gs1 = gs0.update(ni, tentative);
    let par1 = par0.update(ni, cur_idx);
    let open1 = open0.push(node);
    assert(cur_idx as int != ni) by {
        lemma_coord_bij(cur_idx as int);
    }
    assert forall|x: int|
        #![trigger par1[x]]
        0 <= x < GRID_CELLS && gs1[x] >= 0 && x != idx_of(start) implies {
        &&& 0 <= par1[x] < GRID_CELLS
        &&& gs1[par1[x] as int] >= 0
        &&& gs1[par1[x] as int] < gs1[x]
        &&& cells_adjacent(coord_of(par1[x] as int), coord_of(x))
    } by {
        if x == ni {
            assert(par1[x] == cur_idx);
            assert(gs1[cur_idx as int] == gs0[cur_idx as int]);
        } else {
            assert(gs0[x] >= 0);
            assert(par1[x] == par0[x]);
            if par0[x] as int == ni {
                assert(gs0[ni] >= 0);
                assert(tentative < gs0[ni]);
            }
        }
    }
    assert forall|x: int|
        0 <= x < GRID_CELLS && #[trigger] gs1[x] >= 0 && !cl[x] && x != -1 implies exists|k: int|
        0 <= k < open1.len() && idx_of((#[trigger] open1[k]).coord) == x by {
        if x == ni {
            assert(idx_of(open1[open1.len() - 1].coord) == x);
        } else {
            assert(gs0[x] >= 0);
            let k = choose|k: int|
                0 <= k < open0.len() && idx_of((#[trigger] open0[k]).coord) == x;
            assert(open1[k] == open0[k]);
            assert(idx_of(open1[k].coord) == x);
        }
    }
}

/// Offers one neighbour of the just-expanded cell to the search: discovers
/// it or improves its path, leaving every invariant intact.
fn relax(
    grid: &NavigationGrid,
    g_score: &mut Vec<i64>,
    parent: &mut Vec<usize>,
    closed: &Vec<bool>,
    open: &mut Vec<AStarNode>,
    cur_idx: usize,
    g_cur: i64,
    n: GridCoord,
    start: GridCoord,
    goal: GridCoord,
)
    requires
        search_inv(*grid, old(g_score)@, old(parent)@, closed@, start, goal),
        open_inv(old(g_score)@, closed@, old(open)@),
        cur_idx < GRID_CELLS,
        closed@[cur_idx as int],
        g_cur == old(g_score)@[cur_idx as int],
        g_cur >= 0,
        g_cur + 1 + unclosed(closed@) <= GRID_CELLS,
        cells_adjacent(coord_of(cur_idx as int), n),
    ensures
        search_inv(*grid, final (g_score)@, final (parent)@, closed@, start, goal),
        open_inv(final (g_score)@, closed@, final (open)@),
        grid.walkable_spec(n) ==> final (g_score)@[idx_of(n)] >= 0,
        forall|x: int|
            0 <= x < GRID_CELLS && old(g_score)@[x] >= 0 ==> final (g_score)@[x] >= 0,
        final (g_score)@[cur_idx as int] == old(g_score)@[cur_idx as int],
        final (g_score)@.len() == old(g_score)@.len(),
        final (parent)@.len() == old(parent)@.len(),
{
    proof {
        reveal(search_inv);
        reveal(open_inv);
    }
    if !grid.is_walkable(&n) {
        return ;
    }
    proof {
        lemma_idx_bij(n);
    }
    let ni = (n.i as usize) * (GRID_H as usize) + (n.j as usize);
    if closed[ni] {
        return ;
    }
    let old_g = g_score[ni];
    let tentative = g_cur + 1;
    if old_g < 0 || tentative < old_g {
        proof {
            // The start keeps g-score zero, so it is never improved here.
            assert(ni as int != idx_of(start) || old_g == 0);
        }
        parent[ni] = cur_idx;
        g_score[ni] = tentative;
        let h = n.distance_squared(&goal);
        let f = tentative + (h as i64);
        let node = AStarNode { coord: n, f_score: f };
        proof {
            lemma_relax_post(
                *grid,
                old(g_score)@,
                old(parent)@,
                closed@,
                old(open)@,
                ni as int,
                cur_idx,
                tentative,
                node,
                n,
                start,
                goal,
            );
        }
        open.push(node);
    }
}

/// Removing one frontier entry by swap keeps every other discovered,
/// unexpanded cell represented.
proof fn lemma_pop_repair(
    gs: Seq<i64>,
    cl: Seq<bool>,
    open0: Seq<AStarNode>,
    open1: Seq<AStarNode>,
    best: int,
)
    requires
        open_inv(gs, cl, open0),
        0 <= best < open0.len(),
        open1 == open0.update(best, open0.last()).drop_last(),
    ensures
        open_entries_ok(gs, open1),
        open_covers(gs, cl, open1, idx_of(open0[best].coord)),
        coord_valid(open0[best].coord),
        0 <= idx_of(open0[best].coord) < GRID_CELLS,
        gs[idx_of(open0[best].coord)] >= 0,
{
    reveal(open_inv);
    assert forall|k: int|
        0 <= k < open1.len() implies coord_valid((#[trigger] open1[k]).coord) && 0 <= idx_of(
        open1[k].coord,
    ) < GRID_CELLS && gs[idx_of(open1[k].coord)] >= 0 by {
        if k == best {
            assert(open1[k] == open0[open0.len() - 1]);
        } else {
            assert(open1[k] == open0[k]);
        }
    }
    let ex = idx_of(open0[best].coord);
    assert forall|x: int|
        0 <= x < GRID_CELLS && #[trigger] gs[x] >= 0 && !cl[x] && x != ex implies exists|k: int|
        0 <= k < open1.len() && idx_of((#[trigger] open1[k]).coord) == x by {
        let k0 = choose|k0: int| 0 <= k0 < open0.len() && idx_of((#[trigger] open0[k0]).coord) == x;
        assert(k0 != best);
        if k0 == open0.len() - 1 {
            assert(best < open0.len() - 1);
            assert(open1[best] == open0[k0]);
            assert(idx_of(open1[best].coord) == x);
        } else {
            assert(open1[k0] == open0[k0]);
            assert(idx_of(open1[k0].coord) == x);
        }
    }
}

/// A stale frontier entry can simply be dropped: its cell is expanded.
proof fn lemma_stale_pop(gs: Seq<i64>, cl: Seq<bool>, open1: Seq<AStarNode>, ex: int)
    requires
        open_entries_ok(gs, open1),
        open_covers(gs, cl, open1, ex),
        0 <= ex < GRID_CELLS,
        cl[ex],
    ensures
        open_inv(gs, cl, open1),
{
    reveal(open_inv);
}

/// Marking an unexpanded discovered cell closed preserves the search
/// state, restores the full frontier invariant, and leaves headroom for
/// the g-scores of its neighbours.
proof fn lemma_close_post(
    grid: NavigationGrid,
    gs: Seq<i64>,
    par: Seq<usize>,
    cl0: Seq<bool>,
    open1: Seq<AStarNode>,
    ci: int,
    start: GridCoord,
    goal: GridCoord,
)
    requires
        search_inv(grid, gs, par, cl0, start, goal),
        open_entries_ok(gs, open1),
        open_covers(gs, cl0, open1, ci),
        0 <= ci < GRID_CELLS,
        !cl0[ci],
        gs[ci] >= 0,
        coord_of(ci) != goal,
    ensures
        search_inv(grid, gs, par, cl0.update(ci, true), start, goal),
        open_inv(gs, cl0.update(ci, true), open1),
        gs[ci] + 1 + unclosed(cl0.update(ci, true)) <= GRID_CELLS,
{
    reveal(search_inv);
    reveal(open_inv);
    let cl1 = cl0.update(ci, true);
    lemma_unclosed_update(cl0, ci);
    assert(ci != idx_of(goal)) by {
        if ci == idx_of(goal) {
            lemma_idx_bij(goal);
        }
    }
    assert forall|x: int|
        0 <= x < GRID_CELLS && #[trigger] gs[x] >= 0 implies gs[x] + unclosed(cl1)
        <= GRID_CELLS by {}
    assert forall|x: int|
        0 <= x < GRID_CELLS && #[trigger] gs[x] >= 0 && !cl1[x] && x != -1 implies exists|k: int|
        0 <= k < open1.len() && idx_of((#[trigger] open1[k]).coord) == x by {
        assert(x != ci);
        assert(!cl0[x]);
    }
}

/// Once the four neighbours of the newly expanded cell are discovered,
/// every expanded cell again has all its walkable neighbours discovered.
proof fn lemma_neighbors_done_restore(
    grid: NavigationGrid,
    gs_old: Seq<i64>,
    gs_new: Seq<i64>,
    cl_old: Seq<bool>,
    cl_new: Seq<bool>,
    ci: int,
    cur: GridCoord,
    n1: GridCoord,
    n2: GridCoord,
    n3: GridCoord,
    n4: GridCoord,
)
    requires
        neighbors_done(grid, gs_old, cl_old),
        gs_old.len() == GRID_CELLS,
        gs_new.len() == GRID_CELLS,
        cl_old.len() == GRID_CELLS,
        cl_new == cl_old.update(ci, true),
        0 <= ci < GRID_CELLS,
        cur == coord_of(ci),
        coord_valid(cur),
        n1 == (GridCoord { i: (cur.i - 1) as i32, j: cur.j }),
        n2 == (GridCoord { i: (cur.i + 1) as i32, j: cur.j }),
        n3 == (GridCoord { i: cur.i, j: (cur.j - 1) as i32 }),
        n4 == (GridCoord { i: cur.i, j: (cur.j + 1) as i32 }),
        grid.walkable_spec(n1) ==> gs_new[idx_of(n1)] >= 0,
        grid.walkable_spec(n2) ==> gs_new[idx_of(n2)] >= 0,
        grid.walkable_spec(n3) ==> gs_new[idx_of(n3)] >= 0,
        grid.walkable_spec(n4) ==> gs_new[idx_of(n4)] >= 0,
        forall|x: int| 0 <= x < GRID_CELLS && gs_old[x] >= 0 ==> gs_new[x] >= 0,
    ensures
        neighbors_done(grid, gs_new, cl_new),
{
    reveal(neighbors_done);
    assert forall|x: int, y: int|
        #![trigger cl_new[x], cells_adjacent(coord_of(x), coord_of(y))]
        0 <= x < GRID_CELLS && cl_new[x] && 0 <= y < GRID_CELLS && cells_adjacent(
            coord_of(x),
            coord_of(y),
        ) && grid.walkable_spec(coord_of(y)) implies gs_new[y] >= 0 by {
        if x == ci {
            let cy = coord_of(y);
            lemma_coord_bij(y);
            assert(cy == n1 || cy == n2 || cy == n3 || cy == n4) by {
                assert(abs_spec(cur.i - cy.i) + abs_spec(cur.j - cy.j) == 1);
            }
            assert(gs_new[idx_of(cy)] >= 0);
        } else {
            assert(cl_old[x]);
            assert(gs_old[y] >= 0);
        }
    }
}

/// Expands one frontier cell: marks it closed and offers its four
/// neighbours to the search.
fn expand_cell(
    grid: &NavigationGrid,
    g_score: &mut Vec<i64>,
    parent: &mut Vec<usize>,
    closed: &mut Vec<bool>,
    open: &mut Vec<AStarNode>,
    ci: usize,
    cur: GridCoord,
    start: GridCoord,
    goal: GridCoord,
)
    requires
        search_inv(*grid, old(g_score)@, old(parent)@, old(closed)@, start, goal),
        neighbors_done(*grid, old(g_score)@, old(closed)@),
        open_entries_ok(old(g_score)@, old(open)@),
        open_covers(old(g_score)@, old(closed)@, old(open)@, ci as int),
        ci < GRID_CELLS,
        ci as int == idx_of(cur),
        coord_of(ci as int) == cur,
        coord_valid(cur),
        cur != goal,
        !old(closed)@[ci as int],
        old(g_score)@[ci as int] >= 0,
        old(g_score)@.len() == GRID_CELLS,
        old(parent)@.len() == GRID_CELLS,
        old(closed)@.len() == GRID_CELLS,
    ensures
        search_inv(*grid, final (g_score)@, final (parent)@, final (closed)@, start, goal),
        neighbors_done(*grid, final (g_score)@, final (closed)@),
        open_inv(final (g_score)@, final (closed)@, final (open)@),
        unclosed(final (closed)@) + 1 == unclosed(old(closed)@),
        final (g_score)@.len() == GRID_CELLS,
        final (parent)@.len() == GRID_CELLS,
        final (closed)@.len() == GRID_CELLS,
{
    proof {
        lemma_close_post(
            *grid,
            g_score@,
            parent@,
            closed@,
            open@,
            ci as int,
            start,
            goal,
        );
        lemma_unclosed_update(closed@, ci as int);
    }
    let ghost gs_before = g_score@;
    let ghost cl_before = closed@;
    closed[ci] = true;
    let g_cur = g_score[ci];
    let n1 = GridCoord { i: cur.i - 1, j: cur.j };
    let n2 = GridCoord { i: cur.i + 1, j: cur.j };
    let n3 = GridCoord { i: cur.i, j: cur.j - 1 };
    let n4 = GridCoord { i: cur.i, j: cur.j + 1 };
    relax(grid, g_score, parent, closed, open, ci, g_cur, n1, start, goal);
    relax(grid, g_score, parent, closed, open, ci, g_cur, n2, start, goal);
    relax(grid, g_score, parent, closed, open, ci, g_cur, n3, start, goal);
    relax(grid, g_score, parent, closed, open, ci, g_cur, n4, start, goal);
    proof {
        lemma_neighbors_done_restore(
            *grid,
            gs_before,
            g_score@,
            cl_before,
            closed@,
            ci as int,
            cur,
            n1,
            n2,
            n3,
            n4,
        );
    }
}

/// On a path every cell is expanded once the start is, given that expansion
/// discovered all neighbours and everything discovered was expanded; so the
/// goal of a walkable path is expanded.
proof fn lemma_path_reaches(
    grid: NavigationGrid,
    gs: Seq<i64>,
    cl: Seq<bool>,
    p: Seq<GridCoord>,
    start: GridCoord,
    goal: GridCoord,
)
    requires
        gs.len() == GRID_CELLS,
        cl.len() == GRID_CELLS,
        cell_path(grid, p, start, goal),
        grid.walkable_spec(start),
        0 <= idx_of(start) < GRID_CELLS,
        cl[idx_of(start)],
        neighbors_done(grid, gs, cl),
        forall|x: int| 0 <= x < GRID_CELLS && #[trigger] gs[x] >= 0 ==> cl[x],
    ensures
        0 <= idx_of(goal) < GRID_CELLS && cl[idx_of(goal)],
    decreases p.len(),
{
    reveal(neighbors_done);
    lemma_idx_bij(start);
    if p.len() == 1 {
        assert(p[0] == start && p.last() == goal);
        lemma_idx_bij(goal);
    } else {
        let next = p[1];
        assert(cells_adjacent(p[0], p[1]));
        assert(grid.walkable_spec(next));
        lemma_idx_bij(next);
        assert(gs[idx_of(next)] >= 0) by {
            assert(cl[idx_of(start)]);
            assert(coord_of(idx_of(start)) == start);
            assert(coord_of(idx_of(next)) == next);
            assert(cells_adjacent(coord_of(idx_of(start)), coord_of(idx_of(next))));
        }
        assert(cl[idx_of(next)]);
        let p2 = p.subrange(1, p.len() as int);
        assert(cell_path(grid, p2, next, goal)) by {
            assert(p2[0] == p[1]);
            assert(p2.last() == p.last());
            assert(forall|k: int| 0 <= k < p2.len() ==> #[trigger] p2[k] == p[k + 1]);
        }
        lemma_path_reaches(grid, gs, cl, p2, next, goal);
    }
}

/// With an empty frontier, no walkable path from start to goal exists.
proof fn lemma_no_path_at_exit(
    grid: NavigationGrid,
    gs: Seq<i64>,
    par: Seq<usize>,
    cl: Seq<bool>,
    open: Seq<AStarNode>,
    start: GridCoord,
    goal: GridCoord,
)
    requires
        search_inv(grid, gs, par, cl, start, goal),
        neighbors_done(grid, gs, cl),
        open_inv(gs, cl, open),
        open.len() == 0,
    ensures
        forall|p: Seq<GridCoord>| !cell_path(grid, p, start, goal),
{
    reveal(search_inv);
    reveal(open_inv);
    assert forall|x: int| 0 <= x < GRID_CELLS && #[trigger] gs[x] >= 0 implies cl[x] by {
        if !cl[x] {
            let k = choose|k: int| 0 <= k < open.len() && idx_of((#[trigger] open[k]).coord) == x;
        }
    }
    assert(cl[idx_of(start)]);
    assert forall|p: Seq<GridCoord>| !cell_path(grid, p, start, goal) by {
        if cell_path(grid, p, start, goal) {
            lemma_path_reaches(grid, gs, cl, p, start, goal);
            assert(!cl[idx_of(goal)]);
            assert(false);
        }
    }
}

impl NavigationGrid {
    /// A* search over 4-directional neighbours with uniform edge cost and a
    /// squared-Euclidean heuristic; ties in the frontier break toward the
    /// earliest entry. Returns a walkable adjacent cell path exactly when
    /// one exists.
    fn astar(&self, start: GridCoord, goal: GridCoord) -> (r: Option<Vec<GridCoord>>)
        requires
            self.wf(),
            self.walkable_spec(start),
            self.walkable_spec(goal),
            start != goal,
        ensures
            r matches Some(p) ==> cell_path(*self, p@, start, goal),
            r is None ==> forall|p: Seq<GridCoord>| !cell_path(*self, p, start, goal),
    {
        proof {
            lemma_idx_bij(start);
            lemma_idx_bij(goal);
        }
        let si = (start.i as usize) * (GRID_H as usize) + (start.j as usize);

        let mut g_score: Vec<i64> = Vec::new();
        let mut parent: Vec<usize> = Vec::new();
        let mut closed: Vec<bool> = Vec::new();
        let mut t: usize = 0;
        while t < GRID_CELLS
            invariant
                t <= GRID_CELLS,
                g_score@.len() == t,
                parent@.len() == t,
                closed@.len() == t,
                forall|x: int| 0 <= x < t ==> g_score@[x] == -1,
                forall|x: int| 0 <= x < t ==> !closed@[x],
            decreases GRID_CELLS - t,
        {
            g_score.push(-1);
            parent.push(0);
            closed.push(false);
            t = t + 1;
        }
        g_score[si] = 0;
        let h0 = start.distance_squared(&goal);
        let mut open: Vec<AStarNode> = Vec::new();
        open.push(AStarNode { coord: start, f_score: h0 as i64 });

        proof {
            reveal(search_inv);
            reveal(neighbors_done);
            reveal(open_inv);
            lemma_unclosed_le(closed@);
            assert forall|x: int|
                0 <= x < GRID_CELLS && #[trigger] g_score@[x] >= 0 && !closed@[x] && x
                    != -1 implies exists|k: int|
                0 <= k < open@.len() && idx_of((#[trigger] open@[k]).coord) == x by {
                assert(x == si as int);
                assert(idx_of(open@[0].coord) == x);
            }
            assert(search_inv(*self, g_score@, parent@, closed@, start, goal));
            assert(neighbors_done(*self, g_score@, closed@));
            assert(open_inv(g_score@, closed@, open@));
        }

        while open.len() > 0
            invariant
                search_inv(*self, g_score@, parent@, closed@, start, goal),
                neighbors_done(*self, g_score@, closed@),
                open_inv(g_score@, closed@, open@),
                si as int == idx_of(start),
                g_score@.len() == GRID_CELLS,
                parent@.len() == GRID_CELLS,
                closed@.len() == GRID_CELLS,
            decreases unclosed(closed@), open@.len(),
        {
            // Take the frontier entry with the lowest f-score; the earliest
            // such entry wins ties.
            let mut best: usize = 0;
            let mut k: usize = 1;
            while k < open.len()
                invariant
                    open@.len() > 0,
                    best < open@.len(),
                    k <= open@.len(),
                decreases open@.len() - k,
            {
                if open[k].f_score < open[best].f_score {
                    best = k;
                }
                k = k + 1;
            }
            let ghost open0 = open@;
            let node = open.swap_remove(best);
            let cur = node.coord;
            proof {
                lemma_pop_repair(g_score@, closed@, open0, open@, best as int);
                lemma_idx_bij(cur);
            }
            if cur == goal {
                let path = reconstruct_path(self, &g_score, &parent, &closed, start, goal);
                return Some(path);
            }
            let ci = (cur.i as usize) * (GRID_H as usize) + (cur.j as usize);
            if !closed[ci] {
                expand_cell(
                    self,
                    &mut g_score,
                    &mut parent,
                    &mut closed,
                    &mut open,
                    ci,
                    cur,
                    start,
                    goal,
                );
            } else {
                proof {
                    lemma_stale_pop(g_score@, closed@, open@, ci as int);
                }
            }
        }
        proof {
            lemma_no_path_at_exit(*self, g_score@, parent@, closed@, open@, start, goal);
        }
        None
    }
}

/// Rebuilds the cell path from the parent chain, from start to goal.
fn reconstruct_path(
    grid: &NavigationGrid,
    g_score: &Vec<i64>,
    parent: &Vec<usize>,
    closed: &Vec<bool>,
    start: GridCoord,
    goal: GridCoord,
) -> (r: Vec<GridCoord>)
    requires
        search_inv(*grid, g_score@, parent@, closed@, start, goal),
        0 <= idx_of(goal) < GRID_CELLS,
        g_score@[idx_of(goal)] >= 0,
    ensures
        cell_path(*grid, r@, start, goal),
{
    proof {
        reveal(search_inv);
        lemma_idx_bij(start);
        lemma_idx_bij(goal);
    }
    let si = (start.i as usize) * (GRID_H as usize) + (start.j as usize);
    let mut rev: Vec<GridCoord> = Vec::new();
    rev.push(goal);
    let mut ci: usize = (goal.i as usize) * (GRID_H as usize) + (goal.j as usize);
    while ci != si
        invariant
            search_inv(*grid, g_score@, parent@, closed@, start, goal),
            si as int == idx_of(start),
            coord_of(si as int) == start,
            ci < GRID_CELLS,
            g_score@[ci as int] >= 0,
            rev@.len() >= 1,
            rev@[0] == goal,
            rev@.last() == coord_of(ci as int),
            forall|k: int| 0 <= k < rev@.len() ==> grid.walkable_spec(#[trigger] rev@[k]),
            forall|k: int|
                0 <= k < rev@.len() - 1 ==> cells_adjacent(#[trigger] rev@[k], rev@[k + 1]),
        decreases g_score@[ci as int],
    {
        proof {
            reveal(search_inv);
        }
        let p = parent[ci];
        let c = GridCoord { i: (p / (GRID_H as usize)) as i32, j: (p % (GRID_H as usize)) as i32 };
        proof {
            lemma_coord_bij(p as int);
            assert(c == coord_of(p as int));
        }
        rev.push(c);
        ci = p;
    }
    proof {
        reveal(search_inv);
        assert(rev@.last() == start);
    }
    let n = rev.len();
    let mut path: Vec<GridCoord> = Vec::new();
    let mut k: usize = n;
    while k > 0
        invariant
            k <= n,
            n == rev@.len(),
            n >= 1,
            path@.len() == n - k,
            forall|a: int| 0 <= a < path@.len() ==> #[trigger] path@[a] == rev@[n - 1 - a],
            rev@[0] == goal,
            rev@.last() == start,
            forall|t2: int| 0 <= t2 < rev@.len() ==> grid.walkable_spec(#[trigger] rev@[t2]),
            forall|t2: int|
                0 <= t2 < rev@.len() - 1 ==> cells_adjacent(#[trigger] rev@[t2], rev@[t2 + 1]),
        decreases k,
    {
        k = k - 1;
        let c = rev[k];
        path.push(c);
    }
    proof {
        assert(path@[0] == rev@[n - 1]);
        assert(path@.last() == rev@[0]);
        assert forall|a: int| 0 <= a < path@.len() - 1 implies cells_adjacent(
            #[trigger] path@[a],
            path@[a + 1],
        ) by {
            assert(path@[a] == rev@[n - 1 - a]);
            assert(path@[a + 1] == rev@[n - 1 - (a + 1)]);
            assert(cells_adjacent(rev@[n - 2 - a], rev@[n - 1 - a]));
        }
    }
    path
}

/// Quotient bound: scaling by a ratio at most one does not grow a value.
proof fn lemma_scale_le(a: int, num: int, den: int)
    requires
        a >= 0,
        0 <= num <= den,
        den > 0,
    ensures
        0 <= (a * num) / den <= a,
{
    assert(a * num <= a * den) by (nonlinear_arith)
        requires
            a >= 0,
            num <= den,
    ;
    assert(a * num >= 0) by (nonlinear_arith)
        requires
            a >= 0,
            num >= 0,
    ;
    vstd::arithmetic::div_mod::lemma_div_is_ordered(a * num, a * den, den);
    vstd::arithmetic::div_mod::lemma_div_multiples_vanish(a, den);
    assert(a * den == den * a) by (nonlinear_arith);
    vstd::arithmetic::div_mod::lemma_div_is_ordered(0, a * num, den);
}

/// `d` is the integer square root of `n`.
pub open spec fn is_isqrt(d: int, n: int) -> bool {
    0 <= d && d * d <= n < (d + 1) * (d + 1)
}

/// The integer square root of `n`, as a value: the witness of `is_isqrt`,
/// which is unique.
pub open spec fn sqrt_floor(n: int) -> int {
    choose|d: int| is_isqrt(d, n)
}

/// The integer square root is unique.
pub proof fn lemma_isqrt_unique(d1: int, d2: int, n: int)
    requires
        is_isqrt(d1, n),
        is_isqrt(d2, n),
    ensures
        d1 == d2,
{
    if d1 < d2 {
        assert((d1 + 1) * (d1 + 1) <= d2 * d2) by (nonlinear_arith)
            requires
                0 <= d1 + 1 <= d2,
        ;
    }
    if d2 < d1 {
        assert((d2 + 1) * (d2 + 1) <= d1 * d1) by (nonlinear_arith)
            requires
                0 <= d2 + 1 <= d1,
        ;
    }
}

/// Where a waypoint lands when pushed toward `closest`, stopping `margin`
/// short: scaled along the offset by the distance less the margin, or
/// unmoved when already within the margin.
pub open spec fn push_target(current: Position, closest: Position, margin: int) -> Position {
    let d = sqrt_floor(dist_sq(current, closest));
    if d > margin {
        Position {
            x: (current.x + crate::num::scale_spec(closest.x - current.x, d - margin, d)) as i64,
            y: (current.y + crate::num::scale_spec(closest.y - current.y, d - margin, d)) as i64,
        }
    } else {
        current
    }
}

/// Moves `current` toward `closest`, stopping `margin` short of it; a point
/// already within `margin` stays put. The result lies between the two
/// points on each axis.
fn push_toward(current: Position, closest: Position, margin: i64) -> (r: Position)
    requires
        in_coord_range(current),
        in_coord_range(closest),
        0 < margin <= 1000000,
    ensures
        r == push_target(current, closest, margin as int),
        current.x <= closest.x ==> current.x <= r.x <= closest.x,
        closest.x <= current.x ==> closest.x <= r.x <= current.x,
        current.y <= closest.y ==> current.y <= r.y <= closest.y,
        closest.y <= current.y ==> closest.y <= r.y <= current.y,
{
    let sq = current.distance_sq_to(&closest);
    let d = crate::num::isqrt(sq as u64);
    proof {
        assert((d as int) * (d as int) <= sq as int);
        assert(d as int <= 3000000000) by (nonlinear_arith)
            requires
                (d as int) * (d as int) <= 8000000000000000000 as int,
                d as int >= 0,
        ;
    }
    let di = d as i64;
    if di > margin {
        let dx = closest.x - current.x;
        let dy = closest.y - current.y;
        proof {
            lemma_scale_le(crate::num::abs_spec(dx as int), di - margin, di as int);
            lemma_scale_le(crate::num::abs_spec(dy as int), di - margin, di as int);
        }
        let sx = crate::num::scale64(dx, di - margin, di);
        let sy = crate::num::scale64(dy, di - margin, di);
        let r = Position { x: current.x + sx, y: current.y + sy };
        proof {
            assert(is_isqrt(di as int, dist_sq(current, closest)));
            lemma_isqrt_unique(
                sqrt_floor(dist_sq(current, closest)),
                di as int,
                dist_sq(current, closest),
            );
        }
        r
    } else {
        proof {
            assert(is_isqrt(di as int, dist_sq(current, closest)));
            lemma_isqrt_unique(
                sqrt_floor(dist_sq(current, closest)),
                di as int,
                dist_sq(current, closest),
            );
        }
        current
    }
}

/// The point of the rectangle closest to `p`.
fn closest_point_on_rect(p: Position, rect_x: i64, rect_y: i64, rect_w: i64, rect_h: i64) -> (r:
    Position)
    requires
        crate::collision::in_geom_range(rect_x as int),
        crate::collision::in_geom_range(rect_y as int),
        crate::collision::in_geom_range(rect_x + rect_w),
        crate::collision::in_geom_range(rect_y + rect_h),
    ensures
        r.x == crate::collision::clamp_spec(p.x as int, rect_x as int, rect_x + rect_w),
        r.y == crate::collision::clamp_spec(p.y as int, rect_y as int, rect_y + rect_h),
{
    let hi_x = rect_x + rect_w;
    let hi_y = rect_y + rect_h;
    let nx = if p.x < rect_x {
        rect_x
    } else if p.x > hi_x {
        hi_x
    } else {
        p.x
    };
    let ny = if p.y < rect_y {
        rect_y
    } else if p.y > hi_y {
        hi_y
    } else {
        p.y
    };
    Position { x: nx, y: ny }
}

/// Every point of the sequence has coordinates within `COORD_LIMIT`.
pub open spec fn points_in_range(p: Seq<Position>) -> bool {
    forall|k: int| 0 <= k < p.len() ==> in_coord_range(#[trigger] p[k])
}

/// The point occurs somewhere in the sequence.
pub open spec fn is_point_of(p: Position, s: Seq<Position>) -> bool {
    exists|b: int| 0 <= b < s.len() && #[trigger] s[b] == p
}

/// The first wall, from index `w` on, whose padded inflation blocks the
/// segment from `a` to `b`.
pub open spec fn first_blocking_from(walls: Seq<Wall>, a: Position, b: Position, w: int) -> Option<
    int,
>
    decreases walls.len() - w when 0 <= w <= walls.len()
{
    if w >= walls.len() {
        None
    } else if seg_rect_intersect(
        a,
        b,
        walls[w].x - PATH_WALL_PADDING,
        walls[w].y - PATH_WALL_PADDING,
        walls[w].width + 2 * PATH_WALL_PADDING,
        walls[w].height + 2 * PATH_WALL_PADDING,
    ) {
        Some(w)
    } else {
        first_blocking_from(walls, a, b, w + 1)
    }
}

/// Where the wall-hugging pass sends one interior waypoint, given its
/// already-adjusted predecessor and its (original) successor: toward the
/// closest point on the first blocking wall's padded boundary, a safety
/// margin short, kept only when padded sight of both neighbours survives;
/// otherwise the waypoint stays.
pub open spec fn hug_one(walls: Seq<Wall>, prev: Position, current: Position, next: Position) -> Position {
    match first_blocking_from(walls, prev, next, 0) {
        None => current,
        Some(w) => {
            let ix = walls[w].x - PATH_WALL_PADDING;
            let iy = walls[w].y - PATH_WALL_PADDING;
            let iw = walls[w].width + 2 * PATH_WALL_PADDING;
            let ih = walls[w].height + 2 * PATH_WALL_PADDING;
            let closest = Position {
                x: crate::collision::clamp_spec(current.x as int, ix as int, ix + iw) as i64,
                y: crate::collision::clamp_spec(current.y as int, iy as int, iy + ih) as i64,
            };
            let hugged = push_target(current, closest, PATH_SAFETY_MARGIN as int);
            if hugged != current && los_pad(prev, hugged, walls, PATH_WALL_PADDING as int)
                && los_pad(hugged, next, walls, PATH_WALL_PADDING as int) {
                hugged
            } else {
                current
            }
        },
    }
}

/// The path after the wall-hugging pass has processed the interior
/// waypoints below `i`, in order; each step reads the buffer as it then
/// stands: the adjusted predecessor and the yet-untouched successor.
pub open spec fn hug_upto(walls: Seq<Wall>, path: Seq<Position>, i: int) -> Seq<Position>
    decreases i when 1 <= i
{
    if i <= 1 {
        path
    } else {
        let s = hug_upto(walls, path, i - 1);
        if 1 <= i - 1 < s.len() - 1 {
            s.update(i - 1, hug_one(walls, s[i - 2], s[i - 1], s[i]))
        } else {
            s
        }
    }
}

/// The greedy visibility scan of string pulling: from anchor `i`, probing
/// waypoint `t` on, the furthest input index whose whole prefix back to
/// `i + 2` keeps padded line of sight from the anchor; the scan stops at
/// the first loss of sight.
pub open spec fn furthest_visible_from(walls: Seq<Wall>, path: Seq<Position>, i: int, t: int) -> int
    decreases path.len() - t when i + 2 <= t <= path.len()
{
    if t >= path.len() || !los_pad(path[i], path[t], walls, PATH_WALL_PADDING as int) {
        t - 1
    } else {
        furthest_visible_from(walls, path, i, t + 1)
    }
}

/// The next anchor string pulling jumps to from anchor `i`: at least the
/// immediate successor, and the furthest waypoint the greedy scan reaches.
pub open spec fn next_anchor(walls: Seq<Wall>, path: Seq<Position>, i: int) -> int {
    furthest_visible_from(walls, path, i, i + 2)
}

/// The waypoints string pulling emits after anchor `i`: the next anchor,
/// then the rest of the chain from it.
pub open spec fn pull_rest(walls: Seq<Wall>, path: Seq<Position>, i: int) -> Seq<Position>
    decreases path.len() - i when 0 <= i < path.len() && path.len() >= 2
{
    if i >= path.len() - 1 {
        Seq::empty()
    } else {
        let j = next_anchor(walls, path, i);
        if i < j <= path.len() - 1 {
            seq![path[j]] + pull_rest(walls, path, j)
        } else {
            // The greedy scan always lands in this range; the guard only
            // serves the termination measure.
            Seq::empty()
        }
    }
}

/// A scan whose probes so far all kept sight gives the same answer
/// whether started at the beginning or at the current probe.
proof fn lemma_visible_scan(walls: Seq<Wall>, path: Seq<Position>, i: int, t: int)
    requires
        0 <= i,
        i + 2 <= t <= path.len(),
        forall|u: int|
            i + 2 <= u < t ==> los_pad(path[i], #[trigger] path[u], walls, PATH_WALL_PADDING as int),
    ensures
        furthest_visible_from(walls, path, i, i + 2) == furthest_visible_from(walls, path, i, t),
    decreases t - i,
{
    if t > i + 2 {
        lemma_visible_scan(walls, path, i, t - 1);
        assert(los_pad(path[i], path[t - 1], walls, PATH_WALL_PADDING as int));
    }
}

/// The next anchor lies strictly beyond `i` and within the path.
proof fn lemma_next_anchor_range(walls: Seq<Wall>, path: Seq<Position>, i: int, t: int)
    requires
        0 <= i,
        i + 2 <= t <= path.len(),
        path.len() >= 2,
        i < path.len() - 1,
    ensures
        i + 1 <= furthest_visible_from(walls, path, i, t) <= path.len() - 1,
    decreases path.len() - t,
{
    if t >= path.len() || !los_pad(path[i], path[t], walls, PATH_WALL_PADDING as int) {
    } else {
        lemma_next_anchor_range(walls, path, i, t + 1);
    }
}

impl NavigationGrid {
    /// String pulling: greedily skips to the furthest waypoint still in
    /// unobstructed padded line-of-sight from the current anchor. The
    /// result is exactly the anchor chain of `pull_rest`: it never
    /// increases the waypoint count and never removes the first or last
    /// waypoint; paths of length two or fewer are returned unchanged.
    pub fn string_pull_path(&self, path: Vec<Position>) -> (r: Vec<Position>)
        requires
            self.wf(),
            points_in_range(path@),
        ensures
            path@.len() <= 2 ==> r@ == path@,
            path@.len() > 2 ==> r@ == seq![path@[0]] + pull_rest(
                self.grid_walls(),
                path@,
                0,
            ),
            r@.len() <= path@.len(),
            path@.len() > 0 ==> r@.len() >= 1 && r@[0] == path@[0] && r@.last() == path@.last(),
            forall|a: int| 0 <= a < r@.len() ==> is_point_of(#[trigger] r@[a], path@),
            points_in_range(r@),
    {
        if path.len() <= 2 {
            proof {
                assert forall|a: int| 0 <= a < path@.len() implies is_point_of(
                    #[trigger] path@[a],
                    path@,
                ) by {
                    assert(path@[a] == path@[a]);
                }
            }
            return path;
        }
        let n = path.len();
        let mut optimized: Vec<Position> = Vec::new();
        let first = path[0];
        optimized.push(first);
        let mut current_idx: usize = 0;
        while current_idx < n - 1
            invariant
                self.wf(),
                points_in_range(path@),
                n == path@.len(),
                n > 2,
                current_idx < n,
                optimized@.len() >= 1,
                optimized@.len() <= current_idx + 1,
                optimized@[0] == path@[0],
                optimized@.last() == path@[current_idx as int],
                optimized@ + pull_rest(self.grid_walls(), path@, current_idx as int) == seq![
                    path@[0],
                ] + pull_rest(self.grid_walls(), path@, 0),
                forall|a: int|
                    0 <= a < optimized@.len() ==> is_point_of(#[trigger] optimized@[a], path@),
            decreases n - current_idx,
        {
            let mut furthest: usize = current_idx + 1;
            let mut t: usize = current_idx + 2;
            loop
                invariant
                    self.wf(),
                    points_in_range(path@),
                    n == path@.len(),
                    n > 2,
                    current_idx as int + 2 <= t as int <= n,
                    furthest == t - 1,
                    current_idx + 1 <= furthest < n,
                    forall|u: int|
                        current_idx + 2 <= u < t ==> los_pad(
                            path@[current_idx as int],
                            #[trigger] path@[u],
                            self.grid_walls(),
                            PATH_WALL_PADDING as int,
                        ),
                ensures
                    current_idx + 1 <= furthest < n,
                    furthest as int == next_anchor(self.grid_walls(), path@, current_idx as int),
                decreases n - t,
            {
                if t >= n {
                    proof {
                        lemma_visible_scan(self.grid_walls(), path@, current_idx as int, n as int);
                    }
                    break ;
                }
                let anchor = path[current_idx];
                let probe = path[t];
                if has_line_of_sight_with_padding(anchor, probe, &self.walls, PATH_WALL_PADDING) {
                    furthest = t;
                    t = t + 1;
                } else {
                    proof {
                        lemma_visible_scan(
                            self.grid_walls(),
                            path@,
                            current_idx as int,
                            t as int,
                        );
                        assert(furthest_visible_from(
                            self.grid_walls(),
                            path@,
                            current_idx as int,
                            t as int,
                        ) == t - 1);
                    }
                    break ;
                }
            }
            let ghost prev_idx = current_idx as int;
            current_idx = furthest;
            let w = path[current_idx];
            optimized.push(w);
            proof {
                assert(pull_rest(self.grid_walls(), path@, prev_idx) == seq![
                    path@[current_idx as int],
                ] + pull_rest(self.grid_walls(), path@, current_idx as int));
                assert(optimized@ + pull_rest(self.grid_walls(), path@, current_idx as int)
                    =~= seq![path@[0]] + pull_rest(self.grid_walls(), path@, 0));
                assert(optimized@.last() == path@[current_idx as int]);
                assert forall|a: int| 0 <= a < optimized@.len() implies is_point_of(
                    #[trigger] optimized@[a],
                    path@,
                ) by {
                    if a == optimized@.len() - 1 {
                        assert(path@[current_idx as int] == optimized@[a]);
                    }
                }
            }
        }
        proof {
            assert(current_idx == n - 1);
            assert(pull_rest(self.grid_walls(), path@, current_idx as int) == Seq::<
                Position,
            >::empty());
            assert(optimized@ =~= seq![path@[0]] + pull_rest(self.grid_walls(), path@, 0));
            assert(optimized@.last() == path@.last());
        }
        optimized
    }

    /// Wall-hugging adjustment: processes the interior waypoints in order,
    /// sending each exactly where `hug_one` says — toward the closest
    /// point on the first padded wall blocking the segment from its
    /// (already adjusted) predecessor to its successor, a safety margin
    /// short, and only when padded line of sight to both neighbours
    /// survives; otherwise the waypoint stays. First and last waypoints
    /// never move.
    pub fn optimize_waypoints_toward_walls(&self, path: Vec<Position>) -> (r: Vec<Position>)
        requires
            self.wf(),
            points_in_range(path@),
        ensures
            r@.len() == path@.len(),
            path@.len() > 0 ==> r@[0] == path@[0] && r@.last() == path@.last(),
            path@.len() < 3 ==> r@ == path@,
            path@.len() >= 3 ==> r@ == hug_upto(self.grid_walls(), path@, path@.len() - 1),
            forall|k: int|
                1 <= k < path@.len() - 1 ==> (#[trigger] r@[k] == path@[k] || (los_pad(
                    r@[k - 1],
                    r@[k],
                    self.grid_walls(),
                    PATH_WALL_PADDING as int,
                ) && los_pad(r@[k], path@[k + 1], self.grid_walls(), PATH_WALL_PADDING as int))),
            points_in_range(r@),
    {
        let mut path = path;
        let n = path.len();
        if n < 3 {
            return path;
        }
        let ghost orig = path@;
        let mut i: usize = 1;
        while i < n - 1
            invariant
                self.wf(),
                n == path@.len(),
                n == orig.len(),
                n >= 3,
                1 <= i <= n - 1,
                points_in_range(path@),
                points_in_range(orig),
                path@[0] == orig[0],
                path@.last() == orig.last(),
                path@ == hug_upto(self.grid_walls(), orig, i as int),
                forall|k: int| i <= k < n ==> #[trigger] path@[k] == orig[k],
                forall|k: int|
                    1 <= k < i ==> (#[trigger] path@[k] == orig[k] || (los_pad(
                        path@[k - 1],
                        path@[k],
                        self.grid_walls(),
                        PATH_WALL_PADDING as int,
                    ) && los_pad(
                        path@[k],
                        orig[k + 1],
                        self.grid_walls(),
                        PATH_WALL_PADDING as int,
                    ))),
            decreases n - i,
        {
            let ghost before = path@;
            let prev = path[i - 1];
            let current = path[i];
            let next = path[i + 1];
            let blocking = self.find_blocking_wall(prev, next);
            if let Some(w) = blocking {
                let wall = self.walls[w];
                let inflated_x = wall.x - PATH_WALL_PADDING;
                let inflated_y = wall.y - PATH_WALL_PADDING;
                let inflated_w = wall.width + 2 * PATH_WALL_PADDING;
                let inflated_h = wall.height + 2 * PATH_WALL_PADDING;
                let closest = closest_point_on_rect(
                    current,
                    inflated_x,
                    inflated_y,
                    inflated_w,
                    inflated_h,
                );
                let hugged = push_toward(current, closest, PATH_SAFETY_MARGIN);
                let mut placed = current;
                if hugged.x != current.x || hugged.y != current.y {
                    let ok_prev = has_line_of_sight_with_padding(
                        prev,
                        hugged,
                        &self.walls,
                        PATH_WALL_PADDING,
                    );
                    if ok_prev {
                        let ok_next = has_line_of_sight_with_padding(
                            hugged,
                            next,
                            &self.walls,
                            PATH_WALL_PADDING,
                        );
                        if ok_next {
                            placed = hugged;
                        }
                    }
                }
                proof {
                    assert(placed == hug_one(self.grid_walls(), prev, current, next));
                }
                path[i] = placed;
            } else {
                proof {
                    assert(current == hug_one(self.grid_walls(), prev, current, next));
                }
                path[i] = current;
            }
            proof {
                assert(path@ == before.update(
                    i as int,
                    hug_one(self.grid_walls(), before[i - 1], before[i as int], before[i + 1]),
                ));
                assert(path@ == hug_upto(self.grid_walls(), orig, i + 1));
            }
            i = i + 1;
        }
        path
    }

    /// The first wall whose padded inflation blocks the segment, if any.
    fn find_blocking_wall(&self, a: Position, b: Position) -> (r: Option<usize>)
        requires
            self.wf(),
            in_coord_range(a),
            in_coord_range(b),
        ensures
            r matches Some(w) ==> w < self.grid_walls().len() && Some(w as int)
                == first_blocking_from(self.grid_walls(), a, b, 0),
            r is None ==> first_blocking_from(self.grid_walls(), a, b, 0) is None && los_pad(
                a,
                b,
                self.grid_walls(),
                PATH_WALL_PADDING as int,
            ),
    {
        let n = self.walls.len();
        let mut w: usize = 0;
        while w < n
            invariant
                self.wf(),
                in_coord_range(a),
                in_coord_range(b),
                w <= n,
                n == self.grid_walls().len(),
                forall|t: int|
                    0 <= t < w ==> !seg_rect_intersect(
                        a,
                        b,
                        (#[trigger] self.grid_walls()[t]).x - PATH_WALL_PADDING,
                        self.grid_walls()[t].y - PATH_WALL_PADDING,
                        self.grid_walls()[t].width + 2 * PATH_WALL_PADDING,
                        self.grid_walls()[t].height + 2 * PATH_WALL_PADDING,
                    ),
                first_blocking_from(self.grid_walls(), a, b, 0) == first_blocking_from(
                    self.grid_walls(),
                    a,
                    b,
                    w as int,
                ),
            decreases n - w,
        {
            let wall = self.walls[w];
            let inflated_x = wall.x - PATH_WALL_PADDING;
            let inflated_y = wall.y - PATH_WALL_PADDING;
            let inflated_w = wall.width + 2 * PATH_WALL_PADDING;
            let inflated_h = wall.height + 2 * PATH_WALL_PADDING;
            if crate::collision::line_rect_intersection(
                a,
                b,
                inflated_x,
                inflated_y,
                inflated_w,
                inflated_h,
            ) {
                proof {
                    assert(first_blocking_from(self.grid_walls(), a, b, w as int) == Some(
                        w as int,
                    ));
                }
                return Some(w);
            }
            proof {
                assert(first_blocking_from(self.grid_walls(), a, b, w as int)
                    == first_blocking_from(self.grid_walls(), a, b, w + 1));
            }
            w = w + 1;
        }
        proof {
            assert(first_blocking_from(self.grid_walls(), a, b, w as int) is None);
        }
        None
    }
}

impl NavigationGrid {
    /// Whether a path query from `start` to `goal` succeeds: both endpoint
    /// cells walkable, and the cells equal or connected by a walkable,
    /// 4-adjacent cell path.
    pub open spec fn path_query_ok(self, start: Position, goal: Position) -> bool {
        let sc = grid_from_pos_spec(start);
        let gc = grid_from_pos_spec(goal);
        &&& self.walkable_spec(sc)
        &&& self.walkable_spec(gc)
        &&& (sc == gc || exists|p: Seq<GridCoord>| cell_path(self, p, sc, gc))
    }

    /// Finds a path of world-position waypoints from `start` to `goal`.
    /// Absence of a path is a normal `None`, never a fault: it occurs
    /// exactly when an endpoint cell is blocked or no cell path connects
    /// the two cells. A found path is empty when the endpoints share a
    /// cell; otherwise it begins at the start cell's centre and ends at the
    /// goal cell's centre, after string pulling and the wall-hugging pass.
    pub fn find_path(&self, start: Position, goal: Position) -> (r: Option<Vec<Position>>)
        requires
            self.wf(),
            in_coord_range(start),
            in_coord_range(goal),
        ensures
            r is Some <==> self.path_query_ok(start, goal),
            r matches Some(p) ==> {
                let sc = grid_from_pos_spec(start);
                let gc = grid_from_pos_spec(goal);
                &&& (sc == gc ==> p@.len() == 0)
                &&& (sc != gc ==> p@.len() >= 2 && p@[0] == cell_center_spec(sc) && p@.last()
                    == cell_center_spec(gc))
                &&& points_in_range(p@)
            },
    {
        let start_coord = GridCoord::from_world_pos(start.x, start.y);
        let goal_coord = GridCoord::from_world_pos(goal.x, goal.y);
        if !self.is_walkable(&start_coord) || !self.is_walkable(&goal_coord) {
            return None;
        }
        if start_coord == goal_coord {
            let empty: Vec<Position> = Vec::new();
            return Some(empty);
        }
        match self.astar(start_coord, goal_coord) {
            None => None,
            Some(cells) => {
                let raw = cells_to_centers(&cells);
                proof {
                    assert(raw@[0] == cell_center_spec(cells@[0]));
                    assert(raw@.last() == cell_center_spec(cells@[cells@.len() - 1]));
                }
                let pulled = self.string_pull_path(raw);
                let hugged = self.optimize_waypoints_toward_walls(pulled);
                Some(hugged)
            },
        }
    }

    /// The canonical waypoint selection from a found path: the first
    /// waypoint from index `k` on whose cell differs from the start's
    /// cell, or the goal when every waypoint collapses into it.
    pub open spec fn next_from_path_from(path: Seq<Position>, start: Position, goal: Position, k: int,) -> Position
        decreases path.len() - k when 0 <= k <= path.len()
    {
        if k >= path.len() {
            goal
        } else if grid_from_pos_spec(path[k]) != grid_from_pos_spec(start) {
            path[k]
        } else {
            Self::next_from_path_from(path, start, goal, k + 1)
        }
    }

    pub open spec fn next_from_path(path: Seq<Position>, start: Position, goal: Position) -> Position {
        Self::next_from_path_from(path, start, goal, 0)
    }

    /// The next waypoint to move toward: the goal itself when both points
    /// share a cell, otherwise the canonical selection from the found
    /// path: its first waypoint lying outside the start's cell, or the
    /// goal when every waypoint collapses into it; `None` exactly when no
    /// path exists.
    pub fn get_next_waypoint(&self, start: Position, goal: Position) -> (r: Option<Position>)
        requires
            self.wf(),
            in_coord_range(start),
            in_coord_range(goal),
        ensures
            r is Some <==> self.path_query_ok(start, goal),
            grid_from_pos_spec(start) == grid_from_pos_spec(goal) && self.path_query_ok(
                start,
                goal,
            ) ==> r == Some(goal),
            r matches Some(w) ==> grid_from_pos_spec(start) != grid_from_pos_spec(goal)
                ==> exists|p: Seq<Position>|
                {
                    &&& p.len() >= 2
                    &&& p[0] == cell_center_spec(grid_from_pos_spec(start))
                    &&& p.last() == cell_center_spec(grid_from_pos_spec(goal))
                    &&& points_in_range(p)
                    &&& w == #[trigger] Self::next_from_path(p, start, goal)
                },
            r matches Some(w) ==> (w == goal || (in_coord_range(w) && grid_from_pos_spec(w)
                != grid_from_pos_spec(start))),
    {
        let path = match self.find_path(start, goal) {
            None => {
                return None;
            },
            Some(p) => p,
        };
        if path.len() == 0 {
            return Some(goal);
        }
        let start_coord = GridCoord::from_world_pos(start.x, start.y);
        let n = path.len();
        let mut k: usize = 0;
        while k < n
            invariant
                n == path@.len(),
                n >= 1,
                k <= n,
                points_in_range(path@),
                in_coord_range(start),
                in_coord_range(goal),
                self.path_query_ok(start, goal),
                grid_from_pos_spec(start) != grid_from_pos_spec(goal),
                start_coord == grid_from_pos_spec(start),
                path@.len() >= 2,
                path@[0] == cell_center_spec(grid_from_pos_spec(start)),
                path@.last() == cell_center_spec(grid_from_pos_spec(goal)),
                Self::next_from_path(path@, start, goal) == Self::next_from_path_from(
                    path@,
                    start,
                    goal,
                    k as int,
                ),
            decreases n - k,
        {
            let w = path[k];
            let wc = GridCoord::from_world_pos(w.x, w.y);
            if wc != start_coord {
                proof {
                    assert(Self::next_from_path_from(path@, start, goal, k as int)
                        == path@[k as int]);
                }
                return Some(w);
            }
            proof {
                assert(Self::next_from_path_from(path@, start, goal, k as int)
                    == Self::next_from_path_from(path@, start, goal, k + 1));
            }
            k = k + 1;
        }
        proof {
            assert(Self::next_from_path_from(path@, start, goal, n as int) == goal);
        }
        Some(goal)
    }
}

/// The cell-centre world positions of a cell path.
fn cells_to_centers(cells: &Vec<GridCoord>) -> (r: Vec<Position>)
    requires
        forall|k: int| 0 <= k < cells@.len() ==> coord_valid(#[trigger] cells@[k]),
    ensures
        r@.len() == cells@.len(),
        forall|k: int| 0 <= k < r@.len() ==> #[trigger] r@[k] == cell_center_spec(cells@[k]),
        points_in_range(r@),
{
    let n = cells.len();
    let mut r: Vec<Position> = Vec::new();
    let mut k: usize = 0;
    while k < n
        invariant
            n == cells@.len(),
            k <= n,
            r@.len() == k,
            forall|t: int| 0 <= t < cells@.len() ==> coord_valid(#[trigger] cells@[t]),
            forall|t: int| 0 <= t < k ==> #[trigger] r@[t] == cell_center_spec(cells@[t]),
            points_in_range(r@),
        decreases n - k,
    {
        let c = cells[k];
        r.push(c.to_world_pos());
        k = k + 1;
    }
    r
}

} // verus!
