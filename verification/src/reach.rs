//! Walking distances of the players over the board.

use vstd::prelude::*;
use vstd::set_lib::*;
use crate::model::{CellKind, Grid, MAX_SIDE};
use crate::cells::is_rat;

verus! {

/// Cells a player cannot walk onto: walls, planks, black holes and explosives.
pub open spec fn blocks_player(k: CellKind) -> bool {
    k == CellKind::Wall || k == CellKind::Plank || k == CellKind::BlackHole || k == CellKind::Explosive
}

/// Cells a rat cannot step onto: walls, rats and webs.
pub open spec fn blocks_rat(k: CellKind) -> bool {
    k == CellKind::Wall || is_rat(k) || k == CellKind::Spiderweb
}

/// Who walks over the board: all players at once; one rat stepping north, south, east or
/// west from its cell; or one rat spreading to all eight neighbours over cells free of walls
/// and webs (the rat's static component).
#[derive(Clone, Copy, Debug, PartialEq, Eq, Structural)]
pub enum Walker {
    Players,
    RatFrom(usize, usize),
    RatRegion(usize, usize),
}

/// Cells no rat can ever occupy: walls and webs.
pub open spec fn blocks_rat_static(k: CellKind) -> bool {
    k == CellKind::Wall || k == CellKind::Spiderweb
}

/// How many neighbours a step may go to: four, or eight for a region.
pub open spec fn degree(wk: Walker) -> int {
    match wk {
        Walker::RatRegion(_, _) => 8,
        _ => 4,
    }
}

/// Where the walk starts.
pub open spec fn is_source(g: Grid, wk: Walker, x: int, y: int) -> bool {
    match wk {
        Walker::Players => g.in_bounds(x, y) && g.kind_at(x, y) == CellKind::Player,
        Walker::RatFrom(sx, sy) => g.in_bounds(x, y) && x == sx && y == sy,
        Walker::RatRegion(sx, sy) => g.in_bounds(x, y) && x == sx && y == sy,
    }
}

/// Which cells the walker may step onto.
pub open spec fn can_enter(wk: Walker, k: CellKind) -> bool {
    match wk {
        Walker::Players => !blocks_player(k),
        Walker::RatFrom(_, _) => !blocks_rat(k),
        Walker::RatRegion(_, _) => !blocks_rat_static(k),
    }
}

/// Column of the neighbour of a cell in column `x` in direction `d`: north, south, east,
/// west for 0 to 3, then north-west, north-east, south-west, south-east for 4 to 7.
pub open spec fn nb_x(x: int, d: int) -> int {
    if d == 2 || d == 5 || d == 7 {
        x + 1
    } else if d == 3 || d == 4 || d == 6 {
        x - 1
    } else {
        x
    }
}

/// Row of the neighbour of a cell in row `y` in direction `d`.
pub open spec fn nb_y(y: int, d: int) -> int {
    if d == 0 || d == 4 || d == 5 {
        y - 1
    } else if d == 1 || d == 6 || d == 7 {
        y + 1
    } else {
        y
    }
}

/// The direction back from the neighbour in direction `d`.
pub open spec fn opposite(d: int) -> int {
    if d == 0 { 1 } else if d == 1 { 0 } else if d == 2 { 3 } else if d == 3 { 2 }
    else if d == 4 { 7 } else if d == 5 { 6 } else if d == 6 { 5 } else { 4 }
}

/// Whether the walker can be on `(x, y)` after at most `k` steps to neighbouring cells.
pub open spec fn reach_within(g: Grid, wk: Walker, k: nat, x: int, y: int) -> bool
    decreases k,
{
    if k == 0 {
        is_source(g, wk, x, y)
    } else {
        let j = (k - 1) as nat;
        reach_within(g, wk, j, x, y) || (g.in_bounds(x, y) && can_enter(wk, g.kind_at(x, y)) && (
            reach_within(g, wk, j, x, y - 1) || reach_within(g, wk, j, x, y + 1)
            || reach_within(g, wk, j, x + 1, y) || reach_within(g, wk, j, x - 1, y)
            || (degree(wk) == 8 && (
                reach_within(g, wk, j, x - 1, y - 1) || reach_within(g, wk, j, x + 1, y - 1)
                || reach_within(g, wk, j, x - 1, y + 1) || reach_within(g, wk, j, x + 1, y + 1)))))
    }
}

/// Whether some player can be on `(x, y)` after at most `k` steps.
pub open spec fn walk_within(g: Grid, k: nat, x: int, y: int) -> bool {
    reach_within(g, Walker::Players, k, x, y)
}

/// Whether the walker can get to `(x, y)` at all.
pub open spec fn reachable(g: Grid, wk: Walker, x: int, y: int) -> bool {
    exists|k: nat| reach_within(g, wk, k, x, y)
}

/// Whether some player can walk to `(x, y)` at all.
pub open spec fn walkable_from_player(g: Grid, x: int, y: int) -> bool {
    reachable(g, Walker::Players, x, y)
}

/// The distance map's shape is the board's, `i32::MAX` marks exactly the cells that no
/// player can walk to, and every other entry is the fewest steps that take a player there.
pub open spec fn is_player_dist_map(g: Grid, dist: Seq<Vec<i32>>) -> bool {
    is_dist_map(g, Walker::Players, dist)
}

/// The distance map of a walker: `i32::MAX` marks exactly the cells it cannot get to, and
/// every other entry is the fewest steps that take it there.
pub open spec fn is_dist_map(g: Grid, wk: Walker, dist: Seq<Vec<i32>>) -> bool {
    &&& dist.len() == g.h()
    &&& forall|y: int| 0 <= y < g.h() ==> #[trigger] dist[y]@.len() == g.w()
    &&& forall|x: int, y: int| g.in_bounds(x, y) ==>
        (#[trigger] dist[y]@[x] == i32::MAX <==> !reachable(g, wk, x, y))
    &&& forall|x: int, y: int| g.in_bounds(x, y) && #[trigger] dist[y]@[x] != i32::MAX ==> {
        &&& 0 <= dist[y]@[x]
        &&& reach_within(g, wk, dist[y]@[x] as nat, x, y)
        &&& (dist[y]@[x] == 0 || !reach_within(g, wk, (dist[y]@[x] - 1) as nat, x, y))
    }
}

/// One step from a neighbour reached within `j` steps.
pub proof fn lemma_step(g: Grid, wk: Walker, j: nat, x: int, y: int, d: int)
    requires
        0 <= d < degree(wk),
        reach_within(g, wk, j, nb_x(x, d), nb_y(y, d)),
        g.in_bounds(x, y),
        can_enter(wk, g.kind_at(x, y)),
    ensures
        reach_within(g, wk, j + 1, x, y),
{
    assert(((j + 1) - 1) as nat == j);
}

/// A cell reached in `j + 1` steps but not in `j` was entered from a neighbour.
pub proof fn lemma_pick_neighbour(g: Grid, wk: Walker, j: nat, x: int, y: int) -> (d: int)
    requires
        reach_within(g, wk, j + 1, x, y),
        !reach_within(g, wk, j, x, y),
    ensures
        0 <= d < degree(wk),
        reach_within(g, wk, j, nb_x(x, d), nb_y(y, d)),
        g.in_bounds(x, y),
        can_enter(wk, g.kind_at(x, y)),
{
    assert(((j + 1) - 1) as nat == j);
    if reach_within(g, wk, j, x, y - 1) { 0 }
    else if reach_within(g, wk, j, x, y + 1) { 1 }
    else if reach_within(g, wk, j, x + 1, y) { 2 }
    else if reach_within(g, wk, j, x - 1, y) { 3 }
    else if reach_within(g, wk, j, x - 1, y - 1) { 4 }
    else if reach_within(g, wk, j, x + 1, y - 1) { 5 }
    else if reach_within(g, wk, j, x - 1, y + 1) { 6 }
    else { 7 }
}

/// A cell that a player can reach lies on the board.
pub proof fn lemma_within_in_bounds(g: Grid, wk: Walker, k: nat, x: int, y: int)
    requires
        reach_within(g, wk, k, x, y),
    ensures
        g.in_bounds(x, y),
    decreases k,
{
    if k > 0 && reach_within(g, wk, (k - 1) as nat, x, y) {
        lemma_within_in_bounds(g, wk, (k - 1) as nat, x, y);
    }
}

/// Reaching a cell within `j` steps means reaching it within any larger bound.
pub proof fn lemma_within_mono(g: Grid, wk: Walker, j: nat, k: nat, x: int, y: int)
    requires
        j <= k,
        reach_within(g, wk, j, x, y),
    ensures
        reach_within(g, wk, k, x, y),
    decreases k,
{
    if j < k {
        lemma_within_mono(g, wk, j, (k - 1) as nat, x, y);
    }
}

/// Once one more step reaches nothing new, no number of steps does.
proof fn lemma_within_stable(g: Grid, wk: Walker, k: nat, j: nat, x: int, y: int)
    requires
        forall|a: int, b: int| #[trigger] reach_within(g, wk, k + 1, a, b) ==> reach_within(g, wk, k, a, b),
        k <= j,
        reach_within(g, wk, j, x, y),
    ensures
        reach_within(g, wk, k, x, y),
    decreases j,
{
    if j > k {
        let i = (j - 1) as nat;
        if reach_within(g, wk, i, x, y) {
            lemma_within_stable(g, wk, k, i, x, y);
        } else {
            assert(i + 1 == j);
            let d = lemma_pick_neighbour(g, wk, i, x, y);
            lemma_within_stable(g, wk, k, i, nb_x(x, d), nb_y(y, d));
            lemma_step(g, wk, k, x, y, d);
        }
    }
}

/// Row-major index of a cell.
pub open spec fn cell_index(w: int, x: int, y: int) -> int {
    y * w + x
}

proof fn lemma_cell_index_range(w: int, h: int, x: int, y: int)
    requires
        0 <= x < w,
        0 <= y < h,
    ensures
        0 <= cell_index(w, x, y) < h * w,
{
    assert(0 <= y * w) by (nonlinear_arith)
        requires 0 <= y, 0 <= w;
    assert(y * w + x < h * w) by (nonlinear_arith)
        requires 0 <= x < w, 0 <= y < h;
}

proof fn lemma_cell_index_injective(w: int, x1: int, y1: int, x2: int, y2: int)
    requires
        0 <= x1 < w,
        0 <= x2 < w,
        0 <= y1,
        0 <= y2,
        (x1, y1) != (x2, y2),
    ensures
        cell_index(w, x1, y1) != cell_index(w, x2, y2),
{
    if y1 < y2 {
        assert(y1 * w + w <= y2 * w) by (nonlinear_arith)
            requires y1 < y2, 0 <= w;
    } else if y2 < y1 {
        assert(y2 * w + w <= y1 * w) by (nonlinear_arith)
            requires y2 < y1, 0 <= w;
    }
}

/// The neighbour of `(x, y)` in direction `e` has a distance if a player may enter it.
spec fn neighbour_done(g: Grid, wk: Walker, dist: Seq<Vec<i32>>, x: int, y: int, e: int) -> bool {
    let (nx, ny) = (nb_x(x, e), nb_y(y, e));
    g.in_bounds(nx, ny) && can_enter(wk, g.kind_at(nx, ny)) ==> dist[ny]@[nx] != i32::MAX
}

/// The neighbour of `(x, y)` in direction `d`, where it lies on a `w` by `h` board.
fn neighbour_on_board(x: usize, y: usize, d: usize, w: usize, h: usize) -> (res: Option<(usize, usize)>)
    requires
        x < w <= MAX_SIDE,
        y < h <= MAX_SIDE,
        d < 8,
    ensures
        res matches Some(p) ==> p.0 < w && p.1 < h && p.0 as int == nb_x(x as int, d as int) && p.1 as int == nb_y(y as int, d as int),
        res is None ==> !(0 <= nb_x(x as int, d as int) < w && 0 <= nb_y(y as int, d as int) < h),
{
    let east = d == 2 || d == 5 || d == 7;
    let west = d == 3 || d == 4 || d == 6;
    let north = d == 0 || d == 4 || d == 5;
    let south = d == 1 || d == 6 || d == 7;
    if (east && x + 1 >= w) || (west && x == 0) || (north && y == 0) || (south && y + 1 >= h) {
        return None;
    }
    let nx = if east { x + 1 } else if west { x - 1 } else { x };
    let ny = if south { y + 1 } else if north { y - 1 } else { y };
    Some((nx, ny))
}

impl Walker {
    /// Whether the walk starts at `(x, y)`, a cell of the board.
    pub fn is_source(&self, grid: &Grid, x: usize, y: usize) -> (b: bool)
        requires
            grid.in_bounds(x as int, y as int),
        ensures
            b == is_source(*grid, *self, x as int, y as int),
    {
        match self {
            Walker::Players => grid.cell_kind_at(x, y) == CellKind::Player,
            Walker::RatFrom(sx, sy) => x == *sx && y == *sy,
            Walker::RatRegion(sx, sy) => x == *sx && y == *sy,
        }
    }

    /// How many neighbours a step may go to.
    pub fn degree(&self) -> (n: usize)
        ensures
            n == degree(*self),
    {
        match self {
            Walker::RatRegion(_, _) => 8,
            _ => 4,
        }
    }

    /// Whether the walker may step onto a cell of kind `k`.
    pub fn can_enter(&self, k: CellKind) -> (b: bool)
        ensures
            b == can_enter(*self, k),
    {
        match self {
            Walker::Players => player_can_enter(k),
            Walker::RatFrom(_, _) => !matches!(k, CellKind::Wall | CellKind::Rat | CellKind::CyborgRat | CellKind::Spiderweb),
            Walker::RatRegion(_, _) => !matches!(k, CellKind::Wall | CellKind::Spiderweb),
        }
    }
}

/// Whether a player may walk onto a cell of this kind.
pub fn player_can_enter(k: CellKind) -> (b: bool)
    ensures
        b == !blocks_player(k),
{
    !matches!(k, CellKind::Wall | CellKind::Plank | CellKind::BlackHole | CellKind::Explosive)
}

spec fn shape_ok(g: Grid, dist: Seq<Vec<i32>>) -> bool {
    &&& dist.len() == g.h()
    &&& forall|r: int| 0 <= r < g.h() ==> #[trigger] dist[r]@.len() == g.w()
}

/// Every cell of `queue` holds `level`, and `pos` finds each cell holding `level` in `queue`.
spec fn queue_ok(g: Grid, dist: Seq<Vec<i32>>, queue: Seq<(usize, usize)>, pos: Map<(int, int), int>, level: int) -> bool {
    &&& forall|i: int| 0 <= i < queue.len() ==> {
        let p = #[trigger] queue[i];
        &&& (p.0 as int) < g.w() && (p.1 as int) < g.h()
        &&& dist[p.1 as int]@[p.0 as int] == level
    }
    &&& forall|a: int, b: int| g.in_bounds(a, b) && #[trigger] dist[b]@[a] == level ==> {
        &&& pos.contains_key((a, b))
        &&& 0 <= pos[(a, b)] < queue.len()
        &&& queue[pos[(a, b)]] == (a as usize, b as usize)
    }
}

/// `seen` holds the indices of exactly the cells that have a distance.
spec fn seen_ok(g: Grid, dist: Seq<Vec<i32>>, seen: Set<int>) -> bool {
    &&& seen.finite()
    &&& forall|i: int| seen.contains(i) ==> 0 <= i < g.h() * g.w()
    &&& forall|a: int, b: int| g.in_bounds(a, b) ==>
        (seen.contains(#[trigger] cell_index(g.w() as int, a, b)) <==> dist[b]@[a] != i32::MAX)
}

/// Distances given so far are exact, and no cell left without one is reachable within `level` steps.
spec fn exact_ok(g: Grid, wk: Walker, dist: Seq<Vec<i32>>, level: int, top: int) -> bool {
    &&& forall|a: int, b: int| g.in_bounds(a, b) && #[trigger] dist[b]@[a] != i32::MAX ==> {
        &&& 0 <= dist[b]@[a] <= top
        &&& reach_within(g, wk, dist[b]@[a] as nat, a, b)
        &&& (dist[b]@[a] == 0 || !reach_within(g, wk, (dist[b]@[a] - 1) as nat, a, b))
    }
    &&& forall|a: int, b: int| g.in_bounds(a, b) && #[trigger] dist[b]@[a] == i32::MAX ==>
        !reach_within(g, wk, level as nat, a, b)
}

/// Giving the unset cell `(x, y)` a distance keeps `seen_ok` once its index is added.
proof fn lemma_seen_insert(g: Grid, d1: Seq<Vec<i32>>, d2: Seq<Vec<i32>>, seen: Set<int>, x: int, y: int)
    requires
        shape_ok(g, d1),
        shape_ok(g, d2),
        g.in_bounds(x, y),
        seen_ok(g, d1, seen),
        d1[y]@[x] == i32::MAX,
        d2[y]@[x] != i32::MAX,
        forall|a: int, b: int| g.in_bounds(a, b) && (a, b) != (x, y) ==> #[trigger] d2[b]@[a] == d1[b]@[a],
    ensures
        seen_ok(g, d2, seen.insert(cell_index(g.w() as int, x, y))),
        seen.insert(cell_index(g.w() as int, x, y)).len() == seen.len() + 1,
{
    let w = g.w() as int;
    lemma_cell_index_range(w, g.h() as int, x, y);
    assert forall|a: int, b: int| g.in_bounds(a, b) && (a, b) != (x, y) implies
        cell_index(w, a, b) != cell_index(w, x, y) by {
        lemma_cell_index_injective(w, a, b, x, y);
    }
    assert(!seen.contains(cell_index(w, x, y)));
}

/// Breadth-first walking distances of `walker` over the board, one layer of equal distance at a time.
/// Cells it cannot get to hold `i32::MAX`.
pub fn dist_map(grid: &Grid, walker: Walker) -> (dist: Vec<Vec<i32>>)
    ensures
        is_dist_map(*grid, walker, dist@),
{
    let ghost wk = walker;
    let h = grid.height();
    let w = grid.width();
    let ghost g = *grid;
    let mut dist: Vec<Vec<i32>> = Vec::new();
    let mut y: usize = 0;
    while y < h
        invariant
            h == g.h(),
            w == g.w(),
            y <= h,
            dist@.len() == y,
            forall|r: int| 0 <= r < y ==> #[trigger] dist@[r]@.len() == w,
            forall|a: int, b: int| 0 <= b < y && 0 <= a < w ==> #[trigger] dist@[b]@[a] == i32::MAX,
        decreases h - y,
    {
        let row: Vec<i32> = vec![i32::MAX; w];
        proof {
            assert forall|a: int| 0 <= a < w implies row@[a] == i32::MAX by {
                assert(cloned(i32::MAX, row@[a]));
            }
        }
        dist.push(row);
        y = y + 1;
    }

    // Every player starts at distance zero.
    let mut layer: Vec<(usize, usize)> = Vec::new();
    let ghost mut pos: Map<(int, int), int> = Map::empty();
    let ghost mut seen: Set<int> = Set::empty();
    let mut y: usize = 0;
    while y < h
        invariant
            h == g.h(),
            w == g.w(),
            h <= MAX_SIDE,
            w <= MAX_SIDE,
            g == *grid,
                wk == walker,
            y <= h,
            shape_ok(g, dist@),
            forall|a: int, b: int| g.in_bounds(a, b) ==>
                (#[trigger] dist@[b]@[a] == (if b < y && is_source(g, wk, a, b) { 0 } else { i32::MAX })),
            queue_ok(g, dist@, layer@, pos, 0),
            seen_ok(g, dist@, seen),
            seen.len() == layer@.len(),
        decreases h - y,
    {
        let mut x: usize = 0;
        while x < w
            invariant
                h == g.h(),
                w == g.w(),
                h <= MAX_SIDE,
                w <= MAX_SIDE,
                g == *grid,
                wk == walker,
                y < h,
                x <= w,
                shape_ok(g, dist@),
                forall|a: int, b: int| g.in_bounds(a, b) ==>
                    (#[trigger] dist@[b]@[a] == (if (b < y || (b == y && a < x)) && is_source(g, wk, a, b) { 0 } else { i32::MAX })),
                queue_ok(g, dist@, layer@, pos, 0),
                seen_ok(g, dist@, seen),
                seen.len() == layer@.len(),
            decreases w - x,
        {
            if walker.is_source(grid, x, y) {
                let ghost before = dist@;
                dist[y][x] = 0;
                proof {
                    lemma_seen_insert(g, before, dist@, seen, x as int, y as int);
                    seen = seen.insert(cell_index(w as int, x as int, y as int));
                }
                layer.push((x, y));
                proof {
                    pos = pos.insert((x as int, y as int), layer@.len() - 1);
                }
            }
            x = x + 1;
        }
        y = y + 1;
    }

    let mut k: i32 = 0;
    proof {
        assert forall|a: int, b: int| g.in_bounds(a, b) && #[trigger] dist@[b]@[a] == i32::MAX implies
            !reach_within(g, wk, 0, a, b) by {}
        assert forall|a: int, b: int| g.in_bounds(a, b) && #[trigger] dist@[b]@[a] != i32::MAX implies
            reach_within(g, wk, dist@[b]@[a] as nat, a, b) by {}
    }
    while layer.len() > 0
        invariant
            h == g.h(),
            w == g.w(),
            h <= MAX_SIDE,
            w <= MAX_SIDE,
            g == *grid,
                wk == walker,
            0 <= k,
            shape_ok(g, dist@),
            exact_ok(g, wk, dist@, k as int, k as int),
            queue_ok(g, dist@, layer@, pos, k as int),
            seen_ok(g, dist@, seen),
            layer@.len() > 0 ==> seen.len() >= k + 1,
        decreases (h * w) as int - k,
    {
        proof {
            lemma_int_range(0, h * w);
            lemma_len_subset(seen, set_int_range(0, h * w));
            assert(h * w <= MAX_SIDE * MAX_SIDE) by (nonlinear_arith)
                requires h <= MAX_SIDE, w <= MAX_SIDE;
        }
        let ghost dist_start = dist@;
        let ghost seen_start = seen;
        let mut next: Vec<(usize, usize)> = Vec::new();
        let ghost mut next_pos: Map<(int, int), int> = Map::empty();
        let mut idx: usize = 0;
        while idx < layer.len()
            invariant
                h == g.h(),
                w == g.w(),
                h <= MAX_SIDE,
                w <= MAX_SIDE,
                g == *grid,
                wk == walker,
                0 <= k < i32::MAX - 1,
                idx <= layer@.len(),
                shape_ok(g, dist_start),
                shape_ok(g, dist@),
                exact_ok(g, wk, dist@, k as int, k + 1),
                queue_ok(g, dist_start, layer@, pos, k as int),
                forall|a: int, b: int| g.in_bounds(a, b) && dist_start[b]@[a] != i32::MAX ==>
                    #[trigger] dist@[b]@[a] == dist_start[b]@[a],
                forall|a: int, b: int| g.in_bounds(a, b) && dist_start[b]@[a] == i32::MAX ==>
                    (#[trigger] dist@[b]@[a] == i32::MAX || dist@[b]@[a] == k + 1),
                forall|i: int, e: int| 0 <= i < idx && 0 <= e < degree(wk) ==>
                    #[trigger] neighbour_done(g, wk, dist@, layer@[i].0 as int, layer@[i].1 as int, e),
                queue_ok(g, dist@, next@, next_pos, k + 1),
                seen_ok(g, dist@, seen),
                seen_start.finite(),
                seen.len() == seen_start.len() + next@.len(),
                seen_start.len() >= k + 1,
            decreases layer@.len() - idx,
        {
            let (x, y) = layer[idx];
            proof {
                assert(dist_start[y as int]@[x as int] == k);
                assert(dist@[y as int]@[x as int] == k);
            }
            let deg = walker.degree();
            let mut d: usize = 0;
            while d < deg
                invariant
                    h == g.h(),
                    w == g.w(),
                    h <= MAX_SIDE,
                    w <= MAX_SIDE,
                    g == *grid,
                wk == walker,
                    0 <= k < i32::MAX - 1,
                    idx < layer@.len(),
                    (x, y) == layer@[idx as int],
                    x < w,
                    y < h,
                    deg == degree(wk),
                    d <= deg,
                    shape_ok(g, dist_start),
                    shape_ok(g, dist@),
                    dist@[y as int]@[x as int] == k,
                    exact_ok(g, wk, dist@, k as int, k + 1),
                    queue_ok(g, dist_start, layer@, pos, k as int),
                    forall|a: int, b: int| g.in_bounds(a, b) && dist_start[b]@[a] != i32::MAX ==>
                        #[trigger] dist@[b]@[a] == dist_start[b]@[a],
                    forall|a: int, b: int| g.in_bounds(a, b) && dist_start[b]@[a] == i32::MAX ==>
                        (#[trigger] dist@[b]@[a] == i32::MAX || dist@[b]@[a] == k + 1),
                    forall|i: int, e: int| 0 <= i < idx && 0 <= e < degree(wk) ==>
                        #[trigger] neighbour_done(g, wk, dist@, layer@[i].0 as int, layer@[i].1 as int, e),
                    forall|e: int| 0 <= e < d ==> #[trigger] neighbour_done(g, wk, dist@, x as int, y as int, e),
                    queue_ok(g, dist@, next@, next_pos, k + 1),
                    seen_ok(g, dist@, seen),
                    seen_start.finite(),
                    seen.len() == seen_start.len() + next@.len(),
                decreases deg - d,
            {
                if let Some((nx, ny)) = neighbour_on_board(x, y, d, w, h) {
                    if walker.can_enter(grid.cell_kind_at(nx, ny)) && dist[ny][nx] == i32::MAX {
                        let ghost before = dist@;
                        proof {
                            assert(reach_within(g, wk, k as nat, x as int, y as int));
                            let back = opposite(d as int);
                            assert(nb_x(nx as int, back) == x && nb_y(ny as int, back) == y);
                            assert(reach_within(g, wk, k as nat, nb_x(nx as int, back), nb_y(ny as int, back)));
                            lemma_step(g, wk, k as nat, nx as int, ny as int, back);
                            assert(reach_within(g, wk, (k + 1) as nat, nx as int, ny as int));
                            assert(!reach_within(g, wk, k as nat, nx as int, ny as int));
                        }
                        dist[ny][nx] = k + 1;
                        proof {
                            lemma_seen_insert(g, before, dist@, seen, nx as int, ny as int);
                            seen = seen.insert(cell_index(w as int, nx as int, ny as int));
                            assert forall|i: int, e: int| 0 <= i < idx && 0 <= e < degree(wk) implies
                                #[trigger] neighbour_done(g, wk, dist@, layer@[i].0 as int, layer@[i].1 as int, e) by {
                                assert(neighbour_done(g, wk, before, layer@[i].0 as int, layer@[i].1 as int, e));
                            }
                            assert forall|e: int| 0 <= e < d implies #[trigger] neighbour_done(g, wk, dist@, x as int, y as int, e) by {
                                assert(neighbour_done(g, wk, before, x as int, y as int, e));
                            }
                        }
                        next.push((nx, ny));
                        proof {
                            next_pos = next_pos.insert((nx as int, ny as int), next@.len() - 1);
                        }
                    }
                }
                d = d + 1;
            }
            idx = idx + 1;
        }
        proof {
            // Every cell first reached in `k + 1` steps has been given distance `k + 1`.
            assert forall|a: int, b: int| g.in_bounds(a, b) && #[trigger] dist@[b]@[a] == i32::MAX implies
                !reach_within(g, wk, (k + 1) as nat, a, b) by {
                if reach_within(g, wk, (k + 1) as nat, a, b) {
                    let kk = k as nat;
                    assert(!reach_within(g, wk, kk, a, b));
                    let dd = lemma_pick_neighbour(g, wk, kk, a, b);
                    let m = (nb_x(a, dd), nb_y(b, dd));
                    let e = opposite(dd);
                    assert(reach_within(g, wk, kk, m.0, m.1));
                    lemma_within_in_bounds(g, wk, kk, m.0, m.1);
                    assert(nb_x(m.0, e) == a && nb_y(m.1, e) == b);
                    let dm = dist_start[m.1]@[m.0];
                    assert(dist@[m.1]@[m.0] != i32::MAX);
                    assert(dm != i32::MAX);
                    if dm < k {
                        assert(reach_within(g, wk, dm as nat, m.0, m.1));
                        assert(reach_within(g, wk, (dm + 1) as nat, a, b));
                        lemma_within_mono(g, wk, (dm + 1) as nat, kk, a, b);
                        assert(false);
                    }
                    let i = pos[m];
                    assert(layer@[i] == (m.0 as usize, m.1 as usize));
                    assert(neighbour_done(g, wk, dist@, layer@[i].0 as int, layer@[i].1 as int, e));
                }
            }
            if next@.len() > 0 {
                assert(seen.len() >= k + 2);
            }
        }
        layer = next;
        proof {
            pos = next_pos;
        }
        k = k + 1;
    }
    proof {
        let kk = k as nat;
        let k1 = kk + 1;
        assert forall|a: int, b: int| #[trigger] reach_within(g, wk, k1, a, b) implies reach_within(g, wk, kk, a, b) by {
            if reach_within(g, wk, k1, a, b) && !reach_within(g, wk, kk, a, b) {
                lemma_within_in_bounds(g, wk, k1, a, b);
                if dist@[b]@[a] != i32::MAX {
                    lemma_within_mono(g, wk, dist@[b]@[a] as nat, kk, a, b);
                }
                let dd = lemma_pick_neighbour(g, wk, kk, a, b);
                let m = (nb_x(a, dd), nb_y(b, dd));
                assert(reach_within(g, wk, kk, m.0, m.1));
                lemma_within_in_bounds(g, wk, kk, m.0, m.1);
                let dm = dist@[m.1]@[m.0];
                assert(dm != i32::MAX);
                if dm == k {
                    assert(pos.contains_key(m));
                    assert(false);
                }
                assert(reach_within(g, wk, dm as nat, m.0, m.1));
                assert(reach_within(g, wk, (dm + 1) as nat, a, b));
                lemma_within_mono(g, wk, (dm + 1) as nat, kk, a, b);
            }
        }
        assert forall|a: int, b: int| g.in_bounds(a, b) implies
            (#[trigger] dist@[b]@[a] == i32::MAX <==> !reachable(g, wk, a, b)) by {
            if dist@[b]@[a] == i32::MAX {
                if reachable(g, wk, a, b) {
                    let j = choose|j: nat| reach_within(g, wk, j, a, b);
                    if j <= kk {
                        lemma_within_mono(g, wk, j, kk, a, b);
                    } else {
                        lemma_within_stable(g, wk, kk, j, a, b);
                    }
                }
            } else {
                assert(reach_within(g, wk, dist@[b]@[a] as nat, a, b));
            }
        }
    }
    dist
}

/// Breadth-first walking distances from all players at once.
///
/// Players are blocked by walls, planks, black holes and explosives; webs, empty cells,
/// triggers and rats are walkable for this purpose. Cells no player can reach hold `i32::MAX`.
pub fn player_dist_map(grid: &Grid) -> (dist: Vec<Vec<i32>>)
    ensures
        is_player_dist_map(*grid, dist@),
{
    dist_map(grid, Walker::Players)
}

} // verus!
