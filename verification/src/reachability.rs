//! What the players can walk to, and what the rats can still die on.

use vstd::prelude::*;
use crate::model::{CellKind, Grid, MAX_SIDE};
use crate::cells::{CellClass, class_has, is_rat};
use crate::scan::{class_pred, board_points, scan_rows, scan_row, lemma_scan_rows_len, lemma_scan_row_prefix_len, lemma_board_points, lemma_board_points_bound};
use crate::reach::{Walker, reachable, reach_within, walk_within, walkable_from_player, is_dist_map, is_player_dist_map, dist_map, player_dist_map, lemma_within_mono};
use crate::nearest::{opt_int, min_dist, class_mask, nearest_mask};

verus! {

/// Cells of class `c` that some player can walk to.
pub open spec fn reachable_class_pred(g: Grid, c: CellClass) -> spec_fn(int, int) -> bool {
    |x: int, y: int| class_has(c, g.kind_at(x, y), y) && walkable_from_player(g, x, y)
}

/// Number of cells of class `c` that some player can walk to.
pub open spec fn reachable_count_of(g: Grid, c: CellClass) -> nat {
    board_points(g, reachable_class_pred(g, c)).len()
}

/// `d` is the fewest steps that take a player to `(x, y)`.
pub open spec fn shortest_walk(g: Grid, x: int, y: int, d: int) -> bool {
    &&& 0 <= d
    &&& walk_within(g, d as nat, x, y)
    &&& (d == 0 || !walk_within(g, (d - 1) as nat, x, y))
}

/// Counts the cells of `class` that the distance map marks as reachable.
fn count_reachable(grid: &Grid, dist: &Vec<Vec<i32>>, class: CellClass) -> (n: usize)
    requires
        is_player_dist_map(*grid, dist@),
    ensures
        n == reachable_count_of(*grid, class),
        n <= MAX_SIDE * MAX_SIDE,
{
    let ghost g = *grid;
    let ghost p = reachable_class_pred(g, class);
    let h = grid.height();
    let w = grid.width();
    let mut n: usize = 0;
    let mut y: usize = 0;
    proof {
        lemma_board_points_bound(g, p);
    }
    while y < h
        invariant
            g == *grid,
            p == reachable_class_pred(g, class),
            is_player_dist_map(g, dist@),
            h == g.h(),
            w == g.w(),
            h <= MAX_SIDE,
            w <= MAX_SIDE,
            y <= h,
            n == scan_rows(p, w as nat, y as nat).len(),
            board_points(g, p).len() <= MAX_SIDE * MAX_SIDE,
        decreases h - y,
    {
        let mut x: usize = 0;
        proof {
            lemma_scan_rows_len(p, w as nat, (y + 1) as nat);
            assert((y + 1) * w <= MAX_SIDE * MAX_SIDE) by (nonlinear_arith)
                requires y + 1 <= MAX_SIDE, w <= MAX_SIDE;
        }
        while x < w
            invariant
                g == *grid,
                p == reachable_class_pred(g, class),
                is_player_dist_map(g, dist@),
                h == g.h(),
                w == g.w(),
                y < h,
                x <= w,
                n == scan_rows(p, w as nat, y as nat).len() + scan_row(p, y as int, x as nat).len(),
                scan_rows(p, w as nat, y as nat).len() + scan_row(p, y as int, w as nat).len() <= MAX_SIDE * MAX_SIDE,
            decreases w - x,
        {
            proof {
                lemma_scan_row_prefix_len(p, y as int, (x + 1) as nat, w as nat);
                assert(g.in_bounds(x as int, y as int));
            }
            if class.has(grid.cell_kind_at(x, y), y) && dist[y][x] != i32::MAX {
                n = n + 1;
            }
            x = x + 1;
        }
        y = y + 1;
    }
    proof {
        lemma_board_points_bound(g, p);
    }
    n
}

/// Number of rats some player can walk to.
pub fn reachable_rat_count(grid: &Grid) -> (n: usize)
    ensures
        n == reachable_count_of(*grid, CellClass::RatOrCyborg),
        n <= MAX_SIDE * MAX_SIDE,
{
    let dist = player_dist_map(grid);
    count_reachable(grid, &dist, CellClass::RatOrCyborg)
}

/// Number of triggers some player can walk to.
pub fn reachable_trigger_count(grid: &Grid) -> (n: usize)
    ensures
        n == reachable_count_of(*grid, CellClass::AnyTrigger),
        n <= MAX_SIDE * MAX_SIDE,
{
    let dist = player_dist_map(grid);
    count_reachable(grid, &dist, CellClass::AnyTrigger)
}

/// Number of cells some player can walk to.
pub fn player_reachable_cell_count(grid: &Grid) -> (n: usize)
    ensures
        n == reachable_count_of(*grid, CellClass::AnyCell),
        n <= MAX_SIDE * MAX_SIDE,
{
    let dist = player_dist_map(grid);
    count_reachable(grid, &dist, CellClass::AnyCell)
}

/// Whether the players can walk to every rat.
pub fn all_rats_reachable(grid: &Grid) -> (b: bool)
    ensures
        b == (reachable_count_of(*grid, CellClass::RatOrCyborg) == crate::scan::count_of(*grid, CellClass::RatOrCyborg)),
{
    reachable_rat_count(grid) == crate::features::count_rats(grid)
}

/// The walking distance from the nearest player to `target`; 1000 when it is off the board
/// or no player can walk there.
pub open spec fn spec_distance_from_player(g: Grid, target: (i32, i32)) -> int {
    let (x, y) = (target.0 as int, target.1 as int);
    if g.in_bounds(x, y) && walkable_from_player(g, x, y) {
        choose|d: int| shortest_walk(g, x, y, d)
    } else {
        1000
    }
}

/// The walking distance from the nearest player to `target`; 1000 when it is off the
/// board or no player can walk there.
pub fn distance_from_player(grid: &Grid, target: (i32, i32)) -> (d: i64)
    ensures
        d == spec_distance_from_player(*grid, target),
        0 <= d < i32::MAX,
        ({
            let (x, y) = (target.0 as int, target.1 as int);
            if grid.in_bounds(x, y) && walkable_from_player(*grid, x, y) {
                shortest_walk(*grid, x, y, d as int)
            } else {
                d == 1000
            }
        }),
{
    if target.0 < 0 || target.1 < 0 || target.0 as usize >= grid.width() || target.1 as usize >= grid.height() {
        return 1000;
    }
    let dist = player_dist_map(grid);
    let d = dist[target.1 as usize][target.0 as usize];
    if d == i32::MAX {
        1000
    } else {
        proof {
            let (x, y) = (target.0 as int, target.1 as int);
            assert(shortest_walk(*grid, x, y, d as int));
            let c = choose|e: int| shortest_walk(*grid, x, y, e);
            lemma_shortest_unique(*grid, x, y, c, d as int);
        }
        d as i64
    }
}

/// The fewest steps to a cell are unique.
pub proof fn lemma_shortest_unique(g: Grid, x: int, y: int, a: int, b: int)
    requires
        shortest_walk(g, x, y, a),
        shortest_walk(g, x, y, b),
    ensures
        a == b,
{
    if a < b {
        lemma_within_mono(g, Walker::Players, a as nat, (b - 1) as nat, x, y);
    } else if b < a {
        lemma_within_mono(g, Walker::Players, b as nat, (a - 1) as nat, x, y);
    }
}

/// The shortest walking distance to a trigger carrying `number`, if a player can reach one.
pub fn nearest_reachable_trigger_distance(grid: &Grid, number: u8) -> (res: Option<i64>)
    ensures
        opt_int(res) == min_dist(*grid, class_pred(*grid, CellClass::Exactly(CellKind::Trigger(number)))),
        res matches Some(d) ==> 0 <= d < i32::MAX,
{
    let dist = player_dist_map(grid);
    let class = CellClass::Exactly(CellKind::Trigger(number));
    let mask = class_mask(grid, class);
    nearest_mask(grid, &dist, &mask, Ghost(class_pred(*grid, class)))
}

/// The shortest walking distance to any trigger, if a player can reach one.
pub fn nearest_reachable_any_trigger_distance(grid: &Grid) -> (res: Option<i64>)
    ensures
        opt_int(res) == min_dist(*grid, class_pred(*grid, CellClass::AnyTrigger)),
        res matches Some(d) ==> 0 <= d < i32::MAX,
{
    let dist = player_dist_map(grid);
    let mask = class_mask(grid, CellClass::AnyTrigger);
    nearest_mask(grid, &dist, &mask, Ghost(class_pred(*grid, CellClass::AnyTrigger)))
}

/// Whether a rat starting at `(sx, sy)` can step its way to an explosive or a black hole.
pub open spec fn local_rat_death(g: Grid, sx: usize, sy: usize) -> bool {
    exists|x: int, y: int| #![trigger g.kind_at(x, y)]
        reachable(g, Walker::RatFrom(sx, sy), x, y)
        && (g.kind_at(x, y) == CellKind::Explosive || g.kind_at(x, y) == CellKind::BlackHole)
}

/// Whether the rat at `start` can step, through cells free of walls, rats and webs, to an
/// explosive or a black hole.
pub fn component_has_local_rat_death(grid: &Grid, start: (usize, usize)) -> (b: bool)
    requires
        grid.in_bounds(start.0 as int, start.1 as int),
    ensures
        b == local_rat_death(*grid, start.0, start.1),
{
    let ghost g = *grid;
    let ghost wk = Walker::RatFrom(start.0, start.1);
    let dist = dist_map(grid, Walker::RatFrom(start.0, start.1));
    let h = grid.height();
    let w = grid.width();
    let mut y: usize = 0;
    while y < h
        invariant
            g == *grid,
            wk == Walker::RatFrom(start.0, start.1),
            is_dist_map(g, wk, dist@),
            h == g.h(),
            w == g.w(),
            y <= h,
            forall|a: int, b: int| #![trigger g.kind_at(a, b)] 0 <= b < y && 0 <= a < w && reachable(g, wk, a, b)
                ==> !(g.kind_at(a, b) == CellKind::Explosive || g.kind_at(a, b) == CellKind::BlackHole),
        decreases h - y,
    {
        let mut x: usize = 0;
        while x < w
            invariant
                g == *grid,
                wk == Walker::RatFrom(start.0, start.1),
                is_dist_map(g, wk, dist@),
                h == g.h(),
                w == g.w(),
                y < h,
                x <= w,
                forall|a: int, b: int| #![trigger g.kind_at(a, b)] (0 <= b < y || (b == y && 0 <= a < x)) && 0 <= a < w && reachable(g, wk, a, b)
                    ==> !(g.kind_at(a, b) == CellKind::Explosive || g.kind_at(a, b) == CellKind::BlackHole),
            decreases w - x,
        {
            proof {
                assert(g.in_bounds(x as int, y as int));
            }
            let k = grid.cell_kind_at(x, y);
            if dist[y][x] != i32::MAX && (k == CellKind::Explosive || k == CellKind::BlackHole) {
                proof {
                    assert(g.kind_at(x as int, y as int) == k);
                }
                return true;
            }
            x = x + 1;
        }
        y = y + 1;
    }
    proof {
        assert forall|a: int, b: int| #![trigger g.kind_at(a, b)] reachable(g, wk, a, b)
            implies !(g.kind_at(a, b) == CellKind::Explosive || g.kind_at(a, b) == CellKind::BlackHole) by {
            let k = choose|k: nat| reach_within(g, wk, k, a, b);
            crate::reach::lemma_within_in_bounds(g, wk, k, a, b);
        }
    }
    false
}

/// Rats no player can walk to and that cannot step to an explosive or a black hole.
pub open spec fn trapped_rat_pred(g: Grid) -> spec_fn(int, int) -> bool {
    |x: int, y: int| is_rat(g.kind_at(x, y)) && !walkable_from_player(g, x, y)
        && !local_rat_death(g, x as usize, y as usize)
}

/// Number of rats no player can walk to and that have no explosive or black hole within
/// their own stepping reach.
pub fn trapped_unreachable_rat_count(grid: &Grid) -> (n: usize)
    ensures
        n == board_points(*grid, trapped_rat_pred(*grid)).len(),
        n <= MAX_SIDE * MAX_SIDE,
{
    let ghost g = *grid;
    let ghost p = trapped_rat_pred(g);
    let dist = player_dist_map(grid);
    let h = grid.height();
    let w = grid.width();
    let mut n: usize = 0;
    let mut y: usize = 0;
    proof {
        lemma_board_points_bound(g, p);
    }
    while y < h
        invariant
            g == *grid,
            p == trapped_rat_pred(g),
            is_player_dist_map(g, dist@),
            h == g.h(),
            w == g.w(),
            h <= MAX_SIDE,
            w <= MAX_SIDE,
            y <= h,
            n == scan_rows(p, w as nat, y as nat).len(),
            board_points(g, p).len() <= MAX_SIDE * MAX_SIDE,
        decreases h - y,
    {
        let mut x: usize = 0;
        proof {
            lemma_scan_rows_len(p, w as nat, (y + 1) as nat);
            assert((y + 1) * w <= MAX_SIDE * MAX_SIDE) by (nonlinear_arith)
                requires y + 1 <= MAX_SIDE, w <= MAX_SIDE;
        }
        while x < w
            invariant
                g == *grid,
                p == trapped_rat_pred(g),
                is_player_dist_map(g, dist@),
                h == g.h(),
                w == g.w(),
                y < h,
                x <= w,
                n == scan_rows(p, w as nat, y as nat).len() + scan_row(p, y as int, x as nat).len(),
                scan_rows(p, w as nat, y as nat).len() + scan_row(p, y as int, w as nat).len() <= MAX_SIDE * MAX_SIDE,
            decreases w - x,
        {
            proof {
                lemma_scan_row_prefix_len(p, y as int, (x + 1) as nat, w as nat);
                assert(g.in_bounds(x as int, y as int));
                assert((x as int) as usize == x && (y as int) as usize == y);
            }
            if crate::cells::rat_or_cyborg(grid.cell_kind_at(x, y)) && dist[y][x] == i32::MAX
                && !component_has_local_rat_death(grid, (x, y)) {
                n = n + 1;
            }
            x = x + 1;
        }
        y = y + 1;
    }
    n
}

} // verus!
