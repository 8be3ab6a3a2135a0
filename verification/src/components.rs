//! The regions a rat could ever roam: cells free of walls and webs, joined through all eight
//! neighbours of each cell, numbered in the order their first cell comes row by row.

use vstd::prelude::*;
use crate::model::{Grid, MAX_SIDE};
use crate::reach::{Walker, reachable, reach_within, blocks_rat_static, can_enter, nb_x, nb_y, degree,
    lemma_step, lemma_pick_neighbour, lemma_within_in_bounds, lemma_within_mono, is_dist_map, dist_map};
use crate::queries::{reach_count, reach_pred, count_marked, spec_rat_component_size_at};
use crate::cells::is_rat;
use crate::scan::board_points;

verus! {

/// A cell no wall or web covers.
pub open spec fn rat_open(g: Grid, x: int, y: int) -> bool {
    g.in_bounds(x, y) && !blocks_rat_static(g.kind_at(x, y))
}

/// The region spread from `(a, b)` holds `(x, y)`.
pub open spec fn joined(g: Grid, a: int, b: int, x: int, y: int) -> bool {
    reachable(g, Walker::RatRegion(a as usize, b as usize), x, y)
}

/// The neighbour in direction `d` of the neighbour in the opposite direction is the cell
/// itself.
proof fn lemma_back_step(x: int, y: int, d: int)
    requires
        0 <= d < 8,
    ensures
        nb_x(nb_x(x, d), crate::reach::opposite(d)) == x,
        nb_y(nb_y(y, d), crate::reach::opposite(d)) == y,
        0 <= crate::reach::opposite(d) < 8,
{
}

/// A cell reached from `(a, b)` is that cell or one a rat may stand on.
proof fn lemma_reached_open(g: Grid, a: int, b: int, k: nat, x: int, y: int)
    requires
        g.w() <= MAX_SIDE,
        g.h() <= MAX_SIDE,
        g.in_bounds(a, b),
        reach_within(g, Walker::RatRegion(a as usize, b as usize), k, x, y),
    ensures
        (x == a && y == b) || rat_open(g, x, y),
    decreases k,
{
    let wk = Walker::RatRegion(a as usize, b as usize);
    if k > 0 {
        let j = (k - 1) as nat;
        if reach_within(g, wk, j, x, y) {
            lemma_reached_open(g, a, b, j, x, y);
        } else {
            let _d = lemma_pick_neighbour(g, wk, j, x, y);
        }
    }
}

/// Spreading from `(a, b)` to `(c, d)` within `i` steps, then from `(c, d)` within `j`
/// steps, spreads from `(a, b)` within `i + j` steps.
proof fn lemma_within_trans(g: Grid, a: int, b: int, c: int, d: int, i: nat, j: nat, x: int, y: int)
    requires
        g.w() <= MAX_SIDE,
        g.h() <= MAX_SIDE,
        0 <= a,
        0 <= b,
        reach_within(g, Walker::RatRegion(a as usize, b as usize), i, c, d),
        reach_within(g, Walker::RatRegion(c as usize, d as usize), j, x, y),
    ensures
        reach_within(g, Walker::RatRegion(a as usize, b as usize), i + j, x, y),
    decreases j,
{
    let wa = Walker::RatRegion(a as usize, b as usize);
    let wc = Walker::RatRegion(c as usize, d as usize);
    lemma_within_in_bounds(g, wa, i, c, d);
    if j == 0 {
        assert(x == c && y == d);
        lemma_within_mono(g, wa, i, i + j, x, y);
    } else {
        let k = (j - 1) as nat;
        if reach_within(g, wc, k, x, y) {
            lemma_within_trans(g, a, b, c, d, i, k, x, y);
            lemma_within_mono(g, wa, i + k, i + j, x, y);
        } else {
            let e = lemma_pick_neighbour(g, wc, k, x, y);
            lemma_within_trans(g, a, b, c, d, i, k, nb_x(x, e), nb_y(y, e));
            lemma_step(g, wa, i + k, x, y, e);
            assert(i + k + 1 == i + j);
        }
    }
}

/// Regions join transitively.
pub proof fn lemma_joined_trans(g: Grid, a: int, b: int, c: int, d: int, x: int, y: int)
    requires
        g.w() <= MAX_SIDE,
        g.h() <= MAX_SIDE,
        0 <= a,
        0 <= b,
        joined(g, a, b, c, d),
        joined(g, c, d, x, y),
    ensures
        joined(g, a, b, x, y),
{
    let wa = Walker::RatRegion(a as usize, b as usize);
    let wc = Walker::RatRegion(c as usize, d as usize);
    let i = choose|i: nat| reach_within(g, wa, i, c, d);
    let j = choose|j: nat| reach_within(g, wc, j, x, y);
    lemma_within_in_bounds(g, wa, i, c, d);
    lemma_within_trans(g, a, b, c, d, i, j, x, y);
}

/// Spreading from an open `(a, b)` to `(x, y)` within `k` steps spreads back within `k`.
proof fn lemma_within_sym(g: Grid, a: int, b: int, k: nat, x: int, y: int)
    requires
        g.w() <= MAX_SIDE,
        g.h() <= MAX_SIDE,
        rat_open(g, a, b),
        reach_within(g, Walker::RatRegion(a as usize, b as usize), k, x, y),
    ensures
        reach_within(g, Walker::RatRegion(x as usize, y as usize), k, a, b),
    decreases k,
{
    let wa = Walker::RatRegion(a as usize, b as usize);
    lemma_within_in_bounds(g, wa, k, x, y);
    let wx = Walker::RatRegion(x as usize, y as usize);
    if k == 0 {
        assert(x == a && y == b);
    } else {
        let j = (k - 1) as nat;
        if reach_within(g, wa, j, x, y) {
            lemma_within_sym(g, a, b, j, x, y);
            lemma_within_mono(g, wx, j, k, a, b);
        } else {
            let d = lemma_pick_neighbour(g, wa, j, x, y);
            let (nx, ny) = (nb_x(x, d), nb_y(y, d));
            lemma_within_in_bounds(g, wa, j, nx, ny);
            lemma_reached_open(g, a, b, j, nx, ny);
            lemma_within_sym(g, a, b, j, nx, ny);
            let wn = Walker::RatRegion(nx as usize, ny as usize);
            assert(reach_within(g, wn, j, a, b));
            lemma_back_step(x, y, d);
            let e = crate::reach::opposite(d);
            assert(reach_within(g, wx, 0, nb_x(nx, e), nb_y(ny, e)));
            assert(can_enter(wx, g.kind_at(nx, ny)));
            assert(0 <= e < degree(wx));
            lemma_step(g, wx, 0, nx, ny, e);
            lemma_within_trans(g, x, y, nx, ny, 1, j, a, b);
            assert(1 + j == k);
        }
    }
}

/// Regions of open cells join both ways.
pub proof fn lemma_joined_sym(g: Grid, a: int, b: int, x: int, y: int)
    requires
        g.w() <= MAX_SIDE,
        g.h() <= MAX_SIDE,
        rat_open(g, a, b),
        joined(g, a, b, x, y),
    ensures
        joined(g, x, y, a, b),
{
    let wa = Walker::RatRegion(a as usize, b as usize);
    let k = choose|k: nat| reach_within(g, wa, k, x, y);
    lemma_within_sym(g, a, b, k, x, y);
}

/// Every open cell lies in its own region.
pub proof fn lemma_joined_refl(g: Grid, a: int, b: int)
    requires
        g.w() <= MAX_SIDE,
        g.h() <= MAX_SIDE,
        rat_open(g, a, b),
    ensures
        joined(g, a, b, a, b),
{
    assert(reach_within(g, Walker::RatRegion(a as usize, b as usize), 0, a, b));
}

/// `(a, b)` comes before `(c, d)` row by row.
pub open spec fn precedes(a: int, b: int, c: int, d: int) -> bool {
    b < d || (b == d && a < c)
}

/// The number the map gives the cell at `(x, y)`.
pub open spec fn label(comp: Seq<Vec<i32>>, x: int, y: int) -> int {
    comp[y]@[x] as int
}

/// `comp` numbers the rat regions of the board and `sizes` gives their sizes: `-1` marks
/// exactly the cells under walls and webs; two open cells carry the same number exactly
/// when they lie in one region; the size of a cell's region is listed under its number;
/// and the numbers follow the order in which the regions' first cells come row by row.
pub open spec fn is_component_map(g: Grid, comp: Seq<Vec<i32>>, sizes: Seq<usize>) -> bool {
    &&& comp.len() == g.h()
    &&& forall|y: int| 0 <= y < g.h() ==> #[trigger] comp[y]@.len() == g.w()
    &&& forall|x: int, y: int| g.in_bounds(x, y) ==> (#[trigger] label(comp, x, y) == -1 <==> !rat_open(g, x, y))
    &&& forall|x: int, y: int| rat_open(g, x, y) ==> 0 <= #[trigger] label(comp, x, y) < sizes.len()
    &&& forall|a: int, b: int, x: int, y: int| rat_open(g, a, b) && rat_open(g, x, y) ==>
        (#[trigger] label(comp, a, b) == #[trigger] label(comp, x, y) <==> joined(g, a, b, x, y))
    &&& forall|x: int, y: int| rat_open(g, x, y) ==>
        sizes[#[trigger] label(comp, x, y)] == reach_count(g, Walker::RatRegion(x as usize, y as usize))
    &&& forall|x: int, y: int| rat_open(g, x, y) && #[trigger] label(comp, x, y) > 0 ==>
        exists|a: int, b: int| #![trigger label(comp, a, b)]
            rat_open(g, a, b) && precedes(a, b, x, y) && label(comp, a, b) == label(comp, x, y) - 1
    &&& forall|k: int| 0 <= k < sizes.len() ==> #[trigger] sizes[k] > 0
        && exists|x: int, y: int| #![trigger label(comp, x, y)] rat_open(g, x, y) && label(comp, x, y) == k
}

/// What holds once the cells before `(x0, y0)` are numbered: the leaders (first cells of the
/// regions found) are numbered in order, every cell a leader's region holds carries the
/// leader's number, every numbered cell lies in its leader's region and not before the
/// leader, and every open cell already passed is numbered.
pub open spec fn scan_ok(g: Grid, comp: Seq<Vec<i32>>, sizes: Seq<usize>, leaders: Seq<(int, int)>, x0: int, y0: int) -> bool {
    &&& comp.len() == g.h()
    &&& forall|y: int| 0 <= y < g.h() ==> #[trigger] comp[y]@.len() == g.w()
    &&& leaders.len() == sizes.len()
    &&& forall|k: int| 0 <= k < leaders.len() ==> {
        let l = #[trigger] leaders[k];
        &&& rat_open(g, l.0, l.1)
        &&& precedes(l.0, l.1, x0, y0)
        &&& label(comp, l.0, l.1) == k
        &&& sizes[k] == reach_count(g, Walker::RatRegion(l.0 as usize, l.1 as usize))
    }
    &&& forall|k: int, m: int| 0 <= k < m < leaders.len() ==> precedes((#[trigger] leaders[k]).0, leaders[k].1, (#[trigger] leaders[m]).0, leaders[m].1)
    &&& forall|k: int, a: int, b: int| 0 <= k < leaders.len() && #[trigger] joined(g, leaders[k].0, leaders[k].1, a, b)
        ==> label(comp, a, b) == k
    &&& forall|a: int, b: int| g.in_bounds(a, b) ==> -1 <= #[trigger] label(comp, a, b) < leaders.len()
    &&& forall|a: int, b: int| g.in_bounds(a, b) && #[trigger] label(comp, a, b) != -1 ==> {
        let l = leaders[label(comp, a, b)];
        &&& joined(g, l.0, l.1, a, b)
        &&& !precedes(a, b, l.0, l.1)
    }
    &&& forall|a: int, b: int| rat_open(g, a, b) && precedes(a, b, x0, y0) ==> #[trigger] label(comp, a, b) != -1
}

/// Regions that hold the same cells have the same size.
proof fn lemma_same_region_count(g: Grid, a: int, b: int, x: int, y: int)
    requires
        g.w() <= MAX_SIDE,
        g.h() <= MAX_SIDE,
        rat_open(g, a, b),
        joined(g, a, b, x, y),
    ensures
        reach_count(g, Walker::RatRegion(a as usize, b as usize)) == reach_count(g, Walker::RatRegion(x as usize, y as usize)),
{
    lemma_within_in_bounds_joined(g, a, b, x, y);
    lemma_joined_sym(g, a, b, x, y);
    let pa = reach_pred(g, Walker::RatRegion(a as usize, b as usize));
    let px = reach_pred(g, Walker::RatRegion(x as usize, y as usize));
    assert forall|u: int, v: int| #[trigger] pa(u, v) == px(u, v) by {
        if joined(g, a, b, u, v) {
            lemma_joined_trans(g, x, y, a, b, u, v);
        }
        if joined(g, x, y, u, v) {
            lemma_joined_trans(g, a, b, x, y, u, v);
        }
    }
    assert(pa =~= px);
}

/// The region of an open cell holds at least that cell.
proof fn lemma_region_not_empty(g: Grid, a: int, b: int)
    requires
        g.w() <= MAX_SIDE,
        g.h() <= MAX_SIDE,
        rat_open(g, a, b),
    ensures
        reach_count(g, Walker::RatRegion(a as usize, b as usize)) > 0,
{
    let p = reach_pred(g, Walker::RatRegion(a as usize, b as usize));
    lemma_joined_refl(g, a, b);
    crate::scan::lemma_board_points(g, p);
    assert(board_points(g, p).contains((a, b)));
}

/// A cell a region holds lies on the board.
proof fn lemma_within_in_bounds_joined(g: Grid, a: int, b: int, x: int, y: int)
    requires
        joined(g, a, b, x, y),
    ensures
        g.in_bounds(x, y),
        0 <= x,
        0 <= y,
{
    let wa = Walker::RatRegion(a as usize, b as usize);
    let k = choose|k: nat| reach_within(g, wa, k, x, y);
    lemma_within_in_bounds(g, wa, k, x, y);
}

/// A cell a region of an open cell holds is open.
proof fn lemma_joined_open(g: Grid, a: int, b: int, x: int, y: int)
    requires
        g.w() <= MAX_SIDE,
        g.h() <= MAX_SIDE,
        rat_open(g, a, b),
        joined(g, a, b, x, y),
    ensures
        rat_open(g, x, y),
{
    let wa = Walker::RatRegion(a as usize, b as usize);
    let k = choose|k: nat| reach_within(g, wa, k, x, y);
    lemma_reached_open(g, a, b, k, x, y);
}

/// Once every cell is passed, the numbering is a component map.
proof fn lemma_scan_done(g: Grid, comp: Seq<Vec<i32>>, sizes: Seq<usize>, leaders: Seq<(int, int)>)
    requires
        g.w() <= MAX_SIDE,
        g.h() <= MAX_SIDE,
        scan_ok(g, comp, sizes, leaders, 0, g.h() as int),
    ensures
        is_component_map(g, comp, sizes),
{
    assert forall|x: int, y: int| g.in_bounds(x, y) implies (#[trigger] label(comp, x, y) == -1 <==> !rat_open(g, x, y)) by {
        if rat_open(g, x, y) {
            assert(precedes(x, y, 0, g.h() as int));
        }
        if label(comp, x, y) != -1 {
            let l = leaders[label(comp, x, y)];
            lemma_joined_open(g, l.0, l.1, x, y);
        }
    }
    assert forall|a: int, b: int, x: int, y: int| rat_open(g, a, b) && rat_open(g, x, y) implies
        (#[trigger] label(comp, a, b) == #[trigger] label(comp, x, y) <==> joined(g, a, b, x, y)) by {
        assert(precedes(x, y, 0, g.h() as int));
        assert(precedes(a, b, 0, g.h() as int));
        let k = label(comp, a, b);
        let l = leaders[k];
        assert(joined(g, l.0, l.1, a, b));
        if label(comp, a, b) == label(comp, x, y) {
            assert(joined(g, l.0, l.1, x, y));
            lemma_joined_sym(g, l.0, l.1, a, b);
            lemma_joined_trans(g, a, b, l.0, l.1, x, y);
        }
        if joined(g, a, b, x, y) {
            lemma_joined_trans(g, l.0, l.1, a, b, x, y);
        }
    }
    assert forall|x: int, y: int| rat_open(g, x, y) implies
        sizes[#[trigger] label(comp, x, y)] == reach_count(g, Walker::RatRegion(x as usize, y as usize)) by {
        assert(precedes(x, y, 0, g.h() as int));
        let l = leaders[label(comp, x, y)];
        lemma_same_region_count(g, l.0, l.1, x, y);
    }
    assert forall|x: int, y: int| rat_open(g, x, y) && #[trigger] label(comp, x, y) > 0 implies
        exists|a: int, b: int| #![trigger label(comp, a, b)]
            rat_open(g, a, b) && precedes(a, b, x, y) && label(comp, a, b) == label(comp, x, y) - 1 by {
        let k = label(comp, x, y);
        let l = leaders[k];
        let p = leaders[k - 1];
        assert(precedes(p.0, p.1, l.0, l.1));
        assert(label(comp, p.0, p.1) == k - 1);
    }
    assert forall|k: int| 0 <= k < sizes.len() implies #[trigger] sizes[k] > 0
        && exists|x: int, y: int| #![trigger label(comp, x, y)] rat_open(g, x, y) && label(comp, x, y) == k by {
        let l = leaders[k];
        assert(label(comp, l.0, l.1) == k);
        lemma_region_not_empty(g, l.0, l.1);
    }
    assert forall|x: int, y: int| rat_open(g, x, y) implies 0 <= #[trigger] label(comp, x, y) < sizes.len() by {
        assert(precedes(x, y, 0, g.h() as int));
    }
}

/// Passing the end of a row is starting the next one.
proof fn lemma_next_row(g: Grid, comp: Seq<Vec<i32>>, sizes: Seq<usize>, leaders: Seq<(int, int)>, y: int)
    requires
        scan_ok(g, comp, sizes, leaders, g.w() as int, y),
    ensures
        scan_ok(g, comp, sizes, leaders, 0, y + 1),
{
    assert forall|a: int, b: int| rat_open(g, a, b) && precedes(a, b, 0, y + 1) implies #[trigger] label(comp, a, b) != -1 by {
        assert(precedes(a, b, g.w() as int, y));
    }
}

/// Numbering the region of a new leader `(x, y)` keeps the scan's facts, one cell further.
proof fn lemma_new_leader(g: Grid, old: Seq<Vec<i32>>, new: Seq<Vec<i32>>, sizes: Seq<usize>, leaders: Seq<(int, int)>,
    dist: Seq<Vec<i32>>, size: usize, x: int, y: int)
    requires
        g.w() <= MAX_SIDE,
        g.h() <= MAX_SIDE,
        scan_ok(g, old, sizes, leaders, x, y),
        rat_open(g, x, y),
        label(old, x, y) == -1,
        is_dist_map(g, Walker::RatRegion(x as usize, y as usize), dist),
        size == reach_count(g, Walker::RatRegion(x as usize, y as usize)),
        new.len() == g.h(),
        forall|r: int| 0 <= r < g.h() ==> #[trigger] new[r]@.len() == g.w(),
        forall|a: int, b: int| g.in_bounds(a, b) ==> #[trigger] label(new, a, b)
            == if dist[b]@[a] != i32::MAX { leaders.len() as int } else { label(old, a, b) },
    ensures
        scan_ok(g, new, sizes.push(size), leaders.push((x, y)), x + 1, y),
{
    let n = leaders.len() as int;
    let ls = leaders.push((x, y));
    let ss = sizes.push(size);
    lemma_joined_refl(g, x, y);
    // A cell of the new region lies in no earlier region.
    assert forall|a: int, b: int| #[trigger] joined(g, x, y, a, b) implies g.in_bounds(a, b) && rat_open(g, a, b)
        && label(old, a, b) == -1 && dist[b]@[a] != i32::MAX by {
        lemma_within_in_bounds_joined(g, x, y, a, b);
        lemma_joined_open(g, x, y, a, b);
        if label(old, a, b) != -1 {
            let l = leaders[label(old, a, b)];
            lemma_within_in_bounds_joined(g, l.0, l.1, a, b);
            lemma_joined_sym(g, x, y, a, b);
            lemma_joined_trans(g, l.0, l.1, a, b, x, y);
            assert(label(old, x, y) == label(old, a, b));
        }
    }
    assert forall|a: int, b: int| g.in_bounds(a, b) && #[trigger] dist[b]@[a] != i32::MAX implies joined(g, x, y, a, b) by {
    }
    assert forall|k: int| 0 <= k < ls.len() implies {
        let l = #[trigger] ls[k];
        &&& rat_open(g, l.0, l.1)
        &&& precedes(l.0, l.1, x + 1, y)
        &&& label(new, l.0, l.1) == k
        &&& ss[k] == reach_count(g, Walker::RatRegion(l.0 as usize, l.1 as usize))
    } by {
        if k < n {
            let l = leaders[k];
            assert(ls[k] == l);
            assert(rat_open(g, l.0, l.1));
            if dist[l.1]@[l.0] != i32::MAX {
                assert(joined(g, x, y, l.0, l.1));
            }
        } else {
            assert(ls[k] == (x, y));
            assert(dist[y]@[x] != i32::MAX);
        }
    }
    assert forall|k: int, m: int| 0 <= k < m < ls.len() implies precedes((#[trigger] ls[k]).0, ls[k].1, (#[trigger] ls[m]).0, ls[m].1) by {
        if m < n {
            assert(ls[k] == leaders[k]);
            assert(ls[m] == leaders[m]);
        } else {
            assert(ls[k] == leaders[k]);
            assert(ls[m] == (x, y));
        }
    }
    assert forall|k: int, a: int, b: int| 0 <= k < ls.len() && #[trigger] joined(g, ls[k].0, ls[k].1, a, b)
        implies label(new, a, b) == k by {
        if k < n {
            let l = leaders[k];
            assert(ls[k] == l);
            lemma_within_in_bounds_joined(g, l.0, l.1, a, b);
            assert(label(old, a, b) == k);
            if dist[b]@[a] != i32::MAX {
                assert(joined(g, x, y, a, b));
            }
        } else {
            assert(ls[k] == (x, y));
            assert(joined(g, x, y, a, b));
        }
    }
    assert forall|a: int, b: int| g.in_bounds(a, b) && #[trigger] label(new, a, b) != -1 implies {
        let l = ls[label(new, a, b)];
        &&& joined(g, l.0, l.1, a, b)
        &&& !precedes(a, b, l.0, l.1)
    } by {
        if dist[b]@[a] != i32::MAX {
            assert(joined(g, x, y, a, b));
            assert(ls[n] == (x, y));
            if precedes(a, b, x, y) {
                assert(label(old, a, b) != -1);
            }
        } else {
            assert(label(old, a, b) != -1);
            assert(ls[label(old, a, b)] == leaders[label(old, a, b)]);
        }
    }
    assert forall|a: int, b: int| rat_open(g, a, b) && precedes(a, b, x + 1, y) implies #[trigger] label(new, a, b) != -1 by {
        if !(a == x && b == y) {
            assert(precedes(a, b, x, y));
        } else {
            assert(dist[y]@[x] != i32::MAX);
        }
    }
}

/// Numbers the rat regions of the board: `-1` for every cell under a wall or a web, and for
/// every other cell the number of its region, regions numbered in the order their first
/// cells come row by row; with the size of each region.
pub fn rat_component_map(grid: &Grid) -> (r: (Vec<Vec<i32>>, Vec<usize>))
    ensures
        is_component_map(*grid, r.0@, r.1@),
{
    let ghost g = *grid;
    let h = grid.height();
    let w = grid.width();
    let mut comp: Vec<Vec<i32>> = Vec::new();
    let mut y: usize = 0;
    while y < h
        invariant
            h == g.h(),
            w == g.w(),
            y <= h,
            comp@.len() == y,
            forall|r: int| 0 <= r < y ==> #[trigger] comp@[r]@.len() == w,
            forall|a: int, b: int| 0 <= b < y && 0 <= a < w ==> #[trigger] comp@[b]@[a] == -1,
        decreases h - y,
    {
        let row: Vec<i32> = vec![-1i32; w];
        proof {
            assert forall|a: int| 0 <= a < w implies row@[a] == -1 by {
                assert(cloned(-1i32, row@[a]));
            }
        }
        comp.push(row);
        y = y + 1;
    }
    let mut sizes: Vec<usize> = Vec::new();
    let ghost mut leaders: Seq<(int, int)> = Seq::empty();
    proof {
        assert forall|a: int, b: int| g.in_bounds(a, b) implies -1 <= #[trigger] label(comp@, a, b) < leaders.len() by {
            assert(comp@[b]@[a] == -1);
        }
        assert forall|k: int, a: int, b: int| 0 <= k < leaders.len() && #[trigger] joined(g, leaders[k].0, leaders[k].1, a, b)
            implies label(comp@, a, b) == k by {
        }
        assert forall|a: int, b: int| g.in_bounds(a, b) && #[trigger] label(comp@, a, b) != -1 implies {
            let l = leaders[label(comp@, a, b)];
            &&& joined(g, l.0, l.1, a, b)
            &&& !precedes(a, b, l.0, l.1)
        } by {
            assert(comp@[b]@[a] == -1);
        }
    }
    let mut y: usize = 0;
    while y < h
        invariant
            g == *grid,
            h == g.h(),
            w == g.w(),
            h <= MAX_SIDE,
            w <= MAX_SIDE,
            y <= h,
            scan_ok(g, comp@, sizes@, leaders, 0, y as int),
            sizes@.len() <= y * w,
        decreases h - y,
    {
        let mut x: usize = 0;
        while x < w
            invariant
                g == *grid,
                h == g.h(),
                w == g.w(),
                h <= MAX_SIDE,
                w <= MAX_SIDE,
                y < h,
                x <= w,
                scan_ok(g, comp@, sizes@, leaders, x as int, y as int),
                sizes@.len() <= y * w + x,
            decreases w - x,
        {
            proof {
                assert(comp@[y as int]@.len() == w);
            }
            let k = grid.cell_kind_at(x, y);
            let open = !matches!(k, crate::model::CellKind::Wall | crate::model::CellKind::Spiderweb);
            if comp[y][x] == -1 && open {
                proof {
                    assert(y * w + x < 1024 * 1024) by (nonlinear_arith)
                        requires y < h, h <= 1024, x < w, w <= 1024;
                    assert(label(comp@, x as int, y as int) == -1);
                }
                let walker = Walker::RatRegion(x, y);
                let dist = dist_map(grid, walker);
                let size = count_marked(grid, &dist, walker);
                let id = sizes.len() as i32;
                let ghost old = comp@;
                let mut yy: usize = 0;
                while yy < h
                    invariant
                        g == *grid,
                        h == g.h(),
                        w == g.w(),
                        yy <= h,
                        is_dist_map(g, walker, dist@),
                        old.len() == h,
                        forall|r: int| 0 <= r < h ==> #[trigger] old[r]@.len() == w,
                        comp@.len() == h,
                        forall|r: int| 0 <= r < h ==> #[trigger] comp@[r]@.len() == w,
                        forall|a: int, b: int| 0 <= b < yy && 0 <= a < w ==> #[trigger] comp@[b]@[a]
                            == if dist@[b]@[a] != i32::MAX { id } else { old[b]@[a] },
                        forall|b: int| yy <= b < h ==> #[trigger] comp@[b] == old[b],
                    decreases h - yy,
                {
                    let mut row: Vec<i32> = Vec::new();
                    let mut xx: usize = 0;
                    proof {
                        assert(dist@[yy as int]@.len() == w);
                        assert(comp@[yy as int] == old[yy as int]);
                    }
                    while xx < w
                        invariant
                            h == g.h(),
                            w == g.w(),
                            yy < h,
                            xx <= w,
                            is_dist_map(g, walker, dist@),
                            dist@[yy as int]@.len() == w,
                            comp@.len() == h,
                            comp@[yy as int] == old[yy as int],
                            old[yy as int]@.len() == w,
                            row@.len() == xx,
                            forall|a: int| 0 <= a < xx ==> #[trigger] row@[a]
                                == if dist@[yy as int]@[a] != i32::MAX { id } else { old[yy as int]@[a] },
                        decreases w - xx,
                    {
                        if dist[yy][xx] != i32::MAX {
                            row.push(id);
                        } else {
                            row.push(comp[yy][xx]);
                        }
                        xx = xx + 1;
                    }
                    comp.set(yy, row);
                    yy = yy + 1;
                }
                sizes.push(size);
                proof {
                    let ghost oldsizes = sizes@.drop_last();
                    assert(oldsizes.push(size) == sizes@);
                    assert forall|a: int, b: int| g.in_bounds(a, b) implies #[trigger] label(comp@, a, b)
                        == if dist@[b]@[a] != i32::MAX { leaders.len() as int } else { label(old, a, b) } by {
                        assert(comp@[b]@[a] == if dist@[b]@[a] != i32::MAX { id } else { old[b]@[a] });
                    }
                    lemma_new_leader(g, old, comp@, oldsizes, leaders, dist@, size, x as int, y as int);
                    leaders = leaders.push((x as int, y as int));
                }
            } else {
                proof {
                    assert forall|a: int, b: int| rat_open(g, a, b) && precedes(a, b, x + 1, y as int)
                        implies #[trigger] label(comp@, a, b) != -1 by {
                        if a == x && b == y {
                            assert(label(comp@, a, b) == comp@[y as int]@[x as int]);
                        } else {
                            assert(precedes(a, b, x as int, y as int));
                        }
                    }
                }
            }
            x = x + 1;
        }
        proof {
            lemma_next_row(g, comp@, sizes@, leaders, y as int);
            assert(y * w + w == (y + 1) * w) by (nonlinear_arith);
        }
        y = y + 1;
    }
    proof {
        lemma_scan_done(g, comp@, sizes@, leaders);
    }
    (comp, sizes)
}

/// The size a component map lists for the region of a rat is the size of the region around
/// that rat, as `rat_component_size_at` gives it.
pub proof fn law_map_sizes_match(g: Grid, comp: Seq<Vec<i32>>, sizes: Seq<usize>, x: int, y: int)
    requires
        g.w() <= MAX_SIDE,
        g.h() <= MAX_SIDE,
        is_component_map(g, comp, sizes),
        g.in_bounds(x, y),
        is_rat(g.kind_at(x, y)),
    ensures
        spec_rat_component_size_at(g, (x as i32, y as i32)) == Some(sizes[label(comp, x, y)]),
{
    assert(rat_open(g, x, y));
    assert((x as i32) as int == x && (y as i32) as int == y);
}

} // verus!
