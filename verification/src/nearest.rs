//! Marked cells of a board: how many there are, and how far the nearest one is from the
//! players.

use vstd::prelude::*;
use crate::model::{Grid, MAX_SIDE};
use crate::cells::{CellClass, class_has};
use crate::scan::{board_points, scan_rows, scan_row, class_pred, lemma_scan_rows_len,
    lemma_scan_row_prefix_len, lemma_board_points_bound};
use crate::reach::{walkable_from_player, is_player_dist_map};
use crate::reachability::{shortest_walk, lemma_shortest_unique};

verus! {

/// The fewest steps that take a player to `(x, y)`, for a cell some player can walk to.
pub open spec fn dist_of(g: Grid, x: int, y: int) -> int {
    choose|d: int| shortest_walk(g, x, y, d)
}

/// `(x, y)` is on the board, passes `p`, and some player can walk to it.
pub open spec fn open_cell(g: Grid, p: spec_fn(int, int) -> bool, x: int, y: int) -> bool {
    g.in_bounds(x, y) && p(x, y) && walkable_from_player(g, x, y)
}

/// `d` is the smallest walking distance to a cell that passes `p`.
pub open spec fn is_min_dist(g: Grid, p: spec_fn(int, int) -> bool, d: int) -> bool {
    &&& exists|x: int, y: int| #[trigger] open_cell(g, p, x, y) && dist_of(g, x, y) == d
    &&& forall|x: int, y: int| #[trigger] open_cell(g, p, x, y) ==> d <= dist_of(g, x, y)
}

/// The smallest walking distance to a cell that passes `p`; `None` when the players can
/// walk to no such cell.
pub open spec fn min_dist(g: Grid, p: spec_fn(int, int) -> bool) -> Option<int> {
    if exists|x: int, y: int| #[trigger] open_cell(g, p, x, y) {
        Some(choose|d: int| is_min_dist(g, p, d))
    } else {
        None
    }
}

/// An optional machine integer as an optional mathematical one.
pub open spec fn opt_int(o: Option<i64>) -> Option<int> {
    match o {
        Some(v) => Some(v as int),
        None => None,
    }
}

/// The mask has the board's shape and is set exactly at the cells of the board that pass `p`.
pub open spec fn mask_agrees(g: Grid, m: Seq<Vec<bool>>, p: spec_fn(int, int) -> bool) -> bool {
    &&& m.len() == g.h()
    &&& forall|y: int| 0 <= y < g.h() ==> #[trigger] m[y]@.len() == g.w()
    &&& forall|x: int, y: int| g.in_bounds(x, y) ==> (#[trigger] m[y]@[x] == p(x, y))
}

/// A distance map holds the fewest steps to each cell the players can walk to.
pub proof fn lemma_dist_entry(g: Grid, dist: Seq<Vec<i32>>, x: int, y: int)
    requires
        is_player_dist_map(g, dist),
        g.in_bounds(x, y),
        walkable_from_player(g, x, y),
    ensures
        dist[y]@[x] as int == dist_of(g, x, y),
        0 <= dist_of(g, x, y) < i32::MAX,
{
    let d = dist[y]@[x] as int;
    assert(shortest_walk(g, x, y, d));
    lemma_shortest_unique(g, x, y, d, dist_of(g, x, y));
}

/// The smallest distance is unique.
pub proof fn lemma_min_dist_unique(g: Grid, p: spec_fn(int, int) -> bool, a: int, b: int)
    requires
        is_min_dist(g, p, a),
        is_min_dist(g, p, b),
    ensures
        a == b,
{
    let (xa, ya) = choose|x: int, y: int| #[trigger] open_cell(g, p, x, y) && dist_of(g, x, y) == a;
    let (xb, yb) = choose|x: int, y: int| #[trigger] open_cell(g, p, x, y) && dist_of(g, x, y) == b;
    assert(open_cell(g, p, xa, ya));
    assert(open_cell(g, p, xb, yb));
}

/// A smallest distance found is the one `min_dist` names.
pub proof fn lemma_min_dist_is(g: Grid, p: spec_fn(int, int) -> bool, d: int)
    requires
        is_min_dist(g, p, d),
    ensures
        min_dist(g, p) == Some(d),
{
    let (x, y) = choose|x: int, y: int| #[trigger] open_cell(g, p, x, y) && dist_of(g, x, y) == d;
    assert(open_cell(g, p, x, y));
    let c = choose|e: int| is_min_dist(g, p, e);
    lemma_min_dist_unique(g, p, c, d);
}

/// The nearest cell passing `p` that a player can walk to is no farther than any other such
/// cell: the smallest distance exists and is at most the distance to each of them.
pub proof fn law_nearest_distance_is_least(g: Grid, p: spec_fn(int, int) -> bool, x: int, y: int)
    requires
        open_cell(g, p, x, y),
    ensures
        min_dist(g, p) is Some,
        min_dist(g, p)->0 <= dist_of(g, x, y),
        is_min_dist(g, p, min_dist(g, p)->0),
{
    lemma_min_exists(g, p, x, y);
    let c = choose|e: int| is_min_dist(g, p, e);
    assert(open_cell(g, p, x, y));
}

/// Some cell passing `p` is nearest.
proof fn lemma_min_exists(g: Grid, p: spec_fn(int, int) -> bool, x: int, y: int)
    requires
        open_cell(g, p, x, y),
    ensures
        exists|d: int| is_min_dist(g, p, d),
    decreases dist_of(g, x, y),
{
    lemma_dist_nonneg(g, x, y);
    if !is_min_dist(g, p, dist_of(g, x, y)) {
        assert(exists|x: int, y: int| #[trigger] open_cell(g, p, x, y) && dist_of(g, x, y) == dist_of(g, x, y));
        let (a, b) = choose|a: int, b: int| #[trigger] open_cell(g, p, a, b) && !(dist_of(g, x, y) <= dist_of(g, a, b));
        lemma_dist_nonneg(g, a, b);
        lemma_min_exists(g, p, a, b);
    }
}

/// Walking distances are never negative.
proof fn lemma_dist_nonneg(g: Grid, x: int, y: int)
    requires
        walkable_from_player(g, x, y),
    ensures
        shortest_walk(g, x, y, dist_of(g, x, y)),
        0 <= dist_of(g, x, y),
{
    lemma_shortest_exists(g, x, y);
}

/// A cell some player can walk to has a fewest number of steps.
proof fn lemma_shortest_exists(g: Grid, x: int, y: int)
    requires
        walkable_from_player(g, x, y),
    ensures
        exists|d: int| shortest_walk(g, x, y, d),
{
    let k = choose|k: nat| crate::reach::reach_within(g, crate::reach::Walker::Players, k, x, y);
    lemma_shortest_below(g, x, y, k);
}

/// Within `k` steps there is a fewest.
proof fn lemma_shortest_below(g: Grid, x: int, y: int, k: nat)
    requires
        crate::reach::walk_within(g, k, x, y),
    ensures
        exists|d: int| shortest_walk(g, x, y, d),
    decreases k,
{
    if k == 0 {
        assert(shortest_walk(g, x, y, 0));
    } else if crate::reach::walk_within(g, (k - 1) as nat, x, y) {
        lemma_shortest_below(g, x, y, (k - 1) as nat);
    } else {
        assert(shortest_walk(g, x, y, k as int));
    }
}

/// Counts the cells of the board that pass `p`, given the mask of those cells.
pub fn count_mask(grid: &Grid, mask: &Vec<Vec<bool>>, Ghost(p): Ghost<spec_fn(int, int) -> bool>) -> (n: usize)
    requires
        mask_agrees(*grid, mask@, p),
    ensures
        n == board_points(*grid, p).len(),
        n <= MAX_SIDE * MAX_SIDE,
{
    let ghost g = *grid;
    let h = grid.height();
    let w = grid.width();
    let mut n: usize = 0;
    let mut y: usize = 0;
    proof {
        lemma_board_points_bound(g, p);
    }
    while y < h
        invariant
            g == *grid,
            mask_agrees(g, mask@, p),
            h == g.h(),
            w == g.w(),
            h <= MAX_SIDE,
            w <= MAX_SIDE,
            y <= h,
            n == scan_rows(p, w as nat, y as nat).len(),
            board_points(g, p).len() <= MAX_SIDE * MAX_SIDE,
        decreases h - y,
    {
        let mut x: usize = 0;
        proof {
            lemma_scan_rows_len(p, w as nat, (y + 1) as nat);
            assert((y + 1) * w <= MAX_SIDE * MAX_SIDE) by (nonlinear_arith)
                requires y + 1 <= MAX_SIDE, w <= MAX_SIDE;
            assert(mask@[y as int]@.len() == w);
        }
        while x < w
            invariant
                g == *grid,
                mask_agrees(g, mask@, p),
                h == g.h(),
                w == g.w(),
                y < h,
                x <= w,
                mask@[y as int]@.len() == w,
                n == scan_rows(p, w as nat, y as nat).len() + scan_row(p, y as int, x as nat).len(),
                scan_rows(p, w as nat, y as nat).len() + scan_row(p, y as int, w as nat).len() <= MAX_SIDE * MAX_SIDE,
            decreases w - x,
        {
            proof {
                lemma_scan_row_prefix_len(p, y as int, (x + 1) as nat, w as nat);
                assert(g.in_bounds(x as int, y as int));
            }
            if mask[y][x] {
                n = n + 1;
            }
            x = x + 1;
        }
        y = y + 1;
    }
    n
}

/// The smallest walking distance to a cell that passes `p`, given the mask of those cells and
/// the players' distance map.
pub fn nearest_mask(grid: &Grid, dist: &Vec<Vec<i32>>, mask: &Vec<Vec<bool>>, Ghost(p): Ghost<spec_fn(int, int) -> bool>) -> (r: Option<i64>)
    requires
        is_player_dist_map(*grid, dist@),
        mask_agrees(*grid, mask@, p),
    ensures
        opt_int(r) == min_dist(*grid, p),
        r matches Some(d) ==> 0 <= d < i32::MAX,
{
    let ghost g = *grid;
    let h = grid.height();
    let w = grid.width();
    let mut best: Option<i64> = None;
    let mut y: usize = 0;
    while y < h
        invariant
            g == *grid,
            is_player_dist_map(g, dist@),
            mask_agrees(g, mask@, p),
            h == g.h(),
            w == g.w(),
            y <= h,
            best is None <==> !exists|a: int, b: int| #[trigger] open_cell(g, p, a, b) && b < y,
            best matches Some(d) ==> {
                &&& 0 <= d < i32::MAX
                &&& exists|a: int, b: int| #[trigger] open_cell(g, p, a, b) && b < y && dist_of(g, a, b) == d
                &&& forall|a: int, b: int| #[trigger] open_cell(g, p, a, b) && b < y ==> d <= dist_of(g, a, b)
            },
        decreases h - y,
    {
        let mut x: usize = 0;
        proof {
            assert(mask@[y as int]@.len() == w);
            assert(dist@[y as int]@.len() == w);
        }
        while x < w
            invariant
                g == *grid,
                is_player_dist_map(g, dist@),
                mask_agrees(g, mask@, p),
                h == g.h(),
                w == g.w(),
                y < h,
                x <= w,
                mask@[y as int]@.len() == w,
                dist@[y as int]@.len() == w,
                best is None <==> !exists|a: int, b: int| #[trigger] open_cell(g, p, a, b) && (b < y || (b == y && a < x)),
                best matches Some(d) ==> {
                    &&& 0 <= d < i32::MAX
                    &&& exists|a: int, b: int| #[trigger] open_cell(g, p, a, b) && (b < y || (b == y && a < x)) && dist_of(g, a, b) == d
                    &&& forall|a: int, b: int| #[trigger] open_cell(g, p, a, b) && (b < y || (b == y && a < x)) ==> d <= dist_of(g, a, b)
                },
            decreases w - x,
        {
            proof {
                assert(g.in_bounds(x as int, y as int));
            }
            let ghost old_best = best;
            if mask[y][x] {
                let d = dist[y][x];
                if d != i32::MAX {
                    proof {
                        lemma_dist_entry(g, dist@, x as int, y as int);
                        assert(open_cell(g, p, x as int, y as int));
                    }
                    let d = d as i64;
                    best = match best {
                        None => Some(d),
                        Some(b) => if d < b { Some(d) } else { Some(b) },
                    };
                }
            }
            proof {
                let xi = x as int;
                let yi = y as int;
                if !open_cell(g, p, xi, yi) {
                    assert forall|a: int, b: int| #[trigger] open_cell(g, p, a, b) && (b < y || (b == y && a < x + 1))
                        implies (b < y || (b == y && a < x)) by {}
                } else {
                    lemma_dist_entry(g, dist@, xi, yi);
                }
            }
            x = x + 1;
        }
        y = y + 1;
    }
    proof {
        match best {
            Some(d) => {
                assert(is_min_dist(g, p, d as int));
                lemma_min_dist_is(g, p, d as int);
            }
            None => {
                assert forall|a: int, b: int| #[trigger] open_cell(g, p, a, b) implies false by {
                    assert(b < h);
                }
            }
        }
    }
    best
}

/// The mask of the cells of class `class`.
pub fn class_mask(grid: &Grid, class: CellClass) -> (m: Vec<Vec<bool>>)
    ensures
        mask_agrees(*grid, m@, class_pred(*grid, class)),
{
    let ghost g = *grid;
    let h = grid.height();
    let w = grid.width();
    let mut m: Vec<Vec<bool>> = Vec::new();
    let mut y: usize = 0;
    while y < h
        invariant
            g == *grid,
            h == g.h(),
            w == g.w(),
            y <= h,
            m@.len() == y,
            forall|b: int| 0 <= b < y ==> #[trigger] m@[b]@.len() == w,
            forall|a: int, b: int| 0 <= b < y && 0 <= a < w ==> (#[trigger] m@[b]@[a] == class_has(class, g.kind_at(a, b), b)),
        decreases h - y,
    {
        let mut row: Vec<bool> = Vec::new();
        let mut x: usize = 0;
        while x < w
            invariant
                g == *grid,
                h == g.h(),
                w == g.w(),
                y < h,
                x <= w,
                row@.len() == x,
                forall|a: int| 0 <= a < x ==> (#[trigger] row@[a] == class_has(class, g.kind_at(a, y as int), y as int)),
            decreases w - x,
        {
            proof {
                assert(g.in_bounds(x as int, y as int));
            }
            row.push(class.has(grid.cell_kind_at(x, y), y));
            x = x + 1;
        }
        m.push(row);
        y = y + 1;
    }
    m
}

/// The mask of the cells of the board that pass `p`, given a test `f` that decides `p` on the
/// board.
pub fn build_mask<F: Fn(usize, usize) -> bool>(grid: &Grid, f: F, Ghost(p): Ghost<spec_fn(int, int) -> bool>) -> (m: Vec<Vec<bool>>)
    requires
        forall|x: usize, y: usize| grid.in_bounds(x as int, y as int) ==> #[trigger] f.requires((x, y)),
        forall|x: usize, y: usize, b: bool| grid.in_bounds(x as int, y as int) && #[trigger] f.ensures((x, y), b)
            ==> b == p(x as int, y as int),
    ensures
        mask_agrees(*grid, m@, p),
{
    let ghost g = *grid;
    let h = grid.height();
    let w = grid.width();
    let mut m: Vec<Vec<bool>> = Vec::new();
    let mut y: usize = 0;
    while y < h
        invariant
            g == *grid,
            h == g.h(),
            w == g.w(),
            y <= h,
            m@.len() == y,
            forall|x: usize, y: usize| g.in_bounds(x as int, y as int) ==> #[trigger] f.requires((x, y)),
            forall|x: usize, y: usize, b: bool| g.in_bounds(x as int, y as int) && #[trigger] f.ensures((x, y), b)
                ==> b == p(x as int, y as int),
            forall|b: int| 0 <= b < y ==> #[trigger] m@[b]@.len() == w,
            forall|a: int, b: int| 0 <= b < y && 0 <= a < w ==> (#[trigger] m@[b]@[a] == p(a, b)),
        decreases h - y,
    {
        let mut row: Vec<bool> = Vec::new();
        let mut x: usize = 0;
        while x < w
            invariant
                g == *grid,
                h == g.h(),
                w == g.w(),
                y < h,
                x <= w,
                row@.len() == x,
                forall|x: usize, y: usize| g.in_bounds(x as int, y as int) ==> #[trigger] f.requires((x, y)),
                forall|x: usize, y: usize, b: bool| g.in_bounds(x as int, y as int) && #[trigger] f.ensures((x, y), b)
                    ==> b == p(x as int, y as int),
                forall|a: int| 0 <= a < x ==> (#[trigger] row@[a] == p(a, y as int)),
            decreases w - x,
        {
            proof {
                assert(g.in_bounds(x as int, y as int));
            }
            let b = f(x, y);
            row.push(b);
            x = x + 1;
        }
        m.push(row);
        y = y + 1;
    }
    m
}

/// Cells of class `c` that no player can walk to.
pub open spec fn unreachable_pred(g: Grid, c: CellClass) -> spec_fn(int, int) -> bool {
    |x: int, y: int| class_has(c, g.kind_at(x, y), y) && !walkable_from_player(g, x, y)
}

/// The mask of the cells of class `class` that no player can walk to.
pub fn unreachable_mask(grid: &Grid, dist: &Vec<Vec<i32>>, class: CellClass) -> (m: Vec<Vec<bool>>)
    requires
        is_player_dist_map(*grid, dist@),
    ensures
        mask_agrees(*grid, m@, unreachable_pred(*grid, class)),
{
    let f = |x: usize, y: usize| -> (b: bool)
        requires
            grid.in_bounds(x as int, y as int),
        ensures
            b == unreachable_pred(*grid, class)(x as int, y as int),
        {
            proof {
                assert(dist@[y as int]@.len() == grid.w());
            }
            class.has(grid.cell_kind_at(x, y), y) && dist[y][x] == i32::MAX
        };
    build_mask(grid, f, Ghost(unreachable_pred(*grid, class)))
}

/// Every cell the players can walk to is less than `i32::MAX` steps away, given a distance map.
pub proof fn lemma_dist_bounded(g: Grid, dist: Seq<Vec<i32>>)
    requires
        is_player_dist_map(g, dist),
    ensures
        forall|x: int, y: int| g.in_bounds(x, y) && walkable_from_player(g, x, y) ==>
            0 <= #[trigger] dist_of(g, x, y) < i32::MAX,
{
    assert forall|x: int, y: int| g.in_bounds(x, y) && walkable_from_player(g, x, y) implies
        0 <= #[trigger] dist_of(g, x, y) < i32::MAX by {
        lemma_dist_entry(g, dist, x, y);
    }
}

} // verus!
