//! Questions about a board that the lookup goals ask.

use vstd::prelude::*;
use crate::model::{CellKind, Dir4, Grid, MAX_SIDE};
use crate::cells::{CellClass, class_has, is_rat, is_trigger};
use crate::scan::{board_points, scan_rows, scan_row, positions_of, count_of, positions_matching, lemma_scan_rows_len, lemma_scan_row_prefix_len, lemma_board_points_bound, lemma_positions_of, class_pred, count_matching};
use crate::reach::{Walker, reachable, reach_within, is_dist_map, dist_map};
use crate::geometry::{spec_point_in_rect, point_in_rect, spec_manhattan, manhattan, spec_rectangle_lower_safe_targets, rectangle_lower_has_escape_staging};
use crate::features::{spec_rat_at, rat_at, player_at};

verus! {

/// Cells the walker can get to.
pub open spec fn reach_pred(g: Grid, wk: Walker) -> spec_fn(int, int) -> bool {
    |x: int, y: int| reachable(g, wk, x, y)
}

/// Number of cells the walker can get to.
pub open spec fn reach_count(g: Grid, wk: Walker) -> nat {
    board_points(g, reach_pred(g, wk)).len()
}

/// Counts the cells that a distance map marks as reachable.
pub(crate) fn count_marked(grid: &Grid, dist: &Vec<Vec<i32>>, walker: Walker) -> (n: usize)
    requires
        is_dist_map(*grid, walker, dist@),
    ensures
        n == reach_count(*grid, walker),
{
    let ghost g = *grid;
    let ghost p = reach_pred(g, walker);
    let h = grid.height();
    let w = grid.width();
    let mut n: usize = 0;
    let mut y: usize = 0;
    proof {
        lemma_board_points_bound(g, p);
    }
    while y < h
        invariant
            g == *grid,
            p == reach_pred(g, walker),
            is_dist_map(g, walker, dist@),
            h == g.h(),
            w == g.w(),
            h <= MAX_SIDE,
            w <= MAX_SIDE,
            y <= h,
            n == scan_rows(p, w as nat, y as nat).len(),
        decreases h - y,
    {
        let mut x: usize = 0;
        proof {
            lemma_scan_rows_len(p, w as nat, (y + 1) as nat);
            assert((y + 1) * w <= MAX_SIDE * MAX_SIDE) by (nonlinear_arith)
                requires y + 1 <= MAX_SIDE, w <= MAX_SIDE;
        }
        while x < w
            invariant
                g == *grid,
                p == reach_pred(g, walker),
                is_dist_map(g, walker, dist@),
                h == g.h(),
                w == g.w(),
                y < h,
                x <= w,
                n == scan_rows(p, w as nat, y as nat).len() + scan_row(p, y as int, x as nat).len(),
                scan_rows(p, w as nat, y as nat).len() + scan_row(p, y as int, w as nat).len() <= MAX_SIDE * MAX_SIDE,
            decreases w - x,
        {
            proof {
                lemma_scan_row_prefix_len(p, y as int, (x + 1) as nat, w as nat);
                assert(g.in_bounds(x as int, y as int));
            }
            if dist[y][x] != i32::MAX {
                n = n + 1;
            }
            x = x + 1;
        }
        y = y + 1;
    }
    n
}

/// Size of the region of cells free of walls and webs that joins `(x, y)` through the eight
/// neighbours of each cell, when a rat stands at `(x, y)`.
pub open spec fn spec_rat_component_size_at(g: Grid, point: (i32, i32)) -> Option<usize> {
    if g.in_bounds(point.0 as int, point.1 as int) && is_rat(g.kind_at(point.0 as int, point.1 as int)) {
        Some(reach_count(g, Walker::RatRegion(point.0 as usize, point.1 as usize)) as usize)
    } else {
        None
    }
}

/// Size of the wall- and web-free region, joined through all eight neighbours, around the
/// rat at `point`; `None` when no rat stands there.
pub fn rat_component_size_at(grid: &Grid, point: (i32, i32)) -> (r: Option<usize>)
    ensures
        r == spec_rat_component_size_at(*grid, point),
{
    let (x, y) = point;
    if x < 0 || y < 0 || x as usize >= grid.width() || y as usize >= grid.height() {
        return None;
    }
    if !rat_at(grid, point) {
        return None;
    }
    let walker = Walker::RatRegion(x as usize, y as usize);
    let dist = dist_map(grid, walker);
    Some(count_marked(grid, &dist, walker))
}

/// The largest region size around a rat inside the rectangle.
pub open spec fn is_max_component_in_rect(g: Grid, x1: i32, y1: i32, x2: i32, y2: i32, m: usize) -> bool {
    &&& exists|x: int, y: int| #![trigger g.kind_at(x, y)]
        g.in_bounds(x, y) && is_rat(g.kind_at(x, y)) && spec_point_in_rect((x as i32, y as i32), x1, y1, x2, y2)
        && spec_rat_component_size_at(g, (x as i32, y as i32)) == Some(m)
    &&& forall|x: int, y: int| #![trigger g.kind_at(x, y)]
        g.in_bounds(x, y) && is_rat(g.kind_at(x, y)) && spec_point_in_rect((x as i32, y as i32), x1, y1, x2, y2)
        ==> (spec_rat_component_size_at(g, (x as i32, y as i32)) matches Some(s) && s <= m)
}

/// The largest region size around a rat inside the rectangle, `None` when none is there.
pub open spec fn spec_max_component_in_rect(g: Grid, x1: i32, y1: i32, x2: i32, y2: i32) -> Option<usize> {
    if class_in_rect(g, CellClass::RatOrCyborg, x1, y1, x2, y2) {
        Some(choose|m: usize| is_max_component_in_rect(g, x1, y1, x2, y2, m))
    } else {
        None
    }
}

/// Two largest sizes are the same size.
proof fn lemma_max_component_unique(g: Grid, x1: i32, y1: i32, x2: i32, y2: i32, a: usize, b: usize)
    requires
        is_max_component_in_rect(g, x1, y1, x2, y2, a),
        is_max_component_in_rect(g, x1, y1, x2, y2, b),
    ensures
        a == b,
{
    let (xa, ya) = choose|x: int, y: int| #![trigger g.kind_at(x, y)]
        g.in_bounds(x, y) && is_rat(g.kind_at(x, y)) && spec_point_in_rect((x as i32, y as i32), x1, y1, x2, y2)
        && spec_rat_component_size_at(g, (x as i32, y as i32)) == Some(a);
    let (xb, yb) = choose|x: int, y: int| #![trigger g.kind_at(x, y)]
        g.in_bounds(x, y) && is_rat(g.kind_at(x, y)) && spec_point_in_rect((x as i32, y as i32), x1, y1, x2, y2)
        && spec_rat_component_size_at(g, (x as i32, y as i32)) == Some(b);
    assert(g.kind_at(xa, ya) == g.kind_at(xa, ya));
    assert(g.kind_at(xb, yb) == g.kind_at(xb, yb));
}

/// The largest region size around a rat inside the rectangle, `None` when none is there.
pub fn max_rat_component_size_in_rect(grid: &Grid, x1: i32, y1: i32, x2: i32, y2: i32) -> (r: Option<usize>)
    ensures
        r == spec_max_component_in_rect(*grid, x1, y1, x2, y2),
        r is None <==> !exists|x: int, y: int| #![trigger grid.kind_at(x, y)]
            grid.in_bounds(x, y) && is_rat(grid.kind_at(x, y)) && spec_point_in_rect((x as i32, y as i32), x1, y1, x2, y2),
        r matches Some(m) ==> is_max_component_in_rect(*grid, x1, y1, x2, y2, m),
{
    let ghost g = *grid;
    let rats = positions_matching(grid, CellClass::RatOrCyborg);
    proof {
        lemma_positions_of(g, CellClass::RatOrCyborg);
    }
    let ghost ps = positions_of(g, CellClass::RatOrCyborg);
    let mut best: Option<usize> = None;
    let mut i: usize = 0;
    while i < rats.len()
        invariant
            g == *grid,
            ps == positions_of(g, CellClass::RatOrCyborg),
            rats@.len() == ps.len(),
            forall|j: int| 0 <= j < rats@.len() ==> (#[trigger] rats@[j].0 as int, rats@[j].1 as int) == ps[j],
            forall|j: int| 0 <= j < ps.len() ==> {
                let p = #[trigger] ps[j];
                &&& g.in_bounds(p.0, p.1)
                &&& class_has(CellClass::RatOrCyborg, g.kind_at(p.0, p.1), p.1)
            },
            i <= rats@.len(),
            best is None <==> !exists|j: int| 0 <= j < i && spec_point_in_rect(#[trigger] rats@[j], x1, y1, x2, y2),
            best matches Some(m) ==> {
                &&& exists|j: int| 0 <= j < i && spec_point_in_rect(#[trigger] rats@[j], x1, y1, x2, y2)
                    && spec_rat_component_size_at(g, rats@[j]) == Some(m)
                &&& forall|j: int| 0 <= j < i && spec_point_in_rect(#[trigger] rats@[j], x1, y1, x2, y2)
                    ==> (spec_rat_component_size_at(g, rats@[j]) matches Some(s) && s <= m)
            },
        decreases rats@.len() - i,
    {
        if point_in_rect(rats[i], x1, y1, x2, y2) {
            proof {
                let p = ps[i as int];
                assert(g.in_bounds(p.0, p.1));
                assert(rats@[i as int].0 as int == p.0 && rats@[i as int].1 as int == p.1);
            }
            match rat_component_size_at(grid, rats[i]) {
                Some(size) => {
                    best = match best {
                        None => Some(size),
                        Some(m) => if size > m { Some(size) } else { Some(m) },
                    };
                }
                None => {}
            }
        }
        i = i + 1;
    }
    proof {
        assert forall|x: int, y: int| #![trigger g.kind_at(x, y)]
            g.in_bounds(x, y) && is_rat(g.kind_at(x, y)) && spec_point_in_rect((x as i32, y as i32), x1, y1, x2, y2)
            implies exists|j: int| 0 <= j < rats@.len() && rats@[j] == (x as i32, y as i32) by {
            assert(ps.contains((x, y)));
            let j = choose|j: int| 0 <= j < ps.len() && ps[j] == (x, y);
            assert(rats@[j] == (x as i32, y as i32));
        }
        if let Some(m) = best {
            let j = choose|j: int| 0 <= j < rats@.len() && spec_point_in_rect(#[trigger] rats@[j], x1, y1, x2, y2)
                && spec_rat_component_size_at(g, rats@[j]) == Some(m);
            let p = ps[j];
            assert(g.in_bounds(p.0, p.1));
            assert((p.0 as i32, p.1 as i32) == rats@[j]);
            assert(g.kind_at(p.0, p.1) == g.kind_at(p.0, p.1));
            assert forall|x: int, y: int| #![trigger g.kind_at(x, y)]
                g.in_bounds(x, y) && is_rat(g.kind_at(x, y)) && spec_point_in_rect((x as i32, y as i32), x1, y1, x2, y2)
                implies (spec_rat_component_size_at(g, (x as i32, y as i32)) matches Some(s) && s <= m) by {
                let k = choose|k: int| 0 <= k < rats@.len() && rats@[k] == (x as i32, y as i32);
                assert(spec_point_in_rect(rats@[k], x1, y1, x2, y2));
            }
            assert(is_max_component_in_rect(g, x1, y1, x2, y2, m));
            assert(class_in_rect(g, CellClass::RatOrCyborg, x1, y1, x2, y2));
            let c = choose|m: usize| is_max_component_in_rect(g, x1, y1, x2, y2, m);
            lemma_max_component_unique(g, x1, y1, x2, y2, c, m);
        } else {
            assert forall|x: int, y: int| #![trigger g.kind_at(x, y)]
                g.in_bounds(x, y) && is_rat(g.kind_at(x, y)) && spec_point_in_rect((x as i32, y as i32), x1, y1, x2, y2)
                implies false by {
                let k = choose|k: int| 0 <= k < rats@.len() && rats@[k] == (x as i32, y as i32);
                assert(spec_point_in_rect(rats@[k], x1, y1, x2, y2));
            }
        }
    }
    best
}


/// Whether one of `points` lies in the rectangle.
pub fn any_point_in_rect(points: &[(i32, i32)], x1: i32, y1: i32, x2: i32, y2: i32) -> (b: bool)
    ensures
        b == exists|i: int| 0 <= i < points@.len() && spec_point_in_rect(#[trigger] points@[i], x1, y1, x2, y2),
{
    let mut i: usize = 0;
    while i < points.len()
        invariant
            i <= points@.len(),
            forall|j: int| 0 <= j < i ==> !spec_point_in_rect(#[trigger] points@[j], x1, y1, x2, y2),
        decreases points@.len() - i,
    {
        if point_in_rect(points[i], x1, y1, x2, y2) {
            return true;
        }
        i = i + 1;
    }
    false
}

/// Whether a cell of class `c` lies in the rectangle.
pub open spec fn class_in_rect(g: Grid, c: CellClass, x1: i32, y1: i32, x2: i32, y2: i32) -> bool {
    exists|x: int, y: int| #![trigger g.kind_at(x, y)]
        g.in_bounds(x, y) && class_has(c, g.kind_at(x, y), y) && spec_point_in_rect((x as i32, y as i32), x1, y1, x2, y2)
}

/// Whether a cell of class `c` lies in the rectangle.
pub fn class_in_rect_exec(grid: &Grid, c: CellClass, x1: i32, y1: i32, x2: i32, y2: i32) -> (b: bool)
    ensures
        b == class_in_rect(*grid, c, x1, y1, x2, y2),
{
    let ghost g = *grid;
    let ps = positions_matching(grid, c);
    proof {
        lemma_positions_of(g, c);
    }
    let b = any_point_in_rect(ps.as_slice(), x1, y1, x2, y2);
    proof {
        let q = positions_of(g, c);
        if b {
            let i = choose|i: int| 0 <= i < ps@.len() && spec_point_in_rect(#[trigger] ps@[i], x1, y1, x2, y2);
            let p = q[i];
            assert(g.in_bounds(p.0, p.1));
            assert((p.0 as i32, p.1 as i32) == ps@[i]);
            assert(g.kind_at(p.0, p.1) == g.kind_at(p.0, p.1));
        } else {
            assert forall|x: int, y: int| #![trigger g.kind_at(x, y)]
                g.in_bounds(x, y) && class_has(c, g.kind_at(x, y), y) implies
                !spec_point_in_rect((x as i32, y as i32), x1, y1, x2, y2) by {
                assert(q.contains((x, y)));
                let i = choose|i: int| 0 <= i < q.len() && q[i] == (x, y);
                assert(ps@[i] == (x as i32, y as i32));
            }
        }
    }
    b
}

/// The kind of the cell at a signed point; negative coordinates wrap as `as usize` does and
/// so read outside the board.
pub open spec fn kind_at_i32(g: Grid, x: i32, y: i32) -> CellKind {
    g.kind_at((x as usize) as int, (y as usize) as int)
}

/// The kind of the cell at a signed point.
pub fn cell_at(grid: &Grid, x: i32, y: i32) -> (k: CellKind)
    ensures
        k == kind_at_i32(*grid, x, y),
{
    grid.cell_kind_at(x as usize, y as usize)
}

/// Whether the player at `point` faces `dir`.
pub open spec fn spec_player_facing(g: Grid, point: (i32, i32), dir: Dir4) -> bool {
    g.in_bounds(point.0 as int, point.1 as int) && g.facing_at(point.0 as int, point.1 as int) == Some(dir)
}

/// Whether the player at `point` faces `dir`.
pub fn player_facing(grid: &Grid, point: (i32, i32), dir: Dir4) -> (b: bool)
    ensures
        b == spec_player_facing(*grid, point, dir),
{
    let (x, y) = point;
    if x < 0 || y < 0 {
        return false;
    }
    if x as usize >= grid.width() || y as usize >= grid.height() {
        return false;
    }
    match grid.facing(x as usize, y as usize) {
        Some(d) => d == dir,
        None => false,
    }
}

/// The Manhattan distance from `target` to the nearest player, if there is one.
pub open spec fn is_nearest_player_distance(g: Grid, target: (i32, i32), d: int) -> bool {
    &&& exists|x: int, y: int| #![trigger g.kind_at(x, y)]
        player_at(g, (x as i32, y as i32)) && g.in_bounds(x, y) && d == spec_manhattan((x as i32, y as i32), target)
    &&& forall|x: int, y: int| #![trigger g.kind_at(x, y)]
        g.in_bounds(x, y) && g.kind_at(x, y) == CellKind::Player ==> d <= spec_manhattan((x as i32, y as i32), target)
}

/// The Manhattan distance from `target` to the nearest player; `None` without players.
pub open spec fn spec_nearest_player_distance(g: Grid, target: (i32, i32)) -> Option<int> {
    if count_of(g, CellClass::Exactly(CellKind::Player)) == 0 {
        None
    } else {
        Some(choose|d: int| is_nearest_player_distance(g, target, d))
    }
}

/// The Manhattan distance from `target` to the nearest player; `None` without players.
pub fn nearest_player_distance_from(grid: &Grid, target: (i32, i32)) -> (r: Option<i64>)
    ensures
        r matches Some(d) ==> spec_nearest_player_distance(*grid, target) == Some(d as int),
        r is None ==> spec_nearest_player_distance(*grid, target) is None,
        r is None <==> count_of(*grid, CellClass::Exactly(CellKind::Player)) == 0,
        r matches Some(d) ==> is_nearest_player_distance(*grid, target, d as int),
{
    let ghost g = *grid;
    let c = CellClass::Exactly(CellKind::Player);
    let ps = positions_matching(grid, c);
    proof {
        lemma_positions_of(g, c);
    }
    let ghost q = positions_of(g, c);
    let mut best: Option<i64> = None;
    let mut i: usize = 0;
    while i < ps.len()
        invariant
            g == *grid,
            c == CellClass::Exactly(CellKind::Player),
            q == positions_of(g, c),
            ps@.len() == q.len(),
            forall|j: int| 0 <= j < ps@.len() ==> (#[trigger] ps@[j].0 as int, ps@[j].1 as int) == q[j],
            forall|j: int| 0 <= j < q.len() ==> {
                let p = #[trigger] q[j];
                &&& g.in_bounds(p.0, p.1)
                &&& class_has(c, g.kind_at(p.0, p.1), p.1)
            },
            i <= ps@.len(),
            best is None <==> i == 0,
            best matches Some(d) ==> {
                &&& exists|j: int| 0 <= j < i && d == spec_manhattan(#[trigger] ps@[j], target)
                &&& forall|j: int| 0 <= j < i ==> d <= spec_manhattan(#[trigger] ps@[j], target)
            },
        decreases ps@.len() - i,
    {
        let d = manhattan(ps[i], target);
        best = match best {
            None => Some(d),
            Some(b) => if d < b { Some(d) } else { Some(b) },
        };
        i = i + 1;
    }
    proof {
        if let Some(d) = best {
            let j = choose|j: int| 0 <= j < ps@.len() && d == spec_manhattan(#[trigger] ps@[j], target);
            let p = q[j];
            assert(g.in_bounds(p.0, p.1));
            assert((p.0 as i32, p.1 as i32) == ps@[j]);
            assert(player_at(g, (p.0 as i32, p.1 as i32)));
            assert(g.kind_at(p.0, p.1) == g.kind_at(p.0, p.1));
            assert forall|x: int, y: int| #![trigger g.kind_at(x, y)]
                g.in_bounds(x, y) && g.kind_at(x, y) == CellKind::Player implies d <= spec_manhattan((x as i32, y as i32), target) by {
                assert(q.contains((x, y)));
                let k = choose|k: int| 0 <= k < q.len() && q[k] == (x, y);
                assert(ps@[k] == (x as i32, y as i32));
            }
            assert(is_nearest_player_distance(g, target, d as int));
            let c = choose|e: int| is_nearest_player_distance(g, target, e);
            lemma_nearest_player_unique(g, target, c, d as int);
        }
    }
    best
}

proof fn lemma_nearest_player_unique(g: Grid, target: (i32, i32), a: int, b: int)
    requires
        is_nearest_player_distance(g, target, a),
        is_nearest_player_distance(g, target, b),
    ensures
        a == b,
{
    let (xa, ya) = choose|x: int, y: int| #![trigger g.kind_at(x, y)]
        player_at(g, (x as i32, y as i32)) && g.in_bounds(x, y) && a == spec_manhattan((x as i32, y as i32), target);
    let (xb, yb) = choose|x: int, y: int| #![trigger g.kind_at(x, y)]
        player_at(g, (x as i32, y as i32)) && g.in_bounds(x, y) && b == spec_manhattan((x as i32, y as i32), target);
    assert(g.kind_at(xa, ya) == g.kind_at(xa, ya));
    assert(g.kind_at(xb, yb) == g.kind_at(xb, yb));
}

/// Whether a rat stands within Manhattan distance two of an explosive.
pub open spec fn spec_rat_near_explosive(g: Grid) -> bool {
    exists|a: int, b: int, c: int, d: int| #![trigger g.kind_at(a, b), g.kind_at(c, d)]
        g.in_bounds(a, b) && is_rat(g.kind_at(a, b)) && g.in_bounds(c, d) && g.kind_at(c, d) == CellKind::Explosive
        && spec_manhattan((a as i32, b as i32), (c as i32, d as i32)) <= 2
}

/// Whether a rat stands within Manhattan distance two of an explosive.
pub fn rat_near_explosive(grid: &Grid) -> (r: bool)
    ensures
        r == spec_rat_near_explosive(*grid),
{
    let ghost g = *grid;
    let rc = CellClass::RatOrCyborg;
    let ec = CellClass::Exactly(CellKind::Explosive);
    let rats = positions_matching(grid, rc);
    let xs = positions_matching(grid, ec);
    proof {
        lemma_positions_of(g, rc);
        lemma_positions_of(g, ec);
    }
    let ghost rq = positions_of(g, rc);
    let ghost xq = positions_of(g, ec);
    let mut i: usize = 0;
    while i < rats.len()
        invariant
            g == *grid,
            rq == positions_of(g, rc),
            xq == positions_of(g, ec),
            rc == CellClass::RatOrCyborg,
            ec == CellClass::Exactly(CellKind::Explosive),
            rats@.len() == rq.len(),
            xs@.len() == xq.len(),
            forall|j: int| 0 <= j < rats@.len() ==> (#[trigger] rats@[j].0 as int, rats@[j].1 as int) == rq[j],
            forall|j: int| 0 <= j < xs@.len() ==> (#[trigger] xs@[j].0 as int, xs@[j].1 as int) == xq[j],
            forall|j: int| 0 <= j < rq.len() ==> {
                let p = #[trigger] rq[j];
                &&& g.in_bounds(p.0, p.1)
                &&& class_has(rc, g.kind_at(p.0, p.1), p.1)
            },
            forall|j: int| 0 <= j < xq.len() ==> {
                let p = #[trigger] xq[j];
                &&& g.in_bounds(p.0, p.1)
                &&& class_has(ec, g.kind_at(p.0, p.1), p.1)
            },
            i <= rats@.len(),
            forall|p: int, q: int| 0 <= p < i && 0 <= q < xs@.len() ==> spec_manhattan(#[trigger] rats@[p], #[trigger] xs@[q]) > 2,
        decreases rats@.len() - i,
    {
        let mut j: usize = 0;
        while j < xs.len()
            invariant
                g == *grid,
                rq == positions_of(g, rc),
                xq == positions_of(g, ec),
                rc == CellClass::RatOrCyborg,
                ec == CellClass::Exactly(CellKind::Explosive),
                rats@.len() == rq.len(),
                xs@.len() == xq.len(),
                forall|j: int| 0 <= j < rats@.len() ==> (#[trigger] rats@[j].0 as int, rats@[j].1 as int) == rq[j],
                forall|j: int| 0 <= j < xs@.len() ==> (#[trigger] xs@[j].0 as int, xs@[j].1 as int) == xq[j],
                forall|j: int| 0 <= j < rq.len() ==> {
                    let p = #[trigger] rq[j];
                    &&& g.in_bounds(p.0, p.1)
                    &&& class_has(rc, g.kind_at(p.0, p.1), p.1)
                },
                forall|j: int| 0 <= j < xq.len() ==> {
                    let p = #[trigger] xq[j];
                    &&& g.in_bounds(p.0, p.1)
                    &&& class_has(ec, g.kind_at(p.0, p.1), p.1)
                },
                i < rats@.len(),
                j <= xs@.len(),
                forall|p: int, q: int| 0 <= p < i && 0 <= q < xs@.len() ==> spec_manhattan(#[trigger] rats@[p], #[trigger] xs@[q]) > 2,
                forall|q: int| 0 <= q < j ==> spec_manhattan(rats@[i as int], #[trigger] xs@[q]) > 2,
            decreases xs@.len() - j,
        {
            if manhattan(rats[i], xs[j]) <= 2 {
                proof {
                    let a = rq[i as int];
                    let c = xq[j as int];
                    assert(g.in_bounds(a.0, a.1) && g.in_bounds(c.0, c.1));
                    assert((a.0 as i32, a.1 as i32) == rats@[i as int]);
                    assert((c.0 as i32, c.1 as i32) == xs@[j as int]);
                    assert(g.kind_at(a.0, a.1) == g.kind_at(a.0, a.1));
                    assert(g.kind_at(c.0, c.1) == g.kind_at(c.0, c.1));
                }
                return true;
            }
            j = j + 1;
        }
        i = i + 1;
    }
    proof {
        assert forall|a: int, b: int, c: int, d: int| #![trigger g.kind_at(a, b), g.kind_at(c, d)]
            g.in_bounds(a, b) && is_rat(g.kind_at(a, b)) && g.in_bounds(c, d) && g.kind_at(c, d) == CellKind::Explosive
            implies spec_manhattan((a as i32, b as i32), (c as i32, d as i32)) > 2 by {
            assert(rq.contains((a, b)));
            assert(xq.contains((c, d)));
            let p = choose|p: int| 0 <= p < rq.len() && rq[p] == (a, b);
            let q = choose|q: int| 0 <= q < xq.len() && xq[q] == (c, d);
            assert(rats@[p] == (a as i32, b as i32));
            assert(xs@[q] == (c as i32, d as i32));
        }
    }
    false
}

/// How many triggers carry each number from 0 to 255.
pub fn trigger_counts(grid: &Grid) -> (counts: Vec<usize>)
    ensures
        counts@.len() == 256,
        forall|n: int| 0 <= n < 256 ==> #[trigger] counts@[n] == count_of(*grid, CellClass::Exactly(CellKind::Trigger(n as u8))),
{
    let ghost g = *grid;
    let mut counts: Vec<usize> = Vec::new();
    let mut n: usize = 0;
    while n < 256
        invariant
            g == *grid,
            n <= 256,
            counts@.len() == n,
            forall|m: int| 0 <= m < n ==> #[trigger] counts@[m] == count_of(g, CellClass::Exactly(CellKind::Trigger(m as u8))),
        decreases 256 - n,
    {
        counts.push(count_matching(grid, CellClass::Exactly(CellKind::Trigger(n as u8))));
        n = n + 1;
    }
    counts
}

/// Fewer triggers carry `number` now than at first, and every other number is as common as before.
pub open spec fn spec_only_trigger_changed(initial: Grid, current: Grid, number: u8) -> bool {
    &&& count_of(current, CellClass::Exactly(CellKind::Trigger(number))) < count_of(initial, CellClass::Exactly(CellKind::Trigger(number)))
    &&& forall|m: u8| m != number ==> #[trigger] count_of(initial, CellClass::Exactly(CellKind::Trigger(m)))
        == count_of(current, CellClass::Exactly(CellKind::Trigger(m)))
}

/// Whether triggers carrying `number`, and no others, were used up since `initial`.
pub fn only_trigger_changed(initial: &Grid, current: &Grid, number: u8) -> (b: bool)
    ensures
        b == spec_only_trigger_changed(*initial, *current, number),
{
    let a = trigger_counts(initial);
    let c = trigger_counts(current);
    let k = number as usize;
    if c[k] >= a[k] {
        return false;
    }
    let mut m: usize = 0;
    while m < 256
        invariant
            m <= 256,
            a@.len() == 256,
            c@.len() == 256,
            k == number as usize,
            forall|n: int| 0 <= n < 256 ==> #[trigger] a@[n] == count_of(*initial, CellClass::Exactly(CellKind::Trigger(n as u8))),
            forall|n: int| 0 <= n < 256 ==> #[trigger] c@[n] == count_of(*current, CellClass::Exactly(CellKind::Trigger(n as u8))),
            forall|n: int| 0 <= n < m && n != k ==> #[trigger] a@[n] == c@[n],
        decreases 256 - m,
    {
        if m != k && a[m] != c[m] {
            proof {
                assert((m as u8) != number);
                assert(a@[m as int] == count_of(*initial, CellClass::Exactly(CellKind::Trigger(m as u8))));
            }
            return false;
        }
        m = m + 1;
    }
    proof {
        assert forall|t: u8| t != number implies #[trigger] count_of(*initial, CellClass::Exactly(CellKind::Trigger(t)))
            == count_of(*current, CellClass::Exactly(CellKind::Trigger(t))) by {
            let n = t as int;
            assert((n as u8) == t);
            assert(a@[n] == c@[n]);
        }
    }
    true
}

/// The eight neighbours of `(x, y)` in the order rows then columns, top left first.
pub open spec fn ring(x: int, y: int) -> Seq<(int, int)> {
    seq![(x - 1, y - 1), (x, y - 1), (x + 1, y - 1), (x - 1, y), (x + 1, y), (x - 1, y + 1), (x, y + 1), (x + 1, y + 1)]
}

/// Number of ring cells with both coordinates not negative that satisfy `p`, among the first `n`.
pub open spec fn ring_count(ps: Seq<(int, int)>, p: spec_fn(int, int) -> bool, n: nat) -> nat
    decreases n,
{
    if n == 0 {
        0
    } else {
        let q = ps[n - 1];
        ring_count(ps, p, (n - 1) as nat) + if q.0 >= 0 && q.1 >= 0 && p(q.0, q.1) { 1nat } else { 0nat }
    }
}

/// The ring offsets in order.
fn ring_offsets() -> (o: [(i64, i64); 8])
    ensures
        forall|i: int| 0 <= i < 8 ==> (#[trigger] o@[i].0 as int, o@[i].1 as int) == ring(0, 0)[i],
{
    let o = [(-1, -1), (0, -1), (1, -1), (-1, 0), (1, 0), (-1, 1), (0, 1), (1, 1)];
    o
}

/// Number of the eight surrounding cells (with coordinates not negative) of kind `kind`;
/// cells past the board's far edges read as walls.
pub fn adjacent_count(grid: &Grid, x: usize, y: usize, kind: CellKind) -> (n: usize)
    requires
        x <= i32::MAX,
        y <= i32::MAX,
    ensures
        n == ring_count(ring(x as int, y as int), |a: int, b: int| grid.kind_at(a, b) == kind, 8),
{
    let ghost p = |a: int, b: int| grid.kind_at(a, b) == kind;
    let ghost r = ring(x as int, y as int);
    let o = ring_offsets();
    let mut n: usize = 0;
    let mut i: usize = 0;
    while i < 8
        invariant
            i <= 8,
            x <= i32::MAX,
            y <= i32::MAX,
            r == ring(x as int, y as int),
            p == (|a: int, b: int| grid.kind_at(a, b) == kind),
            forall|j: int| 0 <= j < 8 ==> (#[trigger] o@[j].0 as int, o@[j].1 as int) == ring(0, 0)[j],
            n == ring_count(r, p, i as nat),
            n <= i,
        decreases 8 - i,
    {
        let (dx, dy) = o[i];
        let nx: i64 = x as i64 + dx;
        let ny: i64 = y as i64 + dy;
        proof {
            assert(r[i as int] == (nx as int, ny as int));
        }
        if nx >= 0 && ny >= 0 && grid.cell_kind_at(nx as usize, ny as usize) == kind {
            n = n + 1;
        }
        i = i + 1;
    }
    n
}

/// Number of the eight surrounding cells (with coordinates not negative) holding a trigger.
pub fn adjacent_trigger_count(grid: &Grid, x: usize, y: usize) -> (n: usize)
    requires
        x <= i32::MAX,
        y <= i32::MAX,
    ensures
        n == ring_count(ring(x as int, y as int), |a: int, b: int| is_trigger(grid.kind_at(a, b)), 8),
{
    let ghost p = |a: int, b: int| is_trigger(grid.kind_at(a, b));
    let ghost r = ring(x as int, y as int);
    let o = ring_offsets();
    let mut n: usize = 0;
    let mut i: usize = 0;
    while i < 8
        invariant
            i <= 8,
            x <= i32::MAX,
            y <= i32::MAX,
            r == ring(x as int, y as int),
            p == (|a: int, b: int| is_trigger(grid.kind_at(a, b))),
            forall|j: int| 0 <= j < 8 ==> (#[trigger] o@[j].0 as int, o@[j].1 as int) == ring(0, 0)[j],
            n == ring_count(r, p, i as nat),
            n <= i,
        decreases 8 - i,
    {
        let (dx, dy) = o[i];
        let nx: i64 = x as i64 + dx;
        let ny: i64 = y as i64 + dy;
        proof {
            assert(r[i as int] == (nx as int, ny as int));
        }
        if nx >= 0 && ny >= 0 && crate::cells::trigger_cell(grid.cell_kind_at(nx as usize, ny as usize)) {
            n = n + 1;
        }
        i = i + 1;
    }
    n
}

/// The ring cells of `target` that lie on the board, in ring order.
pub open spec fn ring_on_board(g: Grid, ps: Seq<(int, int)>, n: nat) -> Seq<(int, int)>
    decreases n,
{
    if n == 0 {
        Seq::empty()
    } else {
        let q = ps[n - 1];
        ring_on_board(g, ps, (n - 1) as nat) + if g.in_bounds(q.0, q.1) { seq![q] } else { Seq::empty() }
    }
}

/// The surrounding cells of `target` that lie on the board, top left first.
pub fn adjacent_points(grid: &Grid, target: (i32, i32)) -> (out: Vec<(i32, i32)>)
    ensures
        out@.len() == ring_on_board(*grid, ring(target.0 as int, target.1 as int), 8).len(),
        forall|i: int| 0 <= i < out@.len() ==>
            (#[trigger] out@[i].0 as int, out@[i].1 as int) == ring_on_board(*grid, ring(target.0 as int, target.1 as int), 8)[i],
{
    let ghost r = ring(target.0 as int, target.1 as int);
    let o = ring_offsets();
    let mut out: Vec<(i32, i32)> = Vec::new();
    let w = grid.width();
    let h = grid.height();
    let mut i: usize = 0;
    while i < 8
        invariant
            i <= 8,
            w == grid.w(),
            h == grid.h(),
            w <= MAX_SIDE,
            h <= MAX_SIDE,
            r == ring(target.0 as int, target.1 as int),
            forall|j: int| 0 <= j < 8 ==> (#[trigger] o@[j].0 as int, o@[j].1 as int) == ring(0, 0)[j],
            out@.len() == ring_on_board(*grid, r, i as nat).len(),
            forall|j: int| 0 <= j < out@.len() ==>
                (#[trigger] out@[j].0 as int, out@[j].1 as int) == ring_on_board(*grid, r, i as nat)[j],
        decreases 8 - i,
    {
        let (dx, dy) = o[i];
        let nx: i64 = target.0 as i64 + dx;
        let ny: i64 = target.1 as i64 + dy;
        proof {
            assert(r[i as int] == (nx as int, ny as int));
        }
        if nx >= 0 && ny >= 0 && (nx as usize) < w && (ny as usize) < h {
            out.push((nx as i32, ny as i32));
        }
        i = i + 1;
        proof {
            let prev = ring_on_board(*grid, r, (i - 1) as nat);
            let cur = ring_on_board(*grid, r, i as nat);
            assert forall|j: int| 0 <= j < out@.len() implies
                (#[trigger] out@[j].0 as int, out@[j].1 as int) == cur[j] by {
                if j < prev.len() {
                    assert(cur[j] == prev[j]);
                }
            }
        }
    }
    out
}

/// The cell east of `(x, y)` is off the board, a wall or a web.
pub open spec fn spec_east_blocked(g: Grid, x: i32, y: i32) -> bool {
    let ex = x + 1;
    if ex < 0 || y < 0 || !g.in_bounds(ex, y as int) {
        true
    } else {
        g.kind_at(ex, y as int) == CellKind::Wall || g.kind_at(ex, y as int) == CellKind::Spiderweb
    }
}

/// Whether the cell east of `(x, y)` is off the board, a wall or a web.
pub fn rectangle_lower_east_blocked(grid: &Grid, x: i32, y: i32) -> (b: bool)
    requires
        x < i32::MAX,
    ensures
        b == spec_east_blocked(*grid, x, y),
{
    let east_x = x + 1;
    if east_x < 0 || y < 0 || east_x as usize >= grid.width() || y as usize >= grid.height() {
        return true;
    }
    matches!(grid.cell_kind_at(east_x as usize, y as usize), CellKind::Wall | CellKind::Spiderweb)
}

/// An explosive lies south-west, south or south-east of `(x, y)`.
pub open spec fn spec_adjacent_ignition(g: Grid, x: i32, y: i32) -> bool {
    ||| g.in_bounds(x - 1, y + 1) && g.kind_at(x - 1, y + 1) == CellKind::Explosive
    ||| g.in_bounds(x as int, y + 1) && g.kind_at(x as int, y + 1) == CellKind::Explosive
    ||| g.in_bounds(x + 1, y + 1) && g.kind_at(x + 1, y + 1) == CellKind::Explosive
}

/// Whether an explosive lies south-west, south or south-east of `(x, y)`.
pub fn rectangle_lower_has_adjacent_ignition(grid: &Grid, x: i32, y: i32) -> (b: bool)
    requires
        i32::MIN < x < i32::MAX,
        y < i32::MAX,
    ensures
        b == spec_adjacent_ignition(*grid, x, y),
{
    let cands = [(x - 1, y + 1), (x, y + 1), (x + 1, y + 1)];
    let mut i: usize = 0;
    while i < 3
        invariant
            i <= 3,
            i32::MIN < x < i32::MAX,
            y < i32::MAX,
            cands@ == seq![((x - 1) as i32, (y + 1) as i32), (x, (y + 1) as i32), ((x + 1) as i32, (y + 1) as i32)],
            forall|j: int| 0 <= j < i ==> !({
                let c = #[trigger] cands@[j];
                grid.in_bounds(c.0 as int, c.1 as int) && grid.kind_at(c.0 as int, c.1 as int) == CellKind::Explosive
            }),
        decreases 3 - i,
    {
        let (cx, cy) = cands[i];
        proof {
            assert(cands@[i as int] == (cx, cy));
        }
        if cx >= 0 && cy >= 0 && (cx as usize) < grid.width() && (cy as usize) < grid.height()
            && grid.cell_kind_at(cx as usize, cy as usize) == CellKind::Explosive {
            return true;
        }
        i = i + 1;
    }
    proof {
        assert(cands@[0] == ((x - 1) as i32, (y + 1) as i32));
    }
    false
}


/// A player stands on one of the rectangle level's escape cells.
pub open spec fn spec_player_staged(g: Grid) -> bool {
    exists|x: int, y: int| #![trigger g.kind_at(x, y)]
        g.in_bounds(x, y) && g.kind_at(x, y) == CellKind::Player
        && spec_rectangle_lower_safe_targets().contains((x as i32, y as i32))
}

/// Whether a player stands on one of the rectangle level's escape cells.
pub fn player_staged(grid: &Grid) -> (b: bool)
    ensures
        b == spec_player_staged(*grid),
{
    let ghost g = *grid;
    let c = CellClass::Exactly(CellKind::Player);
    let ps = positions_matching(grid, c);
    proof {
        lemma_positions_of(g, c);
    }
    let ghost q = positions_of(g, c);
    let mut i: usize = 0;
    while i < ps.len()
        invariant
            g == *grid,
            c == CellClass::Exactly(CellKind::Player),
            q == positions_of(g, c),
            ps@.len() == q.len(),
            forall|j: int| 0 <= j < ps@.len() ==> (#[trigger] ps@[j].0 as int, ps@[j].1 as int) == q[j],
            forall|j: int| 0 <= j < q.len() ==> {
                let p = #[trigger] q[j];
                &&& g.in_bounds(p.0, p.1)
                &&& class_has(c, g.kind_at(p.0, p.1), p.1)
            },
            i <= ps@.len(),
            forall|j: int| 0 <= j < i ==> !spec_rectangle_lower_safe_targets().contains(#[trigger] ps@[j]),
        decreases ps@.len() - i,
    {
        if rectangle_lower_has_escape_staging(ps[i]) {
            proof {
                let p = q[i as int];
                assert(g.in_bounds(p.0, p.1));
                assert((p.0 as i32, p.1 as i32) == ps@[i as int]);
                assert(g.kind_at(p.0, p.1) == g.kind_at(p.0, p.1));
            }
            return true;
        }
        i = i + 1;
    }
    proof {
        assert forall|x: int, y: int| #![trigger g.kind_at(x, y)]
            g.in_bounds(x, y) && g.kind_at(x, y) == CellKind::Player implies
            !spec_rectangle_lower_safe_targets().contains((x as i32, y as i32)) by {
            assert(q.contains((x, y)));
            let k = choose|k: int| 0 <= k < q.len() && q[k] == (x, y);
            assert(ps@[k] == (x as i32, y as i32));
        }
    }
    false
}

/// A rat stands in row six between columns two and six; with `lit`, its east side is also
/// blocked and an explosive lies below it.
pub open spec fn spec_rat_in_trap_row(g: Grid, lit: bool) -> bool {
    exists|x: int, y: int| #![trigger g.kind_at(x, y)]
        g.in_bounds(x, y) && is_rat(g.kind_at(x, y)) && y == 6 && 2 <= x <= 6
        && (lit ==> spec_east_blocked(g, x as i32, y as i32) && spec_adjacent_ignition(g, x as i32, y as i32))
}

/// Whether a rat stands in row six between columns two and six, with (when `lit`) its east
/// side blocked and an explosive below it.
pub fn rat_in_trap_row(grid: &Grid, lit: bool) -> (b: bool)
    ensures
        b == spec_rat_in_trap_row(*grid, lit),
{
    let ghost g = *grid;
    let c = CellClass::RatOrCyborg;
    let ps = positions_matching(grid, c);
    proof {
        lemma_positions_of(g, c);
    }
    let ghost q = positions_of(g, c);
    let mut i: usize = 0;
    while i < ps.len()
        invariant
            g == *grid,
            c == CellClass::RatOrCyborg,
            q == positions_of(g, c),
            ps@.len() == q.len(),
            forall|j: int| 0 <= j < ps@.len() ==> (#[trigger] ps@[j].0 as int, ps@[j].1 as int) == q[j],
            forall|j: int| 0 <= j < q.len() ==> {
                let p = #[trigger] q[j];
                &&& g.in_bounds(p.0, p.1)
                &&& class_has(c, g.kind_at(p.0, p.1), p.1)
            },
            i <= ps@.len(),
            forall|j: int| 0 <= j < i ==> !({
                let p = #[trigger] ps@[j];
                p.1 == 6 && 2 <= p.0 <= 6 && (lit ==> spec_east_blocked(g, p.0, p.1) && spec_adjacent_ignition(g, p.0, p.1))
            }),
        decreases ps@.len() - i,
    {
        let (x, y) = ps[i];
        proof {
            let p = q[i as int];
            assert(g.in_bounds(p.0, p.1));
        }
        if y == 6 && 2 <= x && x <= 6
            && (!lit || (rectangle_lower_east_blocked(grid, x, y) && rectangle_lower_has_adjacent_ignition(grid, x, y))) {
            proof {
                let p = q[i as int];
                assert((p.0 as i32, p.1 as i32) == ps@[i as int]);
                assert(g.kind_at(p.0, p.1) == g.kind_at(p.0, p.1));
            }
            return true;
        }
        i = i + 1;
    }
    proof {
        assert forall|x: int, y: int| #![trigger g.kind_at(x, y)]
            g.in_bounds(x, y) && is_rat(g.kind_at(x, y)) && y == 6 && 2 <= x <= 6 implies
            !(lit ==> spec_east_blocked(g, x as i32, y as i32) && spec_adjacent_ignition(g, x as i32, y as i32)) by {
            assert(q.contains((x, y)));
            let k = choose|k: int| 0 <= k < q.len() && q[k] == (x, y);
            assert(ps@[k] == (x as i32, y as i32));
        }
    }
    false
}

/// The rectangle level's lower trap is ready: the level can be won at once, or a rat stands
/// on one of the rat targets while a player stands on an escape cell.
pub open spec fn spec_rectangle_lower_ready(g: Grid, win_ready: bool) -> bool {
    win_ready || ((exists|i: int| 0 <= i < 5 && spec_rat_at(g, #[trigger] crate::geometry::spec_rectangle_lower_rat_targets()[i]))
        && (exists|i: int| 0 <= i < 6 && player_at(g, #[trigger] spec_rectangle_lower_safe_targets()[i])))
}

/// Whether the rectangle level's lower trap is ready; `win_ready` says whether one turn can win.
pub fn rectangle_lower_ready(grid: &Grid, win_ready: bool) -> (b: bool)
    ensures
        b == spec_rectangle_lower_ready(*grid, win_ready),
{
    if win_ready {
        return true;
    }
    let targets = crate::geometry::rectangle_lower_rat_targets();
    let safe = crate::geometry::rectangle_lower_safe_targets();
    crate::features::rat_at_any(grid, &targets) && crate::features::player_at_any(grid, &safe)
}

/// The rectangle level's rat is separated: the level can be won at once, or a rat stands in the
/// trap row while a player stands on an escape cell.
pub open spec fn spec_rectangle_lower_separated(g: Grid, win_ready: bool) -> bool {
    win_ready || (spec_rat_in_trap_row(g, false) && spec_player_staged(g))
}

/// Whether the rectangle level's rat is separated from the player.
pub fn rectangle_lower_separated(grid: &Grid, win_ready: bool) -> (b: bool)
    ensures
        b == spec_rectangle_lower_separated(*grid, win_ready),
{
    if win_ready {
        return true;
    }
    player_staged(grid) && rat_in_trap_row(grid, false)
}

/// The rectangle level is ready to ignite: the level can be won at once, or a player stands on
/// an escape cell while a trapped rat sits next to an explosive.
pub open spec fn spec_rectangle_lower_ignition_ready(g: Grid, win_ready: bool) -> bool {
    win_ready || (spec_player_staged(g) && spec_rat_in_trap_row(g, true))
}

/// Whether the rectangle level is ready to ignite.
pub fn rectangle_lower_ignition_ready(grid: &Grid, win_ready: bool) -> (b: bool)
    ensures
        b == spec_rectangle_lower_ignition_ready(*grid, win_ready),
{
    if win_ready {
        return true;
    }
    if !player_staged(grid) {
        return false;
    }
    rat_in_trap_row(grid, true)
}

} // verus!
