//! The measures that the lookup goals' scores are made of.

use vstd::prelude::*;
use crate::model::{CellKind, Grid, MAX_SIDE};
use crate::cells::CellClass;
use crate::scan::{class_pred, count_of, lemma_board_points_bound};
use crate::geometry::{spec_nearest_pair, nearest_target_distance, spec_nearest_rect, nearest_rect_distance,
    spec_point_in_rect, point_in_rect};
use crate::heuristics::{Tuning, spec_heuristic, heuristic, or_default};
use crate::nearest::min_dist;
use crate::reachability::nearest_reachable_trigger_distance;
use crate::lure::{class_points, class_points_exec};

verus! {

/// The distance from the nearest cell of class `c` to `(x, y)`; 1 000 when there is none.
pub open spec fn class_to(g: Grid, c: CellClass, x: i32, y: i32) -> int {
    spec_nearest_pair(class_points(g, c), seq![(x, y)])
}

/// The distance from the nearest cell of class `c` to `(x, y)`.
pub fn class_to_exec(grid: &Grid, c: CellClass, x: i32, y: i32) -> (d: i64)
    ensures
        d == class_to(*grid, c, x, y),
        0 <= d <= 2 * (u32::MAX as int),
{
    let ps = class_points_exec(grid, c);
    let one = [(x, y)];
    proof {
        assert(one@ =~= seq![(x, y)]);
    }
    nearest_target_distance(&ps, &one)
}

/// The distance from the nearest cell of class `c` to the rectangle; 1 000 when there is none.
pub open spec fn class_to_rect(g: Grid, c: CellClass, x1: i32, y1: i32, x2: i32, y2: i32) -> int {
    spec_nearest_rect(class_points(g, c), x1, y1, x2, y2)
}

/// The distance from the nearest cell of class `c` to the rectangle.
pub fn class_to_rect_exec(grid: &Grid, c: CellClass, x1: i32, y1: i32, x2: i32, y2: i32) -> (d: i64)
    ensures
        d == class_to_rect(*grid, c, x1, y1, x2, y2),
        0 <= d <= 2 * (u32::MAX as int),
{
    let ps = class_points_exec(grid, c);
    nearest_rect_distance(&ps, x1, y1, x2, y2)
}

/// A thousandth of the general score.
pub open spec fn h1k(g: Grid, t: Tuning) -> int {
    spec_heuristic(g, t) / 1000
}

/// A thousandth of the general score.
pub fn h1k_exec(grid: &Grid, t: Tuning) -> (h: i64)
    ensures
        h == h1k(*grid, t),
        0 <= h <= 1_000_000_000_000,
{
    heuristic(grid, t) / 1000
}

/// The walk to the nearest reachable trigger carrying `n`; 1 000 when none is reachable.
pub open spec fn trigger_walk(g: Grid, n: u8) -> int {
    or_default(min_dist(g, class_pred(g, CellClass::Exactly(CellKind::Trigger(n)))), 1000)
}

/// The walk to the nearest reachable trigger carrying `n`.
pub fn trigger_walk_exec(grid: &Grid, n: u8) -> (d: i64)
    ensures
        d == trigger_walk(*grid, n),
        0 <= d < i32::MAX,
{
    match nearest_reachable_trigger_distance(grid, n) {
        Some(d) => d,
        None => 1000,
    }
}

/// Number of the listed points that lie in the rectangle.
pub open spec fn count_in_rect(ps: Seq<(i32, i32)>, x1: i32, y1: i32, x2: i32, y2: i32) -> int
    decreases ps.len(),
{
    if ps.len() == 0 {
        0
    } else {
        count_in_rect(ps.drop_last(), x1, y1, x2, y2) + if spec_point_in_rect(ps.last(), x1, y1, x2, y2) { 1int } else { 0int }
    }
}

/// Number of cells of class `c` in the rectangle.
pub open spec fn class_count_in_rect(g: Grid, c: CellClass, x1: i32, y1: i32, x2: i32, y2: i32) -> int {
    count_in_rect(class_points(g, c), x1, y1, x2, y2)
}

/// Number of cells of class `c` in the rectangle.
pub fn class_count_in_rect_exec(grid: &Grid, c: CellClass, x1: i32, y1: i32, x2: i32, y2: i32) -> (n: i64)
    ensures
        n == class_count_in_rect(*grid, c, x1, y1, x2, y2),
        0 <= n <= MAX_SIDE * MAX_SIDE,
{
    let ps = class_points_exec(grid, c);
    grid.note_size_limit();
    proof {
        lemma_board_points_bound(*grid, class_pred(*grid, c));
    }
    let mut n: i64 = 0;
    let mut i: usize = 0;
    while i < ps.len()
        invariant
            ps@.len() <= MAX_SIDE * MAX_SIDE,
            i <= ps@.len(),
            n == count_in_rect(ps@.subrange(0, i as int), x1, y1, x2, y2),
            0 <= n <= i,
        decreases ps@.len() - i,
    {
        if point_in_rect(ps[i], x1, y1, x2, y2) {
            n = n + 1;
        }
        i = i + 1;
        proof {
            let pre = ps@.subrange(0, i as int);
            assert(pre.drop_last() =~= ps@.subrange(0, i - 1));
        }
    }
    proof {
        assert(ps@.subrange(0, ps@.len() as int) =~= ps@);
    }
    n
}

/// Counts never exceed the cells of a board.
pub proof fn lemma_count_bound(g: Grid, c: CellClass)
    requires
        g.w() <= MAX_SIDE,
        g.h() <= MAX_SIDE,
    ensures
        count_of(g, c) <= MAX_SIDE * MAX_SIDE,
{
    lemma_board_points_bound(g, class_pred(g, c));
}

} // verus!
