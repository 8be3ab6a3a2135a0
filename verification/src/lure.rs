//! Scores for luring rats onto target cells and for driving towards game events.

use vstd::prelude::*;
use crate::model::{CellKind, Grid, MAX_SIDE};
use crate::cells::CellClass;
use crate::scan::{positions_of, count_of, count_matching, lemma_positions_of, class_pred};
use crate::reach::walkable_from_player;
use crate::reachability::{spec_distance_from_player, distance_from_player};
use crate::features::{find_player, spec_features, Features, spec_rat_at, player_at, rat_at_any, player_at_any, lure_reached};
use crate::queries::{kind_at_i32, cell_at};
use crate::rectangle::{spec_rectangle_lower_ready_heuristic, rectangle_lower_ready_heuristic, lower_board};
use crate::queries::spec_rectangle_lower_ready;
use crate::parse::TargetKind;
use crate::geometry::{spec_manhattan, manhattan, spec_nearest_pair, nearest_target_distance, nearest_pair_distance,
    spec_rectangle_lower_safe_targets, rectangle_lower_safe_targets, lemma_nearest_pair_bound};
use crate::heuristics::{Tuning, min_int, sat_sub, spec_heuristic, heuristic};
use crate::rectangle::{lure_rats, all_rats, all_players, lost_rats, lower_targets, lure_rat_points, rat_points,
    player_points};
use crate::minimum::{min_or, ints, min_of, lemma_seq_min, lemma_min_or_bounds};

verus! {

broadcast use Grid::lemma_outside_is_wall;

/// The sign of `v`.
pub open spec fn sign(v: int) -> int {
    if v > 0 { 1 } else if v < 0 { -1 } else { 0 }
}

/// The absolute value of `v`.
pub open spec fn abs(v: int) -> int {
    if v < 0 { -v } else { v }
}

/// Steps of a walk from `a` to `b` that moves each coordinate one unit at a time towards
/// `b`, both at once while both differ.
pub open spec fn walk_steps(a: (i32, i32), b: (i32, i32)) -> int {
    let dx = abs(b.0 - a.0);
    let dy = abs(b.1 - a.1);
    if dx >= dy { dx } else { dy }
}

/// The cell the walk from `a` to `b` is on after `k` steps.
pub open spec fn walk_cell(a: (i32, i32), b: (i32, i32), k: int) -> (int, int) {
    (a.0 + sign(b.0 - a.0) * min_int(k, abs(b.0 - a.0)), a.1 + sign(b.1 - a.1) * min_int(k, abs(b.1 - a.1)))
}

/// What a cell of a rat's corridor costs: off the board, a wall or a black hole 20, a web 1,
/// anything else nothing.
pub open spec fn corridor_cost(g: Grid, c: (int, int)) -> int {
    if !g.in_bounds(c.0, c.1) {
        20
    } else if g.kind_at(c.0, c.1) == CellKind::Spiderweb {
        1
    } else if g.kind_at(c.0, c.1) == CellKind::Wall || g.kind_at(c.0, c.1) == CellKind::BlackHole {
        20
    } else {
        0
    }
}

/// The corridor cost of the first `k` steps of the walk from `a` to `b`.
pub open spec fn walk_webs(g: Grid, a: (i32, i32), b: (i32, i32), k: nat) -> int
    decreases k,
{
    if k == 0 {
        0
    } else {
        walk_webs(g, a, b, (k - 1) as nat) + corridor_cost(g, walk_cell(a, b, k as int))
    }
}

/// The players' walk to the nearest web on the first `k` steps of the walk from `a` to `b`,
/// at most 1 000.
pub open spec fn walk_nearest(g: Grid, a: (i32, i32), b: (i32, i32), k: nat) -> int
    decreases k,
{
    if k == 0 {
        1000
    } else {
        let prev = walk_nearest(g, a, b, (k - 1) as nat);
        let c = walk_cell(a, b, k as int);
        if g.in_bounds(c.0, c.1) && g.kind_at(c.0, c.1) == CellKind::Spiderweb {
            min_int(prev, spec_distance_from_player(g, (c.0 as i32, c.1 as i32)))
        } else {
            prev
        }
    }
}

/// The score of luring `rat` to `trap` while a player heads for `safe`: 350 per unit of
/// distance, 900 per unit of corridor cost, 25 per step to the nearest corridor web (at most
/// 50 counted), 70 per step to `safe`, 2 000 unless `safe` lies south-east of `trap`, and
/// 5 000 off when the rat is on the trap and a player on `safe`.
pub open spec fn trap_score(g: Grid, rat: (i32, i32), trap: (i32, i32), safe: (i32, i32)) -> int {
    let steps = walk_steps(rat, trap) as nat;
    let to_safe = spec_distance_from_player(g, safe);
    spec_manhattan(rat, trap) * 350 + walk_webs(g, rat, trap, steps) * 900
        + min_int(walk_nearest(g, rat, trap, steps), 50) * 25 + to_safe * 70
        + (if safe.0 > trap.0 && safe.1 > trap.1 { 0int } else { 2_000int })
        + (if rat == trap && to_safe == 0 { -5_000int } else { 0int })
}

/// The trap cells: the middle two of the lower row when `strict`, all five otherwise.
pub open spec fn trap_cells(strict: bool) -> Seq<(i32, i32)> {
    if strict { seq![(4i32, 6i32), (5, 6)] } else { lower_targets() }
}

/// The best rat, trap and escape cell for `rat` and `trap`.
pub open spec fn best_over_safe(g: Grid, rat: (i32, i32), trap: (i32, i32)) -> int {
    min_or(spec_rectangle_lower_safe_targets().map_values(|s: (i32, i32)| trap_score(g, rat, trap, s)), 50_000)
}

/// The best trap and escape cell for `rat`.
pub open spec fn best_over_traps(g: Grid, rat: (i32, i32), strict: bool) -> int {
    min_or(trap_cells(strict).map_values(|t: (i32, i32)| best_over_safe(g, rat, t)), 50_000)
}

/// The best plan over all lure rats, trap cells and escape cells, at most 50 000.
pub open spec fn best_trap_plan(g: Grid, strict: bool) -> int {
    min_int(50_000, min_or(lure_rats(g).map_values(|r: (i32, i32)| best_over_traps(g, r, strict)), 50_000))
}

/// The distance from the first player to the nearest rat; 1 000 without a player or a rat.
pub open spec fn first_player_rat_distance(g: Grid) -> int {
    let ps = positions_of(g, CellClass::Exactly(CellKind::Player));
    if ps.len() == 0 {
        1000
    } else {
        spec_nearest_pair(all_rats(g), seq![(ps[0].0 as i32, ps[0].1 as i32)])
    }
}

/// Score for setting up the rectangle trap: the rat count once an explosive has gone off;
/// otherwise 5 000 per lost rat, 2 000 (400) when the first player is within one (two)
/// steps of a rat, and the best trap plan.
pub open spec fn spec_rectangle_trap_heuristic(g: Grid, initial_rats: usize, initial_explosives: usize, strict: bool) -> int {
    if count_of(g, CellClass::Exactly(CellKind::Explosive)) < initial_explosives {
        count_of(g, CellClass::RatOrCyborg) as int
    } else {
        let d = first_player_rat_distance(g);
        lost_rats(g, initial_rats) * 5_000 + (if d <= 1 { 2_000int } else if d == 2 { 400int } else { 0int })
            + best_trap_plan(g, strict)
    }
}

/// Walks from `rat` to `trap` and sums the corridor costs and the nearest web.
fn walk_corridor(grid: &Grid, rat: (i32, i32), trap: (i32, i32)) -> (r: (i64, i64))
    requires
        0 <= rat.0 < MAX_SIDE,
        0 <= rat.1 < MAX_SIDE,
        0 <= trap.0 < MAX_SIDE,
        0 <= trap.1 < MAX_SIDE,
    ensures
        r.0 == walk_webs(*grid, rat, trap, walk_steps(rat, trap) as nat),
        r.1 == walk_nearest(*grid, rat, trap, walk_steps(rat, trap) as nat),
        0 <= r.0 <= 20 * MAX_SIDE,
        0 <= r.1 <= 1000,
{
    let w = grid.width();
    let h = grid.height();
    let dx: i32 = if trap.0 > rat.0 { 1 } else if trap.0 < rat.0 { -1 } else { 0 };
    let dy: i32 = if trap.1 > rat.1 { 1 } else if trap.1 < rat.1 { -1 } else { 0 };
    let ghost steps = walk_steps(rat, trap);
    let mut cursor = rat;
    let mut webs: i64 = 0;
    let mut nearest: i64 = 1000;
    let mut k: usize = 0;
    while cursor.0 != trap.0 || cursor.1 != trap.1
        invariant
            w == grid.w(),
            h == grid.h(),
            0 <= rat.0 < MAX_SIDE,
            0 <= rat.1 < MAX_SIDE,
            0 <= trap.0 < MAX_SIDE,
            0 <= trap.1 < MAX_SIDE,
            dx == sign(trap.0 - rat.0),
            dy == sign(trap.1 - rat.1),
            steps == walk_steps(rat, trap),
            0 <= k <= steps,
            (cursor.0 as int, cursor.1 as int) == walk_cell(rat, trap, k as int),
            webs == walk_webs(*grid, rat, trap, k as nat),
            nearest == walk_nearest(*grid, rat, trap, k as nat),
            0 <= webs <= 20 * k,
            0 <= nearest <= 1000,
        decreases steps - k,
    {
        proof {
            if k >= steps {
                assert(walk_cell(rat, trap, k as int) == (trap.0 as int, trap.1 as int));
            }
        }
        if cursor.0 != trap.0 {
            cursor.0 = cursor.0 + dx;
        }
        if cursor.1 != trap.1 {
            cursor.1 = cursor.1 + dy;
        }
        k = k + 1;
        proof {
            assert((cursor.0 as int, cursor.1 as int) == walk_cell(rat, trap, k as int));
        }
        if cursor.0 < 0 || cursor.1 < 0 || cursor.0 as usize >= w || cursor.1 as usize >= h {
            webs = webs + 20;
        } else {
            let kind = grid.cell_kind_at(cursor.0 as usize, cursor.1 as usize);
            if kind == CellKind::Spiderweb {
                webs = webs + 1;
                let d = distance_from_player(grid, cursor);
                if d < nearest {
                    nearest = d;
                }
            } else if kind == CellKind::Wall || kind == CellKind::BlackHole {
                webs = webs + 20;
            }
        }
    }
    proof {
        if k < steps {
            assert(walk_cell(rat, trap, k as int) != (trap.0 as int, trap.1 as int));
        }
    }
    (webs, nearest)
}

/// The trap plan's score; see `trap_score`.
fn trap_score_exec(grid: &Grid, rat: (i32, i32), trap: (i32, i32), safe: (i32, i32), webs: i64, nearest: i64) -> (s: i64)
    requires
        0 <= rat.0 < MAX_SIDE,
        0 <= rat.1 < MAX_SIDE,
        0 <= trap.0 < MAX_SIDE,
        0 <= trap.1 < MAX_SIDE,
        webs == walk_webs(*grid, rat, trap, walk_steps(rat, trap) as nat),
        nearest == walk_nearest(*grid, rat, trap, walk_steps(rat, trap) as nat),
        0 <= webs <= 20 * MAX_SIDE,
        0 <= nearest <= 1000,
    ensures
        s == trap_score(*grid, rat, trap, safe),
        -5_000 <= s <= 1_000_000_000_000,
{
    let to_safe = distance_from_player(grid, safe);
    let side: i64 = if safe.0 > trap.0 && safe.1 > trap.1 { 0 } else { 2_000 };
    let ready: i64 = if rat.0 == trap.0 && rat.1 == trap.1 && to_safe == 0 { -5_000 } else { 0 };
    manhattan(rat, trap) * 350 + webs * 900 + (if nearest < 50 { nearest } else { 50 }) * 25 + to_safe * 70 + side + ready
}

/// The lure rats lie on the board.
proof fn lemma_lure_rats_on_board(g: Grid)
    requires
        g.w() <= MAX_SIDE,
        g.h() <= MAX_SIDE,
    ensures
        forall|i: int| 0 <= i < lure_rats(g).len() ==> {
            let p = #[trigger] lure_rats(g)[i];
            0 <= p.0 < MAX_SIDE && 0 <= p.1 < MAX_SIDE
        },
{
    lemma_positions_of(g, CellClass::LowRat);
    lemma_positions_of(g, CellClass::RatOrCyborg);
    let low = positions_of(g, CellClass::LowRat);
    let q = if low.len() > 0 { low } else { positions_of(g, CellClass::RatOrCyborg) };
    assert forall|i: int| 0 <= i < lure_rats(g).len() implies {
        let p = #[trigger] lure_rats(g)[i];
        0 <= p.0 < MAX_SIDE && 0 <= p.1 < MAX_SIDE
    } by {
        assert(g.in_bounds(q[i].0, q[i].1));
    }
}

/// The best plan for `rat` and `trap` over the escape cells.
fn best_over_safe_exec(grid: &Grid, rat: (i32, i32), trap: (i32, i32)) -> (s: i64)
    requires
        0 <= rat.0 < MAX_SIDE,
        0 <= rat.1 < MAX_SIDE,
        0 <= trap.0 < MAX_SIDE,
        0 <= trap.1 < MAX_SIDE,
    ensures
        s == best_over_safe(*grid, rat, trap),
        -5_000 <= s <= 1_000_000_000_000,
{
    let (webs, nearest) = walk_corridor(grid, rat, trap);
    let safes = rectangle_lower_safe_targets();
    let mut values: Vec<i64> = Vec::new();
    let mut i: usize = 0;
    while i < 6
        invariant
            0 <= rat.0 < MAX_SIDE,
            0 <= rat.1 < MAX_SIDE,
            0 <= trap.0 < MAX_SIDE,
            0 <= trap.1 < MAX_SIDE,
            webs == walk_webs(*grid, rat, trap, walk_steps(rat, trap) as nat),
            nearest == walk_nearest(*grid, rat, trap, walk_steps(rat, trap) as nat),
            0 <= webs <= 20 * MAX_SIDE,
            0 <= nearest <= 1000,
            safes@ == spec_rectangle_lower_safe_targets(),
            i <= 6,
            values@.len() == i,
            forall|k: int| 0 <= k < i ==> #[trigger] values@[k] == trap_score(*grid, rat, trap, safes@[k]),
            forall|k: int| 0 <= k < i ==> -5_000 <= #[trigger] values@[k] <= 1_000_000_000_000,
        decreases 6 - i,
    {
        values.push(trap_score_exec(grid, rat, trap, safes[i], webs, nearest));
        i = i + 1;
    }
    let m = min_of(&values, 50_000);
    proof {
        let s = ints(values@);
        assert(s =~= spec_rectangle_lower_safe_targets().map_values(|t: (i32, i32)| trap_score(*grid, rat, trap, t)));
        lemma_min_or_bounds(s, 50_000, -5_000, 1_000_000_000_000);
    }
    m
}

/// The best plan for `rat` over the trap cells and escape cells.
fn best_over_traps_exec(grid: &Grid, rat: (i32, i32), strict: bool) -> (s: i64)
    requires
        0 <= rat.0 < MAX_SIDE,
        0 <= rat.1 < MAX_SIDE,
    ensures
        s == best_over_traps(*grid, rat, strict),
        -5_000 <= s <= 1_000_000_000_000,
{
    let traps: Vec<(i32, i32)> = if strict { vec![(4i32, 6i32), (5, 6)] } else { vec![(2i32, 6i32), (3, 6), (4, 6), (5, 6), (6, 6)] };
    proof {
        assert(traps@ =~= trap_cells(strict));
    }
    let mut values: Vec<i64> = Vec::new();
    let mut i: usize = 0;
    while i < traps.len()
        invariant
            0 <= rat.0 < MAX_SIDE,
            0 <= rat.1 < MAX_SIDE,
            traps@ == trap_cells(strict),
            i <= traps@.len(),
            values@.len() == i,
            forall|k: int| 0 <= k < i ==> #[trigger] values@[k] == best_over_safe(*grid, rat, traps@[k]),
            forall|k: int| 0 <= k < i ==> -5_000 <= #[trigger] values@[k] <= 1_000_000_000_000,
        decreases traps@.len() - i,
    {
        values.push(best_over_safe_exec(grid, rat, traps[i]));
        i = i + 1;
    }
    let m = min_of(&values, 50_000);
    proof {
        let s = ints(values@);
        assert(s =~= trap_cells(strict).map_values(|t: (i32, i32)| best_over_safe(*grid, rat, t)));
        lemma_min_or_bounds(s, 50_000, -5_000, 1_000_000_000_000);
    }
    m
}

/// The distance from the first player to the nearest rat; see `first_player_rat_distance`.
fn first_player_rat_distance_exec(grid: &Grid) -> (d: i64)
    ensures
        d == first_player_rat_distance(*grid),
        0 <= d <= 2 * (u32::MAX as int),
{
    match find_player(grid) {
        None => 1000,
        Some(p) => {
            let rats = rat_points(grid);
            let one = [p];
            proof {
                let ps = positions_of(*grid, CellClass::Exactly(CellKind::Player));
                assert((ps[0].0 as i32, ps[0].1 as i32) == p);
                assert(one@ =~= seq![p]);
            }
            nearest_target_distance(&rats, &one)
        },
    }
}

/// Score for setting up the rectangle trap; see `spec_rectangle_trap_heuristic`.
pub fn rectangle_trap_heuristic(grid: &Grid, initial_rats: usize, initial_explosives: usize, strict: bool) -> (h: i64)
    requires
        initial_rats <= MAX_SIDE * MAX_SIDE,
    ensures
        h == spec_rectangle_trap_heuristic(*grid, initial_rats, initial_explosives, strict),
{
    let rats_now = count_matching(grid, CellClass::RatOrCyborg);
    if count_matching(grid, CellClass::Exactly(CellKind::Explosive)) < initial_explosives {
        return rats_now as i64;
    }
    let lure = lure_rat_points(grid);
    grid.note_size_limit();
    proof {
        lemma_lure_rats_on_board(*grid);
    }
    let mut values: Vec<i64> = Vec::new();
    let mut i: usize = 0;
    while i < lure.len()
        invariant
            lure@ == lure_rats(*grid),
            forall|k: int| 0 <= k < lure@.len() ==> {
                let p = #[trigger] lure@[k];
                0 <= p.0 < MAX_SIDE && 0 <= p.1 < MAX_SIDE
            },
            i <= lure@.len(),
            values@.len() == i,
            forall|k: int| 0 <= k < i ==> #[trigger] values@[k] == best_over_traps(*grid, lure@[k], strict),
            forall|k: int| 0 <= k < i ==> -5_000 <= #[trigger] values@[k] <= 1_000_000_000_000,
        decreases lure@.len() - i,
    {
        proof {
            let p = lure@[i as int];
        }
        values.push(best_over_traps_exec(grid, lure[i], strict));
        i = i + 1;
    }
    let m = min_of(&values, 50_000);
    proof {
        let s = ints(values@);
        assert(s =~= lure_rats(*grid).map_values(|r: (i32, i32)| best_over_traps(*grid, r, strict)));
        lemma_min_or_bounds(s, 50_000, -5_000, 1_000_000_000_000);
    }
    let best: i64 = if m < 50_000 { m } else { 50_000 };
    let d = first_player_rat_distance_exec(grid);
    let contact: i64 = if d <= 1 { 2_000 } else if d == 2 { 400 } else { 0 };
    let lost: i64 = if initial_rats >= rats_now { (initial_rats - rats_now) as i64 } else { 0 };
    lost * 5_000 + contact + best
}

/// Number of web cells among the listed cells.
pub open spec fn listed_webs(g: Grid, cells: Seq<(i32, i32)>) -> int
    decreases cells.len(),
{
    if cells.len() == 0 {
        0
    } else {
        listed_webs(g, cells.drop_last())
            + if kind_at_i32(g, cells.last().0, cells.last().1) == CellKind::Spiderweb { 1int } else { 0int }
    }
}

/// The players' walk to the nearest listed web, at most 1 000.
pub open spec fn listed_web_nearest(g: Grid, cells: Seq<(i32, i32)>) -> int
    decreases cells.len(),
{
    if cells.len() == 0 {
        1000
    } else {
        let prev = listed_web_nearest(g, cells.drop_last());
        if kind_at_i32(g, cells.last().0, cells.last().1) == CellKind::Spiderweb {
            min_int(prev, spec_distance_from_player(g, cells.last()))
        } else {
            prev
        }
    }
}

/// Counts the webs among the listed cells and the walk to the nearest one.
fn web_stats(grid: &Grid, cells: &[(i32, i32)]) -> (r: (i64, i64))
    requires
        cells@.len() <= MAX_SIDE * MAX_SIDE,
    ensures
        r.0 == listed_webs(*grid, cells@),
        r.1 == listed_web_nearest(*grid, cells@),
        0 <= r.0 <= cells@.len(),
        0 <= r.1 <= 1000,
{
    let mut webs: i64 = 0;
    let mut nearest: i64 = 1000;
    let mut i: usize = 0;
    while i < cells.len()
        invariant
            cells@.len() <= MAX_SIDE * MAX_SIDE,
            i <= cells@.len(),
            webs == listed_webs(*grid, cells@.subrange(0, i as int)),
            nearest == listed_web_nearest(*grid, cells@.subrange(0, i as int)),
            0 <= webs <= i,
            0 <= nearest <= 1000,
        decreases cells@.len() - i,
    {
        let (x, y) = cells[i];
        if cell_at(grid, x, y) == CellKind::Spiderweb {
            webs = webs + 1;
            let d = distance_from_player(grid, (x, y));
            if d < nearest {
                nearest = d;
            }
        }
        i = i + 1;
        proof {
            let pre = cells@.subrange(0, i as int);
            assert(pre.drop_last() =~= cells@.subrange(0, i - 1));
        }
    }
    proof {
        assert(cells@.subrange(0, cells@.len() as int) =~= cells@);
    }
    (webs, nearest)
}

/// Rows `y0` up to before `y` of a board `w` wide, each left to right.
pub open spec fn rows_upto(w: int, y0: int, y: int) -> Seq<(i32, i32)>
    decreases y - y0,
{
    if y <= y0 {
        Seq::empty()
    } else {
        rows_upto(w, y0, y - 1) + Seq::new(w as nat, |x: int| (x as i32, (y - 1) as i32))
    }
}

/// The fixed corridor of the narrow tinderbox level.
pub open spec fn narrow_corridor() -> Seq<(i32, i32)> {
    seq![(2i32, 2i32), (3, 2), (4, 2), (5, 2), (6, 2), (3, 3), (4, 3), (5, 3), (6, 3), (7, 3), (2, 4), (3, 4), (4, 4),
        (5, 4), (6, 4), (7, 4), (2, 5), (3, 5), (4, 5), (5, 5), (6, 5), (7, 5), (7, 6), (7, 7), (7, 8), (6, 8)]
}

/// The corridor the tinderbox plan must clear: on boards sixteen or more wide every cell
/// from row three down, otherwise the narrow level's fixed corridor.
pub open spec fn tinder_corridor(g: Grid) -> Seq<(i32, i32)> {
    if g.w() >= 16 { rows_upto(g.w() as int, 3, g.h() as int) } else { narrow_corridor() }
}

/// The tinderbox corridor of a board; see `tinder_corridor`.
fn tinder_corridor_exec(grid: &Grid) -> (cells: Vec<(i32, i32)>)
    ensures
        cells@ == tinder_corridor(*grid),
        cells@.len() <= MAX_SIDE * MAX_SIDE,
{
    let w = grid.width();
    let h = grid.height();
    if w < 16 {
        let v = vec![(2i32, 2i32), (3, 2), (4, 2), (5, 2), (6, 2), (3, 3), (4, 3), (5, 3), (6, 3), (7, 3), (2, 4), (3, 4), (4, 4),
            (5, 4), (6, 4), (7, 4), (2, 5), (3, 5), (4, 5), (5, 5), (6, 5), (7, 5), (7, 6), (7, 7), (7, 8), (6, 8)];
        proof {
            assert(v@ =~= narrow_corridor());
        }
        return v;
    }
    let mut cells: Vec<(i32, i32)> = Vec::new();
    let mut y: usize = 3;
    while y < h
        invariant
            w == grid.w(),
            h == grid.h(),
            w <= MAX_SIDE,
            h <= MAX_SIDE,
            3 <= y,
            y <= h || (h < 3 && y == 3),
            cells@ == rows_upto(w as int, 3, y as int),
            cells@.len() == (y - 3) * w,
        decreases h - y,
    {
        let ghost start = cells@;
        let mut x: usize = 0;
        while x < w
            invariant
                w <= MAX_SIDE,
                h <= MAX_SIDE,
                y < h,
                x <= w,
                cells@ == start + Seq::new(x as nat, |i: int| (i as i32, y as i32)),
            decreases w - x,
        {
            cells.push((x as i32, y as i32));
            x = x + 1;
            proof {
                assert(cells@ =~= start + Seq::new(x as nat, |i: int| (i as i32, y as i32)));
            }
        }
        y = y + 1;
        proof {
            assert(cells@ =~= rows_upto(w as int, 3, y as int));
            assert((y - 3) * w == (y - 4) * w + w) by (nonlinear_arith) requires y >= 4;
        }
    }
    proof {
        assert((y - 3) * w <= MAX_SIDE * MAX_SIDE) by (nonlinear_arith)
            requires y <= h || y == 3, h <= MAX_SIDE, w <= MAX_SIDE, y >= 3;
    }
    cells
}

/// Score for the tinderbox plan of luring a rat onto `rat_target` while the player reaches
/// `safe_target`. On boards sixteen or more wide, `rect_lower` hands over to the lower trap
/// score and `trap` to the trap score. Otherwise: the rat count once an explosive has gone
/// off; with a lure rat on the target, 2 000 per lost rat, contact, and 20 per step to
/// `safe_target`; else also 200 per corridor web and 4 per step to the nearest (at most 50
/// counted), 80 per unit from the lure rats to the target, and the walk to `safe_target`
/// (at most 50 counted).
pub open spec fn spec_tinderbox_heuristic(g: Grid, initial_rats: usize, initial_explosives: usize,
    rat_target: (i32, i32), safe_target: (i32, i32), t: Tuning, win_ready: bool) -> int {
    if t.rect_lower && g.w() >= 16 {
        spec_rectangle_lower_ready_heuristic(g, initial_rats, initial_explosives, win_ready)
    } else if t.trap && g.w() >= 16 {
        spec_rectangle_trap_heuristic(g, initial_rats, initial_explosives, t.strict)
    } else if count_of(g, CellClass::Exactly(CellKind::Explosive)) < initial_explosives {
        count_of(g, CellClass::RatOrCyborg) as int
    } else {
        let lure = lure_rats(g);
        let ps = positions_of(g, CellClass::Exactly(CellKind::Player));
        let at_safe = ps.len() > 0 && (ps[0].0 as i32, ps[0].1 as i32) == safe_target;
        let to_safe = spec_distance_from_player(g, safe_target);
        let d = first_player_rat_distance(g);
        let contact = if !at_safe && d <= 1 { 2_000int } else if !at_safe && d == 2 { 400int } else { 0int };
        let lost = lost_rats(g, initial_rats) * 2_000;
        if lure.contains(rat_target) {
            lost + contact + to_safe * 20
        } else {
            let corridor = tinder_corridor(g);
            lost + contact + listed_webs(g, corridor) * 200 + min_int(listed_web_nearest(g, corridor), 50) * 4
                + spec_nearest_pair(lure, seq![rat_target]) * 80 + min_int(to_safe, 50)
        }
    }
}

/// Score for the tinderbox plan; see `spec_tinderbox_heuristic`.
pub fn tinderbox_heuristic(grid: &Grid, initial_rats: usize, initial_explosives: usize, rat_target: (i32, i32),
    safe_target: (i32, i32), tuning: Tuning, win_ready: bool) -> (h: i64)
    requires
        initial_rats <= MAX_SIDE * MAX_SIDE,
        tuning.rect_lower && grid.w() >= 16 ==> (spec_rectangle_lower_ready(*grid, win_ready)
            || count_of(*grid, CellClass::Exactly(CellKind::Explosive)) < initial_explosives || lower_board(*grid)),
    ensures
        h == spec_tinderbox_heuristic(*grid, initial_rats, initial_explosives, rat_target, safe_target, tuning, win_ready),
{
    let w = grid.width();
    if tuning.rect_lower && w >= 16 {
        return rectangle_lower_ready_heuristic(grid, initial_rats, initial_explosives, win_ready);
    }
    if tuning.trap && w >= 16 {
        return rectangle_trap_heuristic(grid, initial_rats, initial_explosives, tuning.strict);
    }
    let rats_now = count_matching(grid, CellClass::RatOrCyborg);
    if count_matching(grid, CellClass::Exactly(CellKind::Explosive)) < initial_explosives {
        return rats_now as i64;
    }
    let lure = lure_rat_points(grid);
    let one = [rat_target];
    proof {
        assert(one@ =~= seq![rat_target]);
    }
    let rat_to_target = nearest_target_distance(&lure, &one);
    let mut rat_on = false;
    let mut i: usize = 0;
    while i < lure.len()
        invariant
            i <= lure@.len(),
            rat_on == exists|k: int| 0 <= k < i && lure@[k] == rat_target,
        decreases lure@.len() - i,
    {
        if lure[i].0 == rat_target.0 && lure[i].1 == rat_target.1 {
            rat_on = true;
        }
        i = i + 1;
    }
    let player = find_player(grid);
    let at_safe = match player {
        Some(p) => p.0 == safe_target.0 && p.1 == safe_target.1,
        None => false,
    };
    let to_safe = distance_from_player(grid, safe_target);
    let d = first_player_rat_distance_exec(grid);
    let contact: i64 = if !at_safe && d <= 1 { 2_000 } else if !at_safe && d == 2 { 400 } else { 0 };
    let lost: i64 = if initial_rats >= rats_now { (initial_rats - rats_now) as i64 * 2_000 } else { 0 };
    if rat_on {
        return lost + contact + to_safe * 20;
    }
    let corridor = tinder_corridor_exec(grid);
    let (webs, nearest) = web_stats(grid, &corridor);
    let clear_work = webs * 200 + (if nearest < 50 { nearest } else { 50 }) * 4;
    lost + contact + clear_work + rat_to_target * 80 + (if to_safe < 50 { to_safe } else { 50 })
}

/// What keeping the lure's target clear costs: off the board or a wall or black hole
/// 100 000; a web 20 000 plus 200 per unit of distance from the nearest player; anything
/// else nothing.
pub open spec fn lure_clearance(g: Grid, t: (i32, i32)) -> int {
    if !g.in_bounds(t.0 as int, t.1 as int) {
        100_000
    } else if g.kind_at(t.0 as int, t.1 as int) == CellKind::Spiderweb {
        20_000 + spec_nearest_pair(all_players(g), seq![t]) * 200
    } else if g.kind_at(t.0 as int, t.1 as int) == CellKind::Wall || g.kind_at(t.0 as int, t.1 as int) == CellKind::BlackHole {
        100_000
    } else {
        0
    }
}

/// Score for luring a rat onto `rat_target` while a player reaches one of `safe_targets`:
/// 0 once done; otherwise 10 000 000 per lost rat, 1 000 per unit from the nearest rat to the
/// target, 80 per unit from the players to the safe cells (none without safe cells), and
/// the target's clearance.
pub open spec fn spec_lure_heuristic(g: Grid, rat_target: (i32, i32), safe_targets: Seq<(i32, i32)>, initial_rats: usize) -> int {
    if spec_rat_at(g, rat_target) && (safe_targets.len() == 0
        || exists|i: int| 0 <= i < safe_targets.len() && player_at(g, #[trigger] safe_targets[i])) {
        0
    } else {
        lost_rats(g, initial_rats) * 10_000_000 + spec_nearest_pair(all_rats(g), seq![rat_target]) * 1_000
            + (if safe_targets.len() == 0 { 0 } else { spec_nearest_pair(all_players(g), safe_targets) }) * 80
            + lure_clearance(g, rat_target)
    }
}

/// Score for luring a rat onto a target; see `spec_lure_heuristic`.
pub fn lure_heuristic(grid: &Grid, rat_target: (i32, i32), safe_targets: &[(i32, i32)], initial_rats: usize) -> (h: i64)
    requires
        initial_rats <= MAX_SIDE * MAX_SIDE,
    ensures
        h == spec_lure_heuristic(*grid, rat_target, safe_targets@, initial_rats),
{
    if lure_reached(grid, rat_target, safe_targets) {
        return 0;
    }
    let rats = rat_points(grid);
    let players = player_points(grid);
    let one = [rat_target];
    proof {
        assert(one@ =~= seq![rat_target]);
    }
    let rat_distance = nearest_target_distance(&rats, &one);
    let safe_distance: i64 = if safe_targets.len() == 0 { 0 } else { nearest_pair_distance(&players, safe_targets) };
    let w = grid.width();
    let h = grid.height();
    let clearance: i64 = if rat_target.0 < 0 || rat_target.1 < 0 || rat_target.0 as usize >= w || rat_target.1 as usize >= h {
        100_000
    } else {
        let k = grid.cell_kind_at(rat_target.0 as usize, rat_target.1 as usize);
        if k == CellKind::Spiderweb {
            20_000 + nearest_target_distance(&players, &one) * 200
        } else if k == CellKind::Wall || k == CellKind::BlackHole {
            100_000
        } else {
            0
        }
    };
    let rats_now = count_matching(grid, CellClass::RatOrCyborg);
    let lost: i64 = if initial_rats >= rats_now { (initial_rats - rats_now) as i64 } else { 0 };
    lost * 10_000_000 + rat_distance * 1_000 + safe_distance * 80 + clearance
}

/// The rectangle level's corridor cells: rows three to six from column one to seven, then
/// rows six to eight from column thirteen to fifteen; none on boards narrower than sixteen.
pub open spec fn spec_rectangle_corridor_cells(g: Grid) -> Seq<(i32, i32)> {
    if g.w() < 16 {
        Seq::empty()
    } else {
        seq![(1i32, 3i32), (2, 3), (3, 3), (4, 3), (5, 3), (6, 3), (7, 3),
            (1, 4), (2, 4), (3, 4), (4, 4), (5, 4), (6, 4), (7, 4),
            (1, 5), (2, 5), (3, 5), (4, 5), (5, 5), (6, 5), (7, 5),
            (1, 6), (2, 6), (3, 6), (4, 6), (5, 6), (6, 6), (7, 6),
            (13, 6), (14, 6), (15, 6), (13, 7), (14, 7), (15, 7), (13, 8), (14, 8), (15, 8)]
    }
}

/// The rectangle level's corridor cells; see `spec_rectangle_corridor_cells`.
pub fn rectangle_corridor_cells(grid: &Grid) -> (cells: Vec<(i32, i32)>)
    ensures
        cells@ == spec_rectangle_corridor_cells(*grid),
{
    if grid.width() < 16 {
        return Vec::new();
    }
    let v = vec![(1i32, 3i32), (2, 3), (3, 3), (4, 3), (5, 3), (6, 3), (7, 3),
        (1, 4), (2, 4), (3, 4), (4, 4), (5, 4), (6, 4), (7, 4),
        (1, 5), (2, 5), (3, 5), (4, 5), (5, 5), (6, 5), (7, 5),
        (1, 6), (2, 6), (3, 6), (4, 6), (5, 6), (6, 6), (7, 6),
        (13, 6), (14, 6), (15, 6), (13, 7), (14, 7), (15, 7), (13, 8), (14, 8), (15, 8)];
    proof {
        assert(v@ =~= spec_rectangle_corridor_cells(*grid));
    }
    v
}

/// What keeping a lure target clear costs in the geometric plan: off the board or a wall or
/// black hole 100 000; a web 20 000 plus 80 per step of the players' walk to it.
pub open spec fn geom_clearance(g: Grid, t: (i32, i32)) -> int {
    if !g.in_bounds(t.0 as int, t.1 as int) {
        100_000
    } else if g.kind_at(t.0 as int, t.1 as int) == CellKind::Spiderweb {
        spec_distance_from_player(g, t) * 80 + 20_000
    } else if g.kind_at(t.0 as int, t.1 as int) == CellKind::Wall || g.kind_at(t.0 as int, t.1 as int) == CellKind::BlackHole {
        100_000
    } else {
        0
    }
}

/// Score for luring a rat onto one of `rat_targets` while a player reaches one of
/// `safe_targets`: the rat count once an explosive has gone off; 1 when both are done;
/// otherwise lost rats (10 000 000 each when `preserve_rats`, else 10 000), contact while
/// no player is safe (50 000 within one step, 5 000 at two), and then, with a rat on a
/// target, 250 per unit from the players to the safe cells, or else the cheapest target to
/// keep clear, 1 200 per corridor web and 35 per step to the nearest (at most 50), 900 per
/// unit from the lure rats to the targets and 30 per unit to the safe cells (at most 50).
pub open spec fn spec_geom_lure_heuristic(g: Grid, rat_targets: Seq<(i32, i32)>, safe_targets: Seq<(i32, i32)>,
    initial_rats: usize, initial_explosives: usize, preserve_rats: bool) -> int {
    let rat_on = exists|i: int| 0 <= i < rat_targets.len() && spec_rat_at(g, #[trigger] rat_targets[i]);
    let player_safe = safe_targets.len() == 0 || exists|i: int| 0 <= i < safe_targets.len() && player_at(g, #[trigger] safe_targets[i]);
    if count_of(g, CellClass::Exactly(CellKind::Explosive)) < initial_explosives {
        count_of(g, CellClass::RatOrCyborg) as int
    } else if rat_on && player_safe {
        1
    } else {
        let d = spec_nearest_pair(all_players(g), all_rats(g));
        let contact = if !player_safe && d <= 1 { 50_000int } else if !player_safe && d == 2 { 5_000int } else { 0int };
        let lost = lost_rats(g, initial_rats) * (if preserve_rats { 10_000_000int } else { 10_000int });
        let safe = spec_nearest_pair(all_players(g), safe_targets);
        if rat_on {
            lost + contact + safe * 250
        } else {
            let corridor = spec_rectangle_corridor_cells(g);
            lost + contact + min_or(rat_targets.map_values(|t: (i32, i32)| geom_clearance(g, t)), 100_000)
                + listed_webs(g, corridor) * 1_200 + min_int(listed_web_nearest(g, corridor), 50) * 35
                + spec_nearest_pair(lure_rats(g), rat_targets) * 900 + min_int(safe, 50) * 30
        }
    }
}

/// Score for the geometric lure plan; see `spec_geom_lure_heuristic`.
pub fn geom_lure_heuristic(grid: &Grid, rat_targets: &[(i32, i32)], safe_targets: &[(i32, i32)], initial_rats: usize,
    initial_explosives: usize, preserve_rats: bool) -> (h: i64)
    requires
        initial_rats <= MAX_SIDE * MAX_SIDE,
    ensures
        h == spec_geom_lure_heuristic(*grid, rat_targets@, safe_targets@, initial_rats, initial_explosives, preserve_rats),
{
    let rats_now = count_matching(grid, CellClass::RatOrCyborg);
    if count_matching(grid, CellClass::Exactly(CellKind::Explosive)) < initial_explosives {
        return rats_now as i64;
    }
    let rat_on = rat_at_any(grid, rat_targets);
    let player_safe = player_at_any(grid, safe_targets);
    if rat_on && player_safe {
        return 1;
    }
    let all = rat_points(grid);
    let lure = lure_rat_points(grid);
    let players = player_points(grid);
    let rat_distance = nearest_target_distance(&lure, rat_targets);
    let safe = nearest_target_distance(&players, safe_targets);
    let d = nearest_target_distance(&players, &all);
    let contact: i64 = if !player_safe && d <= 1 { 50_000 } else if !player_safe && d == 2 { 5_000 } else { 0 };
    let lost_count: i64 = if initial_rats >= rats_now { (initial_rats - rats_now) as i64 } else { 0 };
    let lost: i64 = lost_count * if preserve_rats { 10_000_000 } else { 10_000 };
    if rat_on {
        return lost + contact + safe * 250;
    }
    let w = grid.width();
    let h = grid.height();
    let mut values: Vec<i64> = Vec::new();
    let mut i: usize = 0;
    while i < rat_targets.len()
        invariant
            w == grid.w(),
            h == grid.h(),
            i <= rat_targets@.len(),
            values@.len() == i,
            forall|k: int| 0 <= k < i ==> #[trigger] values@[k] == geom_clearance(*grid, rat_targets@[k]),
            forall|k: int| 0 <= k < i ==> 0 <= #[trigger] values@[k] <= 200_000_000_000,
        decreases rat_targets@.len() - i,
    {
        let (x, y) = rat_targets[i];
        let c: i64 = if x < 0 || y < 0 || x as usize >= w || y as usize >= h {
            100_000
        } else {
            let k = grid.cell_kind_at(x as usize, y as usize);
            if k == CellKind::Spiderweb {
                distance_from_player(grid, (x, y)) * 80 + 20_000
            } else if k == CellKind::Wall || k == CellKind::BlackHole {
                100_000
            } else {
                0
            }
        };
        values.push(c);
        i = i + 1;
    }
    let clearance = min_of(&values, 100_000);
    proof {
        let s = ints(values@);
        assert(s =~= rat_targets@.map_values(|t: (i32, i32)| geom_clearance(*grid, t)));
        lemma_min_or_bounds(s, 100_000, 0, 200_000_000_000);
    }
    let corridor = rectangle_corridor_cells(grid);
    let (webs, nearest) = web_stats(grid, &corridor);
    lost + contact + clearance + webs * 1_200 + (if nearest < 50 { nearest } else { 50 }) * 35 + rat_distance * 900
        + (if safe < 50 { safe } else { 50 }) * 30
}

/// Whether the event a search drives towards has happened: an explosion, a trigger used or
/// a rat lost since `initial`; any change of the features; ignition or a rat next to an
/// explosive on the board. `ignition_ready` tells whether some move of all players sets off
/// an explosive without losing.
pub open spec fn spec_target_reached(target: TargetKind, initial: Features, current: Features, g: Grid, ignition_ready: bool) -> bool {
    match target {
        TargetKind::Explosion => current.explosives < initial.explosives,
        TargetKind::IgnitionReady => ignition_ready,
        TargetKind::RatNearExplosive => crate::queries::spec_rat_near_explosive(g),
        TargetKind::Trigger => current.triggers < initial.triggers,
        TargetKind::RatDrop => current.rats < initial.rats,
        TargetKind::StructureChanged => current != initial,
    }
}

/// Whether the event a search drives towards has happened; see `spec_target_reached`.
pub fn target_reached(target: TargetKind, initial: Features, current: Features, grid: &Grid, ignition_ready: bool) -> (b: bool)
    ensures
        b == spec_target_reached(target, initial, current, *grid, ignition_ready),
{
    match target {
        TargetKind::Explosion => current.explosives < initial.explosives,
        TargetKind::IgnitionReady => ignition_ready,
        TargetKind::RatNearExplosive => crate::queries::rat_near_explosive(grid),
        TargetKind::Trigger => current.triggers < initial.triggers,
        TargetKind::RatDrop => current.rats < initial.rats,
        TargetKind::StructureChanged => !current.same(&initial),
    }
}

/// The positions of a class as signed pairs.
pub open spec fn class_points(g: Grid, c: CellClass) -> Seq<(i32, i32)> {
    crate::heuristics::to_i32_points(positions_of(g, c))
}

/// The positions of a class as signed pairs.
pub(crate) fn class_points_exec(grid: &Grid, c: CellClass) -> (v: Vec<(i32, i32)>)
    ensures
        v@ == class_points(*grid, c),
{
    let v = crate::scan::positions_matching(grid, c);
    proof {
        let q = positions_of(*grid, c);
        assert forall|i: int| 0 <= i < v@.len() implies v@[i] == class_points(*grid, c)[i] by {
            assert((v@[i].0 as int, v@[i].1 as int) == q[i]);
        }
        assert(v@ =~= class_points(*grid, c));
    }
    v
}

/// Score for driving towards an event: 0 once it happened. For explosions, ignition and a
/// rat next to an explosive: on boards sixteen or more wide with `trap` (not for the rat
/// case) the trap score; otherwise the distance from the rats (the lure rats with `lure`) to
/// the nearest explosive, one less for the rat case. For triggers the distance from the
/// players to the nearest trigger; for rat drops the general score; for any change the
/// distance from the players to the nearest rat, trigger or explosive.
pub open spec fn spec_event_heuristic(g: Grid, target: TargetKind, initial: Features, t: Tuning, ignition_ready: bool) -> int {
    if spec_target_reached(target, initial, spec_features(g), g, ignition_ready) {
        0
    } else {
        match target {
            TargetKind::Explosion | TargetKind::IgnitionReady | TargetKind::RatNearExplosive => {
                if t.trap && target != TargetKind::RatNearExplosive && g.w() >= 16 {
                    spec_rectangle_trap_heuristic(g, initial.rats, initial.explosives, t.strict)
                } else {
                    let rats = if t.lure { lure_rats(g) } else { class_points(g, CellClass::RatOrCyborg) };
                    let d = spec_nearest_pair(rats, class_points(g, CellClass::Exactly(CellKind::Explosive)));
                    if target == TargetKind::RatNearExplosive { sat_sub(d, 1) } else { d }
                }
            },
            TargetKind::Trigger => spec_nearest_pair(class_points(g, CellClass::Exactly(CellKind::Player)),
                class_points(g, CellClass::AnyTrigger)),
            TargetKind::RatDrop => spec_heuristic(g, t),
            TargetKind::StructureChanged => spec_nearest_pair(class_points(g, CellClass::Exactly(CellKind::Player)),
                class_points(g, CellClass::EventTarget)),
        }
    }
}

/// Score for driving towards an event; see `spec_event_heuristic`.
pub fn event_heuristic(grid: &Grid, target: TargetKind, initial: Features, tuning: Tuning, ignition_ready: bool) -> (h: i64)
    requires
        initial.rats <= MAX_SIDE * MAX_SIDE,
    ensures
        h == spec_event_heuristic(*grid, target, initial, tuning, ignition_ready),
{
    let current = Features::from_grid(grid);
    if target_reached(target, initial, current, grid, ignition_ready) {
        return 0;
    }
    match target {
        TargetKind::Explosion | TargetKind::IgnitionReady | TargetKind::RatNearExplosive => {
            if tuning.trap && target != TargetKind::RatNearExplosive && grid.width() >= 16 {
                return rectangle_trap_heuristic(grid, initial.rats, initial.explosives, tuning.strict);
            }
            let rats = if tuning.lure { lure_rat_points(grid) } else { class_points_exec(grid, CellClass::RatOrCyborg) };
            let explosives = class_points_exec(grid, CellClass::Exactly(CellKind::Explosive));
            let d = nearest_pair_distance(&rats, &explosives);
            if target == TargetKind::RatNearExplosive {
                if d >= 1 { d - 1 } else { 0 }
            } else {
                d
            }
        },
        TargetKind::Trigger => {
            let players = class_points_exec(grid, CellClass::Exactly(CellKind::Player));
            let triggers = class_points_exec(grid, CellClass::AnyTrigger);
            nearest_pair_distance(&players, &triggers)
        },
        TargetKind::RatDrop => heuristic(grid, tuning),
        TargetKind::StructureChanged => {
            let players = class_points_exec(grid, CellClass::Exactly(CellKind::Player));
            let interesting = class_points_exec(grid, CellClass::EventTarget);
            nearest_pair_distance(&players, &interesting)
        },
    }
}

/// The event a search drives towards is read off the change of the features alone: an
/// explosion when explosives went down, a trigger used when triggers went down, a rat drop
/// when rats went down, a structural change when any feature changed. In particular a used
/// trigger counts whatever happened to the rats, and a lost rat counts as no trigger use.
pub proof fn law_event_from_feature_change(initial: Features, current: Features, g: Grid, ready: bool,
    current2: Features, g2: Grid, ready2: bool)
    ensures
        spec_target_reached(TargetKind::Explosion, initial, current, g, ready) <==> current.explosives < initial.explosives,
        spec_target_reached(TargetKind::Trigger, initial, current, g, ready) <==> current.triggers < initial.triggers,
        spec_target_reached(TargetKind::RatDrop, initial, current, g, ready) <==> current.rats < initial.rats,
        spec_target_reached(TargetKind::StructureChanged, initial, current, g, ready) <==> current != initial,
        spec_target_reached(TargetKind::IgnitionReady, initial, current, g, ready) <==> ready,
        current2.triggers == current.triggers ==> (spec_target_reached(TargetKind::Trigger, initial, current, g, ready)
            == spec_target_reached(TargetKind::Trigger, initial, current2, g2, ready2)),
{
}

/// The board is one where the lure is done: the rat stands on its target, and a player on
/// one of the safe cells, if any are given.
pub open spec fn lure_done(g: Grid, rat_target: (i32, i32), safe_targets: Seq<(i32, i32)>) -> bool {
    spec_rat_at(g, rat_target) && (safe_targets.len() == 0
        || exists|i: int| 0 <= i < safe_targets.len() && player_at(g, #[trigger] safe_targets[i]))
}

/// Every rat lost since the start costs the lure score 10 000 000: while the lure is not
/// done, counting one more rat at the start raises the score by exactly that much once at
/// least as many rats were counted as the board holds, and the score does not depend on the
/// starting count while it is no more than the rats the board holds. Once the lure is done
/// the score is 0.
pub proof fn law_lost_rats_cost_lure(g: Grid, rat_target: (i32, i32), safe_targets: Seq<(i32, i32)>, n: usize)
    ensures
        lure_done(g, rat_target, safe_targets) ==> spec_lure_heuristic(g, rat_target, safe_targets, n) == 0,
        !lure_done(g, rat_target, safe_targets) && n < usize::MAX && n >= count_of(g, CellClass::RatOrCyborg) ==>
            spec_lure_heuristic(g, rat_target, safe_targets, (n + 1) as usize)
                == spec_lure_heuristic(g, rat_target, safe_targets, n) + 10_000_000,
        !lure_done(g, rat_target, safe_targets) && n <= count_of(g, CellClass::RatOrCyborg) ==>
            spec_lure_heuristic(g, rat_target, safe_targets, n) == spec_lure_heuristic(g, rat_target, safe_targets, 0),
{
}

} // verus!
