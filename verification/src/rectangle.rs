//! Scores for the rectangle level: luring a rat into the lower trap row while a player
//! waits on an escape cell, and the wider plans around it.

use vstd::prelude::*;
use crate::model::{CellKind, Grid, MAX_SIDE};
use crate::cells::CellClass;
use crate::scan::{positions_of, count_of, count_matching, lemma_positions_of};
use crate::reach::{walkable_from_player, is_player_dist_map, player_dist_map};
use crate::features::{rat_positions, player_positions, tinder_lure_rat_positions, spec_rat_at, player_at, rat_at_any, player_at_any};
use crate::geometry::{spec_manhattan, manhattan, spec_nearest_pair, nearest_target_distance,
    spec_rectangle_lower_rat_targets, spec_rectangle_lower_safe_targets, rectangle_lower_rat_targets,
    rectangle_lower_safe_targets};
use crate::queries::{kind_at_i32, cell_at, spec_east_blocked, rectangle_lower_east_blocked,
    spec_rectangle_lower_separated, rectangle_lower_separated, spec_rectangle_lower_ignition_ready,
    rectangle_lower_ignition_ready, spec_rectangle_lower_ready, rectangle_lower_ready};
use crate::nearest::{dist_of, lemma_dist_entry};
use crate::heuristics::{to_i32_points, sat_sub, min_int};
use crate::minimum::{min_or, ints, min_of, lemma_seq_min};

verus! {

/// The rats that serve as lures: those in row three or below, or all rats when none is there.
pub open spec fn lure_rats(g: Grid) -> Seq<(i32, i32)> {
    let low = positions_of(g, CellClass::LowRat);
    to_i32_points(if low.len() > 0 { low } else { positions_of(g, CellClass::RatOrCyborg) })
}

/// All rats, in row-major order.
pub open spec fn all_rats(g: Grid) -> Seq<(i32, i32)> {
    to_i32_points(positions_of(g, CellClass::RatOrCyborg))
}

/// All players, in row-major order.
pub open spec fn all_players(g: Grid) -> Seq<(i32, i32)> {
    to_i32_points(positions_of(g, CellClass::Exactly(CellKind::Player)))
}

/// Positions as signed pairs equal the sequence they were listed from.
proof fn lemma_points(v: Seq<(i32, i32)>, q: Seq<(int, int)>)
    requires
        v.len() == q.len(),
        forall|i: int| 0 <= i < v.len() ==> (#[trigger] v[i].0 as int, v[i].1 as int) == q[i],
    ensures
        v == to_i32_points(q),
{
    assert forall|i: int| 0 <= i < v.len() implies v[i] == to_i32_points(q)[i] by {
        assert((v[i].0 as int, v[i].1 as int) == q[i]);
    }
    assert(v =~= to_i32_points(q));
}

/// The lure rats of a board.
pub fn lure_rat_points(grid: &Grid) -> (v: Vec<(i32, i32)>)
    ensures
        v@ == lure_rats(*grid),
{
    let v = tinder_lure_rat_positions(grid);
    proof {
        let low = positions_of(*grid, CellClass::LowRat);
        lemma_points(v@, if low.len() > 0 { low } else { positions_of(*grid, CellClass::RatOrCyborg) });
    }
    v
}

/// The rats of a board.
pub fn rat_points(grid: &Grid) -> (v: Vec<(i32, i32)>)
    ensures
        v@ == all_rats(*grid),
{
    let v = rat_positions(grid);
    proof {
        lemma_points(v@, positions_of(*grid, CellClass::RatOrCyborg));
    }
    v
}

/// The players of a board.
pub fn player_points(grid: &Grid) -> (v: Vec<(i32, i32)>)
    ensures
        v@ == all_players(*grid),
{
    let v = player_positions(grid);
    proof {
        lemma_points(v@, positions_of(*grid, CellClass::Exactly(CellKind::Player)));
    }
    v
}

/// Rats lost since the start.
pub open spec fn lost_rats(g: Grid, initial_rats: usize) -> int {
    sat_sub(initial_rats as int, count_of(g, CellClass::RatOrCyborg) as int)
}

/// Penalty for a player within one step (`near`) or two steps (`close`) of a rat.
pub open spec fn contact_penalty(g: Grid, near: int, close: int) -> int {
    let d = spec_nearest_pair(all_players(g), all_rats(g));
    if d <= 1 { near } else if d == 2 { close } else { 0 }
}

/// Penalty for a player close to a rat.
fn contact_penalty_exec(grid: &Grid, near: i64, close: i64) -> (p: i64)
    ensures
        p == contact_penalty(*grid, near as int, close as int),
{
    let players = player_points(grid);
    let rats = rat_points(grid);
    let d = nearest_target_distance(&players, &rats);
    if d <= 1 { near } else if d == 2 { close } else { 0 }
}

/// What keeping a target cell clear costs: a wall or black hole costs 1 000 000; a web costs
/// `web` plus, by the players' walk to it, `web` again when they cannot reach it or
/// `per_step` per step; anything else is free.
pub open spec fn clearance(g: Grid, t: (i32, i32), web: int, per_step: int) -> int {
    let k = kind_at_i32(g, t.0, t.1);
    if k == CellKind::Wall || k == CellKind::BlackHole {
        1_000_000
    } else if k == CellKind::Spiderweb {
        let (x, y) = ((t.0 as usize) as int, (t.1 as usize) as int);
        web + if walkable_from_player(g, x, y) { dist_of(g, x, y) * per_step } else { web }
    } else {
        0
    }
}

/// The cheapest target to keep clear, or 1 000 000 when there are no targets.
pub open spec fn best_clearance(g: Grid, targets: Seq<(i32, i32)>, web: int, per_step: int) -> int {
    min_or(targets.map_values(|t: (i32, i32)| clearance(g, t, web, per_step)), 1_000_000)
}

/// What keeping a target clear costs; see `clearance`.
fn clearance_exec(grid: &Grid, dist: &Vec<Vec<i32>>, t: (i32, i32), web: i64, per_step: i64) -> (c: i64)
    requires
        is_player_dist_map(*grid, dist@),
        0 <= web <= 1_000_000,
        0 <= per_step <= 1_000,
    ensures
        c == clearance(*grid, t, web as int, per_step as int),
        0 <= c <= 3_000_000_000_000,
{
    let k = cell_at(grid, t.0, t.1);
    if k == CellKind::Wall || k == CellKind::BlackHole {
        1_000_000
    } else if k == CellKind::Spiderweb {
        let x = t.0 as usize;
        let y = t.1 as usize;
        proof {
            broadcast use Grid::lemma_outside_is_wall;
            assert(grid.in_bounds(x as int, y as int));
            assert(dist@[y as int]@.len() == grid.w());
        }
        let d = dist[y][x];
        if d == i32::MAX {
            web + web
        } else {
            proof {
                lemma_dist_entry(*grid, dist@, x as int, y as int);
                assert(0 <= d as int * per_step as int <= 2_147_483_647 * 1_000) by (nonlinear_arith)
                    requires 0 <= d <= 2_147_483_647, 0 <= per_step <= 1_000;
            }
            web + d as i64 * per_step
        }
    } else {
        0
    }
}

/// The cheapest target to keep clear; see `best_clearance`.
fn best_clearance_exec(grid: &Grid, dist: &Vec<Vec<i32>>, targets: &[(i32, i32)], web: i64, per_step: i64) -> (c: i64)
    requires
        is_player_dist_map(*grid, dist@),
        0 <= web <= 1_000_000,
        0 <= per_step <= 1_000,
    ensures
        c == best_clearance(*grid, targets@, web as int, per_step as int),
        0 <= c <= 3_000_000_000_000,
{
    let mut values: Vec<i64> = Vec::new();
    let mut i: usize = 0;
    while i < targets.len()
        invariant
            is_player_dist_map(*grid, dist@),
            0 <= web <= 1_000_000,
            0 <= per_step <= 1_000,
            i <= targets@.len(),
            values@.len() == i,
            forall|k: int| 0 <= k < i ==> #[trigger] values@[k] == clearance(*grid, targets@[k], web as int, per_step as int),
            forall|k: int| 0 <= k < i ==> 0 <= #[trigger] values@[k] <= 3_000_000_000_000,
        decreases targets@.len() - i,
    {
        values.push(clearance_exec(grid, dist, targets[i], web, per_step));
        i = i + 1;
    }
    let m = min_of(&values, 1_000_000);
    proof {
        let s = ints(values@);
        assert(s =~= targets@.map_values(|t: (i32, i32)| clearance(*grid, t, web as int, per_step as int)));
        if s.len() > 0 {
            lemma_seq_min(s);
            let j = choose|j: int| 0 <= j < s.len() && s[j] == crate::minimum::seq_min(s);
            assert(s[j] == values@[j] as int);
        }
    }
    m
}

/// What the lower plan charges a lure rat: nothing in the trap row, a lot past its east end
/// (more the further east), otherwise 45 000 per unit of distance to the rat targets.
pub open spec fn lower_rat_cost(p: (i32, i32)) -> int {
    if p.1 == 6 && 2 <= p.0 <= 6 {
        0
    } else if p.1 == 6 && p.0 > 6 {
        500_000 + (p.0 - 6) * 150_000
    } else {
        spec_nearest_pair(seq![p], spec_rectangle_lower_rat_targets()) * 45_000
    }
}

/// What the lower plan charges a rat's position; see `lower_rat_cost`.
fn lower_rat_cost_exec(p: (i32, i32)) -> (c: i64)
    requires
        0 <= p.0 <= MAX_SIDE,
        0 <= p.1 <= MAX_SIDE,
    ensures
        c == lower_rat_cost(p),
        0 <= c <= 1_000_000_000_000_000,
{
    if p.1 == 6 && 2 <= p.0 && p.0 <= 6 {
        0
    } else if p.1 == 6 && p.0 > 6 {
        500_000 + (p.0 as i64 - 6) * 150_000
    } else {
        let one = [p];
        let targets = rectangle_lower_rat_targets();
        proof {
            assert(one@ =~= seq![p]);
        }
        nearest_target_distance(&one, &targets) * 45_000
    }
}

/// The lure rats lie on the board.
proof fn lemma_points_on_board(g: Grid, c: CellClass)
    requires
        g.w() <= MAX_SIDE,
        g.h() <= MAX_SIDE,
    ensures
        forall|i: int| 0 <= i < to_i32_points(positions_of(g, c)).len() ==> {
            let p = #[trigger] to_i32_points(positions_of(g, c))[i];
            0 <= p.0 < MAX_SIDE && 0 <= p.1 < MAX_SIDE
        },
{
    lemma_positions_of(g, c);
    assert forall|i: int| 0 <= i < to_i32_points(positions_of(g, c)).len() implies {
        let p = #[trigger] to_i32_points(positions_of(g, c))[i];
        0 <= p.0 < MAX_SIDE && 0 <= p.1 < MAX_SIDE
    } by {
        let q = positions_of(g, c)[i];
        assert(g.in_bounds(q.0, q.1));
    }
}

/// The lure rats lie on the board.
proof fn lemma_lure_on_board(g: Grid)
    requires
        g.w() <= MAX_SIDE,
        g.h() <= MAX_SIDE,
    ensures
        forall|i: int| 0 <= i < lure_rats(g).len() ==> {
            let p = #[trigger] lure_rats(g)[i];
            0 <= p.0 < MAX_SIDE && 0 <= p.1 < MAX_SIDE
        },
{
    lemma_points_on_board(g, CellClass::LowRat);
    lemma_points_on_board(g, CellClass::RatOrCyborg);
}

/// The cheapest lure rat for the lower plan, or `None` with no lure rat.
pub open spec fn best_lower_rat(g: Grid) -> Option<int> {
    let r = lure_rats(g);
    if r.len() == 0 { None } else { Some(min_or(r.map_values(|p: (i32, i32)| lower_rat_cost(p)), 0)) }
}

/// The cheapest lure rat for the lower plan.
fn best_lower_rat_exec(grid: &Grid, rats: &Vec<(i32, i32)>) -> (c: Option<i64>)
    requires
        rats@ == lure_rats(*grid),
    ensures
        opt_i64(c) == best_lower_rat(*grid),
        c matches Some(v) ==> 0 <= v <= 1_000_000_000_000_000,
{
    grid.note_size_limit();
    proof {
        lemma_lure_on_board(*grid);
    }
    if rats.len() == 0 {
        return None;
    }
    let mut values: Vec<i64> = Vec::new();
    let mut i: usize = 0;
    while i < rats.len()
        invariant
            rats@ == lure_rats(*grid),
            forall|k: int| 0 <= k < rats@.len() ==> {
                let p = #[trigger] rats@[k];
                0 <= p.0 < MAX_SIDE && 0 <= p.1 < MAX_SIDE
            },
            i <= rats@.len(),
            values@.len() == i,
            forall|k: int| 0 <= k < i ==> #[trigger] values@[k] == lower_rat_cost(rats@[k]),
            forall|k: int| 0 <= k < i ==> 0 <= #[trigger] values@[k] <= 1_000_000_000_000_000,
        decreases rats@.len() - i,
    {
        proof {
            let p = rats@[i as int];
        }
        values.push(lower_rat_cost_exec(rats[i]));
        i = i + 1;
    }
    let m = min_of(&values, 0);
    proof {
        let s = ints(values@);
        assert(s =~= rats@.map_values(|p: (i32, i32)| lower_rat_cost(p)));
        lemma_seq_min(s);
        let j = choose|j: int| 0 <= j < s.len() && s[j] == crate::minimum::seq_min(s);
        assert(s[j] == values@[j] as int);
    }
    Some(m)
}

/// An optional machine integer as an optional mathematical one.
pub open spec fn opt_i64(o: Option<i64>) -> Option<int> {
    match o {
        Some(v) => Some(v as int),
        None => None,
    }
}

/// What the lower plan charges a player: 70 000 per unit of distance to the escape cells.
pub open spec fn safe_cost(p: (i32, i32)) -> int {
    spec_nearest_pair(seq![p], spec_rectangle_lower_safe_targets()) * 70_000
}

/// The cheapest player for the lower plan, or `None` with no player.
pub open spec fn best_safe_player(g: Grid) -> Option<int> {
    let p = all_players(g);
    if p.len() == 0 { None } else { Some(min_or(p.map_values(|q: (i32, i32)| safe_cost(q)), 0)) }
}

/// The cheapest player for the lower plan.
fn best_safe_player_exec(grid: &Grid, players: &Vec<(i32, i32)>) -> (c: Option<i64>)
    requires
        players@ == all_players(*grid),
    ensures
        opt_i64(c) == best_safe_player(*grid),
        c matches Some(v) ==> 0 <= v <= 1_000_000_000_000_000,
{
    if players.len() == 0 {
        return None;
    }
    let safe = rectangle_lower_safe_targets();
    let mut values: Vec<i64> = Vec::new();
    let mut i: usize = 0;
    while i < players.len()
        invariant
            safe@ == spec_rectangle_lower_safe_targets(),
            i <= players@.len(),
            values@.len() == i,
            forall|k: int| 0 <= k < i ==> #[trigger] values@[k] == safe_cost(players@[k]),
            forall|k: int| 0 <= k < i ==> 0 <= #[trigger] values@[k] <= 1_000_000_000_000_000,
        decreases players@.len() - i,
    {
        let one = [players[i]];
        proof {
            assert(one@ =~= seq![players@[i as int]]);
        }
        values.push(nearest_target_distance(&one, &safe) * 70_000);
        i = i + 1;
    }
    let m = min_of(&values, 0);
    proof {
        let s = ints(values@);
        assert(s =~= players@.map_values(|q: (i32, i32)| safe_cost(q)));
        lemma_seq_min(s);
        let j = choose|j: int| 0 <= j < s.len() && s[j] == crate::minimum::seq_min(s);
        assert(s[j] == values@[j] as int);
    }
    Some(m)
}

/// Score for separating a rat into the lower trap row while a player stands on an escape
/// cell: 0 once separated; 1 000 000 000 plus 1 000 000 per rat once an explosive has gone
/// off; otherwise 500 000 per lost rat, a contact penalty (100 000 within one step, 20 000
/// at two), the cheapest rat target to keep clear, and the cheapest lure rat plus the
/// cheapest player (1 000 000 when either is missing).
pub open spec fn spec_rectangle_lower_separated_heuristic(g: Grid, initial_rats: usize, initial_explosives: usize, win_ready: bool) -> int {
    if spec_rectangle_lower_separated(g, win_ready) {
        0
    } else if count_of(g, CellClass::Exactly(CellKind::Explosive)) < initial_explosives {
        1_000_000_000 + count_of(g, CellClass::RatOrCyborg) as int * 1_000_000
    } else {
        let pair = match (best_lower_rat(g), best_safe_player(g)) {
            (Some(a), Some(b)) => a + b,
            _ => 1_000_000,
        };
        lost_rats(g, initial_rats) * 500_000 + contact_penalty(g, 100_000, 20_000)
            + best_clearance(g, spec_rectangle_lower_rat_targets(), 70_000, 700) + pair
    }
}

/// Score for separating a rat into the lower trap row; see
/// `spec_rectangle_lower_separated_heuristic`. `win_ready` tells whether one turn wins;
/// `initial_rats` counts the rats of a board, so no more than it has cells.
pub fn rectangle_lower_separated_heuristic(grid: &Grid, initial_rats: usize, initial_explosives: usize, win_ready: bool) -> (h: i64)
    requires
        initial_rats <= MAX_SIDE * MAX_SIDE,
    ensures
        h == spec_rectangle_lower_separated_heuristic(*grid, initial_rats, initial_explosives, win_ready),
        0 <= h <= 4_000_000_000_000_000,
{
    if rectangle_lower_separated(grid, win_ready) {
        return 0;
    }
    let rats_now = count_matching(grid, CellClass::RatOrCyborg);
    if count_matching(grid, CellClass::Exactly(CellKind::Explosive)) < initial_explosives {
        return 1_000_000_000 + rats_now as i64 * 1_000_000;
    }
    let lure = lure_rat_points(grid);
    let players = player_points(grid);
    let pair: i64 = match (best_lower_rat_exec(grid, &lure), best_safe_player_exec(grid, &players)) {
        (Some(a), Some(b)) => a + b,
        _ => 1_000_000,
    };
    let dist = player_dist_map(grid);
    let targets = rectangle_lower_rat_targets();
    let clear = best_clearance_exec(grid, &dist, &targets, 70_000, 700);
    let lost: i64 = if initial_rats >= rats_now { (initial_rats - rats_now) as i64 } else { 0 };
    let contact = contact_penalty_exec(grid, 100_000, 20_000);
    lost * 500_000 + contact + clear + pair
}

/// Costs of the rats in the lower trap row: 0 when their east side is blocked, else 400 000.
pub open spec fn slot_blocker_costs(g: Grid, ps: Seq<(i32, i32)>) -> Seq<int>
    decreases ps.len(),
{
    if ps.len() == 0 {
        Seq::empty()
    } else {
        let p = ps.last();
        slot_blocker_costs(g, ps.drop_last()) + if p.1 == 6 && 2 <= p.0 <= 6 {
            seq![if spec_east_blocked(g, p.0, p.1) { 0int } else { 400_000int }]
        } else {
            Seq::empty()
        }
    }
}

/// Score for getting the trapped rat ready to ignite: 0 once ready; otherwise the
/// separation score plus the cheapest trapped rat's east blocker (200 000 with no rat in
/// the trap row).
pub open spec fn spec_rectangle_lower_ignition_heuristic(g: Grid, initial_rats: usize, initial_explosives: usize, win_ready: bool) -> int {
    if spec_rectangle_lower_ignition_ready(g, win_ready) {
        0
    } else {
        spec_rectangle_lower_separated_heuristic(g, initial_rats, initial_explosives, win_ready)
            + min_or(slot_blocker_costs(g, all_rats(g)), 200_000)
    }
}

/// Score for getting the trapped rat ready to ignite; see
/// `spec_rectangle_lower_ignition_heuristic`.
pub fn rectangle_lower_ignition_heuristic(grid: &Grid, initial_rats: usize, initial_explosives: usize, win_ready: bool) -> (h: i64)
    requires
        initial_rats <= MAX_SIDE * MAX_SIDE,
    ensures
        h == spec_rectangle_lower_ignition_heuristic(*grid, initial_rats, initial_explosives, win_ready),
{
    if rectangle_lower_ignition_ready(grid, win_ready) {
        return 0;
    }
    let base = rectangle_lower_separated_heuristic(grid, initial_rats, initial_explosives, win_ready);
    let rats = rat_points(grid);
    let mut values: Vec<i64> = Vec::new();
    let mut i: usize = 0;
    while i < rats.len()
        invariant
            i <= rats@.len(),
            ints(values@) == slot_blocker_costs(*grid, rats@.subrange(0, i as int)),
            forall|k: int| 0 <= k < values@.len() ==> 0 <= #[trigger] values@[k] <= 400_000,
        decreases rats@.len() - i,
    {
        let (x, y) = rats[i];
        let ghost before = values@;
        if y == 6 && 2 <= x && x <= 6 {
            let c: i64 = if rectangle_lower_east_blocked(grid, x, y) { 0 } else { 400_000 };
            values.push(c);
        }
        i = i + 1;
        proof {
            let pre = rats@.subrange(0, i as int);
            assert(pre.drop_last() =~= rats@.subrange(0, i - 1));
            assert(ints(values@) =~= slot_blocker_costs(*grid, pre));
        }
    }
    proof {
        assert(rats@.subrange(0, rats@.len() as int) =~= rats@);
    }
    let blocker = min_of(&values, 200_000);
    proof {
        let s = ints(values@);
        if s.len() > 0 {
            lemma_seq_min(s);
            let j = choose|j: int| 0 <= j < s.len() && s[j] == crate::minimum::seq_min(s);
            assert(s[j] == values@[j] as int);
        }
    }
    base + blocker
}

/// The walking distances to the listed cells that are on the board and reachable.
pub open spec fn reach_dists(g: Grid, ts: Seq<(i32, i32)>) -> Seq<int>
    decreases ts.len(),
{
    if ts.len() == 0 {
        Seq::empty()
    } else {
        let t = ts.last();
        reach_dists(g, ts.drop_last()) + if g.in_bounds(t.0 as int, t.1 as int) && walkable_from_player(g, t.0 as int, t.1 as int) {
            seq![dist_of(g, t.0 as int, t.1 as int)]
        } else {
            Seq::empty()
        }
    }
}

/// The walk to the nearest reachable listed cell, or 1 000 when none is reachable.
pub open spec fn nearest_listed(g: Grid, ts: Seq<(i32, i32)>) -> int {
    min_or(reach_dists(g, ts), 1000)
}

/// The walk to the nearest reachable listed cell; see `nearest_listed`.
fn nearest_listed_exec(grid: &Grid, dist: &Vec<Vec<i32>>, ts: &[(i32, i32)]) -> (d: i64)
    requires
        is_player_dist_map(*grid, dist@),
    ensures
        d == nearest_listed(*grid, ts@),
        0 <= d < i32::MAX,
{
    let mut values: Vec<i64> = Vec::new();
    let mut i: usize = 0;
    let w = grid.width();
    let h = grid.height();
    while i < ts.len()
        invariant
            is_player_dist_map(*grid, dist@),
            w == grid.w(),
            h == grid.h(),
            i <= ts@.len(),
            ints(values@) == reach_dists(*grid, ts@.subrange(0, i as int)),
            forall|k: int| 0 <= k < values@.len() ==> 0 <= #[trigger] values@[k] < i32::MAX,
        decreases ts@.len() - i,
    {
        let (x, y) = ts[i];
        let ghost before = values@;
        if x >= 0 && y >= 0 && (x as usize) < w && (y as usize) < h {
            proof {
                assert(dist@[y as int]@.len() == w);
            }
            let d = dist[y as usize][x as usize];
            if d != i32::MAX {
                proof {
                    lemma_dist_entry(*grid, dist@, x as int, y as int);
                }
                values.push(d as i64);
            }
        }
        i = i + 1;
        proof {
            let pre = ts@.subrange(0, i as int);
            assert(pre.drop_last() =~= ts@.subrange(0, i - 1));
            assert(ints(values@) =~= reach_dists(*grid, pre));
        }
    }
    proof {
        assert(ts@.subrange(0, ts@.len() as int) =~= ts@);
    }
    let m = min_of(&values, 1000);
    proof {
        let s = ints(values@);
        if s.len() > 0 {
            lemma_seq_min(s);
            let j = choose|j: int| 0 <= j < s.len() && s[j] == crate::minimum::seq_min(s);
            assert(s[j] == values@[j] as int);
        }
    }
    m
}

/// How far east of the trap row's end the lure rats in row six stand.
pub open spec fn overruns(ps: Seq<(i32, i32)>) -> Seq<int>
    decreases ps.len(),
{
    if ps.len() == 0 {
        Seq::empty()
    } else {
        let p = ps.last();
        overruns(ps.drop_last()) + if p.1 == 6 && p.0 > 6 { seq![p.0 - 6] } else { Seq::empty() }
    }
}

/// How far east of the trap row's end the lure rats in row six stand, at least; 0 when none
/// does.
fn lower_overrun(rats: &Vec<(i32, i32)>) -> (o: i64)
    requires
        forall|k: int| 0 <= k < rats@.len() ==> 0 <= (#[trigger] rats@[k]).0 < MAX_SIDE,
    ensures
        o == min_or(overruns(rats@), 0),
        0 <= o < MAX_SIDE,
{
    let mut values: Vec<i64> = Vec::new();
    let mut i: usize = 0;
    while i < rats.len()
        invariant
            forall|k: int| 0 <= k < rats@.len() ==> 0 <= (#[trigger] rats@[k]).0 < MAX_SIDE,
            i <= rats@.len(),
            ints(values@) == overruns(rats@.subrange(0, i as int)),
            forall|k: int| 0 <= k < values@.len() ==> 0 <= #[trigger] values@[k] < MAX_SIDE,
        decreases rats@.len() - i,
    {
        let (x, y) = rats[i];
        proof {
            assert(0 <= rats@[i as int].0 < MAX_SIDE);
        }
        if y == 6 && x > 6 {
            values.push(x as i64 - 6);
        }
        i = i + 1;
        proof {
            let pre = rats@.subrange(0, i as int);
            assert(pre.drop_last() =~= rats@.subrange(0, i - 1));
            assert(ints(values@) =~= overruns(pre));
        }
    }
    proof {
        assert(rats@.subrange(0, rats@.len() as int) =~= rats@);
    }
    let m = min_of(&values, 0);
    proof {
        let s = ints(values@);
        if s.len() > 0 {
            lemma_seq_min(s);
            let j = choose|j: int| 0 <= j < s.len() && s[j] == crate::minimum::seq_min(s);
            assert(s[j] == values@[j] as int);
        }
    }
    m
}

/// A rat stands on one of the lower rat targets.
pub open spec fn rat_on_lower_target(g: Grid) -> bool {
    exists|i: int| 0 <= i < 5 && spec_rat_at(g, #[trigger] spec_rectangle_lower_rat_targets()[i])
}

/// A player stands on one of the escape cells.
pub open spec fn player_on_escape(g: Grid) -> bool {
    exists|i: int| 0 <= i < 6 && player_at(g, #[trigger] spec_rectangle_lower_safe_targets()[i])
}

/// Score for the lower trap being ready (a rat on a rat target, a player on an escape
/// cell): 0 once ready; 1 000 000 000 plus 1 000 000 per rat once an explosive has gone
/// off; otherwise lost rats, the overrun of lure rats past the row's end, contact, the
/// cheapest lure rat (1 000 000 with none), the cheapest target to keep clear, and the walk
/// to the escape cells, weighted by how far the plan has got.
pub open spec fn spec_rectangle_lower_ready_heuristic(g: Grid, initial_rats: usize, initial_explosives: usize, win_ready: bool) -> int {
    if spec_rectangle_lower_ready(g, win_ready) {
        0
    } else if count_of(g, CellClass::Exactly(CellKind::Explosive)) < initial_explosives {
        1_000_000_000 + count_of(g, CellClass::RatOrCyborg) as int * 1_000_000
    } else {
        let safe = nearest_listed(g, spec_rectangle_lower_safe_targets());
        let rat_on = rat_on_lower_target(g);
        let player_safe = player_on_escape(g);
        let staged = if rat_on { safe * 6_000 } else if player_safe { 120_000 } else { min_int(safe, 40) * 250 };
        let rat_score = match best_lower_rat(g) { Some(v) => v, None => 1_000_000 };
        lost_rats(g, initial_rats) * 500_000 + min_or(overruns(lure_rats(g)), 0) * 200_000
            + contact_penalty(g, 100_000, 20_000) + rat_score
            + best_clearance(g, spec_rectangle_lower_rat_targets(), 70_000, 700) + staged
            + (if player_safe && !rat_on { 250_000int } else { 0int })
    }
}

/// The escape cells, the lowest at row eight and the eastmost at column fifteen, lie on a
/// board at least sixteen wide and nine high.
pub open spec fn lower_board(g: Grid) -> bool {
    g.w() >= 16 && g.h() >= 9
}

/// Score for the lower trap being ready; see `spec_rectangle_lower_ready_heuristic`. Unless
/// the trap is ready or an explosive has gone off, the board must hold the escape cells.
pub fn rectangle_lower_ready_heuristic(grid: &Grid, initial_rats: usize, initial_explosives: usize, win_ready: bool) -> (h: i64)
    requires
        initial_rats <= MAX_SIDE * MAX_SIDE,
        spec_rectangle_lower_ready(*grid, win_ready)
            || count_of(*grid, CellClass::Exactly(CellKind::Explosive)) < initial_explosives
            || lower_board(*grid),
    ensures
        h == spec_rectangle_lower_ready_heuristic(*grid, initial_rats, initial_explosives, win_ready),
{
    if rectangle_lower_ready(grid, win_ready) {
        return 0;
    }
    let rats_now = count_matching(grid, CellClass::RatOrCyborg);
    if count_matching(grid, CellClass::Exactly(CellKind::Explosive)) < initial_explosives {
        return 1_000_000_000 + rats_now as i64 * 1_000_000;
    }
    let rat_targets = rectangle_lower_rat_targets();
    let safe_targets = rectangle_lower_safe_targets();
    let lure = lure_rat_points(grid);
    let dist = player_dist_map(grid);
    let rat_on = rat_at_any(grid, &rat_targets);
    let player_safe = player_at_any(grid, &safe_targets);
    let lost: i64 = if initial_rats >= rats_now { (initial_rats - rats_now) as i64 } else { 0 };
    let rat_score: i64 = match best_lower_rat_exec(grid, &lure) {
        Some(v) => v,
        None => 1_000_000,
    };
    let clear = best_clearance_exec(grid, &dist, &rat_targets, 70_000, 700);
    let safe = nearest_listed_exec(grid, &dist, &safe_targets);
    grid.note_size_limit();
    proof {
        lemma_lure_on_board(*grid);
    }
    let overrun = lower_overrun(&lure);
    let contact = contact_penalty_exec(grid, 100_000, 20_000);
    let staged: i64 = if rat_on {
        safe * 6_000
    } else if player_safe {
        120_000
    } else {
        (if safe < 40 { safe } else { 40 }) * 250
    };
    let bonus: i64 = if player_safe && !rat_on { 250_000 } else { 0 };
    lost * 500_000 + overrun * 200_000 + contact + rat_score + clear + staged + bonus
}

/// A wide plan: 20 000 per unit of distance from the rats to the rat targets, 1 500 per
/// step of the walk to the nearest reachable escape cell (1 000 steps when none is), the
/// cheapest rat target to keep clear, and `extra_penalty`.
pub open spec fn spec_rectangle_plan_score(g: Grid, rats: Seq<(i32, i32)>, rat_targets: Seq<(i32, i32)>,
    safe_targets: Seq<(i32, i32)>, extra_penalty: i64) -> int {
    spec_nearest_pair(rats, rat_targets) * 20_000 + nearest_listed(g, safe_targets) * 1_500
        + best_clearance(g, rat_targets, 50_000, 500) + extra_penalty
}

/// Score of a wide plan; see `spec_rectangle_plan_score`. `player_dist` is the players'
/// distance map of the board.
pub fn rectangle_plan_score(grid: &Grid, rats: &[(i32, i32)], rat_targets: &[(i32, i32)], safe_targets: &[(i32, i32)],
    player_dist: &Vec<Vec<i32>>, extra_penalty: i64) -> (s: i64)
    requires
        is_player_dist_map(*grid, player_dist@),
        spec_rectangle_plan_score(*grid, rats@, rat_targets@, safe_targets@, extra_penalty) <= i64::MAX,
    ensures
        s == spec_rectangle_plan_score(*grid, rats@, rat_targets@, safe_targets@, extra_penalty),
{
    let rat_distance = nearest_target_distance(rats, rat_targets);
    let safe = nearest_listed_exec(grid, player_dist, safe_targets);
    let clear = best_clearance_exec(grid, player_dist, rat_targets, 50_000, 500);
    rat_distance * 20_000 + safe * 1_500 + clear + extra_penalty
}

/// What blocks the east side of a lower target: a web is best (0), a wall next (10 000),
/// anything else costs 200 000, and an east side past the board's edge 1 000 000.
pub open spec fn east_blocker_cost(g: Grid, t: (i32, i32)) -> int {
    let bx = t.0 + 1;
    if (bx as usize) as int >= g.w() {
        1_000_000
    } else {
        let k = g.kind_at((bx as usize) as int, (t.1 as usize) as int);
        if k == CellKind::Spiderweb { 0 } else if k == CellKind::Wall { 10_000 } else { 200_000 }
    }
}

/// What a lower target costs: 20 000 per unit of distance from the nearest rat, the cost of
/// keeping it clear, and that of its east blocker.
pub open spec fn lower_target_cost(g: Grid, rats: Seq<(i32, i32)>, t: (i32, i32)) -> int {
    spec_nearest_pair(rats, seq![t]) * 20_000 + clearance(g, t, 50_000, 500) + east_blocker_cost(g, t)
}

/// A plan for the lower trap: the cheapest target (1 000 000 with none), 1 500 per step to
/// the nearest reachable escape cell (1 000 steps when none is), and `extra_penalty`.
pub open spec fn spec_rectangle_lower_plan_score(g: Grid, rats: Seq<(i32, i32)>, rat_targets: Seq<(i32, i32)>,
    safe_targets: Seq<(i32, i32)>, extra_penalty: i64) -> int {
    min_or(rat_targets.map_values(|t: (i32, i32)| lower_target_cost(g, rats, t)), 1_000_000)
        + nearest_listed(g, safe_targets) * 1_500 + extra_penalty
}

/// Score of a plan for the lower trap; see `spec_rectangle_lower_plan_score`.
pub fn rectangle_lower_plan_score(grid: &Grid, rats: &[(i32, i32)], rat_targets: &[(i32, i32)], safe_targets: &[(i32, i32)],
    player_dist: &Vec<Vec<i32>>, extra_penalty: i64) -> (s: i64)
    requires
        is_player_dist_map(*grid, player_dist@),
        forall|k: int| 0 <= k < rat_targets@.len() ==> (#[trigger] rat_targets@[k]).0 < i32::MAX,
        spec_rectangle_lower_plan_score(*grid, rats@, rat_targets@, safe_targets@, extra_penalty) <= i64::MAX,
    ensures
        s == spec_rectangle_lower_plan_score(*grid, rats@, rat_targets@, safe_targets@, extra_penalty),
{
    let w = grid.width();
    let mut values: Vec<i64> = Vec::new();
    let mut i: usize = 0;
    while i < rat_targets.len()
        invariant
            is_player_dist_map(*grid, player_dist@),
            w == grid.w(),
            forall|k: int| 0 <= k < rat_targets@.len() ==> (#[trigger] rat_targets@[k]).0 < i32::MAX,
            i <= rat_targets@.len(),
            values@.len() == i,
            forall|k: int| 0 <= k < i ==> #[trigger] values@[k] == lower_target_cost(*grid, rats@, rat_targets@[k]),
            forall|k: int| 0 <= k < i ==> 0 <= #[trigger] values@[k] <= 200_000_000_000_000,
        decreases rat_targets@.len() - i,
    {
        let t = rat_targets[i];
        let one = [t];
        proof {
            assert(one@ =~= seq![t]);
            assert(t.0 < i32::MAX);
        }
        let rat_distance = nearest_target_distance(rats, &one);
        let clear = clearance_exec(grid, player_dist, t, 50_000, 500);
        let bx = t.0 + 1;
        let blocker: i64 = if bx as usize >= w {
            1_000_000
        } else {
            let k = grid.cell_kind_at(bx as usize, t.1 as usize);
            if k == CellKind::Spiderweb { 0 } else if k == CellKind::Wall { 10_000 } else { 200_000 }
        };
        values.push(rat_distance * 20_000 + clear + blocker);
        i = i + 1;
    }
    let best = min_of(&values, 1_000_000);
    proof {
        let s = ints(values@);
        assert(s =~= rat_targets@.map_values(|t: (i32, i32)| lower_target_cost(*grid, rats@, t)));
        if s.len() > 0 {
            lemma_seq_min(s);
            let j = choose|j: int| 0 <= j < s.len() && s[j] == crate::minimum::seq_min(s);
            assert(s[j] == values@[j] as int);
        }
    }
    let safe = nearest_listed_exec(grid, player_dist, safe_targets);
    best + safe * 1_500 + extra_penalty
}

/// The lower trap's rat targets as the wide plan lists them.
pub open spec fn lower_targets() -> Seq<(i32, i32)> {
    seq![(2i32, 6i32), (3, 6), (4, 6), (5, 6), (6, 6)]
}

/// The corners a wide plan drives rats to.
pub open spec fn corner_targets() -> Seq<(i32, i32)> {
    seq![(0i32, 0i32), (16, 0), (13, 8)]
}

/// The cells of row three from column one to fifteen.
pub open spec fn row_three_safe() -> Seq<(i32, i32)> {
    Seq::new(15, |i: int| ((i + 1) as i32, 3i32))
}

/// Score for the rectangle level being ready to win: 0 when one turn wins; 1 000 000 000
/// plus 1 000 000 per rat once an explosive has gone off; otherwise 250 000 per lost rat,
/// contact (100 000 within one step, 10 000 at two), and the better of the lower plan (with
/// 80 000 per unit of overrun) and the corner plan.
pub open spec fn spec_rectangle_winready_heuristic(g: Grid, initial_rats: usize, initial_explosives: usize, win_ready: bool) -> int {
    if win_ready {
        0
    } else if count_of(g, CellClass::Exactly(CellKind::Explosive)) < initial_explosives {
        1_000_000_000 + count_of(g, CellClass::RatOrCyborg) as int * 1_000_000
    } else {
        let lower = spec_rectangle_lower_plan_score(g, lure_rats(g), lower_targets(), spec_rectangle_lower_safe_targets(),
            (80_000 * min_or(overruns(lure_rats(g)), 0)) as i64);
        let corner = spec_rectangle_plan_score(g, all_rats(g), corner_targets(), row_three_safe(), 0);
        lost_rats(g, initial_rats) * 250_000 + contact_penalty(g, 100_000, 10_000) + min_int(lower, corner)
    }
}

/// Score for the rectangle level being ready to win; see
/// `spec_rectangle_winready_heuristic`.
pub fn rectangle_winready_heuristic(grid: &Grid, initial_rats: usize, initial_explosives: usize, win_ready: bool) -> (h: i64)
    requires
        initial_rats <= MAX_SIDE * MAX_SIDE,
    ensures
        h == spec_rectangle_winready_heuristic(*grid, initial_rats, initial_explosives, win_ready),
{
    if win_ready {
        return 0;
    }
    let rats_now = count_matching(grid, CellClass::RatOrCyborg);
    if count_matching(grid, CellClass::Exactly(CellKind::Explosive)) < initial_explosives {
        return 1_000_000_000 + rats_now as i64 * 1_000_000;
    }
    let all = rat_points(grid);
    let lure = lure_rat_points(grid);
    let dist = player_dist_map(grid);
    let lost: i64 = if initial_rats >= rats_now { (initial_rats - rats_now) as i64 } else { 0 };
    let contact = contact_penalty_exec(grid, 100_000, 10_000);
    let mut row_three: Vec<(i32, i32)> = Vec::new();
    let mut x: i32 = 1;
    while x <= 15
        invariant
            1 <= x <= 16,
            row_three@ == Seq::new((x - 1) as nat, |i: int| ((i + 1) as i32, 3i32)),
        decreases 16 - x,
    {
        row_three.push((x, 3));
        x = x + 1;
        proof {
            assert(row_three@ =~= Seq::new((x - 1) as nat, |i: int| ((i + 1) as i32, 3i32)));
        }
    }
    let lower_safe = rectangle_lower_safe_targets();
    let lower_t = [(2i32, 6i32), (3, 6), (4, 6), (5, 6), (6, 6)];
    let corners = [(0i32, 0i32), (16, 0), (13, 8)];
    proof {
        assert(lower_t@ =~= lower_targets());
        assert(corners@ =~= corner_targets());
    }
    grid.note_size_limit();
    proof {
        lemma_lure_on_board(*grid);
    }
    let overrun = lower_overrun(&lure);
    proof {
        crate::nearest::lemma_dist_bounded(*grid, dist@);
        lemma_plan_parts(*grid, lure@, lower_targets(), spec_rectangle_lower_safe_targets());
        lemma_plan_parts(*grid, all@, corner_targets(), row_three@);
    }
    let lower = rectangle_lower_plan_score(grid, &lure, &lower_t, &lower_safe, &dist, 80_000 * overrun);
    let corner = rectangle_plan_score(grid, &all, &corners, &row_three, &dist, 0);
    lost * 250_000 + contact + if lower < corner { lower } else { corner }
}

/// Bounds of the parts of a plan score, given that the players' distances are bounded.
proof fn lemma_plan_parts(g: Grid, rats: Seq<(i32, i32)>, rat_targets: Seq<(i32, i32)>, safe_targets: Seq<(i32, i32)>)
    requires
        forall|x: int, y: int| g.in_bounds(x, y) && walkable_from_player(g, x, y) ==>
            0 <= #[trigger] dist_of(g, x, y) < i32::MAX,
    ensures
        0 <= spec_nearest_pair(rats, rat_targets) <= 2 * (u32::MAX as int),
        0 <= nearest_listed(g, safe_targets) <= i32::MAX,
        0 <= best_clearance(g, rat_targets, 50_000, 500) <= 3_000_000_000_000,
        0 <= min_or(rat_targets.map_values(|t: (i32, i32)| lower_target_cost(g, rats, t)), 1_000_000) <= 200_000_000_000_000,
{
    crate::geometry::lemma_nearest_pair_bound(rats, rat_targets);
    lemma_reach_dists_bounds(g, safe_targets);
    crate::minimum::lemma_min_or_bounds(reach_dists(g, safe_targets), 1000, 0, i32::MAX as int);
    let cs = rat_targets.map_values(|t: (i32, i32)| clearance(g, t, 50_000, 500));
    assert forall|i: int| 0 <= i < cs.len() implies 0 <= #[trigger] cs[i] <= 3_000_000_000_000 by {
        lemma_clearance_bound(g, rat_targets[i], 50_000, 500);
    }
    crate::minimum::lemma_min_or_bounds(cs, 1_000_000, 0, 3_000_000_000_000);
    let ls = rat_targets.map_values(|t: (i32, i32)| lower_target_cost(g, rats, t));
    assert forall|i: int| 0 <= i < ls.len() implies 0 <= #[trigger] ls[i] <= 200_000_000_000_000 by {
        lemma_clearance_bound(g, rat_targets[i], 50_000, 500);
        crate::geometry::lemma_nearest_pair_bound(rats, seq![rat_targets[i]]);
    }
    crate::minimum::lemma_min_or_bounds(ls, 1_000_000, 0, 200_000_000_000_000);
}

/// A target's clearance is at most its web cost plus `per_step` times the longest walk.
proof fn lemma_clearance_bound(g: Grid, t: (i32, i32), web: int, per_step: int)
    requires
        0 <= web <= 1_000_000,
        0 <= per_step <= 1_000,
        forall|x: int, y: int| g.in_bounds(x, y) && walkable_from_player(g, x, y) ==>
            0 <= #[trigger] dist_of(g, x, y) < i32::MAX,
    ensures
        0 <= clearance(g, t, web, per_step) <= 3_000_000_000_000,
{
    broadcast use Grid::lemma_outside_is_wall;
    let (x, y) = ((t.0 as usize) as int, (t.1 as usize) as int);
    if kind_at_i32(g, t.0, t.1) == CellKind::Spiderweb && walkable_from_player(g, x, y) {
        assert(g.in_bounds(x, y));
        let d = dist_of(g, x, y);
        assert(0 <= d * per_step <= 2_147_483_647 * 1_000) by (nonlinear_arith)
            requires 0 <= d < 2_147_483_647, 0 <= per_step <= 1_000;
    }
}

/// The listed walking distances are bounded as the distances are.
proof fn lemma_reach_dists_bounds(g: Grid, ts: Seq<(i32, i32)>)
    requires
        forall|x: int, y: int| g.in_bounds(x, y) && walkable_from_player(g, x, y) ==>
            0 <= #[trigger] dist_of(g, x, y) < i32::MAX,
    ensures
        forall|i: int| 0 <= i < reach_dists(g, ts).len() ==> 0 <= #[trigger] reach_dists(g, ts)[i] < i32::MAX,
    decreases ts.len(),
{
    if ts.len() > 0 {
        lemma_reach_dists_bounds(g, ts.drop_last());
        let prev = reach_dists(g, ts.drop_last());
        let cur = reach_dists(g, ts);
        assert forall|i: int| 0 <= i < cur.len() implies 0 <= #[trigger] cur[i] < i32::MAX by {
            if i < prev.len() {
                assert(cur[i] == prev[i]);
            }
        }
    }
}

} // verus!
