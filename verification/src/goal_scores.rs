//! How far a board is from a lookup goal: the score that orders the lookup search.

use vstd::prelude::*;
use crate::model::{CellKind, Dir4, Grid, PlayState, MAX_SIDE};
use crate::cells::CellClass;
use crate::scan::{count_of, count_matching};
use crate::features::spec_rat_at;
use crate::reachability::{reachable_count_of, spec_distance_from_player, distance_from_player, reachable_rat_count,
    player_reachable_cell_count};
use crate::queries::{kind_at_i32, cell_at, class_in_rect, class_in_rect_exec, spec_player_facing, player_facing,
    spec_rat_component_size_at, rat_component_size_at, spec_max_component_in_rect, max_rat_component_size_in_rect,
    spec_nearest_player_distance, nearest_player_distance_from, spec_only_trigger_changed, only_trigger_changed,
    spec_rectangle_lower_ready, is_nearest_player_distance};
use crate::geometry::{spec_nearest_pair, nearest_target_distance};
use crate::goals::{LookupGoal, TurnFacts, spec_goal_reached, lookup_goal_reached};
use crate::heuristics::{Tuning, sat_sub, spec_heuristic, heuristic, spec_sword_ready_heuristic, sword_ready_heuristic,
    spec_cyborg_kill_ready_heuristic, cyborg_kill_ready_heuristic, spec_rat_step_ready_heuristic, rat_step_ready_heuristic};
use crate::rectangle::{spec_rectangle_winready_heuristic, rectangle_winready_heuristic, spec_rectangle_lower_ready_heuristic,
    rectangle_lower_ready_heuristic, spec_rectangle_lower_separated_heuristic, rectangle_lower_separated_heuristic,
    spec_rectangle_lower_ignition_heuristic, rectangle_lower_ignition_heuristic, lower_board};
use crate::lure::{spec_rectangle_trap_heuristic, rectangle_trap_heuristic, class_points, class_points_exec};
use crate::goal_terms::{class_to, class_to_exec, class_to_rect, class_to_rect_exec, h1k, h1k_exec, trigger_walk,
    trigger_walk_exec, class_count_in_rect, class_count_in_rect_exec, lemma_count_bound};

verus! {

/// `a - b`, or 0 when `b` is larger.
pub(crate) fn sat_usize(a: usize, b: usize) -> (r: usize)
    ensures
        r == sat_sub(a as int, b as int),
{
    if a >= b { a - b } else { 0 }
}

/// An optional size, 0 when absent.
pub open spec fn or_zero(o: Option<usize>) -> int {
    match o {
        Some(v) => v as int,
        None => 0,
    }
}

/// An optional size, 0 when absent.
pub(crate) fn unwrap_zero(o: Option<usize>) -> (r: usize)
    ensures
        r == or_zero(o),
{
    match o {
        Some(v) => v,
        None => 0,
    }
}

/// An optional distance, 0 when absent.
pub open spec fn or_zero_int(o: Option<int>) -> int {
    match o {
        Some(v) => v,
        None => 0,
    }
}

/// The distance from the nearest player, 0 without players.
pub(crate) fn unwrap_zero_i64(o: Option<i64>) -> (r: i64)
    requires
        o matches Some(v) ==> 0 <= v <= 2 * (u32::MAX as int),
    ensures
        r == or_zero_int(match o { Some(v) => Some(v as int), None => None }),
        0 <= r <= 2 * (u32::MAX as int),
{
    match o {
        Some(v) => v,
        None => 0,
    }
}

/// Cyborg rats over the limit, 1 000 000 each, and while there are such, 500 000 per rat
/// lost since the start.
pub open spec fn cyborg_score(i: Grid, c: Grid, count: usize) -> int {
    let over = sat_sub(count_of(c, CellClass::Exactly(CellKind::CyborgRat)) as int, count as int) * 1_000_000;
    over + if over > 0 { sat_sub(count_of(i, CellClass::RatOrCyborg) as int, count_of(c, CellClass::RatOrCyborg) as int) * 500_000 } else { 0 }
}

/// The cyborg score; see `cyborg_score`.
fn cyborg_score_exec(initial: &Grid, current: &Grid, count: usize) -> (s: i64)
    ensures
        s == cyborg_score(*initial, *current, count),
        0 <= s <= 2_000_000_000_000,
{
    let over = sat_usize(count_matching(current, CellClass::Exactly(CellKind::CyborgRat)), count) as i64 * 1_000_000;
    if over > 0 {
        over + sat_usize(count_matching(initial, CellClass::RatOrCyborg), count_matching(current, CellClass::RatOrCyborg)) as i64 * 500_000
    } else {
        over
    }
}

/// The score for two points to be free of rats: 500 000 per point a rat still stands on,
/// plus the distance from the players to the nearer point.
fn two_rats_left(current: &Grid, x1: i32, y1: i32, x2: i32, y2: i32) -> (s: i64)
    ensures
        s == ((if spec_rat_at(*current, (x1, y1)) { 1int } else { 0int }) + (if spec_rat_at(*current, (x2, y2)) { 1int } else { 0int })) * 500000
            + spec_nearest_pair(class_points(*current, CellClass::Exactly(CellKind::Player)), seq![(x1, y1), (x2, y2)]),
{
    let players = class_points_exec(current, CellClass::Exactly(CellKind::Player));
    let targets = [(x1, y1), (x2, y2)];
    proof {
        assert(targets@ =~= seq![(x1, y1), (x2, y2)]);
    }
    let left: i64 = (if crate::features::rat_at(current, (x1, y1)) { 1 } else { 0 }) + (if crate::features::rat_at(current, (x2, y2)) { 1 } else { 0 });
    left * 500000 + nearest_target_distance(&players, &targets)
}

/// The score of the goal `TriggerNumberOpen`, computed where it fits.
fn trigger_open_score(current: &Grid, a0: u8, a1: usize, tuning: Tuning) -> (r: i64)
    requires
        ({ let c = *current; let t = tuning; trigger_walk(c, a0) + sat_sub(a1 as int, reachable_count_of(c, CellClass::AnyCell) as int) * 1000 + h1k(c, t) <= i64::MAX }),
    ensures
        ({ let c = *current; let t = tuning; r == trigger_walk(c, a0) + sat_sub(a1 as int, reachable_count_of(c, CellClass::AnyCell) as int) * 1000 + h1k(c, t) }),
{
    let tw = trigger_walk_exec(current, a0);
    let d = sat_usize(a1, player_reachable_cell_count(current));
    let h = h1k_exec(current, tuning);
    tw + (d as i64) * 1000 + h
}

/// The score of the goal `RatComponentAtLeast`, computed where it fits.
fn component_score(current: &Grid, a0: i32, a1: i32, a2: usize, tuning: Tuning) -> (r: i64)
    requires
        ({ let c = *current; let t = tuning; sat_sub(a2 as int, or_zero(spec_rat_component_size_at(c, (a0, a1)))) * 100000 + class_to(c, CellClass::RatOrCyborg, a0, a1) * 1000 + h1k(c, t) <= i64::MAX }),
    ensures
        ({ let c = *current; let t = tuning; r == sat_sub(a2 as int, or_zero(spec_rat_component_size_at(c, (a0, a1)))) * 100000 + class_to(c, CellClass::RatOrCyborg, a0, a1) * 1000 + h1k(c, t) }),
{
    let d = sat_usize(a2, unwrap_zero(rat_component_size_at(current, (a0, a1))));
    let r = class_to_exec(current, CellClass::RatOrCyborg, a0, a1);
    let h = h1k_exec(current, tuning);
    (d as i64) * 100000 + r * 1000 + h
}

/// The score of the goal `RatRectComponentAtLeast`, computed where it fits.
fn rect_component_score(current: &Grid, a0: i32, a1: i32, a2: i32, a3: i32, a4: usize, tuning: Tuning) -> (r: i64)
    requires
        ({ let c = *current; let t = tuning; sat_sub(a4 as int, or_zero(spec_max_component_in_rect(c, a0, a1, a2, a3))) * 100000 + class_to_rect(c, CellClass::RatOrCyborg, a0, a1, a2, a3) * 1000 + h1k(c, t) <= i64::MAX }),
    ensures
        ({ let c = *current; let t = tuning; r == sat_sub(a4 as int, or_zero(spec_max_component_in_rect(c, a0, a1, a2, a3))) * 100000 + class_to_rect(c, CellClass::RatOrCyborg, a0, a1, a2, a3) * 1000 + h1k(c, t) }),
{
    let d = sat_usize(a4, unwrap_zero(max_rat_component_size_in_rect(current, a0, a1, a2, a3)));
    let r = class_to_rect_exec(current, CellClass::RatOrCyborg, a0, a1, a2, a3);
    let h = h1k_exec(current, tuning);
    (d as i64) * 100000 + r * 1000 + h
}

/// The score of the goal `RatAtFarFromPlayer`, computed where it fits.
fn far_rat_score(current: &Grid, a0: i32, a1: i32, a2: i64, tuning: Tuning) -> (r: i64)
    requires
        ({ let c = *current; i64::MIN <= (a2 - or_zero_int(spec_nearest_player_distance(c, (a0, a1)))) * 100000 }),
        ({ let c = *current; let t = tuning; class_to(c, CellClass::RatOrCyborg, a0, a1) + (a2 - or_zero_int(spec_nearest_player_distance(c, (a0, a1)))) * 100000 + h1k(c, t) <= i64::MAX }),
    ensures
        ({ let c = *current; let t = tuning; r == class_to(c, CellClass::RatOrCyborg, a0, a1) + (a2 - or_zero_int(spec_nearest_player_distance(c, (a0, a1)))) * 100000 + h1k(c, t) }),
{
    let near = nearest_player_distance_from(current, (a0, a1));
    proof {
        if let Some(v) = near {
            let (x, y) = choose|x: int, y: int| #![trigger current.kind_at(x, y)]
                crate::features::player_at(*current, (x as i32, y as i32)) && current.in_bounds(x, y)
                && v == crate::geometry::spec_manhattan((x as i32, y as i32), (a0, a1));
        }
    }
    let npd = unwrap_zero_i64(near);
    let r = class_to_exec(current, CellClass::RatOrCyborg, a0, a1);
    let h = h1k_exec(current, tuning);
    r + (a2 - npd) * 100000 + h
}

/// The score of the goal `ReachableRatsAtLeast`, computed where it fits.
fn reachable_rats_score(current: &Grid, a0: usize) -> (r: i64)
    requires
        ({ let c = *current; sat_sub(a0 as int, reachable_count_of(c, CellClass::RatOrCyborg) as int) * 1000000 + (count_of(c, CellClass::RatOrCyborg) as int) * 1000 <= i64::MAX }),
    ensures
        ({ let c = *current; r == sat_sub(a0 as int, reachable_count_of(c, CellClass::RatOrCyborg) as int) * 1000000 + (count_of(c, CellClass::RatOrCyborg) as int) * 1000 }),
{
    let d = sat_usize(a0, reachable_rat_count(current));
    let n = count_matching(current, CellClass::RatOrCyborg);
    (d as i64) * 1000000 + (n as i64) * 1000
}

/// How far `c` (reached from `i`) is from the goal: 0 once reached; otherwise a score per kind of goal.
pub open spec fn spec_lookup_goal_heuristic(goal: LookupGoal, i: Grid, c: Grid, facts: TurnFacts, t: Tuning) -> int {
    if spec_goal_reached(goal, i, c, PlayState::Playing, facts) {
        0
    } else {
        match goal {
            LookupGoal::Win => spec_heuristic(c, t),
            LookupGoal::WinReady => (if t.trap && c.w() >= 16 { spec_rectangle_trap_heuristic(c, (count_of(i, CellClass::RatOrCyborg) as usize), (count_of(i, CellClass::Exactly(CellKind::Explosive)) as usize), t.strict) } else { spec_heuristic(c, t) }),
            LookupGoal::SwordReady => spec_sword_ready_heuristic(c, facts.win_ready),
            LookupGoal::CyborgKillReady(a0, a1) => spec_cyborg_kill_ready_heuristic(c, a0, a1, facts.cyborg_kill_ready),
            LookupGoal::RectangleReady => spec_rectangle_winready_heuristic(c, (count_of(i, CellClass::RatOrCyborg) as usize), (count_of(i, CellClass::Exactly(CellKind::Explosive)) as usize), facts.win_ready),
            LookupGoal::RectangleLowerReady => spec_rectangle_lower_ready_heuristic(c, (count_of(i, CellClass::RatOrCyborg) as usize), (count_of(i, CellClass::Exactly(CellKind::Explosive)) as usize), facts.win_ready),
            LookupGoal::RectangleLowerSeparated => spec_rectangle_lower_separated_heuristic(c, (count_of(i, CellClass::RatOrCyborg) as usize), (count_of(i, CellClass::Exactly(CellKind::Explosive)) as usize), facts.win_ready),
            LookupGoal::RectangleLowerIgnition => spec_rectangle_lower_ignition_heuristic(c, (count_of(i, CellClass::RatOrCyborg) as usize), (count_of(i, CellClass::Exactly(CellKind::Explosive)) as usize), facts.win_ready),
            LookupGoal::TriggerNumber(a0) => trigger_walk(c, a0) + h1k(c, t),
            LookupGoal::TriggerNumberOnly(a0) => trigger_walk(c, a0) + h1k(c, t),
            LookupGoal::TriggerNumberOpen(a0, a1) => trigger_walk(c, a0) + sat_sub(a1 as int, reachable_count_of(c, CellClass::AnyCell) as int) * 1000 + h1k(c, t),
            LookupGoal::CellChanged(a0, a1) => class_to(c, CellClass::Exactly(CellKind::Player), a0, a1) + h1k(c, t),
            LookupGoal::CellIs(a0, a1, a2) => class_to(c, CellClass::Exactly(CellKind::Player), a0, a1) + h1k(c, t),
            LookupGoal::CellIsWithPlayerAt(a0, a1, a2, a3, a4) => (if kind_at_i32(c, a0, a1) == a2 { 0int } else { class_to(c, CellClass::Exactly(CellKind::Player), a0, a1) * 50 + 100000int }) + class_to(c, CellClass::Exactly(CellKind::Player), a3, a4) * 1000 + h1k(c, t),
            LookupGoal::CellNot(a0, a1, a2) => class_to(c, CellClass::Exactly(CellKind::Player), a0, a1) + h1k(c, t),
            LookupGoal::CellNotWithCellIs(a0, a1, a2, a3, a4, a5) => (if kind_at_i32(c, a0, a1) != a2 { 0int } else { class_to(c, CellClass::Exactly(CellKind::Player), a0, a1) * 50 + 100000int }) + (if kind_at_i32(c, a3, a4) == a5 { 0int } else { 500000int }) + h1k(c, t),
            LookupGoal::CellNotAndRatAt(a0, a1, a2, a3, a4) => (if kind_at_i32(c, a0, a1) != a2 { 0int } else { class_to(c, CellClass::Exactly(CellKind::Player), a0, a1) * 50 + 100000int }) + class_to(c, CellClass::RatOrCyborg, a3, a4) * 1000 + h1k(c, t),
            LookupGoal::CellNotWithPlayerAt(a0, a1, a2, a3, a4) => (if kind_at_i32(c, a0, a1) != a2 { 0int } else { class_to(c, CellClass::Exactly(CellKind::Player), a0, a1) * 50 + 100000int }) + class_to(c, CellClass::Exactly(CellKind::Player), a3, a4) * 1000 + h1k(c, t),
            LookupGoal::CellNotWithPlayerInRect(a0, a1, a2, a3, a4, a5, a6) => (if kind_at_i32(c, a0, a1) != a2 { 0int } else { class_to(c, CellClass::Exactly(CellKind::Player), a0, a1) * 50 + 100000int }) + class_to_rect(c, CellClass::Exactly(CellKind::Player), a3, a4, a5, a6) * 1000 + h1k(c, t),
            LookupGoal::CellNotWithRatInRect(a0, a1, a2, a3, a4, a5, a6) => (if kind_at_i32(c, a0, a1) != a2 { 0int } else { class_to(c, CellClass::Exactly(CellKind::Player), a0, a1) * 50 + 100000int }) + class_to_rect(c, CellClass::RatOrCyborg, a3, a4, a5, a6) * 1000 + h1k(c, t),
            LookupGoal::CellNotWithRatInRectAndPlayerInRect(a0, a1, a2, a3, a4, a5, a6, a7, a8, a9, a10) => (if kind_at_i32(c, a0, a1) != a2 { 0int } else { class_to(c, CellClass::Exactly(CellKind::Player), a0, a1) * 50 + 100000int }) + class_to_rect(c, CellClass::RatOrCyborg, a3, a4, a5, a6) * 1000 + class_to_rect(c, CellClass::Exactly(CellKind::Player), a7, a8, a9, a10) + h1k(c, t),
            LookupGoal::CellNotWithNoRatsInRect(a0, a1, a2, a3, a4, a5, a6) => (if kind_at_i32(c, a0, a1) != a2 { 0int } else { class_to(c, CellClass::Exactly(CellKind::Player), a0, a1) * 50 + 100000int }) + class_count_in_rect(c, CellClass::RatOrCyborg, a3, a4, a5, a6) * 250000 + h1k(c, t),
            LookupGoal::CellReachable(a0, a1) => spec_distance_from_player(c, (a0, a1)) * 10000 + h1k(c, t),
            LookupGoal::PlayerAt(a0, a1) => class_to(c, CellClass::Exactly(CellKind::Player), a0, a1) + h1k(c, t),
            LookupGoal::PlayerFacing(a0, a1, a2) => class_to(c, CellClass::Exactly(CellKind::Player), a0, a1) + h1k(c, t),
            LookupGoal::RatStepReady(a0, a1) => spec_rat_step_ready_heuristic(c, (a0, a1), facts.rat_step_ready, t) + h1k(c, t),
            LookupGoal::RatAt(a0, a1) => class_to(c, CellClass::RatOrCyborg, a0, a1) + h1k(c, t),
            LookupGoal::RatComponentAtLeast(a0, a1, a2) => sat_sub(a2 as int, or_zero(spec_rat_component_size_at(c, (a0, a1)))) * 100000 + class_to(c, CellClass::RatOrCyborg, a0, a1) * 1000 + h1k(c, t),
            LookupGoal::RatRectComponentAtLeast(a0, a1, a2, a3, a4) => sat_sub(a4 as int, or_zero(spec_max_component_in_rect(c, a0, a1, a2, a3))) * 100000 + class_to_rect(c, CellClass::RatOrCyborg, a0, a1, a2, a3) * 1000 + h1k(c, t),
            LookupGoal::RatAtFarFromPlayer(a0, a1, a2) => class_to(c, CellClass::RatOrCyborg, a0, a1) + (a2 - or_zero_int(spec_nearest_player_distance(c, (a0, a1)))) * 100000 + h1k(c, t),
            LookupGoal::RatAtWithPlayer(a0, a1, a2, a3) => class_to(c, CellClass::RatOrCyborg, a0, a1) + class_to(c, CellClass::Exactly(CellKind::Player), a2, a3) + h1k(c, t),
            LookupGoal::RatInRectWithPlayerInRect(a0, a1, a2, a3, a4, a5, a6, a7) => class_to_rect(c, CellClass::RatOrCyborg, a0, a1, a2, a3) * 1000 + class_to_rect(c, CellClass::Exactly(CellKind::Player), a4, a5, a6, a7) + h1k(c, t),
            LookupGoal::RatInRectWithPlayerInRectAndCellIs(a0, a1, a2, a3, a4, a5, a6, a7, a8, a9, a10) => class_to_rect(c, CellClass::RatOrCyborg, a0, a1, a2, a3) * 1000 + class_to_rect(c, CellClass::Exactly(CellKind::Player), a4, a5, a6, a7) + (if kind_at_i32(c, a8, a9) == a10 { 0int } else { 500000int }) + h1k(c, t),
            LookupGoal::RatInRectWithPlayerInRectAndCellNot(a0, a1, a2, a3, a4, a5, a6, a7, a8, a9, a10) => class_to_rect(c, CellClass::RatOrCyborg, a0, a1, a2, a3) * 1000 + class_to_rect(c, CellClass::Exactly(CellKind::Player), a4, a5, a6, a7) + (if kind_at_i32(c, a8, a9) != a10 { 0int } else { 500000int }) + h1k(c, t),
            LookupGoal::RatInRectWithCellIs(a0, a1, a2, a3, a4, a5, a6) => class_to_rect(c, CellClass::RatOrCyborg, a0, a1, a2, a3) * 1000 + (if kind_at_i32(c, a4, a5) == a6 { 0int } else { 500000int }) + h1k(c, t),
            LookupGoal::NormalRatInRectWithCyborgInRect(a0, a1, a2, a3, a4, a5, a6, a7) => class_to_rect(c, CellClass::Exactly(CellKind::Rat), a0, a1, a2, a3) * 1000 + class_to_rect(c, CellClass::Exactly(CellKind::CyborgRat), a4, a5, a6, a7) * 1000 + h1k(c, t),
            LookupGoal::NormalRatInRectWithCyborgInRectAndPlayerInRect(a0, a1, a2, a3, a4, a5, a6, a7, a8, a9, a10, a11) => class_to_rect(c, CellClass::Exactly(CellKind::Rat), a0, a1, a2, a3) * 1000 + class_to_rect(c, CellClass::Exactly(CellKind::CyborgRat), a4, a5, a6, a7) * 1000 + class_to_rect(c, CellClass::Exactly(CellKind::Player), a8, a9, a10, a11) + h1k(c, t),
            LookupGoal::RatAtWithPlayerFacing(a0, a1, a2, a3, a4) => class_to(c, CellClass::RatOrCyborg, a0, a1) + class_to(c, CellClass::Exactly(CellKind::Player), a2, a3) + h1k(c, t),
            LookupGoal::RatAtWithCell(a0, a1, a2, a3, a4) => class_to(c, CellClass::RatOrCyborg, a0, a1) + (if kind_at_i32(c, a2, a3) == a4 { 0int } else { 200000int }) + h1k(c, t),
            LookupGoal::RatGone(a0, a1) => class_to(c, CellClass::Exactly(CellKind::Player), a0, a1) + h1k(c, t),
            LookupGoal::NoRatsAt2(a0, a1, a2, a3) => ((if spec_rat_at(c, (a0, a1)) { 1int } else { 0int }) + (if spec_rat_at(c, (a2, a3)) { 1int } else { 0int })) * 500000 + spec_nearest_pair(class_points(c, CellClass::Exactly(CellKind::Player)), seq![(a0, a1), (a2, a3)]),
            LookupGoal::NoRatsInRect(a0, a1, a2, a3) => class_count_in_rect(c, CellClass::RatOrCyborg, a0, a1, a2, a3) * 500000 + class_to_rect(c, CellClass::Exactly(CellKind::Player), a0, a1, a2, a3),
            LookupGoal::RatsAtMost(a0) => sat_sub(count_of(c, CellClass::RatOrCyborg) as int, a0 as int) * 1000000 + h1k(c, t),
            LookupGoal::ReachableRatsAtLeast(a0) => sat_sub(a0 as int, reachable_count_of(c, CellClass::RatOrCyborg) as int) * 1000000 + (count_of(c, CellClass::RatOrCyborg) as int) * 1000,
            LookupGoal::AllRatsReachable => sat_sub(count_of(c, CellClass::RatOrCyborg) as int, reachable_count_of(c, CellClass::RatOrCyborg) as int) * 1000000 + (count_of(c, CellClass::RatOrCyborg) as int) * 1000,
            LookupGoal::CyborgsAtMost(a0) => cyborg_score(i, c, a0) + h1k(c, t),
            LookupGoal::TriggersAtMost(a0) => sat_sub(count_of(c, CellClass::AnyTrigger) as int, a0 as int) * 1000000 + h1k(c, t),
            LookupGoal::ExplosivesAtMost(a0) => sat_sub(count_of(c, CellClass::Exactly(CellKind::Explosive)) as int, a0 as int) * 1000000 + h1k(c, t),
            LookupGoal::WebsAtMost(a0) => sat_sub(count_of(c, CellClass::Exactly(CellKind::Spiderweb)) as int, a0 as int) * 100000 + h1k(c, t),
            LookupGoal::RatDrop => spec_heuristic(c, t),
            LookupGoal::RatsAtMostWithCellIs(a0, a1, a2, a3) => sat_sub(count_of(c, CellClass::RatOrCyborg) as int, a0 as int) * 1000000 + (if kind_at_i32(c, a1, a2) == a3 { 0int } else { 500000int }) + h1k(c, t),
            LookupGoal::RatsAtMostWithCellNot(a0, a1, a2, a3) => sat_sub(count_of(c, CellClass::RatOrCyborg) as int, a0 as int) * 1000000 + (if kind_at_i32(c, a1, a2) != a3 { 0int } else { 500000int }) + h1k(c, t),
            LookupGoal::RatsAtMostWithRatInRect(a0, a1, a2, a3, a4) => sat_sub(count_of(c, CellClass::RatOrCyborg) as int, a0 as int) * 1000000 + (if class_in_rect(c, CellClass::RatOrCyborg, a1, a2, a3, a4) { 0int } else { class_to_rect(c, CellClass::RatOrCyborg, a1, a2, a3, a4) }) + h1k(c, t),
            LookupGoal::RatsAtMostWithRatInRectAndPlayerInRect(a0, a1, a2, a3, a4, a5, a6, a7, a8) => sat_sub(count_of(c, CellClass::RatOrCyborg) as int, a0 as int) * 1000000 + (if class_in_rect(c, CellClass::RatOrCyborg, a1, a2, a3, a4) { 0int } else { class_to_rect(c, CellClass::RatOrCyborg, a1, a2, a3, a4) }) + (if class_in_rect(c, CellClass::Exactly(CellKind::Player), a5, a6, a7, a8) { 0int } else { class_to_rect(c, CellClass::Exactly(CellKind::Player), a5, a6, a7, a8) }) + h1k(c, t),
            LookupGoal::RatsAtMostWithPlayerAt(a0, a1, a2) => sat_sub(count_of(c, CellClass::RatOrCyborg) as int, a0 as int) * 1000000 + class_to(c, CellClass::Exactly(CellKind::Player), a1, a2) + h1k(c, t),
            LookupGoal::RatsAtMostWithPlayerFacing(a0, a1, a2, a3) => sat_sub(count_of(c, CellClass::RatOrCyborg) as int, a0 as int) * 1000000 + class_to(c, CellClass::Exactly(CellKind::Player), a1, a2) + (if spec_player_facing(c, (a1, a2), a3) { 0int } else { 1000int }) + h1k(c, t),
            LookupGoal::TriggerNumberOnlyWithCellIs(a0, a1, a2, a3) => (if spec_only_trigger_changed(i, c, a0) { 0int } else { trigger_walk(c, a0) + h1k(c, t) }) + (if kind_at_i32(c, a1, a2) == a3 { 0int } else { 500000int }),
            LookupGoal::TriggerNumberOnlyWithCellNot(a0, a1, a2, a3) => (if spec_only_trigger_changed(i, c, a0) { 0int } else { trigger_walk(c, a0) + h1k(c, t) }) + (if kind_at_i32(c, a1, a2) != a3 { 0int } else { 500000int }),
            LookupGoal::TriggerNumberOnlyWithCellNotAndCellIs(a0, a1, a2, a3, a4, a5, a6) => (if spec_only_trigger_changed(i, c, a0) { 0int } else { trigger_walk(c, a0) + h1k(c, t) }) + (if kind_at_i32(c, a1, a2) != a3 { 0int } else { 500000int }) + (if kind_at_i32(c, a4, a5) == a6 { 0int } else { 500000int }),
        }
    }
}

/// The score is defined: the goal is reached, or its score fits the machine's integers and,
/// for the lower trap, the board holds the escape cells unless the trap is ready or an
/// explosive has gone off.
pub open spec fn goal_score_defined(goal: LookupGoal, i: Grid, c: Grid, facts: TurnFacts, t: Tuning) -> bool {
    spec_goal_reached(goal, i, c, PlayState::Playing, facts) || match goal {
        LookupGoal::RectangleLowerReady => spec_rectangle_lower_ready(c, facts.win_ready)
            || count_of(c, CellClass::Exactly(CellKind::Explosive)) < count_of(i, CellClass::Exactly(CellKind::Explosive))
            || lower_board(c),
        LookupGoal::TriggerNumberOpen(a0, a1) => trigger_walk(c, a0) + sat_sub(a1 as int, reachable_count_of(c, CellClass::AnyCell) as int) * 1000 + h1k(c, t) <= i64::MAX,
        LookupGoal::RatComponentAtLeast(a0, a1, a2) => sat_sub(a2 as int, or_zero(spec_rat_component_size_at(c, (a0, a1)))) * 100000 + class_to(c, CellClass::RatOrCyborg, a0, a1) * 1000 + h1k(c, t) <= i64::MAX,
        LookupGoal::RatRectComponentAtLeast(a0, a1, a2, a3, a4) => sat_sub(a4 as int, or_zero(spec_max_component_in_rect(c, a0, a1, a2, a3))) * 100000 + class_to_rect(c, CellClass::RatOrCyborg, a0, a1, a2, a3) * 1000 + h1k(c, t) <= i64::MAX,
        LookupGoal::RatAtFarFromPlayer(a0, a1, a2) => i64::MIN <= (a2 - or_zero_int(spec_nearest_player_distance(c, (a0, a1)))) * 100000
            && class_to(c, CellClass::RatOrCyborg, a0, a1) + (a2 - or_zero_int(spec_nearest_player_distance(c, (a0, a1)))) * 100000 + h1k(c, t) <= i64::MAX,
        LookupGoal::ReachableRatsAtLeast(a0) => sat_sub(a0 as int, reachable_count_of(c, CellClass::RatOrCyborg) as int) * 1000000 + (count_of(c, CellClass::RatOrCyborg) as int) * 1000 <= i64::MAX,
        _ => true,
    }
}

/// How far `current` (reached from `initial`) is from the goal; see
/// `spec_lookup_goal_heuristic`. `facts` brings what only a simulation of the next turn can tell.
#[verifier::rlimit(100)]
pub fn lookup_goal_heuristic(goal: LookupGoal, initial: &Grid, current: &Grid, facts: &TurnFacts, tuning: Tuning) -> (h: i64)
    requires
        goal_score_defined(goal, *initial, *current, *facts, tuning),
    ensures
        h == spec_lookup_goal_heuristic(goal, *initial, *current, *facts, tuning),
{
    if lookup_goal_reached(goal, initial, current, PlayState::Playing, facts) {
        return 0;
    }
    initial.note_size_limit();
    proof {
        lemma_count_bound(*initial, CellClass::RatOrCyborg);
        lemma_count_bound(*initial, CellClass::Exactly(CellKind::Explosive));
    }
    let rats_i = count_matching(initial, CellClass::RatOrCyborg);
    let expl_i = count_matching(initial, CellClass::Exactly(CellKind::Explosive));
    match goal {
        LookupGoal::Win => heuristic(current, tuning),
        LookupGoal::WinReady => (if tuning.trap && current.width() >= 16 { rectangle_trap_heuristic(current, rats_i, expl_i, tuning.strict) } else { heuristic(current, tuning) }),
        LookupGoal::SwordReady => sword_ready_heuristic(current, facts.win_ready),
        LookupGoal::CyborgKillReady(a0, a1) => cyborg_kill_ready_heuristic(current, a0, a1, facts.cyborg_kill_ready),
        LookupGoal::RectangleReady => rectangle_winready_heuristic(current, rats_i, expl_i, facts.win_ready),
        LookupGoal::RectangleLowerReady => rectangle_lower_ready_heuristic(current, rats_i, expl_i, facts.win_ready),
        LookupGoal::RectangleLowerSeparated => rectangle_lower_separated_heuristic(current, rats_i, expl_i, facts.win_ready),
        LookupGoal::RectangleLowerIgnition => rectangle_lower_ignition_heuristic(current, rats_i, expl_i, facts.win_ready),
        LookupGoal::TriggerNumber(a0) => trigger_walk_exec(current, a0) + h1k_exec(current, tuning),
        LookupGoal::TriggerNumberOnly(a0) => trigger_walk_exec(current, a0) + h1k_exec(current, tuning),
        LookupGoal::TriggerNumberOpen(a0, a1) => trigger_open_score(current, a0, a1, tuning),
        LookupGoal::CellChanged(a0, a1) => class_to_exec(current, CellClass::Exactly(CellKind::Player), a0, a1) + h1k_exec(current, tuning),
        LookupGoal::CellIs(a0, a1, a2) => class_to_exec(current, CellClass::Exactly(CellKind::Player), a0, a1) + h1k_exec(current, tuning),
        LookupGoal::CellIsWithPlayerAt(a0, a1, a2, a3, a4) => (if cell_at(current, a0, a1) == a2 { 0i64 } else { class_to_exec(current, CellClass::Exactly(CellKind::Player), a0, a1) * 50 + 100000i64 }) + class_to_exec(current, CellClass::Exactly(CellKind::Player), a3, a4) * 1000 + h1k_exec(current, tuning),
        LookupGoal::CellNot(a0, a1, a2) => class_to_exec(current, CellClass::Exactly(CellKind::Player), a0, a1) + h1k_exec(current, tuning),
        LookupGoal::CellNotWithCellIs(a0, a1, a2, a3, a4, a5) => (if cell_at(current, a0, a1) != a2 { 0i64 } else { class_to_exec(current, CellClass::Exactly(CellKind::Player), a0, a1) * 50 + 100000i64 }) + (if cell_at(current, a3, a4) == a5 { 0i64 } else { 500000i64 }) + h1k_exec(current, tuning),
        LookupGoal::CellNotAndRatAt(a0, a1, a2, a3, a4) => (if cell_at(current, a0, a1) != a2 { 0i64 } else { class_to_exec(current, CellClass::Exactly(CellKind::Player), a0, a1) * 50 + 100000i64 }) + class_to_exec(current, CellClass::RatOrCyborg, a3, a4) * 1000 + h1k_exec(current, tuning),
        LookupGoal::CellNotWithPlayerAt(a0, a1, a2, a3, a4) => (if cell_at(current, a0, a1) != a2 { 0i64 } else { class_to_exec(current, CellClass::Exactly(CellKind::Player), a0, a1) * 50 + 100000i64 }) + class_to_exec(current, CellClass::Exactly(CellKind::Player), a3, a4) * 1000 + h1k_exec(current, tuning),
        LookupGoal::CellNotWithPlayerInRect(a0, a1, a2, a3, a4, a5, a6) => (if cell_at(current, a0, a1) != a2 { 0i64 } else { class_to_exec(current, CellClass::Exactly(CellKind::Player), a0, a1) * 50 + 100000i64 }) + class_to_rect_exec(current, CellClass::Exactly(CellKind::Player), a3, a4, a5, a6) * 1000 + h1k_exec(current, tuning),
        LookupGoal::CellNotWithRatInRect(a0, a1, a2, a3, a4, a5, a6) => (if cell_at(current, a0, a1) != a2 { 0i64 } else { class_to_exec(current, CellClass::Exactly(CellKind::Player), a0, a1) * 50 + 100000i64 }) + class_to_rect_exec(current, CellClass::RatOrCyborg, a3, a4, a5, a6) * 1000 + h1k_exec(current, tuning),
        LookupGoal::CellNotWithRatInRectAndPlayerInRect(a0, a1, a2, a3, a4, a5, a6, a7, a8, a9, a10) => (if cell_at(current, a0, a1) != a2 { 0i64 } else { class_to_exec(current, CellClass::Exactly(CellKind::Player), a0, a1) * 50 + 100000i64 }) + class_to_rect_exec(current, CellClass::RatOrCyborg, a3, a4, a5, a6) * 1000 + class_to_rect_exec(current, CellClass::Exactly(CellKind::Player), a7, a8, a9, a10) + h1k_exec(current, tuning),
        LookupGoal::CellNotWithNoRatsInRect(a0, a1, a2, a3, a4, a5, a6) => (if cell_at(current, a0, a1) != a2 { 0i64 } else { class_to_exec(current, CellClass::Exactly(CellKind::Player), a0, a1) * 50 + 100000i64 }) + class_count_in_rect_exec(current, CellClass::RatOrCyborg, a3, a4, a5, a6) * 250000 + h1k_exec(current, tuning),
        LookupGoal::CellReachable(a0, a1) => distance_from_player(current, (a0, a1)) * 10000 + h1k_exec(current, tuning),
        LookupGoal::PlayerAt(a0, a1) => class_to_exec(current, CellClass::Exactly(CellKind::Player), a0, a1) + h1k_exec(current, tuning),
        LookupGoal::PlayerFacing(a0, a1, a2) => class_to_exec(current, CellClass::Exactly(CellKind::Player), a0, a1) + h1k_exec(current, tuning),
        LookupGoal::RatStepReady(a0, a1) => rat_step_ready_heuristic(current, (a0, a1), facts.rat_step_ready, tuning) + h1k_exec(current, tuning),
        LookupGoal::RatAt(a0, a1) => class_to_exec(current, CellClass::RatOrCyborg, a0, a1) + h1k_exec(current, tuning),
        LookupGoal::RatComponentAtLeast(a0, a1, a2) => component_score(current, a0, a1, a2, tuning),
        LookupGoal::RatRectComponentAtLeast(a0, a1, a2, a3, a4) => rect_component_score(current, a0, a1, a2, a3, a4, tuning),
        LookupGoal::RatAtFarFromPlayer(a0, a1, a2) => far_rat_score(current, a0, a1, a2, tuning),
        LookupGoal::RatAtWithPlayer(a0, a1, a2, a3) => class_to_exec(current, CellClass::RatOrCyborg, a0, a1) + class_to_exec(current, CellClass::Exactly(CellKind::Player), a2, a3) + h1k_exec(current, tuning),
        LookupGoal::RatInRectWithPlayerInRect(a0, a1, a2, a3, a4, a5, a6, a7) => class_to_rect_exec(current, CellClass::RatOrCyborg, a0, a1, a2, a3) * 1000 + class_to_rect_exec(current, CellClass::Exactly(CellKind::Player), a4, a5, a6, a7) + h1k_exec(current, tuning),
        LookupGoal::RatInRectWithPlayerInRectAndCellIs(a0, a1, a2, a3, a4, a5, a6, a7, a8, a9, a10) => class_to_rect_exec(current, CellClass::RatOrCyborg, a0, a1, a2, a3) * 1000 + class_to_rect_exec(current, CellClass::Exactly(CellKind::Player), a4, a5, a6, a7) + (if cell_at(current, a8, a9) == a10 { 0i64 } else { 500000i64 }) + h1k_exec(current, tuning),
        LookupGoal::RatInRectWithPlayerInRectAndCellNot(a0, a1, a2, a3, a4, a5, a6, a7, a8, a9, a10) => class_to_rect_exec(current, CellClass::RatOrCyborg, a0, a1, a2, a3) * 1000 + class_to_rect_exec(current, CellClass::Exactly(CellKind::Player), a4, a5, a6, a7) + (if cell_at(current, a8, a9) != a10 { 0i64 } else { 500000i64 }) + h1k_exec(current, tuning),
        LookupGoal::RatInRectWithCellIs(a0, a1, a2, a3, a4, a5, a6) => class_to_rect_exec(current, CellClass::RatOrCyborg, a0, a1, a2, a3) * 1000 + (if cell_at(current, a4, a5) == a6 { 0i64 } else { 500000i64 }) + h1k_exec(current, tuning),
        LookupGoal::NormalRatInRectWithCyborgInRect(a0, a1, a2, a3, a4, a5, a6, a7) => class_to_rect_exec(current, CellClass::Exactly(CellKind::Rat), a0, a1, a2, a3) * 1000 + class_to_rect_exec(current, CellClass::Exactly(CellKind::CyborgRat), a4, a5, a6, a7) * 1000 + h1k_exec(current, tuning),
        LookupGoal::NormalRatInRectWithCyborgInRectAndPlayerInRect(a0, a1, a2, a3, a4, a5, a6, a7, a8, a9, a10, a11) => class_to_rect_exec(current, CellClass::Exactly(CellKind::Rat), a0, a1, a2, a3) * 1000 + class_to_rect_exec(current, CellClass::Exactly(CellKind::CyborgRat), a4, a5, a6, a7) * 1000 + class_to_rect_exec(current, CellClass::Exactly(CellKind::Player), a8, a9, a10, a11) + h1k_exec(current, tuning),
        LookupGoal::RatAtWithPlayerFacing(a0, a1, a2, a3, a4) => class_to_exec(current, CellClass::RatOrCyborg, a0, a1) + class_to_exec(current, CellClass::Exactly(CellKind::Player), a2, a3) + h1k_exec(current, tuning),
        LookupGoal::RatAtWithCell(a0, a1, a2, a3, a4) => class_to_exec(current, CellClass::RatOrCyborg, a0, a1) + (if cell_at(current, a2, a3) == a4 { 0i64 } else { 200000i64 }) + h1k_exec(current, tuning),
        LookupGoal::RatGone(a0, a1) => class_to_exec(current, CellClass::Exactly(CellKind::Player), a0, a1) + h1k_exec(current, tuning),
        LookupGoal::NoRatsAt2(a0, a1, a2, a3) => two_rats_left(current, a0, a1, a2, a3),
        LookupGoal::NoRatsInRect(a0, a1, a2, a3) => class_count_in_rect_exec(current, CellClass::RatOrCyborg, a0, a1, a2, a3) * 500000 + class_to_rect_exec(current, CellClass::Exactly(CellKind::Player), a0, a1, a2, a3),
        LookupGoal::RatsAtMost(a0) => (sat_usize(count_matching(current, CellClass::RatOrCyborg), a0) as i64) * 1000000 + h1k_exec(current, tuning),
        LookupGoal::ReachableRatsAtLeast(a0) => reachable_rats_score(current, a0),
        LookupGoal::AllRatsReachable => (sat_usize(count_matching(current, CellClass::RatOrCyborg), reachable_rat_count(current)) as i64) * 1000000 + (count_matching(current, CellClass::RatOrCyborg) as i64) * 1000,
        LookupGoal::CyborgsAtMost(a0) => cyborg_score_exec(initial, current, a0) + h1k_exec(current, tuning),
        LookupGoal::TriggersAtMost(a0) => (sat_usize(count_matching(current, CellClass::AnyTrigger), a0) as i64) * 1000000 + h1k_exec(current, tuning),
        LookupGoal::ExplosivesAtMost(a0) => (sat_usize(count_matching(current, CellClass::Exactly(CellKind::Explosive)), a0) as i64) * 1000000 + h1k_exec(current, tuning),
        LookupGoal::WebsAtMost(a0) => (sat_usize(count_matching(current, CellClass::Exactly(CellKind::Spiderweb)), a0) as i64) * 100000 + h1k_exec(current, tuning),
        LookupGoal::RatDrop => heuristic(current, tuning),
        LookupGoal::RatsAtMostWithCellIs(a0, a1, a2, a3) => (sat_usize(count_matching(current, CellClass::RatOrCyborg), a0) as i64) * 1000000 + (if cell_at(current, a1, a2) == a3 { 0i64 } else { 500000i64 }) + h1k_exec(current, tuning),
        LookupGoal::RatsAtMostWithCellNot(a0, a1, a2, a3) => (sat_usize(count_matching(current, CellClass::RatOrCyborg), a0) as i64) * 1000000 + (if cell_at(current, a1, a2) != a3 { 0i64 } else { 500000i64 }) + h1k_exec(current, tuning),
        LookupGoal::RatsAtMostWithRatInRect(a0, a1, a2, a3, a4) => (sat_usize(count_matching(current, CellClass::RatOrCyborg), a0) as i64) * 1000000 + (if class_in_rect_exec(current, CellClass::RatOrCyborg, a1, a2, a3, a4) { 0i64 } else { class_to_rect_exec(current, CellClass::RatOrCyborg, a1, a2, a3, a4) }) + h1k_exec(current, tuning),
        LookupGoal::RatsAtMostWithRatInRectAndPlayerInRect(a0, a1, a2, a3, a4, a5, a6, a7, a8) => (sat_usize(count_matching(current, CellClass::RatOrCyborg), a0) as i64) * 1000000 + (if class_in_rect_exec(current, CellClass::RatOrCyborg, a1, a2, a3, a4) { 0i64 } else { class_to_rect_exec(current, CellClass::RatOrCyborg, a1, a2, a3, a4) }) + (if class_in_rect_exec(current, CellClass::Exactly(CellKind::Player), a5, a6, a7, a8) { 0i64 } else { class_to_rect_exec(current, CellClass::Exactly(CellKind::Player), a5, a6, a7, a8) }) + h1k_exec(current, tuning),
        LookupGoal::RatsAtMostWithPlayerAt(a0, a1, a2) => (sat_usize(count_matching(current, CellClass::RatOrCyborg), a0) as i64) * 1000000 + class_to_exec(current, CellClass::Exactly(CellKind::Player), a1, a2) + h1k_exec(current, tuning),
        LookupGoal::RatsAtMostWithPlayerFacing(a0, a1, a2, a3) => (sat_usize(count_matching(current, CellClass::RatOrCyborg), a0) as i64) * 1000000 + class_to_exec(current, CellClass::Exactly(CellKind::Player), a1, a2) + (if player_facing(current, (a1, a2), a3) { 0i64 } else { 1000i64 }) + h1k_exec(current, tuning),
        LookupGoal::TriggerNumberOnlyWithCellIs(a0, a1, a2, a3) => (if only_trigger_changed(initial, current, a0) { 0i64 } else { trigger_walk_exec(current, a0) + h1k_exec(current, tuning) }) + (if cell_at(current, a1, a2) == a3 { 0i64 } else { 500000i64 }),
        LookupGoal::TriggerNumberOnlyWithCellNot(a0, a1, a2, a3) => (if only_trigger_changed(initial, current, a0) { 0i64 } else { trigger_walk_exec(current, a0) + h1k_exec(current, tuning) }) + (if cell_at(current, a1, a2) != a3 { 0i64 } else { 500000i64 }),
        LookupGoal::TriggerNumberOnlyWithCellNotAndCellIs(a0, a1, a2, a3, a4, a5, a6) => (if only_trigger_changed(initial, current, a0) { 0i64 } else { trigger_walk_exec(current, a0) + h1k_exec(current, tuning) }) + (if cell_at(current, a1, a2) != a3 { 0i64 } else { 500000i64 }) + (if cell_at(current, a4, a5) == a6 { 0i64 } else { 500000i64 }),
    }
}

/// Whether the score is defined; see `goal_score_defined`.
#[verifier::rlimit(60)]
pub fn goal_score_in_range(goal: LookupGoal, initial: &Grid, current: &Grid, facts: &TurnFacts, tuning: Tuning) -> (b: bool)
    ensures
        b == goal_score_defined(goal, *initial, *current, *facts, tuning),
{
    if lookup_goal_reached(goal, initial, current, PlayState::Playing, facts) {
        return true;
    }
    let top: i128 = 9_223_372_036_854_775_807;
    let low: i128 = -9_223_372_036_854_775_808;
    match goal {
        LookupGoal::RectangleLowerReady => crate::queries::rectangle_lower_ready(current, facts.win_ready)
            || count_matching(current, CellClass::Exactly(CellKind::Explosive)) < count_matching(initial, CellClass::Exactly(CellKind::Explosive))
            || (current.width() >= 16 && current.height() >= 9),
        LookupGoal::TriggerNumberOpen(a0, a1) => {
            let tw = trigger_walk_exec(current, a0) as i128;
            let d = sat_usize(a1, player_reachable_cell_count(current)) as i128;
            let h = h1k_exec(current, tuning) as i128;
            tw + d * 1000 + h <= top
        },
        LookupGoal::RatComponentAtLeast(a0, a1, a2) => {
            let d = sat_usize(a2, unwrap_zero(rat_component_size_at(current, (a0, a1)))) as i128;
            let r = class_to_exec(current, CellClass::RatOrCyborg, a0, a1) as i128;
            let h = h1k_exec(current, tuning) as i128;
            d * 100000 + r * 1000 + h <= top
        },
        LookupGoal::RatRectComponentAtLeast(a0, a1, a2, a3, a4) => {
            let d = sat_usize(a4, unwrap_zero(max_rat_component_size_in_rect(current, a0, a1, a2, a3))) as i128;
            let r = class_to_rect_exec(current, CellClass::RatOrCyborg, a0, a1, a2, a3) as i128;
            let h = h1k_exec(current, tuning) as i128;
            d * 100000 + r * 1000 + h <= top
        },
        LookupGoal::RatAtFarFromPlayer(a0, a1, a2) => {
            let near = nearest_player_distance_from(current, (a0, a1));
            proof {
                if let Some(v) = near {
                    let (x, y) = choose|x: int, y: int| #![trigger current.kind_at(x, y)]
                        crate::features::player_at(*current, (x as i32, y as i32)) && current.in_bounds(x, y)
                        && v == crate::geometry::spec_manhattan((x as i32, y as i32), (a0, a1));
                }
            }
            let npd = unwrap_zero_i64(near) as i128;
            let r = class_to_exec(current, CellClass::RatOrCyborg, a0, a1) as i128;
            let h = h1k_exec(current, tuning) as i128;
            let s = (a2 as i128 - npd) * 100000;
            low <= s && r + s + h <= top
        },
        LookupGoal::ReachableRatsAtLeast(a0) => {
            let d = sat_usize(a0, reachable_rat_count(current)) as i128;
            let n = count_matching(current, CellClass::RatOrCyborg) as i128;
            d * 1000000 + n * 1000 <= top
        },
        _ => true,
    }
}

} // verus!