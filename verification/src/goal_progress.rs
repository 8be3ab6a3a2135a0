//! The progress score of the breadth-first lookup search: how far a board is from a goal,
//! counted in the goal's own units.

use vstd::prelude::*;
use crate::model::{CellKind, Dir4, Grid, PlayState, MAX_SIDE};
use crate::cells::CellClass;
use crate::scan::{count_of, count_matching};
use crate::features::{spec_rat_at, rat_at, player_at, player_at_point, spec_features, Features};
use crate::reachability::{reachable_count_of, spec_distance_from_player, distance_from_player, reachable_rat_count,
    reachable_trigger_count, player_reachable_cell_count, trapped_unreachable_rat_count};
use crate::queries::{kind_at_i32, cell_at, class_in_rect, class_in_rect_exec, spec_player_facing, player_facing,
    spec_rat_component_size_at, rat_component_size_at, spec_max_component_in_rect, max_rat_component_size_in_rect,
    spec_nearest_player_distance, nearest_player_distance_from, spec_rectangle_lower_ready};
use crate::goals::{LookupGoal, TurnFacts, spec_goal_reached, lookup_goal_reached};
use crate::heuristics::{Tuning, sat_sub, trapped_count, spec_sword_ready_heuristic, sword_ready_heuristic,
    spec_cyborg_kill_ready_heuristic, cyborg_kill_ready_heuristic, spec_rat_step_ready_heuristic, rat_step_ready_heuristic};
use crate::rectangle::{spec_rectangle_winready_heuristic, rectangle_winready_heuristic, spec_rectangle_lower_ready_heuristic,
    rectangle_lower_ready_heuristic, spec_rectangle_lower_separated_heuristic, rectangle_lower_separated_heuristic,
    spec_rectangle_lower_ignition_heuristic, rectangle_lower_ignition_heuristic, lower_board};
use crate::goal_terms::{class_to, class_to_exec, class_to_rect, class_to_rect_exec, class_count_in_rect,
    class_count_in_rect_exec, lemma_count_bound};
use crate::goal_scores::{or_zero, or_zero_int, sat_usize, unwrap_zero, unwrap_zero_i64};

verus! {

/// `v` clamped to the range of `i64`, as `i64::saturating_sub` leaves a difference.
pub open spec fn clamp_i64(v: int) -> int {
    if v < i64::MIN { i64::MIN as int } else if v > i64::MAX { i64::MAX as int } else { v }
}

/// Progress towards a win: 1 000 000 per rat, 1 000 per trigger and 100 per explosive; with
/// `smart` or `progress` also 25 000 000 per rat no player can walk to, 100 000 000 per
/// trapped rat, 250 000 000 per rat when the players can walk to no rat and no trigger, and
/// 50 000 000 when triggers remain and none is in reach.
pub open spec fn win_progress(c: Grid, t: Tuning) -> int {
    let f = spec_features(c);
    let base = f.rats * 1_000_000 + f.triggers * 1_000 + f.explosives * 100;
    if t.smart || t.progress {
        let rr = reachable_count_of(c, CellClass::RatOrCyborg) as int;
        let rt = reachable_count_of(c, CellClass::AnyTrigger) as int;
        base + (f.rats - rr) * 25_000_000 + trapped_count(c) * 100_000_000
            + (if f.rats > 0 && rr == 0 && rt == 0 { f.rats * 250_000_000 } else { 0 })
            + (if f.triggers > 0 && rt == 0 { 50_000_000int } else { 0int })
    } else {
        base
    }
}

/// Progress towards a win; see `win_progress`.
pub(crate) fn win_progress_exec(current: &Grid, tuning: Tuning) -> (s: i64)
    ensures
        s == win_progress(*current, tuning),
{
    let f = Features::from_grid(current);
    let rats = f.rats as i64;
    let mut score: i64 = rats * 1_000_000 + f.triggers as i64 * 1_000 + f.explosives as i64 * 100;
    if tuning.smart || tuning.progress {
        let rr = reachable_rat_count(current) as i64;
        let rt = reachable_trigger_count(current) as i64;
        let trapped = trapped_unreachable_rat_count(current) as i64;
        score = score + (rats - rr) * 25_000_000 + trapped * 100_000_000;
        if rats > 0 && rr == 0 && rt == 0 {
            score = score + rats * 250_000_000;
        }
        if f.triggers > 0 && rt == 0 {
            score = score + 50_000_000;
        }
    }
    score
}

/// The progress score of the goal `TriggerNumberOpen`, computed where it fits.
fn open_progress(current: &Grid, a0: u8, a1: usize) -> (r: i64)
    requires
        ({ let c = *current; (count_of(c, CellClass::Exactly(CellKind::Trigger(a0))) as int) * 1000000 + sat_sub(a1 as int, reachable_count_of(c, CellClass::AnyCell) as int) * 1000 + (count_of(c, CellClass::RatOrCyborg) as int) * 1000 <= i64::MAX }),
    ensures
        ({ let c = *current; r == (count_of(c, CellClass::Exactly(CellKind::Trigger(a0))) as int) * 1000000 + sat_sub(a1 as int, reachable_count_of(c, CellClass::AnyCell) as int) * 1000 + (count_of(c, CellClass::RatOrCyborg) as int) * 1000 }),
{
    let tc = count_matching(current, CellClass::Exactly(CellKind::Trigger(a0))) as i64;
    let d = sat_usize(a1, player_reachable_cell_count(current));
    let n = count_matching(current, CellClass::RatOrCyborg) as i64;
    tc * 1000000 + (d as i64) * 1000 + n * 1000
}

/// The progress score of the goal `RatAtFarFromPlayer`, computed where it fits.
fn far_rat_progress(current: &Grid, a0: i32, a1: i32, a2: i64) -> (r: i64)
    requires
        ({ let c = *current; (if spec_rat_at(c, (a0, a1)) { 0int } else { 1000000 + class_to(c, CellClass::RatOrCyborg, a0, a1) }) + clamp_i64(a2 - or_zero_int(spec_nearest_player_distance(c, (a0, a1)))) <= i64::MAX }),
    ensures
        ({ let c = *current; r == (if spec_rat_at(c, (a0, a1)) { 0int } else { 1000000 + class_to(c, CellClass::RatOrCyborg, a0, a1) }) + clamp_i64(a2 - or_zero_int(spec_nearest_player_distance(c, (a0, a1)))) }),
{
    let rat_pen: i64 = if rat_at(current, (a0, a1)) { 0 } else { 1000000 + class_to_exec(current, CellClass::RatOrCyborg, a0, a1) };
    let near = nearest_player_distance_from(current, (a0, a1));
    proof {
        if let Some(v) = near {
            let (x, y) = choose|x: int, y: int| #![trigger current.kind_at(x, y)]
                crate::features::player_at(*current, (x as i32, y as i32)) && current.in_bounds(x, y)
                && v == crate::geometry::spec_manhattan((x as i32, y as i32), (a0, a1));
        }
    }
    let npd = unwrap_zero_i64(near);
    let diff: i128 = a2 as i128 - npd as i128;
    let clamped: i64 = if diff < i64::MIN as i128 { i64::MIN } else if diff > i64::MAX as i128 { i64::MAX } else { diff as i64 };
    rat_pen + clamped
}

/// The progress score: 0 once the goal is reached, otherwise a count of what is missing.
pub open spec fn spec_lookup_bfs_progress_score(goal: LookupGoal, i: Grid, c: Grid, facts: TurnFacts, t: Tuning) -> int {
    if spec_goal_reached(goal, i, c, PlayState::Playing, facts) {
        0
    } else {
        match goal {
            LookupGoal::Win => win_progress(c, t),
            LookupGoal::WinReady => (count_of(c, CellClass::RatOrCyborg) as int) * 1000000 + (count_of(c, CellClass::Exactly(CellKind::Explosive)) as int) * 100 + (count_of(c, CellClass::Exactly(CellKind::Spiderweb)) as int),
            LookupGoal::SwordReady => spec_sword_ready_heuristic(c, facts.win_ready),
            LookupGoal::CyborgKillReady(a0, a1) => spec_cyborg_kill_ready_heuristic(c, a0, a1, facts.cyborg_kill_ready),
            LookupGoal::RectangleReady => spec_rectangle_winready_heuristic(c, (count_of(i, CellClass::RatOrCyborg) as usize), (count_of(i, CellClass::Exactly(CellKind::Explosive)) as usize), facts.win_ready),
            LookupGoal::RectangleLowerReady => spec_rectangle_lower_ready_heuristic(c, (count_of(i, CellClass::RatOrCyborg) as usize), (count_of(i, CellClass::Exactly(CellKind::Explosive)) as usize), facts.win_ready),
            LookupGoal::RectangleLowerSeparated => spec_rectangle_lower_separated_heuristic(c, (count_of(i, CellClass::RatOrCyborg) as usize), (count_of(i, CellClass::Exactly(CellKind::Explosive)) as usize), facts.win_ready),
            LookupGoal::RectangleLowerIgnition => spec_rectangle_lower_ignition_heuristic(c, (count_of(i, CellClass::RatOrCyborg) as usize), (count_of(i, CellClass::Exactly(CellKind::Explosive)) as usize), facts.win_ready),
            LookupGoal::TriggerNumber(a0) => (count_of(c, CellClass::Exactly(CellKind::Trigger(a0))) as int) * 1000000 + (count_of(c, CellClass::RatOrCyborg) as int) * 1000,
            LookupGoal::TriggerNumberOnly(a0) => (count_of(c, CellClass::Exactly(CellKind::Trigger(a0))) as int) * 1000000 + (count_of(c, CellClass::RatOrCyborg) as int) * 1000,
            LookupGoal::TriggerNumberOpen(a0, a1) => (count_of(c, CellClass::Exactly(CellKind::Trigger(a0))) as int) * 1000000 + sat_sub(a1 as int, reachable_count_of(c, CellClass::AnyCell) as int) * 1000 + (count_of(c, CellClass::RatOrCyborg) as int) * 1000,
            LookupGoal::CellChanged(a0, a1) => (if kind_at_i32(c, a0, a1) == kind_at_i32(i, a0, a1) { 1int } else { 0int }),
            LookupGoal::CellIs(a0, a1, a2) => (if kind_at_i32(c, a0, a1) != a2 { 1int } else { 0int }),
            LookupGoal::CellIsWithPlayerAt(a0, a1, a2, a3, a4) => (if kind_at_i32(c, a0, a1) != a2 { 1int } else { 0int }) * 1000 + class_to(c, CellClass::Exactly(CellKind::Player), a3, a4),
            LookupGoal::CellNot(a0, a1, a2) => (if kind_at_i32(c, a0, a1) == a2 { 1int } else { 0int }),
            LookupGoal::CellNotWithCellIs(a0, a1, a2, a3, a4, a5) => (if kind_at_i32(c, a0, a1) == a2 { 1int } else { 0int }) * 1000 + (if kind_at_i32(c, a3, a4) != a5 { 1int } else { 0int }) * 1000000,
            LookupGoal::CellNotAndRatAt(a0, a1, a2, a3, a4) => (if kind_at_i32(c, a0, a1) == a2 { 1int } else { 0int }) + (if !(spec_rat_at(c, (a3, a4))) { 1int } else { 0int }),
            LookupGoal::CellNotWithPlayerAt(a0, a1, a2, a3, a4) => (if kind_at_i32(c, a0, a1) == a2 { 1int } else { 0int }) * 1000 + class_to(c, CellClass::Exactly(CellKind::Player), a3, a4),
            LookupGoal::CellNotWithPlayerInRect(a0, a1, a2, a3, a4, a5, a6) => (if kind_at_i32(c, a0, a1) == a2 { 1int } else { 0int }) * 1000 + class_to_rect(c, CellClass::Exactly(CellKind::Player), a3, a4, a5, a6),
            LookupGoal::CellNotWithRatInRect(a0, a1, a2, a3, a4, a5, a6) => (if kind_at_i32(c, a0, a1) == a2 { 1int } else { 0int }) * 1000 + (if !(class_in_rect(c, CellClass::RatOrCyborg, a3, a4, a5, a6)) { 1int } else { 0int }),
            LookupGoal::CellNotWithRatInRectAndPlayerInRect(a0, a1, a2, a3, a4, a5, a6, a7, a8, a9, a10) => (if kind_at_i32(c, a0, a1) == a2 { 1int } else { 0int }) * 1000 + (if !(class_in_rect(c, CellClass::RatOrCyborg, a3, a4, a5, a6)) { 1int } else { 0int }) * 1000 + class_to_rect(c, CellClass::Exactly(CellKind::Player), a7, a8, a9, a10),
            LookupGoal::CellNotWithNoRatsInRect(a0, a1, a2, a3, a4, a5, a6) => (if kind_at_i32(c, a0, a1) == a2 { 1int } else { 0int }) * 1000 + class_count_in_rect(c, CellClass::RatOrCyborg, a3, a4, a5, a6),
            LookupGoal::CellReachable(a0, a1) => spec_distance_from_player(c, (a0, a1)),
            LookupGoal::PlayerAt(a0, a1) => class_to(c, CellClass::Exactly(CellKind::Player), a0, a1),
            LookupGoal::PlayerFacing(a0, a1, a2) => class_to(c, CellClass::Exactly(CellKind::Player), a0, a1) + (if !(spec_player_facing(c, (a0, a1), a2)) { 1int } else { 0int }),
            LookupGoal::RatStepReady(a0, a1) => spec_rat_step_ready_heuristic(c, (a0, a1), facts.rat_step_ready, t) / 1000,
            LookupGoal::RatAt(a0, a1) => (if !(spec_rat_at(c, (a0, a1))) { 1int } else { 0int }),
            LookupGoal::RatComponentAtLeast(a0, a1, a2) => (sat_sub(a2 as int, or_zero(spec_rat_component_size_at(c, (a0, a1)))) as i64) as int,
            LookupGoal::RatRectComponentAtLeast(a0, a1, a2, a3, a4) => (sat_sub(a4 as int, or_zero(spec_max_component_in_rect(c, a0, a1, a2, a3))) as i64) as int,
            LookupGoal::RatAtFarFromPlayer(a0, a1, a2) => (if spec_rat_at(c, (a0, a1)) { 0int } else { 1000000 + class_to(c, CellClass::RatOrCyborg, a0, a1) }) + clamp_i64(a2 - or_zero_int(spec_nearest_player_distance(c, (a0, a1)))),
            LookupGoal::RatAtWithPlayer(a0, a1, a2, a3) => (if !(spec_rat_at(c, (a0, a1))) { 1int } else { 0int }) + (if !(player_at(c, (a2, a3))) { 1int } else { 0int }),
            LookupGoal::RatInRectWithPlayerInRect(a0, a1, a2, a3, a4, a5, a6, a7) => (if !(class_in_rect(c, CellClass::RatOrCyborg, a0, a1, a2, a3)) { 1int } else { 0int }) * 1000 + class_to_rect(c, CellClass::Exactly(CellKind::Player), a4, a5, a6, a7),
            LookupGoal::RatInRectWithPlayerInRectAndCellIs(a0, a1, a2, a3, a4, a5, a6, a7, a8, a9, a10) => (if !(class_in_rect(c, CellClass::RatOrCyborg, a0, a1, a2, a3)) { 1int } else { 0int }) * 1000 + class_to_rect(c, CellClass::Exactly(CellKind::Player), a4, a5, a6, a7) + (if kind_at_i32(c, a8, a9) != a10 { 1int } else { 0int }) * 1000000,
            LookupGoal::RatInRectWithPlayerInRectAndCellNot(a0, a1, a2, a3, a4, a5, a6, a7, a8, a9, a10) => (if !(class_in_rect(c, CellClass::RatOrCyborg, a0, a1, a2, a3)) { 1int } else { 0int }) * 1000 + class_to_rect(c, CellClass::Exactly(CellKind::Player), a4, a5, a6, a7) + (if kind_at_i32(c, a8, a9) == a10 { 1int } else { 0int }) * 1000000,
            LookupGoal::RatInRectWithCellIs(a0, a1, a2, a3, a4, a5, a6) => (if !(class_in_rect(c, CellClass::RatOrCyborg, a0, a1, a2, a3)) { 1int } else { 0int }) * 1000 + (if kind_at_i32(c, a4, a5) != a6 { 1int } else { 0int }) * 1000000,
            LookupGoal::NormalRatInRectWithCyborgInRect(a0, a1, a2, a3, a4, a5, a6, a7) => (if !(class_in_rect(c, CellClass::Exactly(CellKind::Rat), a0, a1, a2, a3)) { 1int } else { 0int }) * 1000 + (if !(class_in_rect(c, CellClass::Exactly(CellKind::CyborgRat), a4, a5, a6, a7)) { 1int } else { 0int }),
            LookupGoal::NormalRatInRectWithCyborgInRectAndPlayerInRect(a0, a1, a2, a3, a4, a5, a6, a7, a8, a9, a10, a11) => (if !(class_in_rect(c, CellClass::Exactly(CellKind::Rat), a0, a1, a2, a3)) { 1int } else { 0int }) * 1000 + (if !(class_in_rect(c, CellClass::Exactly(CellKind::CyborgRat), a4, a5, a6, a7)) { 1int } else { 0int }) * 1000 + (if !(class_in_rect(c, CellClass::Exactly(CellKind::Player), a8, a9, a10, a11)) { 1int } else { 0int }),
            LookupGoal::RatAtWithPlayerFacing(a0, a1, a2, a3, a4) => (if !(spec_rat_at(c, (a0, a1))) { 1int } else { 0int }) + (if !(spec_player_facing(c, (a2, a3), a4)) { 1int } else { 0int }),
            LookupGoal::RatAtWithCell(a0, a1, a2, a3, a4) => (if !(spec_rat_at(c, (a0, a1))) { 1int } else { 0int }) + (if kind_at_i32(c, a2, a3) != a4 { 1int } else { 0int }),
            LookupGoal::RatGone(a0, a1) => (if spec_rat_at(c, (a0, a1)) { 1int } else { 0int }),
            LookupGoal::NoRatsAt2(a0, a1, a2, a3) => (if spec_rat_at(c, (a0, a1)) { 1int } else { 0int }) + (if spec_rat_at(c, (a2, a3)) { 1int } else { 0int }),
            LookupGoal::NoRatsInRect(a0, a1, a2, a3) => class_count_in_rect(c, CellClass::RatOrCyborg, a0, a1, a2, a3),
            LookupGoal::RatsAtMost(a0) => sat_sub(count_of(c, CellClass::RatOrCyborg) as int, a0 as int),
            LookupGoal::ReachableRatsAtLeast(a0) => (sat_sub(a0 as int, reachable_count_of(c, CellClass::RatOrCyborg) as int) as i64) as int,
            LookupGoal::AllRatsReachable => sat_sub(count_of(c, CellClass::RatOrCyborg) as int, reachable_count_of(c, CellClass::RatOrCyborg) as int),
            LookupGoal::CyborgsAtMost(a0) => sat_sub(count_of(c, CellClass::Exactly(CellKind::CyborgRat)) as int, a0 as int),
            LookupGoal::TriggersAtMost(a0) => sat_sub(count_of(c, CellClass::AnyTrigger) as int, a0 as int),
            LookupGoal::ExplosivesAtMost(a0) => sat_sub(count_of(c, CellClass::Exactly(CellKind::Explosive)) as int, a0 as int),
            LookupGoal::WebsAtMost(a0) => sat_sub(count_of(c, CellClass::Exactly(CellKind::Spiderweb)) as int, a0 as int),
            LookupGoal::RatDrop => (count_of(c, CellClass::RatOrCyborg) as int),
            LookupGoal::RatsAtMostWithCellIs(a0, a1, a2, a3) => sat_sub(count_of(c, CellClass::RatOrCyborg) as int, a0 as int) + (if kind_at_i32(c, a1, a2) != a3 { 1int } else { 0int }),
            LookupGoal::RatsAtMostWithCellNot(a0, a1, a2, a3) => sat_sub(count_of(c, CellClass::RatOrCyborg) as int, a0 as int) + (if kind_at_i32(c, a1, a2) == a3 { 1int } else { 0int }),
            LookupGoal::RatsAtMostWithRatInRect(a0, a1, a2, a3, a4) => sat_sub(count_of(c, CellClass::RatOrCyborg) as int, a0 as int) + (if class_in_rect(c, CellClass::RatOrCyborg, a1, a2, a3, a4) { 0int } else { class_to_rect(c, CellClass::RatOrCyborg, a1, a2, a3, a4) }),
            LookupGoal::RatsAtMostWithRatInRectAndPlayerInRect(a0, a1, a2, a3, a4, a5, a6, a7, a8) => sat_sub(count_of(c, CellClass::RatOrCyborg) as int, a0 as int) + (if class_in_rect(c, CellClass::RatOrCyborg, a1, a2, a3, a4) { 0int } else { class_to_rect(c, CellClass::RatOrCyborg, a1, a2, a3, a4) }) + (if class_in_rect(c, CellClass::Exactly(CellKind::Player), a5, a6, a7, a8) { 0int } else { class_to_rect(c, CellClass::Exactly(CellKind::Player), a5, a6, a7, a8) }),
            LookupGoal::RatsAtMostWithPlayerAt(a0, a1, a2) => sat_sub(count_of(c, CellClass::RatOrCyborg) as int, a0 as int) + class_to(c, CellClass::Exactly(CellKind::Player), a1, a2),
            LookupGoal::RatsAtMostWithPlayerFacing(a0, a1, a2, a3) => sat_sub(count_of(c, CellClass::RatOrCyborg) as int, a0 as int) + class_to(c, CellClass::Exactly(CellKind::Player), a1, a2) + (if !(spec_player_facing(c, (a1, a2), a3)) { 1int } else { 0int }),
            LookupGoal::TriggerNumberOnlyWithCellIs(a0, a1, a2, a3) => (count_of(c, CellClass::Exactly(CellKind::Trigger(a0))) as int) * 1000000 + (if kind_at_i32(c, a1, a2) != a3 { 1int } else { 0int }),
            LookupGoal::TriggerNumberOnlyWithCellNot(a0, a1, a2, a3) => (count_of(c, CellClass::Exactly(CellKind::Trigger(a0))) as int) * 1000000 + (if kind_at_i32(c, a1, a2) == a3 { 1int } else { 0int }),
            LookupGoal::TriggerNumberOnlyWithCellNotAndCellIs(a0, a1, a2, a3, a4, a5, a6) => (count_of(c, CellClass::Exactly(CellKind::Trigger(a0))) as int) * 1000000 + (if kind_at_i32(c, a1, a2) == a3 { 1int } else { 0int }) + (if kind_at_i32(c, a4, a5) != a6 { 1int } else { 0int }),
        }
    }
}

/// The progress score is defined: the goal is reached, or its score fits the machine's
/// integers and, for the lower trap, the board holds the escape cells unless the trap is
/// ready or an explosive has gone off.
pub open spec fn progress_score_defined(goal: LookupGoal, i: Grid, c: Grid, facts: TurnFacts, t: Tuning) -> bool {
    spec_goal_reached(goal, i, c, PlayState::Playing, facts) || match goal {
        LookupGoal::RectangleLowerReady => spec_rectangle_lower_ready(c, facts.win_ready)
            || count_of(c, CellClass::Exactly(CellKind::Explosive)) < count_of(i, CellClass::Exactly(CellKind::Explosive))
            || lower_board(c),
        LookupGoal::TriggerNumberOpen(a0, a1) => (count_of(c, CellClass::Exactly(CellKind::Trigger(a0))) as int) * 1000000 + sat_sub(a1 as int, reachable_count_of(c, CellClass::AnyCell) as int) * 1000 + (count_of(c, CellClass::RatOrCyborg) as int) * 1000 <= i64::MAX,
        LookupGoal::RatAtFarFromPlayer(a0, a1, a2) => (if spec_rat_at(c, (a0, a1)) { 0int } else { 1000000 + class_to(c, CellClass::RatOrCyborg, a0, a1) }) + clamp_i64(a2 - or_zero_int(spec_nearest_player_distance(c, (a0, a1)))) <= i64::MAX,
        _ => true,
    }
}

/// The progress score; see `spec_lookup_bfs_progress_score`. `facts` brings what only a
/// simulation of the next turn can tell.
#[verifier::rlimit(100)]
pub fn lookup_bfs_progress_score(goal: LookupGoal, initial: &Grid, current: &Grid, facts: &TurnFacts, tuning: Tuning) -> (s: i64)
    requires
        progress_score_defined(goal, *initial, *current, *facts, tuning),
    ensures
        s == spec_lookup_bfs_progress_score(goal, *initial, *current, *facts, tuning),
{
    if lookup_goal_reached(goal, initial, current, PlayState::Playing, facts) {
        return 0;
    }
    initial.note_size_limit();
    proof {
        lemma_count_bound(*initial, CellClass::RatOrCyborg);
        lemma_count_bound(*initial, CellClass::Exactly(CellKind::Explosive));
    }
    let rats_i = count_matching(initial, CellClass::RatOrCyborg);
    let expl_i = count_matching(initial, CellClass::Exactly(CellKind::Explosive));
    match goal {
        LookupGoal::Win => win_progress_exec(current, tuning),
        LookupGoal::WinReady => (count_matching(current, CellClass::RatOrCyborg) as i64) * 1000000 + (count_matching(current, CellClass::Exactly(CellKind::Explosive)) as i64) * 100 + (count_matching(current, CellClass::Exactly(CellKind::Spiderweb)) as i64),
        LookupGoal::SwordReady => sword_ready_heuristic(current, facts.win_ready),
        LookupGoal::CyborgKillReady(a0, a1) => cyborg_kill_ready_heuristic(current, a0, a1, facts.cyborg_kill_ready),
        LookupGoal::RectangleReady => rectangle_winready_heuristic(current, rats_i, expl_i, facts.win_ready),
        LookupGoal::RectangleLowerReady => rectangle_lower_ready_heuristic(current, rats_i, expl_i, facts.win_ready),
        LookupGoal::RectangleLowerSeparated => rectangle_lower_separated_heuristic(current, rats_i, expl_i, facts.win_ready),
        LookupGoal::RectangleLowerIgnition => rectangle_lower_ignition_heuristic(current, rats_i, expl_i, facts.win_ready),
        LookupGoal::TriggerNumber(a0) => (count_matching(current, CellClass::Exactly(CellKind::Trigger(a0))) as i64) * 1000000 + (count_matching(current, CellClass::RatOrCyborg) as i64) * 1000,
        LookupGoal::TriggerNumberOnly(a0) => (count_matching(current, CellClass::Exactly(CellKind::Trigger(a0))) as i64) * 1000000 + (count_matching(current, CellClass::RatOrCyborg) as i64) * 1000,
        LookupGoal::TriggerNumberOpen(a0, a1) => open_progress(current, a0, a1),
        LookupGoal::CellChanged(a0, a1) => (if cell_at(current, a0, a1) == cell_at(initial, a0, a1) { 1i64 } else { 0i64 }),
        LookupGoal::CellIs(a0, a1, a2) => (if cell_at(current, a0, a1) != a2 { 1i64 } else { 0i64 }),
        LookupGoal::CellIsWithPlayerAt(a0, a1, a2, a3, a4) => (if cell_at(current, a0, a1) != a2 { 1i64 } else { 0i64 }) * 1000 + class_to_exec(current, CellClass::Exactly(CellKind::Player), a3, a4),
        LookupGoal::CellNot(a0, a1, a2) => (if cell_at(current, a0, a1) == a2 { 1i64 } else { 0i64 }),
        LookupGoal::CellNotWithCellIs(a0, a1, a2, a3, a4, a5) => (if cell_at(current, a0, a1) == a2 { 1i64 } else { 0i64 }) * 1000 + (if cell_at(current, a3, a4) != a5 { 1i64 } else { 0i64 }) * 1000000,
        LookupGoal::CellNotAndRatAt(a0, a1, a2, a3, a4) => (if cell_at(current, a0, a1) == a2 { 1i64 } else { 0i64 }) + (if !(rat_at(current, (a3, a4))) { 1i64 } else { 0i64 }),
        LookupGoal::CellNotWithPlayerAt(a0, a1, a2, a3, a4) => (if cell_at(current, a0, a1) == a2 { 1i64 } else { 0i64 }) * 1000 + class_to_exec(current, CellClass::Exactly(CellKind::Player), a3, a4),
        LookupGoal::CellNotWithPlayerInRect(a0, a1, a2, a3, a4, a5, a6) => (if cell_at(current, a0, a1) == a2 { 1i64 } else { 0i64 }) * 1000 + class_to_rect_exec(current, CellClass::Exactly(CellKind::Player), a3, a4, a5, a6),
        LookupGoal::CellNotWithRatInRect(a0, a1, a2, a3, a4, a5, a6) => (if cell_at(current, a0, a1) == a2 { 1i64 } else { 0i64 }) * 1000 + (if !(class_in_rect_exec(current, CellClass::RatOrCyborg, a3, a4, a5, a6)) { 1i64 } else { 0i64 }),
        LookupGoal::CellNotWithRatInRectAndPlayerInRect(a0, a1, a2, a3, a4, a5, a6, a7, a8, a9, a10) => (if cell_at(current, a0, a1) == a2 { 1i64 } else { 0i64 }) * 1000 + (if !(class_in_rect_exec(current, CellClass::RatOrCyborg, a3, a4, a5, a6)) { 1i64 } else { 0i64 }) * 1000 + class_to_rect_exec(current, CellClass::Exactly(CellKind::Player), a7, a8, a9, a10),
        LookupGoal::CellNotWithNoRatsInRect(a0, a1, a2, a3, a4, a5, a6) => (if cell_at(current, a0, a1) == a2 { 1i64 } else { 0i64 }) * 1000 + class_count_in_rect_exec(current, CellClass::RatOrCyborg, a3, a4, a5, a6),
        LookupGoal::CellReachable(a0, a1) => distance_from_player(current, (a0, a1)),
        LookupGoal::PlayerAt(a0, a1) => class_to_exec(current, CellClass::Exactly(CellKind::Player), a0, a1),
        LookupGoal::PlayerFacing(a0, a1, a2) => class_to_exec(current, CellClass::Exactly(CellKind::Player), a0, a1) + (if !(player_facing(current, (a0, a1), a2)) { 1i64 } else { 0i64 }),
        LookupGoal::RatStepReady(a0, a1) => rat_step_ready_heuristic(current, (a0, a1), facts.rat_step_ready, tuning) / 1000,
        LookupGoal::RatAt(a0, a1) => (if !(rat_at(current, (a0, a1))) { 1i64 } else { 0i64 }),
        LookupGoal::RatComponentAtLeast(a0, a1, a2) => (sat_usize(a2, unwrap_zero(rat_component_size_at(current, (a0, a1)))) as i64),
        LookupGoal::RatRectComponentAtLeast(a0, a1, a2, a3, a4) => (sat_usize(a4, unwrap_zero(max_rat_component_size_in_rect(current, a0, a1, a2, a3))) as i64),
        LookupGoal::RatAtFarFromPlayer(a0, a1, a2) => far_rat_progress(current, a0, a1, a2),
        LookupGoal::RatAtWithPlayer(a0, a1, a2, a3) => (if !(rat_at(current, (a0, a1))) { 1i64 } else { 0i64 }) + (if !(player_at_point(current, (a2, a3))) { 1i64 } else { 0i64 }),
        LookupGoal::RatInRectWithPlayerInRect(a0, a1, a2, a3, a4, a5, a6, a7) => (if !(class_in_rect_exec(current, CellClass::RatOrCyborg, a0, a1, a2, a3)) { 1i64 } else { 0i64 }) * 1000 + class_to_rect_exec(current, CellClass::Exactly(CellKind::Player), a4, a5, a6, a7),
        LookupGoal::RatInRectWithPlayerInRectAndCellIs(a0, a1, a2, a3, a4, a5, a6, a7, a8, a9, a10) => (if !(class_in_rect_exec(current, CellClass::RatOrCyborg, a0, a1, a2, a3)) { 1i64 } else { 0i64 }) * 1000 + class_to_rect_exec(current, CellClass::Exactly(CellKind::Player), a4, a5, a6, a7) + (if cell_at(current, a8, a9) != a10 { 1i64 } else { 0i64 }) * 1000000,
        LookupGoal::RatInRectWithPlayerInRectAndCellNot(a0, a1, a2, a3, a4, a5, a6, a7, a8, a9, a10) => (if !(class_in_rect_exec(current, CellClass::RatOrCyborg, a0, a1, a2, a3)) { 1i64 } else { 0i64 }) * 1000 + class_to_rect_exec(current, CellClass::Exactly(CellKind::Player), a4, a5, a6, a7) + (if cell_at(current, a8, a9) == a10 { 1i64 } else { 0i64 }) * 1000000,
        LookupGoal::RatInRectWithCellIs(a0, a1, a2, a3, a4, a5, a6) => (if !(class_in_rect_exec(current, CellClass::RatOrCyborg, a0, a1, a2, a3)) { 1i64 } else { 0i64 }) * 1000 + (if cell_at(current, a4, a5) != a6 { 1i64 } else { 0i64 }) * 1000000,
        LookupGoal::NormalRatInRectWithCyborgInRect(a0, a1, a2, a3, a4, a5, a6, a7) => (if !(class_in_rect_exec(current, CellClass::Exactly(CellKind::Rat), a0, a1, a2, a3)) { 1i64 } else { 0i64 }) * 1000 + (if !(class_in_rect_exec(current, CellClass::Exactly(CellKind::CyborgRat), a4, a5, a6, a7)) { 1i64 } else { 0i64 }),
        LookupGoal::NormalRatInRectWithCyborgInRectAndPlayerInRect(a0, a1, a2, a3, a4, a5, a6, a7, a8, a9, a10, a11) => (if !(class_in_rect_exec(current, CellClass::Exactly(CellKind::Rat), a0, a1, a2, a3)) { 1i64 } else { 0i64 }) * 1000 + (if !(class_in_rect_exec(current, CellClass::Exactly(CellKind::CyborgRat), a4, a5, a6, a7)) { 1i64 } else { 0i64 }) * 1000 + (if !(class_in_rect_exec(current, CellClass::Exactly(CellKind::Player), a8, a9, a10, a11)) { 1i64 } else { 0i64 }),
        LookupGoal::RatAtWithPlayerFacing(a0, a1, a2, a3, a4) => (if !(rat_at(current, (a0, a1))) { 1i64 } else { 0i64 }) + (if !(player_facing(current, (a2, a3), a4)) { 1i64 } else { 0i64 }),
        LookupGoal::RatAtWithCell(a0, a1, a2, a3, a4) => (if !(rat_at(current, (a0, a1))) { 1i64 } else { 0i64 }) + (if cell_at(current, a2, a3) != a4 { 1i64 } else { 0i64 }),
        LookupGoal::RatGone(a0, a1) => (if rat_at(current, (a0, a1)) { 1i64 } else { 0i64 }),
        LookupGoal::NoRatsAt2(a0, a1, a2, a3) => (if rat_at(current, (a0, a1)) { 1i64 } else { 0i64 }) + (if rat_at(current, (a2, a3)) { 1i64 } else { 0i64 }),
        LookupGoal::NoRatsInRect(a0, a1, a2, a3) => class_count_in_rect_exec(current, CellClass::RatOrCyborg, a0, a1, a2, a3),
        LookupGoal::RatsAtMost(a0) => (sat_usize(count_matching(current, CellClass::RatOrCyborg), a0) as i64),
        LookupGoal::ReachableRatsAtLeast(a0) => (sat_usize(a0, reachable_rat_count(current)) as i64),
        LookupGoal::AllRatsReachable => (sat_usize(count_matching(current, CellClass::RatOrCyborg), reachable_rat_count(current)) as i64),
        LookupGoal::CyborgsAtMost(a0) => (sat_usize(count_matching(current, CellClass::Exactly(CellKind::CyborgRat)), a0) as i64),
        LookupGoal::TriggersAtMost(a0) => (sat_usize(count_matching(current, CellClass::AnyTrigger), a0) as i64),
        LookupGoal::ExplosivesAtMost(a0) => (sat_usize(count_matching(current, CellClass::Exactly(CellKind::Explosive)), a0) as i64),
        LookupGoal::WebsAtMost(a0) => (sat_usize(count_matching(current, CellClass::Exactly(CellKind::Spiderweb)), a0) as i64),
        LookupGoal::RatDrop => (count_matching(current, CellClass::RatOrCyborg) as i64),
        LookupGoal::RatsAtMostWithCellIs(a0, a1, a2, a3) => (sat_usize(count_matching(current, CellClass::RatOrCyborg), a0) as i64) + (if cell_at(current, a1, a2) != a3 { 1i64 } else { 0i64 }),
        LookupGoal::RatsAtMostWithCellNot(a0, a1, a2, a3) => (sat_usize(count_matching(current, CellClass::RatOrCyborg), a0) as i64) + (if cell_at(current, a1, a2) == a3 { 1i64 } else { 0i64 }),
        LookupGoal::RatsAtMostWithRatInRect(a0, a1, a2, a3, a4) => (sat_usize(count_matching(current, CellClass::RatOrCyborg), a0) as i64) + (if class_in_rect_exec(current, CellClass::RatOrCyborg, a1, a2, a3, a4) { 0i64 } else { class_to_rect_exec(current, CellClass::RatOrCyborg, a1, a2, a3, a4) }),
        LookupGoal::RatsAtMostWithRatInRectAndPlayerInRect(a0, a1, a2, a3, a4, a5, a6, a7, a8) => (sat_usize(count_matching(current, CellClass::RatOrCyborg), a0) as i64) + (if class_in_rect_exec(current, CellClass::RatOrCyborg, a1, a2, a3, a4) { 0i64 } else { class_to_rect_exec(current, CellClass::RatOrCyborg, a1, a2, a3, a4) }) + (if class_in_rect_exec(current, CellClass::Exactly(CellKind::Player), a5, a6, a7, a8) { 0i64 } else { class_to_rect_exec(current, CellClass::Exactly(CellKind::Player), a5, a6, a7, a8) }),
        LookupGoal::RatsAtMostWithPlayerAt(a0, a1, a2) => (sat_usize(count_matching(current, CellClass::RatOrCyborg), a0) as i64) + class_to_exec(current, CellClass::Exactly(CellKind::Player), a1, a2),
        LookupGoal::RatsAtMostWithPlayerFacing(a0, a1, a2, a3) => (sat_usize(count_matching(current, CellClass::RatOrCyborg), a0) as i64) + class_to_exec(current, CellClass::Exactly(CellKind::Player), a1, a2) + (if !(player_facing(current, (a1, a2), a3)) { 1i64 } else { 0i64 }),
        LookupGoal::TriggerNumberOnlyWithCellIs(a0, a1, a2, a3) => (count_matching(current, CellClass::Exactly(CellKind::Trigger(a0))) as i64) * 1000000 + (if cell_at(current, a1, a2) != a3 { 1i64 } else { 0i64 }),
        LookupGoal::TriggerNumberOnlyWithCellNot(a0, a1, a2, a3) => (count_matching(current, CellClass::Exactly(CellKind::Trigger(a0))) as i64) * 1000000 + (if cell_at(current, a1, a2) == a3 { 1i64 } else { 0i64 }),
        LookupGoal::TriggerNumberOnlyWithCellNotAndCellIs(a0, a1, a2, a3, a4, a5, a6) => (count_matching(current, CellClass::Exactly(CellKind::Trigger(a0))) as i64) * 1000000 + (if cell_at(current, a1, a2) == a3 { 1i64 } else { 0i64 }) + (if cell_at(current, a4, a5) != a6 { 1i64 } else { 0i64 }),
    }
}

/// Whether the progress score is defined; see `progress_score_defined`.
pub fn progress_score_in_range(goal: LookupGoal, initial: &Grid, current: &Grid, facts: &TurnFacts, tuning: Tuning) -> (b: bool)
    ensures
        b == progress_score_defined(goal, *initial, *current, *facts, tuning),
{
    if lookup_goal_reached(goal, initial, current, PlayState::Playing, facts) {
        return true;
    }
    let top: i128 = 9_223_372_036_854_775_807;
    match goal {
        LookupGoal::RectangleLowerReady => crate::queries::rectangle_lower_ready(current, facts.win_ready)
            || count_matching(current, CellClass::Exactly(CellKind::Explosive)) < count_matching(initial, CellClass::Exactly(CellKind::Explosive))
            || (current.width() >= 16 && current.height() >= 9),
        LookupGoal::TriggerNumberOpen(a0, a1) => {
            let tc = count_matching(current, CellClass::Exactly(CellKind::Trigger(a0))) as i128;
            let d = sat_usize(a1, player_reachable_cell_count(current)) as i128;
            let n = count_matching(current, CellClass::RatOrCyborg) as i128;
            tc * 1000000 + d * 1000 + n * 1000 <= top
        },
        LookupGoal::RatAtFarFromPlayer(a0, a1, a2) => {
            let rat_pen: i128 = if rat_at(current, (a0, a1)) { 0 } else { 1000000 + class_to_exec(current, CellClass::RatOrCyborg, a0, a1) as i128 };
            let near = nearest_player_distance_from(current, (a0, a1));
            proof {
                if let Some(v) = near {
                    let (x, y) = choose|x: int, y: int| #![trigger current.kind_at(x, y)]
                        crate::features::player_at(*current, (x as i32, y as i32)) && current.in_bounds(x, y)
                        && v == crate::geometry::spec_manhattan((x as i32, y as i32), (a0, a1));
                }
            }
            let npd = unwrap_zero_i64(near) as i128;
            let diff: i128 = a2 as i128 - npd;
            let clamped: i128 = if diff < -9_223_372_036_854_775_808 { -9_223_372_036_854_775_808 } else if diff > top { top } else { diff };
            rat_pen + clamped <= top
        },
        _ => true,
    }
}

} // verus!