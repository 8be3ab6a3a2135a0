//! Estimates of how far a board is from a goal, used to order the searches.

use vstd::prelude::*;
use crate::model::{CellKind, Dir4, Grid, MAX_SIDE};
use crate::cells::{CellClass, class_has, is_rat, spec_dir4_delta, dir4_delta};
use crate::scan::{board_points, class_pred, count_of, positions_of, count_matching, lemma_board_points_bound};
use crate::geometry::{spec_nearest_pair, nearest_target_distance};
use crate::queries::{ring, ring_on_board, adjacent_points};
use crate::reach::{walkable_from_player, player_dist_map};
use crate::reachability::{reachable_count_of, trapped_rat_pred, trapped_unreachable_rat_count,
    reachable_rat_count, reachable_trigger_count, player_reachable_cell_count,
    nearest_reachable_trigger_distance, nearest_reachable_any_trigger_distance};
use crate::features::{rat_positions, Features, spec_features, spec_resource_exhaustion_penalty, resource_exhaustion_penalty};
use crate::nearest::{min_dist, opt_int, class_mask, nearest_mask, count_mask, build_mask,
    unreachable_pred, unreachable_mask};

verus! {

broadcast use Grid::lemma_outside_is_wall;

/// Switches that change how boards are scored: `progress` also counts explosives and webs
/// left; `smart` also counts rats and triggers no player can walk to; `trap` scores wide
/// boards by the rectangle trap layout, with only its two middle trap cells when `strict`;
/// `rect_lower` scores the tinderbox plan on wide boards by the lower trap; `lure` measures
/// rats to explosives from the lure rats only.
#[derive(Clone, Copy, Debug, PartialEq, Eq, Structural)]
pub struct Tuning {
    pub progress: bool,
    pub smart: bool,
    pub trap: bool,
    pub strict: bool,
    pub rect_lower: bool,
    pub lure: bool,
}

/// The smaller of two optional values; a missing value loses to a present one.
pub open spec fn min_opt(a: Option<int>, b: Option<int>) -> Option<int> {
    match (a, b) {
        (Some(x), Some(y)) => Some(if x <= y { x } else { y }),
        (Some(x), None) => Some(x),
        (None, o) => o,
    }
}

/// An optional distance, with a default for none.
pub open spec fn or_default(o: Option<int>, d: int) -> int {
    match o {
        Some(v) => v,
        None => d,
    }
}

/// The smaller of two integers.
pub open spec fn min_int(a: int, b: int) -> int {
    if a <= b { a } else { b }
}

/// `a - b`, or 0 when `b` is larger.
pub open spec fn sat_sub(a: int, b: int) -> int {
    if a >= b { a - b } else { 0 }
}

/// Number of rats no player can walk to that cannot step to an explosive or a black hole.
pub open spec fn trapped_count(g: Grid) -> nat {
    board_points(g, trapped_rat_pred(g)).len()
}

/// Number of cells of class `c` that no player can walk to.
pub open spec fn unreachable_count_of(g: Grid, c: CellClass) -> nat {
    board_points(g, unreachable_pred(g, c)).len()
}

/// The general score: rats dominate, then (with `smart`) rats and triggers out of the
/// players' reach, then triggers left (and, with `progress`, explosives and webs), then the
/// walk to the nearest rat or trigger. A board without rats scores 0; a board where the
/// players can walk to neither rats nor triggers pays 250 000 000 per rat.
pub open spec fn spec_heuristic(g: Grid, t: Tuning) -> int {
    let rats = count_of(g, CellClass::RatOrCyborg) as int;
    let near = min_opt(min_dist(g, class_pred(g, CellClass::RatOrCyborg)), min_dist(g, class_pred(g, CellClass::AnyTrigger)));
    let dead_end = if near is None { rats * 250_000_000 } else { 0 };
    let smart_penalty = if t.smart {
        unreachable_count_of(g, CellClass::RatOrCyborg) * 25_000_000 + trapped_count(g) * 100_000_000
            + unreachable_count_of(g, CellClass::AnyTrigger) * 500_000
    } else {
        0
    };
    let structure = if t.progress {
        count_of(g, CellClass::Exactly(CellKind::Explosive)) * 300 + count_of(g, CellClass::Exactly(CellKind::Spiderweb)) * 100
    } else {
        0
    };
    if rats == 0 {
        0
    } else {
        rats * 1_000_000 + dead_end + smart_penalty + structure + count_of(g, CellClass::AnyTrigger) * 2_000
            + or_default(near, 1000)
    }
}

/// The general score of a board; see `spec_heuristic`.
pub fn heuristic(grid: &Grid, tuning: Tuning) -> (h: i64)
    ensures
        h == spec_heuristic(*grid, tuning),
        0 <= h <= 1_000_000_000_000_000,
{
    let ghost g = *grid;
    let rats = count_matching(grid, CellClass::RatOrCyborg);
    if rats == 0 {
        return 0;
    }
    let dist = player_dist_map(grid);
    let rat_mask = class_mask(grid, CellClass::RatOrCyborg);
    let trigger_mask = class_mask(grid, CellClass::AnyTrigger);
    let nearest_rat = nearest_mask(grid, &dist, &rat_mask, Ghost(class_pred(g, CellClass::RatOrCyborg)));
    let nearest_trigger = nearest_mask(grid, &dist, &trigger_mask, Ghost(class_pred(g, CellClass::AnyTrigger)));
    let triggers_left = count_matching(grid, CellClass::AnyTrigger);
    let explosives_left = count_matching(grid, CellClass::Exactly(CellKind::Explosive));
    let webs_left = count_matching(grid, CellClass::Exactly(CellKind::Spiderweb));
    let near: Option<i64> = match (nearest_rat, nearest_trigger) {
        (Some(a), Some(b)) => Some(if a <= b { a } else { b }),
        (Some(a), None) => Some(a),
        (None, o) => o,
    };
    let secondary: i64 = match near {
        Some(d) => d,
        None => 1000,
    };
    let dead_end: i64 = if near.is_none() { rats as i64 * 250_000_000 } else { 0 };
    let smart_penalty: i64 = if tuning.smart {
        let unreachable_rats = count_mask(grid, &unreachable_mask(grid, &dist, CellClass::RatOrCyborg),
            Ghost(unreachable_pred(g, CellClass::RatOrCyborg)));
        let unreachable_triggers = count_mask(grid, &unreachable_mask(grid, &dist, CellClass::AnyTrigger),
            Ghost(unreachable_pred(g, CellClass::AnyTrigger)));
        let trapped = trapped_unreachable_rat_count(grid);
        unreachable_rats as i64 * 25_000_000 + trapped as i64 * 100_000_000 + unreachable_triggers as i64 * 500_000
    } else {
        0
    };
    let structure: i64 = if tuning.progress {
        explosives_left as i64 * 300 + webs_left as i64 * 100
    } else {
        0
    };
    rats as i64 * 1_000_000 + dead_end + smart_penalty + structure + triggers_left as i64 * 2_000 + secondary
}

/// Cells a player cannot stand on to strike a rat: walls, planks, black holes, explosives
/// and rats.
pub open spec fn blocks_attack(k: CellKind) -> bool {
    k == CellKind::Wall || k == CellKind::Plank || k == CellKind::BlackHole || k == CellKind::Explosive || is_rat(k)
}

/// A free cell with a rat north, south, east or west of it: where a player can strike.
pub open spec fn attack_pred(g: Grid) -> spec_fn(int, int) -> bool {
    |x: int, y: int| !blocks_attack(g.kind_at(x, y)) && (is_rat(g.kind_at(x, y + 1)) || is_rat(g.kind_at(x, y - 1))
        || is_rat(g.kind_at(x - 1, y)) || is_rat(g.kind_at(x + 1, y)))
}

/// Score for getting a player next to a rat to strike it: 0 when a winning move exists
/// (`win_ready`) or no rat is left; otherwise 1 000 000 per rat, 250 000 more when the
/// players can walk to no striking cell, and 1 000 per step to the nearest one (at most
/// 1 000 steps counted).
pub open spec fn spec_sword_ready_heuristic(g: Grid, win_ready: bool) -> int {
    let rats = count_of(g, CellClass::RatOrCyborg) as int;
    let near = min_dist(g, attack_pred(g));
    if win_ready || rats == 0 {
        0
    } else {
        rats * 1_000_000 + (if near is None { 250_000int } else { 0int }) + min_int(or_default(near, 1000), 1000) * 1_000
    }
}

/// Score for getting a player next to a rat to strike it. `win_ready` tells whether some
/// move of all players wins at once.
pub fn sword_ready_heuristic(grid: &Grid, win_ready: bool) -> (h: i64)
    ensures
        h == spec_sword_ready_heuristic(*grid, win_ready),
{
    let ghost g = *grid;
    if win_ready {
        return 0;
    }
    let rats = count_matching(grid, CellClass::RatOrCyborg);
    if rats == 0 {
        return 0;
    }
    let dist = player_dist_map(grid);
    let f = |x: usize, y: usize| -> (b: bool)
        requires
            grid.in_bounds(x as int, y as int),
        ensures
            b == attack_pred(*grid)(x as int, y as int),
        {
            grid.note_size_limit();
            let k = grid.cell_kind_at(x, y);
            if k == CellKind::Wall || k == CellKind::Plank || k == CellKind::BlackHole || k == CellKind::Explosive
                || crate::cells::rat_or_cyborg(k) {
                return false;
            }
            let south = crate::cells::rat_or_cyborg(grid.cell_kind_at(x, y + 1));
            let north = y > 0 && crate::cells::rat_or_cyborg(grid.cell_kind_at(x, y - 1));
            let west = x > 0 && crate::cells::rat_or_cyborg(grid.cell_kind_at(x - 1, y));
            let east = crate::cells::rat_or_cyborg(grid.cell_kind_at(x + 1, y));
            south || north || west || east
        };
    let mask = build_mask(grid, f, Ghost(attack_pred(g)));
    let near = nearest_mask(grid, &dist, &mask, Ghost(attack_pred(g)));
    let (penalty, nearest): (i64, i64) = match near {
        Some(d) => (0, if d < 1000 { d } else { 1000 }),
        None => (250_000, 1000),
    };
    rats as i64 * 1_000_000 + penalty + nearest * 1_000
}

/// Whether a cyborg rat stands one step from `(x, y)` in direction `d`.
pub open spec fn cyborg_ahead(g: Grid, x: int, y: int, d: Dir4) -> bool {
    g.kind_at(x + spec_dir4_delta(d).0, y + spec_dir4_delta(d).1) == CellKind::CyborgRat
}

/// Cells a player cannot stand on to push at a cyborg rat: walls, planks, black holes and
/// explosives.
pub open spec fn blocks_stance(k: CellKind) -> bool {
    k == CellKind::Wall || k == CellKind::Plank || k == CellKind::BlackHole || k == CellKind::Explosive
}

/// Whether moving in `d` is allowed when only `direction` (if any) is wanted.
pub open spec fn dir_allowed(direction: Option<Dir4>, d: Dir4) -> bool {
    match direction {
        Some(wanted) => wanted == d,
        None => true,
    }
}

/// A free cell from which a player moving in an allowed direction steps into a cyborg rat.
pub open spec fn stance_pred(g: Grid, direction: Option<Dir4>) -> spec_fn(int, int) -> bool {
    |x: int, y: int| !blocks_stance(g.kind_at(x, y)) && (
        (dir_allowed(direction, Dir4::North) && cyborg_ahead(g, x, y, Dir4::North))
        || (dir_allowed(direction, Dir4::South) && cyborg_ahead(g, x, y, Dir4::South))
        || (dir_allowed(direction, Dir4::East) && cyborg_ahead(g, x, y, Dir4::East))
        || (dir_allowed(direction, Dir4::West) && cyborg_ahead(g, x, y, Dir4::West)))
}

/// Score for lining a player up to kill a cyborg rat: 0 when the kill is ready
/// (`kill_ready`); otherwise 1 000 000 per cyborg rat, 2 000 000 more when an ordinary rat
/// is required and none is left, and 1 000 per step to the nearest stance (at most 1 000).
pub open spec fn spec_cyborg_kill_ready_heuristic(g: Grid, direction: Option<Dir4>, require_normal_rat: bool, kill_ready: bool) -> int {
    let near = min_dist(g, stance_pred(g, direction));
    if kill_ready {
        0
    } else {
        count_of(g, CellClass::Exactly(CellKind::CyborgRat)) * 1_000_000
            + (if require_normal_rat && count_of(g, CellClass::Exactly(CellKind::Rat)) == 0 { 2_000_000int } else { 0int })
            + min_int(or_default(near, 1000), 1000) * 1_000
    }
}

/// Whether a player standing at `(x, y)` would step into a cyborg rat moving in `d`.
fn cyborg_ahead_exec(grid: &Grid, x: usize, y: usize, d: Dir4) -> (b: bool)
    requires
        grid.in_bounds(x as int, y as int),
    ensures
        b == cyborg_ahead(*grid, x as int, y as int, d),
{
    grid.note_size_limit();
    let (dx, dy) = dir4_delta(d);
    let nx = x as i64 + dx as i64;
    let ny = y as i64 + dy as i64;
    if nx < 0 || ny < 0 {
        return false;
    }
    grid.cell_kind_at(nx as usize, ny as usize) == CellKind::CyborgRat
}

/// Score for lining a player up to kill a cyborg rat, moving in `direction` if one is
/// given. `kill_ready` tells whether a single move already kills one.
pub fn cyborg_kill_ready_heuristic(grid: &Grid, direction: Option<Dir4>, require_normal_rat: bool, kill_ready: bool) -> (h: i64)
    ensures
        h == spec_cyborg_kill_ready_heuristic(*grid, direction, require_normal_rat, kill_ready),
{
    let ghost g = *grid;
    if kill_ready {
        return 0;
    }
    let dist = player_dist_map(grid);
    let f = |x: usize, y: usize| -> (b: bool)
        requires
            grid.in_bounds(x as int, y as int),
        ensures
            b == stance_pred(*grid, direction)(x as int, y as int),
        {
            let k = grid.cell_kind_at(x, y);
            if k == CellKind::Wall || k == CellKind::Plank || k == CellKind::BlackHole || k == CellKind::Explosive {
                return false;
            }
            let n = (direction.is_none() || direction == Some(Dir4::North)) && cyborg_ahead_exec(grid, x, y, Dir4::North);
            let s = (direction.is_none() || direction == Some(Dir4::South)) && cyborg_ahead_exec(grid, x, y, Dir4::South);
            let e = (direction.is_none() || direction == Some(Dir4::East)) && cyborg_ahead_exec(grid, x, y, Dir4::East);
            let w = (direction.is_none() || direction == Some(Dir4::West)) && cyborg_ahead_exec(grid, x, y, Dir4::West);
            n || s || e || w
        };
    let mask = build_mask(grid, f, Ghost(stance_pred(g, direction)));
    let near = nearest_mask(grid, &dist, &mask, Ghost(stance_pred(g, direction)));
    let nearest: i64 = match near {
        Some(d) => if d < 1000 { d } else { 1000 },
        None => 1000,
    };
    let cyborgs = count_matching(grid, CellClass::Exactly(CellKind::CyborgRat));
    let normal_penalty: i64 = if require_normal_rat && count_matching(grid, CellClass::Exactly(CellKind::Rat)) == 0 {
        2_000_000
    } else {
        0
    };
    cyborgs as i64 * 1_000_000 + normal_penalty + nearest * 1_000
}

/// Rats no player can walk to, counted as the rats less the reachable ones.
pub open spec fn unreachable_rats(g: Grid) -> int {
    sat_sub(count_of(g, CellClass::RatOrCyborg) as int, reachable_count_of(g, CellClass::RatOrCyborg) as int)
}

/// Score of a board reached by a search branch: rats, rats out of reach and trapped rats
/// dominate; remaining webs, planks and walls and the path length add to it; explosives and
/// triggers still at hand take from it.
pub open spec fn spec_lookup_branch_score(g: Grid, path_len: int) -> int {
    let f = spec_features(g);
    let ur = unreachable_rats(g);
    let stranded = if ur > 0 && reachable_count_of(g, CellClass::AnyTrigger) == 0 { ur * 100_000_000_000 } else { 0 };
    f.rats * 1_000_000_000 + ur * 20_000_000_000 + trapped_count(g) * 80_000_000_000 + stranded
        + spec_resource_exhaustion_penalty(f) + f.webs * 10_000 + f.planks * 5_000 + f.walls * 500 + path_len
        - f.explosives * 50_000 - f.triggers * 20_000
}

/// Score of a board reached by a search branch of `path_len` turns; see
/// `spec_lookup_branch_score`. No path held in memory comes near the bound on `path_len`.
pub fn lookup_branch_score(grid: &Grid, path_len: usize) -> (s: i64)
    requires
        path_len <= 4_000_000_000_000_000_000,
    ensures
        s == spec_lookup_branch_score(*grid, path_len as int),
{
    let features = Features::from_grid(grid);
    let reachable_rats = reachable_rat_count(grid);
    let unreachable: usize = if features.rats >= reachable_rats { features.rats - reachable_rats } else { 0 };
    let reachable_triggers = reachable_trigger_count(grid);
    let trapped = trapped_unreachable_rat_count(grid);
    let stranded: i64 = if unreachable > 0 && reachable_triggers == 0 {
        unreachable as i64 * 100_000_000_000
    } else {
        0
    };
    features.rats as i64 * 1_000_000_000 + unreachable as i64 * 20_000_000_000 + trapped as i64 * 80_000_000_000
        + stranded + resource_exhaustion_penalty(features) + features.webs as i64 * 10_000
        + features.planks as i64 * 5_000 + features.walls as i64 * 500 + path_len as i64
        - features.explosives as i64 * 50_000 - features.triggers as i64 * 20_000
}

/// Score of a board for the frontier search: like `spec_lookup_branch_score` with heavier
/// weights, a penalty when rats remain and none is in reach, one when at most one is in
/// reach and nothing is left to kill the rest, and credit for reachable rats, reachable
/// triggers, explosives, triggers and the cells the players can walk to.
pub open spec fn spec_fess_branch_score(g: Grid, path_len: int) -> int {
    let f = spec_features(g);
    let rr = reachable_count_of(g, CellClass::RatOrCyborg) as int;
    let rt = reachable_count_of(g, CellClass::AnyTrigger) as int;
    let ur = unreachable_rats(g);
    let dead_cleanup = if f.rats > 0 && rr == 0 { 2_000_000_000_000int } else { 0int };
    let stranded = if ur > 0 && rt == 0 { ur * 250_000_000_000 } else { 0 };
    let stuck = if f.rats > 0 && rr <= 1 && f.triggers == 0 && f.explosives == 0 { f.rats * 300_000_000_000 } else { 0 };
    f.rats * 2_000_000_000 + ur * 80_000_000_000 + trapped_count(g) * 300_000_000_000 + dead_cleanup + stranded + stuck
        + spec_resource_exhaustion_penalty(f) * 1_000 + f.webs * 5_000 + f.planks * 5_000 + path_len
        - rr * 5_000_000 - rt * 3_000_000 - f.explosives * 100_000 - f.triggers * 50_000
        - reachable_count_of(g, CellClass::AnyCell) * 1_000
}

/// Score of a board for the frontier search; see `spec_fess_branch_score`.
#[verifier::rlimit(30)]
pub fn fess_branch_score(grid: &Grid, path_len: usize) -> (s: i64)
    requires
        path_len <= 4_000_000_000_000_000_000,
    ensures
        s == spec_fess_branch_score(*grid, path_len as int),
{
    let features = Features::from_grid(grid);
    let reachable_rats = reachable_rat_count(grid);
    let unreachable: usize = if features.rats >= reachable_rats { features.rats - reachable_rats } else { 0 };
    let trapped = trapped_unreachable_rat_count(grid);
    let reachable_triggers = reachable_trigger_count(grid);
    let dead_cleanup: i64 = if features.rats > 0 && reachable_rats == 0 { 2_000_000_000_000 } else { 0 };
    let stranded: i64 = if unreachable > 0 && reachable_triggers == 0 {
        unreachable as i64 * 250_000_000_000
    } else {
        0
    };
    let stuck: i64 = if features.rats > 0 && reachable_rats <= 1 && features.triggers == 0 && features.explosives == 0 {
        features.rats as i64 * 300_000_000_000
    } else {
        0
    };
    let cells = player_reachable_cell_count(grid);
    let weighted: i64 = features.rats as i64 * 2_000_000_000 + unreachable as i64 * 80_000_000_000
        + trapped as i64 * 300_000_000_000;
    let penalties: i64 = dead_cleanup + stranded + stuck + resource_exhaustion_penalty(features) * 1_000;
    let leftovers: i64 = features.webs as i64 * 5_000 + features.planks as i64 * 5_000;
    let credit: i64 = reachable_rats as i64 * 5_000_000 + reachable_triggers as i64 * 3_000_000
        + features.explosives as i64 * 100_000 + features.triggers as i64 * 50_000 + cells as i64 * 1_000;
    weighted + penalties + leftovers + path_len as i64 - credit
}

/// What it costs to go on to the next trigger: with a number wanted, 500 000 per step to
/// the nearest reachable trigger of that number, or 100 000 000 000 when none is reachable;
/// with none wanted, 0 when no trigger is left, else 100 000 per step to the nearest
/// reachable trigger, or 50 000 000 000 when none is reachable.
pub open spec fn spec_trigger_continuation_penalty(g: Grid, next_trigger: Option<u8>) -> int {
    match next_trigger {
        Some(number) => match min_dist(g, class_pred(g, CellClass::Exactly(CellKind::Trigger(number)))) {
            Some(d) => d * 500_000,
            None => 100_000_000_000,
        },
        None => if count_of(g, CellClass::AnyTrigger) == 0 {
            0
        } else {
            match min_dist(g, class_pred(g, CellClass::AnyTrigger)) {
                Some(d) => d * 100_000,
                None => 50_000_000_000,
            }
        },
    }
}

/// What it costs to go on to the next trigger; see `spec_trigger_continuation_penalty`.
pub fn trigger_continuation_penalty(grid: &Grid, next_trigger: Option<u8>) -> (p: i64)
    ensures
        p == spec_trigger_continuation_penalty(*grid, next_trigger),
{
    match next_trigger {
        Some(number) => match nearest_reachable_trigger_distance(grid, number) {
            Some(distance) => distance * 500_000,
            None => 100_000_000_000,
        },
        None => {
            if Features::from_grid(grid).triggers == 0 {
                0
            } else {
                match nearest_reachable_any_trigger_distance(grid) {
                    Some(distance) => distance * 100_000,
                    None => 50_000_000_000,
                }
            }
        },
    }
}

/// What a step from `before` to `after` gained: rats, webs, planks and triggers used up.
pub open spec fn spec_useful_gain(before: Features, after: Features) -> int {
    sat_sub(before.rats as int, after.rats as int) * 50_000_000 + sat_sub(before.webs as int, after.webs as int) * 200_000
        + sat_sub(before.planks as int, after.planks as int) * 200_000 + sat_sub(before.triggers as int, after.triggers as int) * 50_000
}

/// Branch score of a board for the trigger searches: the lookup branch score less what the
/// step from `before` to `after` gained.
pub fn trigger_branch_score(grid: &Grid, path_len: usize, before: Features, after: Features) -> (s: i64)
    requires
        path_len <= 4_000_000_000_000_000_000,
        spec_useful_gain(before, after) <= i64::MAX,
        spec_lookup_branch_score(*grid, path_len as int) - spec_useful_gain(before, after) >= i64::MIN,
    ensures
        s == spec_lookup_branch_score(*grid, path_len as int) - spec_useful_gain(before, after),
{
    let rats: usize = if before.rats >= after.rats { before.rats - after.rats } else { 0 };
    let webs: usize = if before.webs >= after.webs { before.webs - after.webs } else { 0 };
    let planks: usize = if before.planks >= after.planks { before.planks - after.planks } else { 0 };
    let triggers: usize = if before.triggers >= after.triggers { before.triggers - after.triggers } else { 0 };
    let gain = rats as i64 * 50_000_000 + webs as i64 * 200_000 + planks as i64 * 200_000 + triggers as i64 * 50_000;
    lookup_branch_score(grid, path_len) - gain
}

/// Rats remain, no explosive is left, and the players can walk to neither a rat nor a trigger.
pub open spec fn spec_lookup_dead_state(g: Grid) -> bool {
    let f = spec_features(g);
    f.rats > 0 && f.explosives == 0 && reachable_count_of(g, CellClass::RatOrCyborg) == 0
        && reachable_count_of(g, CellClass::AnyTrigger) == 0
}

/// Whether no rat can be killed any more by walking; see `spec_lookup_dead_state`.
pub fn lookup_dead_state(grid: &Grid) -> (b: bool)
    ensures
        b == spec_lookup_dead_state(*grid),
{
    let features = Features::from_grid(grid);
    features.rats > 0 && features.explosives == 0 && reachable_rat_count(grid) == 0 && reachable_trigger_count(grid) == 0
}

/// Rats remain, no explosive, trigger or plank is left, and some rat is trapped out of reach.
pub open spec fn spec_lookup_stranded_state(g: Grid) -> bool {
    let f = spec_features(g);
    f.rats > 0 && f.explosives == 0 && f.triggers == 0 && f.planks == 0 && trapped_count(g) > 0
}

/// Whether a rat is stranded for good; see `spec_lookup_stranded_state`.
pub fn lookup_stranded_state(grid: &Grid) -> (b: bool)
    ensures
        b == spec_lookup_stranded_state(*grid),
{
    let features = Features::from_grid(grid);
    features.rats > 0 && features.explosives == 0 && features.triggers == 0 && features.planks == 0
        && trapped_unreachable_rat_count(grid) > 0
}

/// The cells around `target` on the board of `g`.
pub open spec fn sources_around(g: &Grid, target: (i32, i32)) -> Seq<(int, int)> {
    source_cells(*g, target)
}

/// Board points as signed pairs.
pub open spec fn to_i32_points(ps: Seq<(int, int)>) -> Seq<(i32, i32)> {
    ps.map_values(|p: (int, int)| (p.0 as i32, p.1 as i32))
}

/// The cells around `target` that lie on the board, top left first.
pub open spec fn source_cells(g: Grid, target: (i32, i32)) -> Seq<(int, int)> {
    ring_on_board(g, ring(target.0 as int, target.1 as int), 8)
}

/// The sign of `v`.
pub open spec fn sgn(v: int) -> int {
    if v > 0 { 1 } else if v < 0 { -1 } else { 0 }
}

/// `(x, y)` lies beyond the source cell `s` on the far side from `target`, in both of the
/// directions in which `target` differs from `s`: a player there draws a rat at `s` onto
/// `target`.
pub open spec fn lure_aligned(x: int, y: int, s: (int, int), target: (i32, i32)) -> bool {
    let dx = sgn(target.0 - s.0);
    let dy = sgn(target.1 - s.1);
    &&& !(dx == 0 && dy == 0)
    &&& (dx == 0 || (dx > 0 && x > s.0) || (dx < 0 && x < s.0))
    &&& (dy == 0 || (dy > 0 && y > s.1) || (dy < 0 && y < s.1))
}

/// Cells lined up behind some source cell of `target`.
pub open spec fn lure_pred(g: Grid, target: (i32, i32)) -> spec_fn(int, int) -> bool {
    |x: int, y: int| exists|i: int| 0 <= i < source_cells(g, target).len()
        && lure_aligned(x, y, #[trigger] source_cells(g, target)[i], target)
}

/// Score for getting a rat to step onto `target`: 0 when a move does it (`step_ready`);
/// 1 000 000 000 when `target` has no cell around it on the board; otherwise 10 000 per
/// unit of distance from the rats to the cells around `target`, 1 000 per step to the
/// nearest cell lined up behind one of them (at most 1 000), and a thousandth of the
/// general score.
pub open spec fn spec_rat_step_ready_heuristic(g: Grid, target: (i32, i32), step_ready: bool, t: Tuning) -> int {
    let sources = source_cells(g, target);
    if step_ready {
        0
    } else if sources.len() == 0 {
        1_000_000_000
    } else {
        spec_nearest_pair(to_i32_points(positions_of(g, CellClass::RatOrCyborg)), to_i32_points(sources)) * 10_000
            + min_int(or_default(min_dist(g, lure_pred(g, target)), 1000), 1000) * 1_000
            + spec_heuristic(g, t) / 1_000
    }
}

/// Whether `(x, y)` lies behind one of the listed source cells of `target`.
fn lure_cell(sources: &Vec<(i32, i32)>, target: (i32, i32), x: usize, y: usize, Ghost(cells): Ghost<Seq<(int, int)>>) -> (b: bool)
    requires
        x <= MAX_SIDE,
        y <= MAX_SIDE,
        sources@.len() == cells.len(),
        forall|i: int| 0 <= i < cells.len() ==> (#[trigger] sources@[i].0 as int, sources@[i].1 as int) == cells[i],
    ensures
        b == exists|i: int| 0 <= i < cells.len() && lure_aligned(x as int, y as int, #[trigger] cells[i], target),
{
    let px = x as i64;
    let py = y as i64;
    let mut i: usize = 0;
    while i < sources.len()
        invariant
            i <= sources@.len(),
            px == x,
            py == y,
            sources@.len() == cells.len(),
            forall|j: int| 0 <= j < cells.len() ==> (#[trigger] sources@[j].0 as int, sources@[j].1 as int) == cells[j],
            forall|j: int| 0 <= j < i ==> !lure_aligned(x as int, y as int, #[trigger] cells[j], target),
        decreases sources@.len() - i,
    {
        let (sx, sy) = sources[i];
        let sx = sx as i64;
        let sy = sy as i64;
        let tx = target.0 as i64;
        let ty = target.1 as i64;
        let dx: i64 = if tx > sx { 1 } else if tx < sx { -1 } else { 0 };
        let dy: i64 = if ty > sy { 1 } else if ty < sy { -1 } else { 0 };
        let aligned = !(dx == 0 && dy == 0)
            && (dx == 0 || (dx > 0 && px > sx) || (dx < 0 && px < sx))
            && (dy == 0 || (dy > 0 && py > sy) || (dy < 0 && py < sy));
        proof {
            assert(cells[i as int] == (sx as int, sy as int));
        }
        if aligned {
            return true;
        }
        i = i + 1;
    }
    false
}

/// Score for getting a rat to step onto `target`; see `spec_rat_step_ready_heuristic`.
/// `step_ready` tells whether some move of all players puts a rat there at once.
pub fn rat_step_ready_heuristic(grid: &Grid, target: (i32, i32), step_ready: bool, tuning: Tuning) -> (h: i64)
    ensures
        h == spec_rat_step_ready_heuristic(*grid, target, step_ready, tuning),
        0 <= h <= 1_000_000_000_000_000,
{
    let ghost g = *grid;
    if step_ready {
        return 0;
    }
    let sources = adjacent_points(grid, target);
    if sources.len() == 0 {
        return 1_000_000_000;
    }
    let ghost cells = source_cells(g, target);
    let rats = rat_positions(grid);
    proof {
        assert(rats@ =~= to_i32_points(positions_of(g, CellClass::RatOrCyborg))) by {
            crate::scan::lemma_positions_of(g, CellClass::RatOrCyborg);
            assert forall|i: int| 0 <= i < rats@.len() implies rats@[i] == to_i32_points(positions_of(g, CellClass::RatOrCyborg))[i] by {
                let p = positions_of(g, CellClass::RatOrCyborg)[i];
                assert((rats@[i].0 as int, rats@[i].1 as int) == p);
            }
        }
        assert(sources@ =~= to_i32_points(cells)) by {
            assert forall|i: int| 0 <= i < sources@.len() implies sources@[i] == to_i32_points(cells)[i] by {
                assert((sources@[i].0 as int, sources@[i].1 as int) == cells[i]);
            }
        }
    }
    let rat_source_penalty = nearest_target_distance(&rats, &sources) * 10_000;
    let dist = player_dist_map(grid);
    let f = |x: usize, y: usize| -> (b: bool)
        requires
            grid.in_bounds(x as int, y as int),
            sources@.len() == sources_around(grid, target).len(),
            forall|i: int| 0 <= i < sources_around(grid, target).len() ==>
                (#[trigger] sources@[i].0 as int, sources@[i].1 as int) == sources_around(grid, target)[i],
        ensures
            b == lure_pred(*grid, target)(x as int, y as int),
        {
            grid.note_size_limit();
            lure_cell(&sources, target, x, y, Ghost(sources_around(grid, target)))
        };
    let mask = build_mask(grid, f, Ghost(lure_pred(g, target)));
    let near = nearest_mask(grid, &dist, &mask, Ghost(lure_pred(g, target)));
    let lure_penalty: i64 = match near {
        Some(d) => if d < 1000 { d } else { 1000 },
        None => 1000,
    };
    rat_source_penalty + lure_penalty * 1_000 + heuristic(grid, tuning) / 1_000
}

/// The dead-end charge of the general score falls only on boards where the players can walk
/// to no rat and no trigger: there every rat costs at least 251 000 000. Where a rat (or a
/// trigger) is in reach at some distance, and the `smart` and `progress` switches are off,
/// the score is at most 1 000 000 per rat, 2 000 per trigger and that distance; in
/// particular, with a rat in reach at distance `d` and no trigger, it is exactly
/// 1 000 000 per rat plus `d`. A board without rats scores 0.
pub proof fn law_dead_end_only_out_of_reach(g: Grid, t: Tuning)
    ensures
        count_of(g, CellClass::RatOrCyborg) == 0 ==> spec_heuristic(g, t) == 0,
        count_of(g, CellClass::RatOrCyborg) > 0
            && min_dist(g, class_pred(g, CellClass::RatOrCyborg)) is None
            && min_dist(g, class_pred(g, CellClass::AnyTrigger)) is None
            ==> spec_heuristic(g, t) >= count_of(g, CellClass::RatOrCyborg) * 251_000_000,
        min_dist(g, class_pred(g, CellClass::RatOrCyborg)) matches Some(d) ==> (
            count_of(g, CellClass::RatOrCyborg) > 0 && !t.smart && !t.progress
            ==> spec_heuristic(g, t) <= count_of(g, CellClass::RatOrCyborg) * 1_000_000
                + count_of(g, CellClass::AnyTrigger) * 2_000 + d),
        min_dist(g, class_pred(g, CellClass::AnyTrigger)) matches Some(d) ==> (
            count_of(g, CellClass::RatOrCyborg) > 0 && !t.smart && !t.progress
            ==> spec_heuristic(g, t) <= count_of(g, CellClass::RatOrCyborg) * 1_000_000
                + count_of(g, CellClass::AnyTrigger) * 2_000 + d),
        min_dist(g, class_pred(g, CellClass::RatOrCyborg)) matches Some(d) ==> (
            count_of(g, CellClass::RatOrCyborg) > 0 && !t.smart && !t.progress
            && count_of(g, CellClass::AnyTrigger) == 0
            ==> spec_heuristic(g, t) == count_of(g, CellClass::RatOrCyborg) * 1_000_000 + d),
{
    let rats = count_of(g, CellClass::RatOrCyborg) as int;
    if count_of(g, CellClass::AnyTrigger) == 0 {
        lemma_no_class_no_dist(g, CellClass::AnyTrigger);
    }
    assert(rats * 251_000_000 == rats * 1_000_000 + rats * 250_000_000);
}

/// With no cell of a class on the board, the players can walk to none.
proof fn lemma_no_class_no_dist(g: Grid, c: CellClass)
    requires
        count_of(g, c) == 0,
    ensures
        min_dist(g, class_pred(g, c)) is None,
{
    if exists|x: int, y: int| #[trigger] crate::nearest::open_cell(g, class_pred(g, c), x, y) {
        let (x, y) = choose|x: int, y: int| #[trigger] crate::nearest::open_cell(g, class_pred(g, c), x, y);
        crate::scan::lemma_board_points(g, class_pred(g, c));
        assert(board_points(g, class_pred(g, c)).contains((x, y)));
        assert(false);
    }
}

/// The `smart` switch adds to the general score of a board with rats exactly 25 000 000 per
/// rat and 500 000 per trigger out of the players' reach and 100 000 000 per trapped rat;
/// the `progress` switch adds exactly 300 per explosive and 100 per web. No other switch
/// changes the score.
pub proof fn law_score_switches(g: Grid, t: Tuning)
    requires
        count_of(g, CellClass::RatOrCyborg) > 0,
    ensures
        spec_heuristic(g, Tuning { smart: true, ..t }) == spec_heuristic(g, Tuning { smart: false, ..t })
            + unreachable_count_of(g, CellClass::RatOrCyborg) * 25_000_000 + trapped_count(g) * 100_000_000
            + unreachable_count_of(g, CellClass::AnyTrigger) * 500_000,
        spec_heuristic(g, Tuning { progress: true, ..t }) == spec_heuristic(g, Tuning { progress: false, ..t })
            + count_of(g, CellClass::Exactly(CellKind::Explosive)) * 300
            + count_of(g, CellClass::Exactly(CellKind::Spiderweb)) * 100,
        spec_heuristic(g, t) == spec_heuristic(g, Tuning { trap: false, strict: false, rect_lower: false, lure: false, ..t }),
{
}

} // verus!
