//! What one more turn from a board can do, decided from the outcomes of the turns tried:
//! win, bring a rat onto a point, set off an explosive, or kill a cyborg rat.

use vstd::prelude::*;
use crate::model::{CellKind, Dir4, Grid, PlayState};
use crate::cells::CellClass;
use crate::scan::count_of;
use crate::features::{Features, spec_rat_at, rat_at, count_players, count_cyborg_rats, count_normal_rats};

verus! {

/// What one turn from a board led to: the board reached and the play state after it.
pub struct Outcome {
    pub grid: Grid,
    pub play_state: PlayState,
}

/// The index of the first turn that wins, if any.
pub fn winning_action_index(outcomes: &Vec<Outcome>) -> (r: Option<usize>)
    ensures
        match r {
            Some(i) => i < outcomes@.len() && outcomes@[i as int].play_state == PlayState::Won
                && forall|j: int| 0 <= j < i ==> outcomes@[j].play_state != PlayState::Won,
            None => forall|j: int| 0 <= j < outcomes@.len() ==> outcomes@[j].play_state != PlayState::Won,
        },
{
    let mut i: usize = 0;
    while i < outcomes.len()
        invariant
            i <= outcomes@.len(),
            forall|j: int| 0 <= j < i ==> outcomes@[j].play_state != PlayState::Won,
        decreases outcomes@.len() - i,
    {
        if outcomes[i].play_state == PlayState::Won {
            return Some(i);
        }
        i = i + 1;
    }
    None
}

/// Some turn wins.
pub fn win_ready_from(outcomes: &Vec<Outcome>) -> (b: bool)
    ensures
        b == exists|j: int| 0 <= j < outcomes@.len() && outcomes@[j].play_state == PlayState::Won,
{
    winning_action_index(outcomes).is_some()
}

/// Some turn that does not lose leaves a rat on `target`.
pub fn rat_step_ready_from(outcomes: &Vec<Outcome>, target: (i32, i32)) -> (b: bool)
    ensures
        b == exists|j: int| 0 <= j < outcomes@.len() && outcomes@[j].play_state != PlayState::GameOver
            && spec_rat_at(outcomes@[j].grid, target),
{
    let mut i: usize = 0;
    while i < outcomes.len()
        invariant
            i <= outcomes@.len(),
            forall|j: int| 0 <= j < i ==> !(outcomes@[j].play_state != PlayState::GameOver
                && spec_rat_at(outcomes@[j].grid, target)),
        decreases outcomes@.len() - i,
    {
        if outcomes[i].play_state != PlayState::GameOver && rat_at(&outcomes[i].grid, target) {
            return true;
        }
        i = i + 1;
    }
    false
}

/// Number of explosives on a board.
pub open spec fn explosives_of(g: Grid) -> nat {
    count_of(g, CellClass::Exactly(CellKind::Explosive))
}

/// A turn brings a rat onto `target` in the layouts of the rat-step listing: the game is not
/// lost and a rat stands on the point.
pub fn shows_rat_step(target: (i32, i32), outcome: &Outcome) -> (b: bool)
    ensures
        b == (outcome.play_state != PlayState::GameOver && spec_rat_at(outcome.grid, target)),
{
    outcome.play_state != PlayState::GameOver && rat_at(&outcome.grid, target)
}

/// A turn kills a rat in the layouts of the rat-death listing: the game is not lost and fewer
/// rats are left than the `before_rats` the layout held.
pub fn shows_rat_death(before_rats: usize, outcome: &Outcome) -> (b: bool)
    ensures
        b == (outcome.play_state != PlayState::GameOver && count_of(outcome.grid, CellClass::RatOrCyborg) < before_rats),
{
    outcome.play_state != PlayState::GameOver && Features::from_grid(&outcome.grid).rats < before_rats
}

/// A turn sets an explosive off in the layouts of the ignition listing: the game goes on or
/// is won, and it is won or the board holds fewer explosives than `base_explosives`.
pub fn shows_ignition(base_explosives: usize, outcome: &Outcome) -> (b: bool)
    ensures
        b == (outcome.play_state != PlayState::GameOver
            && (outcome.play_state == PlayState::Won || explosives_of(outcome.grid) < base_explosives)),
{
    outcome.play_state != PlayState::GameOver
        && (outcome.play_state == PlayState::Won || Features::from_grid(&outcome.grid).explosives < base_explosives)
}

/// Some turn that does not lose leaves fewer explosives than `current` holds.
pub fn ignition_ready_from(current: &Grid, outcomes: &Vec<Outcome>) -> (b: bool)
    ensures
        b == exists|j: int| 0 <= j < outcomes@.len() && outcomes@[j].play_state != PlayState::GameOver
            && explosives_of(outcomes@[j].grid) < explosives_of(*current),
{
    let now = Features::from_grid(current).explosives;
    let mut i: usize = 0;
    while i < outcomes.len()
        invariant
            i <= outcomes@.len(),
            now == explosives_of(*current),
            forall|j: int| 0 <= j < i ==> !(outcomes@[j].play_state != PlayState::GameOver
                && explosives_of(outcomes@[j].grid) < explosives_of(*current)),
        decreases outcomes@.len() - i,
    {
        if outcomes[i].play_state != PlayState::GameOver && Features::from_grid(&outcomes[i].grid).explosives < now {
            return true;
        }
        i = i + 1;
    }
    false
}

/// The single moves tried for a cyborg kill: north, south, east and west, or only `direction`
/// where one is asked for.
pub open spec fn spec_kill_directions(direction: Option<Dir4>) -> Seq<Dir4> {
    match direction {
        Some(d) => seq![d],
        None => seq![Dir4::North, Dir4::South, Dir4::East, Dir4::West],
    }
}

/// The single moves tried for a cyborg kill.
pub fn cyborg_kill_directions(direction: Option<Dir4>) -> (dirs: Vec<Dir4>)
    ensures
        dirs@ == spec_kill_directions(direction),
{
    let mut dirs: Vec<Dir4> = Vec::new();
    match direction {
        Some(d) => dirs.push(d),
        None => {
            dirs.push(Dir4::North);
            dirs.push(Dir4::South);
            dirs.push(Dir4::East);
            dirs.push(Dir4::West);
        },
    }
    proof {
        assert(dirs@ =~= spec_kill_directions(direction));
    }
    dirs
}

/// A move that led from `current` to `o` kills a cyborg rat as asked: it does not lose, keeps
/// every player, leaves fewer cyborg rats, and, when asked, leaves an ordinary rat.
pub open spec fn kills_cyborg(current: Grid, o: Outcome, require_normal_rat: bool) -> bool {
    &&& o.play_state != PlayState::GameOver
    &&& count_of(o.grid, CellClass::Exactly(CellKind::Player)) == count_of(current, CellClass::Exactly(CellKind::Player))
    &&& count_of(o.grid, CellClass::Exactly(CellKind::CyborgRat)) < count_of(current, CellClass::Exactly(CellKind::CyborgRat))
    &&& (!require_normal_rat || count_of(o.grid, CellClass::Exactly(CellKind::Rat)) > 0)
}

/// Whether one of the moves tried, with outcomes `outcomes`, kills a cyborg rat as asked;
/// never on a board without cyborg rats, nor, when an ordinary rat must live, on one without
/// ordinary rats.
pub fn cyborg_kill_ready_from(current: &Grid, require_normal_rat: bool, outcomes: &Vec<Outcome>) -> (b: bool)
    ensures
        b == (count_of(*current, CellClass::Exactly(CellKind::CyborgRat)) > 0
            && (!require_normal_rat || count_of(*current, CellClass::Exactly(CellKind::Rat)) > 0)
            && exists|j: int| 0 <= j < outcomes@.len() && kills_cyborg(*current, #[trigger] outcomes@[j], require_normal_rat)),
{
    let cyborgs = count_cyborg_rats(current);
    if cyborgs == 0 {
        return false;
    }
    if require_normal_rat && count_normal_rats(current) == 0 {
        return false;
    }
    let players = count_players(current);
    let mut i: usize = 0;
    while i < outcomes.len()
        invariant
            i <= outcomes@.len(),
            cyborgs == count_of(*current, CellClass::Exactly(CellKind::CyborgRat)),
            cyborgs > 0,
            !require_normal_rat || count_of(*current, CellClass::Exactly(CellKind::Rat)) > 0,
            players == count_of(*current, CellClass::Exactly(CellKind::Player)),
            forall|j: int| 0 <= j < i ==> !kills_cyborg(*current, #[trigger] outcomes@[j], require_normal_rat),
        decreases outcomes@.len() - i,
    {
        let o = &outcomes[i];
        if o.play_state != PlayState::GameOver && count_players(&o.grid) == players
            && count_cyborg_rats(&o.grid) < cyborgs
            && (!require_normal_rat || count_normal_rats(&o.grid) > 0) {
            proof {
                assert(kills_cyborg(*current, outcomes@[i as int], require_normal_rat));
            }
            return true;
        }
        i = i + 1;
    }
    false
}

} // verus!
