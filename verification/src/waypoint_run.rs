//! Walking the players to a list of waypoints in turn, as a sequence of decisions: the walk
//! ends as soon as the level is won or no rat is left; after the last waypoint the level is
//! finished with a plain search. Whoever drives the run walks the players and runs the
//! finishing search.

use vstd::prelude::*;
use crate::model::{Action, Grid, PlayState};
use crate::cells::CellClass;
use crate::scan::count_of;
use crate::features::count_rats;
use crate::actions::turns_view;
use crate::beam_search::{copy_turns, join_turns};

verus! {

/// What to do next.
#[derive(Clone, Copy, Debug, PartialEq, Eq, Structural)]
pub enum WaypointNext {
    /// No rat is left: the run is over, along the turns so far.
    Cleared,
    /// Walk the players to the waypoint of this index, and report how it went.
    Walk(usize),
    /// Every waypoint was reached: finish the level with a plain search.
    Mop,
}

/// The state of a run.
pub struct WaypointRun {
    path: Vec<Vec<Action>>,
    count: usize,
    next_wp: usize,
    cleared: bool,
}

impl WaypointRun {
    pub closed spec fn path(&self) -> Seq<Seq<Action>> { turns_view(self.path@) }
    pub closed spec fn count(&self) -> usize { self.count }
    pub closed spec fn next_wp(&self) -> usize { self.next_wp }
    pub closed spec fn cleared(&self) -> bool { self.cleared }

    /// Whether a run can start after a prefix of `prefix_len` turns, of which `applied` were
    /// played, leaving the game in `state`: it can (`None`) when every turn was played and the
    /// game is still on; otherwise the answer is the prefix itself when the game is won
    /// (`Some(true)`), and no path at all when it is not (`Some(false)`).
    pub fn after_prefix(applied: usize, prefix_len: usize, state: PlayState) -> (r: Option<bool>)
        ensures
            (applied == prefix_len && state == PlayState::Playing) ==> r is None,
            !(applied == prefix_len && state == PlayState::Playing) ==> r == Some(state == PlayState::Won),
    {
        if applied != prefix_len || state != PlayState::Playing {
            Some(state == PlayState::Won)
        } else {
            None
        }
    }

    /// A run over `count` waypoints from the board `board` that the turns `prefix` reached;
    /// it is over at once when no rat is left there.
    pub fn new(prefix: Vec<Vec<Action>>, board: &Grid, count: usize) -> (r: Self)
        ensures
            r.path() == turns_view(prefix@),
            r.count() == count,
            r.next_wp() == 0,
            r.cleared() == (count_of(*board, CellClass::RatOrCyborg) == 0),
    {
        let cleared = count_rats(board) == 0;
        WaypointRun { path: prefix, count, next_wp: 0, cleared }
    }

    /// What to do next: nothing once no rat is left, the next waypoint while any remains,
    /// otherwise the finishing search.
    pub fn next(&self) -> (n: WaypointNext)
        ensures
            self.cleared() ==> n == WaypointNext::Cleared,
            !self.cleared() && self.next_wp() < self.count() ==> n == WaypointNext::Walk(self.next_wp()),
            !self.cleared() && self.next_wp() >= self.count() ==> n == WaypointNext::Mop,
    {
        if self.cleared {
            WaypointNext::Cleared
        } else if self.next_wp < self.count {
            WaypointNext::Walk(self.next_wp)
        } else {
            WaypointNext::Mop
        }
    }

    /// The players reached the waypoint by `moves`, ending on `board`: the moves join the
    /// run's turns and the next waypoint comes; the run is over when no rat is left.
    pub fn reached(&mut self, moves: Vec<Vec<Action>>, board: &Grid)
        requires
            old(self).next_wp() < old(self).count(),
        ensures
            final(self).path() == old(self).path() + turns_view(moves@),
            final(self).count() == old(self).count(),
            final(self).next_wp() == old(self).next_wp() + 1,
            final(self).cleared() == (count_of(*board, CellClass::RatOrCyborg) == 0),
    {
        let joined = join_turns(&self.path, moves);
        self.path = joined;
        self.next_wp = self.next_wp + 1;
        self.cleared = count_rats(board) == 0;
    }

    /// The turns of the run so far, then `moves`: the path when a walk or the finishing
    /// search wins with `moves`.
    pub fn finish(&self, moves: Vec<Vec<Action>>) -> (p: Vec<Vec<Action>>)
        ensures
            turns_view(p@) == self.path() + turns_view(moves@),
    {
        join_turns(&self.path, moves)
    }

    /// The turns of the run so far.
    pub fn turns(&self) -> (p: Vec<Vec<Action>>)
        ensures
            turns_view(p@) == self.path(),
    {
        copy_turns(&self.path)
    }
}

} // verus!
