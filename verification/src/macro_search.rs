//! The search over events: each step of it is a whole event search from a board, and the
//! boards the events reach are taken lowest event score plus turns first, as a sequence of
//! decisions.

use vstd::prelude::*;
use vstd::multiset::Multiset;
use std::collections::HashSet;
use crate::model::{Action, Grid};
use crate::actions::turns_view;
use crate::open_list::{Entry, OpenList, leaves_before};
use crate::heuristics::{spec_lookup_branch_score, lookup_branch_score};
use crate::beam_search::{copy_turns, join_turns};

verus! {

broadcast use vstd::std_specs::hash::group_hash_axioms;

/// A board an event reached, and the turns to it from the start.
pub struct MacroNode {
    pub grid: Grid,
    pub path: Vec<Vec<Action>>,
}

/// What to do next.
#[derive(Clone, Copy, Debug, PartialEq, Eq, Structural)]
pub enum MacroNext {
    /// Search the events from this node.
    Expand(usize),
    /// As many boards as allowed are stored: the search ends.
    Limit,
    /// The frontier is empty: the search ends.
    Exhausted,
}

/// What became of an event.
pub enum MacroOffer {
    /// No rat is left: the turns from the start.
    Solved(Vec<Vec<Action>>),
    /// Its board was met before; nothing changed.
    Skipped,
    /// Its priority does not fit a 64-bit integer; its board is noted as met.
    Unscored,
    /// Stored as this node and added to the frontier.
    Added(usize),
}

/// The state of a search over events.
pub struct MacroSearch {
    nodes: Vec<MacroNode>,
    visited: HashSet<u64>,
    open: OpenList,
    max_nodes: usize,
    best_score: i64,
    best_idx: usize,
}

impl MacroSearch {
    pub closed spec fn well_formed(&self) -> bool {
        &&& self.nodes@.len() >= 1
        &&& self.best_idx < self.nodes@.len()
        &&& forall|e: Entry| self.open@.count(e) > 0 ==> e.idx < self.nodes@.len()
    }

    pub closed spec fn nodes(&self) -> Seq<MacroNode> {
        self.nodes@
    }

    pub closed spec fn visited(&self) -> Set<u64> {
        self.visited@
    }

    pub closed spec fn open(&self) -> Multiset<Entry> {
        self.open@
    }

    pub closed spec fn max_nodes(&self) -> usize {
        self.max_nodes
    }

    pub closed spec fn best_score(&self) -> i64 {
        self.best_score
    }

    pub closed spec fn best_idx(&self) -> usize {
        self.best_idx
    }

    /// A search from `root` (hash `root_hash`) storing at most `max_nodes` boards, the root
    /// in its frontier at its branch score, and the best so far.
    pub fn new(root: Grid, root_hash: u64, max_nodes: usize) -> (s: Self)
        ensures
            s.well_formed(),
            s.nodes().len() == 1,
            s.nodes()[0].grid == root,
            s.nodes()[0].path@.len() == 0,
            s.visited() == Set::<u64>::empty().insert(root_hash),
            s.max_nodes() == max_nodes,
            s.best_idx() == 0,
            s.best_score() == spec_lookup_branch_score(root, 0),
            s.open() == Multiset::<Entry>::empty().insert(Entry { f: s.best_score(), g: 0, idx: 0 }),
    {
        let h0 = lookup_branch_score(&root, 0);
        let mut nodes: Vec<MacroNode> = Vec::new();
        nodes.push(MacroNode { grid: root, path: Vec::new() });
        let mut visited: HashSet<u64> = HashSet::new();
        visited.insert(root_hash);
        let mut open = OpenList::new();
        open.push(Entry { f: h0, g: 0, idx: 0 });
        MacroSearch { nodes, visited, open, max_nodes, best_score: h0, best_idx: 0 }
    }

    /// Number of stored boards.
    pub fn size(&self) -> (n: usize)
        ensures
            n == self.nodes().len(),
    {
        self.nodes.len()
    }

    /// The board stored as node `i`.
    pub fn grid(&self, i: usize) -> (g: &Grid)
        requires
            i < self.nodes().len(),
        ensures
            *g == self.nodes()[i as int].grid,
    {
        &self.nodes[i].grid
    }

    /// The turns to node `i`.
    pub fn path(&self, i: usize) -> (p: Vec<Vec<Action>>)
        requires
            i < self.nodes().len(),
        ensures
            turns_view(p@) == turns_view(self.nodes()[i as int].path@),
    {
        copy_turns(&self.nodes[i].path)
    }

    /// The lowest priority met so far.
    pub fn best(&self) -> (s: i64)
        ensures
            s == self.best_score(),
    {
        self.best_score
    }

    /// The turns to the board of lowest priority met so far.
    pub fn best_path(&self) -> (p: Vec<Vec<Action>>)
        requires
            self.well_formed(),
        ensures
            turns_view(p@) == turns_view(self.nodes()[self.best_idx() as int].path@),
    {
        copy_turns(&self.nodes[self.best_idx].path)
    }

    /// Takes the frontier's first entry; the search ends there when as many boards as
    /// allowed are stored.
    pub fn next(&mut self) -> (n: MacroNext)
        requires
            old(self).well_formed(),
        ensures
            final(self).well_formed(),
            final(self).nodes() == old(self).nodes(),
            final(self).visited() == old(self).visited(),
            final(self).max_nodes() == old(self).max_nodes(),
            final(self).best_score() == old(self).best_score(),
            final(self).best_idx() == old(self).best_idx(),
            old(self).open().len() == 0 ==> n == MacroNext::Exhausted && final(self).open() == old(self).open(),
            old(self).open().len() > 0 ==> exists|e: Entry| {
                &&& #[trigger] old(self).open().count(e) > 0
                &&& (forall|x: Entry| old(self).open().count(x) > 0 ==> leaves_before(e, x))
                &&& final(self).open() == old(self).open().remove(e)
                &&& (old(self).nodes().len() >= old(self).max_nodes() ==> n == MacroNext::Limit)
                &&& (old(self).nodes().len() < old(self).max_nodes() ==> n == MacroNext::Expand(e.idx))
            },
    {
        match self.open.pop() {
            None => MacroNext::Exhausted,
            Some(e) => {
                if self.nodes.len() >= self.max_nodes {
                    MacroNext::Limit
                } else {
                    MacroNext::Expand(e.idx)
                }
            },
        }
    }

    /// Decides what to do with an event found from node `parent`: the turns `event_path`
    /// reach the board `child` (hash `hash`), leaving `rats` rats, at event score `score`.
    /// With no rat left the search is solved; a board met before is skipped; any other is
    /// noted as met, and stored and added to the frontier at its score plus its number of
    /// turns from the start, becoming the best when that is lower than the best so far.
    pub fn offer(&mut self, parent: usize, event_path: Vec<Vec<Action>>, rats: usize, score: i64, child: Grid, hash: u64) -> (o: MacroOffer)
        requires
            old(self).well_formed(),
            parent < old(self).nodes().len(),
        ensures
            final(self).well_formed(),
            final(self).max_nodes() == old(self).max_nodes(),
            ({
                let path = turns_view(old(self).nodes()[parent as int].path@) + turns_view(event_path@);
                let f = score + path.len();
                if rats == 0 {
                    (o matches MacroOffer::Solved(p) && turns_view(p@) == path)
                } else if old(self).visited().contains(hash) {
                    o is Skipped
                } else if path.len() > i64::MAX || f > i64::MAX {
                    o is Unscored && final(self).visited() == old(self).visited().insert(hash)
                } else {
                    let i = old(self).nodes().len() as int;
                    &&& o == MacroOffer::Added(i as usize)
                    &&& final(self).visited() == old(self).visited().insert(hash)
                    &&& final(self).nodes().len() == i + 1
                    &&& final(self).nodes().drop_last() == old(self).nodes()
                    &&& final(self).nodes()[i].grid == child
                    &&& turns_view(final(self).nodes()[i].path@) == path
                    &&& final(self).open() == old(self).open().insert(Entry { f: f as i64, g: path.len() as i64, idx: i as usize })
                    &&& (f < old(self).best_score() ==> final(self).best_score() == f && final(self).best_idx() == i)
                    &&& (f >= old(self).best_score() ==> final(self).best_score() == old(self).best_score()
                        && final(self).best_idx() == old(self).best_idx())
                }
            }),
            !(o is Added) ==> {
                &&& final(self).nodes() == old(self).nodes()
                &&& final(self).open() == old(self).open()
                &&& final(self).best_score() == old(self).best_score()
                &&& final(self).best_idx() == old(self).best_idx()
            },
            (o is Solved || o is Skipped) ==> final(self).visited() == old(self).visited(),
    {
        let path = join_turns(&self.nodes[parent].path, event_path);
        if rats == 0 {
            return MacroOffer::Solved(path);
        }
        if self.visited.contains(&hash) {
            return MacroOffer::Skipped;
        }
        self.visited.insert(hash);
        let len = path.len();
        if len as u64 > 9_223_372_036_854_775_807u64 {
            return MacroOffer::Unscored;
        }
        let depth = len as i64;
        let f = match score.checked_add(depth) {
            Some(f) => f,
            None => return MacroOffer::Unscored,
        };
        let i = self.nodes.len();
        self.nodes.push(MacroNode { grid: child, path });
        if f < self.best_score {
            self.best_score = f;
            self.best_idx = i;
        }
        self.open.push(Entry { f, g: depth, idx: i });
        proof {
            assert(self.nodes@.drop_last() =~= old(self).nodes@);
        }
        MacroOffer::Added(i)
    }
}

} // verus!
