//! The segment search that collects several ways of walking the first player to one point:
//! best first by depth plus the distance still to walk, every arrival at a new board kept,
//! as a sequence of decisions.

use vstd::prelude::*;
use vstd::multiset::Multiset;
use std::collections::{HashMap, HashSet};
use crate::model::{Action, Grid, PlayState};
use crate::geometry::{spec_manhattan, manhattan};
use crate::actions::turns_view;
use crate::search_tree::SearchTree;
use crate::open_list::{Entry, OpenList, leaves_before};
use crate::plain_search::Next;
use crate::segment_search::{players_of, player_points};
use crate::heuristics::{Tuning, spec_heuristic, heuristic};
use crate::beam::{is_stable_order, stable_order};

verus! {

broadcast use vstd::std_specs::hash::group_hash_axioms;

/// A way found: the tree node holding its board, the turns to it, and whether it won.
pub struct SegmentBranch {
    pub node: usize,
    pub path: Vec<Vec<Action>>,
    pub won: bool,
}

/// What became of a board one turn reached.
pub enum SegmentBranchOffer {
    /// Lost; nothing changed.
    Skipped,
    /// Won: added to the tree as this node and to the ways found; the rest of this
    /// expansion is not tried.
    Won(usize),
    /// Added to the tree only: without a player, at the point on a board already found, or
    /// seen at no greater depth.
    Kept(usize),
    /// At the point on a new board: added to the tree and to the ways found.
    Arrived(usize),
    /// Added to the tree and the frontier as this node.
    Added(usize),
}

/// The scores the ways found are ordered by: the general score of the board plus the
/// number of turns.
pub open spec fn branch_scores(tree: SearchTree, found: Seq<SegmentBranch>, tuning: Tuning) -> Seq<i64> {
    found.map_values(|b: SegmentBranch| (spec_heuristic(tree.grid_of(b.node as int), tuning) + b.path@.len()) as i64)
}

/// The state of a search collecting ways to a point.
pub struct SegmentBranchSearch {
    tree: SearchTree,
    visited: HashMap<u64, u32>,
    reached: HashSet<u64>,
    found: Vec<SegmentBranch>,
    open: OpenList,
    target: (i32, i32),
    max_results: usize,
}

impl SegmentBranchSearch {
    pub closed spec fn well_formed(&self) -> bool {
        &&& self.tree.well_formed()
        &&& forall|e: Entry| self.open@.count(e) > 0 ==> e.idx < self.tree.size()
        &&& forall|k: int| #![trigger self.found@[k]] 0 <= k < self.found@.len()
            ==> self.found@[k].path@.len() <= u32::MAX && self.found@[k].node < self.tree.size()
    }

    pub closed spec fn tree(&self) -> SearchTree {
        self.tree
    }

    pub closed spec fn visited(&self) -> Map<u64, u32> {
        self.visited@
    }

    pub closed spec fn reached(&self) -> Set<u64> {
        self.reached@
    }

    pub closed spec fn found(&self) -> Seq<SegmentBranch> {
        self.found@
    }

    pub closed spec fn open(&self) -> Multiset<Entry> {
        self.open@
    }

    pub closed spec fn target(&self) -> (i32, i32) {
        self.target
    }

    pub closed spec fn max_results(&self) -> usize {
        self.max_results
    }

    /// A search from `start` (hash `start_hash`) for ways to `target`, ending once
    /// `max_results` were found, with the start in its frontier at the first player's
    /// distance to the point; `None` where the start board has no player.
    pub fn new(start: Grid, start_hash: u64, target: (i32, i32), max_results: usize) -> (r: Option<Self>)
        ensures
            r is Some <==> players_of(start).len() > 0,
            r matches Some(s) ==> {
                &&& s.well_formed()
                &&& s.tree().size() == 1
                &&& s.tree().grid_of(0) == start
                &&& s.visited() == Map::<u64, u32>::empty().insert(start_hash, 0)
                &&& s.reached() == Set::<u64>::empty()
                &&& s.found().len() == 0
                &&& s.target() == target
                &&& s.max_results() == max_results
                &&& s.open() == Multiset::<Entry>::empty().insert(
                    Entry { f: spec_manhattan(players_of(start)[0], target) as i64, g: 0, idx: 0 })
            },
    {
        let ps = player_points(&start);
        if ps.len() == 0 {
            return None;
        }
        let d = manhattan(ps[0], target);
        let tree = SearchTree::new(start);
        let mut visited: HashMap<u64, u32> = HashMap::new();
        visited.insert(start_hash, 0);
        let mut open = OpenList::new();
        open.push(Entry { f: d, g: 0, idx: 0 });
        Some(SegmentBranchSearch {
            tree,
            visited,
            reached: HashSet::new(),
            found: Vec::new(),
            open,
            target,
            max_results,
        })
    }

    /// Number of nodes.
    pub fn size(&self) -> (n: usize)
        ensures
            n == self.tree().size(),
    {
        self.tree.len()
    }

    /// The board at node `i`.
    pub fn grid(&self, i: usize) -> (g: &Grid)
        requires
            i < self.tree().size(),
        ensures
            *g == self.tree().grid_of(i as int),
    {
        self.tree.grid(i)
    }

    /// The depth of node `i`.
    pub fn depth(&self, i: usize) -> (d: u32)
        requires
            i < self.tree().size(),
        ensures
            d == self.tree().depth_of(i as int),
    {
        self.tree.depth(i)
    }

    /// The ways found so far, in the order found.
    pub fn ways(&self) -> (f: &Vec<SegmentBranch>)
        ensures
            f@ == self.found(),
    {
        &self.found
    }

    /// Ends the search once enough ways were found; otherwise takes the frontier's first
    /// entry, dropped when the node was since reached at a smaller depth.
    pub fn next(&mut self) -> (n: Next)
        requires
            old(self).well_formed(),
        ensures
            final(self).well_formed(),
            final(self).tree() == old(self).tree(),
            final(self).visited() == old(self).visited(),
            final(self).reached() == old(self).reached(),
            final(self).found() == old(self).found(),
            final(self).target() == old(self).target(),
            final(self).max_results() == old(self).max_results(),
            (old(self).found().len() >= old(self).max_results() || old(self).open().len() == 0)
                ==> n == Next::Exhausted && final(self).open() == old(self).open(),
            (old(self).found().len() < old(self).max_results() && old(self).open().len() > 0) ==> exists|e: Entry| {
                &&& #[trigger] old(self).open().count(e) > 0
                &&& (forall|x: Entry| old(self).open().count(x) > 0 ==> leaves_before(e, x))
                &&& final(self).open() == old(self).open().remove(e)
                &&& (old(self).tree().depth_of(e.idx as int) > e.g ==> n == Next::Dropped)
                &&& (old(self).tree().depth_of(e.idx as int) <= e.g ==> n == Next::Expand(e.idx))
            },
    {
        if self.found.len() >= self.max_results {
            return Next::Exhausted;
        }
        match self.open.pop() {
            None => Next::Exhausted,
            Some(e) => {
                if self.tree.depth(e.idx) as i64 > e.g {
                    Next::Dropped
                } else {
                    Next::Expand(e.idx)
                }
            },
        }
    }

    /// Decides what to do with the board `child` that the turn `action` reached from node
    /// `parent`, in play state `play_state`, with hash `hash`: a lost board is skipped; any
    /// other joins the tree. A won board is a way found (and ends the expansion); so is one
    /// whose first player stands on the point, when its board was not found before. A board
    /// whose first player is elsewhere and that was not seen at a smaller depth is noted at
    /// its depth and joins the frontier at its depth plus the distance left.
    #[verifier::rlimit(40)]
    pub fn offer(&mut self, parent: usize, action: Vec<Action>, child: Grid, play_state: PlayState, hash: u64) -> (o: SegmentBranchOffer)
        requires
            old(self).well_formed(),
            parent < old(self).tree().size(),
            old(self).tree().depth_of(parent as int) < u32::MAX,
            old(self).tree().size() < usize::MAX,
        ensures
            final(self).well_formed(),
            final(self).target() == old(self).target(),
            final(self).max_results() == old(self).max_results(),
            ({
                let t0 = old(self).tree();
                let i = t0.size() as usize;
                let nd = t0.depth_of(parent as int) + 1;
                let path = t0.path(parent as int).push(action@);
                let ps = players_of(child);
                let t = old(self).target();
                if play_state == PlayState::GameOver {
                    o is Skipped
                } else if play_state == PlayState::Won {
                    o == SegmentBranchOffer::Won(i)
                } else if ps.len() == 0 {
                    o == SegmentBranchOffer::Kept(i)
                } else if ps[0] == t {
                    if old(self).reached().contains(hash) {
                        o == SegmentBranchOffer::Kept(i)
                    } else {
                        o == SegmentBranchOffer::Arrived(i) && final(self).reached() == old(self).reached().insert(hash)
                    }
                } else if old(self).visited().contains_key(hash) && old(self).visited()[hash] <= nd {
                    o == SegmentBranchOffer::Kept(i)
                } else {
                    &&& o == SegmentBranchOffer::Added(i)
                    &&& final(self).visited() == old(self).visited().insert(hash, nd as u32)
                    &&& final(self).open() == old(self).open().insert(
                        Entry { f: (nd + spec_manhattan(ps[0], t)) as i64, g: nd as i64, idx: i })
                }
            }),
            o is Skipped ==> final(self).tree() == old(self).tree(),
            !(o is Skipped) ==> {
                let t0 = old(self).tree();
                &&& final(self).tree().size() == t0.size() + 1
                &&& final(self).tree().grid_of(t0.size() as int) == child
                &&& final(self).tree().path(t0.size() as int) == t0.path(parent as int).push(action@)
            },
            (o is Won || o is Arrived) ==> {
                &&& final(self).found().len() == old(self).found().len() + 1
                &&& final(self).found().drop_last() == old(self).found()
                &&& final(self).found().last().node == old(self).tree().size()
                &&& turns_view(final(self).found().last().path@) == old(self).tree().path(parent as int).push(action@)
                &&& final(self).found().last().won == (o is Won)
            },
            !(o is Won || o is Arrived) ==> final(self).found() == old(self).found(),
            !(o is Arrived) ==> final(self).reached() == old(self).reached(),
            !(o is Added) ==> final(self).visited() == old(self).visited() && final(self).open() == old(self).open(),
    {
        proof {
            self.tree.lemma_shape();
        }
        if play_state == PlayState::GameOver {
            return SegmentBranchOffer::Skipped;
        }
        let nd = self.tree.depth(parent) + 1;
        let ps = player_points(&child);
        let ghost old_tree = self.tree;
        let i = self.tree.push_child(parent, action, child);
        proof {
            SearchTree::lemma_path_stable(&old_tree, &self.tree, parent as int);
        }
        if play_state == PlayState::Won {
            let path = self.tree.reconstruct(i);
            self.found.push(SegmentBranch { node: i, path, won: true });
            return SegmentBranchOffer::Won(i);
        }
        if ps.len() == 0 {
            return SegmentBranchOffer::Kept(i);
        }
        let p = ps[0];
        if p.0 == self.target.0 && p.1 == self.target.1 {
            if self.reached.contains(&hash) {
                return SegmentBranchOffer::Kept(i);
            }
            self.reached.insert(hash);
            let path = self.tree.reconstruct(i);
            self.found.push(SegmentBranch { node: i, path, won: false });
            return SegmentBranchOffer::Arrived(i);
        }
        match self.visited.get(&hash) {
            Some(prev) => {
                if *prev <= nd {
                    return SegmentBranchOffer::Kept(i);
                }
            },
            None => {},
        }
        self.visited.insert(hash, nd);
        let d = manhattan(p, self.target);
        self.open.push(Entry { f: nd as i64 + d, g: nd as i64, idx: i });
        SegmentBranchOffer::Added(i)
    }

    /// The ways found, as indices into `ways()`, in ascending order of the general score of
    /// their board plus their number of turns, ties in the order found.
    pub fn ordered_ways(&self, tuning: Tuning) -> (ord: Vec<usize>)
        requires
            self.well_formed(),
        ensures
            is_stable_order(branch_scores(self.tree(), self.found(), tuning), ord@),
    {
        let mut scores: Vec<i64> = Vec::new();
        let mut k: usize = 0;
        while k < self.found.len()
            invariant
                self.well_formed(),
                k <= self.found@.len(),
                scores@.len() == k,
                forall|j: int| 0 <= j < k ==> #[trigger] scores@[j] == branch_scores(self.tree, self.found@, tuning)[j],
            decreases self.found@.len() - k,
        {
            let b = &self.found[k];
            let h = heuristic(self.tree.grid(b.node), tuning);
            scores.push(h + b.path.len() as i64);
            k = k + 1;
        }
        proof {
            assert(scores@ =~= branch_scores(self.tree, self.found@, tuning));
        }
        stable_order(&scores)
    }
}

} // verus!
