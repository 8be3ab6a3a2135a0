//! The search that lures a rat onto a point while a player stands on a safe cell, best
//! first by the lure score, as a sequence of decisions.

use vstd::prelude::*;
use vstd::multiset::Multiset;
use std::collections::HashMap;
use crate::model::{Action, Grid, PlayState, MAX_SIDE};
use crate::cells::CellClass;
use crate::scan::{count_of, count_matching};
use crate::features::{spec_rat_at, player_at, lure_reached};
use crate::actions::turns_view;
use crate::search_tree::SearchTree;
use crate::open_list::{Entry, OpenList, leaves_before};
use crate::lure::{spec_lure_heuristic, lure_heuristic};
use crate::plain_search::Next;

verus! {

broadcast use vstd::std_specs::hash::group_hash_axioms;

/// The settings of a lure search.
pub struct LureParams {
    pub rat_target: (i32, i32),
    pub safe_targets: Vec<(i32, i32)>,
    /// Boards that lost a rat are dropped.
    pub preserve_rats: bool,
    pub initial_rats: usize,
    pub max_depth: usize,
    pub max_nodes: usize,
    /// Order by score alone; otherwise by depth plus weight times score.
    pub greedy: bool,
    pub weight: i64,
}

/// The lure is done: a rat on the point, and a player on a safe cell where any are given.
pub open spec fn lured(p: LureParams, g: Grid) -> bool {
    spec_rat_at(g, p.rat_target) && (p.safe_targets@.len() == 0
        || exists|i: int| 0 <= i < p.safe_targets@.len() && player_at(g, #[trigger] p.safe_targets@[i]))
}

/// The lure score of a board.
pub open spec fn lure_score(p: LureParams, g: Grid) -> int {
    spec_lure_heuristic(g, p.rat_target, p.safe_targets@, p.initial_rats)
}

/// The priority of a board of depth `nd` and score `h`.
pub open spec fn lure_priority(p: LureParams, nd: int, h: int) -> int {
    if p.greedy { h } else { nd + p.weight * h }
}

/// What became of a board one turn reached.
pub enum LureOffer {
    /// Lost, a rat lost where rats must be kept, or seen at no greater depth; nothing changed.
    Skipped,
    /// The tree is full; the search ends without a solution and nothing changed.
    NodeLimit,
    /// Won, or lured: the turns from the start.
    Solved(Vec<Vec<Action>>),
    /// Added to the tree and the frontier as this node.
    Added(usize),
    /// Added to the tree as this node and noted as seen, but its priority does not fit a
    /// 64-bit integer.
    Unscored(usize),
}

/// The state of a lure search.
pub struct LureSearch {
    tree: SearchTree,
    visited: HashMap<u64, u32>,
    open: OpenList,
    params: LureParams,
    best_h: i64,
    best_idx: usize,
}

impl LureSearch {
    pub closed spec fn well_formed(&self) -> bool {
        &&& self.tree.well_formed()
        &&& self.best_idx < self.tree.size()
        &&& forall|e: Entry| self.open@.count(e) > 0 ==> e.idx < self.tree.size()
        &&& self.params.initial_rats <= MAX_SIDE * MAX_SIDE
    }

    pub closed spec fn tree(&self) -> SearchTree {
        self.tree
    }

    pub closed spec fn visited(&self) -> Map<u64, u32> {
        self.visited@
    }

    pub closed spec fn open(&self) -> Multiset<Entry> {
        self.open@
    }

    pub closed spec fn params(&self) -> LureParams {
        self.params
    }

    pub closed spec fn best_h(&self) -> i64 {
        self.best_h
    }

    pub closed spec fn best_idx(&self) -> usize {
        self.best_idx
    }

    /// A search from `root` (hash `root_hash`), its frontier holding the root at its lure
    /// score.
    pub fn new(root: Grid, root_hash: u64, params: LureParams) -> (s: Self)
        requires
            params.initial_rats <= MAX_SIDE * MAX_SIDE,
        ensures
            s.well_formed(),
            s.tree().size() == 1,
            s.tree().grid_of(0) == root,
            s.params() == params,
            s.visited() == Map::<u64, u32>::empty().insert(root_hash, 0),
            s.best_idx() == 0,
            s.best_h() == lure_score(params, root),
            s.open() == Multiset::<Entry>::empty().insert(Entry { f: s.best_h(), g: 0, idx: 0 }),
    {
        let h0 = lure_heuristic(&root, params.rat_target, params.safe_targets.as_slice(), params.initial_rats);
        let tree = SearchTree::new(root);
        let mut visited: HashMap<u64, u32> = HashMap::new();
        visited.insert(root_hash, 0);
        let mut open = OpenList::new();
        open.push(Entry { f: h0, g: 0, idx: 0 });
        LureSearch { tree, visited, open, params, best_h: h0, best_idx: 0 }
    }

    /// Number of nodes.
    pub fn size(&self) -> (n: usize)
        ensures
            n == self.tree().size(),
    {
        self.tree.len()
    }

    /// The board at node `i`.
    pub fn grid(&self, i: usize) -> (g: &Grid)
        requires
            i < self.tree().size(),
        ensures
            *g == self.tree().grid_of(i as int),
    {
        self.tree.grid(i)
    }

    /// The depth of node `i`.
    pub fn depth(&self, i: usize) -> (d: u32)
        requires
            i < self.tree().size(),
        ensures
            d == self.tree().depth_of(i as int),
    {
        self.tree.depth(i)
    }

    /// The best score so far.
    pub fn best_score(&self) -> (h: i64)
        ensures
            h == self.best_h(),
    {
        self.best_h
    }

    /// The turns to the best scored node so far.
    pub fn best_path(&self) -> (p: Vec<Vec<Action>>)
        requires
            self.well_formed(),
        ensures
            turns_view(p@) == self.tree().path(self.best_idx() as int),
    {
        self.tree.reconstruct(self.best_idx)
    }

    /// Takes the frontier's first entry; it is dropped when the node was since reached at a
    /// smaller depth, or is as deep as `max_depth`.
    pub fn next(&mut self) -> (n: Next)
        requires
            old(self).well_formed(),
        ensures
            final(self).well_formed(),
            final(self).tree() == old(self).tree(),
            final(self).visited() == old(self).visited(),
            final(self).params() == old(self).params(),
            final(self).best_h() == old(self).best_h(),
            final(self).best_idx() == old(self).best_idx(),
            old(self).open().len() == 0 ==> n == Next::Exhausted && final(self).open() == old(self).open(),
            old(self).open().len() > 0 ==> exists|e: Entry| {
                &&& #[trigger] old(self).open().count(e) > 0
                &&& (forall|x: Entry| old(self).open().count(x) > 0 ==> leaves_before(e, x))
                &&& final(self).open() == old(self).open().remove(e)
                &&& ((old(self).tree().depth_of(e.idx as int) > e.g
                    || old(self).tree().depth_of(e.idx as int) >= old(self).params().max_depth) ==> n == Next::Dropped)
                &&& (!(old(self).tree().depth_of(e.idx as int) > e.g
                    || old(self).tree().depth_of(e.idx as int) >= old(self).params().max_depth) ==> n == Next::Expand(e.idx))
            },
    {
        match self.open.pop() {
            None => Next::Exhausted,
            Some(e) => {
                let d = self.tree.depth(e.idx);
                if d as i64 > e.g || d as usize >= self.params.max_depth {
                    Next::Dropped
                } else {
                    Next::Expand(e.idx)
                }
            },
        }
    }

    /// Decides what to do with the board `child` that the turn `action` reached from node
    /// `parent`, in play state `play_state`, with hash `hash`. A lost board is skipped; a won
    /// board solves the search; a board that lost a rat where rats must be kept, or that was
    /// seen at no greater depth, is skipped; a full tree ends the search; otherwise the board
    /// joins the tree, solves the search when lured, and else is noted at its depth and joins
    /// the frontier at its priority, becoming the best when it scores lower than the best so
    /// far.
    #[verifier::rlimit(40)]
    pub fn offer(&mut self, parent: usize, action: Vec<Action>, child: Grid, play_state: PlayState, hash: u64) -> (o: LureOffer)
        requires
            old(self).well_formed(),
            parent < old(self).tree().size(),
            old(self).tree().depth_of(parent as int) < u32::MAX,
            old(self).tree().size() < usize::MAX,
        ensures
            final(self).well_formed(),
            final(self).params() == old(self).params(),
            ({
                let p = old(self).params();
                let t0 = old(self).tree();
                let nd = t0.depth_of(parent as int) + 1;
                let h = lure_score(p, child);
                let f = lure_priority(p, nd, h);
                if play_state == PlayState::GameOver {
                    o is Skipped
                } else if play_state == PlayState::Won {
                    (o matches LureOffer::Solved(path) && turns_view(path@) == t0.path(parent as int).push(action@))
                } else if (p.preserve_rats && count_of(child, CellClass::RatOrCyborg) < p.initial_rats)
                    || (old(self).visited().contains_key(hash) && old(self).visited()[hash] <= nd) {
                    o is Skipped
                } else if t0.size() >= p.max_nodes {
                    o is NodeLimit
                } else if lured(p, child) {
                    (o matches LureOffer::Solved(path) && turns_view(path@) == t0.path(parent as int).push(action@))
                } else if f < i64::MIN || f > i64::MAX {
                    o == LureOffer::Unscored(t0.size() as usize)
                } else {
                    o == LureOffer::Added(t0.size() as usize)
                }
            }),
            (o is Skipped || o is NodeLimit) ==> {
                &&& final(self).tree() == old(self).tree()
                &&& final(self).visited() == old(self).visited()
                &&& final(self).open() == old(self).open()
                &&& final(self).best_h() == old(self).best_h()
                &&& final(self).best_idx() == old(self).best_idx()
            },
            (o is Added || o is Unscored) ==> {
                let t0 = old(self).tree();
                let i = t0.size();
                let nd = t0.depth_of(parent as int) + 1;
                &&& final(self).tree().size() == i + 1
                &&& final(self).tree().grid_of(i as int) == child
                &&& final(self).tree().path(i as int) == t0.path(parent as int).push(action@)
                &&& final(self).visited() == old(self).visited().insert(hash, nd as u32)
            },
            o is Unscored ==> {
                &&& final(self).open() == old(self).open()
                &&& final(self).best_h() == old(self).best_h()
                &&& final(self).best_idx() == old(self).best_idx()
            },
            o matches LureOffer::Added(i) ==> {
                let p = old(self).params();
                let nd = old(self).tree().depth_of(parent as int) + 1;
                let h = lure_score(p, child);
                &&& final(self).open() == old(self).open().insert(Entry { f: lure_priority(p, nd, h) as i64, g: nd as i64, idx: i })
                &&& (h < old(self).best_h() ==> final(self).best_h() == h && final(self).best_idx() == i)
                &&& (h >= old(self).best_h() ==> final(self).best_h() == old(self).best_h()
                    && final(self).best_idx() == old(self).best_idx())
            },
    {
        proof {
            self.tree.lemma_shape();
        }
        if play_state == PlayState::GameOver {
            return LureOffer::Skipped;
        }
        if play_state == PlayState::Won {
            let ghost old_tree = self.tree;
            let i = self.tree.push_child(parent, action, child);
            proof {
                SearchTree::lemma_path_stable(&old_tree, &self.tree, parent as int);
            }
            return LureOffer::Solved(self.tree.reconstruct(i));
        }
        if self.params.preserve_rats && count_matching(&child, CellClass::RatOrCyborg) < self.params.initial_rats {
            return LureOffer::Skipped;
        }
        let nd = self.tree.depth(parent) + 1;
        match self.visited.get(&hash) {
            Some(prev) => {
                if *prev <= nd {
                    return LureOffer::Skipped;
                }
            },
            None => {},
        }
        if self.tree.len() >= self.params.max_nodes {
            return LureOffer::NodeLimit;
        }
        let done = lure_reached(&child, self.params.rat_target, self.params.safe_targets.as_slice());
        let h = if done { 0 } else {
            lure_heuristic(&child, self.params.rat_target, self.params.safe_targets.as_slice(), self.params.initial_rats)
        };
        let ghost old_tree = self.tree;
        let i = self.tree.push_child(parent, action, child);
        proof {
            SearchTree::lemma_path_stable(&old_tree, &self.tree, parent as int);
        }
        if done {
            return LureOffer::Solved(self.tree.reconstruct(i));
        }
        self.visited.insert(hash, nd);
        let f: i64 = if self.params.greedy {
            h
        } else {
            let a: i128 = self.params.weight as i128;
            let b: i128 = h as i128;
            assert(-0x4000_0000_0000_0000_0000_0000_0000_0000 <= a * b <= 0x4000_0000_0000_0000_0000_0000_0000_0000) by (nonlinear_arith)
                requires
                    -0x8000_0000_0000_0000 <= a < 0x8000_0000_0000_0000,
                    -0x8000_0000_0000_0000 <= b < 0x8000_0000_0000_0000,
            {
                assert(a * b <= 0x8000_0000_0000_0000 * 0x8000_0000_0000_0000);
                assert(a * b >= -0x8000_0000_0000_0000 * 0x8000_0000_0000_0000);
            }
            let total = nd as i128 + a * b;
            if total < i64::MIN as i128 || total > i64::MAX as i128 {
                return LureOffer::Unscored(i);
            }
            total as i64
        };
        if h < self.best_h {
            self.best_h = h;
            self.best_idx = i;
        }
        self.open.push(Entry { f, g: nd as i64, idx: i });
        LureOffer::Added(i)
    }
}

} // verus!
