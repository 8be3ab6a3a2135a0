//! The plain win search, breadth-first or best-first by the general score, as a sequence of
//! decisions: which node to expand next, and what to do with each board one turn reaches.
//! Whoever drives the search plays the turns and reports the boards back.

use vstd::prelude::*;
use vstd::multiset::Multiset;
use std::collections::{HashMap, VecDeque};
use crate::model::{Action, CellKind, Grid, PlayState};
use crate::cells::CellClass;
use crate::scan::count_of;
use crate::actions::turns_view;
use crate::search_tree::{SearchTree, breadth_first_queue, lemma_pop_level, lemma_push_level};
use crate::open_list::{Entry, OpenList};
use crate::heuristics::{Tuning, spec_heuristic, heuristic};
use crate::text::chars_of;

verus! {

broadcast use vstd::std_specs::hash::group_hash_axioms;

/// How the plain search orders its frontier.
#[derive(Clone, Copy, Debug, PartialEq, Eq, Structural)]
pub enum Strategy {
    /// Breadth first.
    Bfs,
    /// Greedy: lowest score first.
    Gbfs,
    /// Weighted A*: lowest depth plus weight times score first.
    Astar,
}

/// The strategy a name selects: `bfs`, `gbfs`, and weighted A* for any other name.
pub open spec fn spec_strategy(s: Seq<char>) -> Strategy {
    if s == "bfs"@ { Strategy::Bfs } else if s == "gbfs"@ { Strategy::Gbfs } else { Strategy::Astar }
}

impl Strategy {
    /// Reads a strategy name; see `spec_strategy`.
    pub fn parse(input: &str) -> (s: Strategy)
        ensures
            s == spec_strategy(input@),
    {
        let c = chars_of(input);
        if crate::text::eq_lit(&c, "bfs") {
            Strategy::Bfs
        } else if crate::text::eq_lit(&c, "gbfs") {
            Strategy::Gbfs
        } else {
            Strategy::Astar
        }
    }
}

/// What became of a board one turn reached.
pub enum Offer {
    /// The board was lost, or reached before at no greater depth; nothing changed.
    Skipped,
    /// The board was added to the tree and the frontier as this node.
    Added(usize),
    /// The board is won; these are the turns from the start.
    Solved(Vec<Vec<Action>>),
    /// The board's priority does not fit a 64-bit integer; nothing changed.
    Overflow,
}

/// What to do next.
#[derive(Clone, Copy, Debug, PartialEq, Eq, Structural)]
pub enum Next {
    /// The frontier is empty: the search failed.
    Exhausted,
    /// An entry was dropped without expanding it (too deep, or out of date).
    Dropped,
    /// Play every turn from this node and offer the boards reached.
    Expand(usize),
}

/// The search's state: its tree, the depth each board was first reached at (by its hash),
/// its frontier, and the best scored node so far.
pub struct PlainSearch {
    tree: SearchTree,
    visited: HashMap<u64, u32>,
    queue: VecDeque<usize>,
    open: OpenList,
    strategy: Strategy,
    weight: i64,
    max_depth: usize,
    tuning: Tuning,
    best_h: i64,
    best_idx: usize,
    level: u32,
}

/// The priority of a board of depth `ng` and score `h`.
pub open spec fn priority(strategy: Strategy, weight: i64, ng: int, h: int) -> int {
    if strategy == Strategy::Gbfs { h } else { ng + weight * h }
}

impl PlainSearch {
    /// The frontier's nodes all lie in the tree and the best node does too; no node lies
    /// deeper than the depth limit.
    pub closed spec fn well_formed(&self) -> bool {
        &&& self.tree.well_formed()
        &&& self.best_idx < self.tree.size()
        &&& forall|i: int| 0 < i < self.tree.size() ==> (#[trigger] self.tree.action_of(i)).len()
            == count_of(self.tree.grid_of(0), CellClass::Exactly(CellKind::Player))
        &&& forall|i: int| 0 <= i < self.tree.size() ==> #[trigger] self.tree.depth_of(i) <= self.max_depth
        &&& forall|i: int| 0 <= i < self.queue@.len() ==> #[trigger] self.queue@[i] < self.tree.size()
        &&& forall|e: Entry| self.open@.count(e) > 0 ==> e.idx < self.tree.size()
        &&& (self.strategy == Strategy::Bfs ==> breadth_first_queue(self.tree, self.queue@, self.level as int))
    }

    pub closed spec fn tree(&self) -> SearchTree {
        self.tree
    }

    pub closed spec fn visited(&self) -> Map<u64, u32> {
        self.visited@
    }

    pub closed spec fn queue(&self) -> Seq<usize> {
        self.queue@
    }

    pub closed spec fn open(&self) -> Multiset<Entry> {
        self.open@
    }

    pub closed spec fn strategy(&self) -> Strategy {
        self.strategy
    }

    pub closed spec fn weight(&self) -> i64 {
        self.weight
    }

    pub closed spec fn max_depth(&self) -> usize {
        self.max_depth
    }

    pub closed spec fn tuning(&self) -> Tuning {
        self.tuning
    }

    pub closed spec fn best_h(&self) -> i64 {
        self.best_h
    }

    pub closed spec fn best_idx(&self) -> usize {
        self.best_idx
    }

    /// The depth of the node last taken from the queue (0 before any).
    pub closed spec fn level(&self) -> int {
        self.level as int
    }

    /// Number of players on the start board: the moves every turn holds.
    pub open spec fn players(&self) -> nat {
        count_of(self.tree().grid_of(0), CellClass::Exactly(CellKind::Player))
    }

    /// A search from `root`, whose hash is `root_hash`: the root is queued (breadth first) or
    /// put in the open list with its score as priority and depth 0; the best node so far is
    /// the root.
    pub fn new(root: Grid, root_hash: u64, strategy: Strategy, weight: i64, max_depth: usize, tuning: Tuning) -> (s: Self)
        ensures
            s.well_formed(),
            s.tree().size() == 1,
            s.tree().grid_of(0) == root,
            s.visited() == Map::<u64, u32>::empty().insert(root_hash, 0),
            s.strategy() == strategy,
            s.weight() == weight,
            s.max_depth() == max_depth,
            s.tuning() == tuning,
            s.best_idx() == 0,
            s.level() == 0,
            strategy == Strategy::Bfs ==> s.queue() == seq![0usize] && s.open() == Multiset::<Entry>::empty(),
            strategy != Strategy::Bfs ==> s.queue() == Seq::<usize>::empty()
                && s.open() == Multiset::<Entry>::empty().insert(Entry { f: s.best_h(), g: 0, idx: 0 })
                && s.best_h() == spec_heuristic(root, tuning),
    {
        let h0 = if strategy == Strategy::Bfs { 0 } else { heuristic(&root, tuning) };
        let tree = SearchTree::new(root);
        let mut visited: HashMap<u64, u32> = HashMap::new();
        visited.insert(root_hash, 0);
        let mut queue: VecDeque<usize> = VecDeque::new();
        let mut open = OpenList::new();
        if strategy == Strategy::Bfs {
            queue.push_back(0);
        } else {
            open.push(Entry { f: h0, g: 0, idx: 0 });
        }
        proof {
            assert(queue@ =~= (if strategy == Strategy::Bfs { seq![0usize] } else { Seq::<usize>::empty() }));
            tree.lemma_shape();
        }
        PlainSearch { tree, visited, queue, open, strategy, weight, max_depth, tuning, best_h: h0, best_idx: 0, level: 0 }
    }

    /// Number of nodes in the tree.
    pub fn size(&self) -> (n: usize)
        ensures
            n == self.tree().size(),
    {
        self.tree.len()
    }

    /// The board at node `i`.
    pub fn grid(&self, i: usize) -> (g: &Grid)
        requires
            i < self.tree().size(),
        ensures
            *g == self.tree().grid_of(i as int),
    {
        self.tree.grid(i)
    }

    /// The depth of node `i`.
    pub fn depth(&self, i: usize) -> (d: u32)
        requires
            i < self.tree().size(),
        ensures
            d == self.tree().depth_of(i as int),
    {
        self.tree.depth(i)
    }

    /// The turns to the best scored node so far.
    pub fn best_path(&self) -> (p: Vec<Vec<Action>>)
        requires
            self.well_formed(),
        ensures
            turns_view(p@) == self.tree().path(self.best_idx() as int),
    {
        self.tree.reconstruct(self.best_idx)
    }

    /// Takes the next entry of the frontier: the front of the queue (breadth first) or a
    /// lowest-ranked entry of the open list. It is expanded unless its node lies at the depth
    /// limit or (best first) deeper than the entry records.
    pub fn next(&mut self) -> (n: Next)
        requires
            old(self).well_formed(),
        ensures
            final(self).well_formed(),
            final(self).tree() == old(self).tree(),
            final(self).visited() == old(self).visited(),
            final(self).best_h() == old(self).best_h(),
            final(self).best_idx() == old(self).best_idx(),
            final(self).strategy() == old(self).strategy(),
            final(self).weight() == old(self).weight(),
            final(self).max_depth() == old(self).max_depth(),
            final(self).tuning() == old(self).tuning(),
            old(self).strategy() == Strategy::Bfs ==> {
                &&& final(self).open() == old(self).open()
                &&& (old(self).queue().len() == 0 ==> n == Next::Exhausted && final(self).queue() == old(self).queue())
                &&& (old(self).queue().len() > 0 ==> {
                    let idx = old(self).queue()[0];
                    &&& final(self).queue() == old(self).queue().drop_first()
                    &&& final(self).level() == old(self).tree().depth_of(idx as int)
                    &&& forall|k: int| 0 <= k < final(self).queue().len() ==>
                        old(self).tree().depth_of(idx as int) <= old(self).tree().depth_of(#[trigger] final(self).queue()[k] as int)
                    &&& (old(self).tree().depth_of(idx as int) >= old(self).max_depth() ==> n == Next::Dropped)
                    &&& (old(self).tree().depth_of(idx as int) < old(self).max_depth() ==> n == Next::Expand(idx))
                })
            },
            old(self).strategy() != Strategy::Bfs ==> {
                &&& final(self).queue() == old(self).queue()
                &&& (old(self).open().len() == 0 ==> n == Next::Exhausted && final(self).open() == old(self).open())
                &&& (old(self).open().len() > 0 ==> exists|e: Entry| {
                    &&& #[trigger] old(self).open().count(e) > 0
                    &&& (forall|x: Entry| old(self).open().count(x) > 0 ==> crate::open_list::leaves_before(e, x))
                    &&& final(self).open() == old(self).open().remove(e)
                    &&& ((old(self).tree().depth_of(e.idx as int) > e.g
                        || old(self).tree().depth_of(e.idx as int) >= old(self).max_depth()) ==> n == Next::Dropped)
                    &&& (!(old(self).tree().depth_of(e.idx as int) > e.g
                        || old(self).tree().depth_of(e.idx as int) >= old(self).max_depth()) ==> n == Next::Expand(e.idx))
                })
            },
    {
        if self.strategy == Strategy::Bfs {
            match self.queue.pop_front() {
                None => Next::Exhausted,
                Some(idx) => {
                    proof {
                        assert(old(self).queue@[0] < self.tree.size());
                        assert(self.queue@ =~= old(self).queue@.drop_first());
                    }
                    self.level = self.tree.depth(idx);
                    proof {
                        lemma_pop_level(self.tree, old(self).queue@, old(self).level as int);
                    }
                    if self.tree.depth(idx) as usize >= self.max_depth {
                        Next::Dropped
                    } else {
                        Next::Expand(idx)
                    }
                },
            }
        } else {
            match self.open.pop() {
                None => Next::Exhausted,
                Some(e) => {
                    let d = self.tree.depth(e.idx);
                    if d as i64 > e.g || d as usize >= self.max_depth {
                        Next::Dropped
                    } else {
                        Next::Expand(e.idx)
                    }
                },
            }
        }
    }

    /// Decides what to do with the board `child` that the turn `action` reached from node
    /// `parent`, in play state `play_state`, with hash `hash`. A lost board is skipped; a won
    /// board ends the search with its path; breadth first, a board whose hash was seen is
    /// skipped and any other is queued; best first, a board seen at no greater depth is
    /// skipped, and any other is added with its priority, unless the priority overflows.
    pub fn offer(&mut self, parent: usize, action: Vec<Action>, child: Grid, play_state: PlayState, hash: u64) -> (o: Offer)
        requires
            old(self).well_formed(),
            parent < old(self).tree().size(),
            old(self).tree().depth_of(parent as int) < old(self).max_depth(),
            old(self).tree().depth_of(parent as int) < u32::MAX,
            old(self).tree().size() < usize::MAX,
            action@.len() == old(self).players(),
            old(self).strategy() == Strategy::Bfs ==> old(self).tree().depth_of(parent as int) == old(self).level(),
        ensures
            final(self).well_formed(),
            final(self).level() == old(self).level(),
            final(self).tree().grid_of(0) == old(self).tree().grid_of(0),
            o matches Offer::Solved(p) ==> old(self).strategy() == Strategy::Bfs ==> p@.len() == old(self).level() + 1
                && forall|k: int| 0 <= k < old(self).queue().len() ==>
                    p@.len() <= old(self).tree().depth_of(#[trigger] old(self).queue()[k] as int) + 1,
            o matches Offer::Solved(p) ==> p@.len() <= old(self).max_depth()
                && forall|k: int| 0 <= k < p@.len() ==> (#[trigger] p@[k])@.len() == old(self).players(),
            final(self).strategy() == old(self).strategy(),
            final(self).weight() == old(self).weight(),
            final(self).max_depth() == old(self).max_depth(),
            final(self).tuning() == old(self).tuning(),
            ({
                let ng = old(self).tree().depth_of(parent as int) + 1;
                let h = spec_heuristic(child, old(self).tuning());
                let f = priority(old(self).strategy(), old(self).weight(), ng, h);
                let seen = old(self).visited().contains_key(hash);
                if play_state == PlayState::GameOver {
                    o is Skipped
                } else if play_state == PlayState::Won {
                    o matches Offer::Solved(p) && turns_view(p@) == old(self).tree().path(parent as int).push(action@)
                } else if old(self).strategy() == Strategy::Bfs {
                    if seen {
                        o is Skipped
                    } else {
                        o == Offer::Added(old(self).tree().size() as usize)
                    }
                } else if seen && old(self).visited()[hash] <= ng {
                    o is Skipped
                } else if f < i64::MIN || f > i64::MAX {
                    o is Overflow
                } else {
                    o == Offer::Added(old(self).tree().size() as usize)
                }
            }),
            (o is Skipped || o is Overflow) ==> {
                &&& final(self).tree() == old(self).tree()
                &&& final(self).visited() == old(self).visited()
                &&& final(self).queue() == old(self).queue()
                &&& final(self).open() == old(self).open()
                &&& final(self).best_idx() == old(self).best_idx()
                &&& final(self).best_h() == old(self).best_h()
            },
            o matches Offer::Added(i) ==> {
                let ng = old(self).tree().depth_of(parent as int) + 1;
                let h = spec_heuristic(child, old(self).tuning());
                &&& final(self).tree().size() == old(self).tree().size() + 1
                &&& final(self).tree().grid_of(i as int) == child
                &&& final(self).tree().depth_of(i as int) == ng
                &&& final(self).tree().path(i as int) == old(self).tree().path(parent as int).push(action@)
                &&& final(self).visited() == old(self).visited().insert(hash, ng as u32)
                &&& (old(self).strategy() == Strategy::Bfs ==> {
                    &&& final(self).queue() == old(self).queue().push(i)
                    &&& final(self).open() == old(self).open()
                    &&& final(self).best_idx() == old(self).best_idx()
                    &&& final(self).best_h() == old(self).best_h()
                })
                &&& (old(self).strategy() != Strategy::Bfs ==> {
                    &&& final(self).queue() == old(self).queue()
                    &&& final(self).open() == old(self).open().insert(Entry {
                        f: priority(old(self).strategy(), old(self).weight(), ng, h) as i64, g: ng as i64, idx: i })
                    &&& (h < old(self).best_h() ==> final(self).best_h() == h && final(self).best_idx() == i)
                    &&& (h >= old(self).best_h() ==> final(self).best_h() == old(self).best_h()
                        && final(self).best_idx() == old(self).best_idx())
                })
            },
    {
        proof {
            self.tree.lemma_shape();
        }
        let ng_u32 = self.tree.depth(parent) + 1;
        let ng = ng_u32 as i64;
        if play_state == PlayState::GameOver {
            return Offer::Skipped;
        }
        if play_state == PlayState::Won {
            let ghost old_tree = self.tree;
            let leaf = self.tree.push_child(parent, action, child);
            proof {
                SearchTree::lemma_path_stable(&old_tree, &self.tree, parent as int);
                self.tree.law_turns_of_width(leaf as int, self.players());
                if self.strategy == Strategy::Bfs {
                    lemma_push_level(old_tree, self.tree, self.queue@, self.level as int, leaf);
                }
            }
            let path = self.tree.reconstruct(leaf);
            proof {
                assert forall|k: int| 0 <= k < path@.len() implies (#[trigger] path@[k])@.len() == self.players() by {
                    assert(turns_view(path@)[k] == path@[k]@);
                }
            }
            return Offer::Solved(path);
        }
        if self.strategy == Strategy::Bfs {
            if self.visited.contains_key(&hash) {
                return Offer::Skipped;
            }
            self.visited.insert(hash, ng_u32);
            let ghost old_tree = self.tree;
            let ghost old_queue = self.queue@;
            let i = self.tree.push_child(parent, action, child);
            proof {
                SearchTree::lemma_path_stable(&old_tree, &self.tree, parent as int);
                lemma_push_level(old_tree, self.tree, old_queue, self.level as int, i);
            }
            self.queue.push_back(i);
            return Offer::Added(i);
        }
        let better = match self.visited.get(&hash) {
            None => true,
            Some(pg) => ng_u32 < *pg,
        };
        if !better {
            return Offer::Skipped;
        }
        let h = heuristic(&child, self.tuning);
        let f: i64 = if self.strategy == Strategy::Gbfs {
            h
        } else {
            proof {
                let w = self.weight as int;
                assert(-9_223_372_036_854_775_808 * 1_000_000_000_000_000_000 <= w * h
                    <= 9_223_372_036_854_775_807 * 1_000_000_000_000_000_000) by (nonlinear_arith)
                    requires -9_223_372_036_854_775_808 <= w <= 9_223_372_036_854_775_807, 0 <= h <= 1_000_000_000_000_000_000;
            }
            let wh = (self.weight as i128) * (h as i128);
            let total = ng as i128 + wh;
            if total < i64::MIN as i128 || total > i64::MAX as i128 {
                return Offer::Overflow;
            }
            total as i64
        };
        self.visited.insert(hash, ng_u32);
        let ghost old_tree = self.tree;
        let i = self.tree.push_child(parent, action, child);
        proof {
            SearchTree::lemma_path_stable(&old_tree, &self.tree, parent as int);
        }
        if h < self.best_h {
            self.best_h = h;
            self.best_idx = i;
        }
        self.open.push(Entry { f, g: ng, idx: i });
        Offer::Added(i)
    }

    /// The depth of the node last taken from the queue.
    pub fn current_level(&self) -> (l: u32)
        ensures
            l == self.level(),
    {
        self.level
    }

    /// Breadth first, the queue holds its nodes in order of depth, none above the depth of
    /// the node last taken and none more than one below it: nodes are taken in order of
    /// depth, and a win is returned from the shallowest depth the queue still holds.
    pub proof fn law_breadth_first_order(&self)
        requires
            self.well_formed(),
            self.strategy() == Strategy::Bfs,
        ensures
            breadth_first_queue(self.tree(), self.queue(), self.level()),
    {
    }

    /// Every board the search holds lies within the depth limit, and so does the path to it,
    /// each turn of which holds one move per player.
    pub proof fn law_nodes_within_depth(&self, i: int)
        requires
            self.well_formed(),
            0 <= i < self.tree().size(),
        ensures
            self.tree().depth_of(i) <= self.max_depth(),
            self.tree().path(i).len() <= self.max_depth(),
            forall|k: int| 0 <= k < self.tree().path(i).len() ==> (#[trigger] self.tree().path(i)[k]).len() == self.players(),
    {
        self.tree.law_path_length_is_depth(i);
        self.tree.law_turns_of_width(i, self.players());
    }
}

} // verus!
