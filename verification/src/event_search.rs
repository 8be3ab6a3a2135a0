//! The search for the next event of a kind (an explosion, a trigger used, a rat dropped,
//! ...), breadth first or best first by the event score, as a sequence of decisions. A
//! board is searched at most once, by its hash.

use vstd::prelude::*;
use vstd::multiset::Multiset;
use std::collections::{HashSet, VecDeque};
use crate::model::{Action, Grid, PlayState, MAX_SIDE};
use crate::features::{Features, spec_features};
use crate::actions::turns_view;
use crate::search_tree::SearchTree;
use crate::open_list::{Entry, OpenList, leaves_before};
use crate::heuristics::Tuning;
use crate::parse::TargetKind;
use crate::lure::{spec_target_reached, target_reached, spec_event_heuristic, event_heuristic};
use crate::plain_search::{Next, Strategy};

verus! {

broadcast use vstd::std_specs::hash::group_hash_axioms;

/// What became of a board one turn reached.
pub enum EventOffer {
    /// Lost, or seen before; nothing changed.
    Skipped,
    /// Won, or the event happened: the turns from the start.
    Reached(Vec<Vec<Action>>),
    /// Added to the tree and the frontier as this node.
    Added(usize),
    /// Added to the tree as this node, but its priority does not fit a 64-bit integer.
    Unscored(usize),
}

/// The state of an event search.
pub struct EventSearch {
    tree: SearchTree,
    visited: HashSet<u64>,
    queue: VecDeque<usize>,
    open: OpenList,
    target: TargetKind,
    initial: Features,
    strategy: Strategy,
    weight: i64,
    max_depth: usize,
    tuning: Tuning,
    best_h: i64,
    best_idx: usize,
}

/// The priority of a board of depth `nd` and score `h`.
pub open spec fn event_priority(strategy: Strategy, weight: i64, nd: int, h: int) -> int {
    if strategy == Strategy::Gbfs { h } else { nd + weight * h }
}

impl EventSearch {
    pub closed spec fn well_formed(&self) -> bool {
        &&& self.tree.well_formed()
        &&& self.best_idx < self.tree.size()
        &&& forall|i: int| 0 <= i < self.queue@.len() ==> #[trigger] self.queue@[i] < self.tree.size()
        &&& forall|e: Entry| self.open@.count(e) > 0 ==> e.idx < self.tree.size()
        &&& self.initial.rats <= MAX_SIDE * MAX_SIDE
    }

    pub closed spec fn tree(&self) -> SearchTree {
        self.tree
    }

    pub closed spec fn visited(&self) -> Set<u64> {
        self.visited@
    }

    pub closed spec fn queue(&self) -> Seq<usize> {
        self.queue@
    }

    pub closed spec fn open(&self) -> Multiset<Entry> {
        self.open@
    }

    pub closed spec fn target(&self) -> TargetKind {
        self.target
    }

    pub closed spec fn initial(&self) -> Features {
        self.initial
    }

    pub closed spec fn strategy(&self) -> Strategy {
        self.strategy
    }

    pub closed spec fn weight(&self) -> i64 {
        self.weight
    }

    pub closed spec fn max_depth(&self) -> usize {
        self.max_depth
    }

    pub closed spec fn tuning(&self) -> Tuning {
        self.tuning
    }

    pub closed spec fn best_h(&self) -> i64 {
        self.best_h
    }

    pub closed spec fn best_idx(&self) -> usize {
        self.best_idx
    }

    /// A search from `root` (hash `root_hash`) for an event of kind `target`: breadth first
    /// with the root queued, or best first with the root in the frontier at its event score
    /// (`ignition_ready` tells whether one turn can set an explosive off from the root).
    pub fn new(root: Grid, root_hash: u64, target: TargetKind, strategy: Strategy, weight: i64, max_depth: usize,
        tuning: Tuning, ignition_ready: bool) -> (s: Self)
        ensures
            s.well_formed(),
            s.tree().size() == 1,
            s.tree().grid_of(0) == root,
            s.visited() == Set::<u64>::empty().insert(root_hash),
            s.target() == target,
            s.initial() == spec_features(root),
            s.strategy() == strategy,
            s.weight() == weight,
            s.max_depth() == max_depth,
            s.tuning() == tuning,
            s.best_idx() == 0,
            strategy == Strategy::Bfs ==> s.queue() == seq![0usize] && s.open() == Multiset::<Entry>::empty(),
            strategy != Strategy::Bfs ==> s.queue() == Seq::<usize>::empty()
                && s.best_h() == spec_event_heuristic(root, target, spec_features(root), tuning, ignition_ready)
                && s.open() == Multiset::<Entry>::empty().insert(Entry { f: s.best_h(), g: 0, idx: 0 }),
    {
        let initial = Features::from_grid(&root);
        let mut visited: HashSet<u64> = HashSet::new();
        visited.insert(root_hash);
        let mut queue: VecDeque<usize> = VecDeque::new();
        let mut open = OpenList::new();
        let mut best_h: i64 = 0;
        if strategy == Strategy::Bfs {
            queue.push_back(0);
        } else {
            best_h = event_heuristic(&root, target, initial, tuning, ignition_ready);
            open.push(Entry { f: best_h, g: 0, idx: 0 });
        }
        proof {
            assert(queue@ =~= (if strategy == Strategy::Bfs { seq![0usize] } else { Seq::<usize>::empty() }));
        }
        let tree = SearchTree::new(root);
        EventSearch { tree, visited, queue, open, target, initial, strategy, weight, max_depth, tuning, best_h, best_idx: 0 }
    }

    /// Number of nodes.
    pub fn size(&self) -> (n: usize)
        ensures
            n == self.tree().size(),
    {
        self.tree.len()
    }

    /// The board at node `i`.
    pub fn grid(&self, i: usize) -> (g: &Grid)
        requires
            i < self.tree().size(),
        ensures
            *g == self.tree().grid_of(i as int),
    {
        self.tree.grid(i)
    }

    /// The depth of node `i`.
    pub fn depth(&self, i: usize) -> (d: u32)
        requires
            i < self.tree().size(),
        ensures
            d == self.tree().depth_of(i as int),
    {
        self.tree.depth(i)
    }

    /// The turns to the best scored node so far.
    pub fn best_path(&self) -> (p: Vec<Vec<Action>>)
        requires
            self.well_formed(),
        ensures
            turns_view(p@) == self.tree().path(self.best_idx() as int),
    {
        self.tree.reconstruct(self.best_idx)
    }

    /// Takes the next node: from the queue breadth first, from the frontier otherwise; a
    /// node as deep as `max_depth`, or (best first) reached since at a smaller depth, is
    /// dropped.
    pub fn next(&mut self) -> (n: Next)
        requires
            old(self).well_formed(),
        ensures
            final(self).well_formed(),
            final(self).tree() == old(self).tree(),
            final(self).visited() == old(self).visited(),
            final(self).target() == old(self).target(),
            final(self).initial() == old(self).initial(),
            final(self).strategy() == old(self).strategy(),
            final(self).weight() == old(self).weight(),
            final(self).max_depth() == old(self).max_depth(),
            final(self).tuning() == old(self).tuning(),
            final(self).best_h() == old(self).best_h(),
            final(self).best_idx() == old(self).best_idx(),
            old(self).strategy() == Strategy::Bfs ==> {
                &&& final(self).open() == old(self).open()
                &&& (old(self).queue().len() == 0 ==> n == Next::Exhausted && final(self).queue() == old(self).queue())
                &&& (old(self).queue().len() > 0 ==> {
                    let idx = old(self).queue()[0];
                    &&& final(self).queue() == old(self).queue().drop_first()
                    &&& (old(self).tree().depth_of(idx as int) >= old(self).max_depth() ==> n == Next::Dropped)
                    &&& (old(self).tree().depth_of(idx as int) < old(self).max_depth() ==> n == Next::Expand(idx))
                })
            },
            old(self).strategy() != Strategy::Bfs ==> {
                &&& final(self).queue() == old(self).queue()
                &&& (old(self).open().len() == 0 ==> n == Next::Exhausted && final(self).open() == old(self).open())
                &&& (old(self).open().len() > 0 ==> exists|e: Entry| {
                    &&& #[trigger] old(self).open().count(e) > 0
                    &&& (forall|x: Entry| old(self).open().count(x) > 0 ==> leaves_before(e, x))
                    &&& final(self).open() == old(self).open().remove(e)
                    &&& ((old(self).tree().depth_of(e.idx as int) > e.g
                        || old(self).tree().depth_of(e.idx as int) >= old(self).max_depth()) ==> n == Next::Dropped)
                    &&& (!(old(self).tree().depth_of(e.idx as int) > e.g
                        || old(self).tree().depth_of(e.idx as int) >= old(self).max_depth()) ==> n == Next::Expand(e.idx))
                })
            },
    {
        if self.strategy == Strategy::Bfs {
            match self.queue.pop_front() {
                None => Next::Exhausted,
                Some(idx) => {
                    proof {
                        assert(old(self).queue@[0] < self.tree.size());
                        assert(self.queue@ =~= old(self).queue@.drop_first());
                    }
                    if self.tree.depth(idx) as usize >= self.max_depth {
                        Next::Dropped
                    } else {
                        Next::Expand(idx)
                    }
                },
            }
        } else {
            match self.open.pop() {
                None => Next::Exhausted,
                Some(e) => {
                    let d = self.tree.depth(e.idx);
                    if d as i64 > e.g || d as usize >= self.max_depth {
                        Next::Dropped
                    } else {
                        Next::Expand(e.idx)
                    }
                },
            }
        }
    }

    /// Decides what to do with the board `child` that the turn `action` reached from node
    /// `parent`, in play state `play_state`, with hash `hash`; `ignition_ready` tells whether
    /// one turn can set an explosive off from it. A lost board, or one seen before, is
    /// skipped; otherwise it is noted and joins the tree; a won board, or one where the event
    /// happened, ends the search; any other joins the queue, or (best first) the frontier at
    /// its priority, becoming the best when it scores lower than the best so far.
    #[verifier::rlimit(40)]
    pub fn offer(&mut self, parent: usize, action: Vec<Action>, child: Grid, play_state: PlayState, hash: u64,
        ignition_ready: bool) -> (o: EventOffer)
        requires
            old(self).well_formed(),
            parent < old(self).tree().size(),
            old(self).tree().depth_of(parent as int) < u32::MAX,
            old(self).tree().size() < usize::MAX,
        ensures
            final(self).well_formed(),
            final(self).target() == old(self).target(),
            final(self).initial() == old(self).initial(),
            final(self).strategy() == old(self).strategy(),
            final(self).max_depth() == old(self).max_depth(),
            ({
                let t0 = old(self).tree();
                let nd = t0.depth_of(parent as int) + 1;
                let h = spec_event_heuristic(child, old(self).target(), old(self).initial(), old(self).tuning(), ignition_ready);
                let f = event_priority(old(self).strategy(), old(self).weight(), nd, h);
                if play_state == PlayState::GameOver || old(self).visited().contains(hash) {
                    o is Skipped
                } else if play_state == PlayState::Won
                    || spec_target_reached(old(self).target(), old(self).initial(), spec_features(child), child, ignition_ready) {
                    (o matches EventOffer::Reached(path) && turns_view(path@) == t0.path(parent as int).push(action@))
                } else if old(self).strategy() != Strategy::Bfs && (f < i64::MIN || f > i64::MAX) {
                    o == EventOffer::Unscored(t0.size() as usize)
                } else {
                    o == EventOffer::Added(t0.size() as usize)
                }
            }),
            o is Skipped ==> {
                &&& final(self).tree() == old(self).tree()
                &&& final(self).visited() == old(self).visited()
                &&& final(self).queue() == old(self).queue()
                &&& final(self).open() == old(self).open()
                &&& final(self).best_h() == old(self).best_h()
                &&& final(self).best_idx() == old(self).best_idx()
            },
            (o is Added || o is Unscored) ==> {
                let t0 = old(self).tree();
                let i = t0.size();
                &&& final(self).tree().size() == i + 1
                &&& final(self).tree().grid_of(i as int) == child
                &&& final(self).tree().path(i as int) == t0.path(parent as int).push(action@)
                &&& final(self).visited() == old(self).visited().insert(hash)
            },
            o is Unscored ==> {
                &&& final(self).queue() == old(self).queue()
                &&& final(self).open() == old(self).open()
                &&& final(self).best_h() == old(self).best_h()
                &&& final(self).best_idx() == old(self).best_idx()
            },
            o matches EventOffer::Added(i) ==> {
                let nd = old(self).tree().depth_of(parent as int) + 1;
                let h = spec_event_heuristic(child, old(self).target(), old(self).initial(), old(self).tuning(), ignition_ready);
                if old(self).strategy() == Strategy::Bfs {
                    &&& final(self).queue() == old(self).queue().push(i)
                    &&& final(self).open() == old(self).open()
                    &&& final(self).best_h() == old(self).best_h()
                    &&& final(self).best_idx() == old(self).best_idx()
                } else {
                    &&& final(self).queue() == old(self).queue()
                    &&& final(self).open() == old(self).open().insert(Entry {
                        f: event_priority(old(self).strategy(), old(self).weight(), nd, h) as i64, g: nd as i64, idx: i })
                    &&& (h < old(self).best_h() ==> final(self).best_h() == h && final(self).best_idx() == i)
                    &&& (h >= old(self).best_h() ==> final(self).best_h() == old(self).best_h()
                        && final(self).best_idx() == old(self).best_idx())
                }
            },
    {
        proof {
            self.tree.lemma_shape();
        }
        if play_state == PlayState::GameOver {
            return EventOffer::Skipped;
        }
        if !self.visited.insert(hash) {
            return EventOffer::Skipped;
        }
        let nd = self.tree.depth(parent) + 1;
        let features = Features::from_grid(&child);
        let reached = play_state == PlayState::Won
            || target_reached(self.target, self.initial, features, &child, ignition_ready);
        let h: i64 = if reached || self.strategy == Strategy::Bfs {
            0
        } else {
            event_heuristic(&child, self.target, self.initial, self.tuning, ignition_ready)
        };
        let ghost old_tree = self.tree;
        let i = self.tree.push_child(parent, action, child);
        proof {
            SearchTree::lemma_path_stable(&old_tree, &self.tree, parent as int);
        }
        if reached {
            return EventOffer::Reached(self.tree.reconstruct(i));
        }
        if self.strategy == Strategy::Bfs {
            self.queue.push_back(i);
            return EventOffer::Added(i);
        }
        let f: i64 = if self.strategy == Strategy::Gbfs {
            h
        } else {
            let a: i128 = self.weight as i128;
            let b: i128 = h as i128;
            assert(-0x4000_0000_0000_0000_0000_0000_0000_0000 <= a * b <= 0x4000_0000_0000_0000_0000_0000_0000_0000) by (nonlinear_arith)
                requires
                    -0x8000_0000_0000_0000 <= a < 0x8000_0000_0000_0000,
                    -0x8000_0000_0000_0000 <= b < 0x8000_0000_0000_0000,
            {
                assert(a * b <= 0x8000_0000_0000_0000 * 0x8000_0000_0000_0000);
                assert(a * b >= -0x8000_0000_0000_0000 * 0x8000_0000_0000_0000);
            }
            let total = nd as i128 + a * b;
            if total < i64::MIN as i128 || total > i64::MAX as i128 {
                return EventOffer::Unscored(i);
            }
            total as i64
        };
        if h < self.best_h {
            self.best_h = h;
            self.best_idx = i;
        }
        self.open.push(Entry { f, g: nd as i64, idx: i });
        EventOffer::Added(i)
    }
}

} // verus!
