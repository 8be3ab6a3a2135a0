//! The plain breadth-first walk over the boards reachable from a start, as used to list the
//! frontier of distinct configurations and to look for a short safe detour before a fixed
//! suffix: lost boards, boards short of the rats asked for (unless won) and boards seen
//! before are left out, and no board lies deeper than the depth limit. Whoever drives the
//! walk plays the turns, reports the boards back, and, for a detour, scores what the suffix
//! leaves of each board taken.

use vstd::prelude::*;
use std::collections::{HashSet, VecDeque};
use crate::model::{Action, Grid, PlayState};
use crate::cells::CellClass;
use crate::scan::{count_of, count_matching};
use crate::actions::turns_view;
use crate::search_tree::SearchTree;

verus! {

broadcast use vstd::std_specs::hash::group_hash_axioms;

/// What became of a board one turn reached.
#[derive(Clone, Copy, Debug, PartialEq, Eq, Structural)]
pub enum DetourOffer {
    /// Lost, short of the rats asked for and not won, or seen before; nothing changed.
    Skipped,
    /// Added to the tree and the queue as this node.
    Added(usize),
}

/// The board is left out: lost, or short of the rats asked for and not won.
pub open spec fn detour_dropped(min_rats: Option<usize>, g: Grid, ps: PlayState) -> bool {
    ||| ps == PlayState::GameOver
    ||| (ps != PlayState::Won && (min_rats matches Some(m) && count_of(g, CellClass::RatOrCyborg) < m))
}

/// The state of the walk.
pub struct DetourSearch {
    tree: SearchTree,
    visited: HashSet<u64>,
    queue: VecDeque<usize>,
    max_depth: usize,
    max_nodes: usize,
    min_rats: Option<usize>,
    best_score: i64,
    best_idx: usize,
}

impl DetourSearch {
    /// The queue and the best node lie in the tree, and no node lies deeper than the limit.
    pub closed spec fn well_formed(&self) -> bool {
        &&& self.tree.well_formed()
        &&& self.best_idx < self.tree.size()
        &&& forall|i: int| 0 <= i < self.queue@.len() ==> #[trigger] self.queue@[i] < self.tree.size()
        &&& forall|i: int| 0 <= i < self.tree.size() ==> #[trigger] self.tree.depth_of(i) <= self.max_depth
    }

    pub closed spec fn tree(&self) -> SearchTree { self.tree }
    pub closed spec fn visited(&self) -> Set<u64> { self.visited@ }
    pub closed spec fn queue(&self) -> Seq<usize> { self.queue@ }
    pub closed spec fn max_depth(&self) -> usize { self.max_depth }
    pub closed spec fn max_nodes(&self) -> usize { self.max_nodes }
    pub closed spec fn min_rats(&self) -> Option<usize> { self.min_rats }
    pub closed spec fn best_score(&self) -> i64 { self.best_score }
    pub closed spec fn best_idx(&self) -> usize { self.best_idx }

    /// A walk from `root` (hash `root_hash`), queued alone; `root_score` is the best score so
    /// far, at the root.
    pub fn new(root: Grid, root_hash: u64, max_depth: usize, max_nodes: usize, min_rats: Option<usize>, root_score: i64) -> (s: Self)
        ensures
            s.well_formed(),
            s.tree().size() == 1,
            s.tree().grid_of(0) == root,
            s.visited() == Set::<u64>::empty().insert(root_hash),
            s.queue() == seq![0usize],
            s.max_depth() == max_depth,
            s.max_nodes() == max_nodes,
            s.min_rats() == min_rats,
            s.best_score() == root_score,
            s.best_idx() == 0,
    {
        let tree = SearchTree::new(root);
        let mut visited: HashSet<u64> = HashSet::new();
        visited.insert(root_hash);
        let mut queue: VecDeque<usize> = VecDeque::new();
        queue.push_back(0);
        proof {
            assert(queue@ =~= seq![0usize]);
            tree.lemma_shape();
        }
        DetourSearch { tree, visited, queue, max_depth, max_nodes, min_rats, best_score: root_score, best_idx: 0 }
    }

    /// Takes the front of the queue, if any.
    pub fn pop(&mut self) -> (idx: Option<usize>)
        requires
            old(self).well_formed(),
        ensures
            final(self).well_formed(),
            final(self).tree() == old(self).tree(),
            final(self).visited() == old(self).visited(),
            final(self).max_depth() == old(self).max_depth(),
            final(self).max_nodes() == old(self).max_nodes(),
            final(self).min_rats() == old(self).min_rats(),
            final(self).best_score() == old(self).best_score(),
            final(self).best_idx() == old(self).best_idx(),
            old(self).queue().len() == 0 ==> idx is None && final(self).queue() == old(self).queue(),
            old(self).queue().len() > 0 ==> idx == Some(old(self).queue()[0])
                && final(self).queue() == old(self).queue().drop_first(),
            idx matches Some(i) ==> i < final(self).tree().size(),
    {
        let r = self.queue.pop_front();
        proof {
            if old(self).queue@.len() > 0 {
                assert(old(self).queue@[0] < self.tree.size());
                assert(self.queue@ =~= old(self).queue@.drop_first());
            }
        }
        r
    }

    /// The tree has reached the node limit.
    pub fn at_node_limit(&self) -> (b: bool)
        ensures
            b == (self.tree().size() >= self.max_nodes()),
    {
        self.tree.len() >= self.max_nodes
    }

    /// Node `idx` lies above the depth limit, so its turns may be played.
    pub fn expandable(&self, idx: usize) -> (b: bool)
        requires
            idx < self.tree().size(),
        ensures
            b == (self.tree().depth_of(idx as int) < self.max_depth()),
    {
        (self.tree.depth(idx) as usize) < self.max_depth
    }

    /// Number of nodes.
    pub fn size(&self) -> (n: usize)
        ensures
            n == self.tree().size(),
    {
        self.tree.len()
    }

    /// Number of boards seen.
    pub fn seen(&self) -> (n: usize)
        ensures
            n == self.visited().len(),
    {
        self.visited.len()
    }

    /// Number of nodes queued.
    pub fn queued(&self) -> (n: usize)
        ensures
            n == self.queue().len(),
    {
        self.queue.len()
    }

    /// The board at node `i`.
    pub fn grid(&self, i: usize) -> (g: &Grid)
        requires
            i < self.tree().size(),
        ensures
            *g == self.tree().grid_of(i as int),
    {
        self.tree.grid(i)
    }

    /// The depth of node `i`.
    pub fn depth(&self, i: usize) -> (d: u32)
        requires
            i < self.tree().size(),
        ensures
            d == self.tree().depth_of(i as int),
    {
        self.tree.depth(i)
    }

    /// The turns from the root to node `i`.
    pub fn path(&self, i: usize) -> (p: Vec<Vec<Action>>)
        requires
            self.well_formed(),
            i < self.tree().size(),
        ensures
            turns_view(p@) == self.tree().path(i as int),
    {
        self.tree.reconstruct(i)
    }

    /// The best score so far and its node.
    pub fn best(&self) -> (r: (i64, usize))
        ensures
            r == (self.best_score(), self.best_idx()),
    {
        (self.best_score, self.best_idx)
    }

    /// Notes that node `idx` scored `score`: it becomes the best node when it scores lower
    /// than the best so far.
    pub fn note_score(&mut self, idx: usize, score: i64)
        requires
            old(self).well_formed(),
            idx < old(self).tree().size(),
        ensures
            final(self).well_formed(),
            final(self).tree() == old(self).tree(),
            final(self).visited() == old(self).visited(),
            final(self).queue() == old(self).queue(),
            final(self).max_depth() == old(self).max_depth(),
            final(self).max_nodes() == old(self).max_nodes(),
            final(self).min_rats() == old(self).min_rats(),
            score < old(self).best_score() ==> final(self).best_score() == score && final(self).best_idx() == idx,
            score >= old(self).best_score() ==> final(self).best_score() == old(self).best_score()
                && final(self).best_idx() == old(self).best_idx(),
    {
        if score < self.best_score {
            self.best_score = score;
            self.best_idx = idx;
        }
    }

    /// Decides what to do with the board `child` that the turn `action` reached from node
    /// `parent`, in play state `play_state`, with hash `hash`: a dropped board (see
    /// `detour_dropped`) or one seen before is skipped; any other joins the tree and the
    /// queue.
    pub fn offer(&mut self, parent: usize, action: Vec<Action>, child: Grid, play_state: PlayState, hash: u64) -> (o: DetourOffer)
        requires
            old(self).well_formed(),
            parent < old(self).tree().size(),
            old(self).tree().depth_of(parent as int) < old(self).max_depth(),
            old(self).tree().depth_of(parent as int) < u32::MAX,
            old(self).tree().size() < usize::MAX,
        ensures
            final(self).well_formed(),
            final(self).max_depth() == old(self).max_depth(),
            final(self).max_nodes() == old(self).max_nodes(),
            final(self).min_rats() == old(self).min_rats(),
            final(self).best_score() == old(self).best_score(),
            final(self).best_idx() == old(self).best_idx(),
            (detour_dropped(old(self).min_rats(), child, play_state) || old(self).visited().contains(hash))
                ==> o == DetourOffer::Skipped,
            !(detour_dropped(old(self).min_rats(), child, play_state) || old(self).visited().contains(hash))
                ==> o == DetourOffer::Added(old(self).tree().size() as usize),
            o == DetourOffer::Skipped ==> {
                &&& final(self).tree() == old(self).tree()
                &&& final(self).visited() == old(self).visited()
                &&& final(self).queue() == old(self).queue()
            },
            o matches DetourOffer::Added(i) ==> {
                &&& final(self).tree().size() == old(self).tree().size() + 1
                &&& final(self).tree().grid_of(i as int) == child
                &&& final(self).tree().depth_of(i as int) == old(self).tree().depth_of(parent as int) + 1
                &&& final(self).tree().path(i as int) == old(self).tree().path(parent as int).push(action@)
                &&& final(self).visited() == old(self).visited().insert(hash)
                &&& final(self).queue() == old(self).queue().push(i)
            },
    {
        proof {
            self.tree.lemma_shape();
        }
        if play_state == PlayState::GameOver {
            return DetourOffer::Skipped;
        }
        if play_state != PlayState::Won {
            if let Some(m) = self.min_rats {
                if count_matching(&child, CellClass::RatOrCyborg) < m {
                    return DetourOffer::Skipped;
                }
            }
        }
        if !self.visited.insert(hash) {
            return DetourOffer::Skipped;
        }
        let ghost old_tree = self.tree;
        let i = self.tree.push_child(parent, action, child);
        proof {
            SearchTree::lemma_path_stable(&old_tree, &self.tree, parent as int);
        }
        self.queue.push_back(i);
        DetourOffer::Added(i)
    }

    /// Every board the walk holds lies within the depth limit, and so does the path to it.
    pub proof fn law_nodes_within_depth(&self, i: int)
        requires
            self.well_formed(),
            0 <= i < self.tree().size(),
        ensures
            self.tree().depth_of(i) <= self.max_depth(),
            self.tree().path(i).len() <= self.max_depth(),
    {
        self.tree.law_path_length_is_depth(i);
    }
}

} // verus!
