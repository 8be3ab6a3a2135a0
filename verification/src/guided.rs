//! Best-first searches guided by a plan's score, as sequences of decisions: the tinderbox
//! search and the geometric lure search. Each node taken is first checked for a winning
//! turn; every board reached joins the tree, and those not seen at a smaller depth join the
//! frontier at their score.

use vstd::prelude::*;
use vstd::multiset::Multiset;
use std::collections::HashMap;
use crate::model::{Action, CellKind, Grid, PlayState, MAX_SIDE};
use crate::cells::CellClass;
use crate::scan::{count_of, count_matching};
use crate::actions::turns_view;
use crate::search_tree::SearchTree;
use crate::open_list::{Entry, OpenList, leaves_before};
use crate::heuristics::Tuning;
use crate::queries::{spec_rectangle_lower_ready, rectangle_lower_ready};
use crate::rectangle::lower_board;
use crate::lure::{spec_tinderbox_heuristic, tinderbox_heuristic, spec_geom_lure_heuristic, geom_lure_heuristic};
use crate::plain_search::Next;

verus! {

broadcast use vstd::std_specs::hash::group_hash_axioms;

/// The plan that guides the search.
pub enum Guide {
    /// Lure rats onto `rat_targets` with the players on `safe_targets`; with `preserve_rats`,
    /// boards that lost a rat are not searched on; the tree holds at most `max_nodes` nodes.
    GeomLure {
        rat_targets: Vec<(i32, i32)>,
        safe_targets: Vec<(i32, i32)>,
        preserve_rats: bool,
        initial_rats: usize,
        initial_explosives: usize,
        max_nodes: usize,
    },
    /// Set the tinderbox off with a rat on `rat_target` and a player on `safe_target`.
    Tinderbox {
        initial_rats: usize,
        initial_explosives: usize,
        rat_target: (i32, i32),
        safe_target: (i32, i32),
        tuning: Tuning,
    },
}

/// The guide's counts are those of real boards.
pub open spec fn guide_ok(guide: Guide) -> bool {
    match guide {
        Guide::GeomLure { initial_rats, .. } => initial_rats <= MAX_SIDE * MAX_SIDE,
        Guide::Tinderbox { initial_rats, .. } => initial_rats <= MAX_SIDE * MAX_SIDE,
    }
}

/// The guide can score the board: always for the lure; for the tinderbox on wide boards
/// scored by the lower trap, only when the trap is ready, an explosive has gone off, or the
/// board holds the escape cells.
pub open spec fn scorable(guide: Guide, g: Grid, win_ready: bool) -> bool {
    match guide {
        Guide::GeomLure { .. } => true,
        Guide::Tinderbox { initial_explosives, tuning, .. } =>
            tuning.rect_lower && g.w() >= 16 ==> (spec_rectangle_lower_ready(g, win_ready)
                || count_of(g, CellClass::Exactly(CellKind::Explosive)) < initial_explosives || lower_board(g)),
    }
}

/// The guide's score of a board; `win_ready` tells whether one more turn can win from it.
pub open spec fn guide_score(guide: Guide, g: Grid, win_ready: bool) -> int {
    match guide {
        Guide::GeomLure { rat_targets, safe_targets, preserve_rats, initial_rats, initial_explosives, .. } =>
            spec_geom_lure_heuristic(g, rat_targets@, safe_targets@, initial_rats, initial_explosives, preserve_rats),
        Guide::Tinderbox { initial_rats, initial_explosives, rat_target, safe_target, tuning } =>
            spec_tinderbox_heuristic(g, initial_rats, initial_explosives, rat_target, safe_target, tuning, win_ready),
    }
}

/// The priority of a board of depth `nd` and score `h`: the score greedily, the depth plus
/// weight times score otherwise.
pub open spec fn guided_priority(greedy: bool, weight: i64, nd: int, h: int) -> int {
    if greedy { h } else { nd + weight * h }
}

/// The guide's score of a board, or `None` where it cannot score it.
fn score_with(guide: &Guide, g: &Grid, win_ready: bool) -> (r: Option<i64>)
    requires
        guide_ok(*guide),
    ensures
        r is Some <==> scorable(*guide, *g, win_ready),
        r matches Some(h) ==> h == guide_score(*guide, *g, win_ready),
{
    match guide {
        Guide::GeomLure { rat_targets, safe_targets, preserve_rats, initial_rats, initial_explosives, .. } =>
            Some(geom_lure_heuristic(g, rat_targets.as_slice(), safe_targets.as_slice(), *initial_rats,
                *initial_explosives, *preserve_rats)),
        Guide::Tinderbox { initial_rats, initial_explosives, rat_target, safe_target, tuning } => {
            if tuning.rect_lower && g.width() >= 16 {
                if !(rectangle_lower_ready(g, win_ready)
                    || count_matching(g, CellClass::Exactly(CellKind::Explosive)) < *initial_explosives
                    || (g.width() >= 16 && g.height() >= 9)) {
                    return None;
                }
            }
            Some(tinderbox_heuristic(g, *initial_rats, *initial_explosives, *rat_target, *safe_target, *tuning, win_ready))
        },
    }
}

/// What became of a board one turn reached.
pub enum GuidedOffer {
    /// Lost; nothing changed.
    Skipped,
    /// The tree is full; the search ends without a solution and nothing changed.
    NodeLimit,
    /// Won: the turns from the start.
    Solved(Vec<Vec<Action>>),
    /// Added to the tree as this node, but not to the frontier (a rat was lost where rats
    /// must be kept, or the board was seen at no greater depth).
    Kept(usize),
    /// Added to the tree and the frontier as this node.
    Added(usize),
    /// The guide cannot score the board, or its priority does not fit a 64-bit integer;
    /// the board was added to the tree as this node and noted as seen.
    Unscored(usize),
}

/// How a guided search begins.
pub enum GuidedStart {
    /// The guide cannot score the start board, or its score does not fit.
    Unscored,
    /// The search is on.
    Searching(GuidedSearch),
}

/// The state of a guided search.
pub struct GuidedSearch {
    tree: SearchTree,
    visited: HashMap<u64, u32>,
    open: OpenList,
    guide: Guide,
    greedy: bool,
    weight: i64,
    max_depth: usize,
    best_h: i64,
    best_idx: usize,
}

/// Number of rats on a board.
pub open spec fn rats_of(g: Grid) -> nat {
    count_of(g, CellClass::RatOrCyborg)
}

/// With this guide, a board that lost a rat is not searched on.
pub open spec fn drops_rat_losses(guide: Guide, g: Grid) -> bool {
    match guide {
        Guide::GeomLure { preserve_rats, initial_rats, .. } => preserve_rats && rats_of(g) < initial_rats,
        Guide::Tinderbox { .. } => false,
    }
}

/// With this guide the tree may not grow past `size` nodes.
pub open spec fn full(guide: Guide, size: nat) -> bool {
    match guide {
        Guide::GeomLure { max_nodes, .. } => size >= max_nodes,
        Guide::Tinderbox { .. } => false,
    }
}

impl GuidedSearch {
    pub closed spec fn well_formed(&self) -> bool {
        &&& self.tree.well_formed()
        &&& self.best_idx < self.tree.size()
        &&& forall|e: Entry| self.open@.count(e) > 0 ==> e.idx < self.tree.size()
        &&& guide_ok(self.guide)
    }

    pub closed spec fn tree(&self) -> SearchTree {
        self.tree
    }

    pub closed spec fn visited(&self) -> Map<u64, u32> {
        self.visited@
    }

    pub closed spec fn open(&self) -> Multiset<Entry> {
        self.open@
    }

    pub closed spec fn guide(&self) -> Guide {
        self.guide
    }

    pub closed spec fn greedy(&self) -> bool {
        self.greedy
    }

    pub closed spec fn weight(&self) -> i64 {
        self.weight
    }

    pub closed spec fn max_depth(&self) -> usize {
        self.max_depth
    }

    pub closed spec fn best_h(&self) -> i64 {
        self.best_h
    }

    pub closed spec fn best_idx(&self) -> usize {
        self.best_idx
    }

    /// Begins a search from `root` (hash `root_hash`; `win_ready` tells whether one turn
    /// can win from it), its frontier holding the root at its score.
    pub fn start(root: Grid, root_hash: u64, guide: Guide, greedy: bool, weight: i64, max_depth: usize, win_ready: bool) -> (s: GuidedStart)
        requires
            guide_ok(guide),
        ensures
            !scorable(guide, root, win_ready) ==> s is Unscored,
            scorable(guide, root, win_ready) ==> (s matches GuidedStart::Searching(x) && {
                &&& x.well_formed()
                &&& x.tree().size() == 1
                &&& x.tree().grid_of(0) == root
                &&& x.guide() == guide
                &&& x.greedy() == greedy
                &&& x.weight() == weight
                &&& x.max_depth() == max_depth
                &&& x.visited() == Map::<u64, u32>::empty().insert(root_hash, 0)
                &&& x.best_idx() == 0
                &&& x.best_h() == guide_score(guide, root, win_ready)
                &&& x.open() == Multiset::<Entry>::empty().insert(Entry { f: x.best_h(), g: 0, idx: 0 })
            }),
    {
        let h0 = match score_with(&guide, &root, win_ready) {
            Some(h) => h,
            None => return GuidedStart::Unscored,
        };
        let tree = SearchTree::new(root);
        let mut visited: HashMap<u64, u32> = HashMap::new();
        visited.insert(root_hash, 0);
        let mut open = OpenList::new();
        open.push(Entry { f: h0, g: 0, idx: 0 });
        GuidedStart::Searching(GuidedSearch { tree, visited, open, guide, greedy, weight, max_depth, best_h: h0, best_idx: 0 })
    }

    /// Number of nodes.
    pub fn size(&self) -> (n: usize)
        ensures
            n == self.tree().size(),
    {
        self.tree.len()
    }

    /// The board at node `i`.
    pub fn grid(&self, i: usize) -> (g: &Grid)
        requires
            i < self.tree().size(),
        ensures
            *g == self.tree().grid_of(i as int),
    {
        self.tree.grid(i)
    }

    /// The depth of node `i`.
    pub fn depth(&self, i: usize) -> (d: u32)
        requires
            i < self.tree().size(),
        ensures
            d == self.tree().depth_of(i as int),
    {
        self.tree.depth(i)
    }

    /// The best score so far.
    pub fn best_score(&self) -> (h: i64)
        ensures
            h == self.best_h(),
    {
        self.best_h
    }

    /// The turns to the best scored node so far.
    pub fn best_path(&self) -> (p: Vec<Vec<Action>>)
        requires
            self.well_formed(),
        ensures
            turns_view(p@) == self.tree().path(self.best_idx() as int),
    {
        self.tree.reconstruct(self.best_idx)
    }

    /// The turns to node `idx` followed by the winning turn `action` from it.
    pub fn win_from(&self, idx: usize, action: Vec<Action>) -> (p: Vec<Vec<Action>>)
        requires
            self.well_formed(),
            idx < self.tree().size(),
        ensures
            turns_view(p@) == self.tree().path(idx as int).push(action@),
    {
        let mut path = self.tree.reconstruct(idx);
        let ghost av = action@;
        path.push(action);
        proof {
            assert(turns_view(path@) =~= self.tree.path(idx as int).push(av));
        }
        path
    }

    /// Takes the frontier's first entry; it is dropped when the node was since reached at a
    /// smaller depth, or is as deep as `max_depth`.
    pub fn next(&mut self) -> (n: Next)
        requires
            old(self).well_formed(),
        ensures
            final(self).well_formed(),
            final(self).tree() == old(self).tree(),
            final(self).visited() == old(self).visited(),
            final(self).guide() == old(self).guide(),
            final(self).greedy() == old(self).greedy(),
            final(self).weight() == old(self).weight(),
            final(self).max_depth() == old(self).max_depth(),
            final(self).best_h() == old(self).best_h(),
            final(self).best_idx() == old(self).best_idx(),
            old(self).open().len() == 0 ==> n == Next::Exhausted && final(self).open() == old(self).open(),
            old(self).open().len() > 0 ==> exists|e: Entry| {
                &&& #[trigger] old(self).open().count(e) > 0
                &&& (forall|x: Entry| old(self).open().count(x) > 0 ==> leaves_before(e, x))
                &&& final(self).open() == old(self).open().remove(e)
                &&& ((old(self).tree().depth_of(e.idx as int) > e.g
                    || old(self).tree().depth_of(e.idx as int) >= old(self).max_depth()) ==> n == Next::Dropped)
                &&& (!(old(self).tree().depth_of(e.idx as int) > e.g
                    || old(self).tree().depth_of(e.idx as int) >= old(self).max_depth()) ==> n == Next::Expand(e.idx))
            },
    {
        match self.open.pop() {
            None => Next::Exhausted,
            Some(e) => {
                let d = self.tree.depth(e.idx);
                if d as i64 > e.g || d as usize >= self.max_depth {
                    Next::Dropped
                } else {
                    Next::Expand(e.idx)
                }
            },
        }
    }

    /// Decides what to do with the board `child` that the turn `action` reached from node
    /// `parent`, in play state `play_state`, with hash `hash`; `win_ready` tells whether one
    /// more turn can win from it. A lost board is skipped; a full tree ends the search;
    /// otherwise the board joins the tree, and then: a won board solves the search; a board
    /// that lost a rat where rats must be kept, or that was seen at no greater depth, stays
    /// out of the frontier; any other is noted at its depth and joins the frontier at its
    /// priority, becoming the best when it scores lower than the best so far.
    #[verifier::rlimit(40)]
    pub fn offer(&mut self, parent: usize, action: Vec<Action>, child: Grid, play_state: PlayState, hash: u64, win_ready: bool) -> (o: GuidedOffer)
        requires
            old(self).well_formed(),
            parent < old(self).tree().size(),
            old(self).tree().depth_of(parent as int) < u32::MAX,
            old(self).tree().size() < usize::MAX,
        ensures
            final(self).well_formed(),
            final(self).guide() == old(self).guide(),
            final(self).greedy() == old(self).greedy(),
            final(self).weight() == old(self).weight(),
            final(self).max_depth() == old(self).max_depth(),
            ({
                let t0 = old(self).tree();
                let nd = t0.depth_of(parent as int) + 1;
                let seen_before = old(self).visited().contains_key(hash) && old(self).visited()[hash] <= nd;
                let h = guide_score(old(self).guide(), child, win_ready);
                let f = guided_priority(old(self).greedy(), old(self).weight(), nd, h);
                if play_state == PlayState::GameOver {
                    o is Skipped
                } else if full(old(self).guide(), t0.size()) {
                    o is NodeLimit
                } else if play_state == PlayState::Won {
                    (o matches GuidedOffer::Solved(path) && turns_view(path@) == t0.path(parent as int).push(action@))
                } else if drops_rat_losses(old(self).guide(), child) || seen_before {
                    o == GuidedOffer::Kept(t0.size() as usize)
                } else if !scorable(old(self).guide(), child, win_ready) || f < i64::MIN || f > i64::MAX {
                    o == GuidedOffer::Unscored(t0.size() as usize)
                } else {
                    o == GuidedOffer::Added(t0.size() as usize)
                }
            }),
            (o is Skipped || o is NodeLimit) ==> {
                &&& final(self).tree() == old(self).tree()
                &&& final(self).visited() == old(self).visited()
                &&& final(self).open() == old(self).open()
                &&& final(self).best_h() == old(self).best_h()
                &&& final(self).best_idx() == old(self).best_idx()
            },
            (o is Kept || o is Unscored || o is Added) ==> {
                let t0 = old(self).tree();
                let i = t0.size();
                &&& final(self).tree().size() == i + 1
                &&& final(self).tree().grid_of(i as int) == child
                &&& final(self).tree().depth_of(i as int) == t0.depth_of(parent as int) + 1
                &&& final(self).tree().path(i as int) == t0.path(parent as int).push(action@)
            },
            o is Kept ==> {
                &&& final(self).visited() == old(self).visited()
                &&& final(self).open() == old(self).open()
                &&& final(self).best_h() == old(self).best_h()
                &&& final(self).best_idx() == old(self).best_idx()
            },
            o is Unscored ==> {
                &&& final(self).visited() == old(self).visited().insert(hash, (old(self).tree().depth_of(parent as int) + 1) as u32)
                &&& final(self).open() == old(self).open()
                &&& final(self).best_h() == old(self).best_h()
                &&& final(self).best_idx() == old(self).best_idx()
            },
            o matches GuidedOffer::Added(i) ==> {
                let nd = old(self).tree().depth_of(parent as int) + 1;
                let h = guide_score(old(self).guide(), child, win_ready);
                &&& final(self).visited() == old(self).visited().insert(hash, nd as u32)
                &&& final(self).open() == old(self).open().insert(Entry {
                    f: guided_priority(old(self).greedy(), old(self).weight(), nd, h) as i64, g: nd as i64, idx: i })
                &&& (h < old(self).best_h() ==> final(self).best_h() == h && final(self).best_idx() == i)
                &&& (h >= old(self).best_h() ==> final(self).best_h() == old(self).best_h()
                    && final(self).best_idx() == old(self).best_idx())
            },
    {
        proof {
            self.tree.lemma_shape();
        }
        if play_state == PlayState::GameOver {
            return GuidedOffer::Skipped;
        }
        let is_full = match &self.guide {
            Guide::GeomLure { max_nodes, .. } => self.tree.len() >= *max_nodes,
            Guide::Tinderbox { .. } => false,
        };
        if is_full {
            return GuidedOffer::NodeLimit;
        }
        let nd = self.tree.depth(parent) + 1;
        let drops = match &self.guide {
            Guide::GeomLure { preserve_rats, initial_rats, .. } =>
                *preserve_rats && count_matching(&child, CellClass::RatOrCyborg) < *initial_rats,
            Guide::Tinderbox { .. } => false,
        };
        let h_opt = if play_state == PlayState::Won { None } else { score_with(&self.guide, &child, win_ready) };
        let ghost old_tree = self.tree;
        let i = self.tree.push_child(parent, action, child);
        proof {
            SearchTree::lemma_path_stable(&old_tree, &self.tree, parent as int);
        }
        if play_state == PlayState::Won {
            return GuidedOffer::Solved(self.tree.reconstruct(i));
        }
        if drops {
            return GuidedOffer::Kept(i);
        }
        match self.visited.get(&hash) {
            Some(prev) => {
                if *prev <= nd {
                    return GuidedOffer::Kept(i);
                }
            },
            None => {},
        }
        self.visited.insert(hash, nd);
        let h = match h_opt {
            Some(h) => h,
            None => return GuidedOffer::Unscored(i),
        };
        let f: i64 = if self.greedy {
            h
        } else {
            let a: i128 = self.weight as i128;
            let b: i128 = h as i128;
            assert(-0x4000_0000_0000_0000_0000_0000_0000_0000 <= a * b <= 0x4000_0000_0000_0000_0000_0000_0000_0000) by (nonlinear_arith)
                requires
                    -0x8000_0000_0000_0000 <= a < 0x8000_0000_0000_0000,
                    -0x8000_0000_0000_0000 <= b < 0x8000_0000_0000_0000,
            {
                assert(a * b <= 0x8000_0000_0000_0000 * 0x8000_0000_0000_0000);
                assert(a * b >= -0x8000_0000_0000_0000 * 0x8000_0000_0000_0000);
            }
            let total = nd as i128 + a * b;
            if total < i64::MIN as i128 || total > i64::MAX as i128 {
                return GuidedOffer::Unscored(i);
            }
            total as i64
        };
        if h < self.best_h {
            self.best_h = h;
            self.best_idx = i;
        }
        self.open.push(Entry { f, g: nd as i64, idx: i });
        GuidedOffer::Added(i)
    }
}

} // verus!
