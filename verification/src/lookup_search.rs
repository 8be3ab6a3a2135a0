//! The lookup search towards a goal, as a sequence of decisions: whether to start at all,
//! which node to expand next, and what to do with each board one turn reaches. Whoever
//! drives the search plays the turns and reports back the boards, their hashes, and what a
//! further turn from them could do.

use vstd::prelude::*;
use vstd::multiset::Multiset;
use std::collections::{HashMap, VecDeque};
use crate::model::{Action, CellKind, Grid, PlayState};
use crate::cells::CellClass;
use crate::scan::{count_of, count_matching};
use crate::actions::turns_view;
use crate::search_tree::{SearchTree, breadth_first_queue, lemma_pop_level, lemma_push_level};
use crate::open_list::{Entry, OpenList, leaves_before};
use crate::heuristics::{Tuning, spec_lookup_dead_state, lookup_dead_state, spec_lookup_stranded_state,
    lookup_stranded_state};
use crate::parse::LookupOrder;
use crate::goals::{LookupGoal, TurnFacts, spec_goal_reached, lookup_goal_reached};
use crate::goal_scores::{spec_lookup_goal_heuristic, lookup_goal_heuristic, goal_score_defined, goal_score_in_range};
use crate::goal_progress::{spec_lookup_bfs_progress_score, lookup_bfs_progress_score, progress_score_defined,
    progress_score_in_range};
use crate::constraints::{TrapConstraints, spec_accepts};
use crate::plain_search::Next;

verus! {

broadcast use vstd::std_specs::hash::group_hash_axioms;

/// The settings of a lookup search.
#[derive(Clone, Copy, Debug)]
pub struct LookupParams {
    pub order: LookupOrder,
    pub weight: i64,
    pub goal: LookupGoal,
    /// Boards with fewer rats are dropped, unless won.
    pub min_rats: Option<usize>,
    /// What a board must also satisfy to count as reaching the goal.
    pub constraints: TrapConstraints,
    pub max_depth: usize,
    pub max_nodes: usize,
    /// Drop boards where no rat can be killed any more.
    pub prune_dead: bool,
    /// Drop boards where a rat is stranded for good.
    pub prune_stranded: bool,
    pub tuning: Tuning,
}

/// The board counts as reaching the goal: won, or reaching it and passing the constraints.
pub open spec fn accepted(p: LookupParams, root: Grid, g: Grid, ps: PlayState, facts: TurnFacts) -> bool {
    ps == PlayState::Won || (spec_goal_reached(p.goal, root, g, ps, facts) && spec_accepts(p.constraints, g, ps))
}

/// The board is dropped before anything else: lost; too few rats and not won; or, when
/// asked, dead or stranded while still in play and short of the goal.
pub open spec fn pruned(p: LookupParams, root: Grid, g: Grid, ps: PlayState, facts: TurnFacts) -> bool {
    let reached = spec_goal_reached(p.goal, root, g, ps, facts);
    ||| ps == PlayState::GameOver
    ||| (ps != PlayState::Won && (p.min_rats matches Some(m) && count_of(g, CellClass::RatOrCyborg) < m))
    ||| (p.prune_dead && ps == PlayState::Playing && !reached && spec_lookup_dead_state(g))
    ||| (p.prune_stranded && ps == PlayState::Playing && !reached && spec_lookup_stranded_state(g))
}

/// The board holds at least the rats asked for, if any were.
pub open spec fn keeps_rat_floor(p: LookupParams, g: Grid) -> bool {
    p.min_rats matches Some(m) ==> count_of(g, CellClass::RatOrCyborg) >= m
}

/// The score a lookup search orders boards by: the progress score breadth first, the goal
/// score otherwise.
pub open spec fn lookup_score(p: LookupParams, root: Grid, g: Grid, facts: TurnFacts) -> int {
    if p.order == LookupOrder::Bfs {
        spec_lookup_bfs_progress_score(p.goal, root, g, facts, p.tuning)
    } else {
        spec_lookup_goal_heuristic(p.goal, root, g, facts, p.tuning)
    }
}

/// The score is defined for the board.
pub open spec fn score_defined(p: LookupParams, root: Grid, g: Grid, facts: TurnFacts) -> bool {
    if p.order == LookupOrder::Bfs {
        progress_score_defined(p.goal, root, g, facts, p.tuning)
    } else {
        goal_score_defined(p.goal, root, g, facts, p.tuning)
    }
}

/// The priority of a board of depth `ng` and score `h`: the score (breadth first and
/// greedy), or the depth plus weight times score.
pub open spec fn lookup_priority(p: LookupParams, ng: int, h: int) -> int {
    if p.order == LookupOrder::Astar { ng + p.weight * h } else { h }
}

/// The score of a board, or `None` where it is not defined.
fn score_of(p: LookupParams, root: &Grid, g: &Grid, facts: &TurnFacts) -> (r: Option<i64>)
    ensures
        r is Some <==> score_defined(p, *root, *g, *facts),
        r matches Some(h) ==> h == lookup_score(p, *root, *g, *facts),
{
    if p.order == LookupOrder::Bfs {
        if progress_score_in_range(p.goal, root, g, facts, p.tuning) {
            Some(lookup_bfs_progress_score(p.goal, root, g, facts, p.tuning))
        } else {
            None
        }
    } else {
        if goal_score_in_range(p.goal, root, g, facts, p.tuning) {
            Some(lookup_goal_heuristic(p.goal, root, g, facts, p.tuning))
        } else {
            None
        }
    }
}

/// How a lookup search begins.
pub enum LookupStart {
    /// The board has fewer rats than asked for: there is nothing to search.
    TooFewRats,
    /// The board reaches the goal already.
    AlreadySolved,
    /// The board's score is not defined.
    Overflow,
    /// The search is on.
    Searching(LookupSearch),
}

/// What became of a board one turn reached.
pub enum LookupOffer {
    /// Dropped; nothing changed.
    Skipped,
    /// Added to the tree and the frontier as this node.
    Added(usize),
    /// The board reaches the goal: the turns from the start and the play state.
    Solved(Vec<Vec<Action>>, PlayState),
    /// The board's score or priority does not fit a 64-bit integer; nothing changed.
    Overflow,
}

/// The state of a lookup search.
pub struct LookupSearch {
    tree: SearchTree,
    visited: HashMap<u64, u32>,
    queue: VecDeque<usize>,
    open: OpenList,
    params: LookupParams,
    best_h: i64,
    best_idx: usize,
    level: u32,
}

impl LookupSearch {
    /// The frontier's nodes and the best node lie in the tree; every board held lies within
    /// the depth limit and keeps the rats asked for.
    pub closed spec fn well_formed(&self) -> bool {
        &&& self.tree.well_formed()
        &&& self.best_idx < self.tree.size()
        &&& forall|i: int| 0 < i < self.tree.size() ==> (#[trigger] self.tree.action_of(i)).len()
            == count_of(self.tree.grid_of(0), CellClass::Exactly(CellKind::Player))
        &&& forall|i: int| 0 <= i < self.tree.size() ==> #[trigger] self.tree.depth_of(i) <= self.params.max_depth
        &&& forall|i: int| 0 <= i < self.tree.size() ==> keeps_rat_floor(self.params, #[trigger] self.tree.grid_of(i))
        &&& forall|i: int| 0 <= i < self.queue@.len() ==> #[trigger] self.queue@[i] < self.tree.size()
        &&& forall|e: Entry| self.open@.count(e) > 0 ==> e.idx < self.tree.size()
        &&& (self.params.order == LookupOrder::Bfs ==> breadth_first_queue(self.tree, self.queue@, self.level as int))
    }

    pub closed spec fn tree(&self) -> SearchTree {
        self.tree
    }

    pub closed spec fn visited(&self) -> Map<u64, u32> {
        self.visited@
    }

    pub closed spec fn queue(&self) -> Seq<usize> {
        self.queue@
    }

    pub closed spec fn open(&self) -> Multiset<Entry> {
        self.open@
    }

    pub closed spec fn params(&self) -> LookupParams {
        self.params
    }

    pub closed spec fn best_h(&self) -> i64 {
        self.best_h
    }

    pub closed spec fn best_idx(&self) -> usize {
        self.best_idx
    }

    /// The depth of the node last taken from the queue (0 before any).
    pub closed spec fn level(&self) -> int {
        self.level as int
    }

    /// The start board.
    pub open spec fn root(&self) -> Grid {
        self.tree().grid_of(0)
    }

    /// Number of players on the start board: the moves every turn holds.
    pub open spec fn players(&self) -> nat {
        count_of(self.root(), CellClass::Exactly(CellKind::Player))
    }

    /// Begins a lookup search from `root` (hash `root_hash`; `facts` tells what a turn from
    /// it could do): nothing to search with too few rats; solved at once when the root
    /// reaches the goal and passes the constraints; otherwise a search holding the root in
    /// its frontier (priority its score, depth 0) with the root's score as the best so far.
    pub fn start(root: Grid, root_hash: u64, params: LookupParams, facts: &TurnFacts) -> (s: LookupStart)
        ensures
            (params.min_rats matches Some(m) && count_of(root, CellClass::RatOrCyborg) < m) ==> s is TooFewRats,
            !(params.min_rats matches Some(m) && count_of(root, CellClass::RatOrCyborg) < m) ==> {
                if spec_goal_reached(params.goal, root, root, PlayState::Playing, *facts)
                    && spec_accepts(params.constraints, root, PlayState::Playing) {
                    s is AlreadySolved
                } else if !score_defined(params, root, root, *facts) {
                    s is Overflow
                } else {
                    s matches LookupStart::Searching(l) && {
                        &&& l.well_formed()
                        &&& l.tree().size() == 1
                        &&& l.root() == root
                        &&& l.params() == params
                        &&& l.visited() == Map::<u64, u32>::empty().insert(root_hash, 0)
                        &&& l.best_idx() == 0
                        &&& l.level() == 0
                        &&& l.best_h() == lookup_score(params, root, root, *facts)
                        &&& (params.order == LookupOrder::Bfs ==> l.queue() == seq![0usize] && l.open() == Multiset::<Entry>::empty())
                        &&& (params.order != LookupOrder::Bfs ==> l.queue() == Seq::<usize>::empty()
                            && l.open() == Multiset::<Entry>::empty().insert(Entry { f: l.best_h(), g: 0, idx: 0 }))
                    }
                }
            },
    {
        if let Some(m) = params.min_rats {
            if count_matching(&root, CellClass::RatOrCyborg) < m {
                return LookupStart::TooFewRats;
            }
        }
        if lookup_goal_reached(params.goal, &root, &root, PlayState::Playing, facts)
            && params.constraints.accepts(&root, PlayState::Playing) {
            return LookupStart::AlreadySolved;
        }
        let h0 = match score_of(params, &root, &root, facts) {
            Some(h) => h,
            None => return LookupStart::Overflow,
        };
        let tree = SearchTree::new(root);
        let mut visited: HashMap<u64, u32> = HashMap::new();
        visited.insert(root_hash, 0);
        let mut queue: VecDeque<usize> = VecDeque::new();
        let mut open = OpenList::new();
        if params.order == LookupOrder::Bfs {
            queue.push_back(0);
        } else {
            open.push(Entry { f: h0, g: 0, idx: 0 });
        }
        proof {
            assert(queue@ =~= (if params.order == LookupOrder::Bfs { seq![0usize] } else { Seq::<usize>::empty() }));
            tree.lemma_shape();
        }
        LookupStart::Searching(LookupSearch { tree, visited, queue, open, params, best_h: h0, best_idx: 0, level: 0 })
    }

    /// Number of nodes in the tree.
    pub fn size(&self) -> (n: usize)
        ensures
            n == self.tree().size(),
    {
        self.tree.len()
    }

    /// The board at node `i`.
    pub fn grid(&self, i: usize) -> (g: &Grid)
        requires
            i < self.tree().size(),
        ensures
            *g == self.tree().grid_of(i as int),
    {
        self.tree.grid(i)
    }

    /// The depth of node `i`.
    pub fn depth(&self, i: usize) -> (d: u32)
        requires
            i < self.tree().size(),
        ensures
            d == self.tree().depth_of(i as int),
    {
        self.tree.depth(i)
    }

    /// The best score so far.
    pub fn best_score(&self) -> (h: i64)
        ensures
            h == self.best_h(),
    {
        self.best_h
    }

    /// The best scored node so far.
    pub fn best_index(&self) -> (i: usize)
        ensures
            i == self.best_idx(),
    {
        self.best_idx
    }

    /// The depth of the node last taken from the queue.
    pub fn current_level(&self) -> (l: u32)
        ensures
            l == self.level(),
    {
        self.level
    }

    /// Breadth first, the queue holds its nodes in order of depth, none above the depth of
    /// the node last taken and none more than one below it: nodes are taken in order of
    /// depth, and a board that reaches the goal is returned from the shallowest depth the
    /// queue still holds.
    pub proof fn law_breadth_first_order(&self)
        requires
            self.well_formed(),
            self.params().order == LookupOrder::Bfs,
        ensures
            breadth_first_queue(self.tree(), self.queue(), self.level()),
    {
    }

    /// The turns to the best scored node so far.
    pub fn best_path(&self) -> (p: Vec<Vec<Action>>)
        requires
            self.well_formed(),
        ensures
            turns_view(p@) == self.tree().path(self.best_idx() as int),
    {
        self.tree.reconstruct(self.best_idx)
    }

    /// The board at the best scored node so far.
    pub fn best_grid(&self) -> (g: &Grid)
        requires
            self.well_formed(),
        ensures
            *g == self.tree().grid_of(self.best_idx() as int),
    {
        self.tree.grid(self.best_idx)
    }

    /// Takes the next entry of the frontier, as the plain search does; when the tree has
    /// reached `max_nodes` nodes the search stops instead (`None`), the entry taken.
    pub fn next(&mut self) -> (n: Option<Next>)
        requires
            old(self).well_formed(),
        ensures
            final(self).well_formed(),
            final(self).tree() == old(self).tree(),
            final(self).visited() == old(self).visited(),
            final(self).params() == old(self).params(),
            final(self).best_h() == old(self).best_h(),
            final(self).best_idx() == old(self).best_idx(),
            old(self).params().order == LookupOrder::Bfs ==> {
                &&& final(self).open() == old(self).open()
                &&& (old(self).queue().len() == 0 ==> n == Some(Next::Exhausted) && final(self).queue() == old(self).queue())
                &&& (old(self).queue().len() > 0 ==> {
                    let idx = old(self).queue()[0];
                    &&& final(self).queue() == old(self).queue().drop_first()
                    &&& final(self).level() == old(self).tree().depth_of(idx as int)
                    &&& forall|k: int| 0 <= k < final(self).queue().len() ==>
                        old(self).tree().depth_of(idx as int) <= old(self).tree().depth_of(#[trigger] final(self).queue()[k] as int)
                    &&& (old(self).tree().size() >= old(self).params().max_nodes ==> n is None)
                    &&& (old(self).tree().size() < old(self).params().max_nodes ==> {
                        &&& (old(self).tree().depth_of(idx as int) >= old(self).params().max_depth ==> n == Some(Next::Dropped))
                        &&& (old(self).tree().depth_of(idx as int) < old(self).params().max_depth ==> n == Some(Next::Expand(idx)))
                    })
                })
            },
            old(self).params().order != LookupOrder::Bfs ==> {
                &&& final(self).queue() == old(self).queue()
                &&& (old(self).open().len() == 0 ==> n == Some(Next::Exhausted) && final(self).open() == old(self).open())
                &&& (old(self).open().len() > 0 ==> exists|e: Entry| {
                    &&& #[trigger] old(self).open().count(e) > 0
                    &&& (forall|x: Entry| old(self).open().count(x) > 0 ==> leaves_before(e, x))
                    &&& final(self).open() == old(self).open().remove(e)
                    &&& (old(self).tree().size() >= old(self).params().max_nodes ==> n is None)
                    &&& (old(self).tree().size() < old(self).params().max_nodes ==> {
                        &&& ((old(self).tree().depth_of(e.idx as int) > e.g
                            || old(self).tree().depth_of(e.idx as int) >= old(self).params().max_depth) ==> n == Some(Next::Dropped))
                        &&& (!(old(self).tree().depth_of(e.idx as int) > e.g
                            || old(self).tree().depth_of(e.idx as int) >= old(self).params().max_depth) ==> n == Some(Next::Expand(e.idx)))
                    })
                })
            },
    {
        if self.params.order == LookupOrder::Bfs {
            match self.queue.pop_front() {
                None => Some(Next::Exhausted),
                Some(idx) => {
                    proof {
                        assert(old(self).queue@[0] < self.tree.size());
                        assert(self.queue@ =~= old(self).queue@.drop_first());
                    }
                    self.level = self.tree.depth(idx);
                    proof {
                        lemma_pop_level(self.tree, old(self).queue@, old(self).level as int);
                    }
                    if self.tree.len() >= self.params.max_nodes {
                        None
                    } else if self.tree.depth(idx) as usize >= self.params.max_depth {
                        Some(Next::Dropped)
                    } else {
                        Some(Next::Expand(idx))
                    }
                },
            }
        } else {
            match self.open.pop() {
                None => Some(Next::Exhausted),
                Some(e) => {
                    if self.tree.len() >= self.params.max_nodes {
                        return None;
                    }
                    let d = self.tree.depth(e.idx);
                    if d as i64 > e.g || d as usize >= self.params.max_depth {
                        Some(Next::Dropped)
                    } else {
                        Some(Next::Expand(e.idx))
                    }
                },
            }
        }
    }

    /// Decides what to do with the board `child` that the turn `action` reached from node
    /// `parent`, in play state `play_state`, with hash `hash`; `facts` tells what a turn from
    /// `child` could do. Pruned boards are skipped. Breadth first, a board that reaches the
    /// goal solves the search, and otherwise a board whose hash was seen is skipped; best
    /// first, a board seen at no greater depth is skipped, and otherwise a board that reaches
    /// the goal solves the search. Any other board is added with its score and priority,
    /// unless they do not fit.
    #[verifier::rlimit(40)]
    pub fn offer(&mut self, parent: usize, action: Vec<Action>, child: Grid, play_state: PlayState, hash: u64, facts: &TurnFacts) -> (o: LookupOffer)
        requires
            old(self).well_formed(),
            parent < old(self).tree().size(),
            old(self).tree().depth_of(parent as int) < old(self).params().max_depth,
            old(self).tree().depth_of(parent as int) < u32::MAX,
            old(self).tree().size() < usize::MAX,
            action@.len() == old(self).players(),
            old(self).params().order == LookupOrder::Bfs ==> old(self).tree().depth_of(parent as int) == old(self).level(),
        ensures
            final(self).well_formed(),
            final(self).params() == old(self).params(),
            final(self).root() == old(self).root(),
            final(self).level() == old(self).level(),
            o matches LookupOffer::Solved(path, ps) ==> old(self).params().order == LookupOrder::Bfs
                ==> path@.len() == old(self).level() + 1
                && forall|k: int| 0 <= k < old(self).queue().len() ==>
                    path@.len() <= old(self).tree().depth_of(#[trigger] old(self).queue()[k] as int) + 1,
            o matches LookupOffer::Solved(path, ps) ==> path@.len() <= old(self).params().max_depth
                && (ps != PlayState::Won ==> keeps_rat_floor(old(self).params(), child))
                && forall|k: int| 0 <= k < path@.len() ==> (#[trigger] path@[k])@.len() == old(self).players(),
            ({
                let p = old(self).params();
                let root = old(self).root();
                let ng = old(self).tree().depth_of(parent as int) + 1;
                let seen = old(self).visited().contains_key(hash);
                let h = lookup_score(p, root, child, *facts);
                let f = lookup_priority(p, ng, h);
                let acc = accepted(p, root, child, play_state, *facts);
                if pruned(p, root, child, play_state, *facts) {
                    o is Skipped
                } else if p.order == LookupOrder::Bfs {
                    if acc {
                        o matches LookupOffer::Solved(path, ps) && ps == play_state
                            && turns_view(path@) == old(self).tree().path(parent as int).push(action@)
                    } else if seen {
                        o is Skipped
                    } else if !score_defined(p, root, child, *facts) {
                        o is Overflow
                    } else {
                        o == LookupOffer::Added(old(self).tree().size() as usize)
                    }
                } else if seen && old(self).visited()[hash] <= ng {
                    o is Skipped
                } else if acc {
                    o matches LookupOffer::Solved(path, ps) && ps == play_state
                        && turns_view(path@) == old(self).tree().path(parent as int).push(action@)
                } else if !score_defined(p, root, child, *facts) || f < i64::MIN || f > i64::MAX {
                    o is Overflow
                } else {
                    o == LookupOffer::Added(old(self).tree().size() as usize)
                }
            }),
            (o is Skipped || o is Overflow) ==> {
                &&& final(self).tree() == old(self).tree()
                &&& final(self).visited() == old(self).visited()
                &&& final(self).queue() == old(self).queue()
                &&& final(self).open() == old(self).open()
                &&& final(self).best_idx() == old(self).best_idx()
                &&& final(self).best_h() == old(self).best_h()
            },
            o matches LookupOffer::Added(i) ==> {
                let p = old(self).params();
                let ng = old(self).tree().depth_of(parent as int) + 1;
                let h = lookup_score(p, old(self).root(), child, *facts);
                &&& final(self).tree().size() == old(self).tree().size() + 1
                &&& final(self).root() == old(self).root()
                &&& final(self).tree().grid_of(i as int) == child
                &&& final(self).tree().depth_of(i as int) == ng
                &&& final(self).tree().path(i as int) == old(self).tree().path(parent as int).push(action@)
                &&& final(self).visited() == old(self).visited().insert(hash, ng as u32)
                &&& (h < old(self).best_h() ==> final(self).best_h() == h && final(self).best_idx() == i)
                &&& (h >= old(self).best_h() ==> final(self).best_h() == old(self).best_h()
                    && final(self).best_idx() == old(self).best_idx())
                &&& (p.order == LookupOrder::Bfs ==> final(self).queue() == old(self).queue().push(i)
                    && final(self).open() == old(self).open())
                &&& (p.order != LookupOrder::Bfs ==> final(self).queue() == old(self).queue()
                    && final(self).open() == old(self).open().insert(Entry { f: lookup_priority(p, ng, h) as i64, g: ng as i64, idx: i }))
            },
    {
        proof {
            self.tree.lemma_shape();
        }
        let p = self.params;
        let ng_u32 = self.tree.depth(parent) + 1;
        let ng = ng_u32 as i64;
        if play_state == PlayState::GameOver {
            return LookupOffer::Skipped;
        }
        if play_state != PlayState::Won {
            if let Some(m) = p.min_rats {
                if count_matching(&child, CellClass::RatOrCyborg) < m {
                    return LookupOffer::Skipped;
                }
            }
        }
        let reached = lookup_goal_reached(p.goal, self.tree.grid(0), &child, play_state, facts);
        if p.prune_dead && play_state == PlayState::Playing && !reached && lookup_dead_state(&child) {
            return LookupOffer::Skipped;
        }
        if p.prune_stranded && play_state == PlayState::Playing && !reached && lookup_stranded_state(&child) {
            return LookupOffer::Skipped;
        }
        let acc = play_state == PlayState::Won || (reached && p.constraints.accepts(&child, play_state));
        if p.order == LookupOrder::Bfs {
            if !acc && self.visited.contains_key(&hash) {
                return LookupOffer::Skipped;
            }
        } else {
            match self.visited.get(&hash) {
                Some(prev) => {
                    if *prev <= ng_u32 {
                        return LookupOffer::Skipped;
                    }
                },
                None => {},
            }
        }
        if acc {
            let mut path = self.tree.reconstruct(parent);
            let ghost av = action@;
            proof {
                self.tree.law_turns_of_width(parent as int, self.players());
                self.tree.law_path_length_is_depth(parent as int);
            }
            path.push(action);
            proof {
                assert(turns_view(path@) =~= self.tree.path(parent as int).push(av));
                assert forall|k: int| 0 <= k < path@.len() implies (#[trigger] path@[k])@.len() == self.players() by {
                    assert(turns_view(path@)[k] == path@[k]@);
                }
            }
            return LookupOffer::Solved(path, play_state);
        }
        let h = match score_of(p, self.tree.grid(0), &child, facts) {
            Some(h) => h,
            None => return LookupOffer::Overflow,
        };
        let f: i64 = if p.order == LookupOrder::Astar {
            let a: i128 = p.weight as i128;
            let b: i128 = h as i128;
            assert(-0x4000_0000_0000_0000_0000_0000_0000_0000 <= a * b <= 0x4000_0000_0000_0000_0000_0000_0000_0000) by (nonlinear_arith)
                requires
                    -0x8000_0000_0000_0000 <= a < 0x8000_0000_0000_0000,
                    -0x8000_0000_0000_0000 <= b < 0x8000_0000_0000_0000,
            {
                assert(a * b <= 0x8000_0000_0000_0000 * 0x8000_0000_0000_0000);
                assert(a * b >= -0x8000_0000_0000_0000 * 0x8000_0000_0000_0000);
            }
            let wh = a * b;
            let total = ng as i128 + wh;
            if total < i64::MIN as i128 || total > i64::MAX as i128 {
                return LookupOffer::Overflow;
            }
            total as i64
        } else {
            h
        };
        self.visited.insert(hash, ng_u32);
        let ghost old_tree = self.tree;
        let ghost old_queue = self.queue@;
        let i = self.tree.push_child(parent, action, child);
        proof {
            SearchTree::lemma_path_stable(&old_tree, &self.tree, parent as int);
            if p.order == LookupOrder::Bfs {
                lemma_push_level(old_tree, self.tree, old_queue, self.level as int, i);
            }
        }
        if h < self.best_h {
            self.best_h = h;
            self.best_idx = i;
        }
        if p.order == LookupOrder::Bfs {
            self.queue.push_back(i);
        } else {
            self.open.push(Entry { f, g: ng, idx: i });
        }
        LookupOffer::Added(i)
    }

    /// Every board the search holds lies within the depth limit, the path to it too, and
    /// holds at least the rats asked for; so does every board on that path, each of them
    /// being a node of the tree. Every turn of that path holds one move per player.
    pub proof fn law_nodes_pass_filters(&self, i: int)
        requires
            self.well_formed(),
            0 <= i < self.tree().size(),
        ensures
            self.tree().depth_of(i) <= self.params().max_depth,
            self.tree().path(i).len() <= self.params().max_depth,
            keeps_rat_floor(self.params(), self.tree().grid_of(i)),
            i > 0 ==> 0 <= self.tree().parent_of(i) < i,
            forall|k: int| 0 <= k < self.tree().path(i).len() ==> (#[trigger] self.tree().path(i)[k]).len() == self.players(),
    {
        self.tree.law_path_length_is_depth(i);
        self.tree.lemma_shape();
        self.tree.law_turns_of_width(i, self.players());
    }
}

} // verus!
