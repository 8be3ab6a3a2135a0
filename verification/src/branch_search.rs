//! The breadth-first search that collects several boards reaching a goal, as a sequence of
//! decisions: which node to expand next, and what to do with each board one turn reaches.
//! The boards found are kept in ascending order of branch score, at most a fixed number of
//! them; at the end a diverse selection of them is taken.

use vstd::prelude::*;
use std::collections::{HashSet, VecDeque};
use crate::model::{Action, Grid, PlayState};
use crate::cells::CellClass;
use crate::scan::count_of;
use crate::features::count_rats;
use crate::actions::turns_view;
use crate::search_tree::SearchTree;
use crate::heuristics::{spec_lookup_dead_state, lookup_dead_state, spec_lookup_stranded_state,
    lookup_stranded_state, spec_lookup_branch_score, lookup_branch_score};
use crate::goals::{LookupGoal, TurnFacts, spec_goal_reached, lookup_goal_reached};
use crate::constraints::{TrapConstraints, spec_accepts};
use crate::keys::{spec_diversity_key, dropchain_diversity_key};
use crate::beam::{is_stable_order, spec_select, stable_order, select_diverse};

verus! {

broadcast use vstd::std_specs::hash::group_hash_axioms;

/// The settings of a branch search.
#[derive(Clone, Copy, Debug)]
pub struct BranchParams {
    pub goal: LookupGoal,
    pub max_depth: usize,
    pub max_nodes: usize,
    /// How many boards the diverse selection gives at most.
    pub max_results: usize,
    /// A board reaching the goal with fewer rats, and not won, is searched on instead.
    pub min_rats: Option<usize>,
    pub constraints: TrapConstraints,
    pub prune_dead: bool,
    pub prune_stranded: bool,
}

/// How many boards the search keeps while it runs: eight times the number asked for
/// (saturating), and never fewer than it.
pub open spec fn raw_limit(max_results: usize) -> int {
    let eight = if max_results * 8 > usize::MAX { usize::MAX as int } else { max_results * 8 };
    if eight >= max_results { eight } else { max_results as int }
}

/// A board that reaches the goal, the turns to it, its branch score, and its hash.
pub struct BranchFound {
    pub grid: Grid,
    pub path: Vec<Vec<Action>>,
    pub score: i64,
    pub hash: u64,
}

/// What to do next.
#[derive(Clone, Copy, Debug, PartialEq, Eq, Structural)]
pub enum BranchNext {
    /// The search ends here: time or nodes ran out, or enough boards were found.
    Stop,
    /// The frontier is empty.
    Exhausted,
    /// The node is too deep to expand.
    Dropped,
    /// Play every turn from this node and offer the boards reached.
    Expand(usize),
}

/// What became of a board one turn reached.
#[derive(Clone, Copy, Debug, PartialEq, Eq, Structural)]
pub enum BranchOffer {
    /// Dropped; nothing changed.
    Skipped,
    /// It reaches the goal; it was added to the boards found unless one with its hash was
    /// found before.
    Found,
    /// Added to the tree and the frontier as this node.
    Added(usize),
}

/// The board is dropped at once: lost, or, when asked, dead or stranded while in play and
/// short of the goal.
pub open spec fn branch_pruned(p: BranchParams, root: Grid, g: Grid, ps: PlayState, facts: TurnFacts) -> bool {
    let reached = spec_goal_reached(p.goal, root, g, ps, facts);
    ||| ps == PlayState::GameOver
    ||| (p.prune_dead && ps == PlayState::Playing && !reached && spec_lookup_dead_state(g))
    ||| (p.prune_stranded && ps == PlayState::Playing && !reached && spec_lookup_stranded_state(g))
}

/// The board counts as found: won or reaching the goal, passing the constraints, and,
/// unless won, holding at least the rats asked for.
pub open spec fn branch_found(p: BranchParams, root: Grid, g: Grid, ps: PlayState, facts: TurnFacts) -> bool {
    &&& (ps == PlayState::Won || spec_goal_reached(p.goal, root, g, ps, facts))
    &&& spec_accepts(p.constraints, g, ps)
    &&& !(ps != PlayState::Won && (p.min_rats matches Some(m) && count_of(g, CellClass::RatOrCyborg) < m))
}

/// The scores of a list of boards found.
pub open spec fn scores_of(found: Seq<BranchFound>) -> Seq<i64> {
    found.map_values(|b: BranchFound| b.score)
}

/// The diversity keys of a list of boards found.
pub open spec fn found_keys(found: Seq<BranchFound>) -> Seq<Seq<char>> {
    found.map_values(|b: BranchFound| spec_diversity_key(b.grid))
}

/// Scores in ascending order.
pub open spec fn ascending(s: Seq<i64>) -> bool {
    forall|a: int, b: int| 0 <= a < b < s.len() ==> s[a] <= s[b]
}

/// Where a board of score `score` goes in a list in ascending order of score: after all
/// boards scored no higher.
pub open spec fn insert_at(s: Seq<i64>, score: i64) -> int
    decreases s.len(),
{
    if s.len() == 0 {
        0
    } else if s.last() <= score {
        s.len() as int
    } else {
        insert_at(s.drop_last(), score)
    }
}

/// Each board found was reached within `max_depth` turns and its hash is in `reached`;
/// no two boards found share a hash.
pub open spec fn found_within(found: Seq<BranchFound>, max_depth: usize, reached: Set<u64>) -> bool {
    &&& forall|k: int| 0 <= k < found.len() ==> (#[trigger] found[k]).path@.len() <= max_depth
        && reached.contains(found[k].hash)
    &&& forall|a: int, b: int| 0 <= a < b < found.len() ==> (#[trigger] found[a]).hash != (#[trigger] found[b]).hash
}

/// The first `n` boards of a list, or all of them where there are no more.
pub open spec fn keep_first(s: Seq<BranchFound>, n: int) -> Seq<BranchFound> {
    if s.len() <= n { s } else { s.take(n) }
}

/// The state of a branch search.
pub struct BranchSearch {
    tree: SearchTree,
    visited: HashSet<u64>,
    reached: HashSet<u64>,
    queue: VecDeque<usize>,
    found: Vec<BranchFound>,
    expansions: u64,
    params: BranchParams,
}

impl BranchSearch {
    /// The frontier lies in the tree, and no node lies deeper than the depth limit; the
    /// boards found are in ascending order of score, no more than the search keeps, each
    /// reached within the depth limit, and their hashes are distinct and counted as reached.
    pub closed spec fn well_formed(&self) -> bool {
        &&& self.tree.well_formed()
        &&& forall|i: int| 0 <= i < self.queue@.len() ==> #[trigger] self.queue@[i] < self.tree.size()
        &&& forall|i: int| 0 <= i < self.tree.size() ==> #[trigger] self.tree.depth_of(i) <= self.params.max_depth
        &&& ascending(scores_of(self.found@))
        &&& self.found@.len() <= raw_limit(self.params.max_results)
        &&& found_within(self.found@, self.params.max_depth, self.reached@)
    }

    pub closed spec fn tree(&self) -> SearchTree {
        self.tree
    }

    pub closed spec fn visited(&self) -> Set<u64> {
        self.visited@
    }

    pub closed spec fn reached(&self) -> Set<u64> {
        self.reached@
    }

    pub closed spec fn queue(&self) -> Seq<usize> {
        self.queue@
    }

    pub closed spec fn found(&self) -> Seq<BranchFound> {
        self.found@
    }

    pub closed spec fn expansions(&self) -> u64 {
        self.expansions
    }

    pub closed spec fn params(&self) -> BranchParams {
        self.params
    }

    /// The start board.
    pub open spec fn root(&self) -> Grid {
        self.tree().grid_of(0)
    }

    /// A search from `root` (hash `root_hash`) holding the root alone in its frontier.
    pub fn new(root: Grid, root_hash: u64, params: BranchParams) -> (s: Self)
        ensures
            s.well_formed(),
            s.tree().size() == 1,
            s.root() == root,
            s.params() == params,
            s.visited() == Set::<u64>::empty().insert(root_hash),
            s.reached() == Set::<u64>::empty(),
            s.queue() == seq![0usize],
            s.found() == Seq::<BranchFound>::empty(),
            s.expansions() == 0,
    {
        let tree = SearchTree::new(root);
        let mut visited: HashSet<u64> = HashSet::new();
        visited.insert(root_hash);
        let mut queue: VecDeque<usize> = VecDeque::new();
        queue.push_back(0);
        proof {
            assert(queue@ =~= seq![0usize]);
            tree.lemma_shape();
        }
        BranchSearch { tree, visited, reached: HashSet::new(), queue, found: Vec::new(), expansions: 0, params }
    }

    /// How many boards the search keeps while it runs.
    pub fn result_limit(&self) -> (n: usize)
        ensures
            n == raw_limit(self.params().max_results),
    {
        let m = self.params.max_results;
        if m > usize::MAX / 8 { usize::MAX } else { m * 8 }
    }

    /// Number of nodes in the tree.
    pub fn size(&self) -> (n: usize)
        ensures
            n == self.tree().size(),
    {
        self.tree.len()
    }

    /// The board at node `i`.
    pub fn grid(&self, i: usize) -> (g: &Grid)
        requires
            i < self.tree().size(),
        ensures
            *g == self.tree().grid_of(i as int),
    {
        self.tree.grid(i)
    }

    /// The depth of node `i`.
    pub fn depth(&self, i: usize) -> (d: u32)
        requires
            i < self.tree().size(),
        ensures
            d == self.tree().depth_of(i as int),
    {
        self.tree.depth(i)
    }

    /// The boards found so far, in ascending order of score.
    pub fn found_boards(&self) -> (f: &Vec<BranchFound>)
        ensures
            f@ == self.found(),
    {
        &self.found
    }

    /// Takes the next node of the frontier. Every 128th node taken, the search stops if
    /// `time_up` or the tree has `max_nodes` nodes; it also stops once it keeps as many boards
    /// as it may; a node as deep as `max_depth` is dropped.
    pub fn next(&mut self, time_up: bool) -> (n: BranchNext)
        requires
            old(self).well_formed(),
        ensures
            final(self).well_formed(),
            final(self).tree() == old(self).tree(),
            final(self).visited() == old(self).visited(),
            final(self).reached() == old(self).reached(),
            final(self).found() == old(self).found(),
            final(self).params() == old(self).params(),
            old(self).queue().len() == 0 ==> n == BranchNext::Exhausted && final(self).queue() == old(self).queue()
                && final(self).expansions() == old(self).expansions(),
            old(self).queue().len() > 0 ==> {
                let idx = old(self).queue()[0];
                let e = old(self).expansions() + 1;
                &&& final(self).queue() == old(self).queue().drop_first()
                &&& final(self).expansions() == if e > u64::MAX { u64::MAX as int } else { e }
                &&& if final(self).expansions() % 128 == 0
                    && (time_up || old(self).tree().size() >= old(self).params().max_nodes) {
                    n == BranchNext::Stop
                } else if old(self).found().len() >= raw_limit(old(self).params().max_results) {
                    n == BranchNext::Stop
                } else if old(self).tree().depth_of(idx as int) >= old(self).params().max_depth {
                    n == BranchNext::Dropped
                } else {
                    n == BranchNext::Expand(idx)
                }
            },
    {
        match self.queue.pop_front() {
            None => BranchNext::Exhausted,
            Some(idx) => {
                proof {
                    assert(old(self).queue@[0] < self.tree.size());
                    assert(self.queue@ =~= old(self).queue@.drop_first());
                }
                self.expansions = self.expansions.saturating_add(1);
                if self.expansions % 128 == 0 && (time_up || self.tree.len() >= self.params.max_nodes) {
                    BranchNext::Stop
                } else if self.found.len() >= self.result_limit() {
                    BranchNext::Stop
                } else if self.tree.depth(idx) as usize >= self.params.max_depth {
                    BranchNext::Dropped
                } else {
                    BranchNext::Expand(idx)
                }
            },
        }
    }

    /// Decides what to do with the board `child` that the turn `action` reached from node
    /// `parent`, in play state `play_state`, with hash `hash`; `facts` tells what a turn from
    /// `child` could do. Pruned boards are skipped. A board that counts as found joins the
    /// boards found, after those scored no higher, unless its hash was found before; the
    /// list is then cut to what the search keeps. Any other board not seen before joins the
    /// tree and the frontier.
    #[verifier::rlimit(40)]
    pub fn offer(&mut self, parent: usize, action: Vec<Action>, child: Grid, play_state: PlayState, hash: u64, facts: &TurnFacts) -> (o: BranchOffer)
        requires
            old(self).well_formed(),
            parent < old(self).tree().size(),
            old(self).tree().depth_of(parent as int) < old(self).params().max_depth,
            old(self).tree().depth_of(parent as int) < u32::MAX,
            old(self).tree().size() < usize::MAX,
        ensures
            final(self).well_formed(),
            final(self).params() == old(self).params(),
            final(self).expansions() == old(self).expansions(),
            final(self).root() == old(self).root(),
            ({
                let p = old(self).params();
                let root = old(self).root();
                if branch_pruned(p, root, child, play_state, *facts) {
                    o == BranchOffer::Skipped
                } else if branch_found(p, root, child, play_state, *facts) {
                    o == BranchOffer::Found
                } else if old(self).visited().contains(hash) {
                    o == BranchOffer::Skipped
                } else {
                    o == BranchOffer::Added(old(self).tree().size() as usize)
                }
            }),
            o == BranchOffer::Skipped ==> {
                &&& final(self).tree() == old(self).tree()
                &&& final(self).visited() == old(self).visited()
                &&& final(self).reached() == old(self).reached()
                &&& final(self).queue() == old(self).queue()
                &&& final(self).found() == old(self).found()
            },
            o == BranchOffer::Found ==> {
                &&& final(self).tree() == old(self).tree()
                &&& final(self).visited() == old(self).visited()
                &&& final(self).queue() == old(self).queue()
                &&& final(self).reached() == old(self).reached().insert(hash)
                &&& (old(self).reached().contains(hash) ==> final(self).found() == old(self).found())
                &&& (!old(self).reached().contains(hash) ==> exists|b: BranchFound| {
                    &&& b.grid == child
                    &&& b.hash == hash
                    &&& turns_view(b.path@) == old(self).tree().path(parent as int).push(action@)
                    &&& b.score == spec_lookup_branch_score(child, b.path@.len() as int)
                    &&& final(self).found() == keep_first(old(self).found()
                        .insert(insert_at(scores_of(old(self).found()), b.score), b)
                        , raw_limit(old(self).params().max_results))
                })
            },
            o matches BranchOffer::Added(i) ==> {
                &&& final(self).tree().size() == old(self).tree().size() + 1
                &&& final(self).tree().grid_of(i as int) == child
                &&& final(self).tree().depth_of(i as int) == old(self).tree().depth_of(parent as int) + 1
                &&& final(self).tree().path(i as int) == old(self).tree().path(parent as int).push(action@)
                &&& final(self).visited() == old(self).visited().insert(hash)
                &&& final(self).reached() == old(self).reached()
                &&& final(self).queue() == old(self).queue().push(i)
                &&& final(self).found() == old(self).found()
            },
    {
        proof {
            self.tree.lemma_shape();
        }
        let p = self.params;
        if play_state == PlayState::GameOver {
            return BranchOffer::Skipped;
        }
        let reached_goal = lookup_goal_reached(p.goal, self.tree.grid(0), &child, play_state, facts);
        if p.prune_dead && play_state == PlayState::Playing && !reached_goal && lookup_dead_state(&child) {
            return BranchOffer::Skipped;
        }
        if p.prune_stranded && play_state == PlayState::Playing && !reached_goal && lookup_stranded_state(&child) {
            return BranchOffer::Skipped;
        }
        let goal_reached = play_state == PlayState::Won || reached_goal;
        if goal_reached && p.constraints.accepts(&child, play_state) {
            let too_few = match p.min_rats {
                Some(m) => play_state != PlayState::Won && count_rats(&child) < m,
                None => false,
            };
            if !too_few {
                if self.reached.insert(hash) {
                    let mut path = self.tree.reconstruct(parent);
                    proof {
                        self.tree.law_path_length_is_depth(parent as int);
                    }
                    let ghost av = action@;
                    path.push(action);
                    proof {
                        assert(turns_view(path@) =~= self.tree.path(parent as int).push(av));
                    }
                    let score = lookup_branch_score(&child, path.len());
                    let bf = BranchFound { grid: child, path, score, hash };
                    let ghost w = bf;
                    self.insert_found(bf);
                    proof {
                        assert(w.grid == child);
                        assert(turns_view(w.path@) == old(self).tree().path(parent as int).push(action@));
                    }
                }
                return BranchOffer::Found;
            }
        }
        if self.visited.insert(hash) {
            let ghost old_tree = self.tree;
            let i = self.tree.push_child(parent, action, child);
            proof {
                SearchTree::lemma_path_stable(&old_tree, &self.tree, parent as int);
            }
            self.queue.push_back(i);
            BranchOffer::Added(i)
        } else {
            BranchOffer::Skipped
        }
    }

    /// Puts `b` among the boards found after those scored no higher, then cuts the list to
    /// what the search keeps.
    fn insert_found(&mut self, b: BranchFound)
        requires
            old(self).well_formed(),
            b.path@.len() <= old(self).params().max_depth,
            old(self).reached().contains(b.hash),
            forall|k: int| 0 <= k < old(self).found().len() ==> (#[trigger] old(self).found()[k]).hash != b.hash,
        ensures
            final(self).well_formed(),
            final(self).tree() == old(self).tree(),
            final(self).visited() == old(self).visited(),
            final(self).reached() == old(self).reached(),
            final(self).queue() == old(self).queue(),
            final(self).params() == old(self).params(),
            final(self).expansions() == old(self).expansions(),
            final(self).found() == keep_first(old(self).found()
                .insert(insert_at(scores_of(old(self).found()), b.score), b)
                , raw_limit(old(self).params().max_results)),
    {
        let ghost s = scores_of(self.found@);
        proof {
            assert(s.subrange(0, s.len() as int) =~= s);
        }
        let mut pos = self.found.len();
        while pos > 0 && self.found[pos - 1].score > b.score
            invariant
                pos <= self.found@.len(),
                s == scores_of(self.found@),
                ascending(s),
                insert_at(s, b.score) == insert_at(s.subrange(0, pos as int), b.score),
                forall|k: int| pos <= k < s.len() ==> s[k] > b.score,
            decreases pos,
        {
            proof {
                let pre = s.subrange(0, pos as int);
                assert(pre.drop_last() =~= s.subrange(0, pos - 1));
                assert(pre.last() == s[pos - 1]);
            }
            pos = pos - 1;
        }
        proof {
            let pre = s.subrange(0, pos as int);
            if pos > 0 {
                assert(pre.last() == s[pos - 1]);
            }
            assert(insert_at(pre, b.score) == pos);
            assert forall|k: int| 0 <= k < pos implies s[k] <= b.score by {
                assert(s[k] <= s[pos - 1]);
            }
        }
        let limit = self.result_limit();
        let ghost old_found = self.found@;
        let ghost bs = b.score;
        let ghost bv = b;
        self.found.insert(pos, b);
        let ghost ins = self.found@;
        self.found.truncate(limit);
        proof {
            assert(self.found@ =~= keep_first(ins, limit as int));
            assert forall|j: int| 0 <= j < ins.len() implies #[trigger] ins[j] ==
                (if j < pos { old_found[j] } else if j == pos { bv } else { old_found[j - 1] }) by {}
            let fs = self.found@;
            assert forall|k: int| 0 <= k < fs.len() implies (#[trigger] fs[k]).path@.len() <= self.params.max_depth
                && self.reached@.contains(fs[k].hash) by {
                assert(fs[k] == ins[k]);
            }
            assert forall|a: int, c: int| 0 <= a < c < fs.len() implies (#[trigger] fs[a]).hash != (#[trigger] fs[c]).hash by {
                assert(fs[a] == ins[a]);
                assert(fs[c] == ins[c]);
                if a < pos && c > pos {
                    assert(old_found[a].hash != old_found[c - 1].hash);
                } else if a > pos {
                    assert(old_found[a - 1].hash != old_found[c - 1].hash);
                } else if c < pos {
                    assert(old_found[a].hash != old_found[c].hash);
                } else if a == pos {
                    assert(old(self).found()[c - 1].hash != bv.hash);
                } else {
                    assert(old(self).found()[a].hash != bv.hash);
                }
            }
            let ns = scores_of(self.found@);
            assert forall|j: int| 0 <= j < ins.len() implies #[trigger] ins[j].score ==
                (if j < pos { s[j] } else if j == pos { bs } else { s[j - 1] }) by {
                if j < pos {
                    assert(ins[j] == old_found[j]);
                } else if j > pos {
                    assert(ins[j] == old_found[j - 1]);
                }
            }
            assert forall|a: int, c: int| 0 <= a < c < ns.len() implies ns[a] <= ns[c] by {
                assert(ns[a] == self.found@[a].score);
                assert(ns[c] == self.found@[c].score);
                assert(self.found@[a] == ins[a]);
                assert(self.found@[c] == ins[c]);
                assert(ins[a].score == (if a < pos { s[a] } else if a == pos { bs } else { s[a - 1] }));
                assert(ins[c].score == (if c < pos { s[c] } else if c == pos { bs } else { s[c - 1] }));
                if c > pos && a != pos && a < pos {
                    assert(s[a] <= s[c - 1]);
                } else if c > pos && a > pos {
                    assert(s[a - 1] <= s[c - 1]);
                }
            }
        }
    }

    /// The boards found are no more than the search keeps, in ascending order of score,
    /// each reached within the depth limit, with hashes all different; every node of the
    /// tree lies within the depth limit too.
    pub proof fn law_found_boards(&self)
        requires
            self.well_formed(),
        ensures
            self.found().len() <= raw_limit(self.params().max_results),
            ascending(scores_of(self.found())),
            forall|k: int| 0 <= k < self.found().len() ==> (#[trigger] self.found()[k]).path@.len() <= self.params().max_depth,
            forall|a: int, b: int| 0 <= a < b < self.found().len() ==>
                (#[trigger] self.found()[a]).hash != (#[trigger] self.found()[b]).hash,
            forall|i: int| 0 <= i < self.tree().size() ==> #[trigger] self.tree().depth_of(i) <= self.params().max_depth,
    {
    }

    /// The boards found that a diverse selection keeps: by their indices in the list found,
    /// walked in ascending order of score, boards with a new diversity key first, then the
    /// rest, at most `max_results` of them.
    pub fn diverse_picks(&self) -> (picks: Vec<usize>)
        requires
            self.well_formed(),
        ensures
            exists|ord: Seq<usize>| {
                &&& is_stable_order(scores_of(self.found()), ord)
                &&& picks@ == spec_select(ord, Seq::new(self.found().len(), |i: int| 0u64),
                    found_keys(self.found()), false, self.params().max_results as nat)
            },
            forall|k: int| 0 <= k < picks@.len() ==> #[trigger] picks@[k] < self.found().len(),
    {
        let n = self.found.len();
        let mut scores: Vec<i64> = Vec::new();
        let mut keys: Vec<String> = Vec::new();
        let mut zeros: Vec<u64> = Vec::new();
        let mut i: usize = 0;
        while i < n
            invariant
                n == self.found@.len(),
                i <= n,
                scores@ == scores_of(self.found@).take(i as int),
                keys@.len() == i,
                forall|k: int| 0 <= k < i ==> #[trigger] keys@[k]@ == spec_diversity_key(self.found@[k].grid),
                zeros@ == Seq::new(i as nat, |j: int| 0u64),
            decreases n - i,
        {
            scores.push(self.found[i].score);
            keys.push(dropchain_diversity_key(&self.found[i].grid));
            zeros.push(0);
            i = i + 1;
            proof {
                assert(scores@ =~= scores_of(self.found@).take(i as int));
                assert(zeros@ =~= Seq::new(i as nat, |j: int| 0u64));
            }
        }
        proof {
            assert(scores@ =~= scores_of(self.found@));
            assert(crate::beam::key_views(keys@) =~= found_keys(self.found@));
        }
        let ord = stable_order(&scores);
        let picks = select_diverse(&ord, &zeros, &keys, false, self.params.max_results);
        proof {
            lemma_select_in_range(ord@, zeros@, found_keys(self.found@), false, self.params.max_results as nat, n as nat);
            assert(zeros@ =~= Seq::new(self.found@.len(), |i: int| 0u64));
            assert(is_stable_order(scores_of(self.found()), ord@));
            assert(picks@ == spec_select(ord@, Seq::new(self.found().len(), |i: int| 0u64),
                    found_keys(self.found()), false, self.params().max_results as nat));
        }
        picks
    }
}

/// The indices a selection picks come from the order walked.
pub proof fn lemma_select_in_range(ord: Seq<usize>, hashes: Seq<u64>, keys: Seq<Seq<char>>, dedup: bool, limit: nat, n: nat)
    requires
        forall|k: int| 0 <= k < ord.len() ==> #[trigger] ord[k] < n,
    ensures
        forall|k: int| 0 <= k < spec_select(ord, hashes, keys, dedup, limit).len() ==>
            #[trigger] spec_select(ord, hashes, keys, dedup, limit)[k] < n,
{
    lemma_scan_in_range(ord, hashes, keys, dedup, limit, n, ord.len());
}

proof fn lemma_scan_in_range(ord: Seq<usize>, hashes: Seq<u64>, keys: Seq<Seq<char>>, dedup: bool, limit: nat, n: nat, k: nat)
    requires
        k <= ord.len(),
        forall|j: int| 0 <= j < ord.len() ==> #[trigger] ord[j] < n,
    ensures
        forall|j: int| 0 <= j < crate::beam::scan_beam(ord, hashes, keys, dedup, limit, k).kept.len() ==>
            #[trigger] crate::beam::scan_beam(ord, hashes, keys, dedup, limit, k).kept[j] < n,
        forall|j: int| 0 <= j < crate::beam::scan_beam(ord, hashes, keys, dedup, limit, k).deferred.len() ==>
            #[trigger] crate::beam::scan_beam(ord, hashes, keys, dedup, limit, k).deferred[j] < n,
    decreases k,
{
    if k > 0 {
        lemma_scan_in_range(ord, hashes, keys, dedup, limit, n, (k - 1) as nat);
        assert(ord[k - 1] < n);
        let s0 = crate::beam::scan_beam(ord, hashes, keys, dedup, limit, (k - 1) as nat);
        let s1 = crate::beam::scan_beam(ord, hashes, keys, dedup, limit, k);
        assert forall|j: int| 0 <= j < s1.kept.len() implies #[trigger] s1.kept[j] < n by {
            if j < s0.kept.len() {
                assert(s0.kept[j] < n);
            }
        }
        assert forall|j: int| 0 <= j < s1.deferred.len() implies #[trigger] s1.deferred[j] < n by {
            if j < s0.deferred.len() {
                assert(s0.deferred[j] < n);
            }
        }
    }
}

} // verus!
