//! A chain of branch searches, as a sequence of decisions. At each step, from each branch
//! the beam keeps, a branch search looks for the next trigger of an order, for any trigger
//! the board holds, or for a rat drop; the paths are joined, a board with no rats left ends
//! the chain at once, and the best diverse branches are kept for the next step. Before each
//! step, when asked, and after the last one, the chain tries to finish the level from the
//! kept branches with a plain search. Whoever drives the chain runs the searches.

use vstd::prelude::*;
use crate::model::{Action, Grid};
use crate::cells::CellClass;
use crate::scan::count_of;
use crate::features::{Features, spec_features};
use crate::actions::turns_view;
use crate::goals::LookupGoal;
use crate::heuristics::{Tuning, heuristic, spec_lookup_branch_score, lookup_branch_score};
use crate::chain::{triggers_below, trigger_numbers, spec_next_remaining, next_remaining_trigger,
    spec_chain_branch_score, chain_branch_score};
use crate::keys::{spec_diversity_key, dropchain_diversity_key};
use crate::beam::{is_stable_order, spec_select, stable_order, select_diverse, key_views};
use crate::branch_search::{BranchFound, lemma_select_in_range};
use crate::beam_search::join_turns;

verus! {

/// What each step of a chain searches for.
#[derive(Clone, Copy, Debug, PartialEq, Eq, Structural)]
pub enum ChainKind {
    /// The triggers of an order, one per step; a trigger of the number used up counts.
    TriggerOrder,
    /// The triggers of an order, one per step; only triggers of the number may be used up.
    StrictTriggerOrder,
    /// Every trigger number the branch's board holds.
    AnyTrigger,
    /// A rat drop.
    RatDrop,
}

/// A branch of the chain: its board, the turns from the start, its score and its hash.
pub struct ChainBranch {
    pub grid: Grid,
    pub path: Vec<Vec<Action>>,
    pub score: i64,
    pub hash: u64,
}

/// What to do next.
#[derive(Clone, Copy, Debug, PartialEq, Eq, Structural)]
pub enum ChainNext {
    /// Try to finish the level from this branch with a plain search.
    Mop(usize),
    /// Run a branch search from this branch towards the goal, and offer what it finds; with
    /// the flag set, the rat floor and the trap constraints apply.
    Branch(usize, LookupGoal, bool),
    /// Nothing is left to try: the chain failed.
    Failed,
}

/// What became of the boards a branch search found.
pub enum ChainOffer {
    /// A board with no rats left: the turns from the start to it.
    Solved(Vec<Vec<Action>>),
    /// The boards became branches, in order.
    Added,
    /// A branch's score does not fit a 64-bit integer, or its path is too long to score.
    Overflow,
}

/// Where the chain stands.
#[derive(Clone, Copy, Debug, PartialEq, Eq, Structural)]
pub enum ChainPhase {
    /// Working through the steps.
    Steps,
    /// Trying to finish from the branches kept after the last step.
    Final,
    /// Done.
    Over,
}

/// The number of steps: one per trigger of the order, or as many as asked.
pub open spec fn total_steps(kind: ChainKind, order: Seq<u8>, steps: usize) -> int {
    if kind == ChainKind::TriggerOrder || kind == ChainKind::StrictTriggerOrder { order.len() as int } else { steps as int }
}

/// The goal of step `step` for the kinds with one goal per step.
pub open spec fn step_goal(kind: ChainKind, order: Seq<u8>, step: int) -> LookupGoal {
    match kind {
        ChainKind::TriggerOrder => LookupGoal::TriggerNumber(order[step]),
        ChainKind::StrictTriggerOrder => LookupGoal::TriggerNumberOnly(order[step]),
        _ => LookupGoal::RatDrop,
    }
}

/// The branch searches from the branch at `p`, whose board is `g`, at step `step`.
pub open spec fn branch_tasks(kind: ChainKind, order: Seq<u8>, step: int, p: usize, g: Grid) -> Seq<ChainNext> {
    if kind == ChainKind::AnyTrigger {
        triggers_below(g, 256).map_values(|n: u8| ChainNext::Branch(p, LookupGoal::TriggerNumber(n), true))
    } else {
        seq![ChainNext::Branch(p, step_goal(kind, order, step), kind != ChainKind::RatDrop)]
    }
}

/// The branch searches from the first `k` branches of `cur`, in order.
pub open spec fn search_tasks(kind: ChainKind, order: Seq<u8>, step: int, pool: Seq<ChainBranch>, cur: Seq<usize>, k: int) -> Seq<ChainNext>
    decreases k,
{
    if k <= 0 {
        Seq::empty()
    } else {
        search_tasks(kind, order, step, pool, cur, k - 1) + branch_tasks(kind, order, step, cur[k - 1], pool[cur[k - 1] as int].grid)
    }
}

/// Finishing attempts from the first `k` branches of `cur`, in order.
pub open spec fn mop_tasks(cur: Seq<usize>, k: int) -> Seq<ChainNext> {
    Seq::new(k as nat, |i: int| ChainNext::Mop(cur[i]))
}

/// How many branches a step works from: the beam, or all of them where there are fewer.
pub open spec fn worked(beam: usize, n: int) -> int {
    if (beam as int) < n { beam as int } else { n }
}

/// The work of step `step` from the branches `cur`: finishing attempts first, when asked,
/// then the branch searches.
pub open spec fn step_tasks(kind: ChainKind, order: Seq<u8>, step: int, mop: bool, beam: usize,
    pool: Seq<ChainBranch>, cur: Seq<usize>) -> Seq<ChainNext> {
    let k = worked(beam, cur.len() as int);
    (if mop { mop_tasks(cur, k) } else { Seq::empty() }) + search_tasks(kind, order, step, pool, cur, k)
}

/// The work after the last step: a finishing attempt from every branch kept, except in a
/// rat drop chain not asked to finish between steps.
pub open spec fn final_tasks(kind: ChainKind, mop: bool, cur: Seq<usize>) -> Seq<ChainNext> {
    if kind == ChainKind::RatDrop && !mop { Seq::empty() } else { mop_tasks(cur, cur.len() as int) }
}

/// The scores of the branches at `idx`.
pub open spec fn scores_at(pool: Seq<ChainBranch>, idx: Seq<usize>) -> Seq<i64> {
    idx.map_values(|p: usize| pool[p as int].score)
}

/// The branches at `fresh` that the beam picks, walking them in the order `ord`: boards
/// seen before left out, new diversity keys first, at most `beam` of them (see `spec_select`).
pub open spec fn beam_picks(pool: Seq<ChainBranch>, fresh: Seq<usize>, beam: usize, ord: Seq<usize>) -> Seq<usize> {
    spec_select(ord, fresh.map_values(|p: usize| pool[p as int].hash),
        fresh.map_values(|p: usize| spec_diversity_key(pool[p as int].grid)), true, beam as nat)
        .map_values(|k: usize| fresh[k as int])
}

/// `kept` is what the beam keeps of the branches at `fresh`: walked in ascending order of
/// score, the picks of `beam_picks`, then put in ascending order of score.
pub open spec fn kept_beam(pool: Seq<ChainBranch>, fresh: Seq<usize>, beam: usize, kept: Seq<usize>) -> bool {
    exists|ord: Seq<usize>, ord2: Seq<usize>|
        #![trigger is_stable_order(scores_at(pool, fresh), ord), is_stable_order(scores_at(pool, beam_picks(pool, fresh, beam, ord)), ord2)]
    {
        &&& is_stable_order(scores_at(pool, fresh), ord)
        &&& is_stable_order(scores_at(pool, beam_picks(pool, fresh, beam, ord)), ord2)
        &&& kept == ord2.map_values(|j: usize| beam_picks(pool, fresh, beam, ord)[j as int])
    }
}

/// The score of a branch reached at step `step`, whose board is `g` and path `len` turns
/// long, the step having gone from features `before` to `after`.
pub open spec fn spec_step_score(kind: ChainKind, order: Seq<u8>, step: int, g: Grid, len: int, before: Features, after: Features) -> int {
    match kind {
        ChainKind::RatDrop => spec_lookup_branch_score(g, len),
        ChainKind::AnyTrigger => spec_chain_branch_score(g, len, before, after, None),
        _ => spec_chain_branch_score(g, len, before, after, spec_next_remaining(g, order, step + 1)),
    }
}

/// The turns to a found board, from the start: the base branch's turns, then the found ones.
pub open spec fn joined(base: ChainBranch, f: BranchFound) -> Seq<Seq<Action>> {
    turns_view(base.path@) + turns_view(f.path@)
}

/// The found board has no rats left.
pub open spec fn clears(f: BranchFound) -> bool {
    count_of(f.grid, CellClass::RatOrCyborg) == 0
}

/// The found board can be scored as a branch.
pub open spec fn scorable(kind: ChainKind, order: Seq<u8>, step: int, base: ChainBranch, f: BranchFound) -> bool {
    let len = joined(base, f).len() as int;
    let s = spec_step_score(kind, order, step, f.grid, len, spec_features(base.grid), spec_features(f.grid));
    len <= 4_000_000_000_000_000_000 && i64::MIN <= s <= i64::MAX
}

/// The branch a found board becomes.
pub open spec fn becomes(kind: ChainKind, order: Seq<u8>, step: int, base: ChainBranch, f: BranchFound, b: ChainBranch) -> bool {
    &&& b.grid == f.grid
    &&& turns_view(b.path@) == joined(base, f)
    &&& b.hash == f.hash
    &&& b.score == spec_step_score(kind, order, step, f.grid, joined(base, f).len() as int,
        spec_features(base.grid), spec_features(f.grid))
}

/// The found boards before `k` neither clear the rats nor fail to score.
pub open spec fn plain_before(kind: ChainKind, order: Seq<u8>, step: int, base: ChainBranch, found: Seq<BranchFound>, k: int) -> bool {
    forall|j: int| 0 <= j < k ==> !clears(#[trigger] found[j]) && scorable(kind, order, step, base, found[j])
}

/// What the beam keeps of the new branches at `fresh`; see `kept_beam`.
pub(crate) fn keep_branches(pool_v: &Vec<ChainBranch>, fresh_v: &Vec<usize>, beam: usize) -> (kept: Vec<usize>)
    requires
        forall|k: int| 0 <= k < fresh_v@.len() ==> #[trigger] fresh_v@[k] < pool_v@.len(),
    ensures
        kept_beam(pool_v@, fresh_v@, beam, kept@),
        forall|k: int| 0 <= k < kept@.len() ==> #[trigger] kept@[k] < pool_v@.len(),
{
    let ghost pool = pool_v@;
    let ghost fresh = fresh_v@;
    let n = fresh_v.len();
    let mut scores: Vec<i64> = Vec::new();
    let mut hashes: Vec<u64> = Vec::new();
    let mut keys: Vec<String> = Vec::new();
    let mut i: usize = 0;
    while i < n
        invariant
            n == fresh.len(),
            fresh == fresh_v@,
            pool == pool_v@,
            forall|k: int| 0 <= k < fresh_v@.len() ==> #[trigger] fresh_v@[k] < pool_v@.len(),
            i <= n,
            scores@ == scores_at(pool, fresh.take(i as int)),
            hashes@ == fresh.take(i as int).map_values(|p: usize| pool[p as int].hash),
            key_views(keys@) == fresh.take(i as int).map_values(|p: usize| spec_diversity_key(pool[p as int].grid)),
        decreases n - i,
    {
        let p = fresh_v[i];
        let ghost kv0 = key_views(keys@);
        scores.push(pool_v[p].score);
        hashes.push(pool_v[p].hash);
        keys.push(dropchain_diversity_key(&pool_v[p].grid));
        i = i + 1;
        proof {
            assert(fresh.take(i as int) =~= fresh.take(i - 1).push(fresh[i - 1]));
            assert(scores@ =~= scores_at(pool, fresh.take(i as int)));
            assert(hashes@ =~= fresh.take(i as int).map_values(|p: usize| pool[p as int].hash));
            assert(key_views(keys@) =~= kv0.push(spec_diversity_key(pool[p as int].grid)));
            assert(key_views(keys@) =~= fresh.take(i as int).map_values(|p: usize| spec_diversity_key(pool[p as int].grid)));
        }
    }
    proof {
        assert(fresh.take(n as int) =~= fresh);
    }
    let ord = stable_order(&scores);
    let picks = select_diverse(&ord, &hashes, &keys, true, beam);
    proof {
        lemma_select_in_range(ord@, hashes@, key_views(keys@), true, beam as nat, n as nat);
    }
    let ghost bp = beam_picks(pool, fresh, beam, ord@);
    let mut picked: Vec<usize> = Vec::new();
    let mut scores2: Vec<i64> = Vec::new();
    let mut j: usize = 0;
    while j < picks.len()
        invariant
            n == fresh.len(),
            fresh == fresh_v@,
            pool == pool_v@,
            forall|k: int| 0 <= k < fresh_v@.len() ==> #[trigger] fresh_v@[k] < pool_v@.len(),
            j <= picks@.len(),
            forall|k: int| 0 <= k < picks@.len() ==> #[trigger] picks@[k] < n,
            bp == picks@.map_values(|k: usize| fresh[k as int]),
            picked@ == bp.take(j as int),
            scores2@ == scores_at(pool, bp.take(j as int)),
        decreases picks@.len() - j,
    {
        let p = fresh_v[picks[j]];
        picked.push(p);
        scores2.push(pool_v[p].score);
        j = j + 1;
        proof {
            assert(bp.take(j as int) =~= bp.take(j - 1).push(bp[j - 1]));
            assert(picked@ =~= bp.take(j as int));
            assert(scores2@ =~= scores_at(pool, bp.take(j as int)));
        }
    }
    proof {
        assert(bp.take(picks@.len() as int) =~= bp);
    }
    let ord2 = stable_order(&scores2);
    let mut kept: Vec<usize> = Vec::new();
    let mut k: usize = 0;
    while k < ord2.len()
        invariant
            fresh == fresh_v@,
            pool == pool_v@,
            forall|k: int| 0 <= k < fresh_v@.len() ==> #[trigger] fresh_v@[k] < pool_v@.len(),
            picked@ == bp,
            is_stable_order(scores_at(pool, bp), ord2@),
            forall|q: int| 0 <= q < bp.len() ==> #[trigger] bp[q] < pool.len(),
            k <= ord2@.len(),
            kept@ == ord2@.take(k as int).map_values(|q: usize| bp[q as int]),
        decreases ord2@.len() - k,
    {
        kept.push(picked[ord2[k]]);
        k = k + 1;
        proof {
            assert(ord2@.take(k as int) =~= ord2@.take(k - 1).push(ord2@[k - 1]));
            assert(kept@ =~= ord2@.take(k as int).map_values(|q: usize| bp[q as int]));
        }
    }
    proof {
        assert(ord2@.take(ord2@.len() as int) =~= ord2@);
        assert(is_stable_order(scores_at(pool, fresh), ord@));
        assert(kept_beam(pool, fresh, beam, kept@));
    }
    kept
}

/// The state of a chain.
pub struct ChainSearch {
    kind: ChainKind,
    order: Vec<u8>,
    steps: usize,
    beam: usize,
    mop_between: bool,
    pool: Vec<ChainBranch>,
    current: Vec<usize>,
    fresh: Vec<usize>,
    tasks: Vec<ChainNext>,
    cursor: usize,
    step: usize,
    phase: ChainPhase,
}

/// Every task names a branch of the pool.
pub open spec fn tasks_in(tasks: Seq<ChainNext>, n: int) -> bool {
    forall|k: int| 0 <= k < tasks.len() ==> match #[trigger] tasks[k] {
        ChainNext::Mop(p) => p < n,
        ChainNext::Branch(p, _, _) => p < n,
        ChainNext::Failed => true,
    }
}

impl ChainSearch {
    /// The branches, kept and new, and the tasks name branches of the pool; a chain along an
    /// order has one step per trigger of it; while steps remain, one is under way.
    pub closed spec fn well_formed(&self) -> bool {
        &&& (self.kind == ChainKind::TriggerOrder || self.kind == ChainKind::StrictTriggerOrder ==> self.steps == self.order@.len())
        &&& (self.phase == ChainPhase::Steps ==> self.step < self.steps)
        &&& forall|k: int| 0 <= k < self.current@.len() ==> #[trigger] self.current@[k] < self.pool@.len()
        &&& forall|k: int| 0 <= k < self.fresh@.len() ==> #[trigger] self.fresh@[k] < self.pool@.len()
        &&& tasks_in(self.tasks@, self.pool@.len() as int)
        &&& self.cursor <= self.tasks@.len()
    }

    pub closed spec fn kind(&self) -> ChainKind { self.kind }
    pub closed spec fn order(&self) -> Seq<u8> { self.order@ }
    pub closed spec fn steps(&self) -> usize { self.steps }
    pub closed spec fn beam(&self) -> usize { self.beam }
    pub closed spec fn mop_between(&self) -> bool { self.mop_between }
    pub closed spec fn pool(&self) -> Seq<ChainBranch> { self.pool@ }
    pub closed spec fn current(&self) -> Seq<usize> { self.current@ }
    pub closed spec fn fresh(&self) -> Seq<usize> { self.fresh@ }
    pub closed spec fn tasks(&self) -> Seq<ChainNext> { self.tasks@ }
    pub closed spec fn cursor(&self) -> nat { self.cursor as nat }
    pub closed spec fn step(&self) -> nat { self.step as nat }
    pub closed spec fn phase(&self) -> ChainPhase { self.phase }

    /// The number of steps of this chain.
    pub open spec fn total(&self) -> int {
        total_steps(self.kind(), self.order(), self.steps())
    }

    /// The work from the kept branches `cur` once `step` steps are done: that step's work
    /// while steps remain, otherwise the finishing attempts.
    pub open spec fn work_at(&self, step: int, cur: Seq<usize>) -> Seq<ChainNext> {
        if step < self.total() {
            step_tasks(self.kind(), self.order(), step, self.mop_between(), self.beam(), self.pool(), cur)
        } else {
            final_tasks(self.kind(), self.mop_between(), cur)
        }
    }

    /// A chain from `root` (hash `root_hash`): the root is the one branch, scored by its
    /// general score (by its branch score in a rat drop chain), and the first step's work,
    /// or the finishing attempts where there are no steps, is lined up. A chain along an
    /// order has one step per trigger of it; other chains have `steps` steps.
    pub fn new(root: Grid, root_hash: u64, kind: ChainKind, order: Vec<u8>, steps: usize, beam: usize,
        mop_between: bool, tuning: Tuning) -> (s: Self)
        ensures
            s.well_formed(),
            s.kind() == kind,
            s.order() == order@,
            s.beam() == beam,
            s.mop_between() == mop_between,
            s.total() == total_steps(kind, order@, steps),
            s.pool().len() == 1,
            s.pool()[0].grid == root,
            s.pool()[0].path@.len() == 0,
            s.pool()[0].hash == root_hash,
            s.pool()[0].score == (if kind == ChainKind::RatDrop { spec_lookup_branch_score(root, 0) }
                else { crate::heuristics::spec_heuristic(root, tuning) }),
            s.current() == seq![0usize],
            s.fresh() == Seq::<usize>::empty(),
            s.step() == 0,
            s.cursor() == 0,
            s.tasks() == s.work_at(0, seq![0usize]),
            s.phase() == (if 0 < s.total() { ChainPhase::Steps } else { ChainPhase::Final }),
    {
        let score = if kind == ChainKind::RatDrop { lookup_branch_score(&root, 0) } else { heuristic(&root, tuning) };
        let total = if kind == ChainKind::TriggerOrder || kind == ChainKind::StrictTriggerOrder { order.len() } else { steps };
        let mut pool: Vec<ChainBranch> = Vec::new();
        pool.push(ChainBranch { grid: root, path: Vec::new(), score, hash: root_hash });
        let mut current: Vec<usize> = Vec::new();
        current.push(0);
        let phase = if 0 < total { ChainPhase::Steps } else { ChainPhase::Final };
        let mut c = ChainSearch {
            kind, order, steps: total, beam, mop_between, pool, current, fresh: Vec::new(),
            tasks: Vec::new(), cursor: 0, step: 0, phase,
        };
        let cur = vec![0usize];
        proof {
            assert(cur@ =~= seq![0usize]);
        }
        let t = c.build_work(0, &cur);
        c.tasks = t;
        c
    }

    /// Where the chain stands.
    pub fn current_phase(&self) -> (p: ChainPhase)
        ensures
            p == self.phase(),
    {
        self.phase
    }

    /// Number of branches made so far; a branch keeps its index.
    pub fn pool_size(&self) -> (n: usize)
        ensures
            n == self.pool().len(),
    {
        self.pool.len()
    }

    /// The board of branch `p`.
    pub fn branch_grid(&self, p: usize) -> (g: &Grid)
        requires
            p < self.pool().len(),
        ensures
            *g == self.pool()[p as int].grid,
    {
        &self.pool[p].grid
    }

    /// The score of branch `p`.
    pub fn branch_score(&self, p: usize) -> (v: i64)
        requires
            p < self.pool().len(),
        ensures
            v == self.pool()[p as int].score,
    {
        self.pool[p].score
    }

    /// The turns from the start to branch `p`.
    pub fn branch_path(&self, p: usize) -> (path: &Vec<Vec<Action>>)
        requires
            p < self.pool().len(),
        ensures
            path@ == self.pool()[p as int].path@,
    {
        &self.pool[p].path
    }

    /// The turns from the start through branch `p` and then `suffix`: the path when a
    /// finishing attempt from branch `p` succeeds with `suffix`.
    pub fn finish(&self, p: usize, suffix: Vec<Vec<Action>>) -> (path: Vec<Vec<Action>>)
        requires
            p < self.pool().len(),
        ensures
            turns_view(path@) == turns_view(self.pool()[p as int].path@) + turns_view(suffix@),
    {
        join_turns(&self.pool[p].path, suffix)
    }

    /// Hands out the next piece of work. When a step's work is done, the step ends: with no
    /// new branch the chain fails; otherwise the beam keeps its branches (see `kept_beam`),
    /// the next step's work, or after the last step the finishing attempts, is lined up, and
    /// its first piece handed out. Once the finishing attempts are done the chain fails.
    pub fn next(&mut self) -> (n: ChainNext)
        requires
            old(self).well_formed(),
        ensures
            final(self).well_formed(),
            final(self).kind() == old(self).kind(),
            final(self).order() == old(self).order(),
            final(self).steps() == old(self).steps(),
            final(self).beam() == old(self).beam(),
            final(self).mop_between() == old(self).mop_between(),
            final(self).pool() == old(self).pool(),
            old(self).cursor() < old(self).tasks().len() ==> {
                &&& n == old(self).tasks()[old(self).cursor() as int]
                &&& final(self).cursor() == old(self).cursor() + 1
                &&& final(self).tasks() == old(self).tasks()
                &&& final(self).current() == old(self).current()
                &&& final(self).fresh() == old(self).fresh()
                &&& final(self).step() == old(self).step()
                &&& final(self).phase() == old(self).phase()
            },
            old(self).cursor() >= old(self).tasks().len() ==> {
                if old(self).phase() != ChainPhase::Steps || old(self).fresh().len() == 0 {
                    n == ChainNext::Failed && final(self).phase() == ChainPhase::Over
                } else {
                    &&& kept_beam(old(self).pool(), old(self).fresh(), old(self).beam(), final(self).current())
                    &&& final(self).fresh() == Seq::<usize>::empty()
                    &&& final(self).step() == old(self).step() + 1
                    &&& final(self).tasks() == final(self).work_at(final(self).step() as int, final(self).current())
                    &&& final(self).phase() == (if final(self).step() < final(self).total() { ChainPhase::Steps } else { ChainPhase::Final })
                    &&& (final(self).tasks().len() == 0 ==> n == ChainNext::Failed && final(self).cursor() == 0)
                    &&& (final(self).tasks().len() > 0 ==> n == final(self).tasks()[0] && final(self).cursor() == 1)
                }
            },
    {
        if self.cursor < self.tasks.len() {
            let t = self.tasks[self.cursor];
            self.cursor = self.cursor + 1;
            return t;
        }
        if self.phase != ChainPhase::Steps || self.fresh.len() == 0 {
            self.phase = ChainPhase::Over;
            return ChainNext::Failed;
        }
        let kept = keep_branches(&self.pool, &self.fresh, self.beam);
        let step = self.step + 1;
        let work = self.build_work(step, &kept);
        self.current = kept;
        self.fresh = Vec::new();
        self.step = step;
        self.phase = if step < self.steps { ChainPhase::Steps } else { ChainPhase::Final };
        self.tasks = work;
        if self.tasks.len() == 0 {
            self.cursor = 0;
            ChainNext::Failed
        } else {
            self.cursor = 1;
            self.tasks[0]
        }
    }

    /// Takes the boards that a branch search from branch `from` found during the current
    /// step, in order. The first one with no rats left ends the chain with the turns to it
    /// (the branch's turns, then the found ones); one that cannot be scored stops the chain;
    /// otherwise each becomes a new branch (see `becomes`), scored by the kind's branch
    /// score for the step.
    #[verifier::rlimit(40)]
    pub fn offer(&mut self, from: usize, found: Vec<BranchFound>) -> (o: ChainOffer)
        requires
            old(self).well_formed(),
            from < old(self).pool().len(),
            old(self).phase() == ChainPhase::Steps,
            old(self).pool().len() + found@.len() <= usize::MAX,
        ensures
            final(self).well_formed(),
            final(self).kind() == old(self).kind(),
            final(self).order() == old(self).order(),
            final(self).steps() == old(self).steps(),
            final(self).beam() == old(self).beam(),
            final(self).mop_between() == old(self).mop_between(),
            final(self).current() == old(self).current(),
            final(self).tasks() == old(self).tasks(),
            final(self).cursor() == old(self).cursor(),
            final(self).step() == old(self).step(),
            final(self).phase() == old(self).phase(),
            ({
                let base = old(self).pool()[from as int];
                let kind = old(self).kind();
                let order = old(self).order();
                let st = old(self).step() as int;
                let m = old(self).pool().len();
                &&& (o is Added <==> plain_before(kind, order, st, base, found@, found@.len() as int))
                &&& (o matches ChainOffer::Solved(p) ==> exists|k: int| 0 <= k < found@.len()
                    && plain_before(kind, order, st, base, found@, k) && #[trigger] clears(found@[k])
                    && turns_view(p@) == joined(base, found@[k]))
                &&& (o is Overflow ==> exists|k: int| 0 <= k < found@.len()
                    && plain_before(kind, order, st, base, found@, k) && !#[trigger] clears(found@[k])
                    && !scorable(kind, order, st, base, found@[k]))
                &&& (o is Added ==> {
                    &&& final(self).pool().len() == m + found@.len()
                    &&& final(self).pool().subrange(0, m as int) == old(self).pool()
                    &&& forall|k: int| 0 <= k < found@.len() ==> becomes(kind, order, st, base, found@[k],
                        #[trigger] final(self).pool()[m + k])
                    &&& final(self).fresh() == old(self).fresh() + Seq::new(found@.len(), |k: int| (m + k) as usize)
                })
            }),
    {
        let ghost base = self.pool@[from as int];
        let ghost all = found@;
        let ghost m = self.pool@.len();
        let ghost fresh0 = self.fresh@;
        let before = Features::from_grid(&self.pool[from].grid);
        let mut rest = found;
        let mut k: usize = 0;
        while rest.len() > 0
            invariant
                self.well_formed(),
                base == self.pool@[from as int],
                from < m,
                m + all.len() <= usize::MAX,
                k <= all.len(),
                all == found@,
                rest@ == all.subrange(k as int, all.len() as int),
                before == spec_features(base.grid),
                self.kind == old(self).kind,
                self.order@ == old(self).order@,
                self.steps == old(self).steps,
                self.beam == old(self).beam,
                self.mop_between == old(self).mop_between,
                self.current@ == old(self).current@,
                self.tasks@ == old(self).tasks@,
                self.cursor == old(self).cursor,
                self.step == old(self).step,
                self.phase == old(self).phase,
                self.phase == ChainPhase::Steps,
                self.pool@.len() == m + k,
                self.pool@.subrange(0, m as int) == old(self).pool@,
                plain_before(self.kind, self.order@, self.step as int, base, all, k as int),
                forall|j: int| 0 <= j < k ==> becomes(self.kind, self.order@, self.step as int, base, all[j],
                    #[trigger] self.pool@[m + j]),
                self.fresh@ == fresh0 + Seq::new(k as nat, |j: int| (m + j) as usize),
                fresh0 == old(self).fresh@,
            decreases rest@.len(),
        {
            let r = rest.remove(0);
            proof {
                assert(r == all[k as int]);
                assert(rest@ =~= all.subrange(k + 1, all.len() as int));
            }
            let path = join_turns(&self.pool[from].path, r.path);
            let after = Features::from_grid(&r.grid);
            proof {
                assert(turns_view(path@) == joined(base, all[k as int]));
            }
            if after.rats == 0 {
                proof {
                    assert(clears(all[k as int]));
                    assert(!plain_before(self.kind, self.order@, self.step as int, base, all, all.len() as int));
                    let kk = k as int;
                    assert(plain_before(old(self).kind(), old(self).order(), old(self).step() as int, old(self).pool()[from as int], found@, kk));
                    assert(clears(found@[kk]));
                    assert(turns_view(path@) == joined(old(self).pool()[from as int], found@[kk]));
                }
                return ChainOffer::Solved(path);
            }
            let len = path.len();
            if len as u64 > 4_000_000_000_000_000_000u64 {
                proof {
                    assert(!scorable(self.kind, self.order@, self.step as int, base, all[k as int]));
                    assert(!plain_before(self.kind, self.order@, self.step as int, base, all, all.len() as int));
                    assert(!clears(found@[k as int]));
                    assert(plain_before(old(self).kind(), old(self).order(), old(self).step() as int, old(self).pool()[from as int], found@, k as int));
                }
                return ChainOffer::Overflow;
            }
            let score = match self.kind {
                ChainKind::RatDrop => Some(lookup_branch_score(&r.grid, len)),
                ChainKind::AnyTrigger => chain_branch_score(&r.grid, len, before, after, None),
                _ => {
                    let next = next_remaining_trigger(&r.grid, &self.order, self.step + 1);
                    chain_branch_score(&r.grid, len, before, after, next)
                },
            };
            let score = match score {
                Some(v) => v,
                None => {
                    proof {
                        assert(!scorable(self.kind, self.order@, self.step as int, base, all[k as int]));
                        assert(!plain_before(self.kind, self.order@, self.step as int, base, all, all.len() as int));
                        assert(!clears(found@[k as int]));
                        assert(plain_before(old(self).kind(), old(self).order(), old(self).step() as int, old(self).pool()[from as int], found@, k as int));
                    }
                    return ChainOffer::Overflow;
                },
            };
            let ghost old_pool = self.pool@;
            let idx = self.pool.len();
            self.pool.push(ChainBranch { grid: r.grid, path, score, hash: r.hash });
            self.fresh.push(idx);
            k = k + 1;
            proof {
                assert(self.pool@.subrange(0, m as int) =~= old_pool.subrange(0, m as int));
                assert(self.fresh@ =~= fresh0 + Seq::new(k as nat, |j: int| (m + j) as usize));
                assert forall|j: int| 0 <= j < k implies becomes(self.kind, self.order@, self.step as int, base, all[j],
                    #[trigger] self.pool@[m + j]) by {
                    if j < k - 1 {
                        assert(self.pool@[m + j] == old_pool[m + j]);
                    }
                }
                assert forall|j: int| 0 <= j < k implies !clears(#[trigger] all[j])
                    && scorable(self.kind, self.order@, self.step as int, base, all[j]) by {
                }
            }
        }
        proof {
            assert(self.pool@.subrange(0, m as int) == old(self).pool@);
        }
        ChainOffer::Added
    }

    /// The work from the kept branches `cur` once `step` steps are done.
    fn build_work(&self, step: usize, cur: &Vec<usize>) -> (t: Vec<ChainNext>)
        requires
            forall|k: int| 0 <= k < cur@.len() ==> #[trigger] cur@[k] < self.pool@.len(),
            self.kind == ChainKind::TriggerOrder || self.kind == ChainKind::StrictTriggerOrder ==> self.steps == self.order@.len(),
        ensures
            t@ == self.work_at(step as int, cur@),
            tasks_in(t@, self.pool@.len() as int),
    {
        let total = self.steps;
        let mut t: Vec<ChainNext> = Vec::new();
        if step >= total {
            if !(self.kind == ChainKind::RatDrop && !self.mop_between) {
                let mut i: usize = 0;
                while i < cur.len()
                    invariant
                        i <= cur@.len(),
                        t@ == mop_tasks(cur@, i as int),
                    decreases cur@.len() - i,
                {
                    t.push(ChainNext::Mop(cur[i]));
                    i = i + 1;
                    proof {
                        assert(t@ =~= mop_tasks(cur@, i as int));
                    }
                }
            } else {
                proof {
                    assert(t@ =~= final_tasks(self.kind, self.mop_between, cur@));
                }
            }
            proof {
                assert(t@ =~= self.work_at(step as int, cur@));
                assert(tasks_in(t@, self.pool@.len() as int));
            }
            return t;
        }
        let k: usize = if self.beam < cur.len() { self.beam } else { cur.len() };
        if self.mop_between {
            let mut i: usize = 0;
            while i < k
                invariant
                    k <= cur@.len(),
                    i <= k,
                    t@ == mop_tasks(cur@, i as int),
                decreases k - i,
            {
                t.push(ChainNext::Mop(cur[i]));
                i = i + 1;
                proof {
                    assert(t@ =~= mop_tasks(cur@, i as int));
                }
            }
        }
        let ghost pre = t@;
        proof {
            assert(pre == (if self.mop_between { mop_tasks(cur@, k as int) } else { Seq::<ChainNext>::empty() }));
            assert(t@ =~= pre + search_tasks(self.kind, self.order@, step as int, self.pool@, cur@, 0));
        }
        let mut i: usize = 0;
        while i < k
            invariant
                k <= cur@.len(),
                i <= k,
                forall|j: int| 0 <= j < cur@.len() ==> #[trigger] cur@[j] < self.pool@.len(),
                step < self.steps,
                self.kind == ChainKind::TriggerOrder || self.kind == ChainKind::StrictTriggerOrder ==> self.steps == self.order@.len(),
                t@ == pre + search_tasks(self.kind, self.order@, step as int, self.pool@, cur@, i as int),
            decreases k - i,
        {
            let p = cur[i];
            let ghost before = t@;
            let ghost bt = branch_tasks(self.kind, self.order@, step as int, p, self.pool@[p as int].grid);
            if self.kind == ChainKind::AnyTrigger {
                let numbers = trigger_numbers(&self.pool[p].grid);
                let mut j: usize = 0;
                while j < numbers.len()
                    invariant
                        j <= numbers@.len(),
                        numbers@ == triggers_below(self.pool@[p as int].grid, 256),
                        t@ == before + numbers@.take(j as int).map_values(|n: u8| ChainNext::Branch(p, LookupGoal::TriggerNumber(n), true)),
                    decreases numbers@.len() - j,
                {
                    t.push(ChainNext::Branch(p, LookupGoal::TriggerNumber(numbers[j]), true));
                    j = j + 1;
                    proof {
                        assert(numbers@.take(j as int) =~= numbers@.take(j - 1).push(numbers@[j - 1]));
                        assert(t@ =~= before + numbers@.take(j as int).map_values(|n: u8| ChainNext::Branch(p, LookupGoal::TriggerNumber(n), true)));
                    }
                }
                proof {
                    assert(numbers@.take(numbers@.len() as int) =~= numbers@);
                    assert(t@ =~= before + bt);
                }
            } else {
                let goal = match self.kind {
                    ChainKind::TriggerOrder => LookupGoal::TriggerNumber(self.order[step]),
                    ChainKind::StrictTriggerOrder => LookupGoal::TriggerNumberOnly(self.order[step]),
                    _ => LookupGoal::RatDrop,
                };
                t.push(ChainNext::Branch(p, goal, self.kind != ChainKind::RatDrop));
                proof {
                    assert(t@ =~= before + bt);
                }
            }
            i = i + 1;
            proof {
                assert(t@ =~= pre + search_tasks(self.kind, self.order@, step as int, self.pool@, cur@, i as int));
            }
        }
        proof {
            assert(t@ =~= self.work_at(step as int, cur@));
            assert forall|q: int| 0 <= q < t@.len() implies match #[trigger] t@[q] {
                ChainNext::Mop(p) => p < self.pool@.len(),
                ChainNext::Branch(p, _, _) => p < self.pool@.len(),
                ChainNext::Failed => true,
            } by {
                lemma_work_in(self.kind, self.order@, step as int, self.mop_between, self.beam, self.pool@, cur@, q);
            }
        }
        t
    }
}

/// The work of a step names only branches of `cur`.
proof fn lemma_work_in(kind: ChainKind, order: Seq<u8>, step: int, mop: bool, beam: usize, pool: Seq<ChainBranch>, cur: Seq<usize>, q: int)
    requires
        forall|k: int| 0 <= k < cur.len() ==> #[trigger] cur[k] < pool.len(),
        0 <= q < step_tasks(kind, order, step, mop, beam, pool, cur).len(),
    ensures
        match step_tasks(kind, order, step, mop, beam, pool, cur)[q] {
            ChainNext::Mop(p) => p < pool.len(),
            ChainNext::Branch(p, _, _) => p < pool.len(),
            ChainNext::Failed => true,
        },
{
    let k = worked(beam, cur.len() as int);
    let m = if mop { mop_tasks(cur, k) } else { Seq::<ChainNext>::empty() };
    if q >= m.len() {
        lemma_search_in(kind, order, step, pool, cur, k, q - m.len());
    }
}

/// The branch searches of a step name only branches of `cur`.
proof fn lemma_search_in(kind: ChainKind, order: Seq<u8>, step: int, pool: Seq<ChainBranch>, cur: Seq<usize>, k: int, q: int)
    requires
        forall|j: int| 0 <= j < cur.len() ==> #[trigger] cur[j] < pool.len(),
        k <= cur.len(),
        0 <= q < search_tasks(kind, order, step, pool, cur, k).len(),
    ensures
        match search_tasks(kind, order, step, pool, cur, k)[q] {
            ChainNext::Mop(p) => p < pool.len(),
            ChainNext::Branch(p, _, _) => p < pool.len(),
            ChainNext::Failed => false,
        },
    decreases k,
{
    if k > 0 {
        let front = search_tasks(kind, order, step, pool, cur, k - 1);
        if q < front.len() {
            lemma_search_in(kind, order, step, pool, cur, k - 1, q);
        } else {
            assert(cur[k - 1] < pool.len());
        }
    }
}

} // verus!
