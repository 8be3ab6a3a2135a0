//! A chain of walks to triggers, as a sequence of decisions. At each step, from each kept
//! branch, the players walk to each trigger of the step (the next number of an order, or
//! any trigger the board holds); a walk that wins ends the chain, the others become
//! branches scored by the trigger branch score, and the beam keeps the best diverse ones.
//! When asked, the chain tries to finish from the kept branches before each step of an
//! any-trigger chain; after the last step it always does. Whoever drives the chain walks
//! the players and runs the finishing searches.

use vstd::prelude::*;
use crate::model::{Action, CellKind, Grid};
use crate::cells::CellClass;
use crate::scan::positions_of;
use crate::features::{Features, spec_features, trigger_positions, trigger_cells};
use crate::actions::turns_view;
use crate::heuristics::{Tuning, heuristic, spec_lookup_branch_score, spec_useful_gain};
use crate::chain::checked_trigger_branch_score;
use crate::chain_search::{ChainBranch, ChainPhase, kept_beam, keep_branches, worked};
use crate::beam_search::join_turns;

verus! {

/// Which triggers each step walks to.
#[derive(Clone, Copy, Debug, PartialEq, Eq, Structural)]
pub enum WalkKind {
    /// The triggers of the next number of an order; one step per number.
    TriggerOrder,
    /// Every trigger the branch's board holds.
    AnyTrigger,
}

/// What to do next.
#[derive(Clone, Copy, Debug, PartialEq, Eq, Structural)]
pub enum WalkNext {
    /// Try to finish the level from this branch with a plain search.
    Mop(usize),
    /// Walk the players of this branch to the point `x, y`, and offer the ways found.
    Walk(usize, i32, i32),
    /// Nothing is left to try: the chain failed.
    Failed,
}

/// A way a walk found: the board it ends on, its turns, the board's hash, and whether it won.
pub struct WalkWay {
    pub grid: Grid,
    pub path: Vec<Vec<Action>>,
    pub hash: u64,
    pub won: bool,
}

/// What became of the ways a walk found.
pub enum WalkOffer {
    /// A way that won: the turns from the start through it.
    Solved(Vec<Vec<Action>>),
    /// The ways became branches, in order, but for those passed over; the flags tell, way by
    /// way, which ones were taken.
    Added(Vec<bool>),
    /// A branch's score does not fit a 64-bit integer, or its path is too long to score.
    Overflow,
}

/// The turns to the end of a way, from the start.
pub open spec fn way_path(base: ChainBranch, w: WalkWay) -> Seq<Seq<Action>> {
    turns_view(base.path@) + turns_view(w.path@)
}

/// The score of the branch a way becomes: the trigger branch score.
pub open spec fn way_score(base: ChainBranch, w: WalkWay) -> int {
    spec_lookup_branch_score(w.grid, way_path(base, w).len() as int) - spec_useful_gain(spec_features(base.grid), spec_features(w.grid))
}

/// A way of an any-trigger chain that changed nothing: the same features and the same hash
/// as the branch it started from.
pub open spec fn idle(kind: WalkKind, base: ChainBranch, w: WalkWay) -> bool {
    kind == WalkKind::AnyTrigger && spec_features(w.grid) == spec_features(base.grid) && w.hash == base.hash
}

/// A way that did not win can be scored.
pub open spec fn way_scorable(base: ChainBranch, w: WalkWay) -> bool {
    way_path(base, w).len() <= 4_000_000_000_000_000_000 && i64::MIN <= way_score(base, w) <= i64::MAX
}

/// The ways before `k` neither win nor fail to score, unless passed over.
pub open spec fn calm_before(kind: WalkKind, base: ChainBranch, ways: Seq<WalkWay>, k: int) -> bool {
    forall|j: int| 0 <= j < k ==> !(#[trigger] ways[j]).won && (idle(kind, base, ways[j]) || way_scorable(base, ways[j]))
}

/// The ways among the first `k` that become branches, in order.
pub open spec fn taken_ways(kind: WalkKind, base: ChainBranch, ways: Seq<WalkWay>, k: int) -> Seq<WalkWay>
    decreases k,
{
    if k <= 0 {
        Seq::empty()
    } else {
        taken_ways(kind, base, ways, k - 1) + if idle(kind, base, ways[k - 1]) { Seq::empty() } else { seq![ways[k - 1]] }
    }
}

/// The branch a way becomes.
pub open spec fn way_branch(base: ChainBranch, w: WalkWay, b: ChainBranch) -> bool {
    &&& b.grid == w.grid
    &&& turns_view(b.path@) == way_path(base, w)
    &&& b.hash == w.hash
    &&& b.score == way_score(base, w)
}

/// The points a step walks to from a board.
pub open spec fn step_points(kind: WalkKind, order: Seq<u8>, step: int, g: Grid) -> Seq<(int, int)> {
    if kind == WalkKind::TriggerOrder {
        positions_of(g, CellClass::Exactly(CellKind::Trigger(order[step])))
    } else {
        positions_of(g, CellClass::AnyTrigger)
    }
}

/// The walks from the branch at `p`, whose board is `g`.
pub open spec fn walk_tasks(kind: WalkKind, order: Seq<u8>, step: int, p: usize, g: Grid) -> Seq<WalkNext> {
    step_points(kind, order, step, g).map_values(|q: (int, int)| WalkNext::Walk(p, q.0 as i32, q.1 as i32))
}

/// The walks from the first `k` branches of `cur`, in order.
pub open spec fn walks_of(kind: WalkKind, order: Seq<u8>, step: int, pool: Seq<ChainBranch>, cur: Seq<usize>, k: int) -> Seq<WalkNext>
    decreases k,
{
    if k <= 0 {
        Seq::empty()
    } else {
        walks_of(kind, order, step, pool, cur, k - 1) + walk_tasks(kind, order, step, cur[k - 1], pool[cur[k - 1] as int].grid)
    }
}

/// Finishing attempts from the first `k` branches of `cur`.
pub open spec fn walk_mops(cur: Seq<usize>, k: int) -> Seq<WalkNext> {
    Seq::new(k as nat, |i: int| WalkNext::Mop(cur[i]))
}

/// The state of a walk chain.
pub struct WalkChain {
    kind: WalkKind,
    order: Vec<u8>,
    steps: usize,
    beam: usize,
    mop_between: bool,
    pool: Vec<ChainBranch>,
    current: Vec<usize>,
    fresh: Vec<usize>,
    tasks: Vec<WalkNext>,
    cursor: usize,
    step: usize,
    phase: ChainPhase,
}

/// Every task names a branch of the pool.
pub open spec fn walks_in(tasks: Seq<WalkNext>, n: int) -> bool {
    forall|k: int| 0 <= k < tasks.len() ==> match #[trigger] tasks[k] {
        WalkNext::Mop(p) => p < n,
        WalkNext::Walk(p, _, _) => p < n,
        WalkNext::Failed => true,
    }
}

impl WalkChain {
    /// The branches and the tasks name branches of the pool; a chain along an order has one
    /// step per number of it; while steps remain, one is under way.
    pub closed spec fn well_formed(&self) -> bool {
        &&& (self.kind == WalkKind::TriggerOrder ==> self.steps == self.order@.len())
        &&& (self.phase == ChainPhase::Steps ==> self.step < self.steps)
        &&& forall|k: int| 0 <= k < self.current@.len() ==> #[trigger] self.current@[k] < self.pool@.len()
        &&& forall|k: int| 0 <= k < self.fresh@.len() ==> #[trigger] self.fresh@[k] < self.pool@.len()
        &&& walks_in(self.tasks@, self.pool@.len() as int)
        &&& self.cursor <= self.tasks@.len()
    }

    pub closed spec fn kind(&self) -> WalkKind { self.kind }
    pub closed spec fn order(&self) -> Seq<u8> { self.order@ }
    pub closed spec fn steps(&self) -> usize { self.steps }
    pub closed spec fn beam(&self) -> usize { self.beam }
    pub closed spec fn mop_between(&self) -> bool { self.mop_between }
    pub closed spec fn pool(&self) -> Seq<ChainBranch> { self.pool@ }
    pub closed spec fn current(&self) -> Seq<usize> { self.current@ }
    pub closed spec fn fresh(&self) -> Seq<usize> { self.fresh@ }
    pub closed spec fn tasks(&self) -> Seq<WalkNext> { self.tasks@ }
    pub closed spec fn cursor(&self) -> nat { self.cursor as nat }
    pub closed spec fn step(&self) -> nat { self.step as nat }
    pub closed spec fn phase(&self) -> ChainPhase { self.phase }

    /// The work from the kept branches `cur` once `step` steps are done: before a step of an
    /// any-trigger chain asked to, finishing attempts from the first branches the beam
    /// allows, then the walks from every branch; after the last step, a finishing attempt
    /// from every branch.
    pub open spec fn work_at(&self, step: int, cur: Seq<usize>) -> Seq<WalkNext> {
        if step < self.steps() {
            (if self.kind() == WalkKind::AnyTrigger && self.mop_between() {
                walk_mops(cur, worked(self.beam(), cur.len() as int))
            } else {
                Seq::empty()
            }) + walks_of(self.kind(), self.order(), step, self.pool(), cur, cur.len() as int)
        } else {
            walk_mops(cur, cur.len() as int)
        }
    }

    /// A chain from `root` (hash `root_hash`): the root, scored by its general score, is the
    /// one branch, and the first step's work (or the finishing attempts where there are no
    /// steps) is lined up. A chain along an order has one step per number of it; an
    /// any-trigger chain has `steps` steps.
    pub fn new(root: Grid, root_hash: u64, kind: WalkKind, order: Vec<u8>, steps: usize, beam: usize,
        mop_between: bool, tuning: Tuning) -> (s: Self)
        ensures
            s.well_formed(),
            s.kind() == kind,
            s.order() == order@,
            s.beam() == beam,
            s.mop_between() == mop_between,
            s.steps() == (if kind == WalkKind::TriggerOrder { order@.len() as usize } else { steps }),
            s.pool().len() == 1,
            s.pool()[0].grid == root,
            s.pool()[0].path@.len() == 0,
            s.pool()[0].hash == root_hash,
            s.pool()[0].score == crate::heuristics::spec_heuristic(root, tuning),
            s.current() == seq![0usize],
            s.fresh() == Seq::<usize>::empty(),
            s.step() == 0,
            s.cursor() == 0,
            s.tasks() == s.work_at(0, seq![0usize]),
            s.phase() == (if 0 < s.steps() { ChainPhase::Steps } else { ChainPhase::Final }),
    {
        let score = heuristic(&root, tuning);
        let total = if kind == WalkKind::TriggerOrder { order.len() } else { steps };
        let mut pool: Vec<ChainBranch> = Vec::new();
        pool.push(ChainBranch { grid: root, path: Vec::new(), score, hash: root_hash });
        let mut current: Vec<usize> = Vec::new();
        current.push(0);
        let phase = if 0 < total { ChainPhase::Steps } else { ChainPhase::Final };
        let mut c = WalkChain {
            kind, order, steps: total, beam, mop_between, pool, current, fresh: Vec::new(),
            tasks: Vec::new(), cursor: 0, step: 0, phase,
        };
        let cur = vec![0usize];
        proof {
            assert(cur@ =~= seq![0usize]);
        }
        let t = c.build_work(0, &cur);
        c.tasks = t;
        c
    }

    /// Where the chain stands.
    pub fn current_phase(&self) -> (p: ChainPhase)
        ensures
            p == self.phase(),
    {
        self.phase
    }

    /// Number of branches made so far; a branch keeps its index.
    pub fn pool_size(&self) -> (n: usize)
        ensures
            n == self.pool().len(),
    {
        self.pool.len()
    }

    /// The score of branch `p`.
    pub fn branch_score(&self, p: usize) -> (v: i64)
        requires
            p < self.pool().len(),
        ensures
            v == self.pool()[p as int].score,
    {
        self.pool[p].score
    }

    /// The turns from the start to branch `p`.
    pub fn branch_path(&self, p: usize) -> (path: &Vec<Vec<Action>>)
        requires
            p < self.pool().len(),
        ensures
            path@ == self.pool()[p as int].path@,
    {
        &self.pool[p].path
    }

    /// The turns from the start through branch `p` and then `suffix`: the path when a
    /// finishing attempt from branch `p` succeeds with `suffix`.
    pub fn finish(&self, p: usize, suffix: Vec<Vec<Action>>) -> (path: Vec<Vec<Action>>)
        requires
            p < self.pool().len(),
        ensures
            turns_view(path@) == turns_view(self.pool()[p as int].path@) + turns_view(suffix@),
    {
        join_turns(&self.pool[p].path, suffix)
    }

    /// Hands out the next piece of work. When a step's work is done, the step ends: with no
    /// new branch the chain fails; otherwise the beam keeps its branches (see `kept_beam`),
    /// the next step's work, or after the last step the finishing attempts, is lined up, and
    /// its first piece handed out. Once the finishing attempts are done the chain fails.
    pub fn next(&mut self) -> (n: WalkNext)
        requires
            old(self).well_formed(),
        ensures
            final(self).well_formed(),
            final(self).kind() == old(self).kind(),
            final(self).order() == old(self).order(),
            final(self).steps() == old(self).steps(),
            final(self).beam() == old(self).beam(),
            final(self).mop_between() == old(self).mop_between(),
            final(self).pool() == old(self).pool(),
            old(self).cursor() < old(self).tasks().len() ==> {
                &&& n == old(self).tasks()[old(self).cursor() as int]
                &&& final(self).cursor() == old(self).cursor() + 1
                &&& final(self).tasks() == old(self).tasks()
                &&& final(self).current() == old(self).current()
                &&& final(self).fresh() == old(self).fresh()
                &&& final(self).step() == old(self).step()
                &&& final(self).phase() == old(self).phase()
            },
            old(self).cursor() >= old(self).tasks().len() ==> {
                if old(self).phase() != ChainPhase::Steps || old(self).fresh().len() == 0 {
                    n == WalkNext::Failed && final(self).phase() == ChainPhase::Over
                } else {
                    &&& kept_beam(old(self).pool(), old(self).fresh(), old(self).beam(), final(self).current())
                    &&& final(self).fresh() == Seq::<usize>::empty()
                    &&& final(self).step() == old(self).step() + 1
                    &&& final(self).tasks() == final(self).work_at(final(self).step() as int, final(self).current())
                    &&& final(self).phase() == (if final(self).step() < final(self).steps() { ChainPhase::Steps } else { ChainPhase::Final })
                    &&& (final(self).tasks().len() == 0 ==> n == WalkNext::Failed && final(self).cursor() == 0)
                    &&& (final(self).tasks().len() > 0 ==> n == final(self).tasks()[0] && final(self).cursor() == 1)
                }
            },
    {
        if self.cursor < self.tasks.len() {
            let t = self.tasks[self.cursor];
            self.cursor = self.cursor + 1;
            return t;
        }
        if self.phase != ChainPhase::Steps || self.fresh.len() == 0 {
            self.phase = ChainPhase::Over;
            return WalkNext::Failed;
        }
        let kept = keep_branches(&self.pool, &self.fresh, self.beam);
        let step = self.step + 1;
        let work = self.build_work(step, &kept);
        self.current = kept;
        self.fresh = Vec::new();
        self.step = step;
        self.phase = if step < self.steps { ChainPhase::Steps } else { ChainPhase::Final };
        self.tasks = work;
        if self.tasks.len() == 0 {
            self.cursor = 0;
            WalkNext::Failed
        } else {
            self.cursor = 1;
            self.tasks[0]
        }
    }

    /// Takes the ways a walk from branch `from` found during the current step, in order. The
    /// first way that wins ends the chain with the turns through it; in an any-trigger chain
    /// a way that changed nothing (see `idle`) is passed over; one that cannot be scored
    /// stops the chain; the others become new branches (see `way_branch`).
    #[verifier::rlimit(40)]
    pub fn offer(&mut self, from: usize, ways: Vec<WalkWay>) -> (o: WalkOffer)
        requires
            old(self).well_formed(),
            from < old(self).pool().len(),
            old(self).phase() == ChainPhase::Steps,
            old(self).pool().len() + ways@.len() <= usize::MAX,
        ensures
            final(self).well_formed(),
            final(self).kind() == old(self).kind(),
            final(self).order() == old(self).order(),
            final(self).steps() == old(self).steps(),
            final(self).beam() == old(self).beam(),
            final(self).mop_between() == old(self).mop_between(),
            final(self).current() == old(self).current(),
            final(self).tasks() == old(self).tasks(),
            final(self).cursor() == old(self).cursor(),
            final(self).step() == old(self).step(),
            final(self).phase() == old(self).phase(),
            ({
                let base = old(self).pool()[from as int];
                let kind = old(self).kind();
                let m = old(self).pool().len();
                let taken = taken_ways(kind, base, ways@, ways@.len() as int);
                &&& (o is Added <==> calm_before(kind, base, ways@, ways@.len() as int))
                &&& (o matches WalkOffer::Solved(p) ==> exists|k: int| 0 <= k < ways@.len()
                    && calm_before(kind, base, ways@, k) && (#[trigger] ways@[k]).won
                    && turns_view(p@) == way_path(base, ways@[k]))
                &&& (o is Overflow ==> exists|k: int| 0 <= k < ways@.len()
                    && calm_before(kind, base, ways@, k) && !(#[trigger] ways@[k]).won
                    && !idle(kind, base, ways@[k]) && !way_scorable(base, ways@[k]))
                &&& (o matches WalkOffer::Added(flags) ==> {
                    &&& flags@.len() == ways@.len()
                    &&& forall|j: int| 0 <= j < ways@.len() ==> #[trigger] flags@[j] == !idle(kind, base, ways@[j])
                    &&& final(self).pool().len() == m + taken.len()
                    &&& final(self).pool().subrange(0, m as int) == old(self).pool()
                    &&& forall|j: int| 0 <= j < taken.len() ==> way_branch(base, taken[j], #[trigger] final(self).pool()[m + j])
                    &&& final(self).fresh() == old(self).fresh() + Seq::new(taken.len(), |j: int| (m + j) as usize)
                })
            }),
    {
        let ghost base = self.pool@[from as int];
        let ghost all = ways@;
        let ghost m = self.pool@.len();
        let ghost fresh0 = self.fresh@;
        let before = Features::from_grid(&self.pool[from].grid);
        let base_hash = self.pool[from].hash;
        let mut rest = ways;
        let mut flags: Vec<bool> = Vec::new();
        let mut k: usize = 0;
        while rest.len() > 0
            invariant
                self.well_formed(),
                base == self.pool@[from as int],
                base_hash == base.hash,
                flags@.len() == k,
                forall|j: int| 0 <= j < k ==> #[trigger] flags@[j] == !idle(self.kind, base, all[j]),
                all == ways@,
                from < m,
                m + all.len() <= usize::MAX,
                k <= all.len(),
                rest@ == all.subrange(k as int, all.len() as int),
                before == spec_features(base.grid),
                self.kind == old(self).kind,
                self.order@ == old(self).order@,
                self.steps == old(self).steps,
                self.beam == old(self).beam,
                self.mop_between == old(self).mop_between,
                self.current@ == old(self).current@,
                self.tasks@ == old(self).tasks@,
                self.cursor == old(self).cursor,
                self.step == old(self).step,
                self.phase == old(self).phase,
                self.phase == ChainPhase::Steps,
                self.pool@.len() == m + taken_ways(self.kind, base, all, k as int).len(),
                taken_ways(self.kind, base, all, k as int).len() <= k,
                self.pool@.subrange(0, m as int) == old(self).pool@,
                calm_before(self.kind, base, all, k as int),
                forall|j: int| 0 <= j < taken_ways(self.kind, base, all, k as int).len() ==>
                    way_branch(base, taken_ways(self.kind, base, all, k as int)[j], #[trigger] self.pool@[m + j]),
                self.fresh@ == fresh0 + Seq::new(taken_ways(self.kind, base, all, k as int).len(), |j: int| (m + j) as usize),
                fresh0 == old(self).fresh@,
            decreases rest@.len(),
        {
            let w = rest.remove(0);
            let ghost tk = taken_ways(self.kind, base, all, k as int);
            proof {
                assert(w == all[k as int]);
                assert(rest@ =~= all.subrange(k + 1, all.len() as int));
            }
            let path = join_turns(&self.pool[from].path, w.path);
            proof {
                assert(turns_view(path@) == way_path(base, all[k as int]));
            }
            if w.won {
                proof {
                    assert(!calm_before(self.kind, base, all, all.len() as int));
                    assert(calm_before(old(self).kind(), old(self).pool()[from as int], ways@, k as int));
                    assert(ways@[k as int].won);
                }
                return WalkOffer::Solved(path);
            }
            let after = Features::from_grid(&w.grid);
            if self.kind == WalkKind::AnyTrigger && after == before && w.hash == base_hash {
                flags.push(false);
                k = k + 1;
                proof {
                    assert(idle(self.kind, base, all[k - 1]));
                    assert(taken_ways(self.kind, base, all, k as int) =~= tk);
                    assert forall|j: int| 0 <= j < k implies !(#[trigger] all[j]).won
                        && (idle(self.kind, base, all[j]) || way_scorable(base, all[j])) by {
                    }
                }
                continue;
            }
            proof {
                assert(!idle(self.kind, base, all[k as int]));
            }
            let len = path.len();
            if len as u64 > 4_000_000_000_000_000_000u64 {
                proof {
                    assert(!way_scorable(base, all[k as int]));
                    assert(!calm_before(self.kind, base, all, all.len() as int));
                    assert(!ways@[k as int].won);
                    assert(calm_before(old(self).kind(), old(self).pool()[from as int], ways@, k as int));
                }
                return WalkOffer::Overflow;
            }
            let score = match checked_trigger_branch_score(&w.grid, len, before, after) {
                Some(v) => v,
                None => {
                    proof {
                        assert(!way_scorable(base, all[k as int]));
                        assert(!calm_before(self.kind, base, all, all.len() as int));
                        assert(!ways@[k as int].won);
                        assert(calm_before(old(self).kind(), old(self).pool()[from as int], ways@, k as int));
                    }
                    return WalkOffer::Overflow;
                },
            };
            let ghost old_pool = self.pool@;
            let idx = self.pool.len();
            self.pool.push(ChainBranch { grid: w.grid, path, score, hash: w.hash });
            self.fresh.push(idx);
            flags.push(true);
            k = k + 1;
            proof {
                let tk2 = taken_ways(self.kind, base, all, k as int);
                assert(tk2 =~= tk.push(all[k - 1]));
                assert(idx == m + tk.len());
                assert(self.pool@.subrange(0, m as int) =~= old_pool.subrange(0, m as int));
                assert(self.fresh@ =~= fresh0 + Seq::new(tk2.len(), |j: int| (m + j) as usize));
                assert forall|j: int| 0 <= j < tk2.len() implies way_branch(base, tk2[j], #[trigger] self.pool@[m + j]) by {
                    if j < tk.len() {
                        assert(self.pool@[m + j] == old_pool[m + j]);
                        assert(tk2[j] == tk[j]);
                    }
                }
                assert forall|j: int| 0 <= j < k implies !(#[trigger] all[j]).won
                    && (idle(self.kind, base, all[j]) || way_scorable(base, all[j])) by {
                }
            }
        }
        proof {
            assert(self.pool@.subrange(0, m as int) == old(self).pool@);
        }
        WalkOffer::Added(flags)
    }

    /// The work from the kept branches `cur` once `step` steps are done.
    fn build_work(&self, step: usize, cur: &Vec<usize>) -> (t: Vec<WalkNext>)
        requires
            forall|k: int| 0 <= k < cur@.len() ==> #[trigger] cur@[k] < self.pool@.len(),
            self.kind == WalkKind::TriggerOrder ==> self.steps == self.order@.len(),
        ensures
            t@ == self.work_at(step as int, cur@),
            walks_in(t@, self.pool@.len() as int),
    {
        let mut t: Vec<WalkNext> = Vec::new();
        if step >= self.steps {
            let mut i: usize = 0;
            while i < cur.len()
                invariant
                    i <= cur@.len(),
                    forall|k: int| 0 <= k < cur@.len() ==> #[trigger] cur@[k] < self.pool@.len(),
                    t@ == walk_mops(cur@, i as int),
                    walks_in(t@, self.pool@.len() as int),
                decreases cur@.len() - i,
            {
                t.push(WalkNext::Mop(cur[i]));
                i = i + 1;
                proof {
                    assert(t@ =~= walk_mops(cur@, i as int));
                }
            }
            return t;
        }
        if self.kind == WalkKind::AnyTrigger && self.mop_between {
            let k: usize = if self.beam < cur.len() { self.beam } else { cur.len() };
            let mut i: usize = 0;
            while i < k
                invariant
                    k <= cur@.len(),
                    k == worked(self.beam, cur@.len() as int),
                    i <= k,
                    forall|j: int| 0 <= j < cur@.len() ==> #[trigger] cur@[j] < self.pool@.len(),
                    t@ == walk_mops(cur@, i as int),
                    walks_in(t@, self.pool@.len() as int),
                decreases k - i,
            {
                t.push(WalkNext::Mop(cur[i]));
                i = i + 1;
                proof {
                    assert(t@ =~= walk_mops(cur@, i as int));
                }
            }
        }
        let ghost pre = t@;
        proof {
            assert(t@ =~= pre + walks_of(self.kind, self.order@, step as int, self.pool@, cur@, 0));
        }
        let mut i: usize = 0;
        while i < cur.len()
            invariant
                i <= cur@.len(),
                forall|j: int| 0 <= j < cur@.len() ==> #[trigger] cur@[j] < self.pool@.len(),
                step < self.steps,
                self.kind == WalkKind::TriggerOrder ==> self.steps == self.order@.len(),
                t@ == pre + walks_of(self.kind, self.order@, step as int, self.pool@, cur@, i as int),
                walks_in(t@, self.pool@.len() as int),
            decreases cur@.len() - i,
        {
            let p = cur[i];
            let ghost before = t@;
            let ghost g = self.pool@[p as int].grid;
            let ghost pts = step_points(self.kind, self.order@, step as int, g);
            let points: Vec<(i32, i32)> = if self.kind == WalkKind::TriggerOrder {
                trigger_positions(&self.pool[p].grid, self.order[step])
            } else {
                let cells = trigger_cells(&self.pool[p].grid);
                let mut ps: Vec<(i32, i32)> = Vec::new();
                let mut c: usize = 0;
                while c < cells.len()
                    invariant
                        c <= cells@.len(),
                        cells@.len() == positions_of(g, CellClass::AnyTrigger).len(),
                        forall|q: int| 0 <= q < cells@.len() ==>
                            (#[trigger] cells@[q].0.0 as int, cells@[q].0.1 as int) == positions_of(g, CellClass::AnyTrigger)[q],
                        ps@.len() == c,
                        forall|q: int| 0 <= q < c ==> #[trigger] ps@[q] == cells@[q].0,
                    decreases cells@.len() - c,
                {
                    ps.push(cells[c].0);
                    c = c + 1;
                }
                proof {
                    assert forall|q: int| 0 <= q < ps@.len() implies
                        (#[trigger] ps@[q].0 as int, ps@[q].1 as int) == positions_of(g, CellClass::AnyTrigger)[q] by {
                        assert(ps@[q] == cells@[q].0);
                        assert((cells@[q].0.0 as int, cells@[q].0.1 as int) == positions_of(g, CellClass::AnyTrigger)[q]);
                    }
                }
                ps
            };
            proof {
                assert(points@.len() == pts.len());
                assert(forall|q: int| 0 <= q < points@.len() ==> (#[trigger] points@[q].0 as int, points@[q].1 as int) == pts[q]);
            }
            let mut j: usize = 0;
            while j < points.len()
                invariant
                    j <= points@.len(),
                    points@.len() == pts.len(),
                    forall|q: int| 0 <= q < points@.len() ==> (#[trigger] points@[q].0 as int, points@[q].1 as int) == pts[q],
                    p < self.pool@.len(),
                    t@ == before + pts.take(j as int).map_values(|q: (int, int)| WalkNext::Walk(p, q.0 as i32, q.1 as i32)),
                    walks_in(t@, self.pool@.len() as int),
                decreases points@.len() - j,
            {
                t.push(WalkNext::Walk(p, points[j].0, points[j].1));
                j = j + 1;
                proof {
                    let q = pts[j - 1];
                    assert(points@[j - 1] == (q.0 as i32, q.1 as i32));
                    assert(pts.take(j as int) =~= pts.take(j - 1).push(q));
                    assert(t@ =~= before + pts.take(j as int).map_values(|q: (int, int)| WalkNext::Walk(p, q.0 as i32, q.1 as i32)));
                }
            }
            proof {
                assert(pts.take(pts.len() as int) =~= pts);
            }
            i = i + 1;
            proof {
                assert(t@ =~= pre + walks_of(self.kind, self.order@, step as int, self.pool@, cur@, i as int));
            }
        }
        proof {
            assert(t@ =~= self.work_at(step as int, cur@));
        }
        t
    }
}

} // verus!
