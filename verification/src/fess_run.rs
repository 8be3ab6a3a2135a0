//! The frontier search over events: from each of the best boards of the frontier an event
//! search runs, the boards its events reach become candidates, and the next frontier is
//! chosen among them by score, event kind and bucket, as a sequence of decisions.

use vstd::prelude::*;
use std::collections::HashSet;
use crate::model::{Action, Grid};
use crate::actions::turns_view;
use crate::heuristics::{spec_fess_branch_score, fess_branch_score};
use crate::beam::{is_stable_order, stable_order, key_views};
use crate::beam_search::{copy_turns, join_turns};
use crate::fess_select::{is_frontier, select_fess_frontier};

verus! {

broadcast use vstd::std_specs::hash::group_hash_axioms;

/// A board of the search, the turns to it from the start, and its frontier score.
pub struct FessBranch {
    pub grid: Grid,
    pub path: Vec<Vec<Action>>,
    pub score: i64,
}

/// What became of an event.
pub enum FessOffer {
    /// No rat is left: the turns from the start.
    Solved(Vec<Vec<Action>>),
    /// Its board was met before; nothing changed.
    Skipped,
    /// Too many turns to score; its board is noted as met.
    Unscored,
    /// Stored as this branch and made a candidate for the next frontier.
    Added(usize),
}

/// The scores of the branches at the given indices.
pub open spec fn scores_at(branches: Seq<FessBranch>, idx: Seq<usize>) -> Seq<i64> {
    idx.map_values(|i: usize| branches[i as int].score)
}

/// The state of a frontier search over events.
pub struct FessRun {
    branches: Vec<FessBranch>,
    frontier: Vec<usize>,
    candidates: Vec<usize>,
    cand_keys: Vec<String>,
    seen: HashSet<u64>,
    best: usize,
    width: usize,
    per_bucket: usize,
}

impl FessRun {
    pub closed spec fn well_formed(&self) -> bool {
        &&& self.best < self.branches@.len()
        &&& forall|k: int| 0 <= k < self.frontier@.len() ==> #[trigger] self.frontier@[k] < self.branches@.len()
        &&& forall|k: int| 0 <= k < self.candidates@.len() ==> #[trigger] self.candidates@[k] < self.branches@.len()
        &&& self.cand_keys@.len() == self.candidates@.len()
        &&& forall|i: int| 0 <= i < self.branches@.len() ==> self.branches@[self.best as int].score <= #[trigger] self.branches@[i].score
    }

    pub closed spec fn branches(&self) -> Seq<FessBranch> {
        self.branches@
    }

    pub closed spec fn frontier(&self) -> Seq<usize> {
        self.frontier@
    }

    pub closed spec fn candidates(&self) -> Seq<usize> {
        self.candidates@
    }

    pub closed spec fn candidate_keys(&self) -> Seq<Seq<char>> {
        key_views(self.cand_keys@)
    }

    pub closed spec fn seen(&self) -> Set<u64> {
        self.seen@
    }

    pub closed spec fn best(&self) -> usize {
        self.best
    }

    pub closed spec fn width(&self) -> usize {
        self.width
    }

    pub closed spec fn per_bucket(&self) -> usize {
        self.per_bucket
    }

    /// The best branch scores no higher than any branch met.
    pub proof fn law_best_is_lowest(&self)
        requires
            self.well_formed(),
        ensures
            self.best() < self.branches().len(),
            forall|i: int| 0 <= i < self.branches().len() ==> self.branches()[self.best() as int].score <= #[trigger] self.branches()[i].score,
    {
    }

    /// A search from `root` (hash `root_hash`) keeping `width` boards, at most
    /// `per_bucket` of a bucket first: the root alone in the frontier, at its score, and the
    /// best so far.
    pub fn new(root: Grid, root_hash: u64, width: usize, per_bucket: usize) -> (s: Self)
        ensures
            s.well_formed(),
            s.branches().len() == 1,
            s.branches()[0].grid == root,
            s.branches()[0].path@.len() == 0,
            s.branches()[0].score == spec_fess_branch_score(root, 0),
            s.frontier() == seq![0usize],
            s.candidates().len() == 0,
            s.seen() == Set::<u64>::empty().insert(root_hash),
            s.best() == 0,
            s.width() == width,
            s.per_bucket() == per_bucket,
    {
        let score = fess_branch_score(&root, 0);
        let mut branches: Vec<FessBranch> = Vec::new();
        branches.push(FessBranch { grid: root, path: Vec::new(), score });
        let mut frontier: Vec<usize> = Vec::new();
        frontier.push(0);
        let mut seen: HashSet<u64> = HashSet::new();
        seen.insert(root_hash);
        proof {
            assert(frontier@ =~= seq![0usize]);
        }
        FessRun { branches, frontier, candidates: Vec::new(), cand_keys: Vec::new(), seen, best: 0, width, per_bucket }
    }

    /// Branch `i`.
    pub fn branch(&self, i: usize) -> (b: &FessBranch)
        requires
            i < self.branches().len(),
        ensures
            *b == self.branches()[i as int],
    {
        &self.branches[i]
    }

    /// The turns to branch `i`.
    pub fn path(&self, i: usize) -> (p: Vec<Vec<Action>>)
        requires
            i < self.branches().len(),
        ensures
            turns_view(p@) == turns_view(self.branches()[i as int].path@),
    {
        copy_turns(&self.branches[i].path)
    }

    /// The frontier, as branch indices.
    pub fn frontier_branches(&self) -> (f: &Vec<usize>)
        ensures
            f@ == self.frontier(),
    {
        &self.frontier
    }

    /// The candidates for the next frontier, as branch indices.
    pub fn candidate_branches(&self) -> (c: &Vec<usize>)
        ensures
            c@ == self.candidates(),
    {
        &self.candidates
    }

    /// The event kinds of the candidates.
    pub fn candidate_event_keys(&self) -> (k: &Vec<String>)
        ensures
            key_views(k@) == self.candidate_keys(),
    {
        &self.cand_keys
    }

    /// The branch of lowest score met so far.
    pub fn best_branch(&self) -> (b: usize)
        ensures
            b == self.best(),
    {
        self.best
    }

    /// How many frontier boards a step searches from: the first `width`, or all where there
    /// are fewer.
    pub fn working(&self) -> (n: usize)
        ensures
            n == if self.frontier().len() < self.width() { self.frontier().len() } else { self.width() as nat },
    {
        if self.frontier.len() < self.width { self.frontier.len() } else { self.width }
    }

    /// Begins a step: the frontier in ascending order of score, ties in the order they
    /// were, and no candidates yet.
    pub fn start_step(&mut self)
        requires
            old(self).well_formed(),
        ensures
            final(self).well_formed(),
            final(self).branches() == old(self).branches(),
            final(self).seen() == old(self).seen(),
            final(self).best() == old(self).best(),
            final(self).width() == old(self).width(),
            final(self).per_bucket() == old(self).per_bucket(),
            final(self).candidates().len() == 0,
            exists|ord: Seq<usize>| {
                &&& is_stable_order(scores_at(old(self).branches(), old(self).frontier()), ord)
                &&& final(self).frontier() == ord.map_values(|j: usize| old(self).frontier()[j as int])
            },
    {
        let mut scores: Vec<i64> = Vec::new();
        let mut k: usize = 0;
        while k < self.frontier.len()
            invariant
                self.well_formed(),
                k <= self.frontier@.len(),
                scores@.len() == k,
                forall|j: int| 0 <= j < k ==> #[trigger] scores@[j] == scores_at(self.branches@, self.frontier@)[j],
            decreases self.frontier@.len() - k,
        {
            scores.push(self.branches[self.frontier[k]].score);
            k = k + 1;
        }
        proof {
            assert(scores@ =~= scores_at(self.branches@, self.frontier@));
        }
        let ord = stable_order(&scores);
        let mut next: Vec<usize> = Vec::new();
        let mut j: usize = 0;
        while j < ord.len()
            invariant
                self.well_formed(),
                j <= ord@.len(),
                is_stable_order(scores@, ord@),
                scores@.len() == self.frontier@.len(),
                next@.len() == j,
                forall|m: int| 0 <= m < j ==> #[trigger] next@[m] == self.frontier@[ord@[m] as int],
            decreases ord@.len() - j,
        {
            next.push(self.frontier[ord[j]]);
            j = j + 1;
        }
        proof {
            assert(next@ =~= ord@.map_values(|j: usize| self.frontier@[j as int]));
            assert forall|m: int| 0 <= m < next@.len() implies #[trigger] next@[m] < self.branches@.len() by {
                assert(ord@[m] < self.frontier@.len());
            }
        }
        self.frontier = next;
        self.candidates = Vec::new();
        self.cand_keys = Vec::new();
        proof {
            assert(is_stable_order(scores_at(old(self).branches(), old(self).frontier()), ord@));
            assert(self.frontier() == ord@.map_values(|j: usize| old(self).frontier()[j as int]));
        }
    }

    /// Decides what to do with an event found from frontier board `k`: the turns
    /// `event_path` reach the board `child` (hash `hash`), leaving `rats` rats, an event of
    /// kind `event_key`. With no rat left the search is solved; a board met before is
    /// skipped; any other is noted as met, stored at its frontier score and made a
    /// candidate, becoming the best when it scores lower than the best so far.
    pub fn offer(&mut self, k: usize, event_path: Vec<Vec<Action>>, rats: usize, child: Grid, hash: u64, event_key: String) -> (o: FessOffer)
        requires
            old(self).well_formed(),
            k < old(self).frontier().len(),
        ensures
            final(self).well_formed(),
            final(self).frontier() == old(self).frontier(),
            final(self).width() == old(self).width(),
            final(self).per_bucket() == old(self).per_bucket(),
            ({
                let b = old(self).branches()[old(self).frontier()[k as int] as int];
                let path = turns_view(b.path@) + turns_view(event_path@);
                if rats == 0 {
                    (o matches FessOffer::Solved(p) && turns_view(p@) == path)
                } else if old(self).seen().contains(hash) {
                    o is Skipped
                } else if path.len() > 4_000_000_000_000_000_000 {
                    o is Unscored && final(self).seen() == old(self).seen().insert(hash)
                } else {
                    let i = old(self).branches().len() as int;
                    let s = spec_fess_branch_score(child, path.len() as int);
                    &&& o == FessOffer::Added(i as usize)
                    &&& final(self).seen() == old(self).seen().insert(hash)
                    &&& final(self).branches().len() == i + 1
                    &&& final(self).branches().drop_last() == old(self).branches()
                    &&& final(self).branches()[i].grid == child
                    &&& turns_view(final(self).branches()[i].path@) == path
                    &&& final(self).branches()[i].score == s
                    &&& final(self).candidates() == old(self).candidates().push(i as usize)
                    &&& final(self).candidate_keys() == old(self).candidate_keys().push(event_key@)
                    &&& (s < old(self).branches()[old(self).best() as int].score ==> final(self).best() == i)
                    &&& (s >= old(self).branches()[old(self).best() as int].score ==> final(self).best() == old(self).best())
                }
            }),
            !(o is Added) ==> {
                &&& final(self).branches() == old(self).branches()
                &&& final(self).candidates() == old(self).candidates()
                &&& final(self).candidate_keys() == old(self).candidate_keys()
                &&& final(self).best() == old(self).best()
            },
            (o is Solved || o is Skipped) ==> final(self).seen() == old(self).seen(),
    {
        let path = join_turns(&self.branches[self.frontier[k]].path, event_path);
        if rats == 0 {
            return FessOffer::Solved(path);
        }
        if self.seen.contains(&hash) {
            return FessOffer::Skipped;
        }
        self.seen.insert(hash);
        if path.len() as u64 > 4_000_000_000_000_000_000u64 {
            return FessOffer::Unscored;
        }
        let score = fess_branch_score(&child, path.len());
        let i = self.branches.len();
        let better = score < self.branches[self.best].score;
        self.branches.push(FessBranch { grid: child, path, score });
        if better {
            self.best = i;
        }
        self.candidates.push(i);
        let ghost keys0 = self.cand_keys@;
        self.cand_keys.push(event_key);
        proof {
            assert(self.branches@.drop_last() =~= old(self).branches@);
            assert(key_views(self.cand_keys@) =~= key_views(keys0).push(self.cand_keys@.last()@));
        }
        FessOffer::Added(i)
    }

    /// Ends a step, given the candidates' bucket keys: with no candidate the search has
    /// failed and nothing changes; otherwise the frontier becomes the candidates chosen by
    /// score, event kind and bucket.
    pub fn end_step(&mut self, bucket_keys: &Vec<String>) -> (ok: bool)
        requires
            old(self).well_formed(),
            bucket_keys@.len() == old(self).candidates().len(),
        ensures
            final(self).well_formed(),
            final(self).branches() == old(self).branches(),
            final(self).seen() == old(self).seen(),
            final(self).best() == old(self).best(),
            final(self).width() == old(self).width(),
            final(self).per_bucket() == old(self).per_bucket(),
            ok == (old(self).candidates().len() > 0),
            !ok ==> final(self).frontier() == old(self).frontier() && final(self).candidates() == old(self).candidates(),
            ok ==> exists|picks: Seq<usize>| {
                &&& is_frontier(scores_at(old(self).branches(), old(self).candidates()), old(self).candidate_keys(),
                    key_views(bucket_keys@), old(self).width() as nat, old(self).per_bucket() as nat, picks)
                &&& final(self).frontier() == picks.map_values(|j: usize| old(self).candidates()[j as int])
                &&& final(self).candidates().len() == 0
            },
    {
        if self.candidates.len() == 0 {
            return false;
        }
        let mut scores: Vec<i64> = Vec::new();
        let mut k: usize = 0;
        while k < self.candidates.len()
            invariant
                self.well_formed(),
                k <= self.candidates@.len(),
                scores@.len() == k,
                forall|j: int| 0 <= j < k ==> #[trigger] scores@[j] == scores_at(self.branches@, self.candidates@)[j],
            decreases self.candidates@.len() - k,
        {
            scores.push(self.branches[self.candidates[k]].score);
            k = k + 1;
        }
        proof {
            assert(scores@ =~= scores_at(self.branches@, self.candidates@));
        }
        let picks = select_fess_frontier(&scores, &self.cand_keys, bucket_keys, self.width, self.per_bucket);
        proof {
            assert(is_frontier(scores_at(old(self).branches(), old(self).candidates()), old(self).candidate_keys(),
                key_views(bucket_keys@), old(self).width() as nat, old(self).per_bucket() as nat, picks@));
        }
        let mut next: Vec<usize> = Vec::new();
        let mut j: usize = 0;
        while j < picks.len()
            invariant
                self.well_formed(),
                j <= picks@.len(),
                forall|m: int| 0 <= m < picks@.len() ==> #[trigger] picks@[m] < self.candidates@.len(),
                next@.len() == j,
                forall|m: int| 0 <= m < j ==> #[trigger] next@[m] == self.candidates@[picks@[m] as int],
            decreases picks@.len() - j,
        {
            next.push(self.candidates[picks[j]]);
            j = j + 1;
        }
        proof {
            assert(next@ =~= picks@.map_values(|j: usize| self.candidates@[j as int]));
            assert forall|m: int| 0 <= m < next@.len() implies #[trigger] next@[m] < self.branches@.len() by {
                assert(picks@[m] < self.candidates@.len());
            }
        }
        self.frontier = next;
        self.candidates = Vec::new();
        self.cand_keys = Vec::new();
        proof {
            assert(self.frontier() == picks@.map_values(|j: usize| old(self).candidates()[j as int]));
        }
        true
    }
}

} // verus!
