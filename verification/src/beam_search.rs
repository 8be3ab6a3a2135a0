//! The beam searches, layer by layer, as sequences of decisions: each layer gathers the
//! boards one turn from the frontier reaches, scored by a plan plus the path length plus a
//! seeded jitter, and keeps the best `width` of them, ties in the order they came.

use vstd::prelude::*;
use std::collections::HashSet;
use crate::model::{Action, CellKind, Grid, PlayState, MAX_SIDE};
use crate::cells::CellClass;
use crate::scan::{count_of, count_matching};
use crate::actions::turns_view;
use crate::heuristics::{Tuning, spec_heuristic, heuristic};
use crate::queries::{spec_rectangle_lower_ready, rectangle_lower_ready};
use crate::rectangle::lower_board;
use crate::lure::{spec_tinderbox_heuristic, tinderbox_heuristic};
use crate::geometry::{spec_jitter_mix, jitter_for};

verus! {

broadcast use vstd::std_specs::hash::group_hash_axioms;

/// How a beam scores its boards.
#[derive(Clone, Copy, Debug)]
pub enum BeamPlan {
    /// The general score.
    General(Tuning),
    /// The tinderbox score; a board from which one turn wins ends the search when taken.
    Tinderbox {
        initial_rats: usize,
        initial_explosives: usize,
        rat_target: (i32, i32),
        safe_target: (i32, i32),
        tuning: Tuning,
    },
}

/// The plan's counts are those of real boards.
pub open spec fn plan_ok(plan: BeamPlan) -> bool {
    match plan {
        BeamPlan::General(_) => true,
        BeamPlan::Tinderbox { initial_rats, .. } => initial_rats <= MAX_SIDE * MAX_SIDE,
    }
}

/// The plan can score the board (see the tinderbox search).
pub open spec fn plan_scorable(plan: BeamPlan, g: Grid, win_ready: bool) -> bool {
    match plan {
        BeamPlan::General(_) => true,
        BeamPlan::Tinderbox { initial_explosives, tuning, .. } =>
            tuning.rect_lower && g.w() >= 16 ==> (spec_rectangle_lower_ready(g, win_ready)
                || count_of(g, CellClass::Exactly(CellKind::Explosive)) < initial_explosives || lower_board(g)),
    }
}

/// The plan's score of a board.
pub open spec fn plan_score(plan: BeamPlan, g: Grid, win_ready: bool) -> int {
    match plan {
        BeamPlan::General(tuning) => spec_heuristic(g, tuning),
        BeamPlan::Tinderbox { initial_rats, initial_explosives, rat_target, safe_target, tuning } =>
            spec_tinderbox_heuristic(g, initial_rats, initial_explosives, rat_target, safe_target, tuning, win_ready),
    }
}

/// The seeded jitter of a board: zero unless `jitter` is positive.
pub open spec fn beam_jitter(hash: u64, depth: usize, seed: u64, jitter: i64) -> int {
    if jitter <= 0 { 0 } else { (spec_jitter_mix(hash, depth, seed) % (jitter as u64)) as i64 as int }
}

/// The plan's score of a board, or `None` where it cannot score it.
fn plan_score_of(plan: BeamPlan, g: &Grid, win_ready: bool) -> (r: Option<i64>)
    requires
        plan_ok(plan),
    ensures
        r is Some <==> plan_scorable(plan, *g, win_ready),
        r matches Some(h) ==> h == plan_score(plan, *g, win_ready),
{
    match plan {
        BeamPlan::General(tuning) => Some(heuristic(g, tuning)),
        BeamPlan::Tinderbox { initial_rats, initial_explosives, rat_target, safe_target, tuning } => {
            if tuning.rect_lower && g.width() >= 16 {
                if !(rectangle_lower_ready(g, win_ready)
                    || count_matching(g, CellClass::Exactly(CellKind::Explosive)) < initial_explosives
                    || (g.width() >= 16 && g.height() >= 9)) {
                    return None;
                }
            }
            Some(tinderbox_heuristic(g, initial_rats, initial_explosives, rat_target, safe_target, tuning, win_ready))
        },
    }
}

/// A board of a beam: the turns to it and its score; `id` numbers it within its layer.
pub struct BeamCandidate {
    pub grid: Grid,
    pub path: Vec<Vec<Action>>,
    pub score: i64,
    pub id: usize,
}

/// The scores of a list of candidates.
pub open spec fn cand_scores(s: Seq<BeamCandidate>) -> Seq<i64> {
    s.map_values(|c: BeamCandidate| c.score)
}

/// Where a candidate scored `score` goes in a list in ascending order of score: after all
/// scored no higher.
pub open spec fn place_of(s: Seq<i64>, score: i64) -> int
    decreases s.len(),
{
    if s.len() == 0 {
        0
    } else if s.last() <= score {
        s.len() as int
    } else {
        place_of(s.drop_last(), score)
    }
}

/// Scores in ascending order.
pub open spec fn sorted_scores(s: Seq<i64>) -> bool {
    forall|a: int, b: int| 0 <= a < b < s.len() ==> s[a] <= s[b]
}

/// The first `n` candidates, or all where there are no more.
pub open spec fn first_n(s: Seq<BeamCandidate>, n: int) -> Seq<BeamCandidate> {
    if s.len() <= n { s } else { s.take(n) }
}

/// What became of a board one turn reached.
pub enum BeamOffer {
    /// Lost, already met in this layer, or (without jitter) met in an earlier one.
    Skipped,
    /// Won: the turns from the start.
    Solved(Vec<Vec<Action>>),
    /// Added to the layer with this number.
    Added(usize),
    /// The plan cannot score the board, or its score does not fit a 64-bit integer.
    Unscored,
}

/// A copy of a list of turns.
pub fn copy_turns(p: &Vec<Vec<Action>>) -> (q: Vec<Vec<Action>>)
    ensures
        turns_view(q@) == turns_view(p@),
{
    let mut q: Vec<Vec<Action>> = Vec::new();
    let mut i: usize = 0;
    while i < p.len()
        invariant
            i <= p@.len(),
            q@.len() == i,
            forall|k: int| 0 <= k < i ==> #[trigger] q@[k]@ == p@[k]@,
        decreases p@.len() - i,
    {
        let mut t: Vec<Action> = Vec::new();
        let mut j: usize = 0;
        while j < p[i].len()
            invariant
                i < p@.len(),
                j <= p@[i as int]@.len(),
                t@ == p@[i as int]@.subrange(0, j as int),
            decreases p@[i as int]@.len() - j,
        {
            t.push(p[i][j]);
            j = j + 1;
            proof {
                assert(t@ =~= p@[i as int]@.subrange(0, j as int));
            }
        }
        proof {
            assert(t@ =~= p@[i as int]@);
        }
        q.push(t);
        i = i + 1;
    }
    proof {
        assert(turns_view(q@) =~= turns_view(p@));
    }
    q
}

/// The turns of `a` followed by those of `b`.
pub fn join_turns(a: &Vec<Vec<Action>>, b: Vec<Vec<Action>>) -> (q: Vec<Vec<Action>>)
    ensures
        turns_view(q@) == turns_view(a@) + turns_view(b@),
{
    let mut q = copy_turns(a);
    let mut b = b;
    let ghost bv = b@;
    q.append(&mut b);
    proof {
        assert(turns_view(q@) =~= turns_view(a@) + turns_view(bv));
    }
    q
}

/// The state of a beam search.
pub struct BeamSearch {
    frontier: Vec<BeamCandidate>,
    layer: Vec<BeamCandidate>,
    added: usize,
    layer_seen: HashSet<u64>,
    global_seen: HashSet<u64>,
    plan: BeamPlan,
    width: usize,
    seed: u64,
    jitter: i64,
    depth: usize,
    best_score: i64,
    best_path: Vec<Vec<Action>>,
}

impl BeamSearch {
    pub closed spec fn well_formed(&self) -> bool {
        &&& plan_ok(self.plan)
        &&& sorted_scores(cand_scores(self.layer@))
    }

    pub closed spec fn frontier(&self) -> Seq<BeamCandidate> {
        self.frontier@
    }

    pub closed spec fn layer(&self) -> Seq<BeamCandidate> {
        self.layer@
    }

    pub closed spec fn added(&self) -> usize {
        self.added
    }

    pub closed spec fn layer_seen(&self) -> Set<u64> {
        self.layer_seen@
    }

    pub closed spec fn global_seen(&self) -> Set<u64> {
        self.global_seen@
    }

    pub closed spec fn plan(&self) -> BeamPlan {
        self.plan
    }

    pub closed spec fn width(&self) -> usize {
        self.width
    }

    pub closed spec fn seed(&self) -> u64 {
        self.seed
    }

    pub closed spec fn jitter(&self) -> i64 {
        self.jitter
    }

    pub closed spec fn depth(&self) -> usize {
        self.depth
    }

    pub closed spec fn best_score(&self) -> i64 {
        self.best_score
    }

    pub closed spec fn best_turns(&self) -> Seq<Seq<Action>> {
        turns_view(self.best_path@)
    }

    /// The boards of the layer being built stand in ascending order of score.
    pub proof fn law_layer_sorted(&self)
        requires
            self.well_formed(),
        ensures
            forall|a: int, b: int| 0 <= a < b < self.layer().len() ==> self.layer()[a].score <= self.layer()[b].score,
    {
        assert forall|a: int, b: int| 0 <= a < b < self.layer().len() implies self.layer()[a].score <= self.layer()[b].score by {
            assert(cand_scores(self.layer@)[a] == self.layer@[a].score);
            assert(cand_scores(self.layer@)[b] == self.layer@[b].score);
        }
    }

    /// A beam from `root` (hash `root_hash`; `win_ready` tells whether one turn can win from
    /// it) holding the root alone, at the plan's score, as the best so far; `None` where the
    /// plan cannot score the root.
    pub fn new(root: Grid, root_hash: u64, plan: BeamPlan, width: usize, seed: u64, jitter: i64, win_ready: bool) -> (r: Option<Self>)
        requires
            plan_ok(plan),
        ensures
            r is Some <==> plan_scorable(plan, root, win_ready),
            r matches Some(s) ==> {
                &&& s.well_formed()
                &&& s.frontier().len() == 1
                &&& s.frontier()[0].grid == root
                &&& s.frontier()[0].path@.len() == 0
                &&& s.frontier()[0].score == plan_score(plan, root, win_ready)
                &&& s.layer().len() == 0
                &&& s.added() == 0
                &&& s.layer_seen() == Set::<u64>::empty()
                &&& s.global_seen() == Set::<u64>::empty().insert(root_hash)
                &&& s.plan() == plan
                &&& s.width() == width
                &&& s.seed() == seed
                &&& s.jitter() == jitter
                &&& s.depth() == 0
                &&& s.best_score() == plan_score(plan, root, win_ready)
                &&& s.best_turns().len() == 0
            },
    {
        let h = match plan_score_of(plan, &root, win_ready) {
            Some(h) => h,
            None => return None,
        };
        let mut frontier: Vec<BeamCandidate> = Vec::new();
        frontier.push(BeamCandidate { grid: root, path: Vec::new(), score: h, id: 0 });
        let mut global_seen: HashSet<u64> = HashSet::new();
        global_seen.insert(root_hash);
        Some(BeamSearch {
            frontier,
            layer: Vec::new(),
            added: 0,
            layer_seen: HashSet::new(),
            global_seen,
            plan,
            width,
            seed,
            jitter,
            depth: 0,
            best_score: h,
            best_path: Vec::new(),
        })
    }

    /// The boards of the current frontier, in ascending order of score.
    pub fn frontier_boards(&self) -> (f: &Vec<BeamCandidate>)
        ensures
            f@ == self.frontier(),
    {
        &self.frontier
    }

    /// The index of the current layer.
    pub fn layer_depth(&self) -> (d: usize)
        ensures
            d == self.depth(),
    {
        self.depth
    }

    /// The best score so far.
    pub fn best(&self) -> (s: i64)
        ensures
            s == self.best_score(),
    {
        self.best_score
    }

    /// The turns to the best scored board so far.
    pub fn best_path(&self) -> (p: Vec<Vec<Action>>)
        ensures
            turns_view(p@) == self.best_turns(),
    {
        copy_turns(&self.best_path)
    }

    /// The turns to frontier board `k` followed by the winning turn `action` from it.
    pub fn win_from(&self, k: usize, action: Vec<Action>) -> (p: Vec<Vec<Action>>)
        requires
            k < self.frontier().len(),
        ensures
            turns_view(p@) == turns_view(self.frontier()[k as int].path@).push(action@),
    {
        let mut path = copy_turns(&self.frontier[k].path);
        let ghost av = action@;
        path.push(action);
        proof {
            assert(turns_view(path@) =~= turns_view(self.frontier@[k as int].path@).push(av));
        }
        path
    }

    /// Decides what to do with the board `child` that the turn `action` reached from
    /// frontier board `k`, in play state `play_state`, with hash `hash`; `win_ready` tells
    /// whether one more turn can win from it. A lost board is skipped. The general plan skips
    /// a board met already in this layer, or without jitter in an earlier one, before it
    /// looks for a win; the tinderbox plan looks for a win first. A won board solves the
    /// search; any other joins the layer after those scored no higher, with score the plan's
    /// plus the path length plus the jitter, becoming the best when it scores lower than the
    /// best so far.
    #[verifier::rlimit(60)]
    pub fn offer(&mut self, k: usize, action: Vec<Action>, child: Grid, play_state: PlayState, hash: u64, win_ready: bool) -> (o: BeamOffer)
        requires
            old(self).well_formed(),
            k < old(self).frontier().len(),
            old(self).frontier()[k as int].path@.len() < usize::MAX,
            old(self).added() < usize::MAX,
        ensures
            final(self).well_formed(),
            final(self).frontier() == old(self).frontier(),
            final(self).plan() == old(self).plan(),
            final(self).width() == old(self).width(),
            final(self).seed() == old(self).seed(),
            final(self).jitter() == old(self).jitter(),
            final(self).depth() == old(self).depth(),
            ({
                let parent = old(self).frontier()[k as int];
                let path = turns_view(parent.path@).push(action@);
                let seen = old(self).layer_seen().contains(hash)
                    || (old(self).global_seen().contains(hash) && old(self).jitter() == 0);
                let won_first = old(self).plan() is Tinderbox;
                let score = plan_score(old(self).plan(), child, win_ready) + path.len()
                    + beam_jitter(hash, old(self).depth(), old(self).seed(), old(self).jitter());
                if play_state == PlayState::GameOver {
                    o is Skipped
                } else if !won_first && seen {
                    o is Skipped
                } else if play_state == PlayState::Won {
                    (o matches BeamOffer::Solved(p) && turns_view(p@) == path)
                } else if seen {
                    o is Skipped
                } else if !plan_scorable(old(self).plan(), child, win_ready) || score < i64::MIN || score > i64::MAX {
                    o is Unscored
                } else {
                    &&& o == BeamOffer::Added(old(self).added())
                    &&& final(self).added() == old(self).added() + 1
                    &&& exists|c: BeamCandidate| {
                        &&& c.grid == child
                        &&& turns_view(c.path@) == path
                        &&& c.score == score
                        &&& c.id == old(self).added()
                        &&& final(self).layer() == old(self).layer().insert(place_of(cand_scores(old(self).layer()), c.score), c)
                    }
                    &&& (score < old(self).best_score() ==> final(self).best_score() == score && final(self).best_turns() == path)
                    &&& (score >= old(self).best_score() ==> final(self).best_score() == old(self).best_score()
                        && final(self).best_turns() == old(self).best_turns())
                }
            }),
            (o is Skipped || o is Solved) ==> {
                &&& final(self).layer() == old(self).layer()
                &&& final(self).added() == old(self).added()
                &&& final(self).best_score() == old(self).best_score()
                &&& final(self).best_turns() == old(self).best_turns()
            },
            o is Unscored ==> {
                &&& final(self).layer() == old(self).layer()
                &&& final(self).added() == old(self).added()
                &&& final(self).best_score() == old(self).best_score()
                &&& final(self).best_turns() == old(self).best_turns()
            },
            (o is Skipped || o is Solved) ==> {
                &&& final(self).layer_seen() == old(self).layer_seen()
                &&& final(self).global_seen() == old(self).global_seen()
            },
            (o is Added || o is Unscored) ==> {
                &&& final(self).layer_seen() == old(self).layer_seen().insert(hash)
                &&& final(self).global_seen() == old(self).global_seen().insert(hash)
            },
    {
        if play_state == PlayState::GameOver {
            return BeamOffer::Skipped;
        }
        let won_first = match self.plan {
            BeamPlan::Tinderbox { .. } => true,
            BeamPlan::General(_) => false,
        };
        let seen = self.layer_seen.contains(&hash) || (self.global_seen.contains(&hash) && self.jitter == 0);
        if !won_first && seen {
            return BeamOffer::Skipped;
        }
        let mut path = copy_turns(&self.frontier[k].path);
        let ghost av = action@;
        path.push(action);
        proof {
            assert(turns_view(path@) =~= turns_view(self.frontier@[k as int].path@).push(av));
        }
        if play_state == PlayState::Won {
            return BeamOffer::Solved(path);
        }
        if seen {
            return BeamOffer::Skipped;
        }
        self.layer_seen.insert(hash);
        self.global_seen.insert(hash);
        let h = match plan_score_of(self.plan, &child, win_ready) {
            Some(h) => h,
            None => return BeamOffer::Unscored,
        };
        let j = jitter_for(hash, self.depth, self.seed, self.jitter);
        let total: i128 = h as i128 + path.len() as i128 + j as i128;
        if total < i64::MIN as i128 || total > i64::MAX as i128 {
            return BeamOffer::Unscored;
        }
        let score = total as i64;
        if score < self.best_score {
            self.best_score = score;
            self.best_path = copy_turns(&path);
        }
        let id = self.added;
        self.added = self.added + 1;
        let c = BeamCandidate { grid: child, path, score, id };
        let ghost w = c;
        let ghost before = self.layer@;
        self.insert_candidate(c);
        proof {
            assert(w.grid == child);
            assert(before == old(self).layer@);
            assert(turns_view(w.path@) == turns_view(old(self).frontier@[k as int].path@).push(action@));
            assert(self.layer@ == old(self).layer@.insert(place_of(cand_scores(old(self).layer@), w.score), w));
        }
        BeamOffer::Added(id)
    }

    /// Puts `c` into the layer after the candidates scored no higher.
    fn insert_candidate(&mut self, c: BeamCandidate)
        requires
            old(self).well_formed(),
        ensures
            final(self).well_formed(),
            final(self).layer() == old(self).layer().insert(place_of(cand_scores(old(self).layer()), c.score), c),
            final(self).frontier() == old(self).frontier(),
            final(self).added() == old(self).added(),
            final(self).layer_seen() == old(self).layer_seen(),
            final(self).global_seen() == old(self).global_seen(),
            final(self).plan() == old(self).plan(),
            final(self).width() == old(self).width(),
            final(self).seed() == old(self).seed(),
            final(self).jitter() == old(self).jitter(),
            final(self).depth() == old(self).depth(),
            final(self).best_score() == old(self).best_score(),
            final(self).best_turns() == old(self).best_turns(),
    {
        let ghost s = cand_scores(self.layer@);
        proof {
            assert(s.subrange(0, s.len() as int) =~= s);
        }
        let mut pos = self.layer.len();
        while pos > 0 && self.layer[pos - 1].score > c.score
            invariant
                pos <= self.layer@.len(),
                s == cand_scores(self.layer@),
                sorted_scores(s),
                place_of(s, c.score) == place_of(s.subrange(0, pos as int), c.score),
                forall|k: int| pos <= k < s.len() ==> s[k] > c.score,
            decreases pos,
        {
            proof {
                let pre = s.subrange(0, pos as int);
                assert(pre.drop_last() =~= s.subrange(0, pos - 1));
                assert(pre.last() == s[pos - 1]);
            }
            pos = pos - 1;
        }
        proof {
            let pre = s.subrange(0, pos as int);
            if pos > 0 {
                assert(pre.last() == s[pos - 1]);
            }
            assert(place_of(pre, c.score) == pos);
            assert forall|k: int| 0 <= k < pos implies s[k] <= c.score by {
                assert(s[k] <= s[pos - 1]);
            }
        }
        let ghost old_layer = self.layer@;
        let ghost cs = c.score;
        self.layer.insert(pos, c);
        proof {
            let ns = cand_scores(self.layer@);
            assert forall|j: int| 0 <= j < self.layer@.len() implies #[trigger] self.layer@[j].score ==
                (if j < pos { s[j] } else if j == pos { cs } else { s[j - 1] }) by {
                if j < pos {
                    assert(self.layer@[j] == old_layer[j]);
                } else if j > pos {
                    assert(self.layer@[j] == old_layer[j - 1]);
                }
            }
            assert forall|a: int, b: int| 0 <= a < b < ns.len() implies ns[a] <= ns[b] by {
                assert(ns[a] == self.layer@[a].score);
                assert(ns[b] == self.layer@[b].score);
                if b > pos && a < pos {
                    assert(s[a] <= s[b - 1]);
                } else if b > pos && a > pos {
                    assert(s[a - 1] <= s[b - 1]);
                }
            }
        }
    }

    /// Ends the layer: the frontier becomes the layer's first `width` boards (in ascending
    /// order of score, ties in the order they came), and the next layer starts empty. Gives
    /// `false`, changing nothing, when the layer is empty: the search has failed.
    pub fn end_layer(&mut self) -> (ok: bool)
        requires
            old(self).well_formed(),
            old(self).depth() < usize::MAX,
        ensures
            final(self).well_formed(),
            ok == (old(self).layer().len() > 0),
            !ok ==> *final(self) == *old(self),
            ok ==> {
                &&& final(self).frontier() == first_n(old(self).layer(), old(self).width() as int)
                &&& final(self).layer().len() == 0
                &&& final(self).added() == 0
                &&& final(self).layer_seen() == Set::<u64>::empty()
                &&& final(self).global_seen() == old(self).global_seen()
                &&& final(self).plan() == old(self).plan()
                &&& final(self).width() == old(self).width()
                &&& final(self).seed() == old(self).seed()
                &&& final(self).jitter() == old(self).jitter()
                &&& final(self).depth() == old(self).depth() + 1
                &&& final(self).best_score() == old(self).best_score()
                &&& final(self).best_turns() == old(self).best_turns()
            },
    {
        if self.layer.len() == 0 {
            return false;
        }
        let mut next: Vec<BeamCandidate> = Vec::new();
        std::mem::swap(&mut next, &mut self.layer);
        let ghost full = next@;
        next.truncate(self.width);
        proof {
            assert(next@ =~= first_n(full, self.width as int));
        }
        self.frontier = next;
        self.added = 0;
        self.layer_seen = HashSet::new();
        self.depth = self.depth + 1;
        proof {
            assert(cand_scores(self.layer@) =~= Seq::<i64>::empty());
        }
        true
    }
}

} // verus!
