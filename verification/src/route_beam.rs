//! The beam that follows a reference route: each layer holds the boards one turn further,
//! scored by progress towards the win, a penalty per turn that leaves the route, the number
//! of turns and a seeded jitter; the best `width` of them go on, as a sequence of decisions.

use vstd::prelude::*;
use std::collections::HashMap;
use crate::model::{Action, Grid, PlayState};
use crate::actions::turns_view;
use crate::goal_progress::{win_progress, win_progress_exec};
use crate::heuristics::Tuning;
use crate::geometry::jitter_for;
use crate::beam::{is_stable_order, stable_order};
use crate::beam_search::{beam_jitter, copy_turns};

verus! {

broadcast use vstd::std_specs::hash::group_hash_axioms;

/// A board of the beam: the turns to it, how many of them left the route, its score, and
/// its place in the layer it joined.
pub struct RouteState {
    pub grid: Grid,
    pub path: Vec<Vec<Action>>,
    pub deviations: usize,
    pub score: i64,
    pub slot: usize,
}

/// What became of a board one turn reached.
pub enum RouteOffer {
    /// The turn leaves the route once too often, or the board is lost; nothing changed.
    Skipped,
    /// Won: the turns from the start.
    Solved(Vec<Vec<Action>>),
    /// Its score does not fit a 64-bit integer; nothing changed.
    Unscored,
    /// Its board is in the layer already at a score no higher; only the best may have
    /// changed.
    Worse,
    /// Its board was in the layer at this place at a higher score, and is replaced.
    Replaced(usize),
    /// Added to the layer at this place.
    Added(usize),
}

/// The turn `action` taken at layer `depth` leaves the route `reference`: the route still
/// runs and names another turn.
pub open spec fn deviates(reference: Seq<Seq<Action>>, depth: int, action: Seq<Action>) -> bool {
    depth < reference.len() && reference[depth] != action
}

/// The scores of a list of states.
pub open spec fn state_scores_of(states: Seq<RouteState>) -> Seq<i64> {
    states.map_values(|s: RouteState| s.score)
}

/// The states of a layer.
pub open spec fn states(layer: Seq<Option<RouteState>>) -> Seq<RouteState> {
    layer.map_values(|s: Option<RouteState>| s.unwrap())
}

/// The first `n` of a list, or all where there are fewer.
pub open spec fn first_of<T>(s: Seq<T>, n: int) -> Seq<T> {
    if s.len() <= n { s } else { s.take(n) }
}

/// Whether two turns are the same.
fn same_turn(a: &Vec<Action>, b: &Vec<Action>) -> (r: bool)
    ensures
        r == (a@ == b@),
{
    if a.len() != b.len() {
        return false;
    }
    let mut i: usize = 0;
    while i < a.len()
        invariant
            a@.len() == b@.len(),
            i <= a@.len(),
            forall|j: int| 0 <= j < i ==> a@[j] == b@[j],
        decreases a@.len() - i,
    {
        if a[i] != b[i] {
            return false;
        }
        i = i + 1;
    }
    proof {
        assert(a@ =~= b@);
    }
    true
}

/// The state of a route-following beam.
pub struct RouteBeam {
    frontier: Vec<RouteState>,
    layer: Vec<Option<RouteState>>,
    layer_hashes: Vec<u64>,
    index: HashMap<u64, usize>,
    reference: Vec<Vec<Action>>,
    tuning: Tuning,
    width: usize,
    penalty: i64,
    max_deviations: Option<usize>,
    seed: u64,
    jitter: i64,
    depth: usize,
    best_score: i64,
    best_path: Vec<Vec<Action>>,
    best_deviations: usize,
}

impl RouteBeam {
    pub closed spec fn well_formed(&self) -> bool {
        &&& self.layer@.len() == self.layer_hashes@.len()
        &&& forall|p: int| 0 <= p < self.layer@.len() ==> #[trigger] self.layer@[p] is Some
        &&& forall|p: int| 0 <= p < self.layer_hashes@.len() ==> {
            &&& self.index@.contains_key(#[trigger] self.layer_hashes@[p])
            &&& self.index@[self.layer_hashes@[p]] == p
        }
        &&& forall|h: u64| #[trigger] self.index@.contains_key(h) ==> {
            &&& self.index@[h] < self.layer_hashes@.len()
            &&& self.layer_hashes@[self.index@[h] as int] == h
        }
    }

    pub closed spec fn frontier(&self) -> Seq<RouteState> {
        self.frontier@
    }

    pub closed spec fn layer(&self) -> Seq<RouteState> {
        states(self.layer@)
    }

    pub closed spec fn layer_hashes(&self) -> Seq<u64> {
        self.layer_hashes@
    }

    pub closed spec fn reference(&self) -> Seq<Seq<Action>> {
        turns_view(self.reference@)
    }

    pub closed spec fn tuning(&self) -> Tuning {
        self.tuning
    }

    pub closed spec fn width(&self) -> usize {
        self.width
    }

    pub closed spec fn penalty(&self) -> i64 {
        self.penalty
    }

    pub closed spec fn max_deviations(&self) -> Option<usize> {
        self.max_deviations
    }

    pub closed spec fn seed(&self) -> u64 {
        self.seed
    }

    pub closed spec fn jitter(&self) -> i64 {
        self.jitter
    }

    pub closed spec fn depth(&self) -> usize {
        self.depth
    }

    pub closed spec fn best_score(&self) -> i64 {
        self.best_score
    }

    pub closed spec fn best_turns(&self) -> Seq<Seq<Action>> {
        turns_view(self.best_path@)
    }

    pub closed spec fn best_deviations(&self) -> usize {
        self.best_deviations
    }

    /// A board joins the layer being built at most once: no two places hold the same hash.
    pub proof fn law_layer_boards_distinct(&self)
        requires
            self.well_formed(),
        ensures
            forall|p: int, q: int| 0 <= p < q < self.layer_hashes().len() ==> self.layer_hashes()[p] != self.layer_hashes()[q],
    {
        assert forall|p: int, q: int| 0 <= p < q < self.layer_hashes().len() implies self.layer_hashes()[p] != self.layer_hashes()[q] by {
            assert(self.index@[self.layer_hashes@[p]] == p);
            assert(self.index@[self.layer_hashes@[q]] == q);
        }
    }

    /// A beam from `root` following `reference`: the root alone in the frontier at its
    /// progress towards the win, and the best so far.
    pub fn new(root: Grid, reference: Vec<Vec<Action>>, tuning: Tuning, width: usize, penalty: i64,
        max_deviations: Option<usize>, seed: u64, jitter: i64) -> (s: Self)
        ensures
            s.well_formed(),
            s.frontier().len() == 1,
            s.frontier()[0].grid == root,
            s.frontier()[0].path@.len() == 0,
            s.frontier()[0].deviations == 0,
            s.frontier()[0].score == win_progress(root, tuning),
            s.layer().len() == 0,
            s.reference() == turns_view(reference@),
            s.tuning() == tuning,
            s.width() == width,
            s.penalty() == penalty,
            s.max_deviations() == max_deviations,
            s.seed() == seed,
            s.jitter() == jitter,
            s.depth() == 0,
            s.best_score() == win_progress(root, tuning),
            s.best_turns().len() == 0,
            s.best_deviations() == 0,
    {
        let h = win_progress_exec(&root, tuning);
        let mut frontier: Vec<RouteState> = Vec::new();
        frontier.push(RouteState { grid: root, path: Vec::new(), deviations: 0, score: h, slot: 0 });
        let s = RouteBeam {
            frontier,
            layer: Vec::new(),
            layer_hashes: Vec::new(),
            index: HashMap::new(),
            reference,
            tuning,
            width,
            penalty,
            max_deviations,
            seed,
            jitter,
            depth: 0,
            best_score: h,
            best_path: Vec::new(),
            best_deviations: 0,
        };
        proof {
            assert(states(s.layer@) =~= Seq::<RouteState>::empty());
        }
        s
    }

    /// The boards of the current frontier.
    pub fn frontier_states(&self) -> (f: &Vec<RouteState>)
        ensures
            f@ == self.frontier(),
    {
        &self.frontier
    }

    /// The index of the current layer.
    pub fn layer_depth(&self) -> (d: usize)
        ensures
            d == self.depth(),
    {
        self.depth
    }

    /// The best score so far.
    pub fn best(&self) -> (s: i64)
        ensures
            s == self.best_score(),
    {
        self.best_score
    }

    /// How many turns of the best board so far leave the route.
    pub fn best_deviation_count(&self) -> (n: usize)
        ensures
            n == self.best_deviations(),
    {
        self.best_deviations
    }

    /// The turns to the best board so far.
    pub fn best_path(&self) -> (p: Vec<Vec<Action>>)
        ensures
            turns_view(p@) == self.best_turns(),
    {
        copy_turns(&self.best_path)
    }

    /// Decides what to do with the board `child` that the turn `action` reached from
    /// frontier board `k`, in play state `play_state`, with hash `hash`. A turn that leaves
    /// the route once more than allowed is skipped before anything else, and so is a lost
    /// board; a won board solves the search. Any other is scored: its progress towards the
    /// win, plus the penalty for each turn off the route, plus its number of turns, plus the
    /// seeded jitter; it becomes the best when it scores lower than the best so far, and
    /// joins the layer unless its board is there already at a score no higher, in which case
    /// the lower scored one stays.
    #[verifier::rlimit(60)]
    pub fn offer(&mut self, k: usize, action: Vec<Action>, child: Grid, play_state: PlayState, hash: u64) -> (o: RouteOffer)
        requires
            old(self).well_formed(),
            k < old(self).frontier().len(),
            old(self).frontier()[k as int].deviations < usize::MAX,
        ensures
            final(self).well_formed(),
            final(self).frontier() == old(self).frontier(),
            final(self).reference() == old(self).reference(),
            final(self).tuning() == old(self).tuning(),
            final(self).width() == old(self).width(),
            final(self).penalty() == old(self).penalty(),
            final(self).max_deviations() == old(self).max_deviations(),
            final(self).seed() == old(self).seed(),
            final(self).jitter() == old(self).jitter(),
            final(self).depth() == old(self).depth(),
            ({
                let parent = old(self).frontier()[k as int];
                let dev = parent.deviations + if deviates(old(self).reference(), old(self).depth() as int, action@) { 1int } else { 0int };
                let path = turns_view(parent.path@).push(action@);
                let score = win_progress(child, old(self).tuning()) + dev * old(self).penalty() + path.len()
                    + beam_jitter(hash, old(self).depth(), old(self).seed(), old(self).jitter());
                let hs = old(self).layer_hashes();
                if (old(self).max_deviations() matches Some(l) && dev > l) || play_state == PlayState::GameOver {
                    o is Skipped
                } else if play_state == PlayState::Won {
                    (o matches RouteOffer::Solved(p) && turns_view(p@) == path)
                } else if score < i64::MIN || score > i64::MAX {
                    o is Unscored
                } else {
                    &&& (score < old(self).best_score() ==> final(self).best_score() == score
                        && final(self).best_turns() == path && final(self).best_deviations() == dev)
                    &&& (score >= old(self).best_score() ==> final(self).best_score() == old(self).best_score()
                        && final(self).best_turns() == old(self).best_turns()
                        && final(self).best_deviations() == old(self).best_deviations())
                    &&& (hs.contains(hash) ==> exists|q: int| {
                        &&& 0 <= q < hs.len()
                        &&& hs[q] == hash
                        &&& (old(self).layer()[q].score <= score ==> o is Worse)
                        &&& (old(self).layer()[q].score > score ==> o == RouteOffer::Replaced(q as usize))
                    })
                    &&& (!hs.contains(hash) ==> o == RouteOffer::Added(hs.len() as usize))
                    &&& (o is Replaced || o is Added) ==> {
                        let q = match o { RouteOffer::Replaced(q) => q as int, _ => hs.len() as int };
                        exists|c: RouteState| #![trigger c.grid] {
                            &&& c.grid == child
                            &&& turns_view(c.path@) == path
                            &&& c.deviations == dev
                            &&& c.score == score
                            &&& c.slot == q
                            &&& (o is Replaced ==> final(self).layer() == old(self).layer().update(q, c)
                                && final(self).layer_hashes() == hs)
                            &&& (o is Added ==> final(self).layer() == old(self).layer().push(c)
                                && final(self).layer_hashes() == hs.push(hash))
                        }
                    }
                }
            }),
            (o is Skipped || o is Solved || o is Unscored) ==> {
                &&& final(self).best_score() == old(self).best_score()
                &&& final(self).best_turns() == old(self).best_turns()
                &&& final(self).best_deviations() == old(self).best_deviations()
            },
            !(o is Replaced || o is Added) ==> {
                &&& final(self).layer() == old(self).layer()
                &&& final(self).layer_hashes() == old(self).layer_hashes()
            },
    {
        let parent_dev = self.frontier[k].deviations;
        let off = self.depth < self.reference.len() && !same_turn(&self.reference[self.depth], &action);
        proof {
            if self.depth < self.reference@.len() {
                assert(turns_view(self.reference@)[self.depth as int] == self.reference@[self.depth as int]@);
            }
        }
        let dev: usize = if off { parent_dev + 1 } else { parent_dev };
        match self.max_deviations {
            Some(l) => {
                if dev > l {
                    return RouteOffer::Skipped;
                }
            },
            None => {},
        }
        if play_state == PlayState::GameOver {
            return RouteOffer::Skipped;
        }
        let mut path = copy_turns(&self.frontier[k].path);
        let ghost av = action@;
        path.push(action);
        proof {
            assert(turns_view(path@) =~= turns_view(self.frontier@[k as int].path@).push(av));
        }
        if play_state == PlayState::Won {
            return RouteOffer::Solved(path);
        }
        let h = win_progress_exec(&child, self.tuning);
        let j = jitter_for(hash, self.depth, self.seed, self.jitter);
        proof {
            assert(dev as int * self.penalty as int <= 0xffff_ffff_ffff_ffffint * 0x8000_0000_0000_0000int)
                by (nonlinear_arith) requires 0 <= dev <= 0xffff_ffff_ffff_ffff, -0x8000_0000_0000_0000 <= self.penalty < 0x8000_0000_0000_0000;
            assert(dev as int * self.penalty as int >= -(0xffff_ffff_ffff_ffffint * 0x8000_0000_0000_0000int))
                by (nonlinear_arith) requires 0 <= dev <= 0xffff_ffff_ffff_ffff, -0x8000_0000_0000_0000 <= self.penalty < 0x8000_0000_0000_0000;
            assert(j as int == beam_jitter(hash, self.depth, self.seed, self.jitter));
            assert(-0x8000_0000_0000_0000 <= j < 0x8000_0000_0000_0000);
        }
        let dev_cost: i128 = dev as i128 * self.penalty as i128;
        let plen = path.len();
        proof {
            assert(plen == turns_view(path@).len());
        }
        if dev_cost > 0x1_0000_0000_0000_0000_0000_0000i128 || dev_cost < -0x1_0000_0000_0000_0000_0000_0000i128 {
            proof {
                assert(dev_cost as int == dev as int * self.penalty as int);
                assert(0 <= j);
            }
            return RouteOffer::Unscored;
        }
        let total: i128 = h as i128 + dev_cost + plen as i128 + j as i128;
        if total < -0x8000_0000_0000_0000i128 || total > 0x7fff_ffff_ffff_ffffi128 {
            return RouteOffer::Unscored;
        }
        let score = total as i64;
        if score < self.best_score {
            self.best_score = score;
            self.best_path = copy_turns(&path);
            self.best_deviations = dev;
        }
        match self.index.get(&hash) {
            Some(q) => {
                let q = *q;
                let existing = match &self.layer[q] {
                    Some(st) => st.score,
                    None => 0,
                };
                proof {
                    assert(old(self).layer_hashes()[q as int] == hash);
                    assert(old(self).layer()[q as int].score == existing);
                }
                if existing <= score {
                    return RouteOffer::Worse;
                }
                let ghost c = RouteState { grid: child, path, deviations: dev, score, slot: q };
                let cand = RouteState { grid: child, path, deviations: dev, score, slot: q };
                proof {
                    assert(cand == c);
                }
                self.layer.set(q, Some(cand));
                proof {
                    assert(states(self.layer@) =~= states(old(self).layer@).update(q as int, c));
                }
                proof {
                    assert(self.layer() == old(self).layer().update(q as int, c));
                    assert(c.grid == child && turns_view(c.path@) == turns_view(old(self).frontier()[k as int].path@).push(av));
                }
                RouteOffer::Replaced(q)
            },
            None => {
                proof {
                    assert(!old(self).layer_hashes().contains(hash)) by {
                        if old(self).layer_hashes().contains(hash) {
                            let p = choose|p: int| 0 <= p < old(self).layer_hashes@.len() && old(self).layer_hashes@[p] == hash;
                            assert(old(self).index@.contains_key(old(self).layer_hashes@[p]));
                        }
                    }
                }
                let q = self.layer.len();
                let ghost c = RouteState { grid: child, path, deviations: dev, score, slot: q };
                let cand = RouteState { grid: child, path, deviations: dev, score, slot: q };
                proof {
                    assert(cand == c);
                }
                self.layer.push(Some(cand));
                self.layer_hashes.push(hash);
                self.index.insert(hash, q);
                proof {
                    assert(states(self.layer@) =~= states(old(self).layer@).push(c));
                    assert(c.grid == child && turns_view(c.path@) == turns_view(old(self).frontier()[k as int].path@).push(av));
                    assert forall|h2: u64| #[trigger] self.index@.contains_key(h2) implies {
                        &&& self.index@[h2] < self.layer_hashes@.len()
                        &&& self.layer_hashes@[self.index@[h2] as int] == h2
                    } by {
                        if h2 != hash {
                            assert(old(self).index@.contains_key(h2));
                        }
                    }
                    assert forall|p: int| 0 <= p < self.layer_hashes@.len() implies {
                        &&& self.index@.contains_key(#[trigger] self.layer_hashes@[p])
                        &&& self.index@[self.layer_hashes@[p]] == p
                    } by {
                        if p < q {
                            assert(old(self).index@.contains_key(old(self).layer_hashes@[p]));
                            assert(old(self).layer_hashes@[p] != hash);
                        }
                    }
                }
                RouteOffer::Added(q)
            },
        }
    }

    /// Ends the layer: the frontier becomes the layer's first `width` boards in ascending
    /// order of score, ties in the order they joined, and the next layer starts empty. Gives
    /// `false`, changing nothing, when the layer is empty: the search has failed.
    pub fn end_layer(&mut self) -> (ok: bool)
        requires
            old(self).well_formed(),
            old(self).depth() < usize::MAX,
        ensures
            final(self).well_formed(),
            ok == (old(self).layer().len() > 0),
            !ok ==> final(self).frontier() == old(self).frontier() && final(self).layer() == old(self).layer()
                && final(self).depth() == old(self).depth(),
            ok ==> {
                &&& exists|ord: Seq<usize>| {
                    &&& is_stable_order(state_scores_of(old(self).layer()), ord)
                    &&& final(self).frontier() == first_of(ord.map_values(|j: usize| old(self).layer()[j as int]), old(self).width() as int)
                }
                &&& final(self).layer().len() == 0
                &&& final(self).layer_hashes().len() == 0
                &&& final(self).depth() == old(self).depth() + 1
            },
            final(self).reference() == old(self).reference(),
            final(self).tuning() == old(self).tuning(),
            final(self).width() == old(self).width(),
            final(self).penalty() == old(self).penalty(),
            final(self).max_deviations() == old(self).max_deviations(),
            final(self).seed() == old(self).seed(),
            final(self).jitter() == old(self).jitter(),
            final(self).best_score() == old(self).best_score(),
            final(self).best_turns() == old(self).best_turns(),
            final(self).best_deviations() == old(self).best_deviations(),
    {
        let n = self.layer.len();
        if n == 0 {
            return false;
        }
        let mut scores: Vec<i64> = Vec::new();
        let mut i: usize = 0;
        while i < n
            invariant
                self.well_formed(),
                n == self.layer@.len(),
                i <= n,
                scores@.len() == i,
                forall|j: int| 0 <= j < i ==> #[trigger] scores@[j] == state_scores_of(states(self.layer@))[j],
            decreases n - i,
        {
            let s = match &self.layer[i] {
                Some(st) => st.score,
                None => 0,
            };
            scores.push(s);
            i = i + 1;
        }
        proof {
            assert(scores@ =~= state_scores_of(states(self.layer@)));
        }
        let ord = stable_order(&scores);
        let take = if n < self.width { n } else { self.width };
        let ghost full = states(self.layer@);
        let mut slots = Vec::new();
        std::mem::swap(&mut slots, &mut self.layer);
        let mut next: Vec<RouteState> = Vec::new();
        let mut j: usize = 0;
        while j < take
            invariant
                take <= n,
                n == ord@.len(),
                slots@.len() == n,
                full.len() == n,
                is_stable_order(scores@, ord@),
                scores@.len() == n,
                j <= take,
                next@.len() == j,
                forall|m: int| 0 <= m < j ==> #[trigger] next@[m] == full[ord@[m] as int],
                forall|m: int| j <= m < n ==> #[trigger] slots@[ord@[m] as int] == Some(full[ord@[m] as int]),
            decreases take - j,
        {
            let mut tmp: Option<RouteState> = None;
            let p = ord[j];
            slots.set_and_swap(p, &mut tmp);
            proof {
                assert forall|m: int| j + 1 <= m < n implies #[trigger] slots@[ord@[m] as int] == Some(full[ord@[m] as int]) by {
                    assert(crate::beam::ranks_before(scores@, ord@[j as int] as int, ord@[m] as int));
                    assert(ord@[m] != ord@[j as int]);
                }
            }
            match tmp {
                Some(st) => {
                    next.push(st);
                },
                None => {
                    proof {
                        assert(false);
                    }
                },
            }
            j = j + 1;
        }
        proof {
            let mapped = ord@.map_values(|j: usize| full[j as int]);
            assert(next@ =~= first_of(mapped, self.width as int));
        }
        self.frontier = next;
        self.layer_hashes = Vec::new();
        self.index = HashMap::new();
        self.depth = self.depth + 1;
        proof {
            assert(states(self.layer@) =~= Seq::<RouteState>::empty());
            assert(is_stable_order(state_scores_of(old(self).layer()), ord@));
            assert(self.frontier() == first_of(ord@.map_values(|j: usize| old(self).layer()[j as int]), old(self).width() as int));
        }
        true
    }
}

} // verus!
