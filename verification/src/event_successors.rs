//! The breadth-first search for the events one segment of play can bring about, as a
//! sequence of decisions: boards whose features differ from the start are events, scored
//! and keyed, and the best of them are kept; boards with the start's features are searched
//! on.

use vstd::prelude::*;
use std::collections::{HashSet, VecDeque};
use crate::model::{Action, Grid, PlayState};
use crate::cells::CellClass;
use crate::scan::count_of;
use crate::features::{Features, spec_features};
use crate::actions::turns_view;
use crate::search_tree::SearchTree;
use crate::heuristics::{spec_lookup_dead_state, lookup_dead_state, spec_lookup_stranded_state, lookup_stranded_state,
    spec_lookup_branch_score, spec_useful_gain, spec_fess_branch_score, fess_branch_score};
use crate::constraints::{TrapConstraints, spec_accepts};
use crate::chain::checked_trigger_branch_score;
use crate::event_keys::{event_family_key, spec_event_family_key, is_removed_trigger_list};
use crate::event_kind::{event_kind_key, spec_event_kind_key, lex_sorted, rat_change_texts};
use crate::event_select::{EventScoreMode, is_selection, select_event_successors};
use crate::beam::key_views;
use crate::plain_search::Next;

verus! {

broadcast use vstd::std_specs::hash::group_hash_axioms;

/// The settings of an event search.
#[derive(Clone, Copy, Debug)]
pub struct EventParams {
    pub max_depth: usize,
    pub max_events: usize,
    /// Events leaving fewer rats are dropped.
    pub min_rats: Option<usize>,
    pub constraints: TrapConstraints,
    pub mode: EventScoreMode,
    pub prune_dead: bool,
    pub prune_stranded: bool,
}

/// An event found: the tree node holding its board, the turns to it, its features, its
/// score and its key.
pub struct FoundEvent {
    pub node: usize,
    pub path: Vec<Vec<Action>>,
    pub features: Features,
    pub score: i64,
    pub key: String,
}

/// The key names the event from `start` to `g` as the mode asks: its kind for trigger
/// scores, its family otherwise.
pub open spec fn names_event(mode: EventScoreMode, start: Grid, g: Grid, key: Seq<char>) -> bool {
    match mode {
        EventScoreMode::Trigger => exists|rats: Seq<Seq<char>>| {
            &&& lex_sorted(rats)
            &&& rats.to_multiset() == rat_change_texts(start, g).to_multiset()
            &&& key == spec_event_kind_key(start, g, rats)
        },
        EventScoreMode::Fess => exists|t: Seq<u8>| is_removed_trigger_list(start, g, t) && key == spec_event_family_key(start, g, t),
    }
}

/// The score of an event board reached in `len` turns, as the mode asks.
pub open spec fn event_score(mode: EventScoreMode, start: Grid, g: Grid, len: int) -> int {
    match mode {
        EventScoreMode::Trigger => spec_lookup_branch_score(g, len) - spec_useful_gain(spec_features(start), spec_features(g)),
        EventScoreMode::Fess => spec_fess_branch_score(g, len),
    }
}

/// The scores of the kept events, in the order kept.
pub open spec fn live_scores(found: Seq<FoundEvent>, live: Seq<usize>) -> Seq<i64> {
    live.map_values(|i: usize| found[i as int].score)
}

/// The keys of the kept events, in the order kept.
pub open spec fn live_keys(found: Seq<FoundEvent>, live: Seq<usize>) -> Seq<Seq<char>> {
    live.map_values(|i: usize| found[i as int].key@)
}

/// What became of a board one turn reached.
pub enum SuccessorOffer {
    /// Lost, pruned, or seen before; nothing changed.
    Skipped,
    /// Won: the turns from the start.
    Won(Vec<Vec<Action>>),
    /// Added to the tree only: an event dropped by the rat minimum or the constraints, or met
    /// already.
    Kept(usize),
    /// An event: added to the tree and to the events found, and the kept events chosen anew.
    Event(usize),
    /// An event whose score does not fit a 64-bit integer; added to the tree only.
    Unscored(usize),
    /// Added to the tree and the queue as this node.
    Added(usize),
}

/// The state of an event search.
pub struct SuccessorSearch {
    tree: SearchTree,
    visited: HashSet<u64>,
    queue: VecDeque<usize>,
    event_hashes: HashSet<u64>,
    found: Vec<FoundEvent>,
    live: Vec<usize>,
    start_features: Features,
    params: EventParams,
}

impl SuccessorSearch {
    pub closed spec fn well_formed(&self) -> bool {
        &&& self.tree.well_formed()
        &&& forall|i: int| 0 <= i < self.queue@.len() ==> #[trigger] self.queue@[i] < self.tree.size()
        &&& forall|i: int| 0 <= i < self.live@.len() ==> #[trigger] self.live@[i] < self.found@.len()
        &&& self.start_features == spec_features(self.tree.grid_of(0))
    }

    pub closed spec fn tree(&self) -> SearchTree {
        self.tree
    }

    pub closed spec fn visited(&self) -> Set<u64> {
        self.visited@
    }

    pub closed spec fn queue(&self) -> Seq<usize> {
        self.queue@
    }

    pub closed spec fn event_hashes(&self) -> Set<u64> {
        self.event_hashes@
    }

    pub closed spec fn found(&self) -> Seq<FoundEvent> {
        self.found@
    }

    pub closed spec fn live(&self) -> Seq<usize> {
        self.live@
    }

    pub closed spec fn params(&self) -> EventParams {
        self.params
    }

    /// The start board.
    pub open spec fn start(&self) -> Grid {
        self.tree().grid_of(0)
    }

    /// A search from `start` (hash `start_hash`) holding the start alone in its queue.
    pub fn new(start: Grid, start_hash: u64, params: EventParams) -> (s: Self)
        ensures
            s.well_formed(),
            s.tree().size() == 1,
            s.start() == start,
            s.params() == params,
            s.visited() == Set::<u64>::empty().insert(start_hash),
            s.queue() == seq![0usize],
            s.event_hashes() == Set::<u64>::empty(),
            s.found().len() == 0,
            s.live().len() == 0,
    {
        let start_features = Features::from_grid(&start);
        let tree = SearchTree::new(start);
        let mut visited: HashSet<u64> = HashSet::new();
        visited.insert(start_hash);
        let mut queue: VecDeque<usize> = VecDeque::new();
        queue.push_back(0);
        proof {
            assert(queue@ =~= seq![0usize]);
        }
        SuccessorSearch { tree, visited, queue, event_hashes: HashSet::new(), found: Vec::new(), live: Vec::new(),
            start_features, params }
    }

    /// Number of nodes.
    pub fn size(&self) -> (n: usize)
        ensures
            n == self.tree().size(),
    {
        self.tree.len()
    }

    /// The board at node `i`.
    pub fn grid(&self, i: usize) -> (g: &Grid)
        requires
            i < self.tree().size(),
        ensures
            *g == self.tree().grid_of(i as int),
    {
        self.tree.grid(i)
    }

    /// The depth of node `i`.
    pub fn depth(&self, i: usize) -> (d: u32)
        requires
            i < self.tree().size(),
        ensures
            d == self.tree().depth_of(i as int),
    {
        self.tree.depth(i)
    }

    /// The events found so far.
    pub fn found_events(&self) -> (f: &Vec<FoundEvent>)
        ensures
            f@ == self.found(),
    {
        &self.found
    }

    /// The events kept, as indices into the events found, in the order kept.
    pub fn kept(&self) -> (k: &Vec<usize>)
        ensures
            k@ == self.live(),
    {
        &self.live
    }

    /// Takes the next node of the queue: dropped when as deep as `max_depth`.
    pub fn next(&mut self) -> (n: Next)
        requires
            old(self).well_formed(),
        ensures
            final(self).well_formed(),
            final(self).tree() == old(self).tree(),
            final(self).visited() == old(self).visited(),
            final(self).event_hashes() == old(self).event_hashes(),
            final(self).found() == old(self).found(),
            final(self).live() == old(self).live(),
            final(self).params() == old(self).params(),
            old(self).queue().len() == 0 ==> n == Next::Exhausted && final(self).queue() == old(self).queue(),
            old(self).queue().len() > 0 ==> {
                let idx = old(self).queue()[0];
                &&& final(self).queue() == old(self).queue().drop_first()
                &&& (old(self).tree().depth_of(idx as int) >= old(self).params().max_depth ==> n == Next::Dropped)
                &&& (old(self).tree().depth_of(idx as int) < old(self).params().max_depth ==> n == Next::Expand(idx))
            },
    {
        match self.queue.pop_front() {
            None => Next::Exhausted,
            Some(idx) => {
                proof {
                    assert(old(self).queue@[0] < self.tree.size());
                    assert(self.queue@ =~= old(self).queue@.drop_first());
                }
                if self.tree.depth(idx) as usize >= self.params.max_depth {
                    Next::Dropped
                } else {
                    Next::Expand(idx)
                }
            },
        }
    }

    /// Decides what to do with the board `child` that the turn `action` reached from node
    /// `parent`, in play state `play_state`, with hash `hash`. A lost board, a pruned one
    /// (dead or stranded while in play, when asked), or one seen before is skipped; otherwise
    /// it joins the tree. A won board ends the search. A board with the start's features
    /// joins the queue. Any other is an event: dropped when it leaves fewer rats than asked or
    /// fails the constraints, or when met already; otherwise it is scored, keyed and added
    /// to the events found, and the kept events are chosen anew among the kept ones and it.
    #[verifier::rlimit(60)]
    pub fn offer(&mut self, parent: usize, action: Vec<Action>, child: Grid, play_state: PlayState, hash: u64) -> (o: SuccessorOffer)
        requires
            old(self).well_formed(),
            parent < old(self).tree().size(),
            old(self).tree().depth_of(parent as int) < u32::MAX,
            old(self).tree().size() < usize::MAX,
        ensures
            final(self).well_formed(),
            final(self).params() == old(self).params(),
            final(self).start() == old(self).start(),
            ({
                let p = old(self).params();
                let t0 = old(self).tree();
                let path = t0.path(parent as int).push(action@);
                let fs = spec_features(child);
                let start = old(self).start();
                if play_state == PlayState::GameOver
                    || (p.prune_dead && play_state == PlayState::Playing && spec_lookup_dead_state(child))
                    || (p.prune_stranded && play_state == PlayState::Playing && spec_lookup_stranded_state(child))
                    || old(self).visited().contains(hash) {
                    o is Skipped
                } else if play_state == PlayState::Won {
                    (o matches SuccessorOffer::Won(q) && turns_view(q@) == path)
                } else if fs == spec_features(start) {
                    o == SuccessorOffer::Added(t0.size() as usize) && final(self).queue() == old(self).queue().push(t0.size() as usize)
                } else if (p.min_rats matches Some(m) && fs.rats < m) || !spec_accepts(p.constraints, child, play_state)
                    || old(self).event_hashes().contains(hash) {
                    o == SuccessorOffer::Kept(t0.size() as usize)
                } else {
                    let score = event_score(p.mode, start, child, path.len() as int);
                    if score < i64::MIN || score > i64::MAX {
                        o == SuccessorOffer::Unscored(t0.size() as usize)
                    } else {
                        &&& o == SuccessorOffer::Event(t0.size() as usize)
                        &&& final(self).found().len() == old(self).found().len() + 1
                        &&& final(self).found().take(old(self).found().len() as int) == old(self).found()
                        &&& ({
                            let e = final(self).found()[old(self).found().len() as int];
                            &&& e.node == t0.size()
                            &&& turns_view(e.path@) == path
                            &&& e.features == fs
                            &&& e.score == score
                            &&& names_event(p.mode, start, child, e.key@)
                        })
                        &&& ({
                            let cand = old(self).live().push(old(self).found().len() as usize);
                            exists|picks: Seq<usize>| {
                                &&& is_selection(live_scores(final(self).found(), cand), live_keys(final(self).found(), cand),
                                    p.max_events as nat, p.mode, picks)
                                &&& (forall|k: int| 0 <= k < picks.len() ==> #[trigger] picks[k] < cand.len())
                                &&& final(self).live() == picks.map_values(|k: usize| cand[k as int])
                            }
                        })
                    }
                }
            }),
            o is Skipped ==> {
                &&& final(self).tree() == old(self).tree()
                &&& final(self).visited() == old(self).visited()
                &&& final(self).queue() == old(self).queue()
                &&& final(self).event_hashes() == old(self).event_hashes()
                &&& final(self).found() == old(self).found()
                &&& final(self).live() == old(self).live()
            },
            (o is Kept || o is Event || o is Unscored || o is Added) ==> {
                let t0 = old(self).tree();
                &&& final(self).tree().size() == t0.size() + 1
                &&& final(self).tree().grid_of(t0.size() as int) == child
                &&& final(self).tree().path(t0.size() as int) == t0.path(parent as int).push(action@)
                &&& final(self).visited() == old(self).visited().insert(hash)
            },
            (o is Kept || o is Unscored || o is Added) ==> {
                &&& final(self).found() == old(self).found()
                &&& final(self).live() == old(self).live()
            },
            (o is Kept || o is Event || o is Unscored) ==> final(self).queue() == old(self).queue(),
            o is Event || o is Unscored ==> final(self).event_hashes() == old(self).event_hashes().insert(hash),
            (o is Kept || o is Added) ==> final(self).event_hashes() == old(self).event_hashes(),
    {
        proof {
            self.tree.lemma_shape();
        }
        let p = self.params;
        if play_state == PlayState::GameOver {
            return SuccessorOffer::Skipped;
        }
        if p.prune_dead && play_state == PlayState::Playing && lookup_dead_state(&child) {
            return SuccessorOffer::Skipped;
        }
        if p.prune_stranded && play_state == PlayState::Playing && lookup_stranded_state(&child) {
            return SuccessorOffer::Skipped;
        }
        if !self.visited.insert(hash) {
            return SuccessorOffer::Skipped;
        }
        let features = Features::from_grid(&child);
        let same = features.same(&self.start_features);
        let too_few = match p.min_rats {
            Some(m) => features.rats < m,
            None => false,
        };
        let dropped = !same && (too_few || !p.constraints.accepts(&child, play_state));
        let is_event = !same && !dropped && play_state != PlayState::Won;
        let new_event = is_event && self.event_hashes.insert(hash);
        let ghost start = self.tree.grid_of(0);
        let key: Option<String> = if new_event {
            match p.mode {
                EventScoreMode::Trigger => Some(event_kind_key(self.tree.grid(0), &child)),
                EventScoreMode::Fess => Some(event_family_key(self.tree.grid(0), &child)),
            }
        } else {
            None
        };
        let ghost old_tree = self.tree;
        let i = self.tree.push_child(parent, action, child);
        proof {
            SearchTree::lemma_path_stable(&old_tree, &self.tree, parent as int);
        }
        if play_state == PlayState::Won {
            return SuccessorOffer::Won(self.tree.reconstruct(i));
        }
        if same {
            self.queue.push_back(i);
            return SuccessorOffer::Added(i);
        }
        if !new_event {
            return SuccessorOffer::Kept(i);
        }
        let path = self.tree.reconstruct(i);
        let score = match p.mode {
            EventScoreMode::Trigger => checked_trigger_branch_score(self.tree.grid(i), path.len(), self.start_features, features),
            EventScoreMode::Fess => Some(fess_branch_score(self.tree.grid(i), path.len())),
        };
        let score = match score {
            Some(s) => s,
            None => return SuccessorOffer::Unscored(i),
        };
        let key = match key {
            Some(k) => k,
            None => String::new(),
        };
        let fl = self.found.len();
        self.found.push(FoundEvent { node: i, path, features, score, key });
        self.live.push(fl);
        let ghost cand = self.live@;
        let ghost found1 = self.found@;
        proof {
            assert(cand == old(self).live@.push(fl));
        }
        self.reselect();
        proof {
            let picks = choose|picks: Seq<usize>| {
                &&& is_selection(live_scores(found1, cand), live_keys(found1, cand),
                    self.params.max_events as nat, self.params.mode, picks)
                &&& (forall|k: int| 0 <= k < picks.len() ==> #[trigger] picks[k] < cand.len())
                &&& self.live@ == picks.map_values(|k: usize| cand[k as int])
            };
            assert(self.found@ == found1);
            assert(is_selection(live_scores(self.found@, cand), live_keys(self.found@, cand),
                self.params.max_events as nat, self.params.mode, picks));
            assert(cand == old(self).live().push(old(self).found().len() as usize));
        }
        SuccessorOffer::Event(i)
    }

    /// Chooses the kept events anew among the kept ones.
    fn reselect(&mut self)
        requires
            forall|i: int| 0 <= i < old(self).live@.len() ==> #[trigger] old(self).live@[i] < old(self).found@.len(),
        ensures
            forall|i: int| 0 <= i < final(self).live@.len() ==> #[trigger] final(self).live@[i] < final(self).found@.len(),
            final(self).found@ == old(self).found@,
            final(self).tree == old(self).tree,
            final(self).visited@ == old(self).visited@,
            final(self).queue@ == old(self).queue@,
            final(self).event_hashes@ == old(self).event_hashes@,
            final(self).start_features == old(self).start_features,
            final(self).params == old(self).params,
            exists|picks: Seq<usize>| {
                &&& is_selection(live_scores(old(self).found@, old(self).live@), live_keys(old(self).found@, old(self).live@),
                    old(self).params.max_events as nat, old(self).params.mode, picks)
                &&& (forall|k: int| 0 <= k < picks.len() ==> #[trigger] picks[k] < old(self).live@.len())
                &&& final(self).live@ == picks.map_values(|k: usize| old(self).live@[k as int])
            },
    {
        let mut scores: Vec<i64> = Vec::new();
        let mut keys: Vec<String> = Vec::new();
        let mut k: usize = 0;
        while k < self.live.len()
            invariant
                k <= self.live@.len(),
                forall|i: int| 0 <= i < self.live@.len() ==> #[trigger] self.live@[i] < self.found@.len(),
                scores@ == live_scores(self.found@, self.live@).take(k as int),
                keys@.len() == k,
                key_views(keys@) == live_keys(self.found@, self.live@).take(k as int),
            decreases self.live@.len() - k,
        {
            let e = &self.found[self.live[k]];
            scores.push(e.score);
            let kc = e.key.clone();
            proof {
                assert(kc@ == self.found@[self.live@[k as int] as int].key@);
            }
            let ghost old_keys = keys@;
            keys.push(kc);
            k = k + 1;
            proof {
                assert(scores@ =~= live_scores(self.found@, self.live@).take(k as int));
                let lk = live_keys(self.found@, self.live@).take(k as int);
                assert forall|q: int| 0 <= q < k implies #[trigger] key_views(keys@)[q] == lk[q] by {
                    if q < k - 1 {
                        assert(keys@[q] == old_keys[q]);
                        assert(key_views(old_keys)[q] == live_keys(self.found@, self.live@).take(k - 1)[q]);
                    }
                }
                assert(key_views(keys@) =~= lk);
            }
        }
        proof {
            assert(live_scores(self.found@, self.live@).take(k as int) =~= live_scores(self.found@, self.live@));
            assert(live_keys(self.found@, self.live@).take(k as int) =~= live_keys(self.found@, self.live@));
        }
        let picks = select_event_successors(&scores, &keys, self.params.max_events, self.params.mode);
        let mut next: Vec<usize> = Vec::new();
        let mut j: usize = 0;
        while j < picks.len()
            invariant
                j <= picks@.len(),
                forall|q: int| 0 <= q < picks@.len() ==> #[trigger] picks@[q] < self.live@.len(),
                forall|i: int| 0 <= i < self.live@.len() ==> #[trigger] self.live@[i] < self.found@.len(),
                next@ == picks@.take(j as int).map_values(|q: usize| self.live@[q as int]),
            decreases picks@.len() - j,
        {
            next.push(self.live[picks[j]]);
            j = j + 1;
            proof {
                assert(next@ =~= picks@.take(j as int).map_values(|q: usize| self.live@[q as int]));
            }
        }
        proof {
            assert(picks@.take(j as int) =~= picks@);
            assert forall|i: int| 0 <= i < next@.len() implies #[trigger] next@[i] < self.found@.len() by {
                assert(next@[i] == self.live@[picks@[i] as int]);
            }
        }
        self.live = next;
    }
}

} // verus!
