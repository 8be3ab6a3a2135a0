//! The single-player searches of the no-retreat helper: emptying the left pocket (the rats
//! in columns 0 to 2 from row 10 down), opening a blocked cell, and a best-first win search
//! scored by rats, pocket rats, explosives, webs and the nearest rat.

use vstd::prelude::*;
use vstd::multiset::Multiset;
use std::collections::{HashMap, VecDeque};
use crate::model::{Action, CellKind, Grid, PlayState, MAX_SIDE};
use crate::cells::{CellClass, class_has};
use crate::scan::{board_points, count_of, positions_of, positions_matching_usize, count_matching, lemma_positions_of,
    lemma_board_points_bound};
use crate::nearest::{build_mask, count_mask};
use crate::features::find_player;
use crate::minimum::{min_or, seq_min, ints, min_of};
use crate::actions::turns_view;
use crate::search_tree::{SearchTree, breadth_first_queue, lemma_pop_level, lemma_push_level};
use crate::open_list::{Entry, OpenList, leaves_before};
use crate::plain_search::Next;

verus! {

broadcast use vstd::std_specs::hash::group_hash_axioms;

/// Rats in the left pocket: columns 0 to 2, rows 10 and below.
pub open spec fn pocket_pred(g: Grid) -> spec_fn(int, int) -> bool {
    |x: int, y: int| class_has(CellClass::RatOrCyborg, g.kind_at(x, y), y) && x <= 2 && y >= 10
}

/// Number of rats in the left pocket.
pub open spec fn spec_left_pocket_rats(g: Grid) -> nat {
    board_points(g, pocket_pred(g)).len()
}

/// Number of rats in the left pocket.
pub fn left_pocket_rats(grid: &Grid) -> (n: usize)
    ensures
        n == spec_left_pocket_rats(*grid),
        n <= MAX_SIDE * MAX_SIDE,
{
    let f = |x: usize, y: usize| -> (b: bool)
        requires
            grid.in_bounds(x as int, y as int),
        ensures
            b == pocket_pred(*grid)(x as int, y as int),
        {
            CellClass::RatOrCyborg.has(grid.cell_kind_at(x, y), y) && x <= 2 && y >= 10
        };
    let m = build_mask(grid, f, Ghost(pocket_pred(*grid)));
    count_mask(grid, &m, Ghost(pocket_pred(*grid)))
}

/// Distances from `p` to each of `ps`.
pub open spec fn distances_from(p: (int, int), ps: Seq<(int, int)>) -> Seq<int> {
    ps.map_values(|q: (int, int)| (if p.0 >= q.0 { p.0 - q.0 } else { q.0 - p.0 }) + (if p.1 >= q.1 { p.1 - q.1 } else { q.1 - p.1 }))
}

/// Steps from the first player to the nearest rat: 10000 without a player, 0 without rats.
pub open spec fn spec_nearest_player_rat_dist(g: Grid) -> int {
    let players = positions_of(g, CellClass::Exactly(CellKind::Player));
    if players.len() == 0 {
        10_000
    } else {
        min_or(distances_from(players[0], positions_of(g, CellClass::RatOrCyborg)), 0)
    }
}

/// Steps from the first player to the nearest rat: 10000 without a player, 0 without rats.
pub fn nearest_player_rat_dist(grid: &Grid) -> (d: i64)
    ensures
        d == spec_nearest_player_rat_dist(*grid),
        0 <= d <= 10_000,
{
    let p = match find_player(grid) {
        None => return 10_000,
        Some(p) => p,
    };
    proof {
        lemma_positions_of(*grid, CellClass::Exactly(CellKind::Player));
        lemma_positions_of(*grid, CellClass::RatOrCyborg);
    }
    let rats = positions_matching_usize(grid, CellClass::RatOrCyborg);
    grid.note_size_limit();
    let ghost pp = (p.0 as int, p.1 as int);
    let mut ds: Vec<i64> = Vec::new();
    let mut i: usize = 0;
    while i < rats.len()
        invariant
            i <= rats@.len(),
            rats@.len() == positions_of(*grid, CellClass::RatOrCyborg).len(),
            forall|j: int| 0 <= j < rats@.len() ==>
                (#[trigger] rats@[j].0 as int, rats@[j].1 as int) == positions_of(*grid, CellClass::RatOrCyborg)[j],
            forall|j: int| 0 <= j < positions_of(*grid, CellClass::RatOrCyborg).len() ==> {
                let q = #[trigger] positions_of(*grid, CellClass::RatOrCyborg)[j];
                grid.in_bounds(q.0, q.1)
            },
            pp == (p.0 as int, p.1 as int),
            grid.in_bounds(pp.0, pp.1),
            grid.w() <= MAX_SIDE,
            grid.h() <= MAX_SIDE,
            ds@.len() == i,
            forall|j: int| 0 <= j < i ==> #[trigger] ds@[j] as int
                == distances_from(pp, positions_of(*grid, CellClass::RatOrCyborg))[j],
            forall|j: int| 0 <= j < i ==> 0 <= #[trigger] ds@[j] <= 2 * MAX_SIDE,
        decreases rats@.len() - i,
    {
        let (x, y) = rats[i];
        proof {
            assert((rats@[i as int].0 as int, rats@[i as int].1 as int) == positions_of(*grid, CellClass::RatOrCyborg)[i as int]);
        }
        let px = p.0 as usize;
        let py = p.1 as usize;
        let dx: usize = if px >= x { px - x } else { x - px };
        let dy: usize = if py >= y { py - y } else { y - py };
        ds.push((dx + dy) as i64);
        i = i + 1;
    }
    proof {
        assert(ints(ds@) =~= distances_from(pp, positions_of(*grid, CellClass::RatOrCyborg)));
        if ds@.len() > 0 {
            crate::minimum::lemma_seq_min(ints(ds@));
            let k = choose|k: int| 0 <= k < ints(ds@).len() && ints(ds@)[k] == seq_min(ints(ds@));
            assert(ints(ds@)[k] == ds@[k] as int);
        }
    }
    min_of(ds.as_slice(), 0)
}

/// The score of the helper's win search: a million per rat, five million more per pocket
/// rat, 500 per explosive, 100 per web, plus the steps to the nearest rat.
pub open spec fn spec_pocket_score(g: Grid) -> int {
    count_of(g, CellClass::RatOrCyborg) * 1_000_000 + spec_left_pocket_rats(g) * 5_000_000
        + count_of(g, CellClass::Exactly(CellKind::Explosive)) * 500
        + count_of(g, CellClass::Exactly(CellKind::Spiderweb)) * 100 + spec_nearest_player_rat_dist(g)
}

/// The score of the helper's win search.
pub fn score(grid: &Grid) -> (s: i64)
    ensures
        s == spec_pocket_score(*grid),
        0 <= s <= 10_000_000_000_000,
{
    grid.note_size_limit();
    let rats = count_matching(grid, CellClass::RatOrCyborg);
    let pocket = left_pocket_rats(grid);
    let explosives = count_matching(grid, CellClass::Exactly(CellKind::Explosive));
    let webs = count_matching(grid, CellClass::Exactly(CellKind::Spiderweb));
    proof {
        lemma_board_points_bound(*grid, crate::scan::class_pred(*grid, CellClass::RatOrCyborg));
        lemma_board_points_bound(*grid, crate::scan::class_pred(*grid, CellClass::Exactly(CellKind::Explosive)));
        lemma_board_points_bound(*grid, crate::scan::class_pred(*grid, CellClass::Exactly(CellKind::Spiderweb)));
    }
    let near = nearest_player_rat_dist(grid);
    rats as i64 * 1_000_000 + pocket as i64 * 5_000_000 + explosives as i64 * 500 + webs as i64 * 100 + near
}

/// What a pocket search looks for: fewer pocket rats than the start board held, or the cell
/// at a point no longer holding a kind.
#[derive(Clone, Copy, Debug, PartialEq, Eq, Structural)]
pub enum PocketGoal {
    FewerPocketRats(usize),
    CellNot(usize, usize, CellKind),
}

/// The board meets the goal.
pub open spec fn goal_met(goal: PocketGoal, g: Grid) -> bool {
    match goal {
        PocketGoal::FewerPocketRats(n) => spec_left_pocket_rats(g) < n,
        PocketGoal::CellNot(x, y, k) => g.kind_at(x as int, y as int) != k,
    }
}

/// What became of a board one move reached.
pub enum PocketOffer {
    /// Lost, or seen at no greater depth; nothing changed.
    Skipped,
    /// Added to the tree (and, while searching on, to the frontier) as this node.
    Added(usize),
    /// Won or meeting the goal: the moves from the start.
    Reached(Vec<Vec<Action>>),
}

/// The breadth-first pocket search, as decisions: which node to expand next, and what to do
/// with each board one move reaches.
pub struct PocketBfs {
    tree: SearchTree,
    seen: HashMap<u64, u32>,
    queue: VecDeque<usize>,
    goal: PocketGoal,
    max_depth: usize,
    level: u32,
}

impl PocketBfs {
    /// The queue lies in the tree and holds its nodes in breadth-first order.
    pub closed spec fn well_formed(&self) -> bool {
        &&& self.tree.well_formed()
        &&& forall|i: int| 0 <= i < self.queue@.len() ==> #[trigger] self.queue@[i] < self.tree.size()
        &&& breadth_first_queue(self.tree, self.queue@, self.level as int)
    }

    /// The depth of the node last taken from the queue (0 before any).
    pub closed spec fn level(&self) -> int {
        self.level as int
    }

    pub closed spec fn tree(&self) -> SearchTree {
        self.tree
    }

    pub closed spec fn seen(&self) -> Map<u64, u32> {
        self.seen@
    }

    pub closed spec fn queue(&self) -> Seq<usize> {
        self.queue@
    }

    pub closed spec fn goal(&self) -> PocketGoal {
        self.goal
    }

    pub closed spec fn max_depth(&self) -> usize {
        self.max_depth
    }

    /// A search from `root` (hash `root_hash`) for `goal`.
    pub fn new(root: Grid, root_hash: u64, goal: PocketGoal, max_depth: usize) -> (s: Self)
        ensures
            s.well_formed(),
            s.tree().size() == 1,
            s.tree().grid_of(0) == root,
            s.seen() == Map::<u64, u32>::empty().insert(root_hash, 0),
            s.queue() == seq![0usize],
            s.goal() == goal,
            s.max_depth() == max_depth,
            s.level() == 0,
    {
        let tree = SearchTree::new(root);
        let mut seen: HashMap<u64, u32> = HashMap::new();
        seen.insert(root_hash, 0);
        let mut queue: VecDeque<usize> = VecDeque::new();
        queue.push_back(0);
        proof {
            assert(queue@ =~= seq![0usize]);
        }
        proof {
            tree.lemma_shape();
        }
        PocketBfs { tree, seen, queue, goal, max_depth, level: 0 }
    }

    /// The board at node `i`.
    pub fn grid(&self, i: usize) -> (g: &Grid)
        requires
            i < self.tree().size(),
        ensures
            *g == self.tree().grid_of(i as int),
    {
        self.tree.grid(i)
    }

    /// Number of nodes.
    pub fn size(&self) -> (n: usize)
        ensures
            n == self.tree().size(),
    {
        self.tree.len()
    }

    /// The depth of node `i`.
    pub fn depth(&self, i: usize) -> (d: u32)
        requires
            i < self.tree().size(),
        ensures
            d == self.tree().depth_of(i as int),
    {
        self.tree.depth(i)
    }

    /// Takes the next node of the queue: dropped when as deep as `max_depth`.
    pub fn next(&mut self) -> (n: Next)
        requires
            old(self).well_formed(),
        ensures
            final(self).well_formed(),
            final(self).tree() == old(self).tree(),
            final(self).seen() == old(self).seen(),
            final(self).goal() == old(self).goal(),
            final(self).max_depth() == old(self).max_depth(),
            old(self).queue().len() == 0 ==> n == Next::Exhausted && final(self).queue() == old(self).queue(),
            old(self).queue().len() > 0 ==> {
                let idx = old(self).queue()[0];
                &&& final(self).queue() == old(self).queue().drop_first()
                &&& final(self).level() == old(self).tree().depth_of(idx as int)
                &&& forall|k: int| 0 <= k < final(self).queue().len() ==>
                    old(self).tree().depth_of(idx as int) <= old(self).tree().depth_of(#[trigger] final(self).queue()[k] as int)
                &&& (old(self).tree().depth_of(idx as int) >= old(self).max_depth() ==> n == Next::Dropped)
                &&& (old(self).tree().depth_of(idx as int) < old(self).max_depth() ==> n == Next::Expand(idx))
            },
    {
        match self.queue.pop_front() {
            None => Next::Exhausted,
            Some(idx) => {
                proof {
                    assert(old(self).queue@[0] < self.tree.size());
                    assert(self.queue@ =~= old(self).queue@.drop_first());
                }
                self.level = self.tree.depth(idx);
                proof {
                    lemma_pop_level(self.tree, old(self).queue@, old(self).level as int);
                }
                if self.tree.depth(idx) as usize >= self.max_depth {
                    Next::Dropped
                } else {
                    Next::Expand(idx)
                }
            },
        }
    }

    /// Decides what to do with the board `child` that `action` reached from node `parent`:
    /// skipped when lost or seen at no greater depth; otherwise added to the tree, and then
    /// either the search ends (won or goal met) or the board joins the queue.
    pub fn offer(&mut self, parent: usize, action: Action, child: Grid, play_state: PlayState, hash: u64) -> (o: PocketOffer)
        requires
            old(self).well_formed(),
            parent < old(self).tree().size(),
            old(self).tree().depth_of(parent as int) < u32::MAX,
            old(self).tree().size() < usize::MAX,
            old(self).tree().depth_of(parent as int) == old(self).level(),
        ensures
            final(self).well_formed(),
            final(self).level() == old(self).level(),
            o matches PocketOffer::Reached(path) ==> path@.len() == old(self).level() + 1
                && forall|k: int| 0 <= k < old(self).queue().len() ==>
                    path@.len() <= old(self).tree().depth_of(#[trigger] old(self).queue()[k] as int) + 1,
            final(self).goal() == old(self).goal(),
            final(self).max_depth() == old(self).max_depth(),
            ({
                let nd = old(self).tree().depth_of(parent as int) + 1;
                if play_state == PlayState::GameOver
                    || (old(self).seen().contains_key(hash) && old(self).seen()[hash] <= nd) {
                    o is Skipped && final(self).tree() == old(self).tree() && final(self).seen() == old(self).seen()
                        && final(self).queue() == old(self).queue()
                } else if play_state == PlayState::Won || goal_met(old(self).goal(), child) {
                    o matches PocketOffer::Reached(path)
                        && turns_view(path@) == old(self).tree().path(parent as int).push(seq![action])
                } else {
                    &&& o matches PocketOffer::Added(i) && i == old(self).tree().size()
                    &&& final(self).tree().size() == old(self).tree().size() + 1
                    &&& final(self).tree().grid_of(old(self).tree().size() as int) == child
                    &&& final(self).tree().path(old(self).tree().size() as int) == old(self).tree().path(parent as int).push(seq![action])
                    &&& final(self).seen() == old(self).seen().insert(hash, nd as u32)
                    &&& final(self).queue() == old(self).queue().push(old(self).tree().size() as usize)
                }
            }),
    {
        proof {
            self.tree.lemma_shape();
        }
        if play_state == PlayState::GameOver {
            return PocketOffer::Skipped;
        }
        let nd = self.tree.depth(parent) + 1;
        match self.seen.get(&hash) {
            Some(prev) => {
                if *prev <= nd {
                    return PocketOffer::Skipped;
                }
            },
            None => {},
        }
        let reached = play_state == PlayState::Won || self.goal_holds(&child);
        let mut acts: Vec<Action> = Vec::new();
        acts.push(action);
        proof {
            assert(acts@ =~= seq![action]);
        }
        let ghost old_tree = self.tree;
        let ghost old_queue = self.queue@;
        let i = self.tree.push_child(parent, acts, child);
        proof {
            SearchTree::lemma_path_stable(&old_tree, &self.tree, parent as int);
            lemma_push_level(old_tree, self.tree, old_queue, self.level as int, i);
        }
        if reached {
            return PocketOffer::Reached(self.tree.reconstruct(i));
        }
        self.seen.insert(hash, nd);
        self.queue.push_back(i);
        PocketOffer::Added(i)
    }

    /// The depth of the node last taken from the queue.
    pub fn current_level(&self) -> (l: u32)
        ensures
            l == self.level(),
    {
        self.level
    }

    /// The queue holds its nodes in order of depth, none above the depth of the node last
    /// taken and none more than one below it: nodes are taken in order of depth, and a board
    /// that is won or meets the goal is returned from the shallowest depth the queue still
    /// holds.
    pub proof fn law_breadth_first_order(&self)
        requires
            self.well_formed(),
        ensures
            breadth_first_queue(self.tree(), self.queue(), self.level()),
    {
    }

    /// Whether `g` meets the search's goal.
    fn goal_holds(&self, g: &Grid) -> (b: bool)
        ensures
            b == goal_met(self.goal(), *g),
    {
        match self.goal {
            PocketGoal::FewerPocketRats(n) => left_pocket_rats(g) < n,
            PocketGoal::CellNot(x, y, k) => g.cell_kind_at(x, y) != k,
        }
    }
}

/// The helper's best-first win search, as decisions: which node to expand next, and what
/// to do with each board one move reaches. Boards are taken lowest score plus depth first.
pub struct PocketSearch {
    tree: SearchTree,
    visited: HashMap<u64, u32>,
    open: OpenList,
    max_depth: usize,
    best_score: i64,
    best_idx: usize,
}

impl PocketSearch {
    pub closed spec fn well_formed(&self) -> bool {
        &&& self.tree.well_formed()
        &&& self.best_idx < self.tree.size()
        &&& forall|e: Entry| self.open@.count(e) > 0 ==> e.idx < self.tree.size()
    }

    pub closed spec fn tree(&self) -> SearchTree {
        self.tree
    }

    pub closed spec fn visited(&self) -> Map<u64, u32> {
        self.visited@
    }

    pub closed spec fn open(&self) -> Multiset<Entry> {
        self.open@
    }

    pub closed spec fn max_depth(&self) -> usize {
        self.max_depth
    }

    pub closed spec fn best_score(&self) -> i64 {
        self.best_score
    }

    pub closed spec fn best_idx(&self) -> usize {
        self.best_idx
    }

    /// A search from `root` (hash `root_hash`), its frontier holding the root at the root's
    /// score.
    pub fn new(root: Grid, root_hash: u64, max_depth: usize) -> (s: Self)
        ensures
            s.well_formed(),
            s.tree().size() == 1,
            s.tree().grid_of(0) == root,
            s.visited() == Map::<u64, u32>::empty().insert(root_hash, 0),
            s.best_idx() == 0,
            s.best_score() == spec_pocket_score(root),
            s.open() == Multiset::<Entry>::empty().insert(Entry { f: spec_pocket_score(root) as i64, g: 0, idx: 0 }),
            s.max_depth() == max_depth,
    {
        let s0 = score(&root);
        let tree = SearchTree::new(root);
        let mut visited: HashMap<u64, u32> = HashMap::new();
        visited.insert(root_hash, 0);
        let mut open = OpenList::new();
        open.push(Entry { f: s0, g: 0, idx: 0 });
        PocketSearch { tree, visited, open, max_depth, best_score: s0, best_idx: 0 }
    }

    /// The board at node `i`.
    pub fn grid(&self, i: usize) -> (g: &Grid)
        requires
            i < self.tree().size(),
        ensures
            *g == self.tree().grid_of(i as int),
    {
        self.tree.grid(i)
    }

    /// Number of nodes.
    pub fn size(&self) -> (n: usize)
        ensures
            n == self.tree().size(),
    {
        self.tree.len()
    }

    /// The depth of node `i`.
    pub fn depth(&self, i: usize) -> (d: u32)
        requires
            i < self.tree().size(),
        ensures
            d == self.tree().depth_of(i as int),
    {
        self.tree.depth(i)
    }

    /// The moves to the best scored node so far.
    pub fn best_path(&self) -> (p: Vec<Vec<Action>>)
        requires
            self.well_formed(),
        ensures
            turns_view(p@) == self.tree().path(self.best_idx() as int),
    {
        self.tree.reconstruct(self.best_idx)
    }

    /// Takes the frontier's first entry; it is dropped when out of date (its depth is not the
    /// node's) or as deep as `max_depth`.
    pub fn next(&mut self) -> (n: Next)
        requires
            old(self).well_formed(),
        ensures
            final(self).well_formed(),
            final(self).tree() == old(self).tree(),
            final(self).visited() == old(self).visited(),
            final(self).max_depth() == old(self).max_depth(),
            final(self).best_score() == old(self).best_score(),
            final(self).best_idx() == old(self).best_idx(),
            old(self).open().len() == 0 ==> n == Next::Exhausted && final(self).open() == old(self).open(),
            old(self).open().len() > 0 ==> exists|e: Entry| {
                &&& #[trigger] old(self).open().count(e) > 0
                &&& (forall|x: Entry| old(self).open().count(x) > 0 ==> leaves_before(e, x))
                &&& final(self).open() == old(self).open().remove(e)
                &&& ((e.g != old(self).tree().depth_of(e.idx as int)
                    || old(self).tree().depth_of(e.idx as int) >= old(self).max_depth()) ==> n == Next::Dropped)
                &&& (!(e.g != old(self).tree().depth_of(e.idx as int)
                    || old(self).tree().depth_of(e.idx as int) >= old(self).max_depth()) ==> n == Next::Expand(e.idx))
            },
    {
        match self.open.pop() {
            None => Next::Exhausted,
            Some(e) => {
                let d = self.tree.depth(e.idx);
                if e.g != d as i64 || d as usize >= self.max_depth {
                    Next::Dropped
                } else {
                    Next::Expand(e.idx)
                }
            },
        }
    }

    /// Decides what to do with the board `child` that `action` reached from node `parent`:
    /// skipped when lost or seen at no greater depth; otherwise noted at its depth and added
    /// to the tree; a won board ends the search; any other joins the frontier at its score
    /// plus depth, and becomes the best when it scores lower than the best so far.
    pub fn offer(&mut self, parent: usize, action: Action, child: Grid, play_state: PlayState, hash: u64) -> (o: PocketOffer)
        requires
            old(self).well_formed(),
            parent < old(self).tree().size(),
            old(self).tree().depth_of(parent as int) < u32::MAX,
            old(self).tree().size() < usize::MAX,
        ensures
            final(self).well_formed(),
            final(self).max_depth() == old(self).max_depth(),
            ({
                let nd = old(self).tree().depth_of(parent as int) + 1;
                let s = spec_pocket_score(child);
                if play_state == PlayState::GameOver
                    || (old(self).visited().contains_key(hash) && old(self).visited()[hash] <= nd) {
                    o is Skipped && final(self).tree() == old(self).tree() && final(self).visited() == old(self).visited()
                        && final(self).open() == old(self).open()
                } else if play_state == PlayState::Won {
                    o matches PocketOffer::Reached(path)
                        && turns_view(path@) == old(self).tree().path(parent as int).push(seq![action])
                } else {
                    &&& o matches PocketOffer::Added(i) && i == old(self).tree().size()
                    &&& final(self).tree().size() == old(self).tree().size() + 1
                    &&& final(self).tree().grid_of(old(self).tree().size() as int) == child
                    &&& final(self).tree().path(old(self).tree().size() as int) == old(self).tree().path(parent as int).push(seq![action])
                    &&& final(self).visited() == old(self).visited().insert(hash, nd as u32)
                    &&& final(self).open() == old(self).open().insert(Entry { f: (s + nd) as i64, g: nd as i64, idx: old(self).tree().size() as usize })
                    &&& (s < old(self).best_score() ==> final(self).best_score() == s && final(self).best_idx() == old(self).tree().size())
                    &&& (s >= old(self).best_score() ==> final(self).best_score() == old(self).best_score()
                        && final(self).best_idx() == old(self).best_idx())
                }
            }),
    {
        proof {
            self.tree.lemma_shape();
        }
        if play_state == PlayState::GameOver {
            return PocketOffer::Skipped;
        }
        let nd = self.tree.depth(parent) + 1;
        match self.visited.get(&hash) {
            Some(prev) => {
                if *prev <= nd {
                    return PocketOffer::Skipped;
                }
            },
            None => {},
        }
        self.visited.insert(hash, nd);
        let s = score(&child);
        let mut acts: Vec<Action> = Vec::new();
        acts.push(action);
        proof {
            assert(acts@ =~= seq![action]);
        }
        let ghost old_tree = self.tree;
        let i = self.tree.push_child(parent, acts, child);
        proof {
            SearchTree::lemma_path_stable(&old_tree, &self.tree, parent as int);
        }
        if play_state == PlayState::Won {
            return PocketOffer::Reached(self.tree.reconstruct(i));
        }
        if s < self.best_score {
            self.best_score = s;
            self.best_idx = i;
        }
        self.open.push(Entry { f: s + nd as i64, g: nd as i64, idx: i });
        PocketOffer::Added(i)
    }
}

} // verus!
