//! The segment search that walks the players to waypoints, best first by depth plus the
//! distance still to walk, as a sequence of decisions.

use vstd::prelude::*;
use vstd::multiset::Multiset;
use std::collections::HashMap;
use crate::model::{Action, CellKind, Grid, PlayState, MAX_SIDE};
use crate::cells::CellClass;
use crate::scan::{positions_of, lemma_board_points_bound, class_pred};
use crate::features::{find_player, player_positions};
use crate::geometry::{spec_manhattan, manhattan, spec_target_sum, min_nat, target_sum_distance, reached_player_targets};
use crate::actions::turns_view;
use crate::search_tree::SearchTree;
use crate::open_list::{Entry, OpenList, leaves_before};
use crate::plain_search::Next;

verus! {

broadcast use vstd::std_specs::hash::group_hash_axioms;

/// Where the players are to go: the first player to one point, or each player to its own
/// point where one is given.
pub enum Waypoint {
    Single((i32, i32)),
    Multi(Vec<Option<(i32, i32)>>),
}

/// The players' positions, in row-major order, as signed pairs.
pub open spec fn players_of(g: Grid) -> Seq<(i32, i32)> {
    positions_of(g, CellClass::Exactly(CellKind::Player)).map_values(|p: (int, int)| (p.0 as i32, p.1 as i32))
}

/// The board can be measured: for one point, some player stands on it.
pub open spec fn measurable(w: Waypoint, g: Grid) -> bool {
    match w {
        Waypoint::Single(_) => players_of(g).len() > 0,
        Waypoint::Multi(_) => true,
    }
}

/// The players stand where they are to go.
pub open spec fn arrived(w: Waypoint, g: Grid) -> bool {
    match w {
        Waypoint::Single(t) => players_of(g)[0] == t,
        Waypoint::Multi(ts) => players_of(g).len() >= ts@.len()
            && forall|i: int| 0 <= i < ts@.len() ==> (#[trigger] ts@[i] matches Some(t) ==> players_of(g)[i] == t),
    }
}

/// The distance the players still have to walk.
pub open spec fn distance_left(w: Waypoint, g: Grid) -> int {
    match w {
        Waypoint::Single(t) => spec_manhattan(players_of(g)[0], t),
        Waypoint::Multi(ts) => spec_target_sum(players_of(g), ts@, min_nat(players_of(g).len(), ts@.len())),
    }
}

/// The walked distance of `n` players is at most `n` times the longest step apart.
proof fn lemma_target_sum_bound(players: Seq<(i32, i32)>, targets: Seq<Option<(i32, i32)>>, n: nat)
    ensures
        0 <= spec_target_sum(players, targets, n) <= n * 0x2_0000_0000,
    decreases n,
{
    if n > 0 {
        lemma_target_sum_bound(players, targets, (n - 1) as nat);
        let i = n - 1;
        match targets[i] {
            Some(t) => {
                assert(spec_manhattan(players[i], t) <= 0x2_0000_0000);
            },
            None => {},
        }
    }
}

/// The players' positions as signed pairs.
pub(crate) fn player_points(grid: &Grid) -> (ps: Vec<(i32, i32)>)
    ensures
        ps@ == players_of(*grid),
        ps@.len() <= MAX_SIDE * MAX_SIDE,
{
    let ps = player_positions(grid);
    grid.note_size_limit();
    proof {
        lemma_board_points_bound(*grid, class_pred(*grid, CellClass::Exactly(CellKind::Player)));
        crate::scan::lemma_positions_of(*grid, CellClass::Exactly(CellKind::Player));
        assert forall|i: int| 0 <= i < ps@.len() implies #[trigger] ps@[i] == players_of(*grid)[i] by {
            let q = positions_of(*grid, CellClass::Exactly(CellKind::Player))[i];
            assert((ps@[i].0 as int, ps@[i].1 as int) == q);
        }
        assert(ps@ =~= players_of(*grid));
    }
    ps
}

/// The distance left, or `None` where the board cannot be measured.
fn measure(w: &Waypoint, g: &Grid) -> (r: Option<i64>)
    ensures
        r is Some <==> measurable(*w, *g),
        r matches Some(d) ==> d == distance_left(*w, *g) && 0 <= d <= 0x40_0000_0000_0000,
{
    let ps = player_points(g);
    match w {
        Waypoint::Single(t) => {
            if ps.len() == 0 {
                None
            } else {
                Some(manhattan(ps[0], *t))
            }
        },
        Waypoint::Multi(ts) => {
            proof {
                let n = min_nat(ps@.len(), ts@.len());
                lemma_target_sum_bound(ps@, ts@, n);
                assert(n * 0x2_0000_0000 <= 1024 * 1024 * 0x2_0000_0000) by (nonlinear_arith)
                    requires n <= 1024 * 1024;
            }
            Some(target_sum_distance(ps.as_slice(), ts.as_slice()))
        },
    }
}

/// Whether the players stand where they are to go.
fn has_arrived(w: &Waypoint, g: &Grid) -> (b: bool)
    requires
        measurable(*w, *g),
    ensures
        b == arrived(*w, *g),
{
    let ps = player_points(g);
    match w {
        Waypoint::Single(t) => ps[0].0 == t.0 && ps[0].1 == t.1,
        Waypoint::Multi(ts) => reached_player_targets(ps.as_slice(), ts.as_slice()),
    }
}

/// What became of a board one turn reached.
pub enum SegmentOffer {
    /// Lost, without a player to measure, or seen at no smaller depth; nothing changed.
    Skipped,
    /// Won: the turns from the start.
    Won(Vec<Vec<Action>>),
    /// The players arrived: the turns from the start.
    Arrived(Vec<Vec<Action>>),
    /// Added to the tree and the frontier as this node.
    Added(usize),
}

/// The state of a segment search.
pub struct SegmentSearch {
    tree: SearchTree,
    visited: HashMap<u64, u32>,
    open: OpenList,
    waypoint: Waypoint,
}

impl SegmentSearch {
    pub closed spec fn well_formed(&self) -> bool {
        &&& self.tree.well_formed()
        &&& forall|e: Entry| self.open@.count(e) > 0 ==> e.idx < self.tree.size()
    }

    pub closed spec fn tree(&self) -> SearchTree {
        self.tree
    }

    pub closed spec fn visited(&self) -> Map<u64, u32> {
        self.visited@
    }

    pub closed spec fn open(&self) -> Multiset<Entry> {
        self.open@
    }

    pub closed spec fn waypoint(&self) -> Waypoint {
        self.waypoint
    }

    /// A search from `start` (hash `start_hash`) with the start in its frontier at the
    /// distance left; `None` where the start board cannot be measured.
    pub fn new(start: Grid, start_hash: u64, waypoint: Waypoint) -> (r: Option<Self>)
        ensures
            r is Some <==> measurable(waypoint, start),
            r matches Some(s) ==> {
                &&& s.well_formed()
                &&& s.tree().size() == 1
                &&& s.tree().grid_of(0) == start
                &&& s.waypoint() == waypoint
                &&& s.visited() == Map::<u64, u32>::empty().insert(start_hash, 0)
                &&& s.open() == Multiset::<Entry>::empty().insert(Entry { f: distance_left(waypoint, start) as i64, g: 0, idx: 0 })
            },
    {
        let d = match measure(&waypoint, &start) {
            Some(d) => d,
            None => return None,
        };
        let tree = SearchTree::new(start);
        let mut visited: HashMap<u64, u32> = HashMap::new();
        visited.insert(start_hash, 0);
        let mut open = OpenList::new();
        open.push(Entry { f: d, g: 0, idx: 0 });
        Some(SegmentSearch { tree, visited, open, waypoint })
    }

    /// Number of nodes.
    pub fn size(&self) -> (n: usize)
        ensures
            n == self.tree().size(),
    {
        self.tree.len()
    }

    /// The board at node `i`.
    pub fn grid(&self, i: usize) -> (g: &Grid)
        requires
            i < self.tree().size(),
        ensures
            *g == self.tree().grid_of(i as int),
    {
        self.tree.grid(i)
    }

    /// The depth of node `i`.
    pub fn depth(&self, i: usize) -> (d: u32)
        requires
            i < self.tree().size(),
        ensures
            d == self.tree().depth_of(i as int),
    {
        self.tree.depth(i)
    }

    /// Takes the frontier's first entry; it is dropped when the node was since reached at a
    /// smaller depth.
    pub fn next(&mut self) -> (n: Next)
        requires
            old(self).well_formed(),
        ensures
            final(self).well_formed(),
            final(self).tree() == old(self).tree(),
            final(self).visited() == old(self).visited(),
            final(self).waypoint() == old(self).waypoint(),
            old(self).open().len() == 0 ==> n == Next::Exhausted && final(self).open() == old(self).open(),
            old(self).open().len() > 0 ==> exists|e: Entry| {
                &&& #[trigger] old(self).open().count(e) > 0
                &&& (forall|x: Entry| old(self).open().count(x) > 0 ==> leaves_before(e, x))
                &&& final(self).open() == old(self).open().remove(e)
                &&& (old(self).tree().depth_of(e.idx as int) > e.g ==> n == Next::Dropped)
                &&& (old(self).tree().depth_of(e.idx as int) <= e.g ==> n == Next::Expand(e.idx))
            },
    {
        match self.open.pop() {
            None => Next::Exhausted,
            Some(e) => {
                if self.tree.depth(e.idx) as i64 > e.g {
                    Next::Dropped
                } else {
                    Next::Expand(e.idx)
                }
            },
        }
    }

    /// Decides what to do with the board `child` that the turn `action` reached from node
    /// `parent`, in play state `play_state`, with hash `hash`: a lost board is skipped; a won
    /// board ends the search; so does one where the players arrived; a board that cannot be
    /// measured is skipped; one not seen at a smaller depth is noted at its depth and joins
    /// the tree and the frontier at its depth plus the distance left.
    pub fn offer(&mut self, parent: usize, action: Vec<Action>, child: Grid, play_state: PlayState, hash: u64) -> (o: SegmentOffer)
        requires
            old(self).well_formed(),
            parent < old(self).tree().size(),
            old(self).tree().depth_of(parent as int) < u32::MAX,
            old(self).tree().size() < usize::MAX,
        ensures
            final(self).well_formed(),
            final(self).waypoint() == old(self).waypoint(),
            ({
                let t0 = old(self).tree();
                let nd = t0.depth_of(parent as int) + 1;
                let path = t0.path(parent as int).push(action@);
                let w = old(self).waypoint();
                if play_state == PlayState::GameOver {
                    o is Skipped
                } else if play_state == PlayState::Won {
                    (o matches SegmentOffer::Won(p) && turns_view(p@) == path)
                } else if !measurable(w, child) {
                    o is Skipped
                } else if arrived(w, child) {
                    (o matches SegmentOffer::Arrived(p) && turns_view(p@) == path)
                } else if old(self).visited().contains_key(hash) && old(self).visited()[hash] <= nd {
                    o is Skipped
                } else {
                    &&& o == SegmentOffer::Added(t0.size() as usize)
                    &&& final(self).tree().size() == t0.size() + 1
                    &&& final(self).tree().grid_of(t0.size() as int) == child
                    &&& final(self).tree().path(t0.size() as int) == path
                    &&& final(self).visited() == old(self).visited().insert(hash, nd as u32)
                    &&& final(self).open() == old(self).open().insert(Entry {
                        f: (nd + distance_left(w, child)) as i64, g: nd as i64, idx: t0.size() as usize })
                }
            }),
            o is Skipped ==> {
                &&& final(self).tree() == old(self).tree()
                &&& final(self).visited() == old(self).visited()
                &&& final(self).open() == old(self).open()
            },
    {
        proof {
            self.tree.lemma_shape();
        }
        if play_state == PlayState::GameOver {
            return SegmentOffer::Skipped;
        }
        if play_state == PlayState::Won {
            let ghost old_tree = self.tree;
            let i = self.tree.push_child(parent, action, child);
            proof {
                SearchTree::lemma_path_stable(&old_tree, &self.tree, parent as int);
            }
            return SegmentOffer::Won(self.tree.reconstruct(i));
        }
        let d = match measure(&self.waypoint, &child) {
            Some(d) => d,
            None => return SegmentOffer::Skipped,
        };
        if has_arrived(&self.waypoint, &child) {
            let ghost old_tree = self.tree;
            let i = self.tree.push_child(parent, action, child);
            proof {
                SearchTree::lemma_path_stable(&old_tree, &self.tree, parent as int);
            }
            return SegmentOffer::Arrived(self.tree.reconstruct(i));
        }
        let nd = self.tree.depth(parent) + 1;
        match self.visited.get(&hash) {
            Some(prev) => {
                if *prev <= nd {
                    return SegmentOffer::Skipped;
                }
            },
            None => {},
        }
        self.visited.insert(hash, nd);
        let ghost old_tree = self.tree;
        let i = self.tree.push_child(parent, action, child);
        proof {
            SearchTree::lemma_path_stable(&old_tree, &self.tree, parent as int);
        }
        self.open.push(Entry { f: nd as i64 + d, g: nd as i64, idx: i });
        SegmentOffer::Added(i)
    }
}

} // verus!
