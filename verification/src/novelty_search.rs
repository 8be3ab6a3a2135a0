//! The width-limited win search: boards are searched only while they show something new
//! (an atom, or at novelty two a pair of atoms), lowest novelty first, then lowest general
//! score, then shallowest, as a sequence of decisions.

use vstd::prelude::*;
use vstd::multiset::Multiset;
use std::collections::HashMap;
use crate::model::{Action, CellKind, Grid, PlayState};
use crate::actions::turns_view;
use crate::search_tree::SearchTree;
use crate::open_list::{Entry, OpenList, leaves_before};
use crate::heuristics::{Tuning, spec_heuristic, heuristic};
use crate::novelty::{NoveltyTable, spec_novelty, state_atoms, base_cell_kinds, atom_set, state_atom_set,
    strictly_increasing};
use crate::plain_search::Next;

verus! {

broadcast use vstd::std_specs::hash::group_hash_axioms;

/// Apart from each other by more than any general score.
pub const NOVELTY_STEP: i64 = 2_000_000_000_000_000;

/// The frontier entry of a board of novelty `n`, general score `h` and depth `d`: entries
/// leave by novelty, then score, then depth, all ascending.
pub open spec fn novelty_entry(n: u8, h: int, d: int, idx: usize) -> Entry {
    Entry { f: (n * NOVELTY_STEP + h) as i64, g: (-d) as i64, idx }
}

/// What became of a board one turn reached.
pub enum NoveltyOffer {
    /// Lost, seen at no greater depth, or showing nothing new; nothing changed but the
    /// table, which records what a novel board shows.
    Skipped,
    /// Won: the turns from the start.
    Solved(Vec<Vec<Action>>),
    /// Added to the tree and the frontier as this node.
    Added(usize),
    /// The board's size differs from the start board's.
    SizeChanged,
}

/// The state of a novelty search.
pub struct NoveltySearch {
    tree: SearchTree,
    visited: HashMap<u64, u32>,
    open: OpenList,
    table: NoveltyTable,
    base: Vec<CellKind>,
    max_depth: usize,
    tuning: Tuning,
    best_h: i64,
    best_idx: usize,
}

impl NoveltySearch {
    pub closed spec fn well_formed(&self) -> bool {
        &&& self.tree.well_formed()
        &&& self.best_idx < self.tree.size()
        &&& forall|e: Entry| self.open@.count(e) > 0 ==> e.idx < self.tree.size()
    }

    pub closed spec fn tree(&self) -> SearchTree {
        self.tree
    }

    pub closed spec fn visited(&self) -> Map<u64, u32> {
        self.visited@
    }

    pub closed spec fn open(&self) -> Multiset<Entry> {
        self.open@
    }

    pub closed spec fn table(&self) -> NoveltyTable {
        self.table
    }

    pub closed spec fn base(&self) -> Seq<CellKind> {
        self.base@
    }

    pub closed spec fn max_depth(&self) -> usize {
        self.max_depth
    }

    pub closed spec fn tuning(&self) -> Tuning {
        self.tuning
    }

    pub closed spec fn best_h(&self) -> i64 {
        self.best_h
    }

    pub closed spec fn best_idx(&self) -> usize {
        self.best_idx
    }

    /// A search from `root` (hash `root_hash`) tracking novelty up to `max_novelty`, the root
    /// recorded as seen and in the frontier at novelty one; `None` when the root shows no
    /// atom at all.
    pub fn new(root: Grid, root_hash: u64, max_novelty: u8, max_depth: usize, tuning: Tuning) -> (r: Option<Self>)
        ensures
            r matches Some(s) ==> {
                &&& s.well_formed()
                &&& s.tree().size() == 1
                &&& s.tree().grid_of(0) == root
                &&& s.base().len() == root.w() * root.h()
                &&& forall|x: int, y: int| root.in_bounds(x, y) ==> #[trigger] s.base()[y * root.w() + x] == root.kind_at(x, y)
                &&& s.visited() == Map::<u64, u32>::empty().insert(root_hash, 0)
                &&& s.table().max() == max_novelty
                &&& s.table().seen_atoms() == state_atom_set(root, s.base())
                &&& s.max_depth() == max_depth
                &&& s.tuning() == tuning
                &&& s.best_idx() == 0
                &&& s.best_h() == spec_heuristic(root, tuning)
                &&& s.open() == Multiset::<Entry>::empty().insert(novelty_entry(1, spec_heuristic(root, tuning), 0, 0))
                &&& state_atom_set(root, s.base()) != Set::<u32>::empty()
            },
            r is None ==> forall|b: Seq<CellKind>| b.len() == root.w() * root.h()
                && (forall|x: int, y: int| root.in_bounds(x, y) ==> #[trigger] b[y * root.w() + x] == root.kind_at(x, y))
                ==> state_atom_set(root, b) == Set::<u32>::empty(),
    {
        let base = base_cell_kinds(&root);
        let mut table = NoveltyTable::new(max_novelty);
        let atoms = state_atoms(&root, base.as_slice());
        let ghost tb = table;
        let r = table.novelty(atoms.as_slice());
        if r.is_none() {
            proof {
                assert(atoms@.len() == 0) by {
                    if atoms@.len() > 0 {
                        assert(!tb.seen_atoms().contains(atoms@[0]));
                    }
                }
                assert(atom_set(atoms@) =~= Set::<u32>::empty());
                assert forall|b: Seq<CellKind>| b.len() == root.w() * root.h()
                    && (forall|x: int, y: int| root.in_bounds(x, y) ==> #[trigger] b[y * root.w() + x] == root.kind_at(x, y))
                    implies state_atom_set(root, b) == Set::<u32>::empty() by {
                    assert forall|a: u32| !state_atom_set(root, b).contains(a) by {
                        if state_atom_set(root, b).contains(a) {
                            let (x, y) = choose|x: int, y: int| #[trigger] crate::novelty::shows_atom(root, b, x, y)
                                && a as int == crate::novelty::atom_at(root, x, y);
                            assert(b[y * root.w() + x] == base@[y * root.w() + x]);
                            assert(crate::novelty::shows_atom(root, base@, x, y));
                            assert(state_atom_set(root, base@).contains(a));
                            assert(atom_set(atoms@).contains(a));
                        }
                    }
                    assert(state_atom_set(root, b) =~= Set::<u32>::empty());
                }
            }
            return None;
        }
        proof {
            assert(atoms@.len() > 0);
            assert(atom_set(atoms@).contains(atoms@[0]));
            assert(tb.seen_atoms().union(atom_set(atoms@)) =~= atom_set(atoms@));
        }
        let h = heuristic(&root, tuning);
        let tree = SearchTree::new(root);
        let mut visited: HashMap<u64, u32> = HashMap::new();
        visited.insert(root_hash, 0);
        let mut open = OpenList::new();
        open.push(Entry { f: NOVELTY_STEP + h, g: 0, idx: 0 });
        Some(NoveltySearch { tree, visited, open, table, base, max_depth, tuning, best_h: h, best_idx: 0 })
    }

    /// Number of nodes.
    pub fn size(&self) -> (n: usize)
        ensures
            n == self.tree().size(),
    {
        self.tree.len()
    }

    /// The board at node `i`.
    pub fn grid(&self, i: usize) -> (g: &Grid)
        requires
            i < self.tree().size(),
        ensures
            *g == self.tree().grid_of(i as int),
    {
        self.tree.grid(i)
    }

    /// The depth of node `i`.
    pub fn depth(&self, i: usize) -> (d: u32)
        requires
            i < self.tree().size(),
        ensures
            d == self.tree().depth_of(i as int),
    {
        self.tree.depth(i)
    }

    /// The turns to the best scored node so far.
    pub fn best_path(&self) -> (p: Vec<Vec<Action>>)
        requires
            self.well_formed(),
        ensures
            turns_view(p@) == self.tree().path(self.best_idx() as int),
    {
        self.tree.reconstruct(self.best_idx)
    }

    /// Takes the frontier's first entry; a node as deep as `max_depth` is dropped.
    pub fn next(&mut self) -> (n: Next)
        requires
            old(self).well_formed(),
        ensures
            final(self).well_formed(),
            final(self).tree() == old(self).tree(),
            final(self).visited() == old(self).visited(),
            final(self).table() == old(self).table(),
            final(self).base() == old(self).base(),
            final(self).max_depth() == old(self).max_depth(),
            final(self).tuning() == old(self).tuning(),
            final(self).best_h() == old(self).best_h(),
            final(self).best_idx() == old(self).best_idx(),
            old(self).open().len() == 0 ==> n == Next::Exhausted && final(self).open() == old(self).open(),
            old(self).open().len() > 0 ==> exists|e: Entry| {
                &&& #[trigger] old(self).open().count(e) > 0
                &&& (forall|x: Entry| old(self).open().count(x) > 0 ==> leaves_before(e, x))
                &&& final(self).open() == old(self).open().remove(e)
                &&& (old(self).tree().depth_of(e.idx as int) >= old(self).max_depth() ==> n == Next::Dropped)
                &&& (old(self).tree().depth_of(e.idx as int) < old(self).max_depth() ==> n == Next::Expand(e.idx))
            },
    {
        match self.open.pop() {
            None => Next::Exhausted,
            Some(e) => {
                if self.tree.depth(e.idx) as usize >= self.max_depth {
                    Next::Dropped
                } else {
                    Next::Expand(e.idx)
                }
            },
        }
    }

    /// Decides what to do with the board `child` that the turn `action` reached from node
    /// `parent`, in play state `play_state`, with hash `hash`. A lost board is skipped; a won
    /// board solves the search; a board seen at no greater depth is skipped; otherwise the
    /// board's novelty is asked of the table (which records it when novel); a board showing
    /// nothing new is skipped, any other is noted at its depth and joins the tree and the
    /// frontier, becoming the best when it scores lower than the best so far.
    #[verifier::rlimit(40)]
    pub fn offer(&mut self, parent: usize, action: Vec<Action>, child: Grid, play_state: PlayState, hash: u64) -> (o: NoveltyOffer)
        requires
            old(self).well_formed(),
            parent < old(self).tree().size(),
            old(self).tree().depth_of(parent as int) < u32::MAX,
            old(self).tree().size() < usize::MAX,
        ensures
            final(self).well_formed(),
            final(self).base() == old(self).base(),
            final(self).max_depth() == old(self).max_depth(),
            final(self).tuning() == old(self).tuning(),
            final(self).table().max() == old(self).table().max(),
            ({
                let t0 = old(self).tree();
                let nd = t0.depth_of(parent as int) + 1;
                let tb = old(self).table();
                if play_state == PlayState::GameOver {
                    o is Skipped && final(self).table().seen_atoms() == tb.seen_atoms() && final(self).table().seen_pairs() == tb.seen_pairs()
                } else if play_state == PlayState::Won {
                    (o matches NoveltyOffer::Solved(p) && turns_view(p@) == t0.path(parent as int).push(action@))
                } else if old(self).visited().contains_key(hash) && old(self).visited()[hash] <= nd {
                    o is Skipped && final(self).table().seen_atoms() == tb.seen_atoms() && final(self).table().seen_pairs() == tb.seen_pairs()
                } else if old(self).base().len() < child.w() * child.h() {
                    o is SizeChanged
                } else {
                    exists|atoms: Seq<u32>| #![trigger atom_set(atoms)] {
                        &&& strictly_increasing(atoms)
                        &&& atom_set(atoms) == state_atom_set(child, old(self).base())
                        &&& match spec_novelty(tb.max(), tb.seen_atoms(), tb.seen_pairs(), atoms) {
                            None => o is Skipped && final(self).table().seen_atoms() == tb.seen_atoms() && final(self).table().seen_pairs() == tb.seen_pairs(),
                            Some(n) => {
                                let h = spec_heuristic(child, old(self).tuning());
                                let i = t0.size() as usize;
                                &&& o == NoveltyOffer::Added(i)
                                &&& final(self).table().seen_atoms() == tb.seen_atoms().union(atom_set(atoms))
                                &&& final(self).tree().size() == t0.size() + 1
                                &&& final(self).tree().grid_of(i as int) == child
                                &&& final(self).tree().path(i as int) == t0.path(parent as int).push(action@)
                                &&& final(self).visited() == old(self).visited().insert(hash, nd as u32)
                                &&& final(self).open() == old(self).open().insert(novelty_entry(n, h, nd, i))
                                &&& (h < old(self).best_h() ==> final(self).best_h() == h && final(self).best_idx() == i)
                                &&& (h >= old(self).best_h() ==> final(self).best_h() == old(self).best_h()
                                    && final(self).best_idx() == old(self).best_idx())
                            },
                        }
                    }
                }
            }),
            o is Skipped ==> {
                &&& final(self).tree() == old(self).tree()
                &&& final(self).visited() == old(self).visited()
                &&& final(self).open() == old(self).open()
                &&& final(self).best_h() == old(self).best_h()
                &&& final(self).best_idx() == old(self).best_idx()
            },
    {
        proof {
            self.tree.lemma_shape();
        }
        if play_state == PlayState::GameOver {
            return NoveltyOffer::Skipped;
        }
        if play_state == PlayState::Won {
            let ghost old_tree = self.tree;
            let i = self.tree.push_child(parent, action, child);
            proof {
                SearchTree::lemma_path_stable(&old_tree, &self.tree, parent as int);
            }
            return NoveltyOffer::Solved(self.tree.reconstruct(i));
        }
        let nd = self.tree.depth(parent) + 1;
        match self.visited.get(&hash) {
            Some(prev) => {
                if *prev <= nd {
                    return NoveltyOffer::Skipped;
                }
            },
            None => {},
        }
        let cw = child.width();
        let ch = child.height();
        assert(cw * ch <= 1024 * 1024) by (nonlinear_arith)
            requires
                cw <= 1024,
                ch <= 1024,
        ;
        if self.base.len() < cw * ch {
            return NoveltyOffer::SizeChanged;
        }
        let atoms = state_atoms(&child, self.base.as_slice());
        let ghost tb = self.table;
        let n = match self.table.novelty(atoms.as_slice()) {
            None => {
                proof {
                    assert(strictly_increasing(atoms@));
                    assert(spec_novelty(tb.max(), tb.seen_atoms(), tb.seen_pairs(), atoms@) is None);
                    assert(self.table.seen_atoms() == tb.seen_atoms());
                }
                return NoveltyOffer::Skipped;
            },
            Some(n) => n,
        };
        self.visited.insert(hash, nd);
        let h = heuristic(&child, self.tuning);
        let ghost old_tree = self.tree;
        let i = self.tree.push_child(parent, action, child);
        proof {
            SearchTree::lemma_path_stable(&old_tree, &self.tree, parent as int);
        }
        if h < self.best_h {
            self.best_h = h;
            self.best_idx = i;
        }
        let f: i64 = (n as i64) * NOVELTY_STEP + h;
        self.open.push(Entry { f, g: -(nd as i64), idx: i });
        proof {
            assert(strictly_increasing(atoms@));
            assert(spec_novelty(tb.max(), tb.seen_atoms(), tb.seen_pairs(), atoms@) == Some(n));
            assert(self.open@ == old(self).open@.insert(novelty_entry(n, h as int, nd as int, i)));
        }
        NoveltyOffer::Added(i)
    }
}

} // verus!
