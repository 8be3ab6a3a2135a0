//! The tree a search grows: each node holds a board, the node it was reached from, the
//! moves of the turn that reached it, and its depth.

use vstd::prelude::*;
use crate::model::{Action, Grid};
use crate::actions::turns_view;

verus! {

/// A node of a search tree.
pub struct SearchNode {
    grid: Grid,
    parent: usize,
    action: Vec<Action>,
    depth: u32,
}

/// A search tree; node 0 is the root.
pub struct SearchTree {
    nodes: Vec<SearchNode>,
}

/// A breadth-first queue over the tree: its nodes in order of depth, none above `level` and
/// none more than one below it.
pub open spec fn breadth_first_queue(t: SearchTree, q: Seq<usize>, level: int) -> bool {
    &&& forall|i: int, j: int| 0 <= i < j < q.len() ==>
        t.depth_of(#[trigger] q[i] as int) <= t.depth_of(#[trigger] q[j] as int)
    &&& forall|i: int| 0 <= i < q.len() ==> level <= t.depth_of(#[trigger] q[i] as int) <= level + 1
}

/// Taking the front of a breadth-first queue leaves one at the front's depth, all of whose
/// nodes are at least as deep as the front.
pub proof fn lemma_pop_level(t: SearchTree, q: Seq<usize>, level: int)
    requires
        breadth_first_queue(t, q, level),
        q.len() > 0,
    ensures
        breadth_first_queue(t, q.drop_first(), t.depth_of(q[0] as int)),
        forall|k: int| 0 <= k < q.drop_first().len() ==>
            t.depth_of(q[0] as int) <= t.depth_of(#[trigger] q.drop_first()[k] as int),
{
    let r = q.drop_first();
    assert forall|k: int| 0 <= k < r.len() implies t.depth_of(q[0] as int) <= t.depth_of(#[trigger] r[k] as int) by {
        assert(r[k] == q[k + 1]);
    }
    assert forall|i: int, j: int| 0 <= i < j < r.len() implies
        t.depth_of(#[trigger] r[i] as int) <= t.depth_of(#[trigger] r[j] as int) by {
        assert(r[i] == q[i + 1]);
        assert(r[j] == q[j + 1]);
    }
    assert forall|i: int| 0 <= i < r.len() implies t.depth_of(q[0] as int) <= t.depth_of(#[trigger] r[i] as int)
        <= t.depth_of(q[0] as int) + 1 by {
        assert(r[i] == q[i + 1]);
        assert(level <= t.depth_of(q[0] as int));
    }
}

/// A breadth-first queue stays one when the tree grows without changing its old nodes, and
/// when a node one below the level joins its back.
pub proof fn lemma_push_level(old_t: SearchTree, new_t: SearchTree, q: Seq<usize>, level: int, i: usize)
    requires
        breadth_first_queue(old_t, q, level),
        forall|k: int| 0 <= k < q.len() ==> #[trigger] q[k] < old_t.size(),
        forall|j: int| 0 <= j < old_t.size() ==> new_t.depth_of(j) == old_t.depth_of(j),
        new_t.depth_of(i as int) == level + 1,
    ensures
        breadth_first_queue(new_t, q, level),
        breadth_first_queue(new_t, q.push(i), level),
{
    let p = q.push(i);
    assert forall|a: int, b: int| 0 <= a < b < q.len() implies
        new_t.depth_of(#[trigger] q[a] as int) <= new_t.depth_of(#[trigger] q[b] as int) by {
        assert(old_t.depth_of(q[a] as int) <= old_t.depth_of(q[b] as int));
    }
    assert forall|a: int| 0 <= a < q.len() implies level <= new_t.depth_of(#[trigger] q[a] as int) <= level + 1 by {
        assert(level <= old_t.depth_of(q[a] as int) <= level + 1);
    }
    assert forall|a: int, b: int| 0 <= a < b < p.len() implies
        new_t.depth_of(#[trigger] p[a] as int) <= new_t.depth_of(#[trigger] p[b] as int) by {
        assert(p[a] == q[a]);
        assert(level <= old_t.depth_of(q[a] as int) <= level + 1);
        if b < q.len() {
            assert(p[b] == q[b]);
            assert(old_t.depth_of(q[a] as int) <= old_t.depth_of(q[b] as int));
        }
    }
    assert forall|a: int| 0 <= a < p.len() implies level <= new_t.depth_of(#[trigger] p[a] as int) <= level + 1 by {
        if a < q.len() {
            assert(p[a] == q[a]);
            assert(level <= old_t.depth_of(q[a] as int) <= level + 1);
        }
    }
}

/// Copies a turn's moves.
fn copy_turn(v: &Vec<Action>) -> (c: Vec<Action>)
    ensures
        c@ == v@,
{
    let mut c: Vec<Action> = Vec::new();
    let mut i: usize = 0;
    while i < v.len()
        invariant
            i <= v@.len(),
            c@ == v@.subrange(0, i as int),
        decreases v@.len() - i,
    {
        c.push(v[i]);
        i = i + 1;
        proof {
            assert(c@ =~= v@.subrange(0, i as int));
        }
    }
    proof {
        assert(v@.subrange(0, v@.len() as int) =~= v@);
    }
    c
}

impl SearchTree {
    /// The root has no parent and depth 0; every other node comes from an earlier node and
    /// lies one level below it.
    pub closed spec fn well_formed(&self) -> bool {
        &&& self.nodes@.len() >= 1
        &&& self.nodes@[0].parent == usize::MAX
        &&& self.nodes@[0].depth == 0
        &&& forall|i: int| 0 < i < self.nodes@.len() ==> {
            let n = #[trigger] self.nodes@[i];
            &&& n.parent < i
            &&& n.depth == self.nodes@[n.parent as int].depth + 1
        }
    }

    /// Number of nodes.
    pub closed spec fn size(&self) -> nat {
        self.nodes@.len()
    }

    /// The node that node `i` was reached from.
    pub closed spec fn parent_of(&self, i: int) -> int {
        self.nodes@[i].parent as int
    }

    /// The depth of node `i`: the turns from the root to it.
    pub closed spec fn depth_of(&self, i: int) -> int {
        self.nodes@[i].depth as int
    }

    /// The moves of the turn that reached node `i`.
    pub closed spec fn action_of(&self, i: int) -> Seq<Action> {
        self.nodes@[i].action@
    }

    /// The board at node `i`.
    pub closed spec fn grid_of(&self, i: int) -> Grid {
        self.nodes@[i].grid
    }

    /// The turns from the root to node `i`.
    pub open spec fn path(&self, i: int) -> Seq<Seq<Action>>
        decreases i,
    {
        if 0 < i < self.size() && 0 <= self.parent_of(i) < i {
            self.path(self.parent_of(i)).push(self.action_of(i))
        } else {
            Seq::empty()
        }
    }

    /// Facts the tree's shape gives: the root has depth 0, every other node comes from an
    /// earlier node one level up.
    pub proof fn lemma_shape(&self)
        requires
            self.well_formed(),
        ensures
            self.size() >= 1,
            self.depth_of(0) == 0,
            forall|i: int| 0 < i < self.size() ==> 0 <= #[trigger] self.parent_of(i) < i
                && self.depth_of(i) == self.depth_of(self.parent_of(i)) + 1,
    {
        assert forall|i: int| 0 < i < self.size() implies 0 <= #[trigger] self.parent_of(i) < i
            && self.depth_of(i) == self.depth_of(self.parent_of(i)) + 1 by {
            let n = self.nodes@[i];
        }
    }

    /// The path to a node has as many turns as the node's depth, and ends with the turn that
    /// reached the node.
    pub proof fn law_path_length_is_depth(&self, i: int)
        requires
            self.well_formed(),
            0 <= i < self.size(),
        ensures
            self.path(i).len() == self.depth_of(i),
            i > 0 ==> self.path(i).last() == self.action_of(i),
            i > 0 ==> self.path(i).drop_last() == self.path(self.parent_of(i)),
        decreases i,
    {
        self.lemma_shape();
        if i > 0 {
            self.law_path_length_is_depth(self.parent_of(i));
        }
    }

    /// When every turn that reached a node holds `n` moves, so does every turn of the path
    /// to any node.
    pub proof fn law_turns_of_width(&self, i: int, n: nat)
        requires
            self.well_formed(),
            0 <= i < self.size(),
            forall|j: int| 0 < j < self.size() ==> (#[trigger] self.action_of(j)).len() == n,
        ensures
            forall|k: int| 0 <= k < self.path(i).len() ==> (#[trigger] self.path(i)[k]).len() == n,
        decreases i,
    {
        self.lemma_shape();
        if i > 0 {
            let p = self.parent_of(i);
            self.law_turns_of_width(p, n);
            assert(self.path(i) == self.path(p).push(self.action_of(i)));
            assert forall|k: int| 0 <= k < self.path(i).len() implies (#[trigger] self.path(i)[k]).len() == n by {
                if k < self.path(p).len() {
                    assert(self.path(i)[k] == self.path(p)[k]);
                }
            }
        }
    }

    /// A tree holding only the root board.
    pub fn new(root: Grid) -> (t: Self)
        ensures
            t.well_formed(),
            t.size() == 1,
            t.grid_of(0) == root,
    {
        SearchTree { nodes: vec![SearchNode { grid: root, parent: usize::MAX, action: Vec::new(), depth: 0 }] }
    }

    /// Number of nodes.
    pub fn len(&self) -> (n: usize)
        ensures
            n == self.size(),
    {
        self.nodes.len()
    }

    /// The board at node `i`.
    pub fn grid(&self, i: usize) -> (g: &Grid)
        requires
            i < self.size(),
        ensures
            *g == self.grid_of(i as int),
    {
        &self.nodes[i].grid
    }

    /// The depth of node `i`.
    pub fn depth(&self, i: usize) -> (d: u32)
        requires
            i < self.size(),
        ensures
            d == self.depth_of(i as int),
    {
        self.nodes[i].depth
    }

    /// Adds a node reached from `parent` by the turn `action`, holding `grid`; gives its index.
    pub fn push_child(&mut self, parent: usize, action: Vec<Action>, grid: Grid) -> (i: usize)
        requires
            old(self).well_formed(),
            parent < old(self).size(),
            old(self).depth_of(parent as int) < u32::MAX,
            old(self).size() < usize::MAX,
        ensures
            final(self).well_formed(),
            i == old(self).size(),
            final(self).size() == old(self).size() + 1,
            final(self).parent_of(i as int) == parent,
            final(self).action_of(i as int) == action@,
            final(self).grid_of(i as int) == grid,
            final(self).depth_of(i as int) == old(self).depth_of(parent as int) + 1,
            forall|j: int| 0 <= j < old(self).size() ==> {
                &&& final(self).parent_of(j) == old(self).parent_of(j)
                &&& final(self).action_of(j) == old(self).action_of(j)
                &&& final(self).grid_of(j) == old(self).grid_of(j)
                &&& final(self).depth_of(j) == old(self).depth_of(j)
            },
    {
        let depth = self.nodes[parent].depth + 1;
        let i = self.nodes.len();
        self.nodes.push(SearchNode { grid, parent, action, depth });
        i
    }

    /// Paths through the nodes present before a node was added are unchanged by it.
    pub proof fn lemma_path_stable(old_t: &SearchTree, new_t: &SearchTree, i: int)
        requires
            old_t.well_formed(),
            old_t.size() <= new_t.size(),
            forall|j: int| 0 <= j < old_t.size() ==> {
                &&& new_t.parent_of(j) == old_t.parent_of(j)
                &&& new_t.action_of(j) == old_t.action_of(j)
            },
            0 <= i < old_t.size(),
        ensures
            new_t.path(i) == old_t.path(i),
        decreases i,
    {
        old_t.lemma_shape();
        if i > 0 {
            SearchTree::lemma_path_stable(old_t, new_t, old_t.parent_of(i));
        }
    }

    /// The turns from the root to node `idx`.
    pub fn reconstruct(&self, idx: usize) -> (path: Vec<Vec<Action>>)
        requires
            self.well_formed(),
            idx < self.size(),
        ensures
            turns_view(path@) == self.path(idx as int),
            path@.len() == self.depth_of(idx as int),
    {
        proof {
            self.lemma_shape();
            self.law_path_length_is_depth(idx as int);
        }
        let ghost full = self.path(idx as int);
        let d = self.nodes[idx].depth as usize;
        let mut out: Vec<Vec<Action>> = Vec::new();
        let mut k: usize = 0;
        while k < d
            invariant
                k <= d,
                out@.len() == k,
            decreases d - k,
        {
            out.push(Vec::new());
            k = k + 1;
        }
        let mut cur = idx;
        while cur != 0
            invariant
                self.well_formed(),
                cur < self.size(),
                out@.len() == d,
                d == full.len(),
                full == self.path(idx as int),
                self.depth_of(cur as int) <= d,
                self.path(cur as int) == full.subrange(0, self.depth_of(cur as int)),
                forall|j: int| self.depth_of(cur as int) <= j < d ==> #[trigger] out@[j]@ == full[j],
            decreases cur,
        {
            proof {
                self.lemma_shape();
                self.law_path_length_is_depth(cur as int);
            }
            let node = &self.nodes[cur];
            let pos = (node.depth - 1) as usize;
            let turn = copy_turn(&node.action);
            proof {
                let pc = self.path(cur as int);
                assert(pc.last() == full[pos as int]);
                assert(self.path(self.parent_of(cur as int)) == pc.drop_last());
                assert(pc.drop_last() =~= full.subrange(0, self.depth_of(self.parent_of(cur as int))));
            }
            out.set(pos, turn);
            cur = node.parent;
        }
        proof {
            assert(self.depth_of(0) == 0);
            assert(turns_view(out@) =~= full) by {
                assert forall|j: int| 0 <= j < d implies turns_view(out@)[j] == full[j] by {
                    assert(turns_view(out@)[j] == out@[j]@);
                }
            }
        }
        out
    }
}

} // verus!
