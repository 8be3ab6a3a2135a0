//! The open list of the best-first searches: a binary min-heap of node entries, lowest
//! estimate first and, among equal estimates, the deepest node first.

use vstd::prelude::*;
use vstd::multiset::Multiset;

verus! {

broadcast use vstd::seq_lib::group_to_multiset_ensures, vstd::multiset::group_multiset_axioms;

/// A node waiting in the open list: its estimate `f`, its depth `g`, and its index.
#[derive(Clone, Copy, Debug, PartialEq, Eq, Structural)]
pub struct Entry {
    pub f: i64,
    pub g: i64,
    pub idx: usize,
}

/// The order in which entries leave the list: by `f` ascending, then by `g` descending.
pub open spec fn rank(e: Entry) -> int {
    e.f as int * 0x2_0000_0000_0000_0000 - e.g as int
}

/// Entry `a` leaves no later than entry `b`: a lower estimate, or an equal estimate and a
/// depth at least as great.
pub open spec fn leaves_before(a: Entry, b: Entry) -> bool {
    a.f < b.f || (a.f == b.f && a.g >= b.g)
}

/// The rank order is the order entries leave in.
pub proof fn lemma_rank_order(a: Entry, b: Entry)
    ensures
        rank(a) <= rank(b) <==> leaves_before(a, b),
{
    if a.f < b.f {
        assert(rank(a) <= rank(b)) by (nonlinear_arith)
            requires a.f < b.f, a.g >= i64::MIN, b.g <= i64::MAX,
                rank(a) == a.f as int * 0x2_0000_0000_0000_0000 - a.g as int,
                rank(b) == b.f as int * 0x2_0000_0000_0000_0000 - b.g as int;
    } else if a.f > b.f {
        assert(rank(a) > rank(b)) by (nonlinear_arith)
            requires a.f > b.f, a.g <= i64::MAX, b.g >= i64::MIN,
                rank(a) == a.f as int * 0x2_0000_0000_0000_0000 - a.g as int,
                rank(b) == b.f as int * 0x2_0000_0000_0000_0000 - b.g as int;
    }
}

/// The parent of position `i` in the heap.
pub open spec fn parent(i: int) -> int {
    (i - 1) / 2
}

/// Every entry but the root ranks no lower than its parent.
pub open spec fn is_heap(s: Seq<Entry>) -> bool {
    forall|i: int| 0 < i < s.len() ==> rank(#[trigger] s[parent(i)]) <= rank(s[i])
}

/// The heap order holds except between `k` and its parent, and `k`'s parent ranks no
/// higher than `k`'s children.
spec fn heap_but_up(s: Seq<Entry>, k: int) -> bool {
    &&& forall|i: int| 0 < i < s.len() && i != k ==> rank(#[trigger] s[parent(i)]) <= rank(s[i])
    &&& (k > 0 ==> forall|i: int| 0 < i < s.len() && parent(i) == k ==> rank(s[parent(k)]) <= rank(#[trigger] s[i]))
}

/// The heap order holds except between `k` and its children, and `k`'s parent ranks no
/// higher than `k`'s children.
spec fn heap_but_down(s: Seq<Entry>, k: int) -> bool {
    &&& forall|i: int| 0 < i < s.len() && parent(i) != k ==> rank(#[trigger] s[parent(i)]) <= rank(s[i])
    &&& (k > 0 ==> forall|i: int| 0 < i < s.len() && parent(i) == k ==> rank(s[parent(k)]) <= rank(#[trigger] s[i]))
}

/// The root of a heap ranks no higher than any entry.
proof fn lemma_root_min(s: Seq<Entry>, i: int)
    requires
        is_heap(s),
        0 <= i < s.len(),
    ensures
        rank(s[0]) <= rank(s[i]),
    decreases i,
{
    if i > 0 {
        assert(rank(s[parent(i)]) <= rank(s[i]));
        lemma_root_min(s, parent(i));
    }
}

/// Swapping two positions keeps the entries.
proof fn lemma_swap_multiset(s: Seq<Entry>, i: int, j: int)
    requires
        0 <= i < s.len(),
        0 <= j < s.len(),
    ensures
        s.update(i, s[j]).update(j, s[i]).to_multiset() == s.to_multiset(),
{
    broadcast use vstd::seq_lib::to_multiset_update;
    let t = s.update(i, s[j]);
    assert(t.to_multiset() == s.to_multiset().insert(s[j]).remove(s[i]));
    assert(t.update(j, s[i]).to_multiset() == t.to_multiset().insert(s[i]).remove(t[j]));
    if i == j {
        assert(t.update(j, s[i]) =~= s);
    } else {
        assert(t[j] == s[j]);
        assert(t.to_multiset().insert(s[i]).remove(s[j]) =~= s.to_multiset());
    }
}

/// Entries ordered for the searches, lowest rank first out.
pub struct OpenList {
    items: Vec<Entry>,
}

impl OpenList {
    #[verifier::type_invariant]
    spec fn wf(self) -> bool {
        is_heap(self.items@)
    }

    /// The entries waiting.
    pub closed spec fn view(&self) -> Multiset<Entry> {
        self.items@.to_multiset()
    }

    /// An empty list.
    pub fn new() -> (l: Self)
        ensures
            l@ == Multiset::<Entry>::empty(),
    {
        let l = OpenList { items: Vec::new() };
        proof {
            assert(l.items@.to_multiset() =~= Multiset::<Entry>::empty());
        }
        l
    }

    /// Number of entries waiting.
    pub fn len(&self) -> (n: usize)
        ensures
            n == self@.len(),
    {
        self.items.len()
    }

    /// Adds an entry.
    pub fn push(&mut self, e: Entry)
        ensures
            final(self)@ == old(self)@.insert(e),
    {
        proof {
            use_type_invariant(&*self);
        }
        let mut items: Vec<Entry> = Vec::new();
        std::mem::swap(&mut items, &mut self.items);
        let ghost start = items@;
        items.push(e);
        proof {
            assert(items@.to_multiset() == start.to_multiset().insert(e));
            assert(heap_but_up(items@, items@.len() - 1)) by {
                assert forall|i: int| 0 < i < items@.len() && i != items@.len() - 1 implies
                    rank(#[trigger] items@[parent(i)]) <= rank(items@[i]) by {
                    assert(items@[i] == start[i]);
                    assert(items@[parent(i)] == start[parent(i)]);
                }
            }
        }
        let mut k = items.len() - 1;
        while k > 0
            invariant
                0 <= k < items@.len(),
                heap_but_up(items@, k as int),
                items@.to_multiset() == start.to_multiset().insert(e),
            ensures
                is_heap(items@),
                items@.to_multiset() == start.to_multiset().insert(e),
            decreases k,
        {
            let p = (k - 1) / 2;
            let a = items[k];
            let b = items[p];
            proof {
                lemma_rank_order(a, b);
            }
            if !(a.f < b.f || (a.f == b.f && a.g > b.g)) {
                proof {
                    assert(rank(b) <= rank(a));
                    assert(is_heap(items@));
                }
                break;
            }
            let ghost before = items@;
            items.set(k, b);
            items.set(p, a);
            proof {
                lemma_swap_multiset(before, k as int, p as int);
                assert(items@ =~= before.update(k as int, before[p as int]).update(p as int, before[k as int]));
                assert(rank(a) < rank(b)) by {
                    lemma_rank_order(b, a);
                }
                let s = items@;
                assert forall|i: int| 0 < i < s.len() && i != p implies rank(#[trigger] s[parent(i)]) <= rank(s[i]) by {
                    if i == k {
                    } else if parent(i) == k {
                        assert(rank(before[parent(k as int)]) <= rank(before[i]));
                    } else if parent(i) == p {
                        assert(rank(before[parent(i)]) <= rank(before[i]));
                    } else {
                        assert(s[i] == before[i]);
                        assert(s[parent(i)] == before[parent(i)]);
                    }
                }
                if p > 0 {
                    assert forall|i: int| 0 < i < s.len() && parent(i) == p implies rank(s[parent(p as int)]) <= rank(#[trigger] s[i]) by {
                        assert(rank(before[parent(p as int)]) <= rank(before[p as int]));
                        if i != k {
                            assert(rank(before[parent(i)]) <= rank(before[i]));
                        }
                    }
                }
            }
            k = p;
        }
        self.items = items;
    }

    /// Takes out an entry that ranks lowest, if any.
    pub fn pop(&mut self) -> (r: Option<Entry>)
        ensures
            r is None <==> old(self)@.len() == 0,
            r is None ==> final(self)@ == old(self)@,
            r matches Some(e) ==> {
                &&& old(self)@.count(e) > 0
                &&& final(self)@ == old(self)@.remove(e)
                &&& forall|x: Entry| old(self)@.count(x) > 0 ==> leaves_before(e, x)
            },
    {
        proof {
            use_type_invariant(&*self);
        }
        let mut items: Vec<Entry> = Vec::new();
        std::mem::swap(&mut items, &mut self.items);
        let ghost start = items@;
        if items.len() == 0 {
            self.items = items;
            proof {
                assert(start.to_multiset().len() == 0);
            }
            return None;
        }
        let top = items[0];
        proof {
            assert forall|x: Entry| start.to_multiset().count(x) > 0 implies leaves_before(top, x) by {
                assert(start.contains(x));
                let j = choose|j: int| 0 <= j < start.len() && start[j] == x;
                lemma_root_min(start, j);
                lemma_rank_order(top, x);
            }
            assert(start.contains(top)) by {
                assert(start[0] == top);
            }
        }
        let last = items.pop().unwrap();
        let ghost popped = items@;
        proof {
            assert(start =~= popped.push(last));
        }
        if items.len() > 0 {
            items.set(0, last);
            proof {
                let s = items@;
                assert(s =~= popped.update(0, last));
                assert(s.to_multiset() == popped.to_multiset().insert(last).remove(top)) by {
                    broadcast use vstd::seq_lib::to_multiset_update;
                    assert(popped[0] == top);
                }
                assert(heap_but_down(s, 0)) by {
                    assert forall|i: int| 0 < i < s.len() && parent(i) != 0 implies rank(#[trigger] s[parent(i)]) <= rank(s[i]) by {
                        assert(s[i] == start[i]);
                        assert(s[parent(i)] == start[parent(i)]);
                    }
                }
            }
            let ghost goal = start.to_multiset().remove(top);
            proof {
                assert(items@.to_multiset() == goal) by {
                    assert(start.to_multiset() == popped.to_multiset().insert(last));
                }
            }
            let n = items.len();
            let mut k: usize = 0;
            while n >= 2 && k <= (n - 2) / 2
                invariant
                    n == items@.len(),
                    0 <= k < n,
                    heap_but_down(items@, k as int),
                    items@.to_multiset() == goal,
                ensures
                    is_heap(items@),
                    items@.to_multiset() == goal,
                decreases n - k,
            {
                let l = 2 * k + 1;
                let r = 2 * k + 2;
                let mut c = l;
                if r < n {
                    let el = items[l];
                    let er = items[r];
                    if er.f < el.f || (er.f == el.f && er.g > el.g) {
                        c = r;
                    }
                    proof {
                        lemma_rank_order(er, el);
                        lemma_rank_order(el, er);
                    }
                }
                let a = items[k];
                let b = items[c];
                proof {
                    lemma_rank_order(a, b);
                    lemma_rank_order(b, a);
                    assert(parent(l as int) == k);
                    assert(parent(r as int) == k);
                }
                if !(b.f < a.f || (b.f == a.f && b.g > a.g)) {
                    proof {
                        let s = items@;
                        assert forall|i: int| 0 < i < s.len() implies rank(#[trigger] s[parent(i)]) <= rank(s[i]) by {
                            if parent(i) == k {
                                assert(i == l || i == r);
                            }
                        }
                    }
                    break;
                }
                let ghost before = items@;
                items.set(k, b);
                items.set(c, a);
                proof {
                    lemma_swap_multiset(before, k as int, c as int);
                    assert(items@ =~= before.update(k as int, before[c as int]).update(c as int, before[k as int]));
                    let s = items@;
                    assert(parent(c as int) == k);
                    assert forall|i: int| 0 < i < s.len() && parent(i) != c implies rank(#[trigger] s[parent(i)]) <= rank(s[i]) by {
                        if i == c {
                        } else if parent(i) == k {
                            assert(i == l || i == r);
                        } else if i == k {
                            assert(rank(before[parent(k as int)]) <= rank(before[c as int]));
                        } else {
                            assert(s[i] == before[i]);
                            assert(s[parent(i)] == before[parent(i)]);
                        }
                    }
                    assert forall|i: int| 0 < i < s.len() && parent(i) == c implies rank(s[parent(c as int)]) <= rank(#[trigger] s[i]) by {
                        assert(rank(before[parent(i)]) <= rank(before[i]));
                    }
                }
                k = c;
            }
        } else {
            proof {
                assert(popped.len() == 0);
                assert(items@.to_multiset() =~= start.to_multiset().remove(top));
            }
        }
        self.items = items;
        Some(top)
    }
}

} // verus!
