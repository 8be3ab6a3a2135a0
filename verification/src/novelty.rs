//! Novelty of board states for the width-limited search: a state is new when it shows an
//! atom (a cell holding a kind) or, at novelty two, a pair of atoms not seen before.

use vstd::prelude::*;
use std::collections::HashSet;
use crate::model::{CellKind, Grid, MAX_SIDE};
use crate::cells::{is_rat, is_trigger, spec_cell_kind_code, cell_kind_code};

verus! {

broadcast use vstd::std_specs::hash::group_hash_axioms;

/// Two atoms packed into one number: `left` in the high 32 bits, `right` in the low.
pub open spec fn spec_pair_atom(left: u32, right: u32) -> int {
    left as int * 0x1_0000_0000 + right as int
}

/// Packs two atoms into one number, `left` in the high 32 bits.
pub fn pair_atom(left: u32, right: u32) -> (p: u64)
    ensures
        p as int == spec_pair_atom(left, right),
{
    let l = left as u64;
    let r = right as u64;
    assert((l << 32u64) | r == l * 0x1_0000_0000u64 + r) by (bit_vector)
        requires l <= 0xffff_ffffu64, r <= 0xffff_ffffu64;
    (l << 32) | r
}

/// Packing is one to one: the pair can be read back from the number.
pub proof fn law_pair_atom_injective(a: u32, b: u32, c: u32, d: u32)
    requires
        spec_pair_atom(a, b) == spec_pair_atom(c, d),
    ensures
        a == c,
        b == d,
{
    assert(a as int * 0x1_0000_0000 + b as int == c as int * 0x1_0000_0000 + d as int);
    if a < c {
        assert(a as int * 0x1_0000_0000 + 0x1_0000_0000 <= c as int * 0x1_0000_0000) by (nonlinear_arith)
            requires a < c;
    } else if c < a {
        assert(c as int * 0x1_0000_0000 + 0x1_0000_0000 <= a as int * 0x1_0000_0000) by (nonlinear_arith)
            requires c < a;
    }
}

/// The atoms listed.
pub open spec fn atom_set(atoms: Seq<u32>) -> Set<u32> {
    Set::new(|a: u32| atoms.contains(a))
}

/// The packed pairs of atoms listed, each earlier atom with each later one.
pub open spec fn pair_set(atoms: Seq<u32>) -> Set<u64> {
    Set::new(|p: u64| exists|i: int, j: int| 0 <= i < j < atoms.len()
        && p as int == spec_pair_atom(#[trigger] atoms[i], #[trigger] atoms[j]))
}

/// Some listed atom has not been seen.
pub open spec fn has_new_atom(seen: Set<u32>, atoms: Seq<u32>) -> bool {
    exists|i: int| 0 <= i < atoms.len() && !seen.contains(#[trigger] atoms[i])
}

/// Some pair of listed atoms (earlier with later) has not been seen.
pub open spec fn has_new_pair(seen: Set<u64>, atoms: Seq<u32>) -> bool {
    exists|i: int, j: int| 0 <= i < j < atoms.len()
        && !seen.contains(spec_pair_atom(#[trigger] atoms[i], #[trigger] atoms[j]) as u64)
}

/// The novelty of a state given what has been seen: 1 when it shows a new atom, 2 when
/// (with pairs tracked) it shows a new pair of atoms, none otherwise.
pub open spec fn spec_novelty(max_novelty: u8, seen_atoms: Set<u32>, seen_pairs: Set<u64>, atoms: Seq<u32>) -> Option<u8> {
    if has_new_atom(seen_atoms, atoms) {
        Some(1)
    } else if max_novelty >= 2 && has_new_pair(seen_pairs, atoms) {
        Some(2)
    } else {
        None
    }
}

/// The atoms and, up to a limit, the pairs of atoms that states seen so far have shown.
pub struct NoveltyTable {
    max_novelty: u8,
    atoms: HashSet<u32>,
    pairs: HashSet<u64>,
}

impl NoveltyTable {
    /// Up to which novelty the table tracks: pairs are kept only from 2 on.
    pub closed spec fn max(&self) -> u8 {
        self.max_novelty
    }

    /// The atoms seen so far.
    pub closed spec fn seen_atoms(&self) -> Set<u32> {
        self.atoms@
    }

    /// The packed pairs seen so far.
    pub closed spec fn seen_pairs(&self) -> Set<u64> {
        self.pairs@
    }

    /// An empty table tracking novelty up to `max_novelty`.
    pub fn new(max_novelty: u8) -> (t: Self)
        ensures
            t.max() == max_novelty,
            t.seen_atoms() == Set::<u32>::empty(),
            t.seen_pairs() == Set::<u64>::empty(),
    {
        NoveltyTable { max_novelty, atoms: HashSet::new(), pairs: HashSet::new() }
    }

    /// Records the atoms of a state, and its pairs when pairs are tracked.
    pub fn record(&mut self, atoms: &[u32])
        ensures
            final(self).max() == old(self).max(),
            final(self).seen_atoms() == old(self).seen_atoms().union(atom_set(atoms@)),
            final(self).seen_pairs() == (if old(self).max() >= 2 {
                old(self).seen_pairs().union(pair_set(atoms@))
            } else {
                old(self).seen_pairs()
            }),
    {
        let ghost start_atoms = self.atoms@;
        let ghost start_pairs = self.pairs@;
        let mut k: usize = 0;
        while k < atoms.len()
            invariant
                k <= atoms@.len(),
                self.max_novelty == old(self).max_novelty,
                self.pairs@ == start_pairs,
                start_atoms == old(self).atoms@,
                start_pairs == old(self).pairs@,
                self.atoms@ == start_atoms.union(Set::new(|a: u32| exists|i: int| 0 <= i < k && #[trigger] atoms@[i] == a)),
            decreases atoms@.len() - k,
        {
            self.atoms.insert(atoms[k]);
            k = k + 1;
            proof {
                assert(self.atoms@ =~= start_atoms.union(Set::new(|a: u32| exists|i: int| 0 <= i < k && #[trigger] atoms@[i] == a))) by {
                    assert(atoms@[k - 1] == atoms@[k - 1]);
                }
            }
        }
        proof {
            assert(self.atoms@ =~= start_atoms.union(atom_set(atoms@))) by {
                assert forall|a: u32| atoms@.contains(a) implies (exists|i: int| 0 <= i < atoms@.len() && #[trigger] atoms@[i] == a) by {
                    let i = choose|i: int| 0 <= i < atoms@.len() && atoms@[i] == a;
                    assert(atoms@[i] == a);
                }
            }
        }
        if self.max_novelty >= 2 {
            let n = atoms.len();
            let mut i: usize = 0;
            while i < n
                invariant
                    n == atoms@.len(),
                    i <= n,
                    self.max_novelty == old(self).max_novelty,
                    self.max_novelty >= 2,
                    self.atoms@ == start_atoms.union(atom_set(atoms@)),
                    start_atoms == old(self).atoms@,
                    start_pairs == old(self).pairs@,
                    self.pairs@ == start_pairs.union(Set::new(|p: u64| exists|a: int, b: int| 0 <= a < b < n && a < i
                        && p as int == spec_pair_atom(#[trigger] atoms@[a], #[trigger] atoms@[b]))),
                decreases n - i,
            {
                let mut j: usize = i + 1;
                while j < n
                    invariant
                        n == atoms@.len(),
                        i < n,
                        i + 1 <= j <= n,
                        self.max_novelty == old(self).max_novelty,
                        self.max_novelty >= 2,
                        self.atoms@ == start_atoms.union(atom_set(atoms@)),
                        start_atoms == old(self).atoms@,
                        start_pairs == old(self).pairs@,
                        self.pairs@ == start_pairs.union(Set::new(|p: u64| exists|a: int, b: int| 0 <= a < b < n
                            && (a < i || (a == i && b < j))
                            && p as int == spec_pair_atom(#[trigger] atoms@[a], #[trigger] atoms@[b]))),
                    decreases n - j,
                {
                    let p = pair_atom(atoms[i], atoms[j]);
                    self.pairs.insert(p);
                    proof {
                        let ghost prev = Set::new(|q: u64| exists|a: int, b: int| 0 <= a < b < n
                            && (a < i || (a == i && b < j))
                            && q as int == spec_pair_atom(#[trigger] atoms@[a], #[trigger] atoms@[b]));
                        let ghost next = Set::new(|q: u64| exists|a: int, b: int| 0 <= a < b < n
                            && (a < i || (a == i && b < j + 1))
                            && q as int == spec_pair_atom(#[trigger] atoms@[a], #[trigger] atoms@[b]));
                        assert(next =~= prev.insert(p)) by {
                            assert forall|q: u64| next.contains(q) implies prev.insert(p).contains(q) by {
                                let (a, b) = choose|a: int, b: int| 0 <= a < b < n
                                    && (a < i || (a == i && b < j + 1))
                                    && q as int == spec_pair_atom(#[trigger] atoms@[a], #[trigger] atoms@[b]);
                                if !(a < i || (a == i && b < j)) {
                                    assert(a == i && b == j);
                                }
                            }
                            assert(next.contains(p)) by {
                                assert(p as int == spec_pair_atom(atoms@[i as int], atoms@[j as int]));
                            }
                        }
                    }
                    j = j + 1;
                }
                proof {
                    let ghost lhs = Set::new(|q: u64| exists|a: int, b: int| 0 <= a < b < n
                        && (a < i || (a == i && b < n))
                        && q as int == spec_pair_atom(#[trigger] atoms@[a], #[trigger] atoms@[b]));
                    let ghost rhs = Set::new(|q: u64| exists|a: int, b: int| 0 <= a < b < n && a < i + 1
                        && q as int == spec_pair_atom(#[trigger] atoms@[a], #[trigger] atoms@[b]));
                    assert(lhs =~= rhs);
                }
                i = i + 1;
            }
            proof {
                let ghost lhs = Set::new(|q: u64| exists|a: int, b: int| 0 <= a < b < n && a < n
                    && q as int == spec_pair_atom(#[trigger] atoms@[a], #[trigger] atoms@[b]));
                assert(lhs =~= pair_set(atoms@));
            }
        }
    }

    /// The novelty of a state; a novel state is recorded, a state that is not leaves the
    /// table as it was.
    pub fn novelty(&mut self, atoms: &[u32]) -> (r: Option<u8>)
        ensures
            r == spec_novelty(old(self).max(), old(self).seen_atoms(), old(self).seen_pairs(), atoms@),
            final(self).max() == old(self).max(),
            r is Some ==> final(self).seen_atoms() == old(self).seen_atoms().union(atom_set(atoms@)),
            r is Some ==> final(self).seen_pairs() == (if old(self).max() >= 2 {
                old(self).seen_pairs().union(pair_set(atoms@))
            } else {
                old(self).seen_pairs()
            }),
            r is None ==> final(self).seen_atoms() == old(self).seen_atoms(),
            r is None ==> final(self).seen_pairs() == old(self).seen_pairs(),
    {
        let mut k: usize = 0;
        while k < atoms.len()
            invariant
                k <= atoms@.len(),
                self.max_novelty == old(self).max_novelty,
                self.atoms@ == old(self).atoms@,
                self.pairs@ == old(self).pairs@,
                forall|i: int| 0 <= i < k ==> self.atoms@.contains(#[trigger] atoms@[i]),
            decreases atoms@.len() - k,
        {
            if !self.atoms.contains(&atoms[k]) {
                proof {
                    assert(!self.atoms@.contains(atoms@[k as int]));
                }
                self.record(atoms);
                return Some(1);
            }
            k = k + 1;
        }
        if self.max_novelty >= 2 {
            let n = atoms.len();
            let mut i: usize = 0;
            while i < n
                invariant
                    n == atoms@.len(),
                    i <= n,
                    !has_new_atom(self.atoms@, atoms@),
                    self.max_novelty >= 2,
                    self.max_novelty == old(self).max_novelty,
                    self.atoms@ == old(self).atoms@,
                    self.pairs@ == old(self).pairs@,
                    forall|a: int, b: int| 0 <= a < b < n && a < i ==>
                        self.pairs@.contains(spec_pair_atom(#[trigger] atoms@[a], #[trigger] atoms@[b]) as u64),
                decreases n - i,
            {
                let mut j: usize = i + 1;
                while j < n
                    invariant
                        n == atoms@.len(),
                        i < n,
                        i + 1 <= j <= n,
                        !has_new_atom(self.atoms@, atoms@),
                        self.max_novelty >= 2,
                        self.max_novelty == old(self).max_novelty,
                        self.atoms@ == old(self).atoms@,
                        self.pairs@ == old(self).pairs@,
                        forall|a: int, b: int| 0 <= a < b < n && (a < i || (a == i && b < j)) ==>
                            self.pairs@.contains(spec_pair_atom(#[trigger] atoms@[a], #[trigger] atoms@[b]) as u64),
                    decreases n - j,
                {
                    let p = pair_atom(atoms[i], atoms[j]);
                    if !self.pairs.contains(&p) {
                        proof {
                            assert(!self.pairs@.contains(spec_pair_atom(atoms@[i as int], atoms@[j as int]) as u64));
                        }
                        self.record(atoms);
                        return Some(2);
                    }
                    j = j + 1;
                }
                i = i + 1;
            }
        }
        None
    }
}

/// A state whose atoms were just recorded is not novel: every atom and every tracked pair
/// of it has been seen.
pub proof fn law_recorded_state_not_novel(max_novelty: u8, seen_atoms: Set<u32>, seen_pairs: Set<u64>, atoms: Seq<u32>)
    ensures
        spec_novelty(
            max_novelty,
            seen_atoms.union(atom_set(atoms)),
            if max_novelty >= 2 { seen_pairs.union(pair_set(atoms)) } else { seen_pairs },
            atoms,
        ) is None,
{
    let sa = seen_atoms.union(atom_set(atoms));
    assert forall|i: int| 0 <= i < atoms.len() implies sa.contains(#[trigger] atoms[i]) by {
        assert(atoms.contains(atoms[i]));
    }
    if max_novelty >= 2 {
        let sp = seen_pairs.union(pair_set(atoms));
        assert forall|i: int, j: int| 0 <= i < j < atoms.len() implies
            sp.contains(spec_pair_atom(#[trigger] atoms[i], #[trigger] atoms[j]) as u64) by {
            let p = spec_pair_atom(atoms[i], atoms[j]) as u64;
            assert(p as int == spec_pair_atom(atoms[i], atoms[j]));
            assert(pair_set(atoms).contains(p));
        }
    }
}

/// Strictly increasing.
pub open spec fn strictly_increasing(s: Seq<u32>) -> bool {
    forall|i: int, j: int| 0 <= i < j < s.len() ==> #[trigger] s[i] < #[trigger] s[j]
}

/// Inserts `a` into a strictly increasing list unless it is there already.
fn insert_sorted(r: &mut Vec<u32>, a: u32)
    requires
        strictly_increasing(old(r)@),
    ensures
        strictly_increasing(final(r)@),
        atom_set(final(r)@) == atom_set(old(r)@).insert(a),
{
    let mut i: usize = 0;
    while i < r.len() && r[i] < a
        invariant
            i <= r@.len(),
            forall|j: int| 0 <= j < i ==> #[trigger] r@[j] < a,
        decreases r@.len() - i,
    {
        i = i + 1;
    }
    if i < r.len() && r[i] == a {
        proof {
            assert(atom_set(r@) =~= atom_set(r@).insert(a)) by {
                assert(r@.contains(r@[i as int]));
            }
        }
        return;
    }
    let ghost before = r@;
    r.insert(i, a);
    proof {
        before.insert_ensures(i as int, a);
        let after = r@;
        assert forall|p: int, q: int| 0 <= p < q < after.len() implies #[trigger] after[p] < #[trigger] after[q] by {
            if q < i {
            } else if q == i {
            } else if p < i {
                assert(after[q] == before[q - 1]);
                assert(before[p] < before[q - 1] || p == q - 1);
            } else if p == i {
                assert(after[q] == before[q - 1]);
                assert(before[i as int] <= before[q - 1]);
            } else {
                assert(after[p] == before[p - 1]);
                assert(after[q] == before[q - 1]);
            }
        }
        assert(atom_set(after) =~= atom_set(before).insert(a)) by {
            assert forall|b: u32| after.contains(b) implies atom_set(before).insert(a).contains(b) by {
                let k = choose|k: int| 0 <= k < after.len() && after[k] == b;
                if k < i {
                    assert(before.contains(before[k]));
                } else if k > i {
                    assert(after[k] == before[k - 1]);
                    assert(before.contains(before[k - 1]));
                }
            }
            assert forall|b: u32| atom_set(before).insert(a).contains(b) implies after.contains(b) by {
                if b == a {
                    assert(after[i as int] == a);
                } else {
                    let k = choose|k: int| 0 <= k < before.len() && before[k] == b;
                    if k < i {
                        assert(after[k] == b);
                    } else {
                        assert(after[k + 1] == b);
                    }
                }
            }
        }
    }
}

/// The kinds that can move or disappear in play: players, rats, triggers, explosives, webs
/// and planks.
pub open spec fn is_dynamic(k: CellKind) -> bool {
    k == CellKind::Player || is_rat(k) || is_trigger(k) || k == CellKind::Explosive
        || k == CellKind::Spiderweb || k == CellKind::Plank
}

/// The atom for the cell at `(x, y)`: its row-major index times 32 plus its kind's code.
pub open spec fn atom_at(g: Grid, x: int, y: int) -> int {
    (y * g.w() + x) * 32 + spec_cell_kind_code(g.kind_at(x, y)) as int
}

/// The cell at `(x, y)` shows in a state's atoms: it holds a kind that can change in play,
/// or a kind other than the one the base board had there.
pub open spec fn shows_atom(g: Grid, base: Seq<CellKind>, x: int, y: int) -> bool {
    g.in_bounds(x, y) && (is_dynamic(g.kind_at(x, y)) || g.kind_at(x, y) != base[y * g.w() + x])
}

/// The atoms of a state relative to a base board.
pub open spec fn state_atom_set(g: Grid, base: Seq<CellKind>) -> Set<u32> {
    Set::new(|a: u32| exists|x: int, y: int| #[trigger] shows_atom(g, base, x, y) && a as int == atom_at(g, x, y))
}

/// The atoms of a state relative to the base board `base` (the board's kinds in row-major
/// order), increasing and without repeats.
pub fn state_atoms(grid: &Grid, base: &[CellKind]) -> (atoms: Vec<u32>)
    requires
        base@.len() >= grid.w() * grid.h(),
    ensures
        strictly_increasing(atoms@),
        atom_set(atoms@) == state_atom_set(*grid, base@),
{
    let ghost g = *grid;
    let w = grid.width();
    let h = grid.height();
    let mut atoms: Vec<u32> = Vec::new();
    let mut y: usize = 0;
    while y < h
        invariant
            g == *grid,
            w == g.w(),
            h == g.h(),
            w <= MAX_SIDE,
            h <= MAX_SIDE,
            y <= h,
            base@.len() >= w * h,
            strictly_increasing(atoms@),
            atom_set(atoms@) == Set::new(|a: u32| exists|px: int, py: int| #[trigger] shows_atom(g, base@, px, py) && py < y
                && a as int == atom_at(g, px, py)),
        decreases h - y,
    {
        let mut x: usize = 0;
        while x < w
            invariant
                g == *grid,
                w == g.w(),
                h == g.h(),
                w <= MAX_SIDE,
                h <= MAX_SIDE,
                y < h,
                x <= w,
                base@.len() >= w * h,
                strictly_increasing(atoms@),
                atom_set(atoms@) == Set::new(|a: u32| exists|px: int, py: int| #[trigger] shows_atom(g, base@, px, py)
                    && (py < y || (py == y && px < x)) && a as int == atom_at(g, px, py)),
            decreases w - x,
        {
            proof {
                assert(y * w + x < w * h) by (nonlinear_arith)
                    requires y < h, x < w;
                assert(y * w + x < MAX_SIDE * MAX_SIDE) by (nonlinear_arith)
                    requires y < h, x < w, w <= MAX_SIDE, h <= MAX_SIDE;
            }
            let idx = y * w + x;
            let kind = grid.cell_kind_at(x, y);
            let dynamic = kind == CellKind::Player || crate::cells::rat_or_cyborg(kind) || crate::cells::trigger_cell(kind)
                || kind == CellKind::Explosive || kind == CellKind::Spiderweb || kind == CellKind::Plank;
            let ghost before = atoms@;
            if dynamic || kind != base[idx] {
                let a = (idx as u32) * 32 + cell_kind_code(kind);
                proof {
                    assert(a as int == atom_at(g, x as int, y as int));
                    assert(shows_atom(g, base@, x as int, y as int));
                }
                insert_sorted(&mut atoms, a);
            }
            proof {
                let next = Set::new(|a: u32| exists|px: int, py: int| #[trigger] shows_atom(g, base@, px, py)
                    && (py < y || (py == y && px < x + 1)) && a as int == atom_at(g, px, py));
                let prev = Set::new(|a: u32| exists|px: int, py: int| #[trigger] shows_atom(g, base@, px, py)
                    && (py < y || (py == y && px < x)) && a as int == atom_at(g, px, py));
                if shows_atom(g, base@, x as int, y as int) {
                    assert(next =~= prev.insert(atom_at(g, x as int, y as int) as u32)) by {
                        assert forall|a: u32| next.contains(a) implies prev.insert(atom_at(g, x as int, y as int) as u32).contains(a) by {
                            let (px, py) = choose|px: int, py: int| #[trigger] shows_atom(g, base@, px, py)
                                && (py < y || (py == y && px < x + 1)) && a as int == atom_at(g, px, py);
                            if !(py < y || (py == y && px < x)) {
                                assert(px == x && py == y);
                            }
                        }
                    }
                } else {
                    assert(next =~= prev) by {
                        assert forall|a: u32| next.contains(a) implies prev.contains(a) by {
                            let (px, py) = choose|px: int, py: int| #[trigger] shows_atom(g, base@, px, py)
                                && (py < y || (py == y && px < x + 1)) && a as int == atom_at(g, px, py);
                            if !(py < y || (py == y && px < x)) {
                                assert(px == x && py == y);
                            }
                        }
                    }
                }
            }
            x = x + 1;
        }
        proof {
            let lhs = Set::new(|a: u32| exists|px: int, py: int| #[trigger] shows_atom(g, base@, px, py)
                && (py < y || (py == y && px < w)) && a as int == atom_at(g, px, py));
            let rhs = Set::new(|a: u32| exists|px: int, py: int| #[trigger] shows_atom(g, base@, px, py) && py < y + 1
                && a as int == atom_at(g, px, py));
            assert(lhs =~= rhs);
        }
        y = y + 1;
    }
    proof {
        let lhs = Set::new(|a: u32| exists|px: int, py: int| #[trigger] shows_atom(g, base@, px, py) && py < h
            && a as int == atom_at(g, px, py));
        assert(lhs =~= state_atom_set(g, base@));
    }
    atoms
}

/// The kinds of the cells of a board in row-major order.
pub fn base_cell_kinds(grid: &Grid) -> (kinds: Vec<CellKind>)
    ensures
        kinds@.len() == grid.w() * grid.h(),
        forall|x: int, y: int| grid.in_bounds(x, y) ==> #[trigger] kinds@[y * grid.w() + x] == grid.kind_at(x, y),
{
    let w = grid.width();
    let h = grid.height();
    let mut kinds: Vec<CellKind> = Vec::new();
    let mut y: usize = 0;
    while y < h
        invariant
            w == grid.w(),
            h == grid.h(),
            w <= MAX_SIDE,
            h <= MAX_SIDE,
            y <= h,
            kinds@.len() == y * w,
            forall|px: int, py: int| 0 <= px < w && 0 <= py < y ==> #[trigger] kinds@[py * w + px] == grid.kind_at(px, py),
        decreases h - y,
    {
        let mut x: usize = 0;
        while x < w
            invariant
                w == grid.w(),
                h == grid.h(),
                w <= MAX_SIDE,
                h <= MAX_SIDE,
                y < h,
                x <= w,
                kinds@.len() == y * w + x,
                forall|px: int, py: int| 0 <= px < w && 0 <= py < y ==> #[trigger] kinds@[py * w + px] == grid.kind_at(px, py),
                forall|px: int| 0 <= px < x ==> #[trigger] kinds@[y * w + px] == grid.kind_at(px, y as int),
            decreases w - x,
        {
            let ghost before = kinds@;
            kinds.push(grid.cell_kind_at(x, y));
            proof {
                assert forall|px: int, py: int| 0 <= px < w && 0 <= py < y implies #[trigger] kinds@[py * w + px] == grid.kind_at(px, py) by {
                    assert(py * w + px < y * w) by (nonlinear_arith)
                        requires 0 <= px < w, 0 <= py < y;
                    assert(kinds@[py * w + px] == before[py * w + px]);
                }
            }
            x = x + 1;
        }
        proof {
            assert((y + 1) * w == y * w + w) by (nonlinear_arith);
            assert forall|px: int, py: int| 0 <= px < w && 0 <= py < y + 1 implies #[trigger] kinds@[py * w + px] == grid.kind_at(px, py) by {
                if py < y {
                }
            }
        }
        y = y + 1;
    }
    proof {
        assert(h * w == w * h) by (nonlinear_arith);
    }
    kinds
}

} // verus!
