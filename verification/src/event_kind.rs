//! The key that names the kind of an event: the changes in counts, the triggers that went,
//! where webs, explosives, planks and walls went, and the cells a rat left or came to.

use vstd::prelude::*;
use crate::model::{CellKind, Grid, MAX_SIDE};
use crate::cells::CellClass;
use crate::scan::{scan_rows, scan_row, board_points, count_of, class_pred, lemma_board_points_bound};
use crate::nearest::{mask_agrees, build_mask};
use crate::features::{Features, spec_features, count_cyborg_rats};
use crate::keys::{spec_cell_short_name, cell_short_name, mask_points};
use crate::event_keys::{CellChange, change_of, change_pred, changed_count, count_changes, cell_change, spec_signed,
    signed_chars, spec_number_list, number_list};
use crate::text::{spec_decimal, decimal_chars, join, append_part, parts_view, join_parts, string_of};

verus! {

broadcast use Grid::lemma_outside_is_wall;

/// The numbers of the triggers that went below `upto`, in ascending order, each as often as
/// a trigger with it went.
pub open spec fn went_triggers(before: Grid, after: Grid, upto: nat) -> Seq<u8>
    decreases upto,
{
    if upto == 0 {
        Seq::empty()
    } else {
        let n = (upto - 1) as u8;
        went_triggers(before, after, (upto - 1) as nat)
            + Seq::new(changed_count(before, after, CellChange::Trigger(n)), |i: int| n)
    }
}

/// The numbers of the triggers that went, ascending, each as often as it went.
pub fn removed_trigger_list(before: &Grid, after: &Grid) -> (v: Vec<u8>)
    ensures
        v@ == went_triggers(*before, *after, 256),
{
    let mut v: Vec<u8> = Vec::new();
    let mut n: u16 = 0;
    while n < 256
        invariant
            n <= 256,
            v@ == went_triggers(*before, *after, n as nat),
        decreases 256 - n,
    {
        let m = n as u8;
        let c = count_changes(before, after, CellChange::Trigger(m));
        let ghost start = v@;
        let mut k: usize = 0;
        while k < c
            invariant
                k <= c,
                v@ == start + Seq::new(k as nat, |i: int| m),
            decreases c - k,
        {
            v.push(m);
            k = k + 1;
            proof {
                assert(v@ =~= start + Seq::new(k as nat, |i: int| m));
            }
        }
        n = n + 1;
        proof {
            assert(v@ =~= went_triggers(*before, *after, n as nat));
        }
    }
    v
}

/// The points of a board passing `p`, column by column (ascending `x`, then `y`), as the
/// sorted order of `(x, y)` pairs.
pub open spec fn column_points(g: Grid, p: spec_fn(int, int) -> bool) -> Seq<(int, int)> {
    scan_rows(|a: int, b: int| p(b, a), g.h(), g.w()).map_values(|q: (int, int)| (q.1, q.0))
}

/// The points a mask marks, column by column.
pub fn mask_columns(grid: &Grid, mask: &Vec<Vec<bool>>, Ghost(p): Ghost<spec_fn(int, int) -> bool>) -> (pts: Vec<(usize, usize)>)
    requires
        mask_agrees(*grid, mask@, p),
    ensures
        pts@.len() == column_points(*grid, p).len(),
        forall|i: int| 0 <= i < pts@.len() ==>
            (#[trigger] pts@[i].0 as int, pts@[i].1 as int) == column_points(*grid, p)[i],
{
    let ghost g = *grid;
    let ghost t = |a: int, b: int| p(b, a);
    let h = grid.height();
    let w = grid.width();
    let mut out: Vec<(usize, usize)> = Vec::new();
    let mut x: usize = 0;
    while x < w
        invariant
            g == *grid,
            t == (|a: int, b: int| p(b, a)),
            mask_agrees(g, mask@, p),
            h == g.h(),
            w == g.w(),
            x <= w,
            out@.len() == scan_rows(t, h as nat, x as nat).len(),
            forall|i: int| 0 <= i < out@.len() ==>
                (#[trigger] out@[i].1 as int, out@[i].0 as int) == scan_rows(t, h as nat, x as nat)[i],
        decreases w - x,
    {
        let ghost before = out@;
        let mut y: usize = 0;
        while y < h
            invariant
                g == *grid,
                t == (|a: int, b: int| p(b, a)),
                mask_agrees(g, mask@, p),
                h == g.h(),
                w == g.w(),
                x < w,
                y <= h,
                before.len() == scan_rows(t, h as nat, x as nat).len(),
                out@.len() == before.len() + scan_row(t, x as int, y as nat).len(),
                forall|i: int| 0 <= i < before.len() ==> #[trigger] out@[i] == before[i],
                forall|i: int| 0 <= i < before.len() ==>
                    (#[trigger] before[i].1 as int, before[i].0 as int) == scan_rows(t, h as nat, x as nat)[i],
                forall|i: int| 0 <= i < scan_row(t, x as int, y as nat).len() ==>
                    (#[trigger] out@[before.len() + i].1 as int, out@[before.len() + i].0 as int)
                        == scan_row(t, x as int, y as nat)[i],
            decreases h - y,
        {
            proof {
                assert(mask@[y as int]@.len() == w);
                assert(mask@[y as int]@[x as int] == p(x as int, y as int));
            }
            if mask[y][x] {
                out.push((x, y));
            }
            y = y + 1;
            proof {
                let r = scan_row(t, x as int, y as nat);
                let rp = scan_row(t, x as int, (y - 1) as nat);
                assert forall|i: int| 0 <= i < r.len() implies
                    (#[trigger] out@[before.len() + i].1 as int, out@[before.len() + i].0 as int) == r[i] by {
                    if i < rp.len() {
                        assert(r[i] == rp[i]);
                    }
                }
            }
        }
        x = x + 1;
        proof {
            let rs = scan_rows(t, h as nat, x as nat);
            let rsp = scan_rows(t, h as nat, (x - 1) as nat);
            let r = scan_row(t, (x - 1) as int, h as nat);
            assert(rs == rsp + r);
            assert forall|i: int| 0 <= i < out@.len() implies
                (#[trigger] out@[i].1 as int, out@[i].0 as int) == rs[i] by {
                if i < before.len() {
                    assert(out@[i] == before[i]);
                } else {
                    let k = i - before.len();
                    assert(out@[before.len() + k] == out@[i]);
                }
            }
        }
    }
    proof {
        let cp = column_points(g, p);
        let rs = scan_rows(t, h as nat, w as nat);
        assert forall|i: int| 0 <= i < out@.len() implies
            (#[trigger] out@[i].0 as int, out@[i].1 as int) == cp[i] by {
            assert(cp[i] == (rs[i].1, rs[i].0));
        }
    }
    out
}

/// A point as debug output writes a pair: `(x, y)`.
pub open spec fn pair_text(p: (int, int)) -> Seq<char> {
    seq!['('] + spec_decimal(p.0 as nat) + seq![',', ' '] + spec_decimal(p.1 as nat) + seq![')']
}

/// The first four points as debug output writes a list of pairs: `[(x, y), (x, y)]`.
pub open spec fn spec_pair_list(ps: Seq<(int, int)>) -> Seq<char> {
    let shown = if ps.len() < 4 { ps.len() as int } else { 4 };
    seq!['['] + join(ps.take(shown).map_values(|p: (int, int)| pair_text(p)), seq![',', ' ']) + seq![']']
}

/// The first four points as debug output writes a list of pairs.
fn pair_list(ps: &Vec<(usize, usize)>, Ghost(sp): Ghost<Seq<(int, int)>>) -> (v: Vec<char>)
    requires
        ps@.len() == sp.len(),
        forall|i: int| 0 <= i < ps@.len() ==> (#[trigger] ps@[i].0 as int, ps@[i].1 as int) == sp[i],
    ensures
        v@ == spec_pair_list(sp),
{
    let n: usize = if ps.len() < 4 { ps.len() } else { 4 };
    let mut parts: Vec<Vec<char>> = Vec::new();
    let mut i: usize = 0;
    while i < n
        invariant
            n <= ps@.len(),
            n == (if sp.len() < 4 { sp.len() as int } else { 4 }),
            ps@.len() == sp.len(),
            forall|j: int| 0 <= j < ps@.len() ==> (#[trigger] ps@[j].0 as int, ps@[j].1 as int) == sp[j],
            i <= n,
            parts@.len() == i,
            forall|k: int| 0 <= k < i ==> #[trigger] parts@[k]@ == pair_text(sp[k]),
        decreases n - i,
    {
        let (x, y) = ps[i];
        let mut t: Vec<char> = Vec::new();
        t.push('(');
        append_part(&mut t, &decimal_chars(x as u64), &[], true);
        append_part(&mut t, &decimal_chars(y as u64), &[',', ' '], false);
        t.push(')');
        proof {
            assert((ps@[i as int].0 as int, ps@[i as int].1 as int) == sp[i as int]);
            assert(t@ =~= pair_text(sp[i as int]));
        }
        parts.push(t);
        i = i + 1;
    }
    let sep = [',', ' '];
    proof {
        assert(sep@ =~= seq![',', ' ']);
        assert(parts_view(parts@) =~= sp.take(n as int).map_values(|p: (int, int)| pair_text(p)));
    }
    let body = join_parts(&parts, &sep);
    let mut v: Vec<char> = Vec::new();
    v.push('[');
    append_part(&mut v, &body, &[], true);
    v.push(']');
    proof {
        assert(v@ =~= spec_pair_list(sp));
    }
    v
}

/// Where the pieces of one kind went, column by column, as a list of pairs.
fn went_pairs(before: &Grid, after: &Grid, c: CellChange) -> (v: Vec<char>)
    ensures
        v@ == spec_pair_list(column_points(*before, change_pred(*before, *after, c))),
{
    let f = |x: usize, y: usize| -> (b: bool)
        requires
            before.in_bounds(x as int, y as int),
        ensures
            b == change_pred(*before, *after, c)(x as int, y as int),
        {
            cell_change(before.cell_kind_at(x, y), after.cell_kind_at(x, y)) == c
        };
    let m = build_mask(before, f, Ghost(change_pred(*before, *after, c)));
    let ps = mask_columns(before, &m, Ghost(change_pred(*before, *after, c)));
    pair_list(&ps, Ghost(column_points(*before, change_pred(*before, *after, c))))
}

/// How a cell a rat left or came to is written: `x,y:<before>><after>` with the cells'
/// short names.
pub open spec fn rat_change_text(before: Grid, after: Grid, p: (int, int)) -> Seq<char> {
    spec_decimal(p.0 as nat) + seq![','] + spec_decimal(p.1 as nat) + seq![':']
        + spec_cell_short_name(before.kind_at(p.0, p.1)) + seq!['>'] + spec_cell_short_name(after.kind_at(p.0, p.1))
}

/// The texts of the cells a rat left or came to, in row-major order.
pub open spec fn rat_change_texts(before: Grid, after: Grid) -> Seq<Seq<char>> {
    board_points(before, change_pred(before, after, CellChange::Rat)).map_values(|p: (int, int)| rat_change_text(before, after, p))
}

/// `a` comes before `b` in dictionary order of characters.
pub open spec fn lex_lt(a: Seq<char>, b: Seq<char>) -> bool
    decreases a.len(),
{
    if a.len() == 0 {
        b.len() > 0
    } else if b.len() == 0 {
        false
    } else if a[0] != b[0] {
        (a[0] as int) < (b[0] as int)
    } else {
        lex_lt(a.drop_first(), b.drop_first())
    }
}

/// Dictionary order is transitive.
pub proof fn lemma_lex_trans(a: Seq<char>, b: Seq<char>, c: Seq<char>)
    requires
        lex_lt(a, b),
        lex_lt(b, c),
    ensures
        lex_lt(a, c),
    decreases a.len(),
{
    if a.len() > 0 && b.len() > 0 && c.len() > 0 && a[0] == b[0] && b[0] == c[0] {
        lemma_lex_trans(a.drop_first(), b.drop_first(), c.drop_first());
    }
}

/// Dictionary order is total: of two different texts, one comes first.
pub proof fn lemma_lex_total(a: Seq<char>, b: Seq<char>)
    requires
        a != b,
    ensures
        lex_lt(a, b) || lex_lt(b, a),
    decreases a.len(),
{
    if a.len() == 0 && b.len() == 0 {
        assert(a =~= b);
    }
    if a.len() > 0 && b.len() > 0 && a[0] == b[0] {
        if a.drop_first() == b.drop_first() {
            assert(a =~= seq![a[0]] + a.drop_first());
            assert(b =~= seq![b[0]] + b.drop_first());
        }
        lemma_lex_total(a.drop_first(), b.drop_first());
    }
}

/// No text comes before itself.
pub proof fn lemma_lex_irrefl(a: Seq<char>)
    ensures
        !lex_lt(a, a),
    decreases a.len(),
{
    if a.len() > 0 {
        lemma_lex_irrefl(a.drop_first());
    }
}

/// Whether `a` comes before `b` in dictionary order.
fn lex_less(a: &Vec<char>, b: &Vec<char>) -> (r: bool)
    ensures
        r == lex_lt(a@, b@),
{
    let mut i: usize = 0;
    proof {
        assert(a@.subrange(0, a@.len() as int) =~= a@);
        assert(b@.subrange(0, b@.len() as int) =~= b@);
        assert(a@.subrange(0, 0) =~= b@.subrange(0, 0));
    }
    while i < a.len() && i < b.len() && a[i] == b[i]
        invariant
            i <= a@.len(),
            i <= b@.len(),
            a@.subrange(0, i as int) == b@.subrange(0, i as int),
            lex_lt(a@, b@) == lex_lt(a@.subrange(i as int, a@.len() as int), b@.subrange(i as int, b@.len() as int)),
        decreases a@.len() - i,
    {
        proof {
            let sa = a@.subrange(i as int, a@.len() as int);
            let sb = b@.subrange(i as int, b@.len() as int);
            assert(sa.drop_first() =~= a@.subrange(i + 1, a@.len() as int));
            assert(sb.drop_first() =~= b@.subrange(i + 1, b@.len() as int));
            assert(a@.subrange(0, i + 1) =~= a@.subrange(0, i as int).push(a@[i as int]));
            assert(b@.subrange(0, i + 1) =~= b@.subrange(0, i as int).push(b@[i as int]));
        }
        i = i + 1;
    }
    proof {
        let sa = a@.subrange(i as int, a@.len() as int);
        let sb = b@.subrange(i as int, b@.len() as int);
        if i < a@.len() && i < b@.len() {
            assert(sa[0] == a@[i as int]);
            assert(sb[0] == b@[i as int]);
        }
    }
    if i < a.len() && i < b.len() {
        a[i] < b[i]
    } else {
        i == a.len() && i < b.len()
    }
}

/// Texts in dictionary order, equal ones side by side.
pub open spec fn lex_sorted(s: Seq<Seq<char>>) -> bool {
    forall|a: int, b: int| 0 <= a < b < s.len() ==> !lex_lt(#[trigger] s[b], #[trigger] s[a])
}

/// The texts sorted in dictionary order.
fn sort_texts(v: Vec<Vec<char>>) -> (out: Vec<Vec<char>>)
    ensures
        parts_view(out@).to_multiset() == parts_view(v@).to_multiset(),
        lex_sorted(parts_view(out@)),
{
    broadcast use vstd::seq_lib::to_multiset_insert, vstd::seq_lib::to_multiset_build;
    let ghost orig = parts_view(v@);
    let mut rest = v;
    let mut out: Vec<Vec<char>> = Vec::new();
    proof {
        assert(orig.skip(orig.len() as int) =~= Seq::<Seq<char>>::empty());
        assert(parts_view(out@) =~= Seq::<Seq<char>>::empty());
    }
    while rest.len() > 0
        invariant
            rest@.len() <= orig.len(),
            parts_view(rest@) == orig.take(rest@.len() as int),
            parts_view(out@).to_multiset() == orig.skip(rest@.len() as int).to_multiset(),
            lex_sorted(parts_view(out@)),
        decreases rest@.len(),
    {
        let ghost r0 = rest@;
        let item = match rest.pop() {
            Some(t) => t,
            None => Vec::new(),
        };
        proof {
            assert(parts_view(r0)[r0.len() - 1] == item@);
            assert(orig.take(r0.len() as int)[r0.len() - 1] == orig[r0.len() - 1]);
            assert(parts_view(rest@) =~= orig.take(rest@.len() as int));
            assert(orig.skip(rest@.len() as int) =~= orig.skip(r0.len() as int).insert(0, item@));
            vstd::seq_lib::to_multiset_insert(orig.skip(r0.len() as int), 0, item@);
        }
        let mut p: usize = 0;
        while p < out.len() && !lex_less(&item, &out[p])
            invariant
                p <= out@.len(),
                lex_sorted(parts_view(out@)),
                forall|k: int| 0 <= k < p ==> !lex_lt(item@, #[trigger] out@[k]@),
            decreases out@.len() - p,
        {
            p = p + 1;
        }
        let ghost old_out = parts_view(out@);
        let ghost iv = item@;
        proof {
            assert forall|b: int| p <= b < old_out.len() implies lex_lt(iv, #[trigger] old_out[b]) by {
                assert(lex_lt(iv, out@[p as int]@));
                if b > p {
                    if !lex_lt(iv, old_out[b]) {
                        assert(!lex_lt(old_out[b], old_out[p as int]));
                        if old_out[b] == old_out[p as int] {
                        } else {
                            lemma_lex_total(old_out[b], old_out[p as int]);
                            lemma_lex_trans(iv, old_out[p as int], old_out[b]);
                        }
                    }
                }
            }
        }
        out.insert(p, item);
        proof {
            let nv = parts_view(out@);
            assert(nv =~= old_out.insert(p as int, iv));
            vstd::seq_lib::to_multiset_insert(old_out, p as int, iv);
            assert forall|a: int, b: int| 0 <= a < b < nv.len() implies !lex_lt(#[trigger] nv[b], #[trigger] nv[a]) by {
                if a < p && b == p {
                    assert(nv[a] == old_out[a]);
                    assert(!lex_lt(iv, old_out[a]));
                } else if a == p {
                    assert(nv[b] == old_out[b - 1]);
                    assert(lex_lt(iv, old_out[b - 1]));
                    if lex_lt(old_out[b - 1], iv) {
                        lemma_lex_trans(iv, old_out[b - 1], iv);
                        lemma_lex_irrefl(iv);
                    }
                } else if b < p {
                    assert(nv[a] == old_out[a]);
                    assert(nv[b] == old_out[b]);
                } else if a < p {
                    assert(nv[a] == old_out[a]);
                    assert(nv[b] == old_out[b - 1]);
                } else {
                    assert(nv[a] == old_out[a - 1]);
                    assert(nv[b] == old_out[b - 1]);
                }
            }
        }
    }
    proof {
        assert(orig.skip(0) =~= orig);
    }
    out
}

/// The texts as debug output writes a list of strings, the first four only:
/// `["a", "b"]`.
pub open spec fn spec_text_list(ss: Seq<Seq<char>>) -> Seq<char> {
    let shown = if ss.len() < 4 { ss.len() as int } else { 4 };
    seq!['['] + join(ss.take(shown).map_values(|s: Seq<char>| seq!['"'] + s + seq!['"']), seq![',', ' ']) + seq![']']
}

/// The texts of the cells a rat left or came to, in row-major order.
fn rat_change_list(before: &Grid, after: &Grid) -> (v: Vec<Vec<char>>)
    ensures
        parts_view(v@) == rat_change_texts(*before, *after),
{
    let ghost p = change_pred(*before, *after, CellChange::Rat);
    let f = |x: usize, y: usize| -> (b: bool)
        requires
            before.in_bounds(x as int, y as int),
        ensures
            b == change_pred(*before, *after, CellChange::Rat)(x as int, y as int),
        {
            cell_change(before.cell_kind_at(x, y), after.cell_kind_at(x, y)) == CellChange::Rat
        };
    let m = build_mask(before, f, Ghost(p));
    let ps = mask_points(before, &m, Ghost(p));
    let mut v: Vec<Vec<char>> = Vec::new();
    let mut i: usize = 0;
    while i < ps.len()
        invariant
            i <= ps@.len(),
            p == change_pred(*before, *after, CellChange::Rat),
            ps@.len() == board_points(*before, p).len(),
            forall|j: int| 0 <= j < ps@.len() ==>
                (#[trigger] ps@[j].0 as int, ps@[j].1 as int) == board_points(*before, p)[j],
            v@.len() == i,
            forall|k: int| 0 <= k < i ==> #[trigger] v@[k]@ == rat_change_text(*before, *after, board_points(*before, p)[k]),
        decreases ps@.len() - i,
    {
        let (x, y) = ps[i];
        let mut t: Vec<char> = decimal_chars(x as u64);
        append_part(&mut t, &decimal_chars(y as u64), &[','], false);
        t.push(':');
        append_part(&mut t, &cell_short_name(before.cell_kind_at(x, y)), &[], true);
        append_part(&mut t, &cell_short_name(after.cell_kind_at(x, y)), &['>'], false);
        proof {
            let q = board_points(*before, p)[i as int];
            assert((ps@[i as int].0 as int, ps@[i as int].1 as int) == q);
            assert(t@ =~= rat_change_text(*before, *after, q));
        }
        v.push(t);
        i = i + 1;
    }
    proof {
        assert(parts_view(v@) =~= rat_change_texts(*before, *after));
    }
    v
}

/// The texts as debug output writes a list of strings, the first four only.
fn text_list(ss: &Vec<Vec<char>>) -> (v: Vec<char>)
    ensures
        v@ == spec_text_list(parts_view(ss@)),
{
    let n: usize = if ss.len() < 4 { ss.len() } else { 4 };
    let mut parts: Vec<Vec<char>> = Vec::new();
    let mut i: usize = 0;
    while i < n
        invariant
            n <= ss@.len(),
            n == (if ss@.len() < 4 { ss@.len() as int } else { 4 }),
            i <= n,
            parts@.len() == i,
            forall|k: int| 0 <= k < i ==> #[trigger] parts@[k]@ == seq!['"'] + ss@[k]@ + seq!['"'],
        decreases n - i,
    {
        let mut t: Vec<char> = Vec::new();
        t.push('"');
        append_part(&mut t, &ss[i], &[], true);
        t.push('"');
        proof {
            assert(t@ =~= seq!['"'] + ss@[i as int]@ + seq!['"']);
        }
        parts.push(t);
        i = i + 1;
    }
    let sep = [',', ' '];
    proof {
        assert(sep@ =~= seq![',', ' ']);
        assert(parts_view(parts@) =~= parts_view(ss@).take(n as int).map_values(|s: Seq<char>| seq!['"'] + s + seq!['"']));
    }
    let body = join_parts(&parts, &sep);
    let mut v: Vec<char> = Vec::new();
    v.push('[');
    append_part(&mut v, &body, &[], true);
    v.push(']');
    proof {
        assert(v@ =~= spec_text_list(parts_view(ss@)));
    }
    v
}

/// The counting part of the kind key.
pub open spec fn kind_counts(before: Grid, after: Grid) -> Seq<char> {
    let fb = spec_features(before);
    let fa = spec_features(after);
    seq!['d', 'r'] + spec_signed(fb.rats - fa.rats)
        + seq![':', 'd', 'c'] + spec_signed(count_of(before, CellClass::Exactly(CellKind::CyborgRat)) - count_of(after, CellClass::Exactly(CellKind::CyborgRat)))
        + seq![':', 'd', 'x'] + spec_signed(fb.explosives - fa.explosives)
        + seq![':', 'd', 'w'] + spec_signed(fb.webs - fa.webs)
        + seq![':', 'd', 't'] + spec_signed(fb.triggers - fa.triggers)
}

/// The key of the kind of the event from `before` to `after`: the changes in rats, cyborg
/// rats, explosives, webs and triggers; the numbers of the triggers that went; where webs,
/// explosives, planks and walls went (the first four of each, column by column); and the
/// first four, in dictionary order, of the cells a rat left or came to (given in `rats`):
/// `dr<d>:dc<d>:dx<d>:dw<d>:dt<d>:trig[..]:web[..]:exp[..]:plank[..]:wall[..]:rat[..]`.
pub open spec fn spec_event_kind_key(before: Grid, after: Grid, rats: Seq<Seq<char>>) -> Seq<char> {
    kind_counts(before, after)
        + seq![':', 't', 'r', 'i', 'g'] + spec_number_list(went_triggers(before, after, 256))
        + seq![':', 'w', 'e', 'b'] + spec_pair_list(column_points(before, change_pred(before, after, CellChange::Web)))
        + seq![':', 'e', 'x', 'p'] + spec_pair_list(column_points(before, change_pred(before, after, CellChange::Explosive)))
        + seq![':', 'p', 'l', 'a', 'n', 'k'] + spec_pair_list(column_points(before, change_pred(before, after, CellChange::Plank)))
        + seq![':', 'w', 'a', 'l', 'l'] + spec_pair_list(column_points(before, change_pred(before, after, CellChange::Wall)))
        + seq![':', 'r', 'a', 't'] + spec_text_list(rats)
}

/// The difference of two counts of a board's cells.
fn difference(a: usize, b: usize) -> (d: i64)
    requires
        a <= MAX_SIDE * MAX_SIDE,
        b <= MAX_SIDE * MAX_SIDE,
    ensures
        d == a - b,
{
    a as i64 - b as i64
}

/// The counting part of the kind key.
fn kind_counts_chars(before: &Grid, after: &Grid) -> (k: Vec<char>)
    ensures
        k@ == kind_counts(*before, *after),
{
    let fb = Features::from_grid(before);
    let fa = Features::from_grid(after);
    let cb = count_cyborg_rats(before);
    let ca = count_cyborg_rats(after);
    before.note_size_limit();
    after.note_size_limit();
    proof {
        lemma_board_points_bound(*before, class_pred(*before, CellClass::Exactly(CellKind::CyborgRat)));
        lemma_board_points_bound(*after, class_pred(*after, CellClass::Exactly(CellKind::CyborgRat)));
    }
    let mut k: Vec<char> = Vec::new();
    append_part(&mut k, &signed_chars(difference(fb.rats, fa.rats)), &['d', 'r'], false);
    append_part(&mut k, &signed_chars(difference(cb, ca)), &[':', 'd', 'c'], false);
    append_part(&mut k, &signed_chars(difference(fb.explosives, fa.explosives)), &[':', 'd', 'x'], false);
    append_part(&mut k, &signed_chars(difference(fb.webs, fa.webs)), &[':', 'd', 'w'], false);
    append_part(&mut k, &signed_chars(difference(fb.triggers, fa.triggers)), &[':', 'd', 't'], false);
    proof {
        assert(k@ =~= kind_counts(*before, *after));
    }
    k
}

/// The key of the kind of the event from `before` to `after`.
pub fn event_kind_key(before: &Grid, after: &Grid) -> (key: String)
    ensures
        exists|rats: Seq<Seq<char>>| {
            &&& lex_sorted(rats)
            &&& rats.to_multiset() == rat_change_texts(*before, *after).to_multiset()
            &&& key@ == spec_event_kind_key(*before, *after, rats)
        },
{
    let mut k = kind_counts_chars(before, after);
    append_part(&mut k, &number_list(&removed_trigger_list(before, after)), &[':', 't', 'r', 'i', 'g'], false);
    append_part(&mut k, &went_pairs(before, after, CellChange::Web), &[':', 'w', 'e', 'b'], false);
    append_part(&mut k, &went_pairs(before, after, CellChange::Explosive), &[':', 'e', 'x', 'p'], false);
    append_part(&mut k, &went_pairs(before, after, CellChange::Plank), &[':', 'p', 'l', 'a', 'n', 'k'], false);
    append_part(&mut k, &went_pairs(before, after, CellChange::Wall), &[':', 'w', 'a', 'l', 'l'], false);
    let rats = sort_texts(rat_change_list(before, after));
    append_part(&mut k, &text_list(&rats), &[':', 'r', 'a', 't'], false);
    proof {
        assert(k@ =~= spec_event_kind_key(*before, *after, parts_view(rats@)));
    }
    string_of(&k)
}

} // verus!
