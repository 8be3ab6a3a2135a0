//! Text keys that tell boards apart: where the pieces of a class stand, and the key by
//! which a beam keeps its branches diverse.

use vstd::prelude::*;
use crate::model::{CellKind, Grid, MAX_SIDE};
use crate::cells::{CellClass, is_rat};
use crate::scan::{positions_of, positions_matching_usize, board_points, scan_rows, scan_row, class_pred};
use crate::nearest::{mask_agrees, class_mask, unreachable_pred, unreachable_mask, build_mask};
use crate::reach::{player_dist_map, is_player_dist_map};
use crate::reachability::{trapped_rat_pred, component_has_local_rat_death};
use crate::features::{Features, spec_features};
use crate::text::{spec_decimal, decimal_chars, join, append_part, parts_view, join_parts, string_of};

verus! {

/// A point written as `x,y`.
pub open spec fn point_text(p: (int, int)) -> Seq<char> {
    spec_decimal(p.0 as nat) + seq![','] + spec_decimal(p.1 as nat)
}

/// The positions of the cells of class `c`, in row-major order, each written as `x,y`
/// and joined by `;`.
pub open spec fn spec_positions_key(g: Grid, c: CellClass) -> Seq<char> {
    join(positions_of(g, c).map_values(|p: (int, int)| point_text(p)), seq![';'])
}

/// The positions of the cells of class `class`, written as `x,y` and joined by `;`.
pub fn positions_key(grid: &Grid, class: CellClass) -> (key: Vec<char>)
    ensures
        key@ == spec_positions_key(*grid, class),
{
    let ps = positions_matching_usize(grid, class);
    let mut parts: Vec<Vec<char>> = Vec::new();
    let mut i: usize = 0;
    while i < ps.len()
        invariant
            i <= ps@.len(),
            ps@.len() == positions_of(*grid, class).len(),
            forall|j: int| 0 <= j < ps@.len() ==>
                (#[trigger] ps@[j].0 as int, ps@[j].1 as int) == positions_of(*grid, class)[j],
            parts@.len() == i,
            forall|k: int| 0 <= k < i ==> #[trigger] parts@[k]@ == point_text(positions_of(*grid, class)[k]),
        decreases ps@.len() - i,
    {
        let (x, y) = ps[i];
        let mut t: Vec<char> = decimal_chars(x as u64);
        let comma = [','];
        append_part(&mut t, &decimal_chars(y as u64), &comma, false);
        proof {
            assert(comma@ =~= seq![',']);
            let p = positions_of(*grid, class)[i as int];
            assert((ps@[i as int].0 as int, ps@[i as int].1 as int) == p);
            assert(t@ =~= point_text(p));
        }
        parts.push(t);
        i = i + 1;
    }
    let semi = [';'];
    proof {
        assert(semi@ =~= seq![';']);
        assert(parts_view(parts@) =~= positions_of(*grid, class).map_values(|p: (int, int)| point_text(p)));
    }
    join_parts(&parts, &semi)
}

/// The key by which a beam keeps its branches diverse: the counts of rats, explosives,
/// webs, triggers and planks, then where the rats, players, explosives, triggers, webs and
/// planks stand, as `r<rats>:x<explosives>:w<webs>:t<triggers>:p<planks>:` followed by
/// the six position keys separated by `:`.
pub open spec fn spec_diversity_key(g: Grid) -> Seq<char> {
    let f = spec_features(g);
    seq!['r'] + spec_decimal(f.rats as nat)
        + seq![':', 'x'] + spec_decimal(f.explosives as nat)
        + seq![':', 'w'] + spec_decimal(f.webs as nat)
        + seq![':', 't'] + spec_decimal(f.triggers as nat)
        + seq![':', 'p'] + spec_decimal(f.planks as nat)
        + seq![':'] + spec_positions_key(g, CellClass::RatOrCyborg)
        + seq![':'] + spec_positions_key(g, CellClass::Exactly(CellKind::Player))
        + seq![':'] + spec_positions_key(g, CellClass::Exactly(CellKind::Explosive))
        + seq![':'] + spec_positions_key(g, CellClass::AnyTrigger)
        + seq![':'] + spec_positions_key(g, CellClass::Exactly(CellKind::Spiderweb))
        + seq![':'] + spec_positions_key(g, CellClass::Exactly(CellKind::Plank))
}

/// Appends `tag` and then `part` to `acc`.
fn push_tagged(acc: &mut Vec<char>, tag: &[char], part: &[char])
    ensures
        final(acc)@ == old(acc)@ + tag@ + part@,
{
    append_part(acc, part, tag, false);
}

/// The diversity key of a board.
pub fn dropchain_diversity_key(grid: &Grid) -> (key: String)
    ensures
        key@ == spec_diversity_key(*grid),
{
    let f = Features::from_grid(grid);
    let mut k: Vec<char> = Vec::new();
    push_tagged(&mut k, &['r'], &decimal_chars(f.rats as u64));
    push_tagged(&mut k, &[':', 'x'], &decimal_chars(f.explosives as u64));
    push_tagged(&mut k, &[':', 'w'], &decimal_chars(f.webs as u64));
    push_tagged(&mut k, &[':', 't'], &decimal_chars(f.triggers as u64));
    push_tagged(&mut k, &[':', 'p'], &decimal_chars(f.planks as u64));
    push_tagged(&mut k, &[':'], &positions_key(grid, CellClass::RatOrCyborg));
    push_tagged(&mut k, &[':'], &positions_key(grid, CellClass::Exactly(CellKind::Player)));
    push_tagged(&mut k, &[':'], &positions_key(grid, CellClass::Exactly(CellKind::Explosive)));
    push_tagged(&mut k, &[':'], &positions_key(grid, CellClass::AnyTrigger));
    push_tagged(&mut k, &[':'], &positions_key(grid, CellClass::Exactly(CellKind::Spiderweb)));
    push_tagged(&mut k, &[':'], &positions_key(grid, CellClass::Exactly(CellKind::Plank)));
    proof {
        assert(k@ =~= spec_diversity_key(*grid));
    }
    string_of(&k)
}

/// How many of `len` listed points a key shows when it stops at `limit`: the first one is
/// always shown, and no more than `limit` after it.
pub open spec fn shown(len: nat, limit: nat) -> nat {
    if len == 0 { 0 } else if limit == 0 { 1 } else if len < limit { len } else { limit }
}

/// The first points of `ps` that a key stopping at `limit` shows, each written as `x,y`
/// and joined by `;`.
pub open spec fn capped_key(ps: Seq<(int, int)>, limit: nat) -> Seq<char> {
    join(ps.take(shown(ps.len(), limit) as int).map_values(|p: (int, int)| point_text(p)), seq![';'])
}

/// The points of the board that a mask marks, in row-major order.
pub fn mask_points(grid: &Grid, mask: &Vec<Vec<bool>>, Ghost(p): Ghost<spec_fn(int, int) -> bool>) -> (pts: Vec<(usize, usize)>)
    requires
        mask_agrees(*grid, mask@, p),
    ensures
        pts@.len() == board_points(*grid, p).len(),
        forall|i: int| 0 <= i < pts@.len() ==>
            (#[trigger] pts@[i].0 as int, pts@[i].1 as int) == board_points(*grid, p)[i],
{
    let ghost g = *grid;
    let h = grid.height();
    let w = grid.width();
    let mut out: Vec<(usize, usize)> = Vec::new();
    let mut y: usize = 0;
    while y < h
        invariant
            g == *grid,
            mask_agrees(g, mask@, p),
            h == g.h(),
            w == g.w(),
            y <= h,
            out@.len() == scan_rows(p, w as nat, y as nat).len(),
            forall|i: int| 0 <= i < out@.len() ==>
                (#[trigger] out@[i].0 as int, out@[i].1 as int) == scan_rows(p, w as nat, y as nat)[i],
        decreases h - y,
    {
        let ghost before = out@;
        let mut x: usize = 0;
        while x < w
            invariant
                g == *grid,
                mask_agrees(g, mask@, p),
                h == g.h(),
                w == g.w(),
                y < h,
                x <= w,
                before.len() == scan_rows(p, w as nat, y as nat).len(),
                out@.len() == before.len() + scan_row(p, y as int, x as nat).len(),
                forall|i: int| 0 <= i < before.len() ==> #[trigger] out@[i] == before[i],
                forall|i: int| 0 <= i < before.len() ==>
                    (#[trigger] before[i].0 as int, before[i].1 as int) == scan_rows(p, w as nat, y as nat)[i],
                forall|i: int| 0 <= i < scan_row(p, y as int, x as nat).len() ==>
                    (#[trigger] out@[before.len() + i].0 as int, out@[before.len() + i].1 as int)
                        == scan_row(p, y as int, x as nat)[i],
            decreases w - x,
        {
            proof {
                assert(mask@[y as int]@.len() == w);
                assert(mask@[y as int]@[x as int] == p(x as int, y as int));
            }
            if mask[y][x] {
                out.push((x, y));
            }
            x = x + 1;
            proof {
                let r = scan_row(p, y as int, x as nat);
                let rp = scan_row(p, y as int, (x - 1) as nat);
                assert forall|i: int| 0 <= i < r.len() implies
                    (#[trigger] out@[before.len() + i].0 as int, out@[before.len() + i].1 as int) == r[i] by {
                    if i < rp.len() {
                        assert(r[i] == rp[i]);
                    }
                }
            }
        }
        y = y + 1;
        proof {
            let rs = scan_rows(p, w as nat, y as nat);
            let rsp = scan_rows(p, w as nat, (y - 1) as nat);
            let r = scan_row(p, (y - 1) as int, w as nat);
            assert(rs == rsp + r);
            assert forall|i: int| 0 <= i < out@.len() implies
                (#[trigger] out@[i].0 as int, out@[i].1 as int) == rs[i] by {
                if i < before.len() {
                    assert(out@[i] == before[i]);
                } else {
                    let k = i - before.len();
                    assert(out@[before.len() + k] == out@[i]);
                }
            }
        }
    }
    out
}

/// The first points of `pts` that a key stopping at `limit` shows, written as `x,y` and
/// joined by `;`.
fn points_key(pts: &Vec<(usize, usize)>, limit: usize, Ghost(ps): Ghost<Seq<(int, int)>>) -> (key: Vec<char>)
    requires
        pts@.len() == ps.len(),
        forall|i: int| 0 <= i < pts@.len() ==> (#[trigger] pts@[i].0 as int, pts@[i].1 as int) == ps[i],
    ensures
        key@ == capped_key(ps, limit as nat),
{
    let n: usize = if pts.len() == 0 { 0 } else if limit == 0 { 1 } else if pts.len() < limit { pts.len() } else { limit };
    let mut parts: Vec<Vec<char>> = Vec::new();
    let mut i: usize = 0;
    while i < n
        invariant
            n <= pts@.len(),
            n == shown(ps.len(), limit as nat),
            pts@.len() == ps.len(),
            forall|j: int| 0 <= j < pts@.len() ==> (#[trigger] pts@[j].0 as int, pts@[j].1 as int) == ps[j],
            i <= n,
            parts@.len() == i,
            forall|k: int| 0 <= k < i ==> #[trigger] parts@[k]@ == point_text(ps[k]),
        decreases n - i,
    {
        let (x, y) = pts[i];
        let mut t: Vec<char> = decimal_chars(x as u64);
        let comma = [','];
        append_part(&mut t, &decimal_chars(y as u64), &comma, false);
        proof {
            assert(comma@ =~= seq![',']);
            assert((pts@[i as int].0 as int, pts@[i as int].1 as int) == ps[i as int]);
            assert(t@ =~= point_text(ps[i as int]));
        }
        parts.push(t);
        i = i + 1;
    }
    let semi = [';'];
    proof {
        assert(semi@ =~= seq![';']);
        assert(parts_view(parts@) =~= ps.take(n as int).map_values(|p: (int, int)| point_text(p)));
    }
    join_parts(&parts, &semi)
}

/// The positions of the cells of class `class` in row-major order, as a key that shows the
/// first of them always and no more than `limit`.
pub fn limited_positions_key(grid: &Grid, class: CellClass, limit: usize) -> (key: Vec<char>)
    ensures
        key@ == capped_key(positions_of(*grid, class), limit as nat),
{
    let m = class_mask(grid, class);
    let pts = mask_points(grid, &m, Ghost(class_pred(*grid, class)));
    points_key(&pts, limit, Ghost(positions_of(*grid, class)))
}

/// The rats no player can walk to, or, with `trapped_only`, those of them that cannot step to
/// an explosive or a black hole either.
pub open spec fn unreachable_rat_pred(g: Grid, trapped_only: bool) -> spec_fn(int, int) -> bool {
    if trapped_only { trapped_rat_pred(g) } else { unreachable_pred(g, CellClass::RatOrCyborg) }
}

/// The positions of the rats no player can walk to (with `trapped_only`, of the trapped
/// ones), in row-major order, as a key that shows the first of them always and no more than
/// `limit`.
pub fn unreachable_rat_positions_key(grid: &Grid, trapped_only: bool, limit: usize) -> (key: Vec<char>)
    ensures
        key@ == capped_key(board_points(*grid, unreachable_rat_pred(*grid, trapped_only)), limit as nat),
{
    let dist = player_dist_map(grid);
    let ghost p = unreachable_rat_pred(*grid, trapped_only);
    let m = if trapped_only {
        let f = |x: usize, y: usize| -> (b: bool)
            requires
                grid.in_bounds(x as int, y as int),
            ensures
                b == trapped_rat_pred(*grid)(x as int, y as int),
            {
                proof {
                    assert(dist@[y as int]@.len() == grid.w());
                }
                crate::cells::rat_or_cyborg(grid.cell_kind_at(x, y)) && dist[y][x] == i32::MAX
                    && !component_has_local_rat_death(grid, (x, y))
            };
        build_mask(grid, f, Ghost(trapped_rat_pred(*grid)))
    } else {
        unreachable_mask(grid, &dist, CellClass::RatOrCyborg)
    };
    let pts = mask_points(grid, &m, Ghost(p));
    points_key(&pts, limit, Ghost(board_points(*grid, p)))
}

/// The short name of a kind of cell: its board symbol, and `T` with the number for a trigger.
pub open spec fn spec_cell_short_name(k: CellKind) -> Seq<char> {
    match k {
        CellKind::Empty => seq!['.'],
        CellKind::Wall => seq!['#'],
        CellKind::Player => seq!['P'],
        CellKind::Rat => seq!['R'],
        CellKind::CyborgRat => seq!['C'],
        CellKind::Plank => seq!['='],
        CellKind::Spiderweb => seq!['w'],
        CellKind::BlackHole => seq!['O'],
        CellKind::Explosive => seq!['X'],
        CellKind::Trigger(n) => seq!['T'] + spec_decimal(n as nat),
    }
}

/// The short name of a kind of cell.
pub fn cell_short_name(cell: CellKind) -> (name: Vec<char>)
    ensures
        name@ == spec_cell_short_name(cell),
{
    let mut v: Vec<char> = Vec::new();
    match cell {
        CellKind::Empty => v.push('.'),
        CellKind::Wall => v.push('#'),
        CellKind::Player => v.push('P'),
        CellKind::Rat => v.push('R'),
        CellKind::CyborgRat => v.push('C'),
        CellKind::Plank => v.push('='),
        CellKind::Spiderweb => v.push('w'),
        CellKind::BlackHole => v.push('O'),
        CellKind::Explosive => v.push('X'),
        CellKind::Trigger(n) => {
            v.push('T');
            append_part(&mut v, &decimal_chars(n as u64), &[], true);
        },
    }
    proof {
        assert(v@ =~= spec_cell_short_name(cell));
    }
    v
}

} // verus!
