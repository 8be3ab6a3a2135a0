//! The bucket key by which the frontier search spreads its frontier over kinds of boards:
//! counts of what is left and what the players reach, where triggers, webs and stranded
//! rats stand, and, on the rectangle level, how far its plan has come.

use vstd::prelude::*;
use crate::model::{CellKind, Grid, MAX_SIDE};
use crate::cells::CellClass;
use crate::scan::{count_of, positions_of, board_points, count_matching, lemma_board_points_bound, class_pred};
use crate::features::{Features, spec_features, count_cyborg_rats};
use crate::reachability::{reachable_count_of, reachable_rat_count, reachable_trigger_count, trapped_rat_pred,
    trapped_unreachable_rat_count, player_reachable_cell_count};
use crate::reach::walkable_from_player;
use crate::keys::{spec_positions_key, positions_key, capped_key, limited_positions_key, unreachable_rat_pred,
    unreachable_rat_positions_key};
use crate::geometry::{spec_nearest_pair, nearest_pair_distance, spec_rectangle_lower_rat_targets,
    spec_rectangle_lower_safe_targets, rectangle_lower_rat_targets, rectangle_lower_safe_targets};
use crate::lure::{class_points, class_points_exec};
use crate::queries::{spec_rectangle_lower_separated, rectangle_lower_separated, spec_rectangle_lower_ignition_ready,
    rectangle_lower_ignition_ready};
use crate::text::{spec_decimal, decimal_chars, append_part, string_of};

verus! {

/// The smaller of `a` and `b`.
pub open spec fn min_of2(a: int, b: int) -> int {
    if a <= b { a } else { b }
}

/// `0` or `1` for a flag.
pub open spec fn flag_digit(b: bool) -> Seq<char> {
    if b { seq!['1'] } else { seq!['0'] }
}

/// The rectangle level's part of the bucket key, on boards 17 wide and 9 high: where the
/// players stand, the first four rats from row 3 down, the distances (at most 20) from those
/// rats to the trap cells and from the players to the safe cells, and whether the rat is
/// separated and the trap ready to ignite (`win_ready` tells whether one turn can win):
/// `rect:p[..]:lower[..]:ld<n>:sd<n>:sep<0|1>:ign<0|1>`.
pub open spec fn spec_rectangle_fess_bucket_key(g: Grid, win_ready: bool) -> Option<Seq<char>> {
    if g.w() != 17 || g.h() != 9 {
        None
    } else {
        Some(seq!['r', 'e', 'c', 't', ':', 'p', '['] + spec_positions_key(g, CellClass::Exactly(CellKind::Player))
            + seq![']', ':', 'l', 'o', 'w', 'e', 'r', '['] + capped_key(positions_of(g, CellClass::LowRat), 4)
            + seq![']', ':', 'l', 'd'] + spec_decimal(min_of2(spec_nearest_pair(class_points(g, CellClass::LowRat),
                spec_rectangle_lower_rat_targets()), 20) as nat)
            + seq![':', 's', 'd'] + spec_decimal(min_of2(spec_nearest_pair(class_points(g, CellClass::Exactly(CellKind::Player)),
                spec_rectangle_lower_safe_targets()), 20) as nat)
            + seq![':', 's', 'e', 'p'] + flag_digit(spec_rectangle_lower_separated(g, win_ready))
            + seq![':', 'i', 'g', 'n'] + flag_digit(spec_rectangle_lower_ignition_ready(g, win_ready)))
    }
}

/// `0` or `1` for a flag.
fn flag_chars(b: bool) -> (v: Vec<char>)
    ensures
        v@ == flag_digit(b),
{
    let mut v: Vec<char> = Vec::new();
    v.push(if b { '1' } else { '0' });
    proof {
        assert(v@ =~= flag_digit(b));
    }
    v
}

/// The rectangle level's part of the bucket key; `None` on other boards.
pub fn rectangle_fess_bucket_key(grid: &Grid, win_ready: bool) -> (key: Option<Vec<char>>)
    ensures
        match key {
            Some(k) => spec_rectangle_fess_bucket_key(*grid, win_ready) == Some(k@),
            None => spec_rectangle_fess_bucket_key(*grid, win_ready) is None,
        },
{
    if grid.width() != 17 || grid.height() != 9 {
        return None;
    }
    let lower = class_points_exec(grid, CellClass::LowRat);
    let players = class_points_exec(grid, CellClass::Exactly(CellKind::Player));
    let rat_targets = rectangle_lower_rat_targets();
    let safe_targets = rectangle_lower_safe_targets();
    let ld0 = nearest_pair_distance(lower.as_slice(), &rat_targets);
    let sd0 = nearest_pair_distance(players.as_slice(), &safe_targets);
    let ld: i64 = if ld0 <= 20 { ld0 } else { 20 };
    let sd: i64 = if sd0 <= 20 { sd0 } else { 20 };
    let mut k: Vec<char> = Vec::new();
    append_part(&mut k, &positions_key(grid, CellClass::Exactly(CellKind::Player)), &['r', 'e', 'c', 't', ':', 'p', '['], false);
    append_part(&mut k, &limited_positions_key(grid, CellClass::LowRat, 4), &[']', ':', 'l', 'o', 'w', 'e', 'r', '['], false);
    append_part(&mut k, &decimal_chars(ld as u64), &[']', ':', 'l', 'd'], false);
    append_part(&mut k, &decimal_chars(sd as u64), &[':', 's', 'd'], false);
    append_part(&mut k, &flag_chars(rectangle_lower_separated(grid, win_ready)), &[':', 's', 'e', 'p'], false);
    append_part(&mut k, &flag_chars(rectangle_lower_ignition_ready(grid, win_ready)), &[':', 'i', 'g', 'n'], false);
    proof {
        assert(rat_targets@ =~= spec_rectangle_lower_rat_targets());
        assert(safe_targets@ =~= spec_rectangle_lower_safe_targets());
        assert(k@ =~= spec_rectangle_fess_bucket_key(*grid, win_ready)->0);
    }
    Some(k)
}

/// The counting part of the bucket key: rats, rats the players reach, rats they do not,
/// trapped rats, explosives (at most 20), half the webs (at most 60 counted), triggers,
/// triggers the players reach, planks (at most 20), the cells the players reach in eights,
/// and cyborg rats: `r<n>:rr<n>:ur<n>:tr<n>:x<n>:w<n>:t<n>:rt<n>:p<n>:cells<n>:cy<n>`.
pub open spec fn bucket_counts(g: Grid) -> Seq<char> {
    counts_head(g) + counts_tail(g)
}

/// The rats part of the counting part.
pub open spec fn counts_head(g: Grid) -> Seq<char> {
    let f = spec_features(g);
    let rr = reachable_count_of(g, CellClass::RatOrCyborg);
    seq!['r'] + spec_decimal(f.rats as nat)
        + seq![':', 'r', 'r'] + spec_decimal(rr)
        + seq![':', 'u', 'r'] + spec_decimal(if f.rats >= rr { (f.rats - rr) as nat } else { 0 })
        + seq![':', 't', 'r'] + spec_decimal(board_points(g, trapped_rat_pred(g)).len())
}

/// The rest of the counting part.
pub open spec fn counts_tail(g: Grid) -> Seq<char> {
    let f = spec_features(g);
    seq![':', 'x'] + spec_decimal(min_of2(f.explosives as int, 20) as nat)
        + seq![':', 'w'] + spec_decimal((min_of2(f.webs as int, 60) / 2) as nat)
        + seq![':', 't'] + spec_decimal(f.triggers as nat)
        + seq![':', 'r', 't'] + spec_decimal(reachable_count_of(g, CellClass::AnyTrigger))
        + seq![':', 'p'] + spec_decimal(min_of2(f.planks as int, 20) as nat)
        + seq![':', 'c', 'e', 'l', 'l', 's'] + spec_decimal(reachable_count_of(g, CellClass::AnyCell) / 8)
        + seq![':', 'c', 'y'] + spec_decimal(count_of(g, CellClass::Exactly(CellKind::CyborgRat)))
}

/// The bucket key of a board: the counting part, where the triggers (first 16), the rats out
/// of reach (first 6), the trapped rats (first 6) and the webs (first 16) stand, and on the
/// rectangle level its part after a `:`:
/// `<counts>:tp[..]:urpos[..]:trap[..]:wpos[..]`.
pub open spec fn spec_feature_bucket_key(g: Grid, win_ready: bool) -> Seq<char> {
    let base = bucket_counts(g)
        + seq![':', 't', 'p', '['] + capped_key(positions_of(g, CellClass::AnyTrigger), 16)
        + seq![']', ':', 'u', 'r', 'p', 'o', 's', '['] + capped_key(board_points(g, unreachable_rat_pred(g, false)), 6)
        + seq![']', ':', 't', 'r', 'a', 'p', '['] + capped_key(board_points(g, unreachable_rat_pred(g, true)), 6)
        + seq![']', ':', 'w', 'p', 'o', 's', '['] + capped_key(positions_of(g, CellClass::Exactly(CellKind::Spiderweb)), 16)
        + seq![']'];
    match spec_rectangle_fess_bucket_key(g, win_ready) {
        Some(r) => base + seq![':'] + r,
        None => base,
    }
}

/// The rats part of the counting part.
fn counts_head_chars(grid: &Grid) -> (k: Vec<char>)
    ensures
        k@ == counts_head(*grid),
{
    let f = Features::from_grid(grid);
    let rr = reachable_rat_count(grid);
    let ur: usize = if f.rats >= rr { f.rats - rr } else { 0 };
    let mut k: Vec<char> = Vec::new();
    append_part(&mut k, &decimal_chars(f.rats as u64), &['r'], false);
    append_part(&mut k, &decimal_chars(rr as u64), &[':', 'r', 'r'], false);
    append_part(&mut k, &decimal_chars(ur as u64), &[':', 'u', 'r'], false);
    append_part(&mut k, &decimal_chars(trapped_unreachable_rat_count(grid) as u64), &[':', 't', 'r'], false);
    proof {
        assert(k@ =~= counts_head(*grid));
    }
    k
}

/// The rest of the counting part.
fn counts_tail_chars(grid: &Grid) -> (k: Vec<char>)
    ensures
        k@ == counts_tail(*grid),
{
    let f = Features::from_grid(grid);
    let x: usize = if f.explosives <= 20 { f.explosives } else { 20 };
    let w: usize = (if f.webs <= 60 { f.webs } else { 60 }) / 2;
    let p: usize = if f.planks <= 20 { f.planks } else { 20 };
    let mut k: Vec<char> = Vec::new();
    append_part(&mut k, &decimal_chars(x as u64), &[':', 'x'], false);
    append_part(&mut k, &decimal_chars(w as u64), &[':', 'w'], false);
    append_part(&mut k, &decimal_chars(f.triggers as u64), &[':', 't'], false);
    append_part(&mut k, &decimal_chars(reachable_trigger_count(grid) as u64), &[':', 'r', 't'], false);
    append_part(&mut k, &decimal_chars(p as u64), &[':', 'p'], false);
    append_part(&mut k, &decimal_chars((player_reachable_cell_count(grid) / 8) as u64), &[':', 'c', 'e', 'l', 'l', 's'], false);
    append_part(&mut k, &decimal_chars(count_cyborg_rats(grid) as u64), &[':', 'c', 'y'], false);
    proof {
        assert(k@ =~= counts_tail(*grid));
    }
    k
}

/// The counting part of the bucket key.
fn bucket_counts_chars(grid: &Grid) -> (k: Vec<char>)
    ensures
        k@ == bucket_counts(*grid),
{
    let mut k = counts_head_chars(grid);
    append_part(&mut k, &counts_tail_chars(grid), &[], true);
    k
}

/// The bucket key of a board; `win_ready` tells whether one turn can win from it.
pub fn feature_bucket_key(grid: &Grid, win_ready: bool) -> (key: String)
    ensures
        key@ == spec_feature_bucket_key(*grid, win_ready),
{
    let mut k = bucket_counts_chars(grid);
    append_part(&mut k, &limited_positions_key(grid, CellClass::AnyTrigger, 16), &[':', 't', 'p', '['], false);
    append_part(&mut k, &unreachable_rat_positions_key(grid, false, 6), &[']', ':', 'u', 'r', 'p', 'o', 's', '['], false);
    append_part(&mut k, &unreachable_rat_positions_key(grid, true, 6), &[']', ':', 't', 'r', 'a', 'p', '['], false);
    append_part(&mut k, &limited_positions_key(grid, CellClass::Exactly(CellKind::Spiderweb), 16), &[']', ':', 'w', 'p', 'o', 's', '['], false);
    k.push(']');
    match rectangle_fess_bucket_key(grid, win_ready) {
        Some(r) => {
            append_part(&mut k, &r, &[':'], false);
        },
        None => {},
    }
    proof {
        assert(k@ =~= spec_feature_bucket_key(*grid, win_ready));
    }
    string_of(&k)
}

/// The bucket of a frontier candidate: its event kind, `|`, and its board's bucket key.
pub fn fess_bucket_key(event_key: &String, grid: &Grid, win_ready: bool) -> (key: String)
    ensures
        key@ == event_key@ + seq!['|'] + spec_feature_bucket_key(*grid, win_ready),
{
    let mut k: Vec<char> = crate::text::chars_of(event_key.as_str());
    let b = feature_bucket_key(grid, win_ready);
    append_part(&mut k, &crate::text::chars_of(b.as_str()), &['|'], false);
    proof {
        assert(k@ =~= event_key@ + seq!['|'] + spec_feature_bucket_key(*grid, win_ready));
    }
    string_of(&k)
}

} // verus!
