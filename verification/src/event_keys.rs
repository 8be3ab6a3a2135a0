//! Keys that name what changed between two boards, by which event searches group the
//! events they find.

use vstd::prelude::*;
use crate::model::{CellKind, Grid, MAX_SIDE};
use crate::cells::{CellClass, is_rat};
use crate::scan::{board_points, count_of, lemma_board_points};
use crate::nearest::{build_mask, count_mask};
use crate::features::{Features, spec_features, count_cyborg_rats};
use crate::reachability::{reachable_count_of, reachable_rat_count, reachable_trigger_count};
use crate::keys::{capped_key, unreachable_rat_pred, unreachable_rat_positions_key};
use crate::text::{spec_decimal, decimal_chars, join, append_part, parts_view, join_parts, string_of};

verus! {

broadcast use Grid::lemma_outside_is_wall;

/// What became of a cell, by what stood there before and after.
#[derive(Clone, Copy, Debug, PartialEq, Eq, Structural)]
pub enum CellChange {
    /// Nothing changed.
    Unchanged,
    /// A trigger with this number went.
    Trigger(u8),
    /// A web went.
    Web,
    /// An explosive went.
    Explosive,
    /// A plank went.
    Plank,
    /// A wall went.
    Wall,
    /// A rat left or came.
    Rat,
    /// Something else changed.
    Other,
}

/// What became of a cell that held `old` and now holds `new`.
pub open spec fn change_of(old: CellKind, new: CellKind) -> CellChange {
    if old == new {
        CellChange::Unchanged
    } else {
        match old {
            CellKind::Trigger(n) => CellChange::Trigger(n),
            CellKind::Spiderweb => CellChange::Web,
            CellKind::Explosive => CellChange::Explosive,
            CellKind::Plank => CellChange::Plank,
            CellKind::Wall => CellChange::Wall,
            _ => if is_rat(old) || is_rat(new) { CellChange::Rat } else { CellChange::Other },
        }
    }
}

/// What became of a cell that held `old` and now holds `new`.
pub fn cell_change(old: CellKind, new: CellKind) -> (c: CellChange)
    ensures
        c == change_of(old, new),
{
    if old == new {
        return CellChange::Unchanged;
    }
    match old {
        CellKind::Trigger(n) => CellChange::Trigger(n),
        CellKind::Spiderweb => CellChange::Web,
        CellKind::Explosive => CellChange::Explosive,
        CellKind::Plank => CellChange::Plank,
        CellKind::Wall => CellChange::Wall,
        _ => {
            if crate::cells::rat_or_cyborg(old) || crate::cells::rat_or_cyborg(new) {
                CellChange::Rat
            } else {
                CellChange::Other
            }
        },
    }
}

/// The cells of `before` that underwent change `c` on the way to `after`.
pub open spec fn change_pred(before: Grid, after: Grid, c: CellChange) -> spec_fn(int, int) -> bool {
    |x: int, y: int| change_of(before.kind_at(x, y), after.kind_at(x, y)) == c
}

/// Number of cells of `before` that underwent change `c` on the way to `after`.
pub open spec fn changed_count(before: Grid, after: Grid, c: CellChange) -> nat {
    board_points(before, change_pred(before, after, c)).len()
}

/// Number of cells of `before` that underwent change `c` on the way to `after`.
pub fn count_changes(before: &Grid, after: &Grid, c: CellChange) -> (n: usize)
    ensures
        n == changed_count(*before, *after, c),
        n <= MAX_SIDE * MAX_SIDE,
{
    let f = |x: usize, y: usize| -> (b: bool)
        requires
            before.in_bounds(x as int, y as int),
        ensures
            b == change_pred(*before, *after, c)(x as int, y as int),
        {
            cell_change(before.cell_kind_at(x, y), after.cell_kind_at(x, y)) == c
        };
    let m = build_mask(before, f, Ghost(change_pred(*before, *after, c)));
    count_mask(before, &m, Ghost(change_pred(*before, *after, c)))
}

/// A trigger numbered `n` went from some cell of `before` on the way to `after`.
pub open spec fn trigger_went(before: Grid, after: Grid, n: u8) -> bool {
    changed_count(before, after, CellChange::Trigger(n)) > 0
}

/// The numbers of the triggers that went, each once, in ascending order.
pub fn removed_trigger_numbers(before: &Grid, after: &Grid) -> (numbers: Vec<u8>)
    ensures
        forall|a: int, b: int| 0 <= a < b < numbers@.len() ==> #[trigger] numbers@[a] < #[trigger] numbers@[b],
        forall|n: u8| #[trigger] numbers@.contains(n) <==> trigger_went(*before, *after, n),
{
    let mut numbers: Vec<u8> = Vec::new();
    let mut n: u16 = 0;
    while n < 256
        invariant
            n <= 256,
            forall|a: int, b: int| 0 <= a < b < numbers@.len() ==> #[trigger] numbers@[a] < #[trigger] numbers@[b],
            forall|k: int| 0 <= k < numbers@.len() ==> #[trigger] numbers@[k] < n,
            forall|m: u8| m < n ==> (#[trigger] numbers@.contains(m) <==> trigger_went(*before, *after, m)),
        decreases 256 - n,
    {
        let m = n as u8;
        let ghost prev = numbers@;
        if count_changes(before, after, CellChange::Trigger(m)) > 0 {
            numbers.push(m);
        }
        proof {
            assert forall|x: u8| x < n + 1 implies (#[trigger] numbers@.contains(x) <==> trigger_went(*before, *after, x)) by {
                if x < n {
                    if numbers@.contains(x) && !prev.contains(x) {
                        let k = choose|k: int| 0 <= k < numbers@.len() && numbers@[k] == x;
                        assert(k == prev.len());
                    }
                    if prev.contains(x) {
                        let k = choose|k: int| 0 <= k < prev.len() && prev[k] == x;
                        assert(numbers@[k] == x);
                    }
                } else {
                    if trigger_went(*before, *after, x) {
                        assert(numbers@[numbers@.len() - 1] == x);
                    } else {
                        if numbers@.contains(x) {
                            let k = choose|k: int| 0 <= k < numbers@.len() && numbers@[k] == x;
                            assert(prev[k] < n);
                        }
                    }
                }
            }
        }
        n = n + 1;
    }
    numbers
}

/// An integer written in decimal, with a leading `-` when negative.
pub open spec fn spec_signed(i: int) -> Seq<char> {
    if i < 0 { seq!['-'] + spec_decimal((-i) as nat) } else { spec_decimal(i as nat) }
}

/// An integer written in decimal, with a leading `-` when negative.
pub fn signed_chars(i: i64) -> (v: Vec<char>)
    ensures
        v@ == spec_signed(i as int),
{
    if i < 0 {
        let mut v: Vec<char> = Vec::new();
        v.push('-');
        let m: u64 = if i == i64::MIN { 9_223_372_036_854_775_808 } else { (-i) as u64 };
        append_part(&mut v, &decimal_chars(m), &[], true);
        v
    } else {
        decimal_chars(i as u64)
    }
}

/// A list of numbers as debug output writes it: `[a, b, c]`.
pub open spec fn spec_number_list(s: Seq<u8>) -> Seq<char> {
    seq!['['] + join(s.map_values(|n: u8| spec_decimal(n as nat)), seq![',', ' ']) + seq![']']
}

/// A list of numbers as debug output writes it.
pub fn number_list(s: &Vec<u8>) -> (v: Vec<char>)
    ensures
        v@ == spec_number_list(s@),
{
    let mut parts: Vec<Vec<char>> = Vec::new();
    let mut i: usize = 0;
    while i < s.len()
        invariant
            i <= s@.len(),
            parts@.len() == i,
            forall|k: int| 0 <= k < i ==> #[trigger] parts@[k]@ == spec_decimal(s@[k] as nat),
        decreases s@.len() - i,
    {
        parts.push(decimal_chars(s[i] as u64));
        i = i + 1;
    }
    let sep = [',', ' '];
    proof {
        assert(sep@ =~= seq![',', ' ']);
        assert(parts_view(parts@) =~= s@.map_values(|n: u8| spec_decimal(n as nat)));
    }
    let body = join_parts(&parts, &sep);
    let mut v: Vec<char> = Vec::new();
    v.push('[');
    append_part(&mut v, &body, &[], true);
    v.push(']');
    proof {
        assert(v@ =~= spec_number_list(s@));
    }
    v
}

/// Any list of numbers in strictly ascending order holding exactly the triggers that went.
pub open spec fn is_removed_trigger_list(before: Grid, after: Grid, s: Seq<u8>) -> bool {
    &&& forall|a: int, b: int| 0 <= a < b < s.len() ==> #[trigger] s[a] < #[trigger] s[b]
    &&& forall|n: u8| #[trigger] s.contains(n) <==> trigger_went(before, after, n)
}

/// The key of the family an event belongs to: the change in rats and cyborg rats, how many
/// explosives and webs went, the change in triggers, how many planks and walls went, how many
/// cells a rat left or came to, the rats and triggers the players reach before and after, the
/// numbers of the triggers that went, and where the rats out of reach, and the trapped ones,
/// stand after (at most four each):
/// `dr<d>:dc<d>:dx<n>:dw<n>:dt<d>:dp<n>:dwall<n>:ratmove<n>:rr<a>><b>:rt<a>><b>:trig[..]:ur[..]:trap[..]`.
pub open spec fn spec_event_family_key(before: Grid, after: Grid, triggers: Seq<u8>) -> Seq<char> {
    family_counts(before, after) + family_reach(before, after, triggers)
}

/// The counting part of the family key, up to the cells rats left or came to.
pub open spec fn family_counts(before: Grid, after: Grid) -> Seq<char> {
    let fb = spec_features(before);
    let fa = spec_features(after);
    seq!['d', 'r'] + spec_signed(fb.rats - fa.rats)
        + seq![':', 'd', 'c'] + spec_signed(count_of(before, CellClass::Exactly(CellKind::CyborgRat)) - count_of(after, CellClass::Exactly(CellKind::CyborgRat)))
        + seq![':', 'd', 'x'] + spec_decimal(changed_count(before, after, CellChange::Explosive))
        + seq![':', 'd', 'w'] + spec_decimal(changed_count(before, after, CellChange::Web))
        + seq![':', 'd', 't'] + spec_signed(fb.triggers - fa.triggers)
        + seq![':', 'd', 'p'] + spec_decimal(changed_count(before, after, CellChange::Plank))
        + seq![':', 'd', 'w', 'a', 'l', 'l'] + spec_decimal(changed_count(before, after, CellChange::Wall))
        + seq![':', 'r', 'a', 't', 'm', 'o', 'v', 'e'] + spec_decimal(changed_count(before, after, CellChange::Rat))
}

/// The reach part of the family key, from the rats the players reach on.
pub open spec fn family_reach(before: Grid, after: Grid, triggers: Seq<u8>) -> Seq<char> {
    seq![':', 'r', 'r'] + spec_decimal(reachable_count_of(before, CellClass::RatOrCyborg))
        + seq!['>'] + spec_decimal(reachable_count_of(after, CellClass::RatOrCyborg))
        + seq![':', 'r', 't'] + spec_decimal(reachable_count_of(before, CellClass::AnyTrigger))
        + seq!['>'] + spec_decimal(reachable_count_of(after, CellClass::AnyTrigger))
        + seq![':', 't', 'r', 'i', 'g'] + spec_number_list(triggers)
        + seq![':', 'u', 'r', '['] + capped_key(board_points(after, unreachable_rat_pred(after, false)), 4)
        + seq![']', ':', 't', 'r', 'a', 'p', '['] + capped_key(board_points(after, unreachable_rat_pred(after, true)), 4)
        + seq![']']
}

/// The difference of two counts of a board's cells.
fn count_difference(a: usize, b: usize) -> (d: i64)
    requires
        a <= MAX_SIDE * MAX_SIDE,
        b <= MAX_SIDE * MAX_SIDE,
    ensures
        d == a - b,
{
    a as i64 - b as i64
}

/// The counting part of the family key.
fn family_counts_chars(before: &Grid, after: &Grid) -> (k: Vec<char>)
    ensures
        k@ == family_counts(*before, *after),
{
    let fb = Features::from_grid(before);
    let fa = Features::from_grid(after);
    let cb = count_cyborg_rats(before);
    let ca = count_cyborg_rats(after);
    before.note_size_limit();
    after.note_size_limit();
    proof {
        crate::scan::lemma_board_points_bound(*before, crate::scan::class_pred(*before, CellClass::Exactly(CellKind::CyborgRat)));
        crate::scan::lemma_board_points_bound(*after, crate::scan::class_pred(*after, CellClass::Exactly(CellKind::CyborgRat)));
    }
    let mut k: Vec<char> = Vec::new();
    append_part(&mut k, &signed_chars(count_difference(fb.rats, fa.rats)), &['d', 'r'], false);
    append_part(&mut k, &signed_chars(count_difference(cb, ca)), &[':', 'd', 'c'], false);
    append_part(&mut k, &decimal_chars(count_changes(before, after, CellChange::Explosive) as u64), &[':', 'd', 'x'], false);
    append_part(&mut k, &decimal_chars(count_changes(before, after, CellChange::Web) as u64), &[':', 'd', 'w'], false);
    append_part(&mut k, &signed_chars(count_difference(fb.triggers, fa.triggers)), &[':', 'd', 't'], false);
    append_part(&mut k, &decimal_chars(count_changes(before, after, CellChange::Plank) as u64), &[':', 'd', 'p'], false);
    append_part(&mut k, &decimal_chars(count_changes(before, after, CellChange::Wall) as u64), &[':', 'd', 'w', 'a', 'l', 'l'], false);
    append_part(&mut k, &decimal_chars(count_changes(before, after, CellChange::Rat) as u64), &[':', 'r', 'a', 't', 'm', 'o', 'v', 'e'], false);
    proof {
        assert(k@ =~= family_counts(*before, *after));
    }
    k
}

/// The reach part of the family key.
fn family_reach_chars(before: &Grid, after: &Grid, triggers: &Vec<u8>) -> (k: Vec<char>)
    ensures
        k@ == family_reach(*before, *after, triggers@),
{
    let mut k: Vec<char> = Vec::new();
    append_part(&mut k, &decimal_chars(reachable_rat_count(before) as u64), &[':', 'r', 'r'], false);
    append_part(&mut k, &decimal_chars(reachable_rat_count(after) as u64), &['>'], false);
    append_part(&mut k, &decimal_chars(reachable_trigger_count(before) as u64), &[':', 'r', 't'], false);
    append_part(&mut k, &decimal_chars(reachable_trigger_count(after) as u64), &['>'], false);
    append_part(&mut k, &number_list(triggers), &[':', 't', 'r', 'i', 'g'], false);
    append_part(&mut k, &unreachable_rat_positions_key(after, false, 4), &[':', 'u', 'r', '['], false);
    append_part(&mut k, &unreachable_rat_positions_key(after, true, 4), &[']', ':', 't', 'r', 'a', 'p', '['], false);
    k.push(']');
    proof {
        assert(k@ =~= family_reach(*before, *after, triggers@));
    }
    k
}

/// The key of the family the event from `before` to `after` belongs to.
pub fn event_family_key(before: &Grid, after: &Grid) -> (key: String)
    ensures
        exists|t: Seq<u8>| is_removed_trigger_list(*before, *after, t) && key@ == spec_event_family_key(*before, *after, t),
{
    let triggers = removed_trigger_numbers(before, after);
    let mut k = family_counts_chars(before, after);
    append_part(&mut k, &family_reach_chars(before, after, &triggers), &[], true);
    proof {
        assert(k@ =~= spec_event_family_key(*before, *after, triggers@));
    }
    string_of(&k)
}

} // verus!
