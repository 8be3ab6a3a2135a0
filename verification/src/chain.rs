//! Pieces of the searches that chain trigger events: which trigger numbers a board holds,
//! which trigger of an order comes next, and how a branch of the chain is scored.

use vstd::prelude::*;
use crate::model::{CellKind, Grid};
use crate::cells::CellClass;
use crate::scan::count_of;
use crate::features::{Features, trigger_count};
use crate::heuristics::{spec_lookup_branch_score, lookup_branch_score, spec_useful_gain,
    spec_trigger_continuation_penalty, trigger_continuation_penalty};

verus! {

/// The board holds a trigger numbered `n`.
pub open spec fn has_trigger(g: Grid, n: u8) -> bool {
    count_of(g, CellClass::Exactly(CellKind::Trigger(n))) > 0
}

/// The trigger numbers below `n` that the board holds, in ascending order.
pub open spec fn triggers_below(g: Grid, n: int) -> Seq<u8>
    decreases n,
{
    if n <= 0 {
        Seq::empty()
    } else {
        triggers_below(g, n - 1) + if has_trigger(g, (n - 1) as u8) { seq![(n - 1) as u8] } else { Seq::empty() }
    }
}

/// The trigger numbers on the board, each once, in ascending order.
pub fn trigger_numbers(grid: &Grid) -> (numbers: Vec<u8>)
    ensures
        numbers@ == triggers_below(*grid, 256),
        forall|a: int, b: int| 0 <= a < b < numbers@.len() ==> #[trigger] numbers@[a] < #[trigger] numbers@[b],
        forall|n: u8| #[trigger] numbers@.contains(n) <==> has_trigger(*grid, n),
{
    let mut numbers: Vec<u8> = Vec::new();
    let mut n: u16 = 0;
    while n < 256
        invariant
            n <= 256,
            numbers@ == triggers_below(*grid, n as int),
            forall|a: int, b: int| 0 <= a < b < numbers@.len() ==> #[trigger] numbers@[a] < #[trigger] numbers@[b],
            forall|k: int| 0 <= k < numbers@.len() ==> #[trigger] numbers@[k] < n,
            forall|m: u8| m < n ==> (#[trigger] numbers@.contains(m) <==> has_trigger(*grid, m)),
        decreases 256 - n,
    {
        let m = n as u8;
        let ghost before = numbers@;
        if trigger_count(grid, m) > 0 {
            numbers.push(m);
        }
        proof {
            assert(numbers@ =~= triggers_below(*grid, n + 1));
            assert forall|x: u8| x < n + 1 implies (#[trigger] numbers@.contains(x) <==> has_trigger(*grid, x)) by {
                if x < n {
                    if numbers@.contains(x) && !before.contains(x) {
                        let k = choose|k: int| 0 <= k < numbers@.len() && numbers@[k] == x;
                        assert(k == before.len());
                    }
                    if before.contains(x) {
                        let k = choose|k: int| 0 <= k < before.len() && before[k] == x;
                        assert(numbers@[k] == x);
                    }
                } else {
                    if has_trigger(*grid, x) {
                        assert(numbers@[numbers@.len() - 1] == x);
                    } else {
                        if numbers@.contains(x) {
                            let k = choose|k: int| 0 <= k < numbers@.len() && numbers@[k] == x;
                            assert(before[k] < n);
                        }
                    }
                }
            }
        }
        n = n + 1;
    }
    numbers
}

/// The first trigger number of `order`, from index `from` on, that the board still holds.
pub open spec fn spec_next_remaining(g: Grid, order: Seq<u8>, from: int) -> Option<u8>
    decreases order.len() - from,
{
    if from < 0 || from >= order.len() {
        None
    } else if has_trigger(g, order[from]) {
        Some(order[from])
    } else {
        spec_next_remaining(g, order, from + 1)
    }
}

/// The first trigger number of `order`, from index `from` on, that the board still holds.
pub fn next_remaining_trigger(grid: &Grid, order: &[u8], from: usize) -> (next: Option<u8>)
    ensures
        next == spec_next_remaining(*grid, order@, from as int),
{
    let mut k = from;
    while k < order.len()
        invariant
            from <= k,
            spec_next_remaining(*grid, order@, from as int) == spec_next_remaining(*grid, order@, k as int),
        decreases order@.len() - k,
    {
        if trigger_count(grid, order[k]) > 0 {
            return Some(order[k]);
        }
        k = k + 1;
    }
    None
}

/// The score of a branch of a trigger chain: the trigger branch score of the board it
/// reached, plus the penalty for how far the next trigger lies.
pub open spec fn spec_chain_branch_score(g: Grid, path_len: int, before: Features, after: Features, next: Option<u8>) -> int {
    spec_lookup_branch_score(g, path_len) - spec_useful_gain(before, after) + spec_trigger_continuation_penalty(g, next)
}

/// The score of a branch of a trigger chain, or `None` where it does not fit a 64-bit
/// integer.
pub fn chain_branch_score(grid: &Grid, path_len: usize, before: Features, after: Features, next: Option<u8>) -> (s: Option<i64>)
    requires
        path_len <= 4_000_000_000_000_000_000,
    ensures
        s is Some <==> i64::MIN <= spec_chain_branch_score(*grid, path_len as int, before, after, next) <= i64::MAX,
        s matches Some(v) ==> v == spec_chain_branch_score(*grid, path_len as int, before, after, next),
{
    let base = lookup_branch_score(grid, path_len);
    let rats: i128 = if before.rats >= after.rats { (before.rats - after.rats) as i128 } else { 0 };
    let webs: i128 = if before.webs >= after.webs { (before.webs - after.webs) as i128 } else { 0 };
    let planks: i128 = if before.planks >= after.planks { (before.planks - after.planks) as i128 } else { 0 };
    let triggers: i128 = if before.triggers >= after.triggers { (before.triggers - after.triggers) as i128 } else { 0 };
    let gain: i128 = rats * 50_000_000 + webs * 200_000 + planks * 200_000 + triggers * 50_000;
    let penalty = trigger_continuation_penalty(grid, next);
    let total: i128 = base as i128 - gain + penalty as i128;
    if total < i64::MIN as i128 || total > i64::MAX as i128 {
        None
    } else {
        Some(total as i64)
    }
}

/// The trigger branch score of a board, or `None` where it does not fit a 64-bit integer.
pub fn checked_trigger_branch_score(grid: &Grid, path_len: usize, before: Features, after: Features) -> (s: Option<i64>)
    requires
        path_len <= 4_000_000_000_000_000_000,
    ensures
        s is Some <==> i64::MIN <= spec_lookup_branch_score(*grid, path_len as int) - spec_useful_gain(before, after) <= i64::MAX,
        s matches Some(v) ==> v == spec_lookup_branch_score(*grid, path_len as int) - spec_useful_gain(before, after),
{
    let base = lookup_branch_score(grid, path_len);
    let rats: i128 = if before.rats >= after.rats { (before.rats - after.rats) as i128 } else { 0 };
    let webs: i128 = if before.webs >= after.webs { (before.webs - after.webs) as i128 } else { 0 };
    let planks: i128 = if before.planks >= after.planks { (before.planks - after.planks) as i128 } else { 0 };
    let triggers: i128 = if before.triggers >= after.triggers { (before.triggers - after.triggers) as i128 } else { 0 };
    let gain: i128 = rats * 50_000_000 + webs * 200_000 + planks * 200_000 + triggers * 50_000;
    let total: i128 = base as i128 - gain;
    if total < i64::MIN as i128 || total > i64::MAX as i128 {
        None
    } else {
        Some(total as i64)
    }
}

} // verus!
