//! Distances between board points, rectangles, and the fixed targets of the rectangle level.

use vstd::prelude::*;

verus! {

pub open spec fn abs_int(v: int) -> int {
    if v < 0 { -v } else { v }
}

/// Manhattan distance between two points.
pub open spec fn spec_manhattan(a: (i32, i32), b: (i32, i32)) -> int {
    abs_int(a.0 - b.0) + abs_int(a.1 - b.1)
}

/// Whether two points are the same.
pub fn same_point(a: (i32, i32), b: (i32, i32)) -> (r: bool)
    ensures
        r == (a == b),
{
    a.0 == b.0 && a.1 == b.1
}

/// Manhattan distance between two board points.
pub fn manhattan(a: (i32, i32), b: (i32, i32)) -> (d: i64)
    ensures
        d == spec_manhattan(a, b),
        0 <= d <= 2 * (u32::MAX as int),
{
    let dx: i64 = a.0 as i64 - b.0 as i64;
    let dy: i64 = a.1 as i64 - b.1 as i64;
    let ax: i64 = if dx < 0 { -dx } else { dx };
    let ay: i64 = if dy < 0 { -dy } else { dy };
    ax + ay
}

/// Whether `point` lies in the rectangle with corners `(x1, y1)` and `(x2, y2)`, edges included.
pub open spec fn spec_point_in_rect(point: (i32, i32), x1: i32, y1: i32, x2: i32, y2: i32) -> bool {
    &&& (if x1 <= x2 { x1 <= point.0 <= x2 } else { x2 <= point.0 <= x1 })
    &&& (if y1 <= y2 { y1 <= point.1 <= y2 } else { y2 <= point.1 <= y1 })
}

/// Whether `point` lies in the rectangle with corners `(x1, y1)` and `(x2, y2)`, in any order.
pub fn point_in_rect(point: (i32, i32), x1: i32, y1: i32, x2: i32, y2: i32) -> (b: bool)
    ensures
        b == spec_point_in_rect(point, x1, y1, x2, y2),
{
    let min_x = if x1 <= x2 { x1 } else { x2 };
    let max_x = if x1 <= x2 { x2 } else { x1 };
    let min_y = if y1 <= y2 { y1 } else { y2 };
    let max_y = if y1 <= y2 { y2 } else { y1 };
    point.0 >= min_x && point.0 <= max_x && point.1 >= min_y && point.1 <= max_y
}

/// Steps from `v` into the closed interval between `a` and `b`.
pub open spec fn gap(v: int, a: int, b: int) -> int {
    let lo = if a <= b { a } else { b };
    let hi = if a <= b { b } else { a };
    if v < lo { lo - v } else if v > hi { v - hi } else { 0 }
}

/// Manhattan distance from `p` to the nearest cell of the rectangle.
pub open spec fn rect_distance(p: (i32, i32), x1: i32, y1: i32, x2: i32, y2: i32) -> int {
    gap(p.0 as int, x1 as int, x2 as int) + gap(p.1 as int, y1 as int, y2 as int)
}

/// `d` is the smallest distance from a point of `ps` to the rectangle.
pub open spec fn is_nearest_rect(ps: Seq<(i32, i32)>, x1: i32, y1: i32, x2: i32, y2: i32, d: int) -> bool {
    &&& exists|i: int| 0 <= i < ps.len() && d == rect_distance(#[trigger] ps[i], x1, y1, x2, y2)
    &&& forall|i: int| 0 <= i < ps.len() ==> d <= rect_distance(#[trigger] ps[i], x1, y1, x2, y2)
}

/// The smallest distance from a point of `ps` to the rectangle, or 1000 when there are none.
pub open spec fn spec_nearest_rect(ps: Seq<(i32, i32)>, x1: i32, y1: i32, x2: i32, y2: i32) -> int {
    if ps.len() == 0 {
        1000
    } else {
        choose|d: int| is_nearest_rect(ps, x1, y1, x2, y2, d)
    }
}

/// The smallest distance to the rectangle is unique.
pub proof fn lemma_nearest_rect_unique(ps: Seq<(i32, i32)>, x1: i32, y1: i32, x2: i32, y2: i32, a: int, b: int)
    requires
        is_nearest_rect(ps, x1, y1, x2, y2, a),
        is_nearest_rect(ps, x1, y1, x2, y2, b),
    ensures
        a == b,
{
    let i = choose|i: int| 0 <= i < ps.len() && a == rect_distance(#[trigger] ps[i], x1, y1, x2, y2);
    let j = choose|j: int| 0 <= j < ps.len() && b == rect_distance(#[trigger] ps[j], x1, y1, x2, y2);
    assert(b <= rect_distance(ps[i], x1, y1, x2, y2));
    assert(a <= rect_distance(ps[j], x1, y1, x2, y2));
}

/// The distance from the point nearest to the rectangle, or 1000 when there are no points.
pub fn nearest_rect_distance(points: &[(i32, i32)], x1: i32, y1: i32, x2: i32, y2: i32) -> (d: i64)
    ensures
        d == spec_nearest_rect(points@, x1, y1, x2, y2),
        0 <= d <= 2 * (u32::MAX as int),
        points@.len() == 0 ==> d == 1000,
        points@.len() > 0 ==> {
            &&& exists|i: int| 0 <= i < points@.len() && d == rect_distance(#[trigger] points@[i], x1, y1, x2, y2)
            &&& forall|i: int| 0 <= i < points@.len() ==> d <= rect_distance(#[trigger] points@[i], x1, y1, x2, y2)
        },
{
    let min_x: i64 = if x1 <= x2 { x1 as i64 } else { x2 as i64 };
    let max_x: i64 = if x1 <= x2 { x2 as i64 } else { x1 as i64 };
    let min_y: i64 = if y1 <= y2 { y1 as i64 } else { y2 as i64 };
    let max_y: i64 = if y1 <= y2 { y2 as i64 } else { y1 as i64 };
    let mut best: Option<i64> = None;
    let mut i: usize = 0;
    while i < points.len()
        invariant
            i <= points@.len(),
            min_x == (if x1 <= x2 { x1 } else { x2 }),
            max_x == (if x1 <= x2 { x2 } else { x1 }),
            min_y == (if y1 <= y2 { y1 } else { y2 }),
            max_y == (if y1 <= y2 { y2 } else { y1 }),
            i == 0 <==> best is None,
            best matches Some(b) ==> {
                &&& exists|j: int| 0 <= j < i && b == rect_distance(#[trigger] points@[j], x1, y1, x2, y2)
                &&& forall|j: int| 0 <= j < i ==> b <= rect_distance(#[trigger] points@[j], x1, y1, x2, y2)
            },
        decreases points@.len() - i,
    {
        let (x, y) = points[i];
        let px = x as i64;
        let py = y as i64;
        let dx: i64 = if px < min_x { min_x - px } else if px > max_x { px - max_x } else { 0 };
        let dy: i64 = if py < min_y { min_y - py } else if py > max_y { py - max_y } else { 0 };
        let d = dx + dy;
        proof {
            assert(d == rect_distance(points@[i as int], x1, y1, x2, y2));
        }
        best = match best {
            None => Some(d),
            Some(b) => if d < b { Some(d) } else { Some(b) },
        };
        i = i + 1;
    }
    match best {
        None => 1000,
        Some(b) => {
            proof {
                assert(is_nearest_rect(points@, x1, y1, x2, y2, b as int));
                let c = choose|d: int| is_nearest_rect(points@, x1, y1, x2, y2, d);
                lemma_nearest_rect_unique(points@, x1, y1, x2, y2, c, b as int);
            }
            b
        },
    }
}

/// `d` is the smallest Manhattan distance between a point of `a` and a point of `b`.
pub open spec fn is_nearest_pair(a: Seq<(i32, i32)>, b: Seq<(i32, i32)>, d: int) -> bool {
    &&& exists|i: int, j: int| 0 <= i < a.len() && 0 <= j < b.len() && d == spec_manhattan(#[trigger] a[i], #[trigger] b[j])
    &&& forall|i: int, j: int| 0 <= i < a.len() && 0 <= j < b.len() ==> d <= spec_manhattan(#[trigger] a[i], #[trigger] b[j])
}

/// The smallest Manhattan distance between a point of `a` and a point of `b`, or 1000 when
/// either is empty.
pub open spec fn spec_nearest_pair(a: Seq<(i32, i32)>, b: Seq<(i32, i32)>) -> int {
    if a.len() == 0 || b.len() == 0 {
        1000
    } else {
        choose|d: int| is_nearest_pair(a, b, d)
    }
}

/// The smallest pair distance is unique.
pub proof fn lemma_nearest_pair_unique(a: Seq<(i32, i32)>, b: Seq<(i32, i32)>, m: int, n: int)
    requires
        is_nearest_pair(a, b, m),
        is_nearest_pair(a, b, n),
    ensures
        m == n,
{
    let (i, j) = choose|i: int, j: int| 0 <= i < a.len() && 0 <= j < b.len() && m == spec_manhattan(#[trigger] a[i], #[trigger] b[j]);
    let (k, l) = choose|i: int, j: int| 0 <= i < a.len() && 0 <= j < b.len() && n == spec_manhattan(#[trigger] a[i], #[trigger] b[j]);
    assert(n <= spec_manhattan(a[i], b[j]));
    assert(m <= spec_manhattan(a[k], b[l]));
}

/// The smallest Manhattan distance between a point of `a` and a point of `b`, or 1000
/// when either list is empty.
pub fn nearest_pair_distance(a: &[(i32, i32)], b: &[(i32, i32)]) -> (d: i64)
    ensures
        d == spec_nearest_pair(a@, b@),
        0 <= d <= 2 * (u32::MAX as int),
        (a@.len() == 0 || b@.len() == 0) ==> d == 1000,
        (a@.len() > 0 && b@.len() > 0) ==> {
            &&& exists|i: int, j: int| 0 <= i < a@.len() && 0 <= j < b@.len()
                && d == spec_manhattan(#[trigger] a@[i], #[trigger] b@[j])
            &&& forall|i: int, j: int| 0 <= i < a@.len() && 0 <= j < b@.len()
                ==> d <= spec_manhattan(#[trigger] a@[i], #[trigger] b@[j])
        },
{
    let mut best: Option<i64> = None;
    let mut i: usize = 0;
    while i < a.len()
        invariant
            i <= a@.len(),
            (i == 0 || b@.len() == 0) <==> best is None,
            best matches Some(m) ==> {
                &&& exists|p: int, q: int| 0 <= p < i && 0 <= q < b@.len()
                    && m == spec_manhattan(#[trigger] a@[p], #[trigger] b@[q])
                &&& forall|p: int, q: int| 0 <= p < i && 0 <= q < b@.len()
                    ==> m <= spec_manhattan(#[trigger] a@[p], #[trigger] b@[q])
            },
        decreases a@.len() - i,
    {
        let mut j: usize = 0;
        let ghost start = best;
        while j < b.len()
            invariant
                i < a@.len(),
                j <= b@.len(),
                (i == 0 || b@.len() == 0) <==> start is None,
                best is None <==> (start is None && j == 0),
                start matches Some(m) ==> {
                    &&& exists|p: int, q: int| 0 <= p < i && 0 <= q < b@.len()
                        && m == spec_manhattan(#[trigger] a@[p], #[trigger] b@[q])
                    &&& forall|p: int, q: int| 0 <= p < i && 0 <= q < b@.len()
                        ==> m <= spec_manhattan(#[trigger] a@[p], #[trigger] b@[q])
                },
                best matches Some(m) ==> {
                    &&& (exists|p: int, q: int| 0 <= p < i && 0 <= q < b@.len()
                        && m == spec_manhattan(#[trigger] a@[p], #[trigger] b@[q]))
                        || (exists|q: int| 0 <= q < j && m == spec_manhattan(a@[i as int], #[trigger] b@[q]))
                    &&& forall|p: int, q: int| 0 <= p < i && 0 <= q < b@.len()
                        ==> m <= spec_manhattan(#[trigger] a@[p], #[trigger] b@[q])
                    &&& forall|q: int| 0 <= q < j ==> m <= spec_manhattan(a@[i as int], #[trigger] b@[q])
                },
            decreases b@.len() - j,
        {
            let d = manhattan(a[i], b[j]);
            best = match best {
                None => Some(d),
                Some(m) => if d < m { Some(d) } else { Some(m) },
            };
            j = j + 1;
        }
        proof {
            if let Some(m) = best {
                assert forall|p: int, q: int| 0 <= p < i + 1 && 0 <= q < b@.len() implies
                    m <= spec_manhattan(#[trigger] a@[p], #[trigger] b@[q]) by {
                    if p == i {
                    }
                }
                if !(exists|p: int, q: int| 0 <= p < i && 0 <= q < b@.len()
                        && m == spec_manhattan(#[trigger] a@[p], #[trigger] b@[q])) {
                    let q = choose|q: int| 0 <= q < j && m == spec_manhattan(a@[i as int], #[trigger] b@[q]);
                    assert(m == spec_manhattan(a@[i as int], b@[q]));
                }
            }
        }
        i = i + 1;
    }
    match best {
        None => 1000,
        Some(m) => {
            proof {
                assert(is_nearest_pair(a@, b@, m as int));
                let c = choose|d: int| is_nearest_pair(a@, b@, d);
                lemma_nearest_pair_unique(a@, b@, c, m as int);
            }
            m
        },
    }
}

/// The smallest Manhattan distance from a point to a target, or 1000 when either list is empty.
pub fn nearest_target_distance(points: &[(i32, i32)], targets: &[(i32, i32)]) -> (d: i64)
    ensures
        d == spec_nearest_pair(points@, targets@),
        0 <= d <= 2 * (u32::MAX as int),
        (points@.len() == 0 || targets@.len() == 0) ==> d == 1000,
        (points@.len() > 0 && targets@.len() > 0) ==> {
            &&& exists|i: int, j: int| 0 <= i < points@.len() && 0 <= j < targets@.len()
                && d == spec_manhattan(#[trigger] points@[i], #[trigger] targets@[j])
            &&& forall|i: int, j: int| 0 <= i < points@.len() && 0 <= j < targets@.len()
                ==> d <= spec_manhattan(#[trigger] points@[i], #[trigger] targets@[j])
        },
{
    nearest_pair_distance(points, targets)
}

/// Sum of the distances from each player to its target, over the players that have one;
/// players and targets are paired by position, up to the shorter list.
pub open spec fn spec_target_sum(players: Seq<(i32, i32)>, targets: Seq<Option<(i32, i32)>>, n: nat) -> int
    decreases n,
{
    if n == 0 {
        0
    } else {
        let i = n - 1;
        spec_target_sum(players, targets, (n - 1) as nat) + match targets[i] {
            Some(t) => spec_manhattan(players[i], t),
            None => 0,
        }
    }
}

pub open spec fn min_nat(a: nat, b: nat) -> nat {
    if a <= b { a } else { b }
}

proof fn lemma_target_sum_mono(players: Seq<(i32, i32)>, targets: Seq<Option<(i32, i32)>>, a: nat, b: nat)
    requires
        a <= b,
    ensures
        0 <= spec_target_sum(players, targets, a) <= spec_target_sum(players, targets, b),
    decreases b,
{
    if a < b {
        lemma_target_sum_mono(players, targets, a, (b - 1) as nat);
    } else if b > 0 {
        lemma_target_sum_mono(players, targets, 0, (b - 1) as nat);
    }
}

/// The distance still to walk over the first `n` players is zero exactly when each of them
/// given a target stands on it.
proof fn lemma_target_sum_zero(players: Seq<(i32, i32)>, targets: Seq<Option<(i32, i32)>>, n: nat)
    requires
        n <= players.len(),
        n <= targets.len(),
    ensures
        spec_target_sum(players, targets, n) == 0 <==> forall|i: int| 0 <= i < n ==>
            (#[trigger] targets[i] matches Some(t) ==> players[i] == t),
    decreases n,
{
    if n > 0 {
        let k = (n - 1) as nat;
        lemma_target_sum_zero(players, targets, k);
        lemma_target_sum_mono(players, targets, k, k);
        if spec_target_sum(players, targets, n) == 0 {
            match targets[k as int] {
                Some(t) => {
                    assert(spec_manhattan(players[k as int], t) >= 0);
                    assert(spec_target_sum(players, targets, k) == 0);
                    assert(spec_manhattan(players[k as int], t) == 0);
                    assert(players[k as int] == t);
                },
                None => {},
            }
            assert forall|i: int| 0 <= i < n implies (#[trigger] targets[i] matches Some(t) ==> players[i] == t) by {
                if i < k {
                    assert(0 <= i < k);
                }
            }
        } else {
            if forall|i: int| 0 <= i < n ==> (#[trigger] targets[i] matches Some(t) ==> players[i] == t) {
                assert forall|i: int| 0 <= i < k implies (#[trigger] targets[i] matches Some(t) ==> players[i] == t) by {
                    assert(targets[i] == targets[i]);
                }
                assert(spec_target_sum(players, targets, k) == 0);
                match targets[k as int] {
                    Some(t) => { assert(players[k as int] == t); },
                    None => {},
                }
            }
        }
    }
}

/// The players stand on all their targets exactly when no distance is left to walk: with at
/// least as many players as targets, `reached_player_targets` holds exactly when
/// `target_sum_distance` is zero.
pub proof fn law_targets_reached_iff_no_distance_left(players: Seq<(i32, i32)>, targets: Seq<Option<(i32, i32)>>)
    requires
        players.len() >= targets.len(),
    ensures
        (forall|i: int| 0 <= i < targets.len() ==> (#[trigger] targets[i] matches Some(t) ==> players[i] == t))
            <==> spec_target_sum(players, targets, min_nat(players.len(), targets.len())) == 0,
{
    lemma_target_sum_zero(players, targets, targets.len());
}

/// Sum of the distances from each player to its target.
pub fn target_sum_distance(players: &[(i32, i32)], targets: &[Option<(i32, i32)>]) -> (d: i64)
    requires
        spec_target_sum(players@, targets@, min_nat(players@.len(), targets@.len())) <= i64::MAX,
    ensures
        d == spec_target_sum(players@, targets@, min_nat(players@.len(), targets@.len())),
{
    let n = if players.len() <= targets.len() { players.len() } else { targets.len() };
    let mut sum: i64 = 0;
    let mut i: usize = 0;
    while i < n
        invariant
            n == min_nat(players@.len(), targets@.len()),
            i <= n,
            sum == spec_target_sum(players@, targets@, i as nat),
            spec_target_sum(players@, targets@, n as nat) <= i64::MAX,
        decreases n - i,
    {
        proof {
            lemma_target_sum_mono(players@, targets@, (i + 1) as nat, n as nat);
        }
        match targets[i] {
            Some(t) => {
                let d = manhattan(players[i], t);
                sum = sum + d;
            }
            None => {}
        }
        i = i + 1;
    }
    sum
}

/// Whether every player with a target stands on it; there must be a player for every target.
pub fn reached_player_targets(players: &[(i32, i32)], targets: &[Option<(i32, i32)>]) -> (b: bool)
    ensures
        b == (players@.len() >= targets@.len() && forall|i: int| 0 <= i < targets@.len() ==>
            (#[trigger] targets@[i] matches Some(t) ==> players@[i] == t)),
{
    if players.len() < targets.len() {
        return false;
    }
    let mut i: usize = 0;
    while i < targets.len()
        invariant
            players@.len() >= targets@.len(),
            i <= targets@.len(),
            forall|j: int| 0 <= j < i ==> (#[trigger] targets@[j] matches Some(t) ==> players@[j] == t),
        decreases targets@.len() - i,
    {
        if let Some(t) = targets[i] {
            if players[i].0 != t.0 || players[i].1 != t.1 {
                return false;
            }
        }
        i = i + 1;
    }
    true
}

/// Cells a rat must reach in the rectangle level.
pub open spec fn spec_rectangle_lower_rat_targets() -> Seq<(i32, i32)> {
    seq![(2, 6), (3, 6), (4, 6), (5, 6), (6, 6)]
}

/// Cells from which a player can escape the rectangle level's blast.
pub open spec fn spec_rectangle_lower_safe_targets() -> Seq<(i32, i32)> {
    seq![(14, 6), (14, 7), (15, 7), (13, 8), (14, 8), (15, 8)]
}

/// Cells a rat must reach in the rectangle level.
pub fn rectangle_lower_rat_targets() -> (t: [(i32, i32); 5])
    ensures
        t@ == spec_rectangle_lower_rat_targets(),
{
    let t = [(2, 6), (3, 6), (4, 6), (5, 6), (6, 6)];
    assert(t@ =~= spec_rectangle_lower_rat_targets());
    t
}

/// Cells from which a player can escape the rectangle level's blast.
pub fn rectangle_lower_safe_targets() -> (t: [(i32, i32); 6])
    ensures
        t@ == spec_rectangle_lower_safe_targets(),
{
    let t = [(14, 6), (14, 7), (15, 7), (13, 8), (14, 8), (15, 8)];
    assert(t@ =~= spec_rectangle_lower_safe_targets());
    t
}

/// Whether a player at `player` stands on one of the escape cells.
pub fn rectangle_lower_has_escape_staging(player: (i32, i32)) -> (b: bool)
    ensures
        b == spec_rectangle_lower_safe_targets().contains(player),
{
    let targets = rectangle_lower_safe_targets();
    let mut i: usize = 0;
    while i < 6
        invariant
            i <= 6,
            targets@ == spec_rectangle_lower_safe_targets(),
            forall|j: int| 0 <= j < i ==> targets@[j] != player,
        decreases 6 - i,
    {
        if targets[i].0 == player.0 && targets[i].1 == player.1 {
            assert(spec_rectangle_lower_safe_targets()[i as int] == player);
            return true;
        }
        i = i + 1;
    }
    false
}

/// A deterministic pseudo-random offset in `[0, jitter)` mixed from a state hash, a depth and
/// a seed; zero when `jitter` is not positive.
pub open spec fn spec_jitter_mix(hash: u64, depth: usize, seed: u64) -> u64 {
    let x0 = hash ^ seed ^ (((depth as u64) as int * 0x9e3779b97f4a7c15int) % 0x1_0000_0000_0000_0000int) as u64;
    let x1 = x0 ^ (x0 >> 30u64);
    let x2 = ((x1 as int * 0xbf58476d1ce4e5b9int) % 0x1_0000_0000_0000_0000int) as u64;
    let x3 = x2 ^ (x2 >> 27u64);
    let x4 = ((x3 as int * 0x94d049bb133111ebint) % 0x1_0000_0000_0000_0000int) as u64;
    x4 ^ (x4 >> 31u64)
}

/// A deterministic pseudo-random offset in `[0, jitter)`; zero when `jitter` is not positive.
pub fn jitter_for(hash: u64, depth: usize, seed: u64, jitter: i64) -> (r: i64)
    ensures
        jitter <= 0 ==> r == 0,
        jitter > 0 ==> r == (spec_jitter_mix(hash, depth, seed) % (jitter as u64)) as i64,
        jitter > 0 ==> 0 <= r < jitter,
{
    if jitter <= 0 {
        return 0;
    }
    let mut x = hash ^ seed ^ (depth as u64).wrapping_mul(0x9e3779b97f4a7c15);
    x = x ^ (x >> 30);
    x = x.wrapping_mul(0xbf58476d1ce4e5b9);
    x = x ^ (x >> 27);
    x = x.wrapping_mul(0x94d049bb133111eb);
    x = x ^ (x >> 31);
    (x % jitter as u64) as i64
}

/// Some pair is nearest when both lists have points.
proof fn lemma_nearest_pair_exists(a: Seq<(i32, i32)>, b: Seq<(i32, i32)>, i: int, j: int)
    requires
        0 <= i < a.len(),
        0 <= j < b.len(),
    ensures
        exists|d: int| is_nearest_pair(a, b, d),
    decreases spec_manhattan(a[i], b[j]),
{
    let v = spec_manhattan(a[i], b[j]);
    if !is_nearest_pair(a, b, v) {
        assert(exists|p: int, q: int| 0 <= p < a.len() && 0 <= q < b.len() && v == spec_manhattan(#[trigger] a[p], #[trigger] b[q]));
        let (p, q) = choose|p: int, q: int| 0 <= p < a.len() && 0 <= q < b.len() && !(v <= spec_manhattan(#[trigger] a[p], #[trigger] b[q]));
        lemma_nearest_pair_exists(a, b, p, q);
    }
}

/// The nearest pair distance lies between 0 and twice the span of a 32-bit coordinate.
pub proof fn lemma_nearest_pair_bound(a: Seq<(i32, i32)>, b: Seq<(i32, i32)>)
    ensures
        0 <= spec_nearest_pair(a, b) <= 2 * (u32::MAX as int),
{
    if a.len() > 0 && b.len() > 0 {
        lemma_nearest_pair_exists(a, b, 0, 0);
        let d = spec_nearest_pair(a, b);
        let (p, q) = choose|p: int, q: int| 0 <= p < a.len() && 0 <= q < b.len() && d == spec_manhattan(#[trigger] a[p], #[trigger] b[q]);
    }
}

} // verus!
