//! Counts and positions of the things on a board.

use vstd::prelude::*;
use crate::model::{CellKind, Grid, MAX_SIDE};
use crate::cells::{CellClass, class_has, is_rat, is_trigger};
use crate::scan::{positions_of, count_of, positions_matching, positions_matching_usize, count_matching, lemma_positions_of};

verus! {

/// Number of players.
pub fn count_players(grid: &Grid) -> (n: usize)
    ensures
        n == count_of(*grid, CellClass::Exactly(CellKind::Player)),
{
    count_matching(grid, CellClass::Exactly(CellKind::Player))
}

/// Number of rats, cyborg rats included.
pub fn count_rats(grid: &Grid) -> (n: usize)
    ensures
        n == count_of(*grid, CellClass::RatOrCyborg),
{
    count_matching(grid, CellClass::RatOrCyborg)
}

/// Number of cyborg rats.
pub fn count_cyborg_rats(grid: &Grid) -> (n: usize)
    ensures
        n == count_of(*grid, CellClass::Exactly(CellKind::CyborgRat)),
{
    count_matching(grid, CellClass::Exactly(CellKind::CyborgRat))
}

/// Number of ordinary rats.
pub fn count_normal_rats(grid: &Grid) -> (n: usize)
    ensures
        n == count_of(*grid, CellClass::Exactly(CellKind::Rat)),
{
    count_matching(grid, CellClass::Exactly(CellKind::Rat))
}

/// Number of explosives.
pub fn count_explosives(grid: &Grid) -> (n: usize)
    ensures
        n == count_of(*grid, CellClass::Exactly(CellKind::Explosive)),
{
    count_matching(grid, CellClass::Exactly(CellKind::Explosive))
}

/// Number of cells of one kind.
pub fn count_kind(grid: &Grid, kind: CellKind) -> (n: usize)
    ensures
        n == count_of(*grid, CellClass::Exactly(kind)),
{
    count_matching(grid, CellClass::Exactly(kind))
}

/// Number of triggers carrying `number`.
pub fn trigger_count(grid: &Grid, number: u8) -> (n: usize)
    ensures
        n == count_of(*grid, CellClass::Exactly(CellKind::Trigger(number))),
{
    count_matching(grid, CellClass::Exactly(CellKind::Trigger(number)))
}

/// Positions of the cells of one kind, in row-major order.
pub fn positions_for(grid: &Grid, kind: CellKind) -> (res: Vec<(usize, usize)>)
    ensures
        res@.len() == positions_of(*grid, CellClass::Exactly(kind)).len(),
        forall|i: int| 0 <= i < res@.len() ==>
            (#[trigger] res@[i].0 as int, res@[i].1 as int) == positions_of(*grid, CellClass::Exactly(kind))[i],
{
    positions_matching_usize(grid, CellClass::Exactly(kind))
}

/// Positions of the rats, cyborg rats included, in row-major order.
pub fn rat_positions(grid: &Grid) -> (res: Vec<(i32, i32)>)
    ensures
        res@.len() == positions_of(*grid, CellClass::RatOrCyborg).len(),
        forall|i: int| 0 <= i < res@.len() ==>
            (#[trigger] res@[i].0 as int, res@[i].1 as int) == positions_of(*grid, CellClass::RatOrCyborg)[i],
{
    positions_matching(grid, CellClass::RatOrCyborg)
}

/// Positions of the ordinary rats, in row-major order.
pub fn normal_rat_positions(grid: &Grid) -> (res: Vec<(i32, i32)>)
    ensures
        res@.len() == positions_of(*grid, CellClass::Exactly(CellKind::Rat)).len(),
        forall|i: int| 0 <= i < res@.len() ==>
            (#[trigger] res@[i].0 as int, res@[i].1 as int) == positions_of(*grid, CellClass::Exactly(CellKind::Rat))[i],
{
    positions_matching(grid, CellClass::Exactly(CellKind::Rat))
}

/// Positions of the cyborg rats, in row-major order.
pub fn cyborg_rat_positions(grid: &Grid) -> (res: Vec<(i32, i32)>)
    ensures
        res@.len() == positions_of(*grid, CellClass::Exactly(CellKind::CyborgRat)).len(),
        forall|i: int| 0 <= i < res@.len() ==>
            (#[trigger] res@[i].0 as int, res@[i].1 as int) == positions_of(*grid, CellClass::Exactly(CellKind::CyborgRat))[i],
{
    positions_matching(grid, CellClass::Exactly(CellKind::CyborgRat))
}

/// Positions of the players, in row-major order.
pub fn player_positions(grid: &Grid) -> (res: Vec<(i32, i32)>)
    ensures
        res@.len() == positions_of(*grid, CellClass::Exactly(CellKind::Player)).len(),
        forall|i: int| 0 <= i < res@.len() ==>
            (#[trigger] res@[i].0 as int, res@[i].1 as int) == positions_of(*grid, CellClass::Exactly(CellKind::Player))[i],
{
    positions_matching(grid, CellClass::Exactly(CellKind::Player))
}

/// Positions of the triggers carrying `number`, in row-major order.
pub fn trigger_positions(grid: &Grid, number: u8) -> (res: Vec<(i32, i32)>)
    ensures
        res@.len() == positions_of(*grid, CellClass::Exactly(CellKind::Trigger(number))).len(),
        forall|i: int| 0 <= i < res@.len() ==>
            (#[trigger] res@[i].0 as int, res@[i].1 as int) == positions_of(*grid, CellClass::Exactly(CellKind::Trigger(number)))[i],
{
    positions_matching(grid, CellClass::Exactly(CellKind::Trigger(number)))
}

/// The triggers with their numbers, in row-major order.
pub fn trigger_cells(grid: &Grid) -> (res: Vec<((i32, i32), u8)>)
    ensures
        res@.len() == positions_of(*grid, CellClass::AnyTrigger).len(),
        forall|i: int| 0 <= i < res@.len() ==> {
            let p = positions_of(*grid, CellClass::AnyTrigger)[i];
            &&& (#[trigger] res@[i].0.0 as int, res@[i].0.1 as int) == p
            &&& grid.kind_at(p.0, p.1) == CellKind::Trigger(res@[i].1)
        },
{
    let ps = positions_matching(grid, CellClass::AnyTrigger);
    proof {
        crate::scan::lemma_positions_of(*grid, CellClass::AnyTrigger);
    }
    let mut res: Vec<((i32, i32), u8)> = Vec::new();
    let mut i: usize = 0;
    while i < ps.len()
        invariant
            i <= ps@.len(),
            ps@.len() == positions_of(*grid, CellClass::AnyTrigger).len(),
            forall|j: int| 0 <= j < ps@.len() ==>
                (#[trigger] ps@[j].0 as int, ps@[j].1 as int) == positions_of(*grid, CellClass::AnyTrigger)[j],
            forall|j: int| 0 <= j < positions_of(*grid, CellClass::AnyTrigger).len() ==> {
                let p = #[trigger] positions_of(*grid, CellClass::AnyTrigger)[j];
                &&& grid.in_bounds(p.0, p.1)
                &&& crate::cells::class_has(CellClass::AnyTrigger, grid.kind_at(p.0, p.1), p.1)
            },
            res@.len() == i,
            forall|j: int| 0 <= j < i ==> {
                let p = positions_of(*grid, CellClass::AnyTrigger)[j];
                &&& (#[trigger] res@[j].0.0 as int, res@[j].0.1 as int) == p
                &&& grid.kind_at(p.0, p.1) == CellKind::Trigger(res@[j].1)
            },
        decreases ps@.len() - i,
    {
        let (x, y) = ps[i];
        proof {
            assert((ps@[i as int].0 as int, ps@[i as int].1 as int) == positions_of(*grid, CellClass::AnyTrigger)[i as int]);
        }
        match grid.cell_kind_at(x as usize, y as usize) {
            CellKind::Trigger(n) => {
                res.push(((x, y), n));
            },
            _ => {
                proof {
                    assert(false);
                }
            },
        }
        i = i + 1;
    }
    res
}

/// The rats in row three or below, used as lures; all rats when there are none there.
pub fn tinder_lure_rat_positions(grid: &Grid) -> (res: Vec<(i32, i32)>)
    ensures
        ({
            let low = positions_of(*grid, CellClass::LowRat);
            let chosen = if low.len() > 0 { low } else { positions_of(*grid, CellClass::RatOrCyborg) };
            &&& res@.len() == chosen.len()
            &&& forall|i: int| 0 <= i < res@.len() ==> (#[trigger] res@[i].0 as int, res@[i].1 as int) == chosen[i]
        }),
{
    let low = positions_matching(grid, CellClass::LowRat);
    if low.len() == 0 {
        positions_matching(grid, CellClass::RatOrCyborg)
    } else {
        low
    }
}

/// The first player in row-major order.
pub fn find_player(grid: &Grid) -> (res: Option<(i32, i32)>)
    ensures
        ({
            let ps = positions_of(*grid, CellClass::Exactly(CellKind::Player));
            &&& res is None <==> ps.len() == 0
            &&& res matches Some(p) ==> (p.0 as int, p.1 as int) == ps[0]
        }),
{
    let ps = positions_matching(grid, CellClass::Exactly(CellKind::Player));
    if ps.len() == 0 {
        None
    } else {
        Some(ps[0])
    }
}

/// How many rats, explosives, webs, triggers, planks and walls a board holds.
#[derive(Clone, Copy, Debug, PartialEq, Eq, Structural)]
pub struct Features {
    pub rats: usize,
    pub explosives: usize,
    pub webs: usize,
    pub triggers: usize,
    pub planks: usize,
    pub walls: usize,
}

/// The features of a board.
pub open spec fn spec_features(g: Grid) -> Features {
    Features {
        rats: count_of(g, CellClass::RatOrCyborg) as usize,
        explosives: count_of(g, CellClass::Exactly(CellKind::Explosive)) as usize,
        webs: count_of(g, CellClass::Exactly(CellKind::Spiderweb)) as usize,
        triggers: count_of(g, CellClass::AnyTrigger) as usize,
        planks: count_of(g, CellClass::Exactly(CellKind::Plank)) as usize,
        walls: count_of(g, CellClass::Exactly(CellKind::Wall)) as usize,
    }
}

impl Features {
    /// Counts the features of a board.
    pub fn from_grid(grid: &Grid) -> (f: Features)
        ensures
            f == spec_features(*grid),
            f.rats as int == count_of(*grid, CellClass::RatOrCyborg),
            f.explosives as int == count_of(*grid, CellClass::Exactly(CellKind::Explosive)),
            f.webs as int == count_of(*grid, CellClass::Exactly(CellKind::Spiderweb)),
            f.triggers as int == count_of(*grid, CellClass::AnyTrigger),
            f.planks as int == count_of(*grid, CellClass::Exactly(CellKind::Plank)),
            f.walls as int == count_of(*grid, CellClass::Exactly(CellKind::Wall)),
            f.rats <= MAX_SIDE * MAX_SIDE,
            f.explosives <= MAX_SIDE * MAX_SIDE,
            f.webs <= MAX_SIDE * MAX_SIDE,
            f.triggers <= MAX_SIDE * MAX_SIDE,
            f.planks <= MAX_SIDE * MAX_SIDE,
            f.walls <= MAX_SIDE * MAX_SIDE,
    {
        Features {
            rats: count_matching(grid, CellClass::RatOrCyborg),
            explosives: count_matching(grid, CellClass::Exactly(CellKind::Explosive)),
            webs: count_matching(grid, CellClass::Exactly(CellKind::Spiderweb)),
            triggers: count_matching(grid, CellClass::AnyTrigger),
            planks: count_matching(grid, CellClass::Exactly(CellKind::Plank)),
            walls: count_matching(grid, CellClass::Exactly(CellKind::Wall)),
        }
    }

    /// Whether two sets of features are equal in every count.
    pub fn same(&self, other: &Features) -> (b: bool)
        ensures
            b == (*self == *other),
    {
        self.rats == other.rats && self.explosives == other.explosives && self.webs == other.webs
            && self.triggers == other.triggers && self.planks == other.planks && self.walls == other.walls
    }
}

/// Penalty for a board where rats remain but nothing is left to kill them with.
pub open spec fn spec_resource_exhaustion_penalty(f: Features) -> int {
    if f.rats > 0 && f.triggers == 0 && f.explosives == 0 {
        f.rats * 20_000_000
    } else {
        0
    }
}

/// Penalty for a board where rats remain but no triggers or explosives do.
pub fn resource_exhaustion_penalty(features: Features) -> (p: i64)
    requires
        features.rats * 20_000_000 <= i64::MAX,
    ensures
        p == spec_resource_exhaustion_penalty(features),
{
    if features.rats > 0 && features.triggers == 0 && features.explosives == 0 {
        features.rats as i64 * 20_000_000
    } else {
        0
    }
}

/// Whether a rat or cyborg rat stands at `target`.
pub open spec fn spec_rat_at(g: Grid, target: (i32, i32)) -> bool {
    target.0 >= 0 && target.1 >= 0 && is_rat(g.kind_at(target.0 as int, target.1 as int))
}

/// Whether a rat or cyborg rat stands at `target`.
pub fn rat_at(grid: &Grid, target: (i32, i32)) -> (b: bool)
    ensures
        b == spec_rat_at(*grid, target),
{
    target.0 >= 0 && target.1 >= 0 && crate::cells::rat_or_cyborg(grid.cell_kind_at(target.0 as usize, target.1 as usize))
}

/// Whether a player stands at `p`.
pub open spec fn player_at(g: Grid, p: (i32, i32)) -> bool {
    g.in_bounds(p.0 as int, p.1 as int) && g.kind_at(p.0 as int, p.1 as int) == CellKind::Player
}

/// Whether a player stands at `p`.
pub fn player_at_point(grid: &Grid, p: (i32, i32)) -> (b: bool)
    ensures
        b == player_at(*grid, p),
{
    p.0 >= 0 && p.1 >= 0 && (p.0 as usize) < grid.width() && (p.1 as usize) < grid.height()
        && grid.cell_kind_at(p.0 as usize, p.1 as usize) == CellKind::Player
}

/// Whether `targets` is empty or a player stands on one of them.
pub fn player_at_any(grid: &Grid, targets: &[(i32, i32)]) -> (b: bool)
    ensures
        b == (targets@.len() == 0 || exists|i: int| 0 <= i < targets@.len() && player_at(*grid, #[trigger] targets@[i])),
{
    if targets.len() == 0 {
        return true;
    }
    let mut i: usize = 0;
    while i < targets.len()
        invariant
            i <= targets@.len(),
            forall|j: int| 0 <= j < i ==> !player_at(*grid, #[trigger] targets@[j]),
        decreases targets@.len() - i,
    {
        if player_at_point(grid, targets[i]) {
            return true;
        }
        i = i + 1;
    }
    false
}

/// Whether a rat stands on one of `targets`.
pub fn rat_at_any(grid: &Grid, targets: &[(i32, i32)]) -> (b: bool)
    ensures
        b == exists|i: int| 0 <= i < targets@.len() && spec_rat_at(*grid, #[trigger] targets@[i]),
{
    let mut i: usize = 0;
    while i < targets.len()
        invariant
            i <= targets@.len(),
            forall|j: int| 0 <= j < i ==> !spec_rat_at(*grid, #[trigger] targets@[j]),
        decreases targets@.len() - i,
    {
        if rat_at(grid, targets[i]) {
            return true;
        }
        i = i + 1;
    }
    false
}

/// Whether a rat stands at `rat_target` while a player stands on one of `safe_targets`
/// (or there are none).
pub fn lure_reached(grid: &Grid, rat_target: (i32, i32), safe_targets: &[(i32, i32)]) -> (b: bool)
    ensures
        b == (spec_rat_at(*grid, rat_target) && (safe_targets@.len() == 0
            || exists|i: int| 0 <= i < safe_targets@.len() && player_at(*grid, #[trigger] safe_targets@[i]))),
{
    rat_at(grid, rat_target) && player_at_any(grid, safe_targets)
}

} // verus!
