//! Classes of cells and small facts about single cells.

use vstd::prelude::*;
use crate::model::{CellKind, Dir4};

verus! {

/// A class of cells that a scan of the board looks for.
#[derive(Clone, Copy, Debug, PartialEq, Eq, Structural)]
pub enum CellClass {
    /// Exactly this kind.
    Exactly(CellKind),
    /// A rat or a cyborg rat.
    RatOrCyborg,
    /// A trigger of any number.
    AnyTrigger,
    /// A rat, a cyborg rat, a trigger or an explosive.
    EventTarget,
    /// A rat or a cyborg rat in a row at index three or below.
    LowRat,
    /// Any cell at all.
    AnyCell,
}

pub open spec fn is_rat(k: CellKind) -> bool {
    k == CellKind::Rat || k == CellKind::CyborgRat
}

pub open spec fn is_trigger(k: CellKind) -> bool {
    k is Trigger
}

/// Whether a cell of kind `k` in row `y` belongs to class `c`.
pub open spec fn class_has(c: CellClass, k: CellKind, y: int) -> bool {
    match c {
        CellClass::Exactly(kind) => k == kind,
        CellClass::RatOrCyborg => is_rat(k),
        CellClass::AnyTrigger => is_trigger(k),
        CellClass::EventTarget => is_rat(k) || is_trigger(k) || k == CellKind::Explosive,
        CellClass::LowRat => is_rat(k) && y >= 3,
        CellClass::AnyCell => true,
    }
}

impl CellClass {
    /// Whether a cell of kind `k` in row `y` belongs to this class.
    pub fn has(&self, k: CellKind, y: usize) -> (b: bool)
        ensures
            b == class_has(*self, k, y as int),
    {
        match self {
            CellClass::Exactly(kind) => k == *kind,
            CellClass::RatOrCyborg => rat_or_cyborg(k),
            CellClass::AnyTrigger => trigger_cell(k),
            CellClass::EventTarget => rat_or_cyborg(k) || trigger_cell(k) || k == CellKind::Explosive,
            CellClass::LowRat => rat_or_cyborg(k) && y >= 3,
            CellClass::AnyCell => true,
        }
    }
}

/// A rat or a cyborg rat.
pub fn rat_or_cyborg(cell: CellKind) -> (b: bool)
    ensures
        b == is_rat(cell),
{
    matches!(cell, CellKind::Rat | CellKind::CyborgRat)
}

/// A player.
pub fn player_cell(cell: CellKind) -> (b: bool)
    ensures
        b == (cell == CellKind::Player),
{
    cell == CellKind::Player
}

/// An explosive.
pub fn explosive_cell(cell: CellKind) -> (b: bool)
    ensures
        b == (cell == CellKind::Explosive),
{
    cell == CellKind::Explosive
}

/// A trigger of any number.
pub fn trigger_cell(cell: CellKind) -> (b: bool)
    ensures
        b == is_trigger(cell),
{
    matches!(cell, CellKind::Trigger(_))
}

/// A spider web.
pub fn web_cell(cell: CellKind) -> (b: bool)
    ensures
        b == (cell == CellKind::Spiderweb),
{
    cell == CellKind::Spiderweb
}

/// A plank.
pub fn plank_cell(cell: CellKind) -> (b: bool)
    ensures
        b == (cell == CellKind::Plank),
{
    cell == CellKind::Plank
}

/// Cells a rat may ever occupy: everything but walls and webs.
pub fn rat_walkable_static(cell: CellKind) -> (b: bool)
    ensures
        b == !(cell == CellKind::Wall || cell == CellKind::Spiderweb),
{
    !matches!(cell, CellKind::Wall | CellKind::Spiderweb)
}

/// Cells a rat may step onto now: not walls, rats or webs.
pub fn rat_can_step_on(cell: CellKind) -> (b: bool)
    ensures
        b == !(cell == CellKind::Wall || is_rat(cell) || cell == CellKind::Spiderweb),
{
    !matches!(cell, CellKind::Wall | CellKind::Rat | CellKind::CyborgRat | CellKind::Spiderweb)
}

/// Numeric code of a cell kind: 0 to 8 for the plain kinds, 9 plus the number for a trigger.
pub open spec fn spec_cell_kind_code(kind: CellKind) -> u32 {
    match kind {
        CellKind::Empty => 0,
        CellKind::Wall => 1,
        CellKind::Player => 2,
        CellKind::Rat => 3,
        CellKind::CyborgRat => 4,
        CellKind::Plank => 5,
        CellKind::Spiderweb => 6,
        CellKind::BlackHole => 7,
        CellKind::Explosive => 8,
        CellKind::Trigger(n) => (9 + n) as u32,
    }
}

/// Numeric code of a cell kind.
pub fn cell_kind_code(kind: CellKind) -> (c: u32)
    ensures
        c == spec_cell_kind_code(kind),
        c < 265,
{
    match kind {
        CellKind::Empty => 0,
        CellKind::Wall => 1,
        CellKind::Player => 2,
        CellKind::Rat => 3,
        CellKind::CyborgRat => 4,
        CellKind::Plank => 5,
        CellKind::Spiderweb => 6,
        CellKind::BlackHole => 7,
        CellKind::Explosive => 8,
        CellKind::Trigger(n) => 9 + n as u32,
    }
}

/// The step `(dx, dy)` of a direction; north is up, towards smaller `y`.
pub open spec fn spec_dir4_delta(dir: Dir4) -> (int, int) {
    match dir {
        Dir4::North => (0, -1),
        Dir4::South => (0, 1),
        Dir4::East => (1, 0),
        Dir4::West => (-1, 0),
    }
}

/// The step `(dx, dy)` of a direction.
pub fn dir4_delta(dir: Dir4) -> (d: (i32, i32))
    ensures
        (d.0 as int, d.1 as int) == spec_dir4_delta(dir),
{
    match dir {
        Dir4::North => (0, -1),
        Dir4::South => (0, 1),
        Dir4::East => (1, 0),
        Dir4::West => (-1, 0),
    }
}

} // verus!
