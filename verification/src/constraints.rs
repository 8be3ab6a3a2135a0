//! Conditions a search may put on the boards it accepts as solved, and how they are read
//! from the command line.

use vstd::prelude::*;
use crate::model::{CellKind, Grid, PlayState};
use crate::cells::CellClass;
use crate::scan::{class_pred, count_of};
use crate::reachability::{reachable_count_of, reachable_rat_count, all_rats_reachable, trapped_unreachable_rat_count,
    player_reachable_cell_count, reachable_trigger_count, nearest_reachable_trigger_distance,
    spec_distance_from_player, distance_from_player};
use crate::features::{Features, spec_features};
use crate::nearest::min_dist;
use crate::heuristics::{trapped_count, unreachable_rats};
use crate::text::{chars_of, eq_lit, parse_usize, parse_u8};
use crate::parse::{p_usize, p_u8, spec_optional_point, parse_optional_point};

verus! {

/// Limits on the boards a search accepts; each `None` (or `false`) imposes nothing.
#[derive(Clone, Copy, Debug)]
pub struct TrapConstraints {
    pub min_reachable_rats: Option<usize>,
    pub all_rats_reachable: bool,
    pub max_unreachable_rats: Option<usize>,
    pub max_trapped_rats: Option<usize>,
    pub min_reachable_cells: Option<usize>,
    pub min_reachable_triggers: Option<usize>,
    pub require_reachable_trigger: Option<u8>,
    pub require_reachable_cell: Option<(i32, i32)>,
    pub min_explosives: Option<usize>,
    pub min_triggers: Option<usize>,
    pub max_webs: Option<usize>,
}

/// Constraints that impose nothing.
pub open spec fn no_constraints() -> TrapConstraints {
    TrapConstraints {
        min_reachable_rats: None,
        all_rats_reachable: false,
        max_unreachable_rats: None,
        max_trapped_rats: None,
        min_reachable_cells: None,
        min_reachable_triggers: None,
        require_reachable_trigger: None,
        require_reachable_cell: None,
        min_explosives: None,
        min_triggers: None,
        max_webs: None,
    }
}

impl Default for TrapConstraints {
    fn default() -> (c: Self)
        ensures
            c == no_constraints(),
    {
        TrapConstraints {
            min_reachable_rats: None,
            all_rats_reachable: false,
            max_unreachable_rats: None,
            max_trapped_rats: None,
            min_reachable_cells: None,
            min_reachable_triggers: None,
            require_reachable_trigger: None,
            require_reachable_cell: None,
            min_explosives: None,
            min_triggers: None,
            max_webs: None,
        }
    }
}

/// `v` satisfies `limit` when there is no limit or `v` is at least the limit.
pub open spec fn at_least(limit: Option<usize>, v: int) -> bool {
    match limit {
        Some(m) => v >= m,
        None => true,
    }
}

/// `v` satisfies `limit` when there is no limit or `v` is at most the limit.
pub open spec fn at_most(limit: Option<usize>, v: int) -> bool {
    match limit {
        Some(m) => v <= m,
        None => true,
    }
}

/// Whether a board passes the constraints: a won game always does; otherwise every limit
/// that is set holds of the board.
pub open spec fn spec_accepts(c: TrapConstraints, g: Grid, play_state: PlayState) -> bool {
    let f = spec_features(g);
    play_state == PlayState::Won || {
        &&& at_least(c.min_reachable_rats, reachable_count_of(g, CellClass::RatOrCyborg) as int)
        &&& (c.all_rats_reachable ==> reachable_count_of(g, CellClass::RatOrCyborg) == count_of(g, CellClass::RatOrCyborg))
        &&& at_most(c.max_unreachable_rats, unreachable_rats(g))
        &&& at_most(c.max_trapped_rats, trapped_count(g) as int)
        &&& at_least(c.min_reachable_cells, reachable_count_of(g, CellClass::AnyCell) as int)
        &&& at_least(c.min_reachable_triggers, reachable_count_of(g, CellClass::AnyTrigger) as int)
        &&& (c.require_reachable_trigger matches Some(n) ==>
            min_dist(g, class_pred(g, CellClass::Exactly(CellKind::Trigger(n)))) is Some)
        &&& (c.require_reachable_cell matches Some(p) ==> spec_distance_from_player(g, p) < 1000)
        &&& at_least(c.min_explosives, f.explosives as int)
        &&& at_least(c.min_triggers, f.triggers as int)
        &&& at_most(c.max_webs, f.webs as int)
    }
}

impl TrapConstraints {
    /// Whether a board passes the constraints; see `spec_accepts`.
    pub fn accepts(self, grid: &Grid, play_state: PlayState) -> (b: bool)
        ensures
            b == spec_accepts(self, *grid, play_state),
    {
        if play_state == PlayState::Won {
            return true;
        }
        let features = Features::from_grid(grid);
        let a = match self.min_reachable_rats {
            Some(m) => reachable_rat_count(grid) >= m,
            None => true,
        };
        let b = !self.all_rats_reachable || all_rats_reachable(grid);
        let c = match self.max_unreachable_rats {
            Some(m) => {
                let r = reachable_rat_count(grid);
                let u: usize = if features.rats >= r { features.rats - r } else { 0 };
                u <= m
            },
            None => true,
        };
        let d = match self.max_trapped_rats {
            Some(m) => trapped_unreachable_rat_count(grid) <= m,
            None => true,
        };
        let e = match self.min_reachable_cells {
            Some(m) => player_reachable_cell_count(grid) >= m,
            None => true,
        };
        let f = match self.min_reachable_triggers {
            Some(m) => reachable_trigger_count(grid) >= m,
            None => true,
        };
        let g = match self.require_reachable_trigger {
            Some(n) => nearest_reachable_trigger_distance(grid, n).is_some(),
            None => true,
        };
        let h = match self.require_reachable_cell {
            Some(p) => distance_from_player(grid, p) < 1000,
            None => true,
        };
        let i = match self.min_explosives {
            Some(m) => features.explosives >= m,
            None => true,
        };
        let j = match self.min_triggers {
            Some(m) => features.triggers >= m,
            None => true,
        };
        let k = match self.max_webs {
            Some(m) => features.webs <= m,
            None => true,
        };
        a && b && c && d && e && f && g && h && i && j && k
    }
}

/// The command line options that set a constraint.
#[derive(Clone, Copy, Debug, PartialEq, Eq, Structural)]
pub enum ConstraintFlag {
    AllRatsReachable,
    MinReachableRats,
    MaxTrappedRats,
    MaxUnreachableRats,
    MinReachableCells,
    MinReachableTriggers,
    RequireReachableTrigger,
    RequireReachableCell,
    MinExplosives,
    MinTriggers,
    MaxWebs,
}

/// Which constraint an option sets, with its long and short spellings.
pub open spec fn spec_constraint_flag(s: Seq<char>) -> Option<ConstraintFlag> {
    if s == "--all-rats-reachable"@ || s == "--all-reachable"@ {
        Some(ConstraintFlag::AllRatsReachable)
    } else if s == "--min-reachable-rats"@ || s == "--min-reachable"@ {
        Some(ConstraintFlag::MinReachableRats)
    } else if s == "--max-trapped-rats"@ || s == "--max-trapped"@ {
        Some(ConstraintFlag::MaxTrappedRats)
    } else if s == "--max-unreachable-rats"@ || s == "--max-unreachable"@ {
        Some(ConstraintFlag::MaxUnreachableRats)
    } else if s == "--min-reachable-cells"@ {
        Some(ConstraintFlag::MinReachableCells)
    } else if s == "--min-reachable-triggers"@ {
        Some(ConstraintFlag::MinReachableTriggers)
    } else if s == "--require-reachable-trigger"@ || s == "--next-trigger"@ {
        Some(ConstraintFlag::RequireReachableTrigger)
    } else if s == "--require-reachable-cell"@ || s == "--cleanup-cell"@ {
        Some(ConstraintFlag::RequireReachableCell)
    } else if s == "--min-explosives"@ {
        Some(ConstraintFlag::MinExplosives)
    } else if s == "--min-triggers"@ {
        Some(ConstraintFlag::MinTriggers)
    } else if s == "--max-webs"@ {
        Some(ConstraintFlag::MaxWebs)
    } else {
        None
    }
}

/// Which constraint an option sets, if any.
pub fn constraint_flag(s: &[char]) -> (r: Option<ConstraintFlag>)
    ensures
        r == spec_constraint_flag(s@),
{
    if eq_lit(s, "--all-rats-reachable") || eq_lit(s, "--all-reachable") {
        Some(ConstraintFlag::AllRatsReachable)
    } else if eq_lit(s, "--min-reachable-rats") || eq_lit(s, "--min-reachable") {
        Some(ConstraintFlag::MinReachableRats)
    } else if eq_lit(s, "--max-trapped-rats") || eq_lit(s, "--max-trapped") {
        Some(ConstraintFlag::MaxTrappedRats)
    } else if eq_lit(s, "--max-unreachable-rats") || eq_lit(s, "--max-unreachable") {
        Some(ConstraintFlag::MaxUnreachableRats)
    } else if eq_lit(s, "--min-reachable-cells") {
        Some(ConstraintFlag::MinReachableCells)
    } else if eq_lit(s, "--min-reachable-triggers") {
        Some(ConstraintFlag::MinReachableTriggers)
    } else if eq_lit(s, "--require-reachable-trigger") || eq_lit(s, "--next-trigger") {
        Some(ConstraintFlag::RequireReachableTrigger)
    } else if eq_lit(s, "--require-reachable-cell") || eq_lit(s, "--cleanup-cell") {
        Some(ConstraintFlag::RequireReachableCell)
    } else if eq_lit(s, "--min-explosives") {
        Some(ConstraintFlag::MinExplosives)
    } else if eq_lit(s, "--min-triggers") {
        Some(ConstraintFlag::MinTriggers)
    } else if eq_lit(s, "--max-webs") {
        Some(ConstraintFlag::MaxWebs)
    } else {
        None
    }
}

/// Why a constraint option could not be read.
#[derive(Clone, Copy, Debug, PartialEq, Eq, Structural)]
pub enum ArgError {
    /// The option is the last argument and has no value after it.
    MissingValue,
    /// The value after the option does not read as the option needs.
    BadValue,
}

/// The constraints after setting `flag` to the value read from `v`, or `None` when `v` does
/// not read as that option's value.
pub open spec fn spec_set_constraint(c: TrapConstraints, flag: ConstraintFlag, v: Seq<char>) -> Option<TrapConstraints> {
    match flag {
        ConstraintFlag::AllRatsReachable => Some(TrapConstraints { all_rats_reachable: true, ..c }),
        ConstraintFlag::RequireReachableTrigger => match p_u8(v) {
            Some(n) => Some(TrapConstraints { require_reachable_trigger: Some(n as u8), ..c }),
            None => None,
        },
        ConstraintFlag::RequireReachableCell => match spec_optional_point(v) {
            Some(p) => Some(TrapConstraints { require_reachable_cell: p, ..c }),
            None => None,
        },
        _ => match p_usize(v) {
            Some(n) => Some(match flag {
                ConstraintFlag::MinReachableRats => TrapConstraints { min_reachable_rats: Some(n as usize), ..c },
                ConstraintFlag::MaxTrappedRats => TrapConstraints { max_trapped_rats: Some(n as usize), ..c },
                ConstraintFlag::MaxUnreachableRats => TrapConstraints { max_unreachable_rats: Some(n as usize), ..c },
                ConstraintFlag::MinReachableCells => TrapConstraints { min_reachable_cells: Some(n as usize), ..c },
                ConstraintFlag::MinReachableTriggers => TrapConstraints { min_reachable_triggers: Some(n as usize), ..c },
                ConstraintFlag::MinExplosives => TrapConstraints { min_explosives: Some(n as usize), ..c },
                ConstraintFlag::MinTriggers => TrapConstraints { min_triggers: Some(n as usize), ..c },
                _ => TrapConstraints { max_webs: Some(n as usize), ..c },
            }),
            None => None,
        },
    }
}

/// Reads the constraint option at `args[index]`, if it is one, into `trap_constraints`.
/// Gives `Ok(None)` when the argument is no constraint option (nothing changes), and
/// `Ok(Some(next))` with the index of the next unread argument when it is: the option
/// `--all-rats-reachable` takes no value, every other one takes the argument after it. Gives
/// `Err(MissingValue)` when that argument is missing and `Err(BadValue)` when it does not
/// read; the constraints are then unchanged.
pub fn parse_trap_constraint_arg(args: &[String], index: usize, trap_constraints: &mut TrapConstraints) -> (r: Result<Option<usize>, ArgError>)
    requires
        index < args@.len(),
    ensures
        match spec_constraint_flag(args@[index as int]@) {
            None => r == Ok::<Option<usize>, ArgError>(None) && *final(trap_constraints) == *old(trap_constraints),
            Some(ConstraintFlag::AllRatsReachable) => r == Ok::<Option<usize>, ArgError>(Some((index + 1) as usize))
                && Some(*final(trap_constraints)) == spec_set_constraint(*old(trap_constraints), ConstraintFlag::AllRatsReachable, Seq::empty()),
            Some(flag) => if index + 1 >= args@.len() {
                r == Err::<Option<usize>, ArgError>(ArgError::MissingValue) && *final(trap_constraints) == *old(trap_constraints)
            } else {
                match spec_set_constraint(*old(trap_constraints), flag, args@[index + 1]@) {
                    Some(c) => r == Ok::<Option<usize>, ArgError>(Some((index + 2) as usize)) && *final(trap_constraints) == c,
                    None => r == Err::<Option<usize>, ArgError>(ArgError::BadValue) && *final(trap_constraints) == *old(trap_constraints),
                }
            },
        },
{
    let name = chars_of(args[index].as_str());
    let flag = match constraint_flag(&name) {
        None => return Ok(None),
        Some(f) => f,
    };
    if flag == ConstraintFlag::AllRatsReachable {
        trap_constraints.all_rats_reachable = true;
        return Ok(Some(index + 1));
    }
    if index + 1 >= args.len() {
        return Err(ArgError::MissingValue);
    }
    let value_str = args[index + 1].as_str();
    let value = chars_of(value_str);
    match flag {
        ConstraintFlag::RequireReachableTrigger => {
            match parse_u8(&value) {
                Some(n) => trap_constraints.require_reachable_trigger = Some(n),
                None => return Err(ArgError::BadValue),
            }
        },
        ConstraintFlag::RequireReachableCell => {
            match parse_optional_point(value_str) {
                Some(p) => trap_constraints.require_reachable_cell = p,
                None => return Err(ArgError::BadValue),
            }
        },
        _ => {
            let n = match parse_usize(&value) {
                Some(n) => n,
                None => return Err(ArgError::BadValue),
            };
            match flag {
                ConstraintFlag::MinReachableRats => trap_constraints.min_reachable_rats = Some(n),
                ConstraintFlag::MaxTrappedRats => trap_constraints.max_trapped_rats = Some(n),
                ConstraintFlag::MaxUnreachableRats => trap_constraints.max_unreachable_rats = Some(n),
                ConstraintFlag::MinReachableCells => trap_constraints.min_reachable_cells = Some(n),
                ConstraintFlag::MinReachableTriggers => trap_constraints.min_reachable_triggers = Some(n),
                ConstraintFlag::MinExplosives => trap_constraints.min_explosives = Some(n),
                ConstraintFlag::MinTriggers => trap_constraints.min_triggers = Some(n),
                _ => trap_constraints.max_webs = Some(n),
            }
        },
    }
    Ok(Some(index + 2))
}

} // verus!
