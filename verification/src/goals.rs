//! Lookup goals: what a lookup search is asked to reach, read from text, and when a board reaches it.

use vstd::prelude::*;
use crate::model::{CellKind, Dir4, Grid, PlayState};
use crate::cells::CellClass;
use crate::text::{split, chars_of, trim, trim_chars, parse_u8, parse_usize, eq_lit};
use crate::parse::{p_u8, p_usize, spec_dir4_name, parse_dir4_chars, spec_optional_point, parse_optional_point_chars};
use crate::fields::{FieldType, Field, spec_fields, read_fields, fi, fc, fn8, fk, fd, fl};
use crate::scan::{count_of, count_matching};
use crate::features::{spec_rat_at, rat_at, player_at, player_at_point};
use crate::reachability::{reachable_count_of, spec_distance_from_player, distance_from_player, reachable_rat_count, player_reachable_cell_count};
use crate::queries::{kind_at_i32, cell_at, class_in_rect, class_in_rect_exec, spec_player_facing, player_facing,
    spec_rat_component_size_at, rat_component_size_at, spec_max_component_in_rect, max_rat_component_size_in_rect,
    spec_nearest_player_distance, nearest_player_distance_from, spec_only_trigger_changed, only_trigger_changed,
    spec_rectangle_lower_ready, rectangle_lower_ready, spec_rectangle_lower_separated, rectangle_lower_separated,
    spec_rectangle_lower_ignition_ready, rectangle_lower_ignition_ready};

verus! {

/// A goal for the lookup search. Points are `x, y`; rectangles are two corners.
#[derive(Clone, Copy, Debug, PartialEq, Eq, Structural)]
pub enum LookupGoal {
    /// Reached when the level is won.
    Win,
    /// Reached when the level is won, or one more turn can win it.
    WinReady,
    /// Reached when the level is won, or one more turn can win it; searched with the sword heuristic.
    SwordReady,
    /// Reached when a move (in the given direction, if any) kills a cyborg rat without losing a player, keeping a normal rat alive when asked.
    CyborgKillReady(Option<Dir4>, bool),
    /// Reached when the level is won, or one more turn can win it; searched with the rectangle heuristic.
    RectangleReady,
    /// Reached when the rectangle level's lower trap is ready.
    RectangleLowerReady,
    /// Reached when the rectangle level's rat is separated from the player.
    RectangleLowerSeparated,
    /// Reached when the rectangle level is ready to ignite.
    RectangleLowerIgnition,
    /// Reached when fewer triggers carry the number than at first.
    TriggerNumber(u8),
    /// Reached when only triggers carrying the number were used up.
    TriggerNumberOnly(u8),
    /// Reached when fewer triggers carry the number and the players can walk to at least that many cells.
    TriggerNumberOpen(u8, usize),
    /// Reached when the cell no longer holds what it held at first.
    CellChanged(i32, i32),
    /// Reached when the cell holds the kind.
    CellIs(i32, i32, CellKind),
    /// Reached when the cell holds the kind and a player stands at the second point.
    CellIsWithPlayerAt(i32, i32, CellKind, i32, i32),
    /// Reached when the cell does not hold the kind.
    CellNot(i32, i32, CellKind),
    /// Reached when the first cell does not hold the first kind and the second cell holds the second kind.
    CellNotWithCellIs(i32, i32, CellKind, i32, i32, CellKind),
    /// Reached when the cell does not hold the kind and a rat stands at the second point.
    CellNotAndRatAt(i32, i32, CellKind, i32, i32),
    /// Reached when the cell does not hold the kind and a player stands at the second point.
    CellNotWithPlayerAt(i32, i32, CellKind, i32, i32),
    /// Reached when the cell does not hold the kind and a player stands in the rectangle.
    CellNotWithPlayerInRect(i32, i32, CellKind, i32, i32, i32, i32),
    /// Reached when the cell does not hold the kind and a rat stands in the rectangle.
    CellNotWithRatInRect(i32, i32, CellKind, i32, i32, i32, i32),
    /// Reached when the cell does not hold the kind, a rat stands in the first rectangle and a player in the second.
    CellNotWithRatInRectAndPlayerInRect(i32, i32, CellKind, i32, i32, i32, i32, i32, i32, i32, i32),
    /// Reached when the cell does not hold the kind and no rat stands in the rectangle.
    CellNotWithNoRatsInRect(i32, i32, CellKind, i32, i32, i32, i32),
    /// Reached when a player can walk to the cell in fewer than 1000 steps.
    CellReachable(i32, i32),
    /// Reached when a player stands at the point.
    PlayerAt(i32, i32),
    /// Reached when the player at the point faces the direction.
    PlayerFacing(i32, i32, Dir4),
    /// Reached when one more turn can bring a rat onto the point.
    RatStepReady(i32, i32),
    /// Reached when a rat stands at the point.
    RatAt(i32, i32),
    /// Reached when a rat stands at the point in a region of at least that many cells.
    RatComponentAtLeast(i32, i32, usize),
    /// Reached when the largest region around a rat in the rectangle has at least that many cells.
    RatRectComponentAtLeast(i32, i32, i32, i32, usize),
    /// Reached when a rat stands at the point at least that far from the nearest player.
    RatAtFarFromPlayer(i32, i32, i64),
    /// Reached when a rat stands at the first point and a player at the second.
    RatAtWithPlayer(i32, i32, i32, i32),
    /// Reached when a rat stands in the first rectangle and a player in the second.
    RatInRectWithPlayerInRect(i32, i32, i32, i32, i32, i32, i32, i32),
    /// Reached when a rat stands in the first rectangle, a player in the second, and the cell holds the kind.
    RatInRectWithPlayerInRectAndCellIs(i32, i32, i32, i32, i32, i32, i32, i32, i32, i32, CellKind),
    /// Reached when a rat stands in the first rectangle, a player in the second, and the cell does not hold the kind.
    RatInRectWithPlayerInRectAndCellNot(i32, i32, i32, i32, i32, i32, i32, i32, i32, i32, CellKind),
    /// Reached when a rat stands in the rectangle and the cell holds the kind.
    RatInRectWithCellIs(i32, i32, i32, i32, i32, i32, CellKind),
    /// Reached when a normal rat stands in the first rectangle and a cyborg rat in the second.
    NormalRatInRectWithCyborgInRect(i32, i32, i32, i32, i32, i32, i32, i32),
    /// Reached when a normal rat, a cyborg rat and a player stand in their rectangles.
    NormalRatInRectWithCyborgInRectAndPlayerInRect(i32, i32, i32, i32, i32, i32, i32, i32, i32, i32, i32, i32),
    /// Reached when a rat stands at the first point and the player at the second faces the direction.
    RatAtWithPlayerFacing(i32, i32, i32, i32, Dir4),
    /// Reached when a rat stands at the first point and the cell holds the kind.
    RatAtWithCell(i32, i32, i32, i32, CellKind),
    /// Reached when no rat stands at the point.
    RatGone(i32, i32),
    /// Reached when no rat stands at either point.
    NoRatsAt2(i32, i32, i32, i32),
    /// Reached when no rat stands in the rectangle.
    NoRatsInRect(i32, i32, i32, i32),
    /// Reached when at most that many rats remain.
    RatsAtMost(usize),
    /// Reached when the players can walk to at least that many rats.
    ReachableRatsAtLeast(usize),
    /// Reached when the players can walk to every rat.
    AllRatsReachable,
    /// Reached when at most that many cyborg rats remain.
    CyborgsAtMost(usize),
    /// Reached when at most that many triggers remain.
    TriggersAtMost(usize),
    /// Reached when at most that many explosives remain.
    ExplosivesAtMost(usize),
    /// Reached when at most that many webs remain.
    WebsAtMost(usize),
    /// Reached when fewer rats remain than at first.
    RatDrop,
    /// Reached when at most that many rats remain and the cell holds the kind.
    RatsAtMostWithCellIs(usize, i32, i32, CellKind),
    /// Reached when at most that many rats remain and the cell does not hold the kind.
    RatsAtMostWithCellNot(usize, i32, i32, CellKind),
    /// Reached when at most that many rats remain and one stands in the rectangle.
    RatsAtMostWithRatInRect(usize, i32, i32, i32, i32),
    /// Reached when at most that many rats remain, one stands in the first rectangle and a player in the second.
    RatsAtMostWithRatInRectAndPlayerInRect(usize, i32, i32, i32, i32, i32, i32, i32, i32),
    /// Reached when at most that many rats remain and a player stands at the point.
    RatsAtMostWithPlayerAt(usize, i32, i32),
    /// Reached when at most that many rats remain and the player at the point faces the direction.
    RatsAtMostWithPlayerFacing(usize, i32, i32, Dir4),
    /// Reached when only triggers carrying the number were used up and the cell holds the kind.
    TriggerNumberOnlyWithCellIs(u8, i32, i32, CellKind),
    /// Reached when only triggers carrying the number were used up and the cell does not hold the kind.
    TriggerNumberOnlyWithCellNot(u8, i32, i32, CellKind),
    /// Reached when only triggers carrying the number were used up, the first cell does not hold the first kind and the second cell holds the second kind.
    TriggerNumberOnlyWithCellNotAndCellIs(u8, i32, i32, CellKind, i32, i32, CellKind),
}

/// Where the first `:` of `s` stands.
pub open spec fn first_colon(s: Seq<char>) -> Option<int>
    decreases s.len(),
{
    if s.len() == 0 {
        None
    } else if s[0] == ':' {
        Some(0)
    } else {
        match first_colon(s.drop_first()) {
            Some(i) => Some(i + 1),
            None => None,
        }
    }
}

proof fn lemma_first_colon(s: Seq<char>, i: int)
    requires
        0 <= i <= s.len(),
        forall|j: int| 0 <= j < i ==> s[j] != ':',
    ensures
        i < s.len() && s[i] == ':' ==> first_colon(s) == Some(i),
        i == s.len() ==> first_colon(s) is None,
    decreases i,
{
    if i > 0 {
        let t = s.drop_first();
        assert forall|j: int| 0 <= j < i - 1 implies t[j] != ':' by {
            assert(t[j] == s[j + 1]);
        }
        lemma_first_colon(t, i - 1);
        if i < s.len() {
            assert(t[i - 1] == s[i]);
        }
    }
}

/// The position of the first `:` in `s`.
fn find_colon(s: &[char]) -> (r: Option<usize>)
    ensures
        r matches Some(i) ==> first_colon(s@) == Some(i as int) && i < s@.len(),
        r is None ==> first_colon(s@) is None,
{
    let mut i: usize = 0;
    while i < s.len()
        invariant
            i <= s@.len(),
            forall|j: int| 0 <= j < i ==> s@[j] != ':',
        decreases s@.len() - i,
    {
        if s[i] == ':' {
            proof {
                lemma_first_colon(s@, i as int);
            }
            return Some(i);
        }
        i = i + 1;
    }
    proof {
        lemma_first_colon(s@, i as int);
    }
    None
}

/// A goal named without arguments.
pub open spec fn spec_goal_plain(s: Seq<char>) -> Option<LookupGoal> {
     if s == "win"@ {
        Some(LookupGoal::Win)
    } else if s == "readywin"@ || s == "winready"@ {
        Some(LookupGoal::WinReady)
    } else if s == "swordready"@ || s == "killready"@ {
        Some(LookupGoal::SwordReady)
    } else if s == "cyborgkillready"@ || s == "cyborg-kill-ready"@ {
        Some(LookupGoal::CyborgKillReady(None, false))
    } else if s == "cyborgkillreadyratlive"@ || s == "cyborg-kill-ready-rat-live"@ {
        Some(LookupGoal::CyborgKillReady(None, true))
    } else if s == "rectready"@ || s == "rectangle-ready"@ {
        Some(LookupGoal::RectangleReady)
    } else if s == "rectlower"@ || s == "rectangle-lower"@ {
        Some(LookupGoal::RectangleLowerReady)
    } else if s == "rectsep"@ || s == "rectangle-lower-separated"@ {
        Some(LookupGoal::RectangleLowerSeparated)
    } else if s == "rectignite"@ || s == "rectangle-lower-ignition"@ {
        Some(LookupGoal::RectangleLowerIgnition)
    } else if s == "allreachable"@ || s == "all-rats-reachable"@ {
        Some(LookupGoal::AllRatsReachable)
    } else if s == "ratdrop"@ {
        Some(LookupGoal::RatDrop)
    } else {
        None
    }
}

fn parse_goal_plain(s: &[char]) -> (r: Option<LookupGoal>)
    ensures
        r == spec_goal_plain(s@),
{
     if eq_lit(s, "win") {
        Some(LookupGoal::Win)
    } else if eq_lit(s, "readywin") || eq_lit(s, "winready") {
        Some(LookupGoal::WinReady)
    } else if eq_lit(s, "swordready") || eq_lit(s, "killready") {
        Some(LookupGoal::SwordReady)
    } else if eq_lit(s, "cyborgkillready") || eq_lit(s, "cyborg-kill-ready") {
        Some(LookupGoal::CyborgKillReady(None, false))
    } else if eq_lit(s, "cyborgkillreadyratlive") || eq_lit(s, "cyborg-kill-ready-rat-live") {
        Some(LookupGoal::CyborgKillReady(None, true))
    } else if eq_lit(s, "rectready") || eq_lit(s, "rectangle-ready") {
        Some(LookupGoal::RectangleReady)
    } else if eq_lit(s, "rectlower") || eq_lit(s, "rectangle-lower") {
        Some(LookupGoal::RectangleLowerReady)
    } else if eq_lit(s, "rectsep") || eq_lit(s, "rectangle-lower-separated") {
        Some(LookupGoal::RectangleLowerSeparated)
    } else if eq_lit(s, "rectignite") || eq_lit(s, "rectangle-lower-ignition") {
        Some(LookupGoal::RectangleLowerIgnition)
    } else if eq_lit(s, "allreachable") || eq_lit(s, "all-rats-reachable") {
        Some(LookupGoal::AllRatsReachable)
    } else if eq_lit(s, "ratdrop") {
        Some(LookupGoal::RatDrop)
    } else {
        None
    }
}

/// Goals named `kind:arg`, part 1; `None` when `kind` names none of them.
pub open spec fn spec_goal_arg_0(k: Seq<char>, a: Seq<char>) -> Option<Option<LookupGoal>> {
     if k == "cyborgkillready"@ || k == "cyborg-kill-ready"@ {
        Some(match spec_dir4_name(trim(a)) { Some(d) => Some(LookupGoal::CyborgKillReady(Some(d), false)), None => None })
    } else if k == "cyborgkillreadyratlive"@ || k == "cyborg-kill-ready-rat-live"@ {
        Some(match spec_dir4_name(trim(a)) { Some(d) => Some(LookupGoal::CyborgKillReady(Some(d), true)), None => None })
    } else if k == "trigger"@ {
        Some(match p_u8(a) { Some(n) => Some(LookupGoal::TriggerNumber(n as u8)), None => None })
    } else if k == "triggeronly"@ || k == "triggerstrict"@ || k == "triggerexact"@ {
        Some(match p_u8(a) { Some(n) => Some(LookupGoal::TriggerNumberOnly(n as u8)), None => None })
    } else if k == "triggeropen"@ || k == "triggerreachable"@ {
        Some(match spec_fields(a, seq![FieldType::Num, FieldType::Count]) { Some(f) => Some(LookupGoal::TriggerNumberOpen(fn8(f[0]), fc(f[1]))), None => None })
    } else if k == "cell"@ || k == "cellchanged"@ {
        Some(match spec_optional_point(a) { Some(Some(p)) => Some(LookupGoal::CellChanged(p.0, p.1)), _ => None })
    } else if k == "cellis"@ || k == "cellkind"@ {
        Some(match spec_fields(a, seq![FieldType::Int, FieldType::Int, FieldType::Kind]) { Some(f) => Some(LookupGoal::CellIs(fi(f[0]), fi(f[1]), fk(f[2]))), None => None })
    } else if k == "cellisplayer"@ || k == "cellisplayerat"@ || k == "cellis-and-playerat"@ {
        Some(match spec_fields(a, seq![FieldType::Int, FieldType::Int, FieldType::Kind, FieldType::Int, FieldType::Int]) { Some(f) => Some(LookupGoal::CellIsWithPlayerAt(fi(f[0]), fi(f[1]), fk(f[2]), fi(f[3]), fi(f[4]))), None => None })
    } else if k == "cellnot"@ {
        Some(match spec_fields(a, seq![FieldType::Int, FieldType::Int, FieldType::Kind]) { Some(f) => Some(LookupGoal::CellNot(fi(f[0]), fi(f[1]), fk(f[2]))), None => None })
    } else if k == "cellnotcellis"@ || k == "cellnot-and-cellis"@ {
        Some(match spec_fields(a, seq![FieldType::Int, FieldType::Int, FieldType::Kind, FieldType::Int, FieldType::Int, FieldType::Kind]) { Some(f) => Some(LookupGoal::CellNotWithCellIs(fi(f[0]), fi(f[1]), fk(f[2]), fi(f[3]), fi(f[4]), fk(f[5]))), None => None })
    } else if k == "cellnotratat"@ || k == "cellnot-and-ratat"@ {
        Some(match spec_fields(a, seq![FieldType::Int, FieldType::Int, FieldType::Kind, FieldType::Int, FieldType::Int]) { Some(f) => Some(LookupGoal::CellNotAndRatAt(fi(f[0]), fi(f[1]), fk(f[2]), fi(f[3]), fi(f[4]))), None => None })
    } else if k == "cellnotplayer"@ || k == "cellnotplayerat"@ || k == "cellnot-and-playerat"@ {
        Some(match spec_fields(a, seq![FieldType::Int, FieldType::Int, FieldType::Kind, FieldType::Int, FieldType::Int]) { Some(f) => Some(LookupGoal::CellNotWithPlayerAt(fi(f[0]), fi(f[1]), fk(f[2]), fi(f[3]), fi(f[4]))), None => None })
    } else if k == "cellnotplayerrect"@ || k == "cellnot-and-playerrect"@ {
        Some(match spec_fields(a, seq![FieldType::Int, FieldType::Int, FieldType::Kind, FieldType::Int, FieldType::Int, FieldType::Int, FieldType::Int]) { Some(f) => Some(LookupGoal::CellNotWithPlayerInRect(fi(f[0]), fi(f[1]), fk(f[2]), fi(f[3]), fi(f[4]), fi(f[5]), fi(f[6]))), None => None })
    } else if k == "cellnotratrect"@ || k == "cellnot-and-ratrect"@ {
        Some(match spec_fields(a, seq![FieldType::Int, FieldType::Int, FieldType::Kind, FieldType::Int, FieldType::Int, FieldType::Int, FieldType::Int]) { Some(f) => Some(LookupGoal::CellNotWithRatInRect(fi(f[0]), fi(f[1]), fk(f[2]), fi(f[3]), fi(f[4]), fi(f[5]), fi(f[6]))), None => None })
    } else {
        None
    }
}

#[verifier::rlimit(60)]
fn parse_goal_arg_0(k: &[char], a: &[char]) -> (r: Option<Option<LookupGoal>>)
    ensures
        r == spec_goal_arg_0(k@, a@),
{
     if eq_lit(k, "cyborgkillready") || eq_lit(k, "cyborg-kill-ready") {
        Some({
            let t = trim_chars(a);
            match parse_dir4_chars(t.as_slice()) { Some(d) => Some(LookupGoal::CyborgKillReady(Some(d), false)), None => None }
        })
    } else if eq_lit(k, "cyborgkillreadyratlive") || eq_lit(k, "cyborg-kill-ready-rat-live") {
        Some({
            let t = trim_chars(a);
            match parse_dir4_chars(t.as_slice()) { Some(d) => Some(LookupGoal::CyborgKillReady(Some(d), true)), None => None }
        })
    } else if eq_lit(k, "trigger") {
        Some({
            match parse_u8(a) { Some(n) => Some(LookupGoal::TriggerNumber(n)), None => None }
        })
    } else if eq_lit(k, "triggeronly") || eq_lit(k, "triggerstrict") || eq_lit(k, "triggerexact") {
        Some({
            match parse_u8(a) { Some(n) => Some(LookupGoal::TriggerNumberOnly(n)), None => None }
        })
    } else if eq_lit(k, "triggeropen") || eq_lit(k, "triggerreachable") {
        Some({
            let sig = [FieldType::Num, FieldType::Count];
            proof {
                assert(sig@ =~= seq![FieldType::Num, FieldType::Count]);
            }
            match read_fields(a, &sig) {
                Some(f) => Some(LookupGoal::TriggerNumberOpen(f[0].as_num(), f[1].as_count())),
                None => None,
            }
        })
    } else if eq_lit(k, "cell") || eq_lit(k, "cellchanged") {
        Some({
            match parse_optional_point_chars(a) { Some(Some(pt)) => Some(LookupGoal::CellChanged(pt.0, pt.1)), _ => None }
        })
    } else if eq_lit(k, "cellis") || eq_lit(k, "cellkind") {
        Some({
            let sig = [FieldType::Int, FieldType::Int, FieldType::Kind];
            proof {
                assert(sig@ =~= seq![FieldType::Int, FieldType::Int, FieldType::Kind]);
            }
            match read_fields(a, &sig) {
                Some(f) => Some(LookupGoal::CellIs(f[0].as_int(), f[1].as_int(), f[2].as_kind())),
                None => None,
            }
        })
    } else if eq_lit(k, "cellisplayer") || eq_lit(k, "cellisplayerat") || eq_lit(k, "cellis-and-playerat") {
        Some({
            let sig = [FieldType::Int, FieldType::Int, FieldType::Kind, FieldType::Int, FieldType::Int];
            proof {
                assert(sig@ =~= seq![FieldType::Int, FieldType::Int, FieldType::Kind, FieldType::Int, FieldType::Int]);
            }
            match read_fields(a, &sig) {
                Some(f) => Some(LookupGoal::CellIsWithPlayerAt(f[0].as_int(), f[1].as_int(), f[2].as_kind(), f[3].as_int(), f[4].as_int())),
                None => None,
            }
        })
    } else if eq_lit(k, "cellnot") {
        Some({
            let sig = [FieldType::Int, FieldType::Int, FieldType::Kind];
            proof {
                assert(sig@ =~= seq![FieldType::Int, FieldType::Int, FieldType::Kind]);
            }
            match read_fields(a, &sig) {
                Some(f) => Some(LookupGoal::CellNot(f[0].as_int(), f[1].as_int(), f[2].as_kind())),
                None => None,
            }
        })
    } else if eq_lit(k, "cellnotcellis") || eq_lit(k, "cellnot-and-cellis") {
        Some({
            let sig = [FieldType::Int, FieldType::Int, FieldType::Kind, FieldType::Int, FieldType::Int, FieldType::Kind];
            proof {
                assert(sig@ =~= seq![FieldType::Int, FieldType::Int, FieldType::Kind, FieldType::Int, FieldType::Int, FieldType::Kind]);
            }
            match read_fields(a, &sig) {
                Some(f) => Some(LookupGoal::CellNotWithCellIs(f[0].as_int(), f[1].as_int(), f[2].as_kind(), f[3].as_int(), f[4].as_int(), f[5].as_kind())),
                None => None,
            }
        })
    } else if eq_lit(k, "cellnotratat") || eq_lit(k, "cellnot-and-ratat") {
        Some({
            let sig = [FieldType::Int, FieldType::Int, FieldType::Kind, FieldType::Int, FieldType::Int];
            proof {
                assert(sig@ =~= seq![FieldType::Int, FieldType::Int, FieldType::Kind, FieldType::Int, FieldType::Int]);
            }
            match read_fields(a, &sig) {
                Some(f) => Some(LookupGoal::CellNotAndRatAt(f[0].as_int(), f[1].as_int(), f[2].as_kind(), f[3].as_int(), f[4].as_int())),
                None => None,
            }
        })
    } else if eq_lit(k, "cellnotplayer") || eq_lit(k, "cellnotplayerat") || eq_lit(k, "cellnot-and-playerat") {
        Some({
            let sig = [FieldType::Int, FieldType::Int, FieldType::Kind, FieldType::Int, FieldType::Int];
            proof {
                assert(sig@ =~= seq![FieldType::Int, FieldType::Int, FieldType::Kind, FieldType::Int, FieldType::Int]);
            }
            match read_fields(a, &sig) {
                Some(f) => Some(LookupGoal::CellNotWithPlayerAt(f[0].as_int(), f[1].as_int(), f[2].as_kind(), f[3].as_int(), f[4].as_int())),
                None => None,
            }
        })
    } else if eq_lit(k, "cellnotplayerrect") || eq_lit(k, "cellnot-and-playerrect") {
        Some({
            let sig = [FieldType::Int, FieldType::Int, FieldType::Kind, FieldType::Int, FieldType::Int, FieldType::Int, FieldType::Int];
            proof {
                assert(sig@ =~= seq![FieldType::Int, FieldType::Int, FieldType::Kind, FieldType::Int, FieldType::Int, FieldType::Int, FieldType::Int]);
            }
            match read_fields(a, &sig) {
                Some(f) => Some(LookupGoal::CellNotWithPlayerInRect(f[0].as_int(), f[1].as_int(), f[2].as_kind(), f[3].as_int(), f[4].as_int(), f[5].as_int(), f[6].as_int())),
                None => None,
            }
        })
    } else if eq_lit(k, "cellnotratrect") || eq_lit(k, "cellnot-and-ratrect") {
        Some({
            let sig = [FieldType::Int, FieldType::Int, FieldType::Kind, FieldType::Int, FieldType::Int, FieldType::Int, FieldType::Int];
            proof {
                assert(sig@ =~= seq![FieldType::Int, FieldType::Int, FieldType::Kind, FieldType::Int, FieldType::Int, FieldType::Int, FieldType::Int]);
            }
            match read_fields(a, &sig) {
                Some(f) => Some(LookupGoal::CellNotWithRatInRect(f[0].as_int(), f[1].as_int(), f[2].as_kind(), f[3].as_int(), f[4].as_int(), f[5].as_int(), f[6].as_int())),
                None => None,
            }
        })
    } else {
        None
    }
}

/// Goals named `kind:arg`, part 2; `None` when `kind` names none of them.
pub open spec fn spec_goal_arg_1(k: Seq<char>, a: Seq<char>) -> Option<Option<LookupGoal>> {
     if k == "cellnotratrectplayerrect"@ || k == "cellnot-and-ratrect-playerrect"@ {
        Some(match spec_fields(a, seq![FieldType::Int, FieldType::Int, FieldType::Kind, FieldType::Int, FieldType::Int, FieldType::Int, FieldType::Int, FieldType::Int, FieldType::Int, FieldType::Int, FieldType::Int]) { Some(f) => Some(LookupGoal::CellNotWithRatInRectAndPlayerInRect(fi(f[0]), fi(f[1]), fk(f[2]), fi(f[3]), fi(f[4]), fi(f[5]), fi(f[6]), fi(f[7]), fi(f[8]), fi(f[9]), fi(f[10]))), None => None })
    } else if k == "cellnotnoratsrect"@ || k == "cellnot-and-noratsrect"@ {
        Some(match spec_fields(a, seq![FieldType::Int, FieldType::Int, FieldType::Kind, FieldType::Int, FieldType::Int, FieldType::Int, FieldType::Int]) { Some(f) => Some(LookupGoal::CellNotWithNoRatsInRect(fi(f[0]), fi(f[1]), fk(f[2]), fi(f[3]), fi(f[4]), fi(f[5]), fi(f[6]))), None => None })
    } else if k == "reachable"@ || k == "cellreachable"@ {
        Some(match spec_optional_point(a) { Some(Some(p)) => Some(LookupGoal::CellReachable(p.0, p.1)), _ => None })
    } else if k == "playerat"@ {
        Some(match spec_optional_point(a) { Some(Some(p)) => Some(LookupGoal::PlayerAt(p.0, p.1)), _ => None })
    } else if k == "playerfacing"@ || k == "playerdir"@ {
        Some(match spec_fields(a, seq![FieldType::Int, FieldType::Int, FieldType::Dir]) { Some(f) => Some(LookupGoal::PlayerFacing(fi(f[0]), fi(f[1]), fd(f[2]))), None => None })
    } else if k == "ratstepready"@ || k == "rat-step-ready"@ || k == "ratsteptargetready"@ {
        Some(match spec_optional_point(a) { Some(Some(p)) => Some(LookupGoal::RatStepReady(p.0, p.1)), _ => None })
    } else if k == "ratat"@ {
        Some(match spec_optional_point(a) { Some(Some(p)) => Some(LookupGoal::RatAt(p.0, p.1)), _ => None })
    } else if k == "ratcomponentge"@ || k == "ratcompge"@ || k == "ratcomponentatleast"@ {
        Some(match spec_fields(a, seq![FieldType::Int, FieldType::Int, FieldType::NonNegCount]) { Some(f) => Some(LookupGoal::RatComponentAtLeast(fi(f[0]), fi(f[1]), fc(f[2]))), None => None })
    } else if k == "ratrectcomponentge"@ || k == "ratrectcompge"@ || k == "ratinrectcomponentatleast"@ {
        Some(match spec_fields(a, seq![FieldType::Int, FieldType::Int, FieldType::Int, FieldType::Int, FieldType::NonNegCount]) { Some(f) => Some(LookupGoal::RatRectComponentAtLeast(fi(f[0]), fi(f[1]), fi(f[2]), fi(f[3]), fc(f[4]))), None => None })
    } else if k == "ratfar"@ || k == "ratatfar"@ {
        Some(match spec_fields(a, seq![FieldType::Int, FieldType::Int, FieldType::Dist]) { Some(f) => Some(LookupGoal::RatAtFarFromPlayer(fi(f[0]), fi(f[1]), fl(f[2]))), None => None })
    } else if k == "ratplayer"@ {
        Some(match spec_fields(a, seq![FieldType::Int, FieldType::Int, FieldType::Int, FieldType::Int]) { Some(f) => Some(LookupGoal::RatAtWithPlayer(fi(f[0]), fi(f[1]), fi(f[2]), fi(f[3]))), None => None })
    } else if k == "ratrectplayerrect"@ || k == "ratinrectplayerinrect"@ {
        Some(match spec_fields(a, seq![FieldType::Int, FieldType::Int, FieldType::Int, FieldType::Int, FieldType::Int, FieldType::Int, FieldType::Int, FieldType::Int]) { Some(f) => Some(LookupGoal::RatInRectWithPlayerInRect(fi(f[0]), fi(f[1]), fi(f[2]), fi(f[3]), fi(f[4]), fi(f[5]), fi(f[6]), fi(f[7]))), None => None })
    } else if k == "ratrectplayerrectcellis"@ || k == "ratinrectplayerinrectcellis"@ {
        Some(match spec_fields(a, seq![FieldType::Int, FieldType::Int, FieldType::Int, FieldType::Int, FieldType::Int, FieldType::Int, FieldType::Int, FieldType::Int, FieldType::Int, FieldType::Int, FieldType::Kind]) { Some(f) => Some(LookupGoal::RatInRectWithPlayerInRectAndCellIs(fi(f[0]), fi(f[1]), fi(f[2]), fi(f[3]), fi(f[4]), fi(f[5]), fi(f[6]), fi(f[7]), fi(f[8]), fi(f[9]), fk(f[10]))), None => None })
    } else if k == "ratrectplayerrectcellnot"@ || k == "ratinrectplayerinrectcellnot"@ {
        Some(match spec_fields(a, seq![FieldType::Int, FieldType::Int, FieldType::Int, FieldType::Int, FieldType::Int, FieldType::Int, FieldType::Int, FieldType::Int, FieldType::Int, FieldType::Int, FieldType::Kind]) { Some(f) => Some(LookupGoal::RatInRectWithPlayerInRectAndCellNot(fi(f[0]), fi(f[1]), fi(f[2]), fi(f[3]), fi(f[4]), fi(f[5]), fi(f[6]), fi(f[7]), fi(f[8]), fi(f[9]), fk(f[10]))), None => None })
    } else {
        None
    }
}

#[verifier::rlimit(60)]
fn parse_goal_arg_1(k: &[char], a: &[char]) -> (r: Option<Option<LookupGoal>>)
    ensures
        r == spec_goal_arg_1(k@, a@),
{
     if eq_lit(k, "cellnotratrectplayerrect") || eq_lit(k, "cellnot-and-ratrect-playerrect") {
        Some({
            let sig = [FieldType::Int, FieldType::Int, FieldType::Kind, FieldType::Int, FieldType::Int, FieldType::Int, FieldType::Int, FieldType::Int, FieldType::Int, FieldType::Int, FieldType::Int];
            proof {
                assert(sig@ =~= seq![FieldType::Int, FieldType::Int, FieldType::Kind, FieldType::Int, FieldType::Int, FieldType::Int, FieldType::Int, FieldType::Int, FieldType::Int, FieldType::Int, FieldType::Int]);
            }
            match read_fields(a, &sig) {
                Some(f) => Some(LookupGoal::CellNotWithRatInRectAndPlayerInRect(f[0].as_int(), f[1].as_int(), f[2].as_kind(), f[3].as_int(), f[4].as_int(), f[5].as_int(), f[6].as_int(), f[7].as_int(), f[8].as_int(), f[9].as_int(), f[10].as_int())),
                None => None,
            }
        })
    } else if eq_lit(k, "cellnotnoratsrect") || eq_lit(k, "cellnot-and-noratsrect") {
        Some({
            let sig = [FieldType::Int, FieldType::Int, FieldType::Kind, FieldType::Int, FieldType::Int, FieldType::Int, FieldType::Int];
            proof {
                assert(sig@ =~= seq![FieldType::Int, FieldType::Int, FieldType::Kind, FieldType::Int, FieldType::Int, FieldType::Int, FieldType::Int]);
            }
            match read_fields(a, &sig) {
                Some(f) => Some(LookupGoal::CellNotWithNoRatsInRect(f[0].as_int(), f[1].as_int(), f[2].as_kind(), f[3].as_int(), f[4].as_int(), f[5].as_int(), f[6].as_int())),
                None => None,
            }
        })
    } else if eq_lit(k, "reachable") || eq_lit(k, "cellreachable") {
        Some({
            match parse_optional_point_chars(a) { Some(Some(pt)) => Some(LookupGoal::CellReachable(pt.0, pt.1)), _ => None }
        })
    } else if eq_lit(k, "playerat") {
        Some({
            match parse_optional_point_chars(a) { Some(Some(pt)) => Some(LookupGoal::PlayerAt(pt.0, pt.1)), _ => None }
        })
    } else if eq_lit(k, "playerfacing") || eq_lit(k, "playerdir") {
        Some({
            let sig = [FieldType::Int, FieldType::Int, FieldType::Dir];
            proof {
                assert(sig@ =~= seq![FieldType::Int, FieldType::Int, FieldType::Dir]);
            }
            match read_fields(a, &sig) {
                Some(f) => Some(LookupGoal::PlayerFacing(f[0].as_int(), f[1].as_int(), f[2].as_dir())),
                None => None,
            }
        })
    } else if eq_lit(k, "ratstepready") || eq_lit(k, "rat-step-ready") || eq_lit(k, "ratsteptargetready") {
        Some({
            match parse_optional_point_chars(a) { Some(Some(pt)) => Some(LookupGoal::RatStepReady(pt.0, pt.1)), _ => None }
        })
    } else if eq_lit(k, "ratat") {
        Some({
            match parse_optional_point_chars(a) { Some(Some(pt)) => Some(LookupGoal::RatAt(pt.0, pt.1)), _ => None }
        })
    } else if eq_lit(k, "ratcomponentge") || eq_lit(k, "ratcompge") || eq_lit(k, "ratcomponentatleast") {
        Some({
            let sig = [FieldType::Int, FieldType::Int, FieldType::NonNegCount];
            proof {
                assert(sig@ =~= seq![FieldType::Int, FieldType::Int, FieldType::NonNegCount]);
            }
            match read_fields(a, &sig) {
                Some(f) => Some(LookupGoal::RatComponentAtLeast(f[0].as_int(), f[1].as_int(), f[2].as_count())),
                None => None,
            }
        })
    } else if eq_lit(k, "ratrectcomponentge") || eq_lit(k, "ratrectcompge") || eq_lit(k, "ratinrectcomponentatleast") {
        Some({
            let sig = [FieldType::Int, FieldType::Int, FieldType::Int, FieldType::Int, FieldType::NonNegCount];
            proof {
                assert(sig@ =~= seq![FieldType::Int, FieldType::Int, FieldType::Int, FieldType::Int, FieldType::NonNegCount]);
            }
            match read_fields(a, &sig) {
                Some(f) => Some(LookupGoal::RatRectComponentAtLeast(f[0].as_int(), f[1].as_int(), f[2].as_int(), f[3].as_int(), f[4].as_count())),
                None => None,
            }
        })
    } else if eq_lit(k, "ratfar") || eq_lit(k, "ratatfar") {
        Some({
            let sig = [FieldType::Int, FieldType::Int, FieldType::Dist];
            proof {
                assert(sig@ =~= seq![FieldType::Int, FieldType::Int, FieldType::Dist]);
            }
            match read_fields(a, &sig) {
                Some(f) => Some(LookupGoal::RatAtFarFromPlayer(f[0].as_int(), f[1].as_int(), f[2].as_dist())),
                None => None,
            }
        })
    } else if eq_lit(k, "ratplayer") {
        Some({
            let sig = [FieldType::Int, FieldType::Int, FieldType::Int, FieldType::Int];
            proof {
                assert(sig@ =~= seq![FieldType::Int, FieldType::Int, FieldType::Int, FieldType::Int]);
            }
            match read_fields(a, &sig) {
                Some(f) => Some(LookupGoal::RatAtWithPlayer(f[0].as_int(), f[1].as_int(), f[2].as_int(), f[3].as_int())),
                None => None,
            }
        })
    } else if eq_lit(k, "ratrectplayerrect") || eq_lit(k, "ratinrectplayerinrect") {
        Some({
            let sig = [FieldType::Int, FieldType::Int, FieldType::Int, FieldType::Int, FieldType::Int, FieldType::Int, FieldType::Int, FieldType::Int];
            proof {
                assert(sig@ =~= seq![FieldType::Int, FieldType::Int, FieldType::Int, FieldType::Int, FieldType::Int, FieldType::Int, FieldType::Int, FieldType::Int]);
            }
            match read_fields(a, &sig) {
                Some(f) => Some(LookupGoal::RatInRectWithPlayerInRect(f[0].as_int(), f[1].as_int(), f[2].as_int(), f[3].as_int(), f[4].as_int(), f[5].as_int(), f[6].as_int(), f[7].as_int())),
                None => None,
            }
        })
    } else if eq_lit(k, "ratrectplayerrectcellis") || eq_lit(k, "ratinrectplayerinrectcellis") {
        Some({
            let sig = [FieldType::Int, FieldType::Int, FieldType::Int, FieldType::Int, FieldType::Int, FieldType::Int, FieldType::Int, FieldType::Int, FieldType::Int, FieldType::Int, FieldType::Kind];
            proof {
                assert(sig@ =~= seq![FieldType::Int, FieldType::Int, FieldType::Int, FieldType::Int, FieldType::Int, FieldType::Int, FieldType::Int, FieldType::Int, FieldType::Int, FieldType::Int, FieldType::Kind]);
            }
            match read_fields(a, &sig) {
                Some(f) => Some(LookupGoal::RatInRectWithPlayerInRectAndCellIs(f[0].as_int(), f[1].as_int(), f[2].as_int(), f[3].as_int(), f[4].as_int(), f[5].as_int(), f[6].as_int(), f[7].as_int(), f[8].as_int(), f[9].as_int(), f[10].as_kind())),
                None => None,
            }
        })
    } else if eq_lit(k, "ratrectplayerrectcellnot") || eq_lit(k, "ratinrectplayerinrectcellnot") {
        Some({
            let sig = [FieldType::Int, FieldType::Int, FieldType::Int, FieldType::Int, FieldType::Int, FieldType::Int, FieldType::Int, FieldType::Int, FieldType::Int, FieldType::Int, FieldType::Kind];
            proof {
                assert(sig@ =~= seq![FieldType::Int, FieldType::Int, FieldType::Int, FieldType::Int, FieldType::Int, FieldType::Int, FieldType::Int, FieldType::Int, FieldType::Int, FieldType::Int, FieldType::Kind]);
            }
            match read_fields(a, &sig) {
                Some(f) => Some(LookupGoal::RatInRectWithPlayerInRectAndCellNot(f[0].as_int(), f[1].as_int(), f[2].as_int(), f[3].as_int(), f[4].as_int(), f[5].as_int(), f[6].as_int(), f[7].as_int(), f[8].as_int(), f[9].as_int(), f[10].as_kind())),
                None => None,
            }
        })
    } else {
        None
    }
}

/// Goals named `kind:arg`, part 3; `None` when `kind` names none of them.
pub open spec fn spec_goal_arg_2(k: Seq<char>, a: Seq<char>) -> Option<Option<LookupGoal>> {
     if k == "ratrectcellis"@ || k == "ratinrectcellis"@ {
        Some(match spec_fields(a, seq![FieldType::Int, FieldType::Int, FieldType::Int, FieldType::Int, FieldType::Int, FieldType::Int, FieldType::Kind]) { Some(f) => Some(LookupGoal::RatInRectWithCellIs(fi(f[0]), fi(f[1]), fi(f[2]), fi(f[3]), fi(f[4]), fi(f[5]), fk(f[6]))), None => None })
    } else if k == "normalratrectcyborgrect"@ || k == "normal-inrect-cyborg-inrect"@ {
        Some(match spec_fields(a, seq![FieldType::Int, FieldType::Int, FieldType::Int, FieldType::Int, FieldType::Int, FieldType::Int, FieldType::Int, FieldType::Int]) { Some(f) => Some(LookupGoal::NormalRatInRectWithCyborgInRect(fi(f[0]), fi(f[1]), fi(f[2]), fi(f[3]), fi(f[4]), fi(f[5]), fi(f[6]), fi(f[7]))), None => None })
    } else if k == "normalratrectcyborgrectplayerrect"@ || k == "normal-inrect-cyborg-inrect-player-inrect"@ {
        Some(match spec_fields(a, seq![FieldType::Int, FieldType::Int, FieldType::Int, FieldType::Int, FieldType::Int, FieldType::Int, FieldType::Int, FieldType::Int, FieldType::Int, FieldType::Int, FieldType::Int, FieldType::Int]) { Some(f) => Some(LookupGoal::NormalRatInRectWithCyborgInRectAndPlayerInRect(fi(f[0]), fi(f[1]), fi(f[2]), fi(f[3]), fi(f[4]), fi(f[5]), fi(f[6]), fi(f[7]), fi(f[8]), fi(f[9]), fi(f[10]), fi(f[11]))), None => None })
    } else if k == "ratplayerfacing"@ || k == "ratplayerdir"@ {
        Some(match spec_fields(a, seq![FieldType::Int, FieldType::Int, FieldType::Int, FieldType::Int, FieldType::Dir]) { Some(f) => Some(LookupGoal::RatAtWithPlayerFacing(fi(f[0]), fi(f[1]), fi(f[2]), fi(f[3]), fd(f[4]))), None => None })
    } else if k == "ratcell"@ {
        Some(match spec_fields(a, seq![FieldType::Int, FieldType::Int, FieldType::Int, FieldType::Int, FieldType::Kind]) { Some(f) => Some(LookupGoal::RatAtWithCell(fi(f[0]), fi(f[1]), fi(f[2]), fi(f[3]), fk(f[4]))), None => None })
    } else if k == "ratgone"@ {
        Some(match spec_optional_point(a) { Some(Some(p)) => Some(LookupGoal::RatGone(p.0, p.1)), _ => None })
    } else if k == "norats2"@ || k == "noratsat2"@ {
        Some(match spec_fields(a, seq![FieldType::Int, FieldType::Int, FieldType::Int, FieldType::Int]) { Some(f) => Some(LookupGoal::NoRatsAt2(fi(f[0]), fi(f[1]), fi(f[2]), fi(f[3]))), None => None })
    } else if k == "noratsrect"@ || k == "noratsinrect"@ {
        Some(match spec_fields(a, seq![FieldType::Int, FieldType::Int, FieldType::Int, FieldType::Int]) { Some(f) => Some(LookupGoal::NoRatsInRect(fi(f[0]), fi(f[1]), fi(f[2]), fi(f[3]))), None => None })
    } else if k == "ratsle"@ || k == "ratsatmost"@ {
        Some(match p_usize(a) { Some(n) => Some(LookupGoal::RatsAtMost(n as usize)), None => None })
    } else if k == "reachablege"@ || k == "reachableratsge"@ {
        Some(match p_usize(a) { Some(n) => Some(LookupGoal::ReachableRatsAtLeast(n as usize)), None => None })
    } else if k == "cyborgsle"@ || k == "cyborgsatmost"@ {
        Some(match p_usize(a) { Some(n) => Some(LookupGoal::CyborgsAtMost(n as usize)), None => None })
    } else if k == "triggersle"@ || k == "triggersatmost"@ {
        Some(match p_usize(a) { Some(n) => Some(LookupGoal::TriggersAtMost(n as usize)), None => None })
    } else if k == "explosivesle"@ || k == "explosivesatmost"@ {
        Some(match p_usize(a) { Some(n) => Some(LookupGoal::ExplosivesAtMost(n as usize)), None => None })
    } else if k == "websle"@ || k == "websatmost"@ {
        Some(match p_usize(a) { Some(n) => Some(LookupGoal::WebsAtMost(n as usize)), None => None })
    } else {
        None
    }
}

#[verifier::rlimit(60)]
fn parse_goal_arg_2(k: &[char], a: &[char]) -> (r: Option<Option<LookupGoal>>)
    ensures
        r == spec_goal_arg_2(k@, a@),
{
     if eq_lit(k, "ratrectcellis") || eq_lit(k, "ratinrectcellis") {
        Some({
            let sig = [FieldType::Int, FieldType::Int, FieldType::Int, FieldType::Int, FieldType::Int, FieldType::Int, FieldType::Kind];
            proof {
                assert(sig@ =~= seq![FieldType::Int, FieldType::Int, FieldType::Int, FieldType::Int, FieldType::Int, FieldType::Int, FieldType::Kind]);
            }
            match read_fields(a, &sig) {
                Some(f) => Some(LookupGoal::RatInRectWithCellIs(f[0].as_int(), f[1].as_int(), f[2].as_int(), f[3].as_int(), f[4].as_int(), f[5].as_int(), f[6].as_kind())),
                None => None,
            }
        })
    } else if eq_lit(k, "normalratrectcyborgrect") || eq_lit(k, "normal-inrect-cyborg-inrect") {
        Some({
            let sig = [FieldType::Int, FieldType::Int, FieldType::Int, FieldType::Int, FieldType::Int, FieldType::Int, FieldType::Int, FieldType::Int];
            proof {
                assert(sig@ =~= seq![FieldType::Int, FieldType::Int, FieldType::Int, FieldType::Int, FieldType::Int, FieldType::Int, FieldType::Int, FieldType::Int]);
            }
            match read_fields(a, &sig) {
                Some(f) => Some(LookupGoal::NormalRatInRectWithCyborgInRect(f[0].as_int(), f[1].as_int(), f[2].as_int(), f[3].as_int(), f[4].as_int(), f[5].as_int(), f[6].as_int(), f[7].as_int())),
                None => None,
            }
        })
    } else if eq_lit(k, "normalratrectcyborgrectplayerrect") || eq_lit(k, "normal-inrect-cyborg-inrect-player-inrect") {
        Some({
            let sig = [FieldType::Int, FieldType::Int, FieldType::Int, FieldType::Int, FieldType::Int, FieldType::Int, FieldType::Int, FieldType::Int, FieldType::Int, FieldType::Int, FieldType::Int, FieldType::Int];
            proof {
                assert(sig@ =~= seq![FieldType::Int, FieldType::Int, FieldType::Int, FieldType::Int, FieldType::Int, FieldType::Int, FieldType::Int, FieldType::Int, FieldType::Int, FieldType::Int, FieldType::Int, FieldType::Int]);
            }
            match read_fields(a, &sig) {
                Some(f) => Some(LookupGoal::NormalRatInRectWithCyborgInRectAndPlayerInRect(f[0].as_int(), f[1].as_int(), f[2].as_int(), f[3].as_int(), f[4].as_int(), f[5].as_int(), f[6].as_int(), f[7].as_int(), f[8].as_int(), f[9].as_int(), f[10].as_int(), f[11].as_int())),
                None => None,
            }
        })
    } else if eq_lit(k, "ratplayerfacing") || eq_lit(k, "ratplayerdir") {
        Some({
            let sig = [FieldType::Int, FieldType::Int, FieldType::Int, FieldType::Int, FieldType::Dir];
            proof {
                assert(sig@ =~= seq![FieldType::Int, FieldType::Int, FieldType::Int, FieldType::Int, FieldType::Dir]);
            }
            match read_fields(a, &sig) {
                Some(f) => Some(LookupGoal::RatAtWithPlayerFacing(f[0].as_int(), f[1].as_int(), f[2].as_int(), f[3].as_int(), f[4].as_dir())),
                None => None,
            }
        })
    } else if eq_lit(k, "ratcell") {
        Some({
            let sig = [FieldType::Int, FieldType::Int, FieldType::Int, FieldType::Int, FieldType::Kind];
            proof {
                assert(sig@ =~= seq![FieldType::Int, FieldType::Int, FieldType::Int, FieldType::Int, FieldType::Kind]);
            }
            match read_fields(a, &sig) {
                Some(f) => Some(LookupGoal::RatAtWithCell(f[0].as_int(), f[1].as_int(), f[2].as_int(), f[3].as_int(), f[4].as_kind())),
                None => None,
            }
        })
    } else if eq_lit(k, "ratgone") {
        Some({
            match parse_optional_point_chars(a) { Some(Some(pt)) => Some(LookupGoal::RatGone(pt.0, pt.1)), _ => None }
        })
    } else if eq_lit(k, "norats2") || eq_lit(k, "noratsat2") {
        Some({
            let sig = [FieldType::Int, FieldType::Int, FieldType::Int, FieldType::Int];
            proof {
                assert(sig@ =~= seq![FieldType::Int, FieldType::Int, FieldType::Int, FieldType::Int]);
            }
            match read_fields(a, &sig) {
                Some(f) => Some(LookupGoal::NoRatsAt2(f[0].as_int(), f[1].as_int(), f[2].as_int(), f[3].as_int())),
                None => None,
            }
        })
    } else if eq_lit(k, "noratsrect") || eq_lit(k, "noratsinrect") {
        Some({
            let sig = [FieldType::Int, FieldType::Int, FieldType::Int, FieldType::Int];
            proof {
                assert(sig@ =~= seq![FieldType::Int, FieldType::Int, FieldType::Int, FieldType::Int]);
            }
            match read_fields(a, &sig) {
                Some(f) => Some(LookupGoal::NoRatsInRect(f[0].as_int(), f[1].as_int(), f[2].as_int(), f[3].as_int())),
                None => None,
            }
        })
    } else if eq_lit(k, "ratsle") || eq_lit(k, "ratsatmost") {
        Some({
            match parse_usize(a) { Some(n) => Some(LookupGoal::RatsAtMost(n)), None => None }
        })
    } else if eq_lit(k, "reachablege") || eq_lit(k, "reachableratsge") {
        Some({
            match parse_usize(a) { Some(n) => Some(LookupGoal::ReachableRatsAtLeast(n)), None => None }
        })
    } else if eq_lit(k, "cyborgsle") || eq_lit(k, "cyborgsatmost") {
        Some({
            match parse_usize(a) { Some(n) => Some(LookupGoal::CyborgsAtMost(n)), None => None }
        })
    } else if eq_lit(k, "triggersle") || eq_lit(k, "triggersatmost") {
        Some({
            match parse_usize(a) { Some(n) => Some(LookupGoal::TriggersAtMost(n)), None => None }
        })
    } else if eq_lit(k, "explosivesle") || eq_lit(k, "explosivesatmost") {
        Some({
            match parse_usize(a) { Some(n) => Some(LookupGoal::ExplosivesAtMost(n)), None => None }
        })
    } else if eq_lit(k, "websle") || eq_lit(k, "websatmost") {
        Some({
            match parse_usize(a) { Some(n) => Some(LookupGoal::WebsAtMost(n)), None => None }
        })
    } else {
        None
    }
}

/// Goals named `kind:arg`, part 4; `None` when `kind` names none of them.
pub open spec fn spec_goal_arg_3(k: Seq<char>, a: Seq<char>) -> Option<Option<LookupGoal>> {
     if k == "ratslecellis"@ || k == "ratsatmostcellis"@ {
        Some(match spec_fields(a, seq![FieldType::Count, FieldType::Int, FieldType::Int, FieldType::Kind]) { Some(f) => Some(LookupGoal::RatsAtMostWithCellIs(fc(f[0]), fi(f[1]), fi(f[2]), fk(f[3]))), None => None })
    } else if k == "ratslecellnot"@ || k == "ratsatmostcellnot"@ {
        Some(match spec_fields(a, seq![FieldType::Count, FieldType::Int, FieldType::Int, FieldType::Kind]) { Some(f) => Some(LookupGoal::RatsAtMostWithCellNot(fc(f[0]), fi(f[1]), fi(f[2]), fk(f[3]))), None => None })
    } else if k == "ratsleratrect"@ || k == "ratsatmostratrect"@ {
        Some(match spec_fields(a, seq![FieldType::WrapCount, FieldType::Int, FieldType::Int, FieldType::Int, FieldType::Int]) { Some(f) => Some(LookupGoal::RatsAtMostWithRatInRect(fc(f[0]), fi(f[1]), fi(f[2]), fi(f[3]), fi(f[4]))), None => None })
    } else if k == "ratsleratrectplayerrect"@ || k == "ratsatmostratrectplayerrect"@ {
        Some(match spec_fields(a, seq![FieldType::WrapCount, FieldType::Int, FieldType::Int, FieldType::Int, FieldType::Int, FieldType::Int, FieldType::Int, FieldType::Int, FieldType::Int]) { Some(f) => Some(LookupGoal::RatsAtMostWithRatInRectAndPlayerInRect(fc(f[0]), fi(f[1]), fi(f[2]), fi(f[3]), fi(f[4]), fi(f[5]), fi(f[6]), fi(f[7]), fi(f[8]))), None => None })
    } else if k == "ratsleplayer"@ || k == "ratsatmostplayer"@ || k == "ratsleplayerat"@ {
        Some(match spec_fields(a, seq![FieldType::Count, FieldType::Int, FieldType::Int]) { Some(f) => Some(LookupGoal::RatsAtMostWithPlayerAt(fc(f[0]), fi(f[1]), fi(f[2]))), None => None })
    } else if k == "ratsleplayerfacing"@ || k == "ratsatmostplayerfacing"@ || k == "ratsleplayerdir"@ {
        Some(match spec_fields(a, seq![FieldType::Count, FieldType::Int, FieldType::Int, FieldType::Dir]) { Some(f) => Some(LookupGoal::RatsAtMostWithPlayerFacing(fc(f[0]), fi(f[1]), fi(f[2]), fd(f[3]))), None => None })
    } else if k == "triggeronlycellis"@ || k == "triggerstrictcellis"@ {
        Some(match spec_fields(a, seq![FieldType::Num, FieldType::Int, FieldType::Int, FieldType::Kind]) { Some(f) => Some(LookupGoal::TriggerNumberOnlyWithCellIs(fn8(f[0]), fi(f[1]), fi(f[2]), fk(f[3]))), None => None })
    } else if k == "triggeronlycellnot"@ || k == "triggerstrictcellnot"@ {
        Some(match spec_fields(a, seq![FieldType::Num, FieldType::Int, FieldType::Int, FieldType::Kind]) { Some(f) => Some(LookupGoal::TriggerNumberOnlyWithCellNot(fn8(f[0]), fi(f[1]), fi(f[2]), fk(f[3]))), None => None })
    } else if k == "triggeronlycellnotcellis"@ || k == "triggerstrictcellnotcellis"@ {
        Some(match spec_fields(a, seq![FieldType::Num, FieldType::Int, FieldType::Int, FieldType::Kind, FieldType::Int, FieldType::Int, FieldType::Kind]) { Some(f) => Some(LookupGoal::TriggerNumberOnlyWithCellNotAndCellIs(fn8(f[0]), fi(f[1]), fi(f[2]), fk(f[3]), fi(f[4]), fi(f[5]), fk(f[6]))), None => None })
    } else {
        None
    }
}

#[verifier::rlimit(60)]
fn parse_goal_arg_3(k: &[char], a: &[char]) -> (r: Option<Option<LookupGoal>>)
    ensures
        r == spec_goal_arg_3(k@, a@),
{
     if eq_lit(k, "ratslecellis") || eq_lit(k, "ratsatmostcellis") {
        Some({
            let sig = [FieldType::Count, FieldType::Int, FieldType::Int, FieldType::Kind];
            proof {
                assert(sig@ =~= seq![FieldType::Count, FieldType::Int, FieldType::Int, FieldType::Kind]);
            }
            match read_fields(a, &sig) {
                Some(f) => Some(LookupGoal::RatsAtMostWithCellIs(f[0].as_count(), f[1].as_int(), f[2].as_int(), f[3].as_kind())),
                None => None,
            }
        })
    } else if eq_lit(k, "ratslecellnot") || eq_lit(k, "ratsatmostcellnot") {
        Some({
            let sig = [FieldType::Count, FieldType::Int, FieldType::Int, FieldType::Kind];
            proof {
                assert(sig@ =~= seq![FieldType::Count, FieldType::Int, FieldType::Int, FieldType::Kind]);
            }
            match read_fields(a, &sig) {
                Some(f) => Some(LookupGoal::RatsAtMostWithCellNot(f[0].as_count(), f[1].as_int(), f[2].as_int(), f[3].as_kind())),
                None => None,
            }
        })
    } else if eq_lit(k, "ratsleratrect") || eq_lit(k, "ratsatmostratrect") {
        Some({
            let sig = [FieldType::WrapCount, FieldType::Int, FieldType::Int, FieldType::Int, FieldType::Int];
            proof {
                assert(sig@ =~= seq![FieldType::WrapCount, FieldType::Int, FieldType::Int, FieldType::Int, FieldType::Int]);
            }
            match read_fields(a, &sig) {
                Some(f) => Some(LookupGoal::RatsAtMostWithRatInRect(f[0].as_count(), f[1].as_int(), f[2].as_int(), f[3].as_int(), f[4].as_int())),
                None => None,
            }
        })
    } else if eq_lit(k, "ratsleratrectplayerrect") || eq_lit(k, "ratsatmostratrectplayerrect") {
        Some({
            let sig = [FieldType::WrapCount, FieldType::Int, FieldType::Int, FieldType::Int, FieldType::Int, FieldType::Int, FieldType::Int, FieldType::Int, FieldType::Int];
            proof {
                assert(sig@ =~= seq![FieldType::WrapCount, FieldType::Int, FieldType::Int, FieldType::Int, FieldType::Int, FieldType::Int, FieldType::Int, FieldType::Int, FieldType::Int]);
            }
            match read_fields(a, &sig) {
                Some(f) => Some(LookupGoal::RatsAtMostWithRatInRectAndPlayerInRect(f[0].as_count(), f[1].as_int(), f[2].as_int(), f[3].as_int(), f[4].as_int(), f[5].as_int(), f[6].as_int(), f[7].as_int(), f[8].as_int())),
                None => None,
            }
        })
    } else if eq_lit(k, "ratsleplayer") || eq_lit(k, "ratsatmostplayer") || eq_lit(k, "ratsleplayerat") {
        Some({
            let sig = [FieldType::Count, FieldType::Int, FieldType::Int];
            proof {
                assert(sig@ =~= seq![FieldType::Count, FieldType::Int, FieldType::Int]);
            }
            match read_fields(a, &sig) {
                Some(f) => Some(LookupGoal::RatsAtMostWithPlayerAt(f[0].as_count(), f[1].as_int(), f[2].as_int())),
                None => None,
            }
        })
    } else if eq_lit(k, "ratsleplayerfacing") || eq_lit(k, "ratsatmostplayerfacing") || eq_lit(k, "ratsleplayerdir") {
        Some({
            let sig = [FieldType::Count, FieldType::Int, FieldType::Int, FieldType::Dir];
            proof {
                assert(sig@ =~= seq![FieldType::Count, FieldType::Int, FieldType::Int, FieldType::Dir]);
            }
            match read_fields(a, &sig) {
                Some(f) => Some(LookupGoal::RatsAtMostWithPlayerFacing(f[0].as_count(), f[1].as_int(), f[2].as_int(), f[3].as_dir())),
                None => None,
            }
        })
    } else if eq_lit(k, "triggeronlycellis") || eq_lit(k, "triggerstrictcellis") {
        Some({
            let sig = [FieldType::Num, FieldType::Int, FieldType::Int, FieldType::Kind];
            proof {
                assert(sig@ =~= seq![FieldType::Num, FieldType::Int, FieldType::Int, FieldType::Kind]);
            }
            match read_fields(a, &sig) {
                Some(f) => Some(LookupGoal::TriggerNumberOnlyWithCellIs(f[0].as_num(), f[1].as_int(), f[2].as_int(), f[3].as_kind())),
                None => None,
            }
        })
    } else if eq_lit(k, "triggeronlycellnot") || eq_lit(k, "triggerstrictcellnot") {
        Some({
            let sig = [FieldType::Num, FieldType::Int, FieldType::Int, FieldType::Kind];
            proof {
                assert(sig@ =~= seq![FieldType::Num, FieldType::Int, FieldType::Int, FieldType::Kind]);
            }
            match read_fields(a, &sig) {
                Some(f) => Some(LookupGoal::TriggerNumberOnlyWithCellNot(f[0].as_num(), f[1].as_int(), f[2].as_int(), f[3].as_kind())),
                None => None,
            }
        })
    } else if eq_lit(k, "triggeronlycellnotcellis") || eq_lit(k, "triggerstrictcellnotcellis") {
        Some({
            let sig = [FieldType::Num, FieldType::Int, FieldType::Int, FieldType::Kind, FieldType::Int, FieldType::Int, FieldType::Kind];
            proof {
                assert(sig@ =~= seq![FieldType::Num, FieldType::Int, FieldType::Int, FieldType::Kind, FieldType::Int, FieldType::Int, FieldType::Kind]);
            }
            match read_fields(a, &sig) {
                Some(f) => Some(LookupGoal::TriggerNumberOnlyWithCellNotAndCellIs(f[0].as_num(), f[1].as_int(), f[2].as_int(), f[3].as_kind(), f[4].as_int(), f[5].as_int(), f[6].as_kind())),
                None => None,
            }
        })
    } else {
        None
    }
}

/// A goal named `kind:arg`.
pub open spec fn spec_goal_arg(k: Seq<char>, a: Seq<char>) -> Option<LookupGoal> {
    match spec_goal_arg_0(k, a) { Some(r) => r, None => match spec_goal_arg_1(k, a) { Some(r) => r, None => match spec_goal_arg_2(k, a) { Some(r) => r, None => match spec_goal_arg_3(k, a) { Some(r) => r, None => None } } } }
}

/// The goal that `s` names: a plain name, or `kind:arg` split at the first `:`.
pub open spec fn spec_lookup_goal(s: Seq<char>) -> Option<LookupGoal> {
    match first_colon(s) {
        None => spec_goal_plain(s),
        Some(i) => spec_goal_arg(s.subrange(0, i), s.subrange(i + 1, s.len() as int)),
    }
}

impl LookupGoal {
    /// Reads a lookup goal; `None` for an unknown name or malformed arguments.
    pub fn parse(input: &str) -> (r: Option<LookupGoal>)
        ensures
            r == spec_lookup_goal(input@),
    {
        let s = chars_of(input);
        match find_colon(s.as_slice()) {
            None => parse_goal_plain(s.as_slice()),
            Some(i) => {
                let k = crate::parse::slice_range(s.as_slice(), 0, i);
                let a = crate::parse::slice_range(s.as_slice(), i + 1, s.len());
                let k = k.as_slice();
                let a = a.as_slice();
                if let Some(r) = parse_goal_arg_0(k, a) {
                    return r;
                }
                if let Some(r) = parse_goal_arg_1(k, a) {
                    return r;
                }
                if let Some(r) = parse_goal_arg_2(k, a) {
                    return r;
                }
                if let Some(r) = parse_goal_arg_3(k, a) {
                    return r;
                }
                None
            }
        }
    }
}

/// What only a simulation of the next turn can tell about the current board, for the goal at hand.
#[derive(Clone, Copy, Debug, PartialEq, Eq, Structural)]
pub struct TurnFacts {
    /// One more turn can win the level.
    pub win_ready: bool,
    /// One more turn can bring a rat onto the goal's point.
    pub rat_step_ready: bool,
    /// A move of the goal's kind kills a cyborg rat as the goal asks.
    pub cyborg_kill_ready: bool,
}

/// Whether `current` (reached from `initial`, in play state `ps`) reaches the goal.
pub open spec fn spec_goal_reached(goal: LookupGoal, i: Grid, c: Grid, ps: PlayState, facts: TurnFacts) -> bool {
    match goal {
        LookupGoal::Win => ps == PlayState::Won,
        LookupGoal::WinReady => (ps == PlayState::Won) || (facts.win_ready),
        LookupGoal::SwordReady => (ps == PlayState::Won) || (facts.win_ready),
        LookupGoal::CyborgKillReady(_, _) => facts.cyborg_kill_ready,
        LookupGoal::RectangleReady => (ps == PlayState::Won) || (facts.win_ready),
        LookupGoal::RectangleLowerReady => (ps == PlayState::Won) || (spec_rectangle_lower_ready(c, facts.win_ready)),
        LookupGoal::RectangleLowerSeparated => (ps == PlayState::Won) || (spec_rectangle_lower_separated(c, facts.win_ready)),
        LookupGoal::RectangleLowerIgnition => (ps == PlayState::Won) || (spec_rectangle_lower_ignition_ready(c, facts.win_ready)),
        LookupGoal::TriggerNumber(a0) => count_of(c, CellClass::Exactly(CellKind::Trigger(a0))) < count_of(i, CellClass::Exactly(CellKind::Trigger(a0))),
        LookupGoal::TriggerNumberOnly(a0) => spec_only_trigger_changed(i, c, a0),
        LookupGoal::TriggerNumberOpen(a0, a1) => (count_of(c, CellClass::Exactly(CellKind::Trigger(a0))) < count_of(i, CellClass::Exactly(CellKind::Trigger(a0)))) && (reachable_count_of(c, CellClass::AnyCell) >= a1),
        LookupGoal::CellChanged(a0, a1) => kind_at_i32(c, a0, a1) != kind_at_i32(i, a0, a1),
        LookupGoal::CellIs(a0, a1, a2) => kind_at_i32(c, a0, a1) == a2,
        LookupGoal::CellIsWithPlayerAt(a0, a1, a2, a3, a4) => (kind_at_i32(c, a0, a1) == a2) && (player_at(c, (a3, a4))),
        LookupGoal::CellNot(a0, a1, a2) => kind_at_i32(c, a0, a1) != a2,
        LookupGoal::CellNotWithCellIs(a0, a1, a2, a3, a4, a5) => (kind_at_i32(c, a0, a1) != a2) && (kind_at_i32(c, a3, a4) == a5),
        LookupGoal::CellNotAndRatAt(a0, a1, a2, a3, a4) => (kind_at_i32(c, a0, a1) != a2) && (spec_rat_at(c, (a3, a4))),
        LookupGoal::CellNotWithPlayerAt(a0, a1, a2, a3, a4) => (kind_at_i32(c, a0, a1) != a2) && (player_at(c, (a3, a4))),
        LookupGoal::CellNotWithPlayerInRect(a0, a1, a2, a3, a4, a5, a6) => (kind_at_i32(c, a0, a1) != a2) && (class_in_rect(c, CellClass::Exactly(CellKind::Player), a3, a4, a5, a6)),
        LookupGoal::CellNotWithRatInRect(a0, a1, a2, a3, a4, a5, a6) => (kind_at_i32(c, a0, a1) != a2) && (class_in_rect(c, CellClass::RatOrCyborg, a3, a4, a5, a6)),
        LookupGoal::CellNotWithRatInRectAndPlayerInRect(a0, a1, a2, a3, a4, a5, a6, a7, a8, a9, a10) => (kind_at_i32(c, a0, a1) != a2) && (class_in_rect(c, CellClass::RatOrCyborg, a3, a4, a5, a6)) && (class_in_rect(c, CellClass::Exactly(CellKind::Player), a7, a8, a9, a10)),
        LookupGoal::CellNotWithNoRatsInRect(a0, a1, a2, a3, a4, a5, a6) => (kind_at_i32(c, a0, a1) != a2) && (!(class_in_rect(c, CellClass::RatOrCyborg, a3, a4, a5, a6))),
        LookupGoal::CellReachable(a0, a1) => spec_distance_from_player(c, (a0, a1)) < 1000,
        LookupGoal::PlayerAt(a0, a1) => player_at(c, (a0, a1)),
        LookupGoal::PlayerFacing(a0, a1, a2) => spec_player_facing(c, (a0, a1), a2),
        LookupGoal::RatStepReady(a0, a1) => facts.rat_step_ready,
        LookupGoal::RatAt(a0, a1) => spec_rat_at(c, (a0, a1)),
        LookupGoal::RatComponentAtLeast(a0, a1, a2) => spec_rat_component_size_at(c, (a0, a1)) matches Some(s) && s >= a2,
        LookupGoal::RatRectComponentAtLeast(a0, a1, a2, a3, a4) => spec_max_component_in_rect(c, a0, a1, a2, a3) matches Some(s) && s >= a4,
        LookupGoal::RatAtFarFromPlayer(a0, a1, a2) => (spec_rat_at(c, (a0, a1))) && (spec_nearest_player_distance(c, (a0, a1)) matches Some(e) && e >= a2),
        LookupGoal::RatAtWithPlayer(a0, a1, a2, a3) => (spec_rat_at(c, (a0, a1))) && (player_at(c, (a2, a3))),
        LookupGoal::RatInRectWithPlayerInRect(a0, a1, a2, a3, a4, a5, a6, a7) => (class_in_rect(c, CellClass::RatOrCyborg, a0, a1, a2, a3)) && (class_in_rect(c, CellClass::Exactly(CellKind::Player), a4, a5, a6, a7)),
        LookupGoal::RatInRectWithPlayerInRectAndCellIs(a0, a1, a2, a3, a4, a5, a6, a7, a8, a9, a10) => (class_in_rect(c, CellClass::RatOrCyborg, a0, a1, a2, a3)) && (class_in_rect(c, CellClass::Exactly(CellKind::Player), a4, a5, a6, a7)) && (kind_at_i32(c, a8, a9) == a10),
        LookupGoal::RatInRectWithPlayerInRectAndCellNot(a0, a1, a2, a3, a4, a5, a6, a7, a8, a9, a10) => (class_in_rect(c, CellClass::RatOrCyborg, a0, a1, a2, a3)) && (class_in_rect(c, CellClass::Exactly(CellKind::Player), a4, a5, a6, a7)) && (kind_at_i32(c, a8, a9) != a10),
        LookupGoal::RatInRectWithCellIs(a0, a1, a2, a3, a4, a5, a6) => (class_in_rect(c, CellClass::RatOrCyborg, a0, a1, a2, a3)) && (kind_at_i32(c, a4, a5) == a6),
        LookupGoal::NormalRatInRectWithCyborgInRect(a0, a1, a2, a3, a4, a5, a6, a7) => (class_in_rect(c, CellClass::Exactly(CellKind::Rat), a0, a1, a2, a3)) && (class_in_rect(c, CellClass::Exactly(CellKind::CyborgRat), a4, a5, a6, a7)),
        LookupGoal::NormalRatInRectWithCyborgInRectAndPlayerInRect(a0, a1, a2, a3, a4, a5, a6, a7, a8, a9, a10, a11) => (class_in_rect(c, CellClass::Exactly(CellKind::Rat), a0, a1, a2, a3)) && (class_in_rect(c, CellClass::Exactly(CellKind::CyborgRat), a4, a5, a6, a7)) && (class_in_rect(c, CellClass::Exactly(CellKind::Player), a8, a9, a10, a11)),
        LookupGoal::RatAtWithPlayerFacing(a0, a1, a2, a3, a4) => (spec_rat_at(c, (a0, a1))) && (spec_player_facing(c, (a2, a3), a4)),
        LookupGoal::RatAtWithCell(a0, a1, a2, a3, a4) => (spec_rat_at(c, (a0, a1))) && (kind_at_i32(c, a2, a3) == a4),
        LookupGoal::RatGone(a0, a1) => !(spec_rat_at(c, (a0, a1))),
        LookupGoal::NoRatsAt2(a0, a1, a2, a3) => (!(spec_rat_at(c, (a0, a1)))) && (!(spec_rat_at(c, (a2, a3)))),
        LookupGoal::NoRatsInRect(a0, a1, a2, a3) => !(class_in_rect(c, CellClass::RatOrCyborg, a0, a1, a2, a3)),
        LookupGoal::RatsAtMost(a0) => count_of(c, CellClass::RatOrCyborg) <= a0,
        LookupGoal::ReachableRatsAtLeast(a0) => reachable_count_of(c, CellClass::RatOrCyborg) >= a0,
        LookupGoal::AllRatsReachable => reachable_count_of(c, CellClass::RatOrCyborg) == count_of(c, CellClass::RatOrCyborg),
        LookupGoal::CyborgsAtMost(a0) => count_of(c, CellClass::Exactly(CellKind::CyborgRat)) <= a0,
        LookupGoal::TriggersAtMost(a0) => count_of(c, CellClass::AnyTrigger) <= a0,
        LookupGoal::ExplosivesAtMost(a0) => count_of(c, CellClass::Exactly(CellKind::Explosive)) <= a0,
        LookupGoal::WebsAtMost(a0) => count_of(c, CellClass::Exactly(CellKind::Spiderweb)) <= a0,
        LookupGoal::RatDrop => count_of(c, CellClass::RatOrCyborg) < count_of(i, CellClass::RatOrCyborg),
        LookupGoal::RatsAtMostWithCellIs(a0, a1, a2, a3) => (count_of(c, CellClass::RatOrCyborg) <= a0) && (kind_at_i32(c, a1, a2) == a3),
        LookupGoal::RatsAtMostWithCellNot(a0, a1, a2, a3) => (count_of(c, CellClass::RatOrCyborg) <= a0) && (kind_at_i32(c, a1, a2) != a3),
        LookupGoal::RatsAtMostWithRatInRect(a0, a1, a2, a3, a4) => (count_of(c, CellClass::RatOrCyborg) <= a0) && (class_in_rect(c, CellClass::RatOrCyborg, a1, a2, a3, a4)),
        LookupGoal::RatsAtMostWithRatInRectAndPlayerInRect(a0, a1, a2, a3, a4, a5, a6, a7, a8) => (count_of(c, CellClass::RatOrCyborg) <= a0) && (class_in_rect(c, CellClass::RatOrCyborg, a1, a2, a3, a4)) && (class_in_rect(c, CellClass::Exactly(CellKind::Player), a5, a6, a7, a8)),
        LookupGoal::RatsAtMostWithPlayerAt(a0, a1, a2) => (count_of(c, CellClass::RatOrCyborg) <= a0) && (player_at(c, (a1, a2))),
        LookupGoal::RatsAtMostWithPlayerFacing(a0, a1, a2, a3) => (count_of(c, CellClass::RatOrCyborg) <= a0) && (spec_player_facing(c, (a1, a2), a3)),
        LookupGoal::TriggerNumberOnlyWithCellIs(a0, a1, a2, a3) => (spec_only_trigger_changed(i, c, a0)) && (kind_at_i32(c, a1, a2) == a3),
        LookupGoal::TriggerNumberOnlyWithCellNot(a0, a1, a2, a3) => (spec_only_trigger_changed(i, c, a0)) && (kind_at_i32(c, a1, a2) != a3),
        LookupGoal::TriggerNumberOnlyWithCellNotAndCellIs(a0, a1, a2, a3, a4, a5, a6) => (spec_only_trigger_changed(i, c, a0)) && (kind_at_i32(c, a1, a2) != a3) && (kind_at_i32(c, a4, a5) == a6),
    }
}

/// Whether `current`, reached from `initial` and left in play state `play_state`, reaches the
/// goal; `facts` brings what only a simulation of the next turn can tell.
#[verifier::rlimit(80)]
pub fn lookup_goal_reached(goal: LookupGoal, initial: &Grid, current: &Grid, play_state: PlayState, facts: &TurnFacts) -> (b: bool)
    ensures
        b == spec_goal_reached(goal, *initial, *current, play_state, *facts),
{
    let ps = play_state;
    match goal {
        LookupGoal::Win => ps == PlayState::Won,
        LookupGoal::WinReady => (ps == PlayState::Won) || (facts.win_ready),
        LookupGoal::SwordReady => (ps == PlayState::Won) || (facts.win_ready),
        LookupGoal::CyborgKillReady(_, _) => facts.cyborg_kill_ready,
        LookupGoal::RectangleReady => (ps == PlayState::Won) || (facts.win_ready),
        LookupGoal::RectangleLowerReady => (ps == PlayState::Won) || (rectangle_lower_ready(current, facts.win_ready)),
        LookupGoal::RectangleLowerSeparated => (ps == PlayState::Won) || (rectangle_lower_separated(current, facts.win_ready)),
        LookupGoal::RectangleLowerIgnition => (ps == PlayState::Won) || (rectangle_lower_ignition_ready(current, facts.win_ready)),
        LookupGoal::TriggerNumber(a0) => count_matching(current, CellClass::Exactly(CellKind::Trigger(a0))) < count_matching(initial, CellClass::Exactly(CellKind::Trigger(a0))),
        LookupGoal::TriggerNumberOnly(a0) => only_trigger_changed(initial, current, a0),
        LookupGoal::TriggerNumberOpen(a0, a1) => (count_matching(current, CellClass::Exactly(CellKind::Trigger(a0))) < count_matching(initial, CellClass::Exactly(CellKind::Trigger(a0)))) && (player_reachable_cell_count(current) >= a1),
        LookupGoal::CellChanged(a0, a1) => cell_at(current, a0, a1) != cell_at(initial, a0, a1),
        LookupGoal::CellIs(a0, a1, a2) => cell_at(current, a0, a1) == a2,
        LookupGoal::CellIsWithPlayerAt(a0, a1, a2, a3, a4) => (cell_at(current, a0, a1) == a2) && (player_at_point(current, (a3, a4))),
        LookupGoal::CellNot(a0, a1, a2) => cell_at(current, a0, a1) != a2,
        LookupGoal::CellNotWithCellIs(a0, a1, a2, a3, a4, a5) => (cell_at(current, a0, a1) != a2) && (cell_at(current, a3, a4) == a5),
        LookupGoal::CellNotAndRatAt(a0, a1, a2, a3, a4) => (cell_at(current, a0, a1) != a2) && (rat_at(current, (a3, a4))),
        LookupGoal::CellNotWithPlayerAt(a0, a1, a2, a3, a4) => (cell_at(current, a0, a1) != a2) && (player_at_point(current, (a3, a4))),
        LookupGoal::CellNotWithPlayerInRect(a0, a1, a2, a3, a4, a5, a6) => (cell_at(current, a0, a1) != a2) && (class_in_rect_exec(current, CellClass::Exactly(CellKind::Player), a3, a4, a5, a6)),
        LookupGoal::CellNotWithRatInRect(a0, a1, a2, a3, a4, a5, a6) => (cell_at(current, a0, a1) != a2) && (class_in_rect_exec(current, CellClass::RatOrCyborg, a3, a4, a5, a6)),
        LookupGoal::CellNotWithRatInRectAndPlayerInRect(a0, a1, a2, a3, a4, a5, a6, a7, a8, a9, a10) => (cell_at(current, a0, a1) != a2) && (class_in_rect_exec(current, CellClass::RatOrCyborg, a3, a4, a5, a6)) && (class_in_rect_exec(current, CellClass::Exactly(CellKind::Player), a7, a8, a9, a10)),
        LookupGoal::CellNotWithNoRatsInRect(a0, a1, a2, a3, a4, a5, a6) => (cell_at(current, a0, a1) != a2) && (!(class_in_rect_exec(current, CellClass::RatOrCyborg, a3, a4, a5, a6))),
        LookupGoal::CellReachable(a0, a1) => distance_from_player(current, (a0, a1)) < 1000,
        LookupGoal::PlayerAt(a0, a1) => player_at_point(current, (a0, a1)),
        LookupGoal::PlayerFacing(a0, a1, a2) => player_facing(current, (a0, a1), a2),
        LookupGoal::RatStepReady(a0, a1) => facts.rat_step_ready,
        LookupGoal::RatAt(a0, a1) => rat_at(current, (a0, a1)),
        LookupGoal::RatComponentAtLeast(a0, a1, a2) => match rat_component_size_at(current, (a0, a1)) { Some(s) => s >= a2, None => false },
        LookupGoal::RatRectComponentAtLeast(a0, a1, a2, a3, a4) => match max_rat_component_size_in_rect(current, a0, a1, a2, a3) { Some(s) => s >= a4, None => false },
        LookupGoal::RatAtFarFromPlayer(a0, a1, a2) => (rat_at(current, (a0, a1))) && (match nearest_player_distance_from(current, (a0, a1)) { Some(e) => e >= a2, None => false }),
        LookupGoal::RatAtWithPlayer(a0, a1, a2, a3) => (rat_at(current, (a0, a1))) && (player_at_point(current, (a2, a3))),
        LookupGoal::RatInRectWithPlayerInRect(a0, a1, a2, a3, a4, a5, a6, a7) => (class_in_rect_exec(current, CellClass::RatOrCyborg, a0, a1, a2, a3)) && (class_in_rect_exec(current, CellClass::Exactly(CellKind::Player), a4, a5, a6, a7)),
        LookupGoal::RatInRectWithPlayerInRectAndCellIs(a0, a1, a2, a3, a4, a5, a6, a7, a8, a9, a10) => (class_in_rect_exec(current, CellClass::RatOrCyborg, a0, a1, a2, a3)) && (class_in_rect_exec(current, CellClass::Exactly(CellKind::Player), a4, a5, a6, a7)) && (cell_at(current, a8, a9) == a10),
        LookupGoal::RatInRectWithPlayerInRectAndCellNot(a0, a1, a2, a3, a4, a5, a6, a7, a8, a9, a10) => (class_in_rect_exec(current, CellClass::RatOrCyborg, a0, a1, a2, a3)) && (class_in_rect_exec(current, CellClass::Exactly(CellKind::Player), a4, a5, a6, a7)) && (cell_at(current, a8, a9) != a10),
        LookupGoal::RatInRectWithCellIs(a0, a1, a2, a3, a4, a5, a6) => (class_in_rect_exec(current, CellClass::RatOrCyborg, a0, a1, a2, a3)) && (cell_at(current, a4, a5) == a6),
        LookupGoal::NormalRatInRectWithCyborgInRect(a0, a1, a2, a3, a4, a5, a6, a7) => (class_in_rect_exec(current, CellClass::Exactly(CellKind::Rat), a0, a1, a2, a3)) && (class_in_rect_exec(current, CellClass::Exactly(CellKind::CyborgRat), a4, a5, a6, a7)),
        LookupGoal::NormalRatInRectWithCyborgInRectAndPlayerInRect(a0, a1, a2, a3, a4, a5, a6, a7, a8, a9, a10, a11) => (class_in_rect_exec(current, CellClass::Exactly(CellKind::Rat), a0, a1, a2, a3)) && (class_in_rect_exec(current, CellClass::Exactly(CellKind::CyborgRat), a4, a5, a6, a7)) && (class_in_rect_exec(current, CellClass::Exactly(CellKind::Player), a8, a9, a10, a11)),
        LookupGoal::RatAtWithPlayerFacing(a0, a1, a2, a3, a4) => (rat_at(current, (a0, a1))) && (player_facing(current, (a2, a3), a4)),
        LookupGoal::RatAtWithCell(a0, a1, a2, a3, a4) => (rat_at(current, (a0, a1))) && (cell_at(current, a2, a3) == a4),
        LookupGoal::RatGone(a0, a1) => !(rat_at(current, (a0, a1))),
        LookupGoal::NoRatsAt2(a0, a1, a2, a3) => (!(rat_at(current, (a0, a1)))) && (!(rat_at(current, (a2, a3)))),
        LookupGoal::NoRatsInRect(a0, a1, a2, a3) => !(class_in_rect_exec(current, CellClass::RatOrCyborg, a0, a1, a2, a3)),
        LookupGoal::RatsAtMost(a0) => count_matching(current, CellClass::RatOrCyborg) <= a0,
        LookupGoal::ReachableRatsAtLeast(a0) => reachable_rat_count(current) >= a0,
        LookupGoal::AllRatsReachable => reachable_rat_count(current) == count_matching(current, CellClass::RatOrCyborg),
        LookupGoal::CyborgsAtMost(a0) => count_matching(current, CellClass::Exactly(CellKind::CyborgRat)) <= a0,
        LookupGoal::TriggersAtMost(a0) => count_matching(current, CellClass::AnyTrigger) <= a0,
        LookupGoal::ExplosivesAtMost(a0) => count_matching(current, CellClass::Exactly(CellKind::Explosive)) <= a0,
        LookupGoal::WebsAtMost(a0) => count_matching(current, CellClass::Exactly(CellKind::Spiderweb)) <= a0,
        LookupGoal::RatDrop => count_matching(current, CellClass::RatOrCyborg) < count_matching(initial, CellClass::RatOrCyborg),
        LookupGoal::RatsAtMostWithCellIs(a0, a1, a2, a3) => (count_matching(current, CellClass::RatOrCyborg) <= a0) && (cell_at(current, a1, a2) == a3),
        LookupGoal::RatsAtMostWithCellNot(a0, a1, a2, a3) => (count_matching(current, CellClass::RatOrCyborg) <= a0) && (cell_at(current, a1, a2) != a3),
        LookupGoal::RatsAtMostWithRatInRect(a0, a1, a2, a3, a4) => (count_matching(current, CellClass::RatOrCyborg) <= a0) && (class_in_rect_exec(current, CellClass::RatOrCyborg, a1, a2, a3, a4)),
        LookupGoal::RatsAtMostWithRatInRectAndPlayerInRect(a0, a1, a2, a3, a4, a5, a6, a7, a8) => (count_matching(current, CellClass::RatOrCyborg) <= a0) && (class_in_rect_exec(current, CellClass::RatOrCyborg, a1, a2, a3, a4)) && (class_in_rect_exec(current, CellClass::Exactly(CellKind::Player), a5, a6, a7, a8)),
        LookupGoal::RatsAtMostWithPlayerAt(a0, a1, a2) => (count_matching(current, CellClass::RatOrCyborg) <= a0) && (player_at_point(current, (a1, a2))),
        LookupGoal::RatsAtMostWithPlayerFacing(a0, a1, a2, a3) => (count_matching(current, CellClass::RatOrCyborg) <= a0) && (player_facing(current, (a1, a2), a3)),
        LookupGoal::TriggerNumberOnlyWithCellIs(a0, a1, a2, a3) => (only_trigger_changed(initial, current, a0)) && (cell_at(current, a1, a2) == a3),
        LookupGoal::TriggerNumberOnlyWithCellNot(a0, a1, a2, a3) => (only_trigger_changed(initial, current, a0)) && (cell_at(current, a1, a2) != a3),
        LookupGoal::TriggerNumberOnlyWithCellNotAndCellIs(a0, a1, a2, a3, a4, a5, a6) => (only_trigger_changed(initial, current, a0)) && (cell_at(current, a1, a2) != a3) && (cell_at(current, a4, a5) == a6),
    }
}

/// Whatever the play state and the facts, the goal of at most `n` rats is reached exactly
/// when the current board holds at most `n` rats and cyborg rats, so in particular when it
/// holds exactly `n`; a goal reached for `n` is reached for `n + 1`.
pub proof fn law_rats_at_most_reached(n: usize, i: Grid, c: Grid, ps: PlayState, facts: TurnFacts)
    ensures
        spec_goal_reached(LookupGoal::RatsAtMost(n), i, c, ps, facts) <==> count_of(c, CellClass::RatOrCyborg) <= n,
        count_of(c, CellClass::RatOrCyborg) == n ==> spec_goal_reached(LookupGoal::RatsAtMost(n), i, c, ps, facts),
        n < usize::MAX && spec_goal_reached(LookupGoal::RatsAtMost(n), i, c, ps, facts)
            ==> spec_goal_reached(LookupGoal::RatsAtMost((n + 1) as usize), i, c, ps, facts),
{
}

/// The text `name:args`.
pub open spec fn named(name: Seq<char>, args: Seq<char>) -> Seq<char> {
    name + seq![':'] + args
}

/// Reading `name:args` goes by `name`, the text before the first `:`.
proof fn lemma_named_splits(name: Seq<char>, args: Seq<char>)
    requires
        forall|j: int| 0 <= j < name.len() ==> name[j] != ':',
    ensures
        spec_lookup_goal(named(name, args)) == spec_goal_arg(name, args),
{
    let s = named(name, args);
    assert forall|j: int| 0 <= j < name.len() implies s[j] != ':' by {
        assert(s[j] == name[j]);
    }
    assert(s[name.len() as int] == ':');
    lemma_first_colon(s, name.len() as int);
    assert(s.subrange(0, name.len() as int) =~= name);
    assert(s.subrange(name.len() as int + 1, s.len() as int) =~= args);
}

/// Reading `cellnot:args` and `cellis:args` gives goals for the same cell and kind, with
/// opposite meanings: both read or neither does; what `cellnot` reads is a `CellNot` goal,
/// reached on exactly the boards where the `cellis` goal is not.
pub proof fn law_cellnot_reads_as_negated_cellis(args: Seq<char>)
    ensures
        spec_lookup_goal(named("cellnot"@, args)) is Some <==> spec_lookup_goal(named("cellis"@, args)) is Some,
        spec_lookup_goal(named("cellnot"@, args)) matches Some(g) ==> g is CellNot,
        spec_lookup_goal(named("cellis"@, args)) matches Some(g) ==> g is CellIs,
        forall|i: Grid, c: Grid, ps: PlayState, facts: TurnFacts|
            spec_lookup_goal(named("cellnot"@, args)) is Some ==>
            (#[trigger] spec_goal_reached(spec_lookup_goal(named("cellnot"@, args))->0, i, c, ps, facts)
                <==> !spec_goal_reached(spec_lookup_goal(named("cellis"@, args))->0, i, c, ps, facts)),
{
    reveal_strlit("cyborgkillready");
    reveal_strlit("cyborg-kill-ready");
    reveal_strlit("cyborgkillreadyratlive");
    reveal_strlit("cyborg-kill-ready-rat-live");
    reveal_strlit("trigger");
    reveal_strlit("triggeronly");
    reveal_strlit("triggerstrict");
    reveal_strlit("triggerexact");
    reveal_strlit("triggeropen");
    reveal_strlit("triggerreachable");
    reveal_strlit("cell");
    reveal_strlit("cellchanged");
    reveal_strlit("cellis");
    reveal_strlit("cellkind");
    reveal_strlit("cellisplayer");
    reveal_strlit("cellisplayerat");
    reveal_strlit("cellis-and-playerat");
    reveal_strlit("cellnot");
    lemma_named_splits("cellnot"@, args);
    lemma_named_splits("cellis"@, args);
}

/// What the plain goals ask of a board, in terms of the board, the start board, the play
/// state and the facts: a win, a cell holding or having changed its kind, a player or a rat
/// at a point, triggers of a number used up, fewer rats than at the start, at most so many
/// cyborg rats, triggers, explosives or webs, at least so many rats in the players' reach.
pub proof fn law_plain_goals(i: Grid, c: Grid, ps: PlayState, facts: TurnFacts)
    ensures
        spec_goal_reached(LookupGoal::Win, i, c, ps, facts) <==> (ps == PlayState::Won),
        spec_goal_reached(LookupGoal::WinReady, i, c, ps, facts) <==> (ps == PlayState::Won || facts.win_ready),
        spec_goal_reached(LookupGoal::RectangleReady, i, c, ps, facts) <==> (ps == PlayState::Won || facts.win_ready),
        forall|n: u8| #[trigger] spec_goal_reached(LookupGoal::TriggerNumber(n), i, c, ps, facts) <==> (count_of(c, CellClass::Exactly(CellKind::Trigger(n))) < count_of(i, CellClass::Exactly(CellKind::Trigger(n)))),
        forall|x: i32, y: i32| #[trigger] spec_goal_reached(LookupGoal::CellChanged(x, y), i, c, ps, facts) <==> (kind_at_i32(c, x, y) != kind_at_i32(i, x, y)),
        forall|x: i32, y: i32, k: CellKind| #[trigger] spec_goal_reached(LookupGoal::CellIs(x, y, k), i, c, ps, facts) <==> (kind_at_i32(c, x, y) == k),
        forall|x: i32, y: i32| #[trigger] spec_goal_reached(LookupGoal::PlayerAt(x, y), i, c, ps, facts) <==> (player_at(c, (x, y))),
        forall|x: i32, y: i32| #[trigger] spec_goal_reached(LookupGoal::RatAt(x, y), i, c, ps, facts) <==> (spec_rat_at(c, (x, y))),
        spec_goal_reached(LookupGoal::RatDrop, i, c, ps, facts) <==> (count_of(c, CellClass::RatOrCyborg) < count_of(i, CellClass::RatOrCyborg)),
        forall|n: usize| #[trigger] spec_goal_reached(LookupGoal::CyborgsAtMost(n), i, c, ps, facts) <==> (count_of(c, CellClass::Exactly(CellKind::CyborgRat)) <= n),
        forall|n: usize| #[trigger] spec_goal_reached(LookupGoal::TriggersAtMost(n), i, c, ps, facts) <==> (count_of(c, CellClass::AnyTrigger) <= n),
        forall|n: usize| #[trigger] spec_goal_reached(LookupGoal::ExplosivesAtMost(n), i, c, ps, facts) <==> (count_of(c, CellClass::Exactly(CellKind::Explosive)) <= n),
        forall|n: usize| #[trigger] spec_goal_reached(LookupGoal::WebsAtMost(n), i, c, ps, facts) <==> (count_of(c, CellClass::Exactly(CellKind::Spiderweb)) <= n),
        forall|n: usize| #[trigger] spec_goal_reached(LookupGoal::ReachableRatsAtLeast(n), i, c, ps, facts) <==> (reachable_count_of(c, CellClass::RatOrCyborg) >= n),
        spec_goal_reached(LookupGoal::AllRatsReachable, i, c, ps, facts) <==> (reachable_count_of(c, CellClass::RatOrCyborg) == count_of(c, CellClass::RatOrCyborg)),
{
}

/// The combined goals are reached exactly when their parts are: a cell that does not hold a
/// kind is one where the cell-is goal fails, a rat gone is one where the rat-at goal fails,
/// and each goal naming two or three conditions asks for all of them.
pub proof fn law_combined_goals(i: Grid, c: Grid, ps: PlayState, facts: TurnFacts)
    ensures
        forall|x: i32, y: i32, k: CellKind| #[trigger] spec_goal_reached(LookupGoal::CellNot(x, y, k), i, c, ps, facts) <==> (!spec_goal_reached(LookupGoal::CellIs(x, y, k), i, c, ps, facts)),
        forall|x: i32, y: i32| #[trigger] spec_goal_reached(LookupGoal::RatGone(x, y), i, c, ps, facts) <==> (!spec_goal_reached(LookupGoal::RatAt(x, y), i, c, ps, facts)),
        forall|a: i32, b: i32, x: i32, y: i32| #[trigger] spec_goal_reached(LookupGoal::NoRatsAt2(a, b, x, y), i, c, ps, facts) <==> (spec_goal_reached(LookupGoal::RatGone(a, b), i, c, ps, facts) && spec_goal_reached(LookupGoal::RatGone(x, y), i, c, ps, facts)),
        forall|n: u8, m: usize| #[trigger] spec_goal_reached(LookupGoal::TriggerNumberOpen(n, m), i, c, ps, facts) <==> (spec_goal_reached(LookupGoal::TriggerNumber(n), i, c, ps, facts) && reachable_count_of(c, CellClass::AnyCell) >= m),
        forall|x: i32, y: i32, k: CellKind, a: i32, b: i32| #[trigger] spec_goal_reached(LookupGoal::CellIsWithPlayerAt(x, y, k, a, b), i, c, ps, facts) <==> (spec_goal_reached(LookupGoal::CellIs(x, y, k), i, c, ps, facts) && spec_goal_reached(LookupGoal::PlayerAt(a, b), i, c, ps, facts)),
        forall|x: i32, y: i32, k: CellKind, a: i32, b: i32, k2: CellKind| #[trigger] spec_goal_reached(LookupGoal::CellNotWithCellIs(x, y, k, a, b, k2), i, c, ps, facts) <==> (spec_goal_reached(LookupGoal::CellNot(x, y, k), i, c, ps, facts) && spec_goal_reached(LookupGoal::CellIs(a, b, k2), i, c, ps, facts)),
        forall|x: i32, y: i32, k: CellKind, a: i32, b: i32| #[trigger] spec_goal_reached(LookupGoal::CellNotAndRatAt(x, y, k, a, b), i, c, ps, facts) <==> (spec_goal_reached(LookupGoal::CellNot(x, y, k), i, c, ps, facts) && spec_goal_reached(LookupGoal::RatAt(a, b), i, c, ps, facts)),
        forall|x: i32, y: i32, k: CellKind, a: i32, b: i32| #[trigger] spec_goal_reached(LookupGoal::CellNotWithPlayerAt(x, y, k, a, b), i, c, ps, facts) <==> (spec_goal_reached(LookupGoal::CellNot(x, y, k), i, c, ps, facts) && spec_goal_reached(LookupGoal::PlayerAt(a, b), i, c, ps, facts)),
        forall|x: i32, y: i32, a: i32, b: i32| #[trigger] spec_goal_reached(LookupGoal::RatAtWithPlayer(x, y, a, b), i, c, ps, facts) <==> (spec_goal_reached(LookupGoal::RatAt(x, y), i, c, ps, facts) && spec_goal_reached(LookupGoal::PlayerAt(a, b), i, c, ps, facts)),
        forall|x: i32, y: i32, a: i32, b: i32, k: CellKind| #[trigger] spec_goal_reached(LookupGoal::RatAtWithCell(x, y, a, b, k), i, c, ps, facts) <==> (spec_goal_reached(LookupGoal::RatAt(x, y), i, c, ps, facts) && spec_goal_reached(LookupGoal::CellIs(a, b, k), i, c, ps, facts)),
        forall|x: i32, y: i32, a: i32, b: i32, d: Dir4| #[trigger] spec_goal_reached(LookupGoal::RatAtWithPlayerFacing(x, y, a, b, d), i, c, ps, facts) <==> (spec_goal_reached(LookupGoal::RatAt(x, y), i, c, ps, facts) && spec_goal_reached(LookupGoal::PlayerFacing(a, b, d), i, c, ps, facts)),
        forall|n: usize, x: i32, y: i32, k: CellKind| #[trigger] spec_goal_reached(LookupGoal::RatsAtMostWithCellIs(n, x, y, k), i, c, ps, facts) <==> (spec_goal_reached(LookupGoal::RatsAtMost(n), i, c, ps, facts) && spec_goal_reached(LookupGoal::CellIs(x, y, k), i, c, ps, facts)),
        forall|n: usize, x: i32, y: i32, k: CellKind| #[trigger] spec_goal_reached(LookupGoal::RatsAtMostWithCellNot(n, x, y, k), i, c, ps, facts) <==> (spec_goal_reached(LookupGoal::RatsAtMost(n), i, c, ps, facts) && spec_goal_reached(LookupGoal::CellNot(x, y, k), i, c, ps, facts)),
        forall|n: usize, x: i32, y: i32| #[trigger] spec_goal_reached(LookupGoal::RatsAtMostWithPlayerAt(n, x, y), i, c, ps, facts) <==> (spec_goal_reached(LookupGoal::RatsAtMost(n), i, c, ps, facts) && spec_goal_reached(LookupGoal::PlayerAt(x, y), i, c, ps, facts)),
        forall|n: usize, x: i32, y: i32, d: Dir4| #[trigger] spec_goal_reached(LookupGoal::RatsAtMostWithPlayerFacing(n, x, y, d), i, c, ps, facts) <==> (spec_goal_reached(LookupGoal::RatsAtMost(n), i, c, ps, facts) && spec_goal_reached(LookupGoal::PlayerFacing(x, y, d), i, c, ps, facts)),
        forall|n: u8, x: i32, y: i32, k: CellKind| #[trigger] spec_goal_reached(LookupGoal::TriggerNumberOnlyWithCellIs(n, x, y, k), i, c, ps, facts) <==> (spec_goal_reached(LookupGoal::TriggerNumberOnly(n), i, c, ps, facts) && spec_goal_reached(LookupGoal::CellIs(x, y, k), i, c, ps, facts)),
        forall|n: u8, x: i32, y: i32, k: CellKind| #[trigger] spec_goal_reached(LookupGoal::TriggerNumberOnlyWithCellNot(n, x, y, k), i, c, ps, facts) <==> (spec_goal_reached(LookupGoal::TriggerNumberOnly(n), i, c, ps, facts) && spec_goal_reached(LookupGoal::CellNot(x, y, k), i, c, ps, facts)),
        forall|n: u8, x: i32, y: i32, k: CellKind, a: i32, b: i32, k2: CellKind| #[trigger] spec_goal_reached(LookupGoal::TriggerNumberOnlyWithCellNotAndCellIs(n, x, y, k, a, b, k2), i, c, ps, facts) <==> (spec_goal_reached(LookupGoal::TriggerNumberOnlyWithCellNot(n, x, y, k), i, c, ps, facts) && spec_goal_reached(LookupGoal::CellIs(a, b, k2), i, c, ps, facts)),
{
}

/// Neither `ratsle` nor `ratsatmost` names a goal of the first list.
proof fn lemma_ratsle_not_in_first(k: Seq<char>, a: Seq<char>)
    requires
        k == "ratsle"@ || k == "ratsatmost"@,
    ensures
        spec_goal_arg_0(k, a) is None,
{
    reveal_strlit("cyborgkillready");
    reveal_strlit("cyborg-kill-ready");
    reveal_strlit("cyborgkillreadyratlive");
    reveal_strlit("cyborg-kill-ready-rat-live");
    reveal_strlit("trigger");
    reveal_strlit("triggeronly");
    reveal_strlit("triggerstrict");
    reveal_strlit("triggerexact");
    reveal_strlit("triggeropen");
    reveal_strlit("triggerreachable");
    reveal_strlit("cell");
    reveal_strlit("cellchanged");
    reveal_strlit("cellis");
    reveal_strlit("cellkind");
    reveal_strlit("cellisplayer");
    reveal_strlit("cellisplayerat");
    reveal_strlit("cellis-and-playerat");
    reveal_strlit("cellnot");
    reveal_strlit("cellnotcellis");
    reveal_strlit("cellnot-and-cellis");
    reveal_strlit("cellnotratat");
    reveal_strlit("cellnot-and-ratat");
    reveal_strlit("cellnotplayer");
    reveal_strlit("cellnotplayerat");
    reveal_strlit("cellnot-and-playerat");
    reveal_strlit("cellnotplayerrect");
    reveal_strlit("cellnot-and-playerrect");
    reveal_strlit("cellnotratrect");
    reveal_strlit("cellnot-and-ratrect");
    reveal_strlit("ratsle");
    reveal_strlit("ratsatmost");
    assert("ratsle"@.len() == 6);
    assert("ratsatmost"@.len() == 10);
    assert("cyborgkillready"@.len() == 15);
    assert("cyborg-kill-ready"@.len() == 17);
    assert("cyborgkillreadyratlive"@.len() == 22);
    assert("cyborg-kill-ready-rat-live"@.len() == 26);
    assert("trigger"@.len() == 7);
    assert("triggeronly"@.len() == 11);
    assert("triggerstrict"@.len() == 13);
    assert("triggerexact"@.len() == 12);
    assert("triggeropen"@.len() == 11);
    assert("triggerreachable"@.len() == 16);
    assert("cell"@.len() == 4);
    assert("cellchanged"@.len() == 11);
    assert("cellis"@.len() == 6);
    assert("cellis"@[0] == 'c' && "ratsle"@[0] == 'r');
    assert("cellkind"@.len() == 8);
    assert("cellisplayer"@.len() == 12);
    assert("cellisplayerat"@.len() == 14);
    assert("cellis-and-playerat"@.len() == 19);
    assert("cellnot"@.len() == 7);
    assert("cellnotcellis"@.len() == 13);
    assert("cellnot-and-cellis"@.len() == 18);
    assert("cellnotratat"@.len() == 12);
    assert("cellnot-and-ratat"@.len() == 17);
    assert("cellnotplayer"@.len() == 13);
    assert("cellnotplayerat"@.len() == 15);
    assert("cellnot-and-playerat"@.len() == 20);
    assert("cellnotplayerrect"@.len() == 17);
    assert("cellnot-and-playerrect"@.len() == 22);
    assert("cellnotratrect"@.len() == 14);
    assert("cellnot-and-ratrect"@.len() == 19);
}

/// Neither `ratsle` nor `ratsatmost` names a goal of the second list.
proof fn lemma_ratsle_not_in_second(k: Seq<char>, a: Seq<char>)
    requires
        k == "ratsle"@ || k == "ratsatmost"@,
    ensures
        spec_goal_arg_1(k, a) is None,
{
    reveal_strlit("cellnotratrectplayerrect");
    reveal_strlit("cellnot-and-ratrect-playerrect");
    reveal_strlit("cellnotnoratsrect");
    reveal_strlit("cellnot-and-noratsrect");
    reveal_strlit("reachable");
    reveal_strlit("cellreachable");
    reveal_strlit("playerat");
    reveal_strlit("playerfacing");
    reveal_strlit("playerdir");
    reveal_strlit("ratstepready");
    reveal_strlit("rat-step-ready");
    reveal_strlit("ratsteptargetready");
    reveal_strlit("ratat");
    reveal_strlit("ratcomponentge");
    reveal_strlit("ratcompge");
    reveal_strlit("ratcomponentatleast");
    reveal_strlit("ratrectcomponentge");
    reveal_strlit("ratrectcompge");
    reveal_strlit("ratinrectcomponentatleast");
    reveal_strlit("ratfar");
    reveal_strlit("ratatfar");
    reveal_strlit("ratplayer");
    reveal_strlit("ratrectplayerrect");
    reveal_strlit("ratinrectplayerinrect");
    reveal_strlit("ratrectplayerrectcellis");
    reveal_strlit("ratinrectplayerinrectcellis");
    reveal_strlit("ratrectplayerrectcellnot");
    reveal_strlit("ratinrectplayerinrectcellnot");
    reveal_strlit("ratsle");
    reveal_strlit("ratsatmost");
    assert("ratsle"@.len() == 6);
    assert("ratsatmost"@.len() == 10);
    assert("cellnotratrectplayerrect"@.len() == 24);
    assert("cellnot-and-ratrect-playerrect"@.len() == 30);
    assert("cellnotnoratsrect"@.len() == 17);
    assert("cellnot-and-noratsrect"@.len() == 22);
    assert("reachable"@.len() == 9);
    assert("cellreachable"@.len() == 13);
    assert("playerat"@.len() == 8);
    assert("playerfacing"@.len() == 12);
    assert("playerdir"@.len() == 9);
    assert("ratstepready"@.len() == 12);
    assert("rat-step-ready"@.len() == 14);
    assert("ratsteptargetready"@.len() == 18);
    assert("ratat"@.len() == 5);
    assert("ratcomponentge"@.len() == 14);
    assert("ratcompge"@.len() == 9);
    assert("ratcomponentatleast"@.len() == 19);
    assert("ratrectcomponentge"@.len() == 18);
    assert("ratrectcompge"@.len() == 13);
    assert("ratinrectcomponentatleast"@.len() == 25);
    assert("ratfar"@.len() == 6);
    assert("ratfar"@[3] == 'f' && "ratsle"@[3] == 's');
    assert("ratatfar"@.len() == 8);
    assert("ratplayer"@.len() == 9);
    assert("ratrectplayerrect"@.len() == 17);
    assert("ratinrectplayerinrect"@.len() == 21);
    assert("ratrectplayerrectcellis"@.len() == 23);
    assert("ratinrectplayerinrectcellis"@.len() == 27);
    assert("ratrectplayerrectcellnot"@.len() == 24);
    assert("ratinrectplayerinrectcellnot"@.len() == 28);
}

/// `ratsle` and `ratsatmost` name the goal of at most so many rats in the third list.
proof fn lemma_ratsle_in_third(k: Seq<char>, a: Seq<char>)
    requires
        k == "ratsle"@ || k == "ratsatmost"@,
    ensures
        spec_goal_arg_2(k, a) == Some(match p_usize(a) {
            Some(n) => Some(LookupGoal::RatsAtMost(n as usize)),
            None => None,
        }),
{
    reveal_strlit("ratrectcellis");
    reveal_strlit("ratinrectcellis");
    reveal_strlit("normalratrectcyborgrect");
    reveal_strlit("normal-inrect-cyborg-inrect");
    reveal_strlit("normalratrectcyborgrectplayerrect");
    reveal_strlit("normal-inrect-cyborg-inrect-player-inrect");
    reveal_strlit("ratplayerfacing");
    reveal_strlit("ratplayerdir");
    reveal_strlit("ratcell");
    reveal_strlit("ratgone");
    reveal_strlit("norats2");
    reveal_strlit("noratsat2");
    reveal_strlit("noratsrect");
    reveal_strlit("noratsinrect");
    reveal_strlit("ratsle");
    reveal_strlit("ratsatmost");
    assert("ratsle"@.len() == 6);
    assert("ratsatmost"@.len() == 10);
    assert("ratrectcellis"@.len() == 13);
    assert("ratinrectcellis"@.len() == 15);
    assert("normalratrectcyborgrect"@.len() == 23);
    assert("normal-inrect-cyborg-inrect"@.len() == 27);
    assert("normalratrectcyborgrectplayerrect"@.len() == 33);
    assert("normal-inrect-cyborg-inrect-player-inrect"@.len() == 41);
    assert("ratplayerfacing"@.len() == 15);
    assert("ratplayerdir"@.len() == 12);
    assert("ratcell"@.len() == 7);
    assert("ratgone"@.len() == 7);
    assert("norats2"@.len() == 7);
    assert("noratsat2"@.len() == 9);
    assert("noratsrect"@.len() == 10);
    assert("noratsrect"@[0] == 'n' && "ratsatmost"@[0] == 'r');
    assert("noratsinrect"@.len() == 12);
}

/// Reading `ratsle:args` or `ratsatmost:args` gives the same goal: the goal of at most as
/// many rats as `args` reads as a number, and no goal when it does not read as one.
pub proof fn law_ratsle_reads_as_rats_at_most(args: Seq<char>)
    ensures
        spec_lookup_goal(named("ratsle"@, args)) == spec_lookup_goal(named("ratsatmost"@, args)),
        spec_lookup_goal(named("ratsle"@, args)) == (match p_usize(args) {
            Some(n) => Some(LookupGoal::RatsAtMost(n as usize)),
            None => None,
        }),
{
    reveal_strlit("ratsle");
    reveal_strlit("ratsatmost");
    lemma_named_splits("ratsle"@, args);
    lemma_named_splits("ratsatmost"@, args);
    lemma_ratsle_not_in_first("ratsle"@, args);
    lemma_ratsle_not_in_first("ratsatmost"@, args);
    lemma_ratsle_not_in_second("ratsle"@, args);
    lemma_ratsle_not_in_second("ratsatmost"@, args);
    lemma_ratsle_in_third("ratsle"@, args);
    lemma_ratsle_in_third("ratsatmost"@, args);
}

} // verus!
