use solver::parse::{parse_required_point, parse_optional_point, parse_points, parse_trigger_order,
    parse_waypoint_pairs, parse_dir4_name, parse_cell_kind_name, DeathTargetKind, LookupOrder, TargetKind};
use solver::fields::{parse_point_and_distance, parse_count_and_point, parse_point_and_cell_kind,
    parse_count_point_and_cell_kind, parse_count_point_and_dir};
use solver::constraints::{parse_trap_constraint_arg, TrapConstraints, ArgError};
use solver::goals::LookupGoal;
use solver::plain_search::Strategy;
use solver::model::{CellKind, Dir4};

#[test]
fn required_point_reads_x_and_y() {
    assert_eq!(parse_required_point("3,4"), Some((3, 4)));
    assert_eq!(parse_required_point(" -2 , 7 "), Some((-2, 7)));
    assert_eq!(parse_required_point("any"), None);
    assert_eq!(parse_required_point("3"), None);
}

#[test]
fn optional_point_accepts_wildcards() {
    assert_eq!(parse_optional_point("."), Some(None));
    assert_eq!(parse_optional_point("_"), Some(None));
    assert_eq!(parse_optional_point(" ANY "), Some(None));
    assert_eq!(parse_optional_point("5,6"), Some(Some((5, 6))));
    assert_eq!(parse_optional_point("5,x"), None);
}

#[test]
fn points_skip_wildcards() {
    assert_eq!(parse_points("1,2;.;3,4"), Some(vec![(1, 2), (3, 4)]));
    assert_eq!(parse_points("1,2;bad"), None);
}

#[test]
fn trigger_order_reads_numbers_and_skips_empty_pieces() {
    assert_eq!(parse_trigger_order("3, 1;2;;"), Some(vec![3, 1, 2]));
    assert_eq!(parse_trigger_order(""), Some(vec![]));
    assert_eq!(parse_trigger_order("1,x"), None);
    assert_eq!(parse_trigger_order("300"), None);
}

#[test]
fn waypoint_pairs_pad_and_cut_to_the_player_count() {
    assert_eq!(
        parse_waypoint_pairs("1,2|3,4; 5,6 ;;", 2),
        Some(vec![vec![Some((1, 2)), Some((3, 4))], vec![Some((5, 6)), None]])
    );
    assert_eq!(parse_waypoint_pairs("1,2|3,4|5,6", 1), Some(vec![vec![Some((1, 2))]]));
}

#[test]
fn point_and_distance() {
    assert_eq!(parse_point_and_distance("1,2,3"), Some(((1, 2), 3)));
    assert_eq!(parse_point_and_distance("1,2,-3"), None);
    assert_eq!(parse_point_and_distance("1,2,3,4"), None);
}

#[test]
fn count_and_point() {
    assert_eq!(parse_count_and_point("2, 5, 6"), Some((2, (5, 6))));
    assert_eq!(parse_count_and_point("2,5"), None);
}

#[test]
fn point_with_cell_kind_and_direction() {
    assert_eq!(parse_point_and_cell_kind("1,2,explosive"), Some(((1, 2), CellKind::Explosive)));
    assert_eq!(parse_count_point_and_cell_kind("3,1,2,wall"), Some((3, (1, 2), CellKind::Wall)));
    assert_eq!(parse_count_point_and_dir("3,1,2,north"), Some((3, (1, 2), Dir4::North)));
}

#[test]
fn direction_and_cell_kind_names() {
    assert_eq!(parse_dir4_name("east"), Some(Dir4::East));
    assert_eq!(parse_dir4_name("sideways"), None);
    assert_eq!(parse_cell_kind_name("wall"), Some(CellKind::Wall));
    assert_eq!(parse_cell_kind_name("nothing-like-a-cell"), None);
}

#[test]
fn death_target_kinds() {
    assert_eq!(DeathTargetKind::parse("any"), Some(DeathTargetKind::Any));
    assert_eq!(DeathTargetKind::parse("hole"), Some(DeathTargetKind::BlackHole));
    assert_eq!(DeathTargetKind::parse("bomb"), Some(DeathTargetKind::Explosive));
    assert_eq!(DeathTargetKind::parse("fire"), None);
    assert!(DeathTargetKind::Any.accepts(CellKind::BlackHole));
    assert!(DeathTargetKind::Any.accepts(CellKind::Explosive));
    assert!(!DeathTargetKind::Explosive.accepts(CellKind::BlackHole));
}

#[test]
fn lookup_orders_and_strategies() {
    assert_eq!(LookupOrder::parse("bfs"), Some(LookupOrder::Bfs));
    assert_eq!(LookupOrder::parse("astar"), Some(LookupOrder::Astar));
    assert_eq!(LookupOrder::parse("dfs"), None);
    assert_eq!(Strategy::parse("bfs"), Strategy::Bfs);
    assert_eq!(Strategy::parse("gbfs"), Strategy::Gbfs);
    assert_eq!(Strategy::parse("anything"), Strategy::Astar);
}

#[test]
fn event_target_kinds() {
    assert_eq!(TargetKind::parse("ignite"), Some(TargetKind::Explosion));
    assert_eq!(TargetKind::parse("ready"), Some(TargetKind::IgnitionReady));
    assert_eq!(TargetKind::parse("lure"), Some(TargetKind::RatNearExplosive));
    assert_eq!(TargetKind::parse("trigger"), Some(TargetKind::Trigger));
    assert_eq!(TargetKind::parse("rat"), Some(TargetKind::RatDrop));
    assert_eq!(TargetKind::parse("any"), Some(TargetKind::StructureChanged));
    assert_eq!(TargetKind::parse("none"), None);
}

#[test]
fn lookup_goals() {
    assert_eq!(LookupGoal::parse("win"), Some(LookupGoal::Win));
    assert_eq!(LookupGoal::parse("winready"), Some(LookupGoal::WinReady));
    assert_eq!(LookupGoal::parse("trigger:3"), Some(LookupGoal::TriggerNumber(3)));
    assert_eq!(LookupGoal::parse("triggeropen:2,10"), Some(LookupGoal::TriggerNumberOpen(2, 10)));
    assert_eq!(LookupGoal::parse("cell:4,5"), Some(LookupGoal::CellChanged(4, 5)));
    assert_eq!(LookupGoal::parse("cellis:1,2,wall"), Some(LookupGoal::CellIs(1, 2, CellKind::Wall)));
    assert_eq!(LookupGoal::parse("ratat:1,2"), Some(LookupGoal::RatAt(1, 2)));
    assert_eq!(LookupGoal::parse("cyborgkillready:north"), Some(LookupGoal::CyborgKillReady(Some(Dir4::North), false)));
    assert_eq!(LookupGoal::parse("ratdrop"), Some(LookupGoal::RatDrop));
    assert_eq!(LookupGoal::parse("fly"), None);
    assert_eq!(LookupGoal::parse("trigger:x"), None);
}

fn args(v: &[&str]) -> Vec<String> {
    v.iter().map(|t| t.to_string()).collect()
}

#[test]
fn trap_constraint_options() {
    let mut tc = TrapConstraints::default();
    let a = args(&["--all-reachable", "--max-trapped", "2", "--cleanup-cell", "3,4", "--next-trigger", "5", "--other"]);
    assert_eq!(parse_trap_constraint_arg(&a, 0, &mut tc), Ok(Some(1)));
    assert!(tc.all_rats_reachable);
    assert_eq!(parse_trap_constraint_arg(&a, 1, &mut tc), Ok(Some(3)));
    assert_eq!(tc.max_trapped_rats, Some(2));
    assert_eq!(parse_trap_constraint_arg(&a, 3, &mut tc), Ok(Some(5)));
    assert_eq!(tc.require_reachable_cell, Some((3, 4)));
    assert_eq!(parse_trap_constraint_arg(&a, 5, &mut tc), Ok(Some(7)));
    assert_eq!(tc.require_reachable_trigger, Some(5));
    assert_eq!(parse_trap_constraint_arg(&a, 7, &mut tc), Ok(None));
}

#[test]
fn trap_constraint_errors() {
    let mut tc = TrapConstraints::default();
    let a = args(&["--min-explosives"]);
    assert_eq!(parse_trap_constraint_arg(&a, 0, &mut tc), Err(ArgError::MissingValue));
    let b = args(&["--max-webs", "lots"]);
    assert_eq!(parse_trap_constraint_arg(&b, 0, &mut tc), Err(ArgError::BadValue));
    assert_eq!(tc.max_webs, None);
}
