use solver::model::{Action, CellKind, Dir4, Grid, PlayState};
use solver::plain_search::Next;
use solver::segment_branches::{SegmentBranchSearch, SegmentBranchOffer};
use solver::macro_search::{MacroSearch, MacroNext, MacroOffer};
use solver::fess_run::{FessRun, FessOffer};
use solver::route_beam::{RouteBeam, RouteOffer};
use solver::heuristics::{fess_branch_score, lookup_branch_score, Tuning};

const N: Action = Action::Move(Dir4::North);
const E: Action = Action::Move(Dir4::East);

fn board(rows: &[&str]) -> Grid {
    let kinds: Vec<Vec<CellKind>> = rows
        .iter()
        .map(|r| {
            r.chars()
                .map(|c| match c {
                    '#' => CellKind::Wall,
                    'P' => CellKind::Player,
                    'R' => CellKind::Rat,
                    'X' => CellKind::Explosive,
                    _ => CellKind::Empty,
                })
                .collect()
        })
        .collect();
    Grid::from_kinds(kinds).unwrap()
}

fn tuning() -> Tuning {
    Tuning { progress: false, smart: false, trap: false, strict: false, rect_lower: false, lure: false }
}

#[test]
fn segment_branches_collect_arrivals() {
    assert!(SegmentBranchSearch::new(board(&["..."]), 1, (2, 0), 2).is_none());
    let mut s = SegmentBranchSearch::new(board(&["P.."]), 1, (2, 0), 2).unwrap();
    assert_eq!(s.next(), Next::Expand(0));
    assert!(matches!(s.offer(0, vec![E], board(&["P.."]), PlayState::GameOver, 9), SegmentBranchOffer::Skipped));
    assert!(matches!(s.offer(0, vec![E], board(&[".P."]), PlayState::Playing, 2), SegmentBranchOffer::Added(1)));
    assert!(matches!(s.offer(0, vec![N], board(&["..."]), PlayState::Playing, 3), SegmentBranchOffer::Kept(2)));
    assert!(matches!(s.offer(1, vec![E], board(&["..P"]), PlayState::Playing, 4), SegmentBranchOffer::Arrived(3)));
    // the same board at the point again is not a new way
    assert!(matches!(s.offer(1, vec![E], board(&["..P"]), PlayState::Playing, 4), SegmentBranchOffer::Kept(4)));
    assert!(matches!(s.offer(0, vec![E], board(&["..P"]), PlayState::Playing, 5), SegmentBranchOffer::Arrived(5)));
    assert_eq!(s.ways().len(), 2);
    assert_eq!(s.ways()[0].node, 3);
    assert_eq!(s.ways()[0].path, vec![vec![E], vec![E]]);
    assert!(!s.ways()[0].won);
    // enough ways: the search ends
    assert_eq!(s.next(), Next::Exhausted);
    // equal boards: the shorter way comes first
    assert_eq!(s.ordered_ways(tuning()), vec![1, 0]);
}

#[test]
fn segment_branches_keep_a_win() {
    let mut s = SegmentBranchSearch::new(board(&["P.R"]), 1, (2, 0), 4).unwrap();
    assert!(matches!(s.offer(0, vec![E], board(&[".P."]), PlayState::Won, 2), SegmentBranchOffer::Won(1)));
    assert!(s.ways()[0].won);
    assert_eq!(s.ways()[0].path, vec![vec![E]]);
}

#[test]
fn macro_search_orders_events_by_score_and_turns() {
    let root = board(&["P.R.R"]);
    let h0 = lookup_branch_score(&root, 0);
    let mut s = MacroSearch::new(root, 1, 3);
    assert_eq!(s.best(), h0);
    assert_eq!(s.next(), MacroNext::Expand(0));
    assert!(matches!(s.offer(0, vec![vec![E]], 1, -1_000_000_000, board(&["P.R.."]), 2), MacroOffer::Added(1)));
    assert_eq!(s.best(), -999_999_999);
    assert_eq!(s.best_path(), vec![vec![E]]);
    assert!(matches!(s.offer(0, vec![vec![E]], 1, 5, board(&["P.R.."]), 2), MacroOffer::Skipped));
    assert_eq!(s.next(), MacroNext::Expand(1));
    match s.offer(1, vec![vec![E], vec![E]], 0, 0, board(&["P...."]), 3) {
        MacroOffer::Solved(path) => assert_eq!(path, vec![vec![E], vec![E], vec![E]]),
        _ => panic!("expected a solution"),
    }
    assert!(matches!(s.offer(1, vec![vec![N]], 1, 7, board(&["P...R"]), 4), MacroOffer::Added(2)));
    assert_eq!(s.path(2), vec![vec![E], vec![N]]);
    assert_eq!(s.size(), 3);
    assert_eq!(s.next(), MacroNext::Limit);
}

#[test]
fn macro_search_runs_dry() {
    let mut s = MacroSearch::new(board(&["P.R"]), 1, 5);
    assert_eq!(s.next(), MacroNext::Expand(0));
    assert_eq!(s.next(), MacroNext::Exhausted);
}

#[test]
fn fess_run_chooses_the_next_frontier() {
    let root = board(&["P.R.R"]);
    let c1 = board(&["P.R.."]);
    let c2 = board(&["P...R"]);
    let s0 = fess_branch_score(&root, 0);
    let s1 = fess_branch_score(&c1, 1);
    let s2 = fess_branch_score(&c2, 2);
    let mut f = FessRun::new(root, 1, 1, 1);
    assert_eq!(f.branch(0).score, s0);
    f.start_step();
    assert_eq!(f.working(), 1);
    assert!(matches!(f.offer(0, vec![vec![E]], 1, c1, 2, "k1".to_string()), FessOffer::Added(1)));
    assert!(matches!(f.offer(0, vec![vec![E], vec![E]], 1, c2, 3, "k2".to_string()), FessOffer::Added(2)));
    assert!(matches!(f.offer(0, vec![vec![N]], 1, board(&["P.R.."]), 2, "k1".to_string()), FessOffer::Skipped));
    match f.offer(0, vec![vec![N]], 0, board(&["P...."]), 4, "k3".to_string()) {
        FessOffer::Solved(path) => assert_eq!(path, vec![vec![N]]),
        _ => panic!("expected a solution"),
    }
    assert_eq!(f.candidate_branches(), &vec![1, 2]);
    assert_eq!(f.candidate_event_keys(), &vec!["k1".to_string(), "k2".to_string()]);
    let mut best = 0;
    let mut best_score = s0;
    for (i, s) in [(1, s1), (2, s2)] {
        if s < best_score {
            best = i;
            best_score = s;
        }
    }
    assert_eq!(f.best_branch(), best);
    assert!(f.end_step(&vec!["b1".to_string(), "b2".to_string()]));
    let first = if s2 < s1 { 2 } else { 1 };
    assert_eq!(f.frontier_branches()[0], first);
    assert_eq!(f.path(2), vec![vec![E], vec![E]]);
    // no candidates: the search has failed
    f.start_step();
    assert!(!f.end_step(&vec![]));
}

#[test]
fn route_beam_follows_the_reference() {
    let mut r = RouteBeam::new(board(&["P.R.R"]), vec![vec![E]], tuning(), 2, 100, Some(1), 0, 0);
    assert_eq!(r.frontier_states().len(), 1);
    assert_eq!(r.best(), 2_000_000);
    // off the route: one deviation
    assert!(matches!(r.offer(0, vec![N], board(&[".PR.."]), PlayState::Playing, 2), RouteOffer::Added(0)));
    assert_eq!(r.best(), 1_000_000 + 100 + 1);
    assert_eq!(r.best_deviation_count(), 1);
    // on the route to the same board: a lower score replaces it
    assert!(matches!(r.offer(0, vec![E], board(&[".PR.."]), PlayState::Playing, 2), RouteOffer::Replaced(0)));
    assert_eq!(r.best(), 1_000_000 + 1);
    assert_eq!(r.best_deviation_count(), 0);
    assert!(matches!(r.offer(0, vec![N], board(&[".PR.."]), PlayState::Playing, 2), RouteOffer::Worse));
    assert!(matches!(r.offer(0, vec![N], board(&["P.R.R"]), PlayState::GameOver, 3), RouteOffer::Skipped));
    assert!(matches!(r.offer(0, vec![N], board(&["P...R"]), PlayState::Playing, 4), RouteOffer::Added(1)));
    assert!(r.end_layer());
    assert_eq!(r.layer_depth(), 1);
    let f = r.frontier_states();
    assert_eq!(f.len(), 2);
    assert_eq!(f[0].path, vec![vec![E]]);
    assert_eq!(f[0].deviations, 0);
    assert_eq!(f[0].slot, 0);
    assert_eq!(f[1].slot, 1);
    assert_eq!(r.best_path(), vec![vec![E]]);
    // past the end of the route no turn deviates; a win ends the search
    match r.offer(0, vec![N], board(&["....."]), PlayState::Won, 5) {
        RouteOffer::Solved(path) => assert_eq!(path, vec![vec![E], vec![N]]),
        _ => panic!("expected a win"),
    }
    assert!(!r.end_layer());
}

#[test]
fn route_beam_limits_deviations() {
    let mut r = RouteBeam::new(board(&["P.R."]), vec![vec![E]], tuning(), 2, 100, Some(0), 0, 0);
    assert!(matches!(r.offer(0, vec![N], board(&["...."]), PlayState::Won, 2), RouteOffer::Skipped));
    assert!(matches!(r.offer(0, vec![E], board(&[".PR."]), PlayState::Playing, 2), RouteOffer::Added(0)));
}
