use solver::model::{Action, CellKind, Dir4, Grid, PlayState};
use solver::plain_search::{Next, Strategy};
use solver::pocket::{left_pocket_rats, nearest_player_rat_dist, score, PocketBfs, PocketGoal, PocketOffer, PocketSearch};
use solver::segment_search::{SegmentSearch, SegmentOffer, Waypoint};
use solver::novelty_search::{NoveltySearch, NoveltyOffer};
use solver::beam_search::{BeamPlan, BeamSearch, BeamOffer};
use solver::lure_search::{LureParams, LureSearch, LureOffer};
use solver::guided::{Guide, GuidedSearch, GuidedStart, GuidedOffer};
use solver::event_search::{EventSearch, EventOffer};
use solver::event_successors::{EventParams, SuccessorSearch, SuccessorOffer};
use solver::event_select::EventScoreMode;
use solver::constraints::TrapConstraints;
use solver::heuristics::{heuristic, Tuning};
use solver::parse::TargetKind;

const E: Action = Action::Move(Dir4::East);
const S: Action = Action::Move(Dir4::South);

fn board(rows: &[&str]) -> Grid {
    let kinds: Vec<Vec<CellKind>> = rows
        .iter()
        .map(|r| {
            r.chars()
                .map(|c| match c {
                    '#' => CellKind::Wall,
                    'P' => CellKind::Player,
                    'R' => CellKind::Rat,
                    'C' => CellKind::CyborgRat,
                    'X' => CellKind::Explosive,
                    'W' => CellKind::Spiderweb,
                    _ => CellKind::Empty,
                })
                .collect()
        })
        .collect();
    Grid::from_kinds(kinds).unwrap()
}

fn tuning() -> Tuning {
    Tuning { progress: false, smart: false, trap: false, strict: false, rect_lower: false, lure: false }
}

/// Eleven rows, four columns; `bottom` is the last row, the player stands top right.
fn tall(bottom: &str) -> Grid {
    let mut rows: Vec<&str> = vec!["...P"];
    for _ in 0..9 {
        rows.push("....");
    }
    rows.push(bottom);
    board(&rows)
}

#[test]
fn pocket_score_adds_its_terms() {
    let g = tall("R..C");
    assert_eq!(left_pocket_rats(&g), 1);
    assert_eq!(nearest_player_rat_dist(&g), 10);
    assert_eq!(score(&g), 2 * 1_000_000 + 5_000_000 + 10);
    let with_explosive_and_web = board(&["PXW", "..R"]);
    assert_eq!(left_pocket_rats(&with_explosive_and_web), 0);
    assert_eq!(score(&with_explosive_and_web), 1_000_000 + 500 + 100 + 3);
}

#[test]
fn pocket_distance_edges() {
    assert_eq!(nearest_player_rat_dist(&board(&["..R"])), 10_000);
    assert_eq!(nearest_player_rat_dist(&board(&["P.."])), 0);
    assert_eq!(score(&board(&["P.."])), 0);
}

#[test]
fn pocket_bfs_stops_when_a_pocket_rat_leaves() {
    let root = tall("R...");
    let mut s = PocketBfs::new(root, 1, PocketGoal::FewerPocketRats(1), 5);
    assert_eq!(s.size(), 1);
    assert_eq!(s.next(), Next::Expand(0));
    assert!(matches!(s.offer(0, S, tall("R..."), PlayState::GameOver, 2), PocketOffer::Skipped));
    assert!(matches!(s.offer(0, S, tall(".R.."), PlayState::Playing, 2), PocketOffer::Added(1)));
    assert!(matches!(s.offer(0, S, tall(".R.."), PlayState::Playing, 2), PocketOffer::Skipped));
    assert_eq!(s.depth(1), 1);
    assert_eq!(s.next(), Next::Expand(1));
    assert_eq!(s.current_level(), 1);
    match s.offer(1, E, tall("...R"), PlayState::Playing, 3) {
        PocketOffer::Reached(path) => assert_eq!(path, vec![vec![S], vec![E]]),
        _ => panic!("expected the goal"),
    }
}

#[test]
fn pocket_bfs_cell_goal_and_depth_limit() {
    let root = board(&["P#"]);
    let mut s = PocketBfs::new(root, 1, PocketGoal::CellNot(1, 0, CellKind::Wall), 0);
    assert_eq!(s.next(), Next::Dropped);
    assert_eq!(s.next(), Next::Exhausted);
    match s.offer(0, E, board(&["P."]), PlayState::Playing, 2) {
        PocketOffer::Reached(path) => assert_eq!(path, vec![vec![E]]),
        _ => panic!("expected the goal"),
    }
}

#[test]
fn pocket_search_keeps_the_best_board() {
    let root = board(&["P..R"]);
    let mut s = PocketSearch::new(root, 1, 4);
    assert_eq!(s.next(), Next::Expand(0));
    assert!(matches!(s.offer(0, E, board(&[".P.R"]), PlayState::Playing, 2), PocketOffer::Added(1)));
    assert_eq!(s.best_path(), vec![vec![E]]);
    assert!(matches!(s.offer(0, E, board(&["P.R."]), PlayState::Playing, 3), PocketOffer::Added(2)));
    assert_eq!(s.best_path(), vec![vec![E]]);
    match s.offer(2, E, board(&["P..."]), PlayState::Won, 4) {
        PocketOffer::Reached(path) => assert_eq!(path, vec![vec![E], vec![E]]),
        _ => panic!("expected a win"),
    }
}

#[test]
fn segment_search_walks_to_a_point() {
    assert!(SegmentSearch::new(board(&["..."]), 1, Waypoint::Single((2, 0))).is_none());
    let mut s = SegmentSearch::new(board(&["P.."]), 1, Waypoint::Single((2, 0))).unwrap();
    assert_eq!(s.next(), Next::Expand(0));
    assert!(matches!(s.offer(0, vec![E], board(&[".P."]), PlayState::Playing, 2), SegmentOffer::Added(1)));
    assert!(matches!(s.offer(0, vec![E], board(&["..."]), PlayState::Playing, 3), SegmentOffer::Skipped));
    match s.offer(1, vec![E], board(&["..P"]), PlayState::Playing, 4) {
        SegmentOffer::Arrived(path) => assert_eq!(path, vec![vec![E], vec![E]]),
        _ => panic!("expected arrival"),
    }
}

#[test]
fn segment_search_for_several_players() {
    let targets = Waypoint::Multi(vec![None, Some((2, 1))]);
    let mut s = SegmentSearch::new(board(&["P..", "P.."]), 1, targets).unwrap();
    assert!(matches!(s.offer(0, vec![E, E], board(&[".P.", ".P."]), PlayState::Playing, 2), SegmentOffer::Added(1)));
    match s.offer(0, vec![E, E], board(&["P..", "..P"]), PlayState::Playing, 3) {
        SegmentOffer::Arrived(path) => assert_eq!(path, vec![vec![E, E]]),
        _ => panic!("expected arrival"),
    }
    match s.offer(1, vec![E, E], board(&["...", "..."]), PlayState::Won, 4) {
        SegmentOffer::Won(path) => assert_eq!(path, vec![vec![E, E], vec![E, E]]),
        _ => panic!("expected a win"),
    }
}

#[test]
fn novelty_search_skips_boards_with_nothing_new() {
    assert!(NoveltySearch::new(board(&["..#"]), 1, 1, 5, tuning()).is_none());
    let mut s = NoveltySearch::new(board(&["P.R"]), 1, 1, 5, tuning()).unwrap();
    assert_eq!(s.size(), 1);
    assert_eq!(s.next(), Next::Expand(0));
    assert!(matches!(s.offer(0, vec![E], board(&[".PR"]), PlayState::Playing, 2), NoveltyOffer::Added(1)));
    // the same board under another hash shows nothing new
    assert!(matches!(s.offer(0, vec![E], board(&[".PR"]), PlayState::Playing, 3), NoveltyOffer::Skipped));
    assert!(matches!(s.offer(0, vec![E], board(&["P.R", "..."]), PlayState::Playing, 4), NoveltyOffer::SizeChanged));
    match s.offer(1, vec![E], board(&["..P"]), PlayState::Won, 5) {
        NoveltyOffer::Solved(path) => assert_eq!(path, vec![vec![E], vec![E]]),
        _ => panic!("expected a win"),
    }
}

#[test]
fn beam_search_keeps_the_lowest_scores() {
    let root = board(&["P.R.R"]);
    let a = board(&[".PR.R"]);
    let b = board(&["P.R.."]);
    let mut s = BeamSearch::new(root, 1, BeamPlan::General(tuning()), 1, 0, 0, false).unwrap();
    assert_eq!(s.layer_depth(), 0);
    assert_eq!(s.frontier_boards().len(), 1);
    let ha = heuristic(&a, tuning()) + 1;
    let hb = heuristic(&b, tuning()) + 1;
    assert!(hb < ha);
    assert!(matches!(s.offer(0, vec![E], a, PlayState::Playing, 2, false), BeamOffer::Added(0)));
    assert!(matches!(s.offer(0, vec![E], b, PlayState::Playing, 3, false), BeamOffer::Added(1)));
    // met already in this layer
    assert!(matches!(s.offer(0, vec![E], board(&["P.R.."]), PlayState::Playing, 3, false), BeamOffer::Skipped));
    // the root's board, met in an earlier layer
    assert!(matches!(s.offer(0, vec![E], board(&["P.R.R"]), PlayState::Playing, 1, false), BeamOffer::Skipped));
    assert_eq!(s.best(), hb);
    assert_eq!(s.best_path(), vec![vec![E]]);
    assert!(s.end_layer());
    assert_eq!(s.layer_depth(), 1);
    let f = s.frontier_boards();
    assert_eq!(f.len(), 1);
    assert_eq!(f[0].score, hb);
    assert_eq!(f[0].id, 1);
    assert_eq!(s.win_from(0, vec![E]), vec![vec![E], vec![E]]);
    // an empty layer ends the search
    assert!(!s.end_layer());
}

fn lure_params(max_nodes: usize) -> LureParams {
    LureParams {
        rat_target: (3, 0),
        safe_targets: vec![],
        preserve_rats: true,
        initial_rats: 1,
        max_depth: 5,
        max_nodes,
        greedy: false,
        weight: 2,
    }
}

#[test]
fn lure_search_solves_when_the_rat_arrives() {
    let mut s = LureSearch::new(board(&["P.R."]), 1, lure_params(10));
    assert_eq!(s.size(), 1);
    assert!(matches!(s.offer(0, vec![E], board(&[".PR."]), PlayState::Playing, 2), LureOffer::Added(1)));
    // a board that lost its rat is dropped
    assert!(matches!(s.offer(0, vec![E], board(&[".P.."]), PlayState::Playing, 3), LureOffer::Skipped));
    match s.offer(1, vec![E], board(&["..PR"]), PlayState::Playing, 4) {
        LureOffer::Solved(path) => assert_eq!(path, vec![vec![E], vec![E]]),
        _ => panic!("expected the lure"),
    }
}

#[test]
fn lure_search_stops_at_the_node_limit() {
    let mut s = LureSearch::new(board(&["P.R."]), 1, lure_params(1));
    assert!(matches!(s.offer(0, vec![E], board(&[".PR."]), PlayState::Playing, 2), LureOffer::NodeLimit));
}

#[test]
fn guided_lure_search_starts_and_keeps_rat_losses_out() {
    let guide = Guide::GeomLure {
        rat_targets: vec![(3, 0)],
        safe_targets: vec![],
        preserve_rats: true,
        initial_rats: 1,
        initial_explosives: 0,
        max_nodes: 3,
    };
    let mut s: GuidedSearch = match GuidedSearch::start(board(&["P.R."]), 1, guide, false, 1, 5, false) {
        GuidedStart::Searching(s) => s,
        GuidedStart::Unscored => panic!("the lure scores every board"),
    };
    assert_eq!(s.size(), 1);
    assert!(s.best_path().is_empty());
    assert!(matches!(s.offer(0, vec![E], board(&[".P.."]), PlayState::Playing, 2, false), GuidedOffer::Kept(1)));
    assert!(matches!(s.offer(0, vec![E], board(&[".PR."]), PlayState::Playing, 3, false), GuidedOffer::Added(2)));
    assert!(matches!(s.offer(0, vec![E], board(&["..PR"]), PlayState::Playing, 4, false), GuidedOffer::NodeLimit));
    assert_eq!(s.win_from(2, vec![E]), vec![vec![E], vec![E]]);
}

#[test]
fn event_search_ends_when_an_explosive_goes_off() {
    let mut s = EventSearch::new(board(&["P.X"]), 1, TargetKind::Explosion, Strategy::Bfs, 1, 5, tuning(), false);
    assert_eq!(s.next(), Next::Expand(0));
    assert!(matches!(s.offer(0, vec![E], board(&[".PX"]), PlayState::Playing, 2, false), EventOffer::Added(1)));
    assert!(matches!(s.offer(0, vec![E], board(&[".PX"]), PlayState::Playing, 2, false), EventOffer::Skipped));
    match s.offer(1, vec![E], board(&[".P."]), PlayState::Playing, 3, false) {
        EventOffer::Reached(path) => assert_eq!(path, vec![vec![E], vec![E]]),
        _ => panic!("expected the event"),
    }
}

fn event_params() -> EventParams {
    EventParams {
        max_depth: 4,
        max_events: 2,
        min_rats: None,
        constraints: TrapConstraints::default(),
        mode: EventScoreMode::Trigger,
        prune_dead: false,
        prune_stranded: false,
    }
}

#[test]
fn successor_search_collects_events() {
    let mut s = SuccessorSearch::new(board(&["P.R.R"]), 1, event_params());
    assert_eq!(s.next(), Next::Expand(0));
    assert!(matches!(s.offer(0, vec![E], board(&[".PR.R"]), PlayState::Playing, 2), SuccessorOffer::Added(1)));
    assert!(matches!(s.offer(0, vec![E], board(&[".PR.R"]), PlayState::Playing, 2), SuccessorOffer::Skipped));
    assert!(matches!(s.offer(1, vec![E], board(&["..P.R"]), PlayState::Playing, 3), SuccessorOffer::Event(2)));
    assert_eq!(s.found_events().len(), 1);
    assert_eq!(s.found_events()[0].node, 2);
    assert_eq!(s.found_events()[0].path, vec![vec![E], vec![E]]);
    assert_eq!(s.found_events()[0].features.rats, 1);
    assert_eq!(s.kept(), &vec![0]);
    match s.offer(1, vec![E], board(&["..P.."]), PlayState::Won, 4) {
        SuccessorOffer::Won(path) => assert_eq!(path, vec![vec![E], vec![E]]),
        _ => panic!("expected a win"),
    }
}

#[test]
fn successor_search_keeps_events_below_the_rat_minimum_out() {
    let mut params = event_params();
    params.min_rats = Some(2);
    let mut s = SuccessorSearch::new(board(&["P.R.R"]), 1, params);
    assert!(matches!(s.offer(0, vec![E], board(&[".P..R"]), PlayState::Playing, 2), SuccessorOffer::Kept(1)));
    assert!(s.found_events().is_empty());
    assert!(s.kept().is_empty());
}
