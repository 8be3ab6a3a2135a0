use solver::actions::{format_path, format_path_ascii, parse_action_string};
use solver::branch_search::BranchFound;
use solver::chain_search::{ChainKind, ChainNext, ChainOffer, ChainPhase, ChainSearch};
use solver::geometry::{reached_player_targets, target_sum_distance};
use solver::goals::LookupGoal;
use solver::heuristics::{lookup_branch_score, Tuning};
use solver::detour_search::{DetourOffer, DetourSearch};
use solver::model::{Action, CellKind, Dir4, Grid, PlayState};
use solver::plain_search::{Next, Offer, PlainSearch, Strategy};
use solver::tokens::tokens_to_csv;
use solver::walk_chain::{WalkChain, WalkKind, WalkNext, WalkOffer, WalkWay};
use solver::waypoint_run::{WaypointNext, WaypointRun};

const N: Action = Action::Move(Dir4::North);
const S: Action = Action::Move(Dir4::South);
const E: Action = Action::Move(Dir4::East);
const W: Action = Action::Move(Dir4::West);
const T: Action = Action::Stall;

fn board(rows: &[&str]) -> Grid {
    let kinds: Vec<Vec<CellKind>> = rows
        .iter()
        .map(|r| {
            r.chars()
                .map(|c| match c {
                    '#' => CellKind::Wall,
                    'P' => CellKind::Player,
                    'R' => CellKind::Rat,
                    '1' => CellKind::Trigger(1),
                    '2' => CellKind::Trigger(2),
                    _ => CellKind::Empty,
                })
                .collect()
        })
        .collect();
    Grid::from_kinds(kinds).unwrap()
}

fn tuning() -> Tuning {
    Tuning { progress: false, smart: false, trap: false, strict: false, rect_lower: false, lure: false }
}

#[test]
fn written_paths_read_back() {
    let one = vec![vec![N], vec![E], vec![T], vec![W], vec![S]];
    assert_eq!(parse_action_string(&format_path_ascii(&one), 1), one);
    assert_eq!(parse_action_string(&format_path(&one), 1), one);
    let two = vec![vec![N, S], vec![T, E], vec![W, W]];
    assert_eq!(parse_action_string(&format_path_ascii(&two), 2), two);
    assert_eq!(parse_action_string(&format_path(&two), 2), two);
    let none: Vec<Vec<Action>> = Vec::new();
    assert_eq!(parse_action_string(&format_path_ascii(&none), 2), none);
}

#[test]
fn csv_text_splits_back_into_tokens() {
    let tokens = vec![
        vec!["#".to_string(), ".".to_string(), "R".to_string()],
        vec!["▲".to_string()],
    ];
    let csv = tokens_to_csv(&tokens);
    assert_eq!(csv, "#,.,R\n▲\n");
    let body = csv.strip_suffix('\n').unwrap();
    let back: Vec<Vec<String>> = body.split('\n').map(|l| l.split(',').map(str::to_string).collect()).collect();
    assert_eq!(back, tokens);
}

#[test]
fn targets_reached_exactly_when_no_distance_is_left() {
    let targets = vec![Some((1, 2)), None];
    assert!(reached_player_targets(&[(1, 2), (5, 5)], &targets));
    assert_eq!(target_sum_distance(&[(1, 2), (5, 5)], &targets), 0);
    assert!(!reached_player_targets(&[(1, 3), (5, 5)], &targets));
    assert_eq!(target_sum_distance(&[(1, 3), (5, 5)], &targets), 1);
}

#[test]
fn rat_drop_chain_joins_paths_and_wins_on_a_cleared_board() {
    let root = board(&["P.R.R"]);
    let mut chain = ChainSearch::new(root, 1, ChainKind::RatDrop, Vec::new(), 2, 2, false, tuning());
    assert_eq!(chain.current_phase(), ChainPhase::Steps);
    assert_eq!(chain.next(), ChainNext::Branch(0, LookupGoal::RatDrop, false));
    // one rat dropped: the board becomes branch 1, its path joined to the root's
    let found = vec![BranchFound { grid: board(&[".P..R"]), path: vec![vec![E]], score: 0, hash: 7 }];
    assert!(matches!(chain.offer(0, found), ChainOffer::Added));
    assert_eq!(chain.pool_size(), 2);
    assert_eq!(chain.branch_path(1), &vec![vec![E]]);
    // the step ends and the beam keeps branch 1 for the second step
    assert_eq!(chain.next(), ChainNext::Branch(1, LookupGoal::RatDrop, false));
    let found = vec![BranchFound { grid: board(&["..P.."]), path: vec![vec![E], vec![E]], score: 0, hash: 8 }];
    match chain.offer(1, found) {
        ChainOffer::Solved(path) => assert_eq!(path, vec![vec![E], vec![E], vec![E]]),
        _ => panic!("expected the chain to end"),
    }
}

#[test]
fn rat_drop_chain_fails_when_a_step_finds_nothing() {
    let root = board(&["P.R"]);
    let mut chain = ChainSearch::new(root, 1, ChainKind::RatDrop, Vec::new(), 1, 2, false, tuning());
    assert_eq!(chain.next(), ChainNext::Branch(0, LookupGoal::RatDrop, false));
    assert!(matches!(chain.offer(0, Vec::new()), ChainOffer::Added));
    assert_eq!(chain.next(), ChainNext::Failed);
    assert_eq!(chain.current_phase(), ChainPhase::Over);
}

#[test]
fn trigger_chain_tries_to_finish_then_searches_each_trigger() {
    let root = board(&["P1.2R"]);
    let mut chain = ChainSearch::new(root, 1, ChainKind::StrictTriggerOrder, vec![1, 2], 0, 4, true, tuning());
    assert_eq!(chain.next(), ChainNext::Mop(0));
    assert_eq!(chain.next(), ChainNext::Branch(0, LookupGoal::TriggerNumberOnly(1), true));
    let found = vec![
        BranchFound { grid: board(&[".P.2R"]), path: vec![vec![E]], score: 0, hash: 3 },
        BranchFound { grid: board(&[".P.2R"]), path: vec![vec![E], vec![T]], score: 0, hash: 3 },
    ];
    assert!(matches!(chain.offer(0, found), ChainOffer::Added));
    // the two boards share a hash: the beam keeps the first
    assert_eq!(chain.next(), ChainNext::Mop(1));
    assert_eq!(chain.next(), ChainNext::Branch(1, LookupGoal::TriggerNumberOnly(2), true));
    assert_eq!(chain.finish(1, vec![vec![W]]), vec![vec![E], vec![W]]);
}

#[test]
fn any_trigger_chain_searches_every_trigger_number() {
    let root = board(&["P2.1R"]);
    let mut chain = ChainSearch::new(root, 1, ChainKind::AnyTrigger, Vec::new(), 1, 4, false, tuning());
    assert_eq!(chain.next(), ChainNext::Branch(0, LookupGoal::TriggerNumber(1), true));
    assert_eq!(chain.next(), ChainNext::Branch(0, LookupGoal::TriggerNumber(2), true));
    // nothing found at the only step: the chain fails
    assert_eq!(chain.next(), ChainNext::Failed);
}

#[test]
fn rat_drop_branch_is_scored_by_its_joined_path() {
    let root = board(&["P.R.R"]);
    let mut chain = ChainSearch::new(root, 1, ChainKind::RatDrop, Vec::new(), 1, 1, true, tuning());
    assert_eq!(chain.next(), ChainNext::Mop(0));
    assert_eq!(chain.next(), ChainNext::Branch(0, LookupGoal::RatDrop, false));
    let g = board(&[".P..R"]);
    let expected = lookup_branch_score(&g, 2);
    let found = vec![BranchFound { grid: g, path: vec![vec![E], vec![T]], score: 0, hash: 9 }];
    assert!(matches!(chain.offer(0, found), ChainOffer::Added));
    assert_eq!(chain.branch_score(1), expected);
    // after the last step, the finishing attempt from the kept branch
    assert_eq!(chain.next(), ChainNext::Mop(1));
    assert_eq!(chain.current_phase(), ChainPhase::Final);
    assert_eq!(chain.next(), ChainNext::Failed);
}

#[test]
fn detour_walk_skips_lost_short_and_seen_boards() {
    let mut walk = DetourSearch::new(board(&["P.R"]), 1, 2, 100, Some(1), 50);
    assert_eq!(walk.pop(), Some(0));
    assert!(walk.expandable(0));
    assert_eq!(walk.offer(0, vec![E], board(&[".PR"]), PlayState::GameOver, 2), DetourOffer::Skipped);
    assert_eq!(walk.offer(0, vec![E], board(&[".P."]), PlayState::Playing, 3), DetourOffer::Skipped);
    assert_eq!(walk.offer(0, vec![E], board(&[".P."]), PlayState::Won, 4), DetourOffer::Added(1));
    assert_eq!(walk.offer(0, vec![T], board(&["P.R"]), PlayState::Playing, 1), DetourOffer::Skipped);
    assert_eq!(walk.offer(0, vec![E], board(&[".PR"]), PlayState::Playing, 5), DetourOffer::Added(2));
    assert_eq!(walk.path(2), vec![vec![E]]);
    walk.note_score(2, 40);
    walk.note_score(1, 45);
    assert_eq!(walk.best(), (40, 2));
    assert_eq!(walk.pop(), Some(1));
    assert_eq!(walk.depth(1), 1);
    assert_eq!(walk.queued(), 1);
    assert_eq!(walk.seen(), 3);
    assert!(!walk.at_node_limit());
}

#[test]
fn any_trigger_walk_chain_passes_over_idle_ways() {
    let root = board(&["P1.2R"]);
    let mut chain = WalkChain::new(root, 1, WalkKind::AnyTrigger, Vec::new(), 1, 4, false, tuning());
    assert_eq!(chain.next(), WalkNext::Walk(0, 1, 0));
    let ways = vec![
        WalkWay { grid: board(&["P1.2R"]), path: vec![vec![T]], hash: 1, won: false },
        WalkWay { grid: board(&[".P.2R"]), path: vec![vec![E]], hash: 6, won: false },
    ];
    match chain.offer(0, ways) {
        WalkOffer::Added(taken) => assert_eq!(taken, vec![false, true]),
        _ => panic!("expected the ways to be taken"),
    }
    assert_eq!(chain.pool_size(), 2);
    assert_eq!(chain.branch_path(1), &vec![vec![E]]);
    assert_eq!(chain.next(), WalkNext::Walk(0, 3, 0));
    assert!(matches!(chain.offer(0, Vec::new()), WalkOffer::Added(_)));
    // the only step is over: a finishing attempt from the kept branch
    assert_eq!(chain.next(), WalkNext::Mop(1));
    assert_eq!(chain.current_phase(), ChainPhase::Final);
    assert_eq!(chain.next(), WalkNext::Failed);
}

#[test]
fn trigger_order_walk_chain_ends_on_a_winning_way() {
    let root = board(&["P1.2R"]);
    let mut chain = WalkChain::new(root, 1, WalkKind::TriggerOrder, vec![2], 0, 4, true, tuning());
    assert_eq!(chain.next(), WalkNext::Walk(0, 3, 0));
    let ways = vec![WalkWay { grid: board(&["..P.."]), path: vec![vec![E], vec![E]], hash: 2, won: true }];
    match chain.offer(0, ways) {
        WalkOffer::Solved(path) => assert_eq!(path, vec![vec![E], vec![E]]),
        _ => panic!("expected the chain to end"),
    }
}

#[test]
fn waypoint_run_walks_in_turn_then_finishes() {
    let mut run = WaypointRun::new(vec![vec![N]], &board(&["P.R"]), 2);
    assert_eq!(run.next(), WaypointNext::Walk(0));
    run.reached(vec![vec![E]], &board(&[".PR"]));
    assert_eq!(run.next(), WaypointNext::Walk(1));
    run.reached(vec![vec![T]], &board(&[".PR"]));
    assert_eq!(run.next(), WaypointNext::Mop);
    assert_eq!(run.finish(vec![vec![E]]), vec![vec![N], vec![E], vec![T], vec![E]]);
    // a board with no rat left ends the run along the turns so far
    let mut cleared = WaypointRun::new(Vec::new(), &board(&["P.R"]), 3);
    cleared.reached(vec![vec![E], vec![E]], &board(&["..P"]));
    assert_eq!(cleared.next(), WaypointNext::Cleared);
    assert_eq!(cleared.turns(), vec![vec![E], vec![E]]);
    let done = WaypointRun::new(vec![vec![S]], &board(&["P.."]), 1);
    assert_eq!(done.next(), WaypointNext::Cleared);
}

#[test]
fn rat_drop_beam_keeps_the_lowest_scored_branch() {
    let root = board(&["P.R.R.R"]);
    let mut chain = ChainSearch::new(root, 1, ChainKind::RatDrop, Vec::new(), 2, 1, false, tuning());
    assert_eq!(chain.next(), ChainNext::Branch(0, LookupGoal::RatDrop, false));
    let a = board(&[".P..R#R"]);
    let b = board(&["..P.R.R"]);
    let sa = lookup_branch_score(&a, 1);
    let sb = lookup_branch_score(&b, 2);
    let found = vec![
        BranchFound { grid: a, path: vec![vec![E]], score: 0, hash: 11 },
        BranchFound { grid: b, path: vec![vec![E], vec![E]], score: 0, hash: 12 },
    ];
    assert!(matches!(chain.offer(0, found), ChainOffer::Added));
    assert_eq!(chain.branch_score(1), sa);
    assert_eq!(chain.branch_score(2), sb);
    let kept = if sb < sa { 2 } else { 1 };
    assert_eq!(chain.next(), ChainNext::Branch(kept, LookupGoal::RatDrop, false));
}

#[test]
fn waypoint_run_starts_only_after_a_prefix_fully_played() {
    assert_eq!(WaypointRun::after_prefix(3, 3, PlayState::Playing), None);
    assert_eq!(WaypointRun::after_prefix(3, 3, PlayState::Won), Some(true));
    assert_eq!(WaypointRun::after_prefix(2, 3, PlayState::Won), Some(true));
    assert_eq!(WaypointRun::after_prefix(2, 3, PlayState::Playing), Some(false));
    assert_eq!(WaypointRun::after_prefix(3, 3, PlayState::GameOver), Some(false));
}

#[test]
fn breadth_first_takes_nodes_in_order_of_depth() {
    let mut s = PlainSearch::new(board(&["P...R"]), 1, Strategy::Bfs, 1, 9, tuning());
    assert_eq!(s.next(), Next::Expand(0));
    assert!(matches!(s.offer(0, vec![E], board(&[".P..R"]), PlayState::Playing, 2), Offer::Added(1)));
    assert!(matches!(s.offer(0, vec![T], board(&["P..R."]), PlayState::Playing, 3), Offer::Added(2)));
    assert_eq!(s.next(), Next::Expand(1));
    assert_eq!(s.current_level(), 1);
    assert!(matches!(s.offer(1, vec![E], board(&["..P.R"]), PlayState::Playing, 4), Offer::Added(3)));
    // the other node of depth one comes before the deeper one
    assert_eq!(s.next(), Next::Expand(2));
    assert_eq!(s.current_level(), 1);
    match s.offer(2, vec![E], board(&[".P..."]), PlayState::Won, 5) {
        Offer::Solved(path) => assert_eq!(path.len(), 2),
        _ => panic!("expected a win"),
    }
}
