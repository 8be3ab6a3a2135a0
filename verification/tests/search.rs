use solver::model::{Action, CellKind, Dir4, Grid, PlayState};
use solver::open_list::{Entry, OpenList};
use solver::search_tree::SearchTree;
use solver::novelty::{NoveltyTable, pair_atom};
use solver::beam::{stable_order, select_diverse};
use solver::plain_search::{PlainSearch, Strategy, Next, Offer};
use solver::lookup_search::{LookupSearch, LookupParams, LookupStart, LookupOffer};
use solver::branch_search::{BranchSearch, BranchParams, BranchNext, BranchOffer};
use solver::goals::{LookupGoal, TurnFacts};
use solver::parse::LookupOrder;
use solver::constraints::TrapConstraints;
use solver::heuristics::Tuning;
use solver::placements::{mutation_candidates, place_pieces};

const N: Action = Action::Move(Dir4::North);
const E: Action = Action::Move(Dir4::East);

fn board(rows: &[&str]) -> Grid {
    let kinds: Vec<Vec<CellKind>> = rows
        .iter()
        .map(|r| {
            r.chars()
                .map(|c| match c {
                    '#' => CellKind::Wall,
                    'P' => CellKind::Player,
                    'R' => CellKind::Rat,
                    'X' => CellKind::Explosive,
                    _ => CellKind::Empty,
                })
                .collect()
        })
        .collect();
    Grid::from_kinds(kinds).unwrap()
}

fn tuning() -> Tuning {
    Tuning { progress: false, smart: false, trap: false, strict: false, rect_lower: false, lure: false }
}

fn no_facts() -> TurnFacts {
    TurnFacts { win_ready: false, rat_step_ready: false, cyborg_kill_ready: false }
}

#[test]
fn open_list_pops_lowest_priority_then_deepest() {
    let mut open = OpenList::new();
    open.push(Entry { f: 5, g: 1, idx: 0 });
    open.push(Entry { f: 3, g: 1, idx: 1 });
    open.push(Entry { f: 3, g: 4, idx: 2 });
    open.push(Entry { f: 9, g: 0, idx: 3 });
    assert_eq!(open.len(), 4);
    let order: Vec<usize> = (0..4).map(|_| open.pop().unwrap().idx).collect();
    assert_eq!(order, vec![2, 1, 0, 3]);
    assert!(open.pop().is_none());
}

#[test]
fn search_tree_paths_follow_parents() {
    let g = board(&["P."]);
    let mut t = SearchTree::new(g);
    let a = t.push_child(0, vec![N], board(&[".P"]));
    let b = t.push_child(a, vec![E], board(&["P."]));
    assert_eq!(t.len(), 3);
    assert_eq!(t.depth(b), 2);
    assert_eq!(t.reconstruct(b), vec![vec![N], vec![E]]);
    assert_eq!(t.reconstruct(0), Vec::<Vec<Action>>::new());
}

#[test]
fn novelty_of_atoms_and_pairs() {
    let mut table = NoveltyTable::new(2);
    assert_eq!(table.novelty(&[1, 2]), Some(1));
    assert_eq!(table.novelty(&[1, 2]), None);
    assert_eq!(table.novelty(&[2, 1]), Some(2));
    let mut atoms_only = NoveltyTable::new(1);
    assert_eq!(atoms_only.novelty(&[1, 2]), Some(1));
    assert_eq!(atoms_only.novelty(&[2, 1]), None);
    assert_eq!(pair_atom(1, 2), (1u64 << 32) | 2);
}

#[test]
fn stable_order_keeps_ties_in_place() {
    assert_eq!(stable_order(&vec![5, 1, 5, 0]), vec![3, 1, 0, 2]);
    assert_eq!(stable_order(&vec![]), Vec::<usize>::new());
}

fn strings(v: &[&str]) -> Vec<String> {
    v.iter().map(|s| s.to_string()).collect()
}

#[test]
fn beam_selection_skips_seen_boards_and_prefers_new_keys() {
    let ord = vec![0, 1, 2, 3];
    assert_eq!(select_diverse(&ord, &vec![1, 1, 2, 3], &strings(&["a", "a", "b", "b"]), true, 2), vec![0, 2]);
    assert_eq!(select_diverse(&ord, &vec![1, 2, 3, 4], &strings(&["a", "a", "a", "b"]), true, 3), vec![0, 3, 1]);
    assert_eq!(select_diverse(&ord, &vec![1, 1, 1, 1], &strings(&["a", "b", "c", "d"]), false, 9), vec![0, 1, 2, 3]);
    // a limit of zero still lets the first board through
    assert_eq!(select_diverse(&ord, &vec![1, 2, 3, 4], &strings(&["a", "b", "c", "d"]), true, 0), vec![0]);
}

#[test]
fn plain_search_expands_and_reports_a_win() {
    let root = board(&["P.R"]);
    let mut s = PlainSearch::new(root, 7, Strategy::Bfs, 1, 5, tuning());
    assert_eq!(s.size(), 1);
    assert_eq!(s.next(), Next::Expand(0));
    assert!(matches!(s.offer(0, vec![E], board(&[".PR"]), PlayState::Playing, 8), Offer::Added(1)));
    assert!(matches!(s.offer(0, vec![N], board(&["P.R"]), PlayState::Playing, 7), Offer::Skipped));
    assert_eq!(s.next(), Next::Expand(1));
    assert_eq!(s.current_level(), 1);
    match s.offer(1, vec![E], board(&["..P"]), PlayState::Won, 9) {
        Offer::Solved(path) => assert_eq!(path, vec![vec![E], vec![E]]),
        _ => panic!("expected a solution"),
    }
}

fn lookup_params(order: LookupOrder, min_rats: Option<usize>) -> LookupParams {
    LookupParams {
        order,
        weight: 1,
        goal: LookupGoal::Win,
        min_rats,
        constraints: TrapConstraints::default(),
        max_depth: 4,
        max_nodes: 100,
        prune_dead: false,
        prune_stranded: false,
        tuning: tuning(),
    }
}

#[test]
fn lookup_search_refuses_too_few_rats() {
    let root = board(&["P.R"]);
    assert!(matches!(LookupSearch::start(root, 1, lookup_params(LookupOrder::Bfs, Some(2)), &no_facts()), LookupStart::TooFewRats));
}

#[test]
fn lookup_search_breadth_first() {
    let root = board(&["P.R"]);
    let mut s = match LookupSearch::start(root, 1, lookup_params(LookupOrder::Bfs, None), &no_facts()) {
        LookupStart::Searching(s) => s,
        _ => panic!("expected a search"),
    };
    assert!(matches!(s.next(), Some(solver::plain_search::Next::Expand(0))));
    assert!(matches!(s.offer(0, vec![E], board(&[".PR"]), PlayState::Playing, 2, &no_facts()), LookupOffer::Added(1)));
    assert!(matches!(s.offer(0, vec![E], board(&[".PR"]), PlayState::Playing, 2, &no_facts()), LookupOffer::Skipped));
    assert!(matches!(s.offer(0, vec![N], board(&["..."]), PlayState::GameOver, 3, &no_facts()), LookupOffer::Skipped));
    assert!(matches!(s.next(), Some(solver::plain_search::Next::Expand(1))));
    assert_eq!(s.current_level(), 1);
    match s.offer(1, vec![E], board(&["..P"]), PlayState::Won, 4, &no_facts()) {
        LookupOffer::Solved(path, ps) => {
            assert_eq!(path, vec![vec![E], vec![E]]);
            assert_eq!(ps, PlayState::Won);
        }
        _ => panic!("expected a solution"),
    }
}

fn branch_params() -> BranchParams {
    BranchParams {
        goal: LookupGoal::Win,
        max_depth: 3,
        max_nodes: 100,
        max_results: 2,
        min_rats: None,
        constraints: TrapConstraints::default(),
        prune_dead: false,
        prune_stranded: false,
    }
}

#[test]
fn branch_search_collects_boards_in_score_order() {
    let root = board(&["P.R"]);
    let mut s = BranchSearch::new(root, 1, branch_params());
    assert_eq!(s.result_limit(), 16);
    assert_eq!(s.next(false), BranchNext::Expand(0));
    assert_eq!(s.offer(0, vec![E], board(&[".PR"]), PlayState::Playing, 2, &no_facts()), BranchOffer::Added(1));
    assert_eq!(s.offer(0, vec![E], board(&[".PR"]), PlayState::Playing, 2, &no_facts()), BranchOffer::Skipped);
    assert_eq!(s.offer(1, vec![E], board(&["..P"]), PlayState::Won, 3, &no_facts()), BranchOffer::Found);
    assert_eq!(s.offer(0, vec![N], board(&["P.."]), PlayState::Won, 4, &no_facts()), BranchOffer::Found);
    // the same board found again is not kept twice
    assert_eq!(s.offer(0, vec![N], board(&["P.."]), PlayState::Won, 4, &no_facts()), BranchOffer::Found);
    let found = s.found_boards();
    assert_eq!(found.len(), 2);
    assert!(found[0].score <= found[1].score);
    assert_eq!(found[0].path, vec![vec![N]]);
    assert_eq!(found[1].path, vec![vec![E], vec![E]]);
    assert_eq!(s.diverse_picks(), vec![0, 1]);
}

#[test]
fn branch_search_drops_deep_nodes() {
    let root = board(&["P.R"]);
    let mut params = branch_params();
    params.max_depth = 0;
    let mut s = BranchSearch::new(root, 1, params);
    assert_eq!(s.next(false), BranchNext::Dropped);
    assert_eq!(s.next(false), BranchNext::Exhausted);
}

#[test]
fn candidates_and_placed_pieces() {
    let base = vec![strings(&["#", ".", "▲"]), strings(&["w", "R", "X"])];
    assert_eq!(mutation_candidates(&base, 3, &vec![(2, 1)]), vec![(1, 0), (2, 0), (0, 1), (2, 1)]);
    let placed = place_pieces(&base, &vec![((1, 1), "R".to_string()), ((1, 0), "►".to_string())]);
    assert_eq!(placed, vec![strings(&["#", "►", "."]), strings(&["w", "R", "X"])]);
    let moved = place_pieces(&base, &vec![((0, 1), "▲".to_string()), ((0, 1), "R".to_string())]);
    assert_eq!(moved, vec![strings(&["#", ".", "."]), strings(&["R", "R", "X"])]);
}
