use solver::model::{CellKind, Grid, PlayState};
use solver::placements::{player_spots, rat_spots};
use solver::facts::{shows_ignition, Outcome};
use solver::features::trigger_cells;

fn board(rows: &[&str]) -> Grid {
    let kinds: Vec<Vec<CellKind>> = rows
        .iter()
        .map(|r| {
            r.chars()
                .map(|c| match c {
                    '#' => CellKind::Wall,
                    'P' => CellKind::Player,
                    'R' => CellKind::Rat,
                    'X' => CellKind::Explosive,
                    d if d.is_ascii_digit() => CellKind::Trigger(d as u8 - b'0'),
                    _ => CellKind::Empty,
                })
                .collect()
        })
        .collect();
    Grid::from_kinds(kinds).unwrap()
}

fn tokens(rows: &[&[&str]]) -> Vec<Vec<String>> {
    rows.iter().map(|r| r.iter().map(|t| t.to_string()).collect()).collect()
}

#[test]
fn rat_may_go_to_open_floors_or_back_home() {
    let base = tokens(&[&[".", "#", "R"], &["w", "▲", "."]]);
    assert_eq!(rat_spots(&base, 3, (2, 0)), vec![(0, 0), (2, 0), (0, 1), (2, 1)]);
}

#[test]
fn player_may_go_to_floors_players_and_its_own_cell() {
    let base = tokens(&[&[".", "#", "R"], &["w", "P", "▲"]]);
    assert_eq!(player_spots(&base, 3, (0, 0), Some((1, 1))), vec![(0, 1), (1, 1), (2, 1)]);
    assert_eq!(player_spots(&base, 3, (0, 1), None), vec![(0, 0), (2, 1)]);
}

#[test]
fn ignition_needs_a_live_game_and_a_spent_explosive_or_a_win() {
    let spent = Outcome { grid: board(&["P.R"]), play_state: PlayState::Playing };
    let kept = Outcome { grid: board(&["PXR"]), play_state: PlayState::Playing };
    let won = Outcome { grid: board(&["PX."]), play_state: PlayState::Won };
    let lost = Outcome { grid: board(&["..R"]), play_state: PlayState::GameOver };
    assert!(shows_ignition(1, &spent));
    assert!(!shows_ignition(1, &kept));
    assert!(shows_ignition(1, &won));
    assert!(!shows_ignition(1, &lost));
}

#[test]
fn triggers_with_their_numbers_in_row_order() {
    assert_eq!(trigger_cells(&board(&["1.3", "P.2"])), vec![((0, 0), 1), ((2, 0), 3), ((2, 1), 2)]);
    assert!(trigger_cells(&board(&["P.."])).is_empty());
}

#[test]
fn rat_regions_numbered_row_by_row() {
    let g = board(&["R.#.", "#.#R", "..#."]);
    let (comp, sizes) = solver::components::rat_component_map(&g);
    assert_eq!(comp, vec![vec![0, 0, -1, 1], vec![-1, 0, -1, 1], vec![0, 0, -1, 1]]);
    assert_eq!(sizes, vec![5, 3]);
    assert_eq!(solver::queries::rat_component_size_at(&g, (0, 0)), Some(5));
    assert_eq!(solver::queries::rat_component_size_at(&g, (3, 1)), Some(3));
}

#[test]
fn rat_regions_of_an_empty_board() {
    let g = board(&["###"]);
    let (comp, sizes) = solver::components::rat_component_map(&g);
    assert_eq!(comp, vec![vec![-1, -1, -1]]);
    assert!(sizes.is_empty());
}
