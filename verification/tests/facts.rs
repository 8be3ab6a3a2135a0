use solver::model::{CellKind, Dir4, Grid, PlayState};
use solver::facts::{Outcome, winning_action_index, win_ready_from, rat_step_ready_from, ignition_ready_from,
    cyborg_kill_directions, cyborg_kill_ready_from};

fn board(rows: &[&str]) -> Grid {
    let kinds: Vec<Vec<CellKind>> = rows
        .iter()
        .map(|r| {
            r.chars()
                .map(|c| match c {
                    'P' => CellKind::Player,
                    'R' => CellKind::Rat,
                    'C' => CellKind::CyborgRat,
                    'X' => CellKind::Explosive,
                    _ => CellKind::Empty,
                })
                .collect()
        })
        .collect();
    Grid::from_kinds(kinds).unwrap()
}

fn out(rows: &[&str], play_state: PlayState) -> Outcome {
    Outcome { grid: board(rows), play_state }
}

#[test]
fn first_winning_turn() {
    let outs = vec![out(&["P."], PlayState::Playing), out(&[".P"], PlayState::Won), out(&["P."], PlayState::Won)];
    assert_eq!(winning_action_index(&outs), Some(1));
    assert!(win_ready_from(&outs));
    let none = vec![out(&["P."], PlayState::GameOver)];
    assert_eq!(winning_action_index(&none), None);
    assert!(!win_ready_from(&none));
}

#[test]
fn rat_reaches_the_point_without_losing() {
    let outs = vec![out(&["PR"], PlayState::GameOver), out(&["P.", ".R"], PlayState::Playing)];
    assert!(!rat_step_ready_from(&outs, (1, 0)));
    assert!(rat_step_ready_from(&outs, (1, 1)));
    assert!(!rat_step_ready_from(&outs, (-1, 1)));
}

#[test]
fn an_explosive_goes_off() {
    let current = board(&["PX"]);
    assert!(ignition_ready_from(&current, &vec![out(&["P."], PlayState::Playing)]));
    assert!(!ignition_ready_from(&current, &vec![out(&["P."], PlayState::GameOver)]));
    assert!(!ignition_ready_from(&current, &vec![out(&["PX"], PlayState::Playing)]));
}

#[test]
fn cyborg_kills() {
    assert_eq!(cyborg_kill_directions(None), vec![Dir4::North, Dir4::South, Dir4::East, Dir4::West]);
    assert_eq!(cyborg_kill_directions(Some(Dir4::East)), vec![Dir4::East]);
    let current = board(&["PCR"]);
    assert!(cyborg_kill_ready_from(&current, true, &vec![out(&[".PR"], PlayState::Playing)]));
    assert!(!cyborg_kill_ready_from(&current, true, &vec![out(&[".P."], PlayState::Playing)]));
    assert!(cyborg_kill_ready_from(&current, false, &vec![out(&[".P."], PlayState::Playing)]));
    // a player lost on the way does not count
    assert!(!cyborg_kill_ready_from(&current, false, &vec![out(&["..R"], PlayState::Playing)]));
    // nothing to kill
    assert!(!cyborg_kill_ready_from(&board(&["P.R"]), false, &vec![out(&[".PR"], PlayState::Playing)]));
}
