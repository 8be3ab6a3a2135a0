use solver::model::{CellKind, Grid};
use solver::cells::CellClass;
use solver::features::{Features, count_rats, count_players, rat_positions, find_player, trigger_count};
use solver::reachability::{reachable_rat_count, reachable_trigger_count, trapped_unreachable_rat_count,
    player_reachable_cell_count, distance_from_player};
use solver::keys::{positions_key, dropchain_diversity_key, limited_positions_key, unreachable_rat_positions_key};
use solver::event_keys::{event_family_key, removed_trigger_numbers, count_changes, CellChange};
use solver::chain::{trigger_numbers, next_remaining_trigger, chain_branch_score};
use solver::heuristics::{lookup_branch_score, trigger_branch_score, trigger_continuation_penalty};
use solver::text::string_of;

fn board(rows: &[&str]) -> Grid {
    let kinds: Vec<Vec<CellKind>> = rows
        .iter()
        .map(|r| {
            r.chars()
                .map(|c| match c {
                    '#' => CellKind::Wall,
                    'P' => CellKind::Player,
                    'R' => CellKind::Rat,
                    'C' => CellKind::CyborgRat,
                    '=' => CellKind::Plank,
                    'w' => CellKind::Spiderweb,
                    'O' => CellKind::BlackHole,
                    'X' => CellKind::Explosive,
                    d if d.is_ascii_digit() => CellKind::Trigger(d as u8 - b'0'),
                    _ => CellKind::Empty,
                })
                .collect()
        })
        .collect();
    Grid::from_kinds(kinds).unwrap()
}

fn sample() -> Grid {
    board(&[
        "#######",
        "#P..R.#",
        "#####.#",
        "#R#X..#",
        "#######",
    ])
}

#[test]
fn board_counts() {
    let g = sample();
    assert_eq!(count_rats(&g), 2);
    assert_eq!(count_players(&g), 1);
    assert_eq!(find_player(&g), Some((1, 1)));
    assert_eq!(rat_positions(&g), vec![(4, 1), (1, 3)]);
    let f = Features::from_grid(&g);
    assert_eq!((f.rats, f.explosives, f.webs, f.triggers, f.planks), (2, 1, 0, 0, 0));
    assert_eq!(f.walls, 7 + 2 + 6 + 3 + 7);
}

#[test]
fn reach_of_the_players() {
    let g = sample();
    assert_eq!(reachable_rat_count(&g), 1);
    assert_eq!(reachable_trigger_count(&g), 0);
    assert_eq!(trapped_unreachable_rat_count(&g), 1);
    assert_eq!(player_reachable_cell_count(&g), 8);
    assert_eq!(distance_from_player(&g, (4, 3)), 7);
}

#[test]
fn position_keys() {
    let g = sample();
    assert_eq!(string_of(&positions_key(&g, CellClass::RatOrCyborg)), "4,1;1,3");
    assert_eq!(string_of(&positions_key(&g, CellClass::AnyTrigger)), "");
    assert_eq!(string_of(&limited_positions_key(&g, CellClass::RatOrCyborg, 1)), "4,1");
    assert_eq!(string_of(&limited_positions_key(&g, CellClass::RatOrCyborg, 0)), "4,1");
    assert_eq!(string_of(&limited_positions_key(&g, CellClass::RatOrCyborg, 9)), "4,1;1,3");
    assert_eq!(string_of(&unreachable_rat_positions_key(&g, false, 4)), "1,3");
    assert_eq!(string_of(&unreachable_rat_positions_key(&g, true, 4)), "1,3");
}

#[test]
fn diversity_key_lists_counts_then_positions() {
    let g = sample();
    assert_eq!(dropchain_diversity_key(&g), "r2:x1:w0:t0:p0:4,1;1,3:1,1:3,3:::");
}

#[test]
fn family_key_of_a_rat_leaving() {
    let before = sample();
    let after = board(&[
        "#######",
        "#P....#",
        "#####.#",
        "#R#X..#",
        "#######",
    ]);
    assert_eq!(count_changes(&before, &after, CellChange::Rat), 1);
    assert_eq!(
        event_family_key(&before, &after),
        "dr1:dc0:dx0:dw0:dt0:dp0:dwall0:ratmove1:rr1>0:rt0>0:trig[]:ur[1,3]:trap[1,3]"
    );
}

#[test]
fn triggers_that_went() {
    let before = board(&["P12", "2.3"]);
    let after = board(&["P.2", "..3"]);
    assert_eq!(removed_trigger_numbers(&before, &after), vec![1, 2]);
    assert_eq!(count_changes(&before, &after, CellChange::Trigger(2)), 1);
    assert_eq!(trigger_numbers(&before), vec![1, 2, 3]);
    assert_eq!(trigger_count(&before, 2), 2);
}

#[test]
fn next_trigger_of_an_order() {
    let g = board(&["P.2", "..3"]);
    assert_eq!(next_remaining_trigger(&g, &[1, 3, 2], 0), Some(3));
    assert_eq!(next_remaining_trigger(&g, &[1, 3, 2], 2), Some(2));
    assert_eq!(next_remaining_trigger(&g, &[1, 3, 2], 3), None);
    assert_eq!(next_remaining_trigger(&g, &[1, 4], 0), None);
}

#[test]
fn chain_score_adds_the_continuation_penalty() {
    let g = sample();
    let before = Features::from_grid(&g);
    let after = before;
    let expected = trigger_branch_score(&g, 5, before, after) + trigger_continuation_penalty(&g, None);
    assert_eq!(chain_branch_score(&g, 5, before, after, None), Some(expected));
    assert_eq!(trigger_branch_score(&g, 5, before, after), lookup_branch_score(&g, 5));
    // no trigger on the board: no penalty for the next one
    assert_eq!(trigger_continuation_penalty(&g, None), 0);
    assert_eq!(trigger_continuation_penalty(&g, Some(4)), 100_000_000_000);
}

#[test]
fn lookup_branch_score_formula() {
    let g = sample();
    // 2 rats, 1 out of reach and trapped, stranded, 25 walls, 1 explosive, 5 turns
    let expected: i64 = 2 * 1_000_000_000 + 20_000_000_000 + 80_000_000_000 + 100_000_000_000 + 25 * 500 + 5 - 50_000;
    assert_eq!(lookup_branch_score(&g, 5), expected);
}
