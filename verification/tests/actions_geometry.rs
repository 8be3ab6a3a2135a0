use solver::actions::{ch_to_action, action_to_ch, arrow, all_action_tuples, format_path, format_path_ascii,
    parse_action_string, action_text};
use solver::geometry::{manhattan, point_in_rect, nearest_rect_distance, nearest_pair_distance, nearest_target_distance,
    target_sum_distance, reached_player_targets, rectangle_lower_rat_targets, rectangle_lower_safe_targets,
    rectangle_lower_has_escape_staging, jitter_for};
use solver::model::{Action, Dir4};

const N: Action = Action::Move(Dir4::North);
const S: Action = Action::Move(Dir4::South);
const E: Action = Action::Move(Dir4::East);
const W: Action = Action::Move(Dir4::West);

#[test]
fn action_characters_round_trip() {
    for a in [N, S, E, W, Action::Stall] {
        assert_eq!(ch_to_action(action_to_ch(a)), Some(a));
        assert_eq!(ch_to_action(arrow(a)), Some(a));
    }
    assert_eq!(ch_to_action('s'), Some(Action::Stall));
    assert_eq!(ch_to_action('x'), None);
}

#[test]
fn action_tuples_for_one_and_two_players() {
    assert_eq!(all_action_tuples(1, false), Some(vec![vec![N], vec![S], vec![E], vec![W], vec![Action::Stall]]));
    let two = all_action_tuples(2, false).unwrap();
    assert_eq!(two.len(), 25);
    assert_eq!(two[0], vec![N, N]);
    assert_eq!(two[6], vec![S, S]);
    assert_eq!(two[24], vec![Action::Stall, Action::Stall]);
    assert_eq!(
        all_action_tuples(2, true),
        Some(vec![vec![N, N], vec![S, S], vec![E, W], vec![W, E], vec![Action::Stall, Action::Stall]])
    );
    assert_eq!(all_action_tuples(3, false), None);
}

#[test]
fn paths_are_written_as_arrows_or_ascii() {
    let one = vec![vec![N], vec![E], vec![Action::Stall]];
    assert_eq!(format_path(&one), "↑→.");
    assert_eq!(format_path_ascii(&one), "^>.");
    let two = vec![vec![N, S], vec![W, E]];
    assert_eq!(format_path(&two), "↑↓ ←→");
    assert_eq!(format_path_ascii(&two), "^v <>");
    assert_eq!(format_path(&[]), "");
}

#[test]
fn action_strings_are_read_per_player_count() {
    assert_eq!(parse_action_string("^x>.", 1), vec![vec![N], vec![E], vec![Action::Stall]]);
    assert_eq!(parse_action_string("^|v <> ^", 2), vec![vec![N, S], vec![W, E]]);
}

#[test]
fn action_text_per_player_count() {
    assert_eq!(action_text(&[W], 1), "<");
    assert_eq!(action_text(&[], 1), ".");
    assert_eq!(action_text(&[N, S], 2), "^v");
}

#[test]
fn distances() {
    assert_eq!(manhattan((1, 2), (4, -2)), 7);
    assert!(point_in_rect((2, 2), 3, 3, 1, 1));
    assert!(!point_in_rect((0, 2), 3, 3, 1, 1));
    assert_eq!(nearest_rect_distance(&[(0, 0), (5, 9)], 2, 2, 4, 4), 4);
    assert_eq!(nearest_rect_distance(&[], 2, 2, 4, 4), 1000);
    assert_eq!(nearest_pair_distance(&[(0, 0), (3, 3)], &[(4, 4), (9, 9)]), 2);
    assert_eq!(nearest_pair_distance(&[], &[(4, 4)]), 1000);
    assert_eq!(nearest_target_distance(&[(1, 1)], &[(1, 5), (2, 2)]), 2);
    assert_eq!(nearest_target_distance(&[(1, 1)], &[]), 1000);
}

#[test]
fn player_targets() {
    assert_eq!(target_sum_distance(&[(0, 0), (2, 2)], &[Some((1, 1)), None]), 2);
    assert_eq!(target_sum_distance(&[(0, 0)], &[Some((1, 1)), Some((5, 5))]), 2);
    assert!(reached_player_targets(&[(1, 1), (2, 2)], &[Some((1, 1)), None]));
    assert!(!reached_player_targets(&[(1, 1)], &[Some((1, 1)), None]));
    assert!(!reached_player_targets(&[(1, 1), (2, 2)], &[Some((1, 2))]));
}

#[test]
fn rectangle_targets() {
    assert_eq!(rectangle_lower_rat_targets(), [(2, 6), (3, 6), (4, 6), (5, 6), (6, 6)]);
    assert_eq!(rectangle_lower_safe_targets(), [(14, 6), (14, 7), (15, 7), (13, 8), (14, 8), (15, 8)]);
    assert!(rectangle_lower_has_escape_staging((15, 8)));
    assert!(!rectangle_lower_has_escape_staging((2, 6)));
}

#[test]
fn jitter_values() {
    assert_eq!(jitter_for(12345, 3, 99, 1000), 759);
    assert_eq!(jitter_for(0, 0, 0, 7), 0);
    assert_eq!(jitter_for(u64::MAX, 10, 5, 1_000_000), 623488);
    assert_eq!(jitter_for(12345, 3, 99, 0), 0);
    assert_eq!(jitter_for(12345, 3, 99, -5), 0);
}
