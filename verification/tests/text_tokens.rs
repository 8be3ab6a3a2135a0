use solver::tokens::{tokens_to_csv, is_player_token, is_mutation_floor, player_symbols_for_index, format_positions};
use solver::text::{decimal_chars, string_of, trim_chars, split_chars, parse_i32, parse_usize, parse_u8, join_parts};
use solver::keys::cell_short_name;
use solver::event_keys::{signed_chars, number_list};
use solver::model::CellKind;

fn s(v: &[&str]) -> Vec<String> {
    v.iter().map(|t| t.to_string()).collect()
}

#[test]
fn tokens_to_csv_joins_rows_and_ends_with_newline() {
    let rows = vec![s(&["#", ".", "R"]), s(&["▲", "w", "X"])];
    assert_eq!(tokens_to_csv(&rows), "#,.,R\n▲,w,X\n");
}

#[test]
fn tokens_to_csv_of_no_rows_is_a_newline() {
    let rows: Vec<Vec<String>> = Vec::new();
    assert_eq!(tokens_to_csv(&rows), "\n");
}

#[test]
fn player_tokens_are_the_eight_triangles() {
    for t in ["▲", "▼", "►", "◄", "△", "▽", "▷", "◁"] {
        assert!(is_player_token(t));
    }
    for t in [".", "R", "▲▲", "", "P"] {
        assert!(!is_player_token(t));
    }
}

#[test]
fn mutation_floors_are_dot_and_web() {
    assert!(is_mutation_floor("."));
    assert!(is_mutation_floor("w"));
    assert!(!is_mutation_floor("#"));
    assert!(!is_mutation_floor(".."));
    assert!(!is_mutation_floor(""));
}

#[test]
fn player_symbols_per_index() {
    assert_eq!(player_symbols_for_index(0), Some(["▲", "▼", "►", "◄"]));
    assert_eq!(player_symbols_for_index(1), Some(["△", "▽", "▷", "◁"]));
    assert_eq!(player_symbols_for_index(2), None);
}

#[test]
fn format_positions_writes_pairs_with_commas() {
    assert_eq!(format_positions(&[(1, 2), (30, 4)]), "(1,2),(30,4)");
    assert_eq!(format_positions(&[]), "");
}

#[test]
fn decimal_and_signed_numbers() {
    assert_eq!(string_of(&decimal_chars(0)), "0");
    assert_eq!(string_of(&decimal_chars(1234567890)), "1234567890");
    assert_eq!(string_of(&signed_chars(-42)), "-42");
    assert_eq!(string_of(&signed_chars(7)), "7");
    assert_eq!(string_of(&signed_chars(i64::MIN)), "-9223372036854775808");
}

#[test]
fn number_list_is_written_as_debug_output() {
    assert_eq!(string_of(&number_list(&vec![1, 2, 30])), format!("{:?}", vec![1u8, 2, 30]));
    assert_eq!(string_of(&number_list(&vec![])), "[]");
}

#[test]
fn trim_and_split() {
    let t: Vec<char> = "  a b \t".chars().collect();
    assert_eq!(trim_chars(&t), vec!['a', ' ', 'b']);
    let parts = split_chars(&"1,2;;3".chars().collect::<Vec<_>>(), &[',', ';']);
    let texts: Vec<String> = parts.iter().map(|p| p.iter().collect()).collect();
    assert_eq!(texts, vec!["1", "2", "", "3"]);
}

#[test]
fn integer_parsing() {
    let c = |x: &str| x.chars().collect::<Vec<_>>();
    assert_eq!(parse_i32(&c("-17")), Some(-17));
    assert_eq!(parse_i32(&c("+5")), Some(5));
    assert_eq!(parse_i32(&c("2147483648")), None);
    assert_eq!(parse_i32(&c("")), None);
    assert_eq!(parse_i32(&c("1x")), None);
    assert_eq!(parse_usize(&c("42")), Some(42));
    assert_eq!(parse_usize(&c("-1")), None);
    assert_eq!(parse_u8(&c("255")), Some(255));
    assert_eq!(parse_u8(&c("256")), None);
}

#[test]
fn join_parts_puts_the_separator_between_parts() {
    let parts = vec![vec!['a'], vec!['b', 'c'], vec![]];
    assert_eq!(join_parts(&parts, &[';']), vec!['a', ';', 'b', 'c', ';']);
}

#[test]
fn short_names_of_cells() {
    assert_eq!(string_of(&cell_short_name(CellKind::Empty)), ".");
    assert_eq!(string_of(&cell_short_name(CellKind::Wall)), "#");
    assert_eq!(string_of(&cell_short_name(CellKind::CyborgRat)), "C");
    assert_eq!(string_of(&cell_short_name(CellKind::Trigger(12))), "T12");
}
