use solver::model::{CellKind, Grid};
use solver::event_kind::event_kind_key;
use solver::bucket_keys::{feature_bucket_key, rectangle_fess_bucket_key, fess_bucket_key};
use solver::event_select::{select_event_successors, EventScoreMode};
use solver::fess_select::select_fess_frontier;

fn board(rows: &[&str]) -> Grid {
    let kinds: Vec<Vec<CellKind>> = rows
        .iter()
        .map(|r| {
            r.chars()
                .map(|c| match c {
                    '#' => CellKind::Wall,
                    'P' => CellKind::Player,
                    'R' => CellKind::Rat,
                    'C' => CellKind::CyborgRat,
                    '=' => CellKind::Plank,
                    'w' => CellKind::Spiderweb,
                    'O' => CellKind::BlackHole,
                    'X' => CellKind::Explosive,
                    d if d.is_ascii_digit() => CellKind::Trigger(d as u8 - b'0'),
                    _ => CellKind::Empty,
                })
                .collect()
        })
        .collect();
    Grid::from_kinds(kinds).unwrap()
}

fn strings(v: &[&str]) -> Vec<String> {
    v.iter().map(|s| s.to_string()).collect()
}

#[test]
fn kind_key_names_every_change() {
    let before = board(&["PRX", "w=#"]);
    let after = board(&["P..", "..."]);
    assert_eq!(
        event_kind_key(&before, &after),
        "dr1:dc0:dx1:dw1:dt0:trig[]:web[(0, 1)]:exp[(2, 0)]:plank[(1, 1)]:wall[(2, 1)]:rat[\"1,0:R>.\"]"
    );
}

#[test]
fn kind_key_orders_places_and_rat_cells() {
    let before = board(&["ww.", "w.."]);
    let after = board(&["...", "..."]);
    assert_eq!(
        event_kind_key(&before, &after),
        "dr0:dc0:dx0:dw3:dt0:trig[]:web[(0, 0), (0, 1), (1, 0)]:exp[]:plank[]:wall[]:rat[]"
    );
    let wide_before = board(&["P.R.......R"]);
    let wide_after = board(&["P.........."]);
    assert_eq!(
        event_kind_key(&wide_before, &wide_after),
        "dr2:dc0:dx0:dw0:dt0:trig[]:web[]:exp[]:plank[]:wall[]:rat[\"10,0:R>.\", \"2,0:R>.\"]"
    );
}

#[test]
fn kind_key_lists_triggers_as_often_as_they_went() {
    let before = board(&["1.1", "2.P"]);
    let after = board(&["...", "..P"]);
    assert_eq!(
        event_kind_key(&before, &after),
        "dr0:dc0:dx0:dw0:dt3:trig[1, 1, 2]:web[]:exp[]:plank[]:wall[]:rat[]"
    );
}

#[test]
fn bucket_key_of_a_small_board() {
    let g = board(&[
        "#######",
        "#P..R.#",
        "#####.#",
        "#R#X..#",
        "#######",
    ]);
    assert_eq!(
        feature_bucket_key(&g, false),
        "r2:rr1:ur1:tr1:x1:w0:t0:rt0:p0:cells1:cy0:tp[]:urpos[1,3]:trap[1,3]:wpos[]"
    );
    assert!(rectangle_fess_bucket_key(&g, false).is_none());
    assert_eq!(
        fess_bucket_key(&"dr1".to_string(), &g, false),
        "dr1|r2:rr1:ur1:tr1:x1:w0:t0:rt0:p0:cells1:cy0:tp[]:urpos[1,3]:trap[1,3]:wpos[]"
    );
}

#[test]
fn rectangle_bucket_key_on_the_rectangle_board() {
    let mut rows = vec![".................".to_string(); 9];
    rows[0] = "P................".to_string();
    rows[6] = "....R............".to_string();
    let refs: Vec<&str> = rows.iter().map(|s| s.as_str()).collect();
    let g = board(&refs);
    let key: String = rectangle_fess_bucket_key(&g, false).unwrap().into_iter().collect();
    // the rat stands on a trap cell; the player is 14 + 6 = 20 steps from the nearest safe cell
    assert_eq!(key, "rect:p[0,0]:lower[4,6]:ld0:sd20:sep0:ign0");
    let ready: String = rectangle_fess_bucket_key(&g, true).unwrap().into_iter().collect();
    assert_eq!(ready, "rect:p[0,0]:lower[4,6]:ld0:sd20:sep1:ign1");
}

#[test]
fn event_selection_without_grouping_keeps_the_best() {
    let keys = strings(&["a", "b", "c"]);
    assert_eq!(select_event_successors(&vec![5, 1, 3], &keys, 2, EventScoreMode::Trigger), vec![1, 2]);
    assert_eq!(select_event_successors(&vec![5, 1, 3], &keys, 3, EventScoreMode::Fess), vec![1, 2, 0]);
}

#[test]
fn event_selection_takes_two_of_each_kind_first() {
    let keys = strings(&["a", "a", "a", "b", "b"]);
    let scores = vec![1, 2, 3, 4, 5];
    assert_eq!(select_event_successors(&scores, &keys, 3, EventScoreMode::Fess), vec![0, 1, 3]);
    // exactly four were taken first, so one more is let in
    assert_eq!(select_event_successors(&scores, &keys, 4, EventScoreMode::Fess), vec![0, 1, 3, 4, 2]);
}

#[test]
fn frontier_selection_spreads_over_buckets() {
    let scores = vec![1, 2, 3, 4];
    assert_eq!(select_fess_frontier(&scores, &strings(&["e", "e", "f", "e"]), &strings(&["A", "A", "B", "A"]), 5, 1), vec![0, 1, 2, 3]);
    assert_eq!(select_fess_frontier(&scores, &strings(&["e1", "e1", "e2", "e1"]), &strings(&["A", "A", "B", "A"]), 2, 1), vec![0, 2, 1]);
    assert_eq!(select_fess_frontier(&scores, &strings(&["e", "e", "e", "f"]), &strings(&["A", "B", "C", "D"]), 3, 1), vec![0, 3, 1]);
}
