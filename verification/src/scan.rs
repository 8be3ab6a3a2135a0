//! Row-major scans of the board: positions and counts of classes of cells.

use vstd::prelude::*;
use crate::model::{CellKind, Grid, MAX_SIDE};
use crate::cells::{CellClass, class_has, is_rat};

verus! {

/// Points `(x, y)` with `x < n` of row `y` that satisfy `p`, left to right.
pub open spec fn scan_row(p: spec_fn(int, int) -> bool, y: int, n: nat) -> Seq<(int, int)>
    decreases n,
{
    if n == 0 {
        Seq::empty()
    } else {
        let x = n - 1;
        scan_row(p, y, (n - 1) as nat) + (if p(x, y) { seq![(x, y)] } else { Seq::empty() })
    }
}

/// Points of the first `rows` rows of width `w` that satisfy `p`, in row-major order.
pub open spec fn scan_rows(p: spec_fn(int, int) -> bool, w: nat, rows: nat) -> Seq<(int, int)>
    decreases rows,
{
    if rows == 0 {
        Seq::empty()
    } else {
        scan_rows(p, w, (rows - 1) as nat) + scan_row(p, rows - 1, w)
    }
}

/// Points of the board that satisfy `p`, in row-major order.
pub open spec fn board_points(g: Grid, p: spec_fn(int, int) -> bool) -> Seq<(int, int)> {
    scan_rows(p, g.w(), g.h())
}

/// The test for class `c` at a point of the board.
pub open spec fn class_pred(g: Grid, c: CellClass) -> spec_fn(int, int) -> bool {
    |x: int, y: int| class_has(c, g.kind_at(x, y), y)
}

/// Positions of all cells of class `c`, in row-major order.
pub open spec fn positions_of(g: Grid, c: CellClass) -> Seq<(int, int)> {
    board_points(g, class_pred(g, c))
}

/// Number of cells of class `c`.
pub open spec fn count_of(g: Grid, c: CellClass) -> nat {
    positions_of(g, c).len()
}

/// Every listed point satisfies the test in the scanned part, and every such point is listed.
pub proof fn lemma_scan_row_members(p: spec_fn(int, int) -> bool, y: int, n: nat)
    ensures
        forall|i: int| 0 <= i < scan_row(p, y, n).len() ==> {
            let q = #[trigger] scan_row(p, y, n)[i];
            &&& q.1 == y
            &&& 0 <= q.0 < n
            &&& p(q.0, q.1)
        },
        forall|x: int| 0 <= x < n && p(x, y) ==> #[trigger] scan_row(p, y, n).contains((x, y)),
        scan_row(p, y, n).len() <= n,
    decreases n,
{
    if n > 0 {
        lemma_scan_row_members(p, y, (n - 1) as nat);
        let prev = scan_row(p, y, (n - 1) as nat);
        let cur = scan_row(p, y, n);
        assert forall|x: int| 0 <= x < n && p(x, y) implies #[trigger] cur.contains((x, y)) by {
            if x < n - 1 {
                assert(prev.contains((x, y)));
                let i = choose|i: int| 0 <= i < prev.len() && prev[i] == (x, y);
                assert(cur[i] == (x, y));
            } else {
                assert(cur[cur.len() - 1] == (x, y));
            }
        }
    }
}

/// Members of the row-major scan of the first `rows` rows.
pub proof fn lemma_scan_rows_members(p: spec_fn(int, int) -> bool, w: nat, rows: nat)
    ensures
        forall|i: int| 0 <= i < scan_rows(p, w, rows).len() ==> {
            let q = #[trigger] scan_rows(p, w, rows)[i];
            &&& 0 <= q.1 < rows
            &&& 0 <= q.0 < w
            &&& p(q.0, q.1)
        },
        forall|x: int, y: int| 0 <= y < rows && 0 <= x < w && p(x, y) ==>
            #[trigger] scan_rows(p, w, rows).contains((x, y)),
    decreases rows,
{
    if rows > 0 {
        lemma_scan_rows_members(p, w, (rows - 1) as nat);
        lemma_scan_row_members(p, rows - 1, w);
        let prev = scan_rows(p, w, (rows - 1) as nat);
        let last = scan_row(p, rows - 1, w);
        let cur = scan_rows(p, w, rows);
        assert forall|i: int| 0 <= i < cur.len() implies {
            let q = #[trigger] cur[i];
            &&& 0 <= q.1 < rows
            &&& 0 <= q.0 < w
            &&& p(q.0, q.1)
        } by {
            if i < prev.len() {
                assert(cur[i] == prev[i]);
            } else {
                assert(cur[i] == last[i - prev.len()]);
            }
        }
        assert forall|x: int, y: int| 0 <= y < rows && 0 <= x < w && p(x, y) implies
            #[trigger] cur.contains((x, y)) by {
            if y < rows - 1 {
                assert(prev.contains((x, y)));
                let i = choose|i: int| 0 <= i < prev.len() && prev[i] == (x, y);
                assert(cur[i] == (x, y));
            } else {
                assert(last.contains((x, y)));
                let i = choose|i: int| 0 <= i < last.len() && last[i] == (x, y);
                assert(cur[prev.len() + i] == (x, y));
            }
        }
    }
}

/// A point is listed exactly when it lies on the board and satisfies the test.
pub proof fn lemma_board_points(g: Grid, p: spec_fn(int, int) -> bool)
    ensures
        forall|i: int| 0 <= i < board_points(g, p).len() ==> {
            let q = #[trigger] board_points(g, p)[i];
            &&& g.in_bounds(q.0, q.1)
            &&& p(q.0, q.1)
        },
        forall|x: int, y: int| #[trigger] board_points(g, p).contains((x, y)) <==> (g.in_bounds(x, y) && p(x, y)),
{
    lemma_scan_rows_members(p, g.w(), g.h());
    assert forall|x: int, y: int| #[trigger] board_points(g, p).contains((x, y)) implies (g.in_bounds(x, y) && p(x, y)) by {
        let i = choose|i: int| 0 <= i < board_points(g, p).len() && board_points(g, p)[i] == (x, y);
    }
}

/// A position is listed exactly when it is a cell of the class on the board.
pub proof fn lemma_positions_of(g: Grid, c: CellClass)
    ensures
        forall|i: int| 0 <= i < positions_of(g, c).len() ==> {
            let p = #[trigger] positions_of(g, c)[i];
            &&& g.in_bounds(p.0, p.1)
            &&& class_has(c, g.kind_at(p.0, p.1), p.1)
        },
        forall|x: int, y: int| #[trigger] positions_of(g, c).contains((x, y)) <==>
            (g.in_bounds(x, y) && class_has(c, g.kind_at(x, y), y)),
{
    lemma_board_points(g, class_pred(g, c));
}

/// The scans never list more points than the scanned cells.
pub proof fn lemma_scan_rows_len(p: spec_fn(int, int) -> bool, w: nat, rows: nat)
    ensures
        scan_rows(p, w, rows).len() <= rows * w,
    decreases rows,
{
    if rows > 0 {
        lemma_scan_rows_len(p, w, (rows - 1) as nat);
        lemma_scan_row_members(p, rows - 1, w);
        assert((rows - 1) * w + w == rows * w) by (nonlinear_arith);
    }
}

/// At most `MAX_SIDE * MAX_SIDE` points of a board pass any test.
pub proof fn lemma_board_points_bound(g: Grid, p: spec_fn(int, int) -> bool)
    requires
        g.w() <= MAX_SIDE,
        g.h() <= MAX_SIDE,
    ensures
        board_points(g, p).len() <= MAX_SIDE * MAX_SIDE,
{
    lemma_scan_rows_len(p, g.w(), g.h());
    assert(g.h() * g.w() <= MAX_SIDE * MAX_SIDE) by (nonlinear_arith)
        requires g.w() <= MAX_SIDE, g.h() <= MAX_SIDE;
}

/// A longer prefix of a row lists at least as many points.
pub proof fn lemma_scan_row_prefix_len(p: spec_fn(int, int) -> bool, y: int, a: nat, b: nat)
    requires
        a <= b,
    ensures
        scan_row(p, y, a).len() <= scan_row(p, y, b).len(),
    decreases b,
{
    if a < b {
        lemma_scan_row_prefix_len(p, y, a, (b - 1) as nat);
    }
}

/// Positions of the cells of class `c` in row-major order, as `(x, y)` pairs.
pub fn positions_matching(grid: &Grid, class: CellClass) -> (res: Vec<(i32, i32)>)
    ensures
        res@.len() == positions_of(*grid, class).len(),
        forall|i: int| 0 <= i < res@.len() ==>
            (#[trigger] res@[i].0 as int, res@[i].1 as int) == positions_of(*grid, class)[i],
{
    let ghost g = *grid;
    let h = grid.height();
    let w = grid.width();
    let mut out: Vec<(i32, i32)> = Vec::new();
    let mut y: usize = 0;
    while y < h
        invariant
            g == *grid,
            h == g.h(),
            w == g.w(),
            h <= MAX_SIDE,
            w <= MAX_SIDE,
            y <= h,
            out@.len() == scan_rows(class_pred(g, class), w as nat, y as nat).len(),
            forall|i: int| 0 <= i < out@.len() ==>
                (#[trigger] out@[i].0 as int, out@[i].1 as int) == scan_rows(class_pred(g, class), w as nat, y as nat)[i],
        decreases h - y,
    {
        let ghost before = out@;
        let mut x: usize = 0;
        while x < w
            invariant
                g == *grid,
                h == g.h(),
                w == g.w(),
                h <= MAX_SIDE,
                w <= MAX_SIDE,
                y < h,
                x <= w,
                before.len() == scan_rows(class_pred(g, class), w as nat, y as nat).len(),
                out@.len() == before.len() + scan_row(class_pred(g, class), y as int, x as nat).len(),
                forall|i: int| 0 <= i < before.len() ==> #[trigger] out@[i] == before[i],
                forall|i: int| 0 <= i < before.len() ==>
                    (#[trigger] before[i].0 as int, before[i].1 as int) == scan_rows(class_pred(g, class), w as nat, y as nat)[i],
                forall|i: int| 0 <= i < scan_row(class_pred(g, class), y as int, x as nat).len() ==>
                    (#[trigger] out@[before.len() + i].0 as int, out@[before.len() + i].1 as int)
                        == scan_row(class_pred(g, class), y as int, x as nat)[i],
            decreases w - x,
        {
            if class.has(grid.cell_kind_at(x, y), y) {
                out.push((x as i32, y as i32));
            }
            x = x + 1;
            proof {
                let r = scan_row(class_pred(g, class), y as int, x as nat);
                let rp = scan_row(class_pred(g, class), y as int, (x - 1) as nat);
                assert forall|i: int| 0 <= i < r.len() implies
                    (#[trigger] out@[before.len() + i].0 as int, out@[before.len() + i].1 as int) == r[i] by {
                    if i < rp.len() {
                        assert(r[i] == rp[i]);
                    }
                }
            }
        }
        proof {
            let all = scan_rows(class_pred(g, class), w as nat, (y + 1) as nat);
            let prev = scan_rows(class_pred(g, class), w as nat, y as nat);
            let r = scan_row(class_pred(g, class), y as int, w as nat);
            assert(all == prev + r);
            assert forall|i: int| 0 <= i < out@.len() implies
                (#[trigger] out@[i].0 as int, out@[i].1 as int) == all[i] by {
                if i < prev.len() {
                    assert(out@[i] == before[i]);
                } else {
                    let j = i - before.len();
                    assert(out@[before.len() + j] == out@[i]);
                }
            }
        }
        y = y + 1;
    }
    out
}

/// Positions of the cells of class `c` in row-major order, as unsigned `(x, y)` pairs.
pub fn positions_matching_usize(grid: &Grid, class: CellClass) -> (res: Vec<(usize, usize)>)
    ensures
        res@.len() == positions_of(*grid, class).len(),
        forall|i: int| 0 <= i < res@.len() ==>
            (#[trigger] res@[i].0 as int, res@[i].1 as int) == positions_of(*grid, class)[i],
{
    let ps = positions_matching(grid, class);
    proof { lemma_positions_of(*grid, class); }
    let mut out: Vec<(usize, usize)> = Vec::new();
    let mut i: usize = 0;
    while i < ps.len()
        invariant
            i <= ps@.len(),
            ps@.len() == positions_of(*grid, class).len(),
            forall|j: int| 0 <= j < ps@.len() ==>
                (#[trigger] ps@[j].0 as int, ps@[j].1 as int) == positions_of(*grid, class)[j],
            forall|j: int| 0 <= j < positions_of(*grid, class).len() ==> {
                let p = #[trigger] positions_of(*grid, class)[j];
                &&& grid.in_bounds(p.0, p.1)
            },
            out@.len() == i,
            forall|j: int| 0 <= j < i ==>
                (#[trigger] out@[j].0 as int, out@[j].1 as int) == positions_of(*grid, class)[j],
        decreases ps@.len() - i,
    {
        let (x, y) = ps[i];
        proof {
            assert(grid.in_bounds(positions_of(*grid, class)[i as int].0, positions_of(*grid, class)[i as int].1));
        }
        out.push((x as usize, y as usize));
        i = i + 1;
    }
    out
}

/// Number of cells of class `c`.
pub fn count_matching(grid: &Grid, class: CellClass) -> (n: usize)
    ensures
        n == count_of(*grid, class),
        n <= MAX_SIDE * MAX_SIDE,
{
    let ghost g = *grid;
    let h = grid.height();
    let w = grid.width();
    let mut n: usize = 0;
    let mut y: usize = 0;
    proof {
        lemma_board_points_bound(g, class_pred(g, class));
    }
    while y < h
        invariant
            g == *grid,
            h == g.h(),
            w == g.w(),
            h <= MAX_SIDE,
            w <= MAX_SIDE,
            y <= h,
            n == scan_rows(class_pred(g, class), w as nat, y as nat).len(),
        decreases h - y,
    {
        let mut x: usize = 0;
        proof {
            lemma_scan_rows_len(class_pred(g, class), w as nat, (y + 1) as nat);
            assert((y + 1) * w <= MAX_SIDE * MAX_SIDE) by (nonlinear_arith)
                requires y + 1 <= MAX_SIDE, w <= MAX_SIDE;
        }
        while x < w
            invariant
                g == *grid,
                h == g.h(),
                w == g.w(),
                y < h,
                x <= w,
                n == scan_rows(class_pred(g, class), w as nat, y as nat).len() + scan_row(class_pred(g, class), y as int, x as nat).len(),
                scan_rows(class_pred(g, class), w as nat, y as nat).len() + scan_row(class_pred(g, class), y as int, w as nat).len() <= MAX_SIDE * MAX_SIDE,
            decreases w - x,
        {
            proof {
                lemma_scan_row_prefix_len(class_pred(g, class), y as int, (x + 1) as nat, w as nat);
            }
            if class.has(grid.cell_kind_at(x, y), y) {
                n = n + 1;
            }
            x = x + 1;
        }
        y = y + 1;
    }
    n
}

} // verus!
