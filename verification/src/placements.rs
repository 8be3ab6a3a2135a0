//! Boards written as rows of tokens, and new layouts made from one by moving its pieces:
//! which cells may take a moved piece, and the tokens once the players are lifted off and
//! pieces are put down.

use vstd::prelude::*;
use crate::scan::scan_rows;
use crate::tokens::{is_player_symbol, is_player_token, is_mutation_floor};
use crate::text::string_of;

verus! {

/// The token at column `x` of row `y`.
pub open spec fn token_at(tokens: Seq<Vec<String>>, x: int, y: int) -> Seq<char> {
    tokens[y]@[x]@
}

/// The token shows a player.
pub open spec fn shows_player(t: Seq<char>) -> bool {
    t.len() == 1 && is_player_symbol(t[0])
}

/// The token is a floor a moved piece may take: `.` or `w`.
pub open spec fn is_open_floor(t: Seq<char>) -> bool {
    t == seq!['.'] || t == seq!['w']
}

/// Every row of `tokens` has `w` tokens.
pub open spec fn rectangular(tokens: Seq<Vec<String>>, w: nat) -> bool {
    forall|y: int| 0 <= y < tokens.len() ==> (#[trigger] tokens[y])@.len() == w
}

/// Whether `p` is listed in `ps`.
pub open spec fn listed(ps: Seq<(usize, usize)>, x: int, y: int) -> bool {
    exists|i: int| 0 <= i < ps.len() && (ps[i].0 as int, ps[i].1 as int) == (x, y)
}

/// The test for a cell that may take a moved piece: an open floor, a player's token, or a
/// cell listed among the players.
pub open spec fn candidate_pred(tokens: Seq<Vec<String>>, players: Seq<(usize, usize)>) -> spec_fn(int, int) -> bool {
    |x: int, y: int| is_open_floor(token_at(tokens, x, y)) || shows_player(token_at(tokens, x, y)) || listed(players, x, y)
}

/// Whether `(x, y)` is listed in `ps`.
fn is_listed(ps: &Vec<(usize, usize)>, x: usize, y: usize) -> (b: bool)
    ensures
        b == listed(ps@, x as int, y as int),
{
    let mut i: usize = 0;
    while i < ps.len()
        invariant
            i <= ps@.len(),
            forall|j: int| 0 <= j < i ==> (ps@[j].0 as int, ps@[j].1 as int) != (x as int, y as int),
        decreases ps@.len() - i,
    {
        if ps[i].0 == x && ps[i].1 == y {
            return true;
        }
        i = i + 1;
    }
    false
}

/// The cells of a `w` by `h` board that satisfy `p`, in row-major order; `f` tells `p`.
fn scan_cells<F: Fn(usize, usize) -> bool>(w: usize, h: usize, f: F, Ghost(p): Ghost<spec_fn(int, int) -> bool>) -> (cells: Vec<(usize, usize)>)
    requires
        forall|x: usize, y: usize| x < w && y < h ==> #[trigger] f.requires((x, y)),
        forall|x: usize, y: usize, b: bool| x < w && y < h && #[trigger] f.ensures((x, y), b) ==> b == p(x as int, y as int),
    ensures
        cells@.len() == scan_rows(p, w as nat, h as nat).len(),
        forall|i: int| 0 <= i < cells@.len() ==>
            (#[trigger] cells@[i].0 as int, cells@[i].1 as int) == scan_rows(p, w as nat, h as nat)[i],
{
    let mut out: Vec<(usize, usize)> = Vec::new();
    let mut y: usize = 0;
    while y < h
        invariant
            forall|x: usize, y: usize| x < w && y < h ==> #[trigger] f.requires((x, y)),
            forall|x: usize, y: usize, b: bool| x < w && y < h && #[trigger] f.ensures((x, y), b) ==> b == p(x as int, y as int),
            y <= h,
            out@.len() == scan_rows(p, w as nat, y as nat).len(),
            forall|i: int| 0 <= i < out@.len() ==>
                (#[trigger] out@[i].0 as int, out@[i].1 as int) == scan_rows(p, w as nat, y as nat)[i],
        decreases h - y,
    {
        let ghost before = out@;
        let mut x: usize = 0;
        while x < w
            invariant
                forall|x: usize, y: usize| x < w && y < h ==> #[trigger] f.requires((x, y)),
                forall|x: usize, y: usize, b: bool| x < w && y < h && #[trigger] f.ensures((x, y), b) ==> b == p(x as int, y as int),
                y < h,
                x <= w,
                before.len() == scan_rows(p, w as nat, y as nat).len(),
                out@.len() == before.len() + crate::scan::scan_row(p, y as int, x as nat).len(),
                forall|i: int| 0 <= i < before.len() ==> #[trigger] out@[i] == before[i],
                forall|i: int| 0 <= i < before.len() ==>
                    (#[trigger] before[i].0 as int, before[i].1 as int) == scan_rows(p, w as nat, y as nat)[i],
                forall|i: int| 0 <= i < crate::scan::scan_row(p, y as int, x as nat).len() ==>
                    (#[trigger] out@[before.len() + i].0 as int, out@[before.len() + i].1 as int)
                        == crate::scan::scan_row(p, y as int, x as nat)[i],
            decreases w - x,
        {
            if f(x, y) {
                out.push((x, y));
            }
            x = x + 1;
            proof {
                let r = crate::scan::scan_row(p, y as int, x as nat);
                let rp = crate::scan::scan_row(p, y as int, (x - 1) as nat);
                assert forall|i: int| 0 <= i < r.len() implies
                    (#[trigger] out@[before.len() + i].0 as int, out@[before.len() + i].1 as int) == r[i] by {
                    if i < rp.len() {
                        assert(r[i] == rp[i]);
                    }
                }
            }
        }
        y = y + 1;
        proof {
            let rs = scan_rows(p, w as nat, y as nat);
            let rsp = scan_rows(p, w as nat, (y - 1) as nat);
            let r = crate::scan::scan_row(p, (y - 1) as int, w as nat);
            assert(rs == rsp + r);
            assert forall|i: int| 0 <= i < out@.len() implies
                (#[trigger] out@[i].0 as int, out@[i].1 as int) == rs[i] by {
                if i < before.len() {
                    assert(out@[i] == before[i]);
                } else {
                    let k = i - before.len();
                    assert(out@[before.len() + k] == out@[i]);
                }
            }
        }
    }
    out
}

/// The cells of a board of tokens, `w` to a row, that may take a moved piece, in
/// row-major order: open floors, players' tokens, and the cells listed in `players`.
pub fn mutation_candidates(tokens: &Vec<Vec<String>>, w: usize, players: &Vec<(usize, usize)>) -> (cells: Vec<(usize, usize)>)
    requires
        rectangular(tokens@, w as nat),
    ensures
        cells@.len() == scan_rows(candidate_pred(tokens@, players@), w as nat, tokens@.len()).len(),
        forall|i: int| 0 <= i < cells@.len() ==>
            (#[trigger] cells@[i].0 as int, cells@[i].1 as int) == scan_rows(candidate_pred(tokens@, players@), w as nat, tokens@.len())[i],
{
    let ghost p = candidate_pred(tokens@, players@);
    let f = |x: usize, y: usize| -> (b: bool)
        requires
            x < w,
            y < tokens@.len(),
        ensures
            b == candidate_pred(tokens@, players@)(x as int, y as int),
        {
            proof {
                assert(tokens@[y as int]@.len() == w);
            }
            let t = &tokens[y][x];
            is_mutation_floor(t.as_str()) || is_player_token(t.as_str()) || is_listed(players, x, y)
        };
    scan_cells(w, tokens.len(), f, Ghost(p))
}

/// A cell the moved rat may take: an open floor, or the cell it came from.
pub open spec fn rat_spot(tokens: Seq<Vec<String>>, source: (usize, usize)) -> spec_fn(int, int) -> bool {
    |x: int, y: int| is_open_floor(token_at(tokens, x, y)) || (x, y) == (source.0 as int, source.1 as int)
}

/// A cell the player may take once the rat stands at `rat`: any other cell that is an open
/// floor, shows a player, or is the first player's.
pub open spec fn player_spot(tokens: Seq<Vec<String>>, rat: (usize, usize), first: Option<(usize, usize)>) -> spec_fn(int, int) -> bool {
    |x: int, y: int| (x, y) != (rat.0 as int, rat.1 as int) && (is_open_floor(token_at(tokens, x, y))
        || shows_player(token_at(tokens, x, y)) || (first matches Some(f) && (x, y) == (f.0 as int, f.1 as int)))
}

/// The cells, in row-major order, where the rat from `source` may be put down.
pub fn rat_spots(tokens: &Vec<Vec<String>>, w: usize, source: (usize, usize)) -> (cells: Vec<(usize, usize)>)
    requires
        rectangular(tokens@, w as nat),
    ensures
        cells@.len() == scan_rows(rat_spot(tokens@, source), w as nat, tokens@.len()).len(),
        forall|i: int| 0 <= i < cells@.len() ==>
            (#[trigger] cells@[i].0 as int, cells@[i].1 as int) == scan_rows(rat_spot(tokens@, source), w as nat, tokens@.len())[i],
{
    let ghost p = rat_spot(tokens@, source);
    let f = |x: usize, y: usize| -> (b: bool)
        requires
            x < w,
            y < tokens@.len(),
        ensures
            b == rat_spot(tokens@, source)(x as int, y as int),
        {
            proof {
                assert(tokens@[y as int]@.len() == w);
            }
            is_mutation_floor(tokens[y][x].as_str()) || (x == source.0 && y == source.1)
        };
    scan_cells(w, tokens.len(), f, Ghost(p))
}

/// The cells, in row-major order, where the player may be put down once the rat stands at
/// `rat`; `first` is the first player's cell, if the board has a player.
pub fn player_spots(tokens: &Vec<Vec<String>>, w: usize, rat: (usize, usize), first: Option<(usize, usize)>) -> (cells: Vec<(usize, usize)>)
    requires
        rectangular(tokens@, w as nat),
    ensures
        cells@.len() == scan_rows(player_spot(tokens@, rat, first), w as nat, tokens@.len()).len(),
        forall|i: int| 0 <= i < cells@.len() ==>
            (#[trigger] cells@[i].0 as int, cells@[i].1 as int) == scan_rows(player_spot(tokens@, rat, first), w as nat, tokens@.len())[i],
{
    let ghost p = player_spot(tokens@, rat, first);
    let f = |x: usize, y: usize| -> (b: bool)
        requires
            x < w,
            y < tokens@.len(),
        ensures
            b == player_spot(tokens@, rat, first)(x as int, y as int),
        {
            proof {
                assert(tokens@[y as int]@.len() == w);
            }
            let t = tokens[y][x].as_str();
            let is_first = match first {
                Some(fp) => x == fp.0 && y == fp.1,
                None => false,
            };
            !(x == rat.0 && y == rat.1) && (is_mutation_floor(t) || is_player_token(t) || is_first)
        };
    scan_cells(w, tokens.len(), f, Ghost(p))
}

/// The last piece put down at `(x, y)` among `writes`, if any.
pub open spec fn last_write(writes: Seq<((usize, usize), String)>, x: int, y: int) -> Option<Seq<char>>
    decreases writes.len(),
{
    if writes.len() == 0 {
        None
    } else if (writes.last().0.0 as int, writes.last().0.1 as int) == (x, y) {
        Some(writes.last().1@)
    } else {
        last_write(writes.drop_last(), x, y)
    }
}

/// The token at `(x, y)` once the players are lifted off the board (their tokens become
/// `.`) and the pieces of `writes` are put down in order.
pub open spec fn placed_token(base: Seq<Vec<String>>, writes: Seq<((usize, usize), String)>, x: int, y: int) -> Seq<char> {
    match last_write(writes, x, y) {
        Some(t) => t,
        None => if shows_player(token_at(base, x, y)) { seq!['.'] } else { token_at(base, x, y) },
    }
}

/// The index of the last piece put down at `(x, y)`.
fn last_write_index(writes: &Vec<((usize, usize), String)>, x: usize, y: usize) -> (k: Option<usize>)
    ensures
        match k {
            Some(i) => i < writes@.len() && last_write(writes@, x as int, y as int) == Some(writes@[i as int].1@),
            None => last_write(writes@, x as int, y as int) is None,
        },
{
    let mut n = writes.len();
    proof {
        assert(writes@.take(n as int) =~= writes@);
    }
    while n > 0
        invariant
            n <= writes@.len(),
            last_write(writes@, x as int, y as int) == last_write(writes@.take(n as int), x as int, y as int),
        decreases n,
    {
        let w = &writes[n - 1];
        proof {
            let pre = writes@.take(n as int);
            assert(pre.drop_last() =~= writes@.take(n - 1));
            assert(pre.last() == writes@[n - 1]);
        }
        if w.0.0 == x && w.0.1 == y {
            return Some(n - 1);
        }
        n = n - 1;
    }
    None
}

/// The tokens of a new layout: every player lifted off the board (its token becomes `.`),
/// then the pieces of `writes` put down in order, each a position and a token.
pub fn place_pieces(base: &Vec<Vec<String>>, writes: &Vec<((usize, usize), String)>) -> (tokens: Vec<Vec<String>>)
    ensures
        tokens@.len() == base@.len(),
        forall|y: int| 0 <= y < base@.len() ==> (#[trigger] tokens@[y])@.len() == base@[y]@.len(),
        forall|y: int, x: int| 0 <= y < base@.len() && 0 <= x < base@[y]@.len() ==>
            #[trigger] token_at(tokens@, x, y) == placed_token(base@, writes@, x, y),
{
    let mut out: Vec<Vec<String>> = Vec::new();
    let mut y: usize = 0;
    while y < base.len()
        invariant
            y <= base@.len(),
            out@.len() == y,
            forall|j: int| 0 <= j < y ==> (#[trigger] out@[j])@.len() == base@[j]@.len(),
            forall|j: int, x: int| 0 <= j < y && 0 <= x < base@[j]@.len() ==>
                #[trigger] token_at(out@, x, j) == placed_token(base@, writes@, x, j),
        decreases base@.len() - y,
    {
        let row = &base[y];
        let mut new_row: Vec<String> = Vec::new();
        let mut x: usize = 0;
        while x < row.len()
            invariant
                y < base@.len(),
                row == base@[y as int],
                x <= row@.len(),
                new_row@.len() == x,
                forall|i: int| 0 <= i < x ==> (#[trigger] new_row@[i])@ == placed_token(base@, writes@, i, y as int),
            decreases row@.len() - x,
        {
            let t: String = match last_write_index(writes, x, y) {
                Some(k) => writes[k].1.clone(),
                None => {
                    if is_player_token(row[x].as_str()) {
                        string_of(&['.'])
                    } else {
                        row[x].clone()
                    }
                },
            };
            proof {
                assert(['.']@ =~= seq!['.']);
            }
            new_row.push(t);
            x = x + 1;
        }
        let ghost old_out = out@;
        out.push(new_row);
        y = y + 1;
        proof {
            assert forall|j: int, x: int| 0 <= j < y && 0 <= x < base@[j]@.len() implies
                #[trigger] token_at(out@, x, j) == placed_token(base@, writes@, x, j) by {
                if j < y - 1 {
                    assert(out@[j] == old_out[j]);
                    assert(token_at(old_out, x, j) == placed_token(base@, writes@, x, j));
                } else {
                    assert(out@[j] == new_row);
                    assert(new_row@[x]@ == placed_token(base@, writes@, x, j));
                }
            }
        }
    }
    out
}

} // verus!
