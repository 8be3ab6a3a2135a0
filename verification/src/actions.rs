//! Moves as characters: reading action strings, writing paths, and the moves a turn offers.

use vstd::prelude::*;
use crate::model::{Action, Dir4};
use crate::text::{is_ws, is_whitespace, chars_of, string_of, join, append_part};

verus! {

/// The move a character stands for: `^ v < >` or the arrows `↑ ↓ ← →` for north, south,
/// west and east, `.` or `s` for standing still.
pub open spec fn spec_ch_to_action(c: char) -> Option<Action> {
    if c == '^' || c == '↑' {
        Some(Action::Move(Dir4::North))
    } else if c == 'v' || c == '↓' {
        Some(Action::Move(Dir4::South))
    } else if c == '<' || c == '←' {
        Some(Action::Move(Dir4::West))
    } else if c == '>' || c == '→' {
        Some(Action::Move(Dir4::East))
    } else if c == '.' || c == 's' {
        Some(Action::Stall)
    } else {
        None
    }
}

/// The move a character stands for, if any.
pub fn ch_to_action(c: char) -> (a: Option<Action>)
    ensures
        a == spec_ch_to_action(c),
{
    if c == '^' || c == '↑' {
        Some(Action::Move(Dir4::North))
    } else if c == 'v' || c == '↓' {
        Some(Action::Move(Dir4::South))
    } else if c == '<' || c == '←' {
        Some(Action::Move(Dir4::West))
    } else if c == '>' || c == '→' {
        Some(Action::Move(Dir4::East))
    } else if c == '.' || c == 's' {
        Some(Action::Stall)
    } else {
        None
    }
}

/// The plain character of a move: `^ v < > .`.
pub open spec fn spec_action_to_ch(a: Action) -> char {
    match a {
        Action::Move(Dir4::North) => '^',
        Action::Move(Dir4::South) => 'v',
        Action::Move(Dir4::West) => '<',
        Action::Move(Dir4::East) => '>',
        Action::Stall => '.',
    }
}

/// The plain character of a move.
pub fn action_to_ch(a: Action) -> (c: char)
    ensures
        c == spec_action_to_ch(a),
{
    match a {
        Action::Move(Dir4::North) => '^',
        Action::Move(Dir4::South) => 'v',
        Action::Move(Dir4::West) => '<',
        Action::Move(Dir4::East) => '>',
        Action::Stall => '.',
    }
}

/// The arrow of a move: `↑ ↓ ← →`, and `.` for standing still.
pub open spec fn spec_arrow(a: Action) -> char {
    match a {
        Action::Move(Dir4::North) => '↑',
        Action::Move(Dir4::South) => '↓',
        Action::Move(Dir4::West) => '←',
        Action::Move(Dir4::East) => '→',
        Action::Stall => '.',
    }
}

/// The arrow of a move.
pub fn arrow(a: Action) -> (c: char)
    ensures
        c == spec_arrow(a),
{
    match a {
        Action::Move(Dir4::North) => '↑',
        Action::Move(Dir4::South) => '↓',
        Action::Move(Dir4::West) => '←',
        Action::Move(Dir4::East) => '→',
        Action::Stall => '.',
    }
}

/// Writing a move as its plain character or as its arrow and reading it back gives the move.
pub proof fn law_action_characters_round_trip(a: Action)
    ensures
        spec_ch_to_action(spec_action_to_ch(a)) == Some(a),
        spec_ch_to_action(spec_arrow(a)) == Some(a),
{
}

/// The turns of a path as sequences of moves.
pub open spec fn turns_view(v: Seq<Vec<Action>>) -> Seq<Seq<Action>> {
    v.map_values(|t: Vec<Action>| t@)
}

/// The five moves of one player, in the order north, south, east, west, stand still.
pub open spec fn single_moves() -> Seq<Action> {
    seq![Action::Move(Dir4::North), Action::Move(Dir4::South), Action::Move(Dir4::East), Action::Move(Dir4::West), Action::Stall]
}

/// The moves a turn offers for `nplayers` players: each single move for one player; for
/// two, every pair (first player's move major), or with `mirror` only the five pairs in
/// which the players move alike or mirrored east to west; none for other counts.
pub open spec fn spec_all_action_tuples(nplayers: usize, mirror: bool) -> Option<Seq<Seq<Action>>> {
    if nplayers == 1 {
        Some(Seq::new(5, |i: int| seq![single_moves()[i]]))
    } else if nplayers == 2 && mirror {
        Some(seq![
            seq![Action::Move(Dir4::North), Action::Move(Dir4::North)],
            seq![Action::Move(Dir4::South), Action::Move(Dir4::South)],
            seq![Action::Move(Dir4::East), Action::Move(Dir4::West)],
            seq![Action::Move(Dir4::West), Action::Move(Dir4::East)],
            seq![Action::Stall, Action::Stall],
        ])
    } else if nplayers == 2 {
        Some(Seq::new(25, |i: int| seq![single_moves()[i / 5], single_moves()[i % 5]]))
    } else {
        None
    }
}

/// The five single moves.
fn single_moves_exec() -> (m: [Action; 5])
    ensures
        m@ == single_moves(),
{
    let m = [Action::Move(Dir4::North), Action::Move(Dir4::South), Action::Move(Dir4::East), Action::Move(Dir4::West), Action::Stall];
    proof {
        assert(m@ =~= single_moves());
    }
    m
}

/// The moves a turn offers for `nplayers` players; `None` for player counts other than one
/// or two.
pub fn all_action_tuples(nplayers: usize, mirror: bool) -> (r: Option<Vec<Vec<Action>>>)
    ensures
        match r {
            Some(v) => spec_all_action_tuples(nplayers, mirror) == Some(turns_view(v@)),
            None => spec_all_action_tuples(nplayers, mirror) is None,
        },
{
    let single = single_moves_exec();
    if nplayers == 1 {
        let mut out: Vec<Vec<Action>> = Vec::new();
        let mut i: usize = 0;
        while i < 5
            invariant
                i <= 5,
                single@ == single_moves(),
                out@.len() == i,
                turns_view(out@) == Seq::new(i as nat, |k: int| seq![single_moves()[k]]),
            decreases 5 - i,
        {
            let mut t: Vec<Action> = Vec::new();
            t.push(single[i]);
            proof {
                assert(t@ =~= seq![single_moves()[i as int]]);
            }
            let ghost before = out@;
            out.push(t);
            i = i + 1;
            proof {
                assert forall|k: int| 0 <= k < i implies #[trigger] turns_view(out@)[k] == seq![single_moves()[k]] by {
                    assert(turns_view(out@)[k] == out@[k]@);
                    if k < i - 1 {
                        assert(out@[k] == before[k]);
                        assert(turns_view(before)[k] == before[k]@);
                    }
                }
                assert(turns_view(out@) =~= Seq::new(i as nat, |k: int| seq![single_moves()[k]]));
            }
        }
        return Some(out);
    }
    if nplayers == 2 {
        if mirror {
            let out = vec![
                vec![Action::Move(Dir4::North), Action::Move(Dir4::North)],
                vec![Action::Move(Dir4::South), Action::Move(Dir4::South)],
                vec![Action::Move(Dir4::East), Action::Move(Dir4::West)],
                vec![Action::Move(Dir4::West), Action::Move(Dir4::East)],
                vec![Action::Stall, Action::Stall],
            ];
            proof {
                assert(turns_view(out@) =~= spec_all_action_tuples(nplayers, mirror)->0);
            }
            return Some(out);
        }
        let mut out: Vec<Vec<Action>> = Vec::new();
        let mut a: usize = 0;
        while a < 5
            invariant
                a <= 5,
                single@ == single_moves(),
                out@.len() == a * 5,
                turns_view(out@) == Seq::new((a * 5) as nat, |k: int| seq![single_moves()[k / 5], single_moves()[k % 5]]),
            decreases 5 - a,
        {
            let mut b: usize = 0;
            while b < 5
                invariant
                    a < 5,
                    b <= 5,
                    single@ == single_moves(),
                    out@.len() == a * 5 + b,
                    turns_view(out@) == Seq::new((a * 5 + b) as nat, |k: int| seq![single_moves()[k / 5], single_moves()[k % 5]]),
                decreases 5 - b,
            {
                let mut t: Vec<Action> = Vec::new();
                t.push(single[a]);
                t.push(single[b]);
                proof {
                    assert(t@ =~= seq![single_moves()[a as int], single_moves()[b as int]]);
                }
                let ghost before = out@;
                out.push(t);
                b = b + 1;
                proof {
                    let k = (a * 5 + b - 1) as int;
                    assert(k / 5 == a as int && k % 5 == (b - 1) as int);
                    assert forall|m: int| 0 <= m < a * 5 + b implies #[trigger] turns_view(out@)[m] == seq![single_moves()[m / 5], single_moves()[m % 5]] by {
                        assert(turns_view(out@)[m] == out@[m]@);
                        if m < a * 5 + b - 1 {
                            assert(out@[m] == before[m]);
                            assert(turns_view(before)[m] == before[m]@);
                        }
                    }
                    assert(turns_view(out@) =~= Seq::new((a * 5 + b) as nat, |k: int| seq![single_moves()[k / 5], single_moves()[k % 5]]));
                }
            }
            a = a + 1;
        }
        return Some(out);
    }
    None
}

/// A path written with `f` for each move: nothing for an empty path; for one player one
/// character per turn; otherwise each turn's characters, turns separated by spaces.
pub open spec fn spec_render_path(path: Seq<Seq<Action>>, f: spec_fn(Action) -> char) -> Seq<char> {
    if path.len() == 0 {
        Seq::empty()
    } else if path[0].len() == 1 {
        Seq::new(path.len(), |i: int| f(path[i][0]))
    } else {
        join(Seq::new(path.len(), |i: int| path[i].map_values(f)), seq![' '])
    }
}

/// Whether a path can be written: for one player, every turn has a move.
pub open spec fn path_writable(path: Seq<Seq<Action>>) -> bool {
    path.len() > 0 && path[0].len() == 1 ==> forall|i: int| 0 <= i < path.len() ==> #[trigger] path[i].len() >= 1
}

/// The character of a move, as an arrow or plain.
pub open spec fn move_char(ascii: bool) -> spec_fn(Action) -> char {
    if ascii { |a: Action| spec_action_to_ch(a) } else { |a: Action| spec_arrow(a) }
}

/// Writes a path with arrows, or with plain characters when `ascii`.
fn render_path(path: &[Vec<Action>], ascii: bool) -> (out: Vec<char>)
    requires
        path_writable(turns_view(path@)),
    ensures
        out@ == spec_render_path(turns_view(path@), move_char(ascii)),
{
    let ghost f = move_char(ascii);
    let ghost p = turns_view(path@);
    let mut out: Vec<char> = Vec::new();
    if path.len() == 0 {
        return out;
    }
    let n = path.len();
    if path[0].len() == 1 {
        let mut i: usize = 0;
        while i < n
            invariant
                n == path@.len(),
                i <= n,
                p == turns_view(path@),
                f == move_char(ascii),
                p[0].len() == 1,
                forall|k: int| 0 <= k < p.len() ==> #[trigger] p[k].len() >= 1,
                out@ == Seq::new(i as nat, |k: int| f(p[k][0])),
            decreases n - i,
        {
            proof {
                assert(p[i as int] == path@[i as int]@);
                assert(p[i as int].len() >= 1);
            }
            let a = path[i][0];
            let c = if ascii { action_to_ch(a) } else { arrow(a) };
            out.push(c);
            i = i + 1;
            proof {
                assert(out@ =~= Seq::new(i as nat, |k: int| f(p[k][0])));
            }
        }
        return out;
    }
    let ghost parts = Seq::new(p.len(), |i: int| p[i].map_values(f));
    let mut i: usize = 0;
    while i < n
        invariant
            n == path@.len(),
            n > 0,
            i <= n,
            p == turns_view(path@),
            f == move_char(ascii),
            parts == Seq::new(p.len(), |i: int| p[i].map_values(f)),
            out@ == join(parts.subrange(0, i as int), seq![' ']),
        decreases n - i,
    {
        let turn = &path[i];
        let mut word: Vec<char> = Vec::new();
        let mut j: usize = 0;
        while j < turn.len()
            invariant
                j <= turn@.len(),
                turn@ == p[i as int],
                f == move_char(ascii),
                word@ == turn@.subrange(0, j as int).map_values(f),
            decreases turn@.len() - j,
        {
            let c = if ascii { action_to_ch(turn[j]) } else { arrow(turn[j]) };
            word.push(c);
            j = j + 1;
            proof {
                assert(word@ =~= turn@.subrange(0, j as int).map_values(f));
            }
        }
        proof {
            assert(turn@.subrange(0, turn@.len() as int) =~= turn@);
            assert(word@ == parts[i as int]);
        }
        let sep = [' '];
        proof {
            assert(sep@ =~= seq![' ']);
        }
        append_part(&mut out, &word, &sep, i == 0);
        i = i + 1;
        proof {
            let pre = parts.subrange(0, i as int);
            assert(pre.drop_last() =~= parts.subrange(0, i - 1));
            assert(pre.last() == parts[i - 1]);
            if i == 1 {
                assert(parts.subrange(0, 0) =~= Seq::<Seq<char>>::empty());
                assert(out@ =~= join(pre, seq![' ']));
            }
        }
    }
    proof {
        assert(parts.subrange(0, n as int) =~= parts);
    }
    out
}

/// A path written with arrows: one arrow per turn for one player, otherwise each turn's
/// arrows with turns separated by spaces.
pub fn format_path(path: &[Vec<Action>]) -> (s: String)
    requires
        path_writable(turns_view(path@)),
    ensures
        s@ == spec_render_path(turns_view(path@), |a: Action| spec_arrow(a)),
{
    let out = render_path(path, false);
    string_of(&out)
}

/// A path written with the plain characters `^ v < > .`, laid out as `format_path` does.
pub fn format_path_ascii(path: &[Vec<Action>]) -> (s: String)
    requires
        path_writable(turns_view(path@)),
    ensures
        s@ == spec_render_path(turns_view(path@), |a: Action| spec_action_to_ch(a)),
{
    let out = render_path(path, true);
    string_of(&out)
}

/// The moves that the characters of `w` stand for, in order; other characters are skipped.
pub open spec fn spec_acts(w: Seq<char>) -> Seq<Action>
    decreases w.len(),
{
    if w.len() == 0 {
        Seq::empty()
    } else {
        spec_acts(w.drop_last()) + match spec_ch_to_action(w.last()) {
            Some(a) => seq![a],
            None => Seq::empty(),
        }
    }
}

/// The pieces of `s` between white space characters, empty pieces included.
pub open spec fn pieces(s: Seq<char>) -> Seq<Seq<char>>
    decreases s.len(),
{
    if s.len() == 0 {
        seq![Seq::empty()]
    } else {
        let p = pieces(s.drop_last());
        if is_ws(s.last()) {
            p.push(Seq::empty())
        } else {
            p.update(p.len() - 1, p.last().push(s.last()))
        }
    }
}

/// The turns read from the listed pieces: each non-empty piece whose moves number `n`.
pub open spec fn keep_turns(ws: Seq<Seq<char>>, n: usize) -> Seq<Seq<Action>>
    decreases ws.len(),
{
    if ws.len() == 0 {
        Seq::empty()
    } else {
        keep_turns(ws.drop_last(), n) + (if ws.last().len() > 0 && spec_acts(ws.last()).len() == n {
            seq![spec_acts(ws.last())]
        } else {
            Seq::empty()
        })
    }
}

/// The turns an action string gives for `nplayers` players: for one player each move
/// character is a turn of its own; otherwise the string's words (runs without white space)
/// are the turns, each kept only when it holds exactly `nplayers` moves.
pub open spec fn spec_parse_action_string(s: Seq<char>, nplayers: usize) -> Seq<Seq<Action>> {
    if nplayers == 1 {
        spec_acts(s).map_values(|a: Action| seq![a])
    } else {
        keep_turns(pieces(s), nplayers)
    }
}

/// A character that reads as the move it writes, and is no white space.
pub open spec fn writes_move(f: spec_fn(Action) -> char) -> bool {
    forall|a: Action| spec_ch_to_action(#[trigger] f(a)) == Some(a) && !is_ws(f(a))
}

/// Both ways of writing moves read back and hold no white space.
proof fn lemma_move_chars_write_moves()
    ensures
        writes_move(|a: Action| spec_action_to_ch(a)),
        writes_move(|a: Action| spec_arrow(a)),
{
    let f = |a: Action| spec_action_to_ch(a);
    let g = |a: Action| spec_arrow(a);
    assert forall|a: Action| spec_ch_to_action(#[trigger] f(a)) == Some(a) && !is_ws(f(a)) by {
        law_action_characters_round_trip(a);
    }
    assert forall|a: Action| spec_ch_to_action(#[trigger] g(a)) == Some(a) && !is_ws(g(a)) by {
        law_action_characters_round_trip(a);
    }
}

/// Reading the moves of two pieces one after the other.
proof fn lemma_acts_concat(a: Seq<char>, b: Seq<char>)
    ensures
        spec_acts(a + b) == spec_acts(a) + spec_acts(b),
    decreases b.len(),
{
    if b.len() == 0 {
        assert(a + b =~= a);
        assert(spec_acts(b) =~= Seq::<Action>::empty());
        assert(spec_acts(a) + spec_acts(b) =~= spec_acts(a));
    } else {
        assert((a + b).drop_last() =~= a + b.drop_last());
        assert((a + b).last() == b.last());
        lemma_acts_concat(a, b.drop_last());
        let tail = match spec_ch_to_action(b.last()) { Some(x) => seq![x], None => Seq::<Action>::empty() };
        assert(spec_acts(a) + spec_acts(b.drop_last()) + tail =~= spec_acts(a) + (spec_acts(b.drop_last()) + tail));
    }
}

/// The written moves of a turn read back as the turn.
proof fn lemma_acts_of_written(t: Seq<Action>, f: spec_fn(Action) -> char)
    requires
        writes_move(f),
    ensures
        spec_acts(t.map_values(f)) == t,
    decreases t.len(),
{
    if t.len() > 0 {
        assert(t.map_values(f).drop_last() =~= t.drop_last().map_values(f));
        assert(t.map_values(f).last() == f(t.last()));
        lemma_acts_of_written(t.drop_last(), f);
        assert(spec_ch_to_action(f(t.last())) == Some(t.last()));
        assert(t.drop_last().push(t.last()) =~= t);
    } else {
        assert(t.map_values(f) =~= Seq::<char>::empty());
    }
}

/// A piece free of white space extends the last piece.
proof fn lemma_pieces_word(x: Seq<char>, w: Seq<char>)
    requires
        forall|i: int| 0 <= i < w.len() ==> !is_ws(#[trigger] w[i]),
    ensures
        pieces(x + w) == pieces(x).update(pieces(x).len() - 1, pieces(x).last() + w),
    decreases w.len(),
{
    lemma_pieces_len(x);
    if w.len() == 0 {
        assert(x + w =~= x);
        assert(pieces(x).last() + w =~= pieces(x).last());
        assert(pieces(x).update(pieces(x).len() - 1, pieces(x).last()) =~= pieces(x));
    } else {
        let v = w.drop_last();
        lemma_pieces_word(x, v);
        assert((x + w).drop_last() =~= x + v);
        assert((x + w).last() == w.last());
        assert(!is_ws(w[w.len() - 1]));
        let p = pieces(x + v);
        assert(p.last() == pieces(x).last() + v);
        assert(pieces(x).last() + v + seq![w.last()] =~= pieces(x).last() + w);
        let q = pieces(x);
        assert(p.len() == q.len());
        assert(p.last().push(w.last()) =~= q.last() + w);
        assert forall|i: int| 0 <= i < q.len() - 1 implies p[i] == q[i] by {
            assert(p[i] == q.update(q.len() - 1, q.last() + v)[i]);
        }
        assert(p.update(p.len() - 1, p.last().push(w.last())) =~= q.update(q.len() - 1, q.last() + w));
    }
}

/// A white space character starts a new, empty piece.
proof fn lemma_pieces_space(x: Seq<char>)
    ensures
        pieces(x + seq![' ']) == pieces(x).push(Seq::empty()),
{
    assert((x + seq![' ']).drop_last() =~= x);
    assert((x + seq![' ']).last() == ' ');
}

/// Words free of white space, joined by spaces, come apart into the same words.
proof fn lemma_pieces_join(words: Seq<Seq<char>>)
    requires
        words.len() >= 1,
        forall|k: int, i: int| 0 <= k < words.len() && 0 <= i < words[k].len() ==> !is_ws(#[trigger] words[k][i]),
    ensures
        pieces(join(words, seq![' '])) == words,
    decreases words.len(),
{
    if words.len() == 1 {
        assert(forall|i: int| 0 <= i < words[0].len() ==> !is_ws(#[trigger] words[0][i]));
        lemma_pieces_word(Seq::empty(), words[0]);
        assert(Seq::<char>::empty() + words[0] =~= words[0]);
        assert(pieces(Seq::<char>::empty()) == seq![Seq::<char>::empty()]);
        assert(seq![Seq::<char>::empty()].update(0, Seq::<char>::empty() + words[0]) =~= words);
    } else {
        let front = words.drop_last();
        let w = words.last();
        assert forall|k: int, i: int| 0 <= k < front.len() && 0 <= i < front[k].len() implies !is_ws(#[trigger] front[k][i]) by {
            assert(front[k] == words[k]);
        }
        lemma_pieces_join(front);
        let x = join(front, seq![' ']);
        lemma_pieces_space(x);
        assert(forall|i: int| 0 <= i < w.len() ==> !is_ws(#[trigger] w[i])) by {
            assert forall|i: int| 0 <= i < w.len() implies !is_ws(#[trigger] w[i]) by {
                assert(w == words[words.len() - 1]);
            }
        }
        lemma_pieces_word(x + seq![' '], w);
        assert(join(words, seq![' ']) == x + seq![' '] + w);
        let p = front.push(Seq::<char>::empty());
        assert(p.last() + w =~= w);
        assert(p.update(p.len() - 1, p.last() + w) =~= words);
    }
}

/// Each non-empty word reading as a turn of `n` moves is kept, in order.
proof fn lemma_keep_all(words: Seq<Seq<char>>, path: Seq<Seq<Action>>, n: usize)
    requires
        words.len() == path.len(),
        forall|k: int| 0 <= k < words.len() ==> (#[trigger] words[k]).len() > 0 && spec_acts(words[k]) == path[k]
            && path[k].len() == n,
    ensures
        keep_turns(words, n) == path,
    decreases words.len(),
{
    if words.len() > 0 {
        let k = words.len() - 1;
        assert(words[k].len() > 0);
        lemma_keep_all(words.drop_last(), path.drop_last(), n);
        assert(path.drop_last().push(path[k]) =~= path);
    } else {
        assert(path =~= Seq::<Seq<Action>>::empty());
    }
}

/// A path of one or two players, written with `f`, reads back as the path.
proof fn lemma_written_path_reads_back(path: Seq<Seq<Action>>, n: usize, f: spec_fn(Action) -> char)
    requires
        n == 1 || n == 2,
        forall|i: int| 0 <= i < path.len() ==> (#[trigger] path[i]).len() == n,
        writes_move(f),
    ensures
        spec_parse_action_string(spec_render_path(path, f), n) == path,
{
    if path.len() == 0 {
        assert(spec_render_path(path, f) =~= Seq::<char>::empty());
        if n == 1 {
            assert(spec_acts(Seq::<char>::empty()) =~= Seq::<Action>::empty());
            assert(spec_acts(Seq::<char>::empty()).map_values(|a: Action| seq![a]) =~= path);
        } else {
            assert(pieces(Seq::<char>::empty()) == seq![Seq::<char>::empty()]);
            assert(seq![Seq::<char>::empty()].drop_last() =~= Seq::<Seq<char>>::empty());
            let one = seq![Seq::<char>::empty()];
            assert(one.last() == Seq::<char>::empty());
            assert(one.last().len() == 0);
            assert(keep_turns(one.drop_last(), n) =~= Seq::<Seq<Action>>::empty());
            assert(keep_turns(one, n) =~= path);
        }
    } else if n == 1 {
        assert(path[0].len() == 1);
        let heads = Seq::new(path.len(), |i: int| path[i][0]);
        assert(spec_render_path(path, f) =~= heads.map_values(f));
        lemma_acts_of_written(heads, f);
        let single = heads.map_values(|a: Action| seq![a]);
        assert forall|i: int| 0 <= i < path.len() implies #[trigger] single[i] == path[i] by {
            assert(path[i].len() == 1);
            assert(seq![path[i][0]] =~= path[i]);
        }
        assert(single =~= path);
    } else {
        assert(path[0].len() == 2);
        let words = Seq::new(path.len(), |i: int| path[i].map_values(f));
        assert forall|k: int, i: int| 0 <= k < words.len() && 0 <= i < words[k].len() implies !is_ws(#[trigger] words[k][i]) by {
            assert(words[k][i] == f(path[k][i]));
        }
        lemma_pieces_join(words);
        assert forall|k: int| 0 <= k < words.len() implies (#[trigger] words[k]).len() > 0 && spec_acts(words[k]) == path[k]
            && path[k].len() == n by {
            lemma_acts_of_written(path[k], f);
        }
        lemma_keep_all(words, path, n);
    }
}

/// Writing a path of one or two players, with arrows or with plain characters, and reading
/// the text back gives the path again.
pub proof fn law_path_text_round_trip(path: Seq<Seq<Action>>, n: usize)
    requires
        n == 1 || n == 2,
        forall|i: int| 0 <= i < path.len() ==> (#[trigger] path[i]).len() == n,
    ensures
        spec_parse_action_string(spec_render_path(path, |a: Action| spec_action_to_ch(a)), n) == path,
        spec_parse_action_string(spec_render_path(path, |a: Action| spec_arrow(a)), n) == path,
{
    lemma_move_chars_write_moves();
    lemma_written_path_reads_back(path, n, |a: Action| spec_action_to_ch(a));
    lemma_written_path_reads_back(path, n, |a: Action| spec_arrow(a));
}

/// `pieces` always lists at least one piece.
proof fn lemma_pieces_len(s: Seq<char>)
    ensures
        pieces(s).len() >= 1,
    decreases s.len(),
{
    if s.len() > 0 {
        lemma_pieces_len(s.drop_last());
    }
}

/// Reads the turns of an action string; see `spec_parse_action_string`.
pub fn parse_action_string(action_str: &str, nplayers: usize) -> (turns: Vec<Vec<Action>>)
    ensures
        turns_view(turns@) == spec_parse_action_string(action_str@, nplayers),
{
    let chars = chars_of(action_str);
    let n = chars.len();
    let mut out: Vec<Vec<Action>> = Vec::new();
    if nplayers == 1 {
        let mut i: usize = 0;
        while i < n
            invariant
                n == chars@.len(),
                i <= n,
                out@.len() == spec_acts(chars@.subrange(0, i as int)).len(),
                turns_view(out@) == spec_acts(chars@.subrange(0, i as int)).map_values(|a: Action| seq![a]),
            decreases n - i,
        {
            let ghost pre = chars@.subrange(0, i as int);
            let ghost before = out@;
            if let Some(a) = ch_to_action(chars[i]) {
                let mut t: Vec<Action> = Vec::new();
                t.push(a);
                proof {
                    assert(t@ =~= seq![a]);
                }
                out.push(t);
            }
            i = i + 1;
            proof {
                let cur = chars@.subrange(0, i as int);
                assert(cur.drop_last() =~= pre);
                let m = spec_acts(cur).map_values(|a: Action| seq![a]);
                assert forall|k: int| 0 <= k < out@.len() implies #[trigger] turns_view(out@)[k] == m[k] by {
                    assert(turns_view(out@)[k] == out@[k]@);
                    if k < before.len() {
                        assert(out@[k] == before[k]);
                        assert(turns_view(before)[k] == before[k]@);
                    }
                }
                assert(turns_view(out@) =~= m);
            }
        }
        proof {
            assert(chars@.subrange(0, n as int) =~= chars@);
        }
        return out;
    }
    let mut cur: Vec<Action> = Vec::new();
    let mut nonempty = false;
    let mut i: usize = 0;
    while i < n
        invariant
            n == chars@.len(),
            i <= n,
            nplayers != 1,
            pieces(chars@.subrange(0, i as int)).len() >= 1,
            turns_view(out@) == keep_turns(pieces(chars@.subrange(0, i as int)).drop_last(), nplayers),
            cur@ == spec_acts(pieces(chars@.subrange(0, i as int)).last()),
            nonempty == (pieces(chars@.subrange(0, i as int)).last().len() > 0),
        decreases n - i,
    {
        let ghost pre = chars@.subrange(0, i as int);
        let ghost p = pieces(pre);
        let c = chars[i];
        if is_whitespace(c) {
            if nonempty && cur.len() == nplayers {
                out.push(cur);
            }
            cur = Vec::new();
            nonempty = false;
        } else {
            nonempty = true;
            if let Some(a) = ch_to_action(c) {
                cur.push(a);
            }
        }
        i = i + 1;
        proof {
            let next = chars@.subrange(0, i as int);
            assert(next.drop_last() =~= pre);
            assert(next.last() == c);
            let q = pieces(next);
            if is_ws(c) {
                assert(q == p.push(Seq::empty()));
                assert(q.drop_last() =~= p);
                assert(turns_view(out@) =~= keep_turns(q.drop_last(), nplayers));
                assert(cur@ =~= spec_acts(q.last()));
            } else {
                assert(q == p.update(p.len() - 1, p.last().push(c)));
                assert(q.drop_last() =~= p.drop_last());
                assert(q.last() == p.last().push(c));
                assert(p.last().push(c).drop_last() =~= p.last());
                assert(cur@ =~= spec_acts(q.last()));
            }
        }
    }
    proof {
        assert(chars@.subrange(0, n as int) =~= chars@);
    }
    let ghost p = pieces(chars@);
    if nonempty && cur.len() == nplayers {
        out.push(cur);
    }
    proof {
        assert(turns_view(out@) =~= keep_turns(p, nplayers));
    }
    out
}

/// The characters of one turn's moves for the step log: for one player the first move's
/// character, or `.` when there is none; otherwise every move's character.
pub open spec fn spec_action_text(actions: Seq<Action>, nplayers: usize) -> Seq<char> {
    if nplayers == 1 {
        if actions.len() == 0 { seq!['.'] } else { seq![spec_action_to_ch(actions[0])] }
    } else {
        actions.map_values(|a: Action| spec_action_to_ch(a))
    }
}

/// The characters of one turn's moves; see `spec_action_text`.
pub fn action_text(actions: &[Action], nplayers: usize) -> (s: String)
    ensures
        s@ == spec_action_text(actions@, nplayers),
{
    let mut out: Vec<char> = Vec::new();
    if nplayers == 1 {
        if actions.len() == 0 {
            out.push('.');
        } else {
            out.push(action_to_ch(actions[0]));
        }
        proof {
            assert(out@ =~= spec_action_text(actions@, nplayers));
        }
        return string_of(&out);
    }
    let mut i: usize = 0;
    while i < actions.len()
        invariant
            i <= actions@.len(),
            out@ == actions@.subrange(0, i as int).map_values(|a: Action| spec_action_to_ch(a)),
        decreases actions@.len() - i,
    {
        out.push(action_to_ch(actions[i]));
        i = i + 1;
        proof {
            assert(out@ =~= actions@.subrange(0, i as int).map_values(|a: Action| spec_action_to_ch(a)));
        }
    }
    proof {
        assert(actions@.subrange(0, actions@.len() as int) =~= actions@);
    }
    string_of(&out)
}

} // verus!
