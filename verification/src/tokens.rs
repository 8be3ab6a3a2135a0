//! The tokens of a board written as comma separated text, and short texts for logs.

use vstd::prelude::*;
use crate::text::{chars_of, string_of, join, join_parts, parts_view, append_part, spec_decimal, decimal_chars};

verus! {

/// The text of a table of tokens: each row's tokens joined by commas, rows joined by line
/// breaks, and a final line break.
pub open spec fn spec_tokens_to_csv(tokens: Seq<Vec<String>>) -> Seq<char> {
    join(Seq::new(tokens.len(), |i: int| join(tokens[i]@.map_values(|t: String| t@), seq![','])), seq!['\n']) + seq!['\n']
}

/// Writes a table of tokens as comma separated text; see `spec_tokens_to_csv`.
pub fn tokens_to_csv(tokens: &[Vec<String>]) -> (csv: String)
    ensures
        csv@ == spec_tokens_to_csv(tokens@),
{
    let ghost rows_spec = Seq::new(tokens@.len(), |i: int| join(tokens@[i]@.map_values(|t: String| t@), seq![',']));
    let comma = [','];
    proof {
        assert(comma@ =~= seq![',']);
    }
    let mut rows: Vec<Vec<char>> = Vec::new();
    let mut r: usize = 0;
    while r < tokens.len()
        invariant
            r <= tokens@.len(),
            comma@ == seq![','],
            rows_spec == Seq::new(tokens@.len(), |i: int| join(tokens@[i]@.map_values(|t: String| t@), seq![','])),
            rows@.len() == r,
            forall|i: int| 0 <= i < r ==> #[trigger] rows@[i]@ == rows_spec[i],
        decreases tokens@.len() - r,
    {
        let row = &tokens[r];
        let mut cells: Vec<Vec<char>> = Vec::new();
        let mut c: usize = 0;
        while c < row.len()
            invariant
                c <= row@.len(),
                cells@.len() == c,
                forall|k: int| 0 <= k < c ==> #[trigger] cells@[k]@ == row@[k]@,
            decreases row@.len() - c,
        {
            cells.push(chars_of(row[c].as_str()));
            c = c + 1;
        }
        let line = join_parts(&cells, &comma);
        proof {
            assert(parts_view(cells@) =~= row@.map_values(|t: String| t@));
        }
        rows.push(line);
        r = r + 1;
    }
    let newline = ['\n'];
    proof {
        assert(newline@ =~= seq!['\n']);
        assert(parts_view(rows@) =~= rows_spec);
    }
    let mut out = join_parts(&rows, &newline);
    out.push('\n');
    string_of(&out)
}

/// The pieces of `s` between occurrences of `c`, empty pieces included.
pub open spec fn split_on(s: Seq<char>, c: char) -> Seq<Seq<char>>
    decreases s.len(),
{
    if s.len() == 0 {
        seq![Seq::empty()]
    } else {
        let p = split_on(s.drop_last(), c);
        if s.last() == c {
            p.push(Seq::empty())
        } else {
            p.update(p.len() - 1, p.last().push(s.last()))
        }
    }
}

/// `c` does not occur in `s`.
pub open spec fn free_of(s: Seq<char>, c: char) -> bool {
    forall|i: int| 0 <= i < s.len() ==> #[trigger] s[i] != c
}

/// Splitting always gives at least one piece.
proof fn lemma_split_len(s: Seq<char>, c: char)
    ensures
        split_on(s, c).len() >= 1,
    decreases s.len(),
{
    if s.len() > 0 {
        lemma_split_len(s.drop_last(), c);
    }
}

/// Characters other than `c` extend the last piece.
proof fn lemma_split_word(x: Seq<char>, w: Seq<char>, c: char)
    requires
        free_of(w, c),
    ensures
        split_on(x + w, c) == split_on(x, c).update(split_on(x, c).len() - 1, split_on(x, c).last() + w),
    decreases w.len(),
{
    lemma_split_len(x, c);
    let q = split_on(x, c);
    if w.len() == 0 {
        assert(x + w =~= x);
        assert(q.last() + w =~= q.last());
        assert(q.update(q.len() - 1, q.last()) =~= q);
    } else {
        let v = w.drop_last();
        lemma_split_word(x, v, c);
        assert((x + w).drop_last() =~= x + v);
        assert((x + w).last() == w.last());
        assert(w[w.len() - 1] != c);
        let p = split_on(x + v, c);
        assert(p.len() == q.len());
        assert(p.last() == q.last() + v);
        assert(p.last().push(w.last()) =~= q.last() + w);
        assert forall|i: int| 0 <= i < q.len() - 1 implies p[i] == q[i] by {
            assert(p[i] == q.update(q.len() - 1, q.last() + v)[i]);
        }
        assert(p.update(p.len() - 1, p.last().push(w.last())) =~= q.update(q.len() - 1, q.last() + w));
    }
}

/// The separator starts a new, empty piece.
proof fn lemma_split_sep(x: Seq<char>, c: char)
    ensures
        split_on(x + seq![c], c) == split_on(x, c).push(Seq::empty()),
{
    assert((x + seq![c]).drop_last() =~= x);
    assert((x + seq![c]).last() == c);
}

/// Parts free of `c`, joined by `c`, split back into the same parts.
pub proof fn lemma_split_join(parts: Seq<Seq<char>>, c: char)
    requires
        parts.len() >= 1,
        forall|k: int| 0 <= k < parts.len() ==> free_of(#[trigger] parts[k], c),
    ensures
        split_on(join(parts, seq![c]), c) == parts,
    decreases parts.len(),
{
    if parts.len() == 1 {
        assert(free_of(parts[0], c));
        lemma_split_word(Seq::empty(), parts[0], c);
        assert(Seq::<char>::empty() + parts[0] =~= parts[0]);
        assert(split_on(Seq::<char>::empty(), c) == seq![Seq::<char>::empty()]);
        assert(seq![Seq::<char>::empty()].update(0, Seq::<char>::empty() + parts[0]) =~= parts);
    } else {
        let front = parts.drop_last();
        let w = parts.last();
        assert forall|k: int| 0 <= k < front.len() implies free_of(#[trigger] front[k], c) by {
            assert(front[k] == parts[k]);
        }
        lemma_split_join(front, c);
        let x = join(front, seq![c]);
        lemma_split_sep(x, c);
        assert(free_of(w, c)) by {
            assert(w == parts[parts.len() - 1]);
        }
        lemma_split_word(x + seq![c], w, c);
        let p = front.push(Seq::<char>::empty());
        assert(p.last() + w =~= w);
        assert(p.update(p.len() - 1, p.last() + w) =~= parts);
    }
}

/// Parts and a separator free of `d` join into text free of `d`.
proof fn lemma_join_free(parts: Seq<Seq<char>>, sep: Seq<char>, d: char)
    requires
        free_of(sep, d),
        forall|k: int| 0 <= k < parts.len() ==> free_of(#[trigger] parts[k], d),
    ensures
        free_of(join(parts, sep), d),
    decreases parts.len(),
{
    if parts.len() == 1 {
        assert(free_of(parts[0], d));
    } else if parts.len() > 1 {
        let front = parts.drop_last();
        assert forall|k: int| 0 <= k < front.len() implies free_of(#[trigger] front[k], d) by {
            assert(front[k] == parts[k]);
        }
        lemma_join_free(front, sep, d);
        assert(free_of(parts.last(), d)) by {
            assert(parts.last() == parts[parts.len() - 1]);
        }
        let a = join(front, sep);
        let t = a + sep + parts.last();
        assert forall|i: int| 0 <= i < t.len() implies #[trigger] t[i] != d by {
            if i < a.len() {
                assert(t[i] == a[i]);
            } else if i < a.len() + sep.len() {
                assert(t[i] == sep[i - a.len()]);
            } else {
                assert(t[i] == parts.last()[i - a.len() - sep.len()]);
            }
        }
    }
}

/// The text of a table whose rows each hold at least one token, and whose tokens hold no
/// comma and no line break, ends with a line break; before it, the text splits at line
/// breaks into one line per row, and each line splits at commas into that row's tokens.
pub proof fn law_csv_splits_back(tokens: Seq<Vec<String>>)
    requires
        tokens.len() >= 1,
        forall|r: int| 0 <= r < tokens.len() ==> (#[trigger] tokens[r])@.len() >= 1,
        forall|r: int, k: int| 0 <= r < tokens.len() && 0 <= k < tokens[r]@.len() ==>
            free_of((#[trigger] tokens[r]@[k])@, ',') && free_of(tokens[r]@[k]@, '\n'),
    ensures
        spec_tokens_to_csv(tokens).last() == '\n',
        split_on(spec_tokens_to_csv(tokens).drop_last(), '\n').len() == tokens.len(),
        forall|r: int| 0 <= r < tokens.len() ==> split_on(
            #[trigger] split_on(spec_tokens_to_csv(tokens).drop_last(), '\n')[r], ',')
            == tokens[r]@.map_values(|t: String| t@),
{
    let rows = Seq::new(tokens.len(), |i: int| join(tokens[i]@.map_values(|t: String| t@), seq![',']));
    let text = join(rows, seq!['\n']);
    assert(spec_tokens_to_csv(tokens).drop_last() =~= text);
    assert forall|r: int| 0 <= r < rows.len() implies free_of(#[trigger] rows[r], '\n')
        && split_on(rows[r], ',') == tokens[r]@.map_values(|t: String| t@) by {
        let cells = tokens[r]@.map_values(|t: String| t@);
        assert forall|k: int| 0 <= k < cells.len() implies free_of(#[trigger] cells[k], ',') && free_of(cells[k], '\n') by {
            assert(cells[k] == tokens[r]@[k]@);
        }
        assert(free_of(seq![','], '\n'));
        lemma_join_free(cells, seq![','], '\n');
        lemma_split_join(cells, ',');
    }
    lemma_split_join(rows, '\n');
}

/// The symbols a player's cell shows, one per facing.
pub open spec fn is_player_symbol(c: char) -> bool {
    c == '▲' || c == '▼' || c == '►' || c == '◄' || c == '△' || c == '▽' || c == '▷' || c == '◁'
}

/// Whether a board token shows a player: one of the triangles of either player.
pub fn is_player_token(token: &str) -> (b: bool)
    ensures
        b == (token@.len() == 1 && is_player_symbol(token@[0])),
{
    let cs = chars_of(token);
    cs.len() == 1 && {
        let c = cs[0];
        c == '▲' || c == '▼' || c == '►' || c == '◄' || c == '△' || c == '▽' || c == '▷' || c == '◁'
    }
}

/// Whether a board token is a floor a mutation may change: `.` or `w`.
pub fn is_mutation_floor(token: &str) -> (b: bool)
    ensures
        b == (token@ == seq!['.'] || token@ == seq!['w']),
{
    let cs = chars_of(token);
    let r = cs.len() == 1 && (cs[0] == '.' || cs[0] == 'w');
    proof {
        if cs@.len() == 1 {
            if cs@[0] == '.' {
                assert(token@ =~= seq!['.']);
            }
            if cs@[0] == 'w' {
                assert(token@ =~= seq!['w']);
            }
        }
    }
    r
}

/// The symbols of player `index` facing north, south, east and west: filled triangles for
/// the first player, hollow ones for the second; none for other players.
pub open spec fn spec_player_symbols(index: usize) -> Option<Seq<char>> {
    if index == 0 {
        Some(seq!['▲', '▼', '►', '◄'])
    } else if index == 1 {
        Some(seq!['△', '▽', '▷', '◁'])
    } else {
        None
    }
}

/// The symbols of player `index` facing north, south, east and west; `None` past the second
/// player.
pub fn player_symbols_for_index(index: usize) -> (r: Option<[&'static str; 4]>)
    ensures
        r is Some <==> spec_player_symbols(index) is Some,
        r matches Some(a) ==> forall|k: int| 0 <= k < 4 ==> #[trigger] a@[k]@ == seq![spec_player_symbols(index)->0[k]],
{
    if index == 0 {
        let a = ["▲", "▼", "►", "◄"];
        proof {
            reveal_strlit("▲");
            reveal_strlit("▼");
            reveal_strlit("►");
            reveal_strlit("◄");
            assert(a@[0]@ =~= seq!['▲']);
            assert(a@[1]@ =~= seq!['▼']);
            assert(a@[2]@ =~= seq!['►']);
            assert(a@[3]@ =~= seq!['◄']);
        }
        Some(a)
    } else if index == 1 {
        let a = ["△", "▽", "▷", "◁"];
        proof {
            reveal_strlit("△");
            reveal_strlit("▽");
            reveal_strlit("▷");
            reveal_strlit("◁");
            assert(a@[0]@ =~= seq!['△']);
            assert(a@[1]@ =~= seq!['▽']);
            assert(a@[2]@ =~= seq!['▷']);
            assert(a@[3]@ =~= seq!['◁']);
        }
        Some(a)
    } else {
        None
    }
}

/// A position written as `(x,y)`.
pub open spec fn position_text(p: (usize, usize)) -> Seq<char> {
    seq!['('] + spec_decimal(p.0 as nat) + seq![','] + spec_decimal(p.1 as nat) + seq![')']
}

/// Positions written as `(x,y)` and joined by commas.
pub open spec fn spec_format_positions(positions: Seq<(usize, usize)>) -> Seq<char> {
    join(positions.map_values(|p: (usize, usize)| position_text(p)), seq![','])
}

/// Writes positions as `(x,y)` joined by commas.
pub fn format_positions(positions: &[(usize, usize)]) -> (s: String)
    ensures
        s@ == spec_format_positions(positions@),
{
    let mut parts: Vec<Vec<char>> = Vec::new();
    let mut i: usize = 0;
    while i < positions.len()
        invariant
            i <= positions@.len(),
            parts@.len() == i,
            forall|k: int| 0 <= k < i ==> #[trigger] parts@[k]@ == position_text(positions@[k]),
        decreases positions@.len() - i,
    {
        let (x, y) = positions[i];
        let mut t: Vec<char> = Vec::new();
        t.push('(');
        let comma = [','];
        append_part(&mut t, &decimal_chars(x as u64), &comma, true);
        append_part(&mut t, &decimal_chars(y as u64), &comma, false);
        t.push(')');
        proof {
            assert(t@ =~= position_text(positions@[i as int]));
        }
        parts.push(t);
        i = i + 1;
    }
    let comma = [','];
    proof {
        assert(comma@ =~= seq![',']);
        assert(parts_view(parts@) =~= positions@.map_values(|p: (usize, usize)| position_text(p)));
    }
    let out = join_parts(&parts, &comma);
    string_of(&out)
}

} // verus!
