//! Parsing of the solver's small textual arguments: names, points, counts and lists.

use vstd::prelude::*;
use crate::model::{CellKind, Dir4};
use crate::text::{trim, split, spec_parse_in, chars_of, trim_chars, split_chars, parse_i32, parse_i64, parse_usize, parse_u8, eq_lit};

verus! {

/// ASCII lower case of one character.
pub open spec fn lower_char(c: char) -> char {
    if 'A' <= c && c <= 'Z' { ((c as u32) + 32) as char } else { c }
}

/// ASCII lower case of a string, as `str::to_ascii_lowercase` gives it.
pub open spec fn lower(s: Seq<char>) -> Seq<char> {
    s.map_values(|c: char| lower_char(c))
}

/// ASCII lower case of one character.
pub fn ascii_lower(c: char) -> (l: char)
    ensures
        l == lower_char(c),
{
    if 'A' <= c && c <= 'Z' {
        ((c as u8) + 32) as char
    } else {
        c
    }
}

/// ASCII lower case of a string.
pub fn lower_chars(s: &[char]) -> (l: Vec<char>)
    ensures
        l@ == lower(s@),
{
    let mut l: Vec<char> = Vec::new();
    let mut i: usize = 0;
    while i < s.len()
        invariant
            i <= s@.len(),
            l@ == lower(s@.subrange(0, i as int)),
        decreases s@.len() - i,
    {
        l.push(ascii_lower(s[i]));
        i = i + 1;
        proof {
            assert(l@ =~= lower(s@.subrange(0, i as int)));
        }
    }
    proof {
        assert(s@.subrange(0, s@.len() as int) =~= s@);
    }
    l
}

/// Integer fields as `str::parse` reads them.
pub open spec fn p_i32(s: Seq<char>) -> Option<int> {
    spec_parse_in(s, true, i32::MIN as int, i32::MAX as int)
}

pub open spec fn p_i64(s: Seq<char>) -> Option<int> {
    spec_parse_in(s, true, i64::MIN as int, i64::MAX as int)
}

pub open spec fn p_usize(s: Seq<char>) -> Option<int> {
    spec_parse_in(s, false, 0, usize::MAX as int)
}

pub open spec fn p_u8(s: Seq<char>) -> Option<int> {
    spec_parse_in(s, false, 0, 255)
}

/// A direction named by a letter, a word, an arrow or a screen direction.
pub open spec fn spec_dir4_name(s: Seq<char>) -> Option<Dir4> {
    if s == "n"@ || s == "north"@ || s == "^"@ || s == "up"@ {
        Some(Dir4::North)
    } else if s == "s"@ || s == "south"@ || s == "v"@ || s == "down"@ {
        Some(Dir4::South)
    } else if s == "e"@ || s == "east"@ || s == ">"@ || s == "right"@ {
        Some(Dir4::East)
    } else if s == "w"@ || s == "west"@ || s == "<"@ || s == "left"@ {
        Some(Dir4::West)
    } else {
        None
    }
}

/// Reads a direction name; `None` for an unknown name.
pub fn parse_dir4_chars(s: &[char]) -> (r: Option<Dir4>)
    ensures
        r == spec_dir4_name(s@),
{
    if eq_lit(s, "n") || eq_lit(s, "north") || eq_lit(s, "^") || eq_lit(s, "up") {
        Some(Dir4::North)
    } else if eq_lit(s, "s") || eq_lit(s, "south") || eq_lit(s, "v") || eq_lit(s, "down") {
        Some(Dir4::South)
    } else if eq_lit(s, "e") || eq_lit(s, "east") || eq_lit(s, ">") || eq_lit(s, "right") {
        Some(Dir4::East)
    } else if eq_lit(s, "w") || eq_lit(s, "west") || eq_lit(s, "<") || eq_lit(s, "left") {
        Some(Dir4::West)
    } else {
        None
    }
}

/// Reads a direction name; `None` for an unknown name.
pub fn parse_dir4_name(input: &str) -> (r: Option<Dir4>)
    ensures
        r == spec_dir4_name(input@),
{
    let s = chars_of(input);
    parse_dir4_chars(s.as_slice())
}

/// A cell kind named by a word or its board symbol, in any ASCII case; a trigger is named by
/// its number, with or without the word `trigger` before it.
pub open spec fn spec_cell_kind_name(s: Seq<char>) -> Option<CellKind> {
    let l = lower(s);
    if l == "empty"@ || l == "."@ {
        Some(CellKind::Empty)
    } else if l == "wall"@ || l == "#"@ {
        Some(CellKind::Wall)
    } else if l == "player"@ || l == "p"@ {
        Some(CellKind::Player)
    } else if l == "rat"@ || l == "r"@ {
        Some(CellKind::Rat)
    } else if l == "cyborg"@ || l == "cyborgrat"@ || l == "c"@ {
        Some(CellKind::CyborgRat)
    } else if l == "plank"@ || l == "="@ {
        Some(CellKind::Plank)
    } else if l == "web"@ || l == "spiderweb"@ || l == "w"@ {
        Some(CellKind::Spiderweb)
    } else if l == "blackhole"@ || l == "hole"@ || l == "o"@ {
        Some(CellKind::BlackHole)
    } else if l == "explosive"@ || l == "x"@ {
        Some(CellKind::Explosive)
    } else if l.len() >= 7 && l.subrange(0, 7) == "trigger"@ {
        match p_u8(l.subrange(7, l.len() as int)) {
            Some(n) => Some(CellKind::Trigger(n as u8)),
            None => None,
        }
    } else {
        match p_u8(l) {
            Some(n) => Some(CellKind::Trigger(n as u8)),
            None => None,
        }
    }
}

/// Reads a cell kind name; `None` for an unknown name or a bad trigger number.
pub fn parse_cell_kind_chars(s: &[char]) -> (r: Option<CellKind>)
    ensures
        r == spec_cell_kind_name(s@),
{
    let l = lower_chars(s);
    let l = l.as_slice();
    if eq_lit(l, "empty") || eq_lit(l, ".") {
        Some(CellKind::Empty)
    } else if eq_lit(l, "wall") || eq_lit(l, "#") {
        Some(CellKind::Wall)
    } else if eq_lit(l, "player") || eq_lit(l, "p") {
        Some(CellKind::Player)
    } else if eq_lit(l, "rat") || eq_lit(l, "r") {
        Some(CellKind::Rat)
    } else if eq_lit(l, "cyborg") || eq_lit(l, "cyborgrat") || eq_lit(l, "c") {
        Some(CellKind::CyborgRat)
    } else if eq_lit(l, "plank") || eq_lit(l, "=") {
        Some(CellKind::Plank)
    } else if eq_lit(l, "web") || eq_lit(l, "spiderweb") || eq_lit(l, "w") {
        Some(CellKind::Spiderweb)
    } else if eq_lit(l, "blackhole") || eq_lit(l, "hole") || eq_lit(l, "o") {
        Some(CellKind::BlackHole)
    } else if eq_lit(l, "explosive") || eq_lit(l, "x") {
        Some(CellKind::Explosive)
    } else if l.len() >= 7 && eq_lit(slice_range(l, 0, 7).as_slice(), "trigger") {
        let rest = slice_range(l, 7, l.len());
        match parse_u8(rest.as_slice()) {
            Some(n) => Some(CellKind::Trigger(n)),
            None => None,
        }
    } else {
        match parse_u8(l) {
            Some(n) => Some(CellKind::Trigger(n)),
            None => None,
        }
    }
}

/// Reads a cell kind name; `None` for an unknown name or a bad trigger number.
pub fn parse_cell_kind_name(s: &str) -> (r: Option<CellKind>)
    ensures
        r == spec_cell_kind_name(s@),
{
    let c = chars_of(s);
    parse_cell_kind_chars(c.as_slice())
}

/// The characters of `s` from `a` up to `b`.
pub fn slice_range(s: &[char], a: usize, b: usize) -> (r: Vec<char>)
    requires
        a <= b <= s@.len(),
    ensures
        r@ == s@.subrange(a as int, b as int),
{
    let mut r: Vec<char> = Vec::new();
    let mut i: usize = a;
    while i < b
        invariant
            a <= i <= b,
            b <= s@.len(),
            r@ == s@.subrange(a as int, i as int),
        decreases b - i,
    {
        r.push(s[i]);
        i = i + 1;
        proof {
            assert(r@ =~= s@.subrange(a as int, i as int));
        }
    }
    r
}

/// A point written `x,y`, or `.`, `_` or `any` (in any case) for no point. Fields past the
/// second are ignored. `None` when the text is neither.
pub open spec fn spec_optional_point(s: Seq<char>) -> Option<Option<(i32, i32)>> {
    let t = trim(s);
    if t == "."@ || t == "_"@ || lower(t) == "any"@ {
        Some(None)
    } else {
        let parts = split(t, seq![',']);
        if parts.len() >= 2 {
            match (p_i32(trim(parts[0])), p_i32(trim(parts[1]))) {
                (Some(x), Some(y)) => Some(Some((x as i32, y as i32))),
                _ => None,
            }
        } else {
            None
        }
    }
}

/// Reads `x,y`, or `.`, `_` or `any` for no point.
pub fn parse_optional_point_chars(s: &[char]) -> (r: Option<Option<(i32, i32)>>)
    ensures
        r == spec_optional_point(s@),
{
    let t = trim_chars(s);
    let lt = lower_chars(t.as_slice());
    if eq_lit(t.as_slice(), ".") || eq_lit(t.as_slice(), "_") || eq_lit(lt.as_slice(), "any") {
        return Some(None);
    }
    let parts = split_chars(t.as_slice(), &[',']);
    proof {
        assert(seq![','] =~= [','].view());
    }
    if parts.len() < 2 {
        return None;
    }
    let a = trim_chars(parts[0].as_slice());
    let b = trim_chars(parts[1].as_slice());
    match (parse_i32(a.as_slice()), parse_i32(b.as_slice())) {
        (Some(x), Some(y)) => Some(Some((x, y))),
        _ => None,
    }
}

/// Reads `x,y`, or `.`, `_` or `any` for no point; `None` when the text is neither.
pub fn parse_optional_point(s: &str) -> (r: Option<Option<(i32, i32)>>)
    ensures
        r == spec_optional_point(s@),
{
    let c = chars_of(s);
    parse_optional_point_chars(c.as_slice())
}

/// Reads `x,y`; `None` when the text is not a point.
pub fn parse_required_point(s: &str) -> (r: Option<(i32, i32)>)
    ensures
        r == (match spec_optional_point(s@) {
            Some(Some(p)) => Some(p),
            _ => None,
        }),
{
    match parse_optional_point(s) {
        Some(Some(p)) => Some(p),
        _ => None,
    }
}

/// Points separated by `;`; the pieces that name no point are dropped. `None` when a
/// piece is neither a point nor a placeholder.
pub open spec fn spec_points(s: Seq<char>) -> Option<Seq<(i32, i32)>> {
    collect_points(split(s, seq![';']))
}

pub open spec fn collect_points(pieces: Seq<Seq<char>>) -> Option<Seq<(i32, i32)>>
    decreases pieces.len(),
{
    if pieces.len() == 0 {
        Some(Seq::empty())
    } else {
        match (collect_points(pieces.drop_last()), spec_optional_point(pieces.last())) {
            (Some(done), Some(Some(p))) => Some(done.push(p)),
            (Some(done), Some(None)) => Some(done),
            _ => None,
        }
    }
}

/// Reads points separated by `;`, skipping placeholders.
pub fn parse_points(s: &str) -> (r: Option<Vec<(i32, i32)>>)
    ensures
        r matches Some(v) ==> spec_points(s@) == Some(v@),
        r is None ==> spec_points(s@) is None,
{
    let c = chars_of(s);
    let pieces = split_chars(c.as_slice(), &[';']);
    proof {
        assert(seq![';'] =~= [';'].view());
    }
    let ghost all = split(s@, seq![';']);
    let mut out: Vec<(i32, i32)> = Vec::new();
    let mut i: usize = 0;
    while i < pieces.len()
        invariant
            i <= pieces@.len(),
            pieces@.len() == all.len(),
            all == split(s@, seq![';']),
            forall|k: int| 0 <= k < pieces@.len() ==> #[trigger] pieces@[k]@ == all[k],
            collect_points(all.subrange(0, i as int)) == Some(out@),
        decreases pieces@.len() - i,
    {
        let ghost pre = all.subrange(0, (i + 1) as int);
        proof {
            assert(pre.drop_last() =~= all.subrange(0, i as int));
            assert(pre.last() == pieces@[i as int]@);
        }
        match parse_optional_point_chars(pieces[i].as_slice()) {
            Some(Some(p)) => {
                out.push(p);
            }
            Some(None) => {}
            None => {
                proof {
                    assert(collect_points(pre) is None);
                    lemma_collect_points_none(all, (i + 1) as int);
                    assert(all.subrange(0, all.len() as int) =~= all);
                }
                return None;
            }
        }
        i = i + 1;
    }
    proof {
        assert(all.subrange(0, all.len() as int) =~= all);
    }
    Some(out)
}

/// Once a piece fails, every longer prefix fails.
proof fn lemma_collect_points_none(all: Seq<Seq<char>>, i: int)
    requires
        0 <= i <= all.len(),
        collect_points(all.subrange(0, i)) is None,
    ensures
        collect_points(all.subrange(0, all.len() as int)) is None,
    decreases all.len() - i,
{
    if i < all.len() {
        let next = all.subrange(0, i + 1);
        assert(next.drop_last() =~= all.subrange(0, i));
        lemma_collect_points_none(all, i + 1);
    }
}


/// Trigger numbers separated by `,` or `;`; blank pieces are skipped.
pub open spec fn spec_trigger_order(s: Seq<char>) -> Option<Seq<u8>> {
    collect_numbers(split(s, seq![',', ';']))
}

pub open spec fn collect_numbers(pieces: Seq<Seq<char>>) -> Option<Seq<u8>>
    decreases pieces.len(),
{
    if pieces.len() == 0 {
        Some(Seq::empty())
    } else {
        let t = trim(pieces.last());
        match collect_numbers(pieces.drop_last()) {
            Some(done) => if t.len() == 0 {
                Some(done)
            } else {
                match p_u8(t) {
                    Some(n) => Some(done.push(n as u8)),
                    None => None,
                }
            },
            None => None,
        }
    }
}

proof fn lemma_collect_numbers_none(all: Seq<Seq<char>>, i: int)
    requires
        0 <= i <= all.len(),
        collect_numbers(all.subrange(0, i)) is None,
    ensures
        collect_numbers(all) is None,
    decreases all.len() - i,
{
    if i < all.len() {
        let next = all.subrange(0, i + 1);
        assert(next.drop_last() =~= all.subrange(0, i));
        lemma_collect_numbers_none(all, i + 1);
    } else {
        assert(all.subrange(0, i) =~= all);
    }
}

/// Reads trigger numbers separated by `,` or `;`; `None` when a piece is not a number.
pub fn parse_trigger_order(s: &str) -> (r: Option<Vec<u8>>)
    ensures
        r matches Some(v) ==> spec_trigger_order(s@) == Some(v@),
        r is None ==> spec_trigger_order(s@) is None,
{
    let c = chars_of(s);
    let pieces = split_chars(c.as_slice(), &[',', ';']);
    proof {
        assert(seq![',', ';'] =~= [',', ';'].view());
    }
    let ghost all = split(s@, seq![',', ';']);
    let mut out: Vec<u8> = Vec::new();
    let mut i: usize = 0;
    while i < pieces.len()
        invariant
            i <= pieces@.len(),
            pieces@.len() == all.len(),
            all == split(s@, seq![',', ';']),
            forall|k: int| 0 <= k < pieces@.len() ==> #[trigger] pieces@[k]@ == all[k],
            collect_numbers(all.subrange(0, i as int)) == Some(out@),
        decreases pieces@.len() - i,
    {
        let ghost pre = all.subrange(0, (i + 1) as int);
        proof {
            assert(pre.drop_last() =~= all.subrange(0, i as int));
            assert(pre.last() == pieces@[i as int]@);
        }
        let t = trim_chars(pieces[i].as_slice());
        if t.len() > 0 {
            match parse_u8(t.as_slice()) {
                Some(n) => {
                    out.push(n);
                }
                None => {
                    proof {
                        lemma_collect_numbers_none(all, (i + 1) as int);
                    }
                    return None;
                }
            }
        }
        i = i + 1;
    }
    proof {
        assert(all.subrange(0, all.len() as int) =~= all);
    }
    Some(out)
}

/// The targets of one turn: points separated by `|`, padded with `None` or cut to `nplayers`.
pub open spec fn fit_targets(t: Seq<Option<(i32, i32)>>, nplayers: nat) -> Seq<Option<(i32, i32)>> {
    Seq::new(nplayers, |i: int| if i < t.len() { t[i] } else { None })
}

pub open spec fn collect_optional_points(pieces: Seq<Seq<char>>) -> Option<Seq<Option<(i32, i32)>>>
    decreases pieces.len(),
{
    if pieces.len() == 0 {
        Some(Seq::empty())
    } else {
        match (collect_optional_points(pieces.drop_last()), spec_optional_point(pieces.last())) {
            (Some(done), Some(p)) => Some(done.push(p)),
            _ => None,
        }
    }
}

pub open spec fn collect_turns(pieces: Seq<Seq<char>>, nplayers: nat) -> Option<Seq<Seq<Option<(i32, i32)>>>>
    decreases pieces.len(),
{
    if pieces.len() == 0 {
        Some(Seq::empty())
    } else {
        let t = trim(pieces.last());
        match collect_turns(pieces.drop_last(), nplayers) {
            Some(done) => if t.len() == 0 {
                Some(done)
            } else {
                match collect_optional_points(split(t, seq!['|'])) {
                    Some(ps) => Some(done.push(fit_targets(ps, nplayers))),
                    None => None,
                }
            },
            None => None,
        }
    }
}

/// Turns separated by `;`, each a `|`-separated list of optional points, one per player.
pub open spec fn spec_waypoint_pairs(s: Seq<char>, nplayers: nat) -> Option<Seq<Seq<Option<(i32, i32)>>>> {
    collect_turns(split(s, seq![';']), nplayers)
}

proof fn lemma_collect_turns_none(all: Seq<Seq<char>>, nplayers: nat, i: int)
    requires
        0 <= i <= all.len(),
        collect_turns(all.subrange(0, i), nplayers) is None,
    ensures
        collect_turns(all, nplayers) is None,
    decreases all.len() - i,
{
    if i < all.len() {
        let next = all.subrange(0, i + 1);
        assert(next.drop_last() =~= all.subrange(0, i));
        lemma_collect_turns_none(all, nplayers, i + 1);
    } else {
        assert(all.subrange(0, i) =~= all);
    }
}

/// Reads `|`-separated optional points.
fn parse_optional_points(t: &[char]) -> (r: Option<Vec<Option<(i32, i32)>>>)
    ensures
        r matches Some(v) ==> collect_optional_points(split(t@, seq!['|'])) == Some(v@),
        r is None ==> collect_optional_points(split(t@, seq!['|'])) is None,
{
    let pieces = split_chars(t, &['|']);
    proof {
        assert(seq!['|'] =~= ['|'].view());
    }
    let ghost all = split(t@, seq!['|']);
    let mut out: Vec<Option<(i32, i32)>> = Vec::new();
    let mut i: usize = 0;
    while i < pieces.len()
        invariant
            i <= pieces@.len(),
            pieces@.len() == all.len(),
            all == split(t@, seq!['|']),
            forall|k: int| 0 <= k < pieces@.len() ==> #[trigger] pieces@[k]@ == all[k],
            collect_optional_points(all.subrange(0, i as int)) == Some(out@),
        decreases pieces@.len() - i,
    {
        let ghost pre = all.subrange(0, (i + 1) as int);
        proof {
            assert(pre.drop_last() =~= all.subrange(0, i as int));
            assert(pre.last() == pieces@[i as int]@);
        }
        match parse_optional_point_chars(pieces[i].as_slice()) {
            Some(p) => {
                out.push(p);
            }
            None => {
                proof {
                    lemma_collect_optional_none(all, (i + 1) as int);
                }
                return None;
            }
        }
        i = i + 1;
    }
    proof {
        assert(all.subrange(0, all.len() as int) =~= all);
    }
    Some(out)
}

proof fn lemma_collect_optional_none(all: Seq<Seq<char>>, i: int)
    requires
        0 <= i <= all.len(),
        collect_optional_points(all.subrange(0, i)) is None,
    ensures
        collect_optional_points(all) is None,
    decreases all.len() - i,
{
    if i < all.len() {
        let next = all.subrange(0, i + 1);
        assert(next.drop_last() =~= all.subrange(0, i));
        lemma_collect_optional_none(all, i + 1);
    } else {
        assert(all.subrange(0, i) =~= all);
    }
}

/// Reads per-turn player targets: turns separated by `;`, players by `|`; each turn is padded
/// with `None` or cut to `nplayers` targets. `None` when a target is malformed.
pub fn parse_waypoint_pairs(s: &str, nplayers: usize) -> (r: Option<Vec<Vec<Option<(i32, i32)>>>>)
    ensures
        r matches Some(v) ==> ({
            let spec = spec_waypoint_pairs(s@, nplayers as nat);
            &&& spec is Some
            &&& v@.len() == spec->0.len()
            &&& forall|i: int| 0 <= i < v@.len() ==> #[trigger] v@[i]@ == spec->0[i]
        }),
        r is None ==> spec_waypoint_pairs(s@, nplayers as nat) is None,
{
    let c = chars_of(s);
    let pieces = split_chars(c.as_slice(), &[';']);
    proof {
        assert(seq![';'] =~= [';'].view());
    }
    let ghost all = split(s@, seq![';']);
    let mut out: Vec<Vec<Option<(i32, i32)>>> = Vec::new();
    let ghost mut done: Seq<Seq<Option<(i32, i32)>>> = Seq::empty();
    let mut i: usize = 0;
    while i < pieces.len()
        invariant
            i <= pieces@.len(),
            pieces@.len() == all.len(),
            all == split(s@, seq![';']),
            forall|k: int| 0 <= k < pieces@.len() ==> #[trigger] pieces@[k]@ == all[k],
            collect_turns(all.subrange(0, i as int), nplayers as nat) == Some(done),
            out@.len() == done.len(),
            forall|k: int| 0 <= k < out@.len() ==> #[trigger] out@[k]@ == done[k],
        decreases pieces@.len() - i,
    {
        let ghost pre = all.subrange(0, (i + 1) as int);
        proof {
            assert(pre.drop_last() =~= all.subrange(0, i as int));
            assert(pre.last() == pieces@[i as int]@);
        }
        let t = trim_chars(pieces[i].as_slice());
        if t.len() > 0 {
            match parse_optional_points(t.as_slice()) {
                Some(targets) => {
                    let mut fitted: Vec<Option<(i32, i32)>> = Vec::new();
                    let mut j: usize = 0;
                    while j < nplayers
                        invariant
                            j <= nplayers,
                            fitted@.len() == j,
                            forall|q: int| 0 <= q < j ==> #[trigger] fitted@[q] == (if q < targets@.len() { targets@[q] } else { None }),
                        decreases nplayers - j,
                    {
                        if j < targets.len() {
                            fitted.push(targets[j]);
                        } else {
                            fitted.push(None);
                        }
                        j = j + 1;
                    }
                    proof {
                        assert(fitted@ =~= fit_targets(targets@, nplayers as nat));
                        done = done.push(fitted@);
                    }
                    out.push(fitted);
                }
                None => {
                    proof {
                        lemma_collect_turns_none(all, nplayers as nat, (i + 1) as int);
                    }
                    return None;
                }
            }
        }
        i = i + 1;
    }
    proof {
        assert(all.subrange(0, all.len() as int) =~= all);
    }
    Some(out)
}

/// Kinds of dead end a rat may step into.
#[derive(Clone, Copy, Debug, PartialEq, Eq, Structural)]
pub enum DeathTargetKind {
    Any,
    BlackHole,
    Explosive,
}

pub open spec fn spec_death_target_kind(s: Seq<char>) -> Option<DeathTargetKind> {
    if s == "any"@ {
        Some(DeathTargetKind::Any)
    } else if s == "blackhole"@ || s == "black-hole"@ || s == "hole"@ {
        Some(DeathTargetKind::BlackHole)
    } else if s == "explosive"@ || s == "bomb"@ {
        Some(DeathTargetKind::Explosive)
    } else {
        None
    }
}

impl DeathTargetKind {
    /// Reads `any`, `blackhole` (`black-hole`, `hole`) or `explosive` (`bomb`).
    pub fn parse(input: &str) -> (r: Option<DeathTargetKind>)
        ensures
            r == spec_death_target_kind(input@),
    {
        let s = chars_of(input);
        let s = s.as_slice();
        if eq_lit(s, "any") {
            Some(DeathTargetKind::Any)
        } else if eq_lit(s, "blackhole") || eq_lit(s, "black-hole") || eq_lit(s, "hole") {
            Some(DeathTargetKind::BlackHole)
        } else if eq_lit(s, "explosive") || eq_lit(s, "bomb") {
            Some(DeathTargetKind::Explosive)
        } else {
            None
        }
    }

    /// Whether a cell of kind `cell` is a dead end of this kind.
    pub fn accepts(self, cell: CellKind) -> (b: bool)
        ensures
            b == match self {
                DeathTargetKind::Any => cell == CellKind::BlackHole || cell == CellKind::Explosive,
                DeathTargetKind::BlackHole => cell == CellKind::BlackHole,
                DeathTargetKind::Explosive => cell == CellKind::Explosive,
            },
    {
        match self {
            DeathTargetKind::Any => matches!(cell, CellKind::BlackHole | CellKind::Explosive),
            DeathTargetKind::BlackHole => cell == CellKind::BlackHole,
            DeathTargetKind::Explosive => cell == CellKind::Explosive,
        }
    }
}

/// Orders in which the lookup search expands states.
#[derive(Clone, Copy, Debug, PartialEq, Eq, Structural)]
pub enum LookupOrder {
    Bfs,
    Gbfs,
    Astar,
}

pub open spec fn spec_lookup_order(s: Seq<char>) -> Option<LookupOrder> {
    if s == "bfs"@ {
        Some(LookupOrder::Bfs)
    } else if s == "gbfs"@ {
        Some(LookupOrder::Gbfs)
    } else if s == "astar"@ {
        Some(LookupOrder::Astar)
    } else {
        None
    }
}

impl LookupOrder {
    /// Reads `bfs`, `gbfs` or `astar`.
    pub fn parse(input: &str) -> (r: Option<LookupOrder>)
        ensures
            r == spec_lookup_order(input@),
    {
        let s = chars_of(input);
        let s = s.as_slice();
        if eq_lit(s, "bfs") {
            Some(LookupOrder::Bfs)
        } else if eq_lit(s, "gbfs") {
            Some(LookupOrder::Gbfs)
        } else if eq_lit(s, "astar") {
            Some(LookupOrder::Astar)
        } else {
            None
        }
    }
}

/// Events that an event search drives towards.
#[derive(Clone, Copy, Debug, PartialEq, Eq, Structural)]
pub enum TargetKind {
    Explosion,
    IgnitionReady,
    RatNearExplosive,
    Trigger,
    RatDrop,
    StructureChanged,
}

pub open spec fn spec_target_kind(s: Seq<char>) -> Option<TargetKind> {
    if s == "explosion"@ || s == "ignite"@ {
        Some(TargetKind::Explosion)
    } else if s == "ready"@ || s == "ignition-ready"@ {
        Some(TargetKind::IgnitionReady)
    } else if s == "ratnearx"@ || s == "lure"@ {
        Some(TargetKind::RatNearExplosive)
    } else if s == "trigger"@ {
        Some(TargetKind::Trigger)
    } else if s == "ratdrop"@ || s == "rat"@ {
        Some(TargetKind::RatDrop)
    } else if s == "structural"@ || s == "any"@ {
        Some(TargetKind::StructureChanged)
    } else {
        None
    }
}

impl TargetKind {
    /// Reads an event kind name.
    pub fn parse(input: &str) -> (r: Option<TargetKind>)
        ensures
            r == spec_target_kind(input@),
    {
        let s = chars_of(input);
        let s = s.as_slice();
        if eq_lit(s, "explosion") || eq_lit(s, "ignite") {
            Some(TargetKind::Explosion)
        } else if eq_lit(s, "ready") || eq_lit(s, "ignition-ready") {
            Some(TargetKind::IgnitionReady)
        } else if eq_lit(s, "ratnearx") || eq_lit(s, "lure") {
            Some(TargetKind::RatNearExplosive)
        } else if eq_lit(s, "trigger") {
            Some(TargetKind::Trigger)
        } else if eq_lit(s, "ratdrop") || eq_lit(s, "rat") {
            Some(TargetKind::RatDrop)
        } else if eq_lit(s, "structural") || eq_lit(s, "any") {
            Some(TargetKind::StructureChanged)
        } else {
            None
        }
    }
}

} // verus!
