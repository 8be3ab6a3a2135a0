//! Comma-separated argument lists whose fields have fixed types.

use vstd::prelude::*;
use crate::model::{CellKind, Dir4};
use crate::text::{trim, split, chars_of, trim_chars, split_chars, parse_i32, parse_i64, parse_usize, parse_u8};
use crate::parse::{p_i32, p_i64, p_usize, p_u8, spec_cell_kind_name, spec_dir4_name, parse_cell_kind_chars, parse_dir4_chars};

verus! {

/// How one field is read. Every field is trimmed first.
#[derive(Clone, Copy, Debug, PartialEq, Eq, Structural)]
pub enum FieldType {
    /// An `i32` coordinate.
    Int,
    /// A `usize` count.
    Count,
    /// A `u8` trigger number.
    Num,
    /// A cell kind name.
    Kind,
    /// A direction name.
    Dir,
    /// An `i64` distance that must not be negative.
    Dist,
    /// An `i32` that must not be negative, taken as a count.
    NonNegCount,
    /// An `i32` taken as a count the way `as usize` converts it.
    WrapCount,
}

/// One field read from an argument list.
#[derive(Clone, Copy, Debug, PartialEq, Eq, Structural)]
pub enum Field {
    Int(i32),
    Count(usize),
    Num(u8),
    Kind(CellKind),
    Dir(Dir4),
    Dist(i64),
}

/// The field that the text `piece` gives for type `t`.
pub open spec fn spec_field(t: FieldType, piece: Seq<char>) -> Option<Field> {
    let p = trim(piece);
    match t {
        FieldType::Int => match p_i32(p) { Some(v) => Some(Field::Int(v as i32)), None => None },
        FieldType::Count => match p_usize(p) { Some(v) => Some(Field::Count(v as usize)), None => None },
        FieldType::Num => match p_u8(p) { Some(v) => Some(Field::Num(v as u8)), None => None },
        FieldType::Kind => match spec_cell_kind_name(p) { Some(k) => Some(Field::Kind(k)), None => None },
        FieldType::Dir => match spec_dir4_name(p) { Some(d) => Some(Field::Dir(d)), None => None },
        FieldType::Dist => match p_i64(p) {
            Some(v) => if v >= 0 { Some(Field::Dist(v as i64)) } else { None },
            None => None,
        },
        FieldType::NonNegCount => match p_i32(p) {
            Some(v) => if v >= 0 { Some(Field::Count(v as usize)) } else { None },
            None => None,
        },
        FieldType::WrapCount => match p_i32(p) { Some(v) => Some(Field::Count((v as i32) as usize)), None => None },
    }
}

/// Reads the fields of `pieces` in order, as long as each one reads.
pub open spec fn spec_field_list(sig: Seq<FieldType>, pieces: Seq<Seq<char>>, n: nat) -> Option<Seq<Field>>
    decreases n,
{
    if n == 0 {
        Some(Seq::empty())
    } else {
        match (spec_field_list(sig, pieces, (n - 1) as nat), spec_field(sig[n - 1], pieces[n - 1])) {
            (Some(done), Some(f)) => Some(done.push(f)),
            _ => None,
        }
    }
}

/// The fields of a comma-separated list with exactly one piece per type in `sig`.
pub open spec fn spec_fields(arg: Seq<char>, sig: Seq<FieldType>) -> Option<Seq<Field>> {
    let pieces = split(arg, seq![',']);
    if pieces.len() == sig.len() {
        spec_field_list(sig, pieces, sig.len())
    } else {
        None
    }
}

/// The value of a field, or a default for a field of another type.
pub open spec fn fi(f: Field) -> i32 {
    match f { Field::Int(v) => v, _ => 0 }
}

pub open spec fn fc(f: Field) -> usize {
    match f { Field::Count(v) => v, _ => 0 }
}

pub open spec fn fn8(f: Field) -> u8 {
    match f { Field::Num(v) => v, _ => 0 }
}

pub open spec fn fk(f: Field) -> CellKind {
    match f { Field::Kind(v) => v, _ => CellKind::Empty }
}

pub open spec fn fd(f: Field) -> Dir4 {
    match f { Field::Dir(v) => v, _ => Dir4::North }
}

pub open spec fn fl(f: Field) -> i64 {
    match f { Field::Dist(v) => v, _ => 0 }
}

impl Field {
    pub fn as_int(&self) -> (v: i32)
        ensures
            v == fi(*self),
    {
        match self { Field::Int(v) => *v, _ => 0 }
    }

    pub fn as_count(&self) -> (v: usize)
        ensures
            v == fc(*self),
    {
        match self { Field::Count(v) => *v, _ => 0 }
    }

    pub fn as_num(&self) -> (v: u8)
        ensures
            v == fn8(*self),
    {
        match self { Field::Num(v) => *v, _ => 0 }
    }

    pub fn as_kind(&self) -> (v: CellKind)
        ensures
            v == fk(*self),
    {
        match self { Field::Kind(v) => *v, _ => CellKind::Empty }
    }

    pub fn as_dir(&self) -> (v: Dir4)
        ensures
            v == fd(*self),
    {
        match self { Field::Dir(v) => *v, _ => Dir4::North }
    }

    pub fn as_dist(&self) -> (v: i64)
        ensures
            v == fl(*self),
    {
        match self { Field::Dist(v) => *v, _ => 0 }
    }
}

/// Reads one field of type `t`.
pub fn read_field(t: FieldType, piece: &[char]) -> (r: Option<Field>)
    ensures
        r == spec_field(t, piece@),
{
    let p = trim_chars(piece);
    let p = p.as_slice();
    match t {
        FieldType::Int => match parse_i32(p) { Some(v) => Some(Field::Int(v)), None => None },
        FieldType::Count => match parse_usize(p) { Some(v) => Some(Field::Count(v)), None => None },
        FieldType::Num => match parse_u8(p) { Some(v) => Some(Field::Num(v)), None => None },
        FieldType::Kind => match parse_cell_kind_chars(p) { Some(k) => Some(Field::Kind(k)), None => None },
        FieldType::Dir => match parse_dir4_chars(p) { Some(d) => Some(Field::Dir(d)), None => None },
        FieldType::Dist => match parse_i64(p) {
            Some(v) => if v >= 0 { Some(Field::Dist(v)) } else { None },
            None => None,
        },
        FieldType::NonNegCount => match parse_i32(p) {
            Some(v) => if v >= 0 { Some(Field::Count(v as usize)) } else { None },
            None => None,
        },
        FieldType::WrapCount => match parse_i32(p) {
            Some(v) => Some(Field::Count(v as usize)),
            None => None,
        },
    }
}

proof fn lemma_field_list_none(sig: Seq<FieldType>, pieces: Seq<Seq<char>>, i: nat, n: nat)
    requires
        i <= n,
        spec_field_list(sig, pieces, i) is None,
    ensures
        spec_field_list(sig, pieces, n) is None,
    decreases n - i,
{
    if i < n {
        lemma_field_list_none(sig, pieces, i, (n - 1) as nat);
    }
}

/// Reads a comma-separated list with exactly one field per type in `sig`.
pub fn read_fields(arg: &[char], sig: &[FieldType]) -> (r: Option<Vec<Field>>)
    ensures
        r matches Some(v) ==> spec_fields(arg@, sig@) == Some(v@) && v@.len() == sig@.len(),
        r is None ==> spec_fields(arg@, sig@) is None,
{
    let pieces = split_chars(arg, &[',']);
    proof {
        assert(seq![','] =~= [','].view());
    }
    let ghost all = split(arg@, seq![',']);
    if pieces.len() != sig.len() {
        return None;
    }
    let mut out: Vec<Field> = Vec::new();
    let mut i: usize = 0;
    while i < sig.len()
        invariant
            i <= sig@.len(),
            pieces@.len() == sig@.len(),
            all == split(arg@, seq![',']),
            all.len() == pieces@.len(),
            forall|k: int| 0 <= k < pieces@.len() ==> #[trigger] pieces@[k]@ == all[k],
            spec_field_list(sig@, all, i as nat) == Some(out@),
            out@.len() == i,
        decreases sig@.len() - i,
    {
        match read_field(sig[i], pieces[i].as_slice()) {
            Some(f) => {
                out.push(f);
            }
            None => {
                proof {
                    lemma_field_list_none(sig@, all, (i + 1) as nat, sig@.len());
                }
                return None;
            }
        }
        i = i + 1;
    }
    Some(out)
}

/// Reads `x,y,distance` with a distance that is not negative.
pub fn parse_point_and_distance(s: &str) -> (r: Option<((i32, i32), i64)>)
    ensures
        r == (match spec_fields(s@, seq![FieldType::Int, FieldType::Int, FieldType::Dist]) {
            Some(f) => Some(((fi(f[0]), fi(f[1])), fl(f[2]))),
            None => None,
        }),
{
    let c = chars_of(s);
    let sig = [FieldType::Int, FieldType::Int, FieldType::Dist];
    proof {
        assert(sig@ =~= seq![FieldType::Int, FieldType::Int, FieldType::Dist]);
    }
    match read_fields(c.as_slice(), &sig) {
        Some(f) => {
            proof {
                assert(f@.len() == 3);
            }
            Some(((f[0].as_int(), f[1].as_int()), f[2].as_dist()))
        }
        None => None,
    }
}

/// Reads `count,x,y`.
pub fn parse_count_and_point(s: &str) -> (r: Option<(usize, (i32, i32))>)
    ensures
        r == (match spec_fields(s@, seq![FieldType::Count, FieldType::Int, FieldType::Int]) {
            Some(f) => Some((fc(f[0]), (fi(f[1]), fi(f[2])))),
            None => None,
        }),
{
    let c = chars_of(s);
    let sig = [FieldType::Count, FieldType::Int, FieldType::Int];
    proof {
        assert(sig@ =~= seq![FieldType::Count, FieldType::Int, FieldType::Int]);
    }
    match read_fields(c.as_slice(), &sig) {
        Some(f) => {
            proof {
                assert(f@.len() == 3);
            }
            Some((f[0].as_count(), (f[1].as_int(), f[2].as_int())))
        }
        None => None,
    }
}

/// Reads `x,y,kind`.
pub fn parse_point_and_cell_kind(s: &str) -> (r: Option<((i32, i32), CellKind)>)
    ensures
        r == (match spec_fields(s@, seq![FieldType::Int, FieldType::Int, FieldType::Kind]) {
            Some(f) => Some(((fi(f[0]), fi(f[1])), fk(f[2]))),
            None => None,
        }),
{
    let c = chars_of(s);
    let sig = [FieldType::Int, FieldType::Int, FieldType::Kind];
    proof {
        assert(sig@ =~= seq![FieldType::Int, FieldType::Int, FieldType::Kind]);
    }
    match read_fields(c.as_slice(), &sig) {
        Some(f) => {
            proof {
                assert(f@.len() == 3);
            }
            Some(((f[0].as_int(), f[1].as_int()), f[2].as_kind()))
        }
        None => None,
    }
}

/// Reads `count,x,y,kind`.
pub fn parse_count_point_and_cell_kind(s: &str) -> (r: Option<(usize, (i32, i32), CellKind)>)
    ensures
        r == (match spec_fields(s@, seq![FieldType::Count, FieldType::Int, FieldType::Int, FieldType::Kind]) {
            Some(f) => Some((fc(f[0]), (fi(f[1]), fi(f[2])), fk(f[3]))),
            None => None,
        }),
{
    let c = chars_of(s);
    let sig = [FieldType::Count, FieldType::Int, FieldType::Int, FieldType::Kind];
    proof {
        assert(sig@ =~= seq![FieldType::Count, FieldType::Int, FieldType::Int, FieldType::Kind]);
    }
    match read_fields(c.as_slice(), &sig) {
        Some(f) => {
            proof {
                assert(f@.len() == 4);
            }
            Some((f[0].as_count(), (f[1].as_int(), f[2].as_int()), f[3].as_kind()))
        }
        None => None,
    }
}

/// Reads `count,x,y,direction`.
pub fn parse_count_point_and_dir(s: &str) -> (r: Option<(usize, (i32, i32), Dir4)>)
    ensures
        r == (match spec_fields(s@, seq![FieldType::Count, FieldType::Int, FieldType::Int, FieldType::Dir]) {
            Some(f) => Some((fc(f[0]), (fi(f[1]), fi(f[2])), fd(f[3]))),
            None => None,
        }),
{
    let c = chars_of(s);
    let sig = [FieldType::Count, FieldType::Int, FieldType::Int, FieldType::Dir];
    proof {
        assert(sig@ =~= seq![FieldType::Count, FieldType::Int, FieldType::Int, FieldType::Dir]);
    }
    match read_fields(c.as_slice(), &sig) {
        Some(f) => {
            proof {
                assert(f@.len() == 4);
            }
            Some((f[0].as_count(), (f[1].as_int(), f[2].as_int()), f[3].as_dir()))
        }
        None => None,
    }
}

} // verus!
