//! Characters and strings: whitespace, trimming, splitting, decimal numbers.

use vstd::prelude::*;

verus! {

/// Unicode white space, as `char::is_whitespace` and `str::trim` treat it.
pub open spec fn is_ws(c: char) -> bool {
    ||| c == '\t' || c == '\n' || c == '\u{0B}' || c == '\u{0C}' || c == '\r' || c == ' '
    ||| c == '\u{85}' || c == '\u{A0}' || c == '\u{1680}'
    ||| ('\u{2000}' <= c && c <= '\u{200A}')
    ||| c == '\u{2028}' || c == '\u{2029}' || c == '\u{202F}' || c == '\u{205F}' || c == '\u{3000}'
}

/// Whether `c` is Unicode white space.
pub fn is_whitespace(c: char) -> (b: bool)
    ensures
        b == is_ws(c),
{
    c == '\t' || c == '\n' || c == '\u{0B}' || c == '\u{0C}' || c == '\r' || c == ' '
        || c == '\u{85}' || c == '\u{A0}' || c == '\u{1680}'
        || ('\u{2000}' <= c && c <= '\u{200A}')
        || c == '\u{2028}' || c == '\u{2029}' || c == '\u{202F}' || c == '\u{205F}' || c == '\u{3000}'
}

/// `s` without its leading white space.
pub open spec fn trim_start(s: Seq<char>) -> Seq<char>
    decreases s.len(),
{
    if s.len() > 0 && is_ws(s[0]) {
        trim_start(s.drop_first())
    } else {
        s
    }
}

/// `s` without its trailing white space.
pub open spec fn trim_end(s: Seq<char>) -> Seq<char>
    decreases s.len(),
{
    if s.len() > 0 && is_ws(s.last()) {
        trim_end(s.drop_last())
    } else {
        s
    }
}

/// `s` without leading and trailing white space.
pub open spec fn trim(s: Seq<char>) -> Seq<char> {
    trim_end(trim_start(s))
}

/// The characters of a string.
pub fn chars_of(s: &str) -> (v: Vec<char>)
    ensures
        v@ == s@,
{
    let n = s.unicode_len();
    let mut v: Vec<char> = Vec::new();
    let mut i: usize = 0;
    while i < n
        invariant
            n == s@.len(),
            i <= n,
            v@ == s@.subrange(0, i as int),
        decreases n - i,
    {
        v.push(s.get_char(i));
        i = i + 1;
        proof {
            assert(v@ =~= s@.subrange(0, i as int));
        }
    }
    proof {
        assert(v@ =~= s@);
    }
    v
}

proof fn lemma_trim_start_skip(s: Seq<char>, i: int)
    requires
        0 <= i < s.len(),
        is_ws(s[i]),
    ensures
        trim_start(s.subrange(i, s.len() as int)) == trim_start(s.subrange(i + 1, s.len() as int)),
{
    let t = s.subrange(i, s.len() as int);
    assert(t.drop_first() =~= s.subrange(i + 1, s.len() as int));
}

proof fn lemma_trim_end_skip(s: Seq<char>, j: int)
    requires
        0 < j <= s.len(),
        is_ws(s[j - 1]),
    ensures
        trim_end(s.subrange(0, j)) == trim_end(s.subrange(0, j - 1)),
{
    let t = s.subrange(0, j);
    assert(t.drop_last() =~= s.subrange(0, j - 1));
}

/// The characters of `s` without leading and trailing white space.
pub fn trim_chars(s: &[char]) -> (t: Vec<char>)
    ensures
        t@ == trim(s@),
{
    let n = s.len();
    let mut i: usize = 0;
    proof {
        assert(s@.subrange(0, n as int) =~= s@);
    }
    while i < n && is_whitespace(s[i])
        invariant
            n == s@.len(),
            i <= n,
            trim_start(s@.subrange(i as int, n as int)) == trim_start(s@),
        decreases n - i,
    {
        proof {
            lemma_trim_start_skip(s@, i as int);
        }
        i = i + 1;
    }
    let ghost rest = s@.subrange(i as int, n as int);
    proof {
        assert(trim_start(s@) == rest);
    }
    let mut j: usize = n;
    proof {
        assert(rest.subrange(0, (j - i) as int) =~= rest);
    }
    while j > i && is_whitespace(s[j - 1])
        invariant
            n == s@.len(),
            i <= j <= n,
            rest == s@.subrange(i as int, n as int),
            trim_end(rest.subrange(0, (j - i) as int)) == trim_end(rest),
        decreases j,
    {
        proof {
            lemma_trim_end_skip(rest, (j - i) as int);
            assert(rest.subrange(0, (j - i - 1) as int) =~= rest.subrange(0, (j - 1 - i) as int));
        }
        j = j - 1;
    }
    let mut t: Vec<char> = Vec::new();
    let mut k: usize = i;
    while k < j
        invariant
            i <= k <= j,
            j <= n,
            n == s@.len(),
            t@ == s@.subrange(i as int, k as int),
        decreases j - k,
    {
        t.push(s[k]);
        k = k + 1;
        proof {
            assert(t@ =~= s@.subrange(i as int, k as int));
        }
    }
    proof {
        let body = rest.subrange(0, (j - i) as int);
        assert(t@ =~= body);
        if body.len() > 0 {
            assert(!is_ws(body.last()));
        }
        assert(trim_end(body) == body);
    }
    t
}

/// The pieces of `s` between separators, as `str::split` gives them: always at least one,
/// possibly empty.
pub open spec fn split(s: Seq<char>, seps: Seq<char>) -> Seq<Seq<char>>
    decreases s.len(),
{
    if s.len() == 0 {
        seq![Seq::empty()]
    } else {
        let prev = split(s.drop_last(), seps);
        if seps.contains(s.last()) {
            prev.push(Seq::empty())
        } else {
            prev.update(prev.len() - 1, prev.last().push(s.last()))
        }
    }
}

proof fn lemma_split_nonempty(s: Seq<char>, seps: Seq<char>)
    ensures
        split(s, seps).len() >= 1,
    decreases s.len(),
{
    if s.len() > 0 {
        lemma_split_nonempty(s.drop_last(), seps);
    }
}

/// Splits `s` at every character of `seps`.
pub fn split_chars(s: &[char], seps: &[char]) -> (parts: Vec<Vec<char>>)
    ensures
        parts@.len() == split(s@, seps@).len(),
        forall|i: int| 0 <= i < parts@.len() ==> #[trigger] parts@[i]@ == split(s@, seps@)[i],
{
    let mut parts: Vec<Vec<char>> = Vec::new();
    parts.push(Vec::new());
    let mut i: usize = 0;
    proof {
        assert(s@.subrange(0, 0) =~= Seq::<char>::empty());
    }
    while i < s.len()
        invariant
            i <= s@.len(),
            parts@.len() == split(s@.subrange(0, i as int), seps@).len(),
            parts@.len() >= 1,
            forall|k: int| 0 <= k < parts@.len() ==> #[trigger] parts@[k]@ == split(s@.subrange(0, i as int), seps@)[k],
        decreases s@.len() - i,
    {
        let c = s[i];
        let ghost prefix = s@.subrange(0, (i + 1) as int);
        proof {
            assert(prefix.drop_last() =~= s@.subrange(0, i as int));
            assert(prefix.last() == c);
            lemma_split_nonempty(s@.subrange(0, i as int), seps@);
        }
        let mut is_sep = false;
        let mut k: usize = 0;
        while k < seps.len()
            invariant
                k <= seps@.len(),
                is_sep == exists|j: int| 0 <= j < k && seps@[j] == c,
            decreases seps@.len() - k,
        {
            if seps[k] == c {
                is_sep = true;
            }
            k = k + 1;
        }
        proof {
            assert(is_sep == seps@.contains(c));
        }
        if is_sep {
            parts.push(Vec::new());
        } else {
            let last = parts.len() - 1;
            let mut piece = parts.pop().unwrap();
            piece.push(c);
            parts.push(piece);
            proof {
                assert(parts@.len() == split(prefix, seps@).len());
            }
        }
        i = i + 1;
        proof {
            assert(s@.subrange(0, i as int) == prefix);
            assert forall|k: int| 0 <= k < parts@.len() implies #[trigger] parts@[k]@ == split(prefix, seps@)[k] by {
            }
        }
    }
    proof {
        assert(s@.subrange(0, s@.len() as int) =~= s@);
    }
    parts
}

/// Whether `c` is an ASCII decimal digit.
pub open spec fn is_digit(c: char) -> bool {
    '0' <= c && c <= '9'
}

/// The value of a decimal digit.
pub open spec fn digit_value(c: char) -> int {
    c as int - '0' as int
}

/// Whether every character of `s` is a decimal digit.
pub open spec fn all_digits(s: Seq<char>) -> bool {
    forall|i: int| 0 <= i < s.len() ==> is_digit(#[trigger] s[i])
}

/// The value of a string of decimal digits.
pub open spec fn digits_value(s: Seq<char>) -> int
    decreases s.len(),
{
    if s.len() == 0 {
        0
    } else {
        digits_value(s.drop_last()) * 10 + digit_value(s.last())
    }
}

/// The integer that `s` spells: an optional sign, then one or more decimal digits.
/// `signed` says whether a minus sign is allowed.
pub open spec fn spec_parse_int(s: Seq<char>, signed: bool) -> Option<int> {
    let neg = s.len() > 0 && s[0] == '-' && signed;
    let body = if s.len() > 0 && (s[0] == '+' || (s[0] == '-' && signed)) { s.drop_first() } else { s };
    if body.len() > 0 && all_digits(body) {
        Some(if neg { -digits_value(body) } else { digits_value(body) })
    } else {
        None
    }
}

/// What `str::parse` gives for an integer type with bounds `lo` and `hi`.
pub open spec fn spec_parse_in(s: Seq<char>, signed: bool, lo: int, hi: int) -> Option<int> {
    match spec_parse_int(s, signed) {
        Some(v) => if lo <= v <= hi { Some(v) } else { None },
        None => None,
    }
}

pub open spec fn cap() -> int {
    0x1_0000_0000_0000_0000int
}

pub open spec fn min_cap(v: int) -> int {
    if v < cap() { v } else { cap() }
}

proof fn lemma_digits_nonneg(s: Seq<char>)
    requires
        all_digits(s),
    ensures
        digits_value(s) >= 0,
    decreases s.len(),
{
    if s.len() > 0 {
        assert(all_digits(s.drop_last())) by {
            assert forall|i: int| 0 <= i < s.drop_last().len() implies is_digit(#[trigger] s.drop_last()[i]) by {
                assert(s.drop_last()[i] == s[i]);
            }
        }
        lemma_digits_nonneg(s.drop_last());
        assert(is_digit(s[s.len() - 1]));
    }
}

/// Parses an integer with an optional sign, as `str::parse` does for an integer type whose
/// values lie between `lo` and `hi`.
fn parse_int_in(s: &[char], signed: bool, lo: i128, hi: i128) -> (r: Option<i128>)
    requires
        -cap() < lo <= hi < cap(),
    ensures
        r matches Some(v) ==> spec_parse_in(s@, signed, lo as int, hi as int) == Some(v as int),
        r is None ==> spec_parse_in(s@, signed, lo as int, hi as int) is None,
{
    let n = s.len();
    if n == 0 {
        return None;
    }
    let mut start: usize = 0;
    let mut neg = false;
    if s[0] == '+' {
        start = 1;
    } else if s[0] == '-' && signed {
        start = 1;
        neg = true;
    }
    if start >= n {
        return None;
    }
    let ghost body = s@.subrange(start as int, n as int);
    proof {
        if start == 1 {
            assert(body =~= s@.drop_first());
        } else {
            assert(body =~= s@);
        }
        assert(body == (if s@.len() > 0 && (s@[0] == '+' || (s@[0] == '-' && signed)) { s@.drop_first() } else { s@ }));
        assert(neg == (s@.len() > 0 && s@[0] == '-' && signed));
    }
    let mut acc: i128 = 0;
    let mut i: usize = start;
    while i < n
        invariant
            start <= i <= n,
            n == s@.len(),
            body == s@.subrange(start as int, n as int),
            body == (if s@.len() > 0 && (s@[0] == '+' || (s@[0] == '-' && signed)) { s@.drop_first() } else { s@ }),
            all_digits(s@.subrange(start as int, i as int)),
            acc == min_cap(digits_value(s@.subrange(start as int, i as int))),
            0 <= acc <= cap(),
        decreases n - i,
    {
        let c = s[i];
        if !('0' <= c && c <= '9') {
            proof {
                assert(body[i - start] == c);
                assert(!is_digit(body[i - start]));
                assert(!all_digits(body));
                assert(spec_parse_int(s@, signed) is None);
            }
            return None;
        }
        let d: i128 = (c as u32 - '0' as u32) as i128;
        let ghost pre = s@.subrange(start as int, i as int);
        let ghost next = s@.subrange(start as int, (i + 1) as int);
        proof {
            assert(next.drop_last() =~= pre);
            assert(next.last() == c);
            assert(all_digits(next)) by {
                assert forall|j: int| 0 <= j < next.len() implies is_digit(#[trigger] next[j]) by {
                    if j < pre.len() {
                        assert(next[j] == pre[j]);
                    }
                }
            }
            lemma_digits_nonneg(pre);
        }
        let big: i128 = acc * 10 + d;
        acc = if big < 0x1_0000_0000_0000_0000i128 { big } else { 0x1_0000_0000_0000_0000i128 };
        i = i + 1;
    }
    proof {
        assert(s@.subrange(start as int, n as int) == body);
        lemma_digits_nonneg(body);
    }
    let v: i128 = if neg { -acc } else { acc };
    if lo <= v && v <= hi {
        Some(v)
    } else {
        None
    }
}

/// Parses a decimal `i32`, as `str::parse::<i32>` does.
pub fn parse_i32(s: &[char]) -> (r: Option<i32>)
    ensures
        r matches Some(v) ==> spec_parse_in(s@, true, i32::MIN as int, i32::MAX as int) == Some(v as int),
        r is None ==> spec_parse_in(s@, true, i32::MIN as int, i32::MAX as int) is None,
{
    match parse_int_in(s, true, i32::MIN as i128, i32::MAX as i128) {
        Some(v) => Some(v as i32),
        None => None,
    }
}

/// Parses a decimal `i64`, as `str::parse::<i64>` does.
pub fn parse_i64(s: &[char]) -> (r: Option<i64>)
    ensures
        r matches Some(v) ==> spec_parse_in(s@, true, i64::MIN as int, i64::MAX as int) == Some(v as int),
        r is None ==> spec_parse_in(s@, true, i64::MIN as int, i64::MAX as int) is None,
{
    match parse_int_in(s, true, i64::MIN as i128, i64::MAX as i128) {
        Some(v) => Some(v as i64),
        None => None,
    }
}

/// Parses a decimal `usize`, as `str::parse::<usize>` does on a 64-bit target.
pub fn parse_usize(s: &[char]) -> (r: Option<usize>)
    ensures
        r matches Some(v) ==> spec_parse_in(s@, false, 0, usize::MAX as int) == Some(v as int),
        r is None ==> spec_parse_in(s@, false, 0, usize::MAX as int) is None,
{
    match parse_int_in(s, false, 0, usize::MAX as i128) {
        Some(v) => Some(v as usize),
        None => None,
    }
}

/// Parses a decimal `u8`, as `str::parse::<u8>` does.
pub fn parse_u8(s: &[char]) -> (r: Option<u8>)
    ensures
        r matches Some(v) ==> spec_parse_in(s@, false, 0, 255) == Some(v as int),
        r is None ==> spec_parse_in(s@, false, 0, 255) is None,
{
    match parse_int_in(s, false, 0, 255) {
        Some(v) => Some(v as u8),
        None => None,
    }
}

/// Whether `s` holds exactly the characters of `lit`.
pub fn eq_lit(s: &[char], lit: &str) -> (b: bool)
    ensures
        b == (s@ == lit@),
{
    let n = lit.unicode_len();
    if s.len() != n {
        return false;
    }
    let mut i: usize = 0;
    while i < n
        invariant
            n == lit@.len(),
            n == s@.len(),
            i <= n,
            forall|j: int| 0 <= j < i ==> s@[j] == lit@[j],
        decreases n - i,
    {
        if s[i] != lit.get_char(i) {
            return false;
        }
        i = i + 1;
    }
    proof {
        assert(s@ =~= lit@);
    }
    true
}

/// Appends `c` to `s`.
///
/// Calls `String::push`, which appends the given character to the end of the string; the
/// contract claims exactly that of the string's characters.
#[verifier::external_body]
fn push_char(s: &mut String, c: char)
    ensures
        final(s)@ == old(s)@.push(c),
{
    s.push(c);
}

/// The string of the given characters.
pub fn string_of(chars: &[char]) -> (s: String)
    ensures
        s@ == chars@,
{
    let mut s = String::new();
    let mut i: usize = 0;
    while i < chars.len()
        invariant
            i <= chars@.len(),
            s@ == chars@.subrange(0, i as int),
        decreases chars@.len() - i,
    {
        push_char(&mut s, chars[i]);
        i = i + 1;
        proof {
            assert(s@ =~= chars@.subrange(0, i as int));
        }
    }
    proof {
        assert(chars@.subrange(0, chars@.len() as int) =~= chars@);
    }
    s
}

/// The decimal digit for `d`, which lies in 0 to 9.
pub open spec fn digit_char(d: int) -> char {
    if d == 0 { '0' } else if d == 1 { '1' } else if d == 2 { '2' } else if d == 3 { '3' }
    else if d == 4 { '4' } else if d == 5 { '5' } else if d == 6 { '6' } else if d == 7 { '7' }
    else if d == 8 { '8' } else { '9' }
}

/// `n` written in decimal, without leading zeros.
pub open spec fn spec_decimal(n: nat) -> Seq<char>
    decreases n,
{
    if n < 10 {
        seq![digit_char(n as int)]
    } else {
        spec_decimal(n / 10) + seq![digit_char((n % 10) as int)]
    }
}

/// The decimal digit for `d`.
fn digit(d: u64) -> (c: char)
    requires
        d < 10,
    ensures
        c == digit_char(d as int),
{
    if d == 0 { '0' } else if d == 1 { '1' } else if d == 2 { '2' } else if d == 3 { '3' }
    else if d == 4 { '4' } else if d == 5 { '5' } else if d == 6 { '6' } else if d == 7 { '7' }
    else if d == 8 { '8' } else { '9' }
}

/// `n` written in decimal.
pub fn decimal_chars(n: u64) -> (v: Vec<char>)
    ensures
        v@ == spec_decimal(n as nat),
    decreases n,
{
    if n < 10 {
        let mut v: Vec<char> = Vec::new();
        v.push(digit(n));
        proof {
            assert(v@ =~= spec_decimal(n as nat));
        }
        v
    } else {
        let mut v = decimal_chars(n / 10);
        v.push(digit(n % 10));
        proof {
            assert(v@ =~= spec_decimal(n as nat));
        }
        v
    }
}

/// The parts joined with `sep` between consecutive ones.
pub open spec fn join(parts: Seq<Seq<char>>, sep: Seq<char>) -> Seq<char>
    decreases parts.len(),
{
    if parts.len() == 0 {
        Seq::empty()
    } else if parts.len() == 1 {
        parts[0]
    } else {
        join(parts.drop_last(), sep) + sep + parts.last()
    }
}

/// Appends `part` to `acc`, after `sep` unless `acc` holds no part yet.
pub fn append_part(acc: &mut Vec<char>, part: &[char], sep: &[char], first: bool)
    ensures
        final(acc)@ == (if first { old(acc)@ + part@ } else { old(acc)@ + sep@ + part@ }),
{
    if !first {
        let mut i: usize = 0;
        let ghost start = acc@;
        while i < sep.len()
            invariant
                i <= sep@.len(),
                acc@ == start + sep@.subrange(0, i as int),
            decreases sep@.len() - i,
        {
            acc.push(sep[i]);
            i = i + 1;
            proof {
                assert(acc@ =~= start + sep@.subrange(0, i as int));
            }
        }
        proof {
            assert(sep@.subrange(0, sep@.len() as int) =~= sep@);
        }
    }
    let ghost mid = acc@;
    let mut j: usize = 0;
    while j < part.len()
        invariant
            j <= part@.len(),
            acc@ == mid + part@.subrange(0, j as int),
        decreases part@.len() - j,
    {
        acc.push(part[j]);
        j = j + 1;
        proof {
            assert(acc@ =~= mid + part@.subrange(0, j as int));
        }
    }
    proof {
        assert(part@.subrange(0, part@.len() as int) =~= part@);
        assert(acc@ =~= (if first { old(acc)@ + part@ } else { old(acc)@ + sep@ + part@ }));
    }
}

/// The character sequences of a list of character vectors.
pub open spec fn parts_view(parts: Seq<Vec<char>>) -> Seq<Seq<char>> {
    parts.map_values(|p: Vec<char>| p@)
}

/// The parts joined with `sep` between consecutive ones.
pub fn join_parts(parts: &Vec<Vec<char>>, sep: &[char]) -> (out: Vec<char>)
    ensures
        out@ == join(parts_view(parts@), sep@),
{
    let ghost pv = parts_view(parts@);
    let mut out: Vec<char> = Vec::new();
    let n = parts.len();
    let mut i: usize = 0;
    while i < n
        invariant
            n == parts@.len(),
            i <= n,
            pv == parts_view(parts@),
            pv.len() == n,
            out@ == join(pv.subrange(0, i as int), sep@),
        decreases n - i,
    {
        proof {
            assert(pv[i as int] == parts@[i as int]@);
        }
        append_part(&mut out, parts[i].as_slice(), sep, i == 0);
        i = i + 1;
        proof {
            let pre = pv.subrange(0, i as int);
            assert(pre.drop_last() =~= pv.subrange(0, i - 1));
            assert(pre.last() == pv[i - 1]);
            if i == 1 {
                assert(pv.subrange(0, 0) =~= Seq::<Seq<char>>::empty());
                assert(out@ =~= join(pre, sep@));
            }
        }
    }
    proof {
        assert(pv.subrange(0, n as int) =~= pv);
    }
    out
}

} // verus!
