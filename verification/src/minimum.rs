//! The least of a list of scores.

use vstd::prelude::*;

verus! {

/// The least element of a non-empty sequence.
pub open spec fn seq_min(s: Seq<int>) -> int
    decreases s.len(),
{
    if s.len() <= 1 {
        s[0]
    } else {
        let m = seq_min(s.drop_last());
        if s.last() < m { s.last() } else { m }
    }
}

/// The least element, or `d` for an empty sequence.
pub open spec fn min_or(s: Seq<int>, d: int) -> int {
    if s.len() == 0 { d } else { seq_min(s) }
}

/// Machine integers as mathematical ones.
pub open spec fn ints(v: Seq<i64>) -> Seq<int> {
    v.map_values(|x: i64| x as int)
}

/// The least element is one of the elements and no element is smaller.
pub proof fn lemma_seq_min(s: Seq<int>)
    requires
        s.len() > 0,
    ensures
        exists|i: int| 0 <= i < s.len() && s[i] == seq_min(s),
        forall|i: int| 0 <= i < s.len() ==> seq_min(s) <= #[trigger] s[i],
    decreases s.len(),
{
    if s.len() > 1 {
        lemma_seq_min(s.drop_last());
        let i = choose|i: int| 0 <= i < s.drop_last().len() && s.drop_last()[i] == seq_min(s.drop_last());
        if s.last() < seq_min(s.drop_last()) {
            assert(s[s.len() - 1] == seq_min(s));
        } else {
            assert(s[i] == seq_min(s));
        }
        assert forall|j: int| 0 <= j < s.len() implies seq_min(s) <= #[trigger] s[j] by {
            if j < s.len() - 1 {
                assert(s[j] == s.drop_last()[j]);
            }
        }
    } else {
        assert(s[0] == seq_min(s));
    }
}

/// The least of the values, or `default` when there are none.
pub fn min_of(values: &[i64], default: i64) -> (m: i64)
    ensures
        m == min_or(ints(values@), default as int),
{
    if values.len() == 0 {
        return default;
    }
    let mut best = values[0];
    let mut i: usize = 1;
    while i < values.len()
        invariant
            1 <= i <= values@.len(),
            best == seq_min(ints(values@).subrange(0, i as int)),
        decreases values@.len() - i,
    {
        proof {
            let pre = ints(values@).subrange(0, i + 1);
            assert(pre.drop_last() =~= ints(values@).subrange(0, i as int));
        }
        if values[i] < best {
            best = values[i];
        }
        i = i + 1;
    }
    proof {
        assert(ints(values@).subrange(0, values@.len() as int) =~= ints(values@));
    }
    best
}

/// The least element (or the default) lies within bounds that hold of every element and of
/// the default.
pub proof fn lemma_min_or_bounds(s: Seq<int>, d: int, lo: int, hi: int)
    requires
        lo <= d <= hi,
        forall|i: int| 0 <= i < s.len() ==> lo <= #[trigger] s[i] <= hi,
    ensures
        lo <= min_or(s, d) <= hi,
{
    if s.len() > 0 {
        lemma_seq_min(s);
        let i = choose|i: int| 0 <= i < s.len() && s[i] == seq_min(s);
        assert(lo <= s[i] <= hi);
    }
}

} // verus!
