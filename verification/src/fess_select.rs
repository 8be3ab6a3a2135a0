//! Choosing the next frontier of the frontier search: candidates grouped into buckets (an
//! event's kind together with the board's bucket key), the best few of each bucket taken
//! first, preferring event kinds not yet taken once half the frontier is full.

use vstd::prelude::*;
use crate::beam::{is_stable_order, stable_order, key_views, key_seen};
use crate::event_select::{EventScoreMode, grouped_list, same_kind_before, spec_select_events, sort_grouped,
    kind_table, assemble};

verus! {

/// How many of each bucket are taken first: `per_bucket`, and at least one.
pub open spec fn take_per_bucket(per_bucket: nat) -> nat {
    if per_bucket == 0 { 1 } else { per_bucket }
}

/// What the pass over the candidates has decided after the first `k` of them in the bucket
/// order `order`: the event kinds met among those taken first, the positions chosen, and how
/// many are chosen. A candidate among the first of its bucket is chosen when its event kind
/// is new or fewer than half the frontier are chosen yet; its kind is noted either way.
pub open spec fn fess_pass(ord: Seq<usize>, event_keys: Seq<Seq<char>>, bucket_keys: Seq<Seq<char>>, per_bucket: nat,
    width: nat, order: Seq<int>, k: nat) -> (Set<Seq<char>>, Set<int>, nat)
    decreases k,
{
    if k == 0 {
        (Set::empty(), Set::empty(), 0)
    } else {
        let (families, chosen, count) = fess_pass(ord, event_keys, bucket_keys, per_bucket, width, order, (k - 1) as nat);
        let p = order[k - 1];
        if same_kind_before(ord, bucket_keys, p, p) < take_per_bucket(per_bucket) {
            let ek = event_keys[ord[p] as int];
            if !families.contains(ek) || count < width / 2 {
                (families.insert(ek), chosen.insert(p), count + 1)
            } else {
                (families.insert(ek), chosen, count)
            }
        } else {
            (families, chosen, count)
        }
    }
}

/// `picks` is the next frontier, as indices into the candidates: by `spec_select_events`
/// over the candidates in ascending order of score, grouped by bucket, with the candidates
/// the pass chose taken first.
pub open spec fn is_frontier(scores: Seq<i64>, event_keys: Seq<Seq<char>>, bucket_keys: Seq<Seq<char>>, width: nat,
    per_bucket: nat, picks: Seq<usize>) -> bool {
    exists|ord: Seq<usize>, firsts: Seq<int>, order: Seq<int>, selected: Seq<int>, deferred: Seq<int>|
        #![trigger fess_pass(ord, event_keys, bucket_keys, per_bucket, width, order, order.len()),
            spec_select_events(ord, scores, firsts, EventScoreMode::Fess, width, selected, deferred)]
    {
        let chosen = fess_pass(ord, event_keys, bucket_keys, per_bucket, width, order, order.len()).1;
        &&& is_stable_order(scores, ord)
        &&& firsts.len() == ord.len()
        &&& (forall|k: int| 0 <= k < ord.len() ==> {
            let f = #[trigger] firsts[k];
            &&& 0 <= f <= k
            &&& bucket_keys[ord[f] as int] == bucket_keys[ord[k] as int]
            &&& same_kind_before(ord, bucket_keys, k, f) == 0
        })
        &&& grouped_list(ord, Seq::new(scores.len(), |i: int| 0i64), firsts, |p: int| true, order)
        &&& grouped_list(ord, scores, firsts, |p: int| chosen.contains(p), selected)
        &&& grouped_list(ord, scores, firsts, |p: int| !chosen.contains(p), deferred)
        &&& picks == spec_select_events(ord, scores, firsts, EventScoreMode::Fess, width, selected, deferred)
            .map_values(|p: int| ord[p])
    }
}

/// The next frontier of the frontier search, as indices into the candidates, given their
/// scores, their event kinds and their bucket keys; at most `width` of them, plus one where
/// exactly `width` were taken first and others wait.
pub fn select_fess_frontier(scores: &Vec<i64>, event_keys: &Vec<String>, bucket_keys: &Vec<String>, width: usize,
    per_bucket: usize) -> (picks: Vec<usize>)
    requires
        scores@.len() == event_keys@.len(),
        scores@.len() == bucket_keys@.len(),
    ensures
        is_frontier(scores@, key_views(event_keys@), key_views(bucket_keys@), width as nat, per_bucket as nat, picks@),
        forall|k: int| 0 <= k < picks@.len() ==> #[trigger] picks@[k] < scores@.len(),
{
    let n = scores.len();
    let ord = stable_order(scores);
    let (firsts, _early) = kind_table(&ord, bucket_keys);
    let ghost fs = firsts@.map_values(|f: usize| f as int);
    let ghost ek = key_views(event_keys@);
    let ghost bk = key_views(bucket_keys@);
    let mut zeros: Vec<i64> = Vec::new();
    let mut all: Vec<bool> = Vec::new();
    let mut i: usize = 0;
    while i < n
        invariant
            i <= n,
            n == scores@.len(),
            zeros@ == Seq::new(i as nat, |j: int| 0i64),
            all@.len() == i,
            forall|j: int| 0 <= j < i ==> #[trigger] all@[j],
        decreases n - i,
    {
        zeros.push(0);
        all.push(true);
        i = i + 1;
        proof {
            assert(zeros@ =~= Seq::new(i as nat, |j: int| 0i64));
        }
    }
    let order = sort_grouped(&ord, &zeros, &firsts, &all);
    let ghost ov = order@.map_values(|p: usize| p as int);
    let take: usize = if per_bucket == 0 { 1 } else { per_bucket };
    let mut families: Vec<String> = Vec::new();
    let mut chosen: Vec<bool> = Vec::new();
    let mut j: usize = 0;
    while j < n
        invariant
            j <= n,
            chosen@.len() == j,
            forall|q: int| 0 <= q < j ==> !#[trigger] chosen@[q],
        decreases n - j,
    {
        chosen.push(false);
        j = j + 1;
    }
    let mut count: usize = 0;
    let mut k: usize = 0;
    proof {
        assert forall|q: int| 0 <= q < order@.len() implies #[trigger] order@[q] < ord@.len() by {
            assert(ov[q] == order@[q] as int);
        }
    }
    while k < order.len()
        invariant
            k <= order@.len(),
            ov == order@.map_values(|p: usize| p as int),
            forall|q: int| 0 <= q < order@.len() ==> #[trigger] order@[q] < ord@.len(),
            ord@.len() == n,
            n == scores@.len(),
            n == event_keys@.len(),
            n == bucket_keys@.len(),
            forall|q: int| 0 <= q < ord@.len() ==> #[trigger] ord@[q] < scores@.len(),
            chosen@.len() == n,
            take == take_per_bucket(per_bucket as nat),
            ek == key_views(event_keys@),
            bk == key_views(bucket_keys@),
            ({
                let st = fess_pass(ord@, ek, bk, per_bucket as nat, width as nat, ov, k as nat);
                &&& st.0 == key_views(families@).to_set()
                &&& forall|q: int| 0 <= q < n ==> (#[trigger] chosen@[q] <==> st.1.contains(q))
                &&& st.2 == count
            }),
            count <= k,
        decreases order@.len() - k,
    {
        let p = order[k];
        let mut rank: usize = 0;
        let mut q: usize = 0;
        while q < p
            invariant
                q <= p,
                p < ord@.len(),
                forall|r: int| 0 <= r < ord@.len() ==> #[trigger] ord@[r] < scores@.len(),
                n == scores@.len(),
                n == bucket_keys@.len(),
                ord@.len() == n,
                bk == key_views(bucket_keys@),
                rank == same_kind_before(ord@, bk, p as int, q as int),
                rank <= q,
            decreases p - q,
        {
            proof {
                assert(bk[ord@[q as int] as int] == bucket_keys@[ord@[q as int] as int]@);
                assert(bk[ord@[p as int] as int] == bucket_keys@[ord@[p as int] as int]@);
            }
            if bucket_keys[ord[q]] == bucket_keys[ord[p]] {
                rank = rank + 1;
            }
            q = q + 1;
        }
        let ghost fam0 = families@;
        if rank < take {
            let e = &event_keys[ord[p]];
            proof {
                assert(ek[ord@[p as int] as int] == event_keys@[ord@[p as int] as int]@);
            }
            let seen = key_seen(&families, e);
            if !seen || count < width / 2 {
                chosen.set(p, true);
                count = count + 1;
            }
            if !seen {
                families.push(e.clone());
            }
            proof {
                let v = ek[ord@[p as int] as int];
                assert(key_views(families@).to_set() =~= key_views(fam0).to_set().insert(v)) by {
                    if !seen {
                        assert(key_views(families@) =~= key_views(fam0).push(v));
                        assert forall|x: Seq<char>| key_views(families@).contains(x) <==> (key_views(fam0).contains(x) || x == v) by {
                            if key_views(families@).contains(x) {
                                let i2 = choose|i2: int| 0 <= i2 < key_views(families@).len() && key_views(families@)[i2] == x;
                                if i2 < key_views(fam0).len() {
                                    assert(key_views(fam0)[i2] == x);
                                }
                            }
                            if key_views(fam0).contains(x) {
                                let i2 = choose|i2: int| 0 <= i2 < key_views(fam0).len() && key_views(fam0)[i2] == x;
                                assert(key_views(families@)[i2] == x);
                            }
                            if x == v {
                                assert(key_views(families@)[key_views(fam0).len() as int] == x);
                            }
                        }
                    }
                }
            }
        }
        k = k + 1;
        proof {
            assert(ov[k - 1] == p as int);
        }
    }
    let mut late: Vec<bool> = Vec::new();
    let mut r: usize = 0;
    while r < n
        invariant
            r <= n,
            chosen@.len() == n,
            late@.len() == r,
            forall|q: int| 0 <= q < r ==> #[trigger] late@[q] == !chosen@[q],
        decreases n - r,
    {
        late.push(!chosen[r]);
        r = r + 1;
    }
    let selected = sort_grouped(&ord, scores, &firsts, &chosen);
    let deferred = sort_grouped(&ord, scores, &firsts, &late);
    let ghost sv = selected@.map_values(|p: usize| p as int);
    let ghost dv = deferred@.map_values(|p: usize| p as int);
    proof {
        assert forall|q: int| 0 <= q < selected@.len() implies #[trigger] selected@[q] < ord@.len() by {
            assert(sv[q] == selected@[q] as int);
        }
        assert forall|q: int| 0 <= q < deferred@.len() implies #[trigger] deferred@[q] < ord@.len() by {
            assert(dv[q] == deferred@[q] as int);
        }
    }
    let picks = assemble(&ord, scores, Ghost(fs), EventScoreMode::Fess, width, &selected, &deferred);
    proof {
        let st = fess_pass(ord@, ek, bk, per_bucket as nat, width as nat, ov, ov.len());
        assert(ov.len() == order@.len());
        assert(zeros@ =~= Seq::new(scores@.len(), |i: int| 0i64));
        assert(grouped_list(ord@, Seq::new(scores@.len(), |i: int| 0i64), fs, |p: int| true, ov));
        assert(grouped_list(ord@, scores@, fs, |p: int| st.1.contains(p), sv));
        assert(grouped_list(ord@, scores@, fs, |p: int| !st.1.contains(p), dv));
    }
    picks
}

} // verus!
