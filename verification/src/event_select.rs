//! Choosing which events an event search keeps: the best scored, and, when grouping, at most
//! two of each kind of event first, the others after.

use vstd::prelude::*;
use crate::beam::{is_stable_order, stable_order, key_views};

verus! {

/// How an event search scores and groups its events.
#[derive(Clone, Copy, Debug, PartialEq, Eq, Structural)]
pub enum EventScoreMode {
    /// Trigger branch scores; events are not grouped.
    Trigger,
    /// Frontier branch scores; events are grouped by kind.
    Fess,
}

/// The number of positions before `i` in `ord` whose event shares the kind of the event at
/// position `k`.
pub open spec fn same_kind_before(ord: Seq<usize>, keys: Seq<Seq<char>>, k: int, i: int) -> nat
    decreases i,
{
    if i <= 0 {
        0
    } else {
        same_kind_before(ord, keys, k, i - 1) + (if keys[ord[i - 1] as int] == keys[ord[k] as int] { 1nat } else { 0nat })
    }
}

/// Position `a` comes before position `b`: a lower score, or the same score and a kind met
/// earlier, or the same kind and an earlier position.
pub open spec fn group_before(ord: Seq<usize>, scores: Seq<i64>, firsts: Seq<int>, a: int, b: int) -> bool {
    ||| scores[ord[a] as int] < scores[ord[b] as int]
    ||| (scores[ord[a] as int] == scores[ord[b] as int] && firsts[a] < firsts[b])
    ||| (scores[ord[a] as int] == scores[ord[b] as int] && firsts[a] == firsts[b] && a < b)
}

/// `list` holds, each once, the positions of `ord` passing `keep`, in the order `group_before`.
pub open spec fn grouped_list(ord: Seq<usize>, scores: Seq<i64>, firsts: Seq<int>, keep: spec_fn(int) -> bool, list: Seq<int>) -> bool {
    &&& forall|k: int| 0 <= k < list.len() ==> 0 <= #[trigger] list[k] < ord.len() && keep(list[k])
    &&& forall|p: int| 0 <= p < ord.len() && keep(p) ==> #[trigger] list.contains(p)
    &&& forall|a: int, b: int| 0 <= a < b < list.len() ==> group_before(ord, scores, firsts, #[trigger] list[a], #[trigger] list[b])
}

/// How many of `deferred` put-off events join `selected` chosen ones when at most `max` are
/// kept: the chosen ones are cut to `max` when there are more; otherwise put-off events are
/// added up to `max`, and one is added when the chosen ones already number `max`.
pub open spec fn deferred_taken(selected: nat, deferred: nat, max: nat) -> nat {
    if selected > max {
        0
    } else {
        let room: nat = if selected < max { (max - selected) as nat } else { 1 };
        if deferred < room { deferred } else { room }
    }
}

/// Where a list of `len` items is cut when at most `max` are kept.
pub open spec fn cut(len: nat, max: nat) -> nat {
    if len < max { len } else { max }
}

/// The events an event search keeps, as positions in the ascending order of score `ord`:
/// without grouping (or with no more than `max` events), the first `max`; with grouping,
/// the first two events of each kind, in the order `group_before`, then, where they leave
/// room, the other events in that order.
pub open spec fn spec_select_events(ord: Seq<usize>, scores: Seq<i64>, firsts: Seq<int>, mode: EventScoreMode, max: nat,
    selected: Seq<int>, deferred: Seq<int>) -> Seq<int> {
    if mode == EventScoreMode::Trigger || ord.len() <= max {
        Seq::new(cut(ord.len(), max), |k: int| k)
    } else if selected.len() > max {
        selected.take(max as int)
    } else {
        selected + deferred.take(deferred_taken(selected.len(), deferred.len(), max) as int)
    }
}

/// Whether position `a` comes before position `b` in the grouped order.
fn group_less(ord: &Vec<usize>, scores: &Vec<i64>, firsts: &Vec<usize>, a: usize, b: usize) -> (r: bool)
    requires
        a < ord@.len(),
        b < ord@.len(),
        firsts@.len() == ord@.len(),
        forall|k: int| 0 <= k < ord@.len() ==> #[trigger] ord@[k] < scores@.len(),
    ensures
        r == group_before(ord@, scores@, firsts@.map_values(|f: usize| f as int), a as int, b as int),
{
    let sa = scores[ord[a]];
    let sb = scores[ord[b]];
    sa < sb || (sa == sb && firsts[a] < firsts[b]) || (sa == sb && firsts[a] == firsts[b] && a < b)
}

/// The positions passing `keep` (given as flags), sorted in the grouped order.
pub(crate) fn sort_grouped(ord: &Vec<usize>, scores: &Vec<i64>, firsts: &Vec<usize>, keep: &Vec<bool>) -> (list: Vec<usize>)
    requires
        firsts@.len() == ord@.len(),
        keep@.len() == ord@.len(),
        forall|k: int| 0 <= k < ord@.len() ==> #[trigger] ord@[k] < scores@.len(),
        forall|k: int| 0 <= k < ord@.len() ==> #[trigger] firsts@[k] <= k,
    ensures
        grouped_list(ord@, scores@, firsts@.map_values(|f: usize| f as int), |p: int| keep@[p],
            list@.map_values(|p: usize| p as int)),
{
    let ghost fs = firsts@.map_values(|f: usize| f as int);
    let ghost kp = |p: int| keep@[p];
    let mut list: Vec<usize> = Vec::new();
    let mut i: usize = 0;
    while i < ord.len()
        invariant
            i <= ord@.len(),
            firsts@.len() == ord@.len(),
            keep@.len() == ord@.len(),
            fs == firsts@.map_values(|f: usize| f as int),
            kp == (|p: int| keep@[p]),
            forall|k: int| 0 <= k < ord@.len() ==> #[trigger] ord@[k] < scores@.len(),
            forall|k: int| 0 <= k < list@.len() ==> #[trigger] list@[k] < i && keep@[list@[k] as int],
            forall|p: int| 0 <= p < i && keep@[p] ==> #[trigger] list@.contains(p as usize),
            forall|a: int, b: int| 0 <= a < b < list@.len() ==>
                group_before(ord@, scores@, fs, #[trigger] list@[a] as int, #[trigger] list@[b] as int),
        decreases ord@.len() - i,
    {
        if keep[i] {
            let mut p: usize = 0;
            while p < list.len() && group_less(ord, scores, firsts, list[p], i)
                invariant
                    i < ord@.len(),
                    p <= list@.len(),
                    firsts@.len() == ord@.len(),
                    fs == firsts@.map_values(|f: usize| f as int),
                    forall|k: int| 0 <= k < ord@.len() ==> #[trigger] ord@[k] < scores@.len(),
                    forall|k: int| 0 <= k < list@.len() ==> #[trigger] list@[k] < i,
                    forall|k: int| 0 <= k < p ==> group_before(ord@, scores@, fs, #[trigger] list@[k] as int, i as int),
                decreases list@.len() - p,
            {
                p = p + 1;
            }
            let ghost old_list = list@;
            proof {
                assert forall|b: int| p <= b < old_list.len() implies
                    group_before(ord@, scores@, fs, i as int, #[trigger] old_list[b] as int) by {
                    if b > p {
                        assert(group_before(ord@, scores@, fs, old_list[p as int] as int, old_list[b] as int));
                    }
                }
            }
            list.insert(p, i);
            proof {
                assert forall|a: int, b: int| 0 <= a < b < list@.len() implies
                    group_before(ord@, scores@, fs, #[trigger] list@[a] as int, #[trigger] list@[b] as int) by {
                    if a < p && b == p {
                        assert(list@[a] == old_list[a]);
                    } else if a == p {
                        assert(list@[b] == old_list[b - 1]);
                    } else if b < p {
                    } else if a < p {
                        assert(list@[a] == old_list[a]);
                        assert(list@[b] == old_list[b - 1]);
                        assert(group_before(ord@, scores@, fs, old_list[a] as int, old_list[b - 1] as int));
                    } else {
                        assert(list@[a] == old_list[a - 1]);
                        assert(list@[b] == old_list[b - 1]);
                    }
                }
                assert forall|q: int| 0 <= q < i + 1 && keep@[q] implies #[trigger] list@.contains(q as usize) by {
                    if q == i {
                        assert(list@[p as int] == i);
                    } else {
                        assert(old_list.contains(q as usize));
                        let k = choose|k: int| 0 <= k < old_list.len() && old_list[k] == q as usize;
                        if k < p {
                            assert(list@[k] == q as usize);
                        } else {
                            assert(list@[k + 1] == q as usize);
                        }
                    }
                }
            }
        }
        i = i + 1;
    }
    proof {
        let lv = list@.map_values(|p: usize| p as int);
        assert forall|p: int| 0 <= p < ord@.len() && kp(p) implies #[trigger] lv.contains(p) by {
            assert(list@.contains(p as usize));
            let k = choose|k: int| 0 <= k < list@.len() && list@[k] == p as usize;
            assert(lv[k] == p);
        }
    }
    list
}

/// For each position of `ord`, the position of the first event of its kind, and whether it
/// is among the first two of its kind.
pub(crate) fn kind_table(ord: &Vec<usize>, keys: &Vec<String>) -> (r: (Vec<usize>, Vec<bool>))
    requires
        forall|k: int| 0 <= k < ord@.len() ==> #[trigger] ord@[k] < keys@.len(),
    ensures
        r.0@.len() == ord@.len(),
        r.1@.len() == ord@.len(),
        forall|k: int| 0 <= k < ord@.len() ==> #[trigger] r.0@[k] <= k,
        forall|k: int| 0 <= k < ord@.len() ==> {
            let f = #[trigger] r.0@[k] as int;
            &&& key_views(keys@)[ord@[f] as int] == key_views(keys@)[ord@[k] as int]
            &&& same_kind_before(ord@, key_views(keys@), k, f) == 0
        },
        forall|k: int| 0 <= k < ord@.len() ==> (#[trigger] r.1@[k] <==> same_kind_before(ord@, key_views(keys@), k, k) < 2),
{
    let ghost kv = key_views(keys@);
    let mut firsts: Vec<usize> = Vec::new();
    let mut early: Vec<bool> = Vec::new();
    let mut k: usize = 0;
    while k < ord.len()
        invariant
            k <= ord@.len(),
            kv == key_views(keys@),
            forall|j: int| 0 <= j < ord@.len() ==> #[trigger] ord@[j] < keys@.len(),
            firsts@.len() == k,
            early@.len() == k,
            forall|j: int| 0 <= j < k ==> #[trigger] firsts@[j] <= j,
            forall|j: int| 0 <= j < k ==> {
                let f = #[trigger] firsts@[j] as int;
                &&& kv[ord@[f] as int] == kv[ord@[j] as int]
                &&& same_kind_before(ord@, kv, j, f) == 0
            },
            forall|j: int| 0 <= j < k ==> (#[trigger] early@[j] <==> same_kind_before(ord@, kv, j, j) < 2),
        decreases ord@.len() - k,
    {
        let mut first: usize = k;
        let mut count: usize = 0;
        let mut j: usize = 0;
        while j < k
            invariant
                j <= k,
                k < ord@.len(),
                kv == key_views(keys@),
                forall|q: int| 0 <= q < ord@.len() ==> #[trigger] ord@[q] < keys@.len(),
                count == same_kind_before(ord@, kv, k as int, j as int),
                count <= j,
                first <= k,
                count == 0 ==> first == k,
                count > 0 ==> first < j && kv[ord@[first as int] as int] == kv[ord@[k as int] as int]
                    && same_kind_before(ord@, kv, k as int, first as int) == 0,
            decreases k - j,
        {
            proof {
                assert(kv[ord@[j as int] as int] == keys@[ord@[j as int] as int]@);
                assert(kv[ord@[k as int] as int] == keys@[ord@[k as int] as int]@);
            }
            if keys[ord[j]] == keys[ord[k]] {
                if count == 0 {
                    first = j;
                }
                count = count + 1;
            }
            j = j + 1;
        }
        firsts.push(first);
        early.push(count < 2);
        k = k + 1;
    }
    (firsts, early)
}

/// The positions kept, by `spec_select_events`, mapped to the indices they order.
pub(crate) fn assemble(ord: &Vec<usize>, scores: &Vec<i64>, Ghost(fs): Ghost<Seq<int>>, mode: EventScoreMode, max_events: usize,
    selected: &Vec<usize>, deferred: &Vec<usize>) -> (picks: Vec<usize>)
    requires
        forall|k: int| 0 <= k < ord@.len() ==> #[trigger] ord@[k] < scores@.len(),
        forall|k: int| 0 <= k < selected@.len() ==> #[trigger] selected@[k] < ord@.len(),
        forall|k: int| 0 <= k < deferred@.len() ==> #[trigger] deferred@[k] < ord@.len(),
    ensures
        picks@ == spec_select_events(ord@, scores@, fs, mode, max_events as nat,
            selected@.map_values(|p: usize| p as int), deferred@.map_values(|p: usize| p as int)).map_values(|p: int| ord@[p]),
        forall|k: int| 0 <= k < picks@.len() ==> #[trigger] picks@[k] < scores@.len(),
{
    let ghost sv = selected@.map_values(|p: usize| p as int);
    let ghost dv = deferred@.map_values(|p: usize| p as int);
    let n = ord.len();
    let mut positions: Vec<usize> = Vec::new();
    if mode == EventScoreMode::Trigger || n <= max_events {
        let c = if n < max_events { n } else { max_events };
        let mut k: usize = 0;
        while k < c
            invariant
                k <= c,
                c <= n,
                positions@ == Seq::new(k as nat, |j: int| j as usize),
            decreases c - k,
        {
            positions.push(k);
            k = k + 1;
            proof {
                assert(positions@ =~= Seq::new(k as nat, |j: int| j as usize));
            }
        }
        proof {
            assert(positions@.map_values(|p: usize| p as int) =~= Seq::new(cut(n as nat, max_events as nat), |j: int| j));
        }
    } else if selected.len() > max_events {
        let mut k: usize = 0;
        while k < max_events
            invariant
                k <= max_events,
                max_events < selected@.len(),
                positions@ == selected@.take(k as int),
            decreases max_events - k,
        {
            positions.push(selected[k]);
            k = k + 1;
            proof {
                assert(positions@ =~= selected@.take(k as int));
            }
        }
        proof {
            assert(positions@.map_values(|p: usize| p as int) =~= sv.take(max_events as int));
        }
    } else {
        let mut k: usize = 0;
        while k < selected.len()
            invariant
                k <= selected@.len(),
                positions@ == selected@.take(k as int),
            decreases selected@.len() - k,
        {
            positions.push(selected[k]);
            k = k + 1;
            proof {
                assert(positions@ =~= selected@.take(k as int));
            }
        }
        proof {
            assert(selected@.take(selected@.len() as int) =~= selected@);
            assert(deferred@.take(0) =~= Seq::<usize>::empty());
            assert(positions@ =~= selected@ + deferred@.take(0));
        }
        let ghost taken = deferred_taken(selected@.len(), deferred@.len(), max_events as nat);
        let mut d: usize = 0;
        while d < deferred.len() && (d == 0 || positions.len() < max_events)
            invariant
                d <= deferred@.len(),
                selected@.len() <= max_events,
                taken == deferred_taken(selected@.len(), deferred@.len(), max_events as nat),
                positions@ == selected@ + deferred@.take(d as int),
                d <= taken,
            decreases deferred@.len() - d,
        {
            positions.push(deferred[d]);
            d = d + 1;
            proof {
                assert(positions@ =~= selected@ + deferred@.take(d as int));
            }
        }
        proof {
            assert(d == taken);
            assert(positions@.map_values(|p: usize| p as int) =~= sv + dv.take(taken as int));
        }
    }
    proof {
        assert(positions@.map_values(|p: usize| p as int)
            == spec_select_events(ord@, scores@, fs, mode, max_events as nat, sv, dv));
        assert forall|k: int| 0 <= k < positions@.len() implies #[trigger] positions@[k] < ord@.len() by {
            let v = positions@.map_values(|p: usize| p as int);
            assert(v[k] == positions@[k] as int);
        }
    }
    let mut picks: Vec<usize> = Vec::new();
    let mut k: usize = 0;
    while k < positions.len()
        invariant
            k <= positions@.len(),
            forall|j: int| 0 <= j < positions@.len() ==> #[trigger] positions@[j] < ord@.len(),
            picks@ == positions@.take(k as int).map_values(|p: usize| ord@[p as int]),
        decreases positions@.len() - k,
    {
        picks.push(ord[positions[k]]);
        k = k + 1;
        proof {
            assert(picks@ =~= positions@.take(k as int).map_values(|p: usize| ord@[p as int]));
        }
    }
    proof {
        assert(positions@.take(positions@.len() as int) =~= positions@);
        let sp = spec_select_events(ord@, scores@, fs, mode, max_events as nat, sv, dv);
        assert(picks@ =~= sp.map_values(|p: int| ord@[p]));
        assert forall|k: int| 0 <= k < picks@.len() implies #[trigger] picks@[k] < scores@.len() by {
            assert(picks@[k] == ord@[positions@[k] as int]);
        }
    }
    picks
}

/// `picks` are the events an event search keeps, as indices into `scores` and `keys`: see
/// `spec_select_events`.
pub open spec fn is_selection(scores: Seq<i64>, keys: Seq<Seq<char>>, max_events: nat, mode: EventScoreMode, picks: Seq<usize>) -> bool {
    exists|ord: Seq<usize>, firsts: Seq<int>, selected: Seq<int>, deferred: Seq<int>| {
        &&& is_stable_order(scores, ord)
        &&& firsts.len() == ord.len()
        &&& (forall|k: int| 0 <= k < ord.len() ==> {
            let f = #[trigger] firsts[k];
            &&& 0 <= f <= k
            &&& keys[ord[f] as int] == keys[ord[k] as int]
            &&& same_kind_before(ord, keys, k, f) == 0
        })
        &&& grouped_list(ord, scores, firsts, |p: int| same_kind_before(ord, keys, p, p) < 2, selected)
        &&& grouped_list(ord, scores, firsts, |p: int| same_kind_before(ord, keys, p, p) >= 2, deferred)
        &&& picks == spec_select_events(ord, scores, firsts, mode, max_events, selected, deferred)
            .map_values(|p: int| ord[p])
    }
}

/// The events an event search keeps, as indices into `scores` and `keys`: see
/// `spec_select_events`.
pub fn select_event_successors(scores: &Vec<i64>, keys: &Vec<String>, max_events: usize, mode: EventScoreMode) -> (picks: Vec<usize>)
    requires
        scores@.len() == keys@.len(),
    ensures
        is_selection(scores@, key_views(keys@), max_events as nat, mode, picks@),
        forall|k: int| 0 <= k < picks@.len() ==> #[trigger] picks@[k] < scores@.len(),
{
    let ord = stable_order(scores);
    let (firsts, early) = kind_table(&ord, keys);
    let mut late: Vec<bool> = Vec::new();
    let mut i: usize = 0;
    while i < early.len()
        invariant
            i <= early@.len(),
            late@.len() == i,
            forall|k: int| 0 <= k < i ==> #[trigger] late@[k] == !early@[k],
        decreases early@.len() - i,
    {
        late.push(!early[i]);
        i = i + 1;
    }
    let ghost fs = firsts@.map_values(|f: usize| f as int);
    let ghost kv = key_views(keys@);
    let selected = sort_grouped(&ord, scores, &firsts, &early);
    let deferred = sort_grouped(&ord, scores, &firsts, &late);
    let ghost sv = selected@.map_values(|p: usize| p as int);
    let ghost dv = deferred@.map_values(|p: usize| p as int);
    proof {
        assert forall|k: int| 0 <= k < selected@.len() implies #[trigger] selected@[k] < ord@.len() by {
            assert(sv[k] == selected@[k] as int);
        }
        assert forall|k: int| 0 <= k < deferred@.len() implies #[trigger] deferred@[k] < ord@.len() by {
            assert(dv[k] == deferred@[k] as int);
        }
    }
    let picks = assemble(&ord, scores, Ghost(fs), mode, max_events, &selected, &deferred);
    proof {
        assert forall|q: int| 0 <= q < ord@.len() implies (#[trigger] early@[q] <==> same_kind_before(ord@, kv, q, q) < 2) by {}
        assert(grouped_list(ord@, scores@, fs, |p: int| same_kind_before(ord@, kv, p, p) < 2, sv));
        assert(grouped_list(ord@, scores@, fs, |p: int| same_kind_before(ord@, kv, p, p) >= 2, dv));
    }
    picks
}

} // verus!
