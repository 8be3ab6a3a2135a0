//! Choosing which branches a beam keeps: the branches in ascending order of score (ties
//! in the order they came), boards seen before left out, and boards whose diversity key is
//! new preferred over the rest.

use vstd::prelude::*;
use std::collections::HashSet;

verus! {

broadcast use vstd::std_specs::hash::group_hash_axioms;

/// Branch `i` comes before branch `j`: a lower score, or the same score and earlier.
pub open spec fn ranks_before(scores: Seq<i64>, i: int, j: int) -> bool {
    scores[i] < scores[j] || (scores[i] == scores[j] && i < j)
}

/// `ord` lists the branches in ascending order of score, ties in the order they came:
/// each index once, as a stable sort leaves them.
pub open spec fn is_stable_order(scores: Seq<i64>, ord: Seq<usize>) -> bool {
    &&& ord.len() == scores.len()
    &&& forall|k: int| 0 <= k < ord.len() ==> #[trigger] ord[k] < scores.len()
    &&& forall|a: int, b: int| 0 <= a < b < ord.len() ==> ranks_before(scores, #[trigger] ord[a] as int, #[trigger] ord[b] as int)
}

/// The indices of `scores` in ascending order of score, ties in the order they came.
pub fn stable_order(scores: &Vec<i64>) -> (ord: Vec<usize>)
    ensures
        is_stable_order(scores@, ord@),
{
    let n = scores.len();
    let mut ord: Vec<usize> = Vec::new();
    let mut i: usize = 0;
    while i < n
        invariant
            n == scores@.len(),
            i <= n,
            ord@.len() == i,
            forall|k: int| 0 <= k < ord@.len() ==> #[trigger] ord@[k] < i,
            forall|a: int, b: int| 0 <= a < b < ord@.len() ==>
                ranks_before(scores@, #[trigger] ord@[a] as int, #[trigger] ord@[b] as int),
        decreases n - i,
    {
        let s = scores[i];
        let mut p: usize = 0;
        while p < ord.len() && scores[ord[p]] <= s
            invariant
                n == scores@.len(),
                i < n,
                s == scores@[i as int],
                p <= ord@.len(),
                forall|k: int| 0 <= k < ord@.len() ==> #[trigger] ord@[k] < i,
                forall|k: int| 0 <= k < p ==> scores@[#[trigger] ord@[k] as int] <= s,
            decreases ord@.len() - p,
        {
            p = p + 1;
        }
        let ghost old_ord = ord@;
        proof {
            assert forall|b: int| p <= b < old_ord.len() implies scores@[#[trigger] old_ord[b] as int] > s by {
                if b > p {
                    assert(ranks_before(scores@, old_ord[p as int] as int, old_ord[b] as int));
                }
            }
        }
        ord.insert(p, i);
        proof {
            assert forall|a: int, b: int| 0 <= a < b < ord@.len() implies
                ranks_before(scores@, #[trigger] ord@[a] as int, #[trigger] ord@[b] as int) by {
                if a < p && b == p {
                    assert(ord@[a] == old_ord[a]);
                } else if a == p {
                    assert(ord@[b] == old_ord[b - 1]);
                    if p < old_ord.len() {
                        if b - 1 > p {
                            assert(ranks_before(scores@, old_ord[p as int] as int, old_ord[b - 1] as int));
                        }
                    }
                } else if b < p {
                } else if a < p {
                    assert(ord@[a] == old_ord[a]);
                    assert(ord@[b] == old_ord[b - 1]);
                } else {
                    assert(ord@[a] == old_ord[a - 1]);
                    assert(ord@[b] == old_ord[b - 1]);
                }
            }
        }
        i = i + 1;
    }
    ord
}

/// Where a pass over the ordered branches stands: the branches kept, those put off
/// because their diversity key was taken, the hashes and keys seen, and whether the
/// pass has stopped.
pub struct BeamScan {
    pub kept: Seq<usize>,
    pub deferred: Seq<usize>,
    pub hashes: Set<u64>,
    pub keys: Set<Seq<char>>,
    pub stopped: bool,
}

/// The pass after the first `k` branches of `ord`. A branch whose hash was seen is passed
/// over when `dedup` is set; otherwise its hash is noted, and it is kept when its key is new
/// and put off when not. The pass stops once a branch taken in brings the kept ones to
/// `limit`.
pub open spec fn scan_beam(ord: Seq<usize>, hashes: Seq<u64>, keys: Seq<Seq<char>>, dedup: bool, limit: nat, k: nat) -> BeamScan
    decreases k,
{
    if k == 0 {
        BeamScan { kept: Seq::empty(), deferred: Seq::empty(), hashes: Set::empty(), keys: Set::empty(), stopped: false }
    } else {
        let s = scan_beam(ord, hashes, keys, dedup, limit, (k - 1) as nat);
        let i = ord[k - 1];
        if s.stopped || (dedup && s.hashes.contains(hashes[i as int])) {
            s
        } else if !s.keys.contains(keys[i as int]) {
            BeamScan {
                kept: s.kept.push(i),
                deferred: s.deferred,
                hashes: s.hashes.insert(hashes[i as int]),
                keys: s.keys.insert(keys[i as int]),
                stopped: s.kept.len() + 1 >= limit,
            }
        } else {
            BeamScan {
                kept: s.kept,
                deferred: s.deferred.push(i),
                hashes: s.hashes.insert(hashes[i as int]),
                keys: s.keys,
                stopped: s.kept.len() >= limit,
            }
        }
    }
}

/// The branches a beam keeps: those kept by the pass, then, while fewer than `limit`, the
/// ones put off, in the order they came, up to `limit`.
pub open spec fn spec_select(ord: Seq<usize>, hashes: Seq<u64>, keys: Seq<Seq<char>>, dedup: bool, limit: nat) -> Seq<usize> {
    let s = scan_beam(ord, hashes, keys, dedup, limit, ord.len());
    if s.kept.len() < limit {
        let extra = if s.deferred.len() < limit - s.kept.len() { s.deferred.len() } else { (limit - s.kept.len()) as nat };
        s.kept + s.deferred.take(extra as int)
    } else {
        s.kept
    }
}

/// The key views of a list of strings.
pub open spec fn key_views(keys: Seq<String>) -> Seq<Seq<char>> {
    keys.map_values(|k: String| k@)
}

/// Whether `key` is among `seen`.
pub(crate) fn key_seen(seen: &Vec<String>, key: &String) -> (b: bool)
    ensures
        b == key_views(seen@).contains(key@),
{
    let mut i: usize = 0;
    while i < seen.len()
        invariant
            i <= seen@.len(),
            forall|j: int| 0 <= j < i ==> seen@[j]@ != key@,
        decreases seen@.len() - i,
    {
        if seen[i] == *key {
            proof {
                assert(key_views(seen@)[i as int] == key@);
            }
            return true;
        }
        i = i + 1;
    }
    proof {
        if key_views(seen@).contains(key@) {
            let j = choose|j: int| 0 <= j < key_views(seen@).len() && key_views(seen@)[j] == key@;
            assert(seen@[j]@ == key@);
        }
    }
    false
}

/// Picks the branches a beam keeps, walking them in the order `ord`: with `dedup`, a board
/// whose hash was met before is passed over; a board whose diversity key is new is kept,
/// the others are put off; the walk ends once `limit` branches are kept, and the ones put
/// off fill the rest up to `limit`.
pub fn select_diverse(ord: &Vec<usize>, hashes: &Vec<u64>, keys: &Vec<String>, dedup: bool, limit: usize) -> (picked: Vec<usize>)
    requires
        hashes@.len() == keys@.len(),
        forall|k: int| 0 <= k < ord@.len() ==> #[trigger] ord@[k] < hashes@.len(),
    ensures
        picked@ == spec_select(ord@, hashes@, key_views(keys@), dedup, limit as nat),
{
    let ghost kv = key_views(keys@);
    let mut seen_hashes: HashSet<u64> = HashSet::new();
    let mut seen_keys: Vec<String> = Vec::new();
    let mut kept: Vec<usize> = Vec::new();
    let mut deferred: Vec<usize> = Vec::new();
    let mut stopped = false;
    let mut k: usize = 0;
    while k < ord.len() && !stopped
        invariant
            k <= ord@.len(),
            kv == key_views(keys@),
            hashes@.len() == keys@.len(),
            forall|j: int| 0 <= j < ord@.len() ==> #[trigger] ord@[j] < hashes@.len(),
            ({
                let s = scan_beam(ord@, hashes@, kv, dedup, limit as nat, k as nat);
                &&& s.kept == kept@
                &&& s.deferred == deferred@
                &&& s.hashes == seen_hashes@
                &&& s.keys == key_views(seen_keys@).to_set()
                &&& s.stopped == stopped
            }),
            kept@.len() + deferred@.len() <= k,
        decreases ord@.len() - k,
    {
        let i = ord[k];
        let h = hashes[i];
        proof {
            assert(kv[i as int] == keys@[i as int]@);
        }
        if dedup && seen_hashes.contains(&h) {
        } else {
            seen_hashes.insert(h);
            if !key_seen(&seen_keys, &keys[i]) {
                let ghost before = seen_keys@;
                seen_keys.push(keys[i].clone());
                proof {
                    assert(key_views(seen_keys@) =~= key_views(before).push(keys@[i as int]@));
                    let v = keys@[i as int]@;
                    assert forall|x: Seq<char>| key_views(seen_keys@).contains(x) <==> (key_views(before).contains(x) || x == v) by {
                        if key_views(seen_keys@).contains(x) {
                            let j = choose|j: int| 0 <= j < key_views(seen_keys@).len() && key_views(seen_keys@)[j] == x;
                            if j < key_views(before).len() {
                                assert(key_views(before)[j] == x);
                            }
                        }
                        if key_views(before).contains(x) {
                            let j = choose|j: int| 0 <= j < key_views(before).len() && key_views(before)[j] == x;
                            assert(key_views(seen_keys@)[j] == x);
                        }
                        if x == v {
                            assert(key_views(seen_keys@)[key_views(before).len() as int] == x);
                        }
                    }
                    assert(key_views(seen_keys@).to_set() =~= key_views(before).to_set().insert(v));
                }
                kept.push(i);
                stopped = kept.len() >= limit;
            } else {
                deferred.push(i);
                stopped = kept.len() >= limit;
            }
        }
        k = k + 1;
        proof {
            let s = scan_beam(ord@, hashes@, kv, dedup, limit as nat, k as nat);
            assert(s == scan_beam(ord@, hashes@, kv, dedup, limit as nat, k as nat));
        }
    }
    proof {
        // once the pass has stopped, the remaining branches change nothing
        let s = scan_beam(ord@, hashes@, kv, dedup, limit as nat, k as nat);
        lemma_scan_stays(ord@, hashes@, kv, dedup, limit as nat, k as nat, ord@.len());
    }
    let mut picked = kept;
    if picked.len() < limit {
        let mut d: usize = 0;
        while d < deferred.len() && picked.len() < limit
            invariant
                d <= deferred@.len(),
                picked@ == kept@ + deferred@.take(d as int),
                kept@.len() < limit,
                kept@.len() + d <= limit,
            decreases deferred@.len() - d,
        {
            picked.push(deferred[d]);
            d = d + 1;
            proof {
                assert(picked@ =~= kept@ + deferred@.take(d as int));
            }
        }
        proof {
            let extra = if deferred@.len() < limit - kept@.len() { deferred@.len() } else { (limit - kept@.len()) as nat };
            assert(d == extra);
        }
    }
    picked
}

/// Once stopped, or at the end of the branches, the pass no longer changes.
pub proof fn lemma_scan_stays(ord: Seq<usize>, hashes: Seq<u64>, keys: Seq<Seq<char>>, dedup: bool, limit: nat, k: nat, n: nat)
    requires
        k <= n,
        k == n || scan_beam(ord, hashes, keys, dedup, limit, k).stopped,
    ensures
        scan_beam(ord, hashes, keys, dedup, limit, n) == scan_beam(ord, hashes, keys, dedup, limit, k),
    decreases n - k,
{
    if k < n {
        lemma_scan_stays(ord, hashes, keys, dedup, limit, k, (n - 1) as nat);
    }
}

} // verus!
