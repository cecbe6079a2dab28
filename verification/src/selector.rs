use vstd::prelude::*;

use crate::config::SelectionPolicy;
use crate::config::UpstreamTargetSet;
use crate::errors::Error;

verus! {

/// How many of the flags are set.
pub open spec fn count_true(s: Seq<bool>) -> int
    decreases s.len(),
{
    if s.len() == 0 {
        0
    } else {
        (if s[0] {
            1int
        } else {
            0int
        }) + count_true(s.skip(1))
    }
}

/// Some flag is set.
pub open spec fn any_true(s: Seq<bool>) -> bool {
    exists|i: int| 0 <= i < s.len() && s[i]
}

/// The sum of the weights, as unbounded integers.
pub open spec fn sum_weights(s: Seq<u64>) -> int
    decreases s.len(),
{
    if s.len() == 0 {
        0
    } else {
        s[0] + sum_weights(s.skip(1))
    }
}

/// The weights with every unhealthy peer's weight forced to zero.
pub open spec fn effective_weights(ws: Seq<u64>, healthy: Seq<bool>) -> Seq<u64> {
    Seq::new(ws.len(), |i: int| if healthy[i] { ws[i] } else { 0 })
}

/// The peer a draw of `x` lands on: the unique index whose cumulative weight
/// interval contains `x`.
pub open spec fn weighted_pick(ws: Seq<u64>, x: int) -> int
    decreases ws.len(),
{
    if ws.len() == 0 {
        0
    } else if x < ws[0] {
        0
    } else {
        1 + weighted_pick(ws.skip(1), x - ws[0])
    }
}

/// The cyclic position of index `j` when scanning starts at `start` in a ring
/// of `n` peers.
pub open spec fn cyclic_pos(start: int, n: int, j: int) -> int {
    if j >= start {
        j - start
    } else {
        j - start + n
    }
}

/// Appending a flag adds one to the count exactly when it is set.
pub proof fn lemma_count_true_push(s: Seq<bool>, b: bool)
    ensures
        count_true(s.push(b)) == count_true(s) + (if b {
            1int
        } else {
            0int
        }),
    decreases s.len(),
{
    if s.len() == 0 {
        assert(s.push(b)[0] == b);
        assert(s.push(b).skip(1) =~= Seq::<bool>::empty());
        assert(count_true(Seq::<bool>::empty()) == 0);
    } else {
        assert(s.push(b).skip(1) =~= s.skip(1).push(b));
        lemma_count_true_push(s.skip(1), b);
        assert(s.push(b)[0] == s[0]);
    }
}

/// A set flag makes the count positive.
pub proof fn lemma_count_true_witness(s: Seq<bool>, i: int)
    requires
        0 <= i < s.len(),
        s[i],
    ensures
        count_true(s) > 0,
    decreases i,
{
    if i == 0 {
        lemma_count_true_nonneg(s.skip(1));
    } else {
        assert(s.skip(1)[i - 1] == s[i]);
        lemma_count_true_witness(s.skip(1), i - 1);
        lemma_count_true_nonneg(s.skip(1));
    }
}

/// The count never goes negative.
pub proof fn lemma_count_true_nonneg(s: Seq<bool>)
    ensures
        count_true(s) >= 0,
    decreases s.len(),
{
    if s.len() > 0 {
        lemma_count_true_nonneg(s.skip(1));
    }
}

/// A sum of weights never goes negative.
pub proof fn lemma_sum_nonneg(s: Seq<u64>)
    ensures
        sum_weights(s) >= 0,
    decreases s.len(),
{
    if s.len() > 0 {
        lemma_sum_nonneg(s.skip(1));
    }
}

/// Appending a weight adds it to the sum.
pub proof fn lemma_sum_push(s: Seq<u64>, w: u64)
    ensures
        sum_weights(s.push(w)) == sum_weights(s) + w,
    decreases s.len(),
{
    if s.len() == 0 {
        assert(s.push(w)[0] == w);
        assert(s.push(w).skip(1) =~= Seq::<u64>::empty());
        assert(sum_weights(Seq::<u64>::empty()) == 0);
    } else {
        assert(s.push(w).skip(1) =~= s.skip(1).push(w));
        lemma_sum_push(s.skip(1), w);
        assert(s.push(w)[0] == s[0]);
    }
}

/// A sequence splits into a prefix and the rest, and so does its sum.
pub proof fn lemma_sum_split(s: Seq<u64>, i: int)
    requires
        0 <= i <= s.len(),
    ensures
        sum_weights(s) == sum_weights(s.take(i)) + sum_weights(s.skip(i)),
    decreases i,
{
    if i == 0 {
        assert(s.take(0) =~= Seq::<u64>::empty());
        assert(sum_weights(Seq::<u64>::empty()) == 0);
        assert(s.skip(0) =~= s);
    } else {
        lemma_sum_split(s, i - 1);
        assert(s.take(i - 1).push(s[i - 1]) =~= s.take(i));
        lemma_sum_push(s.take(i - 1), s[i - 1]);
        assert(s.skip(i - 1)[0] == s[i - 1]);
        assert(s.skip(i - 1).skip(1) =~= s.skip(i));
    }
}

/// The draw `x` lands on index `i` exactly when `x` falls in `i`'s cumulative
/// weight interval.
pub proof fn lemma_weighted_pick_at(ws: Seq<u64>, i: int, x: int)
    requires
        0 <= i < ws.len(),
        sum_weights(ws.take(i)) <= x < sum_weights(ws.take(i)) + ws[i],
    ensures
        weighted_pick(ws, x) == i,
    decreases i,
{
    lemma_sum_nonneg(ws.take(i));
    if i == 0 {
        assert(ws.take(0) =~= Seq::<u64>::empty());
    } else {
        assert(sum_weights(ws.take(1)) == ws[0]) by {
            assert(ws.take(1)[0] == ws[0]);
            assert(ws.take(1).skip(1) =~= Seq::<u64>::empty());
            assert(sum_weights(Seq::<u64>::empty()) == 0);
        }
        // x is at least the whole prefix sum, which contains ws[0].
        assert(sum_weights(ws.take(i)) >= ws[0]) by {
            lemma_sum_split(ws.take(i), 1);
            assert(ws.take(i).take(1) =~= ws.take(1));
            lemma_sum_nonneg(ws.take(i).skip(1));
        }
        assert(x >= ws[0]);
        assert(ws.skip(1).take(i - 1) =~= ws.take(i).skip(1));
        assert(sum_weights(ws.take(i)) == ws[0] + sum_weights(ws.skip(1).take(i - 1))) by {
            lemma_sum_split(ws.take(i), 1);
            assert(ws.take(i).take(1) =~= ws.take(1));
        }
        assert(ws.skip(1)[i - 1] == ws[i]);
        lemma_weighted_pick_at(ws.skip(1), i - 1, x - ws[0]);
    }
}

/// The peer index the `k`-th of a run of round-robin selections lands on
/// when every peer is healthy: selections walk the ring one step at a time.
pub open spec fn rr_nth_pick(c: u64, n: int, k: int) -> int {
    (c as int + k) % n
}

/// Law: round-robin is fair over one full cycle. Any two of `n` consecutive
/// selections from a shared counter land on different peers, so across `n`
/// consecutive selections with no concurrent interleaving each of the `n`
/// peers is chosen exactly once.
pub proof fn lemma_round_robin_cycle(c: u64, n: int, i: int, j: int)
    requires
        0 < n,
        0 <= i < j < n,
    ensures
        rr_nth_pick(c, n, i) != rr_nth_pick(c, n, j),
{
    let x = c as int + i;
    let y = c as int + j;
    vstd::arithmetic::div_mod::lemma_fundamental_div_mod(x, n);
    vstd::arithmetic::div_mod::lemma_fundamental_div_mod(y, n);
    vstd::arithmetic::div_mod::lemma_mod_bound(x, n);
    vstd::arithmetic::div_mod::lemma_mod_bound(y, n);
    if x % n == y % n {
        let q1 = x / n;
        let q2 = y / n;
        assert(j - i == n * q2 - n * q1);
        assert(n * q2 - n * q1 == n * (q2 - q1)) by (nonlinear_arith);
        assert(q2 - q1 >= 1 ==> n * (q2 - q1) >= n) by (nonlinear_arith)
            requires
                n > 0,
        ;
        assert(q2 - q1 <= 0 ==> n * (q2 - q1) <= 0) by (nonlinear_arith)
            requires
                n > 0,
        ;
        assert(false);
    }
}

/// One all-healthy round-robin selection from counter `c` picks peer
/// `c % n` and leaves the counter at `(pick + 1) % n` — which makes the next
/// pick `(c + 1) % n`. So the `k`-th of a run of such selections is
/// `rr_nth_pick(c, n, k)`, and the cycle law above applies to the run.
pub proof fn lemma_round_robin_step(c: u64, n: int)
    requires
        0 < n,
    ensures
        ((c as int % n) + 1) % n == (c as int + 1) % n,
{
    vstd::arithmetic::div_mod::lemma_mod_bound(c as int, n);
    vstd::arithmetic::div_mod::lemma_add_mod_noop(c as int, 1, n);
    if n == 1 {
        vstd::arithmetic::div_mod::lemma_mod_bound((c as int % n) + 1, n);
        vstd::arithmetic::div_mod::lemma_mod_bound(c as int + 1, n);
    } else {
        vstd::arithmetic::div_mod::lemma_small_mod(1nat, n as nat);
    }
}

/// A draw inside the total weight lands in the cumulative interval of the
/// peer it picks.
pub proof fn lemma_weighted_pick_in_interval(ws: Seq<u64>, x: int)
    requires
        0 <= x < sum_weights(ws),
    ensures
        ({
            let p = weighted_pick(ws, x);
            &&& 0 <= p < ws.len()
            &&& sum_weights(ws.take(p)) <= x < sum_weights(ws.take(p)) + ws[p]
        }),
    decreases ws.len(),
{
    if ws.len() == 0 {
        assert(sum_weights(ws) == 0);
    } else if x < ws[0] {
        assert(ws.take(0) =~= Seq::<u64>::empty());
        assert(sum_weights(Seq::<u64>::empty()) == 0);
    } else {
        let p = weighted_pick(ws, x);
        let q = weighted_pick(ws.skip(1), x - ws[0]);
        lemma_weighted_pick_in_interval(ws.skip(1), x - ws[0]);
        assert(ws.take(p).skip(1) =~= ws.skip(1).take(q));
        assert(ws.take(p)[0] == ws[0]);
        assert(sum_weights(ws.take(p)) == ws[0] + sum_weights(ws.skip(1).take(q)));
        assert(ws.skip(1)[q] == ws[p]);
    }
}

/// Law: weighted selection is exactly proportional over one full cycle of
/// draws. For each peer `i`, the draws in `[0, total)` that pick `i` are
/// exactly the contiguous block of width `ws[i]` starting at the cumulative
/// weight before `i` — so over any whole cycle of draws each peer is picked
/// exactly `ws[i]` times, and frequencies stand in the ratio of the weights.
pub proof fn lemma_weighted_fairness(ws: Seq<u64>, i: int, x: int)
    requires
        0 <= i < ws.len(),
    ensures
        (sum_weights(ws.take(i)) <= x < sum_weights(ws.take(i)) + ws[i]) <==> (0 <= x
            < sum_weights(ws) && weighted_pick(ws, x) == i),
{
    lemma_sum_split(ws, i);
    lemma_sum_nonneg(ws.take(i));
    lemma_sum_nonneg(ws.skip(i));
    if sum_weights(ws.take(i)) <= x < sum_weights(ws.take(i)) + ws[i] {
        lemma_weighted_pick_at(ws, i, x);
        assert(ws.skip(i)[0] == ws[i]);
        assert(ws.skip(i).skip(1) =~= ws.skip(i + 1));
        lemma_sum_nonneg(ws.skip(i + 1));
    }
    if 0 <= x < sum_weights(ws) && weighted_pick(ws, x) == i {
        lemma_weighted_pick_in_interval(ws, x);
    }
}

/// Picks the first healthy index scanning cyclically from `start`.
fn cyclic_first_healthy(healthy: &Vec<bool>, start: usize) -> (r: Option<usize>)
    requires
        start < healthy@.len(),
    ensures
        match r {
            Some(i) => {
                &&& i < healthy@.len()
                &&& healthy@[i as int]
                &&& (i >= start ==> forall|j: int| start <= j < i ==> !healthy@[j])
                &&& (i < start ==> (forall|j: int| start <= j < healthy@.len() ==> !healthy@[j])
                    && (forall|j: int| 0 <= j < i ==> !healthy@[j]))
            },
            None => !any_true(healthy@),
        },
{
    let n = healthy.len();
    let mut i: usize = start;
    while i < n
        invariant
            start <= i <= n,
            n == healthy@.len(),
            forall|j: int| start <= j < i ==> !healthy@[j],
        decreases n - i,
    {
        if healthy[i] {
            return Some(i);
        }
        i = i + 1;
    }
    let mut k: usize = 0;
    while k < start
        invariant
            0 <= k <= start,
            start < n == healthy@.len(),
            forall|j: int| start <= j < n ==> !healthy@[j],
            forall|j: int| 0 <= j < k ==> !healthy@[j],
        decreases start - k,
    {
        if healthy[k] {
            return Some(k);
        }
        k = k + 1;
    }
    proof {
        assert forall|j: int| 0 <= j < healthy@.len() implies !healthy@[j] by {}
    }
    None
}

/// Round-robin selection: the first healthy peer scanning cyclically from the
/// shared counter; the counter then points just past the chosen peer, so that
/// over one full cycle of an all-healthy set each peer is chosen exactly
/// once.
pub fn select_round_robin(healthy: &Vec<bool>, counter: &mut u64) -> (r: Result<usize, Error>)
    ensures
        r is Ok <==> any_true(healthy@),
        r matches Ok(i) ==> {
            let n = healthy@.len() as int;
            let start = *old(counter) as int % n;
            &&& i < n
            &&& healthy@[i as int]
            &&& (i >= start ==> forall|j: int| start <= j < i ==> !healthy@[j])
            &&& (i < start ==> (forall|j: int| start <= j < n ==> !healthy@[j]) && (forall|j: int|
                0 <= j < i ==> !healthy@[j]))
            &&& *final(counter) == (i + 1) as int % n
        },
        r matches Err(e) ==> e is UpstreamUnavailable && *final(counter) == *old(counter),
{
    let n = healthy.len();
    if n == 0 {
        return Err(Error::UpstreamUnavailable);
    }
    let start = (*counter % (n as u64)) as usize;
    match cyclic_first_healthy(healthy, start) {
        Some(i) => {
            *counter = ((i as u64) + 1) % (n as u64);
            Ok(i)
        },
        None => Err(Error::UpstreamUnavailable),
    }
}

/// Uniform selection over the healthy peers: the draw's remainder ranks them
/// and the peer of that rank is chosen.
pub fn select_random(healthy: &Vec<bool>, draw: u64) -> (r: Result<usize, Error>)
    ensures
        r is Ok <==> any_true(healthy@),
        r matches Ok(i) ==> i < healthy@.len() && healthy@[i as int] && count_true(
            healthy@.take(i as int),
        ) == draw as int % count_true(healthy@),
        r matches Err(e) ==> e is UpstreamUnavailable,
{
    let n = healthy.len();
    let mut h: usize = 0;
    let mut i: usize = 0;
    proof {
        assert(healthy@.take(0) =~= Seq::<bool>::empty());
    }
    #[verifier::loop_isolation(false)]
    while i < n
        invariant
            0 <= i <= n,
            h == count_true(healthy@.take(i as int)),
            h <= i,
        decreases n - i,
    {
        proof {
            lemma_count_true_push(healthy@.take(i as int), healthy@[i as int]);
            assert(healthy@.take(i as int).push(healthy@[i as int]) =~= healthy@.take(i as int + 1));
        }
        if healthy[i] {
            h = h + 1;
        }
        i = i + 1;
    }
    proof {
        assert(healthy@.take(n as int) =~= healthy@);
    }
    if h == 0 {
        proof {
            if any_true(healthy@) {
                let w = choose|j: int| 0 <= j < healthy@.len() && healthy@[j];
                lemma_count_true_witness(healthy@, w);
            }
        }
        return Err(Error::UpstreamUnavailable);
    }
    let rank = (draw % (h as u64)) as usize;
    let mut c: usize = 0;
    let mut i: usize = 0;
    proof {
        assert(healthy@.take(0) =~= Seq::<bool>::empty());
    }
    #[verifier::loop_isolation(false)]
    while i < n
        invariant
            0 <= i <= n,
            c == count_true(healthy@.take(i as int)),
            c <= rank,
            rank < h,
            h == count_true(healthy@),
        decreases n - i,
    {
        proof {
            lemma_count_true_push(healthy@.take(i as int), healthy@[i as int]);
            assert(healthy@.take(i as int).push(healthy@[i as int]) =~= healthy@.take(i as int + 1));
        }
        if healthy[i] {
            if c == rank {
                return Ok(i);
            }
            c = c + 1;
        }
        i = i + 1;
    }
    proof {
        assert(healthy@.take(n as int) =~= healthy@);
        assert(false);
    }
    Err(Error::UpstreamUnavailable)
}

/// Weighted selection: the draw's remainder modulo the total healthy weight
/// falls in exactly one peer's cumulative interval; a zero-weight or
/// unhealthy peer is never chosen. Fails exactly when no healthy peer has
/// positive weight.
pub fn select_weighted(weights: &Vec<u64>, healthy: &Vec<bool>, draw: u64) -> (r: Result<
    usize,
    Error,
>)
    requires
        weights@.len() == healthy@.len(),
    ensures
        r is Ok <==> sum_weights(effective_weights(weights@, healthy@)) > 0,
        r matches Ok(i) ==> {
            let eff = effective_weights(weights@, healthy@);
            &&& i < weights@.len()
            &&& healthy@[i as int]
            &&& weights@[i as int] > 0
            &&& i as int == weighted_pick(eff, draw as int % sum_weights(eff))
        },
        r matches Err(e) ==> e is UpstreamUnavailable,
{
    let ghost eff = effective_weights(weights@, healthy@);
    let n = weights.len();
    let mut total: u128 = 0;
    let mut i: usize = 0;
    proof {
        assert(eff.take(0) =~= Seq::<u64>::empty());
    }
    #[verifier::loop_isolation(false)]
    while i < n
        invariant
            0 <= i <= n,
            total == sum_weights(eff.take(i as int)),
            total <= (i as int) * 0xffff_ffff_ffff_ffffu64,
        decreases n - i,
    {
        proof {
            lemma_sum_push(eff.take(i as int), eff[i as int]);
            assert(eff.take(i as int).push(eff[i as int]) =~= eff.take(i as int + 1));
            assert((i as int) * 0xffff_ffff_ffff_ffffu64 + 0xffff_ffff_ffff_ffffu64 == (i as int
                + 1) * 0xffff_ffff_ffff_ffffu64) by (nonlinear_arith);
            assert((i as int + 1) * 0xffff_ffff_ffff_ffffu64 < u128::MAX) by (nonlinear_arith)
                requires
                    0 <= i < n <= usize::MAX,
            ;
        }
        let w: u64 = if healthy[i] {
            weights[i]
        } else {
            0
        };
        total = total + (w as u128);
        i = i + 1;
    }
    proof {
        assert(eff.take(n as int) =~= eff);
    }
    if total == 0 {
        return Err(Error::UpstreamUnavailable);
    }
    let x: u128 = (draw as u128) % total;
    let ghost gx = draw as int % sum_weights(eff);
    let mut cum: u128 = 0;
    let mut i: usize = 0;
    proof {
        assert(eff.take(0) =~= Seq::<u64>::empty());
        lemma_sum_split(eff, 0);
    }
    #[verifier::loop_isolation(false)]
    while i < n
        invariant
            0 <= i <= n,
            cum == sum_weights(eff.take(i as int)),
            cum + sum_weights(eff.skip(i as int)) == total,
            cum <= x < total,
            x == gx,
        decreases n - i,
    {
        proof {
            lemma_sum_push(eff.take(i as int), eff[i as int]);
            assert(eff.take(i as int).push(eff[i as int]) =~= eff.take(i as int + 1));
            assert(eff.skip(i as int)[0] == eff[i as int]);
            assert(eff.skip(i as int).skip(1) =~= eff.skip(i as int + 1));
            lemma_sum_nonneg(eff.skip(i as int + 1));
        }
        let w: u64 = if healthy[i] {
            weights[i]
        } else {
            0
        };
        if x < cum + (w as u128) {
            proof {
                lemma_weighted_pick_at(eff, i as int, x as int);
            }
            return Ok(i);
        }
        cum = cum + (w as u128);
        i = i + 1;
    }
    proof {
        assert(eff.take(n as int) =~= eff);
        assert(false);
    }
    Err(Error::UpstreamUnavailable)
}

/// Least-connections selection: among the healthy peers, the fewest live
/// connections wins; ties go to the peer that comes first in cyclic order
/// from the shared counter, which then points just past the winner.
pub fn select_least_connections(
    conns: &Vec<u64>,
    healthy: &Vec<bool>,
    counter: &mut u64,
) -> (r: Result<usize, Error>)
    requires
        conns@.len() == healthy@.len(),
    ensures
        r is Ok <==> any_true(healthy@),
        r matches Ok(i) ==> {
            let n = healthy@.len() as int;
            let start = *old(counter) as int % n;
            &&& i < n
            &&& healthy@[i as int]
            &&& forall|j: int|
                0 <= j < n && healthy@[j] ==> conns@[i as int] < conns@[j] || (conns@[i as int]
                    == conns@[j] && cyclic_pos(start, n, i as int) <= cyclic_pos(start, n, j))
            &&& *final(counter) == (i + 1) as int % n
        },
        r matches Err(e) ==> e is UpstreamUnavailable && *final(counter) == *old(counter),
{
    let n = healthy.len();
    if n == 0 {
        return Err(Error::UpstreamUnavailable);
    }
    let start = (*counter % (n as u64)) as usize;
    let mut best: Option<usize> = None;
    let mut k: usize = 0;
    let ghost gs = start as int;
    let ghost gn = n as int;
    #[verifier::loop_isolation(false)]
    while k < n
        invariant
            0 <= k <= n,
            0 <= gs < gn == healthy@.len(),
            match best {
                Some(b) => {
                    &&& b < n
                    &&& healthy@[b as int]
                    &&& cyclic_pos(gs, gn, b as int) < k
                    &&& forall|j: int|
                        0 <= j < gn && healthy@[j] && cyclic_pos(gs, gn, j) < k ==> conns@[
                            b as int] < conns@[j] || (conns@[b as int] == conns@[j] && cyclic_pos(
                            gs,
                            gn,
                            b as int,
                        ) <= cyclic_pos(gs, gn, j))
                },
                None => forall|j: int|
                    0 <= j < gn && cyclic_pos(gs, gn, j) < k ==> !healthy@[j],
            },
        decreases n - k,
    {
        let idx = if k < n - start {
            start + k
        } else {
            k - (n - start)
        };
        proof {
            assert(cyclic_pos(gs, gn, idx as int) == k as int);
        }
        if healthy[idx] {
            match best {
                Some(b) => {
                    if conns[idx] < conns[b] {
                        best = Some(idx);
                    }
                },
                None => {
                    best = Some(idx);
                },
            }
        }
        k = k + 1;
    }
    match best {
        Some(b) => {
            proof {
                assert forall|j: int| 0 <= j < gn && healthy@[j] implies conns@[b as int]
                    < conns@[j] || (conns@[b as int] == conns@[j] && cyclic_pos(gs, gn, b as int)
                    <= cyclic_pos(gs, gn, j)) by {
                    assert(cyclic_pos(gs, gn, j) < gn);
                }
            }
            *counter = ((b as u64) + 1) % (n as u64);
            Ok(b)
        },
        None => {
            proof {
                assert forall|j: int| 0 <= j < gn implies !healthy@[j] by {
                    assert(cyclic_pos(gs, gn, j) < gn);
                }
            }
            Err(Error::UpstreamUnavailable)
        },
    }
}

/// Whether any peer of the set is eligible under its policy and the given
/// health: a healthy peer, and for a weighted policy one with positive
/// weight.
pub open spec fn has_eligible_peer(set: UpstreamTargetSet, healthy: Seq<bool>) -> bool {
    match set.policy {
        SelectionPolicy::Weighted(ws) => sum_weights(effective_weights(ws@, healthy)) > 0,
        _ => any_true(healthy),
    }
}

/// What a successful selection guarantees, policy by policy.
pub open spec fn valid_selection(
    set: UpstreamTargetSet,
    healthy: Seq<bool>,
    conns: Seq<u64>,
    c0: u64,
    draw: u64,
    i: int,
    c1: u64,
) -> bool {
    let n = set.peers@.len() as int;
    let start = c0 as int % n;
    &&& 0 <= i < n
    &&& healthy[i]
    &&& match set.policy {
        SelectionPolicy::RoundRobin => {
            &&& (i >= start ==> forall|j: int| start <= j < i ==> !healthy[j])
            &&& (i < start ==> (forall|j: int| start <= j < n ==> !healthy[j]) && (forall|j: int|
                0 <= j < i ==> !healthy[j]))
            &&& c1 as int == (i + 1) % n
        },
        SelectionPolicy::Weighted(ws) => {
            let eff = effective_weights(ws@, healthy);
            &&& ws@[i] > 0
            &&& i == weighted_pick(eff, draw as int % sum_weights(eff))
            &&& c1 == c0
        },
        SelectionPolicy::Random => {
            &&& count_true(healthy.take(i)) == draw as int % count_true(healthy)
            &&& c1 == c0
        },
        SelectionPolicy::LeastConnections => {
            &&& forall|j: int|
                0 <= j < n && healthy[j] ==> conns[i] < conns[j] || (conns[i] == conns[j]
                    && cyclic_pos(start, n, i) <= cyclic_pos(start, n, j))
            &&& c1 as int == (i + 1) % n
        },
    }
}

/// Picks exactly one peer of the target set per its policy, or fails with
/// `UpstreamUnavailable` exactly when no peer is eligible. The counter is the
/// per-target-set round-robin state; the draw feeds the randomized policies.
pub fn select_peer(
    set: &UpstreamTargetSet,
    healthy: &Vec<bool>,
    conns: &Vec<u64>,
    counter: &mut u64,
    draw: u64,
) -> (r: Result<usize, Error>)
    requires
        set.wf(),
        healthy@.len() == set.peers@.len(),
        conns@.len() == set.peers@.len(),
    ensures
        r is Ok <==> has_eligible_peer(*set, healthy@),
        r matches Ok(i) ==> valid_selection(
            *set,
            healthy@,
            conns@,
            *old(counter),
            draw,
            i as int,
            *final(counter),
        ),
        r matches Err(e) ==> e is UpstreamUnavailable && *final(counter) == *old(counter),
{
    match &set.policy {
        SelectionPolicy::RoundRobin => select_round_robin(healthy, counter),
        SelectionPolicy::Weighted(ws) => select_weighted(ws, healthy, draw),
        SelectionPolicy::Random => select_random(healthy, draw),
        SelectionPolicy::LeastConnections => select_least_connections(conns, healthy, counter),
    }
}

} // verus!
