use vstd::prelude::*;
use crate::engine::{
    absorb_all, eligible, initial, run, saturate, step, stops_after, Policy, Round, Scored, SearchModel,
};

verus! {

/// Total number of candidates carried by `rounds`.
pub open spec fn total_candidates(rounds: Seq<Round>) -> nat
    decreases rounds.len(),
{
    if rounds.len() == 0 {
        0
    } else {
        total_candidates(rounds.drop_last()) + rounds.last().candidates.len()
    }
}

/// Every candidate carried by `rounds`, in order.
pub open spec fn all_candidates(rounds: Seq<Round>) -> Seq<Scored>
    decreases rounds.len(),
{
    if rounds.len() == 0 {
        Seq::empty()
    } else {
        all_candidates(rounds.drop_last()) + rounds.last().candidates
    }
}

/// The largest of `m` and the difficulties in `cs` that `policy` lets count.
pub open spec fn max_eligible(policy: Policy, m: u32, cs: Seq<Scored>) -> u32
    decreases cs.len(),
{
    if cs.len() == 0 {
        m
    } else {
        let p = max_eligible(policy, m, cs.drop_last());
        let d = cs.last().difficulty;
        if eligible(policy, d) && d > p { d } else { p }
    }
}

proof fn lemma_absorb_all_max(b: crate::engine::Best, nonce: u64, cs: Seq<Scored>, policy: Policy)
    ensures
        absorb_all(b, nonce, cs, policy).difficulty == max_eligible(policy, b.difficulty, cs),
        absorb_all(b, nonce, cs, policy).difficulty >= b.difficulty,
    decreases cs.len(),
{
    if cs.len() > 0 {
        lemma_absorb_all_max(b, nonce, cs.drop_last(), policy);
    }
}

proof fn lemma_max_concat(policy: Policy, m: u32, a: Seq<Scored>, b: Seq<Scored>)
    ensures
        max_eligible(policy, m, a + b) == max_eligible(policy, max_eligible(policy, m, a), b),
    decreases b.len(),
{
    if b.len() > 0 {
        assert((a + b).drop_last() =~= a + b.drop_last());
        lemma_max_concat(policy, m, a, b.drop_last());
    }
}

/// Once a search has stopped, later rounds change nothing.
pub proof fn lemma_stopped_stays(s: SearchModel, rounds: Seq<Round>, m: int)
    requires
        0 <= m <= rounds.len(),
        run(s, rounds.take(m)).stopped,
    ensures
        run(s, rounds) == run(s, rounds.take(m)),
    decreases rounds.len(),
{
    if rounds.len() == m {
        assert(rounds.take(m) =~= rounds);
    } else {
        assert(rounds.drop_last().take(m) =~= rounds.take(m));
        lemma_stopped_stays(s, rounds.drop_last(), m);
    }
}

/// While no round reaches the end of the range or the cutoff, the search
/// moves one nonce per round and counts every candidate.
proof fn lemma_walk(start: u64, end: u64, cutoff: u64, policy: Policy, rounds: Seq<Round>, k: int)
    requires
        0 <= k <= rounds.len(),
        forall|j: int| 0 <= j < k ==> start + j < end && #[trigger] rounds[j].elapsed < cutoff,
    ensures
        !run(initial(start, end, cutoff, policy), rounds.take(k)).stopped,
        run(initial(start, end, cutoff, policy), rounds.take(k)).nonce == start + k,
        run(initial(start, end, cutoff, policy), rounds.take(k)).checked == saturate(
            total_candidates(rounds.take(k)) as int,
        ),
    decreases k,
{
    let s = initial(start, end, cutoff, policy);
    if k == 0 {
        assert(rounds.take(0) =~= Seq::<Round>::empty());
    } else {
        lemma_walk(start, end, cutoff, policy, rounds, k - 1);
        let prev = rounds.take(k - 1);
        let p = run(s, prev);
        assert(rounds.take(k).drop_last() =~= prev);
        assert(rounds.take(k).last() == rounds[k - 1]);
        assert(rounds[k - 1].elapsed < cutoff);
        lemma_run_fixed(s, prev);
        assert(run(s, rounds.take(k)) == step(p, rounds[k - 1]));
        let b = absorb_all(p.best, p.nonce, rounds[k - 1].candidates, policy);
        assert(!stops_after(p, b.difficulty, rounds[k - 1].elapsed));
        assert(total_candidates(rounds.take(k)) == total_candidates(prev) + rounds[k - 1].candidates.len());
    }
}

/// With `start_nonce <= end_nonce` and a clock that never reaches the cutoff,
/// a search scans each nonce of the range in turn, one round each, stops
/// right after `end_nonce`, and counts every candidate it was given
/// (saturating at `u32::MAX`).
pub proof fn law_full_range(start: u64, end: u64, cutoff: u64, policy: Policy, rounds: Seq<Round>)
    requires
        start <= end,
        rounds.len() == end - start + 1,
        forall|j: int| 0 <= j < rounds.len() ==> #[trigger] rounds[j].elapsed < cutoff,
    ensures
        forall|k: int|
            0 <= k < rounds.len() ==> {
                let p = #[trigger] run(initial(start, end, cutoff, policy), rounds.take(k));
                !p.stopped && p.nonce == start + k
            },
        run(initial(start, end, cutoff, policy), rounds).stopped,
        run(initial(start, end, cutoff, policy), rounds).nonce == end,
        run(initial(start, end, cutoff, policy), rounds).checked == saturate(
            total_candidates(rounds) as int,
        ),
{
    let s = initial(start, end, cutoff, policy);
    assert forall|k: int| 0 <= k < rounds.len() implies {
        let p = #[trigger] run(s, rounds.take(k));
        !p.stopped && p.nonce == start + k
    } by {
        lemma_walk(start, end, cutoff, policy, rounds, k);
    }
    let n = rounds.len() - 1;
    lemma_walk(start, end, cutoff, policy, rounds, n);
    assert(rounds.drop_last() =~= rounds.take(n));
    lemma_run_fixed(s, rounds.take(n));
    assert(run(s, rounds) == step(run(s, rounds.take(n)), rounds.last()));
}

/// The best difficulty never goes down, round by round.
pub proof fn law_best_non_decreasing(s: SearchModel, rounds: Seq<Round>)
    ensures
        run(s, rounds).best.difficulty >= s.best.difficulty,
    decreases rounds.len(),
{
    if rounds.len() > 0 {
        law_best_non_decreasing(s, rounds.drop_last());
        let p = run(s, rounds.drop_last());
        lemma_absorb_all_max(p.best, p.nonce, rounds.last().candidates, p.policy);
    }
}

/// When a search used every round it was given, its best difficulty is the
/// largest difficulty among all eligible candidates of those rounds, or 0.
pub proof fn law_best_is_max_eligible(start: u64, end: u64, cutoff: u64, policy: Policy, rounds: Seq<Round>)
    requires
        rounds.len() > 0 ==> !run(initial(start, end, cutoff, policy), rounds.drop_last()).stopped,
    ensures
        run(initial(start, end, cutoff, policy), rounds).best.difficulty == max_eligible(
            policy,
            0,
            all_candidates(rounds),
        ),
    decreases rounds.len(),
{
    let s = initial(start, end, cutoff, policy);
    if rounds.len() > 0 {
        let prev = rounds.drop_last();
        if prev.len() > 0 {
            // a stopped search stays stopped, so the earlier rounds were used too
            assert(!run(s, prev.drop_last()).stopped);
        }
        law_best_is_max_eligible(start, end, cutoff, policy, prev);
        let p = run(s, prev);
        lemma_run_fixed(s, prev);
        assert(run(s, rounds) == step(p, rounds.last()));
        assert(all_candidates(rounds) == all_candidates(prev) + rounds.last().candidates);
        lemma_absorb_all_max(p.best, p.nonce, rounds.last().candidates, policy);
        lemma_max_concat(policy, 0, all_candidates(prev), rounds.last().candidates);
    }
}

/// When a search used every round it was given, it counted every candidate
/// of those rounds (saturating at `u32::MAX`).
pub proof fn law_checked_counts_all(start: u64, end: u64, cutoff: u64, policy: Policy, rounds: Seq<Round>)
    requires
        rounds.len() > 0 ==> !run(initial(start, end, cutoff, policy), rounds.drop_last()).stopped,
    ensures
        run(initial(start, end, cutoff, policy), rounds).checked == saturate(total_candidates(rounds) as int),
    decreases rounds.len(),
{
    let s = initial(start, end, cutoff, policy);
    if rounds.len() > 0 {
        let prev = rounds.drop_last();
        if prev.len() > 0 {
            assert(!run(s, prev.drop_last()).stopped);
        }
        law_checked_counts_all(start, end, cutoff, policy, prev);
        assert(run(s, rounds) == step(run(s, prev), rounds.last()));
    }
}

/// A search from `start_nonce <= end_nonce` never goes past `end_nonce`.
pub proof fn law_nonce_within_range(start: u64, end: u64, cutoff: u64, policy: Policy, rounds: Seq<Round>)
    requires
        start <= end,
    ensures
        start <= run(initial(start, end, cutoff, policy), rounds).nonce <= end,
    decreases rounds.len(),
{
    if rounds.len() > 0 {
        let s = initial(start, end, cutoff, policy);
        law_nonce_within_range(start, end, cutoff, policy, rounds.drop_last());
        lemma_run_fixed(s, rounds.drop_last());
    }
}

/// In a search that used every round it was given, no earlier prefix of the
/// rounds had stopped it, and each prefix of length `k` left it at nonce
/// `start + k`.
pub proof fn lemma_used_prefix(start: u64, end: u64, cutoff: u64, policy: Policy, rounds: Seq<Round>, k: int)
    requires
        rounds.len() > 0,
        !run(initial(start, end, cutoff, policy), rounds.drop_last()).stopped,
        0 <= k < rounds.len(),
    ensures
        !run(initial(start, end, cutoff, policy), rounds.take(k)).stopped,
        run(initial(start, end, cutoff, policy), rounds.take(k)).nonce == start + k,
    decreases rounds.len(),
{
    let s = initial(start, end, cutoff, policy);
    if k == rounds.len() - 1 {
        assert(rounds.take(k) =~= rounds.drop_last());
    } else {
        let prev = rounds.drop_last();
        assert(!run(s, prev.drop_last()).stopped);
        lemma_used_prefix(start, end, cutoff, policy, prev, k);
        assert(prev.take(k) =~= rounds.take(k));
    }
    lemma_prefix_nonce(start, end, cutoff, policy, rounds, k);
}

proof fn lemma_prefix_nonce(start: u64, end: u64, cutoff: u64, policy: Policy, rounds: Seq<Round>, k: int)
    requires
        0 <= k <= rounds.len(),
        !run(initial(start, end, cutoff, policy), rounds.take(k)).stopped,
    ensures
        run(initial(start, end, cutoff, policy), rounds.take(k)).nonce == start + k,
    decreases k,
{
    let s = initial(start, end, cutoff, policy);
    if k == 0 {
        assert(rounds.take(0) =~= Seq::<Round>::empty());
    } else {
        assert(rounds.take(k).drop_last() =~= rounds.take(k - 1));
        lemma_prefix_nonce(start, end, cutoff, policy, rounds, k - 1);
    }
}

/// Under the unconditional cutoff, a search that used every round it was
/// given and stopped saw no earlier round at `end_nonce` or past the cutoff,
/// and its last round was at `end_nonce` or past the cutoff.
pub proof fn law_unconditional_trace(start: u64, end: u64, cutoff: u64, rounds: Seq<Round>)
    requires
        rounds.len() > 0,
        !run(initial(start, end, cutoff, Policy::Unconditional), rounds.drop_last()).stopped,
        run(initial(start, end, cutoff, Policy::Unconditional), rounds).stopped,
    ensures
        forall|j: int| 0 <= j < rounds.len() - 1 ==> start + j < end && #[trigger] rounds[j].elapsed < cutoff,
        start + rounds.len() - 1 >= end || rounds.last().elapsed >= cutoff,
        run(initial(start, end, cutoff, Policy::Unconditional), rounds).nonce == start + rounds.len() - 1,
{
    let s = initial(start, end, cutoff, Policy::Unconditional);
    let n = rounds.len() - 1;
    assert forall|j: int| 0 <= j < rounds.len() - 1 implies start + j < end && #[trigger] rounds[j].elapsed < cutoff by {
        lemma_used_prefix(start, end, cutoff, Policy::Unconditional, rounds, j);
        lemma_used_prefix(start, end, cutoff, Policy::Unconditional, rounds, j + 1);
        lemma_run_fixed(s, rounds.take(j));
        assert(rounds.take(j + 1).drop_last() =~= rounds.take(j));
        assert(rounds.take(j + 1).last() == rounds[j]);
    }
    lemma_used_prefix(start, end, cutoff, Policy::Unconditional, rounds, n);
    assert(rounds.take(n) =~= rounds.drop_last());
    lemma_run_fixed(s, rounds.drop_last());
}

/// Under the unconditional cutoff a search stops at the first round that
/// reaches `end_nonce` or whose clock reading reaches the cutoff, whatever the
/// best difficulty, and looks at no round after it.
pub proof fn law_unconditional_stop(start: u64, end: u64, cutoff: u64, rounds: Seq<Round>, k: int)
    requires
        0 <= k < rounds.len(),
        start + k >= end || rounds[k].elapsed >= cutoff,
        forall|j: int| 0 <= j < k ==> start + j < end && #[trigger] rounds[j].elapsed < cutoff,
    ensures
        forall|j: int| 0 <= j <= k ==> !(#[trigger] run(initial(start, end, cutoff, Policy::Unconditional), rounds.take(j))).stopped,
        run(initial(start, end, cutoff, Policy::Unconditional), rounds).stopped,
        run(initial(start, end, cutoff, Policy::Unconditional), rounds).nonce == start + k,
        run(initial(start, end, cutoff, Policy::Unconditional), rounds) == run(
            initial(start, end, cutoff, Policy::Unconditional),
            rounds.take(k + 1),
        ),
{
    let s = initial(start, end, cutoff, Policy::Unconditional);
    assert forall|j: int| 0 <= j <= k implies !(#[trigger] run(s, rounds.take(j))).stopped by {
        lemma_walk(start, end, cutoff, Policy::Unconditional, rounds, j);
    }
    assert(forall|j: int| 0 <= j < k ==> start + j < end && #[trigger] rounds[j].elapsed < cutoff);
    lemma_walk(start, end, cutoff, Policy::Unconditional, rounds, k);
    assert(rounds.take(k + 1).drop_last() =~= rounds.take(k));
    lemma_run_fixed(s, rounds.take(k));
    assert(rounds.take(k + 1).last() == rounds[k]);
    assert(run(s, rounds.take(k + 1)) == step(run(s, rounds.take(k)), rounds[k]));
    lemma_stopped_stays(s, rounds, k + 1);
}

/// Under the threshold-gated policy one round never stops a search on the
/// clock alone while the best difficulty is below the accept threshold, and
/// the round of `end_nonce` always stops it.
pub proof fn law_gated_step(s: SearchModel, r: Round, quality_floor: u32, accept_threshold: u32)
    requires
        s.policy == (Policy::ThresholdGated { quality_floor, accept_threshold }),
        !s.stopped,
    ensures
        s.nonce < s.end_nonce && step(s, r).best.difficulty < accept_threshold ==> !step(s, r).stopped
            && step(s, r).nonce == s.nonce + 1,
        s.nonce >= s.end_nonce ==> step(s, r).stopped && step(s, r).nonce == s.nonce,
{
}

/// Under the threshold-gated policy a search that stopped with its best
/// difficulty below the accept threshold stopped at `end_nonce` or later.
pub proof fn law_gated_stop(start: u64, end: u64, cutoff: u64, quality_floor: u32, accept_threshold: u32, rounds: Seq<Round>)
    requires
        run(initial(start, end, cutoff, Policy::ThresholdGated { quality_floor, accept_threshold }), rounds).stopped,
        run(initial(start, end, cutoff, Policy::ThresholdGated { quality_floor, accept_threshold }), rounds).best.difficulty
            < accept_threshold,
    ensures
        run(initial(start, end, cutoff, Policy::ThresholdGated { quality_floor, accept_threshold }), rounds).nonce >= end,
    decreases rounds.len(),
{
    let s = initial(start, end, cutoff, Policy::ThresholdGated { quality_floor, accept_threshold });
    if rounds.len() > 0 {
        let p = run(s, rounds.drop_last());
        lemma_run_fixed(s, rounds.drop_last());
        if p.stopped {
            law_gated_stop(start, end, cutoff, quality_floor, accept_threshold, rounds.drop_last());
        }
    }
}

/// Two searches fed the same candidates, whose clocks both stay below the
/// cutoff, end in the same state.
pub proof fn law_clock_independent(s: SearchModel, r1: Seq<Round>, r2: Seq<Round>)
    requires
        r1.len() == r2.len(),
        forall|j: int| 0 <= j < r1.len() ==> #[trigger] r1[j].candidates == r2[j].candidates,
        forall|j: int| 0 <= j < r1.len() ==> #[trigger] r1[j].elapsed < s.cutoff,
        forall|j: int| 0 <= j < r2.len() ==> #[trigger] r2[j].elapsed < s.cutoff,
    ensures
        run(s, r1) == run(s, r2),
    decreases r1.len(),
{
    if r1.len() > 0 {
        law_clock_independent(s, r1.drop_last(), r2.drop_last());
        lemma_run_fixed(s, r1.drop_last());
        lemma_run_fixed(s, r2.drop_last());
        assert(r1[r1.len() - 1].candidates == r2[r2.len() - 1].candidates);
        assert(r1[r1.len() - 1].elapsed < s.cutoff);
        assert(r2[r2.len() - 1].elapsed < s.cutoff);
    }
}

/// The end of the range, the cutoff and the policy never change.
pub proof fn lemma_run_fixed(s: SearchModel, rounds: Seq<Round>)
    ensures
        run(s, rounds).end_nonce == s.end_nonce,
        run(s, rounds).cutoff == s.cutoff,
        run(s, rounds).policy == s.policy,
    decreases rounds.len(),
{
    if rounds.len() > 0 {
        lemma_run_fixed(s, rounds.drop_last());
    }
}

/// With `start_nonce == end_nonce` a search scans exactly one nonce: the first
/// round stops it and later rounds are not looked at.
pub proof fn law_single_nonce(n: u64, cutoff: u64, policy: Policy, rounds: Seq<Round>)
    requires
        rounds.len() >= 1,
    ensures
        run(initial(n, n, cutoff, policy), rounds) == step(initial(n, n, cutoff, policy), rounds[0]),
        run(initial(n, n, cutoff, policy), rounds).stopped,
        run(initial(n, n, cutoff, policy), rounds).nonce == n,
        run(initial(n, n, cutoff, policy), rounds).checked == saturate(rounds[0].candidates.len() as int),
{
    let s = initial(n, n, cutoff, policy);
    assert(rounds.take(1).drop_last() =~= Seq::<Round>::empty());
    assert(rounds.take(1).last() == rounds[0]);
    assert(run(s, rounds.take(1).drop_last()) == s);
    assert(run(s, rounds.take(1)) == step(s, rounds[0]));
    lemma_stopped_stays(s, rounds, 1);
}

} // verus!
