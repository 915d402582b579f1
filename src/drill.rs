use vstd::prelude::*;
use crate::engine::{initial, lemma_run_push, run, saturate, step, Candidate, Policy, Round, Scored, Search, scored_all};
use crate::error::CoalPoolMobileFfiError;
use crate::laws::{
    all_candidates, law_best_is_max_eligible, law_checked_counts_all, law_clock_independent,
    law_nonce_within_range, lemma_run_fixed, law_unconditional_trace, max_eligible, total_candidates,
};
use crate::solution::{encodes, DxSolution};
use drillx::equix::SolverMemory;
use std::time::Instant;

verus! {

#[verifier::external_type_specification]
#[verifier::external_body]
pub struct ExSolverMemory(SolverMemory);

#[verifier::external_type_specification]
#[verifier::external_body]
pub struct ExInstant(Instant);

/// The (digest, hash) pairs that drillx finds for a challenge and a nonce.
pub uninterp spec fn drill_hashes(challenge: Seq<u8>, nonce: u64) -> Seq<(Seq<u8>, Seq<u8>)>;

/// One drillx result: the equix digest and the keccak hash scored from it.
pub struct RawHash {
    pub digest: Vec<u8>,
    pub hash: [u8; 32],
}

/// Relies on drillx::hashes_with_memory: the results for `challenge` and the
/// nonce as eight little-endian bytes, in drillx's order; `memory` is scratch
/// space only and does not change what comes back.
#[verifier::external_body]
fn hashes(memory: &mut SolverMemory, challenge: &[u8; 32], nonce: u64) -> (r: Vec<RawHash>)
    ensures
        r@.len() == drill_hashes(challenge@, nonce).len(),
        forall|i: int|
            0 <= i < r@.len() ==> r@[i].digest@ == drill_hashes(challenge@, nonce)[i].0
                && r@[i].hash@ == drill_hashes(challenge@, nonce)[i].1,
{
    drillx::hashes_with_memory(memory, challenge, &nonce.to_le_bytes())
        .into_iter()
        .map(|h| RawHash { digest: h.d.to_vec(), hash: h.h })
        .collect()
}

/// Leading zero bits of one byte.
pub open spec fn byte_leading_zeros(b: u8) -> nat {
    if b >= 128 { 0 }
    else if b >= 64 { 1 }
    else if b >= 32 { 2 }
    else if b >= 16 { 3 }
    else if b >= 8 { 4 }
    else if b >= 4 { 5 }
    else if b >= 2 { 6 }
    else if b >= 1 { 7 }
    else { 8 }
}

/// Leading zero bits of a byte string, most significant bit of the first byte first.
pub open spec fn leading_zero_bits(h: Seq<u8>) -> nat
    decreases h.len(),
{
    if h.len() == 0 {
        0
    } else if h[0] == 0 {
        8 + leading_zero_bits(h.drop_first())
    } else {
        byte_leading_zeros(h[0])
    }
}

/// Relies on drillx::difficulty: the number of leading zero bits of the hash.
#[verifier::external_body]
fn difficulty(hash: [u8; 32]) -> (r: u32)
    ensures
        r as nat == leading_zero_bits(hash@),
{
    drillx::difficulty(hash)
}

/// Relies on equix's SolverMemory::new: fresh scratch space for the solver.
#[verifier::external_body]
fn new_workspace() -> SolverMemory {
    SolverMemory::new()
}

/// Relies on std::time::Instant::now: a reading of the monotonic clock.
#[verifier::external_body]
fn start_clock() -> Instant {
    Instant::now()
}

/// Relies on Instant::elapsed: whole seconds since `clock` was read; nothing is known of the value.
#[verifier::external_body]
fn elapsed_secs(clock: &Instant) -> u64 {
    clock.elapsed().as_secs()
}

/// The scored candidates that drillx yields for a challenge and a nonce.
pub open spec fn drill_candidates(challenge: Seq<u8>, nonce: u64) -> Seq<Scored> {
    drill_hashes(challenge, nonce).map_values(
        |p: (Seq<u8>, Seq<u8>)| Scored { digest: p.0, difficulty: leading_zero_bits(p.1) as u32 },
    )
}

/// The rounds of a drillx search from `start_nonce`, with the clock readings `times`.
pub open spec fn drill_rounds(challenge: Seq<u8>, start_nonce: u64, times: Seq<u64>) -> Seq<Round> {
    Seq::new(
        times.len(),
        |i: int| Round { candidates: drill_candidates(challenge, (start_nonce + i) as u64), elapsed: times[i] },
    )
}

/// Two drillx searches over the same challenge and range, whose clocks never
/// reach the cutoff, end in the same state and so hand back the same solution.
pub proof fn law_drill_deterministic(
    challenge: Seq<u8>,
    start_nonce: u64,
    end_nonce: u64,
    cutoff: u64,
    policy: Policy,
    times1: Seq<u64>,
    times2: Seq<u64>,
)
    requires
        times1.len() == times2.len(),
        forall|j: int| 0 <= j < times1.len() ==> #[trigger] times1[j] < cutoff,
        forall|j: int| 0 <= j < times2.len() ==> #[trigger] times2[j] < cutoff,
    ensures
        run(initial(start_nonce, end_nonce, cutoff, policy), drill_rounds(challenge, start_nonce, times1))
            == run(initial(start_nonce, end_nonce, cutoff, policy), drill_rounds(challenge, start_nonce, times2)),
{
    let r1 = drill_rounds(challenge, start_nonce, times1);
    let r2 = drill_rounds(challenge, start_nonce, times2);
    assert forall|j: int| 0 <= j < r1.len() implies #[trigger] r1[j].elapsed < cutoff by {
        assert(times1[j] < cutoff);
    }
    assert forall|j: int| 0 <= j < r2.len() implies #[trigger] r2[j].elapsed < cutoff by {
        assert(times2[j] < cutoff);
    }
    law_clock_independent(initial(start_nonce, end_nonce, cutoff, policy), r1, r2);
}

/// A 32-byte challenge.
pub struct Challenge {
    bytes: [u8; 32],
}

impl Challenge {
    pub closed spec fn view(&self) -> Seq<u8> {
        self.bytes@
    }

    /// Copies `v` into a challenge; fails unless it holds exactly 32 bytes.
    pub fn from_bytes(v: &Vec<u8>) -> (r: Result<Challenge, CoalPoolMobileFfiError>)
        ensures
            match r {
                Ok(c) => v@.len() == 32 && c@ == v@,
                Err(e) => v@.len() != 32 && e == (CoalPoolMobileFfiError::InvalidLength { len: v.len() }),
            },
    {
        if v.len() != 32 {
            return Err(CoalPoolMobileFfiError::InvalidLength { len: v.len() });
        }
        let mut bytes = [0u8; 32];
        let mut i: usize = 0;
        while i < 32
            invariant
                v@.len() == 32,
                i <= 32,
                forall|k: int| 0 <= k < i ==> bytes@[k] == v@[k],
            decreases 32 - i,
        {
            bytes[i] = v[i];
            i = i + 1;
        }
        assert(bytes@ =~= v@);
        Ok(Challenge { bytes })
    }

    pub fn as_bytes(&self) -> (r: &[u8; 32])
        ensures
            r@ == self@,
    {
        &self.bytes
    }
}

/// Scores the drillx results of one nonce.
fn to_candidates(hs: Vec<RawHash>) -> (r: Vec<Candidate>)
    ensures
        scored_all(r@) =~= hs@.map_values(
            |h: RawHash| Scored { digest: h.digest@, difficulty: leading_zero_bits(h.hash@) as u32 },
        ),
{
    let mut out: Vec<Candidate> = Vec::new();
    let mut i: usize = 0;
    while i < hs.len()
        invariant
            i <= hs@.len(),
            out@.len() == i,
            forall|k: int|
                0 <= k < i ==> out@[k].digest@ == hs@[k].digest@ && out@[k].difficulty as nat
                    == leading_zero_bits(hs@[k].hash@),
        decreases hs@.len() - i,
    {
        let d = difficulty(hs[i].hash);
        out.push(Candidate { digest: hs[i].digest.clone(), difficulty: d });
        i = i + 1;
    }
    out
}

/// What a finished drillx search with clock readings `times` looks like: it
/// scanned nonces `start_nonce`, `start_nonce + 1`, ... one per reading,
/// stopped right after the last one, never went past `end_nonce`, kept the
/// largest eligible difficulty, counted every candidate (saturating), and
/// `r` encodes its final state.
pub open spec fn drill_search_ended(
    challenge: Seq<u8>,
    start_nonce: u64,
    end_nonce: u64,
    cutoff: u64,
    policy: Policy,
    times: Seq<u64>,
    r: DxSolution,
) -> bool {
    let init = initial(start_nonce, end_nonce, cutoff, policy);
    let rounds = drill_rounds(challenge, start_nonce, times);
    let s = run(init, rounds);
    &&& times.len() > 0
    &&& !run(init, rounds.drop_last()).stopped
    &&& s.stopped
    &&& s.nonce == start_nonce + times.len() - 1
    &&& start_nonce <= end_nonce ==> s.nonce <= end_nonce
    &&& s.best.difficulty == max_eligible(policy, 0, all_candidates(rounds))
    &&& s.checked == saturate(total_candidates(rounds) as int)
    &&& encodes(r, s)
}

/// Searches `start_nonce..=end_nonce` for the drillx candidate of highest
/// difficulty, stopping early as `policy` allows once `cutoff` seconds have
/// passed. Whatever the clock reads, the result is the search over the drillx
/// candidates of each nonce up to the one where it stopped.
pub fn solve(challenge: &Challenge, cutoff: u64, start_nonce: u64, end_nonce: u64, policy: Policy) -> (r: DxSolution)
    ensures
        exists|times: Seq<u64>| #[trigger]
            drill_search_ended(challenge@, start_nonce, end_nonce, cutoff, policy, times, r),
{
    let mut memory = new_workspace();
    let clock = start_clock();
    let mut search = Search::new(start_nonce, end_nonce, cutoff, policy);
    let ghost init = initial(start_nonce, end_nonce, cutoff, policy);
    let ghost mut times: Seq<u64> = Seq::empty();
    assert(drill_rounds(challenge@, start_nonce, times) =~= Seq::<Round>::empty());
    loop
        invariant_except_break
            !search@.stopped,
            search@.nonce == start_nonce + times.len(),
        invariant
            search@ == run(init, drill_rounds(challenge@, start_nonce, times)),
            search@.end_nonce == end_nonce,
            times.len() > 0 ==> !run(init, drill_rounds(challenge@, start_nonce, times).drop_last()).stopped,
            search@.stopped ==> times.len() > 0 && search@.nonce == start_nonce + times.len() - 1,
        ensures
            search@.stopped,
        decreases end_nonce - search@.nonce,
    {
        let nonce = search.nonce();
        let found = hashes(&mut memory, challenge.as_bytes(), nonce);
        let candidates = to_candidates(found);
        let t = elapsed_secs(&clock);
        let ghost round = Round { candidates: scored_all(candidates@), elapsed: t };
        proof {
            assert(round.candidates =~= drill_candidates(challenge@, nonce));
            lemma_run_push(init, drill_rounds(challenge@, start_nonce, times), round);
            assert(drill_rounds(challenge@, start_nonce, times.push(t)) =~= drill_rounds(
                challenge@,
                start_nonce,
                times,
            ).push(round));
            assert(drill_rounds(challenge@, start_nonce, times).push(round).drop_last()
                =~= drill_rounds(challenge@, start_nonce, times));
            times = times.push(t);
        }
        search.step(&candidates, t);
        if search.is_stopped() {
            break;
        }
    }
    let r = search.solution();
    proof {
        let rounds = drill_rounds(challenge@, start_nonce, times);
        law_best_is_max_eligible(start_nonce, end_nonce, cutoff, policy, rounds);
        law_checked_counts_all(start_nonce, end_nonce, cutoff, policy, rounds);
        if start_nonce <= end_nonce {
            law_nonce_within_range(start_nonce, end_nonce, cutoff, policy, rounds);
        }
        assert(drill_search_ended(challenge@, start_nonce, end_nonce, cutoff, policy, times, r));
    }
    r
}

/// The clock readings `times` end a search under the unconditional cutoff
/// exactly at their last reading: no earlier nonce was `end_nonce` or read a
/// time past the cutoff, and the last one did one or the other.
pub open spec fn unconditional_stop_point(start_nonce: u64, end_nonce: u64, cutoff: u64, times: Seq<u64>) -> bool {
    &&& forall|j: int| 0 <= j < times.len() - 1 ==> start_nonce + j < end_nonce && #[trigger] times[j] < cutoff
    &&& start_nonce + times.len() - 1 >= end_nonce || times.last() >= cutoff
}

/// Two finished drillx searches over the same challenge and range, whose
/// clock readings all stayed below the cutoff, hand back the same solution.
pub proof fn law_same_solution(
    challenge: Seq<u8>,
    start_nonce: u64,
    end_nonce: u64,
    cutoff: u64,
    policy: Policy,
    times1: Seq<u64>,
    times2: Seq<u64>,
    r1: DxSolution,
    r2: DxSolution,
)
    requires
        start_nonce <= end_nonce,
        drill_search_ended(challenge, start_nonce, end_nonce, cutoff, policy, times1, r1),
        drill_search_ended(challenge, start_nonce, end_nonce, cutoff, policy, times2, r2),
        forall|j: int| 0 <= j < times1.len() ==> #[trigger] times1[j] < cutoff,
        forall|j: int| 0 <= j < times2.len() ==> #[trigger] times2[j] < cutoff,
    ensures
        r1.nonce@ == r2.nonce@,
        r1.digest@ == r2.digest@,
        r1.difficulty == r2.difficulty,
        r1.nonces_checked == r2.nonces_checked,
{
    lemma_ends_at_range_end(challenge, start_nonce, end_nonce, cutoff, policy, times1, r1);
    lemma_ends_at_range_end(challenge, start_nonce, end_nonce, cutoff, policy, times2, r2);
    law_drill_deterministic(challenge, start_nonce, end_nonce, cutoff, policy, times1, times2);
}

/// A finished drillx search with `start_nonce == end_nonce` scanned that one
/// nonce: one clock reading, and the result holds that nonce's candidates alone.
pub proof fn law_single_nonce_search(
    challenge: Seq<u8>,
    nonce: u64,
    cutoff: u64,
    policy: Policy,
    times: Seq<u64>,
    r: DxSolution,
)
    requires
        drill_search_ended(challenge, nonce, nonce, cutoff, policy, times, r),
    ensures
        times.len() == 1,
        r.nonces_checked as nat == saturate(drill_candidates(challenge, nonce).len() as int),
        r.difficulty == max_eligible(policy, 0, drill_candidates(challenge, nonce)),
{
    let rounds = drill_rounds(challenge, nonce, times);
    assert(rounds.drop_last() =~= Seq::<Round>::empty());
    assert(all_candidates(rounds.drop_last()) =~= Seq::<Scored>::empty());
    assert(all_candidates(rounds) =~= drill_candidates(challenge, nonce));
    assert(total_candidates(rounds.drop_last()) == 0);
    assert(rounds.last().candidates == drill_candidates(challenge, nonce));
    assert(total_candidates(rounds) == drill_candidates(challenge, nonce).len());
}

/// A finished drillx search whose last clock reading stayed below the cutoff
/// scanned the whole range.
proof fn lemma_ends_at_range_end(
    challenge: Seq<u8>,
    start_nonce: u64,
    end_nonce: u64,
    cutoff: u64,
    policy: Policy,
    times: Seq<u64>,
    r: DxSolution,
)
    requires
        start_nonce <= end_nonce,
        drill_search_ended(challenge, start_nonce, end_nonce, cutoff, policy, times, r),
        forall|j: int| 0 <= j < times.len() ==> #[trigger] times[j] < cutoff,
    ensures
        times.len() == end_nonce - start_nonce + 1,
{
    let init = initial(start_nonce, end_nonce, cutoff, policy);
    let rounds = drill_rounds(challenge, start_nonce, times);
    let prev = run(init, rounds.drop_last());
    lemma_run_fixed(init, rounds.drop_last());
    assert(run(init, rounds) == step(prev, rounds.last()));
    assert(times[times.len() - 1] < cutoff);
    assert(rounds.last().elapsed == times[times.len() - 1]);
}

/// `r` is what a drillx search under the unconditional cutoff hands back for
/// some clock readings that end it where they say.
pub open spec fn unconditional_search_ended(challenge: Seq<u8>, start_nonce: u64, end_nonce: u64, cutoff: u64, r: DxSolution) -> bool {
    exists|times: Seq<u64>|
        #[trigger] drill_search_ended(challenge, start_nonce, end_nonce, cutoff, Policy::Unconditional, times, r)
            && unconditional_stop_point(start_nonce, end_nonce, cutoff, times)
}

/// Searches with the unconditional cutoff: stops at `end_nonce` or at the
/// first nonce after which `cutoff` seconds have passed, whatever the best
/// difficulty. Fails only when the challenge is not 32 bytes long.
pub fn dx_hash(challenge: Vec<u8>, cutoff: u64, start_nonce: u64, end_nonce: u64) -> (r: Result<DxSolution, CoalPoolMobileFfiError>)
    ensures
        match r {
            Ok(sol) => challenge@.len() == 32 && unconditional_search_ended(challenge@, start_nonce, end_nonce, cutoff, sol),
            Err(e) => challenge@.len() != 32 && e == (CoalPoolMobileFfiError::InvalidLength { len: challenge@.len() as usize }),
        },
{
    match Challenge::from_bytes(&challenge) {
        Ok(c) => {
            let sol = solve(&c, cutoff, start_nonce, end_nonce, Policy::Unconditional);
            proof {
                assert(c@ == challenge@);
                let times = choose|times: Seq<u64>|
                    #[trigger] drill_search_ended(c@, start_nonce, end_nonce, cutoff, Policy::Unconditional, times, sol);
                let rounds = drill_rounds(c@, start_nonce, times);
                assert(rounds.len() == times.len());
                law_unconditional_trace(start_nonce, end_nonce, cutoff, rounds);
                assert forall|j: int| 0 <= j < times.len() - 1 implies start_nonce + j < end_nonce && #[trigger] times[j] < cutoff by {
                    assert(rounds[j].elapsed == times[j]);
                }
                assert(rounds.last().elapsed == times.last());
                assert(start_nonce + times.len() - 1 >= end_nonce || times.last() >= cutoff);
                assert(drill_search_ended(challenge@, start_nonce, end_nonce, cutoff, Policy::Unconditional, times, sol));
                assert(unconditional_stop_point(start_nonce, end_nonce, cutoff, times));
                assert(unconditional_search_ended(challenge@, start_nonce, end_nonce, cutoff, sol));
            }
            Ok(sol)
        },
        Err(e) => Err(e),
    }
}

} // verus!
