use vstd::prelude::*;

verus! {

/// One scored candidate produced for a nonce.
pub struct Candidate {
    pub digest: Vec<u8>,
    pub difficulty: u32,
}

/// What a candidate stands for in contracts.
pub struct Scored {
    pub digest: Seq<u8>,
    pub difficulty: u32,
}

impl Candidate {
    pub open spec fn view(&self) -> Scored {
        Scored { digest: self.digest@, difficulty: self.difficulty }
    }
}

pub open spec fn scored_all(cs: Seq<Candidate>) -> Seq<Scored> {
    cs.map_values(|c: Candidate| c@)
}

/// When a search may stop before its range is exhausted.
#[derive(Clone, Copy, PartialEq, Eq, Structural, Debug)]
pub enum Policy {
    /// Every improving candidate counts; stop once the time budget is spent.
    Unconditional,
    /// Only candidates above `quality_floor` count; once the time budget is
    /// spent, stop only when the best difficulty reached `accept_threshold`.
    ThresholdGated { quality_floor: u32, accept_threshold: u32 },
}

pub open spec fn eligible(policy: Policy, difficulty: u32) -> bool {
    match policy {
        Policy::Unconditional => true,
        Policy::ThresholdGated { quality_floor, .. } => difficulty > quality_floor,
    }
}

pub open spec fn cutoff_reached(policy: Policy, elapsed: u64, cutoff: u64, best: u32) -> bool {
    elapsed >= cutoff && match policy {
        Policy::Unconditional => true,
        Policy::ThresholdGated { accept_threshold, .. } => best >= accept_threshold,
    }
}

/// The best candidate seen so far.
pub struct Best {
    pub nonce: u64,
    pub digest: Seq<u8>,
    pub difficulty: u32,
}

pub open spec fn absorb(b: Best, nonce: u64, c: Scored, policy: Policy) -> Best {
    if eligible(policy, c.difficulty) && c.difficulty > b.difficulty {
        Best { nonce, digest: c.digest, difficulty: c.difficulty }
    } else {
        b
    }
}

pub open spec fn absorb_all(b: Best, nonce: u64, cs: Seq<Scored>, policy: Policy) -> Best
    decreases cs.len(),
{
    if cs.len() == 0 {
        b
    } else {
        absorb(absorb_all(b, nonce, cs.drop_last(), policy), nonce, cs.last(), policy)
    }
}

/// The state of one search, as contracts see it.
pub struct SearchModel {
    pub nonce: u64,
    pub end_nonce: u64,
    pub cutoff: u64,
    pub policy: Policy,
    pub best: Best,
    pub checked: nat,
    pub stopped: bool,
}

pub open spec fn saturate(n: int) -> nat {
    if n > u32::MAX as int { u32::MAX as nat } else { n as nat }
}

pub open spec fn zero_digest() -> Seq<u8> {
    Seq::new(16, |i: int| 0u8)
}

pub open spec fn initial(start_nonce: u64, end_nonce: u64, cutoff: u64, policy: Policy) -> SearchModel {
    SearchModel {
        nonce: start_nonce,
        end_nonce,
        cutoff,
        policy,
        best: Best { nonce: start_nonce, digest: zero_digest(), difficulty: 0 },
        checked: 0,
        stopped: false,
    }
}

/// One round: the candidates of the current nonce and the seconds elapsed after scanning them.
pub struct Round {
    pub candidates: Seq<Scored>,
    pub elapsed: u64,
}

pub open spec fn stops_after(s: SearchModel, best: u32, elapsed: u64) -> bool {
    s.nonce >= s.end_nonce || cutoff_reached(s.policy, elapsed, s.cutoff, best)
}

pub open spec fn step(s: SearchModel, r: Round) -> SearchModel {
    let best = absorb_all(s.best, s.nonce, r.candidates, s.policy);
    let stop = stops_after(s, best.difficulty, r.elapsed);
    SearchModel {
        nonce: if stop { s.nonce } else { (s.nonce + 1) as u64 },
        best,
        checked: saturate(s.checked + r.candidates.len() as int),
        stopped: stop,
        ..s
    }
}

/// Feeds rounds to a search until it stops; rounds after the stop are not looked at.
pub open spec fn run(s: SearchModel, rounds: Seq<Round>) -> SearchModel
    decreases rounds.len(),
{
    if rounds.len() == 0 {
        s
    } else {
        let p = run(s, rounds.drop_last());
        if p.stopped { p } else { step(p, rounds.last()) }
    }
}


/// Feeding one more round to a search that has not stopped takes one step.
pub proof fn lemma_run_push(s: SearchModel, rounds: Seq<Round>, r: Round)
    requires
        !run(s, rounds).stopped,
    ensures
        run(s, rounds.push(r)) == step(run(s, rounds), r),
{
    assert(rounds.push(r).drop_last() =~= rounds);
}

/// A search over a closed nonce range, fed one round per nonce.
pub struct Search {
    nonce: u64,
    end_nonce: u64,
    cutoff: u64,
    policy: Policy,
    best_nonce: u64,
    best_digest: Vec<u8>,
    best_difficulty: u32,
    checked: u32,
    stopped: bool,
}

impl Search {
    pub closed spec fn view(&self) -> SearchModel {
        SearchModel {
            nonce: self.nonce,
            end_nonce: self.end_nonce,
            cutoff: self.cutoff,
            policy: self.policy,
            best: Best {
                nonce: self.best_nonce,
                digest: self.best_digest@,
                difficulty: self.best_difficulty,
            },
            checked: self.checked as nat,
            stopped: self.stopped,
        }
    }

    /// A fresh search that starts at `start_nonce` with nothing seen.
    pub fn new(start_nonce: u64, end_nonce: u64, cutoff: u64, policy: Policy) -> (r: Search)
        ensures
            r@ == initial(start_nonce, end_nonce, cutoff, policy),
    {
        let mut digest: Vec<u8> = Vec::new();
        let mut i: usize = 0;
        while i < 16
            invariant
                i <= 16,
                digest@ == Seq::new(i as nat, |k: int| 0u8),
            decreases 16 - i,
        {
            digest.push(0u8);
            i = i + 1;
            assert(digest@ =~= Seq::new(i as nat, |k: int| 0u8));
        }
        Search {
            nonce: start_nonce,
            end_nonce,
            cutoff,
            policy,
            best_nonce: start_nonce,
            best_digest: digest,
            best_difficulty: 0,
            checked: 0,
            stopped: false,
        }
    }

    /// The nonce whose candidates the next round carries (or, once stopped, the last one scanned).
    pub fn nonce(&self) -> (r: u64)
        ensures
            r == self@.nonce,
    {
        self.nonce
    }

    pub fn is_stopped(&self) -> (r: bool)
        ensures
            r == self@.stopped,
    {
        self.stopped
    }

    pub fn best_nonce(&self) -> (r: u64)
        ensures
            r == self@.best.nonce,
    {
        self.best_nonce
    }

    pub fn best_digest(&self) -> (r: Vec<u8>)
        ensures
            r@ == self@.best.digest,
    {
        self.best_digest.clone()
    }

    /// How many candidates were scanned, saturating at `u32::MAX`.
    pub fn checked(&self) -> (r: u32)
        ensures
            r as nat == self@.checked,
    {
        self.checked
    }

    pub fn best_difficulty(&self) -> (r: u32)
        ensures
            r == self@.best.difficulty,
    {
        self.best_difficulty
    }

    /// Scans the candidates of the current nonce, then decides whether to stop.
    pub fn step(&mut self, candidates: &Vec<Candidate>, elapsed: u64)
        requires
            !old(self)@.stopped,
        ensures
            final(self)@ == step(
                old(self)@,
                Round { candidates: scored_all(candidates@), elapsed },
            ),
    {
        let ghost cs = scored_all(candidates@);
        let mut i: usize = 0;
        while i < candidates.len()
            invariant
                i <= candidates@.len(),
                cs == scored_all(candidates@),
                self.nonce == old(self).nonce,
                self.end_nonce == old(self).end_nonce,
                self.cutoff == old(self).cutoff,
                self.policy == old(self).policy,
                self.stopped == old(self).stopped,
                self@.best == absorb_all(old(self)@.best, self.nonce, cs.subrange(0, i as int), self.policy),
                self.checked as nat == saturate(old(self).checked as nat + i),
            decreases candidates@.len() - i,
        {
            let c = &candidates[i];
            assert(cs.subrange(0, i as int + 1).drop_last() =~= cs.subrange(0, i as int));
            if self.checked < u32::MAX {
                self.checked = self.checked + 1;
            }
            let counts = match self.policy {
                Policy::Unconditional => true,
                Policy::ThresholdGated { quality_floor, .. } => c.difficulty > quality_floor,
            };
            if counts && c.difficulty > self.best_difficulty {
                self.best_nonce = self.nonce;
                self.best_digest = c.digest.clone();
                self.best_difficulty = c.difficulty;
            }
            i = i + 1;
        }
        assert(cs.subrange(0, cs.len() as int) =~= cs);
        let stop = if self.nonce >= self.end_nonce {
            true
        } else if elapsed >= self.cutoff {
            match self.policy {
                Policy::Unconditional => true,
                Policy::ThresholdGated { accept_threshold, .. } => self.best_difficulty >= accept_threshold,
            }
        } else {
            false
        };
        if stop {
            self.stopped = true;
        } else {
            self.nonce = self.nonce + 1;
        }
    }
}

} // verus!
