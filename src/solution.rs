use vstd::prelude::*;
use crate::engine::{Search, SearchModel};

verus! {

/// The record handed back by a search.
pub struct DxSolution {
    pub nonce: Vec<u8>,
    pub digest: Vec<u8>,
    pub nonces_checked: u32,
    pub difficulty: u32,
}

/// The `k` lowest bytes of `n`, least significant first.
pub open spec fn le_bytes(n: nat, k: nat) -> Seq<u8>
    decreases k,
{
    if k == 0 {
        Seq::empty()
    } else {
        seq![(n % 256) as u8] + le_bytes(n / 256, (k - 1) as nat)
    }
}

/// Writes a nonce as eight little-endian bytes.
pub fn nonce_bytes(n: u64) -> (r: Vec<u8>)
    ensures
        r@ == le_bytes(n as nat, 8),
{
    let mut out: Vec<u8> = Vec::new();
    let mut x: u64 = n;
    let mut i: usize = 0;
    while i < 8
        invariant
            i <= 8,
            out@ + le_bytes(x as nat, (8 - i) as nat) == le_bytes(n as nat, 8),
        decreases 8 - i,
    {
        let ghost before = out@;
        out.push((x % 256) as u8);
        assert(le_bytes(x as nat, (8 - i) as nat) == seq![(x % 256) as u8] + le_bytes(
            (x / 256) as nat,
            (8 - i - 1) as nat,
        ));
        assert(out@ + le_bytes((x / 256) as nat, (8 - i - 1) as nat) =~= before + le_bytes(
            x as nat,
            (8 - i) as nat,
        ));
        x = x / 256;
        i = i + 1;
    }
    assert(out@ + le_bytes(x as nat, 0) =~= out@);
    out
}

pub open spec fn encodes(r: DxSolution, s: SearchModel) -> bool {
    &&& r.nonce@ == le_bytes(s.best.nonce as nat, 8)
    &&& r.digest@ == s.best.digest
    &&& r.nonces_checked as nat == s.checked
    &&& r.difficulty == s.best.difficulty
}

impl Search {
    /// Packs the best candidate and the candidate count into a solution record.
    pub fn solution(&self) -> (r: DxSolution)
        ensures
            encodes(r, self@),
    {
        DxSolution {
            nonce: nonce_bytes(self.best_nonce()),
            digest: self.best_digest(),
            nonces_checked: self.checked(),
            difficulty: self.best_difficulty(),
        }
    }
}

} // verus!
