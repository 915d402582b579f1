use coal_pool_mobile::drill::{dx_hash, solve, Challenge};
use coal_pool_mobile::engine::Policy;
use coal_pool_mobile::error::CoalPoolMobileFfiError;

#[test]
fn challenge_must_be_32_bytes() {
    assert!(matches!(
        Challenge::from_bytes(&vec![0u8; 31]),
        Err(CoalPoolMobileFfiError::InvalidLength { len: 31 })
    ));
    assert!(matches!(
        Challenge::from_bytes(&vec![0u8; 33]),
        Err(CoalPoolMobileFfiError::InvalidLength { len: 33 })
    ));
    let c = Challenge::from_bytes(&(0u8..32).collect()).ok().unwrap();
    assert_eq!(c.as_bytes().to_vec(), (0u8..32).collect::<Vec<u8>>());
}

#[test]
fn dx_hash_rejects_short_challenge() {
    assert!(matches!(dx_hash(vec![1, 2, 3], 10, 0, 0), Err(CoalPoolMobileFfiError::InvalidLength { len: 3 })));
}

#[test]
fn dx_hash_matches_drillx() {
    let challenge = [7u8; 32];
    let sol = dx_hash(challenge.to_vec(), u64::MAX, 0, 3).ok().unwrap();
    let mut memory = drillx::equix::SolverMemory::new();
    let mut best = (0u64, [0u8; 16], 0u32);
    let mut count = 0u32;
    for nonce in 0u64..=3 {
        for h in drillx::hashes_with_memory(&mut memory, &challenge, &nonce.to_le_bytes()) {
            count += 1;
            if h.difficulty() > best.2 {
                best = (nonce, h.d, h.difficulty());
            }
        }
    }
    assert_eq!(sol.nonce, best.0.to_le_bytes().to_vec());
    assert_eq!(sol.digest, best.1.to_vec());
    assert_eq!(sol.difficulty, best.2);
    assert_eq!(sol.nonces_checked, count);
}

#[test]
fn solve_is_deterministic_without_cutoff() {
    let c = Challenge::from_bytes(&vec![3u8; 32]).ok().unwrap();
    let a = solve(&c, u64::MAX, 10, 12, Policy::Unconditional);
    let b = solve(&c, u64::MAX, 10, 12, Policy::Unconditional);
    assert_eq!(a.nonce, b.nonce);
    assert_eq!(a.digest, b.digest);
    assert_eq!(a.difficulty, b.difficulty);
    assert_eq!(a.nonces_checked, b.nonces_checked);
}

#[test]
fn zero_challenge_single_nonce() {
    let sol = dx_hash(vec![0u8; 32], 60, 0, 0).ok().unwrap();
    assert_eq!(sol.nonce, vec![0u8; 8]);
    let mut memory = drillx::equix::SolverMemory::new();
    let n = drillx::hashes_with_memory(&mut memory, &[0u8; 32], &0u64.to_le_bytes()).len();
    assert_eq!(sol.nonces_checked as usize, n);
}
