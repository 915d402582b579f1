use coal_pool_mobile::engine::{Candidate, Policy, Search};
use coal_pool_mobile::solution::{nonce_bytes, DxSolution};

fn cand(tag: u8, difficulty: u32) -> Candidate {
    Candidate { digest: vec![tag; 16], difficulty }
}

/// Feeds rounds (candidate difficulties, seconds elapsed) until the search stops;
/// returns the nonces scanned and the solution.
fn drive(mut search: Search, rounds: &[(Vec<u32>, u64)]) -> (Vec<u64>, DxSolution) {
    let mut visited = Vec::new();
    for (i, (ds, elapsed)) in rounds.iter().enumerate() {
        if search.is_stopped() {
            break;
        }
        visited.push(search.nonce());
        let cs: Vec<Candidate> = ds.iter().map(|d| cand(i as u8 + 1, *d)).collect();
        search.step(&cs, *elapsed);
    }
    assert!(search.is_stopped());
    (visited, search.solution())
}

#[test]
fn single_nonce_scenario() {
    let search = Search::new(0, 0, 60, Policy::Unconditional);
    let (visited, sol) = drive(search, &[(vec![5], 0), (vec![9], 0)]);
    assert_eq!(visited, vec![0]);
    assert_eq!(sol.nonce, vec![0u8; 8]);
    assert_eq!(sol.difficulty, 5);
    assert_eq!(sol.nonces_checked, 1);
    assert_eq!(sol.digest, vec![1u8; 16]);
}

#[test]
fn single_nonce_scans_its_whole_candidate_set() {
    let search = Search::new(7, 7, 0, Policy::Unconditional);
    let (visited, sol) = drive(search, &[(vec![1, 4, 2], 100)]);
    assert_eq!(visited, vec![7]);
    assert_eq!(sol.nonces_checked, 3);
    assert_eq!(sol.difficulty, 4);
    assert_eq!(sol.nonce, vec![7, 0, 0, 0, 0, 0, 0, 0]);
}

#[test]
fn full_range_when_cutoff_never_triggers() {
    let search = Search::new(10, 14, 1000, Policy::Unconditional);
    let rounds = vec![
        (vec![1, 2], 0),
        (vec![], 1),
        (vec![3], 2),
        (vec![0, 0, 0], 3),
        (vec![2], 4),
        (vec![99], 5),
    ];
    let (visited, sol) = drive(search, &rounds);
    assert_eq!(visited, vec![10, 11, 12, 13, 14]);
    assert_eq!(sol.nonces_checked, 7);
    assert_eq!(sol.difficulty, 3);
    assert_eq!(sol.nonce, nonce_bytes(12));
}

#[test]
fn no_candidate_keeps_start_and_zero_digest() {
    let search = Search::new(3, 5, 1000, Policy::Unconditional);
    let (visited, sol) = drive(search, &[(vec![0], 0), (vec![], 0), (vec![0, 0], 0)]);
    assert_eq!(visited, vec![3, 4, 5]);
    assert_eq!(sol.difficulty, 0);
    assert_eq!(sol.nonce, nonce_bytes(3));
    assert_eq!(sol.digest, vec![0u8; 16]);
    assert_eq!(sol.nonces_checked, 3);
}

#[test]
fn ties_keep_the_earliest_candidate() {
    let search = Search::new(0, 2, 1000, Policy::Unconditional);
    let (_, sol) = drive(search, &[(vec![4], 0), (vec![4, 4], 0), (vec![3], 0)]);
    assert_eq!(sol.difficulty, 4);
    assert_eq!(sol.nonce, nonce_bytes(0));
    assert_eq!(sol.digest, vec![1u8; 16]);
}

#[test]
fn best_difficulty_never_decreases() {
    let mut search = Search::new(0, 5, 1000, Policy::Unconditional);
    let mut last = search.best_difficulty();
    for ds in [vec![3u32], vec![1], vec![7, 2], vec![0], vec![6], vec![8]] {
        let cs: Vec<Candidate> = ds.iter().map(|d| cand(0, *d)).collect();
        search.step(&cs, 0);
        assert!(search.best_difficulty() >= last);
        last = search.best_difficulty();
    }
    assert_eq!(last, 8);
}

#[test]
fn gated_best_is_max_of_eligible() {
    let policy = Policy::ThresholdGated { quality_floor: 7, accept_threshold: 8 };
    let search = Search::new(0, 2, 1000, policy);
    let (_, sol) = drive(search, &[(vec![6, 7], 0), (vec![5], 0), (vec![7, 1], 0)]);
    assert_eq!(sol.difficulty, 0);
    assert_eq!(sol.nonce, nonce_bytes(0));

    let search = Search::new(0, 2, 1000, policy);
    let (_, sol) = drive(search, &[(vec![6, 9], 0), (vec![12], 0), (vec![11], 0)]);
    assert_eq!(sol.difficulty, 12);
    assert_eq!(sol.nonce, nonce_bytes(1));
}

#[test]
fn unconditional_stops_at_first_cutoff() {
    let search = Search::new(0, 100, 5, Policy::Unconditional);
    let rounds = vec![(vec![1], 0), (vec![2], 4), (vec![0], 5), (vec![30], 6)];
    let (visited, sol) = drive(search, &rounds);
    assert_eq!(visited, vec![0, 1, 2]);
    assert_eq!(sol.difficulty, 2);
    assert_eq!(sol.nonces_checked, 3);
}

#[test]
fn range_end_wins_over_time() {
    let search = Search::new(0, 1, 5, Policy::Unconditional);
    let (visited, _) = drive(search, &[(vec![1], 0), (vec![2], 0), (vec![3], 0)]);
    assert_eq!(visited, vec![0, 1]);
}

#[test]
fn gated_keeps_searching_below_threshold() {
    let policy = Policy::ThresholdGated { quality_floor: 7, accept_threshold: 8 };
    let search = Search::new(0, 100, 1, policy);
    let rounds = vec![(vec![3], 50), (vec![7], 60), (vec![5], 70), (vec![9], 80), (vec![20], 90)];
    let (visited, sol) = drive(search, &rounds);
    assert_eq!(visited, vec![0, 1, 2, 3]);
    assert_eq!(sol.difficulty, 9);
    assert_eq!(sol.nonce, nonce_bytes(3));
}

#[test]
fn gated_stops_at_range_end_below_threshold() {
    let policy = Policy::ThresholdGated { quality_floor: 7, accept_threshold: 8 };
    let search = Search::new(5, 6, 1, policy);
    let (visited, sol) = drive(search, &[(vec![1], 10), (vec![2], 10), (vec![9], 10)]);
    assert_eq!(visited, vec![5, 6]);
    assert_eq!(sol.difficulty, 0);
    assert_eq!(sol.nonces_checked, 2);
}

#[test]
fn same_rounds_same_solution() {
    let rounds = vec![(vec![1, 5], 0), (vec![2], 0), (vec![5, 6], 0)];
    let (_, a) = drive(Search::new(0, 2, 1000, Policy::Unconditional), &rounds);
    let (_, b) = drive(Search::new(0, 2, 1000, Policy::Unconditional), &rounds);
    assert_eq!(a.nonce, b.nonce);
    assert_eq!(a.digest, b.digest);
    assert_eq!(a.difficulty, b.difficulty);
    assert_eq!(a.nonces_checked, b.nonces_checked);
}

#[test]
fn checked_counts_candidates() {
    let mut search = Search::new(0, 1, 1000, Policy::Unconditional);
    let many: Vec<Candidate> = (0..3).map(|_| cand(0, 0)).collect();
    search.step(&many, 0);
    assert_eq!(search.checked(), 3);
}

#[test]
fn nonce_bytes_little_endian() {
    assert_eq!(nonce_bytes(0x0102030405060708), vec![8, 7, 6, 5, 4, 3, 2, 1]);
    assert_eq!(nonce_bytes(u64::MAX), vec![255u8; 8]);
    assert_eq!(nonce_bytes(256), vec![0, 1, 0, 0, 0, 0, 0, 0]);
}
