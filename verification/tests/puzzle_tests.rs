use rand_chacha::rand_core::SeedableRng;
use timelock_key_sharing::errors::ShardError;
use timelock_key_sharing::timelock::LCS35;

fn rng(seed: u64) -> rand_chacha::ChaCha20Rng {
    rand_chacha::ChaCha20Rng::seed_from_u64(seed)
}

#[test]
fn iterations_are_two_to_the_difficulty() {
    assert_eq!(LCS35::new(0).iterations(), 1);
    assert_eq!(LCS35::new(10).iterations(), 1024);
    assert_eq!(LCS35::new(16).iterations(), 65536);
}

#[test]
fn lock_unlock_round_trip_counts_squarings() {
    let mut r = rng(11);
    let puzzle = LCS35::new(10);
    let payload = b"a small payload to lock away";
    let (params, blob) = puzzle.lock(payload, &mut r);
    assert_ne!(&blob[..], &payload[..], "locking must change the bytes");
    let (recovered, steps) = puzzle.unlock(&params, &blob).unwrap();
    assert_eq!(recovered, payload.to_vec());
    // The solve performs exactly 2^difficulty sequential squarings.
    assert_eq!(steps, 1024);
}

#[test]
fn unlock_detects_tampered_tag() {
    let mut r = rng(12);
    let puzzle = LCS35::new(8);
    let (mut params, blob) = puzzle.lock(b"payload", &mut r);
    params.verify_tag[0] ^= 0x01;
    assert_eq!(
        puzzle.unlock(&params, &blob),
        Err(ShardError::PuzzleVerificationFailed)
    );
}

#[test]
fn unlock_rejects_mismatched_difficulty() {
    let mut r = rng(13);
    let setter = LCS35::new(8);
    let (params, blob) = setter.lock(b"payload", &mut r);
    let solver = LCS35::new(9);
    assert_eq!(
        solver.unlock(&params, &blob),
        Err(ShardError::PuzzleVerificationFailed)
    );
}
