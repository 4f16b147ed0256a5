use rand_chacha::rand_core::SeedableRng;
use timelock_key_sharing::errors::ShardError;
use timelock_key_sharing::sharing::{eval_poly, reconstruct_secret, shard_secret, FIELD_P};

fn rng(seed: u64) -> rand_chacha::ChaCha20Rng {
    rand_chacha::ChaCha20Rng::seed_from_u64(seed)
}

#[test]
fn poly_eval_exact() {
    // f(x) = 5 + 3x at x = 2 is 11.
    assert_eq!(eval_poly(&vec![5, 3], 2), 11);
    // f(x) = 7 (constant) anywhere is 7.
    assert_eq!(eval_poly(&vec![7], 250), 7);
    // Empty polynomial evaluates to 0.
    assert_eq!(eval_poly(&vec![], 3), 0);
}

#[test]
fn shard_then_reconstruct_exact_threshold() {
    let mut r = rng(7);
    let secret = vec![1u8, 2, 3, 250, 0, 255];
    let rows = shard_secret(&secret, 4, 2, &mut r).unwrap();
    assert_eq!(rows.len(), 4);
    let shares: Vec<(u8, Vec<u64>)> = vec![(1, rows[0].clone()), (2, rows[1].clone())];
    let got = reconstruct_secret(&shares, 2).unwrap();
    assert_eq!(got, secret);
}

#[test]
fn reconstruct_consistent_across_subsets() {
    let mut r = rng(8);
    let secret = vec![9u8, 8, 7];
    let rows = shard_secret(&secret, 5, 3, &mut r).unwrap();
    // Two different 3-subsets give the same answer.
    let first: Vec<(u8, Vec<u64>)> = vec![
        (1, rows[0].clone()),
        (2, rows[1].clone()),
        (3, rows[2].clone()),
    ];
    let second: Vec<(u8, Vec<u64>)> = vec![
        (3, rows[2].clone()),
        (4, rows[3].clone()),
        (5, rows[4].clone()),
    ];
    assert_eq!(
        reconstruct_secret(&first, 3).unwrap(),
        reconstruct_secret(&second, 3).unwrap()
    );
}

#[test]
fn reconstruct_insufficient_shares() {
    let shares: Vec<(u8, Vec<u64>)> = vec![(1, vec![5]), (2, vec![6])];
    assert_eq!(
        reconstruct_secret(&shares, 3),
        Err(ShardError::InsufficientShares)
    );
}

#[test]
fn reconstruct_duplicate_index() {
    let shares: Vec<(u8, Vec<u64>)> = vec![(1, vec![5]), (1, vec![6])];
    assert_eq!(
        reconstruct_secret(&shares, 2),
        Err(ShardError::DuplicateIndex)
    );
}

#[test]
fn reconstruct_invalid_field_element() {
    let shares: Vec<(u8, Vec<u64>)> = vec![(1, vec![FIELD_P]), (2, vec![0])];
    assert_eq!(
        reconstruct_secret(&shares, 2),
        Err(ShardError::InvalidFieldElement)
    );
}

#[test]
fn reconstruct_tampered_share_detected() {
    let mut r = rng(9);
    let secret = vec![42u8; 8];
    let rows = shard_secret(&secret, 5, 3, &mut r).unwrap();
    let mut shares: Vec<(u8, Vec<u64>)> = Vec::new();
    for (i, row) in rows.iter().enumerate() {
        shares.push(((i + 1) as u8, row.clone()));
    }
    // Corrupt one value of the first share; five shares remain supplied.
    shares[0].1[0] = (shares[0].1[0] + 1) % FIELD_P;
    assert_eq!(
        reconstruct_secret(&shares, 3),
        Err(ShardError::InconsistentShares)
    );
}

#[test]
fn shard_rejects_bad_parameters() {
    let mut r = rng(10);
    assert_eq!(
        shard_secret(&[1, 2], 5, 1, &mut r),
        Err(ShardError::InvalidParameters)
    );
    assert_eq!(
        shard_secret(&[1, 2], 2, 3, &mut r),
        Err(ShardError::InvalidParameters)
    );
    assert_eq!(
        shard_secret(&[], 5, 3, &mut r),
        Err(ShardError::InvalidParameters)
    );
}
