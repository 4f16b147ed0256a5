use rand_chacha::rand_core::SeedableRng;
use timelock_key_sharing::errors::ShardError;
use timelock_key_sharing::service::TimelockKeySharding;

fn rng(seed: u64) -> rand_chacha::ChaCha20Rng {
    rand_chacha::ChaCha20Rng::seed_from_u64(seed)
}

#[test]
fn end_to_end_five_shares_threshold_three() {
    let mut r = rng(21);
    let secret: Vec<u8> = (0u8..32).collect();
    let service = TimelockKeySharding::new(8, 3);
    let records = service.shard_key(&secret, 5, &mut r).unwrap();
    assert_eq!(records.len(), 5);
    // Records 1, 3 and 5 suffice.
    let subset = vec![
        records[0].clone(),
        records[2].clone(),
        records[4].clone(),
    ];
    assert_eq!(service.reconstruct_key(&subset).unwrap(), secret);
    // Records 1 and 2 alone do not.
    let short = vec![records[0].clone(), records[1].clone()];
    assert_eq!(
        service.reconstruct_key(&short),
        Err(ShardError::InsufficientShares)
    );
}

#[test]
fn reconstruct_from_all_shares_cross_checks() {
    let mut r = rng(22);
    let secret = b"another key value".to_vec();
    let service = TimelockKeySharding::new(6, 2);
    let records = service.shard_key(&secret, 4, &mut r).unwrap();
    assert_eq!(service.reconstruct_key(&records).unwrap(), secret);
}

#[test]
fn mutated_record_fails_closed() {
    let mut r = rng(23);
    let secret = b"tamper detection secret!".to_vec();
    let service = TimelockKeySharding::new(6, 3);
    let mut records = service.shard_key(&secret, 5, &mut r).unwrap();
    // Flip one byte inside the first record's locked blob (wire offset 37:
    // past the version, index, seed, modulus, difficulty and length
    // fields) and re-encode. More than threshold + 1 shares remain.
    let mut bytes = hex::decode(&records[0]).unwrap();
    bytes[37] ^= 0x01;
    records[0] = hex::encode(&bytes);
    assert_eq!(
        service.reconstruct_key(&records),
        Err(ShardError::InconsistentShares)
    );
}

#[test]
fn duplicate_records_rejected() {
    let mut r = rng(24);
    let secret = b"duplicate index secret".to_vec();
    let service = TimelockKeySharding::new(6, 2);
    let records = service.shard_key(&secret, 3, &mut r).unwrap();
    let dup = vec![records[0].clone(), records[0].clone()];
    assert_eq!(
        service.reconstruct_key(&dup),
        Err(ShardError::DuplicateIndex)
    );
}

#[test]
fn malformed_records_rejected() {
    let service = TimelockKeySharding::new(6, 2);
    // Not hex at all.
    assert_eq!(
        service.reconstruct_key(&vec!["zz".to_string(), "00".to_string()]),
        Err(ShardError::MalformedShare)
    );
    // Valid hex, far too short for a record.
    assert_eq!(
        service.reconstruct_key(&vec!["0102".to_string(), "0304".to_string()]),
        Err(ShardError::MalformedShare)
    );
}

#[test]
fn shard_key_parameter_validation() {
    let mut r = rng(25);
    let secret = vec![1u8; 16];
    assert_eq!(
        TimelockKeySharding::new(6, 1).shard_key(&secret, 5, &mut r),
        Err(ShardError::InvalidParameters)
    );
    assert_eq!(
        TimelockKeySharding::new(6, 4).shard_key(&secret, 3, &mut r),
        Err(ShardError::InvalidParameters)
    );
    assert_eq!(
        TimelockKeySharding::new(6, 2).shard_key(&[], 5, &mut r),
        Err(ShardError::InvalidParameters)
    );
    assert_eq!(
        TimelockKeySharding::new(99, 2).shard_key(&secret, 5, &mut r),
        Err(ShardError::InvalidParameters)
    );
}

#[test]
fn shard_records_pass_entropy_gate() {
    let mut r = rng(26);
    let secret = vec![0xA5u8; 32];
    let service = TimelockKeySharding::new(6, 3);
    let records = service.shard_key(&secret, 5, &mut r).unwrap();
    assert!(service.check_shard_entropy(&records));
    // A constant 32-byte record is rejected for low entropy.
    let flat = vec!["00".repeat(32)];
    assert!(!service.check_shard_entropy(&flat));
    // A non-hex entry is rejected outright.
    assert!(!service.check_shard_entropy(&vec!["not hex".to_string()]));
}

#[test]
fn entropy_and_regularity_methods() {
    let service = TimelockKeySharding::new(6, 2);
    assert_eq!(service.calculate_entropy(&[7u8; 256]), 0);
    assert!(service.check_borel_regularity(&[0x55u8; 64]));
    assert!(service.check_borel_regularity(&[0u8; 64]));
}
