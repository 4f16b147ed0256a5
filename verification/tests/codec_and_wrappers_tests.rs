use timelock_key_sharing::codec::{decode_record, encode_record, ShareRecord};
use timelock_key_sharing::errors::ShardError;
use timelock_key_sharing::hashing::sha256;
use timelock_key_sharing::hexstr::{hex_decode, hex_encode};
use timelock_key_sharing::modmath::{inv_mod, mul_mod, pow_mod, square_chain};
use timelock_key_sharing::randomness::{draw_below, rng_from_seed, rng_next_u64};
use timelock_key_sharing::sharing::FIELD_P;
use timelock_key_sharing::timelock::PuzzleParams;

#[test]
fn record_round_trip() {
    let rec = ShareRecord {
        index: 3,
        puzzle: PuzzleParams {
            modulus: 0x1234_5678_9ABC_DEF0,
            seed: 0x0FED_CBA9_8765_4321,
            difficulty: 12,
            verify_tag: (0u8..32).collect(),
        },
        locked_blob: vec![9, 8, 7, 6, 5],
    };
    let bytes = encode_record(&rec);
    let back = decode_record(&bytes).unwrap();
    assert_eq!(back.index, 3);
    assert_eq!(back.puzzle.modulus, 0x1234_5678_9ABC_DEF0);
    assert_eq!(back.puzzle.seed, 0x0FED_CBA9_8765_4321);
    assert_eq!(back.puzzle.difficulty, 12);
    assert_eq!(back.puzzle.verify_tag, (0u8..32).collect::<Vec<u8>>());
    assert_eq!(back.locked_blob, vec![9, 8, 7, 6, 5]);
}

#[test]
fn decode_rejects_malformed_bytes() {
    assert!(matches!(
        decode_record(&[1, 2, 3]),
        Err(ShardError::MalformedShare)
    ));
    let rec = ShareRecord {
        index: 1,
        puzzle: PuzzleParams {
            modulus: 100,
            seed: 5,
            difficulty: 4,
            verify_tag: vec![0; 32],
        },
        locked_blob: vec![1, 2],
    };
    let mut bytes = encode_record(&rec);
    // Wrong version byte.
    bytes[0] = 9;
    assert!(matches!(
        decode_record(&bytes),
        Err(ShardError::MalformedShare)
    ));
    // Truncated record.
    let bytes2 = encode_record(&rec);
    assert!(matches!(
        decode_record(&bytes2[..bytes2.len() - 1]),
        Err(ShardError::MalformedShare)
    ));
}

#[test]
fn hex_wrappers_match_reference_values() {
    assert_eq!(hex_encode(&[0xde, 0xad, 0x01]), "dead01");
    assert_eq!(hex_decode("dead01"), Some(vec![0xde, 0xad, 0x01]));
    assert_eq!(hex_decode("DEAD01"), Some(vec![0xde, 0xad, 0x01]));
    assert_eq!(hex_decode("abc"), None);
    assert_eq!(hex_decode("xy"), None);
}

#[test]
fn sha256_wrapper_matches_reference_digest() {
    let digest = sha256(b"abc");
    assert_eq!(
        hex_encode(&digest),
        "ba7816bf8f01cfea414140de5dae2223b00361a396177a9cb410ff61f20015ad"
    );
}

#[test]
fn rng_wrapper_is_deterministic_per_seed() {
    let mut a = rng_from_seed(77);
    let mut b = rng_from_seed(77);
    assert_eq!(rng_next_u64(&mut a), rng_next_u64(&mut b));
    for _ in 0..10 {
        let v = draw_below(&mut a, 1000);
        assert!(v < 1000);
    }
}

#[test]
fn modular_arithmetic_reference_values() {
    assert_eq!(pow_mod(3, 5, 1000), 243);
    assert_eq!(pow_mod(2, 10, 1000), 24);
    assert_eq!(mul_mod(7, 8, 13), 4);
    // One squaring of 3 mod 7 is 2; two squarings give 4.
    assert_eq!(square_chain(3, 1, 7), 2);
    assert_eq!(square_chain(3, 2, 7), 4);
    // A certified inverse really inverts.
    let v = inv_mod(12345, FIELD_P).unwrap();
    assert_eq!(mul_mod(12345, v, FIELD_P), 1);
}
