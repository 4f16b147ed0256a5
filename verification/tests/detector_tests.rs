use rand_chacha::rand_core::{RngCore, SeedableRng};
use timelock_key_sharing::detector::{
    bias_suspicious, entropy_q10, log2_q10, validate_share_bytes, Validation,
};

#[test]
fn entropy_of_constant_buffer_is_zero() {
    let data = [0x41u8; 256];
    assert_eq!(entropy_q10(&data), 0);
}

#[test]
fn entropy_of_uniform_random_buffer_is_near_eight_bits() {
    let mut r = rand_chacha::ChaCha20Rng::seed_from_u64(14);
    let mut data = vec![0u8; 4096];
    r.fill_bytes(&mut data);
    let e = entropy_q10(&data);
    // About 7.95 to 8.0 bits, in 1/1024-bit units.
    assert!(e >= 8100 && e <= 8192, "entropy was {} / 1024 bits", e);
}

#[test]
fn log2_is_exact_on_powers_of_two() {
    assert_eq!(log2_q10(1), 0);
    assert_eq!(log2_q10(2), 1024);
    assert_eq!(log2_q10(1024), 10 * 1024);
    assert_eq!(log2_q10(65536), 16 * 1024);
    // log2(3) is about 1.585: 1623 in 1/1024-bit units.
    let l3 = log2_q10(3);
    assert!(l3 >= 1622 && l3 <= 1624, "log2(3) was {}", l3);
}

#[test]
fn bias_test_flags_skew_and_perfection() {
    // All zero bits: wildly skewed.
    assert!(bias_suspicious(&[0u8; 64]));
    // Exactly half the bits set in every byte: implausibly perfect balance.
    assert!(bias_suspicious(&[0x55u8; 64]));
    // Random bits: unremarkable.
    let mut r = rand_chacha::ChaCha20Rng::seed_from_u64(15);
    let mut data = vec![0u8; 1024];
    r.fill_bytes(&mut data);
    assert!(!bias_suspicious(&data));
}

#[test]
fn validation_verdicts() {
    let mut r = rand_chacha::ChaCha20Rng::seed_from_u64(16);
    let mut data = vec![0u8; 512];
    r.fill_bytes(&mut data);
    assert_eq!(validate_share_bytes(&data, 7000), Validation::Accept);
    assert_eq!(
        validate_share_bytes(&[7u8; 512], 7000),
        Validation::RejectLowEntropy
    );
    assert_eq!(
        validate_share_bytes(&[0x55u8; 512], 0),
        Validation::RejectBiased
    );
}
