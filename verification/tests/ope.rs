use liserk_store::ope::{
    big_to_string, decrypt_ope, encrypt_ope, sample_hgd, sample_uniform, OpeError, ValueRange,
};

// The adjacent pair at the top quarter of the key space (6_777_215 and
// 6_777_216) is not exercised here: under exact rational arithmetic the
// head product of the sum at those inputs has millions of digits, and
// computing it exceeds any reasonable test budget.
#[test]
fn test_order_preserving_encryption() {
    let a = 10;
    let b = 20;
    let c = 30;

    let encrypted_a = encrypt_ope(a);
    let encrypted_b = encrypt_ope(b);
    let encrypted_c = encrypt_ope(c);

    assert!(encrypted_a < encrypted_b);
    assert!(encrypted_b < encrypted_c);
}

#[test]
fn test_with_negative_number() {
    let a = -10;
    let b = -20;
    let c = -30;

    let encrypted_a = encrypt_ope(a);
    let encrypted_b = encrypt_ope(b);
    let encrypted_c = encrypt_ope(c);

    assert!(encrypted_a > encrypted_b);
    assert!(encrypted_b > encrypted_c);
}

#[test]
fn test_same_input() {
    let a = 42;
    let encrypted_a1 = encrypt_ope(a);
    let encrypted_a2 = encrypt_ope(a);

    assert_eq!(encrypted_a1, encrypted_a2);
}

#[test]
fn test_zero_crossing_order() {
    let n = encrypt_ope(-1);
    let z = encrypt_ope(0);
    let p = encrypt_ope(1);
    assert!(n < z);
    assert!(z < p);
}

#[test]
fn test_decrypt_finds_plaintext() {
    let c = encrypt_ope(5);
    assert_eq!(decrypt_ope(&c, 10), Some(5));
    let missing = num_bigint::BigInt::from(7);
    assert_eq!(decrypt_ope(&missing, 4), None);
}

#[test]
fn test_decimal_rendering() {
    assert_eq!(big_to_string(&num_bigint::BigInt::from(0)), "0");
    assert_eq!(big_to_string(&num_bigint::BigInt::from(1204)), "1204");
    assert_eq!(big_to_string(&num_bigint::BigInt::from(-37)), "-37");
}

#[test]
fn test_value_range() {
    let r = ValueRange::new(0, 127).unwrap();
    assert_eq!(r.size(), 128);
    assert!(r.contains(0));
    assert!(r.contains(127));
    assert!(!r.contains(128));
    assert_eq!(ValueRange::new(3, 1), Err(OpeError::InvalidRangeLimitsError));
}

#[test]
fn test_sample_uniform() {
    let range = ValueRange::new(0, 127).unwrap();
    let zeros = vec![0; 7];
    assert_eq!(sample_uniform(range, &zeros), Ok(0));
    let ones = vec![1; 7];
    assert_eq!(sample_uniform(range, &ones), Ok(127));
    let short = vec![0; 2];
    assert_eq!(sample_uniform(range, &short), Err(OpeError::NotEnoughCoinsError));
    let bad = vec![2; 7];
    assert_eq!(sample_uniform(range, &bad), Err(OpeError::InvalidCoinError));
    // ranges below zero narrow the same way
    let below = ValueRange::new(-8, -1).unwrap();
    assert_eq!(sample_uniform(below, &vec![0; 3]), Ok(-8));
    assert_eq!(sample_uniform(below, &vec![1; 3]), Ok(-1));
}

#[test]
fn test_sample_hgd() {
    let in_range = ValueRange::new(0, 127).unwrap();
    let out_range = ValueRange::new(0, 127).unwrap();
    // ranges of one size map the sample straight through
    assert_eq!(sample_hgd(in_range, out_range, 64, 3), 64);
    let wide = ValueRange::new(0, 255).unwrap();
    // otherwise the hypergeometric draw is offset into the plaintext range
    assert_eq!(sample_hgd(in_range, wide, 24, 0), 0);
    assert_eq!(sample_hgd(in_range, wide, 24, 5), 4);
}
