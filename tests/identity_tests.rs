use campus_store::certificates::generate_verification_hash;
use campus_store::identity::Identity;

#[test]
fn anonymous_is_the_single_byte_four() {
    let anon = Identity::anonymous();
    assert!(anon.is_anonymous());
    assert_eq!(anon, Identity::from_bytes(&[4]));
    assert!(!Identity::from_bytes(&[4, 0]).is_anonymous());
    assert!(!Identity::from_bytes(&[]).is_anonymous());
}

#[test]
fn packing_keeps_bytes_apart() {
    let a = Identity::from_bytes(&[1, 2, 3]);
    assert_eq!(a.len, 3);
    assert_eq!(a.hi, 0x010203);
    assert_eq!(a.lo, 0);
    let long: Vec<u8> = (1..=20).collect();
    let b = Identity::from_bytes(&long);
    assert_eq!(b.len, 20);
    assert_eq!(b.lo, 0x11121314);
    assert_ne!(Identity::from_bytes(&[0, 1]), Identity::from_bytes(&[1]));
}

#[test]
fn code_folds_bytes_modulo_two_to_the_64() {
    assert_eq!(Identity::from_bytes(&[1, 2]).code(), 0x0102);
    let long: Vec<u8> = (1..=20).collect();
    // the last eight bytes survive the fold
    assert_eq!(Identity::from_bytes(&long).code(), 0x0d0e0f1011121314);
    let ten: Vec<u8> = (1..=10).collect();
    assert_eq!(Identity::from_bytes(&ten).code(), 0x030405060708090a);
}

#[test]
fn verification_hash_is_hex_of_fields() {
    let s = Identity::from_bytes(&[1, 2]);
    assert_eq!(generate_verification_hash(1, &s, 3, 255), "0x11023ff");
    assert_eq!(generate_verification_hash(0, &Identity::from_bytes(&[]), 0, 16), "0x00010");
}

#[test]
fn bytes_round_trip_through_identity() {
    for n in [0usize, 1, 15, 16, 17, 29] {
        let bytes: Vec<u8> = (0..n).map(|i| (i * 37 + 5) as u8).collect();
        assert_eq!(Identity::from_bytes(&bytes).to_bytes(), bytes);
    }
}
