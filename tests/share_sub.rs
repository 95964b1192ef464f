use mqtt_meta::share_sub::{calc_share_sub_leader, hash_group, ShareSubError};

#[test]
fn share_sub_leader_is_deterministic() {
    let a = calc_share_sub_leader(b"g1", &[7, 3, 11]).unwrap();
    let b = calc_share_sub_leader(b"g1", &[11, 3, 7]).unwrap();
    assert_eq!(a, b);
    // hash("g1") = 103 * 31 + 49 = 3242; 3242 mod 3 = 2; ascending [3, 7, 11]
    assert_eq!(a, 11);
    assert_eq!(calc_share_sub_leader(b"g1", &[]), Err(ShareSubError::NoBrokerAvailable));
}

#[test]
fn share_sub_leader_ignores_repeats() {
    assert_eq!(
        calc_share_sub_leader(b"g1", &[3, 7, 7, 11, 3]),
        calc_share_sub_leader(b"g1", &[11, 7, 3])
    );
    assert_eq!(calc_share_sub_leader(b"anything", &[42]), Ok(42));
}

#[test]
fn group_hash_values() {
    assert_eq!(hash_group(b""), 0);
    assert_eq!(hash_group(b"g1"), 3242);
    // wraps at the modulus
    let long = vec![255u8; 64];
    assert!(hash_group(&long) < 4294967291);
}
