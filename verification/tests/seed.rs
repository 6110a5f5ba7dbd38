use dice_eval::utils::decode_seed;

#[test]
fn decodes_a_full_hex_seed() {
    let text = b"000102030405060708090a0b0c0d0e0f101112131415161718191a1b1c1d1e1f";
    let seed = decode_seed(text).unwrap();
    let expected: Vec<u8> = (0u8..32).collect();
    assert_eq!(seed, expected);
}

#[test]
fn accepts_upper_and_lower_case_digits() {
    let text = b"FFffFFffFFffFFffFFffFFffFFffFFffFFffFFffFFffFFffFFffFFffFFffFFff";
    let seed = decode_seed(text).unwrap();
    assert_eq!(seed, vec![0xffu8; 32]);
}

#[test]
fn rejects_wrong_length_and_bad_bytes() {
    assert!(decode_seed(b"0011").is_none());
    let mut text = vec![b'0'; 64];
    text[10] = b'g';
    assert!(decode_seed(&text).is_none());
}
