use state_machine::codec::{bytes_eq, code_key_vec, decode_value, validator_count_key_vec,
    validator_prefix_vec, value_vec};

#[test]
fn encode_decode_round_trip() {
    for i in [0usize, 1, 255, 256, 65535, 65536] {
        let encoded = value_vec(i, Vec::new());
        assert_eq!(decode_value(&encoded), i);
    }
}

#[test]
fn encoding_is_little_endian_and_minimal() {
    assert_eq!(value_vec(0, Vec::new()), Vec::<u8>::new());
    assert_eq!(value_vec(1, Vec::new()), vec![1]);
    assert_eq!(value_vec(255, Vec::new()), vec![255]);
    assert_eq!(value_vec(256, Vec::new()), vec![0, 1]);
    assert_eq!(value_vec(65535, Vec::new()), vec![255, 255]);
    assert_eq!(value_vec(65536, Vec::new()), vec![0, 0, 1]);
}

#[test]
fn encoding_appends_to_the_initial_prefix() {
    assert_eq!(value_vec(0, b"\0validator".to_vec()), b"\0validator".to_vec());
    assert_eq!(value_vec(1, b"\0validator".to_vec()), b"\0validator\x01".to_vec());
    assert_eq!(value_vec(258, b"\0validator".to_vec()), b"\0validator\x02\x01".to_vec());
}

#[test]
fn decoding_folds_most_significant_first() {
    assert_eq!(decode_value(&[]), 0);
    assert_eq!(decode_value(&[7]), 7);
    assert_eq!(decode_value(&[0, 1]), 256);
    assert_eq!(decode_value(&[1, 2, 3]), 1 + 2 * 256 + 3 * 65536);
    // Trailing zero bytes are redundant digits, not part of the value.
    assert_eq!(decode_value(&[7, 0, 0]), 7);
    // A value too large for usize saturates.
    assert_eq!(
        decode_value(&[255, 255, 255, 255, 255, 255, 255, 255, 255]),
        usize::MAX
    );
}

#[test]
fn reserved_keys_spell_their_names() {
    assert_eq!(code_key_vec(), b"\0code".to_vec());
    assert_eq!(validator_count_key_vec(), b"\0validator_count".to_vec());
    assert_eq!(validator_prefix_vec(), b"\0validator".to_vec());
}

#[test]
fn bytes_eq_compares_contents() {
    assert!(bytes_eq(b"", b""));
    assert!(bytes_eq(b"abc", b"abc"));
    assert!(!bytes_eq(b"abc", b"abd"));
    assert!(!bytes_eq(b"abc", b"abcd"));
}
