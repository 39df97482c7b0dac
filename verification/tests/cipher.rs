use esp_examples::cipher::xor_cipher;

#[test]
fn message_is_enciphered_byte_by_byte() {
    let out = xor_cipher("Embedded Rust".as_bytes(), 200);
    let expected: Vec<u8> = "Embedded Rust".bytes().map(|b| b ^ 200).collect();
    assert_eq!(out, expected);
    assert_eq!(out[0], b'E' ^ 200);
    assert_eq!(out[0], 0x8d);
}

#[test]
fn deciphering_gives_the_message_back() {
    let secret = xor_cipher("Embedded Rust".as_bytes(), 200);
    let back = xor_cipher(&secret, 200);
    assert_eq!(std::str::from_utf8(&back), Ok("Embedded Rust"));
}

#[test]
fn empty_message_stays_empty() {
    assert!(xor_cipher(&[], 7).is_empty());
}

#[test]
fn zero_key_changes_nothing() {
    assert_eq!(xor_cipher(&[1, 2, 3], 0), vec![1, 2, 3]);
}
