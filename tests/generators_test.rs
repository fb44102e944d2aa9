use link_shortener::generators::{
    generate_id, generate_qr_code, generate_random_string, generate_sha3_512, Error,
};

#[test]
fn random_string_has_length_and_charset() {
    let charset = ['a', 'b', 'c'];
    for length in [1usize, 6, 30, 100] {
        let s = generate_random_string(&charset, length).unwrap();
        assert_eq!(s.chars().count(), length);
        assert!(s.chars().all(|c| charset.contains(&c)));
    }
}

#[test]
fn random_string_single_char_charset() {
    assert_eq!(generate_random_string(&['x'], 4).unwrap(), "xxxx");
}

#[test]
fn random_string_zero_length_fails() {
    assert_eq!(generate_random_string(&['a'], 0), Err(Error::InvalidLength));
    assert_eq!(generate_random_string(&[], 0), Err(Error::InvalidLength));
}

#[test]
fn random_string_empty_charset_fails() {
    assert_eq!(generate_random_string(&[], 5), Err(Error::InvalidCharSet));
}

#[test]
fn id_is_32_lowercase_hex_digits() {
    let a = generate_id();
    let b = generate_id();
    assert_eq!(a.len(), 32);
    assert!(a.chars().all(|c| c.is_ascii_digit() || ('a'..='f').contains(&c)));
    assert_ne!(a, b);
    assert_eq!(&a[12..13], "7");
}

#[test]
fn sha3_512_of_empty_text() {
    assert_eq!(
        generate_sha3_512(""),
        "a69f73cca23a9ac5c8b567dc185a756e97c982164fe25859e0d1dcc1475c80a615b2123af1f5f94c11e3e9402c3ac558f500199d95b6d3e301758586281dcd26"
    );
}

#[test]
fn sha3_512_is_128_hex_digits_and_depends_on_text() {
    let a = generate_sha3_512("abc");
    assert_eq!(a.len(), 128);
    assert_ne!(a, generate_sha3_512("abd"));
}

#[test]
fn qr_code_is_png() {
    let png = generate_qr_code("https://example.com", 600, 600).unwrap();
    assert_eq!(&png[0..8], &[0x89, b'P', b'N', b'G', 0x0d, 0x0a, 0x1a, 0x0a]);
}

#[test]
fn qr_code_is_deterministic() {
    let a = generate_qr_code("https://example.com/abc", 200, 200).unwrap();
    let b = generate_qr_code("https://example.com/abc", 200, 200).unwrap();
    assert_eq!(a, b);
    assert_ne!(a, generate_qr_code("https://example.com/abd", 200, 200).unwrap());
}

#[test]
fn qr_code_with_too_much_data_fails() {
    let data = "x".repeat(5000);
    assert_eq!(generate_qr_code(&data, 600, 600), Err(Error::InvalidData));
}
