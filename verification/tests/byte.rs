use grad::byte::{random_base64, random_byte, random_hex};

#[test]
fn can_generate_one_kilobyte() {
    let bytes = random_byte(1024);

    assert_eq!(bytes.len(), 1024)
}

#[test]
fn can_generate_zero_bytes() {
    let bytes = random_byte(0);

    assert_eq!(bytes.len(), 0)
}

#[test]
fn can_generate_zero_bytes_as_hex() {
    let bytes = random_hex(false, 0);

    assert_eq!(bytes.len(), 0)
}

#[test]
fn can_generate_one_kilobyte_as_hex() {
    let length: usize = 1024;
    let bytes = random_hex(false, length);
    let string = std::str::from_utf8(&bytes).unwrap();

    assert_eq!(string.chars().count(), length * 2)
}

#[test]
fn can_generate_zero_bytes_as_base64() {
    let bytes = random_base64(false, 0);

    assert_eq!(bytes.len(), 0)
}

#[test]
fn can_generate_one_kilobyte_as_base64() {
    let bytes = random_base64(false, 1024);
    let string = std::str::from_utf8(&bytes).unwrap();

    assert_eq!(string.chars().count(), 1368)
}

fn is_hex_digit(byte: u8, uppercase: bool) -> bool {
    byte.is_ascii_digit() || if uppercase { (b'A'..=b'F').contains(&byte) } else { (b'a'..=b'f').contains(&byte) }
}

#[test]
fn hex_has_two_digits_for_each_byte() {
    for length in 0..=64usize {
        let lower = random_hex(false, length);
        let upper = random_hex(true, length);

        assert_eq!(lower.len(), 2 * length);
        assert_eq!(upper.len(), 2 * length);
        assert!(lower.iter().all(|byte| is_hex_digit(*byte, false)));
        assert!(upper.iter().all(|byte| is_hex_digit(*byte, true)));
    }
}

#[test]
fn base64_has_four_characters_for_each_three_bytes() {
    for length in 0..=64usize {
        let standard = random_base64(false, length);
        let url = random_base64(true, length);

        assert_eq!(standard.len(), (length + 2) / 3 * 4);
        assert_eq!(url.len(), (length + 2) / 3 * 4);
        assert!(standard.iter().all(|byte| byte.is_ascii_alphanumeric() || b"+/=".contains(byte)));
        assert!(url.iter().all(|byte| byte.is_ascii_alphanumeric() || b"-_=".contains(byte)));
    }
}

#[test]
fn base64_is_padded_to_a_full_group() {
    assert!(random_base64(false, 1).ends_with(b"=="));
    assert!(random_base64(false, 2).ends_with(b"="));
    assert!(!random_base64(false, 2).ends_with(b"=="));
    assert!(!random_base64(false, 3).ends_with(b"="));
}

#[test]
fn random_bytes_differ_from_call_to_call() {
    assert_ne!(random_byte(32), random_byte(32));
    assert_ne!(random_hex(false, 32), random_hex(false, 32));
    assert_ne!(random_base64(false, 32), random_base64(false, 32));
}
