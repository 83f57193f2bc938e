use grad::digit::{random_digit, sample_digits, DIGITS};
use grad::entropy::EntropySource;

#[test]
fn generates_zero_digits() {
    let bytes = random_digit(0);

    assert_eq!(bytes.len(), 0)
}

#[test]
fn generates_ten_thousand_digits() {
    let bytes = random_digit(10000);
    let string = std::str::from_utf8(&bytes).unwrap();

    assert_eq!(string.chars().count(), 10000)
}

#[test]
fn digits_are_decimal_digits() {
    let bytes = random_digit(10000);

    assert!(bytes.iter().all(|byte| byte.is_ascii_digit()));
    for digit in b'0'..=b'9' {
        assert!(bytes.contains(&digit));
    }
}

#[test]
fn the_alphabet_of_digits_is_zero_to_nine() {
    assert_eq!(&DIGITS, b"0123456789");
}

#[test]
fn digits_are_drawn_from_the_given_source() {
    let mut source = EntropySource::new_stream();

    assert_eq!(sample_digits(&mut source, 0), Vec::<u8>::new());
    assert_eq!(sample_digits(&mut source, 17).len(), 17);
}
