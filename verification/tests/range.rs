use grad::range::{Grammar, IntErrorKind, ParseRangeError, Range, RangeInclusive};

#[test]
fn can_parse_range_usize() {
    let string = format!("{0}..{1}", usize::MIN, usize::MAX);
    let range = usize::MIN..usize::MAX;

    assert_eq!(range, std::ops::Range::<usize>::from(Range::<usize>::from_str(&string).unwrap()));
}

#[test]
fn can_parse_range_inclusive_usize() {
    let string = format!("{0}..={1}", usize::MIN, usize::MAX);
    let range = usize::MIN..=usize::MAX;

    assert_eq!(range, RangeInclusive::<usize>::from_str(&string).unwrap().into_std());
}

#[test]
fn refuses_text_as_range_usize() {
    assert!(Range::<usize>::from_str("FAIL").is_err());
}

#[test]
fn refuses_text_as_range_inclusive_usize() {
    assert!(RangeInclusive::<usize>::from_str("FAIL").is_err());
}

#[test]
fn can_parse_range_isize() {
    let string = format!("{0}..{1}", isize::MIN, isize::MAX);
    let range = isize::MIN..isize::MAX;

    assert_eq!(range, std::ops::Range::<isize>::from(Range::<isize>::from_str(&string).unwrap()));
}

#[test]
fn can_parse_range_inclusive_isize() {
    let string = format!("{0}..={1}", isize::MIN, isize::MAX);
    let range = isize::MIN..=isize::MAX;

    assert_eq!(range, RangeInclusive::<isize>::from_str(&string).unwrap().into_std());
}

#[test]
fn refuses_text_as_range_isize() {
    assert!(Range::<isize>::from_str("FAIL").is_err());
}

#[test]
fn refuses_text_as_range_inclusive_isize() {
    assert!(RangeInclusive::<isize>::from_str("FAIL").is_err());
}

#[test]
fn can_parse_range_u8() {
    let string = format!("{0}..{1}", u8::MIN, u8::MAX);
    let range = u8::MIN..u8::MAX;

    assert_eq!(range, std::ops::Range::<u8>::from(Range::<u8>::from_str(&string).unwrap()));
}

#[test]
fn can_parse_range_inclusive_u8() {
    let string = format!("{0}..={1}", u8::MIN, u8::MAX);
    let range = u8::MIN..=u8::MAX;

    assert_eq!(range, RangeInclusive::<u8>::from_str(&string).unwrap().into_std());
}

#[test]
fn refuses_text_as_range_u8() {
    assert!(Range::<u8>::from_str("FAIL").is_err());
}

#[test]
fn refuses_text_as_range_inclusive_u8() {
    assert!(RangeInclusive::<u8>::from_str("FAIL").is_err());
}

#[test]
fn can_parse_range_i8() {
    let string = format!("{0}..{1}", i8::MIN, i8::MAX);
    let range = i8::MIN..i8::MAX;

    assert_eq!(range, std::ops::Range::<i8>::from(Range::<i8>::from_str(&string).unwrap()));
}

#[test]
fn can_parse_range_inclusive_i8() {
    let string = format!("{0}..={1}", i8::MIN, i8::MAX);
    let range = i8::MIN..=i8::MAX;

    assert_eq!(range, RangeInclusive::<i8>::from_str(&string).unwrap().into_std());
}

#[test]
fn refuses_text_as_range_i8() {
    assert!(Range::<i8>::from_str("FAIL").is_err());
}

#[test]
fn refuses_text_as_range_inclusive_i8() {
    assert!(RangeInclusive::<i8>::from_str("FAIL").is_err());
}

#[test]
fn can_parse_range_u16() {
    let string = format!("{0}..{1}", u16::MIN, u16::MAX);
    let range = u16::MIN..u16::MAX;

    assert_eq!(range, std::ops::Range::<u16>::from(Range::<u16>::from_str(&string).unwrap()));
}

#[test]
fn can_parse_range_inclusive_u16() {
    let string = format!("{0}..={1}", u16::MIN, u16::MAX);
    let range = u16::MIN..=u16::MAX;

    assert_eq!(range, RangeInclusive::<u16>::from_str(&string).unwrap().into_std());
}

#[test]
fn refuses_text_as_range_u16() {
    assert!(Range::<u16>::from_str("FAIL").is_err());
}

#[test]
fn refuses_text_as_range_inclusive_u16() {
    assert!(RangeInclusive::<u16>::from_str("FAIL").is_err());
}

#[test]
fn can_parse_range_i16() {
    let string = format!("{0}..{1}", i16::MIN, i16::MAX);
    let range = i16::MIN..i16::MAX;

    assert_eq!(range, std::ops::Range::<i16>::from(Range::<i16>::from_str(&string).unwrap()));
}

#[test]
fn can_parse_range_inclusive_i16() {
    let string = format!("{0}..={1}", i16::MIN, i16::MAX);
    let range = i16::MIN..=i16::MAX;

    assert_eq!(range, RangeInclusive::<i16>::from_str(&string).unwrap().into_std());
}

#[test]
fn refuses_text_as_range_i16() {
    assert!(Range::<i16>::from_str("FAIL").is_err());
}

#[test]
fn refuses_text_as_range_inclusive_i16() {
    assert!(RangeInclusive::<i16>::from_str("FAIL").is_err());
}

#[test]
fn can_parse_range_u32() {
    let string = format!("{0}..{1}", u32::MIN, u32::MAX);
    let range = u32::MIN..u32::MAX;

    assert_eq!(range, std::ops::Range::<u32>::from(Range::<u32>::from_str(&string).unwrap()));
}

#[test]
fn can_parse_range_inclusive_u32() {
    let string = format!("{0}..={1}", u32::MIN, u32::MAX);
    let range = u32::MIN..=u32::MAX;

    assert_eq!(range, RangeInclusive::<u32>::from_str(&string).unwrap().into_std());
}

#[test]
fn refuses_text_as_range_u32() {
    assert!(Range::<u32>::from_str("FAIL").is_err());
}

#[test]
fn refuses_text_as_range_inclusive_u32() {
    assert!(RangeInclusive::<u32>::from_str("FAIL").is_err());
}

#[test]
fn can_parse_range_i32() {
    let string = format!("{0}..{1}", i32::MIN, i32::MAX);
    let range = i32::MIN..i32::MAX;

    assert_eq!(range, std::ops::Range::<i32>::from(Range::<i32>::from_str(&string).unwrap()));
}

#[test]
fn can_parse_range_inclusive_i32() {
    let string = format!("{0}..={1}", i32::MIN, i32::MAX);
    let range = i32::MIN..=i32::MAX;

    assert_eq!(range, RangeInclusive::<i32>::from_str(&string).unwrap().into_std());
}

#[test]
fn refuses_text_as_range_i32() {
    assert!(Range::<i32>::from_str("FAIL").is_err());
}

#[test]
fn refuses_text_as_range_inclusive_i32() {
    assert!(RangeInclusive::<i32>::from_str("FAIL").is_err());
}

#[test]
fn can_parse_range_u64() {
    let string = format!("{0}..{1}", u64::MIN, u64::MAX);
    let range = u64::MIN..u64::MAX;

    assert_eq!(range, std::ops::Range::<u64>::from(Range::<u64>::from_str(&string).unwrap()));
}

#[test]
fn can_parse_range_inclusive_u64() {
    let string = format!("{0}..={1}", u64::MIN, u64::MAX);
    let range = u64::MIN..=u64::MAX;

    assert_eq!(range, RangeInclusive::<u64>::from_str(&string).unwrap().into_std());
}

#[test]
fn refuses_text_as_range_u64() {
    assert!(Range::<u64>::from_str("FAIL").is_err());
}

#[test]
fn refuses_text_as_range_inclusive_u64() {
    assert!(RangeInclusive::<u64>::from_str("FAIL").is_err());
}

#[test]
fn can_parse_range_i64() {
    let string = format!("{0}..{1}", i64::MIN, i64::MAX);
    let range = i64::MIN..i64::MAX;

    assert_eq!(range, std::ops::Range::<i64>::from(Range::<i64>::from_str(&string).unwrap()));
}

#[test]
fn can_parse_range_inclusive_i64() {
    let string = format!("{0}..={1}", i64::MIN, i64::MAX);
    let range = i64::MIN..=i64::MAX;

    assert_eq!(range, RangeInclusive::<i64>::from_str(&string).unwrap().into_std());
}

#[test]
fn refuses_text_as_range_i64() {
    assert!(Range::<i64>::from_str("FAIL").is_err());
}

#[test]
fn refuses_text_as_range_inclusive_i64() {
    assert!(RangeInclusive::<i64>::from_str("FAIL").is_err());
}

#[test]
fn can_parse_range_u128() {
    let string = format!("{0}..{1}", u128::MIN, u128::MAX);
    let range = u128::MIN..u128::MAX;

    assert_eq!(range, std::ops::Range::<u128>::from(Range::<u128>::from_str(&string).unwrap()));
}

#[test]
fn can_parse_range_inclusive_u128() {
    let string = format!("{0}..={1}", u128::MIN, u128::MAX);
    let range = u128::MIN..=u128::MAX;

    assert_eq!(range, RangeInclusive::<u128>::from_str(&string).unwrap().into_std());
}

#[test]
fn refuses_text_as_range_u128() {
    assert!(Range::<u128>::from_str("FAIL").is_err());
}

#[test]
fn refuses_text_as_range_inclusive_u128() {
    assert!(RangeInclusive::<u128>::from_str("FAIL").is_err());
}

#[test]
fn can_parse_range_i128() {
    let string = format!("{0}..{1}", i128::MIN, i128::MAX);
    let range = i128::MIN..i128::MAX;

    assert_eq!(range, std::ops::Range::<i128>::from(Range::<i128>::from_str(&string).unwrap()));
}

#[test]
fn can_parse_range_inclusive_i128() {
    let string = format!("{0}..={1}", i128::MIN, i128::MAX);
    let range = i128::MIN..=i128::MAX;

    assert_eq!(range, RangeInclusive::<i128>::from_str(&string).unwrap().into_std());
}

#[test]
fn refuses_text_as_range_i128() {
    assert!(Range::<i128>::from_str("FAIL").is_err());
}

#[test]
fn refuses_text_as_range_inclusive_i128() {
    assert!(RangeInclusive::<i128>::from_str("FAIL").is_err());
}

const HALF_OPEN: &str = "^-?[0-9]+\\.\\.-?[0-9]+$";
const CLOSED: &str = "^-?[0-9]+\\.\\.=-?[0-9]+$";

fn no_match(haystack: &str, pattern: &str) -> ParseRangeError {
    ParseRangeError::NoMatch(haystack.to_string(), pattern.to_string())
}

#[test]
fn half_open_range_has_start_and_end() {
    let range = Range::<i128>::from_str("0..10").unwrap();

    assert_eq!(range.start, 0);
    assert_eq!(range.end, 10);
    assert_eq!(range, Range { start: 0, end: 10 });
}

#[test]
fn closed_range_has_start_and_end() {
    let range = RangeInclusive::<i128>::from_str("0..=10").unwrap();

    assert_eq!(range.start, 0);
    assert_eq!(range.end, 10);
    assert_eq!(range, RangeInclusive { start: 0, end: 10 });
}

#[test]
fn bounds_may_be_negative() {
    assert_eq!(Range::<i32>::from_str("-5..-2"), Ok(Range { start: -5, end: -2 }));
    assert_eq!(Range::<i32>::from_str("-5..7"), Ok(Range { start: -5, end: 7 }));
    assert_eq!(RangeInclusive::<i8>::from_str("-128..=-1"), Ok(RangeInclusive { start: -128, end: -1 }));
    assert_eq!(Range::<i64>::from_str("-0..0"), Ok(Range { start: 0, end: 0 }));
}

#[test]
fn leading_zeros_do_not_count() {
    assert_eq!(Range::<u8>::from_str("007..0255"), Ok(Range { start: 7, end: 255 }));
    assert_eq!(
        Range::<i8>::from_str("-000000000000000000000000000000000000000000000128..00000000000000000000000000000000000000000000127"),
        Ok(Range { start: -128, end: 127 })
    );
}

#[test]
fn an_inverted_range_is_read_as_written() {
    assert_eq!(Range::<i128>::from_str("10..0"), Ok(Range { start: 10, end: 0 }));
    assert_eq!(Range::<i128>::from_str("3..3"), Ok(Range { start: 3, end: 3 }));
    assert_eq!(RangeInclusive::<i128>::from_str("10..=0"), Ok(RangeInclusive { start: 10, end: 0 }));
}

#[test]
fn white_space_around_the_text_is_left_out() {
    assert_eq!(Range::<u16>::from_str("  1..2\n"), Ok(Range { start: 1, end: 2 }));
    assert_eq!(Range::<u16>::from_str("\t\u{a0}\u{2003}1..2\u{3000}\r\n"), Ok(Range { start: 1, end: 2 }));
    assert_eq!(RangeInclusive::<u16>::from_str(" 1..=2 "), Ok(RangeInclusive { start: 1, end: 2 }));
}

#[test]
fn white_space_within_the_text_is_refused() {
    assert_eq!(Range::<u16>::from_str("1 ..2"), Err(no_match("1 ..2", HALF_OPEN)));
    assert_eq!(Range::<u16>::from_str("1.. 2"), Err(no_match("1.. 2", HALF_OPEN)));
    assert_eq!(Range::<i16>::from_str("- 1..2"), Err(no_match("- 1..2", HALF_OPEN)));
}

#[test]
fn refusal_holds_the_trimmed_text_and_the_pattern() {
    assert_eq!(Range::<i128>::from_str("FAIL"), Err(no_match("FAIL", HALF_OPEN)));
    assert_eq!(RangeInclusive::<i128>::from_str("FAIL"), Err(no_match("FAIL", CLOSED)));
    assert_eq!(Range::<i128>::from_str("  FAIL \n"), Err(no_match("FAIL", HALF_OPEN)));
    assert_eq!(Range::<i128>::from_str(""), Err(no_match("", HALF_OPEN)));
    assert_eq!(Range::<i128>::from_str("   "), Err(no_match("", HALF_OPEN)));
}

#[test]
fn each_grammar_refuses_the_other() {
    assert_eq!(Range::<i128>::from_str("0..=10"), Err(no_match("0..=10", HALF_OPEN)));
    assert_eq!(RangeInclusive::<i128>::from_str("0..10"), Err(no_match("0..10", CLOSED)));
}

#[test]
fn text_that_is_not_a_range_is_refused() {
    for text in [
        "..", "1..", "..2", "1.2", "1...2", "1..2..3", "a..b", "1..b", "a..2", "-..2", "1..-", "--1..2",
        "1..--2", "+1..2", "1..+2", "1..2x", "x1..2", "1,.2", "1..=", "..=2", "1..==2", "1=..2", "1.=.2",
        "１..２", "1..2.", ".1..2", "0x1..0x2", "1e1..2", "1_0..2_0",
    ] {
        assert_eq!(Range::<i128>::from_str(text), Err(no_match(text, HALF_OPEN)), "{}", text);
    }
    for text in ["..=", "1..=", "..=2", "1.=2", "1..=2..=3", "a..=b", "1..=2x", "x1..=2", "1..==2", "٣..=٤"] {
        assert_eq!(RangeInclusive::<i128>::from_str(text), Err(no_match(text, CLOSED)), "{}", text);
    }
}

#[test]
fn bound_above_the_type_is_an_overflow() {
    assert_eq!(Range::<u8>::from_str("0..256"), Err(ParseRangeError::ParseInt(IntErrorKind::PosOverflow)));
    assert_eq!(Range::<u8>::from_str("256..0"), Err(ParseRangeError::ParseInt(IntErrorKind::PosOverflow)));
    assert_eq!(Range::<i8>::from_str("0..128"), Err(ParseRangeError::ParseInt(IntErrorKind::PosOverflow)));
    assert_eq!(
        RangeInclusive::<i128>::from_str("0..=170141183460469231731687303715884105728"),
        Err(ParseRangeError::ParseInt(IntErrorKind::PosOverflow))
    );
    assert_eq!(
        Range::<u128>::from_str("0..340282366920938463463374607431768211456"),
        Err(ParseRangeError::ParseInt(IntErrorKind::PosOverflow))
    );
    assert_eq!(
        Range::<u128>::from_str("0..99999999999999999999999999999999999999999999999999999999999999999"),
        Err(ParseRangeError::ParseInt(IntErrorKind::PosOverflow))
    );
}

#[test]
fn bound_below_the_type_is_an_underflow() {
    assert_eq!(Range::<i8>::from_str("-129..0"), Err(ParseRangeError::ParseInt(IntErrorKind::NegOverflow)));
    assert_eq!(Range::<i8>::from_str("0..-129"), Err(ParseRangeError::ParseInt(IntErrorKind::NegOverflow)));
    assert_eq!(
        Range::<i128>::from_str("-170141183460469231731687303715884105729..0"),
        Err(ParseRangeError::ParseInt(IntErrorKind::NegOverflow))
    );
    assert_eq!(
        Range::<i64>::from_str("-99999999999999999999999999999999999999999999999999999999999999999..0"),
        Err(ParseRangeError::ParseInt(IntErrorKind::NegOverflow))
    );
}

#[test]
fn minus_sign_on_an_unsigned_bound_is_no_digit() {
    assert_eq!(Range::<u8>::from_str("-1..5"), Err(ParseRangeError::ParseInt(IntErrorKind::InvalidDigit)));
    assert_eq!(Range::<u8>::from_str("1..-5"), Err(ParseRangeError::ParseInt(IntErrorKind::InvalidDigit)));
    assert_eq!(Range::<u64>::from_str("-0..5"), Err(ParseRangeError::ParseInt(IntErrorKind::InvalidDigit)));
    assert_eq!(RangeInclusive::<usize>::from_str("0..=-0"), Err(ParseRangeError::ParseInt(IntErrorKind::InvalidDigit)));
    assert_eq!(Range::<u8>::from_str("-999..5"), Err(ParseRangeError::ParseInt(IntErrorKind::InvalidDigit)));
}

#[test]
fn the_start_is_judged_before_the_end() {
    assert_eq!(Range::<i8>::from_str("-129..128"), Err(ParseRangeError::ParseInt(IntErrorKind::NegOverflow)));
    assert_eq!(Range::<i8>::from_str("128..-129"), Err(ParseRangeError::ParseInt(IntErrorKind::PosOverflow)));
    assert_eq!(Range::<u8>::from_str("256..-1"), Err(ParseRangeError::ParseInt(IntErrorKind::PosOverflow)));
    assert_eq!(Range::<u8>::from_str("-1..256"), Err(ParseRangeError::ParseInt(IntErrorKind::InvalidDigit)));
}

#[test]
fn bounds_are_read_as_std_reads_them() {
    for first in ["0", "1", "-1", "127", "128", "-128", "-129", "255", "256", "-0", "0099", "65535", "65536", "-32768", "-32769"] {
        for second in ["0", "200", "-200", "40000", "-40000"] {
            let text = format!("{}..{}", first, second);
            let on_i8 = Range::<i8>::from_str(&text).ok().map(|range| (range.start, range.end));
            let on_u8 = Range::<u8>::from_str(&text).ok().map(|range| (range.start, range.end));
            let on_i16 = Range::<i16>::from_str(&text).ok().map(|range| (range.start, range.end));
            let on_u16 = Range::<u16>::from_str(&text).ok().map(|range| (range.start, range.end));

            assert_eq!(on_i8, first.parse::<i8>().ok().zip(second.parse::<i8>().ok()), "{}", text);
            assert_eq!(on_u8, first.parse::<u8>().ok().zip(second.parse::<u8>().ok()), "{}", text);
            assert_eq!(on_i16, first.parse::<i16>().ok().zip(second.parse::<i16>().ok()), "{}", text);
            assert_eq!(on_u16, first.parse::<u16>().ok().zip(second.parse::<u16>().ok()), "{}", text);
        }
    }
}

#[test]
fn refusals_say_what_is_wrong() {
    assert_eq!(
        no_match("FAIL", HALF_OPEN).message(),
        "The haystack 'FAIL' did not match the pattern '^-?[0-9]+\\.\\.-?[0-9]+$'."
    );
    assert_eq!(
        no_match("0..10", CLOSED).message(),
        "The haystack '0..10' did not match the pattern '^-?[0-9]+\\.\\.=-?[0-9]+$'."
    );
    assert_eq!(ParseRangeError::ParseInt(IntErrorKind::InvalidDigit).message(), "invalid digit found in string");
    assert_eq!(IntErrorKind::InvalidDigit.message(), "-".parse::<u8>().unwrap_err().to_string());
    assert_eq!(IntErrorKind::PosOverflow.message(), "256".parse::<u8>().unwrap_err().to_string());
    assert_eq!(IntErrorKind::NegOverflow.message(), "-129".parse::<i8>().unwrap_err().to_string());
}

#[test]
fn ranges_come_from_and_go_to_those_of_std() {
    assert_eq!(Range::new(3..7), Range { start: 3, end: 7 });
    assert_eq!(Range::from(3..7), Range { start: 3, end: 7 });
    assert_eq!(Range { start: 3, end: 7 }.into_std(), 3..7);
    assert_eq!(std::ops::Range::from(Range { start: 3u8, end: 7 }), 3..7);
    assert_eq!(RangeInclusive::new(3..=7), RangeInclusive { start: 3, end: 7 });
    assert_eq!(RangeInclusive::from(3..=7), RangeInclusive { start: 3, end: 7 });
    assert_eq!(RangeInclusive { start: 3, end: 7 }.into_std(), 3..=7);
    assert_eq!(Range::<i32>::default(), Range { start: 0, end: 0 });
}

#[test]
fn the_two_grammars_are_told_apart() {
    assert_ne!(Grammar::HalfOpen, Grammar::Closed);
}

#[test]
fn ranges_are_parsed_from_strings() {
    assert_eq!("0..10".parse::<Range<i128>>(), Ok(Range { start: 0, end: 10 }));
    assert_eq!("0..=10".parse::<RangeInclusive<i128>>(), Ok(RangeInclusive { start: 0, end: 10 }));
    assert!("0..=10".parse::<Range<i128>>().is_err());
    assert!("0..10".parse::<RangeInclusive<i128>>().is_err());
}
