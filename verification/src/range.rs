//! Ranges of integers and their text: `START..END` for a half-open range and
//! `START..=END` for a closed one, where each bound is an optional minus sign
//! and one decimal digit or more. White space around the text is left out.

use crate::decimal::{
    all_digits, decimal_text, digits_of, digits_value, lemma_digits_round_trip,
    lemma_digits_shape,
};
use crate::text::{
    chars_of, first_of, is_whitespace, lemma_first_of, lemma_trimmed_unchanged, string_of,
    trim_bounds, trimmed,
};
use crate::width::{signed_value, Width};
use vstd::prelude::*;
use vstd::slice::slice_subrange;
use vstd::string::StringExecFns;

verus! {

/// The two ways to write a range.
#[derive(Debug, Clone, Copy, PartialEq, Eq, Structural)]
pub enum Grammar {
    /// `START..END`: the end is not part of the range.
    HalfOpen,
    /// `START..=END`: the end is part of the range.
    Closed,
}

/// Why a bound is no value of the integer type.
#[derive(Debug, Clone, Copy, PartialEq, Eq, Structural)]
pub enum IntErrorKind {
    /// A minus sign stands in front of a bound of an unsigned type.
    InvalidDigit,
    /// The bound is above the greatest value of the type.
    PosOverflow,
    /// The bound is below the least value of the type.
    NegOverflow,
}

/// Why a text is no range.
#[derive(Debug, Clone, PartialEq, Eq)]
pub enum ParseRangeError {
    /// The text, which comes first, is not written in the grammar whose
    /// pattern comes second.
    NoMatch(String, String),
    /// The text is written in the grammar, and a bound does not fit the type.
    ParseInt(IntErrorKind),
}

/// A half-open range: from `start` up to `end`, which is not part of it.
#[derive(Debug, Clone, Default, PartialEq, Eq, Hash)]
pub struct Range<Idx> {
    pub start: Idx,
    pub end: Idx,
}

/// A closed range: from `start` up to `end`, which is part of it.
#[derive(Debug, Clone, PartialEq, Eq, Hash)]
pub struct RangeInclusive<Idx> {
    pub start: Idx,
    pub end: Idx,
}

/// Whether `c` is one of the ten decimal digits.
pub open spec fn is_digit(c: char) -> bool {
    0x30 <= c as u32 <= 0x39
}

/// Whether `text` holds decimal digits only.
pub open spec fn digit_chars(text: Seq<char>) -> bool {
    forall|i: int| 0 <= i < text.len() ==> is_digit(#[trigger] text[i])
}

/// Whether `numeral` begins with a minus sign.
pub open spec fn negative(numeral: Seq<char>) -> bool {
    numeral.len() > 0 && numeral[0] == '-'
}

/// What follows the sign of `numeral`, or all of it where it has no sign.
pub open spec fn digits_part(numeral: Seq<char>) -> Seq<char> {
    if negative(numeral) {
        numeral.skip(1)
    } else {
        numeral
    }
}

/// Whether `numeral` is an optional minus sign and one decimal digit or more.
pub open spec fn is_numeral(numeral: Seq<char>) -> bool {
    digits_part(numeral).len() > 0 && digit_chars(digits_part(numeral))
}

/// The number that decimal digits stand for.
pub open spec fn chars_value(digits: Seq<char>) -> nat
    decreases digits.len(),
{
    if digits.len() == 0 {
        0
    } else {
        (10 * chars_value(digits.drop_last()) + (digits.last() as u32 - 0x30)) as nat
    }
}

/// The number that the digits of `numeral` stand for, whatever its sign.
pub open spec fn magnitude(numeral: Seq<char>) -> nat {
    chars_value(digits_part(numeral))
}

/// The integer that `numeral` stands for.
pub open spec fn numeral_value(numeral: Seq<char>) -> int {
    signed_value(negative(numeral), magnitude(numeral))
}

/// What stands between the two bounds.
pub open spec fn separator(grammar: Grammar) -> Seq<char> {
    match grammar {
        Grammar::HalfOpen => seq!['.', '.'],
        Grammar::Closed => seq!['.', '.', '='],
    }
}

/// The pattern of a grammar, as an error shows it.
pub open spec fn pattern_text(grammar: Grammar) -> Seq<char> {
    match grammar {
        Grammar::HalfOpen => "^-?[0-9]+\\.\\.-?[0-9]+$"@,
        Grammar::Closed => "^-?[0-9]+\\.\\.=-?[0-9]+$"@,
    }
}

/// What stands before the first dot of `text`.
pub open spec fn start_text(text: Seq<char>) -> Seq<char> {
    text.take(first_of(text, '.') as int)
}

/// What stands behind the separator, taken to begin at the first dot of `text`.
pub open spec fn end_text(text: Seq<char>, grammar: Grammar) -> Seq<char> {
    text.skip(first_of(text, '.') as int + separator(grammar).len())
}

/// Whether `text` is written in `grammar`: a numeral, the separator and a
/// numeral, and nothing else.
pub open spec fn written_in(text: Seq<char>, grammar: Grammar) -> bool {
    let dot = first_of(text, '.') as int;
    &&& dot + separator(grammar).len() <= text.len()
    &&& text.subrange(dot, dot + separator(grammar).len()) == separator(grammar)
    &&& is_numeral(start_text(text))
    &&& is_numeral(end_text(text, grammar))
}

/// Why the integer that `numeral` stands for is no value of `Idx`, or nothing
/// where it is one. A minus sign in front of a bound of an unsigned type is
/// refused whatever follows it.
pub open spec fn bound_error<Idx: Width>(numeral: Seq<char>) -> Option<IntErrorKind> {
    if negative(numeral) && Idx::lowest() >= 0 {
        Some(IntErrorKind::InvalidDigit)
    } else if numeral_value(numeral) > Idx::highest() {
        Some(IntErrorKind::PosOverflow)
    } else if numeral_value(numeral) < Idx::lowest() {
        Some(IntErrorKind::NegOverflow)
    } else {
        None
    }
}

/// Why the bounds of a text written in `grammar` are no values of `Idx`: what
/// is wrong with the start, else what is wrong with the end, else nothing.
pub open spec fn bounds_error<Idx: Width>(text: Seq<char>, grammar: Grammar) -> Option<
    IntErrorKind,
> {
    if bound_error::<Idx>(start_text(text)) is Some {
        bound_error::<Idx>(start_text(text))
    } else {
        bound_error::<Idx>(end_text(text, grammar))
    }
}

/// Whether `outcome` is what reading `text` in `grammar` gives, for bounds of
/// type `Idx`. Each text has one outcome only: the two bounds, where it is
/// written in the grammar and both fit the type; else the reason.
pub open spec fn is_parse_of<Idx: Width>(
    outcome: Result<(Idx, Idx), ParseRangeError>,
    text: Seq<char>,
    grammar: Grammar,
) -> bool {
    let body = trimmed(text);
    match outcome {
        Ok((start, end)) => {
            &&& written_in(body, grammar)
            &&& bounds_error::<Idx>(body, grammar) is None
            &&& start.as_int() == numeral_value(start_text(body))
            &&& end.as_int() == numeral_value(end_text(body, grammar))
        },
        Err(ParseRangeError::NoMatch(haystack, pattern)) => {
            &&& !written_in(body, grammar)
            &&& haystack@ == body
            &&& pattern@ == pattern_text(grammar)
        },
        Err(ParseRangeError::ParseInt(kind)) => {
            &&& written_in(body, grammar)
            &&& bounds_error::<Idx>(body, grammar) == Some(kind)
        },
    }
}

/// ASCII bytes as characters.
pub open spec fn ascii(bytes: Seq<u8>) -> Seq<char> {
    bytes.map_values(|b: u8| b as char)
}

/// A numeral holds no dot, and neither begins nor ends with white space.
pub proof fn lemma_numeral_chars(numeral: Seq<char>)
    requires
        is_numeral(numeral),
    ensures
        numeral.len() > 0,
        forall|i: int| 0 <= i < numeral.len() ==> numeral[i] != '.',
        !is_whitespace(numeral[0]),
        !is_whitespace(numeral.last()),
{
    let digits = digits_part(numeral);
    assert forall|i: int| 0 <= i < numeral.len() implies numeral[i] != '.' && !is_whitespace(
        numeral[i],
    ) by {
        if negative(numeral) {
            if i > 0 {
                assert(is_digit(digits[i - 1]));
            }
        } else {
            assert(is_digit(digits[i]));
        }
    }
}

/// Two numerals with the separator of a grammar between them are written in
/// that grammar, and are its two bounds.
pub proof fn lemma_written_joined(first: Seq<char>, second: Seq<char>, grammar: Grammar)
    requires
        is_numeral(first),
        is_numeral(second),
    ensures
        written_in(first + separator(grammar) + second, grammar),
        start_text(first + separator(grammar) + second) == first,
        end_text(first + separator(grammar) + second, grammar) == second,
        trimmed(first + separator(grammar) + second) == first + separator(grammar) + second,
{
    let mark = separator(grammar);
    let text = first + mark + second;
    lemma_numeral_chars(first);
    lemma_numeral_chars(second);
    assert(text[first.len() as int] == mark[0]);
    assert forall|k: int| 0 <= k < first.len() implies text[k] != '.' by {
        assert(text[k] == first[k]);
    }
    lemma_first_of(text, '.', first.len() as int);
    assert(text.take(first.len() as int) =~= first);
    assert(text.skip(first.len() as int + mark.len()) =~= second);
    assert(text.subrange(first.len() as int, first.len() as int + mark.len()) =~= mark);
    assert(text[0] == first[0]);
    assert(text.last() == second.last());
    lemma_trimmed_unchanged(text);
}

/// A text written in a grammar is its two bounds with the separator between them.
pub proof fn lemma_written_split(text: Seq<char>, grammar: Grammar)
    requires
        written_in(text, grammar),
    ensures
        text == start_text(text) + separator(grammar) + end_text(text, grammar),
{
    let dot = first_of(text, '.') as int;
    let mark = separator(grammar);
    assert(text =~= text.take(dot) + text.subrange(dot, dot + mark.len()) + text.skip(
        dot + mark.len(),
    ));
}

/// A text is written in one of the two grammars at most.
pub proof fn lemma_one_grammar(text: Seq<char>)
    ensures
        !(written_in(text, Grammar::HalfOpen) && written_in(text, Grammar::Closed)),
{
    if written_in(text, Grammar::HalfOpen) && written_in(text, Grammar::Closed) {
        let dot = first_of(text, '.') as int;
        let closed = text.subrange(dot, dot + 3);
        assert(closed[2] == '=');
        let rest = end_text(text, Grammar::HalfOpen);
        assert(rest[0] == text[dot + 2]);
        lemma_numeral_chars(rest);
        if negative(rest) {
        } else {
            assert(is_digit(digits_part(rest)[0]));
        }
    }
}

/// The decimal text of an integer is a numeral, and stands for that integer.
pub proof fn lemma_decimal_numeral(value: int)
    ensures
        is_numeral(ascii(decimal_text(value))),
        numeral_value(ascii(decimal_text(value))) == value,
        negative(ascii(decimal_text(value))) <==> value < 0,
{
    let size = if value < 0 {
        (-value) as nat
    } else {
        value as nat
    };
    let digits = digits_of(size);
    lemma_digits_shape(size);
    lemma_digits_round_trip(size);
    lemma_ascii_value(digits);
    let numeral = ascii(decimal_text(value));
    if value < 0 {
        assert(numeral[0] == '-');
        assert(numeral.skip(1) =~= ascii(digits));
    } else {
        assert(numeral =~= ascii(digits));
        assert(numeral[0] == digits[0] as char);
        assert(is_digit(ascii(digits)[0]));
    }
}

/// ASCII digits as characters are decimal digits, and stand for the same number.
proof fn lemma_ascii_value(digits: Seq<u8>)
    requires
        all_digits(digits),
    ensures
        digit_chars(ascii(digits)),
        chars_value(ascii(digits)) == digits_value(digits),
    decreases digits.len(),
{
    assert forall|i: int| 0 <= i < digits.len() implies is_digit(#[trigger] ascii(digits)[i]) by {
        assert(0x30 <= digits[i] <= 0x39);
    }
    if digits.len() > 0 {
        lemma_ascii_value(digits.drop_last());
        assert(ascii(digits).drop_last() =~= ascii(digits.drop_last()));
        assert(0x30 <= digits[digits.len() - 1] <= 0x39);
    }
}

/// A range whose bounds are values of `Idx`, written as their decimal texts
/// with the separator of a grammar between them, reads back as these bounds.
pub proof fn lemma_written_range_parses<Idx: Width>(
    outcome: Result<(Idx, Idx), ParseRangeError>,
    start: int,
    end: int,
    grammar: Grammar,
)
    requires
        Idx::lowest() <= start <= Idx::highest(),
        Idx::lowest() <= end <= Idx::highest(),
        is_parse_of(
            outcome,
            ascii(decimal_text(start)) + separator(grammar) + ascii(decimal_text(end)),
            grammar,
        ),
    ensures
        outcome matches Ok(bounds) && bounds.0.as_int() == start && bounds.1.as_int() == end,
{
    lemma_decimal_numeral(start);
    lemma_decimal_numeral(end);
    lemma_written_joined(ascii(decimal_text(start)), ascii(decimal_text(end)), grammar);
}

/// A text written in neither grammar is refused in both, each refusal with the
/// text and the pattern that it was held against.
pub proof fn lemma_unwritten_refused<Idx: Width>(
    half_open: Result<(Idx, Idx), ParseRangeError>,
    closed: Result<(Idx, Idx), ParseRangeError>,
    text: Seq<char>,
)
    requires
        !written_in(trimmed(text), Grammar::HalfOpen),
        !written_in(trimmed(text), Grammar::Closed),
        is_parse_of(half_open, text, Grammar::HalfOpen),
        is_parse_of(closed, text, Grammar::Closed),
    ensures
        half_open matches Err(ParseRangeError::NoMatch(haystack, pattern)) && haystack@ == trimmed(
            text,
        ) && pattern@ == pattern_text(Grammar::HalfOpen),
        closed matches Err(ParseRangeError::NoMatch(haystack, pattern)) && haystack@ == trimmed(
            text,
        ) && pattern@ == pattern_text(Grammar::Closed),
{
}

/// Whether `c` is one of the ten decimal digits.
fn digit(c: char) -> (yes: bool)
    ensures
        yes == is_digit(c),
{
    let u = c as u32;
    0x30 <= u && u <= 0x39
}

/// The sign and the magnitude of the numeral that stands in `chars` from
/// `from` up to `to`, or nothing where no numeral stands there. A magnitude
/// above all that 128 bits hold is not given.
fn read_numeral(chars: &[char], from: usize, to: usize) -> (found: Option<(bool, Option<u128>)>)
    requires
        from <= to <= chars@.len(),
    ensures
        found is Some <==> is_numeral(chars@.subrange(from as int, to as int)),
        found matches Some((minus, size)) ==> {
            &&& minus == negative(chars@.subrange(from as int, to as int))
            &&& size is Some <==> magnitude(chars@.subrange(from as int, to as int)) <= u128::MAX
            &&& size matches Some(m) ==> m == magnitude(chars@.subrange(from as int, to as int))
        },
{
    let ghost numeral = chars@.subrange(from as int, to as int);
    let minus = from < to && chars[from] == '-';
    let first: usize = if minus {
        from + 1
    } else {
        from
    };
    let ghost digits = chars@.subrange(first as int, to as int);
    assert(digits =~= digits_part(numeral));
    if first == to {
        return None;
    }
    let mut size: Option<u128> = Some(0);
    let mut at: usize = first;
    assert(chars@.subrange(first as int, first as int) =~= Seq::<char>::empty());
    while at < to
        invariant
            first <= at <= to <= chars@.len(),
            numeral == chars@.subrange(from as int, to as int),
            digits == chars@.subrange(first as int, to as int),
            digits == digits_part(numeral),
            digit_chars(chars@.subrange(first as int, at as int)),
            size is Some <==> chars_value(chars@.subrange(first as int, at as int)) <= u128::MAX,
            size matches Some(m) ==> m == chars_value(chars@.subrange(first as int, at as int)),
        decreases to - at,
    {
        let c = chars[at];
        if !digit(c) {
            assert(digits[at - first] == c);
            return None;
        }
        let ghost read = chars@.subrange(first as int, at as int);
        let ghost more = chars@.subrange(first as int, at + 1);
        assert(more.drop_last() =~= read);
        assert(more.last() == c);
        assert forall|i: int| 0 <= i < more.len() implies is_digit(#[trigger] more[i]) by {
            if i < read.len() {
                assert(more[i] == read[i]);
            }
        }
        let unit: u128 = (c as u32 - 0x30) as u128;
        size =
        match size {
            Some(m) => match m.checked_mul(10) {
                Some(tens) => tens.checked_add(unit),
                None => None,
            },
            None => None,
        };
        at = at + 1;
    }
    assert(chars@.subrange(first as int, to as int) =~= digits);
    Some((minus, size))
}

/// The value of `Idx` with the given sign and magnitude, or why there is none.
/// `size` is the magnitude where 128 bits hold it.
fn to_width<Idx: Width>(minus: bool, size: Option<u128>, Ghost(numeral): Ghost<Seq<char>>) -> (value:
    Result<Idx, IntErrorKind>)
    requires
        minus == negative(numeral),
        size is Some <==> magnitude(numeral) <= u128::MAX,
        size matches Some(m) ==> m == magnitude(numeral),
    ensures
        value matches Ok(v) ==> bound_error::<Idx>(numeral) is None && v.as_int() == numeral_value(
            numeral,
        ),
        value matches Err(kind) ==> bound_error::<Idx>(numeral) == Some(kind),
{
    proof {
        Idx::lemma_limits();
    }
    if minus && !Idx::signed() {
        return Err(IntErrorKind::InvalidDigit);
    }
    let fitting = match size {
        Some(m) => Idx::from_sign_magnitude(minus, m),
        None => None,
    };
    match fitting {
        Some(v) => Ok(v),
        None => if minus {
            Err(IntErrorKind::NegOverflow)
        } else {
            Err(IntErrorKind::PosOverflow)
        },
    }
}

/// The two bounds that `text` gives when read in `grammar`, or why it gives none.
pub fn parse_bounds<Idx: Width>(text: &str, grammar: Grammar) -> (outcome: Result<
    (Idx, Idx),
    ParseRangeError,
>)
    ensures
        is_parse_of(outcome, text@, grammar),
{
    let chars = chars_of(text);
    let (begin, finish) = trim_bounds(chars.as_slice());
    let body = slice_subrange(chars.as_slice(), begin, finish);
    let total = body.len();
    let mut dot: usize = 0;
    while dot < total && body[dot] != '.'
        invariant
            total == body@.len(),
            dot <= total,
            forall|k: int| 0 <= k < dot ==> body@[k] != '.',
        decreases total - dot,
    {
        dot = dot + 1;
    }
    proof {
        lemma_first_of(body@, '.', dot as int);
    }
    let width: usize = match grammar {
        Grammar::HalfOpen => 2,
        Grammar::Closed => 3,
    };
    let marked = total - dot >= width && body[dot + 1] == '.' && match grammar {
        Grammar::HalfOpen => true,
        Grammar::Closed => body[dot + 2] == '=',
    };
    proof {
        if total - dot >= width {
            let mark = body@.subrange(dot as int, dot + width);
            assert(mark[0] == body@[dot as int]);
            assert(mark[1] == body@[dot + 1]);
            if width == 3 {
                assert(mark[2] == body@[dot + 2]);
            }
            if marked {
                assert(mark =~= separator(grammar));
            }
        }
    }
    if marked {
        assert(body@.take(dot as int) =~= body@.subrange(0, dot as int));
        assert(body@.skip(dot + width) =~= body@.subrange(dot + width, total as int));
        let first = read_numeral(body, 0, dot);
        let second = read_numeral(body, dot + width, total);
        match (first, second) {
            (Some((first_minus, first_size)), Some((second_minus, second_size))) => {
                let start = to_width::<Idx>(first_minus, first_size, Ghost(start_text(body@)));
                let end = to_width::<Idx>(
                    second_minus,
                    second_size,
                    Ghost(end_text(body@, grammar)),
                );
                return match (start, end) {
                    (Ok(start), Ok(end)) => Ok((start, end)),
                    (Err(kind), _) => Err(ParseRangeError::ParseInt(kind)),
                    (_, Err(kind)) => Err(ParseRangeError::ParseInt(kind)),
                };
            },
            _ => {},
        }
    }
    let pattern = match grammar {
        Grammar::HalfOpen => String::from_str("^-?[0-9]+\\.\\.-?[0-9]+$"),
        Grammar::Closed => String::from_str("^-?[0-9]+\\.\\.=-?[0-9]+$"),
    };
    Err(ParseRangeError::NoMatch(string_of(body), pattern))
}

/// What an error of a kind says.
pub open spec fn kind_text(kind: IntErrorKind) -> Seq<char> {
    match kind {
        IntErrorKind::InvalidDigit => "invalid digit found in string"@,
        IntErrorKind::PosOverflow => "number too large to fit in target type"@,
        IntErrorKind::NegOverflow => "number too small to fit in target type"@,
    }
}

/// What an error says.
pub open spec fn error_text(error: ParseRangeError) -> Seq<char> {
    match error {
        ParseRangeError::NoMatch(haystack, pattern) => "The haystack '"@ + haystack@
            + "' did not match the pattern '"@ + pattern@ + "'."@,
        ParseRangeError::ParseInt(kind) => kind_text(kind),
    }
}

impl IntErrorKind {
    /// What the error says.
    pub fn message(&self) -> (text: String)
        ensures
            text@ == kind_text(*self),
    {
        match self {
            IntErrorKind::InvalidDigit => String::from_str("invalid digit found in string"),
            IntErrorKind::PosOverflow => String::from_str("number too large to fit in target type"),
            IntErrorKind::NegOverflow => String::from_str("number too small to fit in target type"),
        }
    }
}

impl ParseRangeError {
    /// What the error says.
    pub fn message(&self) -> (text: String)
        ensures
            text@ == error_text(*self),
    {
        match self {
            ParseRangeError::NoMatch(haystack, pattern) => {
                let mut text = String::from_str("The haystack '");
                text.append(haystack.as_str());
                text.append("' did not match the pattern '");
                text.append(pattern.as_str());
                text.append("'.");
                text
            },
            ParseRangeError::ParseInt(kind) => kind.message(),
        }
    }
}

impl<Idx> Range<Idx> {
    /// The range from the start of `range` up to its end.
    pub fn new(range: std::ops::Range<Idx>) -> (made: Range<Idx>)
        ensures
            made.start == range.start,
            made.end == range.end,
    {
        Range { start: range.start, end: range.end }
    }

    /// The range as std has it.
    pub fn into_std(self) -> (range: std::ops::Range<Idx>)
        ensures
            range.start == self.start,
            range.end == self.end,
    {
        std::ops::Range { start: self.start, end: self.end }
    }
}

impl<Idx> RangeInclusive<Idx> {
    /// The range from the start of `range` up to its end, whether or not
    /// `range` was walked through before.
    pub fn new(range: std::ops::RangeInclusive<Idx>) -> (made: RangeInclusive<Idx>)
        ensures
            made.start == range@.start,
            made.end == range@.end,
    {
        let (start, end) = range.into_inner();
        RangeInclusive { start, end }
    }

    /// The range as std has it.
    pub fn into_std(self) -> (range: std::ops::RangeInclusive<Idx>)
        ensures
            range@.start == self.start,
            range@.end == self.end,
            !range@.exhausted,
    {
        std::ops::RangeInclusive::new(self.start, self.end)
    }
}

/// `RangeInclusive::into_inner` of std gives the lower bound and the upper
/// bound of the range, in this order.
pub assume_specification<Idx>[ std::ops::RangeInclusive::<Idx>::into_inner ](
    range: std::ops::RangeInclusive<Idx>,
) -> (bounds: (Idx, Idx))
    ensures
        bounds.0 == range@.start,
        bounds.1 == range@.end,
;

impl<Idx> From<Range<Idx>> for std::ops::Range<Idx> {
    fn from(value: Range<Idx>) -> (range: std::ops::Range<Idx>) {
        value.into_std()
    }
}

impl<Idx> vstd::std_specs::convert::FromSpecImpl<Range<Idx>> for std::ops::Range<Idx> {
    open spec fn obeys_from_spec() -> bool {
        true
    }

    open spec fn from_spec(value: Range<Idx>) -> std::ops::Range<Idx> {
        std::ops::Range { start: value.start, end: value.end }
    }
}

impl<Idx> From<std::ops::Range<Idx>> for Range<Idx> {
    fn from(value: std::ops::Range<Idx>) -> (range: Range<Idx>) {
        Range::new(value)
    }
}

impl<Idx> vstd::std_specs::convert::FromSpecImpl<std::ops::Range<Idx>> for Range<Idx> {
    open spec fn obeys_from_spec() -> bool {
        true
    }

    open spec fn from_spec(value: std::ops::Range<Idx>) -> Range<Idx> {
        Range { start: value.start, end: value.end }
    }
}

impl<Idx> From<std::ops::RangeInclusive<Idx>> for RangeInclusive<Idx> {
    fn from(value: std::ops::RangeInclusive<Idx>) -> (range: RangeInclusive<Idx>) {
        RangeInclusive::new(value)
    }
}

impl<Idx> vstd::std_specs::convert::FromSpecImpl<std::ops::RangeInclusive<Idx>> for RangeInclusive<Idx> {
    open spec fn obeys_from_spec() -> bool {
        true
    }

    open spec fn from_spec(value: std::ops::RangeInclusive<Idx>) -> RangeInclusive<Idx> {
        RangeInclusive { start: value@.start, end: value@.end }
    }
}

impl<Idx: Width> Range<Idx> {
    /// The half-open range that `text` stands for, or why it stands for none.
    pub fn from_str(text: &str) -> (outcome: Result<Range<Idx>, ParseRangeError>)
        ensures
            match outcome {
                Ok(range) => is_parse_of(Ok((range.start, range.end)), text@, Grammar::HalfOpen),
                Err(error) => is_parse_of::<Idx>(Err(error), text@, Grammar::HalfOpen),
            },
    {
        match parse_bounds::<Idx>(text, Grammar::HalfOpen) {
            Ok((start, end)) => Ok(Range { start, end }),
            Err(error) => Err(error),
        }
    }
}

impl<Idx: Width> std::str::FromStr for Range<Idx> {
    type Err = ParseRangeError;

    fn from_str(text: &str) -> (outcome: Result<Range<Idx>, ParseRangeError>)
        ensures
            match outcome {
                Ok(range) => is_parse_of(Ok((range.start, range.end)), text@, Grammar::HalfOpen),
                Err(error) => is_parse_of::<Idx>(Err(error), text@, Grammar::HalfOpen),
            },
    {
        Range::<Idx>::from_str(text)
    }
}

impl<Idx: Width> std::str::FromStr for RangeInclusive<Idx> {
    type Err = ParseRangeError;

    fn from_str(text: &str) -> (outcome: Result<RangeInclusive<Idx>, ParseRangeError>)
        ensures
            match outcome {
                Ok(range) => is_parse_of(Ok((range.start, range.end)), text@, Grammar::Closed),
                Err(error) => is_parse_of::<Idx>(Err(error), text@, Grammar::Closed),
            },
    {
        RangeInclusive::<Idx>::from_str(text)
    }
}

impl<Idx: Width> RangeInclusive<Idx> {
    /// The closed range that `text` stands for, or why it stands for none.
    pub fn from_str(text: &str) -> (outcome: Result<RangeInclusive<Idx>, ParseRangeError>)
        ensures
            match outcome {
                Ok(range) => is_parse_of(Ok((range.start, range.end)), text@, Grammar::Closed),
                Err(error) => is_parse_of::<Idx>(Err(error), text@, Grammar::Closed),
            },
    {
        match parse_bounds::<Idx>(text, Grammar::Closed) {
            Ok((start, end)) => Ok(RangeInclusive { start, end }),
            Err(error) => Err(error),
        }
    }
}

} // verus!
