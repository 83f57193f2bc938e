//! Conversions between strings, sequences of characters and bytes.

use vstd::prelude::*;
use vstd::string::StrSliceExecFns;
use vstd::utf8::encode_utf8;

verus! {

/// Whether every element of `symbols` occurs in `alphabet`.
pub open spec fn drawn_from<T>(symbols: Seq<T>, alphabet: Seq<T>) -> bool {
    forall|i: int| 0 <= i < symbols.len() ==> alphabet.contains(#[trigger] symbols[i])
}

/// Where `mark` first stands in `text`, or the length of `text` where it
/// holds none.
pub open spec fn first_of(text: Seq<char>, mark: char) -> nat
    decreases text.len(),
{
    if text.len() == 0 || text[0] == mark {
        0
    } else {
        1 + first_of(text.skip(1), mark)
    }
}

/// Whether `c` is white space: a character with the Unicode property
/// `White_Space`.
pub open spec fn is_whitespace(c: char) -> bool {
    let u = c as u32;
    ||| 0x09 <= u <= 0x0d
    ||| u == 0x20
    ||| u == 0x85
    ||| u == 0xa0
    ||| u == 0x1680
    ||| 0x2000 <= u <= 0x200a
    ||| u == 0x2028
    ||| u == 0x2029
    ||| u == 0x202f
    ||| u == 0x205f
    ||| u == 0x3000
}

/// `text` without the white space that it begins with.
pub open spec fn trim_start(text: Seq<char>) -> Seq<char>
    decreases text.len(),
{
    if text.len() > 0 && is_whitespace(text[0]) {
        trim_start(text.skip(1))
    } else {
        text
    }
}

/// `text` without the white space that it ends with.
pub open spec fn trim_end(text: Seq<char>) -> Seq<char>
    decreases text.len(),
{
    if text.len() > 0 && is_whitespace(text.last()) {
        trim_end(text.drop_last())
    } else {
        text
    }
}

/// `text` without the white space at its two ends.
pub open spec fn trimmed(text: Seq<char>) -> Seq<char> {
    trim_end(trim_start(text))
}

/// The first `mark` of a text stands where a `mark` stands, or the text ends,
/// after characters none of which is a `mark`.
pub proof fn lemma_first_of(text: Seq<char>, mark: char, end: int)
    requires
        0 <= end <= text.len(),
        forall|k: int| 0 <= k < end ==> text[k] != mark,
        end < text.len() ==> text[end] == mark,
    ensures
        first_of(text, mark) == end,
    decreases end,
{
    if end > 0 {
        let rest = text.skip(1);
        assert forall|k: int| 0 <= k < end - 1 implies rest[k] != mark by {
            assert(rest[k] == text[k + 1]);
        }
        lemma_first_of(rest, mark, end - 1);
    }
}

/// A text that neither begins nor ends with white space is left as it is.
pub proof fn lemma_trimmed_unchanged(text: Seq<char>)
    requires
        text.len() > 0 ==> !is_whitespace(text[0]) && !is_whitespace(text.last()),
    ensures
        trimmed(text) == text,
{
}

/// Whether `c` is white space.
pub fn whitespace(c: char) -> (yes: bool)
    ensures
        yes == is_whitespace(c),
{
    let u = c as u32;
    (0x09 <= u && u <= 0x0d) || u == 0x20 || u == 0x85 || u == 0xa0 || u == 0x1680 || (0x2000 <= u
        && u <= 0x200a) || u == 0x2028 || u == 0x2029 || u == 0x202f || u == 0x205f || u == 0x3000
}

/// Where `chars` begins and ends once the white space at its two ends is left out.
pub fn trim_bounds(chars: &[char]) -> (bounds: (usize, usize))
    ensures
        bounds.0 <= bounds.1 <= chars@.len(),
        chars@.subrange(bounds.0 as int, bounds.1 as int) == trimmed(chars@),
{
    let total = chars.len();
    let mut start: usize = 0;
    assert(chars@.skip(0) =~= chars@);
    while start < total && whitespace(chars[start])
        invariant
            total == chars@.len(),
            start <= total,
            trim_start(chars@) == trim_start(chars@.skip(start as int)),
        decreases total - start,
    {
        assert(chars@.skip(start as int).skip(1) =~= chars@.skip(start + 1));
        start = start + 1;
    }
    let ghost rest = chars@.skip(start as int);
    assert(trim_start(chars@) == rest);
    let mut end: usize = total;
    assert(rest.take(rest.len() as int) =~= rest);
    while end > start && whitespace(chars[end - 1])
        invariant
            total == chars@.len(),
            start <= end <= total,
            rest == chars@.skip(start as int),
            trim_end(rest) == trim_end(rest.take(end - start)),
        decreases end,
    {
        assert(rest.take(end - start).last() == chars@[end - 1]);
        assert(rest.take(end - start).drop_last() =~= rest.take(end - start - 1));
        end = end - 1;
    }
    proof {
        let kept = rest.take(end - start);
        assert(kept =~= chars@.subrange(start as int, end as int));
        if end > start {
            assert(kept.last() == chars@[end - 1]);
        }
        assert(trim_end(kept) == kept);
    }
    (start, end)
}

/// The characters of `text`, in order.
pub fn chars_of(text: &str) -> (chars: Vec<char>)
    ensures
        chars@ == text@,
{
    let mut chars: Vec<char> = Vec::new();
    for c in it: text.chars()
        invariant
            chars@ == it.seq().take(it.index() as int),
            it.seq() == text@,
    {
        chars.push(c);
    }
    chars
}

/// `String::from_iter` of std on the characters of a slice: the string made of
/// these characters, in order.
#[verifier::external_body]
pub(crate) fn string_of(chars: &[char]) -> (text: String)
    ensures
        text@ == chars@,
{
    String::from_iter(chars.iter())
}

/// The UTF-8 encoding of a sequence of characters.
pub fn utf8_of(chars: &[char]) -> (bytes: Vec<u8>)
    ensures
        bytes@ == encode_utf8(chars@),
{
    let text = string_of(chars);
    text.as_str().as_bytes_vec()
}

} // verus!
