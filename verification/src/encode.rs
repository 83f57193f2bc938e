//! Encoders from bytes to text: hexadecimal in either case, and base64 with
//! the standard or the URL-safe alphabet, both padded.
//!
//! The text of each encoding is defined here as a sequence, position by
//! position. The encoding itself is done by `data_encoding`, one bounded chunk
//! at a time, since that crate refuses inputs above a size limit.

use data_encoding::{BASE64, BASE64URL, HEXLOWER, HEXUPPER};
use vstd::prelude::*;
use vstd::slice::slice_subrange;

verus! {

/// The digit that stands for `nibble`, a value below sixteen.
pub open spec fn hex_digit(nibble: int, uppercase: bool) -> u8 {
    if nibble < 10 {
        (0x30 + nibble) as u8
    } else if uppercase {
        (0x41 + (nibble - 10)) as u8
    } else {
        (0x61 + (nibble - 10)) as u8
    }
}

/// The hexadecimal text of `bytes`: two digits for each byte, the high half first.
pub open spec fn hex_text(bytes: Seq<u8>, uppercase: bool) -> Seq<u8> {
    Seq::new(
        2 * bytes.len(),
        |i: int|
            if i % 2 == 0 {
                hex_digit(bytes[i / 2] as int / 16, uppercase)
            } else {
                hex_digit(bytes[i / 2] as int % 16, uppercase)
            },
    )
}

/// The symbol that stands for `value`, a value below sixty-four.
pub open spec fn base64_symbol(value: int, url: bool) -> u8 {
    if value < 26 {
        (0x41 + value) as u8
    } else if value < 52 {
        (0x61 + (value - 26)) as u8
    } else if value < 62 {
        (0x30 + (value - 52)) as u8
    } else if value == 62 {
        if url {
            0x2d
        } else {
            0x2b
        }
    } else {
        if url {
            0x5f
        } else {
            0x2f
        }
    }
}

/// The byte of `bytes` at `i`, or zero past its end.
pub open spec fn byte_or_zero(bytes: Seq<u8>, i: int) -> int {
    if 0 <= i < bytes.len() {
        bytes[i] as int
    } else {
        0
    }
}

/// The number of characters in the base64 text of `n` bytes: four for every
/// three bytes, a last group of one or two bytes counted as full.
pub open spec fn base64_len(n: nat) -> nat {
    (((n + 2) / 3) * 4) as nat
}

/// The character at position `i` of the base64 text of `bytes`.
pub open spec fn base64_char(bytes: Seq<u8>, url: bool, i: int) -> u8 {
    let first = 3 * (i / 4);
    let b0 = byte_or_zero(bytes, first);
    let b1 = byte_or_zero(bytes, first + 1);
    let b2 = byte_or_zero(bytes, first + 2);
    if i % 4 == 0 {
        base64_symbol(b0 / 4, url)
    } else if i % 4 == 1 {
        base64_symbol((b0 % 4) * 16 + b1 / 16, url)
    } else if i % 4 == 2 {
        if first + 1 < bytes.len() {
            base64_symbol((b1 % 16) * 4 + b2 / 64, url)
        } else {
            0x3d
        }
    } else {
        if first + 2 < bytes.len() {
            base64_symbol(b2 % 64, url)
        } else {
            0x3d
        }
    }
}

/// The base64 text of `bytes`: each group of three bytes gives four symbols of
/// six bits each, and a last group of one or two bytes is filled up with `=`.
pub open spec fn base64_text(bytes: Seq<u8>, url: bool) -> Seq<u8> {
    Seq::new(base64_len(bytes.len()), |i: int| base64_char(bytes, url, i))
}

/// The largest input handed to the outside encoder in one call.
pub const CHUNK: usize = 3145728;

/// Hexadecimal text has two characters for each byte.
pub proof fn lemma_hex_length(bytes: Seq<u8>, uppercase: bool)
    ensures
        hex_text(bytes, uppercase).len() == 2 * bytes.len(),
{
}

/// Base64 text of `n` bytes has four characters for every three bytes, rounded up.
pub proof fn lemma_base64_length(bytes: Seq<u8>, url: bool)
    ensures
        base64_text(bytes, url).len() == ((bytes.len() + 2) / 3) * 4,
        base64_text(bytes, url).len() % 4 == 0,
{
}

/// The hexadecimal text of two inputs in a row is the first text followed by
/// the second.
pub proof fn lemma_hex_concat(head: Seq<u8>, tail: Seq<u8>, uppercase: bool)
    ensures
        hex_text(head + tail, uppercase) == hex_text(head, uppercase) + hex_text(tail, uppercase),
{
    let whole = hex_text(head + tail, uppercase);
    let parts = hex_text(head, uppercase) + hex_text(tail, uppercase);
    assert(whole.len() == parts.len());
    assert forall|i: int| 0 <= i < whole.len() implies whole[i] == parts[i] by {
        if i < 2 * head.len() {
            assert((head + tail)[i / 2] == head[i / 2]);
        } else {
            let j = i - 2 * head.len();
            assert(j / 2 == i / 2 - head.len());
            assert(j % 2 == i % 2);
            assert((head + tail)[i / 2] == tail[j / 2]);
        }
    }
    assert(whole =~= parts);
}

/// Where the first input is a whole number of three-byte groups, the base64
/// text of two inputs in a row is the first text followed by the second.
pub proof fn lemma_base64_concat(head: Seq<u8>, tail: Seq<u8>, url: bool)
    requires
        head.len() % 3 == 0,
    ensures
        base64_text(head + tail, url) == base64_text(head, url) + base64_text(tail, url),
{
    let both = head + tail;
    let whole = base64_text(both, url);
    let parts = base64_text(head, url) + base64_text(tail, url);
    let groups = head.len() / 3;
    assert(head.len() == 3 * groups);
    assert(base64_len(head.len()) == 4 * groups);
    assert(whole.len() == parts.len());
    assert forall|i: int| 0 <= i < whole.len() implies whole[i] == parts[i] by {
        let first = 3 * (i / 4);
        if i < 4 * groups {
            assert(i / 4 < groups);
            assert(first + 2 < head.len());
            assert(both[first] == head[first]);
            assert(both[first + 1] == head[first + 1]);
            assert(both[first + 2] == head[first + 2]);
        } else {
            let j = i - 4 * groups;
            assert(j / 4 == i / 4 - groups);
            assert(j % 4 == i % 4);
            let shifted = 3 * (j / 4);
            assert(first == shifted + head.len());
            assert(byte_or_zero(both, first) == byte_or_zero(tail, shifted));
            assert(byte_or_zero(both, first + 1) == byte_or_zero(tail, shifted + 1));
            assert(byte_or_zero(both, first + 2) == byte_or_zero(tail, shifted + 2));
            assert(parts[i] == base64_text(tail, url)[j]);
        }
    }
    assert(whole =~= parts);
}

/// `HEXLOWER.encode` of `data_encoding`, which fails an assertion above the
/// size limit. The claim is the crate's own: two digits of `0123456789abcdef`
/// for each byte, the most significant half first.
#[verifier::external_body]
fn hex_lower_chunk(input: &[u8]) -> (text: Vec<u8>)
    requires
        input@.len() <= usize::MAX / 512,
    ensures
        text@ == hex_text(input@, false),
{
    HEXLOWER.encode(input).into_bytes()
}

/// `HEXUPPER.encode` of `data_encoding`, which fails an assertion above the
/// size limit. The claim is the crate's own: two digits of `0123456789ABCDEF`
/// for each byte, the most significant half first.
#[verifier::external_body]
fn hex_upper_chunk(input: &[u8]) -> (text: Vec<u8>)
    requires
        input@.len() <= usize::MAX / 512,
    ensures
        text@ == hex_text(input@, true),
{
    HEXUPPER.encode(input).into_bytes()
}

/// `BASE64.encode` of `data_encoding`, which fails an assertion above the size
/// limit. The claim is the padded base64 of RFC 4648 with the alphabet that
/// ends in `+/`, to which the crate says it conforms.
#[verifier::external_body]
fn base64_standard_chunk(input: &[u8]) -> (text: Vec<u8>)
    requires
        input@.len() <= usize::MAX / 512,
    ensures
        text@ == base64_text(input@, false),
{
    BASE64.encode(input).into_bytes()
}

/// `BASE64URL.encode` of `data_encoding`, which fails an assertion above the
/// size limit. The claim is the padded base64 of RFC 4648 with the alphabet
/// that ends in `-_`, to which the crate says it conforms.
#[verifier::external_body]
fn base64_url_chunk(input: &[u8]) -> (text: Vec<u8>)
    requires
        input@.len() <= usize::MAX / 512,
    ensures
        text@ == base64_text(input@, true),
{
    BASE64URL.encode(input).into_bytes()
}

/// The hexadecimal text of `bytes`, in upper or in lower case.
pub fn encode_hex(bytes: &[u8], uppercase: bool) -> (text: Vec<u8>)
    ensures
        text@ == hex_text(bytes@, uppercase),
        text@.len() == 2 * bytes@.len(),
{
    let total = bytes.len();
    let mut text: Vec<u8> = Vec::new();
    let mut done: usize = 0;
    assert(bytes@.take(0) =~= Seq::<u8>::empty());
    assert(hex_text(Seq::<u8>::empty(), uppercase) =~= Seq::<u8>::empty());
    while done < total
        invariant
            total == bytes@.len(),
            done <= total,
            text@ == hex_text(bytes@.take(done as int), uppercase),
        decreases total - done,
    {
        let end = if total - done > CHUNK {
            done + CHUNK
        } else {
            total
        };
        let chunk = slice_subrange(bytes, done, end);
        let mut piece = if uppercase {
            hex_upper_chunk(chunk)
        } else {
            hex_lower_chunk(chunk)
        };
        proof {
            lemma_hex_concat(bytes@.take(done as int), chunk@, uppercase);
            assert(bytes@.take(done as int) + chunk@ =~= bytes@.take(end as int));
        }
        text.append(&mut piece);
        done = end;
    }
    assert(bytes@.take(total as int) =~= bytes@);
    text
}

/// The padded base64 text of `bytes`, with the URL-safe or the standard alphabet.
pub fn encode_base64(bytes: &[u8], url: bool) -> (text: Vec<u8>)
    ensures
        text@ == base64_text(bytes@, url),
        text@.len() == ((bytes@.len() + 2) / 3) * 4,
{
    let total = bytes.len();
    let mut text: Vec<u8> = Vec::new();
    let mut done: usize = 0;
    assert(bytes@.take(0) =~= Seq::<u8>::empty());
    assert(base64_text(Seq::<u8>::empty(), url) =~= Seq::<u8>::empty());
    while done < total
        invariant
            total == bytes@.len(),
            done <= total,
            done % 3 == 0 || done == total,
            text@ == base64_text(bytes@.take(done as int), url),
        decreases total - done,
    {
        let end = if total - done > CHUNK {
            done + CHUNK
        } else {
            total
        };
        let chunk = slice_subrange(bytes, done, end);
        let mut piece = if url {
            base64_url_chunk(chunk)
        } else {
            base64_standard_chunk(chunk)
        };
        proof {
            lemma_base64_concat(bytes@.take(done as int), chunk@, url);
            assert(bytes@.take(done as int) + chunk@ =~= bytes@.take(end as int));
        }
        text.append(&mut piece);
        done = end;
    }
    assert(bytes@.take(total as int) =~= bytes@);
    text
}

} // verus!
