//! Random bytes, raw or encoded as text.

use crate::encode::{base64_text, encode_base64, encode_hex, hex_text};
use crate::entropy::EntropySource;
use vstd::prelude::*;

verus! {

/// `length` random bytes. With `length == 0` no entropy source is made.
pub fn random_byte(length: usize) -> (bytes: Vec<u8>)
    ensures
        bytes@.len() == length,
{
    if length == 0 {
        return Vec::new();
    }
    let mut source = EntropySource::new_stream();
    source.next_bytes(length)
}

/// The hexadecimal text of `length` random bytes, in upper or in lower case.
/// With `length == 0` no entropy source is made.
pub fn random_hex(uppercase: bool, length: usize) -> (text: Vec<u8>)
    ensures
        exists|bytes: Seq<u8>| bytes.len() == length && text@ == #[trigger] hex_text(bytes, uppercase),
        text@.len() == 2 * length,
{
    if length == 0 {
        let text: Vec<u8> = Vec::new();
        assert(text@ =~= hex_text(Seq::<u8>::empty(), uppercase));
        return text;
    }
    let mut source = EntropySource::new_stream();
    let bytes = source.next_bytes(length);
    encode_hex(bytes.as_slice(), uppercase)
}

/// The padded base64 text of `length` random bytes, with the URL-safe or the
/// standard alphabet. With `length == 0` no entropy source is made.
pub fn random_base64(url: bool, length: usize) -> (text: Vec<u8>)
    ensures
        exists|bytes: Seq<u8>| bytes.len() == length && text@ == #[trigger] base64_text(bytes, url),
        text@.len() == ((length + 2) / 3) * 4,
{
    if length == 0 {
        let text: Vec<u8> = Vec::new();
        assert(text@ =~= base64_text(Seq::<u8>::empty(), url));
        return text;
    }
    let mut source = EntropySource::new_stream();
    let bytes = source.next_bytes(length);
    encode_base64(bytes.as_slice(), url)
}

} // verus!
