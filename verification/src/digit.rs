//! Random decimal digits.

use crate::decimal::all_digits;
use crate::entropy::EntropySource;
use vstd::prelude::*;

verus! {

/// The ten decimal digits, in ASCII.
pub const DIGITS: [u8; 10] = [0x30, 0x31, 0x32, 0x33, 0x34, 0x35, 0x36, 0x37, 0x38, 0x39];

/// `length` digits drawn from `source`, each of the ten with the same chance.
/// With `length == 0` the source is left as it was.
pub fn sample_digits(source: &mut EntropySource, length: usize) -> (text: Vec<u8>)
    ensures
        text@.len() == length,
        all_digits(text@),
        length == 0 ==> *final(source) == *old(source),
{
    let mut text: Vec<u8> = Vec::new();
    let mut produced: usize = 0;
    while produced < length
        invariant
            produced <= length,
            text@.len() == produced,
            all_digits(text@),
            length == 0 ==> *source == *old(source),
        decreases length - produced,
    {
        let digit = *source.pick(DIGITS.as_slice());
        text.push(digit);
        produced = produced + 1;
    }
    text
}

/// A string of `length` random decimal digits. With `length == 0` no entropy
/// source is made.
pub fn random_digit(length: usize) -> (text: Vec<u8>)
    ensures
        text@.len() == length,
        all_digits(text@),
{
    if length == 0 {
        return Vec::new();
    }
    let mut source = EntropySource::new_stream();
    sample_digits(&mut source, length)
}

} // verus!
