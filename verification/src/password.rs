//! Random passwords over an alphabet of characters.

use crate::entropy::EntropySource;
use crate::error::SampleError;
use crate::text::{drawn_from, utf8_of};
use vstd::prelude::*;
use vstd::utf8::encode_utf8;

verus! {

/// `length` characters drawn from `source`, each a character of `chars` picked
/// with the same chance. A character that stands twice in `chars` is twice as
/// likely. One character or more cannot be drawn from an empty alphabet. With
/// `length == 0`, or on an error, the source is left as it was.
pub fn sample_symbols(source: &mut EntropySource, chars: &[char], length: usize) -> (outcome:
    Result<Vec<char>, SampleError>)
    ensures
        outcome is Ok <==> length == 0 || chars@.len() > 0,
        outcome matches Ok(symbols) ==> symbols@.len() == length && drawn_from(symbols@, chars@),
        outcome matches Err(error) ==> error == SampleError::EmptyDomain,
        length == 0 || outcome is Err ==> *final(source) == *old(source),
{
    let mut symbols: Vec<char> = Vec::new();
    let mut produced: usize = 0;
    while produced < length
        invariant
            produced <= length,
            symbols@.len() == produced,
            drawn_from(symbols@, chars@),
            produced > 0 ==> chars@.len() > 0,
            produced == 0 ==> *source == *old(source),
        decreases length - produced,
    {
        match source.uniform_symbol(chars) {
            Ok(symbol) => {
                symbols.push(*symbol);
            },
            Err(error) => {
                return Err(error);
            },
        }
        produced = produced + 1;
    }
    Ok(symbols)
}

/// A password of `length` characters of `chars`, as UTF-8. With `length == 0`
/// the password is empty, whatever `chars` holds, and no entropy source is made.
/// A password of one character or more cannot be drawn from an empty alphabet.
pub fn random_password(chars: &[char], length: usize) -> (outcome: Result<Vec<u8>, SampleError>)
    ensures
        outcome is Ok <==> length == 0 || chars@.len() > 0,
        outcome matches Ok(text) ==> exists|symbols: Seq<char>|
            symbols.len() == length && drawn_from(symbols, chars@) && text@ == #[trigger] encode_utf8(
                symbols,
            ),
        outcome matches Ok(text) ==> (length == 0 ==> text@.len() == 0),
        outcome matches Err(error) ==> error == SampleError::EmptyDomain,
{
    if length == 0 {
        let text: Vec<u8> = Vec::new();
        assert(text@ == encode_utf8(Seq::<char>::empty()));
        return Ok(text);
    }
    let mut source = EntropySource::new_stream();
    match sample_symbols(&mut source, chars, length) {
        Ok(symbols) => Ok(utf8_of(symbols.as_slice())),
        Err(error) => Err(error),
    }
}

} // verus!
