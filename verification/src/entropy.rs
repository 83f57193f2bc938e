//! The entropy source: a ChaCha generator seeded from the operating system.
//!
//! Every generation call makes a source of its own and drops it afterwards.
//! What the generator hands out is unknown to the verifier: the contracts below
//! state only what holds of every outcome.

use crate::error::SampleError;
use rand::distr::slice::Choose;
use rand::distr::Distribution;
use rand::Rng;
use rand::SeedableRng;
use rand_chacha::ChaCha20Rng;
use vstd::prelude::*;

verus! {

/// `rand_chacha::ChaCha20Rng`, the generator. Nothing is known of its state.
#[verifier::external_type_specification]
#[verifier::external_body]
pub struct ExChaCha20Rng(ChaCha20Rng);

/// A freshly seeded, cryptographically secure stream of random values.
pub struct EntropySource {
    rng: ChaCha20Rng,
}

/// `ChaCha20Rng::from_rng` on `rand::rng()`: a generator seeded from the
/// thread-local generator, which the operating system seeds. Nothing is claimed
/// of the state it starts in. Where the operating system has no entropy to give,
/// `rand::rng()` aborts the process.
#[verifier::external_body]
fn seeded_generator() -> ChaCha20Rng {
    ChaCha20Rng::from_rng(&mut rand::rng())
}

/// `Rng::random::<u8>`: the next byte of the stream. Any byte may come.
#[verifier::external_body]
fn draw_byte(rng: &mut ChaCha20Rng) -> u8 {
    rng.random::<u8>()
}

/// `Choose::new(items)` and one `sample` of it: an element of a slice that is
/// not empty. The claim is that the sample is one of the slice's elements, as
/// the distribution indexes the slice with a value below its length.
#[verifier::external_body]
fn draw_element<'a, T>(rng: &mut ChaCha20Rng, items: &'a [T]) -> (picked: &'a T)
    requires
        items@.len() > 0,
    ensures
        items@.contains(*picked),
{
    Choose::new(items).unwrap().sample(rng)
}

/// `Rng::random_range(low..=high)` on `i128`: a value of the closed interval,
/// which must hold at least one value.
#[verifier::external_body]
fn draw_between(rng: &mut ChaCha20Rng, low: i128, high: i128) -> (value: i128)
    requires
        low <= high,
    ensures
        low <= value <= high,
{
    rng.random_range(low..=high)
}

impl EntropySource {
    /// A new stream, independent of every other one.
    pub fn new_stream() -> EntropySource {
        EntropySource { rng: seeded_generator() }
    }

    /// The next `n` bytes of the stream. With `n == 0` the stream is left as it was.
    pub fn next_bytes(&mut self, n: usize) -> (bytes: Vec<u8>)
        ensures
            bytes@.len() == n,
            n == 0 ==> *final(self) == *old(self),
    {
        let mut bytes: Vec<u8> = Vec::new();
        let mut produced: usize = 0;
        while produced < n
            invariant
                produced <= n,
                bytes@.len() == produced,
                n == 0 ==> *self == *old(self),
            decreases n - produced,
        {
            let byte = draw_byte(&mut self.rng);
            bytes.push(byte);
            produced = produced + 1;
        }
        bytes
    }

    /// One element of `alphabet`, each with the same chance. An empty alphabet
    /// has nothing to give, and the stream is then left as it was.
    pub fn uniform_symbol<'a, T>(&mut self, alphabet: &'a [T]) -> (outcome: Result<
        &'a T,
        SampleError,
    >)
        ensures
            outcome is Ok <==> alphabet@.len() > 0,
            outcome matches Ok(symbol) ==> alphabet@.contains(*symbol),
            outcome matches Err(error) ==> error == SampleError::EmptyDomain && *final(self)
                == *old(self),
    {
        if alphabet.len() == 0 {
            return Err(SampleError::EmptyDomain);
        }
        Ok(self.pick(alphabet))
    }

    /// One element of an alphabet known to hold one or more.
    pub(crate) fn pick<'a, T>(&mut self, alphabet: &'a [T]) -> (symbol: &'a T)
        requires
            alphabet@.len() > 0,
        ensures
            alphabet@.contains(*symbol),
    {
        draw_element(&mut self.rng, alphabet)
    }

    /// One integer of `low..=high` (`inclusive`) or of `low..high`, each with the
    /// same chance. A range that holds no integer has nothing to give, and the
    /// stream is then left as it was.
    pub fn uniform_integer(&mut self, low: i128, high: i128, inclusive: bool) -> (outcome: Result<
        i128,
        SampleError,
    >)
        ensures
            outcome is Ok <==> low < high || (inclusive && low == high),
            outcome matches Ok(value) ==> low <= value && value <= high && (inclusive || value
                < high),
            outcome matches Err(error) ==> error == SampleError::EmptyRange && *final(self)
                == *old(self),
    {
        if inclusive {
            if low > high {
                return Err(SampleError::EmptyRange);
            }
            Ok(draw_between(&mut self.rng, low, high))
        } else {
            if low >= high {
                return Err(SampleError::EmptyRange);
            }
            Ok(draw_between(&mut self.rng, low, high - 1))
        }
    }
}

} // verus!
