//! Carrying out a command: what is to be written for it, as segments in the
//! order of the runs. Writing them, and reading the clock for a timestamp, is
//! left to the caller.

use crate::batch::{contents, segment, segments};
use crate::byte::{random_base64, random_byte, random_hex};
use crate::command::{
    combined_alphabet, password_alphabet, Batch, Command, CreateCommand, RandomCommand,
    TimestampCommand,
};
use crate::decimal::{all_digits, decimal_text};
use crate::digit::random_digit;
use crate::encode::{base64_text, hex_text};
use crate::error::SampleError;
use crate::lines::{is_word_list, lines_of, zstd_content, DecompressError};
use crate::number::random_integer;
use crate::passphrase::{joined, random_passphrase, WordList};
use crate::password::random_password;
use crate::text::drawn_from;
use crate::time::{encoding, encoding_of, zone, zone_of, TimestampEncoding};
use vstd::prelude::*;
use vstd::string::StrSliceExecFns;
use vstd::utf8::{decode_utf8, encode_utf8, valid_utf8};

verus! {

/// Why a command was not carried out.
#[derive(Debug)]
pub enum ExecuteError {
    /// A value was to be drawn from a domain that holds nothing.
    Sample(SampleError),
    /// The word list could not be built.
    WordList(DecompressError),
}

/// What the caller is to do for a command.
#[derive(Debug)]
pub enum Action {
    /// Write the current time of the zone in the encoding.
    Timestamp { zone: TimestampCommand, encoding: TimestampEncoding },
    /// Write these segments, in this order.
    Write { segments: Vec<Vec<u8>> },
}

/// The batch of a command; the command for raw bytes has none.
pub open spec fn batch_of(command: RandomCommand) -> Option<Batch> {
    match command {
        RandomCommand::Byte { .. } => None,
        RandomCommand::Hex { batch, .. } => Some(batch),
        RandomCommand::Base64 { batch, .. } => Some(batch),
        RandomCommand::Digit { batch, .. } => Some(batch),
        RandomCommand::Integer { batch, .. } => Some(batch),
        RandomCommand::Password { batch, .. } => Some(batch),
        RandomCommand::Passphrase { batch, .. } => Some(batch),
    }
}

/// How often the operation of a command runs: once, unless its batch names a
/// number of iterations.
pub open spec fn runs_of(command: RandomCommand) -> nat {
    match batch_of(command) {
        Some(batch) => match batch.iterations {
            Some(iterations) => iterations as nat,
            None => 1,
        },
        None => 1,
    }
}

/// What stands between the results of the runs of a command: the delimiter of
/// its batch as UTF-8, where the batch names a number of iterations.
pub open spec fn delimiter_of(command: RandomCommand) -> Seq<u8> {
    match batch_of(command) {
        Some(batch) => match batch.iterations {
            Some(_) => encode_utf8(batch.delimiter@),
            None => Seq::empty(),
        },
        None => Seq::empty(),
    }
}

/// Why no run of a command can give a result, or nothing where each run
/// gives one.
pub open spec fn refusal(command: RandomCommand, words: Seq<Seq<char>>) -> Option<SampleError> {
    match command {
        RandomCommand::Integer { range, .. } => if range.is_empty() {
            Some(SampleError::EmptyRange)
        } else {
            None
        },
        RandomCommand::Password { classes, length, .. } => if length > 0 && combined_alphabet(
            classes@,
        ).len() == 0 {
            Some(SampleError::EmptyDomain)
        } else {
            None
        },
        RandomCommand::Passphrase { length, .. } => if length > 0 && words.len() == 0 {
            Some(SampleError::EmptyDomain)
        } else {
            None
        },
        _ => None,
    }
}

/// Whether `text` can be the result of one run of a command.
pub open spec fn may_yield(command: RandomCommand, words: Seq<Seq<char>>, text: Seq<u8>) -> bool {
    match command {
        RandomCommand::Byte { length } => text.len() == length,
        RandomCommand::Hex { uppercase, length, .. } => exists|bytes: Seq<u8>|
            bytes.len() == length && text == #[trigger] hex_text(bytes, uppercase),
        RandomCommand::Base64 { url, length, .. } => exists|bytes: Seq<u8>|
            bytes.len() == length && text == #[trigger] base64_text(bytes, url),
        RandomCommand::Digit { length, .. } => text.len() == length && all_digits(text),
        RandomCommand::Integer { range, .. } => exists|value: int|
            range.holds(value) && text == #[trigger] decimal_text(value),
        RandomCommand::Password { classes, length, .. } => exists|symbols: Seq<char>|
            symbols.len() == length && drawn_from(symbols, combined_alphabet(classes@)) && text
                == #[trigger] encode_utf8(symbols),
        RandomCommand::Passphrase { separator, length, .. } => exists|picked: Seq<Seq<char>>|
            picked.len() == length && drawn_from(picked, words) && text == encode_utf8(
                #[trigger] joined(picked, separator@),
            ),
    }
}

/// Whether `framed` can be what is written for a command: the segments of
/// the results of its runs, each of which the command can yield.
pub open spec fn is_batch_output(
    command: RandomCommand,
    words: Seq<Seq<char>>,
    framed: Seq<Seq<u8>>,
) -> bool {
    exists|results: Seq<Seq<u8>>|
        {
            &&& results.len() == runs_of(command)
            &&& forall|i: int|
                0 <= i < results.len() ==> may_yield(command, words, #[trigger] results[i])
            &&& framed == #[trigger] segments(results, delimiter_of(command))
        }
}

/// Whether `words` is the word list that a command is carried out with: the
/// word list of the compressed text `asset` where the command draws from it,
/// and an empty one where it does not.
pub open spec fn is_word_list_for(command: RandomCommand, asset: Seq<u8>, words: Seq<Seq<char>>) -> bool {
    if command is Passphrase {
        zstd_content(asset) matches Some(content) && valid_utf8(content) && is_word_list(
            words,
            lines_of(decode_utf8(content)),
        )
    } else {
        words.len() == 0
    }
}

/// Whether a command draws from the word list.
pub fn needs_words(command: &RandomCommand) -> (yes: bool)
    ensures
        yes == (*command is Passphrase),
{
    match command {
        RandomCommand::Passphrase { .. } => true,
        _ => false,
    }
}

/// The number of runs of a command, and what stands between their results.
pub fn batch_plan(command: &RandomCommand) -> (plan: (usize, Vec<u8>))
    ensures
        plan.0 == runs_of(*command),
        plan.1@ == delimiter_of(*command),
{
    let batch = match command {
        RandomCommand::Byte { .. } => {
            return (1, Vec::new());
        },
        RandomCommand::Hex { batch, .. } => batch,
        RandomCommand::Base64 { batch, .. } => batch,
        RandomCommand::Digit { batch, .. } => batch,
        RandomCommand::Integer { batch, .. } => batch,
        RandomCommand::Password { batch, .. } => batch,
        RandomCommand::Passphrase { batch, .. } => batch,
    };
    match batch.iterations {
        Some(iterations) => (iterations, batch.delimiter.as_str().as_bytes_vec()),
        None => (1, Vec::new()),
    }
}

/// The result of one run of a command, from an entropy source of its own.
/// `words` is the word list that passphrases are drawn from; the other
/// commands do not look at it.
pub fn generate(command: &RandomCommand, words: &WordList) -> (outcome: Result<
    Vec<u8>,
    SampleError,
>)
    ensures
        outcome is Ok <==> refusal(*command, words@) is None,
        outcome matches Ok(text) ==> may_yield(*command, words@, text@),
        outcome matches Err(error) ==> refusal(*command, words@) == Some(error),
{
    match command {
        RandomCommand::Byte { length } => Ok(random_byte(*length)),
        RandomCommand::Hex { uppercase, length, .. } => Ok(random_hex(*uppercase, *length)),
        RandomCommand::Base64 { url, length, .. } => Ok(random_base64(*url, *length)),
        RandomCommand::Digit { length, .. } => Ok(random_digit(*length)),
        RandomCommand::Integer { range, .. } => random_integer(range),
        RandomCommand::Password { classes, length, .. } => {
            let chars = password_alphabet(classes.as_slice());
            random_password(chars.as_slice(), *length)
        },
        RandomCommand::Passphrase { separator, length, .. } => random_passphrase(
            words,
            separator.as_str(),
            *length,
        ),
    }
}

/// What is to be written for a command: the results of its runs, one after
/// the other, each run with an entropy source of its own, and each result but
/// the last followed by the delimiter. Where no run can give a result, and
/// there is a run, nothing is given.
pub fn run_batch(command: &RandomCommand, words: &WordList) -> (outcome: Result<
    Vec<Vec<u8>>,
    SampleError,
>)
    ensures
        outcome is Ok <==> runs_of(*command) == 0 || refusal(*command, words@) is None,
        outcome matches Ok(framed) ==> is_batch_output(*command, words@, contents(framed@))
            && framed@.len() == runs_of(*command),
        outcome matches Err(error) ==> refusal(*command, words@) == Some(error),
{
    let (runs, delimiter) = batch_plan(command);
    let mut framed: Vec<Vec<u8>> = Vec::new();
    let ghost mut results: Seq<Seq<u8>> = Seq::empty();
    let mut run: usize = 0;
    while run < runs
        invariant
            run <= runs,
            runs == runs_of(*command),
            delimiter@ == delimiter_of(*command),
            results.len() == run,
            run > 0 ==> refusal(*command, words@) is None,
            forall|i: int| 0 <= i < run ==> may_yield(*command, words@, #[trigger] results[i]),
            contents(framed@) == Seq::new(
                run as nat,
                |i: int| segment(results[i], i, runs as int, delimiter@),
            ),
        decreases runs - run,
    {
        let mut piece = match generate(command, words) {
            Ok(text) => text,
            Err(error) => {
                return Err(error);
            },
        };
        let ghost result = piece@;
        if run + 1 < runs {
            let mut copy = delimiter.clone();
            piece.append(&mut copy);
        }
        let ghost before = contents(framed@);
        framed.push(piece);
        proof {
            let grown = results.push(result);
            assert(contents(framed@) =~= before.push(piece@));
            assert(contents(framed@) =~= Seq::new(
                (run + 1) as nat,
                |i: int| segment(grown[i], i, runs as int, delimiter@),
            ));
            results = grown;
        }
        run = run + 1;
    }
    proof {
        assert(contents(framed@) =~= segments(results, delimiter_of(*command)));
    }
    Ok(framed)
}

/// What the caller is to do for `command`. For a timestamp, which zone and
/// encoding to write the current time in. For random data, the segments to
/// write; the word list is built from `asset`, a compressed text with a word
/// on each line, and only where the command draws from it.
pub fn execute(command: &Command, asset: &[u8]) -> (outcome: Result<Action, ExecuteError>)
    ensures
        match *command {
            Command::Create { command: CreateCommand::Timestamp { command: named, format } } => {
                outcome matches Ok(Action::Timestamp { zone, encoding }) && zone == zone_of(named)
                    && encoding == encoding_of(format)
            },
            Command::Random { command: random } => match outcome {
                Ok(Action::Write { segments: framed }) => exists|words: Seq<Seq<char>>|
                    {
                        &&& #[trigger] is_word_list_for(random, asset@, words)
                        &&& runs_of(random) == 0 || refusal(random, words) is None
                        &&& is_batch_output(random, words, contents(framed@))
                        &&& framed@.len() == runs_of(random)
                    },
                Ok(Action::Timestamp { .. }) => false,
                Err(ExecuteError::Sample(error)) => exists|words: Seq<Seq<char>>|
                    {
                        &&& #[trigger] is_word_list_for(random, asset@, words)
                        &&& runs_of(random) > 0
                        &&& refusal(random, words) == Some(error)
                    },
                Err(ExecuteError::WordList(DecompressError::Io(_))) => random is Passphrase
                    && zstd_content(asset@) is None,
                Err(ExecuteError::WordList(DecompressError::FromUtf8(_))) => random is Passphrase
                    && (zstd_content(asset@) matches Some(content) && !valid_utf8(content)),
            },
        },
{
    match command {
        Command::Create { command: CreateCommand::Timestamp { command: named, format } } => Ok(
            Action::Timestamp { zone: zone(*named), encoding: encoding(*format) },
        ),
        Command::Random { command: random } => {
            let words = if needs_words(random) {
                match WordList::from_compressed(asset) {
                    Ok(words) => words,
                    Err(error) => {
                        return Err(ExecuteError::WordList(error));
                    },
                }
            } else {
                let none = WordList::from_lines(Vec::new());
                assert(none@.len() == 0) by {
                    if none@.len() > 0 {
                        assert(none@.contains(none@[0]));
                    }
                }
                none
            };
            assert(is_word_list_for(*random, asset@, words@));
            match run_batch(random, &words) {
                Ok(segments) => Ok(Action::Write { segments }),
                Err(error) => Err(ExecuteError::Sample(error)),
            }
        },
    }
}

} // verus!
