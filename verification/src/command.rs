//! What the program can be asked to do.

use crate::parse::BoundedRange;
use vstd::prelude::*;
use vstd::slice::slice_to_vec;

verus! {

/// The commands of the program.
#[derive(Debug, Clone)]
pub enum Command {
    /// Create data of some kind with given properties.
    Create { command: CreateCommand },
    /// Generate random data with given properties.
    Random { command: RandomCommand },
}

/// The text form of a timestamp.
#[derive(Debug, Clone, Copy, PartialEq, Eq, Structural)]
pub enum TimestampFormat {
    ISO8601,
    RFC2822,
    RFC3339,
}

/// A class of characters that a password may hold.
#[derive(Debug, Clone, Copy, PartialEq, Eq, PartialOrd, Ord, Structural)]
pub enum CharacterSet {
    /// The letters `a` to `z`.
    LowerCase,
    /// The letters `A` to `Z`.
    UpperCase,
    /// The digits `0` to `9`.
    Digit,
    /// The symbols `!@*-_.`.
    Symbol,
}

/// The commands that create data.
#[derive(Debug, Clone)]
pub enum CreateCommand {
    /// The current time, in a time zone and a format.
    Timestamp { command: Option<TimestampCommand>, format: Option<TimestampFormat> },
}

/// How often an operation is run, and what stands between its results. Without
/// a number of iterations the operation runs once, and the delimiter is not used.
#[derive(Debug, Clone)]
pub struct Batch {
    /// The number of runs.
    pub iterations: Option<usize>,
    /// What separates the results of the runs.
    pub delimiter: String,
}

/// The commands that generate random data.
#[derive(Debug, Clone)]
pub enum RandomCommand {
    /// Random bytes.
    Byte { length: usize },
    /// Random bytes as hexadecimal text.
    Hex { uppercase: bool, length: usize, batch: Batch },
    /// Random bytes as base64 text.
    Base64 { url: bool, length: usize, batch: Batch },
    /// Random decimal digits.
    Digit { length: usize, batch: Batch },
    /// A random integer of a range.
    Integer { range: BoundedRange, batch: Batch },
    /// A random password over the chosen classes of characters.
    Password { classes: Vec<CharacterSet>, length: usize, batch: Batch },
    /// A random passphrase of words from the word list.
    Passphrase { separator: String, length: usize, batch: Batch },
}

/// The time zone of a timestamp.
#[derive(Debug, Clone, Copy, PartialEq, Eq, Structural)]
pub enum TimestampCommand {
    /// Coordinated universal time.
    Utc,
    /// The time zone of the machine.
    Local,
}

pub const LOWERCASE: [char; 26] = [
    'a', 'b', 'c', 'd', 'e', 'f', 'g', 'h', 'i', 'j', 'k', 'l', 'm',
    'n', 'o', 'p', 'q', 'r', 's', 't', 'u', 'v', 'w', 'x', 'y', 'z',
];

pub const UPPERCASE: [char; 26] = [
    'A', 'B', 'C', 'D', 'E', 'F', 'G', 'H', 'I', 'J', 'K', 'L', 'M',
    'N', 'O', 'P', 'Q', 'R', 'S', 'T', 'U', 'V', 'W', 'X', 'Y', 'Z',
];

pub const DIGIT: [char; 10] = ['0', '1', '2', '3', '4', '5', '6', '7', '8', '9'];

pub const SYMBOL: [char; 6] = ['!', '@', '*', '-', '_', '.'];

/// The characters of a class, in their fixed order.
pub open spec fn alphabet_of(set: CharacterSet) -> Seq<char> {
    match set {
        CharacterSet::LowerCase => LOWERCASE@,
        CharacterSet::UpperCase => UPPERCASE@,
        CharacterSet::Digit => DIGIT@,
        CharacterSet::Symbol => SYMBOL@,
    }
}

/// The alphabets of the chosen classes in a row, in the order in which the
/// classes were chosen. A class chosen twice gives its characters twice.
pub open spec fn combined_alphabet(classes: Seq<CharacterSet>) -> Seq<char>
    decreases classes.len(),
{
    if classes.len() == 0 {
        Seq::empty()
    } else {
        combined_alphabet(classes.drop_last()) + alphabet_of(classes.last())
    }
}

/// The classes that a password is drawn from where none is chosen: letters of
/// both cases and digits, without the symbols.
pub open spec fn default_classes() -> Seq<CharacterSet> {
    seq![CharacterSet::LowerCase, CharacterSet::UpperCase, CharacterSet::Digit]
}

impl CharacterSet {
    /// The characters of the class.
    pub fn alphabet(&self) -> (chars: Vec<char>)
        ensures
            chars@ == alphabet_of(*self),
    {
        match self {
            CharacterSet::LowerCase => slice_to_vec(LOWERCASE.as_slice()),
            CharacterSet::UpperCase => slice_to_vec(UPPERCASE.as_slice()),
            CharacterSet::Digit => slice_to_vec(DIGIT.as_slice()),
            CharacterSet::Symbol => slice_to_vec(SYMBOL.as_slice()),
        }
    }

    /// The classes that a password is drawn from where none is chosen.
    pub fn defaults() -> (classes: Vec<CharacterSet>)
        ensures
            classes@ == default_classes(),
    {
        let mut classes: Vec<CharacterSet> = Vec::new();
        classes.push(CharacterSet::LowerCase);
        classes.push(CharacterSet::UpperCase);
        classes.push(CharacterSet::Digit);
        assert(classes@ =~= default_classes());
        classes
    }
}

/// The alphabet of a password over the chosen classes.
pub fn password_alphabet(classes: &[CharacterSet]) -> (chars: Vec<char>)
    ensures
        chars@ == combined_alphabet(classes@),
{
    let mut chars: Vec<char> = Vec::new();
    let mut at: usize = 0;
    assert(classes@.take(0) =~= Seq::<CharacterSet>::empty());
    while at < classes.len()
        invariant
            at <= classes@.len(),
            chars@ == combined_alphabet(classes@.take(at as int)),
        decreases classes@.len() - at,
    {
        let mut more = classes[at].alphabet();
        assert(classes@.take(at + 1).drop_last() =~= classes@.take(at as int));
        chars.append(&mut more);
        at = at + 1;
    }
    assert(classes@.take(at as int) =~= classes@);
    chars
}

impl Batch {
    /// One run, and nothing after its result.
    pub fn once() -> (batch: Batch)
        ensures
            batch.iterations is None,
            batch.delimiter@ == seq!['\n'],
    {
        let delimiter = String::from_str("\n");
        proof {
            reveal_strlit("\n");
            assert(delimiter@ =~= seq!['\n']);
        }
        Batch { iterations: None, delimiter }
    }
}

} // verus!
