//! Random passphrases: words of a word list, joined by a separator.

use crate::entropy::EntropySource;
use crate::error::SampleError;
use crate::lines::{
    decompress_lines, is_word_list, lemma_word_list_idempotent, lines_of, normalize_lines,
    sort_lines, views, zstd_content, DecompressError,
};
use crate::text::drawn_from;
use vstd::prelude::*;
use vstd::string::{StrSliceExecFns, StringExecFns};
use vstd::utf8::{decode_utf8, encode_utf8, valid_utf8};

verus! {

/// The words that passphrases are made of: sorted, none of them empty, none twice.
#[derive(Debug, PartialEq, Eq, PartialOrd, Ord)]
pub struct WordList {
    inner: Vec<String>,
}

impl View for WordList {
    type V = Seq<Seq<char>>;

    closed spec fn view(&self) -> Seq<Seq<char>> {
        views(self.inner@)
    }
}

/// `parts` in a row, with `separator` between each two neighbours.
pub open spec fn joined(parts: Seq<Seq<char>>, separator: Seq<char>) -> Seq<char>
    decreases parts.len(),
{
    if parts.len() == 0 {
        Seq::empty()
    } else if parts.len() == 1 {
        parts[0]
    } else {
        joined(parts.drop_last(), separator) + separator + parts.last()
    }
}

/// The strings that `picked` refers to, as sequences of characters.
pub open spec fn referred(picked: Seq<&String>) -> Seq<Seq<char>> {
    picked.map_values(|word: &String| word@)
}

/// The strings that `picked` refers to in a row, with `separator` between each
/// two neighbours.
pub fn join_words(picked: &Vec<&String>, separator: &str) -> (text: String)
    ensures
        text@ == joined(referred(picked@), separator@),
{
    let mut text = String::new();
    let mut at: usize = 0;
    assert(referred(picked@).take(0) =~= Seq::<Seq<char>>::empty());
    while at < picked.len()
        invariant
            at <= picked@.len(),
            text@ == joined(referred(picked@).take(at as int), separator@),
        decreases picked@.len() - at,
    {
        let ghost parts = referred(picked@);
        if at > 0 {
            text.append(separator);
        }
        text.append(picked[at].as_str());
        proof {
            assert(parts.take(at + 1).drop_last() =~= parts.take(at as int));
            assert(parts.take(at + 1).last() == picked@[at as int]@);
            if at == 0 {
                assert(text@ =~= parts.take(1)[0]);
            }
        }
        at = at + 1;
    }
    assert(referred(picked@).take(at as int) =~= referred(picked@));
    text
}

impl Clone for WordList {
    fn clone(&self) -> (list: WordList)
        ensures
            list@ == self@,
    {
        proof {
            use_type_invariant(self);
        }
        let inner = self.inner.clone();
        assert(views(inner@) =~= views(self.inner@));
        WordList { inner }
    }
}

impl WordList {
    #[verifier::type_invariant]
    spec fn sorted(&self) -> bool {
        is_word_list(views(self.inner@), views(self.inner@))
    }

    /// The word list of `lines`: those that are not empty, sorted, each one once.
    pub fn from_lines(lines: Vec<String>) -> (list: WordList)
        ensures
            is_word_list(list@, views(lines@)),
    {
        let inner = sort_lines(lines);
        proof {
            lemma_word_list_idempotent(views(inner@), views(lines@));
        }
        WordList { inner }
    }

    /// The word list of the lines of `text`.
    pub fn from_text(text: &str) -> (list: WordList)
        ensures
            is_word_list(list@, lines_of(text@)),
    {
        let inner = normalize_lines(text);
        proof {
            lemma_word_list_idempotent(views(inner@), lines_of(text@));
        }
        WordList { inner }
    }

    /// The word list of a compressed text: zstd frames around UTF-8, a word on
    /// each line.
    pub fn from_compressed(data: &[u8]) -> (outcome: Result<WordList, DecompressError>)
        ensures
            outcome matches Ok(list) ==> zstd_content(data@) matches Some(content) && valid_utf8(
                content,
            ) && is_word_list(list@, lines_of(decode_utf8(content))),
            outcome matches Err(DecompressError::Io(_)) ==> zstd_content(data@) is None,
            outcome matches Err(DecompressError::FromUtf8(_)) ==> zstd_content(data@) matches Some(
                content,
            ) && !valid_utf8(content),
    {
        match decompress_lines(data) {
            Ok(inner) => {
                proof {
                    lemma_word_list_idempotent(
                        views(inner@),
                        lines_of(decode_utf8(zstd_content(data@)->0)),
                    );
                }
                Ok(WordList { inner })
            },
            Err(error) => Err(error),
        }
    }

    /// The words, in ascending order.
    pub fn inner(&self) -> (words: &[String])
        ensures
            views(words@) == self@,
            is_word_list(self@, self@),
    {
        proof {
            use_type_invariant(self);
        }
        self.inner.as_slice()
    }
}

/// `length` words of `words` drawn from `source`, each word with the same
/// chance every time. One word or more cannot be drawn from an empty list. With
/// `length == 0`, or on an error, the source is left as it was.
pub fn sample_words<'a>(source: &mut EntropySource, words: &'a WordList, length: usize) -> (outcome:
    Result<Vec<&'a String>, SampleError>)
    ensures
        outcome is Ok <==> length == 0 || words@.len() > 0,
        outcome matches Ok(picked) ==> picked@.len() == length && drawn_from(
            referred(picked@),
            words@,
        ),
        outcome matches Err(error) ==> error == SampleError::EmptyDomain,
        length == 0 || outcome is Err ==> *final(source) == *old(source),
{
    let all = words.inner();
    let mut picked: Vec<&String> = Vec::new();
    let mut produced: usize = 0;
    while produced < length
        invariant
            produced <= length,
            views(all@) == words@,
            picked@.len() == produced,
            drawn_from(referred(picked@), words@),
            produced > 0 ==> words@.len() > 0,
            produced == 0 ==> *source == *old(source),
        decreases length - produced,
    {
        match source.uniform_symbol(all) {
            Ok(word) => {
                let ghost before = referred(picked@);
                picked.push(word);
                proof {
                    let i = choose|i: int| 0 <= i < all@.len() && all@[i] == *word;
                    assert(views(all@)[i] == word@);
                    assert(words@.contains(word@));
                    assert(referred(picked@) =~= before.push(word@));
                }
            },
            Err(error) => {
                return Err(error);
            },
        }
        produced = produced + 1;
    }
    Ok(picked)
}

/// A passphrase of `length` words of `words` with `separator` between them, as
/// UTF-8. With `length == 0` the passphrase is empty, whatever `words` holds,
/// and no entropy source is made. A passphrase of one word or more cannot be
/// drawn from an empty list.
pub fn random_passphrase(words: &WordList, separator: &str, length: usize) -> (outcome: Result<
    Vec<u8>,
    SampleError,
>)
    ensures
        outcome is Ok <==> length == 0 || words@.len() > 0,
        outcome matches Ok(text) ==> exists|picked: Seq<Seq<char>>|
            picked.len() == length && drawn_from(picked, words@) && text@ == encode_utf8(
                #[trigger] joined(picked, separator@),
            ),
        outcome matches Ok(text) ==> (length == 0 ==> text@.len() == 0),
        outcome matches Err(error) ==> error == SampleError::EmptyDomain,
{
    if length == 0 {
        let text: Vec<u8> = Vec::new();
        assert(text@ == encode_utf8(joined(Seq::<Seq<char>>::empty(), separator@)));
        return Ok(text);
    }
    let mut source = EntropySource::new_stream();
    match sample_words(&mut source, words, length) {
        Ok(picked) => {
            let phrase = join_words(&picked, separator);
            Ok(phrase.as_str().as_bytes_vec())
        },
        Err(error) => Err(error),
    }
}

} // verus!
