//! From a compressed text to its words: the lines of the text that are not
//! empty, sorted, each one once.

use crate::order::{
    ascending, lemma_precedes_irreflexive, lemma_precedes_total, lemma_precedes_transitive,
    precedes, str_precedes,
};
use crate::text::{chars_of, first_of, lemma_first_of, string_of};
use std::io::Error;
use std::string::FromUtf8Error;
use vstd::prelude::*;
use vstd::slice::slice_subrange;
use vstd::utf8::{decode_utf8, valid_utf8};

verus! {

/// `std::io::Error`, with which decompression stops. It is carried, not read.
#[verifier::external_type_specification]
#[verifier::external_body]
pub struct ExIoError(Error);

/// `std::string::FromUtf8Error`, which says where bytes stop being UTF-8. It
/// is carried, not read.
#[verifier::external_type_specification]
#[verifier::external_body]
pub struct ExFromUtf8Error(FromUtf8Error);

/// Why a compressed text gave no lines.
#[derive(Debug)]
pub enum DecompressError {
    /// The data is not a sequence of zstd frames, or could not be read to its end.
    Io(Error),
    /// What the frames hold is not UTF-8.
    FromUtf8(FromUtf8Error),
}

/// What the zstd frames in `data` hold once decompressed, or nothing where
/// `data` is not made of such frames.
pub uninterp spec fn zstd_content(data: Seq<u8>) -> Option<Seq<u8>>;

/// The strings of `words` as sequences of characters.
pub open spec fn views(words: Seq<String>) -> Seq<Seq<char>> {
    words.map_values(|word: String| word@)
}

/// A line without the carriage return that ended it, if one did.
pub open spec fn strip_return(line: Seq<char>) -> Seq<char> {
    if line.len() > 0 && line.last() == '\r' {
        line.drop_last()
    } else {
        line
    }
}

/// The lines of `text`. A line ends at a line feed, or at a carriage return
/// followed by one, neither of which belongs to it; the last line may end with
/// the text, and then keeps a carriage return at its end. A text that ends in
/// a line feed has no empty line after it.
pub open spec fn lines_of(text: Seq<char>) -> Seq<Seq<char>>
    decreases text.len(),
{
    if text.len() == 0 {
        Seq::empty()
    } else {
        let end = first_of(text, '\n');
        if end >= text.len() {
            seq![text]
        } else {
            seq![strip_return(text.take(end as int))] + lines_of(text.skip(end as int + 1))
        }
    }
}

/// Whether `words` is the word list of `lines`: the lines that are not empty,
/// in ascending order, each one once.
pub open spec fn is_word_list(words: Seq<Seq<char>>, lines: Seq<Seq<char>>) -> bool {
    &&& ascending(words)
    &&& forall|w: Seq<char>|
        #![trigger words.contains(w)]
        #![trigger lines.contains(w)]
        words.contains(w) <==> (w.len() > 0 && lines.contains(w))
}

/// A word list has no empty word, and no word twice.
pub proof fn lemma_word_list_shape(words: Seq<Seq<char>>, lines: Seq<Seq<char>>)
    requires
        is_word_list(words, lines),
    ensures
        forall|i: int| 0 <= i < words.len() ==> (#[trigger] words[i]).len() > 0,
        forall|i: int, j: int| 0 <= i < j < words.len() ==> words[i] != words[j],
{
    assert forall|i: int| 0 <= i < words.len() implies (#[trigger] words[i]).len() > 0 by {
        assert(words.contains(words[i]));
    }
    assert forall|i: int, j: int| 0 <= i < j < words.len() implies words[i] != words[j] by {
        assert(precedes(words[i], words[j]));
        lemma_precedes_irreflexive(words[i]);
    }
}

/// The same lines have one word list only: building it again gives the same
/// sequence.
pub proof fn lemma_word_list_unique(
    first: Seq<Seq<char>>,
    second: Seq<Seq<char>>,
    lines: Seq<Seq<char>>,
)
    requires
        is_word_list(first, lines),
        is_word_list(second, lines),
    ensures
        first == second,
{
    crate::order::lemma_ascending_unique(first, second);
}

/// The word list of the words of a word list is that word list: building is
/// idempotent.
pub proof fn lemma_word_list_idempotent(words: Seq<Seq<char>>, lines: Seq<Seq<char>>)
    requires
        is_word_list(words, lines),
    ensures
        is_word_list(words, words),
{
    lemma_word_list_shape(words, lines);
    assert forall|w: Seq<char>| words.contains(w) implies w.len() > 0 by {
        let i = choose|i: int| 0 <= i < words.len() && words[i] == w;
        assert(words[i].len() > 0);
    }
}

/// `zstd::stream::decode_all` on a slice of bytes: the content of the zstd
/// frames that the slice holds, or the error with which decompression stopped.
/// The content is named, not stated.
#[verifier::external_body]
fn zstd_decode(data: &[u8]) -> (outcome: Result<Vec<u8>, Error>)
    ensures
        outcome matches Ok(content) ==> zstd_content(data@) == Some(content@),
        outcome is Err ==> zstd_content(data@) is None,
{
    zstd::stream::decode_all(data)
}

/// `String::from_utf8` of std: the string that the bytes encode, where they
/// are valid UTF-8, and an error where they are not.
#[verifier::external_body]
fn string_from_utf8(bytes: Vec<u8>) -> (outcome: Result<String, FromUtf8Error>)
    ensures
        outcome is Ok <==> valid_utf8(bytes@),
        outcome matches Ok(text) ==> text@ == decode_utf8(bytes@),
{
    String::from_utf8(bytes)
}

/// Puts `word` in its place in an ascending list, unless the list holds it.
fn insert_word(words: &mut Vec<String>, word: String)
    requires
        ascending(views(old(words)@)),
    ensures
        ascending(views(final(words)@)),
        forall|w: Seq<char>|
            #![trigger views(final(words)@).contains(w)]
            #![trigger views(old(words)@).contains(w)]
            views(final(words)@).contains(w) <==> (views(old(words)@).contains(w) || w == word@),
{
    let ghost before = views(words@);
    let mut low: usize = 0;
    let mut high: usize = words.len();
    while low < high
        invariant
            low <= high <= words@.len(),
            words@ == old(words)@,
            before == views(words@),
            ascending(before),
            forall|i: int| 0 <= i < low ==> precedes(#[trigger] before[i], word@),
            forall|i: int| high <= i < before.len() ==> !precedes(#[trigger] before[i], word@),
        decreases high - low,
    {
        let middle = low + (high - low) / 2;
        assert(before[middle as int] == words@[middle as int]@);
        if str_precedes(words[middle].as_str(), word.as_str()) {
            assert forall|i: int| 0 <= i < middle + 1 implies precedes(
                #[trigger] before[i],
                word@,
            ) by {
                if i < middle {
                    lemma_precedes_transitive(before[i], before[middle as int], word@);
                }
            }
            low = middle + 1;
        } else {
            assert forall|i: int| middle <= i < before.len() implies !precedes(
                #[trigger] before[i],
                word@,
            ) by {
                if i > middle && precedes(before[i], word@) {
                    lemma_precedes_transitive(before[middle as int], before[i], word@);
                }
            }
            high = middle;
        }
    }
    if low < words.len() {
        assert(before[low as int] == words@[low as int]@);
        if words[low] == word {
            assert(before.contains(word@));
            return ;
        }
    }
    words.insert(low, word);
    proof {
        let after = views(words@);
        assert(after =~= before.insert(low as int, word@));
        assert forall|i: int| low <= i < before.len() implies precedes(
            word@,
            #[trigger] before[i],
        ) by {
            if before[i] == word@ {
                if i > low {
                    assert(precedes(before[low as int], before[i]));
                }
            } else {
                lemma_precedes_total(word@, before[i]);
            }
        }
        assert forall|i: int, j: int| 0 <= i < j < after.len() implies precedes(
            #[trigger] after[i],
            #[trigger] after[j],
        ) by {
            if j < low {
                assert(after[i] == before[i] && after[j] == before[j]);
            } else if j == low {
                assert(after[i] == before[i]);
            } else if i < low {
                assert(after[i] == before[i] && after[j] == before[j - 1]);
                lemma_precedes_transitive(before[i], word@, before[j - 1]);
            } else if i == low {
                assert(after[j] == before[j - 1]);
            } else {
                assert(after[i] == before[i - 1] && after[j] == before[j - 1]);
            }
        }
        assert forall|w: Seq<char>| after.contains(w) <==> (before.contains(w) || w == word@) by {
            if after.contains(w) {
                let i = choose|i: int| 0 <= i < after.len() && after[i] == w;
                if i < low {
                    assert(before[i] == w);
                } else if i > low {
                    assert(before[i - 1] == w);
                }
            }
            if before.contains(w) {
                let i = choose|i: int| 0 <= i < before.len() && before[i] == w;
                if i < low {
                    assert(after[i] == w);
                } else {
                    assert(after[i + 1] == w);
                }
            }
            if w == word@ {
                assert(after[low as int] == w);
            }
        }
    }
}

/// The word list of `lines`.
pub fn sort_lines(lines: Vec<String>) -> (words: Vec<String>)
    ensures
        is_word_list(views(words@), views(lines@)),
{
    let mut lines = lines;
    let ghost all = views(lines@);
    let mut words: Vec<String> = Vec::new();
    let ghost mut seen: Seq<Seq<char>> = Seq::empty();
    while lines.len() > 0
        invariant
            all == views(lines@) + seen,
            is_word_list(views(words@), seen),
        decreases lines@.len(),
    {
        let ghost left = views(lines@);
        let ghost old_words = views(words@);
        let line = lines.pop().unwrap();
        assert(views(lines@) =~= left.drop_last());
        assert(left.last() == line@);
        if !line.as_str().is_empty() {
            insert_word(&mut words, line);
        }
        proof {
            let grown = seq![left.last()] + seen;
            assert(views(lines@) + grown =~= left + seen);
            assert forall|w: Seq<char>|
                #![trigger views(words@).contains(w)]
                #![trigger grown.contains(w)]
                views(words@).contains(w) <==> (w.len() > 0 && grown.contains(w)) by {
                if left.last().len() > 0 {
                    assert(views(words@).contains(w) <==> (old_words.contains(w) || w
                        == left.last()));
                } else {
                    assert(views(words@) == old_words);
                }
                assert(old_words.contains(w) <==> (w.len() > 0 && seen.contains(w)));
                if grown.contains(w) {
                    let i = choose|i: int| 0 <= i < grown.len() && grown[i] == w;
                    if i > 0 {
                        assert(seen[i - 1] == w);
                    }
                }
                if seen.contains(w) {
                    let i = choose|i: int| 0 <= i < seen.len() && seen[i] == w;
                    assert(grown[i + 1] == w);
                }
                assert(grown[0] == left.last());
            }
            seen = grown;
        }
    }
    assert(views(lines@) + seen =~= seen);
    words
}

/// The word list of the lines of `text`.
pub fn normalize_lines(text: &str) -> (words: Vec<String>)
    ensures
        is_word_list(views(words@), lines_of(text@)),
{
    let chars = chars_of(text);
    let total = chars.len();
    let mut words: Vec<String> = Vec::new();
    let mut start: usize = 0;
    let ghost mut seen: Seq<Seq<char>> = Seq::empty();
    assert(chars@.skip(0) =~= chars@);
    while start < total
        invariant
            total == chars@.len(),
            chars@ == text@,
            start <= total,
            lines_of(chars@) == seen + lines_of(chars@.skip(start as int)),
            is_word_list(views(words@), seen),
        decreases total - start,
    {
        let ghost rest = chars@.skip(start as int);
        let mut end: usize = start;
        while end < total && chars[end] != '\n'
            invariant
                total == chars@.len(),
                start <= end <= total,
                forall|k: int| start <= k < end ==> chars@[k] != '\n',
            decreases total - end,
        {
            end = end + 1;
        }
        let stop = if end < total && end > start && chars[end - 1] == '\r' {
            end - 1
        } else {
            end
        };
        let ghost line = chars@.subrange(start as int, stop as int);
        proof {
            assert forall|k: int| 0 <= k < end - start implies rest[k] != '\n' by {
                assert(rest[k] == chars@[start + k]);
            }
            lemma_first_of(rest, '\n', end - start);
            if end < total {
                assert(rest.take(end - start) =~= chars@.subrange(start as int, end as int));
                assert(strip_return(rest.take(end - start)) =~= line);
                assert(rest.skip(end - start + 1) =~= chars@.skip(end + 1));
                assert(lines_of(rest) == seq![line] + lines_of(chars@.skip(end + 1)));
            } else {
                assert(rest =~= line);
                assert(chars@.skip(total as int) =~= Seq::<char>::empty());
                assert(lines_of(rest) =~= seq![line] + lines_of(chars@.skip(total as int)));
            }
        }
        let ghost old_words = views(words@);
        if stop > start {
            let word = string_of(slice_subrange(chars.as_slice(), start, stop));
            insert_word(&mut words, word);
        }
        proof {
            let grown = seen.push(line);
            assert(line.len() == stop - start);
            assert forall|w: Seq<char>|
                #![trigger views(words@).contains(w)]
                #![trigger grown.contains(w)]
                views(words@).contains(w) <==> (w.len() > 0 && grown.contains(w)) by {
                if stop > start {
                    assert(views(words@).contains(w) <==> (old_words.contains(w) || w == line));
                } else {
                    assert(views(words@) == old_words);
                }
                assert(old_words.contains(w) <==> (w.len() > 0 && seen.contains(w)));
                if grown.contains(w) {
                    let i = choose|i: int| 0 <= i < grown.len() && grown[i] == w;
                    if i < seen.len() {
                        assert(seen[i] == w);
                    }
                }
                if seen.contains(w) {
                    let i = choose|i: int| 0 <= i < seen.len() && seen[i] == w;
                    assert(grown[i] == w);
                }
                assert(grown[seen.len() as int] == line);
            }
            seen = grown;
        }
        if end < total {
            assert(seen + lines_of(chars@.skip(end + 1)) =~= seen.drop_last() + (seq![line]
                + lines_of(chars@.skip(end + 1))));
            start = end + 1;
        } else {
            assert(seen + lines_of(chars@.skip(total as int)) =~= seen.drop_last() + (seq![line]
                + lines_of(chars@.skip(total as int))));
            start = end;
        }
    }
    proof {
        assert(chars@.skip(total as int) =~= Seq::<char>::empty());
        assert(lines_of(chars@) =~= seen);
    }
    words
}

/// The word list of a text given as bytes: the bytes are read as UTF-8 and
/// split into lines; the lines that are not empty are sorted, and each is kept
/// once. Bytes that are not UTF-8 give no word list.
pub fn words_of_bytes(content: Vec<u8>) -> (outcome: Result<Vec<String>, FromUtf8Error>)
    ensures
        outcome is Ok <==> valid_utf8(content@),
        outcome matches Ok(words) ==> is_word_list(views(words@), lines_of(decode_utf8(content@))),
{
    match string_from_utf8(content) {
        Ok(text) => Ok(normalize_lines(text.as_str())),
        Err(error) => Err(error),
    }
}

/// The word list that a compressed text holds: the text is decompressed, read
/// as UTF-8 and split into lines; the lines that are not empty are sorted, and
/// each is kept once.
pub fn decompress_lines(data: &[u8]) -> (outcome: Result<Vec<String>, DecompressError>)
    ensures
        outcome matches Ok(words) ==> zstd_content(data@) matches Some(content) && valid_utf8(
            content,
        ) && is_word_list(views(words@), lines_of(decode_utf8(content))),
        outcome matches Err(DecompressError::Io(_)) ==> zstd_content(data@) is None,
        outcome matches Err(DecompressError::FromUtf8(_)) ==> zstd_content(data@) matches Some(
            content,
        ) && !valid_utf8(content),
{
    let buffer = match zstd_decode(data) {
        Ok(buffer) => buffer,
        Err(error) => {
            return Err(DecompressError::Io(error));
        },
    };
    match words_of_bytes(buffer) {
        Ok(words) => Ok(words),
        Err(error) => Err(DecompressError::FromUtf8(error)),
    }
}

} // verus!
