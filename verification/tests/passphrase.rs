use grad::error::SampleError;
use grad::passphrase::{random_passphrase, sample_words, WordList};
use grad::entropy::EntropySource;

const WORDS: &str = "abacus\nbanjo\ncactus\ndaisy\neagle\nfalcon\ngarlic\nharbor\nigloo\njacket\nkettle\nlantern\nmagnet\nnectar\noyster\npepper\nquartz\nrocket\nsaddle\ntunnel\numpire\nvelvet\nwalnut\nyonder\nzipper\n";

fn default_words() -> WordList {
    let data = zstd::stream::encode_all(WORDS.as_bytes(), 3).unwrap();

    WordList::from_compressed(&data).unwrap()
}

fn word_count(buffer: &Vec<u8>) -> usize {
    std::str::from_utf8(buffer)
        .unwrap()
        .split(' ')
        .count()
}

#[test]
fn can_generate_ten_thousand_word_passphrase() {
    let words = default_words();
    let bytes = random_passphrase(&words, " ", 10000).unwrap();
    let count = word_count(&bytes);

    assert_eq!(count, 10000)
}

#[test]
fn can_generate_hundred_thousand_word_passphrase() {
    let words = default_words();
    let bytes = random_passphrase(&words, " ", 100000).unwrap();
    let count = word_count(&bytes);

    assert_eq!(count, 100000)
}

#[test]
fn can_generate_empty_passphrase() {
    let words = default_words();
    let bytes = random_passphrase(&words, " ", 0).unwrap();

    assert_eq!(bytes.len(), 0)
}

#[test]
#[should_panic]
fn empty_wordlist_panics() {
    let words = WordList::from_lines(Vec::new());

    random_passphrase(&words, " ", 1).unwrap();
}

#[test]
fn passphrase_from_an_empty_word_list_is_an_error() {
    let words = WordList::from_lines(Vec::new());

    assert_eq!(random_passphrase(&words, " ", 1), Err(SampleError::EmptyDomain));
    assert_eq!(random_passphrase(&words, " ", 10000), Err(SampleError::EmptyDomain));
}

#[test]
fn empty_passphrase_from_an_empty_word_list_is_empty() {
    let words = WordList::from_lines(Vec::new());

    assert_eq!(random_passphrase(&words, " ", 0), Ok(Vec::new()));
}

#[test]
fn passphrase_holds_words_of_the_list_only() {
    let words = default_words();
    let bytes = random_passphrase(&words, " ", 10000).unwrap();
    let text = String::from_utf8(bytes).unwrap();

    assert!(text.split(' ').all(|word| words.inner().iter().any(|known| known == word)));
    assert!(words.inner().iter().all(|known| text.split(' ').any(|word| word == known)));
}

#[test]
fn words_are_joined_by_the_separator() {
    let words = WordList::from_lines(vec!["up".to_string()]);

    assert_eq!(random_passphrase(&words, " ", 1), Ok(b"up".to_vec()));
    assert_eq!(random_passphrase(&words, " ", 3), Ok(b"up up up".to_vec()));
    assert_eq!(random_passphrase(&words, "", 3), Ok(b"upupup".to_vec()));
    assert_eq!(random_passphrase(&words, "-->", 2), Ok(b"up-->up".to_vec()));
    assert_eq!(random_passphrase(&words, "é", 2), Ok("upéup".as_bytes().to_vec()));
}

#[test]
fn word_list_is_sorted_without_repeats_and_empty_words() {
    let words = WordList::from_lines(vec![
        "pear".to_string(),
        String::new(),
        "apple".to_string(),
        "pear".to_string(),
        "fig".to_string(),
    ]);

    assert_eq!(words.inner(), ["apple".to_string(), "fig".to_string(), "pear".to_string()]);
}

#[test]
fn word_list_of_a_text_is_that_of_its_lines() {
    let words = WordList::from_text("pear\r\napple\n\nfig\napple");

    assert_eq!(words.inner(), ["apple".to_string(), "fig".to_string(), "pear".to_string()]);
    assert_eq!(words, WordList::from_lines(vec!["fig".to_string(), "pear".to_string(), "apple".to_string()]));
}

#[test]
fn word_list_is_the_same_each_time_it_is_built() {
    let first = default_words();
    let second = default_words();

    assert_eq!(first, second);
    assert_eq!(first.inner().len(), 25);
    assert_eq!(first.clone(), first);
    assert_eq!(WordList::from_lines(first.inner().to_vec()), first);
    assert!(first.inner().windows(2).all(|pair| pair[0] < pair[1]));
    assert!(first.inner().iter().all(|word| !word.is_empty()));
}

#[test]
fn word_list_of_bad_data_is_an_error() {
    assert!(WordList::from_compressed(b"nothing compressed").is_err());
}

#[test]
fn words_are_drawn_from_the_given_source() {
    let mut source = EntropySource::new_stream();
    let words = default_words();
    let none = WordList::from_lines(Vec::new());

    assert_eq!(sample_words(&mut source, &words, 0), Ok(Vec::new()));
    assert_eq!(sample_words(&mut source, &none, 0), Ok(Vec::new()));
    assert_eq!(sample_words(&mut source, &none, 2), Err(SampleError::EmptyDomain));
    assert_eq!(sample_words(&mut source, &words, 40).unwrap().len(), 40);
}
