//! What to generate: the source of the word list, the number of words, and
//! whether to add a special character.

use vstd::prelude::*;

verus! {

/// The word lists embedded in the generator.
#[derive(Clone, Copy, Debug, PartialEq, Eq, Structural)]
pub enum EmbeddedList {
    /// Arnold G. Reinhold's English Diceware word list.
    EN,
    /// Matthieu Weber's French word list, with `Église` written `Eglise` to
    /// avoid encoding and keyboard accessibility issues.
    FR,
}

/// Where a word list comes from.
#[derive(Debug)]
pub enum WordSource {
    /// A text file, one word per line, at this path.
    File(String),
    /// One of the embedded lists.
    Embedded(EmbeddedList),
}

/// Configuration for the passphrase generator.
///
/// A configuration is made with one of the constructors,
/// `Config::with_filename` or `Config::with_embedded`.
#[derive(Debug)]
pub struct Config {
    word_list: WordSource,
    words: usize,
    with_special_char: bool,
}

impl Config {
    /// The source of the word list.
    pub closed spec fn spec_source(&self) -> WordSource {
        self.word_list
    }

    /// The number of words to generate.
    pub closed spec fn spec_words(&self) -> usize {
        self.words
    }

    /// Whether a special character is to be inserted.
    pub closed spec fn spec_with_special_char(&self) -> bool {
        self.with_special_char
    }

    /// A configuration that uses the word list in the file `filename`.
    pub fn with_filename(filename: &str, words: usize, with_special_char: bool) -> (r: Config)
        ensures
            r.spec_source() matches WordSource::File(f) && f@ == filename@,
            r.spec_words() == words,
            r.spec_with_special_char() == with_special_char,
    {
        Config { word_list: WordSource::File(String::from_str(filename)), words, with_special_char }
    }

    /// A configuration that uses the embedded word list `list`.
    pub fn with_embedded(list: EmbeddedList, words: usize, with_special_char: bool) -> (r: Config)
        ensures
            r.spec_source() == WordSource::Embedded(list),
            r.spec_words() == words,
            r.spec_with_special_char() == with_special_char,
    {
        Config { word_list: WordSource::Embedded(list), words, with_special_char }
    }

    /// The source of the word list.
    pub fn source(&self) -> (r: &WordSource)
        ensures
            *r == self.spec_source(),
    {
        &self.word_list
    }

    /// The number of words to generate.
    pub fn words(&self) -> (r: usize)
        ensures
            r == self.spec_words(),
    {
        self.words
    }

    /// Whether a special character is to be inserted.
    pub fn with_special_char(&self) -> (r: bool)
        ensures
            r == self.spec_with_special_char(),
    {
        self.with_special_char
    }
}

} // verus!
