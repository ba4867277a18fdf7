//! A Diceware passphrase generator.
//!
//! A passphrase is made of words drawn uniformly, with replacement, from a
//! list of exactly 7776 unique words, optionally with one special character
//! inserted at a grapheme boundary of one of the words. Every list, embedded
//! or read from a file, is checked before each use, so that nobody has to
//! trust its provider.

pub mod config;
pub mod error;
pub mod passphrase;
pub mod text;
pub mod wordlist;

pub use crate::config::{Config, EmbeddedList, WordSource};
pub use crate::error::{Error, WordListError};
pub use crate::passphrase::assemble;
pub use crate::wordlist::WordList;

use crate::passphrase::is_passphrase;
use crate::wordlist::{is_first_repeat, lines_of, no_duplicates, LIST_LEN};
use vstd::prelude::*;

verus! {

/// What making a passphrase of `n` words from the candidate words `ws` can
/// give: the error of an invalid list, else a passphrase from it.
pub open spec fn made_from(ws: Seq<Seq<char>>, n: nat, marked: bool, r: Result<String, Error>) -> bool {
    if ws.len() != LIST_LEN {
        r matches Err(Error::WordList(WordListError::InvalidLength(m))) && m == ws.len()
    } else if !no_duplicates(ws) {
        r matches Err(Error::WordList(WordListError::DuplicateWord(w))) && exists|j: int|
            is_first_repeat(ws, j) && w@ == ws[j]
    } else {
        r matches Ok(p) && is_passphrase(ws, n, marked, p@)
    }
}

/// Whether making a passphrase for `config` reads its word list: it does
/// not when no word is asked for, since that fails before any reading.
pub fn reads_word_list(config: &Config) -> (r: bool)
    ensures
        r == (config.spec_words() > 0),
{
    config.words() > 0
}

/// Makes a passphrase as `config` asks, from `list_text`, the text of the
/// word list that the configuration's source names (one word per line).
///
/// Fails with `NoWords`, before the list is even read, when no word is
/// asked for; else with the list's error when it is invalid.
pub fn make_passphrase(config: &Config, list_text: &str) -> (r: Result<String, Error>)
    ensures
        config.spec_words() == 0 ==> r matches Err(Error::NoWords),
        config.spec_words() > 0 ==> made_from(
            lines_of(list_text@),
            config.spec_words() as nat,
            config.spec_with_special_char(),
            r,
        ),
{
    let words = config.words();
    if words == 0 {
        return Err(Error::NoWords);
    }
    match WordList::load(list_text) {
        Err(e) => Err(Error::WordList(e)),
        Ok(list) => assemble(&list, words, config.with_special_char()),
    }
}

} // verus!
pub mod laws;
