//! The errors of passphrase generation.

use crate::text::push_decimal;
use crate::wordlist::LIST_LEN;
use vstd::prelude::*;

verus! {

#[verifier::external_type_specification]
#[verifier::external_body]
pub struct ExIoError(std::io::Error);

/// Word list errors.
#[derive(Debug)]
pub enum WordListError {
    /// The word list is not 7776 words long; holds the length it has.
    InvalidLength(usize),
    /// The word list holds this word more than once.
    DuplicateWord(String),
}

/// Diceware errors.
#[derive(Debug)]
pub enum Error {
    /// An I/O error, met while reading a word list from a file.
    IO(std::io::Error),
    /// The word list is invalid.
    WordList(WordListError),
    /// The number of words to generate is zero.
    NoWords,
}

impl WordListError {
    /// The message that describes this error.
    pub fn message(&self) -> (r: String)
        ensures
            r@ == self.message_view(),
    {
        match self {
            WordListError::InvalidLength(n) => {
                let mut s = String::from_str("Word list: invalid length (");
                push_decimal(&mut s, *n);
                s.append(", expected ");
                push_decimal(&mut s, LIST_LEN);
                s.append(")");
                s
            },
            WordListError::DuplicateWord(w) => {
                let mut s = String::from_str("Word list: ");
                s.append(w.as_str());
                s.append(": duplicate word");
                s
            },
        }
    }

    /// A short description of the kind of this error.
    pub fn description(&self) -> (r: &'static str)
        ensures
            r@ == self.description_view(),
    {
        match self {
            WordListError::InvalidLength(_) => "Invalid word list length",
            WordListError::DuplicateWord(_) => "Duplicate word in the list",
        }
    }
}

/// The decimal rendering of a length.
pub open spec fn decimal_of(n: usize) -> Seq<char> {
    crate::text::decimal(n as nat)
}

impl Error {
    /// The message that describes this error: for an I/O error, what its
    /// `Display` writes; for a word list error, the word list error's own
    /// message.
    pub fn message(&self) -> (r: String)
        ensures
            self matches Error::IO(e) ==> vstd::string::to_string_from_display_ensures::<
                std::io::Error,
            >(&e, r),
            self matches Error::WordList(e) ==> r@ == e.message_view(),
            self matches Error::NoWords ==> r@ == "No words to generate"@,
    {
        match self {
            Error::IO(e) => e.to_string(),
            Error::WordList(e) => e.message(),
            Error::NoWords => String::from_str("No words to generate"),
        }
    }

    /// A short description of the kind of this error. For an I/O error it is
    /// what the error's `Display` writes: `std::error::Error::description` is
    /// deprecated in favour of `Display`, and gives an I/O error no text of
    /// its own any more.
    pub fn description(&self) -> (r: String)
        ensures
            self matches Error::IO(e) ==> vstd::string::to_string_from_display_ensures::<
                std::io::Error,
            >(&e, r),
            self matches Error::WordList(e) ==> r@ == e.description_view(),
            self matches Error::NoWords ==> r@ == "No words to generate"@,
    {
        match self {
            Error::IO(e) => e.to_string(),
            Error::WordList(e) => String::from_str(e.description()),
            Error::NoWords => String::from_str("No words to generate"),
        }
    }
}

impl WordListError {
    /// What `message` returns.
    pub open spec fn message_view(&self) -> Seq<char> {
        match self {
            WordListError::InvalidLength(n) => "Word list: invalid length ("@ + decimal_of(*n)
                + ", expected "@ + decimal_of(LIST_LEN) + ")"@,
            WordListError::DuplicateWord(w) => "Word list: "@ + w@ + ": duplicate word"@,
        }
    }

    /// What `description` returns.
    pub open spec fn description_view(&self) -> Seq<char> {
        match self {
            WordListError::InvalidLength(_) => "Invalid word list length"@,
            WordListError::DuplicateWord(_) => "Duplicate word in the list"@,
        }
    }
}

impl From<WordListError> for Error {
    fn from(e: WordListError) -> (r: Error)
        ensures
            r == Error::WordList(e),
    {
        Error::WordList(e)
    }
}

impl vstd::std_specs::convert::FromSpecImpl<WordListError> for Error {
    open spec fn obeys_from_spec() -> bool {
        true
    }

    open spec fn from_spec(e: WordListError) -> Error {
        Error::WordList(e)
    }
}

impl From<std::io::Error> for Error {
    fn from(e: std::io::Error) -> (r: Error)
        ensures
            r == Error::IO(e),
    {
        Error::IO(e)
    }
}

impl vstd::std_specs::convert::FromSpecImpl<std::io::Error> for Error {
    open spec fn obeys_from_spec() -> bool {
        true
    }

    open spec fn from_spec(e: std::io::Error) -> Error {
        Error::IO(e)
    }
}

} // verus!
