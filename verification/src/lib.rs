//! The engine of a word puzzle: from seven letters, one of them required,
//! find every word of the dictionary that uses the required letter and no
//! letter outside the seven.
//!
//! [`Dictionary`] holds the playable words of a word list and the pangram
//! candidates among them, [`PuzzleState`] is a puzzle drawn from a
//! candidate, [`validate_guess`] judges a guess, and [`FoundWordsLedger`]
//! keeps the words that were accepted. Letter sets are [`LetterSet`]
//! values.

pub mod dictionary;
pub mod ledger;
pub mod letter_set;
pub mod letters;
pub mod order;
pub mod puzzle;
pub mod trusted;
pub mod validator;
pub mod words;

pub use dictionary::{new_dictionary, Dictionary, DictionaryError};
pub use ledger::{record_found_word, FoundWordsLedger, LedgerError};
pub use letter_set::{LetterSet, LetterSetError};
pub use puzzle::{new_puzzle, PuzzleState};
pub use validator::{validate_guess, GuessOutcome, RejectionReason};
