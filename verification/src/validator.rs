//! Judging a guess against the puzzle, the word list and the words found so
//! far. Judging changes nothing: recording an accepted word is the caller's
//! step.

use vstd::prelude::*;
use crate::dictionary::Dictionary;
use crate::ledger::FoundWordsLedger;
use crate::letter_set::LetterSet;
use crate::letters::{all_letters, chars_of, letters_of, lowercase};
use crate::order::find_word;
use crate::puzzle::PuzzleState;
use crate::words::{list_contains, lowercase_string};

verus! {

/// Why a guess earns nothing.
#[derive(Clone, Copy, Debug, PartialEq, Eq, Structural)]
pub enum RejectionReason {
    /// The guess has fewer than four characters.
    TooShort,
    /// The guess holds a character that is not an ASCII letter.
    InvalidCharacters,
    /// The guess does not use the required letter.
    MissingRequiredLetter,
    /// The guess uses a letter that is not one of the seven.
    UsesDisallowedLetter,
    /// The guess is not a word of the dictionary.
    NotInDictionary,
    /// The guess was found before.
    AlreadyFound,
}

/// What became of a guess.
#[derive(Clone, Copy, Debug, PartialEq, Eq, Structural)]
pub enum GuessOutcome {
    /// The guess is a new word of the puzzle; `is_pangram` tells whether it
    /// uses all seven letters.
    Accepted { is_pangram: bool },
    /// The guess earns nothing, for the first reason that applies.
    Rejected { reason: RejectionReason },
}

/// The outcome of `guess` in a puzzle that allows the letters `target` and
/// requires `required`, with the dictionary `words` and the words `found` so
/// far. The tests are made in this order, and the first that fails decides.
pub open spec fn classify(
    guess: Seq<char>,
    target: Set<char>,
    required: char,
    words: Set<Seq<char>>,
    found: Seq<Seq<char>>,
) -> GuessOutcome {
    if guess.len() < 4 {
        GuessOutcome::Rejected { reason: RejectionReason::TooShort }
    } else if !all_letters(guess) {
        GuessOutcome::Rejected { reason: RejectionReason::InvalidCharacters }
    } else if !letters_of(guess).contains(required) {
        GuessOutcome::Rejected { reason: RejectionReason::MissingRequiredLetter }
    } else if !letters_of(guess).subset_of(target) {
        GuessOutcome::Rejected { reason: RejectionReason::UsesDisallowedLetter }
    } else if !words.contains(lowercase(guess)) {
        GuessOutcome::Rejected { reason: RejectionReason::NotInDictionary }
    } else if found.contains(lowercase(guess)) {
        GuessOutcome::Rejected { reason: RejectionReason::AlreadyFound }
    } else {
        GuessOutcome::Accepted { is_pangram: letters_of(guess).len() == 7 }
    }
}

/// Whether `guess` passes every test that does not look at the found words.
pub open spec fn fits_puzzle(
    guess: Seq<char>,
    target: Set<char>,
    required: char,
    words: Set<Seq<char>>,
) -> bool {
    &&& guess.len() >= 4
    &&& all_letters(guess)
    &&& letters_of(guess).contains(required)
    &&& letters_of(guess).subset_of(target)
    &&& words.contains(lowercase(guess))
}

/// A word is not credited twice: once `word` is recorded, no guess that
/// spells it, in whatever case, is accepted.
///
/// `found.push(lowercase(word))` is the ledger after `word` was recorded in
/// the ledger `found`.
pub proof fn lemma_recorded_word_is_not_accepted(
    guess: Seq<char>,
    word: Seq<char>,
    target: Set<char>,
    required: char,
    words: Set<Seq<char>>,
    found: Seq<Seq<char>>,
)
    requires
        lowercase(guess) == lowercase(word),
    ensures
        !(classify(guess, target, required, words, found.push(lowercase(word))) is Accepted),
{
    let after = found.push(lowercase(word));
    assert(after[found.len() as int] == lowercase(guess));
}

/// Once `word` is recorded, a guess that spells it, in whatever case, and
/// that fits the puzzle is rejected as found already. A guess that does not
/// fit the puzzle is rejected for that, recorded or not.
pub proof fn lemma_recorded_word_is_already_found(
    guess: Seq<char>,
    word: Seq<char>,
    target: Set<char>,
    required: char,
    words: Set<Seq<char>>,
    found: Seq<Seq<char>>,
)
    requires
        lowercase(guess) == lowercase(word),
        fits_puzzle(guess, target, required, words),
    ensures
        classify(guess, target, required, words, found.push(lowercase(word))) == (
        GuessOutcome::Rejected { reason: RejectionReason::AlreadyFound }),
{
    let after = found.push(lowercase(word));
    assert(after[found.len() as int] == lowercase(guess));
}

/// Judging is repeatable: it depends on nothing but the guess, the puzzle,
/// the dictionary and the found words, so anything that is the outcome for
/// them is the same outcome.
pub proof fn lemma_outcome_is_determined(
    first: GuessOutcome,
    second: GuessOutcome,
    guess: Seq<char>,
    target: Set<char>,
    required: char,
    words: Set<Seq<char>>,
    found: Seq<Seq<char>>,
)
    requires
        first == classify(guess, target, required, words, found),
        second == classify(guess, target, required, words, found),
    ensures
        first == second,
{
}

/// Only a word that uses all seven letters of the puzzle is accepted as a
/// pangram: an accepted guess has seven letters exactly when its letters are
/// the letters of the puzzle.
pub proof fn lemma_accepted_pangram_uses_all(
    guess: Seq<char>,
    target: Set<char>,
    required: char,
    words: Set<Seq<char>>,
    found: Seq<Seq<char>>,
)
    requires
        target.finite(),
        target.len() == 7,
        classify(guess, target, required, words, found) is Accepted,
    ensures
        classify(guess, target, required, words, found) == (GuessOutcome::Accepted {
            is_pangram: letters_of(guess) == target,
        }),
{
    let used = letters_of(guess);
    vstd::set_lib::lemma_len_subset(used, target);
    if used.len() == 7 {
        vstd::set_lib::lemma_subset_equality(used, target);
    }
}

impl RejectionReason {
    /// The reason in words, as shown behind the guess.
    pub open spec fn text(self) -> Seq<char> {
        match self {
            RejectionReason::TooShort => "is too short!"@,
            RejectionReason::InvalidCharacters => "has a character that is not a letter"@,
            RejectionReason::MissingRequiredLetter => "does not use the required letter"@,
            RejectionReason::UsesDisallowedLetter => "uses a letter that is not in the puzzle"@,
            RejectionReason::NotInDictionary => "is not in word list"@,
            RejectionReason::AlreadyFound => "was already found"@,
        }
    }

    /// The reason in words, as shown behind the guess.
    pub fn message(self) -> (s: &'static str)
        ensures
            s@ == self.text(),
    {
        match self {
            RejectionReason::TooShort => "is too short!",
            RejectionReason::InvalidCharacters => "has a character that is not a letter",
            RejectionReason::MissingRequiredLetter => "does not use the required letter",
            RejectionReason::UsesDisallowedLetter => "uses a letter that is not in the puzzle",
            RejectionReason::NotInDictionary => "is not in word list",
            RejectionReason::AlreadyFound => "was already found",
        }
    }
}

/// Judges `guess`. The tests are made in this order, and the first that
/// fails gives the reason:
///
/// 1. fewer than four characters: `TooShort`;
/// 2. a character that is not an ASCII letter: `InvalidCharacters`;
/// 3. the required letter is not used: `MissingRequiredLetter`;
/// 4. a letter is used that is not one of the seven: `UsesDisallowedLetter`;
/// 5. the word, in lower case, is not in the dictionary: `NotInDictionary`;
/// 6. the word, in lower case, is in the ledger: `AlreadyFound`.
///
/// A guess that passes them all is accepted, as a pangram if it uses seven
/// different letters. Nothing is changed; in particular the guess is not
/// recorded.
pub fn validate_guess(
    guess: &str,
    puzzle: &PuzzleState,
    dictionary: &Dictionary,
    ledger: &FoundWordsLedger,
) -> (outcome: GuessOutcome)
    ensures
        outcome == classify(
            guess@,
            puzzle.target(),
            puzzle.required(),
            dictionary.words(),
            ledger@,
        ),
{
    let chars = chars_of(guess);
    if chars.len() < 4 {
        return GuessOutcome::Rejected { reason: RejectionReason::TooShort };
    }
    let word_bits: LetterSet = match LetterSet::encode_chars(&chars) {
        Ok(set) => set,
        Err(_) => {
            return GuessOutcome::Rejected { reason: RejectionReason::InvalidCharacters };
        },
    };
    if !word_bits.intersects(puzzle.required_bit()) {
        return GuessOutcome::Rejected { reason: RejectionReason::MissingRequiredLetter };
    }
    assert(word_bits@.contains(puzzle.required())) by {
        let common = choose|c: char| word_bits@.contains(c) && set![puzzle.required()].contains(c);
        assert(common == puzzle.required());
    }
    if !word_bits.is_subset_of(puzzle.target_bits()) {
        return GuessOutcome::Rejected { reason: RejectionReason::UsesDisallowedLetter };
    }
    let key = lowercase_string(&chars);
    if !find_word(dictionary.all_valid_words(), key.as_str()) {
        return GuessOutcome::Rejected { reason: RejectionReason::NotInDictionary };
    }
    if list_contains(ledger.words(), &key) {
        return GuessOutcome::Rejected { reason: RejectionReason::AlreadyFound };
    }
    GuessOutcome::Accepted { is_pangram: word_bits.count() == 7 }
}

} // verus!
