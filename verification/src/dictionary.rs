//! The word list of a game: the set of playable words of a text, and among
//! them the pangrams that a puzzle can be drawn from.
//!
//! Both are sets: how often and where a word stood in the text makes no
//! difference. They are kept as lists in alphabetical order, each word once.

use vstd::prelude::*;
use crate::letters::{chars_of, lemma_lowercase_of_word, lowercase};
use crate::order::{find_word, is_alphabetical, lemma_alphabetical_push, precedes, sort_words};
use crate::words::{
    is_pangram, is_pangram_word, is_usable, is_usable_word, lowercase_string, normalize,
    spellings, split_words, texts, tokens,
};

verus! {

/// Why a text gives no dictionary. Without a dictionary no game can start.
#[derive(Clone, Copy, Debug, PartialEq, Eq, Structural)]
pub enum DictionaryError {
    /// The text holds no playable word.
    EmptySource,
    /// The text holds playable words, but none with seven different letters.
    NoPangramCandidates,
}

/// Whether `word` is the lower-case form of a playable one of `tokens`.
pub open spec fn is_usable_among(tokens: Seq<Seq<char>>, word: Seq<char>) -> bool {
    exists|i: int|
        0 <= i < tokens.len() && is_usable(#[trigger] tokens[i]) && lowercase(tokens[i]) == word
}

/// The playable words among `tokens`, in lower case.
pub open spec fn usable_words(tokens: Seq<Seq<char>>) -> Set<Seq<char>> {
    Set::new(|word: Seq<char>| is_usable_among(tokens, word))
}

/// The pangrams among `words`.
pub open spec fn pangrams_among(words: Set<Seq<char>>) -> Set<Seq<char>> {
    words.filter(|word: Seq<char>| is_pangram(word))
}

/// What a dictionary keeps: a playable word in lower case.
pub open spec fn is_stored_word(word: Seq<char>) -> bool {
    is_usable(word) && lowercase(word) == word
}

/// One more token adds its lower-case form to the playable words, if it is
/// playable.
pub proof fn lemma_usable_words_push(tokens: Seq<Seq<char>>, t: Seq<char>)
    ensures
        usable_words(tokens.push(t)) == if is_usable(t) {
            usable_words(tokens).insert(lowercase(t))
        } else {
            usable_words(tokens)
        },
{
    let more = tokens.push(t);
    assert forall|w: Seq<char>|
        is_usable_among(more, w) == (is_usable_among(tokens, w) || (is_usable(t) && lowercase(t)
            == w)) by {
        if is_usable_among(tokens, w) {
            let i = choose|i: int|
                0 <= i < tokens.len() && is_usable(#[trigger] tokens[i]) && lowercase(tokens[i])
                    == w;
            assert(is_usable(more[i]) && lowercase(more[i]) == w);
        }
        if is_usable(t) && lowercase(t) == w {
            assert(is_usable(more[tokens.len() as int]));
        }
        if is_usable_among(more, w) {
            let i = choose|i: int|
                0 <= i < more.len() && is_usable(#[trigger] more[i]) && lowercase(more[i]) == w;
            if i < tokens.len() {
                assert(is_usable(tokens[i]));
            }
        }
    }
    if is_usable(t) {
        assert(usable_words(more) =~= usable_words(tokens).insert(lowercase(t)));
    } else {
        assert(usable_words(more) =~= usable_words(tokens));
    }
}

/// Every playable word of a text is kept as playable word in lower case.
pub proof fn lemma_usable_words_are_stored(tokens: Seq<Seq<char>>, word: Seq<char>)
    requires
        usable_words(tokens).contains(word),
    ensures
        is_stored_word(word),
{
    let i = choose|i: int|
        0 <= i < tokens.len() && is_usable(#[trigger] tokens[i]) && lowercase(tokens[i]) == word;
    lemma_lowercase_of_word(tokens[i]);
}

/// The words of a game. Built once from a text, and not changed afterwards.
#[derive(Debug)]
pub struct Dictionary {
    all_valid_words: Vec<String>,
    pangram_candidates: Vec<String>,
}

impl Dictionary {
    /// The playable words.
    pub closed spec fn words(&self) -> Set<Seq<char>> {
        texts(self.all_valid_words@).to_set()
    }

    /// The words that a puzzle can be drawn from.
    pub closed spec fn pangrams(&self) -> Set<Seq<char>> {
        texts(self.pangram_candidates@).to_set()
    }

    /// Both lists are in alphabetical order, each word once. The words are
    /// playable and in lower case; the candidates are the pangrams among
    /// them, and there is one.
    #[verifier::type_invariant]
    spec fn inv(&self) -> bool {
        &&& is_alphabetical(texts(self.all_valid_words@))
        &&& is_alphabetical(texts(self.pangram_candidates@))
        &&& forall|w: Seq<char>| self.words().contains(w) ==> is_stored_word(w)
        &&& self.pangrams() == pangrams_among(self.words())
        &&& self.pangram_candidates@.len() > 0
    }

    /// The pangrams of an alphabetical list of words, in the same order.
    fn pangrams_of(all: &Vec<String>) -> (found: Vec<String>)
        requires
            is_alphabetical(texts(all@)),
            forall|i: int| 0 <= i < all@.len() ==> is_stored_word(#[trigger] texts(all@)[i]),
        ensures
            is_alphabetical(texts(found@)),
            texts(found@).to_set() == pangrams_among(texts(all@).to_set()),
    {
        let mut found: Vec<String> = Vec::new();
        let mut i: usize = 0;
        proof {
            assert(texts(found@).to_set() =~= pangrams_among(texts(all@).take(0).to_set()));
        }
        while i < all.len()
            invariant
                i <= all.len(),
                is_alphabetical(texts(all@)),
                forall|i: int| 0 <= i < all@.len() ==> is_stored_word(#[trigger] texts(all@)[i]),
                is_alphabetical(texts(found@)),
                texts(found@).to_set() == pangrams_among(texts(all@).take(i as int).to_set()),
                forall|q: int, k: int|
                    0 <= q < found@.len() && i <= k < all@.len() ==> precedes(
                        #[trigger] texts(found@)[q],
                        #[trigger] texts(all@)[k],
                    ),
            decreases all.len() - i,
        {
            let ghost seen = texts(all@).take(i as int);
            let ghost word = texts(all@)[i as int];
            proof {
                assert(texts(all@).take(i + 1) =~= seen.push(word));
                seen.lemma_push_to_set_commute(word);
                assert(is_stored_word(word));
            }
            if is_pangram_word(all[i].as_str()) {
                let copy = all[i].clone();
                proof {
                    let kept = texts(found@);
                    let more = kept.push(word);
                    if kept.len() > 0 {
                        assert(precedes(kept[kept.len() - 1], texts(all@)[i as int]));
                    }
                    lemma_alphabetical_push(kept, word);
                    assert(texts(found@.push(copy)) =~= more);
                    kept.lemma_push_to_set_commute(word);
                    assert(pangrams_among(seen.to_set().insert(word)) =~= pangrams_among(
                        seen.to_set(),
                    ).insert(word));
                    assert forall|q: int, k: int|
                        0 <= q < more.len() && i + 1 <= k < all@.len() implies precedes(
                        #[trigger] more[q],
                        #[trigger] texts(all@)[k],
                    ) by {
                        if q == kept.len() {
                            assert(precedes(texts(all@)[i as int], texts(all@)[k]));
                        } else {
                            assert(precedes(texts(found@)[q], texts(all@)[k]));
                        }
                    }
                }
                found.push(copy);
            } else {
                proof {
                    assert(pangrams_among(seen.to_set().insert(word)) =~= pangrams_among(
                        seen.to_set(),
                    ));
                }
            }
            i += 1;
        }
        proof {
            assert(texts(all@).take(i as int) =~= texts(all@));
        }
        found
    }

    /// Builds the dictionary of a list of words: those of at least four
    /// characters that are all ASCII letters, in lower case, and among them
    /// as pangram candidates those with exactly seven different letters.
    pub fn from_words(list: &Vec<Vec<char>>) -> (r: Result<Dictionary, DictionaryError>)
        ensures
            match r {
                Ok(d) => {
                    &&& d.words() == usable_words(spellings(list@))
                    &&& d.pangrams() == pangrams_among(d.words())
                    &&& !d.pangrams().is_empty()
                },
                Err(DictionaryError::EmptySource) => usable_words(spellings(list@)).is_empty(),
                Err(DictionaryError::NoPangramCandidates) => {
                    &&& !usable_words(spellings(list@)).is_empty()
                    &&& pangrams_among(usable_words(spellings(list@))).is_empty()
                },
            },
    {
        let mut raw: Vec<String> = Vec::new();
        let mut i: usize = 0;
        proof {
            assert(texts(raw@).to_set() =~= usable_words(spellings(list@).take(0)));
        }
        while i < list.len()
            invariant
                i <= list.len(),
                texts(raw@).to_set() == usable_words(spellings(list@).take(i as int)),
            decreases list.len() - i,
        {
            let word = &list[i];
            proof {
                let seen = spellings(list@).take(i as int);
                assert(spellings(list@).take(i + 1) =~= seen.push(word@));
                lemma_usable_words_push(seen, word@);
            }
            if is_usable_word(word) {
                let stored = lowercase_string(word);
                proof {
                    assert(texts(raw@.push(stored)) =~= texts(raw@).push(stored@));
                    texts(raw@).lemma_push_to_set_commute(stored@);
                }
                raw.push(stored);
            }
            i += 1;
        }
        proof {
            assert(spellings(list@).take(i as int) =~= spellings(list@));
        }
        let all = sort_words(&raw);
        proof {
            assert forall|w: Seq<char>| texts(all@).to_set().contains(w) implies is_stored_word(
                w,
            ) by {
                lemma_usable_words_are_stored(spellings(list@), w);
            }
            assert forall|i: int| 0 <= i < all@.len() implies is_stored_word(
                #[trigger] texts(all@)[i],
            ) by {
                assert(texts(all@).to_set().contains(texts(all@)[i]));
            }
        }
        let pangrams = Dictionary::pangrams_of(&all);
        proof {
            if all@.len() > 0 {
                assert(texts(all@).to_set().contains(texts(all@)[0]));
            }
            if pangrams@.len() > 0 {
                assert(texts(pangrams@).to_set().contains(texts(pangrams@)[0]));
            }
        }
        if all.len() == 0 {
            Err(DictionaryError::EmptySource)
        } else if pangrams.len() == 0 {
            Err(DictionaryError::NoPangramCandidates)
        } else {
            Ok(Dictionary { all_valid_words: all, pangram_candidates: pangrams })
        }
    }

    /// Builds the dictionary of a text of words separated by whitespace.
    ///
    /// The text's tokens that are at least four characters long and made of
    /// ASCII letters only are its words, kept in lower case; those with
    /// exactly seven different letters are the pangram candidates. Fails
    /// with `EmptySource` if there is no word, and with
    /// `NoPangramCandidates` if there are words but no candidate.
    pub fn load(text: &str) -> (r: Result<Dictionary, DictionaryError>)
        ensures
            match r {
                Ok(d) => {
                    &&& d.words() == usable_words(tokens(text@))
                    &&& d.pangrams() == pangrams_among(d.words())
                    &&& !d.pangrams().is_empty()
                },
                Err(DictionaryError::EmptySource) => usable_words(tokens(text@)).is_empty(),
                Err(DictionaryError::NoPangramCandidates) => {
                    &&& !usable_words(tokens(text@)).is_empty()
                    &&& pangrams_among(usable_words(tokens(text@))).is_empty()
                },
            },
    {
        let chars = chars_of(text);
        let list = split_words(&chars);
        Dictionary::from_words(&list)
    }

    /// Whether `word` is in the dictionary, whatever its case.
    pub fn contains(&self, word: &str) -> (r: bool)
        ensures
            r == self.words().contains(lowercase(word@)),
    {
        proof {
            use_type_invariant(self);
        }
        let key = normalize(word);
        find_word(&self.all_valid_words, key.as_str())
    }

    /// The playable words, in lower case and in alphabetical order, each once.
    pub fn all_valid_words(&self) -> (list: &Vec<String>)
        ensures
            texts(list@).to_set() == self.words(),
            is_alphabetical(texts(list@)),
            forall|i: int| 0 <= i < list@.len() ==> is_stored_word(#[trigger] list@[i]@),
    {
        proof {
            use_type_invariant(self);
            assert forall|i: int| 0 <= i < self.all_valid_words@.len() implies is_stored_word(
                #[trigger] self.all_valid_words@[i]@,
            ) by {
                assert(texts(self.all_valid_words@)[i] == self.all_valid_words@[i]@);
                assert(self.words().contains(texts(self.all_valid_words@)[i]));
            }
        }
        &self.all_valid_words
    }

    /// The words that a puzzle can be drawn from: the pangrams among the
    /// playable words, in alphabetical order, each once. There is at least
    /// one.
    pub fn pangram_candidates(&self) -> (list: &Vec<String>)
        ensures
            texts(list@).to_set() == self.pangrams(),
            self.pangrams() == pangrams_among(self.words()),
            is_alphabetical(texts(list@)),
            list@.len() > 0,
            forall|i: int|
                0 <= i < list@.len() ==> is_stored_word(#[trigger] list@[i]@) && is_pangram(
                    list@[i]@,
                ),
    {
        proof {
            use_type_invariant(self);
            assert forall|i: int| 0 <= i < self.pangram_candidates@.len() implies is_stored_word(
                #[trigger] self.pangram_candidates@[i]@,
            ) && is_pangram(self.pangram_candidates@[i]@) by {
                let w = texts(self.pangram_candidates@)[i];
                assert(w == self.pangram_candidates@[i]@);
                assert(self.pangrams().contains(w));
                assert(self.words().contains(w));
            }
        }
        &self.pangram_candidates
    }
}

/// Builds the dictionary of a text of words separated by whitespace; see
/// [`Dictionary::load`].
pub fn new_dictionary(raw_text: &str) -> (r: Result<Dictionary, DictionaryError>)
    ensures
        match r {
            Ok(d) => {
                &&& d.words() == usable_words(tokens(raw_text@))
                &&& d.pangrams() == pangrams_among(d.words())
                &&& !d.pangrams().is_empty()
            },
            Err(DictionaryError::EmptySource) => usable_words(tokens(raw_text@)).is_empty(),
            Err(DictionaryError::NoPangramCandidates) => {
                &&& !usable_words(tokens(raw_text@)).is_empty()
                &&& pangrams_among(usable_words(tokens(raw_text@))).is_empty()
            },
        },
{
    Dictionary::load(raw_text)
}

} // verus!
