//! The puzzle of a game: seven letters in the order in which they are shown,
//! the first of which every accepted word must use.

use rand::rngs::StdRng;
use vstd::prelude::*;
use crate::dictionary::Dictionary;
use crate::letter_set::{lemma_ascending_is_distinct, LetterSet};
use crate::letters::{is_letter, is_upper, letters_of, to_upper, upper_char};
use crate::trusted::{choose_word, shuffle_letters};
use crate::words::texts;

verus! {

/// What the letters of a puzzle are: seven upper-case ASCII letters, all different.
pub open spec fn seven_distinct_letters(s: Seq<char>) -> bool {
    &&& s.len() == 7
    &&& s.no_duplicates()
    &&& forall|i: int| 0 <= i < s.len() ==> is_upper(#[trigger] s[i])
}

/// Reordering the letters of a puzzle gives the letters of a puzzle again,
/// with the same letters in it.
pub proof fn lemma_reordered_letters(before: Seq<char>, after: Seq<char>)
    requires
        seven_distinct_letters(before),
        before.to_multiset() == after.to_multiset(),
    ensures
        seven_distinct_letters(after),
        after.to_set() == before.to_set(),
{
    before.to_multiset_ensures();
    after.to_multiset_ensures();
    before.lemma_multiset_has_no_duplicates();
    after.lemma_multiset_has_no_duplicates_conv();
    assert forall|x: char| after.contains(x) == before.contains(x) by {
        assert(after.contains(x) == (after.to_multiset().count(x) > 0));
        assert(before.contains(x) == (before.to_multiset().count(x) > 0));
    }
    assert forall|i: int| 0 <= i < after.len() implies is_upper(#[trigger] after[i]) by {
        assert(after.contains(after[i]));
        let k = choose|k: int| 0 <= k < before.len() && before[k] == after[i];
        assert(is_upper(before[k]));
    }
}

/// The active puzzle. Made once, and not changed afterwards.
#[derive(Debug)]
pub struct PuzzleState {
    target_bits: LetterSet,
    target_letters: Vec<char>,
    required_letter: char,
    required_bit: LetterSet,
}

impl PuzzleState {
    /// The seven letters in the order in which they are shown.
    pub closed spec fn letters(&self) -> Seq<char> {
        self.target_letters@
    }

    /// The letters that a word may use.
    pub open spec fn target(&self) -> Set<char> {
        self.letters().to_set()
    }

    /// The letter that every accepted word must use: the first one shown.
    pub open spec fn required(&self) -> char {
        self.letters()[0]
    }

    #[verifier::type_invariant]
    spec fn inv(&self) -> bool {
        &&& seven_distinct_letters(self.target_letters@)
        &&& self.target_bits.wf()
        &&& self.target_bits@ == self.target_letters@.to_set()
        &&& self.required_letter == self.target_letters@[0]
        &&& self.required_bit.wf()
        &&& self.required_bit@ == set![self.required_letter]
    }

    /// The puzzle that shows `letters` in this order and requires the first
    /// of them; none unless `letters` are seven different upper-case ASCII
    /// letters.
    pub fn from_letters(letters: Vec<char>) -> (r: Option<PuzzleState>)
        ensures
            r is Some <==> seven_distinct_letters(letters@),
            r matches Some(p) ==> p.letters() == letters@,
    {
        if letters.len() != 7 {
            return None;
        }
        let mut set = LetterSet::empty();
        let mut i: usize = 0;
        while i < 7
            invariant
                i <= 7,
                letters@.len() == 7,
                set.wf(),
                set@ == letters@.take(i as int).to_set(),
                letters@.take(i as int).no_duplicates(),
                forall|k: int| 0 <= k < i ==> is_upper(#[trigger] letters@[k]),
            decreases 7 - i,
        {
            let c = letters[i];
            if !(c >= 'A' && c <= 'Z') {
                return None;
            }
            if set.contains(c) {
                proof {
                    let k = choose|k: int|
                        0 <= k < letters@.take(i as int).len() && letters@.take(i as int)[k] == c;
                    assert(letters@[k] == letters@[i as int]);
                }
                return None;
            }
            proof {
                let seen = letters@.take(i as int);
                let next = seen.push(c);
                assert(letters@.take(i + 1) =~= next);
                seen.lemma_push_to_set_commute(c);
                assert forall|a: int, b: int|
                    0 <= a < next.len() && 0 <= b < next.len() && a != b implies next[a]
                    != next[b] by {
                    if a < seen.len() {
                        assert(seen.contains(seen[a]));
                    }
                    if b < seen.len() {
                        assert(seen.contains(seen[b]));
                    }
                }
            }
            set = set.with_letter(c);
            i += 1;
        }
        proof {
            assert(letters@.take(7) =~= letters@);
        }
        let required: char = letters[0];
        let required_bit = LetterSet::empty().with_letter(required);
        Some(
            PuzzleState {
                target_bits: set,
                target_letters: letters,
                required_letter: required,
                required_bit,
            },
        )
    }

    /// Draws a puzzle from `dictionary`: picks one of its pangram candidates
    /// with `rng`, takes the seven letters of that word in alphabetical
    /// order, shuffles them with `rng`, and requires the letter that comes
    /// out first.
    ///
    /// What `rng` picks is not known here. Whatever it is, the letters of
    /// the puzzle are those of one of the candidates.
    pub fn generate(dictionary: &Dictionary, rng: &mut StdRng) -> (puzzle: PuzzleState)
        ensures
            seven_distinct_letters(puzzle.letters()),
            exists|word: Seq<char>| #[trigger]
                dictionary.pangrams().contains(word) && puzzle.target() == letters_of(word),
    {
        let candidates = dictionary.pangram_candidates();
        let selected: &String = choose_word(candidates, rng).unwrap();
        let ghost pick = choose|i: int| 0 <= i < candidates@.len() && candidates@[i] == *selected;
        let target_bits = LetterSet::encode(selected.as_str()).unwrap();
        let mut letters = target_bits.decode_sorted();
        let ghost sorted = letters@;
        proof {
            lemma_ascending_is_distinct(sorted);
            assert forall|k: int| 0 <= k < sorted.len() implies is_upper(#[trigger] sorted[k]) by {
                assert(sorted.to_set().contains(sorted[k]));
            }
        }
        shuffle_letters(&mut letters, rng);
        proof {
            lemma_reordered_letters(sorted, letters@);
        }
        let puzzle = PuzzleState::from_letters(letters).unwrap();
        proof {
            assert(texts(candidates@)[pick] == selected@);
            assert(dictionary.pangrams().contains(selected@));
        }
        puzzle
    }

    /// The letters that a word may use, as a set.
    pub fn target_bits(&self) -> (set: LetterSet)
        ensures
            set@ == self.target(),
            set@.len() == 7,
            set.wf(),
    {
        proof {
            use_type_invariant(self);
            self.target_letters@.unique_seq_to_set();
        }
        self.target_bits
    }

    /// The seven letters in the order in which they are shown.
    pub fn target_letters(&self) -> (letters: &Vec<char>)
        ensures
            letters@ == self.letters(),
            seven_distinct_letters(letters@),
    {
        proof {
            use_type_invariant(self);
        }
        &self.target_letters
    }

    /// The letter that every accepted word must use.
    pub fn required_letter(&self) -> (c: char)
        ensures
            c == self.required(),
            is_upper(c),
            self.target().contains(c),
    {
        proof {
            use_type_invariant(self);
            assert(self.target_letters@.contains(self.target_letters@[0]));
        }
        self.required_letter
    }

    /// The required letter as a set of one letter, which is one of the
    /// seven and so a proper subset of them.
    pub fn required_bit(&self) -> (set: LetterSet)
        ensures
            set@ == set![self.required()],
            set@.subset_of(self.target()),
            set@ != self.target(),
            set.wf(),
    {
        proof {
            use_type_invariant(self);
            assert(self.target_letters@.contains(self.target_letters@[0]));
            self.target_letters@.unique_seq_to_set();
            assert(set![self.required()].len() == 1);
        }
        self.required_bit
    }

    /// Whether `c` is one of the seven letters, in either case.
    pub fn has_letter(&self, c: char) -> (r: bool)
        ensures
            r == (is_letter(c) && self.target().contains(to_upper(c))),
    {
        proof {
            use_type_invariant(self);
        }
        self.target_bits.contains(c)
    }

    /// Whether `c` is the required letter, in either case.
    pub fn is_required(&self, c: char) -> (r: bool)
        ensures
            r == (to_upper(c) == self.required()),
    {
        proof {
            use_type_invariant(self);
        }
        upper_char(c) == self.required_letter
    }
}

/// Draws a puzzle from `dictionary` with `rng`; see [`PuzzleState::generate`].
pub fn new_puzzle(dictionary: &Dictionary, rng: &mut StdRng) -> (puzzle: PuzzleState)
    ensures
        seven_distinct_letters(puzzle.letters()),
        exists|word: Seq<char>| #[trigger]
            dictionary.pangrams().contains(word) && puzzle.target() == letters_of(word),
{
    PuzzleState::generate(dictionary, rng)
}

} // verus!
