//! Sets of letters, packed into the low 26 bits of a `u32`.
//!
//! A [`LetterSet`] stands for a set of upper-case ASCII letters: its view.
//! Bit 0 is `A`, bit 25 is `Z`, and no other bit is ever set.

use vstd::prelude::*;
use crate::letters::{
    all_letters, alphabet_index, chars_of, first_letters, is_letter, is_letter_char, is_upper,
    lemma_first_letters, lemma_letters_of_ignores_case, lemma_letters_of_ignores_order,
    lemma_letters_of_push, letter_at, letter_index, letters_of, to_upper, uppercase, uses_letter,
};

verus! {

/// Why a text has no letter set.
#[derive(Clone, Copy, Debug, PartialEq, Eq, Structural)]
pub enum LetterSetError {
    /// The text holds a character that is not an ASCII letter.
    InvalidCharacter,
}

/// A set of letters. Equal sets are equal values, and the other way round.
#[derive(Clone, Copy, Debug, PartialEq, Eq, Structural)]
pub struct LetterSet {
    bits: u32,
}

/// Whether bit `j` of `bits` is set.
spec fn bit(bits: u32, j: u32) -> bool {
    (bits >> j) & 1 == 1
}

proof fn lemma_bit_of_zero(j: u32)
    by (bit_vector)
    requires
        j < 32,
    ensures
        !bit(0u32, j),
{
}

proof fn lemma_bit_of_or(a: u32, i: u32, j: u32)
    by (bit_vector)
    requires
        i < 32,
        j < 32,
    ensures
        bit(a | (1u32 << i), j) == (bit(a, j) || i == j),
{
}

proof fn lemma_or_keeps_bound(a: u32, i: u32)
    by (bit_vector)
    requires
        a < 0x400_0000u32,
        i < 26,
    ensures
        (a | (1u32 << i)) < 0x400_0000u32,
{
}

proof fn lemma_bit_of_difference(a: u32, b: u32, j: u32)
    by (bit_vector)
    requires
        j < 32,
    ensures
        bit(a & !b, j) == (bit(a, j) && !bit(b, j)),
{
}

proof fn lemma_bit_of_and(a: u32, b: u32, j: u32)
    by (bit_vector)
    requires
        j < 32,
    ensures
        bit(a & b, j) == (bit(a, j) && bit(b, j)),
{
}

proof fn lemma_bound_keeps(a: u32, b: u32)
    by (bit_vector)
    requires
        a < 0x400_0000u32,
    ensures
        (a & b) < 0x400_0000u32,
{
}

/// A number below 2^26 that is not zero has one of its low 26 bits set.
proof fn lemma_some_bit(x: u32)
    by (bit_vector)
    requires
        x < 0x400_0000u32,
        x != 0,
    ensures
        bit(x, 0) || bit(x, 1) || bit(x, 2) || bit(x, 3) || bit(x, 4) || bit(x, 5) || bit(x, 6)
            || bit(x, 7) || bit(x, 8) || bit(x, 9) || bit(x, 10) || bit(x, 11) || bit(x, 12)
            || bit(x, 13) || bit(x, 14) || bit(x, 15) || bit(x, 16) || bit(x, 17) || bit(x, 18)
            || bit(x, 19) || bit(x, 20) || bit(x, 21) || bit(x, 22) || bit(x, 23) || bit(x, 24)
            || bit(x, 25),
{
}

/// A number below 2^26 that is not zero has a bit set at some position below 26.
proof fn lemma_witness_bit(x: u32) -> (j: u32)
    requires
        x < 0x400_0000u32,
        x != 0,
    ensures
        j < 26,
        bit(x, j),
{
    lemma_some_bit(x);
    if bit(x, 0) { 0 } else if bit(x, 1) { 1 } else if bit(x, 2) { 2 } else if bit(x, 3) { 3 }
    else if bit(x, 4) { 4 } else if bit(x, 5) { 5 } else if bit(x, 6) { 6 } else if bit(x, 7) { 7 }
    else if bit(x, 8) { 8 } else if bit(x, 9) { 9 } else if bit(x, 10) { 10 }
    else if bit(x, 11) { 11 } else if bit(x, 12) { 12 } else if bit(x, 13) { 13 }
    else if bit(x, 14) { 14 } else if bit(x, 15) { 15 } else if bit(x, 16) { 16 }
    else if bit(x, 17) { 17 } else if bit(x, 18) { 18 } else if bit(x, 19) { 19 }
    else if bit(x, 20) { 20 } else if bit(x, 21) { 21 } else if bit(x, 22) { 22 }
    else if bit(x, 23) { 23 } else if bit(x, 24) { 24 } else { 25 }
}

/// Two numbers below 2^26 that differ, differ in one of their low 26 bits.
proof fn lemma_differing_bit(a: u32, b: u32) -> (j: u32)
    requires
        a < 0x400_0000u32,
        b < 0x400_0000u32,
        a != b,
    ensures
        j < 26,
        bit(a, j) != bit(b, j),
{
    if a & !b != 0 {
        lemma_bound_keeps(a, !b);
        let j = lemma_witness_bit(a & !b);
        lemma_bit_of_difference(a, b, j);
        j
    } else {
        assert(b & !a != 0) by (bit_vector)
            requires
                a != b,
                a & !b == 0,
        ;
        lemma_bound_keeps(b, !a);
        let j = lemma_witness_bit(b & !a);
        lemma_bit_of_difference(b, a, j);
        j
    }
}

impl View for LetterSet {
    type V = Set<char>;

    /// The letters in the set, in upper case.
    closed spec fn view(&self) -> Set<char> {
        Set::new(|u: char| is_upper(u) && bit(self.bits, letter_index(u) as u32))
    }
}

impl LetterSet {
    /// Only the bits of the 26 letters are used.
    #[verifier::type_invariant]
    pub closed spec fn wf(self) -> bool {
        self.bits < 0x400_0000u32
    }

    /// The letters of the set before position `n` of the alphabet.
    spec fn letters_before(self, n: int) -> Set<char> {
        self@.intersect(first_letters(n))
    }

    /// A letter set holds upper-case letters only, so it is finite and has at
    /// most 26 members.
    pub proof fn lemma_view_bounded(self)
        ensures
            self@.finite(),
            self@.len() <= 26,
            forall|u: char| self@.contains(u) ==> is_upper(u),
    {
        lemma_first_letters(26);
        assert(self@.subset_of(first_letters(26)));
        vstd::set_lib::lemma_len_subset(self@, first_letters(26));
    }

    /// Two well-formed letter sets with the same members are the same value.
    pub proof fn lemma_view_injective(self, other: LetterSet)
        requires
            self.wf(),
            other.wf(),
            self@ == other@,
        ensures
            self == other,
    {
        if self.bits != other.bits {
            let j = lemma_differing_bit(self.bits, other.bits);
            let u = letter_at(j as int);
            assert(is_upper(u) && letter_index(u) == j);
            assert(self@.contains(u) == bit(self.bits, j));
            assert(other@.contains(u) == bit(other.bits, j));
        }
    }

    /// The set without any letter.
    pub fn empty() -> (s: LetterSet)
        ensures
            s@ == Set::<char>::empty(),
            s.wf(),
    {
        let s = LetterSet { bits: 0 };
        proof {
            assert forall|u: char| !s@.contains(u) by {
                if is_upper(u) {
                    lemma_bit_of_zero(letter_index(u) as u32);
                }
            }
            assert(s@ =~= Set::<char>::empty());
        }
        s
    }

    /// The set with the letter `c` added, whatever the case of `c`.
    pub(crate) fn with_letter(self, c: char) -> (s: LetterSet)
        requires
            is_letter(c),
        ensures
            s@ == self@.insert(to_upper(c)),
            s.wf(),
    {
        proof {
            use_type_invariant(self);
        }
        let i: u32 = alphabet_index(c);
        proof {
            lemma_or_keeps_bound(self.bits, i);
        }
        let s = LetterSet { bits: self.bits | (1u32 << i) };
        proof {
            assert forall|u: char| s@.contains(u) == self@.insert(to_upper(c)).contains(u) by {
                if is_upper(u) {
                    lemma_bit_of_or(self.bits, i, letter_index(u) as u32);
                }
            }
            assert(s@ =~= self@.insert(to_upper(c)));
        }
        s
    }

    /// Whether the letter `c` is in the set, whatever the case of `c`.
    pub fn contains(self, c: char) -> (r: bool)
        ensures
            r == (is_letter(c) && self@.contains(to_upper(c))),
    {
        if !is_letter_char(c) {
            return false;
        }
        let i: u32 = alphabet_index(c);
        (self.bits >> i) & 1 == 1
    }

    /// The letters of `word`. Fails if `word` holds anything but ASCII letters.
    pub fn encode_chars(word: &Vec<char>) -> (r: Result<LetterSet, LetterSetError>)
        ensures
            all_letters(word@) <==> r is Ok,
            r matches Ok(s) ==> s@ == letters_of(word@) && s.wf(),
    {
        let mut set = LetterSet::empty();
        let mut i: usize = 0;
        proof {
            assert(letters_of(word@.take(0)) =~= Set::<char>::empty());
        }
        while i < word.len()
            invariant
                i <= word.len(),
                forall|k: int| 0 <= k < i ==> is_letter(#[trigger] word@[k]),
                set@ == letters_of(word@.take(i as int)),
            decreases word.len() - i,
        {
            let c = word[i];
            if !is_letter_char(c) {
                return Err(LetterSetError::InvalidCharacter);
            }
            proof {
                lemma_letters_of_push(word@.take(i as int), c);
                assert(word@.take(i as int).push(c) =~= word@.take(i + 1));
            }
            set = set.with_letter(c);
            i += 1;
        }
        proof {
            assert(word@.take(i as int) =~= word@);
            use_type_invariant(set);
        }
        Ok(set)
    }

    /// The letters of `text`: bit *i* of the result is set exactly when the
    /// letter at position *i* of the alphabet occurs in `text`, in either
    /// case. Fails if `text` holds anything but ASCII letters.
    pub fn encode(text: &str) -> (r: Result<LetterSet, LetterSetError>)
        ensures
            all_letters(text@) <==> r is Ok,
            r matches Ok(s) ==> s@ == letters_of(text@) && s.wf(),
    {
        let chars = chars_of(text);
        LetterSet::encode_chars(&chars)
    }

    /// The number of letters in the set.
    pub fn count(self) -> (n: u8)
        ensures
            n == self@.len(),
            n <= 26,
    {
        let mut n: u8 = 0;
        let mut i: u32 = 0;
        proof {
            lemma_first_letters(0);
            assert(self.letters_before(0) =~= Set::<char>::empty());
        }
        while i < 26
            invariant
                i <= 26,
                n <= i,
                self.letters_before(i as int).finite(),
                n == self.letters_before(i as int).len(),
            decreases 26 - i,
        {
            proof {
                let u = letter_at(i as int);
                assert(is_upper(u) && letter_index(u) == i);
                if bit(self.bits, i) {
                    assert(self.letters_before(i + 1) =~= self.letters_before(i as int).insert(u));
                } else {
                    assert(self.letters_before(i + 1) =~= self.letters_before(i as int));
                }
            }
            if (self.bits >> i) & 1 == 1 {
                n += 1;
            }
            i += 1;
        }
        proof {
            assert(self.letters_before(26) =~= self@);
        }
        n
    }

    /// The letters of the set in ascending alphabetical order, each once and
    /// in upper case.
    pub fn decode_sorted(self) -> (letters: Vec<char>)
        ensures
            is_ascending(letters@),
            letters@.to_set() == self@,
            letters@.len() == self@.len(),
    {
        let mut letters: Vec<char> = Vec::new();
        let mut i: u32 = 0;
        proof {
            lemma_first_letters(0);
            assert(self.letters_before(0) =~= Set::<char>::empty());
            assert(letters@.to_set() =~= Set::<char>::empty());
        }
        while i < 26
            invariant
                i <= 26,
                is_ascending(letters@),
                forall|k: int|
                    0 <= k < letters@.len() ==> is_upper(#[trigger] letters@[k]) && letter_index(
                        letters@[k],
                    ) < i,
                letters@.to_set() == self.letters_before(i as int),
                self.letters_before(i as int).finite(),
                letters@.len() == self.letters_before(i as int).len(),
            decreases 26 - i,
        {
            let ghost before = letters@;
            proof {
                let u = letter_at(i as int);
                assert(is_upper(u) && letter_index(u) == i);
                if bit(self.bits, i) {
                    assert(self.letters_before(i + 1) =~= self.letters_before(i as int).insert(u));
                    assert(!self.letters_before(i as int).contains(u));
                    before.lemma_push_to_set_commute(u);
                } else {
                    assert(self.letters_before(i + 1) =~= self.letters_before(i as int));
                }
            }
            if (self.bits >> i) & 1 == 1 {
                letters.push((('A' as u32 + i) as u8) as char);
            }
            i += 1;
        }
        proof {
            assert(self.letters_before(26) =~= self@);
        }
        letters
    }

    /// Whether every letter of this set is also in `other`.
    pub fn is_subset_of(self, other: LetterSet) -> (r: bool)
        ensures
            r == self@.subset_of(other@),
    {
        proof {
            use_type_invariant(self);
        }
        let rest: u32 = self.bits & !other.bits;
        proof {
            if rest == 0 {
                assert forall|u: char| self@.contains(u) implies other@.contains(u) by {
                    lemma_bit_of_difference(self.bits, other.bits, letter_index(u) as u32);
                    lemma_bit_of_zero(letter_index(u) as u32);
                }
            } else {
                lemma_bound_keeps(self.bits, !other.bits);
                let j = lemma_witness_bit(rest);
                lemma_bit_of_difference(self.bits, other.bits, j);
                let u = letter_at(j as int);
                assert(is_upper(u) && letter_index(u) == j);
                assert(self@.contains(u) && !other@.contains(u));
            }
        }
        rest == 0
    }

    /// Whether this set and `other` have a letter in common.
    pub fn intersects(self, other: LetterSet) -> (r: bool)
        ensures
            r == !self@.disjoint(other@),
    {
        proof {
            use_type_invariant(self);
        }
        let common: u32 = self.bits & other.bits;
        proof {
            if common == 0 {
                assert forall|u: char| !(self@.contains(u) && other@.contains(u)) by {
                    if is_upper(u) {
                        lemma_bit_of_and(self.bits, other.bits, letter_index(u) as u32);
                        lemma_bit_of_zero(letter_index(u) as u32);
                    }
                }
            } else {
                lemma_bound_keeps(self.bits, other.bits);
                let j = lemma_witness_bit(common);
                lemma_bit_of_and(self.bits, other.bits, j);
                let u = letter_at(j as int);
                assert(is_upper(u) && letter_index(u) == j);
                assert(self@.contains(u) && other@.contains(u));
            }
        }
        common != 0
    }
}

/// Whether the characters of `s` strictly ascend, so that none occurs twice.
pub open spec fn is_ascending(s: Seq<char>) -> bool {
    forall|i: int, j: int| 0 <= i < j < s.len() ==> s[i] < s[j]
}

/// Letters that strictly ascend are all different.
pub proof fn lemma_ascending_is_distinct(s: Seq<char>)
    requires
        is_ascending(s),
    ensures
        s.no_duplicates(),
{
    assert forall|i: int, j: int| 0 <= i < s.len() && 0 <= j < s.len() && i != j implies s[i]
        != s[j] by {
        if i < j {
            assert(s[i] < s[j]);
        } else {
            assert(s[j] < s[i]);
        }
    }
}

/// The letter set of a word does not depend on the order of its characters,
/// on their case, or on how often each occurs: two words that hold the same
/// characters, case apart, have the same letter set, of at most 26 letters.
///
/// `x` and `y` stand for what [`LetterSet::encode`] returns for `a` and `b`.
pub proof fn lemma_encoding_ignores_order_and_case(
    a: Seq<char>,
    b: Seq<char>,
    x: LetterSet,
    y: LetterSet,
)
    requires
        x.wf(),
        y.wf(),
        x@ == letters_of(a),
        y@ == letters_of(b),
        forall|c: char| uppercase(a).contains(c) <==> uppercase(b).contains(c),
    ensures
        x == y,
        x@.len() <= 26,
{
    lemma_letters_of_ignores_case(a);
    lemma_letters_of_ignores_case(b);
    lemma_letters_of_ignores_order(uppercase(a), uppercase(b));
    x.lemma_view_injective(y);
    x.lemma_view_bounded();
}

/// Decoding the letter set of a word lists the letters that the word uses,
/// in upper case, in alphabetical order and each once.
///
/// `x` stands for what [`LetterSet::encode`] returns for `word`, and
/// `letters` for what [`LetterSet::decode_sorted`] returns for `x`.
pub proof fn lemma_decoding_lists_letters_of_word(word: Seq<char>, x: LetterSet, letters: Seq<char>)
    requires
        x@ == letters_of(word),
        is_ascending(letters),
        letters.to_set() == x@,
    ensures
        letters.no_duplicates(),
        forall|u: char| letters.contains(u) <==> uses_letter(word, u),
        letters.len() == letters_of(word).len(),
{
    lemma_ascending_is_distinct(letters);
    letters.unique_seq_to_set();
    assert forall|u: char| letters.contains(u) <==> uses_letter(word, u) by {
        assert(letters.contains(u) == letters.to_set().contains(u));
        assert(letters_of(word).contains(u) == uses_letter(word, u));
    }
}

/// The letter set of a pangram has seven letters, and decoding it gives
/// seven characters.
///
/// `x` stands for what [`LetterSet::encode`] returns for `word`, and
/// `letters` for what [`LetterSet::decode_sorted`] returns for `x`.
pub proof fn lemma_pangram_round_trip(word: Seq<char>, x: LetterSet, letters: Seq<char>)
    requires
        letters_of(word).len() == 7,
        x@ == letters_of(word),
        is_ascending(letters),
        letters.to_set() == x@,
    ensures
        x@.len() == 7,
        letters.len() == 7,
{
    lemma_decoding_lists_letters_of_word(word, x, letters);
}

} // verus!
