//! What this crate takes on trust from code it does not verify: one method
//! of `String`, and the two sampling functions of `rand` that draw a puzzle.

use rand::rngs::StdRng;
use rand::seq::SliceRandom;
use vstd::prelude::*;

verus! {

/// `String::push` appends the one character `c` to the end of `s`.
pub assume_specification[ String::push ](s: &mut String, c: char)
    ensures
        final(s)@ == old(s)@.push(c),
;

/// The standard generator of `rand`. Its state is opaque here.
#[verifier::external_type_specification]
#[verifier::external_body]
pub struct ExStdRng(StdRng);

/// `SliceRandom::choose` on the slice of `words`: no word of an empty list,
/// else a reference to the word at some index of it that `rng` picks.
#[verifier::external_body]
pub(crate) fn choose_word<'a>(words: &'a Vec<String>, rng: &mut StdRng) -> (picked: Option<
    &'a String,
>)
    ensures
        words@.len() == 0 ==> picked is None,
        words@.len() > 0 ==> picked is Some,
        picked matches Some(w) ==> exists|i: int| 0 <= i < words@.len() && words@[i] == *w,
{
    words.choose(rng)
}

/// `SliceRandom::shuffle` on the slice of `letters`: swaps elements in
/// place, so the same letters are there afterwards, each as often as before,
/// in an order that `rng` picks.
#[verifier::external_body]
pub(crate) fn shuffle_letters(letters: &mut Vec<char>, rng: &mut StdRng)
    ensures
        final(letters)@.to_multiset() == old(letters)@.to_multiset(),
{
    letters.shuffle(rng);
}

} // verus!
