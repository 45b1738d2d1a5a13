//! Words in a text: splitting at whitespace, the test that makes a word
//! playable, and its stored lower-case form.

use vstd::prelude::*;
use crate::letter_set::LetterSet;
use crate::letters::{
    all_letters, chars_of, is_alphabetic, letters_of, lower_char, lowercase, to_lower,
};

verus! {

/// Whether `c` separates words: the characters that Unicode classes as
/// `White_Space`.
pub open spec fn is_whitespace(c: char) -> bool {
    ||| c == ' '
    ||| ('\u{9}' <= c && c <= '\u{d}')
    ||| c == '\u{85}'
    ||| c == '\u{a0}'
    ||| c == '\u{1680}'
    ||| ('\u{2000}' <= c && c <= '\u{200a}')
    ||| c == '\u{2028}'
    ||| c == '\u{2029}'
    ||| c == '\u{202f}'
    ||| c == '\u{205f}'
    ||| c == '\u{3000}'
}

/// How many characters at the start of `s` come before its first whitespace.
pub open spec fn word_len(s: Seq<char>) -> nat
    decreases s.len(),
{
    if s.len() == 0 || is_whitespace(s[0]) {
        0
    } else {
        1 + word_len(s.drop_first())
    }
}

/// The words of `s`: its longest runs of characters that are not whitespace,
/// from left to right. None of them is empty.
pub open spec fn tokens(s: Seq<char>) -> Seq<Seq<char>>
    decreases s.len(),
{
    if s.len() == 0 {
        Seq::empty()
    } else if is_whitespace(s[0]) {
        tokens(s.drop_first())
    } else {
        proof {
            lemma_word_len_bounds(s);
        }
        seq![s.take(word_len(s) as int)] + tokens(s.skip(word_len(s) as int))
    }
}

/// A word is no longer than the text it starts, and not empty where the
/// text starts with a character that is not whitespace.
pub proof fn lemma_word_len_bounds(s: Seq<char>)
    ensures
        word_len(s) <= s.len(),
        s.len() > 0 && !is_whitespace(s[0]) ==> word_len(s) > 0,
    decreases s.len(),
{
    if s.len() > 0 && !is_whitespace(s[0]) {
        lemma_word_len_bounds(s.drop_first());
    }
}

/// Every word of a text has a character, and none of its characters is
/// whitespace.
pub proof fn lemma_tokens_are_words(s: Seq<char>, i: int)
    requires
        0 <= i < tokens(s).len(),
    ensures
        tokens(s)[i].len() > 0,
        forall|k: int| 0 <= k < tokens(s)[i].len() ==> !is_whitespace(#[trigger] tokens(s)[i][k]),
    decreases s.len(),
{
    if s.len() == 0 {
    } else if is_whitespace(s[0]) {
        lemma_tokens_are_words(s.drop_first(), i);
    } else {
        lemma_word_len_bounds(s);
        let n = word_len(s) as int;
        if i == 0 {
            lemma_word_has_no_whitespace(s);
        } else {
            lemma_tokens_are_words(s.skip(n), i - 1);
        }
    }
}

/// No character of the word that starts a text is whitespace.
proof fn lemma_word_has_no_whitespace(s: Seq<char>)
    ensures
        forall|k: int| 0 <= k < word_len(s) ==> !is_whitespace(#[trigger] s[k]),
    decreases s.len(),
{
    if s.len() > 0 && !is_whitespace(s[0]) {
        lemma_word_len_bounds(s);
        lemma_word_has_no_whitespace(s.drop_first());
        assert forall|k: int| 0 <= k < word_len(s) implies !is_whitespace(#[trigger] s[k]) by {
            if k > 0 {
                assert(s[k] == s.drop_first()[k - 1]);
            }
        }
    }
}

/// Where the characters of `s` from `start` up to `end` are no whitespace
/// and the run ends there, the word that starts at `start` is that run.
proof fn lemma_word_len_of_run(s: Seq<char>, start: int, end: int)
    requires
        0 <= start <= end <= s.len(),
        forall|k: int| start <= k < end ==> !is_whitespace(#[trigger] s[k]),
        end == s.len() || is_whitespace(s[end]),
    ensures
        word_len(s.skip(start)) == end - start,
    decreases end - start,
{
    if start < end {
        lemma_word_len_of_run(s, start + 1, end);
        assert(s.skip(start).drop_first() =~= s.skip(start + 1));
    }
}

/// The playable words: at least four characters, all of them ASCII letters.
pub open spec fn is_usable(word: Seq<char>) -> bool {
    word.len() >= 4 && all_letters(word)
}

/// The pangrams of this puzzle: words that use exactly seven different letters.
pub open spec fn is_pangram(word: Seq<char>) -> bool {
    letters_of(word).len() == 7
}

/// The texts of a list of strings.
pub open spec fn texts(list: Seq<String>) -> Seq<Seq<char>> {
    list.map_values(|s: String| s@)
}

/// The texts of a list of character vectors.
pub open spec fn spellings(list: Seq<Vec<char>>) -> Seq<Seq<char>> {
    list.map_values(|w: Vec<char>| w@)
}

/// Tests whether `c` separates words.
pub fn is_whitespace_char(c: char) -> (r: bool)
    ensures
        r == is_whitespace(c),
{
    c == ' ' || (c >= '\u{9}' && c <= '\u{d}') || c == '\u{85}' || c == '\u{a0}' || c == '\u{1680}'
        || (c >= '\u{2000}' && c <= '\u{200a}') || c == '\u{2028}' || c == '\u{2029}' || c
        == '\u{202f}' || c == '\u{205f}' || c == '\u{3000}'
}

/// Splits `text` at whitespace into its words.
pub fn split_words(text: &Vec<char>) -> (words: Vec<Vec<char>>)
    ensures
        spellings(words@) == tokens(text@),
{
    let mut words: Vec<Vec<char>> = Vec::new();
    let mut i: usize = 0;
    proof {
        assert(text@.skip(0) =~= text@);
        assert(spellings(words@) + tokens(text@.skip(0)) =~= tokens(text@));
    }
    while i < text.len()
        invariant
            i <= text.len(),
            spellings(words@) + tokens(text@.skip(i as int)) == tokens(text@),
        decreases text.len() - i,
    {
        if is_whitespace_char(text[i]) {
            proof {
                assert(text@.skip(i as int).drop_first() =~= text@.skip(i + 1));
            }
            i += 1;
        } else {
            let start: usize = i;
            let mut word: Vec<char> = Vec::new();
            while i < text.len() && !is_whitespace_char(text[i])
                invariant
                    start <= i <= text.len(),
                    word@ == text@.subrange(start as int, i as int),
                    forall|k: int| start <= k < i ==> !is_whitespace(#[trigger] text@[k]),
                decreases text.len() - i,
            {
                word.push(text[i]);
                proof {
                    assert(word@ =~= text@.subrange(start as int, i + 1));
                }
                i += 1;
            }
            proof {
                let rest = text@.skip(start as int);
                lemma_word_len_of_run(text@, start as int, i as int);
                assert(rest.take(i - start) =~= word@);
                assert(rest.skip(i - start) =~= text@.skip(i as int));
                assert(spellings(words@.push(word)) =~= spellings(words@).push(word@));
                assert(spellings(words@).push(word@) + tokens(text@.skip(i as int)) =~= spellings(
                    words@,
                ) + tokens(rest));
            }
            words.push(word);
        }
    }
    proof {
        assert(text@.skip(i as int) =~= Seq::<char>::empty());
        assert(spellings(words@) + tokens(text@.skip(i as int)) =~= spellings(words@));
    }
    words
}

/// Tests whether `word` is playable.
pub fn is_usable_word(word: &Vec<char>) -> (r: bool)
    ensures
        r == is_usable(word@),
{
    word.len() >= 4 && is_alphabetic(word)
}

/// The string that holds `word` with its ASCII letters in lower case.
pub fn lowercase_string(word: &Vec<char>) -> (s: String)
    ensures
        s@ == lowercase(word@),
{
    let mut s = String::new();
    let mut i: usize = 0;
    while i < word.len()
        invariant
            i <= word.len(),
            s@ == lowercase(word@.take(i as int)),
        decreases word.len() - i,
    {
        s.push(lower_char(word[i]));
        proof {
            assert(lowercase(word@.take(i + 1)) =~= lowercase(word@.take(i as int)).push(
                to_lower(word@[i as int]),
            ));
        }
        i += 1;
    }
    proof {
        assert(word@.take(i as int) =~= word@);
    }
    s
}

/// Tests whether `word` is made of ASCII letters, seven different ones.
pub fn is_pangram_word(word: &str) -> (r: bool)
    ensures
        r == (all_letters(word@) && is_pangram(word@)),
{
    match LetterSet::encode(word) {
        Ok(set) => set.count() == 7,
        Err(_) => false,
    }
}

/// The stored form of `word`: its text with the ASCII letters in lower case.
pub fn normalize(word: &str) -> (s: String)
    ensures
        s@ == lowercase(word@),
{
    let chars = chars_of(word);
    lowercase_string(&chars)
}

/// Tests whether `list` holds a string with the text of `key`.
pub fn list_contains(list: &Vec<String>, key: &String) -> (r: bool)
    ensures
        r == texts(list@).contains(key@),
{
    let mut i: usize = 0;
    while i < list.len()
        invariant
            i <= list.len(),
            forall|k: int| 0 <= k < i ==> texts(list@)[k] != key@,
        decreases list.len() - i,
    {
        if list[i] == *key {
            assert(texts(list@)[i as int] == key@);
            return true;
        }
        i += 1;
    }
    false
}

} // verus!
