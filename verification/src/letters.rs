//! Characters and words: the ASCII letters, their case, and the set of
//! letters that a word uses.
//!
//! Words are modelled as `Seq<char>`. Only the 52 ASCII letters count as
//! letters; every other character keeps its value under case mapping and
//! contributes nothing to the letters of a word.

use vstd::prelude::*;

verus! {

/// Whether `c` is one of the 26 upper-case ASCII letters.
pub open spec fn is_upper(c: char) -> bool {
    'A' <= c && c <= 'Z'
}

/// Whether `c` is one of the 26 lower-case ASCII letters.
pub open spec fn is_lower(c: char) -> bool {
    'a' <= c && c <= 'z'
}

/// Whether `c` is one of the 52 ASCII letters.
pub open spec fn is_letter(c: char) -> bool {
    is_upper(c) || is_lower(c)
}

/// The upper-case form of an ASCII letter; any other character unchanged.
pub open spec fn to_upper(c: char) -> char {
    if is_lower(c) {
        ((c as u8) - 32) as char
    } else {
        c
    }
}

/// The lower-case form of an ASCII letter; any other character unchanged.
pub open spec fn to_lower(c: char) -> char {
    if is_upper(c) {
        ((c as u8) + 32) as char
    } else {
        c
    }
}

/// Position of a letter in the alphabet, 0 for `A` or `a` up to 25 for `Z` or `z`.
pub open spec fn letter_index(c: char) -> int
    recommends
        is_letter(c),
{
    to_upper(c) as int - 'A' as int
}

/// The upper-case letter at position `i` of the alphabet.
pub open spec fn letter_at(i: int) -> char
    recommends
        0 <= i < 26,
{
    (('A' as int + i) as u8) as char
}

/// Whether every character of `s` is an ASCII letter.
pub open spec fn all_letters(s: Seq<char>) -> bool {
    forall|i: int| 0 <= i < s.len() ==> is_letter(#[trigger] s[i])
}

/// `s` with every ASCII letter in lower case.
pub open spec fn lowercase(s: Seq<char>) -> Seq<char> {
    s.map_values(|c: char| to_lower(c))
}

/// `s` with every ASCII letter in upper case.
pub open spec fn uppercase(s: Seq<char>) -> Seq<char> {
    s.map_values(|c: char| to_upper(c))
}

/// Whether the upper-case letter `u` occurs in `s`, in either case.
pub open spec fn uses_letter(s: Seq<char>, u: char) -> bool {
    is_upper(u) && exists|i: int| 0 <= i < s.len() && #[trigger] to_upper(s[i]) == u
}

/// The letters that `s` uses, each once and in upper case. How often and
/// where a letter occurs, and in which case, makes no difference.
pub open spec fn letters_of(s: Seq<char>) -> Set<char> {
    Set::new(|u: char| uses_letter(s, u))
}

/// The upper-case letters before position `n` of the alphabet.
pub open spec fn first_letters(n: int) -> Set<char> {
    Set::new(|u: char| is_upper(u) && letter_index(u) < n)
}

/// There are exactly `n` letters before position `n`.
pub proof fn lemma_first_letters(n: int)
    requires
        0 <= n <= 26,
    ensures
        first_letters(n).finite(),
        first_letters(n).len() == n,
    decreases n,
{
    if n == 0 {
        assert(first_letters(0) =~= Set::<char>::empty());
    } else {
        lemma_first_letters(n - 1);
        assert(first_letters(n) =~= first_letters(n - 1).insert(letter_at(n - 1)));
    }
}

/// A word uses finitely many letters, at most 26, all of them upper case.
pub proof fn lemma_letters_of_bounded(s: Seq<char>)
    ensures
        letters_of(s).finite(),
        letters_of(s).len() <= 26,
        forall|u: char| letters_of(s).contains(u) ==> is_upper(u),
{
    lemma_first_letters(26);
    assert(letters_of(s).subset_of(first_letters(26)));
    vstd::set_lib::lemma_len_subset(letters_of(s), first_letters(26));
}

/// Changing the case of a word's characters does not change its letters.
pub proof fn lemma_letters_of_ignores_case(s: Seq<char>)
    ensures
        letters_of(lowercase(s)) == letters_of(s),
        letters_of(uppercase(s)) == letters_of(s),
{
    let lo = lowercase(s);
    let up = uppercase(s);
    assert forall|u: char| uses_letter(lo, u) == uses_letter(s, u) by {
        if uses_letter(s, u) {
            let i = choose|i: int| 0 <= i < s.len() && #[trigger] to_upper(s[i]) == u;
            assert(to_upper(lo[i]) == u);
        }
        if uses_letter(lo, u) {
            let i = choose|i: int| 0 <= i < lo.len() && #[trigger] to_upper(lo[i]) == u;
            assert(to_upper(s[i]) == u);
        }
    }
    assert forall|u: char| uses_letter(up, u) == uses_letter(s, u) by {
        if uses_letter(s, u) {
            let i = choose|i: int| 0 <= i < s.len() && #[trigger] to_upper(s[i]) == u;
            assert(to_upper(up[i]) == u);
        }
        if uses_letter(up, u) {
            let i = choose|i: int| 0 <= i < up.len() && #[trigger] to_upper(up[i]) == u;
            assert(to_upper(s[i]) == u);
        }
    }
    assert(letters_of(lo) =~= letters_of(s));
    assert(letters_of(up) =~= letters_of(s));
}

/// Two words with the same characters, in whatever order and however often,
/// use the same letters.
pub proof fn lemma_letters_of_ignores_order(a: Seq<char>, b: Seq<char>)
    requires
        forall|c: char| a.contains(c) <==> b.contains(c),
    ensures
        letters_of(a) == letters_of(b),
{
    assert forall|u: char| uses_letter(a, u) == uses_letter(b, u) by {
        if uses_letter(a, u) {
            let i = choose|i: int| 0 <= i < a.len() && #[trigger] to_upper(a[i]) == u;
            assert(a.contains(a[i]));
            let j = choose|j: int| 0 <= j < b.len() && b[j] == a[i];
            assert(to_upper(b[j]) == u);
        }
        if uses_letter(b, u) {
            let i = choose|i: int| 0 <= i < b.len() && #[trigger] to_upper(b[i]) == u;
            assert(b.contains(b[i]));
            let j = choose|j: int| 0 <= j < a.len() && a[j] == b[i];
            assert(to_upper(a[j]) == u);
        }
    }
    assert(letters_of(a) =~= letters_of(b));
}

/// Lower case is a normal form: mapping twice is mapping once, and a word of
/// letters stays one.
pub proof fn lemma_lowercase_of_word(s: Seq<char>)
    ensures
        lowercase(lowercase(s)) == lowercase(s),
        lowercase(s).len() == s.len(),
        all_letters(s) <==> all_letters(lowercase(s)),
{
    let lo = lowercase(s);
    assert(lowercase(lo) =~= lo);
    if all_letters(s) {
        assert forall|i: int| 0 <= i < lo.len() implies is_letter(#[trigger] lo[i]) by {
            assert(is_letter(s[i]));
        }
    }
    if all_letters(lo) {
        assert forall|i: int| 0 <= i < s.len() implies is_letter(#[trigger] s[i]) by {
            assert(is_letter(lo[i]));
        }
    }
}

/// Adding a character to a word adds its letter, if it is one.
pub proof fn lemma_letters_of_push(s: Seq<char>, c: char)
    ensures
        is_letter(c) ==> letters_of(s.push(c)) == letters_of(s).insert(to_upper(c)),
        !is_letter(c) ==> letters_of(s.push(c)) == letters_of(s),
{
    let t = s.push(c);
    assert forall|u: char|
        uses_letter(t, u) == (uses_letter(s, u) || (is_letter(c) && to_upper(c) == u)) by {
        if uses_letter(s, u) {
            let i = choose|i: int| 0 <= i < s.len() && #[trigger] to_upper(s[i]) == u;
            assert(to_upper(t[i]) == u);
        }
        if is_letter(c) && to_upper(c) == u {
            assert(to_upper(t[s.len() as int]) == u);
        }
        if uses_letter(t, u) {
            let i = choose|i: int| 0 <= i < t.len() && #[trigger] to_upper(t[i]) == u;
            if i < s.len() {
                assert(to_upper(s[i]) == u);
            }
        }
    }
    if is_letter(c) {
        assert(letters_of(t) =~= letters_of(s).insert(to_upper(c)));
    } else {
        assert(letters_of(t) =~= letters_of(s));
    }
}

/// Tests whether `c` is an ASCII letter.
pub fn is_letter_char(c: char) -> (r: bool)
    ensures
        r == is_letter(c),
{
    (c >= 'a' && c <= 'z') || (c >= 'A' && c <= 'Z')
}

/// Maps an ASCII letter to lower case and leaves any other character alone.
pub fn lower_char(c: char) -> (r: char)
    ensures
        r == to_lower(c),
{
    if c >= 'A' && c <= 'Z' {
        ((c as u8) + 32) as char
    } else {
        c
    }
}

/// Maps an ASCII letter to upper case and leaves any other character alone.
pub fn upper_char(c: char) -> (r: char)
    ensures
        r == to_upper(c),
{
    if c >= 'a' && c <= 'z' {
        ((c as u8) - 32) as char
    } else {
        c
    }
}

/// Position of the letter `c` in the alphabet, whatever its case.
pub fn alphabet_index(c: char) -> (i: u32)
    requires
        is_letter(c),
    ensures
        i == letter_index(c),
        i < 26,
{
    if c >= 'A' && c <= 'Z' {
        (c as u32) - ('A' as u32)
    } else {
        (c as u32) - ('a' as u32)
    }
}

/// The characters of `text`, one by one.
pub fn chars_of(text: &str) -> (r: Vec<char>)
    ensures
        r@ == text@,
{
    broadcast use vstd::string::axiom_spec_iter;

    let mut v: Vec<char> = Vec::new();
    for c in it: text.chars()
        invariant
            it.seq() == text@,
            v@ == it.seq().take(it.index()),
    {
        v.push(c);
    }
    assert(v@ == text@);
    v
}

/// Tests whether `word` consists of ASCII letters only.
pub fn is_alphabetic(word: &Vec<char>) -> (r: bool)
    ensures
        r == all_letters(word@),
{
    let mut i: usize = 0;
    while i < word.len()
        invariant
            i <= word.len(),
            forall|k: int| 0 <= k < i ==> is_letter(#[trigger] word@[k]),
        decreases word.len() - i,
    {
        if !is_letter_char(word[i]) {
            return false;
        }
        i += 1;
    }
    true
}

} // verus!
