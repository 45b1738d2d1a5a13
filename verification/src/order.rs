//! The alphabetical order of words, and word lists kept in that order
//! without repeats: sorting, merging and searching them.
//!
//! Words are compared character by character, by the characters' code
//! points, so that among lower-case ASCII words the order is that of a
//! dictionary.

use vstd::prelude::*;
use vstd::std_specs::iter::IteratorSpec;
use crate::words::texts;

verus! {

/// Whether `a` and `b` agree in their first `k` characters.
pub open spec fn agree_up_to(a: Seq<char>, b: Seq<char>, k: int) -> bool {
    &&& 0 <= k <= a.len()
    &&& k <= b.len()
    &&& forall|i: int| 0 <= i < k ==> a[i] == b[i]
}

/// Whether `a` comes before `b` in alphabetical order: where the two first
/// differ, `a` has ended, or has the smaller character.
pub open spec fn precedes(a: Seq<char>, b: Seq<char>) -> bool {
    exists|k: int| #[trigger] agree_up_to(a, b, k) && k < b.len() && (k == a.len() || a[k] < b[k])
}

/// Whether every word of `list` comes before all that follow it, so that
/// none is in it twice.
pub open spec fn is_alphabetical(list: Seq<Seq<char>>) -> bool {
    forall|i: int, j: int| 0 <= i < j < list.len() ==> precedes(list[i], list[j])
}

/// A word that comes before another is not that word, nor after it.
pub proof fn lemma_precedes_is_strict(a: Seq<char>, b: Seq<char>)
    requires
        precedes(a, b),
    ensures
        a != b,
        !precedes(b, a),
{
    let k = choose|k: int| #[trigger]
        agree_up_to(a, b, k) && k < b.len() && (k == a.len() || a[k] < b[k]);
    if precedes(b, a) {
        let m = choose|m: int| #[trigger]
            agree_up_to(b, a, m) && m < a.len() && (m == b.len() || b[m] < a[m]);
        if m < k {
            assert(a[m] == b[m]);
        } else if k < m {
            assert(b[k] == a[k]);
        }
    }
}

/// What comes before a word comes before all that the word comes before.
pub proof fn lemma_precedes_is_transitive(a: Seq<char>, b: Seq<char>, c: Seq<char>)
    requires
        precedes(a, b),
        precedes(b, c),
    ensures
        precedes(a, c),
{
    let k = choose|k: int| #[trigger]
        agree_up_to(a, b, k) && k < b.len() && (k == a.len() || a[k] < b[k]);
    let m = choose|m: int| #[trigger]
        agree_up_to(b, c, m) && m < c.len() && (m == b.len() || b[m] < c[m]);
    let n = if k <= m { k } else { m };
    assert(agree_up_to(a, c, n)) by {
        assert forall|i: int| 0 <= i < n implies a[i] == c[i] by {
            assert(a[i] == b[i]);
            assert(b[i] == c[i]);
        }
    }
    if k < m {
        assert(b[k] == c[k]);
    } else if m < k {
        assert(a[m] == b[m]);
    }
}

/// How one word stands to another in alphabetical order.
#[derive(Clone, Copy, Debug, PartialEq, Eq, Structural)]
pub enum Rank {
    /// The first word comes before the second.
    Before,
    /// The two are the same word.
    Same,
    /// The first word comes after the second.
    After,
}

/// Compares two words in alphabetical order.
pub fn rank(a: &str, b: &str) -> (r: Rank)
    ensures
        r == Rank::Before <==> precedes(a@, b@),
        r == Rank::Same <==> a@ == b@,
        r == Rank::After <==> precedes(b@, a@),
{
    broadcast use {vstd::string::axiom_spec_iter, vstd::string::next_postcondition};

    let mut rest_a = a.chars();
    let mut rest_b = b.chars();
    let ghost mut i: int = 0;
    loop
        invariant
            agree_up_to(a@, b@, i),
            rest_a.remaining() == a@.skip(i),
            rest_b.remaining() == b@.skip(i),
        decreases a@.len() - i,
    {
        let x = rest_a.next();
        let y = rest_b.next();
        match (x, y) {
            (None, None) => {
                proof {
                    assert(a@ =~= b@);
                    if precedes(a@, b@) {
                        lemma_precedes_is_strict(a@, b@);
                    }
                }
                return Rank::Same;
            },
            (None, Some(_)) => {
                proof {
                    lemma_precedes_is_strict(a@, b@);
                }
                return Rank::Before;
            },
            (Some(_), None) => {
                proof {
                    assert(agree_up_to(b@, a@, i));
                    lemma_precedes_is_strict(b@, a@);
                }
                return Rank::After;
            },
            (Some(c), Some(d)) => {
                if c < d {
                    proof {
                        lemma_precedes_is_strict(a@, b@);
                    }
                    return Rank::Before;
                }
                if d < c {
                    proof {
                        assert(agree_up_to(b@, a@, i));
                        lemma_precedes_is_strict(b@, a@);
                    }
                    return Rank::After;
                }
                proof {
                    assert(a@.skip(i).drop_first() =~= a@.skip(i + 1));
                    assert(b@.skip(i).drop_first() =~= b@.skip(i + 1));
                    i = i + 1;
                }
            },
        }
    }
}

/// One more word at the end of an alphabetical list keeps it alphabetical,
/// if the last word comes before it.
pub proof fn lemma_alphabetical_push(list: Seq<Seq<char>>, word: Seq<char>)
    requires
        is_alphabetical(list),
        list.len() > 0 ==> precedes(list.last(), word),
    ensures
        is_alphabetical(list.push(word)),
{
    let next = list.push(word);
    assert forall|i: int, j: int| 0 <= i < j < next.len() implies precedes(next[i], next[j]) by {
        if j == list.len() && i < list.len() - 1 {
            assert(precedes(list[i], list.last()));
            lemma_precedes_is_transitive(list[i], list.last(), word);
        }
    }
}

/// No word is twice in an alphabetical list.
pub proof fn lemma_alphabetical_has_no_repeats(list: Seq<Seq<char>>)
    requires
        is_alphabetical(list),
    ensures
        list.no_duplicates(),
{
    assert forall|i: int, j: int| 0 <= i < list.len() && 0 <= j < list.len() && i != j implies list[i]
        != list[j] by {
        if i < j {
            lemma_precedes_is_strict(list[i], list[j]);
        } else {
            lemma_precedes_is_strict(list[j], list[i]);
        }
    }
}

/// There is one alphabetical list of a set of words: two such lists with
/// the same words are the same list.
pub proof fn lemma_alphabetical_is_unique(a: Seq<Seq<char>>, b: Seq<Seq<char>>)
    requires
        is_alphabetical(a),
        is_alphabetical(b),
        a.to_set() == b.to_set(),
    ensures
        a == b,
    decreases a.len(),
{
    lemma_alphabetical_has_no_repeats(a);
    lemma_alphabetical_has_no_repeats(b);
    a.unique_seq_to_set();
    b.unique_seq_to_set();
    if a.len() > 0 {
        let x = a.last();
        let y = b.last();
        assert(a.to_set().contains(x) && b.to_set().contains(y));
        let j = choose|j: int| 0 <= j < b.len() && b[j] == x;
        let k = choose|k: int| 0 <= k < a.len() && a[k] == y;
        if j < b.len() - 1 {
            assert(precedes(b[j], b.last()));
            if k < a.len() - 1 {
                assert(precedes(a[k], a.last()));
            }
            lemma_precedes_is_strict(x, y);
        }
        assert(x == y);
        let shorter_a = a.drop_last();
        let shorter_b = b.drop_last();
        assert forall|w: Seq<char>| shorter_a.contains(w) <==> shorter_b.contains(w) by {
            if shorter_a.contains(w) {
                let i = choose|i: int| 0 <= i < shorter_a.len() && shorter_a[i] == w;
                assert(a[i] == w && a.to_set().contains(w));
                let m = choose|m: int| 0 <= m < b.len() && b[m] == w;
                assert(shorter_b[m] == w);
            }
            if shorter_b.contains(w) {
                let i = choose|i: int| 0 <= i < shorter_b.len() && shorter_b[i] == w;
                assert(b[i] == w && b.to_set().contains(w));
                let m = choose|m: int| 0 <= m < a.len() && a[m] == w;
                assert(shorter_a[m] == w);
            }
        }
        assert(shorter_a.to_set() =~= shorter_b.to_set());
        lemma_alphabetical_is_unique(shorter_a, shorter_b);
        assert(a =~= shorter_a.push(x));
        assert(b =~= shorter_b.push(y));
    } else {
        assert(a =~= b);
    }
}

/// Merges two alphabetical lists into one; a word that is in both is taken
/// once.
fn merge(a: &Vec<String>, b: &Vec<String>) -> (out: Vec<String>)
    requires
        is_alphabetical(texts(a@)),
        is_alphabetical(texts(b@)),
    ensures
        is_alphabetical(texts(out@)),
        texts(out@).to_set() == texts(a@).to_set().union(texts(b@).to_set()),
{
    let mut out: Vec<String> = Vec::new();
    let mut i: usize = 0;
    let mut j: usize = 0;
    proof {
        assert(texts(out@).to_set() =~= texts(a@).take(0).to_set().union(
            texts(b@).take(0).to_set(),
        ));
    }
    while i < a.len() || j < b.len()
        invariant
            i <= a.len(),
            j <= b.len(),
            is_alphabetical(texts(a@)),
            is_alphabetical(texts(b@)),
            is_alphabetical(texts(out@)),
            texts(out@).to_set() == texts(a@).take(i as int).to_set().union(
                texts(b@).take(j as int).to_set(),
            ),
            out@.len() > 0 && i < a.len() ==> precedes(texts(out@).last(), texts(a@)[i as int]),
            out@.len() > 0 && j < b.len() ==> precedes(texts(out@).last(), texts(b@)[j as int]),
        decreases a.len() - i + b.len() - j,
    {
        let ghost done = texts(out@);
        let ghost left = texts(a@);
        let ghost right = texts(b@);
        let side = if i == a.len() {
            Rank::After
        } else if j == b.len() {
            Rank::Before
        } else {
            rank(a[i].as_str(), b[j].as_str())
        };
        let take_left = side != Rank::After;
        let take_right = side != Rank::Before;
        let word = if take_left {
            a[i].clone()
        } else {
            b[j].clone()
        };
        proof {
            lemma_alphabetical_push(done, word@);
            assert(texts(out@.push(word)) =~= done.push(word@));
            done.lemma_push_to_set_commute(word@);
            if take_left {
                assert(left.take(i + 1) =~= left.take(i as int).push(left[i as int]));
                left.take(i as int).lemma_push_to_set_commute(left[i as int]);
                if i + 1 < a.len() {
                    assert(precedes(left[i as int], left[i + 1]));
                }
            }
            if take_right {
                assert(right.take(j + 1) =~= right.take(j as int).push(right[j as int]));
                right.take(j as int).lemma_push_to_set_commute(right[j as int]);
                if j + 1 < b.len() {
                    assert(precedes(right[j as int], right[j + 1]));
                }
            }
        }
        out.push(word);
        if take_left {
            i += 1;
        }
        if take_right {
            j += 1;
        }
    }
    proof {
        assert(texts(a@).take(i as int) =~= texts(a@));
        assert(texts(b@).take(j as int) =~= texts(b@));
    }
    out
}

/// The words of `list` from `lo` up to `hi` in alphabetical order, each once.
fn sort_range(list: &Vec<String>, lo: usize, hi: usize) -> (out: Vec<String>)
    requires
        lo <= hi <= list.len(),
    ensures
        is_alphabetical(texts(out@)),
        texts(out@).to_set() == texts(list@).subrange(lo as int, hi as int).to_set(),
    decreases hi - lo,
{
    let ghost part = texts(list@).subrange(lo as int, hi as int);
    if hi - lo == 0 {
        let out: Vec<String> = Vec::new();
        proof {
            assert(texts(out@).to_set() =~= part.to_set());
        }
        out
    } else if hi - lo == 1 {
        let mut out: Vec<String> = Vec::new();
        out.push(list[lo].clone());
        proof {
            assert(texts(out@) =~= part);
        }
        out
    } else {
        let mid: usize = lo + (hi - lo) / 2;
        let left = sort_range(list, lo, mid);
        let right = sort_range(list, mid, hi);
        proof {
            let first = texts(list@).subrange(lo as int, mid as int);
            let second = texts(list@).subrange(mid as int, hi as int);
            assert(part =~= first + second);
            vstd::seq_lib::seq_to_set_distributes_over_add(first, second);
        }
        merge(&left, &right)
    }
}

/// The words of `list` in alphabetical order, each once.
pub fn sort_words(list: &Vec<String>) -> (out: Vec<String>)
    ensures
        is_alphabetical(texts(out@)),
        texts(out@).to_set() == texts(list@).to_set(),
{
    proof {
        assert(texts(list@).subrange(0, list@.len() as int) =~= texts(list@));
    }
    sort_range(list, 0, list.len())
}

/// Looks `key` up in an alphabetical list, by halving.
pub(crate) fn find_word(list: &Vec<String>, key: &str) -> (found: bool)
    requires
        is_alphabetical(texts(list@)),
    ensures
        found == texts(list@).contains(key@),
{
    let mut lo: usize = 0;
    let mut hi: usize = list.len();
    while lo < hi
        invariant
            lo <= hi <= list.len(),
            is_alphabetical(texts(list@)),
            forall|k: int| 0 <= k < lo ==> precedes(#[trigger] texts(list@)[k], key@),
            forall|k: int| hi <= k < list.len() ==> precedes(key@, #[trigger] texts(list@)[k]),
        decreases hi - lo,
    {
        let mid: usize = lo + (hi - lo) / 2;
        let ghost here = texts(list@)[mid as int];
        match rank(list[mid].as_str(), key) {
            Rank::Same => {
                return true;
            },
            Rank::Before => {
                proof {
                    assert forall|k: int| 0 <= k < mid + 1 implies precedes(
                        #[trigger] texts(list@)[k],
                        key@,
                    ) by {
                        if k < mid {
                            lemma_precedes_is_transitive(texts(list@)[k], here, key@);
                        }
                    }
                }
                lo = mid + 1;
            },
            Rank::After => {
                proof {
                    assert forall|k: int| mid <= k < list.len() implies precedes(
                        key@,
                        #[trigger] texts(list@)[k],
                    ) by {
                        if mid < k {
                            lemma_precedes_is_transitive(key@, here, texts(list@)[k]);
                        }
                    }
                }
                hi = mid;
            },
        }
    }
    proof {
        assert forall|k: int| 0 <= k < list.len() implies texts(list@)[k] != key@ by {
            if k < lo {
                lemma_precedes_is_strict(texts(list@)[k], key@);
            } else {
                lemma_precedes_is_strict(key@, texts(list@)[k]);
            }
        }
    }
    false
}

} // verus!
