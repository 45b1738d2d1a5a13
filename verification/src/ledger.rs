//! The words a player has found so far.

use vstd::prelude::*;
use crate::letters::{lemma_lowercase_of_word, lowercase};
use crate::words::{list_contains, normalize, texts};

verus! {

/// Why a word was not recorded.
#[derive(Clone, Copy, Debug, PartialEq, Eq, Structural)]
pub enum LedgerError {
    /// The word is in the ledger already, in whatever case it was given.
    AlreadyFound,
}

/// The found words in lower case, in the order in which they were found.
/// No word is in it twice. It only ever grows, by one word at its end.
#[derive(Debug)]
pub struct FoundWordsLedger {
    words: Vec<String>,
}

/// What a ledger holds: lower-case words, none of them twice.
pub open spec fn is_ledger(found: Seq<Seq<char>>) -> bool {
    &&& found.no_duplicates()
    &&& forall|i: int| 0 <= i < found.len() ==> lowercase(#[trigger] found[i]) == found[i]
}

impl View for FoundWordsLedger {
    type V = Seq<Seq<char>>;

    /// The found words, oldest first.
    closed spec fn view(&self) -> Seq<Seq<char>> {
        texts(self.words@)
    }
}

impl FoundWordsLedger {
    #[verifier::type_invariant]
    spec fn inv(&self) -> bool {
        is_ledger(self@)
    }

    /// A ledger without words.
    pub fn new() -> (ledger: FoundWordsLedger)
        ensures
            ledger@ == Seq::<Seq<char>>::empty(),
    {
        FoundWordsLedger { words: Vec::new() }
    }

    /// Appends `word` in lower case. Fails, and changes nothing, if the word
    /// is in the ledger already.
    pub fn record(&mut self, word: &str) -> (r: Result<(), LedgerError>)
        ensures
            old(self)@.contains(lowercase(word@)) ==> r == Err::<(), LedgerError>(
                LedgerError::AlreadyFound,
            ) && final(self)@ == old(self)@,
            !old(self)@.contains(lowercase(word@)) ==> r == Ok::<(), LedgerError>(())
                && final(self)@ == old(self)@.push(lowercase(word@)),
            final(self)@.contains(lowercase(word@)),
            is_ledger(final(self)@),
    {
        proof {
            use_type_invariant(&*self);
        }
        let key = normalize(word);
        if list_contains(&self.words, &key) {
            Err(LedgerError::AlreadyFound)
        } else {
            let mut list: Vec<String> = Vec::new();
            proof {
                lemma_lowercase_of_word(word@);
                assert(texts(self.words@.push(key)) =~= self@.push(key@));
                assert(self@.push(key@)[self@.len() as int] == key@);
            }
            std::mem::swap(&mut list, &mut self.words);
            list.push(key);
            self.words = list;
            Ok(())
        }
    }

    /// Whether `word` has been found, whatever its case.
    pub fn contains(&self, word: &str) -> (r: bool)
        ensures
            r == self@.contains(lowercase(word@)),
    {
        let key = normalize(word);
        list_contains(&self.words, &key)
    }

    /// The number of found words.
    pub fn count(&self) -> (n: usize)
        ensures
            n == self@.len(),
    {
        self.words.len()
    }

    /// The found words in the order in which they were found.
    pub fn words(&self) -> (list: &Vec<String>)
        ensures
            texts(list@) == self@,
            is_ledger(self@),
    {
        proof {
            use_type_invariant(self);
        }
        &self.words
    }
}

/// Credits `word` to the player; see [`FoundWordsLedger::record`].
pub fn record_found_word(ledger: &mut FoundWordsLedger, word: &str) -> (r: Result<(), LedgerError>)
    ensures
        old(ledger)@.contains(lowercase(word@)) ==> r == Err::<(), LedgerError>(
            LedgerError::AlreadyFound,
        ) && final(ledger)@ == old(ledger)@,
        !old(ledger)@.contains(lowercase(word@)) ==> r == Ok::<(), LedgerError>(())
            && final(ledger)@ == old(ledger)@.push(lowercase(word@)),
        final(ledger)@.contains(lowercase(word@)),
        is_ledger(final(ledger)@),
{
    ledger.record(word)
}

} // verus!
