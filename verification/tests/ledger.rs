use pangram_puzzle::{record_found_word, FoundWordsLedger, LedgerError};

#[test]
fn a_new_ledger_is_empty() {
    let ledger = FoundWordsLedger::new();
    assert_eq!(ledger.count(), 0);
    assert!(ledger.words().is_empty());
    assert!(!ledger.contains("otter"));
}

#[test]
fn record_appends_in_lower_case() {
    let mut ledger = FoundWordsLedger::new();
    assert_eq!(ledger.record("Otter"), Ok(()));
    assert_eq!(ledger.record("PLASTIC"), Ok(()));
    assert_eq!(ledger.record("clips"), Ok(()));
    assert_eq!(ledger.count(), 3);
    assert_eq!(ledger.words(), &vec!["otter", "plastic", "clips"]);
}

#[test]
fn record_refuses_a_word_twice_in_any_case() {
    let mut ledger = FoundWordsLedger::new();
    assert_eq!(ledger.record("otter"), Ok(()));
    assert_eq!(ledger.record("otter"), Err(LedgerError::AlreadyFound));
    assert_eq!(ledger.record("OTTER"), Err(LedgerError::AlreadyFound));
    assert_eq!(ledger.record("oTTeR"), Err(LedgerError::AlreadyFound));
    assert_eq!(ledger.count(), 1);
    assert_eq!(ledger.words(), &vec!["otter"]);
}

#[test]
fn the_ledger_only_grows() {
    let mut ledger = FoundWordsLedger::new();
    let words = ["tapas", "clips", "tapas", "pails", "CLIPS", "plastic"];
    let mut before = 0;
    for word in words {
        let _ = ledger.record(word);
        assert!(ledger.count() >= before);
        assert!(ledger.count() <= before + 1);
        before = ledger.count();
    }
    assert_eq!(ledger.words(), &vec!["tapas", "clips", "pails", "plastic"]);
}

#[test]
fn contains_ignores_case_of_found_words() {
    let mut ledger = FoundWordsLedger::new();
    ledger.record("Otter").unwrap();
    assert!(ledger.contains("otter"));
    assert!(ledger.contains("OTTER"));
    assert!(!ledger.contains("otters"));
    assert!(!ledger.contains(""));
}

#[test]
fn words_can_be_read_again_and_again() {
    let mut ledger = FoundWordsLedger::new();
    ledger.record("clips").unwrap();
    ledger.record("pails").unwrap();
    let first: Vec<&String> = ledger.words().iter().collect();
    let second: Vec<&String> = ledger.words().iter().collect();
    assert_eq!(first, second);
    assert_eq!(first.len(), 2);
}

#[test]
fn record_found_word_is_record() {
    let mut ledger = FoundWordsLedger::new();
    assert_eq!(record_found_word(&mut ledger, "Clips"), Ok(()));
    assert_eq!(record_found_word(&mut ledger, "clips"), Err(LedgerError::AlreadyFound));
    assert_eq!(ledger.words(), &vec!["clips"]);
}
