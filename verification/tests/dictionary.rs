use pangram_puzzle::{new_dictionary, Dictionary, DictionaryError};

const TEXT: &str = "plastic clips pails\n a an the cat rhubarb PANIC x1yz Capitals\ttapas";

#[test]
fn load_keeps_the_playable_words_in_lower_case() {
    let dictionary = Dictionary::load(TEXT).unwrap();
    assert_eq!(
        dictionary.all_valid_words(),
        &vec!["capitals", "clips", "pails", "panic", "plastic", "rhubarb", "tapas"]
    );
}

#[test]
fn load_keeps_each_word_once() {
    let dictionary = Dictionary::load("Plastic clips plastic PLASTIC  clips\nclips").unwrap();
    assert_eq!(dictionary.all_valid_words(), &vec!["clips", "plastic"]);
    assert_eq!(dictionary.pangram_candidates(), &vec!["plastic"]);
}

#[test]
fn the_order_of_the_text_makes_no_difference() {
    let one = Dictionary::load("tapas plastic clips capitals").unwrap();
    let other = Dictionary::load("capitals clips plastic tapas").unwrap();
    assert_eq!(one.all_valid_words(), other.all_valid_words());
    assert_eq!(one.pangram_candidates(), other.pangram_candidates());
}

#[test]
fn load_finds_the_pangram_candidates() {
    let dictionary = Dictionary::load(TEXT).unwrap();
    assert_eq!(dictionary.pangram_candidates(), &vec!["capitals", "plastic"]);
}

#[test]
fn pangram_candidates_are_words_of_the_dictionary() {
    let dictionary = Dictionary::load(TEXT).unwrap();
    for word in dictionary.pangram_candidates() {
        assert!(dictionary.all_valid_words().contains(word));
        assert!(dictionary.contains(word));
    }
}

#[test]
fn a_word_may_be_the_only_one() {
    let dictionary = Dictionary::load("plastic").unwrap();
    assert_eq!(dictionary.all_valid_words(), &vec!["plastic"]);
    assert_eq!(dictionary.pangram_candidates(), &vec!["plastic"]);
}

#[test]
fn load_fails_on_a_text_without_playable_words() {
    assert_eq!(Dictionary::load("").err(), Some(DictionaryError::EmptySource));
    assert_eq!(Dictionary::load(" \n ").err(), Some(DictionaryError::EmptySource));
    assert_eq!(Dictionary::load("a bc def gh1j don't").err(), Some(DictionaryError::EmptySource));
}

#[test]
fn load_fails_on_a_text_without_pangrams() {
    assert_eq!(
        Dictionary::load("rhubarb shrub barbs").err(),
        Some(DictionaryError::NoPangramCandidates)
    );
    assert_eq!(Dictionary::load("jukeboxes").err(), Some(DictionaryError::NoPangramCandidates));
    assert_eq!(Dictionary::load("abcdefgh").err(), Some(DictionaryError::NoPangramCandidates));
}

#[test]
fn contains_ignores_case() {
    let dictionary = Dictionary::load(TEXT).unwrap();
    assert!(dictionary.contains("clips"));
    assert!(dictionary.contains("CLIPS"));
    assert!(dictionary.contains("Panic"));
    assert!(dictionary.contains("capitals"));
    assert!(!dictionary.contains("cat"));
    assert!(!dictionary.contains("x1yz"));
    assert!(!dictionary.contains("clip"));
    assert!(!dictionary.contains(""));
}

#[test]
fn from_words_takes_words_that_are_split_already() {
    let list: Vec<Vec<char>> =
        ["Plastic", "clips", "no", "p-a-i-l-s"].iter().map(|w| w.chars().collect()).collect();
    let dictionary = Dictionary::from_words(&list).unwrap();
    assert_eq!(dictionary.all_valid_words(), &vec!["clips", "plastic"]);
    assert_eq!(dictionary.pangram_candidates(), &vec!["plastic"]);
    assert_eq!(Dictionary::from_words(&Vec::new()).err(), Some(DictionaryError::EmptySource));
}

#[test]
fn new_dictionary_is_load() {
    let dictionary = new_dictionary(TEXT).unwrap();
    assert_eq!(dictionary.all_valid_words(), Dictionary::load(TEXT).unwrap().all_valid_words());
    assert_eq!(new_dictionary("").err(), Some(DictionaryError::EmptySource));
    assert_eq!(new_dictionary("rhubarb").err(), Some(DictionaryError::NoPangramCandidates));
}

#[test]
fn load_agrees_with_a_plain_reading_of_the_text() {
    let mut text = String::new();
    let mut state: u64 = 99;
    for _ in 0..5000 {
        state = state.wrapping_mul(6364136223846793005).wrapping_add(1442695040888963407);
        let length = 2 + (state >> 33) % 8;
        for _ in 0..length {
            state = state.wrapping_mul(6364136223846793005).wrapping_add(1442695040888963407);
            let pick = (state >> 33) % 40;
            let c = match pick {
                0..=25 => (b'a' + pick as u8) as char,
                26..=35 => (b'A' + (pick - 26) as u8) as char,
                36 => '-',
                37 => '7',
                38 => '\u{e9}',
                _ => '\'',
            };
            text.push(c);
        }
        text.push(if state % 3 == 0 { '\n' } else { ' ' });
    }
    text.push_str(" plastic ");

    let mut words: Vec<String> = text
        .split_whitespace()
        .filter(|w| w.len() >= 4 && w.chars().all(|c| c.is_ascii_alphabetic()))
        .map(|w| w.to_ascii_lowercase())
        .collect();
    words.sort();
    words.dedup();
    let pangrams: Vec<String> = words
        .iter()
        .filter(|w| {
            let mut letters: Vec<char> = w.chars().collect();
            letters.sort();
            letters.dedup();
            letters.len() == 7
        })
        .cloned()
        .collect();

    let dictionary = Dictionary::load(&text).unwrap();
    assert!(words.len() > 500);
    assert_eq!(dictionary.all_valid_words(), &words);
    assert_eq!(dictionary.pangram_candidates(), &pangrams);
    for word in &words {
        assert!(dictionary.contains(word));
        assert!(dictionary.contains(&word.to_ascii_uppercase()));
    }
    for word in text.split_whitespace() {
        assert_eq!(dictionary.contains(word), words.contains(&word.to_ascii_lowercase()));
    }
}
