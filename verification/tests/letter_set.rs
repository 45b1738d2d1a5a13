use pangram_puzzle::letters::alphabet_index;
use pangram_puzzle::{LetterSet, LetterSetError};

fn set_of(text: &str) -> LetterSet {
    LetterSet::encode(text).unwrap()
}

#[test]
fn encode_ignores_case_and_order() {
    assert_eq!(LetterSet::encode("HAPPY"), LetterSet::encode("happy"));
    assert_eq!(LetterSet::encode("happy"), LetterSet::encode("YPHAP"));
    assert_eq!(LetterSet::encode("HaPpY"), LetterSet::encode("yPhAp"));
}

#[test]
fn encode_discards_multiplicity() {
    assert_eq!(set_of("HAPPY").decode_sorted(), vec!['A', 'H', 'P', 'Y']);
    assert_eq!(set_of("HAP").decode_sorted(), vec!['A', 'H', 'P']);
    assert_ne!(set_of("HAPPY"), set_of("HAP"));
    assert_eq!(set_of("aaaa"), set_of("a"));
    assert_eq!(set_of("HAPPY").count(), 4);
    assert_eq!(set_of("HAP").count(), 3);
}

#[test]
fn encode_rejects_anything_but_ascii_letters() {
    assert_eq!(LetterSet::encode("ab1"), Err(LetterSetError::InvalidCharacter));
    assert_eq!(LetterSet::encode("two words"), Err(LetterSetError::InvalidCharacter));
    assert_eq!(LetterSet::encode("caf\u{e9}"), Err(LetterSetError::InvalidCharacter));
    assert_eq!(LetterSet::encode("it's"), Err(LetterSetError::InvalidCharacter));
    assert_eq!(LetterSet::encode("@"), Err(LetterSetError::InvalidCharacter));
    assert_eq!(LetterSet::encode("["), Err(LetterSetError::InvalidCharacter));
    assert_eq!(LetterSet::encode("`"), Err(LetterSetError::InvalidCharacter));
    assert_eq!(LetterSet::encode("{"), Err(LetterSetError::InvalidCharacter));
}

#[test]
fn encode_chars_agrees_with_encode() {
    let chars: Vec<char> = "Plastic".chars().collect();
    assert_eq!(LetterSet::encode_chars(&chars), LetterSet::encode("plastic"));
    let hyphened = vec!['a', '-', 'b'];
    assert_eq!(LetterSet::encode_chars(&hyphened), Err(LetterSetError::InvalidCharacter));
}

#[test]
fn encode_of_nothing_is_the_empty_set() {
    assert_eq!(LetterSet::encode(""), Ok(LetterSet::empty()));
    assert_eq!(LetterSet::empty().count(), 0);
    assert_eq!(LetterSet::empty().decode_sorted(), Vec::<char>::new());
}

#[test]
fn count_is_at_most_26() {
    let all = set_of("thequickbrownfoxjumpsoverthelazydog");
    assert_eq!(all.count(), 26);
    let twice = set_of("ABCDEFGHIJKLMNOPQRSTUVWXYZabcdefghijklmnopqrstuvwxyz");
    assert_eq!(twice.count(), 26);
    assert_eq!(all, twice);
}

#[test]
fn count_counts_each_letter_once() {
    let mut word = String::new();
    let mut expected: u8 = 0;
    for c in "qwertyuiopasdfghjklzxcvbnm".chars() {
        word.push(c);
        word.push(c.to_ascii_uppercase());
        expected += 1;
        assert_eq!(set_of(&word).count(), expected);
    }
}

#[test]
fn decode_sorted_lists_the_distinct_letters_in_order() {
    assert_eq!(set_of("plastic").decode_sorted(), vec!['A', 'C', 'I', 'L', 'P', 'S', 'T']);
    assert_eq!(set_of("rhubarb").decode_sorted(), vec!['A', 'B', 'H', 'R', 'U']);
    assert_eq!(set_of("OTTER").decode_sorted(), vec!['E', 'O', 'R', 'T']);
}

#[test]
fn decode_sorted_reaches_the_last_letter() {
    assert_eq!(set_of("zebra").decode_sorted(), vec!['A', 'B', 'E', 'R', 'Z']);
    assert_eq!(set_of("z").decode_sorted(), vec!['Z']);
    assert_eq!(set_of("a").decode_sorted(), vec!['A']);
    let all: Vec<char> = ('A'..='Z').collect();
    assert_eq!(set_of("zyxwvutsrqponmlkjihgfedcba").decode_sorted(), all);
}

#[test]
fn decode_then_encode_gives_the_set_back() {
    for word in ["plastic", "rhubarb", "Zebra", "q", ""] {
        let set = set_of(word);
        let text: String = set.decode_sorted().into_iter().collect();
        assert_eq!(LetterSet::encode(&text), Ok(set));
    }
}

#[test]
fn pangram_round_trip() {
    let mask = set_of("plastic");
    assert_eq!(mask.count(), 7);
    assert_eq!(mask.decode_sorted().len(), 7);
    let other = set_of("Jukebox");
    assert_eq!(other.count(), 7);
    assert_eq!(other.decode_sorted().len(), 7);
    let fewer = set_of("rhubarb");
    assert_eq!(fewer.count(), 5);
    assert_eq!(fewer.decode_sorted().len(), 5);
}

#[test]
fn is_subset_of_compares_letters() {
    let target = set_of("plastic");
    assert!(set_of("clips").is_subset_of(target));
    assert!(set_of("plastic").is_subset_of(target));
    assert!(set_of("").is_subset_of(target));
    assert!(!set_of("panic").is_subset_of(target));
    assert!(!target.is_subset_of(set_of("clips")));
    assert!(set_of("z").is_subset_of(set_of("az")));
    assert!(!set_of("z").is_subset_of(set_of("a")));
}

#[test]
fn intersects_tells_a_common_letter() {
    let c = set_of("c");
    assert!(set_of("clips").intersects(c));
    assert!(!set_of("pails").intersects(c));
    assert!(!set_of("").intersects(c));
    assert!(!LetterSet::empty().intersects(LetterSet::empty()));
    assert!(set_of("xyz").intersects(set_of("z")));
}

#[test]
fn contains_takes_either_case() {
    let set = set_of("Happy");
    assert!(set.contains('h'));
    assert!(set.contains('H'));
    assert!(set.contains('y'));
    assert!(!set.contains('z'));
    assert!(!set.contains('1'));
    assert!(!set.contains('\u{e9}'));
}

#[test]
fn alphabet_index_counts_from_a() {
    assert_eq!(alphabet_index('A'), 0);
    assert_eq!(alphabet_index('a'), 0);
    assert_eq!(alphabet_index('C'), 2);
    assert_eq!(alphabet_index('Z'), 25);
    assert_eq!(alphabet_index('z'), 25);
}
