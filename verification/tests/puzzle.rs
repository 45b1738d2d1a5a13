use pangram_puzzle::{new_puzzle, Dictionary, LetterSet, PuzzleState};
use rand::rngs::StdRng;
use rand::SeedableRng;

const TEXT: &str = "plastic clips pails capitals jukebox quickly rhubarb exhaust";

fn sorted(letters: &Vec<char>) -> Vec<char> {
    let mut copy = letters.clone();
    copy.sort();
    copy
}

#[test]
fn from_letters_takes_seven_different_capitals() {
    let puzzle = PuzzleState::from_letters(vec!['C', 'P', 'L', 'A', 'S', 'T', 'I']).unwrap();
    assert_eq!(puzzle.target_letters(), &vec!['C', 'P', 'L', 'A', 'S', 'T', 'I']);
    assert_eq!(puzzle.required_letter(), 'C');
    assert_eq!(puzzle.target_bits(), LetterSet::encode("plastic").unwrap());
    assert_eq!(puzzle.required_bit(), LetterSet::encode("c").unwrap());
    assert_eq!(puzzle.target_bits().count(), 7);
    assert_eq!(puzzle.required_bit().count(), 1);
    assert!(puzzle.required_bit().is_subset_of(puzzle.target_bits()));
    assert_ne!(puzzle.required_bit(), puzzle.target_bits());
}

#[test]
fn from_letters_refuses_anything_else() {
    assert!(PuzzleState::from_letters(vec![]).is_none());
    assert!(PuzzleState::from_letters(vec!['C', 'P', 'L', 'A', 'S', 'T']).is_none());
    assert!(PuzzleState::from_letters(vec!['C', 'P', 'L', 'A', 'S', 'T', 'I', 'E']).is_none());
    assert!(PuzzleState::from_letters(vec!['C', 'P', 'L', 'A', 'S', 'T', 'C']).is_none());
    assert!(PuzzleState::from_letters(vec!['C', 'C', 'L', 'A', 'S', 'T', 'I']).is_none());
    assert!(PuzzleState::from_letters(vec!['c', 'p', 'l', 'a', 's', 't', 'i']).is_none());
    assert!(PuzzleState::from_letters(vec!['C', 'P', 'L', 'A', 'S', 'T', '1']).is_none());
    assert!(PuzzleState::from_letters(vec!['C', 'P', 'L', 'A', 'S', 'T', '\u{c9}']).is_none());
}

#[test]
fn the_required_letter_is_the_first_one() {
    for first in ['P', 'L', 'A', 'S', 'T', 'I', 'C'] {
        let mut letters = vec![first];
        letters.extend("PLASTIC".chars().filter(|c| *c != first));
        let puzzle = PuzzleState::from_letters(letters).unwrap();
        assert_eq!(puzzle.required_letter(), first);
        assert_eq!(puzzle.required_bit().decode_sorted(), vec![first]);
        assert_eq!(puzzle.target_bits(), LetterSet::encode("plastic").unwrap());
    }
}

#[test]
fn has_letter_and_is_required_take_either_case() {
    let puzzle = PuzzleState::from_letters(vec!['C', 'P', 'L', 'A', 'S', 'T', 'I']).unwrap();
    assert!(puzzle.has_letter('c'));
    assert!(puzzle.has_letter('C'));
    assert!(puzzle.has_letter('i'));
    assert!(!puzzle.has_letter('n'));
    assert!(!puzzle.has_letter(' '));
    assert!(puzzle.is_required('c'));
    assert!(puzzle.is_required('C'));
    assert!(!puzzle.is_required('p'));
    assert!(!puzzle.is_required('1'));
}

#[test]
fn generate_is_reproducible() {
    let dictionary = Dictionary::load(TEXT).unwrap();
    for seed in 0..20u64 {
        let first = PuzzleState::generate(&dictionary, &mut StdRng::seed_from_u64(seed));
        let second = PuzzleState::generate(&dictionary, &mut StdRng::seed_from_u64(seed));
        assert_eq!(first.target_letters(), second.target_letters());
        assert_eq!(first.required_letter(), second.required_letter());
        assert_eq!(first.target_bits(), second.target_bits());
    }
}

#[test]
fn generate_takes_the_letters_of_a_candidate() {
    let dictionary = Dictionary::load(TEXT).unwrap();
    let candidates: Vec<LetterSet> =
        dictionary.pangram_candidates().iter().map(|w| LetterSet::encode(w).unwrap()).collect();
    let mut rng = StdRng::seed_from_u64(2024);
    for _ in 0..50 {
        let puzzle = PuzzleState::generate(&dictionary, &mut rng);
        assert!(candidates.contains(&puzzle.target_bits()));
        assert_eq!(puzzle.target_letters().len(), 7);
        assert_eq!(sorted(puzzle.target_letters()), puzzle.target_bits().decode_sorted());
        assert_eq!(puzzle.required_letter(), puzzle.target_letters()[0]);
        assert_eq!(puzzle.required_bit().decode_sorted(), vec![puzzle.required_letter()]);
    }
}

#[test]
fn generate_with_one_candidate_takes_it() {
    let dictionary = Dictionary::load("plastic clips pails").unwrap();
    let puzzle = PuzzleState::generate(&dictionary, &mut StdRng::seed_from_u64(1));
    assert_eq!(puzzle.target_bits(), LetterSet::encode("plastic").unwrap());
    assert_eq!(sorted(puzzle.target_letters()), vec!['A', 'C', 'I', 'L', 'P', 'S', 'T']);
}

#[test]
fn generate_picks_among_all_candidates() {
    let dictionary = Dictionary::load(TEXT).unwrap();
    let mut rng = StdRng::seed_from_u64(5);
    let mut seen: Vec<LetterSet> = Vec::new();
    for _ in 0..200 {
        let target = PuzzleState::generate(&dictionary, &mut rng).target_bits();
        if !seen.contains(&target) {
            seen.push(target);
        }
    }
    let mut targets: Vec<LetterSet> = Vec::new();
    for word in dictionary.pangram_candidates() {
        let target = LetterSet::encode(word).unwrap();
        if !targets.contains(&target) {
            targets.push(target);
        }
    }
    assert_eq!(dictionary.pangram_candidates().len(), 5);
    assert_eq!(targets.len(), 4);
    assert_eq!(seen.len(), targets.len());
}

#[test]
fn generate_shuffles_the_letters() {
    let dictionary = Dictionary::load("plastic").unwrap();
    let mut rng = StdRng::seed_from_u64(11);
    let mut orders: Vec<Vec<char>> = Vec::new();
    let mut required: Vec<char> = Vec::new();
    for _ in 0..200 {
        let puzzle = PuzzleState::generate(&dictionary, &mut rng);
        if !orders.contains(puzzle.target_letters()) {
            orders.push(puzzle.target_letters().clone());
        }
        if !required.contains(&puzzle.required_letter()) {
            required.push(puzzle.required_letter());
        }
    }
    assert!(orders.len() > 100);
    assert!(orders.iter().any(|order| *order != sorted(order)));
    required.sort();
    assert_eq!(required, vec!['A', 'C', 'I', 'L', 'P', 'S', 'T']);
}

#[test]
fn new_puzzle_is_generate() {
    let dictionary = Dictionary::load(TEXT).unwrap();
    let first = new_puzzle(&dictionary, &mut StdRng::seed_from_u64(3));
    let second = PuzzleState::generate(&dictionary, &mut StdRng::seed_from_u64(3));
    assert_eq!(first.target_letters(), second.target_letters());
}
