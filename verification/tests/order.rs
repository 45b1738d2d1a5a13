use pangram_puzzle::order::{rank, sort_words, Rank};

fn list(words: &[&str]) -> Vec<String> {
    words.iter().map(|w| String::from(*w)).collect()
}

/// Words of one to six letters out of `abc`, in an order that looks random.
fn scrambled(count: usize, mut state: u64) -> Vec<String> {
    let mut words = Vec::new();
    for _ in 0..count {
        let mut word = String::new();
        state = state.wrapping_mul(6364136223846793005).wrapping_add(1442695040888963407);
        let length = 1 + (state >> 33) % 6;
        for _ in 0..length {
            state = state.wrapping_mul(6364136223846793005).wrapping_add(1442695040888963407);
            word.push(['a', 'b', 'c'][((state >> 33) % 3) as usize]);
        }
        words.push(word);
    }
    words
}

#[test]
fn rank_is_the_alphabetical_order() {
    assert_eq!(rank("apple", "apply"), Rank::Before);
    assert_eq!(rank("apply", "apple"), Rank::After);
    assert_eq!(rank("apple", "apple"), Rank::Same);
    assert_eq!(rank("a", "ab"), Rank::Before);
    assert_eq!(rank("ab", "a"), Rank::After);
    assert_eq!(rank("", ""), Rank::Same);
    assert_eq!(rank("", "a"), Rank::Before);
    assert_eq!(rank("a", ""), Rank::After);
    assert_eq!(rank("Zebra", "apple"), Rank::Before);
    assert_eq!(rank("z", "\u{e9}"), Rank::Before);
    assert_eq!(rank("\u{e9}", "\u{1f41d}"), Rank::Before);
}

#[test]
fn rank_agrees_with_the_order_of_strings() {
    let mut words = scrambled(60, 7);
    words.extend(list(&["", "z", "\u{e9}t\u{e9}", "\u{1f41d}", "\u{e9}", "zz", "Z"]));
    for a in &words {
        for b in &words {
            let expected = if a < b {
                Rank::Before
            } else if a == b {
                Rank::Same
            } else {
                Rank::After
            };
            assert_eq!(rank(a, b), expected, "{:?} and {:?}", a, b);
        }
    }
}

#[test]
fn sort_words_sorts_and_keeps_each_word_once() {
    let words = list(&["pails", "clips", "tapas", "clips", "capitals", "pails", "clips"]);
    assert_eq!(sort_words(&words), list(&["capitals", "clips", "pails", "tapas"]));
    assert_eq!(sort_words(&Vec::new()), Vec::<String>::new());
    assert_eq!(sort_words(&list(&["one"])), list(&["one"]));
    assert_eq!(sort_words(&list(&["b", "a"])), list(&["a", "b"]));
    assert_eq!(sort_words(&list(&["a", "a"])), list(&["a"]));
}

#[test]
fn sort_words_merges_lists_of_any_length() {
    let a = list(&["ant", "bee", "fly", "wasp", "bee", "bug", "wasp", "worm", "ant"]);
    assert_eq!(sort_words(&a), list(&["ant", "bee", "bug", "fly", "wasp", "worm"]));
    let mut long = Vec::new();
    for round in 0..3 {
        for word in scrambled(1000, round) {
            long.push(word);
        }
    }
    let sorted = sort_words(&long);
    for pair in sorted.windows(2) {
        assert!(pair[0] < pair[1]);
    }
    for word in &long {
        assert!(sorted.contains(word));
    }
    for word in &sorted {
        assert!(long.contains(word));
    }
}

#[test]
fn sort_words_agrees_with_sort_and_dedup() {
    for seed in 0..40u64 {
        let words = scrambled((seed as usize) * 7 % 150, seed);
        let mut expected = words.clone();
        expected.sort();
        expected.dedup();
        assert_eq!(sort_words(&words), expected);
    }
}
