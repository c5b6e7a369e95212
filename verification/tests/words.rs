use typewriter::words::{
    quote, random_quote, random_stream, random_words, split_whitespace, word_list, WordLists, QUOTE_COUNT,
};

#[test]
fn split_whitespace_keeps_runs_of_non_space() {
    assert_eq!(split_whitespace("  make it\twork \n fast  "), vec!["make", "it", "work", "fast"]);
    assert!(split_whitespace("   ").is_empty());
    assert!(split_whitespace("").is_empty());
    assert_eq!(split_whitespace("one"), vec!["one"]);
    // U+3000 is Unicode white space too.
    assert_eq!(split_whitespace("a\u{3000}b"), vec!["a", "b"]);
}

#[test]
fn word_list_reads_non_blank_lines() {
    assert_eq!(word_list("the\nof\r\n\n  \nand"), vec!["the", "of", "and"]);
    // Lines are kept as they stand, surrounding spaces included.
    assert_eq!(word_list(" to \n"), vec![" to "]);
    // A carriage return without a newline after it stays.
    assert_eq!(word_list("a\r"), vec!["a\r"]);
    assert!(word_list("").is_empty());
    assert!(word_list("\n\n \t\n").is_empty());
}

#[test]
fn random_words_draw_from_the_list() {
    let lists = WordLists {
        english_200: "alpha\nbeta\ngamma\n".to_string(),
        english_1000: "delta\n".to_string(),
    };
    let words = random_words(&lists, "english_200", 25);
    assert_eq!(words.len(), 25);
    for w in &words {
        assert!(["alpha", "beta", "gamma"].contains(&w.as_str()));
    }
    assert_eq!(random_stream(&lists, "english_200", 240).len(), 240);
    assert_eq!(random_words(&lists, "english_1000", 3), vec!["delta", "delta", "delta"]);
    // Any other name draws from english_200.
    assert!(["alpha", "beta", "gamma"].contains(&random_words(&lists, "klingon", 1)[0].as_str()));
    assert_eq!(lists.source("english_1000"), "delta\n");
    let empty = WordLists { english_200: String::new(), english_1000: "\n  \n".to_string() };
    assert!(random_words(&empty, "english_200", 10).is_empty());
    assert!(random_words(&empty, "english_1000", 3).is_empty());
}

#[test]
fn random_quote_is_one_of_the_quotes() {
    let words = random_quote();
    let joined = words.join(" ");
    let all: Vec<&str> = (0..QUOTE_COUNT).map(quote).collect();
    assert!(all.contains(&joined.as_str()));
    assert_eq!(quote(2), "Simplicity is prerequisite for reliability");
}
