use typewriter::display::{palette, parse_hex, same_text, word_cells, wrap_words, Cell, Look, Rgb};
use typewriter::stats::TypedChar;

#[test]
fn hex_colours() {
    assert_eq!(parse_hex("#e2b714"), Some(Rgb(0xe2, 0xb7, 0x14)));
    assert_eq!(parse_hex("E2B714"), Some(Rgb(0xe2, 0xb7, 0x14)));
    assert_eq!(parse_hex("#+f+f+f"), Some(Rgb(15, 15, 15)));
    assert_eq!(parse_hex("#e2b71"), None);
    assert_eq!(parse_hex("#e2b7145"), None);
    assert_eq!(parse_hex("#g2b714"), None);
    assert_eq!(parse_hex("#-1b714"), None);
    assert_eq!(parse_hex("ééé"), None);
    assert_eq!(parse_hex(""), None);
}

#[test]
fn palettes() {
    let dark = palette("dark", "#e2b714");
    assert_eq!(dark.bg, Rgb(9, 11, 15));
    assert_eq!(dark.accent, Rgb(226, 183, 20));
    let light = palette("light", "#102030");
    assert_eq!(light.text, Rgb(24, 26, 27));
    assert_eq!(light.accent, Rgb(16, 32, 48));
    assert_eq!(palette("catppuccin-mocha", "x").bg, Rgb(30, 30, 46));
    assert_eq!(palette("catppuccin", "x").accent, Rgb(226, 183, 20));
    assert_eq!(palette("nord", "x").error, Rgb(191, 97, 106));
    assert_eq!(palette("dracula", "x").dim, Rgb(98, 114, 164));
    assert_eq!(palette("Nord", "x").bg, Rgb(9, 11, 15));
    assert_eq!(palette("catppuccin-mocha", "#010203"), palette("catppuccin", "#010203"));
    assert_eq!(palette("Nord", "#010203"), palette("dark", "#010203"));
    assert_eq!(dark.error_bg, Rgb(82, 24, 34));
    assert!(same_text("nord", "nord"));
    assert!(!same_text("nord", "nor"));
}

fn typed(s: &str) -> Vec<TypedChar> {
    s.chars().map(|ch| TypedChar { ch }).collect()
}

#[test]
fn cells_of_the_current_word() {
    let cells = word_cells("cat", &typed("cx"), true, 2);
    assert_eq!(
        cells,
        vec![
            Cell { ch: 'c', look: Look::Correct, underline: true },
            Cell { ch: 'a', look: Look::Error, underline: true },
            Cell { ch: 't', look: Look::Cursor, underline: false },
        ]
    );
    let done = word_cells("at", &typed("atx"), true, 3);
    assert_eq!(done[2], Cell { ch: 'x', look: Look::Correct, underline: true });
    let end = word_cells("at", &typed("at"), true, 2);
    assert_eq!(end.len(), 3);
    assert_eq!(end[2], Cell { ch: ' ', look: Look::Cursor, underline: false });
}

#[test]
fn cells_of_other_words() {
    let cells = word_cells("go", &Vec::new(), false, 0);
    assert_eq!(cells, vec![
        Cell { ch: 'g', look: Look::Pending, underline: false },
        Cell { ch: 'o', look: Look::Pending, underline: false },
    ]);
}

#[test]
fn words_wrap_within_the_limit() {
    let words: Vec<String> = ["aaaaaaaaa"; 10].iter().map(|s| s.to_string()).collect();
    // Each word takes 10 columns; 30 columns hold three.
    assert_eq!(wrap_words(&words, 10), vec![0, 3, 6, 9]);
    assert_eq!(wrap_words(&words, 200), vec![0, 9]);
    assert_eq!(wrap_words(&words, 45), vec![0, 4, 8]);
    assert!(wrap_words(&Vec::new(), 80).is_empty());
    let long = vec!["x".repeat(100), "y".to_string()];
    assert_eq!(wrap_words(&long, 80), vec![0, 1]);
}
