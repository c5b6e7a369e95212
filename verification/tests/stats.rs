use typewriter::stats::{calculate, Ratio, Stats, TypedChar};

fn value(r: Ratio) -> f64 {
    r.num as f64 / r.den as f64
}

fn typed(s: &str) -> Vec<TypedChar> {
    s.chars().map(|ch| TypedChar { ch }).collect()
}

#[test]
fn calculates_wpm_raw_accuracy_breakdown() {
    let targets = vec!["abcd".to_string(), "xy".to_string()];
    let typed = vec![
        vec![
            TypedChar { ch: 'a' },
            TypedChar { ch: 'b' },
            TypedChar { ch: 'z' },
            TypedChar { ch: 'd' },
            TypedChar { ch: '!' },
        ],
        vec![TypedChar { ch: 'x' }],
    ];

    let stats = calculate(&targets, &typed, 60_000_000_000, 1);

    assert_eq!(stats.correct_chars, 4);
    assert_eq!(stats.incorrect_chars, 1);
    assert_eq!(stats.extra_chars, 1);
    assert_eq!(stats.missed_chars, 1);
    assert_eq!(stats.total_typed, 6);
    assert!((value(stats.wpm) - 0.8).abs() < f64::EPSILON);
    assert!((value(stats.raw_wpm) - 1.2).abs() < f64::EPSILON);
    assert!((value(stats.accuracy) - 66.66666666666666).abs() < 0.0001);
}

#[test]
fn only_words_up_to_the_current_one_are_scored() {
    let targets = vec!["ab".to_string(), "cd".to_string(), "ef".to_string()];
    let words = vec![typed("ab"), typed("c"), typed("zz")];
    let stats = calculate(&targets, &words, 1_000_000_000, 1);
    assert_eq!(stats.correct_chars, 3);
    assert_eq!(stats.incorrect_chars, 0);
    assert_eq!(stats.missed_chars, 1);
    assert_eq!(stats.total_typed, 3);
    let all = calculate(&targets, &words, 1_000_000_000, 10);
    assert_eq!(all.incorrect_chars, 2);
    assert_eq!(all.total_typed, 5);
}

#[test]
fn nothing_typed_is_fully_accurate_and_elapsed_has_a_floor() {
    let targets = vec!["hello".to_string()];
    let stats = calculate(&targets, &vec![Vec::new()], 0, 0);
    assert_eq!(stats.accuracy, Ratio { num: 100, den: 1 });
    assert_eq!(stats.missed_chars, 5);
    assert_eq!(stats.wpm.num, 0);
    assert_eq!(stats.elapsed_secs, Ratio { num: 1_000_000, den: 1_000_000_000 });
    assert!((value(stats.elapsed_secs) - 0.001).abs() < 1e-12);
}

#[test]
fn empty_targets_score_nothing() {
    let stats = calculate(&Vec::new(), &vec![typed("abc")], 5_000_000_000, 3);
    assert_eq!(stats.total_typed, 0);
    assert_eq!(stats.correct_chars, 0);
}

#[test]
fn missing_typed_entries_count_as_empty() {
    let targets = vec!["ab".to_string(), "cd".to_string()];
    let stats = calculate(&targets, &vec![typed("ab")], 30_000_000_000, 1);
    assert_eq!(stats.correct_chars, 2);
    assert_eq!(stats.missed_chars, 2);
    // 2 correct chars over 30 s: (2 / 5) / 0.5 min = 0.8 wpm.
    assert!((value(stats.wpm) - 0.8).abs() < 1e-12);
}

#[test]
fn typed_chars_partition_into_correct_incorrect_extra() {
    let targets = vec!["type".to_string(), "fast".to_string()];
    let words = vec![typed("tipe!!"), typed("fa")];
    let s = calculate(&targets, &words, 2_000_000_000, 1);
    assert_eq!(s.correct_chars + s.incorrect_chars + s.extra_chars, s.total_typed);
    assert!(s.wpm.num <= s.raw_wpm.num);
    assert_eq!(s.wpm.den, s.raw_wpm.den);
}

#[test]
fn default_stats_are_zero() {
    let s = Stats::default();
    assert_eq!(s.total_typed, 0);
    assert_eq!(s.accuracy.num, 0);
}
