use typewriter::config::{mode_from_config, BehaviorConfig, Config, TestConfig};
use typewriter::mode::{push_decimal, Mode};

#[test]
fn labels() {
    assert_eq!(Mode::Words(25).label(), "25 words");
    assert_eq!(Mode::Time(30).label(), "30s");
    assert_eq!(Mode::Time(0).label(), "0s");
    assert_eq!(Mode::Quote.label(), "quote");
    assert_eq!(Mode::Words(100).label(), "100 words");
    let mut s = String::from("n=");
    push_decimal(&mut s, u64::MAX as u128);
    assert_eq!(s, format!("n={}", u64::MAX));
}

#[test]
fn config_defaults() {
    let c = Config::default();
    assert_eq!(c.test.default_mode, "words");
    assert_eq!(c.test.word_count, 25);
    assert_eq!(c.test.duration, 30);
    assert_eq!(c.theme.name, "dark");
    assert_eq!(c.theme.accent, "#e2b714");
    assert_eq!(c.behavior, BehaviorConfig { show_live_wpm: true, smooth_caret: true, stop_on_error: false });
}

fn with_test(default_mode: &str, word_count: usize, duration: u64) -> Config {
    let mut c = Config::default();
    c.test = TestConfig { default_mode: default_mode.to_string(), word_count, duration };
    c
}

#[test]
fn mode_from_settings() {
    assert_eq!(mode_from_config(&Config::default()), Mode::Words(25));
    assert_eq!(mode_from_config(&with_test("time", 10, 45)), Mode::Time(45));
    assert_eq!(mode_from_config(&with_test("time", 10, 0)), Mode::Time(1));
    assert_eq!(mode_from_config(&with_test("quote", 0, 0)), Mode::Quote);
    assert_eq!(mode_from_config(&with_test("words", 0, 0)), Mode::Words(1));
    assert_eq!(mode_from_config(&with_test("Time", 50, 0)), Mode::Words(50));
}

#[test]
fn config_clone_is_equal() {
    let c = with_test("quote", 3, 4);
    let d = c.clone();
    assert_eq!(d.test.default_mode, "quote");
    assert_eq!(d.test.word_count, 3);
    assert_eq!(d.theme.accent, c.theme.accent);
}

#[test]
fn labels_are_distinct() {
    let modes = [Mode::Words(1), Mode::Time(1), Mode::Words(10), Mode::Time(10), Mode::Quote, Mode::Words(0)];
    for a in modes {
        for b in modes {
            assert_eq!(a.label() == b.label(), a == b);
        }
    }
}
