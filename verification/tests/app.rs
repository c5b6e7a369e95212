use typewriter::app::{record_score, App, AppState, MAX_SCORES};
use typewriter::config::Config;
use typewriter::events::{AppEvent, KeyCode, KeyInput};
use typewriter::mode::Mode;
use typewriter::words::WordLists;

const SEC: u128 = 1_000_000_000;

fn key(code: KeyCode) -> AppEvent {
    AppEvent::Key(KeyInput { code, ctrl: false })
}

fn ch(c: char) -> AppEvent {
    key(KeyCode::Char(c))
}

fn ctrl(c: char) -> AppEvent {
    AppEvent::Key(KeyInput { code: KeyCode::Char(c), ctrl: true })
}

fn words(ws: &[&str]) -> Vec<String> {
    ws.iter().map(|w| w.to_string()).collect()
}

fn lists(english_200: &str) -> WordLists {
    WordLists { english_200: english_200.to_string(), english_1000: String::new() }
}

fn app_in(mode: Mode) -> App {
    App::new(Config::default(), mode, lists("alpha\nbeta\ngamma\n"))
}

fn started(mode: Mode, ws: &[&str]) -> App {
    let mut app = app_in(mode);
    assert!(app.step(key(KeyCode::Enter), 0, words(ws)).is_none());
    app
}

fn test_state(app: &App) -> &typewriter::app::TestState {
    match app.state() {
        AppState::Test(t) => t,
        _ => panic!("not in a test"),
    }
}

#[test]
fn starts_on_home_and_enter_starts_a_test() {
    let mut app = app_in(Mode::Words(2));
    match app.state() {
        AppState::Home(h) => assert_eq!(h.selected_mode, Mode::Words(2)),
        _ => panic!("not home"),
    }
    app.step(key(KeyCode::Enter), 5, words(&["hi", "yo"]));
    let t = test_state(&app);
    assert_eq!(t.words, words(&["hi", "yo"]));
    assert_eq!(t.typed.len(), 2);
    assert_eq!(t.current_word, 0);
    assert_eq!(t.cursor_in_word, 0);
    assert!(!t.started());
    assert!(t.caret_visible);
    assert_eq!(t.next_sample_at, 2 * SEC);
}

#[test]
fn typing_a_word_test_to_the_end_gives_a_score() {
    let mut app = started(Mode::Words(2), &["hi", "yo"]);
    assert!(app.step(ch('h'), 10 * SEC, vec![]).is_none());
    assert!(test_state(&app).started());
    assert_eq!(test_state(&app).timer.started_at, Some(10 * SEC));
    app.step(ch('i'), 11 * SEC, vec![]);
    app.step(ch(' '), 12 * SEC, vec![]);
    assert_eq!(test_state(&app).current_word, 1);
    app.step(ch('y'), 13 * SEC, vec![]);
    let score = app.step(ch('x'), 16 * SEC, vec![]).expect("a score");
    assert_eq!(score.mode, Mode::Words(2));
    assert_eq!(score.stats.correct_chars, 3);
    assert_eq!(score.stats.incorrect_chars, 1);
    assert_eq!(score.stats.total_typed, 4);
    assert_eq!(score.stats.elapsed_secs.num, 6 * SEC);
    match app.state() {
        AppState::Results(r) => {
            assert_eq!(r.stats, score.stats);
            assert_eq!(r.mode, Mode::Words(2));
        }
        _ => panic!("not on results"),
    }
}

#[test]
fn space_on_the_last_word_ends_the_test() {
    let mut app = started(Mode::Quote, &["go"]);
    app.step(ch('g'), SEC, vec![]);
    let score = app.step(ch(' '), 2 * SEC, vec![]).expect("a score");
    assert_eq!(score.stats.missed_chars, 1);
    assert!(matches!(app.state(), AppState::Results(_)));
}

#[test]
fn ending_with_nothing_typed_keeps_no_score() {
    let mut app = started(Mode::Words(1), &["go"]);
    assert!(app.step(ch(' '), SEC, vec![]).is_none());
    assert!(matches!(app.state(), AppState::Results(_)));
}

#[test]
fn backspace_undoes_typing() {
    let mut app = started(Mode::Words(2), &["hello", "world"]);
    app.step(ch('h'), SEC, vec![]);
    app.step(ch('x'), SEC, vec![]);
    app.step(key(KeyCode::Backspace), SEC, vec![]);
    let t = test_state(&app);
    assert_eq!(t.typed[0].len(), 1);
    assert_eq!(t.cursor_in_word, 1);
    app.step(key(KeyCode::Backspace), SEC, vec![]);
    app.step(key(KeyCode::Backspace), SEC, vec![]);
    let t = test_state(&app);
    assert_eq!(t.cursor_in_word, 0);
    assert!(t.typed[0].is_empty());
}

#[test]
fn moving_on_keeps_what_was_typed_and_the_cursor_follows() {
    let mut app = started(Mode::Words(3), &["ab", "cd", "ef"]);
    app.step(ch('a'), SEC, vec![]);
    app.step(ch(' '), SEC, vec![]);
    let t = test_state(&app);
    assert_eq!(t.current_word, 1);
    assert_eq!(t.cursor_in_word, 0);
    assert_eq!(t.typed[0].len(), 1);
    // One missed in the word left behind, two in the word now under way.
    assert_eq!(t.stats.missed_chars, 3);
}

#[test]
fn stop_on_error_holds_the_cursor() {
    let mut config = Config::default();
    config.behavior.stop_on_error = true;
    let mut app = App::new(config, Mode::Words(1), lists(""));
    app.step(key(KeyCode::Enter), 0, words(&["abc"]));
    app.step(ch('x'), SEC, vec![]);
    app.step(ch('b'), SEC, vec![]);
    app.step(ch(' '), SEC, vec![]);
    let t = test_state(&app);
    assert_eq!(t.typed[0].len(), 1);
    assert_eq!(t.current_word, 0);
    app.step(key(KeyCode::Backspace), SEC, vec![]);
    app.step(ch('a'), SEC, vec![]);
    assert_eq!(test_state(&app).typed[0].len(), 1);
}

#[test]
fn control_c_quits_for_good() {
    let mut app = started(Mode::Words(2), &["hi", "yo"]);
    app.step(ctrl('c'), 0, vec![]);
    assert!(app.should_quit());
    app.step(key(KeyCode::Enter), 0, words(&["a"]));
    app.step(AppEvent::Tick, 0, vec![]);
    assert!(app.should_quit());
}

#[test]
fn control_r_restarts_a_test() {
    let mut app = started(Mode::Words(2), &["hi", "yo"]);
    app.step(ch('h'), SEC, vec![]);
    app.step(ctrl('r'), 2 * SEC, words(&["new"]));
    let t = test_state(&app);
    assert_eq!(t.words, words(&["new"]));
    assert!(!t.started());
    // Control-R on the home screen does nothing.
    let mut home = app_in(Mode::Quote);
    home.step(ctrl('r'), 0, words(&["x"]));
    assert!(matches!(home.state(), AppState::Home(_)));
}

#[test]
fn home_keys_select_modes() {
    let mut app = app_in(Mode::Quote);
    let expect = [
        ('1', Mode::Words(25)),
        ('2', Mode::Words(50)),
        ('3', Mode::Words(100)),
        ('4', Mode::Time(15)),
        ('5', Mode::Time(30)),
        ('6', Mode::Time(60)),
        ('7', Mode::Quote),
    ];
    for (c, mode) in expect {
        app.step(ch(c), 0, vec![]);
        match app.state() {
            AppState::Home(h) => assert_eq!(h.selected_mode, mode),
            _ => panic!("not home"),
        }
    }
    app.step(ch('9'), 0, vec![]);
    assert!(matches!(app.state(), AppState::Home(_)));
    app.step(key(KeyCode::Esc), 0, vec![]);
    assert!(app.should_quit());
}

#[test]
fn timed_test_samples_and_expires() {
    let mut app = started(Mode::Time(3), &["a", "b", "c", "d", "e", "f"]);
    assert_eq!(test_state(&app).timer.limit, Some(3 * SEC));
    app.step(AppEvent::Tick, SEC, vec![]);
    assert_eq!(test_state(&app).tick, 1);
    assert!(test_state(&app).sample_chars.is_empty());
    app.step(ch('a'), SEC, vec![]);
    app.step(ch(' '), SEC, vec![]);
    app.step(ch('b'), SEC, vec![]);
    // Two seconds after the start, a sample of the two characters typed.
    app.step(AppEvent::Tick, 3 * SEC, vec![]);
    let t = test_state(&app);
    assert_eq!(t.sample_chars, vec![2]);
    assert_eq!(t.chars_at_last_sample, 2);
    assert_eq!(t.next_sample_at, 4 * SEC);
    // The caret blinked: more than 530 ms since the start.
    assert!(!t.caret_visible);
    let score = app.step(AppEvent::Tick, 4 * SEC, vec![]).expect("time is up");
    assert_eq!(score.sample_chars, vec![2]);
    assert_eq!(score.mode, Mode::Time(3));
    assert!(matches!(app.state(), AppState::Results(_)));
}

#[test]
fn results_keys() {
    let mut app = started(Mode::Words(1), &["a"]);
    app.step(ch('a'), SEC, vec![]);
    assert!(matches!(app.state(), AppState::Results(_)));
    app.step(key(KeyCode::Tab), SEC, words(&["b"]));
    assert_eq!(test_state(&app).words, words(&["b"]));
    app.step(key(KeyCode::Esc), SEC, vec![]);
    match app.state() {
        AppState::Home(h) => assert_eq!(h.selected_mode, Mode::Words(1)),
        _ => panic!("not home"),
    }
}

#[test]
fn resize_is_recorded_during_a_test() {
    let mut app = started(Mode::Words(1), &["a"]);
    app.step(AppEvent::Resize(120, 40), 0, vec![]);
    assert_eq!(test_state(&app).terminal_size, (120, 40));
}

#[test]
fn handle_event_draws_words_from_the_list() {
    let mut app = app_in(Mode::Words(4));
    assert!(app.starts_test(&key(KeyCode::Enter)));
    assert!(!app.starts_test(&ch('1')));
    app.handle_event(key(KeyCode::Enter));
    let t = test_state(&app);
    assert_eq!(t.words.len(), 4);
    for w in &t.words {
        assert!(["alpha", "beta", "gamma"].contains(&w.as_str()));
    }
    let mut timed = app_in(Mode::Time(30));
    assert_eq!(timed.generate_words().len(), 240);
    timed.handle_event(key(KeyCode::Enter));
    assert_eq!(test_state(&timed).timer.limit, Some(30 * SEC));
}

#[test]
fn scores_keep_the_most_recent_fifty() {
    let mut scores: Vec<u32> = Vec::new();
    for i in 0..60 {
        record_score(&mut scores, i);
    }
    assert_eq!(scores.len(), MAX_SCORES);
    assert_eq!(scores[0], 10);
    assert_eq!(*scores.last().unwrap(), 59);
}

#[test]
fn cursor_stays_after_what_was_typed() {
    let mut app = started(Mode::Words(3), &["one", "two", "six"]);
    let events = [
        ch('o'), ch('x'), key(KeyCode::Backspace), ch(' '), ch('t'), key(KeyCode::Backspace),
        key(KeyCode::Backspace), ch('t'), ch('w'), ch(' '), AppEvent::Tick, ch('s'),
        AppEvent::Resize(80, 24), key(KeyCode::Tab), key(KeyCode::Other),
    ];
    for (i, event) in events.into_iter().enumerate() {
        app.step(event, (i as u128) * SEC, vec![]);
        if let AppState::Test(t) = app.state() {
            assert_eq!(t.typed.len(), t.words.len());
            assert!(t.current_word < t.words.len());
            assert_eq!(t.cursor_in_word, t.typed[t.current_word].len());
        }
    }
    assert_eq!(test_state(&app).current_word, 2);
}

#[test]
fn quote_tests_always_have_words() {
    let mut app = App::new(Config::default(), Mode::Quote, lists(""));
    app.handle_event(key(KeyCode::Enter));
    assert!(!test_state(&app).words.is_empty());
}

#[test]
fn time_left_label_for_timed_tests() {
    let mut app = started(Mode::Time(30), &["a", "b"]);
    assert_eq!(test_state(&app).time_left_label(0).as_deref(), Some("30s left"));
    app.step(ch('a'), SEC, vec![]);
    assert_eq!(test_state(&app).time_left_label(SEC + SEC / 2).as_deref(), Some("29s left"));
    assert_eq!(test_state(&app).time_left_label(100 * SEC).as_deref(), Some("0s left"));
    let words = started(Mode::Words(2), &["a", "b"]);
    assert_eq!(test_state(&words).time_left_label(0), None);
}
