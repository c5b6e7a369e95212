//! The screens of the typing test and how each event moves between them.
//!
//! `App::step` is the whole transition, a function of the state, the event,
//! one clock reading and the words a new test would use; `App::handle_event`
//! reads the clock, draws those words, and takes the step.
use vstd::prelude::*;
use vstd::string::*;

use crate::config::Config;
use crate::events::{AppEvent, KeyCode, KeyInput};
use crate::mode::Mode;
use crate::stats::{
    calculate, stats_of, strings_view, typed_at, typed_view, zero_stats, Stats, TypedChar,
};
use crate::timer::{clock_origin, nanos_since, TestTimer};
use crate::words::{
    random_quote, random_stream, random_words, split_ws, quote_text, word_list_of, WordLists,
    QUOTE_COUNT,
};

verus! {

/// How often the caret blinks: every 530 ms.
pub const CARET_BLINK_NANOS: u128 = 530_000_000;

/// How often a speed sample is taken: every two seconds.
pub const SAMPLE_NANOS: u128 = 2_000_000_000;

/// How many words a timed test draws.
pub const TIMED_WORDS: usize = 240;

/// The home screen.
pub struct HomeState {
    pub config: Config,
    pub selected_mode: Mode,
}

/// A test under way.
pub struct TestState {
    pub config: Config,
    pub mode: Mode,
    pub words: Vec<String>,
    /// What was typed into each word.
    pub typed: Vec<Vec<TypedChar>>,
    pub current_word: usize,
    pub cursor_in_word: usize,
    pub timer: TestTimer,
    pub stats: Stats,
    /// Characters typed in each two-second sampling window, oldest first.
    pub sample_chars: Vec<usize>,
    pub chars_at_last_sample: usize,
    /// The test time (nanoseconds since the first key press) at which the
    /// next sample is due.
    pub next_sample_at: u128,
    pub tick: u64,
    pub caret_visible: bool,
    /// The elapsed time (nanoseconds) at the last caret blink.
    pub last_caret_flip: u128,
    pub terminal_size: (u16, u16),
}

/// The results screen.
pub struct ResultsState {
    pub config: Config,
    pub mode: Mode,
    pub stats: Stats,
    pub sample_chars: Vec<usize>,
}

/// The screen shown.
pub enum AppState {
    Home(HomeState),
    Test(TestState),
    Results(ResultsState),
    Quitting,
}

/// A finished test worth keeping: something was typed.
pub struct Score {
    pub mode: Mode,
    pub stats: Stats,
    pub sample_chars: Vec<usize>,
}

/// The typing test.
pub struct App {
    state: AppState,
    config: Config,
    mode: Mode,
    last_words: Vec<String>,
    word_lists: WordLists,
    clock: std::time::Instant,
}

/// A test under way, with its sequences as mathematical values.
pub struct TestView {
    pub config: Config,
    pub mode: Mode,
    pub words: Seq<Seq<char>>,
    pub typed: Seq<Seq<TypedChar>>,
    pub current_word: usize,
    pub cursor_in_word: usize,
    pub timer: TestTimer,
    pub stats: Stats,
    pub sample_chars: Seq<usize>,
    pub chars_at_last_sample: usize,
    pub next_sample_at: u128,
    pub tick: u64,
    pub caret_visible: bool,
    pub last_caret_flip: u128,
    pub terminal_size: (u16, u16),
}

/// The screen shown, as a mathematical value.
pub enum StateView {
    Home { config: Config, selected_mode: Mode },
    Test(TestView),
    Results { config: Config, mode: Mode, stats: Stats, sample_chars: Seq<usize> },
    Quitting,
}

/// The whole test, as a mathematical value.
pub struct AppView {
    pub state: StateView,
    pub config: Config,
    pub mode: Mode,
    pub last_words: Seq<Seq<char>>,
    /// The text of the list new word and timed tests draw from.
    pub english_200: Seq<char>,
    /// The text of the larger list.
    pub english_1000: Seq<char>,
}

/// A kept score, as a mathematical value.
pub struct ScoreView {
    pub mode: Mode,
    pub stats: Stats,
    pub sample_chars: Seq<usize>,
}

impl View for TestState {
    type V = TestView;

    open spec fn view(&self) -> TestView {
        TestView {
            config: self.config,
            mode: self.mode,
            words: strings_view(self.words@),
            typed: typed_view(self.typed@),
            current_word: self.current_word,
            cursor_in_word: self.cursor_in_word,
            timer: self.timer,
            stats: self.stats,
            sample_chars: self.sample_chars@,
            chars_at_last_sample: self.chars_at_last_sample,
            next_sample_at: self.next_sample_at,
            tick: self.tick,
            caret_visible: self.caret_visible,
            last_caret_flip: self.last_caret_flip,
            terminal_size: self.terminal_size,
        }
    }
}

impl View for AppState {
    type V = StateView;

    open spec fn view(&self) -> StateView {
        match self {
            AppState::Home(h) => StateView::Home { config: h.config, selected_mode: h.selected_mode },
            AppState::Test(t) => StateView::Test(t@),
            AppState::Results(r) => StateView::Results {
                config: r.config,
                mode: r.mode,
                stats: r.stats,
                sample_chars: r.sample_chars@,
            },
            AppState::Quitting => StateView::Quitting,
        }
    }
}

impl View for Score {
    type V = ScoreView;

    open spec fn view(&self) -> ScoreView {
        ScoreView { mode: self.mode, stats: self.stats, sample_chars: self.sample_chars@ }
    }
}

impl View for App {
    type V = AppView;

    closed spec fn view(&self) -> AppView {
        AppView {
            state: self.state@,
            config: self.config,
            mode: self.mode,
            last_words: strings_view(self.last_words@),
            english_200: self.word_lists.english_200@,
            english_1000: self.word_lists.english_1000@,
        }
    }
}

/// The optional score as a mathematical value.
pub open spec fn score_view(s: Option<Score>) -> Option<ScoreView> {
    match s {
        Some(s) => Some(s@),
        None => None,
    }
}

// ---------------------------------------------------------------------------
// The rules, as functions of mathematical values.
// ---------------------------------------------------------------------------

/// A test is well formed when every word has its typed entry, the current
/// word exists (when there are words), and the cursor stands right after
/// what was typed into the current word.
pub open spec fn test_wf(t: TestView) -> bool {
    &&& t.typed.len() == t.words.len()
    &&& t.words.len() > 0 ==> t.current_word < t.words.len()
    &&& t.cursor_in_word == typed_at(t.typed, t.current_word as int).len()
    &&& forall|i: int| 0 <= i < t.typed.len() ==> #[trigger] t.typed[i].len() <= usize::MAX
}

/// The whole test is well formed when its test screen, if shown, is.
pub open spec fn app_wf(a: AppView) -> bool {
    a.state matches StateView::Test(t) ==> test_wf(t)
}

pub open spec fn wrapping_inc(x: u64) -> u64 {
    if x == u64::MAX {
        0
    } else {
        (x + 1) as u64
    }
}

pub open spec fn sat_sub(a: u128, b: u128) -> u128 {
    if a >= b {
        (a - b) as u128
    } else {
        0
    }
}

pub open spec fn sat_add(a: u128, b: u128) -> u128 {
    if a + b > u128::MAX {
        u128::MAX
    } else {
        (a + b) as u128
    }
}

pub open spec fn usize_sat_sub(a: usize, b: usize) -> usize {
    if a >= b {
        (a - b) as usize
    } else {
        0
    }
}

/// The time limit of a test in this mode: its seconds (at least one) for a
/// timed test, none otherwise.
pub open spec fn limit_for(mode: Mode) -> Option<u128> {
    match mode {
        Mode::Time(s) => Some(
            ((if s < 1 {
                1
            } else {
                s
            }) * 1_000_000_000) as u128,
        ),
        _ => None,
    }
}

/// The app after quitting.
pub open spec fn quit_view(a: AppView) -> AppView {
    AppView { state: StateView::Quitting, ..a }
}

/// The home screen with `mode` selected, which becomes the app's mode.
pub open spec fn set_home_mode_view(a: AppView, mode: Mode) -> AppView {
    AppView { mode, state: StateView::Home { config: a.config, selected_mode: mode }, ..a }
}

/// Back to the home screen.
pub open spec fn show_home_view(a: AppView) -> AppView {
    AppView { state: StateView::Home { config: a.config, selected_mode: a.mode }, ..a }
}

/// A fresh test over `words`.
pub open spec fn new_test_view(a: AppView, words: Seq<Seq<char>>) -> TestView {
    TestView {
        config: a.config,
        mode: a.mode,
        words,
        typed: Seq::new(words.len(), |i: int| Seq::<TypedChar>::empty()),
        current_word: 0,
        cursor_in_word: 0,
        timer: TestTimer { started_at: None, limit: limit_for(a.mode) },
        stats: zero_stats(),
        sample_chars: Seq::empty(),
        chars_at_last_sample: 0,
        next_sample_at: SAMPLE_NANOS,
        tick: 0,
        caret_visible: true,
        last_caret_flip: 0,
        terminal_size: (0, 0),
    }
}

/// The words a new test uses: the last test's again when asked and there
/// were any, else `fresh`.
pub open spec fn test_words(a: AppView, reuse_words: bool, fresh: Seq<Seq<char>>) -> Seq<Seq<char>> {
    if reuse_words && a.last_words.len() > 0 {
        a.last_words
    } else {
        fresh
    }
}

/// Starts a new test.
pub open spec fn start_test_view(a: AppView, reuse_words: bool, fresh: Seq<Seq<char>>) -> AppView {
    let words = test_words(a, reuse_words, fresh);
    AppView { last_words: words, state: StateView::Test(new_test_view(a, words)), ..a }
}

/// The statistics brought up to date at clock reading `now`.
pub open spec fn update_stats_view(t: TestView, now: u128) -> TestView {
    TestView {
        stats: stats_of(t.words, t.typed, t.timer.elapsed_at(now), t.current_word as nat),
        ..t
    }
}

/// Whether the character typed at position `i` of a word differs from the
/// word: it is not the word's character there, or lies past the word's end.
pub open spec fn mismatch_at(word: Seq<char>, typed: Seq<TypedChar>, i: int) -> bool {
    i >= word.len() || typed[i].ch != word[i]
}

/// Whether what was typed into the current word already differs from it.
pub open spec fn has_error_view(t: TestView) -> bool {
    &&& t.current_word < t.words.len()
    &&& exists|i: int|
        0 <= i < typed_at(t.typed, t.current_word as int).len() && #[trigger] mismatch_at(
            t.words[t.current_word as int],
            typed_at(t.typed, t.current_word as int),
            i,
        )
}

/// Whether error blocking holds the test back.
pub open spec fn blocked(t: TestView) -> bool {
    t.config.behavior.stop_on_error && has_error_view(t)
}

/// Ends test `t`: the statistics are brought up to date, the results screen
/// is shown, and the score is kept when anything was typed.
pub open spec fn finish_view(a: AppView, t: TestView, now: u128) -> (AppView, Option<ScoreView>) {
    let t2 = update_stats_view(t, now);
    let score = if t2.stats.total_typed > 0 {
        Some(ScoreView { mode: t2.mode, stats: t2.stats, sample_chars: t2.sample_chars })
    } else {
        None
    };
    (
        AppView {
            state: StateView::Results {
                config: a.config,
                mode: t2.mode,
                stats: t2.stats,
                sample_chars: t2.sample_chars,
            },
            ..a
        },
        score,
    )
}

/// Whether a test that has just taken a key is complete: a word or quote
/// test whose last word has been typed to its length.
pub open spec fn complete(t: TestView) -> bool {
    &&& (t.mode is Words || t.mode is Quote)
    &&& t.current_word + 1 >= t.words.len()
    &&& t.current_word < t.words.len()
    &&& t.cursor_in_word >= t.words[t.current_word as int].len()
}

/// Test `t` after typing `ch`: the clock starts, `ch` joins the current
/// word, the cursor moves on, and the statistics are brought up to date.
pub open spec fn typed_char_test(t: TestView, ch: char, now: u128) -> TestView {
    let cw = t.current_word as int;
    update_stats_view(
        TestView {
            timer: TestTimer {
                started_at: match t.timer.started_at {
                    Some(s) => Some(s),
                    None => Some(now),
                },
                ..t.timer
            },
            typed: t.typed.update(cw, t.typed[cw].push(TypedChar { ch })),
            cursor_in_word: (t.cursor_in_word + 1) as usize,
            ..t
        },
        now,
    )
}

/// Typing `ch` into test `t`. Nothing happens while error blocking holds,
/// nor when there is no word at the cursor; a test that becomes complete ends.
pub open spec fn type_char_view(a: AppView, t: TestView, ch: char, now: u128) -> (
    AppView,
    Option<ScoreView>,
) {
    if blocked(t) || t.current_word >= t.typed.len() {
        (a, None)
    } else {
        let t2 = typed_char_test(t, ch, now);
        if complete(t2) {
            finish_view(a, t2, now)
        } else {
            (AppView { state: StateView::Test(t2), ..a }, None)
        }
    }
}

/// Test `t` after Backspace: the last typed character of the current word
/// goes, unless the cursor is at the word's start.
pub open spec fn backspace_test(t: TestView, now: u128) -> TestView {
    let cw = t.current_word as int;
    if t.cursor_in_word == 0 {
        t
    } else if cw < t.typed.len() && t.typed[cw].len() > 0 {
        update_stats_view(
            TestView {
                typed: t.typed.update(cw, t.typed[cw].drop_last()),
                cursor_in_word: (t.cursor_in_word - 1) as usize,
                ..t
            },
            now,
        )
    } else {
        update_stats_view(t, now)
    }
}

/// Space in test `t`: the clock starts; on the last word the test ends,
/// otherwise the cursor moves to the end of what was typed into the next word.
pub open spec fn advance_word_view(a: AppView, t: TestView, now: u128) -> (
    AppView,
    Option<ScoreView>,
) {
    if blocked(t) {
        (a, None)
    } else {
        let t1 = TestView {
            timer: TestTimer {
                started_at: match t.timer.started_at {
                    Some(s) => Some(s),
                    None => Some(now),
                },
                ..t.timer
            },
            ..t
        };
        if t1.current_word + 1 >= t1.words.len() {
            finish_view(a, t1, now)
        } else {
            let next = (t1.current_word + 1) as usize;
            let t2 = update_stats_view(
                TestView {
                    current_word: next,
                    cursor_in_word: typed_at(t1.typed, next as int).len() as usize,
                    ..t1
                },
                now,
            );
            (AppView { state: StateView::Test(t2), ..a }, None)
        }
    }
}

/// Test `t` after a tick with its clock running, before a possible end: the
/// caret blinks when due, the statistics are brought up to date, and every
/// two seconds the characters typed since the last sample are recorded.
pub open spec fn tick_test(t: TestView, now: u128) -> TestView {
    let elapsed = t.timer.elapsed_at(now);
    let t2 = if t.config.behavior.smooth_caret && sat_sub(elapsed, t.last_caret_flip)
        >= CARET_BLINK_NANOS {
        TestView { caret_visible: !t.caret_visible, last_caret_flip: elapsed, ..t }
    } else {
        t
    };
    let t3 = update_stats_view(t2, now);
    if elapsed >= t3.next_sample_at {
        update_stats_view(
            TestView {
                sample_chars: t3.sample_chars.push(
                    usize_sat_sub(t3.stats.total_typed, t3.chars_at_last_sample),
                ),
                chars_at_last_sample: t3.stats.total_typed,
                next_sample_at: sat_add(t3.next_sample_at, SAMPLE_NANOS),
                ..t3
            },
            now,
        )
    } else {
        t3
    }
}

/// A clock tick during a test: the tick counter moves on; once the clock
/// runs, the test is brought up to date and ends when its time is up.
pub open spec fn tick_view(a: AppView, now: u128) -> (AppView, Option<ScoreView>) {
    match a.state {
        StateView::Test(t) => {
            let t1 = TestView { tick: wrapping_inc(t.tick), ..t };
            if t1.timer.started_at is None {
                (AppView { state: StateView::Test(t1), ..a }, None)
            } else {
                let t4 = tick_test(t1, now);
                if t4.timer.expired_at(now) {
                    finish_view(a, t4, now)
                } else {
                    (AppView { state: StateView::Test(t4), ..a }, None)
                }
            }
        },
        _ => (a, None),
    }
}

/// A resize during a test records the terminal's size.
pub open spec fn resize_view(a: AppView, width: u16, height: u16) -> AppView {
    match a.state {
        StateView::Test(t) => AppView {
            state: StateView::Test(TestView { terminal_size: (width, height), ..t }),
            ..a
        },
        _ => a,
    }
}

/// A key on the home screen: Escape quits, 1 to 7 select a mode, Enter or
/// Space start a test.
pub open spec fn home_key_view(a: AppView, code: KeyCode, fresh: Seq<Seq<char>>) -> AppView {
    match code {
        KeyCode::Esc => quit_view(a),
        KeyCode::Char(c) => if c == '1' {
            set_home_mode_view(a, Mode::Words(25))
        } else if c == '2' {
            set_home_mode_view(a, Mode::Words(50))
        } else if c == '3' {
            set_home_mode_view(a, Mode::Words(100))
        } else if c == '4' {
            set_home_mode_view(a, Mode::Time(15))
        } else if c == '5' {
            set_home_mode_view(a, Mode::Time(30))
        } else if c == '6' {
            set_home_mode_view(a, Mode::Time(60))
        } else if c == '7' {
            set_home_mode_view(a, Mode::Quote)
        } else if c == ' ' {
            start_test_view(a, false, fresh)
        } else {
            a
        },
        KeyCode::Enter => start_test_view(a, false, fresh),
        _ => a,
    }
}

/// A key during a test: Escape goes home, Backspace erases, Space moves to
/// the next word, and any other character is typed.
pub open spec fn test_key_view(a: AppView, t: TestView, code: KeyCode, now: u128) -> (
    AppView,
    Option<ScoreView>,
) {
    match code {
        KeyCode::Esc => (show_home_view(a), None),
        KeyCode::Backspace => (
            AppView { state: StateView::Test(backspace_test(t, now)), ..a },
            None,
        ),
        KeyCode::Char(c) => if c == ' ' {
            advance_word_view(a, t, now)
        } else {
            type_char_view(a, t, c, now)
        },
        _ => (a, None),
    }
}

/// A key on the results screen: Escape goes home, Tab or Enter start a test.
pub open spec fn results_key_view(a: AppView, code: KeyCode, fresh: Seq<Seq<char>>) -> AppView {
    match code {
        KeyCode::Esc => show_home_view(a),
        KeyCode::Tab => start_test_view(a, false, fresh),
        KeyCode::Enter => start_test_view(a, false, fresh),
        _ => a,
    }
}

/// A key, by screen.
pub open spec fn key_view(a: AppView, key: KeyInput, now: u128, fresh: Seq<Seq<char>>) -> (
    AppView,
    Option<ScoreView>,
) {
    match a.state {
        StateView::Home { .. } => (home_key_view(a, key.code, fresh), None),
        StateView::Test(t) => test_key_view(a, t, key.code, now),
        StateView::Results { .. } => (results_key_view(a, key.code, fresh), None),
        StateView::Quitting => (a, None),
    }
}

/// Whether a key is Control with `c`.
pub open spec fn is_ctrl_char(key: KeyInput, c: char) -> bool {
    key.ctrl && key.code == KeyCode::Char(c)
}

/// One event: Control-C quits from anywhere, Control-R restarts a test
/// under way, and otherwise the event goes to the screen shown. `now` is the
/// clock reading and `fresh` the words a new test would use.
pub open spec fn step_view(a: AppView, event: AppEvent, now: u128, fresh: Seq<Seq<char>>) -> (
    AppView,
    Option<ScoreView>,
) {
    match event {
        AppEvent::Key(key) => if is_ctrl_char(key, 'c') {
            (quit_view(a), None)
        } else if a.state is Test && is_ctrl_char(key, 'r') {
            (start_test_view(a, false, fresh), None)
        } else {
            key_view(a, key, now, fresh)
        },
        AppEvent::Tick => tick_view(a, now),
        AppEvent::Resize(w, h) => (resize_view(a, w, h), None),
    }
}

/// Whether the event starts a new test, and so needs words.
pub open spec fn starts_test(a: AppView, event: AppEvent) -> bool {
    match event {
        AppEvent::Key(key) => if is_ctrl_char(key, 'c') {
            false
        } else if a.state is Test {
            is_ctrl_char(key, 'r')
        } else if a.state is Home {
            key.code == KeyCode::Enter || key.code == KeyCode::Char(' ')
        } else if a.state is Results {
            key.code == KeyCode::Enter || key.code == KeyCode::Tab
        } else {
            false
        },
        _ => false,
    }
}

/// Whether `fresh` holds `count` words from the word list in `source`, or
/// nothing when that list is empty.
pub open spec fn drawn_from(source: Seq<char>, fresh: Seq<Seq<char>>, count: nat) -> bool {
    &&& word_list_of(source).len() == 0 ==> fresh.len() == 0
    &&& word_list_of(source).len() > 0 ==> fresh.len() == count
    &&& forall|i: int| 0 <= i < fresh.len() ==> word_list_of(source).contains(#[trigger] fresh[i])
}

/// Whether `fresh` could be the words of a new test in `mode`: for a word
/// test, as many words from the list as asked (at least one); for a timed
/// test, 240 words from the list; for a quote test, the words of one quote.
pub open spec fn generated_for(mode: Mode, source: Seq<char>, fresh: Seq<Seq<char>>) -> bool {
    match mode {
        Mode::Words(n) => drawn_from(source, fresh, if n < 1 {
            1
        } else {
            n as nat
        }),
        Mode::Time(_) => drawn_from(source, fresh, TIMED_WORDS as nat),
        Mode::Quote => exists|i: int| 0 <= i < QUOTE_COUNT && fresh == split_ws(#[trigger] quote_text(i)),
    }
}


// ---------------------------------------------------------------------------
// The executable test.
// ---------------------------------------------------------------------------

proof fn lemma_new_test_wf(a: AppView, words: Seq<Seq<char>>)
    ensures
        test_wf(new_test_view(a, words)),
{
    let t = new_test_view(a, words);
    if 0 < t.typed.len() {
        assert(typed_at(t.typed, 0).len() == 0);
    }
}

proof fn lemma_typed_char_wf(t: TestView, ch: char, now: u128)
    requires
        test_wf(t),
        t.current_word < t.typed.len(),
        t.cursor_in_word < usize::MAX,
    ensures
        test_wf(typed_char_test(t, ch, now)),
{
    let t2 = typed_char_test(t, ch, now);
    assert(typed_at(t2.typed, t2.current_word as int) == t.typed[t.current_word as int].push(
        TypedChar { ch },
    ));
}

proof fn lemma_backspace_wf(t: TestView, now: u128)
    requires
        test_wf(t),
    ensures
        test_wf(backspace_test(t, now)),
{
    let cw = t.current_word as int;
    if t.cursor_in_word != 0 && cw < t.typed.len() && t.typed[cw].len() > 0 {
        let t2 = backspace_test(t, now);
        assert(typed_at(t2.typed, cw) == t.typed[cw].drop_last());
    }
}

proof fn lemma_tick_wf(t: TestView, now: u128)
    requires
        test_wf(t),
    ensures
        test_wf(tick_test(t, now)),
{
}

/// The whole seconds left of the limit at `now`; none without a limit.
pub open spec fn secs_left(timer: TestTimer, now: u128) -> nat {
    match timer.remaining_at(now) {
        Some(r) => (r / 1_000_000_000) as nat,
        None => 0,
    }
}

impl TestState {
    /// For a timed test, "<n>s left" with the whole seconds left at `now`;
    /// none for word and quote tests.
    pub fn time_left_label(&self, now: u128) -> (label: Option<String>)
        ensures
            self.mode is Time ==> (label matches Some(l) && l@ == crate::mode::decimal(
                secs_left(self.timer, now),
            ) + "s left"@),
            !(self.mode is Time) ==> label is None,
    {
        match self.mode {
            Mode::Time(_) => {
                let left = match self.timer.remaining(now) {
                    Some(r) => r,
                    None => 0,
                };
                let mut s = String::new();
                crate::mode::push_decimal(&mut s, left / 1_000_000_000);
                s.append("s left");
                Some(s)
            },
            _ => None,
        }
    }

    /// Whether the test's clock has started.
    pub fn started(&self) -> (b: bool)
        ensures
            b == self.timer.started_at is Some,
    {
        self.timer.is_started()
    }
}

/// Brings the statistics of a test up to date at clock reading `now`.
fn update_test_stats(test: &mut TestState, now: u128)
    ensures
        final(test)@ == update_stats_view(old(test)@, now),
{
    let elapsed = test.timer.elapsed(now);
    test.stats = calculate(&test.words, &test.typed, elapsed, test.current_word);
}

/// Whether what was typed into the current word already differs from it.
fn has_current_error(test: &TestState) -> (b: bool)
    ensures
        b == has_error_view(test@),
{
    let cw = test.current_word;
    if cw >= test.words.len() {
        return false;
    }
    let ghost t = test@;
    let target = crate::text::chars_of(test.words[cw].as_str());
    assert(target@ == t.words[cw as int]);
    if cw >= test.typed.len() {
        assert(typed_at(t.typed, cw as int).len() == 0);
        return false;
    }
    let typed = &test.typed[cw];
    assert(typed@ == typed_at(t.typed, cw as int));
    let n = typed.len();
    let mut i: usize = 0;
    while i < n
        invariant
            t == test@,
            cw == test.current_word,
            cw < t.words.len(),
            n == typed@.len(),
            i <= n,
            typed@ == typed_at(t.typed, cw as int),
            target@ == t.words[cw as int],
            forall|j: int| 0 <= j < i ==> !#[trigger] mismatch_at(target@, typed@, j),
        decreases n - i,
    {
        if i >= target.len() || typed[i].ch != target[i] {
            assert(mismatch_at(target@, typed@, i as int));
            assert(t.current_word == cw);
            assert(mismatch_at(
                t.words[t.current_word as int],
                typed_at(t.typed, t.current_word as int),
                i as int,
            ));
            return true;
        }
        i = i + 1;
    }
    false
}

/// Whether a key code is the character `c`.
fn is_char(code: KeyCode, c: char) -> (b: bool)
    ensures
        b == (code == KeyCode::Char(c)),
{
    match code {
        KeyCode::Char(x) => x == c,
        _ => false,
    }
}

impl App {
    #[verifier::type_invariant]
    closed spec fn wf(self) -> bool {
        app_wf(self@)
    }

    /// The app on its home screen with `mode` selected; new tests draw their
    /// words from the "english_200" list of `word_lists`.
    pub fn new(config: Config, mode: Mode, word_lists: WordLists) -> (app: App)
        ensures
            app@ == (AppView {
                state: StateView::Home { config, selected_mode: mode },
                config,
                mode,
                last_words: Seq::empty(),
                english_200: word_lists.english_200@,
                english_1000: word_lists.english_1000@,
            }),
    {
        let app = App {
            state: AppState::Home(HomeState { config: config.clone(), selected_mode: mode }),
            config,
            mode,
            last_words: Vec::new(),
            word_lists,
            clock: clock_origin(),
        };
        assert(app@.last_words =~= Seq::empty());
        app
    }

    /// The screen shown.
    pub fn state(&self) -> (s: &AppState)
        ensures
            s@ == self@.state,
    {
        &self.state
    }

    /// Whether the app has quit.
    pub fn should_quit(&self) -> (b: bool)
        ensures
            b == self@.state is Quitting,
    {
        match self.state {
            AppState::Quitting => true,
            _ => false,
        }
    }

    /// Quits.
    pub fn quit(&mut self)
        ensures
            final(self)@ == quit_view(old(self)@),
    {
        proof {
            use_type_invariant(&*self);
        }
        self.state = AppState::Quitting;
    }

    fn set_home_mode(&mut self, mode: Mode)
        ensures
            final(self)@ == set_home_mode_view(old(self)@, mode),
    {
        proof {
            use_type_invariant(&*self);
        }
        self.mode = mode;
        self.state = AppState::Home(HomeState { config: self.config.clone(), selected_mode: mode });
    }

    fn show_home(&mut self)
        ensures
            final(self)@ == show_home_view(old(self)@),
    {
        proof {
            use_type_invariant(&*self);
        }
        self.state = AppState::Home(
            HomeState { config: self.config.clone(), selected_mode: self.mode },
        );
    }

    fn start_test(&mut self, reuse_words: bool, fresh: Vec<String>)
        ensures
            final(self)@ == start_test_view(old(self)@, reuse_words, strings_view(fresh@)),
    {
        proof {
            use_type_invariant(&*self);
        }
        let ghost a = self@;
        let words = if reuse_words && self.last_words.len() > 0 {
            let w = self.last_words.clone();
            assert(strings_view(w@) =~= strings_view(self.last_words@)) by {
                assert forall|i: int| 0 <= i < w@.len() implies w@[i] == self.last_words@[i] by {
                    assert(vstd::pervasive::cloned::<String>(self.last_words@[i], w@[i]));
                }
            }
            w
        } else {
            fresh
        };
        assert(strings_view(words@) == test_words(a, reuse_words, strings_view(fresh@)));
        let kept = words.clone();
        assert(strings_view(kept@) =~= strings_view(words@)) by {
            assert forall|i: int| 0 <= i < kept@.len() implies kept@[i] == words@[i] by {
                assert(vstd::pervasive::cloned::<String>(words@[i], kept@[i]));
            }
        }
        self.last_words = kept;
        let limit = match self.mode {
            Mode::Time(s) => {
                let secs: u64 = if s < 1 {
                    1
                } else {
                    s
                };
                assert(secs * 1_000_000_000 <= u64::MAX * 1_000_000_000) by (nonlinear_arith)
                    requires
                        secs <= u64::MAX,
                ;
                Some((secs as u128) * 1_000_000_000)
            },
            _ => None,
        };
        let n = words.len();
        let mut typed: Vec<Vec<TypedChar>> = Vec::new();
        let mut i: usize = 0;
        while i < n
            invariant
                i <= n,
                typed@.len() == i,
                forall|j: int| 0 <= j < i ==> (#[trigger] typed@[j])@.len() == 0,
            decreases n - i,
        {
            typed.push(Vec::new());
            i = i + 1;
        }
        let test = TestState {
            config: self.config.clone(),
            mode: self.mode,
            words,
            typed,
            current_word: 0,
            cursor_in_word: 0,
            timer: TestTimer::new(limit),
            stats: Stats::zero(),
            sample_chars: Vec::new(),
            chars_at_last_sample: 0,
            next_sample_at: SAMPLE_NANOS,
            tick: 0,
            caret_visible: true,
            last_caret_flip: 0,
            terminal_size: (0, 0),
        };
        let ghost nt = new_test_view(a, strings_view(words@));
        assert forall|j: int| 0 <= j < n implies (#[trigger] test@.typed[j]) =~= nt.typed[j] by {
            assert(test@.typed[j] == typed@[j]@);
        }
        assert(test@.typed =~= nt.typed);
        assert(test@.sample_chars =~= nt.sample_chars);
        assert(test@ == nt);
        proof {
            lemma_new_test_wf(a, strings_view(words@));
        }
        self.state = AppState::Test(test);
    }
}


impl App {
    /// Ends test `test`: results screen, and the score when anything was typed.
    fn finish_test(&mut self, test: TestState, now: u128) -> (score: Option<Score>)
        ensures
            (final(self)@, score_view(score)) == finish_view(old(self)@, test@, now),
    {
        proof {
            use_type_invariant(&*self);
        }
        let mut test = test;
        update_test_stats(&mut test, now);
        let score = if test.stats.total_typed > 0 {
            let samples = test.sample_chars.clone();
            assert(samples@ =~= test.sample_chars@);
            Some(Score { mode: test.mode, stats: test.stats, sample_chars: samples })
        } else {
            None
        };
        self.state = AppState::Results(
            ResultsState {
                config: self.config.clone(),
                mode: test.mode,
                stats: test.stats,
                sample_chars: test.sample_chars,
            },
        );
        score
    }

    /// Types `ch` into the test under way.
    fn type_char(&mut self, ch: char, now: u128) -> (score: Option<Score>)
        ensures
            (final(self)@, score_view(score)) == match old(self)@.state {
                StateView::Test(t) => type_char_view(old(self)@, t, ch, now),
                _ => (old(self)@, None),
            },
    {
        proof {
            use_type_invariant(&*self);
        }
        let ghost a = self@;
        let mut state = AppState::Quitting;
        std::mem::swap(&mut state, &mut self.state);
        match state {
            AppState::Test(mut test) => {
                let ghost t = test@;
                if (test.config.behavior.stop_on_error && has_current_error(&test))
                    || test.current_word >= test.typed.len() {
                    self.state = AppState::Test(test);
                    return None;
                }
                test.timer.start(now);
                let cw = test.current_word;
                test.typed[cw].push(TypedChar { ch });
                let len_after = test.typed[cw].len();
                assert(test.cursor_in_word < len_after);
                test.cursor_in_word = test.cursor_in_word + 1;
                update_test_stats(&mut test, now);
                assert(test@.typed =~= t.typed.update(
                    cw as int,
                    t.typed[cw as int].push(TypedChar { ch }),
                ));
                assert(test@ == typed_char_test(t, ch, now));
                proof {
                    lemma_typed_char_wf(t, ch, now);
                }
                let finish = match test.mode {
                    Mode::Words(_) => true,
                    Mode::Quote => true,
                    Mode::Time(_) => false,
                } && cw + 1 >= test.words.len() && cw < test.words.len()
                    && test.cursor_in_word >= test.words[cw].as_str().unicode_len();
                if finish {
                    self.finish_test(test, now)
                } else {
                    self.state = AppState::Test(test);
                    None
                }
            },
            other => {
                self.state = other;
                None
            },
        }
    }

    /// Erases the last character typed into the current word.
    fn backspace(&mut self, now: u128)
        ensures
            final(self)@ == match old(self)@.state {
                StateView::Test(t) => AppView {
                    state: StateView::Test(backspace_test(t, now)),
                    ..old(self)@
                },
                _ => old(self)@,
            },
    {
        proof {
            use_type_invariant(&*self);
        }
        let mut state = AppState::Quitting;
        std::mem::swap(&mut state, &mut self.state);
        match state {
            AppState::Test(mut test) => {
                let ghost t = test@;
                proof {
                    lemma_backspace_wf(t, now);
                }
                if test.cursor_in_word == 0 {
                    self.state = AppState::Test(test);
                    return ;
                }
                let cw = test.current_word;
                if cw < test.typed.len() {
                    if test.typed[cw].pop().is_some() {
                        test.cursor_in_word = test.cursor_in_word - 1;
                        assert(test@.typed =~= t.typed.update(
                            cw as int,
                            t.typed[cw as int].drop_last(),
                        ));
                    } else {
                        assert(test@.typed =~= t.typed);
                    }
                }
                update_test_stats(&mut test, now);
                self.state = AppState::Test(test);
            },
            other => {
                self.state = other;
            },
        }
    }

    /// Moves to the next word, or ends the test on the last one.
    fn advance_word(&mut self, now: u128) -> (score: Option<Score>)
        ensures
            (final(self)@, score_view(score)) == match old(self)@.state {
                StateView::Test(t) => advance_word_view(old(self)@, t, now),
                _ => (old(self)@, None),
            },
    {
        proof {
            use_type_invariant(&*self);
        }
        let mut state = AppState::Quitting;
        std::mem::swap(&mut state, &mut self.state);
        match state {
            AppState::Test(mut test) => {
                if test.config.behavior.stop_on_error && has_current_error(&test) {
                    self.state = AppState::Test(test);
                    return None;
                }
                test.timer.start(now);
                if test.current_word >= test.words.len() || test.current_word + 1
                    >= test.words.len() {
                    return self.finish_test(test, now);
                }
                let next = test.current_word + 1;
                test.current_word = next;
                test.cursor_in_word = test.typed[next].len();
                update_test_stats(&mut test, now);
                self.state = AppState::Test(test);
                None
            },
            other => {
                self.state = other;
                None
            },
        }
    }
}


impl App {
    /// A clock tick.
    fn on_tick(&mut self, now: u128) -> (score: Option<Score>)
        ensures
            (final(self)@, score_view(score)) == tick_view(old(self)@, now),
    {
        proof {
            use_type_invariant(&*self);
        }
        let mut state = AppState::Quitting;
        std::mem::swap(&mut state, &mut self.state);
        match state {
            AppState::Test(mut test) => {
                let ghost t = test@;
                test.tick = if test.tick == u64::MAX {
                    0
                } else {
                    test.tick + 1
                };
                let ghost t1 = test@;
                proof {
                    lemma_tick_wf(t1, now);
                }
                if !test.timer.is_started() {
                    self.state = AppState::Test(test);
                    return None;
                }
                let elapsed = test.timer.elapsed(now);
                if test.config.behavior.smooth_caret && elapsed.saturating_sub(test.last_caret_flip)
                    >= CARET_BLINK_NANOS {
                    test.caret_visible = !test.caret_visible;
                    test.last_caret_flip = elapsed;
                }
                update_test_stats(&mut test, now);
                if elapsed >= test.next_sample_at {
                    let delta = test.stats.total_typed.saturating_sub(test.chars_at_last_sample);
                    test.sample_chars.push(delta);
                    test.chars_at_last_sample = test.stats.total_typed;
                    test.next_sample_at = test.next_sample_at.saturating_add(SAMPLE_NANOS);
                    update_test_stats(&mut test, now);
                }
                assert(test@ == tick_test(t1, now));
                if test.timer.expired(now) {
                    self.finish_test(test, now)
                } else {
                    self.state = AppState::Test(test);
                    None
                }
            },
            other => {
                self.state = other;
                None
            },
        }
    }

    /// Records the terminal's size during a test.
    fn on_resize(&mut self, width: u16, height: u16)
        ensures
            final(self)@ == resize_view(old(self)@, width, height),
    {
        proof {
            use_type_invariant(&*self);
        }
        let mut state = AppState::Quitting;
        std::mem::swap(&mut state, &mut self.state);
        match state {
            AppState::Test(mut test) => {
                test.terminal_size = (width, height);
                self.state = AppState::Test(test);
            },
            other => {
                self.state = other;
            },
        }
    }

    fn on_home_key(&mut self, code: KeyCode, fresh: Vec<String>)
        ensures
            final(self)@ == home_key_view(old(self)@, code, strings_view(fresh@)),
    {
        match code {
            KeyCode::Esc => self.quit(),
            KeyCode::Char(c) => {
                if c == '1' {
                    self.set_home_mode(Mode::Words(25))
                } else if c == '2' {
                    self.set_home_mode(Mode::Words(50))
                } else if c == '3' {
                    self.set_home_mode(Mode::Words(100))
                } else if c == '4' {
                    self.set_home_mode(Mode::Time(15))
                } else if c == '5' {
                    self.set_home_mode(Mode::Time(30))
                } else if c == '6' {
                    self.set_home_mode(Mode::Time(60))
                } else if c == '7' {
                    self.set_home_mode(Mode::Quote)
                } else if c == ' ' {
                    self.start_test(false, fresh)
                }
            },
            KeyCode::Enter => self.start_test(false, fresh),
            _ => {},
        }
    }

    fn on_test_key(&mut self, code: KeyCode, now: u128) -> (score: Option<Score>)
        requires
            old(self)@.state is Test,
        ensures
            (final(self)@, score_view(score)) == test_key_view(
                old(self)@,
                old(self)@.state->Test_0,
                code,
                now,
            ),
    {
        match code {
            KeyCode::Esc => {
                self.show_home();
                None
            },
            KeyCode::Backspace => {
                self.backspace(now);
                None
            },
            KeyCode::Char(c) => {
                if c == ' ' {
                    self.advance_word(now)
                } else {
                    self.type_char(c, now)
                }
            },
            _ => None,
        }
    }

    fn on_results_key(&mut self, code: KeyCode, fresh: Vec<String>)
        ensures
            final(self)@ == results_key_view(old(self)@, code, strings_view(fresh@)),
    {
        match code {
            KeyCode::Esc => self.show_home(),
            KeyCode::Tab => self.start_test(false, fresh),
            KeyCode::Enter => self.start_test(false, fresh),
            _ => {},
        }
    }

    fn on_key(&mut self, key: KeyInput, now: u128, fresh: Vec<String>) -> (score: Option<Score>)
        ensures
            (final(self)@, score_view(score)) == key_view(old(self)@, key, now, strings_view(fresh@)),
    {
        match &self.state {
            AppState::Home(_) => {
                self.on_home_key(key.code, fresh);
                None
            },
            AppState::Test(_) => self.on_test_key(key.code, now),
            AppState::Results(_) => {
                self.on_results_key(key.code, fresh);
                None
            },
            AppState::Quitting => None,
        }
    }

    /// One event, with `now` the clock reading (nanoseconds since the app
    /// started) and `fresh` the words a new test would use.
    pub fn step(&mut self, event: AppEvent, now: u128, fresh: Vec<String>) -> (score: Option<Score>)
        ensures
            (final(self)@, score_view(score)) == step_view(
                old(self)@,
                event,
                now,
                strings_view(fresh@),
            ),
    {
        match event {
            AppEvent::Key(key) => {
                if key.ctrl && is_char(key.code, 'c') {
                    self.quit();
                    return None;
                }
                let in_test = match &self.state {
                    AppState::Test(_) => true,
                    _ => false,
                };
                if in_test && key.ctrl && is_char(key.code, 'r') {
                    self.start_test(false, fresh);
                    return None;
                }
                self.on_key(key, now, fresh)
            },
            AppEvent::Tick => self.on_tick(now),
            AppEvent::Resize(width, height) => {
                self.on_resize(width, height);
                None
            },
        }
    }

    /// Whether `event` starts a new test.
    pub fn starts_test(&self, event: &AppEvent) -> (b: bool)
        ensures
            b == starts_test(self@, *event),
    {
        match event {
            AppEvent::Key(key) => {
                if key.ctrl && is_char(key.code, 'c') {
                    false
                } else {
                    match &self.state {
                        AppState::Test(_) => key.ctrl && is_char(key.code, 'r'),
                        AppState::Home(_) => match key.code {
                            KeyCode::Enter => true,
                            KeyCode::Char(c) => c == ' ',
                            _ => false,
                        },
                        AppState::Results(_) => match key.code {
                            KeyCode::Enter => true,
                            KeyCode::Tab => true,
                            _ => false,
                        },
                        AppState::Quitting => false,
                    }
                }
            },
            _ => false,
        }
    }

    /// Draws the words of a new test in the current mode.
    pub fn generate_words(&self) -> (words: Vec<String>)
        ensures
            generated_for(self@.mode, self@.english_200, strings_view(words@)),
            (self@.mode is Quote || word_list_of(self@.english_200).len() > 0) ==> words@.len() >= 1,
    {
        proof {
            reveal_strlit("english_200");
            reveal_strlit("english_1000");
            assert("english_200"@[8] != "english_1000"@[8]);
            assert(self.word_lists.text_of("english_200"@) == self@.english_200);
        }
        let words = match self.mode {
            Mode::Words(n) => random_words(&self.word_lists, "english_200", if n < 1 {
                1
            } else {
                n
            }),
            Mode::Time(_) => random_stream(&self.word_lists, "english_200", TIMED_WORDS),
            Mode::Quote => random_quote(),
        };
        proof {
            match self@.mode {
                Mode::Quote => {
                    let i = choose|i: int|
                        0 <= i < QUOTE_COUNT && strings_view(words@) == split_ws(
                            #[trigger] quote_text(i),
                        );
                    crate::words::law_quotes_have_words(i);
                },
                _ => {
                    assert forall|i: int| 0 <= i < strings_view(words@).len() implies word_list_of(
                        self@.english_200,
                    ).contains(#[trigger] strings_view(words@)[i]) by {
                        assert(strings_view(words@)[i] == words@[i]@);
                    }
                },
            }
        }
        words
    }

    /// The time since the app started, in nanoseconds, on the monotonic clock.
    pub fn now(&self) -> u128 {
        nanos_since(&self.clock)
    }

    /// Reacts to one event: reads the clock once, draws new words when the
    /// event starts a test, and takes the step. Returns the score of a test
    /// that ended with something typed.
    pub fn handle_event(&mut self, event: AppEvent) -> (score: Option<Score>)
        ensures
            exists|now: u128, fresh: Seq<Seq<char>>|
                {
                    &&& starts_test(old(self)@, event) ==> generated_for(
                        old(self)@.mode,
                        old(self)@.english_200,
                        fresh,
                    )
                    &&& (final(self)@, score_view(score)) == #[trigger] step_view(
                        old(self)@,
                        event,
                        now,
                        fresh,
                    )
                },
            word_list_of(old(self)@.english_200).len() > 0 && has_words(old(self)@) ==> has_words(
                final(self)@,
            ),
    {
        let now = self.now();
        let fresh = if self.starts_test(&event) {
            self.generate_words()
        } else {
            Vec::new()
        };
        let ghost fw = strings_view(fresh@);
        let ghost a = self@;
        let score = self.step(event, now, fresh);
        assert(starts_test(a, event) ==> generated_for(a.mode, a.english_200, fw));
        proof {
            if word_list_of(a.english_200).len() > 0 && has_words(a) {
                law_step_keeps_words(a, event, now, fw);
            }
        }
        score
    }
}


/// The most scores kept.
pub const MAX_SCORES: usize = 50;

/// The last `MAX_SCORES` of `s`, or all of it when there are no more.
pub open spec fn most_recent<T>(s: Seq<T>) -> Seq<T> {
    if s.len() > MAX_SCORES {
        s.subrange(s.len() - MAX_SCORES, s.len() as int)
    } else {
        s
    }
}

/// Adds a score to the kept ones, dropping the oldest beyond `MAX_SCORES`.
pub fn record_score<T>(scores: &mut Vec<T>, score: T)
    ensures
        final(scores)@ == most_recent(old(scores)@.push(score)),
{
    scores.push(score);
    if scores.len() > MAX_SCORES {
        let keep_from = scores.len() - MAX_SCORES;
        let kept = scores.split_off(keep_from);
        *scores = kept;
    }
}

/// At most `MAX_SCORES` scores are kept, the newest one last, in the order
/// they came.
pub proof fn law_scores_keep_most_recent<T>(scores: Seq<T>, score: T)
    ensures
        most_recent(scores.push(score)).len() <= MAX_SCORES,
        most_recent(scores.push(score)).last() == score,
        scores.len() < MAX_SCORES ==> most_recent(scores.push(score)) == scores.push(score),
{
}

/// Every event keeps the test well formed: each word has its typed entry,
/// the current word exists, and the cursor stands right after what was
/// typed into the current word. (A word never holds more than `usize::MAX`
/// typed characters, so the current one has room for one more.)
pub proof fn law_step_preserves_wf(a: AppView, event: AppEvent, now: u128, fresh: Seq<Seq<char>>)
    requires
        app_wf(a),
        a.state matches StateView::Test(t) ==> t.cursor_in_word < usize::MAX,
    ensures
        app_wf(step_view(a, event, now, fresh).0),
{
    lemma_new_test_wf(a, test_words(a, false, fresh));
    if let StateView::Test(t) = a.state {
        lemma_backspace_wf(t, now);
        let t1 = TestView { tick: wrapping_inc(t.tick), ..t };
        lemma_tick_wf(t1, now);
        if !blocked(t) && t.current_word < t.typed.len() {
            if t.cursor_in_word < usize::MAX {
                lemma_typed_char_wf(t, ch_of(event), now);
            }
        }
        if test_wf(t) && t.current_word + 1 < t.words.len() {
            let next = (t.current_word + 1) as usize;
            assert(t.typed[next as int].len() <= usize::MAX);
            assert(test_wf(TestView {
                current_word: next,
                cursor_in_word: typed_at(t.typed, next as int).len() as usize,
                ..t
            }));
        }
    }
}

/// The character a key event types, if it is one.
pub open spec fn ch_of(event: AppEvent) -> char {
    match event {
        AppEvent::Key(KeyInput { code: KeyCode::Char(c), .. }) => c,
        _ => ' ',
    }
}

/// Once the app has quit, nothing brings it back, and no score comes out.
pub proof fn law_quit_is_final(a: AppView, event: AppEvent, now: u128, fresh: Seq<Seq<char>>)
    requires
        a.state is Quitting,
    ensures
        step_view(a, event, now, fresh).0.state is Quitting,
        step_view(a, event, now, fresh).1 is None,
{
}

/// A score comes out only when a test ends with something typed, and it is
/// what the results screen shows.
pub proof fn law_score_on_results(a: AppView, event: AppEvent, now: u128, fresh: Seq<Seq<char>>)
    ensures
        ({
            let (b, score) = step_view(a, event, now, fresh);
            score matches Some(s) ==> {
                &&& s.stats.total_typed > 0
                &&& b.state == (StateView::Results {
                    config: a.config,
                    mode: s.mode,
                    stats: s.stats,
                    sample_chars: s.sample_chars,
                })
                &&& a.state is Test
            }
        }),
{
}

/// Backspace undoes a typed character: typing `ch` into a test that does
/// not end and then pressing Backspace leaves the words, the typed
/// characters, the current word and the cursor as they were.
pub proof fn law_backspace_undoes_typing(
    a: AppView,
    ch: char,
    now: u128,
    later: u128,
    fresh: Seq<Seq<char>>,
)
    requires
        app_wf(a),
        a.state is Test,
        a.state->Test_0.cursor_in_word < usize::MAX,
        ch != ' ',
        !blocked(a.state->Test_0),
        a.state->Test_0.current_word < a.state->Test_0.typed.len(),
        !complete(typed_char_test(a.state->Test_0, ch, now)),
    ensures
        ({
            let t = a.state->Test_0;
            let typed = step_view(a, AppEvent::Key(KeyInput { code: KeyCode::Char(ch), ctrl: false }), now, fresh).0;
            let erased = step_view(
                typed,
                AppEvent::Key(KeyInput { code: KeyCode::Backspace, ctrl: false }),
                later,
                fresh,
            ).0;
            &&& erased.state is Test
            &&& erased.state->Test_0.typed == t.typed
            &&& erased.state->Test_0.words == t.words
            &&& erased.state->Test_0.current_word == t.current_word
            &&& erased.state->Test_0.cursor_in_word == t.cursor_in_word
        }),
{
    let t = a.state->Test_0;
    let cw = t.current_word as int;
    let t2 = typed_char_test(t, ch, now);
    assert(t2.typed[cw] == t.typed[cw].push(TypedChar { ch }));
    assert(t2.typed[cw].drop_last() =~= t.typed[cw]);
    assert(t2.typed.update(cw, t2.typed[cw].drop_last()) =~= t.typed);
}


/// Whether a test under way has words.
pub open spec fn has_words(a: AppView) -> bool {
    a.state matches StateView::Test(t) ==> t.words.len() >= 1
}

/// A new test has words: a quote test always, and a word or timed test
/// whenever its list has any.
pub proof fn law_new_tests_have_words(mode: Mode, source: Seq<char>, fresh: Seq<Seq<char>>)
    requires
        generated_for(mode, source, fresh),
        mode is Quote || word_list_of(source).len() > 0,
    ensures
        fresh.len() >= 1,
{
    if mode is Quote {
        let i = choose|i: int| 0 <= i < QUOTE_COUNT && fresh == split_ws(#[trigger] quote_text(i));
        crate::words::law_quotes_have_words(i);
    }
}

/// No event leaves a test without words, as long as every test it starts
/// gets some.
pub proof fn law_step_keeps_words(a: AppView, event: AppEvent, now: u128, fresh: Seq<Seq<char>>)
    requires
        has_words(a),
        starts_test(a, event) ==> fresh.len() >= 1,
    ensures
        has_words(step_view(a, event, now, fresh).0),
{
}


/// A word or quote test ends as soon as a character typed into its last
/// word brings the cursor to the word's length: the results screen shows
/// the test's mode, and a score comes out exactly when anything was typed.
pub proof fn law_last_word_typed_ends_test(a: AppView, ch: char, now: u128, fresh: Seq<Seq<char>>)
    requires
        a.state is Test,
        test_wf(a.state->Test_0),
        a.state->Test_0.cursor_in_word < usize::MAX,
        a.state->Test_0.mode is Words || a.state->Test_0.mode is Quote,
        ch != ' ',
        !blocked(a.state->Test_0),
        a.state->Test_0.words.len() >= 1,
        a.state->Test_0.current_word + 1 == a.state->Test_0.words.len(),
        a.state->Test_0.cursor_in_word + 1 >= a.state->Test_0.words[a.state->Test_0.current_word as int].len(),
    ensures
        ({
            let (b, score) = step_view(
                a,
                AppEvent::Key(KeyInput { code: KeyCode::Char(ch), ctrl: false }),
                now,
                fresh,
            );
            b.state matches StateView::Results { mode, stats, .. } && mode == a.state->Test_0.mode
                && (score is Some <==> stats.total_typed > 0)
        }),
{
}

/// A tick that takes a speed sample records the characters typed since the
/// previous sample: the new sample is the typed total now less the total at
/// the last sample (nothing when the total went down), earlier samples stay
/// as they were, and the new total is remembered for the next sample.
pub proof fn law_tick_samples_characters_since_last(a: AppView, now: u128)
    requires
        a.state is Test,
    ensures
        ({
            let t = a.state->Test_0;
            let (b, _) = step_view(a, AppEvent::Tick, now, Seq::empty());
            b.state matches StateView::Test(t2) ==> {
                &&& t2.sample_chars.len() == t.sample_chars.len() || t2.sample_chars.len()
                    == t.sample_chars.len() + 1
                &&& t2.sample_chars.subrange(0, t.sample_chars.len() as int) == t.sample_chars
                &&& t2.sample_chars.len() == t.sample_chars.len() + 1 ==> {
                    &&& t2.chars_at_last_sample == t2.stats.total_typed
                    &&& t2.sample_chars.last() == if t2.stats.total_typed
                        >= t.chars_at_last_sample {
                        t2.stats.total_typed - t.chars_at_last_sample
                    } else {
                        0
                    }
                }
                &&& t2.sample_chars.len() == t.sample_chars.len() ==> t2.chars_at_last_sample
                    == t.chars_at_last_sample
            }
        }),
{
    let t = a.state->Test_0;
    let (b, _) = step_view(a, AppEvent::Tick, now, Seq::empty());
    if let StateView::Test(t2) = b.state {
        if t2.sample_chars.len() == t.sample_chars.len() + 1 {
            assert(t2.sample_chars.subrange(0, t.sample_chars.len() as int) =~= t.sample_chars);
        } else {
            assert(t2.sample_chars.subrange(0, t.sample_chars.len() as int) =~= t.sample_chars);
        }
    }
}

} // verus!
