//! The user's settings, their defaults, and the test mode they select.
use vstd::prelude::*;
use vstd::string::*;

use crate::mode::Mode;

verus! {

/// All settings.
#[derive(Debug)]
pub struct Config {
    pub test: TestConfig,
    pub theme: ThemeConfig,
    pub behavior: BehaviorConfig,
}

/// What test to start with.
#[derive(Debug)]
pub struct TestConfig {
    /// "words", "time" or "quote"; anything else means "words".
    pub default_mode: String,
    pub word_count: usize,
    pub duration: u64,
}

/// How the screens look.
#[derive(Debug)]
pub struct ThemeConfig {
    pub name: String,
    pub accent: String,
}

/// How a test behaves.
#[derive(Debug, Clone, Copy, PartialEq, Eq, Structural)]
pub struct BehaviorConfig {
    pub show_live_wpm: bool,
    pub smooth_caret: bool,
    pub stop_on_error: bool,
}

impl Clone for TestConfig {
    fn clone(&self) -> (c: Self)
        ensures
            c == *self,
    {
        TestConfig {
            default_mode: self.default_mode.clone(),
            word_count: self.word_count,
            duration: self.duration,
        }
    }
}

impl Clone for ThemeConfig {
    fn clone(&self) -> (c: Self)
        ensures
            c == *self,
    {
        ThemeConfig { name: self.name.clone(), accent: self.accent.clone() }
    }
}

impl Clone for Config {
    fn clone(&self) -> (c: Self)
        ensures
            c == *self,
    {
        Config { test: self.test.clone(), theme: self.theme.clone(), behavior: self.behavior }
    }
}

impl Default for TestConfig {
    /// Words mode, 25 words, 30 seconds.
    fn default() -> (c: Self)
        ensures
            c.default_mode@ == "words"@,
            c.word_count == 25,
            c.duration == 30,
    {
        TestConfig { default_mode: String::from_str("words"), word_count: 25, duration: 30 }
    }
}

impl Default for ThemeConfig {
    /// The dark theme with a yellow accent.
    fn default() -> (c: Self)
        ensures
            c.name@ == "dark"@,
            c.accent@ == "#e2b714"@,
    {
        ThemeConfig { name: String::from_str("dark"), accent: String::from_str("#e2b714") }
    }
}

impl Default for BehaviorConfig {
    /// Live speed shown, blinking caret, typing past errors allowed.
    fn default() -> (c: Self)
        ensures
            c.show_live_wpm,
            c.smooth_caret,
            !c.stop_on_error,
    {
        BehaviorConfig { show_live_wpm: true, smooth_caret: true, stop_on_error: false }
    }
}

impl Default for Config {
    /// Every part at its default.
    fn default() -> (c: Self)
        ensures
            c.test.default_mode@ == "words"@,
            c.test.word_count == 25,
            c.test.duration == 30,
            c.theme.name@ == "dark"@,
            c.theme.accent@ == "#e2b714"@,
            c.behavior.show_live_wpm,
            c.behavior.smooth_caret,
            !c.behavior.stop_on_error,
    {
        Config {
            test: TestConfig::default(),
            theme: ThemeConfig::default(),
            behavior: BehaviorConfig::default(),
        }
    }
}

/// At least one.
pub open spec fn at_least_one(n: nat) -> nat {
    if n < 1 {
        1
    } else {
        n
    }
}

/// The mode the settings start with: a timed test of `duration` seconds
/// when the default mode is "time", a quote when it is "quote", and
/// otherwise `word_count` words; never zero seconds or zero words.
pub open spec fn configured_mode(config: Config) -> Mode {
    if config.test.default_mode@ == "time"@ {
        Mode::Time(at_least_one(config.test.duration as nat) as u64)
    } else if config.test.default_mode@ == "quote"@ {
        Mode::Quote
    } else {
        Mode::Words(at_least_one(config.test.word_count as nat) as usize)
    }
}

/// The mode the settings start with.
pub fn mode_from_config(config: &Config) -> (mode: Mode)
    ensures
        mode == configured_mode(*config),
{
    if config.test.default_mode == String::from_str("time") {
        Mode::Time(if config.test.duration < 1 { 1 } else { config.test.duration })
    } else if config.test.default_mode == String::from_str("quote") {
        Mode::Quote
    } else {
        Mode::Words(if config.test.word_count < 1 { 1 } else { config.test.word_count })
    }
}


/// The settings never start a test of zero words or zero seconds.
pub proof fn law_configured_mode_is_positive(config: Config)
    ensures
        configured_mode(config) matches Mode::Words(n) ==> n >= 1,
        configured_mode(config) matches Mode::Time(s) ==> s >= 1,
{
}

} // verus!
