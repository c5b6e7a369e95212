//! A terminal typing test: the rules of the test, its statistics, and the
//! state machine that drives the screens, each with a proved contract.

pub mod mode;
pub mod text;
pub mod stats;
pub mod timer;
pub mod words;
pub mod config;
pub mod events;
pub mod app;
pub mod display;
