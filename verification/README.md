# typewriter

A terminal typing test in the style of monkeytype: word, timed and quote
tests, live speed and accuracy, a results screen with two-second speed
samples, and a file of recent scores.

The rules of the test are a library verified with Verus (`src/`):

- `stats` scores typed words against their targets (correct, incorrect,
  extra, missed) and gives speed and accuracy as exact fractions;
- `app` is the state machine of the screens: `App::step` is the whole
  transition, a function of the state, the event, one clock reading and the
  words a new test would use, proved against `step_view`;
- `words` reads word lists, splits quotes and draws words at random;
- `timer`, `mode`, `config`, `events` and `display` hold the clock, the test
  modes and labels, the settings, the events, and what the screens show.

The program around it (`app/`) reads the terminal, draws with ratatui, and
reads and writes the settings (TOML) and scores (JSON). Floating-point
figures (speeds for display, consistency) are computed there from the
library's exact values. The word lists are read from `assets/words/` at start-up.
