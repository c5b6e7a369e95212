//! Scoring a test: how many characters were typed right, wrong, beyond the
//! end of a word or not at all, and the speed and accuracy figures that
//! follow from those counts.
//!
//! Speeds and percentages are kept as exact fractions (`Ratio`); turning
//! them into floating-point numbers for display is left to the caller.
use vstd::prelude::*;

use crate::text::chars_of;

verus! {

/// One key press recorded in a word.
#[derive(Debug, Clone, Copy, PartialEq, Eq, Structural)]
pub struct TypedChar {
    pub ch: char,
}

/// An exact non-negative fraction `num / den`.
#[derive(Debug, Clone, Copy, PartialEq, Eq, Structural)]
pub struct Ratio {
    pub num: u128,
    pub den: u128,
}

/// The statistics of a test so far.
///
/// `wpm` counts a word as five correct characters per minute, `raw_wpm` does
/// the same with every typed character, `accuracy` is the percentage of typed
/// characters that were correct, and `elapsed_secs` is the time the figures
/// were taken over (never less than a millisecond).
#[derive(Debug, Clone, Copy, PartialEq, Eq, Structural)]
pub struct Stats {
    pub wpm: Ratio,
    pub raw_wpm: Ratio,
    pub accuracy: Ratio,
    pub correct_chars: usize,
    pub incorrect_chars: usize,
    pub extra_chars: usize,
    pub missed_chars: usize,
    pub total_typed: usize,
    pub elapsed_secs: Ratio,
}

/// Nanoseconds in a second.
pub const NANOS_PER_SEC: u128 = 1_000_000_000;

/// The shortest time the speed figures divide by: one millisecond.
pub const MIN_ELAPSED_NANOS: u128 = 1_000_000;

/// The character counts of a test, as mathematical integers.
pub struct CharCounts {
    pub correct: nat,
    pub incorrect: nat,
    pub extra: nat,
    pub missed: nat,
    pub typed: nat,
}

/// The typed characters of word `i`, or none when nothing was recorded for it.
pub open spec fn typed_at(typed: Seq<Seq<TypedChar>>, i: int) -> Seq<TypedChar> {
    if 0 <= i < typed.len() {
        typed[i]
    } else {
        Seq::empty()
    }
}

/// Among the first `n` typed characters, those equal to the target character
/// at the same position.
pub open spec fn correct_in(target: Seq<char>, typed: Seq<TypedChar>, n: nat) -> nat
    decreases n,
{
    if n == 0 {
        0
    } else {
        correct_in(target, typed, (n - 1) as nat) + if n - 1 < target.len() && typed[n - 1].ch
            == target[n - 1] {
            1nat
        } else {
            0nat
        }
    }
}

/// Among the first `n` typed characters, those that differ from the target
/// character at the same position.
pub open spec fn incorrect_in(target: Seq<char>, typed: Seq<TypedChar>, n: nat) -> nat
    decreases n,
{
    if n == 0 {
        0
    } else {
        incorrect_in(target, typed, (n - 1) as nat) + if n - 1 < target.len() && typed[n - 1].ch
            != target[n - 1] {
            1nat
        } else {
            0nat
        }
    }
}

/// Among the first `n` typed characters, those past the end of the target.
pub open spec fn extra_in(target: Seq<char>, n: nat) -> nat {
    if n > target.len() {
        (n - target.len()) as nat
    } else {
        0
    }
}

/// The counts for one word.
pub open spec fn word_counts(target: Seq<char>, typed: Seq<TypedChar>) -> CharCounts {
    CharCounts {
        correct: correct_in(target, typed, typed.len()),
        incorrect: incorrect_in(target, typed, typed.len()),
        extra: extra_in(target, typed.len()),
        missed: if typed.len() < target.len() {
            (target.len() - typed.len()) as nat
        } else {
            0
        },
        typed: typed.len(),
    }
}

pub open spec fn add_counts(a: CharCounts, b: CharCounts) -> CharCounts {
    CharCounts {
        correct: a.correct + b.correct,
        incorrect: a.incorrect + b.incorrect,
        extra: a.extra + b.extra,
        missed: a.missed + b.missed,
        typed: a.typed + b.typed,
    }
}

/// The counts summed over the first `k` words.
pub open spec fn counts_upto(targets: Seq<Seq<char>>, typed: Seq<Seq<TypedChar>>, k: nat) -> CharCounts
    decreases k,
{
    if k == 0 {
        CharCounts { correct: 0, incorrect: 0, extra: 0, missed: 0, typed: 0 }
    } else {
        add_counts(
            counts_upto(targets, typed, (k - 1) as nat),
            word_counts(targets[k - 1], typed_at(typed, k - 1)),
        )
    }
}

/// How many words are scored: every word up to and including
/// `include_word_index`, as far as there are words.
pub open spec fn scored_words(n_targets: nat, include_word_index: nat) -> nat {
    if n_targets == 0 {
        0
    } else if include_word_index < n_targets {
        include_word_index + 1
    } else {
        n_targets
    }
}

/// The character counts of a test.
pub open spec fn char_counts(
    targets: Seq<Seq<char>>,
    typed: Seq<Seq<TypedChar>>,
    include_word_index: nat,
) -> CharCounts {
    counts_upto(targets, typed, scored_words(targets.len(), include_word_index))
}

/// A count as a `usize`, saturated at `usize::MAX`.
pub open spec fn sat(x: nat) -> usize {
    if x <= usize::MAX {
        x as usize
    } else {
        usize::MAX
    }
}

/// The time the speed figures divide by, in nanoseconds.
pub open spec fn divisor_nanos(elapsed_nanos: u128) -> u128 {
    if elapsed_nanos < MIN_ELAPSED_NANOS {
        MIN_ELAPSED_NANOS
    } else {
        elapsed_nanos
    }
}

/// Words per minute for `chars` characters over `elapsed_nanos`:
/// `(chars / 5) / (seconds / 60)`, that is `12 * chars / seconds`.
pub open spec fn speed(chars: usize, elapsed_nanos: u128) -> Ratio {
    Ratio { num: (12 * NANOS_PER_SEC * chars) as u128, den: divisor_nanos(elapsed_nanos) }
}

/// The percentage of typed characters that were correct; 100 when nothing
/// was typed.
pub open spec fn accuracy_of(correct: usize, total: usize) -> Ratio {
    if total == 0 {
        Ratio { num: 100, den: 1 }
    } else {
        Ratio { num: (100 * correct) as u128, den: total as u128 }
    }
}

/// The statistics for the given targets, typed words and elapsed time.
pub open spec fn stats_of(
    targets: Seq<Seq<char>>,
    typed: Seq<Seq<TypedChar>>,
    elapsed_nanos: u128,
    include_word_index: nat,
) -> Stats {
    let c = char_counts(targets, typed, include_word_index);
    Stats {
        wpm: speed(sat(c.correct), elapsed_nanos),
        raw_wpm: speed(sat(c.typed), elapsed_nanos),
        accuracy: accuracy_of(sat(c.correct), sat(c.typed)),
        correct_chars: sat(c.correct),
        incorrect_chars: sat(c.incorrect),
        extra_chars: sat(c.extra),
        missed_chars: sat(c.missed),
        total_typed: sat(c.typed),
        elapsed_secs: Ratio { num: divisor_nanos(elapsed_nanos), den: NANOS_PER_SEC },
    }
}

/// The statistics before anything has been scored: every figure zero.
pub open spec fn zero_stats() -> Stats {
    let zero = Ratio { num: 0, den: 1 };
    Stats {
        wpm: zero,
        raw_wpm: zero,
        accuracy: zero,
        correct_chars: 0,
        incorrect_chars: 0,
        extra_chars: 0,
        missed_chars: 0,
        total_typed: 0,
        elapsed_secs: zero,
    }
}

/// The strings' characters.
pub open spec fn strings_view(v: Seq<String>) -> Seq<Seq<char>> {
    v.map_values(|s: String| s@)
}

/// The typed words' characters.
pub open spec fn typed_view(v: Seq<Vec<TypedChar>>) -> Seq<Seq<TypedChar>> {
    v.map_values(|t: Vec<TypedChar>| t@)
}

impl Stats {
    /// All figures zero.
    pub fn zero() -> (s: Stats)
        ensures
            s == zero_stats(),
    {
        let zero = Ratio { num: 0, den: 1 };
        Stats {
            wpm: zero,
            raw_wpm: zero,
            accuracy: zero,
            correct_chars: 0,
            incorrect_chars: 0,
            extra_chars: 0,
            missed_chars: 0,
            total_typed: 0,
            elapsed_secs: zero,
        }
    }
}

impl Default for Stats {
    fn default() -> (s: Stats)
        ensures
            s == zero_stats(),
    {
        Stats::zero()
    }
}

proof fn lemma_sat_add(x: nat, y: nat)
    ensures
        sat(x + y) == if sat(x) + y > usize::MAX {
            usize::MAX
        } else {
            (sat(x) + y) as usize
        },
{
}

fn speed_exec(chars: usize, elapsed_nanos: u128) -> (r: Ratio)
    ensures
        r == speed(chars, elapsed_nanos),
{
    let den = if elapsed_nanos < MIN_ELAPSED_NANOS {
        MIN_ELAPSED_NANOS
    } else {
        elapsed_nanos
    };
    assert(12 * NANOS_PER_SEC * chars <= 12 * NANOS_PER_SEC * usize::MAX) by (nonlinear_arith)
        requires
            chars <= usize::MAX,
    ;
    Ratio { num: 12 * NANOS_PER_SEC * (chars as u128), den }
}

/// Scores the words up to and including `include_word_index`.
///
/// Each typed character is correct when it equals the target character at
/// its position, incorrect when it differs from it, and extra when the word
/// has no character there; every target character beyond what was typed is
/// missed. Words without a recorded entry in `typed_words` count as typed
/// empty. Counts saturate at `usize::MAX`.
pub fn calculate(
    targets: &Vec<String>,
    typed_words: &Vec<Vec<TypedChar>>,
    elapsed_nanos: u128,
    include_word_index: usize,
) -> (stats: Stats)
    ensures
        stats == stats_of(
            strings_view(targets@),
            typed_view(typed_words@),
            elapsed_nanos,
            include_word_index as nat,
        ),
{
    let ghost tv = strings_view(targets@);
    let ghost ty = typed_view(typed_words@);
    let n = targets.len();
    let scored: usize = if n == 0 {
        0
    } else if include_word_index < n {
        include_word_index + 1
    } else {
        n
    };
    let mut correct: usize = 0;
    let mut incorrect: usize = 0;
    let mut extra: usize = 0;
    let mut missed: usize = 0;
    let mut total: usize = 0;
    let mut w: usize = 0;
    while w < scored
        invariant
            tv == strings_view(targets@),
            ty == typed_view(typed_words@),
            scored == scored_words(tv.len(), include_word_index as nat),
            scored <= n == targets@.len() == tv.len(),
            ty.len() == typed_words@.len(),
            w <= scored,
            correct == sat(counts_upto(tv, ty, w as nat).correct),
            incorrect == sat(counts_upto(tv, ty, w as nat).incorrect),
            extra == sat(counts_upto(tv, ty, w as nat).extra),
            missed == sat(counts_upto(tv, ty, w as nat).missed),
            total == sat(counts_upto(tv, ty, w as nat).typed),
        decreases scored - w,
    {
        let target = chars_of(targets[w].as_str());
        assert(target@ == tv[w as int]);
        let ghost typed_seq = typed_at(ty, w as int);
        let ghost before = counts_upto(tv, ty, w as nat);
        let empty: Vec<TypedChar> = Vec::new();
        let typed: &Vec<TypedChar> = if w < typed_words.len() {
            &typed_words[w]
        } else {
            &empty
        };
        assert(typed@ == typed_seq);
        let tlen = target.len();
        let ylen = typed.len();
        let mut i: usize = 0;
        while i < ylen
            invariant
                target@ == tv[w as int],
                typed@ == typed_seq,
                tlen == target@.len(),
                ylen == typed@.len(),
                i <= ylen,
                correct == sat(before.correct + correct_in(target@, typed@, i as nat)),
                incorrect == sat(before.incorrect + incorrect_in(target@, typed@, i as nat)),
                extra == sat(before.extra + extra_in(target@, i as nat)),
            decreases ylen - i,
        {
            proof {
                lemma_sat_add(before.correct + correct_in(target@, typed@, i as nat), 1);
                lemma_sat_add(before.incorrect + incorrect_in(target@, typed@, i as nat), 1);
                lemma_sat_add(before.extra + extra_in(target@, i as nat), 1);
            }
            if i < tlen {
                if typed[i].ch == target[i] {
                    correct = correct.saturating_add(1);
                } else {
                    incorrect = incorrect.saturating_add(1);
                }
            } else {
                extra = extra.saturating_add(1);
            }
            i = i + 1;
        }
        proof {
            lemma_sat_add(before.typed, ylen as nat);
            if ylen < tlen {
                lemma_sat_add(before.missed, (tlen - ylen) as nat);
            }
        }
        total = total.saturating_add(ylen);
        if ylen < tlen {
            missed = missed.saturating_add(tlen - ylen);
        }
        w = w + 1;
    }
    let wpm = speed_exec(correct, elapsed_nanos);
    let raw_wpm = speed_exec(total, elapsed_nanos);
    let accuracy = if total == 0 {
        Ratio { num: 100, den: 1 }
    } else {
        assert(100 * correct <= 100 * usize::MAX);
        Ratio { num: 100 * (correct as u128), den: total as u128 }
    };
    let den = if elapsed_nanos < MIN_ELAPSED_NANOS {
        MIN_ELAPSED_NANOS
    } else {
        elapsed_nanos
    };
    Stats {
        wpm,
        raw_wpm,
        accuracy,
        correct_chars: correct,
        incorrect_chars: incorrect,
        extra_chars: extra,
        missed_chars: missed,
        total_typed: total,
        elapsed_secs: Ratio { num: den, den: NANOS_PER_SEC },
    }
}


proof fn lemma_word_partition(target: Seq<char>, typed: Seq<TypedChar>, n: nat)
    requires
        n <= typed.len(),
    ensures
        correct_in(target, typed, n) + incorrect_in(target, typed, n) + extra_in(target, n) == n,
    decreases n,
{
    if n > 0 {
        lemma_word_partition(target, typed, (n - 1) as nat);
    }
}

proof fn lemma_partition_upto(targets: Seq<Seq<char>>, typed: Seq<Seq<TypedChar>>, k: nat)
    ensures
        counts_upto(targets, typed, k).correct + counts_upto(targets, typed, k).incorrect
            + counts_upto(targets, typed, k).extra == counts_upto(targets, typed, k).typed,
    decreases k,
{
    if k > 0 {
        lemma_partition_upto(targets, typed, (k - 1) as nat);
        let t = typed_at(typed, k - 1);
        lemma_word_partition(targets[k - 1], t, t.len());
    }
}

/// Every scored key press is exactly one of correct, incorrect or extra; so,
/// as long as the counts fit in a `usize`, the three add up to the typed
/// total, the speed over correct characters never exceeds the raw speed, and
/// the accuracy never exceeds 100 percent.
pub proof fn law_typed_chars_partition(
    targets: Seq<Seq<char>>,
    typed: Seq<Seq<TypedChar>>,
    elapsed_nanos: u128,
    include_word_index: nat,
)
    requires
        char_counts(targets, typed, include_word_index).typed <= usize::MAX,
    ensures
        ({
            let s = stats_of(targets, typed, elapsed_nanos, include_word_index);
            &&& s.correct_chars + s.incorrect_chars + s.extra_chars == s.total_typed
            &&& s.wpm.den == s.raw_wpm.den
            &&& s.wpm.num <= s.raw_wpm.num
            &&& s.accuracy.num <= 100 * s.accuracy.den
        }),
{
    let c = char_counts(targets, typed, include_word_index);
    lemma_partition_upto(targets, typed, scored_words(targets.len(), include_word_index));
    assert(c.correct <= c.typed);
    assert(12 * NANOS_PER_SEC * c.correct <= 12 * NANOS_PER_SEC * c.typed) by (nonlinear_arith)
        requires
            c.correct <= c.typed,
    ;
}


/// Whether the character typed at position `i` of a word is the word's
/// character there.
pub open spec fn char_matches(target: Seq<char>, typed: Seq<TypedChar>, i: int) -> bool {
    i < target.len() && typed[i].ch == target[i]
}

/// Whether every typed character of the first `k` words is the character of
/// its word at the same position: nothing typed wrong, nothing typed past a
/// word's end.
pub open spec fn typed_as_written(targets: Seq<Seq<char>>, typed: Seq<Seq<TypedChar>>, k: nat) -> bool {
    forall|w: int, i: int|
        0 <= w < k && 0 <= i < typed_at(typed, w).len() ==> #[trigger] char_matches(
            targets[w],
            typed_at(typed, w),
            i,
        )
}

proof fn lemma_word_no_errors(target: Seq<char>, typed: Seq<TypedChar>, n: nat)
    requires
        n <= typed.len(),
    ensures
        (incorrect_in(target, typed, n) == 0 && extra_in(target, n) == 0) <==> forall|i: int|
            0 <= i < n ==> #[trigger] char_matches(target, typed, i),
    decreases n,
{
    if n > 0 {
        let m = (n - 1) as nat;
        lemma_word_no_errors(target, typed, m);
        if incorrect_in(target, typed, n) == 0 && extra_in(target, n) == 0 {
            assert(incorrect_in(target, typed, m) == 0 && extra_in(target, m) == 0);
            assert(char_matches(target, typed, m as int));
            assert forall|i: int| 0 <= i < n implies #[trigger] char_matches(target, typed, i) by {
                if i < m {
                    assert(char_matches(target, typed, i));
                }
            }
        } else {
            if forall|i: int| 0 <= i < n ==> #[trigger] char_matches(target, typed, i) {
                assert(char_matches(target, typed, m as int));
                assert forall|i: int| 0 <= i < m implies #[trigger] char_matches(target, typed, i) by {
                    assert(char_matches(target, typed, i));
                }
                assert(false);
            }
        }
    }
}

proof fn lemma_upto_no_errors(targets: Seq<Seq<char>>, typed: Seq<Seq<TypedChar>>, k: nat)
    ensures
        (counts_upto(targets, typed, k).incorrect == 0 && counts_upto(targets, typed, k).extra == 0)
            <==> typed_as_written(targets, typed, k),
    decreases k,
{
    if k > 0 {
        let m = (k - 1) as nat;
        lemma_upto_no_errors(targets, typed, m);
        let t = typed_at(typed, m as int);
        lemma_word_no_errors(targets[m as int], t, t.len());
        if typed_as_written(targets, typed, k) {
            assert forall|w: int, i: int|
                0 <= w < m && 0 <= i < typed_at(typed, w).len() implies #[trigger] char_matches(
                targets[w],
                typed_at(typed, w),
                i,
            ) by {
                assert(char_matches(targets[w], typed_at(typed, w), i));
            }
            assert forall|i: int| 0 <= i < t.len() implies #[trigger] char_matches(
                targets[m as int],
                t,
                i,
            ) by {
                assert(char_matches(targets[m as int], typed_at(typed, m as int), i));
            }
        } else if counts_upto(targets, typed, k).incorrect == 0 && counts_upto(
            targets,
            typed,
            k,
        ).extra == 0 {
            assert(typed_as_written(targets, typed, m));
            assert forall|w: int, i: int|
                0 <= w < k && 0 <= i < typed_at(typed, w).len() implies #[trigger] char_matches(
                targets[w],
                typed_at(typed, w),
                i,
            ) by {
                if w < m {
                    assert(char_matches(targets[w], typed_at(typed, w), i));
                } else {
                    assert(char_matches(targets[m as int], t, i));
                }
            }
            assert(false);
        }
    }
}

/// A test is scored without a single incorrect or extra character exactly
/// when every scored key press is the very character of its word at its
/// position (`typed_as_written`): characters are compared as they are, so a
/// letter in the other case, or any other character, counts against the
/// typist.
pub proof fn law_no_errors_iff_typed_as_written(
    targets: Seq<Seq<char>>,
    typed: Seq<Seq<TypedChar>>,
    elapsed_nanos: u128,
    include_word_index: nat,
)
    ensures
        ({
            let s = stats_of(targets, typed, elapsed_nanos, include_word_index);
            (s.incorrect_chars == 0 && s.extra_chars == 0) <==> typed_as_written(
                targets,
                typed,
                scored_words(targets.len(), include_word_index),
            )
        }),
{
    lemma_upto_no_errors(targets, typed, scored_words(targets.len(), include_word_index));
}

/// Scoring one word that was typed no longer than itself: there is no
/// incorrect character exactly when each typed character equals the word's
/// character at its position, and a character different from the word's
/// (as chars) is never counted correct.
pub proof fn law_word_scored_by_char_equality(
    target: Seq<char>,
    typed: Seq<TypedChar>,
    elapsed_nanos: u128,
)
    requires
        typed.len() <= target.len(),
        typed.len() <= usize::MAX,
    ensures
        ({
            let s = stats_of(seq![target], seq![typed], elapsed_nanos, 0);
            &&& s.total_typed == typed.len()
            &&& (s.incorrect_chars == 0 <==> forall|i: int|
                0 <= i < typed.len() ==> #[trigger] typed[i].ch == target[i])
            &&& (exists|i: int| 0 <= i < typed.len() && #[trigger] typed[i].ch != target[i])
                ==> s.correct_chars < typed.len()
        }),
{
    let ts = seq![target];
    let ys = seq![typed];
    assert(typed_at(ys, 0) == typed);
    assert(ts[0] == target);
    lemma_word_no_errors(target, typed, typed.len());
    lemma_word_partition(target, typed, typed.len());
    let c = char_counts(ts, ys, 0);
    assert(counts_upto(ts, ys, 0).typed == 0);
    assert(c == add_counts(counts_upto(ts, ys, 0), word_counts(target, typed)));
    if forall|i: int| 0 <= i < typed.len() ==> #[trigger] typed[i].ch == target[i] {
        assert forall|i: int| 0 <= i < typed.len() implies #[trigger] char_matches(target, typed, i) by {
            assert(typed[i].ch == target[i]);
        }
    }
    if forall|i: int| 0 <= i < typed.len() ==> #[trigger] char_matches(target, typed, i) {
        assert forall|i: int| 0 <= i < typed.len() implies #[trigger] typed[i].ch == target[i] by {
            assert(char_matches(target, typed, i));
        }
    }
    if exists|i: int| 0 <= i < typed.len() && #[trigger] typed[i].ch != target[i] {
        let i = choose|i: int| 0 <= i < typed.len() && #[trigger] typed[i].ch != target[i];
        assert(!char_matches(target, typed, i));
        assert(c.incorrect > 0);
        assert(c.correct < typed.len());
    }
}

} // verus!
