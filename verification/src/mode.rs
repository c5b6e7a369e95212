//! The three kinds of typing test and their labels.
use vstd::prelude::*;
use vstd::string::*;

verus! {

/// The character for a decimal digit `d` (`0 <= d < 10`).
pub open spec fn digit_char(d: nat) -> char {
    (48 + d) as char
}

/// The decimal representation of `n`, without leading zeros.
pub open spec fn decimal(n: nat) -> Seq<char>
    decreases n,
{
    if n < 10 {
        seq![digit_char(n)]
    } else {
        decimal(n / 10).push(digit_char(n % 10))
    }
}

fn digit_str(d: u64) -> (s: &'static str)
    requires
        d < 10,
    ensures
        s@ == seq![digit_char(d as nat)],
{
    proof {
        reveal_strlit("0");
        reveal_strlit("1");
        reveal_strlit("2");
        reveal_strlit("3");
        reveal_strlit("4");
        reveal_strlit("5");
        reveal_strlit("6");
        reveal_strlit("7");
        reveal_strlit("8");
        reveal_strlit("9");
    }
    match d {
        0 => "0",
        1 => "1",
        2 => "2",
        3 => "3",
        4 => "4",
        5 => "5",
        6 => "6",
        7 => "7",
        8 => "8",
        _ => "9",
    }
}

/// Appends the decimal representation of `n` to `s`.
pub fn push_decimal(s: &mut String, n: u128)
    ensures
        final(s)@ == old(s)@ + decimal(n as nat),
    decreases n,
{
    if n >= 10 {
        push_decimal(s, n / 10);
    }
    s.append(digit_str((n % 10) as u64));
}

/// What a test asks of the typist.
#[derive(Debug, Clone, Copy, PartialEq, Eq, Structural)]
pub enum Mode {
    /// Type this many words.
    Words(usize),
    /// Type for this many seconds.
    Time(u64),
    /// Type one quote.
    Quote,
}

/// The label shown for a mode: "25 words", "30s" or "quote".
pub open spec fn mode_label(mode: Mode) -> Seq<char> {
    match mode {
        Mode::Words(n) => decimal(n as nat) + " words"@,
        Mode::Time(s) => decimal(s as nat) + "s"@,
        Mode::Quote => "quote"@,
    }
}

impl Mode {
    /// The label shown for this mode on the home and results screens.
    pub fn label(self) -> (label: String)
        ensures
            label@ == mode_label(self),
    {
        match self {
            Mode::Words(n) => {
                let mut s = String::new();
                push_decimal(&mut s, n as u128);
                s.append(" words");
                s
            },
            Mode::Time(secs) => {
                let mut s = String::new();
                push_decimal(&mut s, secs as u128);
                s.append("s");
                s
            },
            Mode::Quote => String::from_str("quote"),
        }
    }
}


proof fn lemma_decimal_digits(n: nat)
    ensures
        decimal(n).len() >= 1,
        n >= 10 ==> decimal(n).len() >= 2,
        forall|i: int| 0 <= i < decimal(n).len() ==> '0' <= #[trigger] decimal(n)[i] <= '9',
    decreases n,
{
    if n >= 10 {
        lemma_decimal_digits(n / 10);
        assert forall|i: int| 0 <= i < decimal(n).len() implies '0' <= #[trigger] decimal(n)[i]
            <= '9' by {
            if i < decimal(n / 10).len() {
                assert(decimal(n)[i] == decimal(n / 10)[i]);
            }
        }
    }
}

proof fn lemma_decimal_injective(a: nat, b: nat)
    requires
        decimal(a) == decimal(b),
    ensures
        a == b,
    decreases a,
{
    lemma_decimal_digits(a);
    lemma_decimal_digits(b);
    if a >= 10 && b >= 10 {
        assert(decimal(a).drop_last() =~= decimal(a / 10));
        assert(decimal(b).drop_last() =~= decimal(b / 10));
        lemma_decimal_injective(a / 10, b / 10);
        assert(decimal(a).last() == digit_char(a % 10));
        assert(decimal(b).last() == digit_char(b % 10));
    } else if a < 10 && b < 10 {
        assert(decimal(a)[0] == digit_char(a));
        assert(decimal(b)[0] == digit_char(b));
    }
}

/// Different modes have different labels.
pub proof fn law_labels_are_distinct(a: Mode, b: Mode)
    ensures
        mode_label(a) == mode_label(b) <==> a == b,
{
    reveal_strlit(" words");
    reveal_strlit("s");
    reveal_strlit("quote");
    if mode_label(a) == mode_label(b) {
        match (a, b) {
            (Mode::Words(x), Mode::Words(y)) => {
                let l = mode_label(a);
                lemma_decimal_digits(x as nat);
                assert(l.subrange(0, l.len() - 6) =~= decimal(x as nat));
                assert(mode_label(b).subrange(0, l.len() - 6) =~= decimal(y as nat));
                lemma_decimal_injective(x as nat, y as nat);
            },
            (Mode::Time(x), Mode::Time(y)) => {
                let l = mode_label(a);
                assert(l.drop_last() =~= decimal(x as nat));
                assert(mode_label(b).drop_last() =~= decimal(y as nat));
                lemma_decimal_injective(x as nat, y as nat);
            },
            (Mode::Words(x), Mode::Time(y)) => {
                lemma_decimal_digits(y as nat);
                let l = mode_label(a);
                assert(l[l.len() - 6] == ' ');
                assert(mode_label(b)[l.len() - 6] == decimal(y as nat)[l.len() - 6]);
            },
            (Mode::Time(x), Mode::Words(y)) => {
                lemma_decimal_digits(x as nat);
                let l = mode_label(b);
                assert(l[l.len() - 6] == ' ');
                assert(mode_label(a)[l.len() - 6] == decimal(x as nat)[l.len() - 6]);
            },
            (Mode::Quote, Mode::Words(y)) => {
                lemma_decimal_digits(y as nat);
                assert(mode_label(b)[0] == decimal(y as nat)[0]);
            },
            (Mode::Words(x), Mode::Quote) => {
                lemma_decimal_digits(x as nat);
                assert(mode_label(a)[0] == decimal(x as nat)[0]);
            },
            (Mode::Quote, Mode::Time(y)) => {
                lemma_decimal_digits(y as nat);
                assert(mode_label(b)[0] == decimal(y as nat)[0]);
            },
            (Mode::Time(x), Mode::Quote) => {
                lemma_decimal_digits(x as nat);
                assert(mode_label(a)[0] == decimal(x as nat)[0]);
            },
            (Mode::Quote, Mode::Quote) => {},
        }
    }
}

} // verus!
