//! The words of a test: reading a word list, splitting a quote into words,
//! and drawing words at random.
use vstd::prelude::*;
use vstd::string::*;

use rand::seq::SliceRandom;

use crate::stats::strings_view;
use crate::text::chars_of;

verus! {

/// Whether `c` has the Unicode White_Space property: the characters listed
/// as White_Space in the Unicode Character Database's PropList.txt, namely
/// U+0009 to U+000D, U+0020, U+0085, U+00A0, U+1680, U+2000 to U+200A,
/// U+2028, U+2029, U+202F, U+205F and U+3000.
pub open spec fn white_space(c: char) -> bool {
    ||| '\u{9}' <= c <= '\u{d}'
    ||| c == ' '
    ||| c == '\u{85}'
    ||| c == '\u{a0}'
    ||| c == '\u{1680}'
    ||| '\u{2000}' <= c <= '\u{200a}'
    ||| c == '\u{2028}'
    ||| c == '\u{2029}'
    ||| c == '\u{202f}'
    ||| c == '\u{205f}'
    ||| c == '\u{3000}'
}

/// `char::is_whitespace`, which std documents as true exactly for the
/// characters with the Unicode White_Space property (`white_space`).
#[verifier::external_body]
fn is_whitespace(c: char) -> (b: bool)
    ensures
        b == white_space(c),
{
    c.is_whitespace()
}

/// rand's `SliceRandom::choose` on the items, drawing from the thread-local
/// generator (`rand::thread_rng`). The draw is random: all that is stated is
/// that there is none exactly when there are no items, and otherwise it is
/// one of the items. (`thread_rng` panics if the system's random source
/// fails when it is first seeded; no input leads there.)
#[verifier::external_body]
fn pick_one<'a, T>(items: &'a Vec<T>) -> (r: Option<&'a T>)
    ensures
        r is None <==> items@.len() == 0,
        r matches Some(x) ==> items@.contains(*x),
{
    items.as_slice().choose(&mut rand::thread_rng())
}

/// The words split off so far and the word being read, after reading `s`
/// from the left: white space ends a word, anything else extends it.
pub open spec fn split_state(s: Seq<char>) -> (Seq<Seq<char>>, Seq<char>)
    decreases s.len(),
{
    if s.len() == 0 {
        (Seq::empty(), Seq::empty())
    } else {
        let (done, cur) = split_state(s.drop_last());
        let c = s.last();
        if white_space(c) {
            if cur.len() > 0 {
                (done.push(cur), Seq::empty())
            } else {
                (done, cur)
            }
        } else {
            (done, cur.push(c))
        }
    }
}

/// The maximal runs of non-white-space characters of `s`, in order
/// (`str::split_whitespace`).
pub open spec fn split_ws(s: Seq<char>) -> Seq<Seq<char>> {
    let (done, cur) = split_state(s);
    if cur.len() > 0 {
        done.push(cur)
    } else {
        done
    }
}

/// The lines ended so far and the line being read, after reading `s`: a
/// newline ends a line, and a carriage return right before it is dropped.
pub open spec fn lines_state(s: Seq<char>) -> (Seq<Seq<char>>, Seq<char>)
    decreases s.len(),
{
    if s.len() == 0 {
        (Seq::empty(), Seq::empty())
    } else {
        let (done, cur) = lines_state(s.drop_last());
        let c = s.last();
        if c == '\n' {
            (done.push(strip_cr(cur)), Seq::empty())
        } else {
            (done, cur.push(c))
        }
    }
}

/// A line without the carriage return that ended it, if it has one.
pub open spec fn strip_cr(line: Seq<char>) -> Seq<char> {
    if line.len() > 0 && line.last() == '\r' {
        line.drop_last()
    } else {
        line
    }
}

/// The lines of `s` (`str::lines`): the text between newlines, a final
/// unterminated line included when it is not empty.
pub open spec fn lines(s: Seq<char>) -> Seq<Seq<char>> {
    let (done, cur) = lines_state(s);
    if cur.len() > 0 {
        done.push(cur)
    } else {
        done
    }
}

/// Whether a line holds nothing but white space.
pub open spec fn blank(line: Seq<char>) -> bool {
    forall|i: int| 0 <= i < line.len() ==> white_space(#[trigger] line[i])
}

/// The lines that are not blank, in order.
pub open spec fn non_blank(ls: Seq<Seq<char>>) -> Seq<Seq<char>>
    decreases ls.len(),
{
    if ls.len() == 0 {
        Seq::empty()
    } else if blank(ls.last()) {
        non_blank(ls.drop_last())
    } else {
        non_blank(ls.drop_last()).push(ls.last())
    }
}

/// The words of a word list: one per line, blank lines skipped.
pub open spec fn word_list_of(source: Seq<char>) -> Seq<Seq<char>> {
    non_blank(lines(source))
}

/// The quotes a quote test draws from.
pub open spec fn quote_text(i: int) -> Seq<char> {
    if i == 0 {
        "The limits of my language mean the limits of my world"@
    } else if i == 1 {
        "Programs must be written for people to read and only incidentally for machines to execute"@
    } else if i == 2 {
        "Simplicity is prerequisite for reliability"@
    } else if i == 3 {
        "Make it work make it right make it fast"@
    } else if i == 4 {
        "The best way to predict the future is to invent it"@
    } else {
        "Premature optimization is the root of all evil"@
    }
}

/// How many quotes there are.
pub const QUOTE_COUNT: usize = 6;

/// The quote numbered `i`.
pub fn quote(i: usize) -> (q: &'static str)
    requires
        i < QUOTE_COUNT,
    ensures
        q@ == quote_text(i as int),
{
    if i == 0 {
        "The limits of my language mean the limits of my world"
    } else if i == 1 {
        "Programs must be written for people to read and only incidentally for machines to execute"
    } else if i == 2 {
        "Simplicity is prerequisite for reliability"
    } else if i == 3 {
        "Make it work make it right make it fast"
    } else if i == 4 {
        "The best way to predict the future is to invent it"
    } else {
        "Premature optimization is the root of all evil"
    }
}

/// The words of `s`: its maximal runs of non-white-space characters.
pub fn split_whitespace(s: &str) -> (words: Vec<String>)
    ensures
        strings_view(words@) == split_ws(s@),
{
    let chars = chars_of(s);
    let n = chars.len();
    let mut words: Vec<String> = Vec::new();
    let mut start: usize = 0;
    let mut in_word = false;
    let mut i: usize = 0;
    while i < n
        invariant
            chars@ == s@,
            n == chars@.len(),
            i <= n,
            start <= i,
            split_state(s@.take(i as int)).0 == strings_view(words@),
            split_state(s@.take(i as int)).1 == if in_word {
                s@.subrange(start as int, i as int)
            } else {
                Seq::empty()
            },
            in_word ==> start < i,
        decreases n - i,
    {
        assert(s@.take(i + 1).drop_last() == s@.take(i as int));
        let c = chars[i];
        if is_whitespace(c) {
            if in_word {
                let w = s.substring_char(start, i).to_owned();
                let ghost prev = words@;
                words.push(w);
                assert(strings_view(words@) =~= strings_view(prev).push(w@));
                in_word = false;
            }
        } else {
            if !in_word {
                start = i;
                in_word = true;
            }
            assert(s@.subrange(start as int, i + 1) == s@.subrange(start as int, i as int).push(c));
        }
        i = i + 1;
    }
    assert(s@.take(n as int) == s@);
    if in_word {
        let w = s.substring_char(start, n).to_owned();
        let ghost prev = words@;
        words.push(w);
        assert(strings_view(words@) =~= strings_view(prev).push(w@));
    } else {
        assert(strings_view(words@) =~= split_ws(s@));
    }
    words
}


/// Whether `chars[start..end]` holds nothing but white space.
fn is_blank_range(chars: &Vec<char>, start: usize, end: usize) -> (b: bool)
    requires
        start <= end <= chars@.len(),
    ensures
        b == blank(chars@.subrange(start as int, end as int)),
{
    let mut i = start;
    while i < end
        invariant
            start <= i <= end <= chars@.len(),
            forall|j: int| start <= j < i ==> white_space(#[trigger] chars@[j]),
        decreases end - i,
    {
        if !is_whitespace(chars[i]) {
            assert(chars@.subrange(start as int, end as int)[i - start] == chars@[i as int]);
            return false;
        }
        i = i + 1;
    }
    assert forall|j: int| 0 <= j < chars@.subrange(start as int, end as int).len() implies white_space(
        #[trigger] chars@.subrange(start as int, end as int)[j],
    ) by {
        assert(chars@.subrange(start as int, end as int)[j] == chars@[start + j]);
    }
    true
}

proof fn lemma_non_blank_push(ls: Seq<Seq<char>>, line: Seq<char>)
    ensures
        non_blank(ls.push(line)) == if blank(line) {
            non_blank(ls)
        } else {
            non_blank(ls).push(line)
        },
{
    assert(ls.push(line).drop_last() =~= ls);
}

/// The words of a word list: its lines (`str::lines`) that are not blank,
/// each kept as it stands.
pub fn word_list(source: &str) -> (words: Vec<String>)
    ensures
        strings_view(words@) == word_list_of(source@),
{
    let chars = chars_of(source);
    let n = chars.len();
    let mut words: Vec<String> = Vec::new();
    let mut start: usize = 0;
    let mut i: usize = 0;
    while i < n
        invariant
            chars@ == source@,
            n == chars@.len(),
            start <= i <= n,
            non_blank(lines_state(source@.take(i as int)).0) == strings_view(words@),
            lines_state(source@.take(i as int)).1 == source@.subrange(start as int, i as int),
        decreases n - i,
    {
        assert(source@.take(i + 1).drop_last() == source@.take(i as int));
        let ghost done = lines_state(source@.take(i as int)).0;
        let ghost cur = lines_state(source@.take(i as int)).1;
        if chars[i] == '\n' {
            let end = if i > start && chars[i - 1] == '\r' {
                i - 1
            } else {
                i
            };
            assert(source@.subrange(start as int, end as int) == strip_cr(cur)) by {
                if i > start && chars@[i - 1] == '\r' {
                    assert(cur.drop_last() =~= source@.subrange(start as int, end as int));
                }
            }
            proof {
                lemma_non_blank_push(done, strip_cr(cur));
            }
            if !is_blank_range(&chars, start, end) {
                let w = source.substring_char(start, end).to_owned();
                let ghost prev = words@;
                words.push(w);
                assert(strings_view(words@) =~= strings_view(prev).push(w@));
            }
            start = i + 1;
        } else {
            assert(source@.subrange(start as int, i + 1) =~= cur.push(chars@[i as int]));
        }
        i = i + 1;
    }
    assert(source@.take(n as int) == source@);
    let ghost done = lines_state(source@).0;
    let ghost cur = lines_state(source@).1;
    if start < n {
        proof {
            lemma_non_blank_push(done, cur);
        }
        if !is_blank_range(&chars, start, n) {
            let w = source.substring_char(start, n).to_owned();
            let ghost prev = words@;
            words.push(w);
            assert(strings_view(words@) =~= strings_view(prev).push(w@));
        }
    }
    words
}

/// The texts of the word lists a test draws from.
pub struct WordLists {
    pub english_200: String,
    pub english_1000: String,
}

/// The text of the list called `name`: "english_1000", or else "english_200".
pub open spec fn list_text(english_200: Seq<char>, english_1000: Seq<char>, name: Seq<char>) -> Seq<
    char,
> {
    if name == "english_1000"@ {
        english_1000
    } else {
        english_200
    }
}

impl WordLists {
    /// The text of the list called `name`.
    pub open spec fn text_of(&self, name: Seq<char>) -> Seq<char> {
        list_text(self.english_200@, self.english_1000@, name)
    }

    /// The text of the list called `wordlist`: "english_1000", or else "english_200".
    pub fn source(&self, wordlist: &str) -> (text: &str)
        ensures
            text@ == self.text_of(wordlist@),
    {
        if crate::display::same_text(wordlist, "english_1000") {
            self.english_1000.as_str()
        } else {
            self.english_200.as_str()
        }
    }
}

/// `count` words drawn at random from the list called `wordlist`, each
/// drawn independently; none when the list is empty.
pub fn random_words(lists: &WordLists, wordlist: &str, count: usize) -> (words: Vec<String>)
    ensures
        word_list_of(lists.text_of(wordlist@)).len() == 0 ==> words@.len() == 0,
        word_list_of(lists.text_of(wordlist@)).len() > 0 ==> words@.len() == count,
        forall|i: int|
            0 <= i < words@.len() ==> word_list_of(lists.text_of(wordlist@)).contains(
                #[trigger] words@[i]@,
            ),
{
    let source = lists.source(wordlist);
    let list = word_list(source);
    let mut words: Vec<String> = Vec::new();
    let mut k: usize = 0;
    while k < count
        invariant
            strings_view(list@) == word_list_of(source@),
            k <= count,
            list@.len() == 0 ==> words@.len() == 0,
            list@.len() > 0 ==> words@.len() == k,
            forall|i: int|
                0 <= i < words@.len() ==> word_list_of(source@).contains(#[trigger] words@[i]@),
        decreases count - k,
    {
        match pick_one(&list) {
            Some(w) => {
                let ghost j = choose|j: int| 0 <= j < list@.len() && list@[j] == *w;
                assert(strings_view(list@)[j] == w@);
                words.push(w.clone());
            },
            None => {},
        }
        k = k + 1;
    }
    words
}

/// The words of a timed test: drawn like `random_words`.
pub fn random_stream(lists: &WordLists, wordlist: &str, count: usize) -> (words: Vec<String>)
    ensures
        word_list_of(lists.text_of(wordlist@)).len() == 0 ==> words@.len() == 0,
        word_list_of(lists.text_of(wordlist@)).len() > 0 ==> words@.len() == count,
        forall|i: int|
            0 <= i < words@.len() ==> word_list_of(lists.text_of(wordlist@)).contains(
                #[trigger] words@[i]@,
            ),
{
    random_words(lists, wordlist, count)
}

/// The words of one of the quotes, drawn at random.
pub fn random_quote() -> (words: Vec<String>)
    ensures
        exists|i: int| 0 <= i < QUOTE_COUNT && strings_view(words@) == split_ws(#[trigger] quote_text(i)),
{
    let mut quotes: Vec<&'static str> = Vec::new();
    let mut i: usize = 0;
    while i < QUOTE_COUNT
        invariant
            i <= QUOTE_COUNT,
            quotes@.len() == i,
            forall|j: int| 0 <= j < i ==> (#[trigger] quotes@[j])@ == quote_text(j),
        decreases QUOTE_COUNT - i,
    {
        quotes.push(quote(i));
        i = i + 1;
    }
    let first = quotes[0];
    let picked: &str = match pick_one(&quotes) {
        Some(q) => *q,
        None => first,
    };
    let ghost k = choose|k: int| 0 <= k < quotes@.len() && quotes@[k] == picked;
    assert(picked@ == quote_text(k));
    split_whitespace(picked)
}


/// Whether a word is a proper word: not empty, and free of white space.
pub open spec fn clean_word(w: Seq<char>) -> bool {
    w.len() > 0 && forall|i: int| 0 <= i < w.len() ==> !white_space(#[trigger] w[i])
}

proof fn lemma_split_state_clean(s: Seq<char>)
    ensures
        forall|k: int| 0 <= k < split_state(s).0.len() ==> clean_word(#[trigger] split_state(s).0[k]),
        forall|i: int|
            0 <= i < split_state(s).1.len() ==> !white_space(#[trigger] split_state(s).1[i]),
    decreases s.len(),
{
    if s.len() > 0 {
        lemma_split_state_clean(s.drop_last());
        let (done, cur) = split_state(s.drop_last());
        let c = s.last();
        if !white_space(c) {
            assert forall|i: int| 0 <= i < cur.push(c).len() implies !white_space(
                #[trigger] cur.push(c)[i],
            ) by {
                if i < cur.len() {
                    assert(cur.push(c)[i] == cur[i]);
                }
            }
        } else if cur.len() > 0 {
            assert forall|k: int| 0 <= k < done.push(cur).len() implies clean_word(
                #[trigger] done.push(cur)[k],
            ) by {
                if k < done.len() {
                    assert(done.push(cur)[k] == done[k]);
                }
            }
        }
    }
}

/// Splitting at white space gives proper words: none is empty and none
/// holds white space.
pub proof fn law_split_words_are_clean(s: Seq<char>)
    ensures
        forall|k: int| 0 <= k < split_ws(s).len() ==> clean_word(#[trigger] split_ws(s)[k]),
{
    lemma_split_state_clean(s);
    let (done, cur) = split_state(s);
    if cur.len() > 0 {
        assert forall|k: int| 0 <= k < done.push(cur).len() implies clean_word(
            #[trigger] done.push(cur)[k],
        ) by {
            if k < done.len() {
                assert(done.push(cur)[k] == done[k]);
            }
        }
    }
}

proof fn lemma_non_blank_all(ls: Seq<Seq<char>>)
    ensures
        forall|k: int| 0 <= k < non_blank(ls).len() ==> !blank(#[trigger] non_blank(ls)[k]),
    decreases ls.len(),
{
    if ls.len() > 0 {
        lemma_non_blank_all(ls.drop_last());
        let r = non_blank(ls.drop_last());
        if !blank(ls.last()) {
            assert forall|k: int| 0 <= k < r.push(ls.last()).len() implies !blank(
                #[trigger] r.push(ls.last())[k],
            ) by {
                if k < r.len() {
                    assert(r.push(ls.last())[k] == r[k]);
                }
            }
        }
    }
}

/// No word of a word list is blank.
pub proof fn law_word_list_has_no_blank_words(source: Seq<char>)
    ensures
        forall|k: int|
            0 <= k < word_list_of(source).len() ==> !blank(#[trigger] word_list_of(source)[k]),
{
    lemma_non_blank_all(lines(source));
}


proof fn lemma_split_state_nonempty(s: Seq<char>, k: int)
    requires
        0 <= k < s.len(),
        !white_space(s[k]),
    ensures
        split_state(s).0.len() > 0 || split_state(s).1.len() > 0,
    decreases s.len(),
{
    if k < s.len() - 1 {
        assert(s.drop_last()[k] == s[k]);
        lemma_split_state_nonempty(s.drop_last(), k);
    }
}

/// A text with a character that is not white space has at least one word.
pub proof fn law_split_finds_a_word(s: Seq<char>, k: int)
    requires
        0 <= k < s.len(),
        !white_space(s[k]),
    ensures
        split_ws(s).len() > 0,
{
    lemma_split_state_nonempty(s, k);
}

/// Every quote has words.
pub proof fn law_quotes_have_words(i: int)
    requires
        0 <= i < QUOTE_COUNT,
    ensures
        split_ws(quote_text(i)).len() > 0,
{
    reveal_strlit("The limits of my language mean the limits of my world");
    reveal_strlit(
        "Programs must be written for people to read and only incidentally for machines to execute",
    );
    reveal_strlit("Simplicity is prerequisite for reliability");
    reveal_strlit("Make it work make it right make it fast");
    reveal_strlit("The best way to predict the future is to invent it");
    reveal_strlit("Premature optimization is the root of all evil");
    law_split_finds_a_word(quote_text(i), 0);
}

} // verus!
