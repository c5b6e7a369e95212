//! What the screens show, as plain values: the colour palette of a theme,
//! how the words of a test wrap into lines, and how each character of a
//! word is drawn.
use vstd::prelude::*;
use vstd::string::*;
use vstd::utf8::{encode_utf8, is_ascii_chars, is_char_boundary};

use crate::stats::TypedChar;
use crate::text::chars_of;

verus! {

/// A 24-bit colour.
#[derive(Debug, Clone, Copy, PartialEq, Eq, Structural)]
pub struct Rgb(pub u8, pub u8, pub u8);

/// The colours of a theme.
#[derive(Debug, Clone, Copy, PartialEq, Eq, Structural)]
pub struct Palette {
    pub bg: Rgb,
    pub surface: Rgb,
    pub dim: Rgb,
    pub text: Rgb,
    pub error: Rgb,
    pub cursor: Rgb,
    pub accent: Rgb,
    /// The background behind a wrongly typed character.
    pub error_bg: Rgb,
}

/// The background behind a wrongly typed character, in every theme.
pub open spec fn error_bg() -> Rgb {
    Rgb(82, 24, 34)
}

/// The accent used when the configured one does not parse.
pub open spec fn default_accent() -> Rgb {
    Rgb(226, 183, 20)
}

/// Whether two strings hold the same characters.
pub fn same_text(a: &str, b: &str) -> (same: bool)
    ensures
        same == (a@ == b@),
{
    let x = chars_of(a);
    let y = chars_of(b);
    if x.len() != y.len() {
        return false;
    }
    let mut i: usize = 0;
    while i < x.len()
        invariant
            x@ == a@,
            y@ == b@,
            x@.len() == y@.len(),
            i <= x@.len(),
            forall|j: int| 0 <= j < i ==> x@[j] == y@[j],
        decreases x@.len() - i,
    {
        if x[i] != y[i] {
            return false;
        }
        i = i + 1;
    }
    assert(a@ =~= b@);
    true
}

/// `s` without one leading '#', if it has one (`str::strip_prefix('#')`).
pub open spec fn strip_hash(s: Seq<char>) -> Seq<char> {
    if s.len() > 0 && s[0] == '#' {
        s.drop_first()
    } else {
        s
    }
}

/// Whether reading a colour from `s` slices its digits apart in the middle
/// of a character: six bytes after the '#', with byte 2 inside a
/// multi-byte character, or with byte 4 inside one once the first two
/// characters have been read as a byte.
pub open spec fn hex_slicing_panics(s: Seq<char>) -> bool {
    let h = strip_hash(s);
    let bytes = encode_utf8(h);
    &&& bytes.len() == 6
    &&& !is_char_boundary(bytes, 2) || (h.len() >= 2 && hex_pair(h[0], h[1]) is Some
        && !is_char_boundary(bytes, 4))
}

/// The value of a hexadecimal digit, in either case.
pub open spec fn hex_value(c: char) -> Option<u8> {
    if '0' <= c <= '9' {
        Some((c as u32 - '0' as u32) as u8)
    } else if 'a' <= c <= 'f' {
        Some((c as u32 - 'a' as u32 + 10) as u8)
    } else if 'A' <= c <= 'F' {
        Some((c as u32 - 'A' as u32 + 10) as u8)
    } else {
        None
    }
}

/// Two characters read as a hexadecimal byte, as `u8::from_str_radix` reads
/// them with radix 16: two digits, or a plus sign and one digit.
pub open spec fn hex_pair(a: char, b: char) -> Option<u8> {
    if a == '+' {
        hex_value(b)
    } else {
        match (hex_value(a), hex_value(b)) {
            (Some(x), Some(y)) => Some((16 * x + y) as u8),
            _ => None,
        }
    }
}

/// The colour written as "#rrggbb" or "rrggbb".
pub open spec fn parse_hex_spec(s: Seq<char>) -> Option<Rgb> {
    let h = strip_hash(s);
    if encode_utf8(h).len() != 6 || !is_ascii_chars(h) {
        None
    } else {
        match (hex_pair(h[0], h[1]), hex_pair(h[2], h[3]), hex_pair(h[4], h[5])) {
            (Some(r), Some(g), Some(b)) => Some(Rgb(r, g, b)),
            _ => None,
        }
    }
}

fn hex_digit(c: char) -> (v: Option<u8>)
    ensures
        v == hex_value(c),
{
    if '0' <= c && c <= '9' {
        Some((c as u32 - '0' as u32) as u8)
    } else if 'a' <= c && c <= 'f' {
        Some((c as u32 - 'a' as u32 + 10) as u8)
    } else if 'A' <= c && c <= 'F' {
        Some((c as u32 - 'A' as u32 + 10) as u8)
    } else {
        None
    }
}

fn hex_byte(a: char, b: char) -> (v: Option<u8>)
    ensures
        v == hex_pair(a, b),
{
    if a == '+' {
        hex_digit(b)
    } else {
        match (hex_digit(a), hex_digit(b)) {
            (Some(x), Some(y)) => Some(16 * x + y),
            _ => None,
        }
    }
}

/// Reads a colour written as "#rrggbb" or "rrggbb".
pub fn parse_hex(input: &str) -> (rgb: Option<Rgb>)
    requires
        !hex_slicing_panics(input@),
    ensures
        rgb == parse_hex_spec(input@),
{
    let chars = chars_of(input);
    let n = chars.len();
    let start: usize = if n > 0 && chars[0] == '#' {
        1
    } else {
        0
    };
    let hex = input.substring_char(start, n);
    assert(hex@ == strip_hash(input@)) by {
        if start == 1 {
            assert(input@.subrange(1, n as int) =~= input@.drop_first());
        } else {
            assert(input@.subrange(0, n as int) =~= input@);
        }
    }
    if hex.len() != 6 {
        return None;
    }
    if !hex.is_ascii() {
        return None;
    }
    proof {
        vstd::utf8::is_ascii_chars_encode_utf8(hex@);
    }
    let h = chars_of(hex);
    match (hex_byte(h[0], h[1]), hex_byte(h[2], h[3]), hex_byte(h[4], h[5])) {
        (Some(r), Some(g), Some(b)) => Some(Rgb(r, g, b)),
        _ => None,
    }
}

/// The palette of the theme called `name`, with the accent colour parsed
/// from `accent`.
pub open spec fn palette_spec(name: Seq<char>, accent: Seq<char>) -> Palette {
    let accent = match parse_hex_spec(accent) {
        Some(c) => c,
        None => default_accent(),
    };
    if name == "light"@ {
        Palette {
            bg: Rgb(246, 247, 242),
            surface: Rgb(226, 228, 220),
            dim: Rgb(116, 120, 112),
            text: Rgb(24, 26, 27),
            error: Rgb(190, 45, 54),
            cursor: Rgb(246, 247, 242),
            accent,
            error_bg: error_bg(),
        }
    } else if name == "catppuccin"@ || name == "catppuccin-mocha"@ {
        Palette {
            bg: Rgb(30, 30, 46),
            surface: Rgb(49, 50, 68),
            dim: Rgb(127, 132, 156),
            text: Rgb(205, 214, 244),
            error: Rgb(243, 139, 168),
            cursor: Rgb(30, 30, 46),
            accent,
            error_bg: error_bg(),
        }
    } else if name == "nord"@ {
        Palette {
            bg: Rgb(46, 52, 64),
            surface: Rgb(59, 66, 82),
            dim: Rgb(129, 161, 193),
            text: Rgb(236, 239, 244),
            error: Rgb(191, 97, 106),
            cursor: Rgb(46, 52, 64),
            accent,
            error_bg: error_bg(),
        }
    } else if name == "dracula"@ {
        Palette {
            bg: Rgb(40, 42, 54),
            surface: Rgb(68, 71, 90),
            dim: Rgb(98, 114, 164),
            text: Rgb(248, 248, 242),
            error: Rgb(255, 85, 85),
            cursor: Rgb(40, 42, 54),
            accent,
            error_bg: error_bg(),
        }
    } else {
        Palette {
            bg: Rgb(9, 11, 15),
            surface: Rgb(18, 22, 30),
            dim: Rgb(92, 101, 116),
            text: Rgb(236, 240, 246),
            error: Rgb(255, 91, 110),
            cursor: Rgb(9, 11, 15),
            accent,
            error_bg: error_bg(),
        }
    }
}

/// The palette of the theme called `name` ("light", "catppuccin" or
/// "catppuccin-mocha", "nord", "dracula", anything else dark), with the
/// accent colour from `accent`, or yellow when that does not parse.
pub fn palette(name: &str, accent: &str) -> (p: Palette)
    requires
        !hex_slicing_panics(accent@),
    ensures
        p == palette_spec(name@, accent@),
{
    let accent = match parse_hex(accent) {
        Some(c) => c,
        None => Rgb(226, 183, 20),
    };
    if same_text(name, "light") {
        Palette {
            bg: Rgb(246, 247, 242),
            surface: Rgb(226, 228, 220),
            dim: Rgb(116, 120, 112),
            text: Rgb(24, 26, 27),
            error: Rgb(190, 45, 54),
            cursor: Rgb(246, 247, 242),
            accent,
            error_bg: Rgb(82, 24, 34),
        }
    } else if same_text(name, "catppuccin") || same_text(name, "catppuccin-mocha") {
        Palette {
            bg: Rgb(30, 30, 46),
            surface: Rgb(49, 50, 68),
            dim: Rgb(127, 132, 156),
            text: Rgb(205, 214, 244),
            error: Rgb(243, 139, 168),
            cursor: Rgb(30, 30, 46),
            accent,
            error_bg: Rgb(82, 24, 34),
        }
    } else if same_text(name, "nord") {
        Palette {
            bg: Rgb(46, 52, 64),
            surface: Rgb(59, 66, 82),
            dim: Rgb(129, 161, 193),
            text: Rgb(236, 239, 244),
            error: Rgb(191, 97, 106),
            cursor: Rgb(46, 52, 64),
            accent,
            error_bg: Rgb(82, 24, 34),
        }
    } else if same_text(name, "dracula") {
        Palette {
            bg: Rgb(40, 42, 54),
            surface: Rgb(68, 71, 90),
            dim: Rgb(98, 114, 164),
            text: Rgb(248, 248, 242),
            error: Rgb(255, 85, 85),
            cursor: Rgb(40, 42, 54),
            accent,
            error_bg: Rgb(82, 24, 34),
        }
    } else {
        Palette {
            bg: Rgb(9, 11, 15),
            surface: Rgb(18, 22, 30),
            dim: Rgb(92, 101, 116),
            text: Rgb(236, 240, 246),
            error: Rgb(255, 91, 110),
            cursor: Rgb(9, 11, 15),
            accent,
            error_bg: Rgb(82, 24, 34),
        }
    }
}


/// How a character of a word is drawn.
#[derive(Debug, Clone, Copy, PartialEq, Eq, Structural)]
pub enum Look {
    /// Under the cursor.
    Cursor,
    /// Typed as written.
    Correct,
    /// Typed wrongly.
    Error,
    /// Not typed yet.
    Pending,
}

/// One drawn character: what it shows, how, and whether it is underlined
/// (the characters of the current word are).
#[derive(Debug, Clone, Copy, PartialEq, Eq, Structural)]
pub struct Cell {
    pub ch: char,
    pub look: Look,
    pub underline: bool,
}

/// The cell for the word's own character at `i`: under the cursor, or
/// marked by what was typed there.
pub open spec fn target_cell(
    word: Seq<char>,
    typed: Seq<TypedChar>,
    is_current: bool,
    cursor: nat,
    i: int,
) -> Cell {
    if is_current && i == cursor {
        Cell { ch: word[i], look: Look::Cursor, underline: false }
    } else {
        Cell {
            ch: word[i],
            look: if i < typed.len() {
                if typed[i].ch == word[i] {
                    Look::Correct
                } else {
                    Look::Error
                }
            } else {
                Look::Pending
            },
            underline: is_current,
        }
    }
}

/// The cell for a character typed past the word's end at `j`; it shows the
/// typed character, drawn as correct.
pub open spec fn extra_cell(typed: Seq<TypedChar>, is_current: bool, cursor: nat, j: int) -> Cell {
    if is_current && j == cursor {
        Cell { ch: typed[j].ch, look: Look::Cursor, underline: false }
    } else {
        Cell { ch: typed[j].ch, look: Look::Correct, underline: is_current }
    }
}

/// The cells of a word: one per character of the word, one per character
/// typed past its end, and a blank under the cursor when the cursor of the
/// current word stands right after the word.
pub open spec fn word_cells_spec(
    word: Seq<char>,
    typed: Seq<TypedChar>,
    is_current: bool,
    cursor: nat,
) -> Seq<Cell> {
    let extra: nat = if typed.len() > word.len() {
        (typed.len() - word.len()) as nat
    } else {
        0
    };
    Seq::new(word.len(), |i: int| target_cell(word, typed, is_current, cursor, i)) + Seq::new(
        extra,
        |k: int| extra_cell(typed, is_current, cursor, word.len() + k),
    ) + if is_current && cursor == word.len() {
        seq![Cell { ch: ' ', look: Look::Cursor, underline: false }]
    } else {
        Seq::empty()
    }
}

/// How a word is drawn, given what was typed into it, whether it is the
/// current word, and the cursor's position in the current word.
pub fn word_cells(word: &str, typed: &Vec<TypedChar>, is_current: bool, cursor: usize) -> (cells: Vec<Cell>)
    ensures
        cells@ == word_cells_spec(word@, typed@, is_current, cursor as nat),
{
    let w = chars_of(word);
    let wl = w.len();
    let tl = typed.len();
    let mut cells: Vec<Cell> = Vec::new();
    let mut i: usize = 0;
    while i < wl
        invariant
            w@ == word@,
            wl == w@.len(),
            tl == typed@.len(),
            i <= wl,
            cells@ =~= Seq::new(i as nat, |k: int| target_cell(word@, typed@, is_current, cursor as nat, k)),
        decreases wl - i,
    {
        let cell = if is_current && i == cursor {
            Cell { ch: w[i], look: Look::Cursor, underline: false }
        } else {
            let look = if i < tl {
                if typed[i].ch == w[i] {
                    Look::Correct
                } else {
                    Look::Error
                }
            } else {
                Look::Pending
            };
            Cell { ch: w[i], look, underline: is_current }
        };
        assert(cell == target_cell(word@, typed@, is_current, cursor as nat, i as int));
        cells.push(cell);
        i = i + 1;
    }
    let ghost first = cells@;
    let mut j: usize = wl;
    while j < tl
        invariant
            w@ == word@,
            wl == w@.len(),
            tl == typed@.len(),
            wl <= j <= tl || (j == wl && tl < wl),
            first =~= Seq::new(wl as nat, |k: int| target_cell(word@, typed@, is_current, cursor as nat, k)),
            cells@ =~= first + Seq::new(
                (j - wl) as nat,
                |k: int| extra_cell(typed@, is_current, cursor as nat, wl + k),
            ),
        decreases tl - j,
    {
        let cell = if is_current && j == cursor {
            Cell { ch: typed[j].ch, look: Look::Cursor, underline: false }
        } else {
            Cell { ch: typed[j].ch, look: Look::Correct, underline: is_current }
        };
        cells.push(cell);
        j = j + 1;
    }
    if is_current && cursor == wl {
        cells.push(Cell { ch: ' ', look: Look::Cursor, underline: false });
    }
    cells
}

/// The widest a line of words may be for a terminal `terminal_width`
/// columns wide: between 30 and 92.
pub open spec fn line_limit(terminal_width: nat) -> nat {
    if terminal_width < 30 {
        30
    } else if terminal_width > 92 {
        92
    } else {
        terminal_width
    }
}

/// Laying out the words from the left: the first index of each line so
/// far, and the width of the last line. Each word takes its length plus a
/// space; a word that would take the line past `limit` starts a new line,
/// unless it is the first word.
pub open spec fn wrap_state(words: Seq<Seq<char>>, limit: nat) -> (Seq<nat>, nat)
    decreases words.len(),
{
    if words.len() == 0 {
        (Seq::empty(), 0)
    } else {
        let (starts, width) = wrap_state(words.drop_last(), limit);
        let i = (words.len() - 1) as nat;
        let w = words.last().len() + 1;
        if starts.len() == 0 {
            (starts.push(i), width + w)
        } else if width + w > limit {
            (starts.push(i), w)
        } else {
            (starts, width + w)
        }
    }
}

/// The index of the first word of each line, when the words of a test are
/// laid out on a terminal `terminal_width` columns wide.
pub open spec fn line_starts(words: Seq<Seq<char>>, terminal_width: nat) -> Seq<nat> {
    wrap_state(words, line_limit(terminal_width)).0
}

/// Lays out words into lines: returns the index of each line's first word.
pub fn wrap_words(words: &Vec<String>, terminal_width: usize) -> (starts: Vec<usize>)
    ensures
        starts@.map_values(|i: usize| i as nat) == line_starts(
            crate::stats::strings_view(words@),
            terminal_width as nat,
        ),
{
    let ghost ws = crate::stats::strings_view(words@);
    let limit: u128 = if terminal_width < 30 {
        30
    } else if terminal_width > 92 {
        92
    } else {
        terminal_width as u128
    };
    let n = words.len();
    let mut starts: Vec<usize> = Vec::new();
    let mut width: u128 = 0;
    let mut i: usize = 0;
    while i < n
        invariant
            ws == crate::stats::strings_view(words@),
            n == ws.len(),
            i <= n,
            limit == line_limit(terminal_width as nat),
            starts@.map_values(|k: usize| k as nat) == wrap_state(ws.take(i as int), limit as nat).0,
            width == wrap_state(ws.take(i as int), limit as nat).1,
            width <= limit || width <= usize::MAX + 1,
        decreases n - i,
    {
        assert(ws.take(i + 1).drop_last() =~= ws.take(i as int));
        let count = words[i].as_str().unicode_len();
        assert(count == ws[i as int].len());
        let w: u128 = count as u128 + 1;
        let ghost prev = starts@;
        if starts.len() == 0 {
            starts.push(i);
            width = width + w;
        } else if width + w > limit {
            starts.push(i);
            width = w;
        } else {
            width = width + w;
        }
        assert(starts@.map_values(|k: usize| k as nat) =~= wrap_state(
            ws.take(i + 1),
            limit as nat,
        ).0);
        i = i + 1;
    }
    assert(ws.take(n as int) =~= ws);
    starts
}


proof fn lemma_wrap_state(words: Seq<Seq<char>>, limit: nat)
    ensures
        words.len() == 0 <==> wrap_state(words, limit).0.len() == 0,
        words.len() > 0 ==> wrap_state(words, limit).0[0] == 0,
        forall|k: int|
            0 <= k < wrap_state(words, limit).0.len() ==> #[trigger] wrap_state(words, limit).0[k]
                < words.len(),
        forall|j: int, k: int|
            0 <= j < k < wrap_state(words, limit).0.len() ==> wrap_state(words, limit).0[j]
                < wrap_state(words, limit).0[k],
    decreases words.len(),
{
    if words.len() > 0 {
        lemma_wrap_state(words.drop_last(), limit);
    }
}

/// Laying out words gives one line start per line: the first line starts
/// at the first word, every start is a word, and starts go strictly up.
pub proof fn law_line_starts_ordered(words: Seq<Seq<char>>, terminal_width: nat)
    ensures
        words.len() == 0 <==> line_starts(words, terminal_width).len() == 0,
        words.len() > 0 ==> line_starts(words, terminal_width)[0] == 0,
        forall|k: int|
            0 <= k < line_starts(words, terminal_width).len() ==> #[trigger] line_starts(
                words,
                terminal_width,
            )[k] < words.len(),
        forall|j: int, k: int|
            0 <= j < k < line_starts(words, terminal_width).len() ==> line_starts(
                words,
                terminal_width,
            )[j] < line_starts(words, terminal_width)[k],
{
    lemma_wrap_state(words, line_limit(terminal_width));
}


/// Theme names: "catppuccin-mocha" is "catppuccin"; any name other than
/// "light", "catppuccin", "catppuccin-mocha", "nord" and "dracula" (names
/// are matched exactly, case included) is the dark theme; the accent
/// depends on the accent setting alone, and every other colour on the
/// name alone.
pub proof fn law_palette_names(name: Seq<char>, other: Seq<char>, accent: Seq<char>, other_accent: Seq<char>)
    ensures
        palette_spec("catppuccin-mocha"@, accent) == palette_spec("catppuccin"@, accent),
        !(name == "light"@ || name == "catppuccin"@ || name == "catppuccin-mocha"@ || name
            == "nord"@ || name == "dracula"@) ==> palette_spec(name, accent) == palette_spec(
            "dark"@,
            accent,
        ),
        palette_spec(name, accent).accent == palette_spec(other, accent).accent,
        ({
            let p = palette_spec(name, accent);
            let q = palette_spec(name, other_accent);
            &&& p.bg == q.bg
            &&& p.surface == q.surface
            &&& p.dim == q.dim
            &&& p.text == q.text
            &&& p.error == q.error
            &&& p.cursor == q.cursor
            &&& p.error_bg == q.error_bg
        }),
{
    reveal_strlit("dark");
    reveal_strlit("light");
    reveal_strlit("catppuccin");
    reveal_strlit("catppuccin-mocha");
    reveal_strlit("nord");
    reveal_strlit("dracula");
    assert("dark"@ != "light"@ && "dark"@ != "catppuccin"@ && "dark"@ != "catppuccin-mocha"@
        && "dark"@ != "nord"@ && "dark"@ != "dracula"@) by {
        assert("dark"@[0] != "light"@[0]);
        assert("dark"@[0] != "catppuccin"@[0]);
        assert("dark"@[0] != "catppuccin-mocha"@[0]);
        assert("dark"@[0] != "nord"@[0]);
        assert("dark"@[1] != "dracula"@[1]);
    }
    assert("catppuccin-mocha"@ != "light"@) by {
        assert("catppuccin-mocha"@[0] != "light"@[0]);
    }
}


/// Every word, current or not, shows what was typed into it: a character of
/// the word that is not under the cursor is drawn correct when the typed
/// character at its position equals it, wrong when it differs, and untyped
/// only where nothing was typed; it is underlined exactly in the current word.
pub proof fn law_cells_show_what_was_typed(
    word: Seq<char>,
    typed: Seq<TypedChar>,
    is_current: bool,
    cursor: nat,
    i: int,
)
    requires
        0 <= i < word.len(),
        !(is_current && i == cursor),
    ensures
        ({
            let cell = word_cells_spec(word, typed, is_current, cursor)[i];
            &&& cell.ch == word[i]
            &&& cell.underline == is_current
            &&& i < typed.len() && typed[i].ch == word[i] ==> cell.look == Look::Correct
            &&& i < typed.len() && typed[i].ch != word[i] ==> cell.look == Look::Error
            &&& i >= typed.len() ==> cell.look == Look::Pending
        }),
{
}

/// The cell under the cursor of the current word shows the word's
/// character there, undecorated.
pub proof fn law_cursor_cell(word: Seq<char>, typed: Seq<TypedChar>, cursor: nat)
    requires
        cursor < word.len(),
    ensures
        word_cells_spec(word, typed, true, cursor)[cursor as int] == (Cell {
            ch: word[cursor as int],
            look: Look::Cursor,
            underline: false,
        }),
{
}

} // verus!
