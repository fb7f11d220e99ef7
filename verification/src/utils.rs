//! Random words and terminal colors.
use vstd::prelude::*;

use crate::text::{contains, decimal, decimal_exec, has_prefix, has_suffix, string_from_chars};
use colored::Colorize;
use rand::Rng;

verus! {

/// A character of the alphabet random words are made of: `a`-`z` and `0`-`9`.
pub open spec fn is_random_char(c: char) -> bool {
    ('a' <= c && c <= 'z') || ('0' <= c && c <= '9')
}

/// A word of `size` characters of the random alphabet.
pub open spec fn is_random_word(w: Seq<char>, size: nat) -> bool {
    w.len() == size && forall|k: int| 0 <= k < w.len() ==> is_random_char(#[trigger] w[k])
}

/// A number below `n`, drawn by the thread-local generator of `rand`
/// (`thread_rng().gen_range(0, n)`); only its range is known.
#[verifier::external_body]
fn random_below(n: usize) -> (r: usize)
    requires
        n > 0,
    ensures
        r < n,
{
    rand::thread_rng().gen_range(0, n)
}

/// The `idx`-th character of the random alphabet `abcdefghijklmnopqrstuvwxyz0123456789`.
fn charset_char(idx: usize) -> (c: char)
    requires
        idx < 36,
    ensures
        is_random_char(c),
{
    if idx < 26 {
        let b: u8 = 97u8 + idx as u8;
        b as char
    } else {
        let b: u8 = 48u8 + (idx - 26) as u8;
        b as char
    }
}

/// Generates a random word of `size` characters of the random alphabet.
pub fn random_line(size: usize) -> (r: String)
    ensures
        is_random_word(r@, size as nat),
{
    let mut chars: Vec<char> = Vec::new();
    let mut k: usize = 0;
    while k < size
        invariant
            k <= size,
            is_random_word(chars@, k as nat),
        decreases size - k,
    {
        let idx = random_below(36);
        chars.push(charset_char(idx));
        k = k + 1;
    }
    string_from_chars(&chars)
}

/// The terminal colors the tool prints with.
#[derive(Clone, Copy, Debug, PartialEq, Eq)]
pub enum Color {
    Red,
    Green,
    Yellow,
    Blue,
    Magenta,
    Cyan,
    White,
    BrightRed,
    BrightGreen,
    BrightYellow,
    BrightBlue,
    BrightCyan,
}

/// The ANSI foreground code of a color.
pub open spec fn fg_code(color: Color) -> Seq<char> {
    match color {
        Color::Red => "31"@,
        Color::Green => "32"@,
        Color::Yellow => "33"@,
        Color::Blue => "34"@,
        Color::Magenta => "35"@,
        Color::Cyan => "36"@,
        Color::White => "37"@,
        Color::BrightRed => "91"@,
        Color::BrightGreen => "92"@,
        Color::BrightYellow => "93"@,
        Color::BrightBlue => "94"@,
        Color::BrightCyan => "96"@,
    }
}

/// The escape sequence that ends colored text.
pub open spec fn color_reset() -> Seq<char> {
    seq!['\x1b', '[', '0', 'm']
}

/// The escape sequence that starts text of a color.
pub open spec fn color_start(color: Color) -> Seq<char> {
    seq!['\x1b', '['] + fg_code(color) + seq!['m']
}

/// `out` is `text` as `colored` prints it in `color`: unchanged when coloring is
/// off, otherwise between the color's start sequence and the reset sequence.
pub open spec fn painted(text: Seq<char>, color: Color, out: Seq<char>) -> bool {
    ||| out == text
    ||| !contains(text, color_reset()) && out == color_start(color) + text + color_reset()
    ||| contains(text, color_reset()) && has_prefix(out, color_start(color)) && has_suffix(
        out,
        color_reset(),
    )
}

/// `text.color(color).to_string()` with `colored`. Whether colors are on depends on
/// the terminal and the environment, so the result is either form of `painted`.
#[verifier::external_body]
pub(crate) fn paint(text: &str, color: Color) -> (r: String)
    ensures
        painted(text@, color, r@),
{
    text.color(match color {
        Color::Red => colored::Color::Red,
        Color::Green => colored::Color::Green,
        Color::Yellow => colored::Color::Yellow,
        Color::Blue => colored::Color::Blue,
        Color::Magenta => colored::Color::Magenta,
        Color::Cyan => colored::Color::Cyan,
        Color::White => colored::Color::White,
        Color::BrightRed => colored::Color::BrightRed,
        Color::BrightGreen => colored::Color::BrightGreen,
        Color::BrightYellow => colored::Color::BrightYellow,
        Color::BrightBlue => colored::Color::BrightBlue,
        Color::BrightCyan => colored::Color::BrightCyan,
    }).to_string()
}

/// The color of a runner's id: by the largest of 7, 6, 5, 4, 3, 2 that divides it.
pub open spec fn id_color(id: nat) -> Color {
    if id % 7 == 0 {
        Color::White
    } else if id % 6 == 0 {
        Color::BrightRed
    } else if id % 5 == 0 {
        Color::BrightCyan
    } else if id % 4 == 0 {
        Color::BrightBlue
    } else if id % 3 == 0 {
        Color::Yellow
    } else if id % 2 == 0 {
        Color::BrightGreen
    } else {
        Color::Magenta
    }
}

/// The id of a runner in its color, to tell apart the output of runners working in parallel.
pub fn color_id(id: usize) -> (r: String)
    ensures
        painted(decimal(id as nat), id_color(id as nat), r@),
{
    let color = if id % 7 == 0 {
        Color::White
    } else if id % 6 == 0 {
        Color::BrightRed
    } else if id % 5 == 0 {
        Color::BrightCyan
    } else if id % 4 == 0 {
        Color::BrightBlue
    } else if id % 3 == 0 {
        Color::Yellow
    } else if id % 2 == 0 {
        Color::BrightGreen
    } else {
        Color::Magenta
    };
    let digits = string_from_chars(&decimal_exec(id as u128));
    paint(digits.as_str(), color)
}

/// An informative line: the runner's id in its color, the word in yellow between
/// brackets, and the message.
pub fn info_line(id: usize, word: &str, msg: &str) -> (r: String)
    ensures
        exists|c: Seq<char>, w: Seq<char>|
            #![trigger painted(decimal(id as nat), id_color(id as nat), c), painted(word@, Color::Yellow, w)]
            painted(decimal(id as nat), id_color(id as nat), c) && painted(
                word@,
                Color::Yellow,
                w,
            ) && r@ == c + " ["@ + w + "] "@ + msg@,
{
    let mut line = color_id(id);
    let ghost c = line@;
    line.append(" [");
    let w = paint(word, Color::Yellow);
    line.append(w.as_str());
    line.append("] ");
    line.append(msg);
    assert(painted(decimal(id as nat), id_color(id as nat), c) && painted(word@, Color::Yellow, w@));
    line
}

/// An error line: `[#]` in red, the url between brackets where there is one, and the message.
pub fn error_line(msg: &str, url: Option<&str>) -> (r: String)
    ensures
        exists|mark: Seq<char>|
            #[trigger] painted("[#]"@, Color::Red, mark) && r@ == match url {
                Some(u) => mark + " ["@ + u@ + "] "@ + msg@,
                None => mark + " "@ + msg@,
            },
{
    let mut line = paint("[#]", Color::Red);
    let ghost mark = line@;
    match url {
        Some(u) => {
            line.append(" [");
            line.append(u);
            line.append("] ");
        },
        None => {
            line.append(" ");
        },
    }
    line.append(msg);
    assert(painted("[#]"@, Color::Red, mark));
    line
}

} // verus!
