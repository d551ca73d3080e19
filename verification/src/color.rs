//! 256-colour terminal output: the gradient colour cube, escape sequences
//! for coloured cells, and the terminal capability check.

use vstd::prelude::*;
use crate::text::{
    chars_of, contains_text, decimal, has_infix, has_prefix, push_char, push_decimal, push_str,
    same_text, starts_with,
};

verus! {

/// A colour-cube channel level, capped at 5.
pub open spec fn cube_level(v: u8) -> int {
    if v > 5 {
        5
    } else {
        v as int
    }
}

/// Index of a colour in the 6×6×6 cube of the 256-colour palette (16–231).
pub open spec fn cube_color(r: u8, g: u8, b: u8) -> int {
    16 + 36 * cube_level(r) + 6 * cube_level(g) + cube_level(b)
}

/// Palette index of the cube colour with channel levels `r`, `g`, `b`, each
/// capped at 5: `16 + 36·r + 6·g + b`.
pub fn cube_index(r: u8, g: u8, b: u8) -> (idx: u8)
    ensures
        idx == cube_color(r, g, b),
        16 <= idx <= 231,
{
    let r5 = if r > 5 { 5 } else { r };
    let g5 = if g > 5 { 5 } else { g };
    let b5 = if b > 5 { 5 } else { b };
    16 + 36 * r5 + 6 * g5 + b5
}

/// ESC `[`.
pub open spec fn csi() -> Seq<char> {
    seq!['\x1b', '[']
}

/// The escape selecting palette colour `idx` as background.
pub open spec fn background_sgr(idx: u8) -> Seq<char> {
    csi() + seq!['4', '8', ';', '5', ';'] + decimal(idx as nat) + seq!['m']
}

/// The escape selecting palette colour `idx` as foreground.
pub open spec fn foreground_sgr(idx: u8) -> Seq<char> {
    csi() + seq!['3', '8', ';', '5', ';'] + decimal(idx as nat) + seq!['m']
}

/// The escape for a black (dark) or bright white foreground.
pub open spec fn text_sgr(dark: bool) -> Seq<char> {
    if dark {
        csi() + seq!['3', '0', 'm']
    } else {
        csi() + seq!['9', '7', 'm']
    }
}

/// The escape restoring default colours.
pub open spec fn reset_sgr() -> Seq<char> {
    csi() + seq!['0', 'm']
}

/// `text` on palette background `bg`, in dark or bright text, then reset.
pub open spec fn painted(text: Seq<char>, bg: u8, dark: bool) -> Seq<char> {
    background_sgr(bg) + text_sgr(dark) + text + reset_sgr()
}

/// Appends the escape selecting palette colour `idx` as background.
pub fn push_background(s: &mut String, idx: u8)
    ensures
        final(s)@ == old(s)@ + background_sgr(idx),
{
    push_char(s, '\x1b');
    push_char(s, '[');
    push_char(s, '4');
    push_char(s, '8');
    push_char(s, ';');
    push_char(s, '5');
    push_char(s, ';');
    push_decimal(s, idx as u64);
    push_char(s, 'm');
    assert(final(s)@ =~= old(s)@ + background_sgr(idx));
}

/// Appends the escape selecting palette colour `idx` as foreground.
pub fn push_foreground(s: &mut String, idx: u8)
    ensures
        final(s)@ == old(s)@ + foreground_sgr(idx),
{
    push_char(s, '\x1b');
    push_char(s, '[');
    push_char(s, '3');
    push_char(s, '8');
    push_char(s, ';');
    push_char(s, '5');
    push_char(s, ';');
    push_decimal(s, idx as u64);
    push_char(s, 'm');
    assert(final(s)@ =~= old(s)@ + foreground_sgr(idx));
}

/// Appends the escape for a black (dark) or bright white foreground.
pub fn push_text_color(s: &mut String, dark: bool)
    ensures
        final(s)@ == old(s)@ + text_sgr(dark),
{
    push_char(s, '\x1b');
    push_char(s, '[');
    if dark {
        push_char(s, '3');
        push_char(s, '0');
    } else {
        push_char(s, '9');
        push_char(s, '7');
    }
    push_char(s, 'm');
    assert(final(s)@ =~= old(s)@ + text_sgr(dark));
}

/// Appends the escape restoring default colours.
pub fn push_reset(s: &mut String)
    ensures
        final(s)@ == old(s)@ + reset_sgr(),
{
    push_char(s, '\x1b');
    push_char(s, '[');
    push_char(s, '0');
    push_char(s, 'm');
    assert(final(s)@ =~= old(s)@ + reset_sgr());
}

/// Wraps `text` in 256-colour background escape sequences, with black text on
/// bright backgrounds (`dark`) and white text elsewhere; with no colour chosen
/// the text is left plain.
pub fn colored_text(text: &str, paint: Option<(u8, bool)>) -> (r: String)
    ensures
        r@ == match paint {
            Some(p) => painted(text@, p.0, p.1),
            None => text@,
        },
{
    let mut r = String::new();
    match paint {
        Some(p) => {
            push_background(&mut r, p.0);
            push_text_color(&mut r, p.1);
            push_str(&mut r, text);
            push_reset(&mut r);
        },
        None => {
            push_str(&mut r, text);
        },
    }
    assert(r@ =~= match paint {
        Some(p) => painted(text@, p.0, p.1),
        None => text@,
    });
    r
}

/// `s` with each character lower-cased as `str::to_lowercase` does (full
/// Unicode case mapping).
pub uninterp spec fn unicode_lowercase(s: Seq<char>) -> Seq<char>;

/// Whether every character of `s` is ASCII.
pub open spec fn is_ascii_text(s: Seq<char>) -> bool {
    forall|i: int| 0 <= i < s.len() ==> (#[trigger] s[i] as u32) < 128
}

/// An ASCII capital turned into its small letter; any other character unchanged.
pub open spec fn ascii_lower(c: char) -> char {
    if 'A' <= c && c <= 'Z' {
        ((c as u32) + 32) as char
    } else {
        c
    }
}

/// `s` lower-cased: letter by letter for ASCII text, by the full Unicode
/// mapping otherwise.
pub open spec fn lowercased(s: Seq<char>) -> Seq<char> {
    if is_ascii_text(s) {
        s.map_values(|c: char| ascii_lower(c))
    } else {
        unicode_lowercase(s)
    }
}

/// Calls `str::to_lowercase`. Trusted: as documented (Unicode `Lowercase`
/// mapping), ASCII text has each capital A-Z turned into a-z and every other
/// character kept; the lower-casing of other text is `unicode_lowercase(s)`.
#[verifier::external_body]
fn to_lowercase(s: &str) -> (r: String)
    ensures
        is_ascii_text(s@) ==> r@ == s@.map_values(|c: char| ascii_lower(c)),
        !is_ascii_text(s@) ==> r@ == unicode_lowercase(s@),
{
    s.to_lowercase()
}

/// Terminal families known to handle 256 colours.
pub open spec fn known_terminals() -> Seq<Seq<char>> {
    seq![
        "xterm"@,
        "screen"@,
        "tmux"@,
        "rxvt"@,
        "konsole"@,
        "alacritty"@,
        "kitty"@,
        "foot"@,
        "wezterm"@,
        "vte"@,
    ]
}

/// Whether `COLORTERM` announces at least 256 colours.
pub open spec fn colorterm_rich(ct: Seq<char>) -> bool {
    let l = lowercased(ct);
    l == "truecolor"@ || l == "24bit"@ || l == "256color"@
}

/// Whether `TERM` names a 256-colour terminal.
pub open spec fn term_rich(term: Seq<char>) -> bool {
    contains_text(term, "256color"@) || exists|i: int|
        0 <= i < known_terminals().len() && starts_with(term, #[trigger] known_terminals()[i])
}

/// The capability decision from the environment: `NO_COLOR` set forbids
/// colour; a rich `COLORTERM` or `TERM` allows it; otherwise only the
/// Windows 10+ console (once VT processing is on) is assumed capable.
pub open spec fn supports_256(
    no_color: bool,
    colorterm: Option<Seq<char>>,
    term: Option<Seq<char>>,
    windows: bool,
) -> bool {
    if no_color {
        false
    } else if colorterm matches Some(ct) && colorterm_rich(ct) {
        true
    } else if term matches Some(t) && term_rich(t) {
        true
    } else {
        windows
    }
}

/// Decides whether the terminal has 256 colours, from whether `NO_COLOR` is
/// set, the values of `COLORTERM` and `TERM` (when set), and whether the
/// program runs on Windows.
pub fn check_256_colors(
    no_color: bool,
    colorterm: Option<&str>,
    term: Option<&str>,
    windows: bool,
) -> (r: bool)
    ensures
        r == supports_256(
            no_color,
            match colorterm {
                Some(c) => Some(c@),
                None => None,
            },
            match term {
                Some(t) => Some(t@),
                None => None,
            },
            windows,
        ),
{
    if no_color {
        return false;
    }
    match colorterm {
        Some(ct) => {
            let l = to_lowercase(ct);
            if same_text(l.as_str(), "truecolor") || same_text(l.as_str(), "24bit") || same_text(
                l.as_str(),
                "256color",
            ) {
                return true;
            }
        },
        None => {},
    }
    match term {
        Some(t) => {
            if has_infix(t, "256color") {
                return true;
            }
            let known: [&str; 10] = [
                "xterm",
                "screen",
                "tmux",
                "rxvt",
                "konsole",
                "alacritty",
                "kitty",
                "foot",
                "wezterm",
                "vte",
            ];
            assert(known@.map_values(|k: &str| k@) =~= known_terminals());
            let mut i: usize = 0;
            while i < 10
                invariant
                    i <= 10,
                    !no_color,
                    term == Some(t),
                    known@.map_values(|k: &str| k@) == known_terminals(),
                    forall|j: int| 0 <= j < i ==> !starts_with(t@, #[trigger] known_terminals()[j]),
                decreases 10 - i,
            {
                if has_prefix(t, known[i]) {
                    assert(known_terminals()[i as int] == known[i as int]@);
                    return true;
                }
                i = i + 1;
            }
        },
        None => {},
    }
    windows
}

/// With `NO_COLOR` unset, a `TERM` that contains `256color` or begins with
/// xterm, screen, tmux, rxvt, konsole, alacritty, kitty, foot, wezterm or vte
/// is judged 256-colour capable; with `NO_COLOR` set nothing is.
pub proof fn law_rich_terminals(
    no_color: bool,
    colorterm: Option<Seq<char>>,
    t: Seq<char>,
    windows: bool,
)
    ensures
        !no_color && (contains_text(t, "256color"@) || starts_with(t, "xterm"@) || starts_with(t, "screen"@)
            || starts_with(t, "tmux"@) || starts_with(t, "rxvt"@) || starts_with(t, "konsole"@)
            || starts_with(t, "alacritty"@) || starts_with(t, "kitty"@) || starts_with(t, "foot"@)
            || starts_with(t, "wezterm"@) || starts_with(t, "vte"@)) ==> supports_256(
            no_color,
            colorterm,
            Some(t),
            windows,
        ),
        no_color ==> !supports_256(no_color, colorterm, Some(t), windows),
{
    let k = known_terminals();
    assert(k[0] == "xterm"@);
    assert(k[1] == "screen"@);
    assert(k[2] == "tmux"@);
    assert(k[3] == "rxvt"@);
    assert(k[4] == "konsole"@);
    assert(k[5] == "alacritty"@);
    assert(k[6] == "kitty"@);
    assert(k[7] == "foot"@);
    assert(k[8] == "wezterm"@);
    assert(k[9] == "vte"@);
}

/// Each step up a channel of the colour cube moves the palette index by the
/// channel's weight: 36 for red, 6 for green, 1 for blue; levels past 5 count
/// as 5, and the cube spans 16 (black) to 231 (white).
pub proof fn law_cube_steps(r: u8, g: u8, b: u8)
    ensures
        r < 5 ==> cube_color((r + 1) as u8, g, b) == cube_color(r, g, b) + 36,
        g < 5 ==> cube_color(r, (g + 1) as u8, b) == cube_color(r, g, b) + 6,
        b < 5 ==> cube_color(r, g, (b + 1) as u8) == cube_color(r, g, b) + 1,
        r >= 5 ==> cube_color(r, g, b) == cube_color(5, g, b),
        cube_color(0, 0, 0) == 16 && cube_color(5, 5, 5) == 231,
{
}

/// A `COLORTERM` of `truecolor`, `24bit` or `256color`, in any mix of ASCII
/// case, allows colour when `NO_COLOR` is unset.
pub proof fn law_rich_colorterm(ct: Seq<char>, term: Option<Seq<char>>, windows: bool)
    requires
        is_ascii_text(ct),
        ct.map_values(|c: char| ascii_lower(c)) == "truecolor"@ || ct.map_values(|c: char| ascii_lower(c)) == "24bit"@
            || ct.map_values(|c: char| ascii_lower(c)) == "256color"@,
    ensures
        supports_256(false, Some(ct), term, windows),
{
}

} // verus!
