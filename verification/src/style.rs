//! Terminal styling of report text. A `Styled` value holds, as plain values,
//! what the `colored` crate is asked to apply; `colored` renders it.

use vstd::prelude::*;
use colored::{Color, ColoredString, Styles};
use crate::text::{decimal, seq_join};

verus! {

/// A terminal color.
#[derive(Debug, Clone, Copy, PartialEq, Eq, Structural)]
pub enum Paint {
    Black,
    Red,
    Green,
    Yellow,
    Cyan,
    TrueColor { r: u8, g: u8, b: u8 },
}

/// A text attribute.
#[derive(Debug, Clone, Copy, PartialEq, Eq, Structural)]
pub enum Emphasis {
    Plain,
    Bold,
    Dimmed,
}

/// Text with its foreground color, background color and attribute.
#[derive(Debug, Clone)]
pub struct Styled {
    pub text: String,
    pub fg: Option<Paint>,
    pub bg: Option<Paint>,
    pub emphasis: Emphasis,
}

/// The escape sequence that ends a styled span.
pub open spec fn reset_code() -> Seq<char> {
    seq!['\u{1b}', '[', '0', 'm']
}

/// The escape character.
pub open spec fn esc() -> char {
    '\u{1b}'
}

/// The two-digit code `a` `b`.
pub open spec fn code2(a: char, b: char) -> Seq<char> {
    seq![a, b]
}

/// The foreground codes of the sixteen plain colors.
pub open spec fn plain_fg_codes() -> Seq<Seq<char>> {
    seq![
        code2('3', '0'), code2('3', '1'), code2('3', '2'), code2('3', '3'),
        code2('3', '4'), code2('3', '5'), code2('3', '6'), code2('3', '7'),
        code2('9', '0'), code2('9', '1'), code2('9', '2'), code2('9', '3'),
        code2('9', '4'), code2('9', '5'), code2('9', '6'), code2('9', '7'),
    ]
}

/// The background codes of the sixteen plain colors.
pub open spec fn plain_bg_codes() -> Seq<Seq<char>> {
    seq![
        code2('4', '0'), code2('4', '1'), code2('4', '2'), code2('4', '3'),
        code2('4', '4'), code2('4', '5'), code2('4', '6'), code2('4', '7'),
        seq!['1', '0', '0'], seq!['1', '0', '1'], seq!['1', '0', '2'], seq!['1', '0', '3'],
        seq!['1', '0', '4'], seq!['1', '0', '5'], seq!['1', '0', '6'], seq!['1', '0', '7'],
    ]
}

/// The 24-bit color code that starts with `lead` (`38` or `48`).
pub open spec fn truecolor_code(lead: Seq<char>, r: u8, g: u8, b: u8) -> Seq<char> {
    lead + seq![';', '2', ';'] + decimal(r as nat) + seq![';'] + decimal(g as nat) + seq![';'] + decimal(b as nat)
}

/// `code` is the code of the plain color that stands for the 24-bit color
/// `(r, g, b)` where 24-bit colors are not announced: the plain color nearest
/// to it in `colored`'s table, which for orange `(255, 165, 0)`, the one
/// 24-bit color the report uses, is yellow (`yellow_code`). For other 24-bit
/// colors the code is only known to be one of the sixteen plain codes.
pub open spec fn stand_in_code(r: u8, g: u8, b: u8, plain: Seq<Seq<char>>, yellow_code: Seq<char>, code: Seq<char>) -> bool {
    if r == 255 && g == 165 && b == 0 {
        code == yellow_code
    } else {
        plain.contains(code)
    }
}

/// `code` is a code that selects `p` as the foreground: the color's own
/// code, and for a 24-bit color its 24-bit code or, where 24-bit colors are
/// not announced, the code of the plain color that stands for it.
pub open spec fn fg_code_of(p: Paint, code: Seq<char>) -> bool {
    match p {
        Paint::Black => code == code2('3', '0'),
        Paint::Red => code == code2('3', '1'),
        Paint::Green => code == code2('3', '2'),
        Paint::Yellow => code == code2('3', '3'),
        Paint::Cyan => code == code2('3', '6'),
        Paint::TrueColor { r, g, b } => code == truecolor_code(code2('3', '8'), r, g, b)
            || stand_in_code(r, g, b, plain_fg_codes(), code2('3', '3'), code),
    }
}

/// `code` is a code that selects `p` as the background (as `fg_code_of`).
pub open spec fn bg_code_of(p: Paint, code: Seq<char>) -> bool {
    match p {
        Paint::Black => code == code2('4', '0'),
        Paint::Red => code == code2('4', '1'),
        Paint::Green => code == code2('4', '2'),
        Paint::Yellow => code == code2('4', '3'),
        Paint::Cyan => code == code2('4', '6'),
        Paint::TrueColor { r, g, b } => code == truecolor_code(code2('4', '8'), r, g, b)
            || stand_in_code(r, g, b, plain_bg_codes(), code2('4', '3'), code),
    }
}

/// The code of an attribute, if it has one.
pub open spec fn emphasis_codes(emphasis: Emphasis) -> Seq<Seq<char>> {
    match emphasis {
        Emphasis::Plain => Seq::empty(),
        Emphasis::Bold => seq![seq!['1']],
        Emphasis::Dimmed => seq![seq!['2']],
    }
}

/// `codes` is the attribute's code, then the background's, then the
/// foreground's, each one present only when the style has it, joined by `;`,
/// with `bg_code` and `fg_code` the codes chosen for the two colors.
pub open spec fn style_codes(
    emphasis: Emphasis,
    bg: Option<Paint>,
    bg_code: Seq<char>,
    fg: Option<Paint>,
    fg_code: Seq<char>,
) -> Seq<char> {
    seq_join(
        emphasis_codes(emphasis) + (if bg is Some { seq![bg_code] } else { Seq::empty() }) + (if fg is Some {
            seq![fg_code]
        } else {
            Seq::empty()
        }),
        seq![';'],
    )
}

/// `out` is `text` in the escape sequence of the style: `ESC [`, the
/// style's codes, `m`, the text, and the reset sequence.
pub open spec fn wrapped(out: Seq<char>, text: Seq<char>, fg: Option<Paint>, bg: Option<Paint>, emphasis: Emphasis) -> bool {
    exists|fg_code: Seq<char>, bg_code: Seq<char>|
        {
            &&& (fg matches Some(p) ==> fg_code_of(p, fg_code))
            &&& (bg matches Some(p) ==> bg_code_of(p, bg_code))
            &&& out == seq![esc(), '['] + style_codes(emphasis, bg, bg_code, fg, fg_code) + seq!['m'] + text
                + reset_code()
        }
}

/// What holds of every rendering of `text` in the given style, whether or
/// not the terminal gets colors: unstyled text comes out as it is, and text
/// without escape characters comes out as it is or in the style's escape
/// sequence.
pub open spec fn painted(
    out: Seq<char>,
    text: Seq<char>,
    fg: Option<Paint>,
    bg: Option<Paint>,
    emphasis: Emphasis,
) -> bool {
    &&& (fg is None && bg is None && emphasis == Emphasis::Plain) ==> out == text
    &&& !text.contains(esc()) ==> (out == text || wrapped(out, text, fg, bg, emphasis))
}

/// Renders `s` with `colored`: `ColoredString`'s `Display`, on a
/// `ColoredString` with `s`'s text, colors and attribute. The contract claims
/// what colored 3.1's source shows: with colors off (`colored::control`
/// decides from the environment and the terminal) or no styling, the text
/// itself; otherwise `ESC [`, the attribute, background and foreground codes
/// joined by `;`, `m`, the text with its own reset sequences re-opened, and
/// the reset sequence. A 24-bit color gets its 24-bit code when `COLORTERM`
/// announces 24-bit colors, and otherwise the code of the plain color nearest
/// to it in `colored`'s fixed table (first minimum of the squared distance):
/// yellow for orange `(255, 165, 0)`, worked out from that table. Left
/// unsaid: whether colors are on, and whether 24-bit codes are used (both
/// depend on the environment), and the nearest plain color of 24-bit colors
/// other than orange, which the report does not use.
#[verifier::external_body]
pub(crate) fn render_with_colored(s: &Styled) -> (r: String)
    ensures
        painted(r@, s.text@, s.fg, s.bg, s.emphasis),
{
    let color = |p: Option<Paint>| p.map(|p| match p {
        Paint::Black => Color::Black, Paint::Red => Color::Red, Paint::Green => Color::Green,
        Paint::Yellow => Color::Yellow, Paint::Cyan => Color::Cyan,
        Paint::TrueColor { r, g, b } => Color::TrueColor { r, g, b },
    });
    let style = match s.emphasis { Emphasis::Plain => Styles::Clear, Emphasis::Bold => Styles::Bold, Emphasis::Dimmed => Styles::Dimmed };
    let mut cs = ColoredString::from(s.text.as_str());
    cs.fgcolor = color(s.fg);
    cs.bgcolor = color(s.bg);
    cs.style = style.into();
    cs.to_string()
}

/// `s` without its escape sequences, read from the state `in_escape`: an
/// escape sequence runs from `ESC` up to and including the next `m`.
pub open spec fn strip_from(s: Seq<char>, in_escape: bool) -> Seq<char>
    decreases s.len(),
{
    if s.len() == 0 {
        s
    } else if in_escape {
        strip_from(s.drop_first(), s[0] != 'm')
    } else if s[0] == esc() {
        strip_from(s.drop_first(), true)
    } else {
        seq![s[0]] + strip_from(s.drop_first(), false)
    }
}

/// Whether reading `s` from the state `in_escape` ends inside an escape sequence.
pub open spec fn ends_in_escape(s: Seq<char>, in_escape: bool) -> bool
    decreases s.len(),
{
    if s.len() == 0 {
        in_escape
    } else if in_escape {
        ends_in_escape(s.drop_first(), s[0] != 'm')
    } else {
        ends_in_escape(s.drop_first(), s[0] == esc())
    }
}

/// `s` without its escape sequences: the text a terminal shows.
pub open spec fn strip_ansi(s: Seq<char>) -> Seq<char> {
    strip_from(s, false)
}

/// Stripping works piece by piece.
pub proof fn lemma_strip_concat(x: Seq<char>, y: Seq<char>, st: bool)
    ensures
        strip_from(x + y, st) == strip_from(x, st) + strip_from(y, ends_in_escape(x, st)),
    decreases x.len(),
{
    if x.len() == 0 {
        assert(x + y =~= y);
        assert(strip_from(x, st) =~= Seq::<char>::empty());
    } else {
        assert((x + y).drop_first() =~= x.drop_first() + y);
        let next = if st { x[0] != 'm' } else { x[0] == esc() };
        lemma_strip_concat(x.drop_first(), y, next);
        if !st && x[0] != esc() {
            assert(seq![x[0]] + strip_from(x.drop_first(), false) + strip_from(y, ends_in_escape(x, st))
                =~= seq![x[0]] + (strip_from(x.drop_first(), false) + strip_from(y, ends_in_escape(x, st))));
        }
    }
}

/// Text without escape characters is shown as it is.
pub proof fn lemma_strip_plain(t: Seq<char>)
    requires
        !t.contains(esc()),
    ensures
        strip_from(t, false) == t,
        !ends_in_escape(t, false),
    decreases t.len(),
{
    if t.len() > 0 {
        assert(!t.drop_first().contains(esc())) by {
            if t.drop_first().contains(esc()) {
                let i = choose|i: int| 0 <= i < t.drop_first().len() && t.drop_first()[i] == esc();
                assert(t[i + 1] == esc());
            }
        }
        assert(t[0] != esc()) by {
            if t[0] == esc() {
                assert(t.contains(esc()));
            }
        }
        lemma_strip_plain(t.drop_first());
        assert(seq![t[0]] + t.drop_first() =~= t);
    }
}

/// An escape sequence `ESC [ codes m` is not shown.
pub proof fn lemma_strip_sequence(codes: Seq<char>)
    requires
        !codes.contains('m'),
    ensures
        strip_from(seq![esc(), '['] + codes + seq!['m'], false) == Seq::<char>::empty(),
        !ends_in_escape(seq![esc(), '['] + codes + seq!['m'], false),
    decreases codes.len(),
{
    let full = seq![esc(), '['] + codes + seq!['m'];
    assert(full[0] == esc());
    assert(full.drop_first() =~= seq!['['] + codes + seq!['m']);
    assert(full.drop_first()[0] == '[');
    assert(full.drop_first().drop_first() =~= codes + seq!['m']);
    lemma_strip_inside(codes);
    reveal_with_fuel(strip_from, 3);
    reveal_with_fuel(ends_in_escape, 3);
}

proof fn lemma_strip_inside(codes: Seq<char>)
    requires
        !codes.contains('m'),
    ensures
        strip_from(codes + seq!['m'], true) == Seq::<char>::empty(),
        !ends_in_escape(codes + seq!['m'], true),
    decreases codes.len(),
{
    if codes.len() == 0 {
        assert(codes + seq!['m'] =~= seq!['m']);
        assert(seq!['m'].drop_first() =~= Seq::<char>::empty());
        reveal_with_fuel(strip_from, 2);
        reveal_with_fuel(ends_in_escape, 2);
    } else {
        assert(codes[0] != 'm') by {
            if codes[0] == 'm' {
                assert(codes.contains('m'));
            }
        }
        assert(!codes.drop_first().contains('m')) by {
            if codes.drop_first().contains('m') {
                let i = choose|i: int| 0 <= i < codes.drop_first().len() && codes.drop_first()[i] == 'm';
                assert(codes[i + 1] == 'm');
            }
        }
        assert((codes + seq!['m']).drop_first() =~= codes.drop_first() + seq!['m']);
        assert((codes + seq!['m'])[0] == codes[0]);
        lemma_strip_inside(codes.drop_first());
    }
}

/// The characters that codes are made of: digits and `;`.
pub open spec fn is_code_char(c: char) -> bool {
    ('0' <= c && c <= '9') || c == ';'
}

/// Every character of `s` is a code character.
pub open spec fn all_code_chars(s: Seq<char>) -> bool {
    forall|i: int| 0 <= i < s.len() ==> is_code_char(#[trigger] s[i])
}

proof fn lemma_code_chars_no_m(s: Seq<char>)
    requires
        all_code_chars(s),
    ensures
        !s.contains('m'),
{
    if s.contains('m') {
        let i = choose|i: int| 0 <= i < s.len() && s[i] == 'm';
        assert(is_code_char(s[i]));
    }
}

proof fn lemma_decimal_code_chars(n: nat)
    ensures
        all_code_chars(decimal(n)),
    decreases n,
{
    if n >= 10 {
        lemma_decimal_code_chars(n / 10);
    }
}

proof fn lemma_join_code_chars(list: Seq<Seq<char>>)
    requires
        forall|i: int| 0 <= i < list.len() ==> all_code_chars(#[trigger] list[i]),
    ensures
        all_code_chars(seq_join(list, seq![';'])),
    decreases list.len(),
{
    if list.len() > 1 {
        lemma_join_code_chars(list.drop_last());
        let a = seq_join(list.drop_last(), seq![';']);
        let l = list.last();
        assert(all_code_chars(l));
        assert forall|i: int| 0 <= i < (a + seq![';'] + l).len() implies is_code_char(#[trigger] (a + seq![';'] + l)[i]) by {
            if i < a.len() {
            } else if i == a.len() {
            } else {
                assert((a + seq![';'] + l)[i] == l[i - a.len() - 1]);
            }
        }
    }
}

proof fn lemma_truecolor_code_chars(lead: Seq<char>, r: u8, g: u8, b: u8)
    requires
        all_code_chars(lead),
    ensures
        all_code_chars(truecolor_code(lead, r, g, b)),
{
    lemma_decimal_code_chars(r as nat);
    lemma_decimal_code_chars(g as nat);
    lemma_decimal_code_chars(b as nat);
    let t = truecolor_code(lead, r, g, b);
    let dr = decimal(r as nat);
    let dg = decimal(g as nat);
    let db = decimal(b as nat);
    assert forall|i: int| 0 <= i < t.len() implies is_code_char(#[trigger] t[i]) by {
        let l0 = lead.len();
        let l1 = l0 + 3;
        let l2 = l1 + dr.len();
        let l3 = l2 + 1;
        let l4 = l3 + dg.len();
        let l5 = l4 + 1;
        if i < l0 {
            assert(t[i] == lead[i]);
        } else if i < l1 {
        } else if i < l2 {
            assert(t[i] == dr[i - l1]);
        } else if i < l3 {
        } else if i < l4 {
            assert(t[i] == dg[i - l3]);
        } else if i < l5 {
        } else {
            assert(t[i] == db[i - l5]);
        }
    }
}

proof fn lemma_style_codes_chars(
    emphasis: Emphasis,
    bg: Option<Paint>,
    bg_code: Seq<char>,
    fg: Option<Paint>,
    fg_code: Seq<char>,
)
    requires
        fg matches Some(p) ==> fg_code_of(p, fg_code),
        bg matches Some(p) ==> bg_code_of(p, bg_code),
    ensures
        !style_codes(emphasis, bg, bg_code, fg, fg_code).contains('m'),
{
    let parts = emphasis_codes(emphasis) + (if bg is Some { seq![bg_code] } else { Seq::empty() }) + (if fg is Some {
        seq![fg_code]
    } else {
        Seq::empty()
    });
    assert forall|k: int| 0 <= k < plain_fg_codes().len() implies all_code_chars(#[trigger] plain_fg_codes()[k]) by {}
    assert forall|k: int| 0 <= k < plain_bg_codes().len() implies all_code_chars(#[trigger] plain_bg_codes()[k]) by {}
    if let Some(p) = fg {
        if let Paint::TrueColor { r, g, b } = p {
            lemma_truecolor_code_chars(code2('3', '8'), r, g, b);
        }
        assert(all_code_chars(fg_code));
    }
    if let Some(p) = bg {
        if let Paint::TrueColor { r, g, b } = p {
            lemma_truecolor_code_chars(code2('4', '8'), r, g, b);
        }
        assert(all_code_chars(bg_code));
    }
    assert forall|i: int| 0 <= i < parts.len() implies all_code_chars(#[trigger] parts[i]) by {}
    lemma_join_code_chars(parts);
    lemma_code_chars_no_m(style_codes(emphasis, bg, bg_code, fg, fg_code));
}

/// Stripped of its escape sequences, every rendering of text without escape
/// characters is the text itself.
pub proof fn lemma_strip_painted(out: Seq<char>, text: Seq<char>, fg: Option<Paint>, bg: Option<Paint>, emphasis: Emphasis)
    requires
        painted(out, text, fg, bg, emphasis),
        !text.contains(esc()),
    ensures
        strip_ansi(out) == text,
        !ends_in_escape(out, false),
{
    lemma_strip_plain(text);
    if out != text {
        let (fc, bc) = choose|fc: Seq<char>, bc: Seq<char>|
            {
                &&& (fg matches Some(p) ==> fg_code_of(p, fc))
                &&& (bg matches Some(p) ==> bg_code_of(p, bc))
                &&& out == seq![esc(), '['] + style_codes(emphasis, bg, bc, fg, fc) + seq!['m'] + text + reset_code()
            };
        let codes = style_codes(emphasis, bg, bc, fg, fc);
        lemma_style_codes_chars(emphasis, bg, bc, fg, fc);
        let open = seq![esc(), '['] + codes + seq!['m'];
        lemma_strip_sequence(codes);
        assert(!seq!['0'].contains('m')) by {
            if seq!['0'].contains('m') {
                assert(seq!['0'][0] == 'm');
            }
        }
        lemma_strip_sequence(seq!['0']);
        assert(reset_code() =~= seq![esc(), '['] + seq!['0'] + seq!['m']);
        assert(out =~= open + (text + reset_code()));
        lemma_strip_concat(open, text + reset_code(), false);
        lemma_strip_concat(text, reset_code(), false);
        assert(text + Seq::<char>::empty() =~= text);
        lemma_ends_concat(open, text + reset_code(), false);
        lemma_ends_concat(text, reset_code(), false);
    }
}

pub proof fn lemma_ends_concat(x: Seq<char>, y: Seq<char>, st: bool)
    ensures
        ends_in_escape(x + y, st) == ends_in_escape(y, ends_in_escape(x, st)),
    decreases x.len(),
{
    if x.len() == 0 {
        assert(x + y =~= y);
    } else {
        assert((x + y).drop_first() =~= x.drop_first() + y);
        let next = if st { x[0] != 'm' } else { x[0] == esc() };
        lemma_ends_concat(x.drop_first(), y, next);
    }
}

} // verus!
