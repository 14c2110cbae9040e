//! The strings that apply a theme: colours in hexadecimal, the
//! compositor's active-border gradient, and the status bar's stylesheet.

use vstd::prelude::*;
use crate::color::Rgb;
use crate::text::{chars_of, string_of};

verus! {

/// The lowercase hexadecimal digit for `d` in `0..16`.
pub open spec fn hex_digit(d: int) -> char {
    if d < 10 {
        (48 + d) as char
    } else {
        (87 + d) as char
    }
}

/// The value of a lowercase hexadecimal digit character (`0`-`9`, `a`-`f`),
/// or `-1` for any other character.
pub open spec fn hex_value(c: char) -> int {
    let n: int = c as int;
    if ('0' as int) <= n <= ('9' as int) {
        n - ('0' as int)
    } else if ('a' as int) <= n <= ('f' as int) {
        n - ('a' as int) + 10
    } else {
        -1
    }
}

/// The number that two lowercase hexadecimal digits spell, high digit first.
pub open spec fn hex_pair_value(hi: char, lo: char) -> int {
    hex_value(hi) * 16 + hex_value(lo)
}

/// `s[at..at + 6]` reads back, two hexadecimal digits each, as the red,
/// green and blue components of `c`.
pub open spec fn spells_color(s: Seq<char>, at: int, c: Rgb) -> bool {
    &&& 0 <= at && at + 6 <= s.len()
    &&& forall|i: int| at <= i < at + 6 ==> 0 <= #[trigger] hex_value(s[i]) < 16
    &&& hex_pair_value(s[at], s[at + 1]) == c.r
    &&& hex_pair_value(s[at + 2], s[at + 3]) == c.g
    &&& hex_pair_value(s[at + 4], s[at + 5]) == c.b
}

/// A byte as two lowercase hexadecimal digits (`{:02x}`).
pub open spec fn hex_byte(v: u8) -> Seq<char> {
    seq![hex_digit(v as int / 16), hex_digit(v as int % 16)]
}

/// The six hexadecimal digits of a colour, red first.
pub open spec fn hex_digits(c: Rgb) -> Seq<char> {
    hex_byte(c.r) + hex_byte(c.g) + hex_byte(c.b)
}

/// A colour in CSS notation, `#rrggbb`.
pub open spec fn hex_color(c: Rgb) -> Seq<char> {
    "#"@ + hex_digits(c)
}

/// A colour in the compositor's notation with alpha `ee`,
/// `rgba(rrggbbee)`.
pub open spec fn rgba_color(c: Rgb) -> Seq<char> {
    "rgba("@ + hex_digits(c) + "ee)"@
}

/// The compositor's active-border value: a gradient from the primary to the
/// accent colour at 45 degrees.
pub open spec fn border_value(primary: Rgb, accent: Rgb) -> Seq<char> {
    rgba_color(primary) + " "@ + rgba_color(accent) + " 45deg"@
}

/// The status bar stylesheet that defines the two theme colours.
pub open spec fn stylesheet(primary: Rgb, accent: Rgb) -> Seq<char> {
    "/* Generated dynamically from Apple Music Cover Art */\n@define-color apple-music-primary "@
        + hex_color(primary) + ";\n@define-color apple-music-accent "@ + hex_color(accent)
        + ";\n"@
}

/// `s` with every occurrence of `c` replaced by `r`.
pub open spec fn replace_char(s: Seq<char>, c: char, r: Seq<char>) -> Seq<char>
    decreases s.len(),
{
    if s.len() == 0 {
        s
    } else {
        replace_char(s.drop_last(), c, r) + if s.last() == c {
            r
        } else {
            seq![s.last()]
        }
    }
}

/// The strings that apply a theme.
pub struct ThemeStrings {
    /// The primary colour, `#rrggbb`.
    pub primary_hex: String,
    /// The accent colour, `#rrggbb`.
    pub accent_hex: String,
    /// The value for the compositor's `general:col.active_border`.
    pub active_border: String,
    /// The status bar stylesheet.
    pub stylesheet: String,
}

fn hex_digit_char(d: u8) -> (c: char)
    requires
        d < 16,
    ensures
        c == hex_digit(d as int),
{
    if d < 10 {
        (48 + d) as char
    } else {
        (87 + d) as char
    }
}

fn push_hex_byte(v: &mut Vec<char>, b: u8)
    ensures
        final(v)@ == old(v)@ + hex_byte(b),
{
    v.push(hex_digit_char(b / 16));
    v.push(hex_digit_char(b % 16));
}

fn push_hex_digits(v: &mut Vec<char>, c: Rgb)
    ensures
        final(v)@ == old(v)@ + hex_digits(c),
{
    push_hex_byte(v, c.r);
    push_hex_byte(v, c.g);
    push_hex_byte(v, c.b);
}

fn push_str(v: &mut Vec<char>, s: &str)
    ensures
        final(v)@ == old(v)@ + s@,
{
    let mut t = chars_of(s);
    v.append(&mut t);
}

/// Formats a colour as `#rrggbb`.
pub fn hex_string(c: Rgb) -> (s: String)
    ensures
        s@ == hex_color(c),
{
    let mut v: Vec<char> = Vec::new();
    push_str(&mut v, "#");
    push_hex_digits(&mut v, c);
    string_of(&v)
}

/// Formats a colour as `rgba(rrggbbee)`.
pub fn rgba_string(c: Rgb) -> (s: String)
    ensures
        s@ == rgba_color(c),
{
    let mut v: Vec<char> = Vec::new();
    push_str(&mut v, "rgba(");
    push_hex_digits(&mut v, c);
    push_str(&mut v, "ee)");
    string_of(&v)
}

/// Renders the strings that apply the primary and accent colours.
pub fn render_theme(primary: Rgb, accent: Rgb) -> (t: ThemeStrings)
    ensures
        t.primary_hex@ == hex_color(primary),
        t.accent_hex@ == hex_color(accent),
        t.active_border@ == border_value(primary, accent),
        t.stylesheet@ == stylesheet(primary, accent),
{
    let mut border: Vec<char> = Vec::new();
    push_str(&mut border, "rgba(");
    push_hex_digits(&mut border, primary);
    push_str(&mut border, "ee) rgba(");
    push_hex_digits(&mut border, accent);
    push_str(&mut border, "ee) 45deg");
    proof {
        reveal_strlit("ee) rgba(");
        reveal_strlit("ee)");
        reveal_strlit("rgba(");
        reveal_strlit(" ");
        reveal_strlit("ee) 45deg");
        reveal_strlit(" 45deg");
        assert("ee) rgba("@ == "ee)"@ + " "@ + "rgba("@);
        assert("ee) 45deg"@ == "ee)"@ + " 45deg"@);
    }
    let mut css: Vec<char> = Vec::new();
    push_str(&mut css, "/* Generated dynamically from Apple Music Cover Art */\n@define-color apple-music-primary #");
    push_hex_digits(&mut css, primary);
    push_str(&mut css, ";\n@define-color apple-music-accent #");
    push_hex_digits(&mut css, accent);
    push_str(&mut css, ";\n");
    proof {
        reveal_strlit("/* Generated dynamically from Apple Music Cover Art */\n@define-color apple-music-primary #");
        reveal_strlit("/* Generated dynamically from Apple Music Cover Art */\n@define-color apple-music-primary ");
        reveal_strlit("#");
        reveal_strlit(";\n@define-color apple-music-accent #");
        reveal_strlit(";\n@define-color apple-music-accent ");
        assert("/* Generated dynamically from Apple Music Cover Art */\n@define-color apple-music-primary #"@
            == "/* Generated dynamically from Apple Music Cover Art */\n@define-color apple-music-primary "@ + "#"@);
        assert(";\n@define-color apple-music-accent #"@ == ";\n@define-color apple-music-accent "@ + "#"@);
    }
    ThemeStrings {
        primary_hex: hex_string(primary),
        accent_hex: hex_string(accent),
        active_border: string_of(&border),
        stylesheet: string_of(&css),
    }
}

/// Replaces every `~` in a path by the home directory
/// (`str::replace('~', home)`).
pub fn expand_home(path: &str, home: &str) -> (expanded: String)
    ensures
        expanded@ == replace_char(path@, '~', home@),
{
    let p = chars_of(path);
    let h = chars_of(home);
    let mut v: Vec<char> = Vec::new();
    let mut i: usize = 0;
    assert(p@.take(0) == Seq::<char>::empty());
    while i < p.len()
        invariant
            0 <= i <= p@.len(),
            h@ == home@,
            v@ == replace_char(p@.take(i as int), '~', home@),
        decreases p@.len() - i,
    {
        proof {
            let u = p@.take(i + 1);
            assert(u.drop_last() == p@.take(i as int));
            assert(u.last() == p@[i as int]);
        }
        if p[i] == '~' {
            let mut hh = h.clone();
            v.append(&mut hh);
        } else {
            v.push(p[i]);
        }
        i = i + 1;
    }
    assert(p@.take(p@.len() as int) == p@);
    string_of(&v)
}

proof fn lemma_hex_digit_injective(a: int, b: int)
    requires
        0 <= a < 16,
        0 <= b < 16,
        hex_digit(a) == hex_digit(b),
    ensures
        a == b,
{
    assert(hex_digit(a) as int == if a < 10 { 48 + a } else { 87 + a });
    assert(hex_digit(b) as int == if b < 10 { 48 + b } else { 87 + b });
}

proof fn lemma_hex_byte_injective(a: u8, b: u8)
    requires
        hex_byte(a) == hex_byte(b),
    ensures
        a == b,
{
    assert(hex_byte(a)[0] == hex_byte(b)[0]);
    assert(hex_byte(a)[1] == hex_byte(b)[1]);
    lemma_hex_digit_injective(a as int / 16, b as int / 16);
    lemma_hex_digit_injective(a as int % 16, b as int % 16);
}

/// A colour's `#rrggbb` form determines the colour: distinct colours are
/// written differently.
pub proof fn lemma_hex_color_injective(a: Rgb, b: Rgb)
    requires
        hex_color(a) == hex_color(b),
    ensures
        a == b,
{
    reveal_strlit("#");
    let x = hex_color(a);
    let y = hex_color(b);
    assert(x.len() == 7);
    assert(x.subrange(1, 3) == hex_byte(a.r));
    assert(y.subrange(1, 3) == hex_byte(b.r));
    assert(x.subrange(3, 5) == hex_byte(a.g));
    assert(y.subrange(3, 5) == hex_byte(b.g));
    assert(x.subrange(5, 7) == hex_byte(a.b));
    assert(y.subrange(5, 7) == hex_byte(b.b));
    lemma_hex_byte_injective(a.r, b.r);
    lemma_hex_byte_injective(a.g, b.g);
    lemma_hex_byte_injective(a.b, b.b);
}

proof fn lemma_hex_digit_value(d: int)
    requires
        0 <= d < 16,
    ensures
        hex_value(hex_digit(d)) == d,
{
    assert(hex_digit(d) as int == if d < 10 { 48 + d } else { 87 + d });
}

proof fn lemma_hex_byte_value(v: u8)
    ensures
        0 <= hex_value(hex_byte(v)[0]) < 16,
        0 <= hex_value(hex_byte(v)[1]) < 16,
        hex_pair_value(hex_byte(v)[0], hex_byte(v)[1]) == v,
{
    lemma_hex_digit_value(v as int / 16);
    lemma_hex_digit_value(v as int % 16);
}

proof fn lemma_hex_digits_spell(s: Seq<char>, at: int, c: Rgb)
    requires
        0 <= at,
        at + 6 <= s.len(),
        s.subrange(at, at + 6) == hex_digits(c),
    ensures
        spells_color(s, at, c),
{
    let d = hex_digits(c);
    lemma_hex_byte_value(c.r);
    lemma_hex_byte_value(c.g);
    lemma_hex_byte_value(c.b);
    assert forall|i: int| at <= i < at + 6 implies s[i] == d[i - at] by {
        assert(s.subrange(at, at + 6)[i - at] == s[i]);
    }
    assert(d[0] == hex_byte(c.r)[0] && d[1] == hex_byte(c.r)[1]);
    assert(d[2] == hex_byte(c.g)[0] && d[3] == hex_byte(c.g)[1]);
    assert(d[4] == hex_byte(c.b)[0] && d[5] == hex_byte(c.b)[1]);
    assert forall|i: int| at <= i < at + 6 implies 0 <= #[trigger] hex_value(s[i]) < 16 by {
        assert(s[i] == d[i - at]);
    }
    assert(s[at] == d[0] && s[at + 1] == d[1] && s[at + 2] == d[2]);
    assert(s[at + 3] == d[3] && s[at + 4] == d[4] && s[at + 5] == d[5]);
}

/// `#rrggbb` is `#` and then the red, green and blue components in base 16,
/// two lowercase digits each: reading the six digits back gives the colour.
pub proof fn lemma_hex_color_reads_back(c: Rgb)
    ensures
        hex_color(c).len() == 7,
        hex_color(c)[0] == '#',
        spells_color(hex_color(c), 1, c),
{
    reveal_strlit("#");
    let s = hex_color(c);
    assert(s.subrange(1, 7) == hex_digits(c));
    lemma_hex_digits_spell(s, 1, c);
}

/// `rgba(rrggbbee)` is `rgba(`, the red, green and blue components in base
/// 16, two lowercase digits each, then the alpha `ee` and `)`.
pub proof fn lemma_rgba_color_reads_back(c: Rgb)
    ensures
        rgba_color(c).len() == 14,
        rgba_color(c).take(5) == "rgba("@,
        spells_color(rgba_color(c), 5, c),
        rgba_color(c).skip(11) == "ee)"@,
{
    reveal_strlit("rgba(");
    reveal_strlit("ee)");
    let s = rgba_color(c);
    assert(s.take(5) == "rgba("@);
    assert(s.subrange(5, 11) == hex_digits(c));
    assert(s.skip(11) == "ee)"@);
    lemma_hex_digits_spell(s, 5, c);
}

} // verus!
