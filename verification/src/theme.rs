use vstd::prelude::*;

use crate::paths::{join, join_path};
use crate::text::{
    chars_equal, chars_of, find_char, find_from, lemma_find_char_bound, lines_of, split_lines, string_from_chars,
    sub_chars, trim, trimmed,
};

verus! {

/// An sRGB color, one byte per channel.
#[derive(Clone, Copy, Debug, PartialEq, Eq, Structural)]
pub struct Rgb {
    pub r: u8,
    pub g: u8,
    pub b: u8,
}

// ---------------------------------------------------------------------------
// Hex colors
// ---------------------------------------------------------------------------

/// `s` without its leading '#' characters (`trim_start_matches('#')`).
pub open spec fn strip_hashes(s: Seq<char>) -> Seq<char>
    decreases s.len(),
{
    if s.len() > 0 && s[0] == '#' {
        strip_hashes(s.drop_first())
    } else {
        s
    }
}

/// The value of a hexadecimal digit.
pub open spec fn hex_digit(c: char) -> Option<nat> {
    if '0' <= c <= '9' {
        Some((c as u32 - 48) as nat)
    } else if 'a' <= c <= 'f' {
        Some((c as u32 - 87) as nat)
    } else if 'A' <= c <= 'F' {
        Some((c as u32 - 55) as nat)
    } else {
        None
    }
}

/// The value of a two-character hexadecimal field as `u32::from_str_radix`
/// reads it: two digits, or a plus sign and one digit.
pub open spec fn hex_pair(a: char, b: char) -> Option<nat> {
    if a == '+' {
        hex_digit(b)
    } else {
        match (hex_digit(a), hex_digit(b)) {
            (Some(x), Some(y)) => Some(16 * x + y),
            _ => None,
        }
    }
}

/// The color written "#rrggbb" (any number of leading '#'), if it is one.
pub open spec fn parse_hex_spec(s: Seq<char>) -> Option<Rgb> {
    let h = strip_hashes(s);
    if h.len() != 6 {
        None
    } else {
        match (hex_pair(h[0], h[1]), hex_pair(h[2], h[3]), hex_pair(h[4], h[5])) {
            (Some(r), Some(g), Some(b)) => Some(Rgb { r: r as u8, g: g as u8, b: b as u8 }),
            _ => None,
        }
    }
}

fn hex_digit_exec(c: char) -> (r: Option<u32>)
    ensures
        match r {
            Some(v) => hex_digit(c) == Some(v as nat) && v < 16,
            None => hex_digit(c) is None,
        },
{
    if '0' <= c && c <= '9' {
        Some(c as u32 - 48)
    } else if 'a' <= c && c <= 'f' {
        Some(c as u32 - 87)
    } else if 'A' <= c && c <= 'F' {
        Some(c as u32 - 55)
    } else {
        None
    }
}

fn hex_pair_exec(a: char, b: char) -> (r: Option<u8>)
    ensures
        match r {
            Some(v) => hex_pair(a, b) == Some(v as nat),
            None => hex_pair(a, b) is None,
        },
{
    if a == '+' {
        match hex_digit_exec(b) {
            Some(v) => Some(v as u8),
            None => None,
        }
    } else {
        match (hex_digit_exec(a), hex_digit_exec(b)) {
            (Some(x), Some(y)) => Some((16 * x + y) as u8),
            _ => None,
        }
    }
}

/// Reads a color written as six hexadecimal digits after any number of '#'.
pub fn parse_hex(hex: &str) -> (r: Option<Rgb>)
    ensures
        r == parse_hex_spec(hex@),
{
    let v = chars_of(hex);
    let mut start: usize = 0;
    assert(v@.skip(0) =~= v@);
    while start < v.len() && v[start] == '#'
        invariant
            start <= v.len(),
            strip_hashes(v@) == strip_hashes(v@.skip(start as int)),
        decreases v.len() - start,
    {
        assert(v@.skip(start as int).drop_first() =~= v@.skip(start + 1));
        start = start + 1;
    }
    assert(strip_hashes(v@.skip(start as int)) == v@.skip(start as int));
    if v.len() - start != 6 {
        return None;
    }
    let ghost h = v@.skip(start as int);
    assert(h[0] == v@[start as int] && h[1] == v@[start + 1] && h[2] == v@[start + 2]);
    assert(h[3] == v@[start + 3] && h[4] == v@[start + 4] && h[5] == v@[start + 5]);
    match (
        hex_pair_exec(v[start], v[start + 1]),
        hex_pair_exec(v[start + 2], v[start + 3]),
        hex_pair_exec(v[start + 4], v[start + 5]),
    ) {
        (Some(r), Some(g), Some(b)) => Some(Rgb { r, g, b }),
        _ => None,
    }
}

// ---------------------------------------------------------------------------
// Color files
// ---------------------------------------------------------------------------

/// `s` without its leading and trailing '"' characters.
pub open spec fn strip_quotes(s: Seq<char>) -> Seq<char>
    decreases s.len(),
{
    if s.len() > 0 && s[0] == '"' {
        strip_quotes(s.drop_first())
    } else if s.len() > 0 && s.last() == '"' {
        strip_quotes(s.drop_last())
    } else {
        s
    }
}

/// The setting on one line "key = value": the trimmed key and the color the
/// trimmed, unquoted value names, if the line has an '=' and the value is a
/// color.
pub open spec fn color_setting(line: Seq<char>) -> Option<(Seq<char>, Rgb)> {
    let i = find_char(line, '=');
    if i >= line.len() {
        None
    } else {
        match parse_hex_spec(strip_quotes(trimmed(line.skip(i as int + 1)))) {
            Some(rgb) => Some((trimmed(line.take(i as int)), rgb)),
            None => None,
        }
    }
}

/// The color settings of the lines, in order.
pub open spec fn color_settings(lines: Seq<Seq<char>>) -> Seq<(Seq<char>, Rgb)>
    decreases lines.len(),
{
    if lines.len() == 0 {
        Seq::empty()
    } else {
        let rest = color_settings(lines.drop_last());
        match color_setting(lines.last()) {
            Some(s) => rest.push(s),
            None => rest,
        }
    }
}

/// A named color read from a theme file.
pub struct ColorSetting {
    pub key: String,
    pub color: Rgb,
}

fn strip_quotes_exec(v: &Vec<char>) -> (r: Vec<char>)
    ensures
        r@ == strip_quotes(v@),
{
    let mut lo: usize = 0;
    let mut hi: usize = v.len();
    assert(v@.subrange(0, v.len() as int) =~= v@);
    while lo < hi && (v[lo] == '"' || v[hi - 1] == '"')
        invariant
            lo <= hi <= v.len(),
            strip_quotes(v@) == strip_quotes(v@.subrange(lo as int, hi as int)),
        decreases hi - lo,
    {
        let ghost s = v@.subrange(lo as int, hi as int);
        if v[lo] == '"' {
            assert(s.drop_first() =~= v@.subrange(lo + 1, hi as int));
            lo = lo + 1;
        } else {
            assert(s.drop_last() =~= v@.subrange(lo as int, hi - 1));
            hi = hi - 1;
        }
    }
    let ghost s = v@.subrange(lo as int, hi as int);
    assert(strip_quotes(s) == s);
    sub_chars(v, lo, hi)
}

/// The named colors of a theme file with these contents, one "key = value"
/// per line, in order (later lines override earlier ones when collected).
pub fn parse_colors(content: &str) -> (r: Vec<ColorSetting>)
    ensures
        r@.map_values(|s: ColorSetting| (s.key@, s.color)) == color_settings(lines_of(content@)),
{
    let v = chars_of(content);
    let lines = split_lines(&v);
    let ghost lv = lines@.map_values(|l: Vec<char>| l@);
    let mut out: Vec<ColorSetting> = Vec::new();
    let mut k: usize = 0;
    assert(lv.take(0) =~= Seq::<Seq<char>>::empty());
    while k < lines.len()
        invariant
            k <= lines.len(),
            lv == lines@.map_values(|l: Vec<char>| l@),
            out@.map_values(|s: ColorSetting| (s.key@, s.color)) == color_settings(lv.take(k as int)),
        decreases lines.len() - k,
    {
        let line = &lines[k];
        assert(lv.take(k + 1).drop_last() =~= lv.take(k as int));
        assert(lv.take(k + 1).last() == line@);
        let i = find_from(line, 0, '=');
        assert(line@.skip(0) =~= line@);
        proof {
            lemma_find_char_bound(line@, '=');
        }
        if i < line.len() {
            let value = sub_chars(line, i + 1, line.len());
            assert(value@ =~= line@.skip(i + 1));
            let value_s = string_from_chars(&value);
            let tv = trim(value_s.as_str());
            let unq = strip_quotes_exec(&tv);
            let unq_s = string_from_chars(&unq);
            match parse_hex(unq_s.as_str()) {
                Some(color) => {
                    let key_raw = sub_chars(line, 0, i);
                    assert(key_raw@ =~= line@.take(i as int));
                    let key_raw_s = string_from_chars(&key_raw);
                    let key_chars = trim(key_raw_s.as_str());
                    let key = string_from_chars(&key_chars);
                    let ghost before = out@.map_values(|s: ColorSetting| (s.key@, s.color));
                    out.push(ColorSetting { key, color });
                    assert(out@.map_values(|s: ColorSetting| (s.key@, s.color)) =~= before.push(
                        (key@, color),
                    ));
                },
                None => {},
            }
        }
        k = k + 1;
    }
    assert(lv.take(lines.len() as int) =~= lv);
    out
}

/// Where the current theme's colors are kept under the home folder `home`.
pub fn colors_file(home: &str) -> (r: String)
    ensures
        r@ == join_path(home@, ".local/state/omarchy/current/theme/colors.toml"@),
{
    join(home, ".local/state/omarchy/current/theme/colors.toml")
}

// ---------------------------------------------------------------------------
// Applying named colors
// ---------------------------------------------------------------------------

/// The colors of the interface that a color file can set.
pub struct Palette<C> {
    pub background: C,
    pub foreground: C,
    pub accent: C,
    pub accent_foreground: C,
    pub muted: C,
    pub muted_foreground: C,
    pub selection: C,
    pub sidebar: C,
    pub title_bar: C,
    pub sidebar_accent: C,
    pub sidebar_accent_foreground: C,
    pub sidebar_foreground: C,
    pub sidebar_border: C,
    pub title_bar_border: C,
    pub border: C,
}

/// The named colors as (name, color).
pub open spec fn named_views<C>(named: Seq<(String, C)>) -> Seq<(Seq<char>, C)> {
    named.map_values(|e: (String, C)| (e.0@, e.1))
}

/// The color named `key`: the last one of that name, as when the names are
/// collected into a map in order.
pub open spec fn named_color<C>(named: Seq<(Seq<char>, C)>, key: Seq<char>) -> Option<C>
    decreases named.len(),
{
    if named.len() == 0 {
        None
    } else if named.last().0 == key {
        Some(named.last().1)
    } else {
        named_color(named.drop_last(), key)
    }
}

/// The color named `key`, or `fallback`.
pub open spec fn color_or<C>(named: Seq<(Seq<char>, C)>, key: Seq<char>, fallback: C) -> C {
    match named_color(named, key) {
        Some(c) => c,
        None => fallback,
    }
}

/// The palette after applying the named colors: nothing changes when there
/// are none; otherwise each role takes the color of its name where there is
/// one; the sidebar's text takes the bright foreground (else the
/// foreground) and its borders and the title bar's take the selection color
/// (else the border color).
pub open spec fn applied_palette<C>(p: Palette<C>, named: Seq<(Seq<char>, C)>) -> Palette<C> {
    if named.len() == 0 {
        p
    } else {
        let foreground = color_or(named, "foreground"@, p.foreground);
        Palette {
            background: color_or(named, "background"@, p.background),
            foreground,
            accent: color_or(named, "accent"@, p.accent),
            accent_foreground: color_or(named, "bright_foreground"@, p.accent_foreground),
            muted: color_or(named, "muted"@, p.muted),
            muted_foreground: color_or(named, "dark_foreground"@, p.muted_foreground),
            selection: color_or(named, "selection"@, p.selection),
            sidebar: color_or(named, "lighter_background"@, p.sidebar),
            title_bar: color_or(named, "lighter_background"@, p.title_bar),
            sidebar_accent: color_or(named, "dark_background"@, p.sidebar_accent),
            sidebar_accent_foreground: color_or(named, "bright_foreground"@, foreground),
            sidebar_foreground: color_or(named, "foreground"@, foreground),
            sidebar_border: color_or(named, "selection"@, p.border),
            title_bar_border: color_or(named, "selection"@, p.border),
            border: color_or(named, "selection"@, p.border),
        }
    }
}

/// The color named `key`, or `fallback`.
fn find_color<C: Copy>(named: &Vec<(String, C)>, key: &str, fallback: C) -> (r: C)
    ensures
        r == color_or(named_views(named@), key@, fallback),
{
    let k = chars_of(key);
    let ghost nv = named_views(named@);
    let mut i: usize = named.len();
    assert(nv.take(i as int) =~= nv);
    while i > 0
        invariant
            i <= named.len(),
            nv == named_views(named@),
            k@ == key@,
            named_color(nv, key@) == named_color(nv.take(i as int), key@),
        decreases i,
    {
        let ghost t = nv.take(i as int);
        assert(t.last() == (named@[i - 1].0@, named@[i - 1].1));
        assert(t.drop_last() =~= nv.take(i - 1));
        if chars_equal(&chars_of(named[i - 1].0.as_str()), &k) {
            return named[i - 1].1;
        }
        i = i - 1;
    }
    assert(nv.take(0) =~= Seq::<(Seq<char>, C)>::empty());
    fallback
}

/// Applies the named colors of a color file to the palette `p`.
pub fn apply_named_colors<C: Copy>(p: Palette<C>, named: &Vec<(String, C)>) -> (r: Palette<C>)
    ensures
        r == applied_palette(p, named_views(named@)),
{
    assert(named_views(named@).take(named@.len() as int) =~= named_views(named@));
    if named.len() == 0 {
        return p;
    }
    let foreground = find_color(named, "foreground", p.foreground);
    Palette {
        background: find_color(named, "background", p.background),
        foreground,
        accent: find_color(named, "accent", p.accent),
        accent_foreground: find_color(named, "bright_foreground", p.accent_foreground),
        muted: find_color(named, "muted", p.muted),
        muted_foreground: find_color(named, "dark_foreground", p.muted_foreground),
        selection: find_color(named, "selection", p.selection),
        sidebar: find_color(named, "lighter_background", p.sidebar),
        title_bar: find_color(named, "lighter_background", p.title_bar),
        sidebar_accent: find_color(named, "dark_background", p.sidebar_accent),
        sidebar_accent_foreground: find_color(named, "bright_foreground", foreground),
        sidebar_foreground: find_color(named, "foreground", foreground),
        sidebar_border: find_color(named, "selection", p.border),
        title_bar_border: find_color(named, "selection", p.border),
        border: find_color(named, "selection", p.border),
    }
}

} // verus!
