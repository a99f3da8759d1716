//! `mycel theme`: the built-in colour themes of the desktop.
use vstd::prelude::*;
use crate::text::{chars_of, concat, str_eq};

verus! {

/// A theme: its name, a label for people, the accent colour (`#RRGGBB`)
/// and whether it is `dark` or `light`.
pub struct Theme {
    pub name: String,
    pub label: String,
    pub accent: String,
    pub mode: String,
}

pub open spec fn theme_view(t: Theme) -> (Seq<char>, Seq<char>, Seq<char>, Seq<char>) {
    (t.name@, t.label@, t.accent@, t.mode@)
}

/// The themes, in the order they are listed.
pub open spec fn theme_table() -> Seq<(Seq<char>, Seq<char>, Seq<char>, Seq<char>)> {
    seq![
        ("catppuccin"@, "Catppuccin Mocha"@, "#cba6f7"@, "dark"@),
        ("dracula"@, "Dracula"@, "#bd93f9"@, "dark"@),
        ("nord"@, "Nord"@, "#88c0d0"@, "dark"@),
        ("gruvbox"@, "Gruvbox"@, "#b8bb26"@, "dark"@),
        ("tokyo-night"@, "Tokyo Night"@, "#7aa2f7"@, "dark"@),
        ("rose-pine"@, "Ros\u{e9} Pine"@, "#c4a7e7"@, "dark"@),
        ("everforest"@, "Everforest"@, "#a7c080"@, "dark"@),
        ("solarized"@, "Solarized Dark"@, "#268bd2"@, "dark"@),
        ("mycel"@, "MycelOS (default)"@, "#3F549E"@, "dark"@),
        ("latte"@, "Catppuccin Latte"@, "#8839ef"@, "light"@),
        ("light"@, "Light"@, "#3F549E"@, "light"@),
    ]
}

fn theme(name: &str, label: &str, accent: &str, mode: &str) -> (t: Theme)
    ensures
        theme_view(t) == (name@, label@, accent@, mode@),
{
    Theme {
        name: name.to_string(),
        label: label.to_string(),
        accent: accent.to_string(),
        mode: mode.to_string(),
    }
}

/// The themes, in the order they are listed.
pub fn themes() -> (r: Vec<Theme>)
    ensures
        r@.map_values(|t: Theme| theme_view(t)) == theme_table(),
{
    let r = vec![
        theme("catppuccin", "Catppuccin Mocha", "#cba6f7", "dark"),
        theme("dracula", "Dracula", "#bd93f9", "dark"),
        theme("nord", "Nord", "#88c0d0", "dark"),
        theme("gruvbox", "Gruvbox", "#b8bb26", "dark"),
        theme("tokyo-night", "Tokyo Night", "#7aa2f7", "dark"),
        theme("rose-pine", "Ros\u{e9} Pine", "#c4a7e7", "dark"),
        theme("everforest", "Everforest", "#a7c080", "dark"),
        theme("solarized", "Solarized Dark", "#268bd2", "dark"),
        theme("mycel", "MycelOS (default)", "#3F549E", "dark"),
        theme("latte", "Catppuccin Latte", "#8839ef", "light"),
        theme("light", "Light", "#3F549E", "light"),
    ];
    assert(r@.map_values(|t: Theme| theme_view(t)) =~= theme_table());
    r
}

/// The first theme of `t` with this name.
pub open spec fn named(
    t: Seq<(Seq<char>, Seq<char>, Seq<char>, Seq<char>)>,
    name: Seq<char>,
) -> Option<(Seq<char>, Seq<char>, Seq<char>, Seq<char>)>
    decreases t.len(),
{
    if t.len() == 0 {
        None
    } else if t[0].0 == name {
        Some(t[0])
    } else {
        named(t.drop_first(), name)
    }
}

/// The theme called `name`, if there is one.
pub fn find_theme(name: &str) -> (r: Option<Theme>)
    ensures
        match (r, named(theme_table(), name@)) {
            (Some(t), Some(v)) => theme_view(t) == v,
            (None, None) => true,
            _ => false,
        },
{
    let mut all = themes();
    let ghost table = theme_table();
    let mut i: usize = 0;
    assert(table.skip(0) =~= table);
    while i < all.len()
        invariant
            i <= all.len(),
            all@.map_values(|t: Theme| theme_view(t)) == table,
            table == theme_table(),
            named(table, name@) == named(table.skip(i as int), name@),
        decreases all.len() - i,
    {
        assert(table.skip(i as int)[0] == theme_view(all@[i as int]));
        assert(table.skip(i as int).drop_first() =~= table.skip(i + 1));
        if str_eq(all[i].name.as_str(), name) {
            let t = all.remove(i);
            return Some(t);
        }
        i += 1;
    }
    assert(table.skip(i as int).len() == 0);
    None
}

/// What `mycel theme` does.
pub enum ThemeAction {
    /// List the themes.
    List,
    /// Apply this theme: set `accent_color` and `theme` (the mode) in
    /// `[fessus]` of fessus.toml.
    Apply(Theme),
}

/// Why a theme cannot be applied.
#[derive(Clone, Copy, Debug, PartialEq, Eq, Structural)]
pub enum ThemeError {
    /// The name is not in the table.
    UnknownTheme,
    /// fessus.toml is not TOML, or its `fessus` item is not a table.
    NotEditable,
}

/// Lists the themes without a name; applies the named theme, or fails for
/// a name that no theme has.
pub fn run(name: Option<&str>) -> (r: Result<ThemeAction, ThemeError>)
    ensures
        match name {
            None => r matches Ok(ThemeAction::List),
            Some(n) => match named(theme_table(), n@) {
                Some(v) => r matches Ok(ThemeAction::Apply(t)) && theme_view(t) == v,
                None => r == Err::<ThemeAction, ThemeError>(ThemeError::UnknownTheme),
            },
        },
{
    match name {
        None => Ok(ThemeAction::List),
        Some(n) => match find_theme(n) {
            Some(t) => Ok(ThemeAction::Apply(t)),
            None => Err(ThemeError::UnknownTheme),
        },
    }
}

/// The text `toml_edit` writes after setting `fessus.accent_color` to
/// `accent` and `fessus.theme` to `mode` in a fessus.toml text, everything
/// else kept as it was; none when the text is not TOML or `fessus` holds a
/// value that is not a table.
pub uninterp spec fn fessus_with_theme(text: Seq<char>, accent: Seq<char>, mode: Seq<char>) -> Option<Seq<char>>;

/// `toml_edit`: parses the text as a `DocumentMut`, sets the two keys of
/// `fessus` (`Item::get_mut`, which makes a missing `fessus` an inline
/// table, and `toml_edit::value`) and writes the document back (`Display`);
/// the result is named `fessus_with_theme`.
#[verifier::external_body]
fn set_fessus_theme(text: &str, accent: &str, mode: &str) -> (r: Option<String>)
    ensures
        match r {
            Some(t) => fessus_with_theme(text@, accent@, mode@) == Some(t@),
            None => fessus_with_theme(text@, accent@, mode@) is None,
        },
{
    let mut doc: toml_edit::DocumentMut = text.parse().ok()?;
    let fessus = doc.as_item_mut().get_mut("fessus")?;
    *fessus.get_mut("accent_color")? = toml_edit::value(accent);
    *fessus.get_mut("theme")? = toml_edit::value(mode);
    Some(doc.to_string())
}

/// The new text of fessus.toml with theme `name` applied: its accent colour
/// and its mode set, nothing else touched.
pub fn apply_theme(fessus_text: &str, name: &str) -> (r: Result<String, ThemeError>)
    ensures
        match named(theme_table(), name@) {
            None => r == Err::<String, ThemeError>(ThemeError::UnknownTheme),
            Some(v) => match fessus_with_theme(fessus_text@, v.2, v.3) {
                Some(t) => r matches Ok(s) && s@ == t,
                None => r == Err::<String, ThemeError>(ThemeError::NotEditable),
            },
        },
{
    match find_theme(name) {
        None => Err(ThemeError::UnknownTheme),
        Some(t) => match set_fessus_theme(fessus_text, t.accent.as_str(), t.mode.as_str()) {
            Some(s) => Ok(s),
            None => Err(ThemeError::NotEditable),
        },
    }
}

/// fessus.toml under a home directory.
pub fn fessus_path(home: &str) -> (r: String)
    ensures
        r@ == home@ + "/.config/fessus.toml"@,
{
    concat(home, "/.config/fessus.toml")
}

/// The value of a hex digit, if it is one.
pub open spec fn hex_val(c: char) -> Option<u8> {
    if '0' <= c <= '9' {
        Some((c as u32 - 48) as u8)
    } else if 'a' <= c <= 'f' {
        Some((c as u32 - 87) as u8)
    } else if 'A' <= c <= 'F' {
        Some((c as u32 - 55) as u8)
    } else {
        None
    }
}

/// `u8::from_str_radix` of two characters in base 16, 127 when that fails:
/// a `+` may stand before a single digit.
pub open spec fn hex_byte(a: char, b: char) -> u8 {
    if a == '+' {
        match hex_val(b) {
            Some(v) => v,
            None => 127,
        }
    } else {
        match (hex_val(a), hex_val(b)) {
            (Some(x), Some(y)) => (x * 16 + y) as u8,
            _ => 127,
        }
    }
}

fn hex_val_exec(c: char) -> (r: Option<u8>)
    ensures
        r == hex_val(c),
{
    if '0' <= c && c <= '9' {
        Some((c as u32 - 48) as u8)
    } else if 'a' <= c && c <= 'f' {
        Some((c as u32 - 87) as u8)
    } else if 'A' <= c && c <= 'F' {
        Some((c as u32 - 55) as u8)
    } else {
        None
    }
}

fn hex_byte_exec(a: char, b: char) -> (r: u8)
    ensures
        r == hex_byte(a, b),
{
    if a == '+' {
        match hex_val_exec(b) {
            Some(v) => v,
            None => 127,
        }
    } else {
        match (hex_val_exec(a), hex_val_exec(b)) {
            (Some(x), Some(y)) => x * 16 + y,
            _ => 127,
        }
    }
}

/// The number of bytes of a character in UTF-8.
pub open spec fn utf8_len(c: char) -> nat {
    let u = c as u32;
    if u < 0x80 {
        1
    } else if u < 0x800 {
        2
    } else if u < 0x10000 {
        3
    } else {
        4
    }
}

/// The byte offset in UTF-8 at which character `i` starts.
pub open spec fn byte_offset(cs: Seq<char>, i: int) -> nat
    decreases i,
{
    if i <= 0 {
        0
    } else {
        byte_offset(cs, i - 1) + utf8_len(cs[i - 1])
    }
}

/// Byte offset `k` lies on a character boundary (or at the end).
pub open spec fn boundary(cs: Seq<char>, k: nat) -> bool {
    exists|i: int| 0 <= i <= cs.len() && byte_offset(cs, i) == k
}

/// The character that starts at byte offset `k`.
pub open spec fn char_at_byte(cs: Seq<char>, k: nat) -> int {
    choose|i: int| 0 <= i <= cs.len() && byte_offset(cs, i) == k
}

/// `u8::from_str_radix(&s[k..k + 2], 16)`, 127 when that fails: the two
/// bytes are two ASCII characters read by `hex_byte`, or one character of
/// two bytes, which is no number.
pub open spec fn byte_pair(cs: Seq<char>, k: nat) -> u8 {
    let i = char_at_byte(cs, k);
    if utf8_len(cs[i]) == 1 {
        hex_byte(cs[i], cs[i + 1])
    } else {
        127
    }
}

proof fn lemma_offset_grows(cs: Seq<char>, i: int, j: int)
    requires
        0 <= i < j <= cs.len(),
    ensures
        byte_offset(cs, i) < byte_offset(cs, j),
    decreases j,
{
    if i < j - 1 {
        lemma_offset_grows(cs, i, j - 1);
    }
}

fn utf8_len_exec(c: char) -> (n: usize)
    ensures
        n == utf8_len(c),
{
    let u = c as u32;
    if u < 0x80 {
        1
    } else if u < 0x800 {
        2
    } else if u < 0x10000 {
        3
    } else {
        4
    }
}

/// The character that starts at byte offset `k`.
fn index_at_byte(cs: &Vec<char>, k: usize) -> (i: usize)
    requires
        k <= 7,
        boundary(cs@, k as nat),
    ensures
        i <= cs.len(),
        byte_offset(cs@, i as int) == k,
        i == char_at_byte(cs@, k as nat),
{
    let ghost w = choose|w: int| 0 <= w <= cs@.len() && byte_offset(cs@, w) == k;
    let mut i: usize = 0;
    let mut off: usize = 0;
    while off < k
        invariant
            k <= 7,
            0 <= w <= cs@.len(),
            byte_offset(cs@, w) == k,
            i <= w,
            off == byte_offset(cs@, i as int),
            off <= k,
        decreases k - off,
    {
        proof {
            if i as int == w {
                assert(off == k);
            }
        }
        assert(i < w);
        assert(i < cs.len());
        let n = utf8_len_exec(cs[i]);
        proof {
            if i + 1 < w {
                lemma_offset_grows(cs@, i + 1, w);
            }
        }
        off = off + n;
        i = i + 1;
    }
    proof {
        if i < w {
            lemma_offset_grows(cs@, i as int, w);
        }
        let c = char_at_byte(cs@, k as nat);
        assert(0 <= c <= cs@.len() && byte_offset(cs@, c) == k);
        if c < i {
            lemma_offset_grows(cs@, c, i as int);
        } else if c > i {
            lemma_offset_grows(cs@, i as int, c);
        }
    }
    i
}

fn pair_at(cs: &Vec<char>, k: usize) -> (r: u8)
    requires
        k + 2 <= 7,
        boundary(cs@, k as nat),
        boundary(cs@, (k + 2) as nat),
    ensures
        r == byte_pair(cs@, k as nat),
{
    let i = index_at_byte(cs, k);
    let ghost w = choose|w: int| 0 <= w <= cs@.len() && byte_offset(cs@, w) == k + 2;
    proof {
        if w <= i {
            if w < i {
                lemma_offset_grows(cs@, w, i as int);
            }
        }
    }
    assert(i < cs.len());
    if utf8_len_exec(cs[i]) == 1 {
        proof {
            if w <= i + 1 {
                if w < i + 1 {
                    lemma_offset_grows(cs@, w, i + 1);
                }
            }
        }
        assert(i + 1 < cs.len());
        hex_byte_exec(cs[i], cs[i + 1])
    } else {
        127
    }
}

/// The swatch colour of an accent `#RRGGBB`: the bytes 1-2, 3-4 and 5-6
/// each read in base 16, 127 for a pair that is not a number. Those byte
/// offsets must fall on character boundaries (slicing there is what the
/// colour is read with).
pub fn accent_rgb(accent: &str) -> (r: (u8, u8, u8))
    requires
        boundary(accent@, 1),
        boundary(accent@, 3),
        boundary(accent@, 5),
        boundary(accent@, 7),
    ensures
        r == (byte_pair(accent@, 1), byte_pair(accent@, 3), byte_pair(accent@, 5)),
{
    let c = chars_of(accent);
    (pair_at(&c, 1), pair_at(&c, 3), pair_at(&c, 5))
}

} // verus!
