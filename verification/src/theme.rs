//! Colour themes of the browser: the built-in palettes, and a theme file's
//! palette of named hex colours mapped onto the browser's roles.
use vstd::prelude::*;

use crate::present::{owned, str_eq};
use crate::order::{lemma_lex_trans, lex_less, lex_lt, strictly_sorted};
use crate::text::{byte_len, chars_of, opt_view, utf8_width};

verus! {

/// A colour as red, green and blue.
#[derive(Clone, Copy, PartialEq, Eq, Structural, Debug)]
pub struct Rgb {
    pub r: u8,
    pub g: u8,
    pub b: u8,
}

/// The colour of each role of the browser.
#[derive(Clone, Copy, PartialEq, Eq, Structural, Debug)]
pub struct Theme {
    pub text: Rgb,
    pub text_dim: Rgb,
    pub text_muted: Rgb,
    pub accent: Rgb,
    pub warm: Rgb,
    pub border: Rgb,
    pub selection: Rgb,
}

/// A colour.
pub open spec fn rgb(r: u8, g: u8, b: u8) -> Rgb {
    Rgb { r, g, b }
}

/// A theme from its seven colours.
pub open spec fn theme_of(text: Rgb, text_dim: Rgb, text_muted: Rgb, accent: Rgb, warm: Rgb, border: Rgb, selection: Rgb) -> Theme {
    Theme { text, text_dim, text_muted, accent, warm, border, selection }
}

/// The built-in theme of the given name; `tokyo-night-moon` for any other name.
pub open spec fn builtin_of(name: Seq<char>) -> Theme {
    if name == "catppuccin-mocha"@ {
        theme_of(rgb(205, 214, 244), rgb(166, 173, 200), rgb(88, 91, 112), rgb(137, 180, 250), rgb(249, 226, 175), rgb(69, 71, 90), rgb(49, 50, 68))
    } else if name == "catppuccin-frappe"@ {
        theme_of(rgb(198, 208, 245), rgb(165, 173, 206), rgb(98, 104, 128), rgb(140, 170, 238), rgb(229, 200, 144), rgb(65, 69, 89), rgb(48, 52, 70))
    } else if name == "rose-pine"@ {
        theme_of(rgb(224, 222, 244), rgb(144, 140, 170), rgb(110, 106, 134), rgb(196, 167, 231), rgb(246, 193, 119), rgb(57, 53, 82), rgb(38, 35, 58))
    } else if name == "gruvbox"@ {
        theme_of(rgb(235, 219, 178), rgb(168, 153, 132), rgb(102, 92, 84), rgb(131, 165, 152), rgb(250, 189, 47), rgb(80, 73, 69), rgb(60, 56, 54))
    } else if name == "kanagawa"@ {
        theme_of(rgb(220, 215, 186), rgb(149, 147, 140), rgb(84, 84, 88), rgb(126, 156, 216), rgb(226, 194, 114), rgb(54, 54, 59), rgb(42, 42, 47))
    } else {
        theme_of(rgb(200, 211, 245), rgb(99, 109, 166), rgb(59, 66, 97), rgb(130, 170, 255), rgb(255, 199, 119), rgb(69, 71, 90), rgb(47, 51, 77))
    }
}

fn color(r: u8, g: u8, b: u8) -> (c: Rgb)
    ensures
        c == rgb(r, g, b),
{
    Rgb { r, g, b }
}

/// The built-in theme of the given name.
pub fn builtin(name: &str) -> (t: Theme)
    ensures
        t == builtin_of(name@),
{
    if str_eq(name, "catppuccin-mocha") {
        Theme {
            text: color(205, 214, 244),
            text_dim: color(166, 173, 200),
            text_muted: color(88, 91, 112),
            accent: color(137, 180, 250),
            warm: color(249, 226, 175),
            border: color(69, 71, 90),
            selection: color(49, 50, 68),
        }
    } else if str_eq(name, "catppuccin-frappe") {
        Theme {
            text: color(198, 208, 245),
            text_dim: color(165, 173, 206),
            text_muted: color(98, 104, 128),
            accent: color(140, 170, 238),
            warm: color(229, 200, 144),
            border: color(65, 69, 89),
            selection: color(48, 52, 70),
        }
    } else if str_eq(name, "rose-pine") {
        Theme {
            text: color(224, 222, 244),
            text_dim: color(144, 140, 170),
            text_muted: color(110, 106, 134),
            accent: color(196, 167, 231),
            warm: color(246, 193, 119),
            border: color(57, 53, 82),
            selection: color(38, 35, 58),
        }
    } else if str_eq(name, "gruvbox") {
        Theme {
            text: color(235, 219, 178),
            text_dim: color(168, 153, 132),
            text_muted: color(102, 92, 84),
            accent: color(131, 165, 152),
            warm: color(250, 189, 47),
            border: color(80, 73, 69),
            selection: color(60, 56, 54),
        }
    } else if str_eq(name, "kanagawa") {
        Theme {
            text: color(220, 215, 186),
            text_dim: color(149, 147, 140),
            text_muted: color(84, 84, 88),
            accent: color(126, 156, 216),
            warm: color(226, 194, 114),
            border: color(54, 54, 59),
            selection: color(42, 42, 47),
        }
    } else {
        Theme {
            text: color(200, 211, 245),
            text_dim: color(99, 109, 166),
            text_muted: color(59, 66, 97),
            accent: color(130, 170, 255),
            warm: color(255, 199, 119),
            border: color(69, 71, 90),
            selection: color(47, 51, 77),
        }
    }
}

/// The value of a hexadecimal digit, in either case.
pub open spec fn hex_value(c: char) -> Option<u8> {
    if '0' <= c <= '9' {
        Some((c as u32 - '0' as u32) as u8)
    } else if 'a' <= c <= 'f' {
        Some((c as u32 - 'a' as u32 + 10) as u8)
    } else if 'A' <= c <= 'F' {
        Some((c as u32 - 'A' as u32 + 10) as u8)
    } else {
        None
    }
}

/// What `u8::from_str_radix(x, 16)` gives for a piece `x` of two bytes: two hex
/// digits, or a `+` and one hex digit; anything else (such as one two-byte
/// character) is no number.
pub open spec fn pair_value(x: Seq<char>) -> Option<u8> {
    if x.len() == 2 {
        if x[0] == '+' {
            hex_value(x[1])
        } else {
            match (hex_value(x[0]), hex_value(x[1])) {
                (Some(a), Some(b)) => Some((16 * a + b) as u8),
                _ => None,
            }
        }
    } else {
        None
    }
}

/// The first two bytes of `r` as a piece of their own, and the rest; nothing when
/// the second byte boundary falls inside a character.
pub open spec fn take_pair(r: Seq<char>) -> Option<(Seq<char>, Seq<char>)> {
    if r.len() >= 1 && utf8_width(r[0]) == 2 {
        Some((seq![r[0]], r.drop_first()))
    } else if r.len() >= 2 && utf8_width(r[0]) == 1 && utf8_width(r[1]) == 1 {
        Some((r.take(2), r.skip(2)))
    } else {
        None
    }
}

/// What reading `#rrggbb` gives.
pub enum HexParse {
    Color(Rgb),
    Invalid,
    /// Slicing the text at a byte that is no character boundary, where `str`
    /// slicing panics.
    Unsliceable,
}

/// How `#rrggbb` is read: a `#`, six bytes, and three two-byte numbers read one
/// after the other, each piece cut out only once the one before it was read.
pub open spec fn parse_hex_of(s: Seq<char>) -> HexParse {
    if s.len() == 0 || s[0] != '#' || byte_len(s.drop_first()) != 6 {
        HexParse::Invalid
    } else {
        match take_pair(s.drop_first()) {
            None => HexParse::Unsliceable,
            Some((a, r1)) => match pair_value(a) {
                None => HexParse::Invalid,
                Some(x) => match take_pair(r1) {
                    None => HexParse::Unsliceable,
                    Some((b, r2)) => match pair_value(b) {
                        None => HexParse::Invalid,
                        Some(y) => match take_pair(r2) {
                            None => HexParse::Unsliceable,
                            Some((c, _)) => match pair_value(c) {
                                None => HexParse::Invalid,
                                Some(z) => HexParse::Color(Rgb { r: x, g: y, b: z }),
                            },
                        },
                    },
                },
            },
        }
    }
}

fn hex_digit(c: char) -> (v: Option<u8>)
    ensures
        v == hex_value(c),
{
    if '0' <= c && c <= '9' {
        Some((c as u32 - '0' as u32) as u8)
    } else if 'a' <= c && c <= 'f' {
        Some((c as u32 - 'a' as u32 + 10) as u8)
    } else if 'A' <= c && c <= 'F' {
        Some((c as u32 - 'A' as u32 + 10) as u8)
    } else {
        None
    }
}

fn width(c: char) -> (w: u32)
    ensures
        w == utf8_width(c),
{
    let u = c as u32;
    if u < 0x80 {
        1
    } else if u < 0x800 {
        2
    } else if u < 0x10000 {
        3
    } else {
        4
    }
}

/// Reads the piece of two bytes starting at character `i` of `v`: its value and
/// where the next piece starts, or nothing when the piece cannot be cut out.
fn read_pair(v: &Vec<char>, i: usize) -> (r: Option<(Option<u8>, usize)>)
    requires
        i <= v@.len(),
    ensures
        match r {
            None => take_pair(v@.skip(i as int)) is None,
            Some((val, next)) => match take_pair(v@.skip(i as int)) {
                Some((p, rest)) => val == pair_value(p) && i < next <= v@.len() && rest == v@.skip(next as int),
                None => false,
            },
        },
{
    let ghost r = v@.skip(i as int);
    if i < v.len() && width(v[i]) == 2 {
        assert(r[0] == v@[i as int]);
        assert(r.drop_first() =~= v@.skip(i + 1));
        let ghost p = seq![r[0]];
        assert(pair_value(p) is None);
        return Some((None, i + 1));
    }
    if i < v.len() && v.len() - i >= 2 && width(v[i]) == 1 && width(v[i + 1]) == 1 {
        assert(r[0] == v@[i as int] && r[1] == v@[i + 1]);
        assert(r.skip(2) =~= v@.skip(i + 2));
        let val = if v[i] == '+' {
            hex_digit(v[i + 1])
        } else {
            match (hex_digit(v[i]), hex_digit(v[i + 1])) {
                (Some(a), Some(b)) => Some(16 * a + b),
                _ => None,
            }
        };
        assert(r.take(2)[0] == v@[i as int] && r.take(2)[1] == v@[i + 1]);
        return Some((val, i + 2));
    }
    if i < v.len() {
        assert(r[0] == v@[i as int]);
        if v.len() - i >= 2 {
            assert(r[1] == v@[i + 1]);
        }
    }
    None
}

/// Whether reading the text as `#rrggbb` stays within character boundaries
/// (`str` slicing panics otherwise).
pub fn hex_sliceable(s: &str) -> (b: bool)
    ensures
        b == !(parse_hex_of(s@) is Unsliceable),
{
    match parse_hex(s) {
        Ok(_) => true,
        Err(()) => false,
    }
}

/// Reads a colour written `#rrggbb`; `Err` when the text cannot be cut into its
/// pieces at character boundaries.
fn parse_hex(s: &str) -> (r: Result<Option<Rgb>, ()>)
    ensures
        match r {
            Ok(Some(c)) => parse_hex_of(s@) == HexParse::Color(c),
            Ok(None) => parse_hex_of(s@) is Invalid,
            Err(()) => parse_hex_of(s@) is Unsliceable,
        },
{
    let v = chars_of(s);
    if v.len() == 0 || v[0] != '#' {
        return Ok(None);
    }
    let body = crate::text::slice_chars(&v, 1, v.len());
    assert(body@ =~= s@.drop_first());
    match crate::text::byte_len_chars(&body) {
        Some(n) => if n != 6 {
            return Ok(None);
        },
        None => {
            return Ok(None);
        },
    }
    assert(body@.skip(0) =~= body@);
    let (x, i1) = match read_pair(&body, 0) {
        None => {
            return Err(());
        },
        Some(p) => p,
    };
    let x = match x {
        None => {
            return Ok(None);
        },
        Some(x) => x,
    };
    let (y, i2) = match read_pair(&body, i1) {
        None => {
            return Err(());
        },
        Some(p) => p,
    };
    let y = match y {
        None => {
            return Ok(None);
        },
        Some(y) => y,
    };
    let (z, _i3) = match read_pair(&body, i2) {
        None => {
            return Err(());
        },
        Some(p) => p,
    };
    match z {
        None => Ok(None),
        Some(z) => Ok(Some(Rgb { r: x, g: y, b: z })),
    }
}

/// The colours a theme file sets: a palette of named hex colours, and which
/// palette name each role takes.
pub struct UiConfig {
    pub text: Option<String>,
    pub text_dim: Option<String>,
    pub text_muted: Option<String>,
    pub accent: Option<String>,
    pub warm: Option<String>,
    pub border: Option<String>,
    pub selection: Option<String>,
}

/// A theme file: its palette (name and hex value, in the increasing order of
/// the names, each name once, as the file's table holds them) and the roles'
/// colours.
pub struct ThemeConfig {
    pub colors: Vec<(String, String)>,
    pub ui: Option<UiConfig>,
}

/// The palette's views.
pub open spec fn palette_view(p: Seq<(String, String)>) -> Seq<(Seq<char>, Seq<char>)> {
    p.map_values(|e: (String, String)| (e.0@, e.1@))
}

/// The names of the palette, in order.
pub open spec fn palette_names(p: Seq<(Seq<char>, Seq<char>)>) -> Seq<Seq<char>> {
    p.map_values(|e: (Seq<char>, Seq<char>)| e.0)
}

/// The palette holds its names in increasing order, each once, as a table does.
pub open spec fn palette_ok(c: ThemeConfig) -> bool {
    strictly_sorted(palette_names(palette_view(c.colors@)))
}

/// The value the palette gives a name: that of its entry with this name.
pub open spec fn lookup(p: Seq<(Seq<char>, Seq<char>)>, name: Seq<char>) -> Option<Seq<char>>
    decreases p.len(),
{
    if p.len() == 0 {
        None
    } else if p[0].0 == name {
        Some(p[0].1)
    } else {
        lookup(p.drop_first(), name)
    }
}

/// In a palette whose names are sorted and distinct, the value of a name is the
/// value of the one entry with that name.
pub proof fn lookup_finds_the_entry(p: Seq<(Seq<char>, Seq<char>)>, i: int)
    requires
        strictly_sorted(palette_names(p)),
        0 <= i < p.len(),
    ensures
        lookup(p, p[i].0) == Some(p[i].1),
    decreases p.len(),
{
    if i > 0 {
        assert(palette_names(p)[0] == p[0].0 && palette_names(p)[i] == p[i].0);
        assert(lex_lt(p[0].0, p[i].0));
        if p[0].0 == p[i].0 {
            crate::order::lemma_lex_irrefl(p[0].0);
        }
        let q = p.drop_first();
        assert forall|a: int, b: int| 0 <= a < b < palette_names(q).len() implies lex_lt(
            #[trigger] palette_names(q)[a],
            #[trigger] palette_names(q)[b],
        ) by {
            assert(palette_names(q)[a] == palette_names(p)[a + 1]);
            assert(palette_names(q)[b] == palette_names(p)[b + 1]);
        }
        lookup_finds_the_entry(q, i - 1);
        assert(q[i - 1] == p[i]);
    }
}

/// The colour a role takes: the palette colour it names, when the palette has
/// that name and its value reads as a colour; else the base colour.
pub open spec fn role_color(p: Seq<(Seq<char>, Seq<char>)>, field: Option<Seq<char>>, base: Rgb) -> Rgb {
    match field {
        Some(n) => match lookup(p, n) {
            Some(hex) => match parse_hex_of(hex) {
                HexParse::Color(c) => c,
                _ => base,
            },
            None => base,
        },
        None => base,
    }
}

/// Reading the role's palette colour does not stop the program.
pub open spec fn role_safe(p: Seq<(Seq<char>, Seq<char>)>, field: Option<Seq<char>>) -> bool {
    match field {
        Some(n) => match lookup(p, n) {
            Some(hex) => !(parse_hex_of(hex) is Unsliceable),
            None => true,
        },
        None => true,
    }
}

/// The names each role takes from the palette.
pub open spec fn ui_fields(ui: Option<UiConfig>) -> Seq<Option<Seq<char>>> {
    match ui {
        Some(u) => seq![
            opt_view(u.text),
            opt_view(u.text_dim),
            opt_view(u.text_muted),
            opt_view(u.accent),
            opt_view(u.warm),
            opt_view(u.border),
            opt_view(u.selection),
        ],
        None => seq![None, None, None, None, None, None, None],
    }
}

/// No role's colour stops the program when read.
pub open spec fn config_safe(c: ThemeConfig) -> bool {
    forall|i: int| 0 <= i < 7 ==> role_safe(palette_view(c.colors@), #[trigger] ui_fields(c.ui)[i])
}

/// The theme that a theme file makes of `base`.
pub open spec fn resolve_of(c: ThemeConfig, base: Theme) -> Theme {
    let p = palette_view(c.colors@);
    let f = ui_fields(c.ui);
    Theme {
        text: role_color(p, f[0], base.text),
        text_dim: role_color(p, f[1], base.text_dim),
        text_muted: role_color(p, f[2], base.text_muted),
        accent: role_color(p, f[3], base.accent),
        warm: role_color(p, f[4], base.warm),
        border: role_color(p, f[5], base.border),
        selection: role_color(p, f[6], base.selection),
    }
}

/// The palette value of a name.
fn find_color<'a>(p: &'a Vec<(String, String)>, name: &str) -> (r: Option<&'a String>)
    ensures
        match r {
            Some(v) => lookup(palette_view(p@), name@) == Some(v@),
            None => lookup(palette_view(p@), name@) is None,
        },
{
    let ghost pv = palette_view(p@);
    assert(pv.skip(0) =~= pv);
    for i in 0..p.len()
        invariant
            pv == palette_view(p@),
            lookup(pv, name@) == lookup(pv.skip(i as int), name@),
    {
        assert(pv.skip(i as int)[0] == (p@[i as int].0@, p@[i as int].1@));
        if str_eq(p[i].0.as_str(), name) {
            return Some(&p[i].1);
        }
        assert(pv.skip(i as int).drop_first() =~= pv.skip(i + 1));
    }
    assert(pv.skip(pv.len() as int) =~= Seq::<(Seq<char>, Seq<char>)>::empty());
    None
}

/// The colour of one role.
fn resolve_role(p: &Vec<(String, String)>, field: &Option<String>, base: Rgb) -> (c: Rgb)
    requires
        role_safe(palette_view(p@), opt_view(*field)),
    ensures
        c == role_color(palette_view(p@), opt_view(*field), base),
{
    match field {
        Some(n) => match find_color(p, n.as_str()) {
            Some(hex) => match parse_hex(hex.as_str()) {
                Ok(Some(c)) => c,
                _ => base,
            },
            None => base,
        },
        None => base,
    }
}

impl ThemeConfig {
    /// Whether the palette's names are in increasing order, each once.
    pub fn palette_sorted(&self) -> (b: bool)
        ensures
            b == palette_ok(*self),
    {
        let ghost names = palette_names(palette_view(self.colors@));
        let n = self.colors.len();
        if n == 0 {
            return true;
        }
        let mut prev = chars_of(self.colors[0].0.as_str());
        assert(names[0] == self.colors@[0].0@);
        for i in 1..n
            invariant
                n == self.colors@.len(),
                names == palette_names(palette_view(self.colors@)),
                1 <= i <= n,
                prev@ == names[i - 1],
                strictly_sorted(names.take(i as int)),
        {
            let cur = chars_of(self.colors[i].0.as_str());
            assert(names[i as int] == self.colors@[i as int].0@);
            if !lex_less(&prev, &cur) {
                assert(!lex_lt(names[i - 1], names[i as int]));
                assert(!strictly_sorted(names));
                return false;
            }
            assert forall|a: int, b: int| 0 <= a < b < i + 1 implies lex_lt(
                #[trigger] names.take(i + 1)[a],
                #[trigger] names.take(i + 1)[b],
            ) by {
                if b == i {
                    if a < i - 1 {
                        assert(names.take(i as int)[a] == names[a]);
                        assert(names.take(i as int)[i - 1] == names[i - 1]);
                        lemma_lex_trans(names[a], names[i - 1], names[i as int]);
                    }
                } else {
                    assert(names.take(i as int)[a] == names[a] && names.take(i as int)[b] == names[b]);
                }
            }
            prev = cur;
        }
        assert(names.take(n as int) =~= names);
        true
    }

    /// Whether no role's colour stops the program when read.
    pub fn is_safe(&self) -> (b: bool)
        ensures
            b == config_safe(*self),
    {
        let ok = match &self.ui {
            Some(u) => self.field_safe(&u.text) && self.field_safe(&u.text_dim) && self.field_safe(
                &u.text_muted,
            ) && self.field_safe(&u.accent) && self.field_safe(&u.warm) && self.field_safe(&u.border)
                && self.field_safe(&u.selection),
            None => true,
        };
        proof {
            let f = ui_fields(self.ui);
            let p = palette_view(self.colors@);
            if ok {
                assert forall|i: int| 0 <= i < 7 implies role_safe(p, #[trigger] f[i]) by {
                }
            } else {
                assert(!role_safe(p, f[0]) || !role_safe(p, f[1]) || !role_safe(p, f[2]) || !role_safe(p, f[3])
                    || !role_safe(p, f[4]) || !role_safe(p, f[5]) || !role_safe(p, f[6]));
            }
        }
        ok
    }

    fn field_safe(&self, field: &Option<String>) -> (b: bool)
        ensures
            b == role_safe(palette_view(self.colors@), opt_view(*field)),
    {
        match field {
            Some(n) => match find_color(&self.colors, n.as_str()) {
                Some(hex) => hex_sliceable(hex.as_str()),
                None => true,
            },
            None => true,
        }
    }

    /// The theme this file makes of `base`: each role takes the palette colour it
    /// names, or keeps the base colour.
    pub fn resolve(&self, base: &Theme) -> (t: Theme)
        requires
            palette_ok(*self),
            config_safe(*self),
        ensures
            t == resolve_of(*self, *base),
    {
        let p = &self.colors;
        let ghost f = ui_fields(self.ui);
        assert(role_safe(palette_view(p@), f[0]) && role_safe(palette_view(p@), f[1]) && role_safe(palette_view(p@), f[2])
            && role_safe(palette_view(p@), f[3]) && role_safe(palette_view(p@), f[4]) && role_safe(palette_view(p@), f[5])
            && role_safe(palette_view(p@), f[6]));
        match &self.ui {
            Some(u) => Theme {
                text: resolve_role(p, &u.text, base.text),
                text_dim: resolve_role(p, &u.text_dim, base.text_dim),
                text_muted: resolve_role(p, &u.text_muted, base.text_muted),
                accent: resolve_role(p, &u.accent, base.accent),
                warm: resolve_role(p, &u.warm, base.warm),
                border: resolve_role(p, &u.border, base.border),
                selection: resolve_role(p, &u.selection, base.selection),
            },
            None => *base,
        }
    }
}

/// The name of the configured theme, `tokyo-night-moon` when none is.
pub open spec fn theme_name_of(config_theme: Option<Seq<char>>) -> Seq<char> {
    match config_theme {
        Some(n) => n,
        None => "tokyo-night-moon"@,
    }
}

/// The name of the configured theme.
pub fn theme_name(config_theme: Option<&str>) -> (n: String)
    ensures
        n@ == theme_name_of(match config_theme {
            Some(s) => Some(s@),
            None => None,
        }),
{
    match config_theme {
        Some(s) => owned(s),
        None => owned("tokyo-night-moon"),
    }
}

/// The theme to use: the named built-in theme, changed by the theme file when one
/// was read.
pub fn choose_theme(name: &str, file: Option<&ThemeConfig>) -> (t: Theme)
    requires
        match file {
            Some(c) => palette_ok(*c) && config_safe(*c),
            None => true,
        },
    ensures
        t == match file {
            Some(c) => resolve_of(*c, builtin_of(name@)),
            None => builtin_of(name@),
        },
{
    let base = builtin(name);
    match file {
        Some(c) => c.resolve(&base),
        None => base,
    }
}

/// A theme file that assigns no roles leaves the theme it changes as it is.
pub proof fn no_roles_keep_base(c: ThemeConfig, base: Theme)
    requires
        c.ui is None,
    ensures
        resolve_of(c, base) == base,
{
    let f = ui_fields(c.ui);
    assert(f == seq![None::<Seq<char>>, None, None, None, None, None, None]);
    assert(f[0] is None && f[1] is None && f[2] is None && f[3] is None);
    assert(f[4] is None && f[5] is None && f[6] is None);
}

/// Each role of the resolved theme follows its own field of the theme file and
/// no other: a role whose field names the palette entry `k`, whose value reads
/// as the colour `col`, takes `col`; a role whose field is unset keeps the base
/// colour of that same role.
pub proof fn each_role_follows_its_own_field(c: ThemeConfig, base: Theme, k: int, col: Rgb)
    requires
        palette_ok(c),
        0 <= k < c.colors@.len(),
        parse_hex_of(c.colors@[k].1@) == HexParse::Color(col),
    ensures
        (c.ui matches Some(u) && opt_view(u.text) == Some(c.colors@[k].0@)) ==> resolve_of(c, base).text == col,
        (c.ui matches Some(u) && opt_view(u.text_dim) == Some(c.colors@[k].0@)) ==> resolve_of(c, base).text_dim
            == col,
        (c.ui matches Some(u) && opt_view(u.text_muted) == Some(c.colors@[k].0@)) ==> resolve_of(
            c,
            base,
        ).text_muted == col,
        (c.ui matches Some(u) && opt_view(u.accent) == Some(c.colors@[k].0@)) ==> resolve_of(c, base).accent
            == col,
        (c.ui matches Some(u) && opt_view(u.warm) == Some(c.colors@[k].0@)) ==> resolve_of(c, base).warm == col,
        (c.ui matches Some(u) && opt_view(u.border) == Some(c.colors@[k].0@)) ==> resolve_of(c, base).border
            == col,
        (c.ui matches Some(u) && opt_view(u.selection) == Some(c.colors@[k].0@)) ==> resolve_of(
            c,
            base,
        ).selection == col,
        !(c.ui matches Some(u) && u.text is Some) ==> resolve_of(c, base).text == base.text,
        !(c.ui matches Some(u) && u.text_dim is Some) ==> resolve_of(c, base).text_dim == base.text_dim,
        !(c.ui matches Some(u) && u.text_muted is Some) ==> resolve_of(c, base).text_muted == base.text_muted,
        !(c.ui matches Some(u) && u.accent is Some) ==> resolve_of(c, base).accent == base.accent,
        !(c.ui matches Some(u) && u.warm is Some) ==> resolve_of(c, base).warm == base.warm,
        !(c.ui matches Some(u) && u.border is Some) ==> resolve_of(c, base).border == base.border,
        !(c.ui matches Some(u) && u.selection is Some) ==> resolve_of(c, base).selection == base.selection,
{
    let p = palette_view(c.colors@);
    let name = c.colors@[k].0@;
    assert(p[k] == (name, c.colors@[k].1@));
    lookup_finds_the_entry(p, k);
    lemma_named_role(p, name, c.colors@[k].1@, col);
    match c.ui {
        Some(u) => {
            let f = ui_fields(c.ui);
            assert(f[0] == opt_view(u.text) && f[1] == opt_view(u.text_dim) && f[2] == opt_view(u.text_muted));
            assert(f[3] == opt_view(u.accent) && f[4] == opt_view(u.warm) && f[5] == opt_view(u.border));
            assert(f[6] == opt_view(u.selection));
        },
        None => {
            no_roles_keep_base(c, base);
        },
    }
}

/// A role that names a palette entry whose value reads as `col` takes `col`.
proof fn lemma_named_role(p: Seq<(Seq<char>, Seq<char>)>, name: Seq<char>, hex: Seq<char>, col: Rgb)
    requires
        lookup(p, name) == Some(hex),
        parse_hex_of(hex) == HexParse::Color(col),
    ensures
        forall|base: Rgb| #[trigger] role_color(p, Some(name), base) == col,
{
}

/// A role that names no palette colour, or one that does not read as a colour,
/// keeps its base colour.
pub proof fn unreadable_role_keeps_base(p: Seq<(Seq<char>, Seq<char>)>, name: Seq<char>, base: Rgb)
    requires
        match lookup(p, name) {
            Some(hex) => !(parse_hex_of(hex) is Color),
            None => true,
        },
    ensures
        role_color(p, Some(name), base) == base,
{
}

} // verus!
