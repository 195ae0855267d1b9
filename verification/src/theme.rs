//! The colours of the editor: a palette of named colours, a scheme that names a palette
//! colour for each kind of text, and colours written as `#rrggbb`.
use vstd::prelude::*;

verus! {

/// A colour by its red, green and blue parts.
pub type Rgb = (u8, u8, u8);

/// The value of a hexadecimal digit, either case.
pub open spec fn hex_digit(c: char) -> Option<u8> {
    if '0' <= c && c <= '9' {
        Some((c as u32 - 48) as u8)
    } else if 'a' <= c && c <= 'f' {
        Some((c as u32 - 87) as u8)
    } else if 'A' <= c && c <= 'F' {
        Some((c as u32 - 55) as u8)
    } else {
        None
    }
}

/// A byte written as two hexadecimal digits, or as `+` and one digit, as
/// `u8::from_str_radix` reads it in base 16.
pub open spec fn hex_pair(a: char, b: char) -> Option<u8> {
    match (hex_digit(a), hex_digit(b)) {
        (Some(x), Some(y)) => Some((16 * x + y) as u8),
        (None, Some(y)) => if a == '+' {
            Some(y)
        } else {
            None
        },
        _ => None,
    }
}

/// The colour `#rrggbb` names: a first char that takes one byte, then three bytes in
/// pairs of digits; anything after them is not read.
pub open spec fn parse_hex(s: Seq<char>) -> Option<Rgb> {
    if s.len() < 7 || s[0] as u32 >= 128 {
        None
    } else {
        match (hex_pair(s[1], s[2]), hex_pair(s[3], s[4]), hex_pair(s[5], s[6])) {
            (Some(r), Some(g), Some(b)) => Some((r, g, b)),
            _ => None,
        }
    }
}

fn digit(c: char) -> (r: Option<u8>)
    ensures
        r == hex_digit(c),
{
    if '0' <= c && c <= '9' {
        Some((c as u32 - 48) as u8)
    } else if 'a' <= c && c <= 'f' {
        Some((c as u32 - 87) as u8)
    } else if 'A' <= c && c <= 'F' {
        Some((c as u32 - 55) as u8)
    } else {
        None
    }
}

fn pair(a: char, b: char) -> (r: Option<u8>)
    ensures
        r == hex_pair(a, b),
{
    match (digit(a), digit(b)) {
        (Some(x), Some(y)) => Some(16 * x + y),
        (None, Some(y)) => if a == '+' {
            Some(y)
        } else {
            None
        },
        _ => None,
    }
}

/// The colour `src` writes as `#rrggbb`; none where it writes no colour.
pub fn hex_colour(src: &str) -> (r: Option<Rgb>)
    ensures
        r == parse_hex(src@),
{
    if src.unicode_len() < 7 {
        return None;
    }
    if src.get_char(0) as u32 >= 128 {
        return None;
    }
    let r = pair(src.get_char(1), src.get_char(2));
    let g = pair(src.get_char(3), src.get_char(4));
    let b = pair(src.get_char(5), src.get_char(6));
    match (r, g, b) {
        (Some(r), Some(g), Some(b)) => Some((r, g, b)),
        _ => None,
    }
}

/// The colour of the first entry named `name`.
pub open spec fn palette_lookup(p: Seq<(Seq<char>, Rgb)>, name: Seq<char>) -> Option<Rgb>
    decreases p.len(),
{
    if p.len() == 0 {
        None
    } else if p[0].0 == name {
        Some(p[0].1)
    } else {
        palette_lookup(p.drop_first(), name)
    }
}

/// The palette name of the first entry named `name`.
pub open spec fn scheme_lookup(s: Seq<(Seq<char>, Seq<char>)>, name: Seq<char>) -> Option<Seq<char>>
    decreases s.len(),
{
    if s.len() == 0 {
        None
    } else if s[0].0 == name {
        Some(s[0].1)
    } else {
        scheme_lookup(s.drop_first(), name)
    }
}

/// The palette of the default theme.
pub open spec fn default_palette() -> Seq<(Seq<char>, Rgb)> {
    seq![
        ("bg0"@, (0x28, 0x28, 0x28)),
        ("bg1"@, (0x32, 0x30, 0x2f)),
        ("bg2"@, (0x32, 0x30, 0x2f)),
        ("bg3"@, (0x45, 0x40, 0x3d)),
        ("bg4"@, (0x45, 0x40, 0x3d)),
        ("bg5"@, (0x5a, 0x52, 0x4c)),
        ("bg_statusline1"@, (0x32, 0x30, 0x2f)),
        ("bg_statusline2"@, (0x3a, 0x37, 0x35)),
        ("bg_statusline3"@, (0x50, 0x49, 0x45)),
        ("bg_diff_green"@, (0x34, 0x38, 0x1b)),
        ("bg_visual_green"@, (0x3b, 0x44, 0x39)),
        ("bg_diff_red"@, (0x40, 0x21, 0x20)),
        ("bg_visual_red"@, (0x4c, 0x34, 0x32)),
        ("bg_diff_blue"@, (0x0e, 0x36, 0x3e)),
        ("bg_visual_blue"@, (0x37, 0x41, 0x41)),
        ("bg_visual_yellow"@, (0x4f, 0x42, 0x2e)),
        ("bg_current_word"@, (0x3c, 0x38, 0x36)),
        ("fg0"@, (0xeb, 0xdb, 0xb2)),
        ("fg1"@, (0xeb, 0xdb, 0xb2)),
        ("red"@, (0xfb, 0x49, 0x34)),
        ("orange"@, (0xfe, 0x80, 0x19)),
        ("yellow"@, (0xfa, 0xbd, 0x2f)),
        ("green"@, (0xb8, 0xbb, 0x26)),
        ("aqua"@, (0x8e, 0xc0, 0x7c)),
        ("blue"@, (0x83, 0xa5, 0x98)),
        ("purple"@, (0xd3, 0x86, 0x9b)),
        ("bg_red"@, (0xcc, 0x24, 0x1d)),
        ("bg_green"@, (0xb8, 0xbb, 0x26)),
        ("bg_yellow"@, (0xfa, 0xbd, 0x2f)),
        ("grey0"@, (0x7c, 0x6f, 0x64)),
        ("grey1"@, (0x92, 0x83, 0x74)),
        ("grey2"@, (0xa8, 0x99, 0x84))
    ]
}

/// The scheme of the default theme.
pub open spec fn default_scheme() -> Seq<(Seq<char>, Seq<char>)> {
    seq![
        ("type"@, "yellow"@),
        ("constant"@, "purple"@),
        ("constant.numeric"@, "purple"@),
        ("constant.character.escape"@, "orange"@),
        ("string"@, "green"@),
        ("string.regexp"@, "blue"@),
        ("comment"@, "grey0"@),
        ("variable"@, "fg0"@),
        ("variable.builtin"@, "blue"@),
        ("variable.parameter"@, "fg0"@),
        ("variable.other.member"@, "fg0"@),
        ("label"@, "aqua"@),
        ("punctuation"@, "grey2"@),
        ("punctuation.delimiter"@, "grey2"@),
        ("punctuation.bracket"@, "fg0"@),
        ("keyword"@, "red"@),
        ("keyword.directive"@, "aqua"@),
        ("operator"@, "orange"@),
        ("function"@, "green"@),
        ("function.builtin"@, "blue"@),
        ("function.macro"@, "aqua"@),
        ("tag"@, "yellow"@),
        ("namespace"@, "aqua"@),
        ("attribute"@, "aqua"@),
        ("constructor"@, "yellow"@),
        ("module"@, "blue"@),
        ("special"@, "orange"@)
    ]
}

/// Named colours, and the palette name each kind of text is drawn in.
#[derive(Debug)]
pub struct Theme {
    pub palette: Vec<(String, Rgb)>,
    pub scheme: Vec<(String, String)>,
}

impl Theme {
    /// The palette as plain values.
    pub open spec fn palette_view(&self) -> Seq<(Seq<char>, Rgb)> {
        self.palette@.map_values(|p: (String, Rgb)| (p.0@, p.1))
    }

    /// The scheme as plain values.
    pub open spec fn scheme_view(&self) -> Seq<(Seq<char>, Seq<char>)> {
        self.scheme@.map_values(|p: (String, String)| (p.0@, p.1@))
    }

    /// The colour named `name` in the palette.
    pub fn palette(&self, name: &str) -> (r: Option<Rgb>)
        ensures
            r == palette_lookup(self.palette_view(), name@),
    {
        let key = name.to_owned();
        let mut i: usize = 0;
        assert(self.palette_view().skip(0) =~= self.palette_view());
        while i < self.palette.len()
            invariant
                i <= self.palette@.len(),
                key@ == name@,
                palette_lookup(self.palette_view(), name@) == palette_lookup(
                    self.palette_view().skip(i as int),
                    name@,
                ),
            decreases self.palette@.len() - i,
        {
            let ghost rest = self.palette_view().skip(i as int);
            assert(rest[0] == (self.palette@[i as int].0@, self.palette@[i as int].1));
            if self.palette[i].0 == key {
                return Some(self.palette[i].1);
            }
            assert(rest.drop_first() =~= self.palette_view().skip(i + 1));
            i += 1;
        }
        None
    }

    /// The colour the scheme gives the kind of text `name`: the palette colour it names.
    /// The palette must hold the colour the scheme names.
    pub fn scheme(&self, name: &str) -> (r: Option<Rgb>)
        requires
            scheme_lookup(self.scheme_view(), name@) matches Some(n) ==> palette_lookup(
                self.palette_view(),
                n,
            ) is Some,
        ensures
            r == match scheme_lookup(self.scheme_view(), name@) {
                Some(n) => palette_lookup(self.palette_view(), n),
                None => None,
            },
    {
        let key = name.to_owned();
        let mut i: usize = 0;
        assert(self.scheme_view().skip(0) =~= self.scheme_view());
        while i < self.scheme.len()
            invariant
                i <= self.scheme@.len(),
                key@ == name@,
                scheme_lookup(self.scheme_view(), name@) == scheme_lookup(
                    self.scheme_view().skip(i as int),
                    name@,
                ),
            decreases self.scheme@.len() - i,
        {
            let ghost rest = self.scheme_view().skip(i as int);
            assert(rest[0] == (self.scheme@[i as int].0@, self.scheme@[i as int].1@));
            if self.scheme[i].0 == key {
                return self.palette(self.scheme[i].1.as_str());
            }
            assert(rest.drop_first() =~= self.scheme_view().skip(i + 1));
            i += 1;
        }
        None
    }
}

impl Default for Theme {
    fn default() -> (r: Self)
        ensures
            r.palette_view() == default_palette(),
            r.scheme_view() == default_scheme(),
    {
        let mut palette: Vec<(String, Rgb)> = Vec::new();
        palette.push(("bg0".to_owned(), (0x28, 0x28, 0x28)));
        palette.push(("bg1".to_owned(), (0x32, 0x30, 0x2f)));
        palette.push(("bg2".to_owned(), (0x32, 0x30, 0x2f)));
        palette.push(("bg3".to_owned(), (0x45, 0x40, 0x3d)));
        palette.push(("bg4".to_owned(), (0x45, 0x40, 0x3d)));
        palette.push(("bg5".to_owned(), (0x5a, 0x52, 0x4c)));
        palette.push(("bg_statusline1".to_owned(), (0x32, 0x30, 0x2f)));
        palette.push(("bg_statusline2".to_owned(), (0x3a, 0x37, 0x35)));
        palette.push(("bg_statusline3".to_owned(), (0x50, 0x49, 0x45)));
        palette.push(("bg_diff_green".to_owned(), (0x34, 0x38, 0x1b)));
        palette.push(("bg_visual_green".to_owned(), (0x3b, 0x44, 0x39)));
        palette.push(("bg_diff_red".to_owned(), (0x40, 0x21, 0x20)));
        palette.push(("bg_visual_red".to_owned(), (0x4c, 0x34, 0x32)));
        palette.push(("bg_diff_blue".to_owned(), (0x0e, 0x36, 0x3e)));
        palette.push(("bg_visual_blue".to_owned(), (0x37, 0x41, 0x41)));
        palette.push(("bg_visual_yellow".to_owned(), (0x4f, 0x42, 0x2e)));
        palette.push(("bg_current_word".to_owned(), (0x3c, 0x38, 0x36)));
        palette.push(("fg0".to_owned(), (0xeb, 0xdb, 0xb2)));
        palette.push(("fg1".to_owned(), (0xeb, 0xdb, 0xb2)));
        palette.push(("red".to_owned(), (0xfb, 0x49, 0x34)));
        palette.push(("orange".to_owned(), (0xfe, 0x80, 0x19)));
        palette.push(("yellow".to_owned(), (0xfa, 0xbd, 0x2f)));
        palette.push(("green".to_owned(), (0xb8, 0xbb, 0x26)));
        palette.push(("aqua".to_owned(), (0x8e, 0xc0, 0x7c)));
        palette.push(("blue".to_owned(), (0x83, 0xa5, 0x98)));
        palette.push(("purple".to_owned(), (0xd3, 0x86, 0x9b)));
        palette.push(("bg_red".to_owned(), (0xcc, 0x24, 0x1d)));
        palette.push(("bg_green".to_owned(), (0xb8, 0xbb, 0x26)));
        palette.push(("bg_yellow".to_owned(), (0xfa, 0xbd, 0x2f)));
        palette.push(("grey0".to_owned(), (0x7c, 0x6f, 0x64)));
        palette.push(("grey1".to_owned(), (0x92, 0x83, 0x74)));
        palette.push(("grey2".to_owned(), (0xa8, 0x99, 0x84)));
        let mut scheme: Vec<(String, String)> = Vec::new();
        scheme.push(("type".to_owned(), "yellow".to_owned()));
        scheme.push(("constant".to_owned(), "purple".to_owned()));
        scheme.push(("constant.numeric".to_owned(), "purple".to_owned()));
        scheme.push(("constant.character.escape".to_owned(), "orange".to_owned()));
        scheme.push(("string".to_owned(), "green".to_owned()));
        scheme.push(("string.regexp".to_owned(), "blue".to_owned()));
        scheme.push(("comment".to_owned(), "grey0".to_owned()));
        scheme.push(("variable".to_owned(), "fg0".to_owned()));
        scheme.push(("variable.builtin".to_owned(), "blue".to_owned()));
        scheme.push(("variable.parameter".to_owned(), "fg0".to_owned()));
        scheme.push(("variable.other.member".to_owned(), "fg0".to_owned()));
        scheme.push(("label".to_owned(), "aqua".to_owned()));
        scheme.push(("punctuation".to_owned(), "grey2".to_owned()));
        scheme.push(("punctuation.delimiter".to_owned(), "grey2".to_owned()));
        scheme.push(("punctuation.bracket".to_owned(), "fg0".to_owned()));
        scheme.push(("keyword".to_owned(), "red".to_owned()));
        scheme.push(("keyword.directive".to_owned(), "aqua".to_owned()));
        scheme.push(("operator".to_owned(), "orange".to_owned()));
        scheme.push(("function".to_owned(), "green".to_owned()));
        scheme.push(("function.builtin".to_owned(), "blue".to_owned()));
        scheme.push(("function.macro".to_owned(), "aqua".to_owned()));
        scheme.push(("tag".to_owned(), "yellow".to_owned()));
        scheme.push(("namespace".to_owned(), "aqua".to_owned()));
        scheme.push(("attribute".to_owned(), "aqua".to_owned()));
        scheme.push(("constructor".to_owned(), "yellow".to_owned()));
        scheme.push(("module".to_owned(), "blue".to_owned()));
        scheme.push(("special".to_owned(), "orange".to_owned()));
        let r = Theme { palette, scheme };
        assert(r.palette_view() =~= default_palette());
        assert(r.scheme_view() =~= default_scheme());
        r
    }
}

} // verus!
