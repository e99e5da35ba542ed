//! The visual style of a component, and text colors.
use vstd::prelude::*;
use crate::chars::{chars_of, eq_lit, hex2, hex_upper, push_hex2};

verus! {

/// A named text color or an arbitrary RGB one.
#[derive(Debug, Clone, Copy, PartialEq, Eq, Hash)]
pub enum Color {
    Aqua,
    Black,
    Blue,
    DarkAqua,
    DarkBlue,
    DarkGray,
    DarkGreen,
    DarkPurple,
    DarkRed,
    Gold,
    Gray,
    Green,
    LightPurple,
    Red,
    White,
    Yellow,
    Rgb(u8, u8, u8),
}

/// The visual style of a component, each field unset unless given.
#[derive(Debug, Clone, PartialEq, Eq, Hash)]
pub struct Format {
    pub color: Option<Color>,
    pub font: Option<String>,
    pub bold: Option<bool>,
    pub italic: Option<bool>,
    pub underlined: Option<bool>,
    pub strikethrough: Option<bool>,
    pub obfuscated: Option<bool>,
    pub shadow_color: Option<i32>,
}

/// The format with nothing set.
pub open spec fn format_none() -> Format {
    Format {
        color: None,
        font: None,
        bold: None,
        italic: None,
        underlined: None,
        strikethrough: None,
        obfuscated: None,
        shadow_color: None,
    }
}

/// The first of two options that is set.
pub open spec fn or_else<T>(a: Option<T>, b: Option<T>) -> Option<T> {
    if a is Some { a } else { b }
}

/// `a` layered over `b`: each field of `a` that is set wins.
pub open spec fn mix_spec(a: Format, b: Format) -> Format {
    Format {
        color: or_else(a.color, b.color),
        font: or_else(a.font, b.font),
        bold: or_else(a.bold, b.bold),
        italic: or_else(a.italic, b.italic),
        underlined: or_else(a.underlined, b.underlined),
        strikethrough: or_else(a.strikethrough, b.strikethrough),
        obfuscated: or_else(a.obfuscated, b.obfuscated),
        shadow_color: or_else(a.shadow_color, b.shadow_color),
    }
}

/// The packed ARGB value the codec stores for a shadow.
pub open spec fn shadow_argb(a: u8, r: u8, g: u8, b: u8) -> i32 {
    (a as int * 0x1000000 + r as int * 0x10000 + g as int * 0x100 + b as int) as i32
}

impl Default for Format {
    fn default() -> (r: Format)
        ensures
            r == format_none(),
    {
        Format::new()
    }
}

impl Format {
    /// Creates a format with nothing set.
    pub fn new() -> (r: Format)
        ensures
            r == format_none(),
    {
        Format {
            color: None,
            font: None,
            bold: None,
            italic: None,
            underlined: None,
            strikethrough: None,
            obfuscated: None,
            shadow_color: None,
        }
    }

    /// Whether nothing is set.
    pub fn is_none(&self) -> (r: bool)
        ensures
            r == (*self == format_none()),
    {
        self.color.is_none() && self.font.is_none() && self.bold.is_none() && self.italic.is_none()
            && self.underlined.is_none() && self.strikethrough.is_none()
            && self.obfuscated.is_none() && self.shadow_color.is_none()
    }

    /// Sets the color.
    pub fn color(self, color: Color) -> (r: Format)
        ensures
            r == (Format { color: Some(color), ..self }),
    {
        Format { color: Some(color), ..self }
    }

    /// Sets the color from a `#RRGGBB` string, left unchanged when it does not parse.
    pub fn color_hex(self, color: &str) -> (r: Format)
        ensures
            r == (match from_hex_spec(color@) {
                Some(c) => Format { color: Some(c), ..self },
                None => self,
            }),
    {
        match Color::from_hex(color) {
            Some(c) => Format { color: Some(c), ..self },
            None => self,
        }
    }

    /// Sets the font.
    pub fn font(self, font: String) -> (r: Format)
        ensures
            r == (Format { font: Some(font), ..self }),
    {
        Format { font: Some(font), ..self }
    }

    /// Sets bold.
    pub fn bold(self, value: bool) -> (r: Format)
        ensures
            r == (Format { bold: Some(value), ..self }),
    {
        Format { bold: Some(value), ..self }
    }

    /// Sets italic.
    pub fn italic(self, value: bool) -> (r: Format)
        ensures
            r == (Format { italic: Some(value), ..self }),
    {
        Format { italic: Some(value), ..self }
    }

    /// Sets underlined.
    pub fn underlined(self, value: bool) -> (r: Format)
        ensures
            r == (Format { underlined: Some(value), ..self }),
    {
        Format { underlined: Some(value), ..self }
    }

    /// Sets strikethrough.
    pub fn strikethrough(self, value: bool) -> (r: Format)
        ensures
            r == (Format { strikethrough: Some(value), ..self }),
    {
        Format { strikethrough: Some(value), ..self }
    }

    /// Sets obfuscated.
    pub fn obfuscated(self, value: bool) -> (r: Format)
        ensures
            r == (Format { obfuscated: Some(value), ..self }),
    {
        Format { obfuscated: Some(value), ..self }
    }

    /// Sets the text shadow from its alpha, red, green, and blue channels.
    pub fn shadow_color(self, a: u8, r: u8, g: u8, b: u8) -> (res: Format)
        ensures
            res == (Format { shadow_color: Some(shadow_argb(a, r, g, b)), ..self }),
    {
        Format { shadow_color: Some(Self::parse_shadow_color(a, r, g, b)), ..self }
    }

    /// Packs alpha, red, green and blue as the codec stores a shadow.
    pub fn parse_shadow_color(a: u8, r: u8, g: u8, b: u8) -> (res: i32)
        ensures
            res == shadow_argb(a, r, g, b),
    {
        assert(((a as u32) << 24u32) + ((r as u32) << 16u32) + ((g as u32) << 8u32) + (b as u32) <= 0xFFFF_FFFF) by (bit_vector);
        let v: u32 = ((a as u32) << 24u32) + ((r as u32) << 16u32) + ((g as u32) << 8u32) + (b as u32);
        assert(((a as u32) << 24u32) == a as int * 0x1000000) by (bit_vector);
        assert(((r as u32) << 16u32) == r as int * 0x10000) by (bit_vector);
        assert(((g as u32) << 8u32) == g as int * 0x100) by (bit_vector);
        v as i32
    }

    /// Puts in place the format a `reset` tag stands for.
    pub fn reset_in_place(&mut self)
        ensures
            final(self).color == Some(Color::White),
            final(self).font matches Some(f) && f@ == "minecraft:default"@,
            final(self).bold == Some(false),
            final(self).italic == Some(false),
            final(self).underlined == Some(false),
            final(self).strikethrough == Some(false),
            final(self).obfuscated == Some(false),
            final(self).shadow_color is None,
    {
        self.color = Some(Color::White);
        self.font = Some("minecraft:default".to_owned());
        self.bold = Some(false);
        self.italic = Some(false);
        self.underlined = Some(false);
        self.strikethrough = Some(false);
        self.obfuscated = Some(false);
        self.shadow_color = None;
    }

    /// This format with `other` filling in each field this one leaves unset.
    pub fn mix(&self, other: &Format) -> (r: Format)
        ensures
            r == mix_spec(*self, *other),
    {
        Format {
            color: if self.color.is_some() { self.color } else { other.color },
            font: if self.font.is_some() { self.font.clone() } else { other.font.clone() },
            bold: if self.bold.is_some() { self.bold } else { other.bold },
            italic: if self.italic.is_some() { self.italic } else { other.italic },
            underlined: if self.underlined.is_some() { self.underlined } else { other.underlined },
            strikethrough: if self.strikethrough.is_some() {
                self.strikethrough
            } else {
                other.strikethrough
            },
            obfuscated: if self.obfuscated.is_some() { self.obfuscated } else { other.obfuscated },
            shadow_color: if self.shadow_color.is_some() {
                self.shadow_color
            } else {
                other.shadow_color
            },
        }
    }
}

/// Mixing with the empty format on either side changes nothing.
pub proof fn lemma_mix_identity(f: Format)
    ensures
        mix_spec(format_none(), f) == f,
        mix_spec(f, format_none()) == f,
{
}

/// Mixing is associative: layering `a` over `b` and then over `c` is layering `a` over
/// `b` already layered over `c`.
pub proof fn lemma_mix_associative(a: Format, b: Format, c: Format)
    ensures
        mix_spec(mix_spec(a, b), c) == mix_spec(a, mix_spec(b, c)),
{
}

/// Mixing a format with itself gives it back.
pub proof fn lemma_mix_idempotent(f: Format)
    ensures
        mix_spec(f, f) == f,
{
}

/// The codec name of a color: its snake-case name, or `#RRGGBB` in uppercase hex.
pub open spec fn codec_name_spec(c: Color) -> Seq<char> {
    match c {
        Color::Black => "black"@,
        Color::DarkBlue => "dark_blue"@,
        Color::DarkGreen => "dark_green"@,
        Color::DarkAqua => "dark_aqua"@,
        Color::DarkRed => "dark_red"@,
        Color::DarkPurple => "dark_purple"@,
        Color::Gold => "gold"@,
        Color::Gray => "gray"@,
        Color::DarkGray => "dark_gray"@,
        Color::Blue => "blue"@,
        Color::Green => "green"@,
        Color::Aqua => "aqua"@,
        Color::Red => "red"@,
        Color::LightPurple => "light_purple"@,
        Color::Yellow => "yellow"@,
        Color::White => "white"@,
        Color::Rgb(r, g, b) => seq!['#'] + hex2(r) + hex2(g) + hex2(b),
    }
}

/// The named color a codec name refers to.
pub open spec fn from_codec_name_spec(n: Seq<char>) -> Option<Color> {
    if n == "black"@ { Some(Color::Black) }
    else if n == "dark_blue"@ { Some(Color::DarkBlue) }
    else if n == "dark_green"@ { Some(Color::DarkGreen) }
    else if n == "dark_aqua"@ { Some(Color::DarkAqua) }
    else if n == "dark_red"@ { Some(Color::DarkRed) }
    else if n == "dark_purple"@ { Some(Color::DarkPurple) }
    else if n == "gold"@ { Some(Color::Gold) }
    else if n == "gray"@ { Some(Color::Gray) }
    else if n == "dark_gray"@ { Some(Color::DarkGray) }
    else if n == "blue"@ { Some(Color::Blue) }
    else if n == "green"@ { Some(Color::Green) }
    else if n == "aqua"@ { Some(Color::Aqua) }
    else if n == "red"@ { Some(Color::Red) }
    else if n == "light_purple"@ { Some(Color::LightPurple) }
    else if n == "yellow"@ { Some(Color::Yellow) }
    else if n == "white"@ { Some(Color::White) }
    else { None }
}

/// A named color's codec name reads back as that color.
pub proof fn lemma_codec_name_round_trip(c: Color)
    requires
        !(c is Rgb),
    ensures
        from_codec_name_spec(codec_name_spec(c)) == Some(c),
{
    reveal_strlit("black");
    reveal_strlit("dark_blue");
    reveal_strlit("dark_green");
    reveal_strlit("dark_aqua");
    reveal_strlit("dark_red");
    reveal_strlit("dark_purple");
    reveal_strlit("gold");
    reveal_strlit("gray");
    reveal_strlit("dark_gray");
    reveal_strlit("blue");
    reveal_strlit("green");
    reveal_strlit("aqua");
    reveal_strlit("red");
    reveal_strlit("light_purple");
    reveal_strlit("yellow");
    reveal_strlit("white");
    assert("black"@.len() == 5);
    assert("dark_blue"@.len() == 9);
    assert("dark_green"@.len() == 10);
    assert("dark_aqua"@.len() == 9);
    assert("dark_red"@.len() == 8);
    assert("dark_purple"@.len() == 11);
    assert("gold"@.len() == 4);
    assert("gray"@.len() == 4);
    assert("dark_gray"@.len() == 9);
    assert("blue"@.len() == 4);
    assert("green"@.len() == 5);
    assert("aqua"@.len() == 4);
    assert("red"@.len() == 3);
    assert("light_purple"@.len() == 12);
    assert("yellow"@.len() == 6);
    assert("white"@.len() == 5);
    assert("black"@[0] != "green"@[0]);
    assert("black"@[0] != "white"@[0]);
    assert("dark_blue"@[5] != "dark_aqua"@[5]);
    assert("dark_blue"@[5] != "dark_gray"@[5]);
    assert("dark_aqua"@[5] != "dark_gray"@[5]);
    assert("gold"@[1] != "gray"@[1]);
    assert("gold"@[0] != "blue"@[0]);
    assert("gold"@[0] != "aqua"@[0]);
    assert("gray"@[0] != "blue"@[0]);
    assert("gray"@[0] != "aqua"@[0]);
    assert("blue"@[0] != "aqua"@[0]);
    assert("green"@[0] != "white"@[0]);
}

/// The value of a hex digit.
pub open spec fn hex_digit_value(c: char) -> Option<nat> {
    if '0' <= c && c <= '9' {
        Some((c as nat - '0' as nat) as nat)
    } else if 'a' <= c && c <= 'f' {
        Some((c as nat - 'a' as nat + 10) as nat)
    } else if 'A' <= c && c <= 'F' {
        Some((c as nat - 'A' as nat + 10) as nat)
    } else {
        None
    }
}

/// Whether every char is a hex digit.
pub open spec fn all_hex(s: Seq<char>) -> bool {
    forall|i: int| 0 <= i < s.len() ==> (#[trigger] hex_digit_value(s[i])) is Some
}

/// The number a run of hex digits spells.
pub open spec fn hex_value(s: Seq<char>) -> nat
    decreases s.len(),
{
    if s.len() == 0 {
        0
    } else {
        hex_value(s.drop_last()) * 16 + match hex_digit_value(s.last()) {
            Some(d) => d,
            None => 0,
        }
    }
}

/// The color a `#RRGGBB` string names: `#`, an optional sign, then hex digits whose value
/// is at most `0xFFFFFF` (a `-` only in front of zero), as the game's own parser reads it.
pub open spec fn from_hex_spec(s: Seq<char>) -> Option<Color> {
    if s.len() < 2 || s[0] != '#' {
        None
    } else {
        let signed = s[1] == '-' || s[1] == '+';
        let digits = if signed { s.subrange(2, s.len() as int) } else { s.subrange(1, s.len() as int) };
        let v = hex_value(digits);
        if digits.len() == 0 || !all_hex(digits) || v > 0xFFFFFF || (s[1] == '-' && v != 0) {
            None
        } else {
            Some(Color::Rgb((v / 0x10000) as u8, ((v / 0x100) % 0x100) as u8, (v % 0x100) as u8))
        }
    }
}

pub proof fn lemma_hex_value_prefix(s: Seq<char>, k: int)
    requires
        0 <= k <= s.len(),
    ensures
        hex_value(s.subrange(0, k)) <= hex_value(s),
    decreases s.len() - k,
{
    if k < s.len() {
        lemma_hex_value_prefix(s, k + 1);
        assert(s.subrange(0, k + 1).drop_last() =~= s.subrange(0, k));
    } else {
        assert(s.subrange(0, k) =~= s);
    }
}

pub(crate) fn hex_digit(c: char) -> (r: Option<u32>)
    ensures
        match hex_digit_value(c) {
            Some(d) => r == Some(d as u32),
            None => r is None,
        },
{
    if '0' <= c && c <= '9' {
        Some((c as u32) - ('0' as u32))
    } else if 'a' <= c && c <= 'f' {
        Some((c as u32) - ('a' as u32) + 10)
    } else if 'A' <= c && c <= 'F' {
        Some((c as u32) - ('A' as u32) + 10)
    } else {
        None
    }
}

impl Color {
    /// The name this color serializes to in the component codec.
    pub fn codec_name(&self) -> (r: String)
        ensures
            r@ == codec_name_spec(*self),
    {
        match self {
            Color::Black => "black".to_owned(),
            Color::DarkBlue => "dark_blue".to_owned(),
            Color::DarkGreen => "dark_green".to_owned(),
            Color::DarkAqua => "dark_aqua".to_owned(),
            Color::DarkRed => "dark_red".to_owned(),
            Color::DarkPurple => "dark_purple".to_owned(),
            Color::Gold => "gold".to_owned(),
            Color::Gray => "gray".to_owned(),
            Color::DarkGray => "dark_gray".to_owned(),
            Color::Blue => "blue".to_owned(),
            Color::Green => "green".to_owned(),
            Color::Aqua => "aqua".to_owned(),
            Color::Red => "red".to_owned(),
            Color::LightPurple => "light_purple".to_owned(),
            Color::Yellow => "yellow".to_owned(),
            Color::White => "white".to_owned(),
            Color::Rgb(r, g, b) => {
                let mut s = String::new();
                s.push('#');
                push_hex2(&mut s, *r);
                push_hex2(&mut s, *g);
                push_hex2(&mut s, *b);
                assert(s@ =~= seq!['#'] + hex2(*r) + hex2(*g) + hex2(*b));
                s
            },
        }
    }

    /// The named color a codec name refers to.
    pub fn from_codec_name(name: &str) -> (r: Option<Color>)
        ensures
            r == from_codec_name_spec(name@),
    {
        let n = chars_of(name);
        let n = n.as_slice();
        if eq_lit(n, "black") { Some(Color::Black) }
        else if eq_lit(n, "dark_blue") { Some(Color::DarkBlue) }
        else if eq_lit(n, "dark_green") { Some(Color::DarkGreen) }
        else if eq_lit(n, "dark_aqua") { Some(Color::DarkAqua) }
        else if eq_lit(n, "dark_red") { Some(Color::DarkRed) }
        else if eq_lit(n, "dark_purple") { Some(Color::DarkPurple) }
        else if eq_lit(n, "gold") { Some(Color::Gold) }
        else if eq_lit(n, "gray") { Some(Color::Gray) }
        else if eq_lit(n, "dark_gray") { Some(Color::DarkGray) }
        else if eq_lit(n, "blue") { Some(Color::Blue) }
        else if eq_lit(n, "green") { Some(Color::Green) }
        else if eq_lit(n, "aqua") { Some(Color::Aqua) }
        else if eq_lit(n, "red") { Some(Color::Red) }
        else if eq_lit(n, "light_purple") { Some(Color::LightPurple) }
        else if eq_lit(n, "yellow") { Some(Color::Yellow) }
        else if eq_lit(n, "white") { Some(Color::White) }
        else { None }
    }

    /// The color a `#RRGGBB` string names, `None` when it does not parse.
    pub fn from_hex(color: &str) -> (r: Option<Color>)
        ensures
            r == from_hex_spec(color@),
    {
        let s = chars_of(color);
        if s.len() < 2 || s[0] != '#' {
            return None;
        }
        let negative = s[1] == '-';
        let start: usize = if s[1] == '-' || s[1] == '+' { 2 } else { 1 };
        let ghost digits = s@.subrange(start as int, s@.len() as int);
        assert(digits == (if s@[1] == '-' || s@[1] == '+' {
            s@.subrange(2, s@.len() as int)
        } else {
            s@.subrange(1, s@.len() as int)
        }));
        if start == s.len() {
            return None;
        }
        let mut value: u32 = 0;
        let mut i: usize = start;
        while i < s.len()
            invariant
                start <= i <= s@.len(),
                s@ == color@,
                s@.len() >= 2,
                s@[0] == '#',
                digits == s@.subrange(start as int, s@.len() as int),
                digits == (if s@[1] == '-' || s@[1] == '+' {
                    s@.subrange(2, s@.len() as int)
                } else {
                    s@.subrange(1, s@.len() as int)
                }),
                value <= 0xFFFFFF,
                value == hex_value(digits.subrange(0, i - start)),
                all_hex(digits.subrange(0, i - start)),
            decreases s@.len() - i,
        {
            let d = match hex_digit(s[i]) {
                Some(d) => d,
                None => {
                    assert(hex_digit_value(digits[i - start]) is None);
                    assert(!all_hex(digits));
                    return None;
                },
            };
            proof {
                assert(digits.subrange(0, i - start + 1).drop_last() =~= digits.subrange(0, i - start));
                assert(digits.subrange(0, i - start + 1).last() == s@[i as int]);
            }
            value = value * 16 + d;
            assert(hex_value(digits.subrange(0, i - start + 1)) == value);
            assert(all_hex(digits.subrange(0, i - start + 1))) by {
                assert forall|k: int| 0 <= k < i - start + 1 implies (#[trigger] hex_digit_value(
                    digits.subrange(0, i - start + 1)[k],
                )) is Some by {
                    if k < i - start {
                        assert(digits.subrange(0, i - start + 1)[k] == digits.subrange(0, i - start)[k]);
                    }
                }
            }
            if value > 0xFFFFFF {
                proof {
                    lemma_hex_value_prefix(digits, i - start + 1);
                }
                assert(hex_value(digits) > 0xFFFFFF);
                return None;
            }
            i = i + 1;
        }
        assert(digits.subrange(0, digits.len() as int) =~= digits);
        if negative && value != 0 {
            return None;
        }
        let r = (value >> 16u32) as u8;
        let g = (value >> 8u32) as u8;
        let b = value as u8;
        assert(value >> 16u32 == value / 0x10000) by (bit_vector);
        assert((value >> 8u32) as u8 == (value / 0x100) % 0x100) by (bit_vector);
        assert(value as u8 == value % 0x100) by (bit_vector);
        Some(Color::Rgb(r, g, b))
    }
}

} // verus!

verus! {

proof fn lemma_hex_upper(d: int)
    requires
        0 <= d < 16,
    ensures
        hex_digit_value(hex_upper(d)) == Some(d as nat),
{
}

/// A name that denotes a color is that color's codec name.
pub proof fn lemma_from_codec_name_inverse(n: Seq<char>)
    requires
        from_codec_name_spec(n) is Some,
    ensures
        codec_name_spec(from_codec_name_spec(n)->0) == n,
{
}

/// The `#RRGGBB` codec name of an RGB color: `#`, then six hex digits worth the color.
pub proof fn lemma_rgb_name(r: u8, g: u8, b: u8)
    ensures
        ({
            let s = codec_name_spec(Color::Rgb(r, g, b));
            let v = hex_value(s.subrange(1, 7));
            &&& s.len() == 7
            &&& s[0] == '#'
            &&& s[1] != '+' && s[1] != '-'
            &&& all_hex(s.subrange(1, 7))
            &&& v <= 0xFF_FFFF
            &&& v / 0x1_0000 == r as int
            &&& (v / 0x100) % 0x100 == g as int
            &&& v % 0x100 == b as int
        }),
{
    let s = codec_name_spec(Color::Rgb(r, g, b));
    let d1 = r as int / 16;
    let d2 = r as int % 16;
    let d3 = g as int / 16;
    let d4 = g as int % 16;
    let d5 = b as int / 16;
    let d6 = b as int % 16;
    lemma_hex_upper(d1);
    lemma_hex_upper(d2);
    lemma_hex_upper(d3);
    lemma_hex_upper(d4);
    lemma_hex_upper(d5);
    lemma_hex_upper(d6);
    let digits = s.subrange(1, 7);
    assert(digits =~= seq![hex_upper(d1), hex_upper(d2), hex_upper(d3), hex_upper(d4), hex_upper(d5), hex_upper(d6)]);
    assert(s[1] == hex_upper(d1));
    assert(all_hex(digits));
    reveal_with_fuel(hex_value, 7);
    assert(digits.drop_last() =~= digits.subrange(0, 5));
    assert(digits.subrange(0, 5).drop_last() =~= digits.subrange(0, 4));
    assert(digits.subrange(0, 4).drop_last() =~= digits.subrange(0, 3));
    assert(digits.subrange(0, 3).drop_last() =~= digits.subrange(0, 2));
    assert(digits.subrange(0, 2).drop_last() =~= digits.subrange(0, 1));
    assert(digits.subrange(0, 1).drop_last() =~= Seq::<char>::empty());
    let v = hex_value(digits);
    assert(v == ((((d1 * 16 + d2) * 16 + d3) * 16 + d4) * 16 + d5) * 16 + d6);
    assert(v == r as int * 0x10000 + g as int * 0x100 + b as int) by (nonlinear_arith)
        requires
            v == ((((d1 * 16 + d2) * 16 + d3) * 16 + d4) * 16 + d5) * 16 + d6,
            d1 * 16 + d2 == r as int,
            d3 * 16 + d4 == g as int,
            d5 * 16 + d6 == b as int,
    ;
    assert(v / 0x10000 == r as int) by (nonlinear_arith)
        requires
            v == r as int * 0x10000 + g as int * 0x100 + b as int,
            0 <= g < 256,
            0 <= b < 256,
    ;
    assert((v / 0x100) % 0x100 == g as int) by (nonlinear_arith)
        requires
            v == r as int * 0x10000 + g as int * 0x100 + b as int,
            0 <= g < 256,
            0 <= b < 256,
    ;
    assert(v % 0x100 == b as int) by (nonlinear_arith)
        requires
            v == r as int * 0x10000 + g as int * 0x100 + b as int,
            0 <= b < 256,
    ;
}

/// The `#RRGGBB` codec name of an RGB color parses back to the same color.
pub proof fn lemma_hex_round_trip(r: u8, g: u8, b: u8)
    ensures
        from_hex_spec(codec_name_spec(Color::Rgb(r, g, b))) == Some(Color::Rgb(r, g, b)),
{
    let s = codec_name_spec(Color::Rgb(r, g, b));
    let d1 = r as int / 16;
    let d2 = r as int % 16;
    let d3 = g as int / 16;
    let d4 = g as int % 16;
    let d5 = b as int / 16;
    let d6 = b as int % 16;
    lemma_hex_upper(d1);
    lemma_hex_upper(d2);
    lemma_hex_upper(d3);
    lemma_hex_upper(d4);
    lemma_hex_upper(d5);
    lemma_hex_upper(d6);
    let digits = s.subrange(1, 7);
    assert(digits =~= seq![hex_upper(d1), hex_upper(d2), hex_upper(d3), hex_upper(d4), hex_upper(d5), hex_upper(d6)]);
    assert(s[1] == hex_upper(d1));
    assert(s[1] != '-' && s[1] != '+');
    assert(all_hex(digits));
    reveal_with_fuel(hex_value, 7);
    assert(digits.drop_last() =~= digits.subrange(0, 5));
    assert(digits.subrange(0, 5).drop_last() =~= digits.subrange(0, 4));
    assert(digits.subrange(0, 4).drop_last() =~= digits.subrange(0, 3));
    assert(digits.subrange(0, 3).drop_last() =~= digits.subrange(0, 2));
    assert(digits.subrange(0, 2).drop_last() =~= digits.subrange(0, 1));
    assert(digits.subrange(0, 1).drop_last() =~= Seq::<char>::empty());
    let v = hex_value(digits);
    assert(v == ((((d1 * 16 + d2) * 16 + d3) * 16 + d4) * 16 + d5) * 16 + d6);
    assert(v == r as int * 0x10000 + g as int * 0x100 + b as int) by (nonlinear_arith)
        requires
            v == ((((d1 * 16 + d2) * 16 + d3) * 16 + d4) * 16 + d5) * 16 + d6,
            d1 * 16 + d2 == r as int,
            d3 * 16 + d4 == g as int,
            d5 * 16 + d6 == b as int,
    ;
    assert(v / 0x10000 == r as int) by (nonlinear_arith)
        requires
            v == r as int * 0x10000 + g as int * 0x100 + b as int,
            0 <= g < 256,
            0 <= b < 256,
    ;
    assert((v / 0x100) % 0x100 == g as int) by (nonlinear_arith)
        requires
            v == r as int * 0x10000 + g as int * 0x100 + b as int,
            0 <= g < 256,
            0 <= b < 256,
    ;
    assert(v % 0x100 == b as int) by (nonlinear_arith)
        requires
            v == r as int * 0x10000 + g as int * 0x100 + b as int,
            0 <= b < 256,
    ;
}

} // verus!
