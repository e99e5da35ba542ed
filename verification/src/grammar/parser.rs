//! The MiniMessage parser: template text to pieces, with errors that point at the source.
use vstd::prelude::*;
use crate::chars::{chars_of, eq_lit, lower_ascii, lower_spec, push_chars, slice_chars, string_of, starts_with_lit};
use crate::format::{all_hex, hex_digit_value, hex_value, shadow_argb, Format};
use crate::grammar::error::{suggest, utf8_len, utf8_length, ParseError};
use crate::grammar::gradient::{apply_gradient, GradMark};
use crate::grammar::ir::{
    empty_style, BoolIr, ClickIr, ClickKind, ColorIr, HoleArg, HoleKind, HoverIr, LangKey, Piece, StrSeg,
    Style, StyleV, Template,
};
use crate::grammar::tags::{
    alias_row, all_tag_names, canonical_row, canonical_tag, canonical_tag_spec, find_alias, find_canonical,
    COLOR_HELP, NAMED_COLORS,
    SUPPORTED_SUMMARY,
};

verus! {

/// Where a template comes from, which decides what its holes may look like.
#[derive(Debug, Clone, Copy, PartialEq, Eq)]
pub enum Mode {
    /// Macro templates: positional holes and format specs allowed.
    Macro,
    /// Config-file templates: named holes only, no specs.
    Runtime,
}

impl Mode {
    fn is_macro(self) -> (r: bool)
        ensures
            r == (self is Macro),
    {
        match self {
            Mode::Macro => true,
            Mode::Runtime => false,
        }
    }
}

/// One `:`-separated argument of a tag, unquoted and unescaped, with its source range.
pub struct TagArg {
    pub text: Vec<char>,
    pub range: (usize, usize),
}

/// An argument whose text fits inside its range, and the range inside `[lo, hi]`.
pub open spec fn arg_within(a: TagArg, lo: int, hi: int) -> bool {
    lo <= a.range.0 && a.range.0 + a.text@.len() <= a.range.1 <= hi
}

/// The name a runtime-decided identifier check gives: whether `c` may start an identifier.
pub uninterp spec fn xid_start(c: char) -> bool;

/// The name a runtime-decided identifier check gives: whether `c` may continue an identifier.
pub uninterp spec fn xid_continue(c: char) -> bool;

/// `unicode_ident::is_xid_start`: whether the char has the Unicode XID_Start property.
/// Its result depends on the char alone, so it is named, not restated.
#[verifier::external_body]
fn is_xid_start(c: char) -> (r: bool)
    ensures
        r == xid_start(c),
{
    unicode_ident::is_xid_start(c)
}

/// `unicode_ident::is_xid_continue`: whether the char has the Unicode XID_Continue property.
/// Its result depends on the char alone, so it is named, not restated.
#[verifier::external_body]
fn is_xid_continue(c: char) -> (r: bool)
    ensures
        r == xid_continue(c),
{
    unicode_ident::is_xid_continue(c)
}

/// Rust's identifier rule: an XID_Start char or `_` then XID_Continue chars; `_` alone is not one.
pub open spec fn is_ident_spec(s: Seq<char>) -> bool {
    &&& s.len() > 0
    &&& if s[0] == '_' { s.len() > 1 } else { xid_start(s[0]) }
    &&& forall|i: int| 1 <= i < s.len() ==> xid_continue(#[trigger] s[i])
}

/// Whether a name is a Rust identifier (hole names become variables in the macros).
pub fn is_ident(name: &[char]) -> (r: bool)
    ensures
        r == is_ident_spec(name@),
{
    if name.len() == 0 {
        return false;
    }
    if name[0] == '_' {
        if name.len() == 1 {
            return false;
        }
    } else if !is_xid_start(name[0]) {
        return false;
    }
    let mut i: usize = 1;
    while i < name.len()
        invariant
            1 <= i <= name@.len(),
            forall|k: int| 1 <= k < i ==> xid_continue(#[trigger] name@[k]),
        decreases name@.len() - i,
    {
        if !is_xid_continue(name[i]) {
            return false;
        }
        i = i + 1;
    }
    true
}

/// `{…}` spanning the whole text.
pub open spec fn is_hole_spec(s: Seq<char>) -> bool {
    s.len() >= 2 && s[0] == '{' && s[s.len() - 1] == '}'
}

/// Whether a tag argument is a whole `{…}` hole.
pub fn is_hole(text: &[char]) -> (r: bool)
    ensures
        r == is_hole_spec(text@),
{
    text.len() >= 2 && text[0] == '{' && text[text.len() - 1] == '}'
}

/// The Unicode `White_Space` chars, as `char::is_whitespace` documents them.
pub open spec fn is_whitespace_spec(c: char) -> bool {
    ||| ('\u{9}' <= c && c <= '\u{d}')
    ||| c == ' '
    ||| c == '\u{85}'
    ||| c == '\u{a0}'
    ||| c == '\u{1680}'
    ||| ('\u{2000}' <= c && c <= '\u{200a}')
    ||| c == '\u{2028}'
    ||| c == '\u{2029}'
    ||| c == '\u{202f}'
    ||| c == '\u{205f}'
    ||| c == '\u{3000}'
}

pub(crate) fn is_whitespace(c: char) -> (r: bool)
    ensures
        r == is_whitespace_spec(c),
{
    ('\u{9}' <= c && c <= '\u{d}') || c == ' ' || c == '\u{85}' || c == '\u{a0}' || c == '\u{1680}'
        || ('\u{2000}' <= c && c <= '\u{200a}') || c == '\u{2028}' || c == '\u{2029}'
        || c == '\u{202f}' || c == '\u{205f}' || c == '\u{3000}'
}

/// The text with leading and trailing whitespace removed.
fn trim(s: &[char]) -> (r: Vec<char>)
    ensures
        exists|a: int, b: int|
            0 <= a <= b <= s@.len() && r@ == s@.subrange(a, b)
                && (forall|k: int| 0 <= k < a ==> is_whitespace_spec(#[trigger] s@[k]))
                && (forall|k: int| b <= k < s@.len() ==> is_whitespace_spec(#[trigger] s@[k]))
                && (a < b ==> !is_whitespace_spec(s@[a]) && !is_whitespace_spec(s@[b - 1])),
{
    let mut a: usize = 0;
    while a < s.len() && is_whitespace(s[a])
        invariant
            a <= s@.len(),
            forall|k: int| 0 <= k < a ==> is_whitespace_spec(#[trigger] s@[k]),
        decreases s@.len() - a,
    {
        a = a + 1;
    }
    let mut b: usize = s.len();
    while b > a && is_whitespace(s[b - 1])
        invariant
            a <= b <= s@.len(),
            forall|k: int| b <= k < s@.len() ==> is_whitespace_spec(#[trigger] s@[k]),
        decreases b,
    {
        b = b - 1;
    }
    slice_chars(s, a, b)
}

/// `a`, then `mid`, then `b`.
fn text3(a: &str, mid: &[char], b: &str) -> (r: String)
    ensures
        r@ == a@ + mid@ + b@,
{
    let mut s = a.to_owned();
    push_chars(&mut s, mid);
    s.push_str(b);
    s
}

fn err(range: (usize, usize), message: String, help: String) -> (r: ParseError)
    ensures
        r.range == range,
        r.message == message,
        r.help == Some(help),
{
    ParseError::new(range, message).help(help)
}

/// The value of a run of decimal digits.
pub open spec fn dec_value(s: Seq<char>) -> int
    decreases s.len(),
{
    if s.len() == 0 {
        0
    } else {
        dec_value(s.drop_last()) * 10 + (s.last() as int - '0' as int)
    }
}

/// Whether every char is an ASCII digit.
pub open spec fn all_digits_spec(s: Seq<char>) -> bool {
    forall|i: int| 0 <= i < s.len() ==> '0' <= #[trigger] s[i] <= '9'
}

/// What `str::parse::<i32>` accepts: an optional sign, then one or more ASCII digits whose
/// value fits an `i32`.
pub open spec fn parse_i32_spec(s: Seq<char>) -> Option<i32> {
    let neg = s.len() > 0 && s[0] == '-';
    let signed = s.len() > 0 && (s[0] == '-' || s[0] == '+');
    let digits = if signed { s.subrange(1, s.len() as int) } else { s };
    let v = if neg { -dec_value(digits) } else { dec_value(digits) };
    if digits.len() == 0 || !all_digits_spec(digits) || v < i32::MIN || v > i32::MAX {
        None
    } else {
        Some(v as i32)
    }
}

pub proof fn lemma_dec_nonneg(s: Seq<char>)
    requires
        forall|i: int| 0 <= i < s.len() ==> '0' <= #[trigger] s[i] <= '9',
    ensures
        dec_value(s) >= 0,
    decreases s.len(),
{
    if s.len() > 0 {
        assert forall|i: int| 0 <= i < s.drop_last().len() implies '0' <= #[trigger] s.drop_last()[i] <= '9' by {
            assert(s.drop_last()[i] == s[i]);
        }
        lemma_dec_nonneg(s.drop_last());
        assert('0' <= s[s.len() - 1] <= '9');
    }
}

proof fn lemma_dec_value_prefix(s: Seq<char>, k: int)
    requires
        0 <= k <= s.len(),
        forall|i: int| 0 <= i < s.len() ==> '0' <= #[trigger] s[i] <= '9',
    ensures
        dec_value(s.subrange(0, k)) <= dec_value(s),
    decreases s.len() - k,
{
    if k < s.len() {
        lemma_dec_value_prefix(s, k + 1);
        let t = s.subrange(0, k + 1);
        assert(t.drop_last() =~= s.subrange(0, k));
        assert forall|i: int| 0 <= i < k implies '0' <= #[trigger] s.subrange(0, k)[i] <= '9' by {
            assert(s.subrange(0, k)[i] == s[i]);
        }
        lemma_dec_nonneg(s.subrange(0, k));
        assert(t.last() == s[k]);
    } else {
        assert(s.subrange(0, k) =~= s);
    }
}

/// A decimal `i32`, as `str::parse::<i32>` reads one.
pub fn parse_i32(s: &[char]) -> (r: Option<i32>)
    ensures
        r == parse_i32_spec(s@),
{
    let neg = s.len() > 0 && s[0] == '-';
    let start: usize = if s.len() > 0 && (s[0] == '-' || s[0] == '+') { 1 } else { 0 };
    let ghost digits = s@.subrange(start as int, s@.len() as int);
    assert(digits == (if s@.len() > 0 && (s@[0] == '-' || s@[0] == '+') {
        s@.subrange(1, s@.len() as int)
    } else {
        s@
    }));
    if start == s.len() {
        return None;
    }
    if !all_digits(s, start) {
        assert(!all_digits_spec(digits)) by {
            let k = choose|k: int| start <= k < s@.len() && !('0' <= #[trigger] s@[k] <= '9');
            assert(digits[k - start] == s@[k]);
        }
        return None;
    }
    assert(forall|i: int| 0 <= i < digits.len() ==> '0' <= #[trigger] digits[i] <= '9') by {
        assert forall|i: int| 0 <= i < digits.len() implies '0' <= #[trigger] digits[i] <= '9' by {
            assert(digits[i] == s@[i + start]);
        }
    }
    let mut v: i64 = 0;
    let mut i: usize = start;
    while i < s.len()
        invariant
            start <= i <= s@.len(),
            digits == s@.subrange(start as int, s@.len() as int),
            digits == (if s@.len() > 0 && (s@[0] == '-' || s@[0] == '+') {
                s@.subrange(1, s@.len() as int)
            } else {
                s@
            }),
            neg == (s@.len() > 0 && s@[0] == '-'),
            forall|k: int| 0 <= k < digits.len() ==> '0' <= #[trigger] digits[k] <= '9',
            v == dec_value(digits.subrange(0, i - start)),
            0 <= v <= 0x8000_0000,
        decreases s@.len() - i,
    {
        let c = s[i];
        assert(digits[i - start] == c);
        assert(digits.subrange(0, i - start + 1).drop_last() =~= digits.subrange(0, i - start));
        v = v * 10 + ((c as u32) - ('0' as u32)) as i64;
        if v > 0x8000_0000 {
            proof {
                lemma_dec_value_prefix(digits, i - start + 1);
            }
            assert(all_digits_spec(digits));
            assert(dec_value(digits) > 0x8000_0000);
            return None;
        }
        i = i + 1;
    }
    assert(digits.subrange(0, digits.len() as int) =~= digits);
    let r: i64 = if neg { -v } else { v };
    if r > 0x7FFF_FFFF {
        return None;
    }
    Some(r as i32)
}

/// Whether `s[from..]` is all ASCII digits.
fn all_digits(s: &[char], from: usize) -> (r: bool)
    requires
        from <= s@.len(),
    ensures
        r == (forall|k: int| from <= k < s@.len() ==> '0' <= #[trigger] s@[k] <= '9'),
{
    let mut i: usize = from;
    while i < s.len()
        invariant
            from <= i <= s@.len(),
            forall|k: int| from <= k < i ==> '0' <= #[trigger] s@[k] <= '9',
        decreases s@.len() - i,
    {
        if !('0' <= s[i] && s[i] <= '9') {
            return false;
        }
        i = i + 1;
    }
    true
}

/// The color six hex digits spell.
pub open spec fn rgb_of(v: nat) -> ColorIr {
    ColorIr::Rgb((v / 0x10000) as u8, ((v / 0x100) % 0x100) as u8, (v % 0x100) as u8)
}

/// `RRGGBB` (the part after `#`): exactly six hex digits.
pub fn parse_hex(hex: &[char], range: (usize, usize)) -> (r: Result<ColorIr, ParseError>)
    ensures
        match r {
            Ok(c) => hex@.len() == 6 && all_hex(hex@) && c == rgb_of(hex_value(hex@)),
            Err(e) => !(hex@.len() == 6 && all_hex(hex@)) && e.range == range,
        },
{
    let v = hex_number(hex);
    match v {
        Some(v) if hex.len() == 6 => {
            proof {
                lemma_hex_value_bound(hex@);
            }
            let r = (v / 0x10000) as u8;
            let g = ((v / 0x100) % 0x100) as u8;
            let b = (v % 0x100) as u8;
            Ok(ColorIr::Rgb(r, g, b))
        },
        _ => Err(err(
            range,
            text3("`#", hex, "` is not a valid hex color"),
            "hex colors are six digits: <#RRGGBB>, e.g. <#ff8800>".to_owned(),
        )),
    }
}

/// `16^n`.
pub open spec fn pow16(n: nat) -> nat
    decreases n,
{
    if n == 0 { 1 } else { 16 * pow16((n - 1) as nat) }
}

proof fn lemma_hex_value_bound(s: Seq<char>)
    requires
        all_hex(s),
    ensures
        hex_value(s) < pow16(s.len()),
    decreases s.len(),
{
    if s.len() > 0 {
        assert(all_hex(s.drop_last())) by {
            assert forall|i: int| 0 <= i < s.drop_last().len() implies (#[trigger] hex_digit_value(s.drop_last()[i])) is Some by {
                assert(s.drop_last()[i] == s[i]);
            }
        }
        lemma_hex_value_bound(s.drop_last());
        assert(hex_digit_value(s[s.len() - 1]) is Some);
    }
}

/// The value of up to eight hex digits, `None` when a char is not one or there are more.
fn hex_number(hex: &[char]) -> (r: Option<u64>)
    ensures
        match r {
            Some(v) => hex@.len() <= 8 && all_hex(hex@) && v == hex_value(hex@),
            None => !(hex@.len() <= 8 && all_hex(hex@)),
        },
{
    if hex.len() > 8 {
        return None;
    }
    let mut v: u64 = 0;
    let mut i: usize = 0;
    while i < hex.len()
        invariant
            i <= hex@.len() <= 8,
            v == hex_value(hex@.subrange(0, i as int)),
            v < pow16(i as nat),
            all_hex(hex@.subrange(0, i as int)),
        decreases hex@.len() - i,
    {
        let c = hex[i];
        let d: u64 = if '0' <= c && c <= '9' {
            ((c as u32) - ('0' as u32)) as u64
        } else if 'a' <= c && c <= 'f' {
            ((c as u32) - ('a' as u32) + 10) as u64
        } else if 'A' <= c && c <= 'F' {
            ((c as u32) - ('A' as u32) + 10) as u64
        } else {
            assert(hex_digit_value(hex@[i as int]) is None);
            return None;
        };
        assert(hex@.subrange(0, i + 1).drop_last() =~= hex@.subrange(0, i as int));
        assert(pow16(i as nat) <= pow16(7)) by {
            lemma_pow16_mono(i as nat, 7);
        }
        assert(pow16(7) == 0x1000_0000) by {
            reveal_with_fuel(pow16, 8);
        }
        v = v * 16 + d;
        assert(all_hex(hex@.subrange(0, i + 1))) by {
            assert forall|k: int| 0 <= k < i + 1 implies (#[trigger] hex_digit_value(hex@.subrange(0, i + 1)[k])) is Some by {
                if k < i {
                    assert(hex@.subrange(0, i + 1)[k] == hex@.subrange(0, i as int)[k]);
                }
            }
        }
        i = i + 1;
    }
    assert(hex@.subrange(0, hex@.len() as int) =~= hex@);
    Some(v)
}

proof fn lemma_pow16_mono(a: nat, b: nat)
    requires
        a <= b,
    ensures
        pow16(a) <= pow16(b),
    decreases b - a,
{
    if a < b {
        lemma_pow16_mono(a, (b - 1) as nat);
    }
}

/// The color a gradient stop names: the channels of its six hex digits, or the named
/// color's.
pub open spec fn stop_color(value: Seq<char>) -> (u8, u8, u8) {
    if value.len() > 0 && value[0] == '#' {
        match rgb_of(hex_value(value.subrange(1, value.len() as int))) {
            ColorIr::Rgb(r, g, b) => (r, g, b),
            _ => (0, 0, 0),
        }
    } else {
        NAMED_COLORS[alias_row(value).unwrap()].2
    }
}

/// The RGB of a gradient stop: `#RRGGBB` or a named color alias.
pub fn parse_stop(value: &[char], range: (usize, usize)) -> (r: Result<(u8, u8, u8), ParseError>)
    ensures
        r is Ok <==> (if value@.len() > 0 && value@[0] == '#' {
            value@.len() == 7 && all_hex(value@.subrange(1, 7))
        } else {
            alias_row(value@) is Some
        }),
        r matches Err(e) ==> e.range == range,
        r matches Ok(c) ==> c == stop_color(value@),
{
    if value.len() > 0 && value[0] == '#' {
        let hex = slice_chars(value, 1, value.len());
        return match parse_hex(hex.as_slice(), range) {
            Ok(ColorIr::Rgb(r, g, b)) => Ok((r, g, b)),
            Ok(_) => Err(err(range, "`#` color did not parse".to_owned(), COLOR_HELP.to_owned())),
            Err(e) => Err(e),
        };
    }
    match find_alias(value) {
        Some(i) => Ok(NAMED_COLORS[i].2),
        None => Err(err(
            range,
            text3("`", value, "` is not a color"),
            "gradient stops are named colors or hex, e.g. <gradient:red:#f79459>".to_owned(),
        )),
    }
}


/// A decimal digit.
pub open spec fn is_digit(c: char) -> bool {
    '0' <= c && c <= '9'
}

pub open spec fn all_decimal(s: Seq<char>) -> bool {
    forall|i: int| 0 <= i < s.len() ==> is_digit(#[trigger] s[i])
}

/// The number a run of decimal digits spells.
pub open spec fn decimal_value(s: Seq<char>) -> nat
    decreases s.len(),
{
    if s.len() == 0 {
        0
    } else {
        decimal_value(s.drop_last()) * 10 + (s.last() as nat - '0' as nat) as nat
    }
}

pub open spec fn pow10(k: nat) -> nat
    decreases k,
{
    if k == 0 {
        1
    } else {
        10 * pow10((k - 1) as nat)
    }
}

/// The position of the first `.` at or after `i`, or the length.
pub open spec fn dot_index(s: Seq<char>, i: int) -> int
    decreases s.len() - i,
{
    if i < 0 || i >= s.len() {
        s.len() as int
    } else if s[i] == '.' {
        i
    } else {
        dot_index(s, i + 1)
    }
}

/// A shadow's alpha written as a decimal from 0 to 1 (at most ten chars), as a byte rounded
/// half up: `0.5` is 128.
pub open spec fn alpha_of(t: Seq<char>) -> Option<u8> {
    let k = dot_index(t, 0);
    let ip = t.subrange(0, k);
    let fp = if k < t.len() { t.subrange(k + 1, t.len() as int) } else { Seq::<char>::empty() };
    if t.len() > 10 || ip.len() == 0 || !all_decimal(ip) || !all_decimal(fp) || (k < t.len() && fp.len() == 0) {
        None
    } else {
        let den = pow10(fp.len());
        let num = decimal_value(ip + fp);
        if num > den {
            None
        } else {
            Some(((510 * num + den) / (2 * den)) as u8)
        }
    }
}

proof fn lemma_dec_value_bound(s: Seq<char>)
    requires
        all_decimal(s),
    ensures
        decimal_value(s) < pow10(s.len()),
    decreases s.len(),
{
    if s.len() > 0 {
        let d = s.drop_last();
        assert(all_decimal(d)) by {
            assert forall|i: int| 0 <= i < d.len() implies is_digit(#[trigger] d[i]) by {
                assert(d[i] == s[i]);
            }
        }
        lemma_dec_value_bound(d);
        assert(is_digit(s[s.len() - 1]));
        let x = decimal_value(d);
        let p = pow10(d.len());
        let e = (s.last() as nat - '0' as nat) as nat;
        assert(e <= 9);
        assert(x * 10 + e < 10 * p) by (nonlinear_arith)
            requires
                x < p,
                e <= 9;
    }
}

proof fn lemma_pow10_mono(a: nat, b: nat)
    requires
        a <= b,
    ensures
        pow10(a) <= pow10(b),
        pow10(a) >= 1,
    decreases b,
{
    if b > a {
        lemma_pow10_mono(a, (b - 1) as nat);
    } else if a > 0 {
        lemma_pow10_mono((a - 1) as nat, (a - 1) as nat);
    }
}

/// Reads a shadow's alpha, a decimal from 0 to 1.
fn parse_alpha(t: &[char], range: (usize, usize)) -> (r: Result<u8, ParseError>)
    ensures
        match alpha_of(t@) {
            Some(a) => r == Ok::<u8, ParseError>(a),
            None => r matches Err(e) && e.range == range,
        },
{
    let bad = if t.len() > 10 {
        true
    } else {
        false
    };
    if bad {
        return Err(err(range, "a shadow's alpha is a number from 0 to 1".to_owned(), "for example <shadow:red:0.5>".to_owned()));
    }
    let n = t.len();
    let mut k: usize = 0;
    while k < n && t[k] != '.'
        invariant
            k <= n,
            n == t@.len(),
            dot_index(t@, 0) == dot_index(t@, k as int),
        decreases n - k,
    {
        k = k + 1;
    }
    assert(dot_index(t@, k as int) == k);
    let ghost ip = t@.subrange(0, k as int);
    let ghost fp = if k < n { t@.subrange(k + 1, n as int) } else { Seq::<char>::empty() };
    if k == 0 || (k < n && k + 1 == n) {
        return Err(err(range, "a shadow's alpha is a number from 0 to 1".to_owned(), "for example <shadow:red:0.5>".to_owned()));
    }
    let mut v: u64 = 0;
    let mut i: usize = 0;
    while i < k
        invariant
            i <= k <= n <= 10,
            n == t@.len(),
            ip == t@.subrange(0, k as int),
            dot_index(t@, 0) == k as int,
            all_decimal(ip.subrange(0, i as int)),
            v == decimal_value(ip.subrange(0, i as int)),
            v < pow10(i as nat),
        decreases k - i,
    {
        let c = t[i];
        if !('0' <= c && c <= '9') {
            proof {
                assert(ip[i as int] == c);
                assert(!is_digit(ip[i as int]));
            }
            return Err(err(range, "a shadow's alpha is a number from 0 to 1".to_owned(), "for example <shadow:red:0.5>".to_owned()));
        }
        proof {
            let s1 = ip.subrange(0, i + 1);
            assert(s1.drop_last() =~= ip.subrange(0, i as int));
            assert(all_decimal(s1)) by {
                assert forall|j: int| 0 <= j < s1.len() implies is_digit(#[trigger] s1[j]) by {
                    if j < i {
                        assert(s1[j] == ip.subrange(0, i as int)[j]);
                    }
                }
            }
            lemma_dec_value_bound(s1);
            lemma_pow10_mono((i + 1) as nat, 10);
            assert(pow10(10) == 10_000_000_000) by {
                reveal_with_fuel(pow10, 11);
            }
        }
        v = v * 10 + ((c as u32) - ('0' as u32)) as u64;
        i = i + 1;
    }
    assert(ip.subrange(0, k as int) =~= ip);
    let mut den: u64 = 1;
    let mut j: usize = if k < n { k + 1 } else { n };
    let ghost j0 = j;
    assert(fp =~= t@.subrange(j0 as int, n as int));
    assert(ip + fp.subrange(0, 0) =~= ip);
    while j < n
        invariant
            k <= j0 <= j <= n <= 10,
            n == t@.len(),
            fp == t@.subrange(j0 as int, n as int),
            ip == t@.subrange(0, k as int),
            dot_index(t@, 0) == k as int,
            k > 0,
            j0 == (if k < n { k + 1 } else { n as int }),
            k < n ==> j0 < n,
            all_decimal(ip),
            all_decimal(ip + fp.subrange(0, j - j0)),
            v == decimal_value(ip + fp.subrange(0, j - j0)),
            den == pow10((j - j0) as nat),
            v < pow10((k + j - j0) as nat),
            den <= pow10((j - j0) as nat),
        decreases n - j,
    {
        let c = t[j];
        let ghost m = (j - j0) as int;
        if !('0' <= c && c <= '9') {
            proof {
                assert(fp[m] == c);
                assert(!is_digit(fp[m]));
            }
            return Err(err(range, "a shadow's alpha is a number from 0 to 1".to_owned(), "for example <shadow:red:0.5>".to_owned()));
        }
        proof {
            let s0 = ip + fp.subrange(0, m);
            let s1 = ip + fp.subrange(0, m + 1);
            assert(s1.drop_last() =~= s0);
            assert(s1.last() == c);
            assert(all_decimal(s1)) by {
                assert forall|x: int| 0 <= x < s1.len() implies is_digit(#[trigger] s1[x]) by {
                    if x < s0.len() {
                        assert(s1[x] == s0[x]);
                    }
                }
            }
            lemma_dec_value_bound(s1);
            lemma_pow10_mono(s1.len(), 10);
            lemma_pow10_mono((m + 1) as nat, 10);
            assert(pow10(10) == 10_000_000_000) by {
                reveal_with_fuel(pow10, 11);
            }
        }
        v = v * 10 + ((c as u32) - ('0' as u32)) as u64;
        den = den * 10;
        j = j + 1;
    }
    proof {
        assert(fp.subrange(0, (n - j0) as int) =~= fp);
        assert(fp.len() == n - j0);
        assert(all_decimal(fp)) by {
            assert forall|x: int| 0 <= x < fp.len() implies is_digit(#[trigger] fp[x]) by {
                assert((ip + fp)[ip.len() + x] == fp[x]);
            }
        }
        lemma_pow10_mono(fp.len(), 10);
        assert(pow10(10) == 10_000_000_000) by {
            reveal_with_fuel(pow10, 11);
        }
    }
    if v > den {
        return Err(err(range, "a shadow's alpha is a number from 0 to 1".to_owned(), "for example <shadow:red:0.5>".to_owned()));
    }
    let a = (510 * v + den) / (2 * den);
    assert(a <= 255) by (nonlinear_arith)
        requires
            v <= den,
            den >= 1,
            a == (510 * v + den) / (2 * den);
    Ok(a as u8)
}

/// `#AARRGGBB`, `#RRGGBB` (opaque) or a named color, packed as the codec stores shadows.
pub fn parse_shadow(value: &[char], alpha: u8, range: (usize, usize)) -> (r: Result<i32, ParseError>)
    ensures
        r matches Err(e) ==> e.range == range,
        value@.len() > 0 && value@[0] == '#' && utf8_len(value@.subrange(1, value@.len() as int)) == 8
            ==> match r {
                Ok(v) => all_hex(value@.subrange(1, value@.len() as int))
                    && v == hex_value(value@.subrange(1, value@.len() as int)) as u32 as i32,
                Err(_) => !all_hex(value@.subrange(1, value@.len() as int)),
            },
        !(value@.len() > 0 && value@[0] == '#' && utf8_len(value@.subrange(1, value@.len() as int)) == 8)
            ==> match r {
                Ok(v) => v == shadow_argb(alpha, stop_color(value@).0, stop_color(value@).1, stop_color(value@).2),
                Err(_) => !(if value@.len() > 0 && value@[0] == '#' {
                    value@.len() == 7 && all_hex(value@.subrange(1, 7))
                } else {
                    alias_row(value@) is Some
                }),
            },
{
    if value.len() > 0 && value[0] == '#' {
        let hex = slice_chars(value, 1, value.len());
        if utf8_length(hex.as_slice()) == 8 {
            proof {
                crate::grammar::error::lemma_utf8_len_at_least(hex@);
            }
            return match hex_number(hex.as_slice()) {
                Some(v) => {
                    proof {
                        lemma_hex_value_bound(hex@);
                        lemma_pow16_mono(hex@.len(), 8);
                        assert(pow16(8) == 0x1_0000_0000) by {
                            reveal_with_fuel(pow16, 9);
                        }
                    }
                    Ok((v as u32) as i32)
                },
                None => {
                    Err(err(
                        range,
                        text3("`#", hex.as_slice(), "` is not a valid shadow color"),
                        "shadow colors are <shadow:#AARRGGBB> or <shadow:#RRGGBB>".to_owned(),
                    ))
                },
            };
        }
    }
    match parse_stop(value, range) {
        Ok((r, g, b)) => Ok(Format::parse_shadow_color(alpha, r, g, b)),
        Err(e) => Err(e),
    }
}

/// `{x:.2}` → `("x", Some(".2"))`; a spec needs a macro template.
pub fn split_spec(inner: &[char], range: (usize, usize), mode: Mode) -> (r: Result<(Vec<char>, Option<String>), ParseError>)
    ensures
        match crate::chars::first_index_of(inner@, ':') {
            None => match r {
                Ok((n, s)) => n@ == inner@ && s is None,
                Err(_) => false,
            },
            Some(k) => if mode is Macro {
                match r {
                    Ok((n, s)) => n@ == inner@.subrange(0, k) && (match s {
                        Some(t) => t@ == inner@.subrange(k + 1, inner@.len() as int),
                        None => false,
                    }),
                    Err(_) => false,
                }
            } else {
                match r {
                    Err(e) => e.range == range,
                    Ok(_) => false,
                }
            },
        },
{
    let n = inner.len();
    match crate::chars::find_char(inner, ':') {
        None => Ok((slice_chars(inner, 0, n), None)),
        Some(k) => {
            proof {
                crate::chars::lemma_first_index_of(inner@, ':');
            }
            if !mode.is_macro() {
                return Err(err(
                    range,
                    "format specs only work in the text! / text_nbt! macros".to_owned(),
                    "drop the `:…`; runtime templates fill holes with values that are already formatted".to_owned(),
                ));
            }
            let name = slice_chars(inner, 0, k);
            let spec = slice_chars(inner, k + 1, inner.len());
            Ok((name, Some(string_of(spec.as_slice()))))
        },
    }
}

/// Which argument a hole names: the next positional one for `{}`, else the identifier.
pub fn hole_arg(name: &[char], range: (usize, usize), mode: Mode, positional: &mut usize) -> (r: Result<HoleArg, ParseError>)
    ensures
        name@.len() == 0 && mode is Macro ==> r == Ok::<HoleArg, ParseError>(HoleArg::Positional(*old(positional)))
            && *final(positional) == (if *old(positional) == usize::MAX { 0 } else { *old(positional) + 1 }),
        !(name@.len() == 0 && mode is Macro) ==> *final(positional) == *old(positional),
        name@.len() == 0 && mode is Runtime ==> match r {
            Err(e) => e.range == range,
            Ok(_) => false,
        },
        name@.len() > 0 ==> match r {
            Ok(a) => is_ident_spec(name@) && match a {
                HoleArg::Named { name: n, range: rg } => n@ == name@ && rg == range,
                _ => false,
            },
            Err(e) => !is_ident_spec(name@) && e.range == range,
        },
{
    if name.len() == 0 {
        if !mode.is_macro() {
            return Err(err(
                range,
                "runtime templates need named holes".to_owned(),
                "write {victim} instead of {} — positional holes only exist in the text! macro".to_owned(),
            ));
        }
        let n = *positional;
        *positional = n.wrapping_add(1);
        Ok(HoleArg::Positional(n))
    } else if is_ident(name) {
        Ok(HoleArg::Named { name: string_of(name), range })
    } else {
        Err(err(
            range,
            text3("`{", name, "}` is not a valid hole"),
            "use `{}` for a positional argument or `{identifier}` to capture a variable".to_owned(),
        ))
    }
}


// ---------------------------------------------------------------------------
// The parse state.

/// The state of one parse: the pieces so far, the open tags with the style each replaced,
/// the current style, pending text and its range, and the open gradients.
pub struct Ctx {
    pub pieces: Vec<Piece>,
    pub stack: Vec<(Vec<char>, Style)>,
    pub style: Style,
    pub text: Vec<char>,
    pub text_range: (usize, usize),
    pub grads: Vec<GradMark>,
}

/// Open gradients start in order, at or before the end of the pieces.
pub open spec fn ctx_wf(c: Ctx) -> bool {
    &&& forall|k: int| 0 <= k < c.grads@.len() ==> (#[trigger] c.grads@[k]).piece_start <= c.pieces@.len()
        && c.grads@[k].stops@.len() < 0x1_0000_0000_0000_0000
    &&& forall|k: int, j: int| 0 <= k < j < c.grads@.len() ==> (#[trigger] c.grads@[k]).piece_start <= (#[trigger] c.grads@[j]).piece_start
}

impl Ctx {
    fn new() -> (r: Ctx)
        ensures
            ctx_wf(r),
            r.pieces@.len() == 0,
            r.text@.len() == 0,
            r.stack@.len() == 0,
            r.grads@.len() == 0,
            r.style@ == empty_style(),
    {
        Ctx {
            pieces: Vec::new(),
            stack: Vec::new(),
            style: Style::empty(),
            text: Vec::new(),
            text_range: (0, 0),
            grads: Vec::new(),
        }
    }

    /// `at` is the source span the char costs: `\\<` spans two, `<br>` the whole tag.
    fn push_text(&mut self, ch: char, at: (usize, usize))
        requires
            ctx_wf(*old(self)),
        ensures
            ctx_wf(*final(self)),
            final(self).text@ == old(self).text@.push(ch),
            final(self).pieces == old(self).pieces,
            final(self).stack == old(self).stack,
            final(self).style == old(self).style,
            final(self).grads == old(self).grads,
            final(self).text_range == (if old(self).text@.len() == 0 { at.0 } else { old(self).text_range.0 }, at.1),
    {
        if self.text.len() == 0 {
            self.text_range.0 = at.0;
        }
        self.text_range.1 = at.1;
        self.text.push(ch);
    }

    fn flush(&mut self)
        requires
            ctx_wf(*old(self)),
        ensures
            ctx_wf(*final(self)),
            final(self).text@.len() == 0,
            final(self).pieces@.len() >= old(self).pieces@.len(),
            final(self).stack == old(self).stack,
            final(self).style == old(self).style,
            final(self).grads == old(self).grads,
            old(self).text@.len() == 0 ==> final(self).pieces == old(self).pieces,
            old(self).text@.len() > 0 ==> final(self).pieces@ == old(self).pieces@.push(final(self).pieces@.last())
                && (final(self).pieces@.last() matches Piece::Text { text, style, range }
                && text@ == old(self).text@ && style@ == old(self).style@ && range == old(self).text_range),
    {
        if self.text.len() > 0 {
            let text = string_of(self.text.as_slice());
            self.pieces.push(Piece::Text { text, style: self.style.copy(), range: self.text_range });
            self.text = Vec::new();
        }
    }

    fn close_gradients(&mut self, idx: usize)
        requires
            ctx_wf(*old(self)),
        ensures
            ctx_wf(*final(self)),
            final(self).stack == old(self).stack,
            final(self).style == old(self).style,
            final(self).text == old(self).text,
            old(self).grads@.len() == 0 ==> *final(self) == *old(self),
    {
        while self.grads.len() > 0 && self.grads[self.grads.len() - 1].stack_idx >= idx
            invariant
                ctx_wf(*self),
                self.stack == old(self).stack,
                self.style == old(self).style,
                self.text == old(self).text,
                old(self).grads@.len() == 0 ==> *self == *old(self),
            decreases self.grads@.len(),
        {
            let mark = self.grads.pop().unwrap();
            apply_gradient(&mut self.pieces, &mark);
        }
    }
}

// ---------------------------------------------------------------------------
// Holes and tags.

/// A hole: which argument fills it, what it takes, its optional spec, and its range.
pub struct ParsedHole {
    pub arg: HoleArg,
    pub kind: HoleKind,
    pub spec: Option<String>,
    pub range: (usize, usize),
}

/// `{@const NAME}` (a component) or `{const NAME}` (text): a hole that names a const.
fn const_hole(name: &[char], component: bool, range: (usize, usize), mode: Mode, positional: &mut usize) -> (r: Result<ParsedHole, ParseError>)
    ensures
        mode is Runtime ==> *final(positional) == *old(positional) && r is Err,
        name@.len() == 0 ==> r is Err,
        r matches Ok(h) ==> h.range == range && h.spec is None
            && h.kind == (if component { HoleKind::ConstComponent } else { HoleKind::ConstText }),
{
    if !mode.is_macro() {
        return Err(err(
            range,
            if component {
                "`{@const …}` only works in the text_nbt! macro".to_owned()
            } else {
                "`{const …}` only works in the text_nbt! macro".to_owned()
            },
            if component {
                "runtime templates cannot reference consts. Write {@name} and pass the component as a value".to_owned()
            } else {
                "runtime templates cannot reference consts. Write {name} and pass the text as a value".to_owned()
            },
        ));
    }
    if name.len() == 0 {
        return Err(err(
            range,
            if component {
                "`{@const}` needs the name of a const".to_owned()
            } else {
                "`{const}` needs the name of a const".to_owned()
            },
            if component {
                "write {@const HEADER}, where HEADER is a `const EncodedComponent`".to_owned()
            } else {
                "write {const GIT_HASH}, where GIT_HASH is a `const &str`".to_owned()
            },
        ));
    }
    let kind = if component { HoleKind::ConstComponent } else { HoleKind::ConstText };
    match hole_arg(name, range, mode, positional) {
        Ok(arg) => Ok(ParsedHole { arg, kind, spec: None, range }),
        Err(e) => Err(e),
    }
}

/// Reads `{…}` at `pos`: `{}`, `{name}`, `{name:spec}`, `{@…}`, `{@const NAME}`.
fn read_hole(chars: &Vec<char>, pos: &mut usize, offset: usize, mode: Mode, positional: &mut usize) -> (r: Result<ParsedHole, ParseError>)
    requires
        *old(pos) < chars@.len(),
        offset + chars@.len() <= usize::MAX,
    ensures
        mode is Runtime ==> *final(positional) == *old(positional),
        r is Ok ==> *old(pos) < *final(pos) <= chars@.len(),
{
    let open = offset + *pos;
    *pos = *pos + 1;
    let kind = if *pos < chars.len() && chars[*pos] == '@' {
        *pos = *pos + 1;
        HoleKind::Component
    } else {
        HoleKind::Text
    };
    let start = *pos;
    while *pos < chars.len() && chars[*pos] != '}'
        invariant
            start <= *pos <= chars@.len(),
        decreases chars@.len() - *pos,
    {
        *pos = *pos + 1;
    }
    if *pos >= chars.len() {
        return Err(err(
            (open, offset + chars.len()),
            "unclosed `{`".to_owned(),
            "close the hole with `}`, or write `{{` for a literal brace".to_owned(),
        ));
    }
    let raw = slice_chars(chars.as_slice(), start, *pos);
    *pos = *pos + 1;
    let range = (open, offset + *pos);
    if starts_with_lit(raw.as_slice(), "const") {
        proof {
            reveal_strlit("const");
        }
        let rest = slice_chars(raw.as_slice(), 5, raw.len());
        if rest.len() == 0 || is_whitespace(rest[0]) {
            let name = trim(rest.as_slice());
            let component = match kind {
                HoleKind::Component => true,
                _ => false,
            };
            return const_hole(name.as_slice(), component, range, mode, positional);
        }
    }
    let (name, spec) = match split_spec(raw.as_slice(), range, mode) {
        Ok(x) => x,
        Err(e) => {
            return Err(e);
        },
    };
    if let HoleKind::Component = kind {
        if spec.is_some() {
            return Err(err(
                range,
                "component holes don't take a format spec".to_owned(),
                "format specs apply to text holes — write `{name:…}` without the `@`, or drop the `:…`".to_owned(),
            ));
        }
    }
    match hole_arg(name.as_slice(), range, mode, positional) {
        Ok(arg) => Ok(ParsedHole { arg, kind, spec, range }),
        Err(e) => Err(e),
    }
}

/// Where an argument stands while a tag is read.
enum ArgState {
    Fresh,
    Unquoted,
    Quoted { open: usize, content_start: usize, quote: char },
    Closed(usize, usize),
}

/// A char that opens and closes a quoted argument.
pub open spec fn is_quote_char(c: char) -> bool {
    c == '\'' || c == '"'
}

/// How an argument of a tag was read from the template text that starts at `offset`: an
/// unquoted argument is exactly the text of its range; a quoted one has its range between two
/// matching quotes.
pub open spec fn arg_read(a: TagArg, chars: Seq<char>, offset: int) -> bool {
    ||| a.text@ == chars.subrange(a.range.0 - offset, a.range.1 - offset)
    ||| is_quote_char(chars[a.range.0 - offset - 1]) && chars[a.range.1 - offset] == chars[a.range.0 - offset - 1]
}

/// Reads `<…>` at `pos` into its `:`-separated parts; `parts[0]` is the tag head, and an
/// argument is either fully unquoted or one span quoted by `'` or `"`. The flag tells a
/// self-closing tag, written with `/>`.
fn read_tag(chars: &Vec<char>, pos: &mut usize, offset: usize) -> (r: Result<(Vec<TagArg>, (usize, usize), bool), ParseError>)
    requires
        *old(pos) < chars@.len(),
        offset + chars@.len() <= usize::MAX,
    ensures
        r matches Ok((parts, range, self_closing)) ==> {
            &&& *old(pos) < *final(pos) <= chars@.len()
            &&& parts@.len() >= 1
            &&& range.0 == offset + *old(pos)
            &&& range.1 == offset + *final(pos)
            &&& forall|k: int| 0 <= k < parts@.len() ==> arg_within(#[trigger] parts@[k], offset + *old(pos) + 1, offset + chars@.len())
            &&& forall|k: int| 0 <= k < parts@.len() ==> arg_read(#[trigger] parts@[k], chars@, offset as int)
            &&& chars@[*final(pos) - 1] == '>'
            &&& self_closing ==> *final(pos) >= 2 && chars@[*final(pos) - 2] == '/'
        },
{
    let open = offset + *pos;
    let ghost p0 = *pos;
    *pos = *pos + 1;
    let mut parts: Vec<TagArg> = Vec::new();
    let mut text: Vec<char> = Vec::new();
    let mut arg_start = *pos;
    let mut state = ArgState::Fresh;
    while *pos < chars.len()
        invariant
            p0 < arg_start <= *pos <= chars@.len(),
            p0 == *old(pos),
            open == offset + p0,
            offset + chars@.len() <= usize::MAX,
            forall|k: int| 0 <= k < parts@.len() ==> arg_within(#[trigger] parts@[k], offset + p0 + 1, offset + chars@.len()),
            forall|k: int| 0 <= k < parts@.len() ==> arg_read(#[trigger] parts@[k], chars@, offset as int),
            match state {
                ArgState::Fresh => text@.len() == 0 && arg_start == *pos,
                ArgState::Unquoted => text@ == chars@.subrange(arg_start as int, *pos as int),
                ArgState::Quoted { open: o, content_start: cs, quote: q } => arg_start <= o && cs == o + 1 && cs <= *pos
                    && text@.len() <= *pos - cs && chars@[o as int] == q && is_quote_char(q),
                ArgState::Closed(a, b) => offset + arg_start <= a && a + text@.len() <= b && b < offset + *pos
                    && is_quote_char(chars@[a - offset - 1]) && chars@[b - offset] == chars@[a - offset - 1],
            },
        decreases chars@.len() - *pos,
    {
        let c = chars[*pos];
        if let ArgState::Quoted { open: _, content_start, quote } = state {
            if c == '\\' && *pos + 1 < chars.len() && (chars[*pos + 1] == quote || chars[*pos + 1] == '\\') {
                text.push(chars[*pos + 1]);
                *pos = *pos + 2;
            } else if c == quote {
                state = ArgState::Closed(offset + content_start, offset + *pos);
                *pos = *pos + 1;
            } else {
                text.push(c);
                *pos = *pos + 1;
            }
        } else if c == ':' || c == '>' || (c == '/' && *pos + 1 < chars.len() && chars[*pos + 1] == '>') {
            let range = match state {
                ArgState::Closed(a, b) => (a, b),
                _ => (offset + arg_start, offset + *pos),
            };
            let t = text;
            proof {
                if !(state is Closed) {
                    assert(t@ =~= chars@.subrange(arg_start as int, *pos as int));
                }
            }
            text = Vec::new();
            parts.push(TagArg { text: t, range });
            assert(arg_read(parts@.last(), chars@, offset as int));
            if c == '/' {
                *pos = *pos + 2;
                return Ok((parts, (open, offset + *pos), true));
            }
            *pos = *pos + 1;
            if c == '>' {
                return Ok((parts, (open, offset + *pos), false));
            }
            arg_start = *pos;
            state = ArgState::Fresh;
        } else if (c == '\'' || c == '"') && (match state { ArgState::Fresh => true, _ => false }) {
            state = ArgState::Quoted { open: *pos, content_start: *pos + 1, quote: c };
            *pos = *pos + 1;
        } else {
            if (match state { ArgState::Closed(..) => true, _ => false }) || c == '\'' || c == '"' {
                let at = offset + *pos;
                return Err(err(
                    (at, at + 1),
                    "a quoted value must span the whole argument".to_owned(),
                    "a quote either opens the whole argument or is written `\\'` or `\\\"` for a literal quote inside a quoted value".to_owned(),
                ));
            }
            let ghost before = text@;
            state = ArgState::Unquoted;
            text.push(c);
            *pos = *pos + 1;
            assert(text@ =~= chars@.subrange(arg_start as int, *pos as int)) by {
                assert(before =~= chars@.subrange(arg_start as int, *pos - 1));
            }
        }
    }
    if let ArgState::Quoted { open: o, content_start: _, quote } = state {
        let at = offset + o;
        let message = if quote == '"' {
            "unclosed `\"` inside this tag".to_owned()
        } else {
            "unclosed `'` inside this tag".to_owned()
        };
        return Err(err(
            (at, at + 1),
            message,
            "close the quoted value, e.g. <hover:show_text:'Hello'>".to_owned(),
        ));
    }
    Err(err(
        (open, offset + chars.len()),
        "unclosed `<` tag".to_owned(),
        "close the tag with `>`, or escape a literal `<` as `\\<`".to_owned(),
    ))
}


// ---------------------------------------------------------------------------
// Tag values.

/// "did you mean `s`?" then `tail`.
fn did_you_mean(s: &str, tail: &str) -> (r: String)
    ensures
        r@ == "did you mean `"@ + s@ + "`?"@ + tail@,
{
    let mut m = "did you mean `".to_owned();
    m.push_str(s);
    m.push_str("`?");
    m.push_str(tail);
    m
}

/// The chars between the braces of a `{…}` argument.
fn hole_inner(text: &[char]) -> (r: Vec<char>)
    requires
        is_hole_spec(text@),
    ensures
        r@ == text@.subrange(1, text@.len() - 1),
{
    slice_chars(text, 1, text.len() - 1)
}

/// `<hover:{item}>` / `<click:{cmd}>`: the hole that supplies a whole event.
fn event_hole_arg(arg: &TagArg, mode: Mode, positional: &mut usize) -> (r: Result<HoleArg, ParseError>)
    requires
        is_hole_spec(arg.text@),
    ensures
        mode is Runtime ==> *final(positional) == *old(positional),
{
    let inner = hole_inner(arg.text.as_slice());
    if inner.len() > 0 && inner[0] == '@' {
        return Err(err(
            arg.range,
            "`{@…}` is a component hole".to_owned(),
            "an event hole takes the event itself: <hover:{item}>".to_owned(),
        ));
    }
    hole_arg(inner.as_slice(), arg.range, mode, positional)
}

/// Every color alias, for suggestions.
fn color_aliases() -> (r: Vec<&'static str>)
    ensures
        r@.len() == 18,
{
    let mut r: Vec<&'static str> = Vec::new();
    let mut i: usize = 0;
    while i < 18
        invariant
            i <= 18,
            r@.len() == i,
        decreases 18 - i,
    {
        r.push(NAMED_COLORS[i].0);
        i = i + 1;
    }
    r
}

/// The value of `<color:…>`: a hole, `#RRGGBB`, or a color alias.
/// A color argument that is not a hole reads: `#RRGGBB`, or a color name or alias.
pub open spec fn color_arg_ok(t: Seq<char>) -> bool {
    if t.len() > 0 && t[0] == '#' {
        t.len() == 7 && all_hex(t.subrange(1, 7))
    } else {
        alias_row(t) is Some
    }
}

/// The color such an argument names: the hex value, or the canonical name of the alias.
pub open spec fn color_arg_is(c: ColorIr, t: Seq<char>) -> bool {
    if t.len() > 0 && t[0] == '#' {
        c == rgb_of(hex_value(t.subrange(1, t.len() as int)))
    } else {
        alias_row(t) matches Some(k) && c matches ColorIr::Named(n) && n@ == NAMED_COLORS[k].1@
    }
}

fn color_value(arg: &TagArg, mode: Mode, positional: &mut usize) -> (r: Result<ColorIr, ParseError>)
    ensures
        mode is Runtime ==> *final(positional) == *old(positional),
        is_hole_spec(arg.text@) ==> (r is Err || r matches Ok(ColorIr::Dyn(_))),
        !is_hole_spec(arg.text@) ==> (r is Ok) == color_arg_ok(arg.text@),
        !is_hole_spec(arg.text@) ==> (r matches Ok(c) ==> color_arg_is(c, arg.text@)),
        !is_hole_spec(arg.text@) ==> (r matches Err(e) ==> e.range == arg.range),
{
    let value = arg.text.as_slice();
    if is_hole(value) {
        let inner = hole_inner(value);
        return match hole_arg(inner.as_slice(), arg.range, mode, positional) {
            Ok(a) => Ok(ColorIr::Dyn(a)),
            Err(e) => Err(e),
        };
    }
    if value.len() > 0 && value[0] == '#' {
        let hex = slice_chars(value, 1, value.len());
        return parse_hex(hex.as_slice(), arg.range);
    }
    match find_alias(value) {
        Some(i) => Ok(ColorIr::Named(NAMED_COLORS[i].1.to_owned())),
        None => {
            let message = text3("`", value, "` is not a color");
            let aliases = color_aliases();
            let help = match suggest(value, aliases.as_slice()) {
                Some(s) => {
                    let mut h = did_you_mean(s, " ");
                    h.push_str(COLOR_HELP);
                    h
                },
                None => COLOR_HELP.to_owned(),
            };
            Err(err(arg.range, message, help))
        },
    }
}

/// The text of a value with no hole: `{{` and `}}` each stand for one brace.
pub open spec fn unbraced(s: Seq<char>) -> Seq<char>
    decreases s.len(),
{
    if s.len() == 0 {
        Seq::empty()
    } else if s.len() >= 2 && (s[0] == '{' || s[0] == '}') && s[1] == s[0] {
        seq![s[0]] + unbraced(s.subrange(2, s.len() as int))
    } else {
        seq![s[0]] + unbraced(s.subrange(1, s.len() as int))
    }
}

/// A value without a hole: every `{` in it is half of a `{{`.
pub open spec fn hole_free(s: Seq<char>) -> bool
    decreases s.len(),
{
    if s.len() == 0 {
        true
    } else if s.len() >= 2 && (s[0] == '{' || s[0] == '}') && s[1] == s[0] {
        hole_free(s.subrange(2, s.len() as int))
    } else {
        s[0] != '{' && hole_free(s.subrange(1, s.len() as int))
    }
}

/// A value with `{}` / `{name}` string holes: `'/msg {} '` parses to [Lit, Hole, Lit].
fn parse_str_segments(value: &[char], offset: usize, mode: Mode, positional: &mut usize) -> (r: Result<Vec<StrSeg>, ParseError>)
    requires
        offset + value@.len() <= usize::MAX,
    ensures
        mode is Runtime ==> *final(positional) == *old(positional),
        hole_free(value@) && unbraced(value@).len() == 0 ==> (r matches Ok(segs) && segs@.len() == 0),
        hole_free(value@) && unbraced(value@).len() > 0 ==> (r matches Ok(segs) && segs@.len() == 1
            && (segs@[0] matches StrSeg::Lit(t) && t@ == unbraced(value@))),
{
    let n = value.len();
    let mut segs: Vec<StrSeg> = Vec::new();
    let mut lit: Vec<char> = Vec::new();
    let mut i: usize = 0;
    assert(value@.subrange(0, n as int) =~= value@);
    while i < n
        invariant
            n == value@.len(),
            i <= n,
            offset + n <= usize::MAX,
            mode is Runtime ==> *positional == *old(positional),
            hole_free(value@) ==> segs@.len() == 0 && hole_free(value@.subrange(i as int, n as int))
                && lit@ + unbraced(value@.subrange(i as int, n as int)) == unbraced(value@),
        decreases n - i,
    {
        let c = value[i];
        let ghost rest = value@.subrange(i as int, n as int);
        let ghost lit0 = lit@;
        if c == '{' && i + 1 < n && value[i + 1] == '{' {
            lit.push('{');
            i = i + 2;
            proof {
                assert(rest.subrange(2, rest.len() as int) =~= value@.subrange(i as int, n as int));
                if hole_free(value@) {
                    assert(lit@ =~= lit0 + seq![rest[0]]);
                    assert(lit@ + unbraced(value@.subrange(i as int, n as int)) =~= lit0 + unbraced(rest));
                }
            }
        } else if c == '}' && i + 1 < n && value[i + 1] == '}' {
            lit.push('}');
            i = i + 2;
            proof {
                assert(rest.subrange(2, rest.len() as int) =~= value@.subrange(i as int, n as int));
                if hole_free(value@) {
                    assert(lit@ =~= lit0 + seq![rest[0]]);
                    assert(lit@ + unbraced(value@.subrange(i as int, n as int)) =~= lit0 + unbraced(rest));
                }
            }
        } else if c == '{' {
            let open = offset + i;
            let mut close = i + 1;
            while close < n && value[close] != '}'
                invariant
                    i < close <= n,
                    n == value@.len(),
                decreases n - close,
            {
                close = close + 1;
            }
            if close >= n {
                return Err(err(
                    (open, offset + n),
                    "unclosed `{` in this value".to_owned(),
                    "close the hole with `}`, or write `{{` for a literal brace".to_owned(),
                ));
            }
            let raw = slice_chars(value, i + 1, close);
            let range = (open, offset + close + 1);
            let (name, spec) = match split_spec(raw.as_slice(), range, mode) {
                Ok(x) => x,
                Err(e) => {
                    return Err(e);
                },
            };
            let arg = match hole_arg(name.as_slice(), range, mode, positional) {
                Ok(a) => a,
                Err(e) => {
                    return Err(e);
                },
            };
            if lit.len() > 0 {
                segs.push(StrSeg::Lit(string_of(lit.as_slice())));
                lit = Vec::new();
            }
            segs.push(StrSeg::Hole(arg, spec));
            i = close + 1;
        } else {
            lit.push(c);
            i = i + 1;
            proof {
                assert(rest.subrange(1, rest.len() as int) =~= value@.subrange(i as int, n as int));
                if hole_free(value@) {
                    assert(lit@ =~= lit0 + seq![rest[0]]);
                    assert(lit@ + unbraced(value@.subrange(i as int, n as int)) =~= lit0 + unbraced(rest));
                }
            }
        }
    }
    proof {
        if hole_free(value@) {
            assert(value@.subrange(n as int, n as int) =~= Seq::<char>::empty());
            assert(lit@ =~= unbraced(value@));
        }
    }
    if lit.len() > 0 {
        segs.push(StrSeg::Lit(string_of(lit.as_slice())));
    }
    Ok(segs)
}

/// The value of a flag tag: none, `true`, `false`, or a `{…}` hole.
/// The value a flag tag's arguments give it, where no hole decides it: none given is on,
/// `true` and `false` as written.
pub open spec fn flag_arg(parts: Seq<TagArg>) -> Option<BoolIr> {
    if parts.len() == 1 {
        Some(BoolIr::Const(true))
    } else if parts.len() == 2 && parts[1].text@ == "true"@ {
        Some(BoolIr::Const(true))
    } else if parts.len() == 2 && parts[1].text@ == "false"@ {
        Some(BoolIr::Const(false))
    } else {
        None
    }
}

fn flag_value(name: &[char], parts: &Vec<TagArg>, range: (usize, usize), mode: Mode, positional: &mut usize) -> (r: Result<BoolIr, ParseError>)
    requires
        parts@.len() >= 1,
    ensures
        mode is Runtime ==> *final(positional) == *old(positional),
        flag_arg(parts@) matches Some(v) ==> r == Ok::<BoolIr, ParseError>(v),
        parts@.len() > 2 ==> (r matches Err(e) && e.range == range),
        parts@.len() == 2 && flag_arg(parts@) is None && !is_hole_spec(parts@[1].text@) ==> (r matches Err(e) && e.range == parts@[1].range),
        parts@.len() == 2 && is_hole_spec(parts@[1].text@) ==> (r is Err || r matches Ok(BoolIr::Dyn(_))),
{
    proof {
        reveal_strlit("true");
        reveal_strlit("false");
    }
    let nargs = parts.len() - 1;
    if nargs == 0 {
        return Ok(BoolIr::Const(true));
    }
    if nargs > 1 {
        let mut h = text3("for example <", name, ":{is_op}>");
        return Err(err(range, text3("<", name, ":...> takes at most one value"), h));
    }
    let v = &parts[1];
    let text = v.text.as_slice();
    if eq_lit(text, "true") {
        Ok(BoolIr::Const(true))
    } else if eq_lit(text, "false") {
        Ok(BoolIr::Const(false))
    } else if is_hole(text) {
        let inner = hole_inner(text);
        match hole_arg(inner.as_slice(), v.range, mode, positional) {
            Ok(a) => Ok(BoolIr::Dyn(a)),
            Err(e) => Err(e),
        }
    } else {
        let mut m = text3("`", text, "` is not a valid value for <");
        push_chars(&mut m, name);
        m.push_str(":...>");
        let mut h = text3("use <", name, ">, <");
        push_chars(&mut h, name);
        h.push_str(":false>, or <");
        push_chars(&mut h, name);
        h.push_str(":{}> for a runtime bool");
        Err(err(v.range, m, h))
    }
}

// ---------------------------------------------------------------------------
// Tags.

/// `i` is the innermost entry of the tag stack with this name.
pub open spec fn innermost_tag(stack: Seq<(Vec<char>, Style)>, name: Seq<char>, i: int) -> bool {
    &&& 0 <= i < stack.len()
    &&& stack[i].0@ == name
    &&& forall|j: int| i < j < stack.len() ==> (#[trigger] stack[j]).0@ != name
}

/// Some entry of the tag stack has this name.
pub open spec fn tag_open(stack: Seq<(Vec<char>, Style)>, name: Seq<char>) -> bool {
    exists|j: int| 0 <= j < stack.len() && (#[trigger] stack[j]).0@ == name
}

/// What `</name>` does to the parse state. With no open tag of that name it is an error at the
/// tag's range and the state is untouched; else the innermost such tag and every tag opened
/// after it are popped, and the style in force before that tag comes back.
pub open spec fn closes(before: Ctx, name: Seq<char>, range: (usize, usize), after: Ctx, r: Result<(), ParseError>) -> bool {
    if tag_open(before.stack@, name) {
        &&& r is Ok
        &&& after.text@.len() == 0
        &&& exists|i: int| #[trigger] innermost_tag(before.stack@, name, i)
            && after.stack@ == before.stack@.take(i)
            && after.style@ == before.stack@[i].1@
    } else {
        r matches Err(e) && e.range == range && after == before
    }
}

/// An opening tag: one entry pushed onto the stack, under its name, keeping the style that was in
/// force before it.
pub open spec fn opened(before: Ctx, after: Ctx, name: Seq<char>) -> bool {
    &&& after.stack@.len() == before.stack@.len() + 1
    &&& after.stack@.take(before.stack@.len() as int) == before.stack@
    &&& after.stack@.last().0@ == name
    &&& after.stack@.last().1@ == before.style@
}

/// The innermost open tag with this canonical name.
fn rfind_tag(stack: &Vec<(Vec<char>, Style)>, name: &[char]) -> (r: Option<usize>)
    ensures
        r matches Some(i) ==> innermost_tag(stack@, name@, i as int),
        r is None ==> !tag_open(stack@, name@),
{
    let mut idx: usize = stack.len();
    while idx > 0
        invariant
            idx <= stack@.len(),
            forall|j: int| idx <= j < stack@.len() ==> (#[trigger] stack@[j]).0@ != name@,
        decreases idx,
    {
        if crate::chars::chars_eq(stack[idx - 1].0.as_slice(), name) {
            return Some(idx - 1);
        }
        idx = idx - 1;
    }
    None
}

/// `</name>`: closes the innermost open tag of that name and every tag opened after it.
fn close_tag(name: &[char], range: (usize, usize), ctx: &mut Ctx) -> (r: Result<(), ParseError>)
    requires
        ctx_wf(*old(ctx)),
    ensures
        ctx_wf(*final(ctx)),
        closes(*old(ctx), canonical_tag_spec(name@), range, *final(ctx), r),
{
    let canonical = canonical_tag(name);
    let found = rfind_tag(&ctx.stack, canonical.as_slice());
    let idx = match found {
        Some(i) => i,
        None => {
        let help = if ctx.stack.len() == 0 {
            "no tags are open here — remove this, or add an opening tag before it".to_owned()
        } else {
            let mut h = "currently open: ".to_owned();
            let mut k: usize = 0;
            while k < ctx.stack.len()
                decreases ctx.stack@.len() - k,
            {
                if k > 0 {
                    h.push_str(", ");
                }
                h.push('<');
                push_chars(&mut h, ctx.stack[k].0.as_slice());
                h.push('>');
                k = k + 1;
            }
            h
        };
        return Err(err(range, text3("closing tag `</", name, ">` doesn't match any open tag"), help));
        },
    };
    let ghost before = *ctx;
    let restored = ctx.stack[idx].1.copy();
    ctx.flush();
    ctx.close_gradients(idx);
    ctx.stack.truncate(idx);
    ctx.style = restored;
    proof {
        assert(innermost_tag(before.stack@, canonical@, idx as int));
        assert(tag_open(before.stack@, canonical@));
        assert(ctx.stack@ == before.stack@.take(idx as int));
    }
    Ok(())
}

/// Closes every tag opened at stack depth `depth` or deeper: `<tag/>` closes what it opened.
fn close_to(depth: usize, ctx: &mut Ctx)
    requires
        ctx_wf(*old(ctx)),
        depth < old(ctx).stack@.len(),
    ensures
        ctx_wf(*final(ctx)),
        final(ctx).stack@ == old(ctx).stack@.take(depth as int),
        final(ctx).style@ == old(ctx).stack@[depth as int].1@,
        final(ctx).text@.len() == 0,
{
    let restored = ctx.stack[depth].1.copy();
    ctx.flush();
    ctx.close_gradients(depth);
    ctx.stack.truncate(depth);
    ctx.style = restored;
}

/// Pushes an opened tag: the text so far keeps the old style, the new one applies after.
fn open_tag(canonical: Vec<char>, new: Style, ctx: &mut Ctx)
    requires
        ctx_wf(*old(ctx)),
    ensures
        ctx_wf(*final(ctx)),
        opened(*old(ctx), *final(ctx), canonical@),
        final(ctx).style == new,
        final(ctx).text@.len() == 0,
{
    ctx.flush();
    let ghost before = ctx.stack@;
    let old_style = ctx.style.copy();
    ctx.stack.push((canonical, old_style));
    ctx.style = new;
    assert(ctx.stack@.take(before.len() as int) =~= before);
}

/// Whether a canonical name is one of the five formatting flags.
pub open spec fn flag_name_spec(c: Seq<char>) -> bool {
    c == "bold"@ || c == "italic"@ || c == "underlined"@ || c == "strikethrough"@ || c == "obfuscated"@
}

/// The style with the formatting flag named `c` set to `v`; a name other than the first four
/// sets `obfuscated`, the fifth.
pub open spec fn with_flag(s: StyleV, c: Seq<char>, v: BoolIr) -> StyleV {
    if c == "bold"@ {
        StyleV { bold: Some(v), ..s }
    } else if c == "italic"@ {
        StyleV { italic: Some(v), ..s }
    } else if c == "underlined"@ {
        StyleV { underlined: Some(v), ..s }
    } else if c == "strikethrough"@ {
        StyleV { strikethrough: Some(v), ..s }
    } else {
        StyleV { obfuscated: Some(v), ..s }
    }
}

fn is_flag_name(c: &[char]) -> (r: bool)
    ensures
        r == flag_name_spec(c@),
{
    eq_lit(c, "bold") || eq_lit(c, "italic") || eq_lit(c, "underlined") || eq_lit(c, "strikethrough")
        || eq_lit(c, "obfuscated")
}

/// `<b>`, `<!i>`, `<u:false>`, `<st:{}>`: a formatting flag, on, off, or decided at runtime.
fn apply_flag(name: &[char], canonical: Vec<char>, negated: bool, parts: &Vec<TagArg>, range: (usize, usize), ctx: &mut Ctx, mode: Mode, positional: &mut usize) -> (r: Result<(), ParseError>)
    requires
        parts@.len() >= 1,
        ctx_wf(*old(ctx)),
    ensures
        ctx_wf(*final(ctx)),
        mode is Runtime ==> *final(positional) == *old(positional),
        negated && parts@.len() > 1 ==> (r matches Err(e) && e.range == range),
        r is Ok ==> opened(*old(ctx), *final(ctx), canonical@),
        r is Ok ==> exists|v: BoolIr| final(ctx).style@ == #[trigger] with_flag(old(ctx).style@, canonical@, v)
            && (negated ==> v == BoolIr::Const(false)),
        negated && parts@.len() == 1 ==> r is Ok,
        r is Ok && negated ==> final(ctx).style@ == with_flag(old(ctx).style@, canonical@, BoolIr::Const(false)),
        !negated ==> (flag_arg(parts@) matches Some(v) ==> r is Ok
            && final(ctx).style@ == with_flag(old(ctx).style@, canonical@, v)),
{
    let ghost before = ctx.style@;
    let value = if negated {
        if parts.len() > 1 {
            let mut h = text3("write <!", name, "> or <");
            push_chars(&mut h, name);
            h.push_str(":false>");
            return Err(err(range, text3("`<!", name, ":...>` can't take a value"), h));
        }
        BoolIr::Const(false)
    } else {
        match flag_value(name, parts, range, mode, positional) {
            Ok(v) => v,
            Err(e) => {
                return Err(e);
            },
        }
    };
    let mut new = ctx.style.copy();
    let c = canonical.as_slice();
    if eq_lit(c, "bold") {
        new.bold = Some(value);
    } else if eq_lit(c, "italic") {
        new.italic = Some(value);
    } else if eq_lit(c, "underlined") {
        new.underlined = Some(value);
    } else if eq_lit(c, "strikethrough") {
        new.strikethrough = Some(value);
    } else {
        new.obfuscated = Some(value);
    }
    assert(new@ == with_flag(before, canonical@, value));
    open_tag(canonical, new, ctx);
    Ok(())
}

/// `<key:key.jump>`: the client renders the player's own binding.
fn apply_key(parts: &Vec<TagArg>, range: (usize, usize), ctx: &mut Ctx) -> (r: Result<(), ParseError>)
    requires
        parts@.len() >= 1,
        ctx_wf(*old(ctx)),
    ensures
        ctx_wf(*final(ctx)),
        (r is Err) == (parts@.len() != 2 || parts@[1].text@.len() == 0),
        r matches Err(e) ==> e.range == range,
        r is Ok ==> final(ctx).stack == old(ctx).stack && final(ctx).style == old(ctx).style,
        r is Ok ==> (final(ctx).pieces@.last() matches Piece::Keybind { key, style, range: at }
            && key@ == parts@[1].text@ && style@ == old(ctx).style@ && at == range),
{
    if parts.len() != 2 {
        return Err(err(range, "`<key:…>` takes exactly one key".to_owned(), "for example <key:key.jump>".to_owned()));
    }
    if parts[1].text.len() == 0 {
        return Err(err(range, "`<key:>` needs a key".to_owned(), "for example <key:key.inventory>".to_owned()));
    }
    ctx.flush();
    let key = string_of(parts[1].text.as_slice());
    ctx.pieces.push(Piece::Keybind { key, style: ctx.style.copy(), range });
    Ok(())
}

/// A canonical tag name that sets one style attribute by its own word rather than naming a color.
pub open spec fn style_tag_word(c: Seq<char>) -> bool {
    c == "color"@ || c == "font"@ || c == "shadow"@ || c == "insert"@ || c == "hover"@ || c == "click"@
}

/// `color` is none of the other words that name one style attribute.
proof fn lemma_color_word()
    ensures
        "color"@ != "font"@,
        "color"@ != "shadow"@,
        "color"@ != "insert"@,
        "color"@ != "hover"@,
        "color"@ != "click"@,
        !flag_name_spec("color"@),
        "font"@ != "insert"@,
        "font"@ != "shadow"@,
        "font"@ != "hover"@,
        "font"@ != "click"@,
        "insert"@ != "shadow"@,
        "insert"@ != "hover"@,
        "insert"@ != "click"@,
        "color"@ != "gradient"@,
        "shadow"@ != "gradient"@,
        "shadow"@ != "rainbow"@,
        "color"@ != "rainbow"@,
        !flag_name_spec("gradient"@),
        !flag_name_spec("rainbow"@),
{
    reveal_strlit("gradient");
    reveal_strlit("rainbow");
    assert("gradient"@.len() == 8);
    assert("rainbow"@.len() == 7);
    reveal_strlit("bold");
    reveal_strlit("italic");
    reveal_strlit("underlined");
    reveal_strlit("strikethrough");
    reveal_strlit("obfuscated");
    assert("bold"@.len() == 4);
    assert("italic"@.len() == 6);
    assert("underlined"@.len() == 10);
    assert("strikethrough"@.len() == 13);
    assert("obfuscated"@.len() == 10);
    reveal_strlit("color");
    reveal_strlit("font");
    reveal_strlit("shadow");
    reveal_strlit("insert");
    reveal_strlit("hover");
    reveal_strlit("click");
    assert("color"@.len() == 5);
    assert("font"@.len() == 4);
    assert("shadow"@.len() == 6);
    assert("insert"@.len() == 6);
    assert("color"@[0] != "hover"@[0]);
    assert("color"@[1] != "click"@[1]);
    assert("shadow"@[0] != "insert"@[0]);
}

/// What a style tag changes in the style: the one attribute its canonical name stands for, and
/// nothing else. `color` and the color names set the color.
pub open spec fn style_tag_sets(before: StyleV, after: StyleV, c: Seq<char>) -> bool {
    if c == "font"@ {
        after == StyleV { font: after.font, ..before } && after.font is Some
    } else if c == "shadow"@ {
        after == StyleV { shadow_color: after.shadow_color, ..before } && after.shadow_color is Some
    } else if c == "insert"@ {
        after == StyleV { insertion: after.insertion, ..before } && after.insertion is Some
    } else if c == "hover"@ {
        after == StyleV { hover: after.hover, ..before } && after.hover is Some
    } else if c == "click"@ {
        after == StyleV { click: after.click, ..before } && after.click is Some
    } else {
        after == StyleV { color: after.color, ..before } && after.color is Some
    }
}

/// A tag's arguments after its name, joined again by the colons that split them.
pub open spec fn joined_args(parts: Seq<TagArg>, k: int) -> Seq<char>
    decreases k,
{
    if k <= 1 {
        Seq::empty()
    } else if k == 2 {
        parts[1].text@
    } else {
        joined_args(parts, k - 1) + seq![':'] + parts[k - 1].text@
    }
}

/// The shadow a shadow tag sets: none (`<!shadow>`), an `#AARRGGBB` as written, or a color
/// with the alpha given after it or, by default, a quarter (`0x40`).
pub open spec fn shadow_value(v: i32, head: Seq<char>, parts: Seq<TagArg>) -> bool {
    if head.len() > 0 && head[0] == '!' {
        v == 0
    } else {
        let t = parts[1].text@;
        let a: u8 = if parts.len() == 3 { alpha_of(parts[2].text@).unwrap() } else { 0x40u8 };
        if t.len() > 0 && t[0] == '#' && utf8_len(t.subrange(1, t.len() as int)) == 8 {
            v == hex_value(t.subrange(1, t.len() as int)) as u32 as i32
        } else {
            v == shadow_argb(a, stop_color(t).0, stop_color(t).1, stop_color(t).2)
        }
    }
}

/// The value a style tag sets, where its argument decides it without a hole: the font as
/// written, a literal insertion, a hex color, a color argument, or the color a name stands for.
pub open spec fn style_tag_value(after: StyleV, c: Seq<char>, head: Seq<char>, parts: Seq<TagArg>) -> bool {
    if c == "font"@ {
        after.font matches Some(f) && f@ == joined_args(parts, parts.len() as int)
    } else if c == "insert"@ {
        hole_free(parts[1].text@) && unbraced(parts[1].text@).len() > 0 ==> (after.insertion matches Some(segs)
            && segs.len() == 1 && (segs[0] matches StrSeg::Lit(x) && x@ == unbraced(parts[1].text@)))
    } else if c == "color"@ && head.len() > 0 && head[0] == '#' {
        after.color == Some(rgb_of(hex_value(head.subrange(1, head.len() as int))))
    } else if c == "color"@ {
        !is_hole_spec(parts[1].text@) ==> (after.color matches Some(x) && color_arg_is(x, parts[1].text@))
    } else if c == "shadow"@ {
        after.shadow_color matches Some(v) && shadow_value(v, head, parts)
    } else if c == "hover"@ || c == "click"@ {
        true
    } else {
        canonical_row(c) matches Some(k) && after.color matches Some(ColorIr::Named(n)) && n@ == NAMED_COLORS[k].1@
    }
}

/// `<gradient:a:b…>` / `<rainbow>`: marks where the colored span starts.
fn apply_gradient_open(canonical: Vec<char>, rainbow: bool, parts: &Vec<TagArg>, range: (usize, usize), ctx: &mut Ctx) -> (r: Result<(), ParseError>)
    requires
        parts@.len() >= 1,
        ctx_wf(*old(ctx)),
    ensures
        ctx_wf(*final(ctx)),
        rainbow && parts@.len() > 1 ==> (r matches Err(e) && e.range == range),
        !rainbow && parts@.len() < 3 ==> (r matches Err(e) && e.range == range),
        r is Ok ==> opened(*old(ctx), *final(ctx), canonical@) && final(ctx).style == old(ctx).style,
        r is Ok ==> final(ctx).grads@.len() == old(ctx).grads@.len() + 1,
        r is Ok ==> final(ctx).grads@.last().stack_idx == old(ctx).stack@.len(),
        r is Ok ==> final(ctx).grads@.last().stops@.len() == parts@.len() - 1,
        r is Ok ==> forall|k: int| 1 <= k < parts@.len() ==> final(ctx).grads@.last().stops@[k - 1] == stop_color(#[trigger] parts@[k].text@),
{
    let nargs = parts.len() - 1;
    let mut stops: Vec<(u8, u8, u8)> = Vec::new();
    if rainbow {
        if nargs > 0 {
            return Err(err(range, "`<rainbow>` takes no arguments".to_owned(), "for explicit colors use <gradient:#5e4fa2:#f79459>".to_owned()));
        }
    } else {
        if nargs < 2 {
            return Err(err(
                range,
                "`<gradient:…>` needs at least two colors".to_owned(),
                "for example <gradient:#5e4fa2:#f79459> or <gradient:red:blue>".to_owned(),
            ));
        }
        let mut k: usize = 1;
        while k < parts.len()
            invariant
                1 <= k <= parts@.len(),
                stops@.len() == k - 1,
                ctx_wf(*ctx),
                forall|j: int| 1 <= j < k ==> stops@[j - 1] == stop_color(#[trigger] parts@[j].text@),
                !rainbow,
                parts@.len() >= 3,
            decreases parts@.len() - k,
        {
            match parse_stop(parts[k].text.as_slice(), parts[k].range) {
                Ok(s) => stops.push(s),
                Err(e) => {
                    return Err(e);
                },
            }
            k = k + 1;
        }
    }
    ctx.flush();
    let mark = GradMark { stack_idx: ctx.stack.len(), piece_start: ctx.pieces.len(), stops };
    ctx.grads.push(mark);
    let ghost before = ctx.stack@;
    let old_style = ctx.style.copy();
    ctx.stack.push((canonical, old_style));
    assert(ctx.stack@.take(before.len() as int) =~= before);
    Ok(())
}


/// Every argument of a tag, texts shorter than `limit` and ranges inside the template.
pub open spec fn parts_ok(parts: Seq<TagArg>, limit: nat) -> bool {
    forall|k: int| 0 <= k < parts.len() ==> arg_within(#[trigger] parts[k], 0, usize::MAX as int)
        && parts[k].text@.len() < limit
}

/// `<lang:key:arg…>`: a translation, each argument its own template.
fn apply_lang(parts: &Vec<TagArg>, with_fallback: bool, range: (usize, usize), ctx: &mut Ctx, mode: Mode, positional: &mut usize, Ghost(limit): Ghost<nat>) -> (r: Result<(), ParseError>)
    requires
        parts@.len() >= 1,
        parts_ok(parts@, limit),
        ctx_wf(*old(ctx)),
    ensures
        ctx_wf(*final(ctx)),
        mode is Runtime ==> *final(positional) == *old(positional),
    decreases limit, 1nat,
{
    if parts.len() < 2 {
        return Err(err(
            range,
            "`<lang:…>` needs a translation key".to_owned(),
            "for example <lang:multiplayer.player.left:'{@}'>".to_owned(),
        ));
    }
    let key_arg = &parts[1];
    let kt = key_arg.text.as_slice();
    let key = if is_hole(kt) {
        let inner = hole_inner(kt);
        if inner.len() > 0 && inner[0] == '@' {
            return Err(err(
                key_arg.range,
                "`{@…}` is a component hole".to_owned(),
                "the key hole takes a Translation: <lang:{}:…> or <lang:{msg}:…>".to_owned(),
            ));
        }
        match hole_arg(inner.as_slice(), key_arg.range, mode, positional) {
            Ok(a) => LangKey::Dyn(a),
            Err(e) => {
                return Err(e);
            },
        }
    } else if kt.len() == 0 {
        return Err(err(
            range,
            "`<lang:>` needs a translation key".to_owned(),
            "for example <lang:multiplayer.player.left>".to_owned(),
        ));
    } else if kt[0] == '{' || kt[kt.len() - 1] == '}' {
        return Err(err(
            key_arg.range,
            "malformed hole in the key position".to_owned(),
            "a dynamic key is written <lang:{}:…> or <lang:{msg}:…>".to_owned(),
        ));
    } else {
        LangKey::Lit(string_of(kt))
    };
    let mut fallback: Option<Vec<StrSeg>> = None;
    let mut k: usize = 2;
    if with_fallback {
        if parts.len() < 3 {
            return Err(err(
                range,
                "`<lang_or:…>` needs a fallback text after the key".to_owned(),
                "for example <lang_or:my.key:'Fallback text'>".to_owned(),
            ));
        }
        let fb = &parts[2];
        match parse_str_segments(fb.text.as_slice(), fb.range.0, mode, positional) {
            Ok(segs) => fallback = Some(segs),
            Err(e) => {
                return Err(e);
            },
        }
        k = 3;
    }
    let mut args: Vec<Vec<Piece>> = Vec::new();
    while k < parts.len()
        invariant
            2 <= k <= parts@.len(),
            parts_ok(parts@, limit),
            ctx_wf(*ctx),
            mode is Runtime ==> *positional == *old(positional),
        decreases parts@.len() - k,
    {
        let arg = &parts[k];
        match parse_pieces(&arg.text, mode, positional, arg.range.0, Ghost(limit)) {
            Ok(p) => args.push(p),
            Err(e) => {
                return Err(e);
            },
        }
        k = k + 1;
    }
    ctx.flush();
    ctx.pieces.push(Piece::Lang { key, fallback, args, style: ctx.style.copy(), range });
    Ok(())
}

/// `<hover:show_text:'…'>` / `<hover:{event}>`.
fn hover_value(name: &[char], parts: &Vec<TagArg>, range: (usize, usize), mode: Mode, positional: &mut usize, Ghost(limit): Ghost<nat>) -> (r: Result<HoverIr, ParseError>)
    requires
        parts@.len() >= 1,
        parts_ok(parts@, limit),
    ensures
        mode is Runtime ==> *final(positional) == *old(positional),
    decreases limit, 1nat,
{
    if parts.len() == 2 && is_hole(parts[1].text.as_slice()) {
        return match event_hole_arg(&parts[1], mode, positional) {
            Ok(a) => Ok(HoverIr::Dyn(a)),
            Err(e) => Err(e),
        };
    }
    if parts.len() != 3 {
        return Err(err(
            range,
            text3("`<", name, ":...>` needs exactly an action and a quoted value"),
            text3("for example: <", name, ":show_text:'…'>"),
        ));
    }
    let action = parts[1].text.as_slice();
    if !eq_lit(action, "show_text") {
        let message = text3("hover action `", action, "` is not supported");
        let help = if eq_lit(action, "show_item") || eq_lit(action, "show_entity") {
            let mut h = text3("`", action, "` needs runtime data (item NBT / entity UUID). Build the HoverEvent and pass it through a hole: <hover:{item}>");
            h
        } else {
            let only: [&'static str; 1] = ["show_text"];
            match suggest(action, only.as_slice()) {
                Some(s) => did_you_mean(s, ""),
                None => "the only supported hover action is `show_text`".to_owned(),
            }
        };
        return Err(err(range, message, help));
    }
    let value = &parts[2];
    let inner = match parse_pieces(&value.text, mode, positional, value.range.0, Ghost(limit)) {
        Ok(p) => p,
        Err(e) => {
            return Err(e);
        },
    };
    if inner.len() == 0 {
        return Err(err(
            range,
            "empty hover text".to_owned(),
            "give the hover something to show: <hover:show_text:'Hi'>".to_owned(),
        ));
    }
    Ok(HoverIr::Text(inner))
}

/// `<click:action:'…'>` / `<click:{event}>`.
fn click_value(name: &[char], parts: &Vec<TagArg>, range: (usize, usize), mode: Mode, positional: &mut usize) -> (r: Result<ClickIr, ParseError>)
    requires
        parts@.len() >= 1,
        parts_ok(parts@, 0x1_0000_0000_0000_0000_0000),
    ensures
        mode is Runtime ==> *final(positional) == *old(positional),
{
    if parts.len() == 2 && is_hole(parts[1].text.as_slice()) {
        return match event_hole_arg(&parts[1], mode, positional) {
            Ok(a) => Ok(ClickIr::Dyn(a)),
            Err(e) => Err(e),
        };
    }
    if parts.len() != 3 {
        return Err(err(
            range,
            text3("`<", name, ":...>` needs exactly an action and a quoted value"),
            text3("for example: <", name, ":run_command:'…'>"),
        ));
    }
    let action = parts[1].text.as_slice();
    let value = &parts[2];
    let segs = match parse_str_segments(value.text.as_slice(), value.range.0, mode, positional) {
        Ok(s) => s,
        Err(e) => {
            return Err(e);
        },
    };
    let all_lit = StrSeg::join_lits(segs.as_slice());
    let kind = if eq_lit(action, "open_url") {
        if let Some(url) = &all_lit {
            let u = chars_of(url.as_str());
            if !starts_with_lit(u.as_slice(), "http://") && !starts_with_lit(u.as_slice(), "https://") {
                return Err(err(
                    range,
                    text3("`", u.as_slice(), "` is not a url the client will open"),
                    "vanilla clients only open http:// and https:// urls".to_owned(),
                ));
            }
        }
        ClickKind::OpenUrl
    } else if eq_lit(action, "run_command") {
        ClickKind::RunCommand
    } else if eq_lit(action, "suggest_command") {
        ClickKind::SuggestCommand
    } else if eq_lit(action, "copy_to_clipboard") {
        ClickKind::CopyToClipboard
    } else if eq_lit(action, "change_page") {
        match &all_lit {
            None => {
                return Err(err(range, "change_page can't take holes".to_owned(), "change_page takes a literal page number".to_owned()));
            },
            Some(page) => {
                let pc = chars_of(page.as_str());
                match parse_i32(pc.as_slice()) {
                    Some(n) => ClickKind::ChangePage(n),
                    None => {
                        return Err(err(
                            range,
                            text3("`", pc.as_slice(), "` is not a valid page number"),
                            "change_page takes an integer: <click:change_page:'3'>".to_owned(),
                        ));
                    },
                }
            },
        }
    } else {
        let actions: [&'static str; 5] = ["open_url", "run_command", "suggest_command", "copy_to_clipboard", "change_page"];
        let message = text3("unknown click action `", action, "`");
        let help = match suggest(action, actions.as_slice()) {
            Some(s) => did_you_mean(s, ""),
            None => "valid actions: open_url, run_command, suggest_command, copy_to_clipboard, change_page".to_owned(),
        };
        return Err(err(range, message, help));
    };
    Ok(ClickIr::Action(kind, segs))
}

/// The tags that restyle what follows: colors, font, shadow, insertion, hover and click.
fn apply_style_tag(head: &[char], name: &[char], canonical: Vec<char>, parts: &Vec<TagArg>, range: (usize, usize), ctx: &mut Ctx, mode: Mode, positional: &mut usize, Ghost(limit): Ghost<nat>) -> (r: Result<(), ParseError>)
    requires
        !(head@.len() > 0 && head@[0] == '!'),
        parts@.len() >= 1,
        parts_ok(parts@, limit),
        ctx_wf(*old(ctx)),
    ensures
        ctx_wf(*final(ctx)),
        mode is Runtime ==> *final(positional) == *old(positional),
        r is Ok ==> opened(*old(ctx), *final(ctx), canonical@),
        r is Ok ==> style_tag_sets(old(ctx).style@, final(ctx).style@, canonical@),
        r is Ok ==> style_tag_value(final(ctx).style@, canonical@, head@, parts@),
        !style_tag_word(canonical@) && canonical_row(canonical@) is None ==> (r matches Err(e) && e.range == range),
    decreases limit, 2nat,
{
    proof {
        lemma_color_word();
    }
    let nargs = parts.len() - 1;
    let ghost before = ctx.style@;
    let mut new = ctx.style.copy();
    let c = canonical.as_slice();
    if eq_lit(c, "color") && head.len() > 0 && head[0] == '#' {
        if nargs > 0 {
            return Err(err(range, "`<#RRGGBB>` takes no arguments".to_owned(), "write the color on its own: <#ff8800>".to_owned()));
        }
        let hex = slice_chars(head, 1, head.len());
        match parse_hex(hex.as_slice(), range) {
            Ok(color) => {
                new.color = Some(color);
                proof { lemma_color_word(); }
                assert(style_tag_sets(before, new@, canonical@));
                assert(style_tag_value(new@, canonical@, head@, parts@));
            },
            Err(e) => {
                return Err(e);
            },
        }
    } else if eq_lit(c, "color") {
        if nargs != 1 {
            return Err(err(range, "`<color:…>` takes exactly one color".to_owned(), COLOR_HELP.to_owned()));
        }
        match color_value(&parts[1], mode, positional) {
            Ok(color) => {
                new.color = Some(color);
                proof { lemma_color_word(); }
                assert(style_tag_sets(before, new@, canonical@));
                assert(style_tag_value(new@, canonical@, head@, parts@));
            },
            Err(e) => {
                return Err(e);
            },
        }
    } else if eq_lit(c, "font") {
        // a resource location keeps its own colons: rejoin the split
        let mut font = String::new();
        let mut empty = true;
        let mut k: usize = 1;
        let ghost base = new;
        while k < parts.len()
            invariant
                1 <= k <= parts@.len(),
                empty ==> font@.len() == 0,
                new == base,
                font@ == joined_args(parts@, k as int),
            decreases parts@.len() - k,
        {
            if k > 1 {
                font.push(':');
                empty = false;
            }
            if parts[k].text.len() > 0 {
                empty = false;
            }
            push_chars(&mut font, parts[k].text.as_slice());
            k = k + 1;
        }
        if empty {
            return Err(err(range, "`<font:>` needs a font".to_owned(), "for example <font:minecraft:uniform>".to_owned()));
        }
        assert(base@ == before);
        assert(base.color == before.color);
        new.font = Some(font);
        assert(style_tag_sets(before, new@, canonical@));
                assert(style_tag_value(new@, canonical@, head@, parts@));
    } else if eq_lit(c, "shadow") {
        if nargs != 1 && nargs != 2 {
            return Err(err(
                range,
                "`<shadow:…>` takes a color and, after it, an alpha".to_owned(),
                "for example <shadow:#80000000> (ARGB), <shadow:red> or <shadow:red:0.5>".to_owned(),
            ));
        }
        let value = parts[1].text.as_slice();
        let alpha: u8 = if nargs == 2 {
            if value.len() > 0 && value[0] == '#' && utf8_length(slice_chars(value, 1, value.len()).as_slice()) == 8 {
                return Err(err(
                    parts[2].range,
                    "`#AARRGGBB` already carries its alpha".to_owned(),
                    "write <shadow:#RRGGBB:0.5> or <shadow:#80RRGGBB>".to_owned(),
                ));
            }
            match parse_alpha(parts[2].text.as_slice(), parts[2].range) {
                Ok(a) => a,
                Err(e) => {
                    return Err(e);
                },
            }
        } else {
            0x40
        };
        match parse_shadow(value, alpha, parts[1].range) {
            Ok(v) => {
                new.shadow_color = Some(v);
                assert(style_tag_sets(before, new@, canonical@));
                assert(style_tag_value(new@, canonical@, head@, parts@));
            },
            Err(e) => {
                return Err(e);
            },
        }
    } else if eq_lit(c, "insert") {
        if nargs != 1 {
            return Err(err(
                range,
                "`<insertion:…>` takes exactly one quoted value".to_owned(),
                "for example <insertion:'/msg {name} '>".to_owned(),
            ));
        }
        match parse_str_segments(parts[1].text.as_slice(), parts[1].range.0, mode, positional) {
            Ok(segs) => {
                new.insertion = Some(segs);
                assert(style_tag_sets(before, new@, canonical@));
                assert(style_tag_value(new@, canonical@, head@, parts@));
            },
            Err(e) => {
                return Err(e);
            },
        }
    } else if eq_lit(c, "hover") {
        match hover_value(name, parts, range, mode, positional, Ghost(limit)) {
            Ok(h) => {
                new.hover = Some(h);
                assert(style_tag_sets(before, new@, canonical@));
                assert(style_tag_value(new@, canonical@, head@, parts@));
            },
            Err(e) => {
                return Err(e);
            },
        }
    } else if eq_lit(c, "click") {
        assert(parts_ok(parts@, 0x1_0000_0000_0000_0000_0000)) by {
            assert forall|k: int| 0 <= k < parts@.len() implies arg_within(#[trigger] parts@[k], 0, usize::MAX as int)
                && parts@[k].text@.len() < 0x1_0000_0000_0000_0000_0000 by {
                assert(parts@[k].text@.len() <= usize::MAX);
            }
        }
        match click_value(name, parts, range, mode, positional) {
            Ok(cl) => {
                new.click = Some(cl);
                assert(style_tag_sets(before, new@, canonical@));
                assert(style_tag_value(new@, canonical@, head@, parts@));
            },
            Err(e) => {
                return Err(e);
            },
        }
    } else {
        match find_canonical(c) {
            Some(i) => {
                if nargs > 0 {
                    return Err(err(
                        range,
                        text3("`<", name, ">` takes no arguments"),
                        text3("write the color on its own: <", name, ">"),
                    ));
                }
                new.color = Some(ColorIr::Named(NAMED_COLORS[i].1.to_owned()));
                assert(style_tag_sets(before, new@, canonical@));
                assert(style_tag_value(new@, canonical@, head@, parts@));
            },
            None => {
                let message = text3("unknown tag `<", c, ">`");
                let names = all_tag_names();
                let help = match suggest(c, names.as_slice()) {
                    Some(s) => {
                        let mut h = "did you mean `<".to_owned();
                        h.push_str(s);
                        h.push_str(">`?");
                        h
                    },
                    None => SUPPORTED_SUMMARY.to_owned(),
                };
                return Err(err(range, message, help));
            },
        }
    }
    assert(style_tag_sets(before, new@, canonical@));
                assert(style_tag_value(new@, canonical@, head@, parts@));
    open_tag(canonical, new, ctx);
    Ok(())
}

/// A tag's first part as it is read: tag names without regard to case, a `{…}` hole as written.
pub open spec fn tag_head(parts: Seq<TagArg>) -> Seq<char> {
    let h = parts[0].text@;
    if h.len() > 0 && h[0] == '{' {
        h
    } else {
        lower_spec(h)
    }
}

/// `</name>`: a tag whose whole text starts with a slash.
pub open spec fn is_closing(parts: Seq<TagArg>) -> bool {
    parts.len() == 1 && tag_head(parts).len() > 0 && tag_head(parts)[0] == '/'
}

/// A tag that stands for itself, with no argument: a line break or a reset.
pub open spec fn is_bare_word(parts: Seq<TagArg>, word: Seq<char>) -> bool {
    parts.len() == 1 && tag_head(parts) == word
}

/// The tag's name without a leading `!`.
pub open spec fn bare_name(head: Seq<char>) -> Seq<char> {
    if head.len() > 0 && head[0] == '!' {
        head.subrange(1, head.len() as int)
    } else {
        head
    }
}

/// The name under which an opening tag goes onto the stack: `color` for `<{…}>`, else its
/// canonical name.
pub open spec fn stack_name(parts: Seq<TagArg>) -> Seq<char> {
    if parts.len() == 1 && tag_head(parts).len() > 0 && tag_head(parts)[0] == '{' {
        "color"@
    } else {
        canonical_tag_spec(bare_name(tag_head(parts)))
    }
}

/// Every tag but a closing tag, a line break, a reset, a keybind and a translation opens a span.
pub open spec fn opens_span(parts: Seq<TagArg>) -> bool {
    &&& !is_closing(parts)
    &&& !is_bare_word(parts, "newline"@) && !is_bare_word(parts, "br"@) && !is_bare_word(parts, "reset"@)
    &&& stack_name(parts) != "key"@ && stack_name(parts) != "lang"@ && stack_name(parts) != "lang_or"@
}

/// A tag that opens a span and sets one style attribute: not a flag, not a gradient, not a
/// `<{…}>` color hole.
pub open spec fn styles_span(parts: Seq<TagArg>) -> bool {
    &&& opens_span(parts)
    &&& !flag_name_spec(stack_name(parts))
    &&& stack_name(parts) != "gradient"@ && stack_name(parts) != "rainbow"@
    &&& !(parts.len() == 1 && tag_head(parts).len() > 0 && tag_head(parts)[0] == '{')
}

/// What a formatting flag tag does to the style: `<!b>` turns it off, `<b>`, `<b:true>` and
/// `<b:false>` set what they say.
pub open spec fn flag_effect(parts: Seq<TagArg>, before: StyleV, after: StyleV, r: Result<(), ParseError>) -> bool {
    let head = tag_head(parts);
    let c = stack_name(parts);
    &&& opens_span(parts) && parts.len() == 1 && head.len() > 1 && head[0] == '!' && flag_name_spec(c)
        ==> r is Ok && after == with_flag(before, c, BoolIr::Const(false))
    &&& opens_span(parts) && !(head.len() > 0 && head[0] == '!') && flag_name_spec(c)
        ==> (flag_arg(parts) matches Some(v) ==> r is Ok && after == with_flag(before, c, v))
}

/// What any other opening tag does to the style: a style tag sets its one attribute to its
/// value, a gradient leaves the style alone, `<{…}>` sets a color read at run time.
pub open spec fn style_effect(parts: Seq<TagArg>, before: StyleV, after: StyleV, r: Result<(), ParseError>) -> bool {
    let head = tag_head(parts);
    let c = stack_name(parts);
    &&& styles_span(parts) && r is Ok ==> style_tag_sets(before, after, c) && style_tag_value(after, c, head, parts)
    &&& opens_span(parts) && r is Ok && (c == "gradient"@ || c == "rainbow"@) ==> after == before
    &&& opens_span(parts) && parts.len() == 1 && head.len() > 0 && head[0] == '{' && r is Ok
        ==> after == (StyleV { color: after.color, ..before }) && after.color matches Some(ColorIr::Dyn(_))
}

/// Applies one tag to the parse state.
fn apply_tag(parts: &Vec<TagArg>, range: (usize, usize), ctx: &mut Ctx, mode: Mode, positional: &mut usize, Ghost(limit): Ghost<nat>) -> (r: Result<(), ParseError>)
    requires
        parts@.len() >= 1,
        parts_ok(parts@, limit),
        ctx_wf(*old(ctx)),
    ensures
        ctx_wf(*final(ctx)),
        mode is Runtime ==> *final(positional) == *old(positional),
        is_closing(parts@) ==> closes(*old(ctx), canonical_tag_spec(tag_head(parts@).subrange(1, tag_head(parts@).len() as int)), range, *final(ctx), r),
        is_bare_word(parts@, "newline"@) || is_bare_word(parts@, "br"@) ==> r is Ok
            && final(ctx).text@ == old(ctx).text@.push('\n') && final(ctx).pieces == old(ctx).pieces
            && final(ctx).stack == old(ctx).stack && final(ctx).style == old(ctx).style,
        is_bare_word(parts@, "reset"@) ==> r is Ok && final(ctx).stack@.len() == 0
            && final(ctx).style@ == empty_style() && final(ctx).text@.len() == 0,
        tag_head(parts@).len() > 0 && tag_head(parts@)[0] == '!' && !flag_name_spec(stack_name(parts@))
            && !(stack_name(parts@) == "shadow"@ && parts@.len() == 1)
            ==> (r matches Err(e) && e.range == range),
        opens_span(parts@) && r is Ok ==> opened(*old(ctx), *final(ctx), stack_name(parts@)),
        opens_span(parts@) && r is Ok && flag_name_spec(stack_name(parts@)) ==> exists|v: BoolIr|
            final(ctx).style@ == #[trigger] with_flag(old(ctx).style@, stack_name(parts@), v),
        flag_effect(parts@, old(ctx).style@, final(ctx).style@, r),
        style_effect(parts@, old(ctx).style@, final(ctx).style@, r),
    decreases limit, 3nat,
{
    proof {
        reveal_strlit("newline");
        reveal_strlit("br");
        reveal_strlit("reset");
        reveal_strlit("color");
        reveal_strlit("key");
        reveal_strlit("lang");
        reveal_strlit("lang_or");
        lemma_color_word();
    }
    let first = parts[0].text.as_slice();
    let low = if first.len() > 0 && first[0] == '{' {
        slice_chars(first, 0, first.len())
    } else {
        lower_ascii(first)
    };
    assert(low@ == tag_head(parts@)) by {
        if first@.len() > 0 && first@[0] == '{' {
            assert(first@.subrange(0, first@.len() as int) =~= first@);
        }
    }
    let head = low.as_slice();
    let nargs = parts.len() - 1;
    if head.len() > 0 && head[0] == '/' && nargs == 0 {
        let name = slice_chars(head, 1, head.len());
        return close_tag(name.as_slice(), range, ctx);
    }
    if nargs == 0 {
        if eq_lit(head, "newline") || eq_lit(head, "br") {
            ctx.push_text('\n', range);
            return Ok(());
        }
        if eq_lit(head, "reset") {
            ctx.flush();
            ctx.close_gradients(0);
            ctx.stack = Vec::new();
            ctx.style = Style::empty();
            return Ok(());
        }
        if head.len() > 0 && head[0] == '{' {
            if !is_hole(head) {
                return Err(err(range, "unclosed `{` inside this tag".to_owned(), "dynamic colors are written <{}> or <{color_var}>".to_owned()));
            }
            let inner = hole_inner(head);
            let arg = match hole_arg(inner.as_slice(), range, mode, positional) {
                Ok(a) => a,
                Err(e) => {
                    return Err(e);
                },
            };
            let new = Style { color: Some(ColorIr::Dyn(arg)), ..ctx.style.copy() };
            open_tag(chars_of("color"), new, ctx);
            return Ok(());
        }
    }
    let negated = head.len() > 0 && head[0] == '!';
    let name = if negated { slice_chars(head, 1, head.len()) } else { slice_chars(head, 0, head.len()) };
    assert(name@ == bare_name(head@));
    let canonical = canonical_tag(name.as_slice());
    assert(canonical@ == stack_name(parts@));
    let is_flag = is_flag_name(canonical.as_slice());
    if negated && !is_flag {
        if eq_lit(canonical.as_slice(), "shadow") && nargs == 0 {
            let ghost before = ctx.style@;
            let mut new = ctx.style.copy();
            new.shadow_color = Some(0);
            assert(style_tag_sets(before, new@, canonical@));
            open_tag(canonical, new, ctx);
            return Ok(());
        }
        return Err(err(
            range,
            text3("`<!", name.as_slice(), ">` — only formatting flags and shadows can be negated"),
            "negation works on b/i/u/st/obf, e.g. <!bold>".to_owned(),
        ));
    }
    if is_flag {
        let ghost before = ctx.style@;
        let ghost c = canonical@;
        let res = apply_flag(name.as_slice(), canonical, negated, parts, range, ctx, mode, positional);
        proof {
            if res is Ok {
                let v = choose|v: BoolIr| ctx.style@ == with_flag(before, c, v);
                assert(ctx.style@ == with_flag(before, stack_name(parts@), v));
            }
        }
        return res;
    }
    let c = canonical.as_slice();
    if eq_lit(c, "key") {
        return apply_key(parts, range, ctx);
    }
    if eq_lit(c, "lang") || eq_lit(c, "lang_or") {
        let with_fallback = eq_lit(c, "lang_or");
        return apply_lang(parts, with_fallback, range, ctx, mode, positional, Ghost(limit));
    }
    if eq_lit(c, "gradient") || eq_lit(c, "rainbow") {
        let rainbow = eq_lit(c, "rainbow");
        return apply_gradient_open(canonical, rainbow, parts, range, ctx);
    }
    apply_style_tag(head, name.as_slice(), canonical, parts, range, ctx, mode, positional, Ghost(limit))
}

/// Template text with no markup in it: no `<`, `{`, `}` or `\`.
pub open spec fn plain_text(s: Seq<char>) -> bool {
    forall|k: int| 0 <= k < s.len() ==> #[trigger] s[k] != '<' && s[k] != '{' && s[k] != '}' && s[k] != '\\'
}

/// What plain text parses to: nothing when it is empty, else one unstyled text piece over all of
/// it.
pub open spec fn plain_pieces(ps: Seq<Piece>, s: Seq<char>, offset: int) -> bool {
    if s.len() == 0 {
        ps.len() == 0
    } else {
        ps.len() == 1 && (ps[0] matches Piece::Text { text, style, range } && text@ == s
            && style@ == empty_style() && range.0 == offset && range.1 == offset + s.len())
    }
}

/// Parses template text whose first char sits at `offset` in the outermost template.
fn parse_pieces(chars: &Vec<char>, mode: Mode, positional: &mut usize, offset: usize, Ghost(limit): Ghost<nat>) -> (r: Result<Vec<Piece>, ParseError>)
    requires
        offset + chars@.len() <= usize::MAX,
        chars@.len() < limit,
    ensures
        mode is Runtime ==> *final(positional) == *old(positional),
        plain_text(chars@) ==> (r matches Ok(ps) && plain_pieces(ps@, chars@, offset as int))
            && *final(positional) == *old(positional),
    decreases limit, 0nat,
{
    let n = chars.len();
    let mut ctx = Ctx::new();
    let mut pos: usize = 0;
    while pos < n
        invariant
            n == chars@.len(),
            n < limit,
            pos <= n,
            offset + n <= usize::MAX,
            ctx_wf(ctx),
            mode is Runtime ==> *positional == *old(positional),
            plain_text(chars@) ==> *positional == *old(positional) && ctx.pieces@.len() == 0 && ctx.grads@.len() == 0
                && ctx.style@ == empty_style() && ctx.text@ == chars@.subrange(0, pos as int)
                && (pos > 0 ==> ctx.text_range == (offset, (offset + pos) as usize)),
        decreases n - pos,
    {
        let c = chars[pos];
        if c == '\\' && pos + 1 < n && (chars[pos + 1] == '<' || chars[pos + 1] == '\\') {
            ctx.push_text(chars[pos + 1], (offset + pos, offset + pos + 2));
            pos = pos + 2;
        } else if c == '{' && pos + 1 < n && chars[pos + 1] == '{' {
            ctx.push_text('{', (offset + pos, offset + pos + 2));
            pos = pos + 2;
        } else if c == '}' && pos + 1 < n && chars[pos + 1] == '}' {
            ctx.push_text('}', (offset + pos, offset + pos + 2));
            pos = pos + 2;
        } else if c == '{' {
            ctx.flush();
            let hole = match read_hole(chars, &mut pos, offset, mode, positional) {
                Ok(h) => h,
                Err(e) => {
                    return Err(e);
                },
            };
            ctx.pieces.push(Piece::Hole {
                arg: hole.arg,
                kind: hole.kind,
                spec: hole.spec,
                style: ctx.style.copy(),
                range: hole.range,
            });
        } else if c == '<' {
            let ghost p0 = pos;
            let (parts, range, self_closing) = match read_tag(chars, &mut pos, offset) {
                Ok(x) => x,
                Err(e) => {
                    return Err(e);
                },
            };
            assert(parts_ok(parts@, n as nat)) by {
                assert forall|k: int| 0 <= k < parts@.len() implies arg_within(#[trigger] parts@[k], 0, usize::MAX as int)
                    && parts@[k].text@.len() < n by {
                    assert(arg_within(parts@[k], offset + p0 + 1, offset + n));
                }
            }
            let depth = ctx.stack.len();
            match apply_tag(&parts, range, &mut ctx, mode, positional, Ghost(n as nat)) {
                Ok(()) => {},
                Err(e) => {
                    return Err(e);
                },
            }
            if self_closing && ctx.stack.len() > depth {
                close_to(depth, &mut ctx);
            }
        } else {
            ctx.push_text(c, (offset + pos, offset + pos + 1));
            pos = pos + 1;
            assert(plain_text(chars@) ==> ctx.text@ =~= chars@.subrange(0, pos as int));
        }
    }
    proof {
        if plain_text(chars@) {
            assert(ctx.text@ =~= chars@);
        }
    }
    ctx.flush();
    ctx.close_gradients(0);
    Ok(ctx.pieces)
}

/// Parses a MiniMessage template into its pieces.
pub fn parse(input: &str, mode: Mode) -> (r: Result<Template, ParseError>)
    ensures
        mode is Runtime ==> (r matches Ok(t) ==> t.positional_count == 0),
        plain_text(input@) ==> (r matches Ok(t) && t.positional_count == 0 && plain_pieces(t.pieces@, input@, 0)),
{
    let chars = chars_of(input);
    let n = chars.len();
    let mut positional: usize = 0;
    match parse_pieces(&chars, mode, &mut positional, 0, Ghost(n as nat + 1)) {
        Ok(pieces) => Ok(Template { pieces, positional_count: positional }),
        Err(e) => Err(e),
    }
}

} // verus!
