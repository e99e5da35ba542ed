//! The scalar values of SNBT: quoted strings, booleans, numbers and int lists.
use vstd::prelude::*;
use crate::decode::{SnbtError, SnbtErrorV};
use crate::grammar::parser::{dec_value, is_whitespace, is_whitespace_spec};

verus! {

/// Where the reader gave up, carried by `EndedAbruptely` and `UnfinishedComponent` so a
/// report can name the place.
pub const STRING_UNCLOSED: u32 = 25;
pub const INTS_BAD_CHAR: u32 = 220;
pub const INTS_UNCLOSED: u32 = 223;

/// Whether `char::is_numeric` holds: the char's general category is one of the Unicode
/// number categories (`Nd`, `Nl`, `No`).
pub uninterp spec fn numeric_char(c: char) -> bool;

/// `char::is_numeric`. Claimed of it: ASCII digits are numbers, and no other ASCII char
/// is, as the Unicode number categories hold no other ASCII char.
#[verifier::external_body]
pub(crate) fn is_numeric(c: char) -> (r: bool)
    ensures
        r == numeric_char(c),
        '0' <= c <= '9' ==> r,
        c <= '\u{7f}' && !('0' <= c <= '9') ==> !r,
{
    c.is_numeric()
}

// ---------------------------------------------------------------------------
// Quoted strings.

/// The text of a quoted string whose opening quote is already read, from `pos` on:
/// `\"`, `\'`, `\n` and `\\` are escapes, any other escaped char is dropped with its
/// backslash. Gives the text and the position after the closing quote.
pub open spec fn string_from(cs: Seq<char>, pos: int, opener: char, acc: Seq<char>) -> Result<(Seq<char>, int), SnbtErrorV>
    decreases cs.len() - pos,
{
    if pos < 0 || pos >= cs.len() {
        Err(SnbtErrorV::EndedAbruptely(STRING_UNCLOSED))
    } else if cs[pos] == opener {
        Ok((acc, pos + 1))
    } else if cs[pos] == '\\' && pos + 1 < cs.len() {
        let e = cs[pos + 1];
        let acc2 = if e == '"' || e == '\'' || e == '\\' {
            acc.push(e)
        } else if e == 'n' {
            acc.push('\n')
        } else {
            acc
        };
        string_from(cs, pos + 2, opener, acc2)
    } else {
        string_from(cs, pos + 1, opener, acc.push(cs[pos]))
    }
}

/// A quoted string whose opening quote is already read.
pub(crate) fn parse_string(cs: &[char], pos: usize, opener: char) -> (r: Result<(String, usize), SnbtError>)
    requires
        pos <= cs@.len(),
    ensures
        match string_from(cs@, pos as int, opener, Seq::empty()) {
            Ok((t, q)) => r matches Ok((s, p)) && s@ == t && p == q,
            Err(e) => r matches Err(x) && x@ == e,
        },
        r matches Ok((_, p)) ==> pos < p <= cs@.len(),
{
    let mut content = String::new();
    let mut i = pos;
    while i < cs.len()
        invariant
            pos <= i <= cs@.len(),
            string_from(cs@, pos as int, opener, Seq::empty()) == string_from(cs@, i as int, opener, content@),
        decreases cs@.len() - i,
    {
        let c = cs[i];
        if c == opener {
            return Ok((content, i + 1));
        }
        if c == '\\' && i + 1 < cs.len() {
            let e = cs[i + 1];
            if e == '"' || e == '\'' || e == '\\' {
                content.push(e);
            } else if e == 'n' {
                content.push('\n');
            }
            i = i + 2;
        } else {
            content.push(c);
            i = i + 1;
        }
    }
    Err(SnbtError::EndedAbruptely(STRING_UNCLOSED))
}

// ---------------------------------------------------------------------------
// Numbers.

/// A number as SNBT writes it. A float or double is carried as the integer its text
/// reads, clamped to 2^40 either way: its text is digits only, and past that size every
/// use saturates.
pub enum Num {
    I8(i8),
    I16(i16),
    I32(i32),
    I64(i64),
    F32(i64),
    F64(i64),
}

/// The bound a float's integer is clamped to.
pub const FLOAT_CLAMP: i64 = 0x100_0000_0000;

pub open spec fn sat_i32(v: int) -> i32 {
    if v > i32::MAX { i32::MAX } else if v < i32::MIN { i32::MIN } else { v as i32 }
}

/// The spacing of `f32` values around `v`: one below 2^24, doubling with each bit above.
pub open spec fn f32_ulp(v: nat) -> nat
    decreases v,
{
    if v < 0x100_0000 { 1 } else { 2 * f32_ulp(v / 2) }
}

/// The `f32` nearest a non-negative integer, ties to an even significand.
pub open spec fn f32_round_nat(v: nat) -> nat {
    let u = f32_ulp(v);
    let q = v / u;
    let r = v % u;
    if u == 1 {
        v
    } else if r * 2 > u || (r * 2 == u && q % 2 == 1) {
        (q + 1) * u
    } else {
        q * u
    }
}

/// The `f32` nearest an integer.
pub open spec fn f32_round(v: int) -> int {
    if v >= 0 { f32_round_nat(v as nat) as int } else { -(f32_round_nat((-v) as nat) as int) }
}

/// `Num::as_i32`: integers cast as Rust's `as` casts them (a long wraps), floats rounded
/// to their type and then saturated.
pub open spec fn num_i32(n: Num) -> i32 {
    match n {
        Num::I8(v) => v as i32,
        Num::I16(v) => v as i32,
        Num::I32(v) => v,
        Num::I64(v) => v as i32,
        Num::F32(v) => sat_i32(f32_round(v as int)),
        Num::F64(v) => sat_i32(v as int),
    }
}

fn sat(v: i64) -> (r: i32)
    ensures
        r == sat_i32(v as int),
{
    if v > 0x7FFF_FFFF {
        0x7FFF_FFFF
    } else if v < -0x8000_0000 {
        -0x8000_0000
    } else {
        v as i32
    }
}

proof fn lemma_ulp_step(v: nat)
    requires
        v >= 0x100_0000,
    ensures
        f32_ulp(v) == 2 * f32_ulp(v / 2),
{
}

proof fn lemma_ulp_pos(v: nat)
    ensures
        f32_ulp(v) >= 1,
    decreases v,
{
    if v >= 0x100_0000 {
        lemma_ulp_pos(v / 2);
    }
}

fn round_f32(v: u64) -> (r: u64)
    requires
        v <= FLOAT_CLAMP,
    ensures
        r == f32_round_nat(v as nat),
        r <= v + 0x2_0000,
{
    let mut u: u64 = 1;
    let mut t: u64 = v;
    while t >= 0x100_0000
        invariant
            1 <= u <= v + 1,
            t as int == (v as int) / (u as int),
            f32_ulp(v as nat) == u * f32_ulp(t as nat),
            v <= FLOAT_CLAMP,
            u <= 0x2_0000,
        decreases t,
    {
        proof {
            lemma_ulp_step(t as nat);
            vstd::arithmetic::div_mod::lemma_div_denominator(v as int, u as int, 2);
            vstd::arithmetic::mul::lemma_mul_is_associative(u as int, 2, f32_ulp((t / 2) as nat) as int);
            assert(t >= 0x100_0000);
            assert((v as int) / (u as int) >= 0x100_0000);
            assert(u * 0x100_0000 <= v) by (nonlinear_arith)
                requires (v as int) / (u as int) >= 0x100_0000, u >= 1;
            assert(u <= 0x1_0000) by (nonlinear_arith)
                requires u * 0x100_0000 <= v, v <= 0x100_0000_0000;
        }
        t = t / 2;
        u = u * 2;
    }
    proof {
        lemma_ulp_pos(t as nat);
    }
    assert(f32_ulp(t as nat) == 1);
    assert(f32_ulp(v as nat) == u) by (nonlinear_arith)
        requires f32_ulp(t as nat) == 1, f32_ulp(v as nat) == u * f32_ulp(t as nat);
    if u == 1 {
        assert(v / 1 == v);
        return v;
    }
    let q = v / u;
    let rem = v % u;
    assert(q * u <= v) by (nonlinear_arith)
        requires q == v / u, u >= 1;
    assert((q + 1) * u <= v + u) by (nonlinear_arith)
        requires q == v / u, u >= 1;
    if rem * 2 > u || (rem * 2 == u && q % 2 == 1) {
        (q + 1) * u
    } else {
        q * u
    }
}

/// `Num::as_i32`.
pub(crate) fn as_i32(n: &Num) -> (r: i32)
    requires
        num_clamped(*n),
    ensures
        r == num_i32(*n),
{
    match n {
        Num::I8(v) => *v as i32,
        Num::I16(v) => *v as i32,
        Num::I32(v) => *v,
        Num::I64(v) => *v as i32,
        Num::F32(v) => {
            if *v >= 0 {
                sat(round_f32(*v as u64) as i64)
            } else {
                sat(-(round_f32((-*v) as u64) as i64))
            }
        },
        Num::F64(v) => sat(*v),
    }
}

/// What `str::parse` accepts as an integer: an optional sign, then one or more ASCII
/// digits whose value lies in `lo..=hi`.
pub open spec fn int_spec(s: Seq<char>, lo: int, hi: int) -> Option<int> {
    let neg = s.len() > 0 && s[0] == '-';
    let signed = s.len() > 0 && (s[0] == '-' || s[0] == '+');
    let digits = if signed { s.subrange(1, s.len() as int) } else { s };
    let v = if neg { -dec_value(digits) } else { dec_value(digits) };
    if digits.len() == 0 || !crate::grammar::parser::all_digits_spec(digits) || v < lo || v > hi {
        None
    } else {
        Some(v)
    }
}

/// The integer a float's text reads: SNBT number texts hold only digits and minus signs,
/// and of those `str::parse::<f32>` takes an optional sign and one or more ASCII digits.
pub open spec fn float_spec(s: Seq<char>) -> Option<int> {
    let neg = s.len() > 0 && s[0] == '-';
    let digits = if neg { s.subrange(1, s.len() as int) } else { s };
    if digits.len() == 0 || !crate::grammar::parser::all_digits_spec(digits) {
        None
    } else {
        Some(if neg { -dec_value(digits) } else { dec_value(digits) })
    }
}

pub open spec fn clamp_float(v: int) -> i64 {
    if v > FLOAT_CLAMP { FLOAT_CLAMP } else if v < -FLOAT_CLAMP { (-FLOAT_CLAMP) as i64 } else { v as i64 }
}

proof fn lemma_dec_step(s: Seq<char>, k: int)
    requires
        0 <= k < s.len(),
    ensures
        dec_value(s.subrange(0, k + 1)) == dec_value(s.subrange(0, k)) * 10 + (s[k] as int - '0' as int),
{
    assert(s.subrange(0, k + 1).drop_last() =~= s.subrange(0, k));
}

proof fn lemma_dec_mono(s: Seq<char>, k: int)
    requires
        0 <= k <= s.len(),
        crate::grammar::parser::all_digits_spec(s),
    ensures
        dec_value(s.subrange(0, k)) <= dec_value(s),
        dec_value(s.subrange(0, k)) >= 0,
    decreases s.len() - k,
{
    if k < s.len() {
        lemma_dec_mono(s, k + 1);
        lemma_dec_step(s, k);
        assert('0' <= s[k] <= '9');
    } else {
        assert(s.subrange(0, k) =~= s);
    }
    assert forall|i: int| 0 <= i < k implies '0' <= #[trigger] s.subrange(0, k)[i] <= '9' by {
        assert(s.subrange(0, k)[i] == s[i]);
    }
    crate::grammar::parser::lemma_dec_nonneg(s.subrange(0, k));
}

/// The value of a run of ASCII digits, `None` when a char is not one; capped just past
/// `cap`, where its exact value stops mattering.
fn digits_value(s: &[char], start: usize, cap: i128) -> (r: Option<i128>)
    requires
        start <= s@.len(),
        0 <= cap <= 0x8000_0000_0000_0000,
    ensures
        match r {
            Some(v) => crate::grammar::parser::all_digits_spec(s@.subrange(start as int, s@.len() as int))
                && (v <= cap ==> v == dec_value(s@.subrange(start as int, s@.len() as int)))
                && (v > cap ==> dec_value(s@.subrange(start as int, s@.len() as int)) > cap)
                && 0 <= v,
            None => !crate::grammar::parser::all_digits_spec(s@.subrange(start as int, s@.len() as int)),
        },
{
    let ghost d = s@.subrange(start as int, s@.len() as int);
    let mut v: i128 = 0;
    let mut i = start;
    let mut over = false;
    while i < s.len()
        invariant
            start <= i <= s@.len(),
            d == s@.subrange(start as int, s@.len() as int),
            crate::grammar::parser::all_digits_spec(d.subrange(0, i - start)),
            !over ==> v == dec_value(d.subrange(0, i - start)),
            over ==> dec_value(d.subrange(0, i - start)) > cap && v == cap + 1,
            0 <= v <= cap + 1,
            0 <= cap <= 0x8000_0000_0000_0000,
        decreases s@.len() - i,
    {
        let c = s[i];
        assert(d[i - start] == c);
        if !('0' <= c && c <= '9') {
            assert(!crate::grammar::parser::all_digits_spec(d));
            return None;
        }
        proof {
            lemma_dec_step(d, i - start);
            assert(crate::grammar::parser::all_digits_spec(d.subrange(0, i - start + 1))) by {
                assert forall|k: int| 0 <= k < i - start + 1 implies '0' <= #[trigger] d.subrange(0, i - start + 1)[k] <= '9' by {
                    if k < i - start {
                        assert(d.subrange(0, i - start + 1)[k] == d.subrange(0, i - start)[k]);
                    }
                }
            }
        }
        if !over {
            let w = v * 10 + ((c as u32) - ('0' as u32)) as i128;
            if w > cap {
                over = true;
                v = cap + 1;
            } else {
                v = w;
            }
        }
        i = i + 1;
    }
    assert(d.subrange(0, d.len() as int) =~= d);
    Some(v)
}

/// An integer in `lo..=hi` read as `str::parse` reads one.
fn parse_int(s: &[char], lo: i128, hi: i128) -> (r: Option<i128>)
    requires
        -0x8000_0000_0000_0000 <= lo <= 0,
        0 <= hi < 0x8000_0000_0000_0000,
    ensures
        r == match int_spec(s@, lo as int, hi as int) {
            Some(v) => Some(v as i128),
            None => None,
        },
{
    let neg = s.len() > 0 && s[0] == '-';
    let start: usize = if s.len() > 0 && (s[0] == '-' || s[0] == '+') { 1 } else { 0 };
    assert(s@.subrange(start as int, s@.len() as int) == (if s@.len() > 0 && (s@[0] == '-' || s@[0] == '+') {
        s@.subrange(1, s@.len() as int)
    } else {
        s@
    }));
    if start == s.len() {
        return None;
    }
    match digits_value(s, start, 0x8000_0000_0000_0000) {
        None => None,
        Some(v) => {
            let x = if neg { -v } else { v };
            if x < lo || x > hi {
                None
            } else {
                Some(x)
            }
        },
    }
}

/// A float's integer, clamped.
fn parse_float(s: &[char]) -> (r: Option<i64>)
    ensures
        r == match float_spec(s@) {
            Some(v) => Some(clamp_float(v)),
            None => None,
        },
{
    let neg = s.len() > 0 && s[0] == '-';
    let start: usize = if neg { 1 } else { 0 };
    assert(s@.subrange(start as int, s@.len() as int) == (if neg { s@.subrange(1, s@.len() as int) } else { s@ }));
    if start == s.len() {
        return None;
    }
    match digits_value(s, start, FLOAT_CLAMP as i128) {
        None => None,
        Some(v) => {
            let c = if v > FLOAT_CLAMP as i128 { FLOAT_CLAMP } else { v as i64 };
            Some(if neg { -c } else { c })
        },
    }
}

/// Where a number's text ends: the first char from `p` on that is neither numeric nor a
/// minus sign.
pub open spec fn num_end(cs: Seq<char>, p: int) -> int
    decreases cs.len() - p,
{
    if p < 0 || p >= cs.len() {
        cs.len() as int
    } else if numeric_char(cs[p]) || cs[p] == '-' {
        num_end(cs, p + 1)
    } else {
        p
    }
}

/// The type a suffix letter names, either case; any other char ends an int.
pub open spec fn suffix_of(c: char) -> char {
    if c == 'b' || c == 'B' {
        'b'
    } else if c == 's' || c == 'S' {
        's'
    } else if c == 'l' || c == 'L' {
        'l'
    } else if c == 'f' || c == 'F' {
        'f'
    } else if c == 'd' || c == 'D' {
        'd'
    } else {
        ' '
    }
}

/// A number whose first char is already read: numeric chars and minus signs, then a
/// suffix naming its type (consumed) or any other char (left) for an int. Gives the
/// number and the position after it.
pub open spec fn num_spec(first: char, cs: Seq<char>, pos: int, ct: Seq<char>) -> Result<(Num, int), SnbtErrorV> {
    if !numeric_char(first) && first != '-' && first != '.' {
        Err(SnbtErrorV::WrongContentType(ct))
    } else if first == '.' {
        Err(SnbtErrorV::WrongContentType(ct))
    } else {
        let q = num_end(cs, pos);
        if q >= cs.len() {
            Err(SnbtErrorV::WrongContentType(ct))
        } else {
            let text = seq![first] + cs.subrange(pos, q);
            let k = suffix_of(cs[q]);
            if k == 'b' {
                match int_spec(text, -0x80, 0x7F) {
                    Some(v) => Ok((Num::I8(v as i8), q + 1)),
                    None => Err(SnbtErrorV::NumberOverflow(ct, "byte"@)),
                }
            } else if k == 's' {
                match int_spec(text, -0x8000, 0x7FFF) {
                    Some(v) => Ok((Num::I16(v as i16), q + 1)),
                    None => Err(SnbtErrorV::NumberOverflow(ct, "short"@)),
                }
            } else if k == 'l' {
                match int_spec(text, i64::MIN as int, i64::MAX as int) {
                    Some(v) => Ok((Num::I64(v as i64), q + 1)),
                    None => Err(SnbtErrorV::NumberOverflow(ct, "long"@)),
                }
            } else if k == 'f' {
                match float_spec(text) {
                    Some(v) => Ok((Num::F32(clamp_float(v)), q + 1)),
                    None => Err(SnbtErrorV::NumberOverflow(ct, "float"@)),
                }
            } else if k == 'd' {
                match float_spec(text) {
                    Some(v) => Ok((Num::F64(clamp_float(v)), q + 1)),
                    None => Err(SnbtErrorV::NumberOverflow(ct, "double"@)),
                }
            } else {
                match int_spec(text, i32::MIN as int, i32::MAX as int) {
                    Some(v) => Ok((Num::I32(v as i32), q)),
                    None => Err(SnbtErrorV::NumberOverflow(ct, "int"@)),
                }
            }
        }
    }
}

/// Whether a number's floats lie within the clamp.
pub open spec fn num_clamped(n: Num) -> bool {
    &&& (n matches Num::F32(v) ==> -FLOAT_CLAMP <= v <= FLOAT_CLAMP)
    &&& (n matches Num::F64(v) ==> -FLOAT_CLAMP <= v <= FLOAT_CLAMP)
}

fn overflow(ct: &str, kind: &str) -> (r: SnbtError)
    ensures
        r@ == SnbtErrorV::NumberOverflow(ct@, kind@),
{
    SnbtError::NumberOverflow(ct.to_owned(), kind.to_owned())
}

fn wrong(ct: &str) -> (r: SnbtError)
    ensures
        r@ == SnbtErrorV::WrongContentType(ct@),
{
    SnbtError::WrongContentType(ct.to_owned())
}

/// A number whose first char is already read.
pub(crate) fn parse_num(first: char, cs: &[char], pos: usize, ct: &str) -> (r: Result<(Num, usize), SnbtError>)
    requires
        pos <= cs@.len(),
    ensures
        match num_spec(first, cs@, pos as int, ct@) {
            Ok((n, q)) => r matches Ok((m, p)) && m == n && p == q,
            Err(e) => r matches Err(x) && x@ == e,
        },
        r matches Ok((m, p)) ==> pos <= p <= cs@.len() && num_clamped(m),
{
    let numeric = is_numeric(first);
    if !numeric && first != '-' && first != '.' {
        return Err(wrong(ct));
    }
    if first == '.' {
        return Err(wrong(ct));
    }
    let mut q = pos;
    while q < cs.len() && (is_numeric(cs[q]) || cs[q] == '-')
        invariant
            pos <= q <= cs@.len(),
            num_end(cs@, pos as int) == num_end(cs@, q as int),
        decreases cs@.len() - q,
    {
        q = q + 1;
    }
    if q >= cs.len() {
        return Err(wrong(ct));
    }
    let mut text: Vec<char> = Vec::new();
    text.push(first);
    let mut i = pos;
    while i < q
        invariant
            pos <= i <= q,
            q < cs@.len(),
            text@ == seq![first] + cs@.subrange(pos as int, i as int),
        decreases q - i,
    {
        text.push(cs[i]);
        i = i + 1;
        assert(text@ =~= seq![first] + cs@.subrange(pos as int, i as int));
    }
    let c = cs[q];
    if c == 'b' || c == 'B' {
        match parse_int(text.as_slice(), -0x80, 0x7F) {
            Some(v) => Ok((Num::I8(v as i8), q + 1)),
            None => Err(overflow(ct, "byte")),
        }
    } else if c == 's' || c == 'S' {
        match parse_int(text.as_slice(), -0x8000, 0x7FFF) {
            Some(v) => Ok((Num::I16(v as i16), q + 1)),
            None => Err(overflow(ct, "short")),
        }
    } else if c == 'l' || c == 'L' {
        match parse_int(text.as_slice(), -0x8000_0000_0000_0000, 0x7FFF_FFFF_FFFF_FFFF) {
            Some(v) => Ok((Num::I64(v as i64), q + 1)),
            None => Err(overflow(ct, "long")),
        }
    } else if c == 'f' || c == 'F' {
        match parse_float(text.as_slice()) {
            Some(v) => Ok((Num::F32(v), q + 1)),
            None => Err(overflow(ct, "float")),
        }
    } else if c == 'd' || c == 'D' {
        match parse_float(text.as_slice()) {
            Some(v) => Ok((Num::F64(v), q + 1)),
            None => Err(overflow(ct, "double")),
        }
    } else {
        match parse_int(text.as_slice(), -0x8000_0000, 0x7FFF_FFFF) {
            Some(v) => Ok((Num::I32(v as i32), q)),
            None => Err(overflow(ct, "int")),
        }
    }
}

// ---------------------------------------------------------------------------
// Booleans.

/// A boolean whose first char is already read: a byte number (non-zero is true), or
/// `true` or `false` spelled out. Spelled out, either reads as true.
pub open spec fn bool_spec(first: char, cs: Seq<char>, pos: int, ct: Seq<char>) -> Result<(bool, int), SnbtErrorV> {
    if numeric_char(first) || first == '-' {
        match num_spec(first, cs, pos, ct) {
            Ok((Num::I8(v), q)) => Ok((v != 0, q)),
            Ok(_) => Err(SnbtErrorV::WrongContentType(ct)),
            Err(e) => Err(e),
        }
    } else if first == 't' && pos + 3 <= cs.len() && cs.subrange(pos, pos + 3) == "rue"@ {
        Ok((true, pos + 3))
    } else if first == 'f' && pos + 4 <= cs.len() && cs.subrange(pos, pos + 4) == "alse"@ {
        Ok((true, pos + 4))
    } else {
        Err(SnbtErrorV::WrongContentType(ct))
    }
}

/// Whether `rest` follows at `pos`.
fn follows(cs: &[char], pos: usize, rest: &str) -> (r: bool)
    requires
        pos <= cs@.len(),
    ensures
        r == (pos + rest@.len() <= cs@.len() && cs@.subrange(pos as int, pos + rest@.len()) == rest@),
{
    let want = crate::chars::chars_of(rest);
    if want.len() > cs.len() - pos {
        return false;
    }
    let n = cs.len();
    let mut i: usize = 0;
    while i < want.len()
        invariant
            i <= want@.len(),
            want@ == rest@,
            n == cs@.len(),
            pos + want@.len() <= cs@.len(),
            forall|k: int| 0 <= k < i ==> cs@[pos + k] == want@[k],
        decreases want@.len() - i,
    {
        if cs[pos + i] != want[i] {
            assert(cs@.subrange(pos as int, pos + rest@.len())[i as int] != rest@[i as int]);
            return false;
        }
        i = i + 1;
    }
    assert(cs@.subrange(pos as int, pos + rest@.len()) =~= rest@);
    true
}

/// A boolean whose first char is already read.
pub(crate) fn parse_bool(first: char, cs: &[char], pos: usize, ct: &str) -> (r: Result<(bool, usize), SnbtError>)
    requires
        pos <= cs@.len(),
    ensures
        match bool_spec(first, cs@, pos as int, ct@) {
            Ok((b, q)) => r matches Ok((c, p)) && c == b && p == q,
            Err(e) => r matches Err(x) && x@ == e,
        },
        r matches Ok((_, p)) ==> pos <= p <= cs@.len(),
{
    if is_numeric(first) || first == '-' {
        return match parse_num(first, cs, pos, ct) {
            Ok((Num::I8(v), q)) => Ok((v != 0, q)),
            Ok(_) => Err(wrong(ct)),
            Err(e) => Err(e),
        };
    }
    proof {
        reveal_strlit("rue");
        reveal_strlit("alse");
    }
    let n = cs.len();
    if first == 't' && follows(cs, pos, "rue") {
        assert("rue"@.len() == 3);
        return Ok((true, pos + 3));
    }
    if first == 'f' && follows(cs, pos, "alse") {
        assert("alse"@.len() == 4);
        return Ok((true, pos + 4));
    }
    Err(wrong(ct))
}

// ---------------------------------------------------------------------------
// Int lists.

/// The ints of a list whose opening bracket is already read, from `pos` on: whitespace
/// and commas between numbers, each number an int, up to the closing bracket.
pub open spec fn ints_from(cs: Seq<char>, pos: int, ct: Seq<char>, acc: Seq<i32>) -> Result<(Seq<i32>, int), SnbtErrorV>
    decreases cs.len() - pos,
{
    if pos < 0 || pos >= cs.len() {
        Err(SnbtErrorV::EndedAbruptely(INTS_UNCLOSED))
    } else {
        let c = cs[pos];
        if is_whitespace_spec(c) || c == ',' {
            ints_from(cs, pos + 1, ct, acc)
        } else if c == ']' {
            Ok((acc, pos + 1))
        } else {
            match num_spec(c, cs, pos + 1, ct) {
                Ok((Num::I32(v), q)) => if q > pos { ints_from(cs, q, ct, acc.push(v)) } else { Err(SnbtErrorV::UnfinishedComponent(INTS_BAD_CHAR)) },
                Ok(_) => Err(SnbtErrorV::Required(ct, "ints"@)),
                Err(e) => Err(e),
            }
        }
    }
}

/// A list of ints whose opening bracket is already read.
pub(crate) fn parse_int_vec(cs: &[char], pos: usize, ct: &str) -> (r: Result<(Vec<i32>, usize), SnbtError>)
    requires
        pos <= cs@.len(),
    ensures
        match ints_from(cs@, pos as int, ct@, Seq::empty()) {
            Ok((v, q)) => r matches Ok((w, p)) && w@ == v && p == q,
            Err(e) => r matches Err(x) && x@ == e,
        },
        r matches Ok((_, p)) ==> pos < p <= cs@.len(),
{
    let mut nums: Vec<i32> = Vec::new();
    let mut i = pos;
    while i < cs.len()
        invariant
            pos <= i <= cs@.len(),
            ints_from(cs@, pos as int, ct@, Seq::empty()) == ints_from(cs@, i as int, ct@, nums@),
        decreases cs@.len() - i,
    {
        let c = cs[i];
        if is_whitespace(c) || c == ',' {
            i = i + 1;
        } else if c == ']' {
            return Ok((nums, i + 1));
        } else {
            match parse_num(c, cs, i + 1, ct) {
                Ok((Num::I32(v), q)) => {
                    nums.push(v);
                    i = q;
                },
                Ok(_) => {
                    return Err(SnbtError::Required(ct.to_owned(), "ints".to_owned()));
                },
                Err(e) => {
                    return Err(e);
                },
            }
        }
    }
    Err(SnbtError::EndedAbruptely(INTS_UNCLOSED))
}

} // verus!
