//! Reading a component out of an NBT tree.
use vstd::prelude::*;
use vstd::arithmetic::power2::{lemma2_to64, lemma2_to64_rest, lemma_pow2_pos, lemma_pow2_strictly_increases, pow2};
use vstd::arithmetic::div_mod::lemma_basic_div;
use vstd::bits::{lemma_u64_shl_is_mul, lemma_u64_shr_is_div};
use crate::chars::{chars_eq, chars_of, eq_lit};
use crate::format::Format;
use crate::nbt::model::{format_view, FormatV};
use crate::nbt::decoding::format_spec;
use crate::snbt::events::{parse_uuid, uuid_of_halves};
use crate::decode::ComponentDecodeError;
use crate::grammar::parser::{is_whitespace, is_whitespace_spec};
use crate::format::{from_codec_name_spec, hex_digit, hex_digit_value, hex_value, lemma_hex_value_prefix, all_hex, Color};
use crate::interactivity::{ClickEvent, Dialog};
use crate::nbt::model::{
    click_view, comp_view, content_view, opt_comp_view, player_view, properties_view, source_view, ClickV, CompV,
    ContentV, PlayerV, PropertyV, SourceV,
};
use crate::content::{Content, NbtSource, Object, ObjectPlayer, PlayerModel, PlayerProperties, Resolvable};
use crate::component::TextComponent;
use crate::nbt::decoding::{
    atlas_spec, bad_properties, keybind_spec, model_spec, player_content_spec, profile_id, profile_spec,
    properties_spec, property_list, property_map, score_spec, source_spec, string_list, text_spec,
};
use crate::nbt::tag::{lemma_view_tags_index, lemma_view_tags_len, view_tags};
use crate::interactivity::{HoverEvent, Interactivity};
use crate::translation::{Args, TranslatedMessage};
use crate::nbt::model::{comps_view, hover_view, inter_view, HoverV, InterV};
use crate::nbt::decoding::{
    compound_spec, content_spec, decode_field, decode_list, decode_spec, hover_spec, inter_spec, list_field, nbt_spec,
    object_spec, selector_spec, translatable_spec,
};
use crate::nbt::decoding::{
    channel_fn_ok, channel_spec, channel_value, click_spec, color_spec, count_spec, four_ints, int_list, item_components,
    shadow_spec, uuid_spec,
    allowed_url, as_bool, as_i32, banned_chat_char, ci, f32_to_i32, f64_to_i32, field, find_index, first_colon,
    flag, invalid, is_identifier, lemma_find_index, namespace_char, number_bool, number_i32, number_of, optional_bool,
    optional_identifier, optional_string, path_char, required_chat_string, required_compound, required_i32,
    required_identifier, required_string, valid_player_name, web_scheme, Number,
};
use crate::nbt::model::DecodeErrV;
use crate::nbt::tag::{lemma_view_entries_index, lemma_view_entries_len, view_entries, NbtTag, TagV};

verus! {

/// The number a tag holds, if it is a number.
pub fn number_of_tag(t: &NbtTag) -> (r: Option<Number>)
    ensures
        r == number_of(t@),
{
    match t {
        NbtTag::Byte(v) => Some(Number::Int(*v as i64)),
        NbtTag::Short(v) => Some(Number::Int(*v as i64)),
        NbtTag::Int(v) => Some(Number::Int(*v as i64)),
        NbtTag::Long(v) => Some(Number::Int(*v)),
        NbtTag::Float(b) => Some(Number::Float(*b)),
        NbtTag::Double(b) => Some(Number::Double(*b)),
        _ => None,
    }
}

/// Whether a number is other than zero.
pub fn number_is_set(n: Number) -> (r: bool)
    ensures
        r == number_bool(n),
{
    match n {
        Number::Int(v) => v != 0,
        Number::Float(b) => b & 0x7FFF_FFFFu32 != 0,
        Number::Double(b) => b & 0x7FFF_FFFF_FFFF_FFFFu64 != 0,
    }
}

/// A float, given by its bits, converted to `i32` as `as` does.
pub fn float_to_i32(b: u32) -> (r: i32)
    ensures
        r == f32_to_i32(b),
{
    let e = (b >> 23u32) & 0xFFu32;
    let m = b & 0x7F_FFFFu32;
    let neg = (b >> 31u32) == 1u32;
    assert(m < 0x80_0000u32) by (bit_vector)
        requires
            m == b & 0x7F_FFFFu32,
    ;
    if e == 0xFFu32 {
        return if m != 0 { 0 } else if neg { i32::MIN } else { i32::MAX };
    }
    let ghost mag: nat = if e == 0 { m as nat } else { m as nat + 0x80_0000 };
    if e < 127 {
        proof {
            lemma2_to64();
            if e < 126 {
                lemma_pow2_strictly_increases(24, (150 - e) as nat);
            }
            lemma_basic_div(mag as int, pow2((150 - e) as nat) as int);
        }
        return 0;
    }
    let mg: u64 = (m as u64) + 0x80_0000u64;
    assert(mg == mag);
    if e >= 158 {
        proof {
            lemma2_to64();
            lemma_pow2_pos((e - 150) as nat);
            if e > 158 {
                lemma_pow2_strictly_increases(8, (e - 150) as nat);
            }
            assert(mag * pow2((e - 150) as nat) >= 0x80_0000 * 0x100) by (nonlinear_arith)
                requires
                    mag >= 0x80_0000,
                    pow2((e - 150) as nat) >= 0x100,
            ;
        }
        return if neg { i32::MIN } else { i32::MAX };
    }
    let t: u64 = if e >= 150 {
        let s: u64 = (e - 150) as u64;
        assert((mg << s) < 0x8000_0000u64) by (bit_vector)
            requires
                mg < 0x100_0000u64,
                s <= 7,
        ;
        proof {
            lemma2_to64();
            lemma_pow2_pos(s as nat);
            if s < 7 {
                lemma_pow2_strictly_increases(s as nat, 7);
            }
            assert(mg * pow2(s as nat) <= 0x100_0000 * 0x80) by (nonlinear_arith)
                requires
                    mg < 0x100_0000,
                    pow2(s as nat) <= 0x80,
            ;
            lemma_u64_shl_is_mul(mg, s);
        }
        mg << s
    } else {
        let s: u64 = (150 - e) as u64;
        assert((mg >> s) < 0x8000_0000u64) by (bit_vector)
            requires
                mg < 0x100_0000u64,
        ;
        proof {
            lemma_u64_shr_is_div(mg, s);
        }
        mg >> s
    };
    if neg {
        -(t as i64) as i32
    } else {
        t as i32
    }
}

/// A double, given by its bits, converted to `i32` as `as` does.
pub fn double_to_i32(b: u64) -> (r: i32)
    ensures
        r == f64_to_i32(b),
{
    let e = (b >> 52u64) & 0x7FFu64;
    let m = b & 0xF_FFFF_FFFF_FFFFu64;
    let neg = (b >> 63u64) == 1u64;
    assert(m < 0x10_0000_0000_0000u64) by (bit_vector)
        requires
            m == b & 0xF_FFFF_FFFF_FFFFu64,
    ;
    if e == 0x7FFu64 {
        return if m != 0 { 0 } else if neg { i32::MIN } else { i32::MAX };
    }
    let ghost mag: nat = if e == 0 { m as nat } else { m as nat + 0x10_0000_0000_0000 };
    if e < 1023 {
        proof {
            lemma2_to64();
            lemma2_to64_rest();
            if e < 1022 {
                lemma_pow2_strictly_increases(53, (1075 - e) as nat);
            }
            lemma_basic_div(mag as int, pow2((1075 - e) as nat) as int);
        }
        return 0;
    }
    let mg: u64 = m + 0x10_0000_0000_0000u64;
    assert(mg == mag);
    if e >= 1054 {
        proof {
            if e >= 1075 {
                lemma_pow2_pos((e - 1075) as nat);
                assert(mag * pow2((e - 1075) as nat) >= mag) by (nonlinear_arith)
                    requires
                        pow2((e - 1075) as nat) >= 1,
                ;
            } else {
                let s: u64 = (1075 - e) as u64;
                assert((mg >> s) >= 0x8000_0000u64) by (bit_vector)
                    requires
                        mg >= 0x10_0000_0000_0000u64,
                        1 <= s <= 21,
                ;
                lemma_u64_shr_is_div(mg, s);
            }
        }
        return if neg { i32::MIN } else { i32::MAX };
    }
    let s: u64 = (1075 - e) as u64;
    assert((mg >> s) < 0x8000_0000u64) by (bit_vector)
        requires
            mg < 0x20_0000_0000_0000u64,
            22 <= s <= 52,
    ;
    proof {
        lemma_u64_shr_is_div(mg, s);
    }
    let t: u64 = mg >> s;
    if neg {
        -(t as i64) as i32
    } else {
        t as i32
    }
}

/// A number as `i32`, as the reader converts it.
pub fn number_to_i32(n: Number) -> (r: i32)
    ensures
        r == number_i32(n),
{
    match n {
        Number::Int(v) => v as i32,
        Number::Float(b) => float_to_i32(b),
        Number::Double(b) => double_to_i32(b),
    }
}

// ---------------------------------------------------------------------------
// Results and their models.

/// A result with its error taken by its model.
pub open spec fn err_v<T>(r: Result<T, ComponentDecodeError>) -> Result<T, DecodeErrV> {
    match r {
        Ok(x) => Ok(x),
        Err(e) => Err(e@),
    }
}

/// A text result by its model.
pub open spec fn str_v(r: Result<String, ComponentDecodeError>) -> Result<Seq<char>, DecodeErrV> {
    match r {
        Ok(s) => Ok(s@),
        Err(e) => Err(e@),
    }
}

/// An optional text result by its model.
pub open spec fn opt_str_v(r: Result<Option<String>, ComponentDecodeError>) -> Result<Option<Seq<char>>, DecodeErrV> {
    match r {
        Ok(Some(s)) => Ok(Some(s@)),
        Ok(None) => Ok(None),
        Err(e) => Err(e@),
    }
}

fn invalid_field(field: &'static str, expected: &'static str) -> (r: ComponentDecodeError)
    ensures
        r@ == invalid(field@, expected@),
{
    ComponentDecodeError::InvalidField { field, expected }
}

// ---------------------------------------------------------------------------
// Fields of a compound.

proof fn lemma_find_index_at(es: Seq<(Seq<char>, TagV)>, name: Seq<char>, i: int)
    requires
        0 <= i <= es.len(),
        forall|k: int| 0 <= k < i ==> #[trigger] es[k].0 != name,
        i < es.len() ==> es[i].0 == name,
    ensures
        find_index(es, name) == if i < es.len() { Some(i) } else { None::<int> },
    decreases es.len(),
{
    reveal(find_index);
    if es.len() > 0 && i > 0 {
        assert(es[0].0 != name);
        assert forall|k: int| 0 <= k < i - 1 implies #[trigger] es.drop_first()[k].0 != name by {
            assert(es.drop_first()[k] == es[k + 1]);
        }
        lemma_find_index_at(es.drop_first(), name, i - 1);
    }
}

fn same_text(a: &str, b: &str) -> (r: bool)
    ensures
        r == (a@ == b@),
{
    let x = chars_of(a);
    let y = chars_of(b);
    chars_eq(x.as_slice(), y.as_slice())
}

/// The index of the first entry with this name.
fn find_field(es: &Vec<(String, NbtTag)>, name: &str) -> (r: Option<usize>)
    ensures
        match r {
            Some(i) => find_index(view_entries(es@), name@) == Some(i as int) && i < es@.len(),
            None => find_index(view_entries(es@), name@) is None,
        },
{
    proof {
        lemma_view_entries_len(es@);
    }
    let ghost vs = view_entries(es@);
    let mut i: usize = 0;
    while i < es.len()
        invariant
            i <= es@.len(),
            vs == view_entries(es@),
            vs.len() == es@.len(),
            forall|k: int| 0 <= k < i ==> #[trigger] vs[k].0 != name@,
        decreases es@.len() - i,
    {
        proof {
            lemma_view_entries_index(es@, i as int);
        }
        if same_text(es[i].0.as_str(), name) {
            proof {
                lemma_find_index_at(vs, name@, i as int);
            }
            return Some(i);
        }
        i = i + 1;
    }
    proof {
        lemma_find_index_at(vs, name@, vs.len() as int);
    }
    None
}

/// The value of the first entry with this name.
fn field_of<'a>(es: &'a Vec<(String, NbtTag)>, name: &str) -> (r: Option<&'a NbtTag>)
    ensures
        match r {
            Some(t) => field(view_entries(es@), name@) == Some(t@),
            None => field(view_entries(es@), name@) is None,
        },
{
    match find_field(es, name) {
        Some(i) => {
            proof {
                lemma_view_entries_index(es@, i as int);
            }
            Some(&es[i].1)
        },
        None => None,
    }
}

fn read_required_string(es: &Vec<(String, NbtTag)>, f: &'static str) -> (r: Result<String, ComponentDecodeError>)
    ensures
        str_v(r) == required_string(view_entries(es@), f@),
{
    match field_of(es, f) {
        Some(NbtTag::String(s)) => Ok(s.clone()),
        Some(_) => Err(invalid_field(f, "a string")),
        None => Err(ComponentDecodeError::MissingField(f)),
    }
}

fn read_optional_string(es: &Vec<(String, NbtTag)>, f: &'static str) -> (r: Result<Option<String>, ComponentDecodeError>)
    ensures
        opt_str_v(r) == optional_string(view_entries(es@), f@),
{
    match field_of(es, f) {
        Some(NbtTag::String(s)) => Ok(Some(s.clone())),
        Some(_) => Err(invalid_field(f, "a string")),
        None => Ok(None),
    }
}

fn read_required_compound<'a>(es: &'a Vec<(String, NbtTag)>, f: &'static str) -> (r: Result<&'a Vec<(String, NbtTag)>, ComponentDecodeError>)
    ensures
        match r {
            Ok(v) => required_compound(view_entries(es@), f@) == Ok::<Seq<(Seq<char>, TagV)>, DecodeErrV>(view_entries(v@)),
            Err(e) => required_compound(view_entries(es@), f@) == Err::<Seq<(Seq<char>, TagV)>, DecodeErrV>(e@),
        },
{
    match field_of(es, f) {
        Some(NbtTag::Compound(v)) => Ok(v),
        Some(_) => Err(invalid_field(f, "a compound")),
        None => Err(ComponentDecodeError::MissingField(f)),
    }
}

proof fn lemma_first_colon_at(s: Seq<char>, i: int)
    requires
        0 <= i <= s.len(),
        forall|k: int| 0 <= k < i ==> #[trigger] s[k] != ':',
        i < s.len() ==> s[i] == ':',
    ensures
        first_colon(s) == if i < s.len() { Some(i) } else { None::<int> },
    decreases s.len(),
{
    if s.len() > 0 && i > 0 {
        assert(s[0] != ':');
        assert forall|k: int| 0 <= k < i - 1 implies #[trigger] s.drop_first()[k] != ':' by {
            assert(s.drop_first()[k] == s[k + 1]);
        }
        lemma_first_colon_at(s.drop_first(), i - 1);
    }
}

/// The index of the first `:`, or the length when there is none.
fn colon_index(cs: &[char]) -> (r: usize)
    ensures
        r <= cs@.len(),
        first_colon(cs@) == if r < cs@.len() { Some(r as int) } else { None::<int> },
{
    let mut i: usize = 0;
    while i < cs.len()
        invariant
            i <= cs@.len(),
            forall|k: int| 0 <= k < i ==> #[trigger] cs@[k] != ':',
        decreases cs@.len() - i,
    {
        if cs[i] == ':' {
            proof {
                lemma_first_colon_at(cs@, i as int);
            }
            return i;
        }
        i = i + 1;
    }
    proof {
        lemma_first_colon_at(cs@, cs@.len() as int);
    }
    i
}

fn is_namespace_char(c: char) -> (r: bool)
    ensures
        r == namespace_char(c),
{
    ('a' <= c && c <= 'z') || ('0' <= c && c <= '9') || c == '_' || c == '-' || c == '.'
}

/// Whether every char of `cs` from `from` up to `to` is a namespace char (or, with `path`,
/// a path char).
fn all_ident_chars(cs: &[char], from: usize, to: usize, path: bool) -> (r: bool)
    requires
        from <= to <= cs@.len(),
    ensures
        r == forall|k: int| from <= k < to ==> (if path { path_char(#[trigger] cs@[k]) } else { namespace_char(cs@[k]) }),
{
    let mut i: usize = from;
    while i < to
        invariant
            from <= i <= to,
            to <= cs@.len(),
            forall|k: int| from <= k < i ==> (if path { path_char(#[trigger] cs@[k]) } else { namespace_char(cs@[k]) }),
        decreases to - i,
    {
        let c = cs[i];
        let ok = if path { is_namespace_char(c) || c == '/' } else { is_namespace_char(c) };
        if !ok {
            return false;
        }
        i = i + 1;
    }
    true
}

/// Whether a text is an identifier.
pub fn check_identifier(s: &str) -> (r: bool)
    ensures
        r == is_identifier(s@),
{
    let cs = chars_of(s);
    let n = cs.len();
    let i = colon_index(cs.as_slice());
    if i == n {
        let r = all_ident_chars(cs.as_slice(), 0, n, true);
        return r;
    }
    let dots = i == 2 && cs[0] == '.' && cs[1] == '.';
    let ns = all_ident_chars(cs.as_slice(), 0, i, false);
    let path = all_ident_chars(cs.as_slice(), i + 1, n, true);
    proof {
        let nsq = cs@.subrange(0, i as int);
        let pq = cs@.subrange(i + 1, n as int);
        assert((forall|k: int| 0 <= k < nsq.len() ==> namespace_char(#[trigger] nsq[k])) == ns) by {
            if ns {
                assert forall|k: int| 0 <= k < nsq.len() implies namespace_char(#[trigger] nsq[k]) by {
                    assert(nsq[k] == cs@[k]);
                }
            } else {
                let k = choose|k: int| 0 <= k < i && !namespace_char(#[trigger] cs@[k]);
                assert(nsq[k] == cs@[k]);
            }
        }
        assert((forall|k: int| 0 <= k < pq.len() ==> path_char(#[trigger] pq[k])) == path) by {
            if path {
                assert forall|k: int| 0 <= k < pq.len() implies path_char(#[trigger] pq[k]) by {
                    assert(pq[k] == cs@[i + 1 + k]);
                }
            } else {
                let k = choose|k: int| i + 1 <= k < n && !path_char(#[trigger] cs@[k]);
                assert(pq[k - i - 1] == cs@[k]);
            }
        }
    }
    !dots && ns && path
}

fn read_required_identifier(es: &Vec<(String, NbtTag)>, f: &'static str) -> (r: Result<String, ComponentDecodeError>)
    ensures
        str_v(r) == required_identifier(view_entries(es@), f@),
{
    let s = match read_required_string(es, f) {
        Ok(s) => s,
        Err(e) => return Err(e),
    };
    if !check_identifier(s.as_str()) {
        return Err(invalid_field(f, "an identifier"));
    }
    Ok(s)
}

fn read_optional_identifier(es: &Vec<(String, NbtTag)>, f: &'static str) -> (r: Result<Option<String>, ComponentDecodeError>)
    ensures
        opt_str_v(r) == optional_identifier(view_entries(es@), f@),
{
    let s = match read_optional_string(es, f) {
        Ok(Some(s)) => s,
        other => return other,
    };
    if !check_identifier(s.as_str()) {
        return Err(invalid_field(f, "an identifier"));
    }
    Ok(Some(s))
}

fn read_required_chat_string(es: &Vec<(String, NbtTag)>, f: &'static str) -> (r: Result<String, ComponentDecodeError>)
    ensures
        str_v(r) == required_chat_string(view_entries(es@), f@),
{
    let s = match read_required_string(es, f) {
        Ok(s) => s,
        Err(e) => return Err(e),
    };
    let cs = chars_of(s.as_str());
    let mut i: usize = 0;
    while i < cs.len()
        invariant
            i <= cs@.len(),
            cs@ == s@,
            required_string(view_entries(es@), f@) == Ok::<Seq<char>, DecodeErrV>(s@),
            forall|k: int| 0 <= k < i ==> !banned_chat_char(#[trigger] cs@[k]),
        decreases cs@.len() - i,
    {
        let c = cs[i];
        if c == '\u{a7}' || c < ' ' || c == '\u{7f}' {
            proof {
                assert(banned_chat_char(s@[i as int]));
            }
            return Err(invalid_field(f, "a chat string"));
        }
        i = i + 1;
    }
    Ok(s)
}

fn read_optional_bool(es: &Vec<(String, NbtTag)>, f: &'static str) -> (r: Result<Option<bool>, ComponentDecodeError>)
    ensures
        err_v(r) == optional_bool(view_entries(es@), f@),
{
    match field_of(es, f) {
        Some(t) => match number_of_tag(t) {
            Some(n) => Ok(Some(number_is_set(n))),
            None => Err(invalid_field(f, "a boolean")),
        },
        None => Ok(None),
    }
}

fn read_required_i32(es: &Vec<(String, NbtTag)>, f: &'static str) -> (r: Result<i32, ComponentDecodeError>)
    ensures
        err_v(r) == required_i32(view_entries(es@), f@),
{
    match field_of(es, f) {
        Some(t) => match number_of_tag(t) {
            Some(n) => Ok(number_to_i32(n)),
            None => Err(invalid_field(f, "an integer")),
        },
        None => Err(ComponentDecodeError::MissingField(f)),
    }
}

/// Whether a flag is set, `default` when absent or not a number.
fn read_flag(es: &Vec<(String, NbtTag)>, f: &'static str, default: bool) -> (r: bool)
    ensures
        r == flag(view_entries(es@), f@, default),
{
    match field_of(es, f) {
        Some(t) => match number_of_tag(t) {
            Some(n) => number_is_set(n),
            None => default,
        },
        None => default,
    }
}

/// Whether a text is an HTTP or HTTPS URI.
pub fn check_url(s: &str) -> (r: bool)
    ensures
        r == allowed_url(s@),
{
    let cs = chars_of(s);
    let n = cs.len();
    let i = colon_index(cs.as_slice());
    if i == n {
        return false;
    }
    let scheme = (i == 4 || i == 5) && (cs[0] == 'h' || cs[0] == 'H') && (cs[1] == 't' || cs[1] == 'T')
        && (cs[2] == 't' || cs[2] == 'T') && (cs[3] == 'p' || cs[3] == 'P')
        && (i == 4 || cs[4] == 's' || cs[4] == 'S');
    proof {
        let sq = cs@.subrange(0, i as int);
        assert(web_scheme(sq) == scheme);
    }
    if !scheme || i + 1 >= n {
        return false;
    }
    let mut k: usize = 0;
    while k < n
        invariant
            k <= n,
            n == cs@.len(),
            cs@ == s@,
            first_colon(s@) == Some(i as int),
            web_scheme(s@.subrange(0, i as int)),
            i + 1 < n,
            forall|j: int| 0 <= j < k ==> !is_whitespace_spec(#[trigger] cs@[j]),
        decreases n - k,
    {
        if is_whitespace(cs[k]) {
            proof {
                assert(is_whitespace_spec(s@[k as int]));
            }
            return false;
        }
        k = k + 1;
    }
    true
}

// ---------------------------------------------------------------------------
// Style and events.

/// A text color: a name, or `#` and hex digits.
fn read_color(s: &String) -> (r: Result<Color, ComponentDecodeError>)
    ensures
        err_v(r) == color_spec(s@),
{
    match Color::from_codec_name(s.as_str()) {
        Some(c) => return Ok(c),
        None => {},
    }
    let cs = chars_of(s.as_str());
    let n = cs.len();
    if n == 0 || cs[0] != '#' {
        return Err(invalid_field("color", "a text color"));
    }
    let start: usize = if n >= 2 && cs[1] == '+' { 2 } else { 1 };
    let ghost digits = cs@.subrange(start as int, n as int);
    if start >= n {
        return Err(invalid_field("color", "a text color"));
    }
    let mut v: u32 = 0;
    let mut i: usize = start;
    while i < n
        invariant
            1 <= start <= i <= n,
            n == cs@.len(),
            cs@ == s@,
            digits == cs@.subrange(start as int, n as int),
            from_codec_name_spec(s@) is None,
            s@[0] == '#',
            start == if n >= 2 && cs@[1] == '+' { 2int } else { 1int },
            v == hex_value(cs@.subrange(start as int, i as int)),
            v <= 0xFF_FFFF,
            all_hex(cs@.subrange(start as int, i as int)),
        decreases n - i,
    {
        let ghost pre = cs@.subrange(start as int, i as int);
        let ghost next = cs@.subrange(start as int, i + 1);
        proof {
            assert(next.drop_last() =~= pre);
            assert(next.subrange(0, pre.len() as int) =~= pre);
        }
        let d = match hex_digit(cs[i]) {
            Some(d) => d,
            None => {
                proof {
                    assert(digits[i - start] == cs@[i as int]);
                    assert(!all_hex(digits));
                }
                return Err(invalid_field("color", "a text color"));
            },
        };
        if v > 0xF_FFFF || v * 16 + d > 0xFF_FFFF {
            proof {
                assert(hex_value(next) == v * 16 + d);
                assert(digits.subrange(0, next.len() as int) =~= next);
                lemma_hex_value_prefix(digits, next.len() as int);
            }
            return Err(invalid_field("color", "a text color"));
        }
        v = v * 16 + d;
        proof {
            assert forall|k: int| 0 <= k < next.len() implies (#[trigger] hex_digit_value(next[k])) is Some by {
                if k < pre.len() {
                    assert(next[k] == pre[k]);
                }
            }
        }
        i = i + 1;
    }
    proof {
        assert(cs@.subrange(start as int, n as int) =~= digits);
    }
    Ok(Color::Rgb((v / 0x1_0000) as u8, ((v / 0x100) % 0x100) as u8, (v % 0x100) as u8))
}

/// The channel values of four number tags, or `None` when one is no number.
fn channels<F: Fn(Number) -> i32>(v: &Vec<NbtTag>, ch: &F) -> (r: Option<[u32; 4]>)
    requires
        v@.len() == 4,
        channel_fn_ok(ch),
    ensures
        match r {
            Some(c) => (forall|k: int| 0 <= k < 4 ==> #[trigger] number_of(v@[k]@) is Some)
                && forall|k: int| 0 <= k < 4 ==> #[trigger] c[k] == ((channel_value(ch, number_of(v@[k]@)->0) as u32) % 0x100),
            None => exists|k: int| 0 <= k < 4 && #[trigger] number_of(v@[k]@) is None,
        },
{
    let mut c: [u32; 4] = [0, 0, 0, 0];
    let mut i: usize = 0;
    while i < 4
        invariant
            i <= 4,
            v@.len() == 4,
            channel_fn_ok(ch),
            forall|k: int| 0 <= k < i ==> #[trigger] number_of(v@[k]@) is Some,
            forall|k: int| 0 <= k < i ==> #[trigger] c[k] == ((channel_value(ch, number_of(v@[k]@)->0) as u32) % 0x100),
        decreases 4 - i,
    {
        let n = match number_of_tag(&v[i]) {
            Some(n) => n,
            None => {
                assert(number_of(v@[i as int]@) is None);
                return None;
            },
        };
        let x = ch(n);
        proof {
            let w = choose|w: i32| ch.ensures((n,), w);
            assert(ch.ensures((n,), w));
        }
        c.set(i, (x as u32) % 0x100);
        i = i + 1;
    }
    Some(c)
}

/// The shadow color: an integer, or four numbers turned into ARGB channels.
fn read_shadow<F: Fn(Number) -> i32>(t: &NbtTag, ch: &F) -> (r: Result<i32, ComponentDecodeError>)
    requires
        channel_fn_ok(ch),
    ensures
        err_v(r) == shadow_spec(t@, channel_spec(ch)),
{
    match number_of_tag(t) {
        Some(n) => return Ok(number_to_i32(n)),
        None => {},
    }
    match t {
        NbtTag::List(v) => {
            proof {
                crate::nbt::tag::lemma_view_tags_len(v@);
            }
            if v.len() != 4 {
                return Err(invalid_field("shadow_color", "an ARGB integer or four-number list"));
            }
            proof {
                assert forall|k: int| 0 <= k < 4 implies #[trigger] crate::nbt::tag::view_tags(v@)[k] == v@[k]@ by {
                    crate::nbt::tag::lemma_view_tags_index(v@, k);
                }
            }
            match channels(v, ch) {
                Some(c) => {
                    let packed: u32 = c[3] * 0x100_0000 + c[0] * 0x1_0000 + c[1] * 0x100 + c[2];
                    Ok(packed as i32)
                },
                None => Err(invalid_field("shadow_color", "an ARGB integer or four-number list")),
            }
        },
        _ => Err(invalid_field("shadow_color", "an ARGB integer or four-number list")),
    }
}

/// The style of a component.
fn read_format<F: Fn(Number) -> i32>(es: &Vec<(String, NbtTag)>, ch: &F) -> (r: Result<Format, ComponentDecodeError>)
    requires
        channel_fn_ok(ch),
    ensures
        match r {
            Ok(f) => format_spec(view_entries(es@), channel_spec(ch)) == Ok::<FormatV, DecodeErrV>(format_view(f)),
            Err(e) => format_spec(view_entries(es@), channel_spec(ch)) == Err::<FormatV, DecodeErrV>(e@),
        },
{
    proof {
        reveal(format_spec);
    }
    let color = match read_optional_string(es, "color") {
        Ok(Some(s)) => match read_color(&s) {
            Ok(c) => Some(c),
            Err(e) => return Err(e),
        },
        Ok(None) => None,
        Err(e) => return Err(e),
    };
    let font = match read_optional_identifier(es, "font") {
        Ok(f) => f,
        Err(e) => return Err(e),
    };
    let bold = match read_optional_bool(es, "bold") {
        Ok(b) => b,
        Err(e) => return Err(e),
    };
    let italic = match read_optional_bool(es, "italic") {
        Ok(b) => b,
        Err(e) => return Err(e),
    };
    let underlined = match read_optional_bool(es, "underlined") {
        Ok(b) => b,
        Err(e) => return Err(e),
    };
    let strikethrough = match read_optional_bool(es, "strikethrough") {
        Ok(b) => b,
        Err(e) => return Err(e),
    };
    let obfuscated = match read_optional_bool(es, "obfuscated") {
        Ok(b) => b,
        Err(e) => return Err(e),
    };
    let shadow_color = match field_of(es, "shadow_color") {
        Some(t) => match read_shadow(t, ch) {
            Ok(v) => Some(v),
            Err(e) => return Err(e),
        },
        None => None,
    };
    Ok(Format { color, font, bold, italic, underlined, strikethrough, obfuscated, shadow_color })
}

/// A click event.
fn read_click(es: &Vec<(String, NbtTag)>) -> (r: Result<ClickEvent, ComponentDecodeError>)
    ensures
        match r {
            Ok(c) => click_spec(view_entries(es@)) == Ok::<ClickV, DecodeErrV>(click_view(c)),
            Err(e) => click_spec(view_entries(es@)) == Err::<ClickV, DecodeErrV>(e@),
        },
{
    proof {
        reveal(click_spec);
    }
    let action = match read_required_string(es, "action") {
        Ok(a) => a,
        Err(e) => return Err(e),
    };
    let a = chars_of(action.as_str());
    let a = a.as_slice();
    if eq_lit(a, "open_url") {
        let url = match read_required_string(es, "url") {
            Ok(u) => u,
            Err(e) => return Err(e),
        };
        if !check_url(url.as_str()) {
            return Err(invalid_field("url", "an HTTP or HTTPS URI"));
        }
        Ok(ClickEvent::OpenUrl { url })
    } else if eq_lit(a, "run_command") {
        match read_required_chat_string(es, "command") {
            Ok(command) => Ok(ClickEvent::RunCommand { command }),
            Err(e) => Err(e),
        }
    } else if eq_lit(a, "suggest_command") {
        match read_required_chat_string(es, "command") {
            Ok(command) => Ok(ClickEvent::SuggestCommand { command }),
            Err(e) => Err(e),
        }
    } else if eq_lit(a, "change_page") {
        let page = match read_required_i32(es, "page") {
            Ok(p) => p,
            Err(e) => return Err(e),
        };
        if page <= 0 {
            return Err(invalid_field("page", "a positive integer"));
        }
        Ok(ClickEvent::ChangePage { page })
    } else if eq_lit(a, "copy_to_clipboard") {
        match read_required_string(es, "value") {
            Ok(value) => Ok(ClickEvent::CopyToClipboard { value }),
            Err(e) => Err(e),
        }
    } else if eq_lit(a, "show_dialog") {
        match field_of(es, "dialog") {
            None => Err(ComponentDecodeError::MissingField("dialog")),
            Some(NbtTag::String(v)) => if check_identifier(v.as_str()) {
                Ok(ClickEvent::ShowDialog { dialog: Dialog::Reference(v.clone()) })
            } else {
                Err(invalid_field("dialog", "a dialog identifier or definition"))
            },
            Some(t) => match t {
                NbtTag::Compound(_) => Ok(ClickEvent::ShowDialog { dialog: Dialog::Inline(t.copy()) }),
                _ => Err(invalid_field("dialog", "a dialog identifier or definition")),
            },
        }
    } else {
        Err(ComponentDecodeError::UnknownClickAction(action))
    }
}

/// Four ints from an int array or a list of ints.
fn read_four_ints(t: &NbtTag) -> (r: Option<[i32; 4]>)
    ensures
        r == four_ints(t@),
{
    match t {
        NbtTag::IntArray(v) => if v.len() == 4 {
            Some([v[0], v[1], v[2], v[3]])
        } else {
            None
        },
        NbtTag::List(v) => {
            proof {
                crate::nbt::tag::lemma_view_tags_len(v@);
            }
            let ghost vs = crate::nbt::tag::view_tags(v@);
            if v.len() != 4 {
                proof {
                    if int_list(vs) is Some {
                        assert(int_list(vs)->0.len() == vs.len());
                    }
                }
                return None;
            }
            let mut out: [i32; 4] = [0, 0, 0, 0];
            let mut i: usize = 0;
            while i < 4
                invariant
                    i <= 4,
                    v@.len() == 4,
                    vs == crate::nbt::tag::view_tags(v@),
                    vs.len() == 4,
                    t@ == TagV::List(vs),
                    forall|k: int| 0 <= k < i ==> #[trigger] vs[k] is Int && out[k] == vs[k]->Int_0,
                decreases 4 - i,
            {
                proof {
                    crate::nbt::tag::lemma_view_tags_index(v@, i as int);
                }
                match &v[i] {
                    NbtTag::Int(x) => {
                        out.set(i, *x);
                    },
                    _ => {
                        proof {
                            assert(!(vs[i as int] is Int));
                        }
                        return None;
                    },
                }
                i = i + 1;
            }
            proof {
                let ints = vs.map_values(|t: TagV| t->Int_0);
                assert(int_list(vs) == Some(ints));
                assert(out@ =~= seq![ints[0], ints[1], ints[2], ints[3]]);
            }
            Some(out)
        },
        _ => None,
    }
}

/// A UUID from a string or four ints.
fn read_uuid(t: &NbtTag) -> (r: Result<u128, ComponentDecodeError>)
    ensures
        err_v(r) == uuid_spec(t@),
{
    match t {
        NbtTag::String(s) => match parse_uuid(s.as_str()) {
            Some(u) => Ok(u),
            None => Err(invalid_field("uuid", "a UUID")),
        },
        _ => match read_four_ints(t) {
            Some(v) => {
                let high: u64 = ((v[0] as u32) as u64) * 0x1_0000_0000 + (v[1] as u32) as u64;
                let low: u64 = ((v[2] as u32) as u64) * 0x1_0000_0000 + (v[3] as u32) as u64;
                Ok(((high as u128) << 64u128) | (low as u128))
            },
            None => Err(invalid_field("uuid", "a UUID")),
        },
    }
}

/// How many of an item a hover shows.
fn read_count(es: &Vec<(String, NbtTag)>) -> (r: Result<i32, ComponentDecodeError>)
    ensures
        err_v(r) == count_spec(view_entries(es@)),
{
    match field_of(es, "count") {
        None => Ok(1),
        Some(t) => match number_of_tag(t) {
            None => Err(invalid_field("count", "an integer")),
            Some(n) => {
                let c = number_to_i32(n);
                if 1 <= c && c <= 99 {
                    Ok(c)
                } else {
                    Err(invalid_field("count", "an integer from 1 through 99"))
                }
            },
        },
    }
}

/// The components of a shown item.
fn read_item_components(es: &Vec<(String, NbtTag)>) -> (r: Result<Option<NbtTag>, ComponentDecodeError>)
    ensures
        match r {
            Ok(Some(t)) => item_components(view_entries(es@)) == Ok::<Option<TagV>, DecodeErrV>(Some(t@)),
            Ok(None) => item_components(view_entries(es@)) == Ok::<Option<TagV>, DecodeErrV>(None),
            Err(e) => item_components(view_entries(es@)) == Err::<Option<TagV>, DecodeErrV>(e@),
        },
{
    match field_of(es, "components") {
        None => Ok(None),
        Some(t) => match t {
            NbtTag::Compound(v) => {
                proof {
                    lemma_view_entries_len(v@);
                }
                if v.len() == 0 {
                    Ok(None)
                } else {
                    Ok(Some(t.copy()))
                }
            },
            _ => Err(invalid_field("components", "a data component patch")),
        },
    }
}

// ---------------------------------------------------------------------------
// Player heads, sprites, scores.

pub open spec fn opt_tag_v(o: Option<&NbtTag>) -> Option<TagV> {
    match o {
        Some(t) => Some(t@),
        None => None,
    }
}

proof fn lemma_property_list_err(s: Seq<TagV>, j: int)
    requires
        0 <= j <= s.len(),
        property_list(s.subrange(0, j)) is Err,
    ensures
        property_list(s) == property_list(s.subrange(0, j)),
    decreases s.len() - j,
{
    if j < s.len() {
        assert(s.subrange(0, j + 1).drop_last() =~= s.subrange(0, j));
        lemma_property_list_err(s, j + 1);
    } else {
        assert(s.subrange(0, j) =~= s);
    }
}

proof fn lemma_property_map_err(s: Seq<(Seq<char>, TagV)>, j: int)
    requires
        0 <= j <= s.len(),
        property_map(s.subrange(0, j)) is Err,
    ensures
        property_map(s) == property_map(s.subrange(0, j)),
    decreases s.len() - j,
{
    if j < s.len() {
        assert(s.subrange(0, j + 1).drop_last() =~= s.subrange(0, j));
        lemma_property_map_err(s, j + 1);
    } else {
        assert(s.subrange(0, j) =~= s);
    }
}

/// Properties given as a list of compounds.
fn read_property_list(v: &Vec<NbtTag>) -> (r: Result<Vec<PlayerProperties>, ComponentDecodeError>)
    requires
        forall|k: int| 0 <= k < v@.len() ==> #[trigger] v@[k] is Compound,
    ensures
        match r {
            Ok(ps) => property_list(view_tags(v@)) == Ok::<Seq<PropertyV>, DecodeErrV>(properties_view(ps@)),
            Err(e) => property_list(view_tags(v@)) == Err::<Seq<PropertyV>, DecodeErrV>(e@),
        },
{
    proof {
        lemma_view_tags_len(v@);
    }
    let ghost vs = view_tags(v@);
    let mut out: Vec<PlayerProperties> = Vec::new();
    let mut i: usize = 0;
    assert(properties_view(out@) =~= Seq::<PropertyV>::empty());
    assert(vs.subrange(0, 0) =~= Seq::<TagV>::empty());
    while i < v.len()
        invariant
            i <= v@.len(),
            vs == view_tags(v@),
            vs.len() == v@.len(),
            forall|k: int| 0 <= k < v@.len() ==> #[trigger] v@[k] is Compound,
            property_list(vs.subrange(0, i as int)) == Ok::<Seq<PropertyV>, DecodeErrV>(properties_view(out@)),
        decreases v@.len() - i,
    {
        proof {
            lemma_view_tags_index(v@, i as int);
            assert(vs.subrange(0, i + 1).drop_last() =~= vs.subrange(0, i as int));
        }
        let p = match &v[i] {
            NbtTag::Compound(p) => p,
            _ => {
                assert(v@[i as int] is Compound);
                return Err(ComponentDecodeError::ExpectedComponent);
            },
        };
        let name = match read_required_string(p, "name") {
            Ok(n) => n,
            Err(e) => {
                proof {
                    lemma_property_list_err(vs, i + 1);
                }
                return Err(e);
            },
        };
        let value = match read_required_string(p, "value") {
            Ok(x) => x,
            Err(e) => {
                proof {
                    lemma_property_list_err(vs, i + 1);
                }
                return Err(e);
            },
        };
        let signature = match read_optional_string(p, "signature") {
            Ok(x) => x,
            Err(e) => {
                proof {
                    lemma_property_list_err(vs, i + 1);
                }
                return Err(e);
            },
        };
        let ghost before = out@;
        out.push(PlayerProperties { name, value, signature });
        proof {
            assert(properties_view(out@) =~= properties_view(before).push(properties_view(out@).last()));
        }
        i = i + 1;
    }
    assert(vs.subrange(0, v@.len() as int) =~= vs);
    Ok(out)
}

/// Properties given as a map from names to lists of values.
fn read_property_map(es: &Vec<(String, NbtTag)>) -> (r: Result<Vec<PlayerProperties>, ComponentDecodeError>)
    ensures
        match r {
            Ok(ps) => property_map(view_entries(es@)) == Ok::<Seq<PropertyV>, DecodeErrV>(properties_view(ps@)),
            Err(e) => property_map(view_entries(es@)) == Err::<Seq<PropertyV>, DecodeErrV>(e@),
        },
{
    proof {
        lemma_view_entries_len(es@);
    }
    let ghost vs = view_entries(es@);
    let mut out: Vec<PlayerProperties> = Vec::new();
    let mut i: usize = 0;
    assert(properties_view(out@) =~= Seq::<PropertyV>::empty());
    assert(vs.subrange(0, 0) =~= Seq::<(Seq<char>, TagV)>::empty());
    while i < es.len()
        invariant
            i <= es@.len(),
            vs == view_entries(es@),
            vs.len() == es@.len(),
            property_map(vs.subrange(0, i as int)) == Ok::<Seq<PropertyV>, DecodeErrV>(properties_view(out@)),
        decreases es@.len() - i,
    {
        proof {
            lemma_view_entries_index(es@, i as int);
            assert(vs.subrange(0, i + 1).drop_last() =~= vs.subrange(0, i as int));
            assert(vs.subrange(0, i + 1).last() == vs[i as int]);
        }
        let (name, values) = &es[i];
        let items = match values {
            NbtTag::List(items) => items,
            _ => {
                proof {
                    lemma_property_map_err(vs, i + 1);
                }
                return Err(bad_properties_error());
            },
        };
        proof {
            lemma_view_tags_len(items@);
        }
        let ghost ivs = view_tags(items@);
        if items.len() == 0 {
            proof {
                lemma_property_map_err(vs, i + 1);
            }
            return Err(bad_properties_error());
        }
        let ghost start = out@;
        let mut j: usize = 0;
        while j < items.len()
            invariant
                j <= items@.len(),
                ivs == view_tags(items@),
                ivs.len() == items@.len(),
                out@.len() == start.len() + j,
                out@.subrange(0, start.len() as int) == start,
                i < es@.len(),
                vs == view_entries(es@),
                vs.len() == es@.len(),
                vs[i as int] == (name@, TagV::List(ivs)),
                property_map(vs.subrange(0, i as int)) == Ok::<Seq<PropertyV>, DecodeErrV>(properties_view(start)),
                vs.subrange(0, i + 1).drop_last() == vs.subrange(0, i as int),
                vs.subrange(0, i + 1).last() == vs[i as int],
                forall|k: int| 0 <= k < j ==> #[trigger] ivs[k] is String,
                forall|k: int| 0 <= k < j ==> #[trigger] properties_view(out@)[start.len() + k] == (PropertyV {
                    name: name@,
                    value: ivs[k]->String_0,
                    signature: None,
                }),
            decreases items@.len() - j,
        {
            proof {
                lemma_view_tags_index(items@, j as int);
            }
            let value = match &items[j] {
                NbtTag::String(s) => s.clone(),
                _ => {
                    proof {
                        assert(!(ivs[j as int] is String));
                        assert(string_list(TagV::List(ivs)) is None);
                        lemma_property_map_err(vs, i + 1);
                    }
                    return Err(bad_properties_error());
                },
            };
            let ghost before = out@;
            out.push(PlayerProperties { name: name.clone(), value, signature: None });
            proof {
                assert(out@.subrange(0, start.len() as int) =~= before.subrange(0, start.len() as int));
                assert forall|k: int| 0 <= k < j + 1 implies #[trigger] properties_view(out@)[start.len() + k] == (PropertyV {
                    name: name@,
                    value: ivs[k]->String_0,
                    signature: None,
                }) by {
                    if k < j {
                        assert(out@[start.len() + k] == before[start.len() + k]);
                        assert(properties_view(before)[start.len() + k] == (PropertyV {
                            name: name@,
                            value: ivs[k]->String_0,
                            signature: None,
                        }));
                    }
                }
            }
            j = j + 1;
        }
        proof {
            let values_v = ivs.map_values(|x: TagV| x->String_0);
            assert(string_list(TagV::List(ivs)) == Some(values_v));
            let added = values_v.map_values(|v: Seq<char>| PropertyV { name: name@, value: v, signature: None });
            assert(properties_view(out@) =~= properties_view(start) + added) by {
                assert forall|k: int| 0 <= k < start.len() implies properties_view(out@)[k] == properties_view(start)[k] by {
                    assert(out@[k] == out@.subrange(0, start.len() as int)[k]);
                }
                assert forall|x: int| start.len() <= x < out@.len() implies properties_view(out@)[x] == added[x - start.len()] by {
                    let k = x - start.len();
                    assert(properties_view(out@)[start.len() + k] == (PropertyV {
                        name: name@,
                        value: ivs[k]->String_0,
                        signature: None,
                    }));
                }
            }
        }
        i = i + 1;
    }
    assert(vs.subrange(0, es@.len() as int) =~= vs);
    Ok(out)
}

fn bad_properties_error() -> (r: ComponentDecodeError)
    ensures
        r@ == bad_properties(),
{
    invalid_field("properties", "a property map or list")
}

/// The properties of a profile.
fn read_properties(o: Option<&NbtTag>) -> (r: Result<Vec<PlayerProperties>, ComponentDecodeError>)
    ensures
        match r {
            Ok(ps) => properties_spec(opt_tag_v(o)) == Ok::<Seq<PropertyV>, DecodeErrV>(properties_view(ps@)),
            Err(e) => properties_spec(opt_tag_v(o)) == Err::<Seq<PropertyV>, DecodeErrV>(e@),
        },
{
    let ps = match o {
        None => {
            let ps: Vec<PlayerProperties> = Vec::new();
            assert(properties_view(ps@) =~= Seq::<PropertyV>::empty());
            ps
        },
        Some(NbtTag::List(v)) => {
            proof {
                lemma_view_tags_len(v@);
            }
            let ghost vs = view_tags(v@);
            if v.len() == 0 {
                return Err(bad_properties_error());
            }
            let mut i: usize = 0;
            while i < v.len()
                invariant
                    i <= v@.len(),
                    vs == view_tags(v@),
                    vs.len() == v@.len(),
                    opt_tag_v(o) == Some(TagV::List(vs)),
                    forall|k: int| 0 <= k < i ==> #[trigger] v@[k] is Compound,
                    forall|k: int| 0 <= k < i ==> #[trigger] vs[k] is Compound,
                decreases v@.len() - i,
            {
                proof {
                    lemma_view_tags_index(v@, i as int);
                }
                match &v[i] {
                    NbtTag::Compound(_) => {},
                    _ => {
                        proof {
                            assert(!(vs[i as int] is Compound));
                        }
                        return Err(bad_properties_error());
                    },
                }
                i = i + 1;
            }
            match read_property_list(v) {
                Ok(ps) => ps,
                Err(e) => return Err(e),
            }
        },
        Some(NbtTag::Compound(es)) => match read_property_map(es) {
            Ok(ps) => ps,
            Err(e) => return Err(e),
        },
        Some(_) => return Err(bad_properties_error()),
    };
    if ps.len() > 16 {
        return Err(invalid_field("properties", "at most 16 properties"));
    }
    Ok(ps)
}

/// Whether a text is a valid player name.
fn check_player_name(s: &str) -> (r: bool)
    ensures
        r == valid_player_name(s@),
{
    let cs = chars_of(s);
    if cs.len() > 16 {
        return false;
    }
    let mut i: usize = 0;
    while i < cs.len()
        invariant
            i <= cs@.len(),
            cs@ == s@,
            forall|k: int| 0 <= k < i ==> ' ' < #[trigger] cs@[k] && cs@[k] < '\u{7f}',
        decreases cs@.len() - i,
    {
        if !(' ' < cs[i] && cs[i] < '\u{7f}') {
            return false;
        }
        i = i + 1;
    }
    true
}

/// The skin model a profile names.
fn read_model(es: &Vec<(String, NbtTag)>) -> (r: Result<Option<PlayerModel>, ComponentDecodeError>)
    ensures
        err_v(r) == model_spec(view_entries(es@)),
{
    match read_optional_string(es, "model") {
        Err(e) => Err(e),
        Ok(None) => Ok(None),
        Ok(Some(m)) => {
            let cs = chars_of(m.as_str());
            if eq_lit(cs.as_slice(), "slim") {
                Ok(Some(PlayerModel::Slim))
            } else if eq_lit(cs.as_slice(), "wide") {
                Ok(Some(PlayerModel::Wide))
            } else {
                Err(invalid_field("model", "`slim` or `wide`"))
            }
        },
    }
}

/// A player profile.
fn read_profile(es: &Vec<(String, NbtTag)>) -> (r: Result<ObjectPlayer, ComponentDecodeError>)
    ensures
        match r {
            Ok(p) => profile_spec(view_entries(es@)) == Ok::<PlayerV, DecodeErrV>(player_view(p)),
            Err(e) => profile_spec(view_entries(es@)) == Err::<PlayerV, DecodeErrV>(e@),
        },
{
    proof {
        reveal(profile_spec);
    }
    let name = match read_optional_string(es, "name") {
        Ok(n) => n,
        Err(e) => return Err(e),
    };
    match &name {
        Some(n) => if !check_player_name(n.as_str()) {
            return Err(invalid_field("name", "a valid player name"));
        },
        None => {},
    }
    let id = match field_of(es, "id") {
        None => None,
        Some(t) => match read_four_ints(t) {
            Some(v) => Some(v),
            None => return Err(invalid_field("id", "a four-integer UUID")),
        },
    };
    assert(profile_id(view_entries(es@)) == Ok::<Option<[i32; 4]>, DecodeErrV>(id));
    let texture = match read_optional_identifier(es, "texture") {
        Ok(x) => x,
        Err(e) => return Err(e),
    };
    let cape = match read_optional_identifier(es, "cape") {
        Ok(x) => x,
        Err(e) => return Err(e),
    };
    let elytra = match read_optional_identifier(es, "elytra") {
        Ok(x) => x,
        Err(e) => return Err(e),
    };
    let model = match read_model(es) {
        Ok(x) => x,
        Err(e) => return Err(e),
    };
    let properties = match read_properties(field_of(es, "properties")) {
        Ok(x) => x,
        Err(e) => return Err(e),
    };
    Ok(ObjectPlayer { name, id, texture, cape, elytra, model, properties })
}

/// A player head: a name or a profile, and whether the hat layer shows.
fn read_player(es: &Vec<(String, NbtTag)>, fallback: Option<Box<TextComponent>>) -> (r: Result<Content, ComponentDecodeError>)
    ensures
        match r {
            Ok(c) => player_content_spec(view_entries(es@), opt_comp_view(fallback)) == Ok::<ContentV, DecodeErrV>(content_view(c)),
            Err(e) => player_content_spec(view_entries(es@), opt_comp_view(fallback)) == Err::<ContentV, DecodeErrV>(e@),
        },
{
    proof {
        reveal(player_content_spec);
    }
    let player = match field_of(es, "player") {
        None => return Err(ComponentDecodeError::MissingField("player")),
        Some(NbtTag::String(name)) => {
            if !check_player_name(name.as_str()) {
                return Err(invalid_field("name", "a valid player name"));
            }
            let p = ObjectPlayer::name(name.clone());
            assert(properties_view(p.properties@) =~= Seq::<PropertyV>::empty());
            p
        },
        Some(t) => match t {
            NbtTag::Compound(profile) => match read_profile(profile) {
                Ok(p) => p,
                Err(e) => return Err(e),
            },
            _ => return Err(invalid_field("player", "a player name or profile")),
        },
    };
    let hat = read_flag(es, "hat", true);
    Ok(Content::Object(Object::Player { player: Box::new(player), hat, fallback }))
}

/// An atlas sprite.
fn read_atlas(es: &Vec<(String, NbtTag)>, fallback: Option<Box<TextComponent>>) -> (r: Result<Content, ComponentDecodeError>)
    ensures
        match r {
            Ok(c) => atlas_spec(view_entries(es@), opt_comp_view(fallback)) == Ok::<ContentV, DecodeErrV>(content_view(c)),
            Err(e) => atlas_spec(view_entries(es@), opt_comp_view(fallback)) == Err::<ContentV, DecodeErrV>(e@),
        },
{
    proof {
        reveal(atlas_spec);
    }
    let atlas = match read_optional_identifier(es, "atlas") {
        Ok(Some(a)) => a,
        Ok(None) => "minecraft:blocks".to_owned(),
        Err(e) => return Err(e),
    };
    let sprite = match read_required_identifier(es, "sprite") {
        Ok(s) => s,
        Err(e) => return Err(e),
    };
    Ok(Content::Object(Object::Atlas { atlas, sprite, fallback }))
}

/// Where NBT content reads from.
fn read_source(es: &Vec<(String, NbtTag)>) -> (r: Result<NbtSource, ComponentDecodeError>)
    ensures
        match r {
            Ok(s) => source_spec(view_entries(es@)) == Ok::<SourceV, DecodeErrV>(source_view(s)),
            Err(e) => source_spec(view_entries(es@)) == Err::<SourceV, DecodeErrV>(e@),
        },
{
    proof {
        reveal(source_spec);
    }
    match field_of(es, "source") {
        Some(t) => match t {
            NbtTag::String(kind) => {
                let k = chars_of(kind.as_str());
                if eq_lit(k.as_slice(), "entity") {
                    match read_required_string(es, "entity") {
                        Ok(s) => Ok(NbtSource::Entity(s)),
                        Err(e) => Err(e),
                    }
                } else if eq_lit(k.as_slice(), "block") {
                    match read_required_string(es, "block") {
                        Ok(s) => Ok(NbtSource::Block(s)),
                        Err(e) => Err(e),
                    }
                } else if eq_lit(k.as_slice(), "storage") {
                    match read_required_identifier(es, "storage") {
                        Ok(s) => Ok(NbtSource::Storage(s)),
                        Err(e) => Err(e),
                    }
                } else {
                    Err(ComponentDecodeError::UnknownDataSource(kind.clone()))
                }
            },
            _ => Err(invalid_field("source", "a source type string")),
        },
        None => {
            if let Ok(s) = read_required_string(es, "entity") {
                return Ok(NbtSource::Entity(s));
            }
            if let Ok(s) = read_required_string(es, "block") {
                return Ok(NbtSource::Block(s));
            }
            if let Ok(s) = read_required_identifier(es, "storage") {
                return Ok(NbtSource::Storage(s));
            }
            Err(ComponentDecodeError::MissingField("entity, block, or storage"))
        },
    }
}

fn read_text(es: &Vec<(String, NbtTag)>) -> (r: Result<Content, ComponentDecodeError>)
    ensures
        match r {
            Ok(c) => text_spec(view_entries(es@)) == Ok::<ContentV, DecodeErrV>(content_view(c)),
            Err(e) => text_spec(view_entries(es@)) == Err::<ContentV, DecodeErrV>(e@),
        },
{
    proof {
        reveal(text_spec);
    }
    match read_required_string(es, "text") {
        Ok(text) => Ok(Content::Text { text }),
        Err(e) => Err(e),
    }
}

fn read_keybind(es: &Vec<(String, NbtTag)>) -> (r: Result<Content, ComponentDecodeError>)
    ensures
        match r {
            Ok(c) => keybind_spec(view_entries(es@)) == Ok::<ContentV, DecodeErrV>(content_view(c)),
            Err(e) => keybind_spec(view_entries(es@)) == Err::<ContentV, DecodeErrV>(e@),
        },
{
    proof {
        reveal(keybind_spec);
    }
    match read_required_string(es, "keybind") {
        Ok(keybind) => Ok(Content::Keybind { keybind }),
        Err(e) => Err(e),
    }
}

fn read_score(es: &Vec<(String, NbtTag)>) -> (r: Result<Content, ComponentDecodeError>)
    ensures
        match r {
            Ok(c) => score_spec(view_entries(es@)) == Ok::<ContentV, DecodeErrV>(content_view(c)),
            Err(e) => score_spec(view_entries(es@)) == Err::<ContentV, DecodeErrV>(e@),
        },
{
    proof {
        reveal(score_spec);
    }
    let score = match read_required_compound(es, "score") {
        Ok(s) => s,
        Err(e) => return Err(e),
    };
    let selector = match read_required_string(score, "name") {
        Ok(s) => s,
        Err(e) => return Err(e),
    };
    let objective = match read_required_string(score, "objective") {
        Ok(s) => s,
        Err(e) => return Err(e),
    };
    Ok(Content::Resolvable(Resolvable::Scoreboard { selector, objective }))
}

// ---------------------------------------------------------------------------
// Components.

proof fn lemma_comps_view_push(s: Seq<TextComponent>, c: TextComponent)
    ensures
        comps_view(s.push(c)) == comps_view(s).push(comp_view(c)),
{
    assert(s.push(c).drop_last() =~= s);
}

proof fn lemma_comps_view_len(s: Seq<TextComponent>)
    ensures
        comps_view(s).len() == s.len(),
    decreases s.len(),
{
    if s.len() > 0 {
        lemma_comps_view_len(s.drop_last());
    }
}

proof fn lemma_comps_view_concat(a: Seq<TextComponent>, b: Seq<TextComponent>)
    ensures
        comps_view(a + b) == comps_view(a) + comps_view(b),
    decreases b.len(),
{
    if b.len() == 0 {
        assert(a + b =~= a);
        assert(comps_view(a) + comps_view(b) =~= comps_view(a));
    } else {
        lemma_comps_view_concat(a, b.drop_last());
        assert((a + b).drop_last() =~= a + b.drop_last());
        assert(comps_view(a) + comps_view(b) =~= (comps_view(a) + comps_view(b.drop_last())).push(comp_view(b.last())));
    }
}

proof fn lemma_comps_view_index(s: Seq<TextComponent>, k: int)
    requires
        0 <= k < s.len(),
    ensures
        comps_view(s)[k] == comp_view(s[k]),
    decreases s.len(),
{
    lemma_comps_view_len(s);
    if k < s.len() - 1 {
        lemma_comps_view_index(s.drop_last(), k);
        lemma_comps_view_len(s.drop_last());
    }
}

proof fn lemma_decode_list_err(s: Seq<TagV>, j: int, ch: spec_fn(Number) -> i32)
    requires
        0 <= j <= s.len(),
        decode_list(s.subrange(0, j), ch) is Err,
    ensures
        decode_list(s, ch) == decode_list(s.subrange(0, j), ch),
    decreases s.len() - j,
{
    if j < s.len() {
        assert(s.subrange(0, j + 1).drop_last() =~= s.subrange(0, j));
        lemma_decode_list_err(s, j + 1, ch);
    } else {
        assert(s.subrange(0, j) =~= s);
    }
}

/// Each tag read as a component, in order; the first error stops it.
fn read_components<F: Fn(Number) -> i32>(v: &Vec<NbtTag>, ch: &F) -> (r: Result<Vec<TextComponent>, ComponentDecodeError>)
    requires
        channel_fn_ok(ch),
    ensures
        match r {
            Ok(w) => decode_list(view_tags(v@), channel_spec(ch)) == Ok::<Seq<CompV>, DecodeErrV>(comps_view(w@)),
            Err(e) => decode_list(view_tags(v@), channel_spec(ch)) == Err::<Seq<CompV>, DecodeErrV>(e@),
        },
    decreases v, 1nat,
{
    proof {
        lemma_view_tags_len(v@);
    }
    let ghost vs = view_tags(v@);
    let ghost chs = channel_spec(ch);
    let mut out: Vec<TextComponent> = Vec::new();
    let mut i: usize = 0;
    assert(vs.subrange(0, 0) =~= Seq::<TagV>::empty());
    assert(comps_view(out@) =~= Seq::<CompV>::empty());
    while i < v.len()
        invariant
            i <= v@.len(),
            vs == view_tags(v@),
            vs.len() == v@.len(),
            chs == channel_spec(ch),
            channel_fn_ok(ch),
            decode_list(vs.subrange(0, i as int), chs) == Ok::<Seq<CompV>, DecodeErrV>(comps_view(out@)),
        decreases v@.len() - i,
    {
        proof {
            lemma_view_tags_index(v@, i as int);
            assert(vs.subrange(0, i + 1).drop_last() =~= vs.subrange(0, i as int));
        }
        match TextComponent::try_from_nbt_with(&v[i], ch) {
            Ok(c) => {
                proof {
                    lemma_comps_view_push(out@, c);
                }
                out.push(c);
            },
            Err(e) => {
                proof {
                    lemma_decode_list_err(vs, i + 1, chs);
                }
                return Err(e);
            },
        }
        i = i + 1;
    }
    assert(vs.subrange(0, v@.len() as int) =~= vs);
    Ok(out)
}

/// The value of a field read as a component, `None` when the field is absent.
fn read_component_field<F: Fn(Number) -> i32>(es: &Vec<(String, NbtTag)>, f: &'static str, ch: &F) -> (r: Option<Result<TextComponent, ComponentDecodeError>>)
    requires
        channel_fn_ok(ch),
    ensures
        match r {
            None => decode_field(view_entries(es@), f@, channel_spec(ch)) is None,
            Some(Ok(c)) => decode_field(view_entries(es@), f@, channel_spec(ch)) == Some(Ok::<CompV, DecodeErrV>(c@)),
            Some(Err(e)) => decode_field(view_entries(es@), f@, channel_spec(ch)) == Some(Err::<CompV, DecodeErrV>(e@)),
        },
    decreases es, 2nat,
{
    match find_field(es, f) {
        Some(i) => {
            proof {
                lemma_view_entries_index(es@, i as int);
            }
            Some(TextComponent::try_from_nbt_with(&es[i].1, ch))
        },
        None => None,
    }
}

/// A translation.
fn read_translatable<F: Fn(Number) -> i32>(es: &Vec<(String, NbtTag)>, ch: &F) -> (r: Result<Content, ComponentDecodeError>)
    requires
        channel_fn_ok(ch),
    ensures
        match r {
            Ok(c) => translatable_spec(view_entries(es@), channel_spec(ch)) == Ok::<ContentV, DecodeErrV>(content_view(c)),
            Err(e) => translatable_spec(view_entries(es@), channel_spec(ch)) == Err::<ContentV, DecodeErrV>(e@),
        },
    decreases es, 3nat,
{
    let key = match read_required_string(es, "translate") {
        Ok(k) => k,
        Err(e) => return Err(e),
    };
    let fallback = match field_of(es, "fallback") {
        Some(NbtTag::String(s)) => Some(s.clone()),
        _ => None,
    };
    let args = match find_field(es, "with") {
        None => Args::Absent,
        Some(i) => {
            proof {
                lemma_view_entries_index(es@, i as int);
            }
            match &es[i].1 {
                NbtTag::List(v) => match read_components(v, ch) {
                    Ok(w) => Args::Owned(w),
                    Err(e) => return Err(e),
                },
                _ => return Err(invalid_field("with", "a component list")),
            }
        },
    };
    Ok(Content::Translate(TranslatedMessage { key, fallback, args }))
}

/// A selector.
fn read_selector<F: Fn(Number) -> i32>(es: &Vec<(String, NbtTag)>, ch: &F) -> (r: Result<Content, ComponentDecodeError>)
    requires
        channel_fn_ok(ch),
    ensures
        match r {
            Ok(c) => selector_spec(view_entries(es@), channel_spec(ch)) == Ok::<ContentV, DecodeErrV>(content_view(c)),
            Err(e) => selector_spec(view_entries(es@), channel_spec(ch)) == Err::<ContentV, DecodeErrV>(e@),
        },
    decreases es, 3nat,
{
    let selector = match read_required_string(es, "selector") {
        Ok(s) => s,
        Err(e) => return Err(e),
    };
    let separator = match read_component_field(es, "separator", ch) {
        None => None,
        Some(Ok(c)) => Some(Box::new(c)),
        Some(Err(e)) => return Err(e),
    };
    Ok(Content::Resolvable(Resolvable::Entity { selector, separator }))
}

/// NBT content.
fn read_nbt<F: Fn(Number) -> i32>(es: &Vec<(String, NbtTag)>, ch: &F) -> (r: Result<Content, ComponentDecodeError>)
    requires
        channel_fn_ok(ch),
    ensures
        match r {
            Ok(c) => nbt_spec(view_entries(es@), channel_spec(ch)) == Ok::<ContentV, DecodeErrV>(content_view(c)),
            Err(e) => nbt_spec(view_entries(es@), channel_spec(ch)) == Err::<ContentV, DecodeErrV>(e@),
        },
    decreases es, 3nat,
{
    let path = match read_required_string(es, "nbt") {
        Ok(s) => s,
        Err(e) => return Err(e),
    };
    let interpret = read_flag(es, "interpret", false);
    let plain = read_flag(es, "plain", false);
    if interpret && plain {
        return Err(ComponentDecodeError::ConflictingNbtFlags);
    }
    let separator = match read_component_field(es, "separator", ch) {
        Some(Ok(c)) => Some(Box::new(c)),
        _ => None,
    };
    let source = match read_source(es) {
        Ok(s) => s,
        Err(e) => return Err(e),
    };
    Ok(Content::Resolvable(Resolvable::NBT { path, interpret, plain, separator, source }))
}

/// An object: an atlas sprite or a player head.
fn read_object<F: Fn(Number) -> i32>(es: &Vec<(String, NbtTag)>, ch: &F) -> (r: Result<Content, ComponentDecodeError>)
    requires
        channel_fn_ok(ch),
    ensures
        match r {
            Ok(c) => object_spec(view_entries(es@), channel_spec(ch)) == Ok::<ContentV, DecodeErrV>(content_view(c)),
            Err(e) => object_spec(view_entries(es@), channel_spec(ch)) == Err::<ContentV, DecodeErrV>(e@),
        },
    decreases es, 3nat,
{
    let fallback = match read_component_field(es, "fallback", ch) {
        Some(Err(e)) => return Err(e),
        Some(Ok(c)) => Some(Box::new(c)),
        None => None,
    };
    match read_optional_string(es, "object") {
        Err(e) => Err(e),
        Ok(Some(kind)) => {
            let k = chars_of(kind.as_str());
            if eq_lit(k.as_slice(), "atlas") {
                read_atlas(es, fallback)
            } else if eq_lit(k.as_slice(), "player") {
                read_player(es, fallback)
            } else {
                Err(ComponentDecodeError::UnknownObjectType(kind))
            }
        },
        Ok(None) => {
            if field_of(es, "sprite").is_some() {
                read_atlas(es, fallback)
            } else if field_of(es, "player").is_some() {
                read_player(es, fallback)
            } else {
                Err(ComponentDecodeError::NoMatchingContent)
            }
        },
    }
}

/// The content of a compound.
fn read_content<F: Fn(Number) -> i32>(es: &Vec<(String, NbtTag)>, ch: &F) -> (r: Result<Content, ComponentDecodeError>)
    requires
        channel_fn_ok(ch),
    ensures
        match r {
            Ok(c) => content_spec(view_entries(es@), channel_spec(ch)) == Ok::<ContentV, DecodeErrV>(content_view(c)),
            Err(e) => content_spec(view_entries(es@), channel_spec(ch)) == Err::<ContentV, DecodeErrV>(e@),
        },
    decreases es, 4nat,
{
    match field_of(es, "type") {
        Some(t) => match t {
            NbtTag::String(kind) => {
                let k = chars_of(kind.as_str());
                let k = k.as_slice();
                if eq_lit(k, "text") {
                    read_text(es)
                } else if eq_lit(k, "translatable") {
                    read_translatable(es, ch)
                } else if eq_lit(k, "keybind") {
                    read_keybind(es)
                } else if eq_lit(k, "score") {
                    read_score(es)
                } else if eq_lit(k, "selector") {
                    read_selector(es, ch)
                } else if eq_lit(k, "nbt") {
                    read_nbt(es, ch)
                } else if eq_lit(k, "object") {
                    read_object(es, ch)
                } else {
                    Err(ComponentDecodeError::UnknownContentType(kind.clone()))
                }
            },
            _ => Err(invalid_field("type", "a component type string")),
        },
        None => {
            if let Ok(c) = read_text(es) {
                return Ok(c);
            }
            if let Ok(c) = read_translatable(es, ch) {
                return Ok(c);
            }
            if let Ok(c) = read_keybind(es) {
                return Ok(c);
            }
            if let Ok(c) = read_score(es) {
                return Ok(c);
            }
            if let Ok(c) = read_selector(es, ch) {
                return Ok(c);
            }
            if let Ok(c) = read_nbt(es, ch) {
                return Ok(c);
            }
            if let Ok(c) = read_object(es, ch) {
                return Ok(c);
            }
            Err(ComponentDecodeError::NoMatchingContent)
        },
    }
}

/// A hover event.
fn read_hover<F: Fn(Number) -> i32>(es: &Vec<(String, NbtTag)>, ch: &F) -> (r: Result<HoverEvent, ComponentDecodeError>)
    requires
        channel_fn_ok(ch),
    ensures
        match r {
            Ok(h) => hover_spec(view_entries(es@), channel_spec(ch)) == Ok::<HoverV, DecodeErrV>(hover_view(h)),
            Err(e) => hover_spec(view_entries(es@), channel_spec(ch)) == Err::<HoverV, DecodeErrV>(e@),
        },
    decreases es, 3nat,
{
    let action = match read_required_string(es, "action") {
        Ok(a) => a,
        Err(e) => return Err(e),
    };
    let a = chars_of(action.as_str());
    let a = a.as_slice();
    if eq_lit(a, "show_text") {
        match read_component_field(es, "value", ch) {
            None => Err(ComponentDecodeError::MissingField("value")),
            Some(Ok(c)) => Ok(HoverEvent::ShowText { value: Box::new(c) }),
            Some(Err(e)) => Err(e),
        }
    } else if eq_lit(a, "show_item") {
        let count = match read_count(es) {
            Ok(c) => c,
            Err(e) => return Err(e),
        };
        let components = match read_item_components(es) {
            Ok(c) => c,
            Err(e) => return Err(e),
        };
        let id = match read_required_identifier(es, "id") {
            Ok(i) => i,
            Err(e) => return Err(e),
        };
        Ok(HoverEvent::ShowItem { id, count, components })
    } else if eq_lit(a, "show_entity") {
        let uuid = match field_of(es, "uuid") {
            None => return Err(ComponentDecodeError::MissingField("uuid")),
            Some(t) => match read_uuid(t) {
                Ok(u) => u,
                Err(e) => return Err(e),
            },
        };
        let name = match read_component_field(es, "name", ch) {
            Some(Err(e)) => return Err(e),
            Some(Ok(c)) => Some(Box::new(c)),
            None => None,
        };
        let id = match read_required_identifier(es, "id") {
            Ok(i) => i,
            Err(e) => return Err(e),
        };
        Ok(HoverEvent::ShowEntity { name, id, uuid })
    } else {
        Err(ComponentDecodeError::UnknownHoverAction(action))
    }
}

/// The events of a component.
fn read_interactions<F: Fn(Number) -> i32>(es: &Vec<(String, NbtTag)>, ch: &F) -> (r: Result<Interactivity, ComponentDecodeError>)
    requires
        channel_fn_ok(ch),
    ensures
        match r {
            Ok(i) => inter_spec(view_entries(es@), channel_spec(ch)) == Ok::<InterV, DecodeErrV>(inter_view(i)),
            Err(e) => inter_spec(view_entries(es@), channel_spec(ch)) == Err::<InterV, DecodeErrV>(e@),
        },
    decreases es, 4nat,
{
    let insertion = match read_optional_string(es, "insertion") {
        Ok(x) => x,
        Err(e) => return Err(e),
    };
    let click = match field_of(es, "click_event") {
        Some(t) => match t {
            NbtTag::Compound(c) => match read_click(c) {
                Ok(c) => Some(c),
                Err(e) => return Err(e),
            },
            _ => return Err(invalid_field("click_event", "a click event")),
        },
        None => None,
    };
    let hover = match find_field(es, "hover_event") {
        Some(i) => {
            proof {
                lemma_view_entries_index(es@, i as int);
            }
            match &es[i].1 {
                NbtTag::Compound(h) => match read_hover(h, ch) {
                    Ok(h) => Some(h),
                    Err(e) => return Err(e),
                },
                _ => return Err(invalid_field("hover_event", "a hover event")),
            }
        },
        None => None,
    };
    Ok(Interactivity { insertion, click, hover })
}

/// A compound read as a component.
fn read_compound<F: Fn(Number) -> i32>(es: &Vec<(String, NbtTag)>, ch: &F) -> (r: Result<TextComponent, ComponentDecodeError>)
    requires
        channel_fn_ok(ch),
    ensures
        match r {
            Ok(c) => compound_spec(view_entries(es@), channel_spec(ch)) == Ok::<CompV, DecodeErrV>(c@),
            Err(e) => compound_spec(view_entries(es@), channel_spec(ch)) == Err::<CompV, DecodeErrV>(e@),
        },
    decreases es, 5nat,
{
    proof {
        lemma_view_entries_len(es@);
    }
    if es.len() == 1 && chars_of(es[0].0.as_str()).len() == 0 {
        proof {
            lemma_view_entries_index(es@, 0);
        }
        return TextComponent::try_from_nbt_with(&es[0].1, ch);
    }
    proof {
        if es@.len() == 1 {
            lemma_view_entries_index(es@, 0);
        }
    }
    let content = match read_content(es, ch) {
        Ok(c) => c,
        Err(e) => {
            assert(content_spec(view_entries(es@), channel_spec(ch)) == Err::<ContentV, DecodeErrV>(e@));
            assert(!(view_entries(es@).len() == 1 && view_entries(es@)[0].0.len() == 0));
            assert(compound_spec(view_entries(es@), channel_spec(ch)) == Err::<CompV, DecodeErrV>(e@));
            return Err(e);
        },
    };
    let children = match find_field(es, "extra") {
        None => Vec::new(),
        Some(i) => {
            proof {
                lemma_view_entries_index(es@, i as int);
            }
            match &es[i].1 {
                NbtTag::List(v) => {
                    proof {
                        lemma_view_tags_len(v@);
                    }
                    if v.len() == 0 {
                        return Err(ComponentDecodeError::EmptyComponentList);
                    }
                    match read_components(v, ch) {
                        Ok(w) => w,
                        Err(e) => return Err(e),
                    }
                },
                _ => return Err(invalid_field("extra", "a non-empty component list")),
            }
        },
    };
    let format = match read_format(es, ch) {
        Ok(f) => f,
        Err(e) => return Err(e),
    };
    let interactions = match read_interactions(es, ch) {
        Ok(i) => i,
        Err(e) => return Err(e),
    };
    proof {
        if children@.len() == 0 {
            assert(comps_view(children@) =~= Seq::<CompV>::empty());
        }
    }
    Ok(TextComponent { content, children, format, interactions })
}

impl TextComponent {
    /// Reads a component out of an NBT tag: a string is plain text, a non-empty list is its
    /// first element with the others as children, a compound is read field by field.
    /// `channel` turns a shadow color channel given as a number into its value (the number
    /// as `f32`, times 255, rounded down).
    pub fn try_from_nbt_with<F: Fn(Number) -> i32>(tag: &NbtTag, channel: &F) -> (r: Result<TextComponent, ComponentDecodeError>)
        requires
            channel_fn_ok(channel),
        ensures
            match r {
                Ok(c) => decode_spec(tag@, channel_spec(channel)) == Ok::<CompV, DecodeErrV>(c@),
                Err(e) => decode_spec(tag@, channel_spec(channel)) == Err::<CompV, DecodeErrV>(e@),
            },
        decreases tag, 0nat,
    {
        match tag {
            NbtTag::String(s) => {
                let c = TextComponent::plain(s.clone());
                assert(comps_view(c.children@) =~= Seq::<CompV>::empty());
                Ok(c)
            },
            NbtTag::List(v) => {
                proof {
                    lemma_view_tags_len(v@);
                }
                if v.len() == 0 {
                    return Err(ComponentDecodeError::EmptyComponentList);
                }
                let mut all = match read_components(v, channel) {
                    Ok(w) => w,
                    Err(e) => return Err(e),
                };
                let ghost cs = all@;
                proof {
                    lemma_comps_view_len(cs);
                    lemma_comps_view_index(cs, 0);
                }
                let mut first = all.remove(0);
                let ghost own = first.children@;
                let ghost rest = all@;
                proof {
                    assert(rest =~= cs.drop_first());
                    assert(comps_view(cs).drop_first() =~= comps_view(rest)) by {
                        lemma_comps_view_len(rest);
                        assert forall|k: int| 0 <= k < rest.len() implies comps_view(cs).drop_first()[k] == comps_view(rest)[k] by {
                            lemma_comps_view_index(cs, k + 1);
                            lemma_comps_view_index(rest, k);
                        }
                    }
                }
                first.children.append(&mut all);
                proof {
                    assert(first.children@ =~= own + rest);
                    lemma_comps_view_concat(own, rest);
                }
                Ok(first)
            },
            NbtTag::Compound(es) => read_compound(es, channel),
            _ => Err(ComponentDecodeError::ExpectedComponent),
        }
    }

    /// Reads a component out of an NBT tag, `None` where it is none.
    pub fn from_nbt_with<F: Fn(Number) -> i32>(tag: &NbtTag, channel: &F) -> (r: Option<TextComponent>)
        requires
            channel_fn_ok(channel),
        ensures
            match r {
                Some(c) => decode_spec(tag@, channel_spec(channel)) == Ok::<CompV, DecodeErrV>(c@),
                None => decode_spec(tag@, channel_spec(channel)) is Err,
            },
    {
        match TextComponent::try_from_nbt_with(tag, channel) {
            Ok(c) => Some(c),
            Err(_) => None,
        }
    }
}

} // verus!
