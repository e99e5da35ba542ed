//! What reading a component out of an NBT tree gives: the tree's model mapped to the
//! component's model, or the first error met.
use vstd::prelude::*;
use vstd::arithmetic::power2::pow2;
use crate::format::{all_hex, from_codec_name_spec, hex_value, Color};
use crate::grammar::parser::is_whitespace_spec;
use crate::content::PlayerModel;
use crate::nbt::model::{
    ArgsV, ClickV, CompV, ContentV, DecodeErrV, FormatV, HoverV, InterV, PlayerV, PropertyV, SourceV,
};
use crate::nbt::tag::TagV;
use crate::snbt::events::{uuid_of_halves, uuid_parsed};

verus! {

/// A number tag as the reader converts it: integer types widened, floats by their bits.
#[derive(Debug, Clone, Copy)]
pub enum Number {
    Int(i64),
    Float(u32),
    Double(u64),
}

/// Whether `f` turns every number into a channel value, the same number always into the
/// same value.
pub open spec fn channel_fn_ok<F: Fn(Number) -> i32>(f: &F) -> bool {
    &&& forall|n: Number| #[trigger] f.requires((n,))
    &&& forall|n: Number, a: i32, b: i32| #[trigger] f.ensures((n,), a) && #[trigger] f.ensures((n,), b) ==> a == b
}

/// The channel value `f` gives a number.
pub open spec fn channel_value<F: Fn(Number) -> i32>(f: &F, n: Number) -> i32 {
    choose|v: i32| f.ensures((n,), v)
}

/// `f` as a function on numbers.
pub open spec fn channel_spec<F: Fn(Number) -> i32>(f: &F) -> spec_fn(Number) -> i32 {
    |n: Number| channel_value(f, n)
}

/// The number a tag holds, if it is a number.
pub open spec fn number_of(t: TagV) -> Option<Number> {
    match t {
        TagV::Byte(v) => Some(Number::Int(v as i64)),
        TagV::Short(v) => Some(Number::Int(v as i64)),
        TagV::Int(v) => Some(Number::Int(v as i64)),
        TagV::Long(v) => Some(Number::Int(v)),
        TagV::Float(b) => Some(Number::Float(b)),
        TagV::Double(b) => Some(Number::Double(b)),
        _ => None,
    }
}

/// Whether a number is other than zero (a NaN is).
pub open spec fn number_bool(n: Number) -> bool {
    match n {
        Number::Int(v) => v != 0,
        Number::Float(b) => b & 0x7FFF_FFFFu32 != 0,
        Number::Double(b) => b & 0x7FFF_FFFF_FFFF_FFFFu64 != 0,
    }
}

/// An integer clamped into `i32`.
pub open spec fn clamp_i32(v: int) -> i32 {
    if v < i32::MIN { i32::MIN } else if v > i32::MAX { i32::MAX } else { v as i32 }
}

/// The integer part of `mag × 2^(e − bias)`, with the sign applied and clamped into `i32`.
pub open spec fn truncated(neg: bool, mag: nat, e: nat, bias: nat) -> i32 {
    let t: int = if e >= bias { (mag * pow2((e - bias) as nat)) as int } else { (mag / pow2((bias - e) as nat)) as int };
    clamp_i32(if neg { -t } else { t })
}

/// A float, given by its bits, converted to `i32` as `as` does: toward zero, clamped, NaN to 0.
pub open spec fn f32_to_i32(b: u32) -> i32 {
    let e = (b >> 23u32) & 0xFFu32;
    let m = b & 0x7F_FFFFu32;
    let neg = (b >> 31u32) == 1u32;
    if e == 0xFFu32 {
        if m != 0 { 0 } else if neg { i32::MIN } else { i32::MAX }
    } else {
        let mag: nat = if e == 0 { m as nat } else { m as nat + 0x80_0000 };
        truncated(neg, mag, e as nat, 150)
    }
}

/// A double, given by its bits, converted to `i32` as `as` does.
pub open spec fn f64_to_i32(b: u64) -> i32 {
    let e = (b >> 52u64) & 0x7FFu64;
    let m = b & 0xF_FFFF_FFFF_FFFFu64;
    let neg = (b >> 63u64) == 1u64;
    if e == 0x7FFu64 {
        if m != 0 { 0 } else if neg { i32::MIN } else { i32::MAX }
    } else {
        let mag: nat = if e == 0 { m as nat } else { m as nat + 0x10_0000_0000_0000 };
        truncated(neg, mag, e as nat, 1075)
    }
}

/// A number as `i32`: integers truncated to their low 32 bits, floats as `as` converts them.
pub open spec fn number_i32(n: Number) -> i32 {
    match n {
        Number::Int(v) => v as i32,
        Number::Float(b) => f32_to_i32(b),
        Number::Double(b) => f64_to_i32(b),
    }
}

pub open spec fn as_string(t: TagV) -> Option<Seq<char>> {
    match t {
        TagV::String(s) => Some(s),
        _ => None,
    }
}

pub open spec fn as_bool(t: TagV) -> Option<bool> {
    match number_of(t) {
        Some(n) => Some(number_bool(n)),
        None => None,
    }
}

pub open spec fn as_i32(t: TagV) -> Option<i32> {
    match number_of(t) {
        Some(n) => Some(number_i32(n)),
        None => None,
    }
}

// ---------------------------------------------------------------------------
// Fields of a compound.

/// The index of the first entry with this name.
#[verifier::opaque]
pub open spec fn find_index(es: Seq<(Seq<char>, TagV)>, name: Seq<char>) -> Option<int>
    decreases es.len(),
{
    if es.len() == 0 {
        None
    } else if es[0].0 == name {
        Some(0)
    } else {
        match find_index(es.drop_first(), name) {
            Some(i) => Some(i + 1),
            None => None,
        }
    }
}

pub proof fn lemma_find_index(es: Seq<(Seq<char>, TagV)>, name: Seq<char>)
    ensures
        find_index(es, name) matches Some(i) ==> 0 <= i < es.len() && es[i].0 == name
            && forall|k: int| 0 <= k < i ==> #[trigger] es[k].0 != name,
        find_index(es, name) is None ==> forall|k: int| 0 <= k < es.len() ==> #[trigger] es[k].0 != name,
    decreases es.len(),
{
    reveal(find_index);
    if es.len() > 0 {
        lemma_find_index(es.drop_first(), name);
        if es[0].0 != name {
            assert forall|k: int| 1 <= k < es.len() implies es[k].0 == es.drop_first()[k - 1].0 by {}
        }
    }
}

/// The value of the first entry with this name.
pub open spec fn field(es: Seq<(Seq<char>, TagV)>, name: Seq<char>) -> Option<TagV> {
    match find_index(es, name) {
        Some(i) => Some(es[i].1),
        None => None,
    }
}

pub open spec fn invalid(f: Seq<char>, expected: Seq<char>) -> DecodeErrV {
    DecodeErrV::InvalidField(f, expected)
}

pub open spec fn required_string(es: Seq<(Seq<char>, TagV)>, f: Seq<char>) -> Result<Seq<char>, DecodeErrV> {
    match field(es, f) {
        Some(TagV::String(s)) => Ok(s),
        Some(_) => Err(invalid(f, "a string"@)),
        None => Err(DecodeErrV::MissingField(f)),
    }
}

pub open spec fn optional_string(es: Seq<(Seq<char>, TagV)>, f: Seq<char>) -> Result<Option<Seq<char>>, DecodeErrV> {
    match field(es, f) {
        Some(TagV::String(s)) => Ok(Some(s)),
        Some(_) => Err(invalid(f, "a string"@)),
        None => Ok(None),
    }
}

pub open spec fn required_compound(es: Seq<(Seq<char>, TagV)>, f: Seq<char>) -> Result<Seq<(Seq<char>, TagV)>, DecodeErrV> {
    match field(es, f) {
        Some(TagV::Compound(v)) => Ok(v),
        Some(_) => Err(invalid(f, "a compound"@)),
        None => Err(DecodeErrV::MissingField(f)),
    }
}

/// A char of an identifier's namespace.
pub open spec fn namespace_char(c: char) -> bool {
    ('a' <= c && c <= 'z') || ('0' <= c && c <= '9') || c == '_' || c == '-' || c == '.'
}

/// A char of an identifier's path.
pub open spec fn path_char(c: char) -> bool {
    namespace_char(c) || c == '/'
}

/// The index of the first `:`.
pub open spec fn first_colon(s: Seq<char>) -> Option<int>
    decreases s.len(),
{
    if s.len() == 0 {
        None
    } else if s[0] == ':' {
        Some(0)
    } else {
        match first_colon(s.drop_first()) {
            Some(i) => Some(i + 1),
            None => None,
        }
    }
}

/// `namespace:path`, or a bare path in `minecraft`: the namespace not `..`, each part of its
/// own chars.
pub open spec fn is_identifier(s: Seq<char>) -> bool {
    match first_colon(s) {
        Some(i) => {
            let ns = s.subrange(0, i);
            let path = s.subrange(i + 1, s.len() as int);
            &&& !(ns.len() == 2 && ns[0] == '.' && ns[1] == '.')
            &&& forall|k: int| 0 <= k < ns.len() ==> namespace_char(#[trigger] ns[k])
            &&& forall|k: int| 0 <= k < path.len() ==> path_char(#[trigger] path[k])
        },
        None => forall|k: int| 0 <= k < s.len() ==> path_char(#[trigger] s[k]),
    }
}

pub open spec fn required_identifier(es: Seq<(Seq<char>, TagV)>, f: Seq<char>) -> Result<Seq<char>, DecodeErrV> {
    match required_string(es, f) {
        Ok(s) => if is_identifier(s) { Ok(s) } else { Err(invalid(f, "an identifier"@)) },
        Err(e) => Err(e),
    }
}

pub open spec fn optional_identifier(es: Seq<(Seq<char>, TagV)>, f: Seq<char>) -> Result<Option<Seq<char>>, DecodeErrV> {
    match optional_string(es, f) {
        Ok(Some(s)) => if is_identifier(s) { Ok(Some(s)) } else { Err(invalid(f, "an identifier"@)) },
        other => other,
    }
}

/// A char a chat string may not hold: the section sign, a control char, or DEL.
pub open spec fn banned_chat_char(c: char) -> bool {
    c == '\u{a7}' || c < ' ' || c == '\u{7f}'
}

pub open spec fn required_chat_string(es: Seq<(Seq<char>, TagV)>, f: Seq<char>) -> Result<Seq<char>, DecodeErrV> {
    match required_string(es, f) {
        Ok(s) => if exists|k: int| 0 <= k < s.len() && banned_chat_char(#[trigger] s[k]) {
            Err(invalid(f, "a chat string"@))
        } else {
            Ok(s)
        },
        Err(e) => Err(e),
    }
}

pub open spec fn optional_bool(es: Seq<(Seq<char>, TagV)>, f: Seq<char>) -> Result<Option<bool>, DecodeErrV> {
    match field(es, f) {
        Some(t) => match as_bool(t) {
            Some(b) => Ok(Some(b)),
            None => Err(invalid(f, "a boolean"@)),
        },
        None => Ok(None),
    }
}

pub open spec fn required_i32(es: Seq<(Seq<char>, TagV)>, f: Seq<char>) -> Result<i32, DecodeErrV> {
    match field(es, f) {
        Some(t) => match as_i32(t) {
            Some(v) => Ok(v),
            None => Err(invalid(f, "an integer"@)),
        },
        None => Err(DecodeErrV::MissingField(f)),
    }
}

/// Whether a flag is set, `default` when absent or not a number.
pub open spec fn flag(es: Seq<(Seq<char>, TagV)>, f: Seq<char>, default: bool) -> bool {
    match field(es, f) {
        Some(t) => match as_bool(t) {
            Some(b) => b,
            None => default,
        },
        None => default,
    }
}

/// A list whose elements all are ints, as the reader's typed int list: its values.
pub open spec fn int_list(v: Seq<TagV>) -> Option<Seq<i32>> {
    if v.len() > 0 && forall|k: int| 0 <= k < v.len() ==> #[trigger] v[k] is Int {
        Some(v.map_values(|t: TagV| t->Int_0))
    } else {
        None
    }
}

/// Four ints, from an int array or a list of ints.
pub open spec fn four_ints(t: TagV) -> Option<[i32; 4]> {
    let ints = match t {
        TagV::IntArray(v) => Some(v),
        TagV::List(v) => int_list(v),
        _ => None,
    };
    match ints {
        Some(v) => if v.len() == 4 { Some([v[0], v[1], v[2], v[3]]) } else { None },
        None => None,
    }
}

/// A player name: at most 16 UTF-16 units, each char printable ASCII other than space.
pub open spec fn valid_player_name(s: Seq<char>) -> bool {
    s.len() <= 16 && forall|k: int| 0 <= k < s.len() ==> ' ' < #[trigger] s[k] && s[k] < '\u{7f}'
}

/// `c` is the ASCII letter `lower` in either case.
pub open spec fn ci(c: char, lower: char, upper: char) -> bool {
    c == lower || c == upper
}

/// `http` or `https` in any case.
pub open spec fn web_scheme(s: Seq<char>) -> bool {
    &&& (s.len() == 4 || s.len() == 5)
    &&& ci(s[0], 'h', 'H') && ci(s[1], 't', 'T') && ci(s[2], 't', 'T') && ci(s[3], 'p', 'P')
    &&& s.len() == 5 ==> ci(s[4], 's', 'S')
}

/// An HTTP or HTTPS URI: a web scheme, a `:`, something after it, and no whitespace.
pub open spec fn allowed_url(s: Seq<char>) -> bool {
    match first_colon(s) {
        Some(i) => web_scheme(s.subrange(0, i)) && i + 1 < s.len()
            && !exists|k: int| 0 <= k < s.len() && is_whitespace_spec(#[trigger] s[k]),
        None => false,
    }
}

/// A text color: a name, or `#` then hex digits (an optional `+` first) worth at most
/// `0xFFFFFF`.
pub open spec fn color_spec(s: Seq<char>) -> Result<Color, DecodeErrV> {
    match from_codec_name_spec(s) {
        Some(c) => Ok(c),
        None => {
            let digits = if s.len() >= 2 && s[1] == '+' { s.subrange(2, s.len() as int) } else { s.subrange(1, s.len() as int) };
            if s.len() >= 1 && s[0] == '#' && digits.len() > 0 && all_hex(digits) && hex_value(digits) <= 0xFF_FFFF {
                let v = hex_value(digits);
                Ok(Color::Rgb((v / 0x1_0000) as u8, ((v / 0x100) % 0x100) as u8, (v % 0x100) as u8))
            } else {
                Err(invalid("color"@, "a text color"@))
            }
        },
    }
}

/// The shadow color: an integer as it is, or four numbers turned into channels by `ch`
/// (each kept to its low byte) and packed as ARGB from the order RGBA.
pub open spec fn shadow_spec(t: TagV, ch: spec_fn(Number) -> i32) -> Result<i32, DecodeErrV> {
    match as_i32(t) {
        Some(v) => Ok(v),
        None => match t {
            TagV::List(v) => if v.len() == 4 && forall|k: int| 0 <= k < 4 ==> #[trigger] number_of(v[k]) is Some {
                let c = |k: int| ((ch(number_of(v[k])->0) as u32) % 0x100) as int;
                Ok((c(3) * 0x100_0000 + c(0) * 0x1_0000 + c(1) * 0x100 + c(2)) as u32 as i32)
            } else {
                Err(invalid("shadow_color"@, "an ARGB integer or four-number list"@))
            },
            _ => Err(invalid("shadow_color"@, "an ARGB integer or four-number list"@)),
        },
    }
}

/// The style of a component: each field in the order color, font, bold, italic, underlined,
/// strikethrough, obfuscated, shadow color; the first bad one is the error.
#[verifier::opaque]
pub open spec fn format_spec(es: Seq<(Seq<char>, TagV)>, ch: spec_fn(Number) -> i32) -> Result<FormatV, DecodeErrV> {
    let color = match optional_string(es, "color"@) {
        Ok(Some(s)) => match color_spec(s) {
            Ok(c) => Ok(Some(c)),
            Err(e) => Err(e),
        },
        Ok(None) => Ok(None),
        Err(e) => Err(e),
    };
    let shadow = match field(es, "shadow_color"@) {
        Some(t) => match shadow_spec(t, ch) {
            Ok(v) => Ok(Some(v)),
            Err(e) => Err(e),
        },
        None => Ok(None),
    };
    if color is Err {
        Err(color->Err_0)
    } else if optional_identifier(es, "font"@) is Err {
        Err(optional_identifier(es, "font"@)->Err_0)
    } else if optional_bool(es, "bold"@) is Err {
        Err(optional_bool(es, "bold"@)->Err_0)
    } else if optional_bool(es, "italic"@) is Err {
        Err(optional_bool(es, "italic"@)->Err_0)
    } else if optional_bool(es, "underlined"@) is Err {
        Err(optional_bool(es, "underlined"@)->Err_0)
    } else if optional_bool(es, "strikethrough"@) is Err {
        Err(optional_bool(es, "strikethrough"@)->Err_0)
    } else if optional_bool(es, "obfuscated"@) is Err {
        Err(optional_bool(es, "obfuscated"@)->Err_0)
    } else if shadow is Err {
        Err(shadow->Err_0)
    } else {
        Ok(FormatV {
            color: color->Ok_0,
            font: optional_identifier(es, "font"@)->Ok_0,
            bold: optional_bool(es, "bold"@)->Ok_0,
            italic: optional_bool(es, "italic"@)->Ok_0,
            underlined: optional_bool(es, "underlined"@)->Ok_0,
            strikethrough: optional_bool(es, "strikethrough"@)->Ok_0,
            obfuscated: optional_bool(es, "obfuscated"@)->Ok_0,
            shadow_color: shadow->Ok_0,
        })
    }
}

/// A click event.
#[verifier::opaque]
pub open spec fn click_spec(es: Seq<(Seq<char>, TagV)>) -> Result<ClickV, DecodeErrV> {
    match required_string(es, "action"@) {
        Err(e) => Err(e),
        Ok(action) => if action == "open_url"@ {
            match required_string(es, "url"@) {
                Ok(url) => if allowed_url(url) { Ok(ClickV::OpenUrl(url)) } else {
                    Err(invalid("url"@, "an HTTP or HTTPS URI"@))
                },
                Err(e) => Err(e),
            }
        } else if action == "run_command"@ {
            match required_chat_string(es, "command"@) {
                Ok(c) => Ok(ClickV::RunCommand(c)),
                Err(e) => Err(e),
            }
        } else if action == "suggest_command"@ {
            match required_chat_string(es, "command"@) {
                Ok(c) => Ok(ClickV::SuggestCommand(c)),
                Err(e) => Err(e),
            }
        } else if action == "change_page"@ {
            match required_i32(es, "page"@) {
                Ok(p) => if p <= 0 { Err(invalid("page"@, "a positive integer"@)) } else { Ok(ClickV::ChangePage(p)) },
                Err(e) => Err(e),
            }
        } else if action == "copy_to_clipboard"@ {
            match required_string(es, "value"@) {
                Ok(v) => Ok(ClickV::CopyToClipboard(v)),
                Err(e) => Err(e),
            }
        } else if action == "show_dialog"@ {
            match field(es, "dialog"@) {
                None => Err(DecodeErrV::MissingField("dialog"@)),
                Some(TagV::String(v)) => if is_identifier(v) { Ok(ClickV::DialogReference(v)) } else {
                    Err(invalid("dialog"@, "a dialog identifier or definition"@))
                },
                Some(TagV::Compound(v)) => Ok(ClickV::DialogInline(TagV::Compound(v))),
                Some(_) => Err(invalid("dialog"@, "a dialog identifier or definition"@)),
            }
        } else {
            Err(DecodeErrV::UnknownClickAction(action))
        },
    }
}

/// A UUID: a string `uuid` parses, or four ints, most significant first.
pub open spec fn uuid_spec(t: TagV) -> Result<u128, DecodeErrV> {
    match t {
        TagV::String(s) => match uuid_parsed(s) {
            Some(u) => Ok(u),
            None => Err(invalid("uuid"@, "a UUID"@)),
        },
        _ => match four_ints(t) {
            Some(v) => Ok(uuid_of_halves(
                (((v[0] as u32) as u64) * 0x1_0000_0000 + (v[1] as u32) as u64) as u64,
                (((v[2] as u32) as u64) * 0x1_0000_0000 + (v[3] as u32) as u64) as u64,
            )),
            None => Err(invalid("uuid"@, "a UUID"@)),
        },
    }
}

/// How many of an item a hover shows: 1 when absent, else an integer from 1 through 99.
pub open spec fn count_spec(es: Seq<(Seq<char>, TagV)>) -> Result<i32, DecodeErrV> {
    match field(es, "count"@) {
        None => Ok(1),
        Some(t) => match as_i32(t) {
            None => Err(invalid("count"@, "an integer"@)),
            Some(c) => if 1 <= c <= 99 { Ok(c) } else { Err(invalid("count"@, "an integer from 1 through 99"@)) },
        },
    }
}

/// The components of a shown item: an empty compound counts as none.
pub open spec fn item_components(es: Seq<(Seq<char>, TagV)>) -> Result<Option<TagV>, DecodeErrV> {
    match field(es, "components"@) {
        None => Ok(None),
        Some(TagV::Compound(v)) => if v.len() == 0 { Ok(None) } else { Ok(Some(TagV::Compound(v))) },
        Some(_) => Err(invalid("components"@, "a data component patch"@)),
    }
}

// ---------------------------------------------------------------------------
// Components.

/// A component from a tag: a string is plain text, a non-empty list is its first element
/// with the others as children, a compound is read field by field.
pub open spec fn decode_spec(t: TagV, ch: spec_fn(Number) -> i32) -> Result<CompV, DecodeErrV>
    decreases t, 0nat,
{
    match t {
        TagV::String(s) => Ok(plain_v(s)),
        TagV::List(v) => if v.len() == 0 {
            Err(DecodeErrV::EmptyComponentList)
        } else {
            match decode_list(v, ch) {
                Ok(cs) => Ok(CompV { children: cs[0].children + cs.drop_first(), ..cs[0] }),
                Err(e) => Err(e),
            }
        },
        TagV::Compound(es) => compound_spec(es, ch),
        _ => Err(DecodeErrV::ExpectedComponent),
    }
}

/// The model of plain text.
pub open spec fn plain_v(s: Seq<char>) -> CompV {
    CompV {
        content: ContentV::Text(s),
        children: Seq::empty(),
        format: format_none_v(),
        interactions: InterV { insertion: None, click: None, hover: None },
    }
}

pub open spec fn format_none_v() -> FormatV {
    FormatV {
        color: None,
        font: None,
        bold: None,
        italic: None,
        underlined: None,
        strikethrough: None,
        obfuscated: None,
        shadow_color: None,
    }
}

/// Each tag read as a component, in order; the first error stops it.
pub open spec fn decode_list(v: Seq<TagV>, ch: spec_fn(Number) -> i32) -> Result<Seq<CompV>, DecodeErrV>
    decreases v, 0nat,
{
    if v.len() == 0 {
        Ok(Seq::empty())
    } else {
        match decode_list(v.drop_last(), ch) {
            Err(e) => Err(e),
            Ok(cs) => match decode_spec(v.last(), ch) {
                Err(e) => Err(e),
                Ok(c) => Ok(cs.push(c)),
            },
        }
    }
}

/// The value of a field, read as a component; the field must be present.
pub open spec fn decode_field(es: Seq<(Seq<char>, TagV)>, f: Seq<char>, ch: spec_fn(Number) -> i32) -> Option<Result<CompV, DecodeErrV>>
    decreases es, 2nat,
{
    match find_index(es, f) {
        Some(i) => {
            proof {
                lemma_find_index(es, f);
            }
            Some(decode_spec(es[i].1, ch))
        },
        None => None,
    }
}

/// The elements of a list field, each read as a component (none when the field is absent
/// or no list).
pub open spec fn list_field(es: Seq<(Seq<char>, TagV)>, f: Seq<char>, ch: spec_fn(Number) -> i32) -> Result<Seq<CompV>, DecodeErrV>
    decreases es, 2nat,
{
    match find_index(es, f) {
        Some(i) => {
            proof {
                lemma_find_index(es, f);
            }
            match es[i].1 {
                TagV::List(v) => decode_list(v, ch),
                _ => Ok(Seq::empty()),
            }
        },
        None => Ok(Seq::empty()),
    }
}

/// A compound as a component: a lone unnamed entry is read as its value; otherwise content,
/// children (`extra`, a non-empty list), style, then events.
pub open spec fn compound_spec(es: Seq<(Seq<char>, TagV)>, ch: spec_fn(Number) -> i32) -> Result<CompV, DecodeErrV>
    decreases es, 5nat,
{
    if es.len() == 1 && es[0].0.len() == 0 {
        decode_spec(es[0].1, ch)
    } else {
        match content_spec(es, ch) {
            Err(e) => Err(e),
            Ok(content) => {
                let children: Result<Seq<CompV>, DecodeErrV> = match field(es, "extra"@) {
                    None => Ok(Seq::empty()),
                    Some(TagV::List(v)) => if v.len() == 0 {
                        Err(DecodeErrV::EmptyComponentList)
                    } else {
                        list_field(es, "extra"@, ch)
                    },
                    Some(_) => Err(invalid("extra"@, "a non-empty component list"@)),
                };
                match children {
                    Err(e) => Err(e),
                    Ok(children) => match format_spec(es, ch) {
                        Err(e) => Err(e),
                        Ok(format) => match inter_spec(es, ch) {
                            Err(e) => Err(e),
                            Ok(interactions) => Ok(CompV { content, children, format, interactions }),
                        },
                    },
                }
            },
        }
    }
}

/// The content of a compound: by its `type` when it has one, else the first kind whose
/// fields it holds, tried as text, translation, keybind, score, selector, NBT, object.
pub open spec fn content_spec(es: Seq<(Seq<char>, TagV)>, ch: spec_fn(Number) -> i32) -> Result<ContentV, DecodeErrV>
    decreases es, 4nat,
{
    match field(es, "type"@) {
        Some(t) => match as_string(t) {
            None => Err(invalid("type"@, "a component type string"@)),
            Some(kind) => if kind == "text"@ {
                text_spec(es)
            } else if kind == "translatable"@ {
                translatable_spec(es, ch)
            } else if kind == "keybind"@ {
                keybind_spec(es)
            } else if kind == "score"@ {
                score_spec(es)
            } else if kind == "selector"@ {
                selector_spec(es, ch)
            } else if kind == "nbt"@ {
                nbt_spec(es, ch)
            } else if kind == "object"@ {
                object_spec(es, ch)
            } else {
                Err(DecodeErrV::UnknownContentType(kind))
            },
        },
        None => if text_spec(es) is Ok {
            text_spec(es)
        } else if translatable_spec(es, ch) is Ok {
            translatable_spec(es, ch)
        } else if keybind_spec(es) is Ok {
            keybind_spec(es)
        } else if score_spec(es) is Ok {
            score_spec(es)
        } else if selector_spec(es, ch) is Ok {
            selector_spec(es, ch)
        } else if nbt_spec(es, ch) is Ok {
            nbt_spec(es, ch)
        } else if object_spec(es, ch) is Ok {
            object_spec(es, ch)
        } else {
            Err(DecodeErrV::NoMatchingContent)
        },
    }
}

#[verifier::opaque]
pub open spec fn text_spec(es: Seq<(Seq<char>, TagV)>) -> Result<ContentV, DecodeErrV> {
    match required_string(es, "text"@) {
        Ok(s) => Ok(ContentV::Text(s)),
        Err(e) => Err(e),
    }
}

#[verifier::opaque]
pub open spec fn keybind_spec(es: Seq<(Seq<char>, TagV)>) -> Result<ContentV, DecodeErrV> {
    match required_string(es, "keybind"@) {
        Ok(s) => Ok(ContentV::Keybind(s)),
        Err(e) => Err(e),
    }
}

/// A translation: its key, a fallback when one is a string, and `with` as the arguments.
pub open spec fn translatable_spec(es: Seq<(Seq<char>, TagV)>, ch: spec_fn(Number) -> i32) -> Result<ContentV, DecodeErrV>
    decreases es, 3nat,
{
    match required_string(es, "translate"@) {
        Err(e) => Err(e),
        Ok(key) => {
            let fallback = match field(es, "fallback"@) {
                Some(t) => as_string(t),
                None => None,
            };
            let args: Result<ArgsV, DecodeErrV> = match field(es, "with"@) {
                None => Ok(ArgsV::Absent),
                Some(TagV::List(_)) => match list_field(es, "with"@, ch) {
                    Ok(cs) => Ok(ArgsV::Owned(cs)),
                    Err(e) => Err(e),
                },
                Some(_) => Err(invalid("with"@, "a component list"@)),
            };
            match args {
                Ok(args) => Ok(ContentV::Translate { key, fallback, args }),
                Err(e) => Err(e),
            }
        },
    }
}

/// A score: the `name` and `objective` of the `score` compound.
#[verifier::opaque]
pub open spec fn score_spec(es: Seq<(Seq<char>, TagV)>) -> Result<ContentV, DecodeErrV> {
    match required_compound(es, "score"@) {
        Err(e) => Err(e),
        Ok(score) => match required_string(score, "name"@) {
            Err(e) => Err(e),
            Ok(selector) => match required_string(score, "objective"@) {
                Err(e) => Err(e),
                Ok(objective) => Ok(ContentV::Scoreboard { selector, objective }),
            },
        },
    }
}

/// A selector, with its separator read as a component when present.
pub open spec fn selector_spec(es: Seq<(Seq<char>, TagV)>, ch: spec_fn(Number) -> i32) -> Result<ContentV, DecodeErrV>
    decreases es, 3nat,
{
    match required_string(es, "selector"@) {
        Err(e) => Err(e),
        Ok(selector) => match decode_field(es, "separator"@, ch) {
            None => Ok(ContentV::Entity { selector, separator: None }),
            Some(Ok(c)) => Ok(ContentV::Entity { selector, separator: Some(Box::new(c)) }),
            Some(Err(e)) => Err(e),
        },
    }
}

/// Where NBT content reads from: by `source` when given, else the first of `entity`,
/// `block`, `storage` that is there.
#[verifier::opaque]
pub open spec fn source_spec(es: Seq<(Seq<char>, TagV)>) -> Result<SourceV, DecodeErrV> {
    match field(es, "source"@) {
        Some(t) => match as_string(t) {
            None => Err(invalid("source"@, "a source type string"@)),
            Some(kind) => if kind == "entity"@ {
                match required_string(es, "entity"@) {
                    Ok(s) => Ok(SourceV::Entity(s)),
                    Err(e) => Err(e),
                }
            } else if kind == "block"@ {
                match required_string(es, "block"@) {
                    Ok(s) => Ok(SourceV::Block(s)),
                    Err(e) => Err(e),
                }
            } else if kind == "storage"@ {
                match required_identifier(es, "storage"@) {
                    Ok(s) => Ok(SourceV::Storage(s)),
                    Err(e) => Err(e),
                }
            } else {
                Err(DecodeErrV::UnknownDataSource(kind))
            },
        },
        None => if required_string(es, "entity"@) is Ok {
            Ok(SourceV::Entity(required_string(es, "entity"@)->Ok_0))
        } else if required_string(es, "block"@) is Ok {
            Ok(SourceV::Block(required_string(es, "block"@)->Ok_0))
        } else if required_identifier(es, "storage"@) is Ok {
            Ok(SourceV::Storage(required_identifier(es, "storage"@)->Ok_0))
        } else {
            Err(DecodeErrV::MissingField("entity, block, or storage"@))
        },
    }
}

/// NBT content: its path, the `interpret` and `plain` flags (not both), a separator when it
/// reads as a component (one that does not is dropped), and the source.
pub open spec fn nbt_spec(es: Seq<(Seq<char>, TagV)>, ch: spec_fn(Number) -> i32) -> Result<ContentV, DecodeErrV>
    decreases es, 3nat,
{
    match required_string(es, "nbt"@) {
        Err(e) => Err(e),
        Ok(path) => {
            let interpret = flag(es, "interpret"@, false);
            let plain = flag(es, "plain"@, false);
            if interpret && plain {
                Err(DecodeErrV::ConflictingNbtFlags)
            } else {
                let separator = match decode_field(es, "separator"@, ch) {
                    Some(Ok(c)) => Some(Box::new(c)),
                    _ => None,
                };
                match source_spec(es) {
                    Ok(source) => Ok(ContentV::Nbt { path, interpret, plain, separator, source }),
                    Err(e) => Err(e),
                }
            }
        },
    }
}

/// An object: the fallback first, then by `object` (or by whether `sprite` or `player` is
/// there) an atlas sprite or a player head.
pub open spec fn object_spec(es: Seq<(Seq<char>, TagV)>, ch: spec_fn(Number) -> i32) -> Result<ContentV, DecodeErrV>
    decreases es, 3nat,
{
    match decode_field(es, "fallback"@, ch) {
        Some(Err(e)) => Err(e),
        fallback_read => {
            let fallback = match fallback_read {
                Some(Ok(c)) => Some(Box::new(c)),
                _ => None,
            };
            match optional_string(es, "object"@) {
                Err(e) => Err(e),
                Ok(Some(kind)) => if kind == "atlas"@ {
                    atlas_spec(es, fallback)
                } else if kind == "player"@ {
                    player_content_spec(es, fallback)
                } else {
                    Err(DecodeErrV::UnknownObjectType(kind))
                },
                Ok(None) => if field(es, "sprite"@) is Some {
                    atlas_spec(es, fallback)
                } else if field(es, "player"@) is Some {
                    player_content_spec(es, fallback)
                } else {
                    Err(DecodeErrV::NoMatchingContent)
                },
            }
        },
    }
}

#[verifier::opaque]
pub open spec fn atlas_spec(es: Seq<(Seq<char>, TagV)>, fallback: Option<Box<CompV>>) -> Result<ContentV, DecodeErrV> {
    match optional_identifier(es, "atlas"@) {
        Err(e) => Err(e),
        Ok(atlas) => match required_identifier(es, "sprite"@) {
            Err(e) => Err(e),
            Ok(sprite) => Ok(ContentV::Atlas {
                atlas: match atlas {
                    Some(a) => a,
                    None => "minecraft:blocks"@,
                },
                sprite,
                fallback,
            }),
        },
    }
}

#[verifier::opaque]
pub open spec fn player_content_spec(es: Seq<(Seq<char>, TagV)>, fallback: Option<Box<CompV>>) -> Result<ContentV, DecodeErrV> {
    let player: Result<PlayerV, DecodeErrV> = match field(es, "player"@) {
        None => Err(DecodeErrV::MissingField("player"@)),
        Some(TagV::String(name)) => if valid_player_name(name) {
            Ok(PlayerV {
                name: Some(name),
                id: None,
                texture: None,
                cape: None,
                elytra: None,
                model: None,
                properties: Seq::empty(),
            })
        } else {
            Err(invalid("name"@, "a valid player name"@))
        },
        Some(TagV::Compound(profile)) => profile_spec(profile),
        Some(_) => Err(invalid("player"@, "a player name or profile"@)),
    };
    match player {
        Ok(player) => Ok(ContentV::Player { player, hat: flag(es, "hat"@, true), fallback }),
        Err(e) => Err(e),
    }
}

/// The skin model a profile names.
pub open spec fn model_spec(es: Seq<(Seq<char>, TagV)>) -> Result<Option<PlayerModel>, DecodeErrV> {
    match optional_string(es, "model"@) {
        Err(e) => Err(e),
        Ok(None) => Ok(None),
        Ok(Some(m)) => if m == "slim"@ {
            Ok(Some(PlayerModel::Slim))
        } else if m == "wide"@ {
            Ok(Some(PlayerModel::Wide))
        } else {
            Err(invalid("model"@, "`slim` or `wide`"@))
        },
    }
}

/// The id of a profile: four ints when present.
pub open spec fn profile_id(es: Seq<(Seq<char>, TagV)>) -> Result<Option<[i32; 4]>, DecodeErrV> {
    match field(es, "id"@) {
        None => Ok(None),
        Some(t) => match four_ints(t) {
            Some(v) => Ok(Some(v)),
            None => Err(invalid("id"@, "a four-integer UUID"@)),
        },
    }
}

/// A player profile, field by field: name, id, texture, cape, elytra, model, properties.
#[verifier::opaque]
pub open spec fn profile_spec(es: Seq<(Seq<char>, TagV)>) -> Result<PlayerV, DecodeErrV> {
    let name = optional_string(es, "name"@);
    if name is Err {
        Err(name->Err_0)
    } else if name->Ok_0 matches Some(n) && !valid_player_name(n) {
        Err(invalid("name"@, "a valid player name"@))
    } else if profile_id(es) is Err {
        Err(profile_id(es)->Err_0)
    } else if optional_identifier(es, "texture"@) is Err {
        Err(optional_identifier(es, "texture"@)->Err_0)
    } else if optional_identifier(es, "cape"@) is Err {
        Err(optional_identifier(es, "cape"@)->Err_0)
    } else if optional_identifier(es, "elytra"@) is Err {
        Err(optional_identifier(es, "elytra"@)->Err_0)
    } else if model_spec(es) is Err {
        Err(model_spec(es)->Err_0)
    } else if properties_spec(field(es, "properties"@)) is Err {
        Err(properties_spec(field(es, "properties"@))->Err_0)
    } else {
        Ok(PlayerV {
            name: name->Ok_0,
            id: profile_id(es)->Ok_0,
            texture: optional_identifier(es, "texture"@)->Ok_0,
            cape: optional_identifier(es, "cape"@)->Ok_0,
            elytra: optional_identifier(es, "elytra"@)->Ok_0,
            model: model_spec(es)->Ok_0,
            properties: properties_spec(field(es, "properties"@))->Ok_0,
        })
    }
}

pub open spec fn bad_properties() -> DecodeErrV {
    invalid("properties"@, "a property map or list"@)
}

/// Properties given as a list of compounds, in order.
pub open spec fn property_list(v: Seq<TagV>) -> Result<Seq<PropertyV>, DecodeErrV>
    decreases v.len(),
{
    if v.len() == 0 {
        Ok(Seq::empty())
    } else {
        match property_list(v.drop_last()) {
            Err(e) => Err(e),
            Ok(ps) => {
                let p = v.last()->Compound_0;
                match required_string(p, "name"@) {
                    Err(e) => Err(e),
                    Ok(name) => match required_string(p, "value"@) {
                        Err(e) => Err(e),
                        Ok(value) => match optional_string(p, "signature"@) {
                            Err(e) => Err(e),
                            Ok(signature) => Ok(ps.push(PropertyV { name, value, signature })),
                        },
                    },
                }
            },
        }
    }
}

/// The string values of a non-empty list of strings.
pub open spec fn string_list(t: TagV) -> Option<Seq<Seq<char>>> {
    match t {
        TagV::List(v) => if v.len() > 0 && forall|k: int| 0 <= k < v.len() ==> #[trigger] v[k] is String {
            Some(v.map_values(|x: TagV| x->String_0))
        } else {
            None
        },
        _ => None,
    }
}

/// Properties given as a map from a name to its values, in order, unsigned.
pub open spec fn property_map(es: Seq<(Seq<char>, TagV)>) -> Result<Seq<PropertyV>, DecodeErrV>
    decreases es.len(),
{
    if es.len() == 0 {
        Ok(Seq::empty())
    } else {
        match property_map(es.drop_last()) {
            Err(e) => Err(e),
            Ok(ps) => match string_list(es.last().1) {
                None => Err(bad_properties()),
                Some(values) => Ok(ps + values.map_values(
                    |v: Seq<char>| PropertyV { name: es.last().0, value: v, signature: None },
                )),
            },
        }
    }
}

/// The properties of a profile: none when absent, at most 16.
pub open spec fn properties_spec(o: Option<TagV>) -> Result<Seq<PropertyV>, DecodeErrV> {
    let ps = match o {
        None => Ok(Seq::empty()),
        Some(TagV::List(v)) => if v.len() > 0 && forall|k: int| 0 <= k < v.len() ==> #[trigger] v[k] is Compound {
            property_list(v)
        } else {
            Err(bad_properties())
        },
        Some(TagV::Compound(es)) => property_map(es),
        Some(_) => Err(bad_properties()),
    };
    match ps {
        Ok(ps) => if ps.len() > 16 { Err(invalid("properties"@, "at most 16 properties"@)) } else { Ok(ps) },
        Err(e) => Err(e),
    }
}

/// The events of a component: insertion, click, then hover.
pub open spec fn inter_spec(es: Seq<(Seq<char>, TagV)>, ch: spec_fn(Number) -> i32) -> Result<InterV, DecodeErrV>
    decreases es, 4nat,
{
    let click: Result<Option<ClickV>, DecodeErrV> = match field(es, "click_event"@) {
        Some(TagV::Compound(c)) => match click_spec(c) {
            Ok(c) => Ok(Some(c)),
            Err(e) => Err(e),
        },
        Some(_) => Err(invalid("click_event"@, "a click event"@)),
        None => Ok(None),
    };
    match optional_string(es, "insertion"@) {
        Err(e) => Err(e),
        Ok(insertion) => match click {
            Err(e) => Err(e),
            Ok(click) => {
                let hover: Result<Option<HoverV>, DecodeErrV> = match find_index(es, "hover_event"@) {
                    Some(i) => {
                        proof {
                            lemma_find_index(es, "hover_event"@);
                        }
                        match es[i].1 {
                            TagV::Compound(h) => match hover_spec(h, ch) {
                                Ok(h) => Ok(Some(h)),
                                Err(e) => Err(e),
                            },
                            _ => Err(invalid("hover_event"@, "a hover event"@)),
                        }
                    },
                    None => Ok(None),
                };
                match hover {
                    Err(e) => Err(e),
                    Ok(hover) => Ok(InterV { insertion, click, hover }),
                }
            },
        },
    }
}

/// A hover event.
pub open spec fn hover_spec(es: Seq<(Seq<char>, TagV)>, ch: spec_fn(Number) -> i32) -> Result<HoverV, DecodeErrV>
    decreases es, 3nat,
{
    match required_string(es, "action"@) {
        Err(e) => Err(e),
        Ok(action) => if action == "show_text"@ {
            match decode_field(es, "value"@, ch) {
                None => Err(DecodeErrV::MissingField("value"@)),
                Some(Ok(c)) => Ok(HoverV::ShowText(Box::new(c))),
                Some(Err(e)) => Err(e),
            }
        } else if action == "show_item"@ {
            match count_spec(es) {
                Err(e) => Err(e),
                Ok(count) => match item_components(es) {
                    Err(e) => Err(e),
                    Ok(components) => match required_identifier(es, "id"@) {
                        Err(e) => Err(e),
                        Ok(id) => Ok(HoverV::ShowItem { id, count, components }),
                    },
                },
            }
        } else if action == "show_entity"@ {
            match field(es, "uuid"@) {
                None => Err(DecodeErrV::MissingField("uuid"@)),
                Some(u) => match uuid_spec(u) {
                    Err(e) => Err(e),
                    Ok(uuid) => match decode_field(es, "name"@, ch) {
                        Some(Err(e)) => Err(e),
                        name_read => match required_identifier(es, "id"@) {
                            Err(e) => Err(e),
                            Ok(id) => Ok(HoverV::ShowEntity {
                                name: match name_read {
                                    Some(Ok(c)) => Some(Box::new(c)),
                                    _ => None,
                                },
                                id,
                                uuid,
                            }),
                        },
                    },
                },
            }
        } else {
            Err(DecodeErrV::UnknownHoverAction(action))
        },
    }
}

} // verus!
