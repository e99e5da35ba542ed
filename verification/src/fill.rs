//! Filling an emitted template: static byte runs copied, each splice point written from the
//! value supplied for its hole.
use vstd::prelude::*;
use crate::chars::{chars_of, eq_lit};
use crate::format::{codec_name_spec, Color};
use crate::grammar::emit::{mutf8, to_mutf8, NbtSeg, SplicePos};
use crate::grammar::inspect::segs_dyn;
use crate::grammar::ir::{empty_style, HoleArg, StrSeg, Style};
use crate::nbt::encoded::EncodedComponent;
use crate::nbt::writers::{
    ascii_bytes, encoded_elem, encoded_entry, extend_bytes, nbt_string, write_color,
    write_encoded_elem, write_encoded_entry, write_encoded_root, write_mutf8,
};

verus! {

/// A value for one hole.
pub enum FillValue {
    /// Fills `{name}`: inserted as plain text.
    Text(String),
    /// Fills `{@name}` / `{@const name}`: the bytes are copied in without decoding.
    Encoded(EncodedComponent),
    /// Fills `<{name}>`.
    Color(Color),
    /// Fills `<b:{name}>` and the other formatting flags.
    Flag(bool),
}

/// Why a template could not be filled.
#[derive(Debug)]
pub struct FillError {
    pub message: String,
}

/// The value a hole takes: the first one supplied under its name, or the `n`-th for the
/// `n`-th positional hole.
pub open spec fn lookup_spec(values: Seq<(String, FillValue)>, arg: HoleArg) -> Option<FillValue> {
    match arg {
        HoleArg::Named { name, .. } => match find_named(values, name@, 0) {
            Some(k) => Some(values[k].1),
            None => None,
        },
        HoleArg::Positional(n) => if n < values.len() { Some(values[n as int].1) } else { None },
    }
}

/// The first value at or after `k` supplied under `name`.
pub open spec fn find_named(values: Seq<(String, FillValue)>, name: Seq<char>, k: int) -> Option<int>
    decreases values.len() - k,
{
    if k < 0 || k >= values.len() {
        None
    } else if values[k].0@ == name {
        Some(k)
    } else {
        find_named(values, name, k + 1)
    }
}

/// The text a string value assembles to, `None` when a hole lacks a text value.
pub open spec fn splice_text(parts: Seq<StrSeg>, values: Seq<(String, FillValue)>) -> Option<Seq<char>>
    decreases parts.len(),
{
    if parts.len() == 0 {
        Some(Seq::empty())
    } else {
        match splice_text(parts.drop_last(), values) {
            None => None,
            Some(t) => match parts.last() {
                StrSeg::Lit(l) => Some(t + l@),
                StrSeg::Hole(arg, _) => match lookup_spec(values, arg) {
                    Some(FillValue::Text(s)) => Some(t + s@),
                    _ => None,
                },
            },
        }
    }
}

/// The bytes a text value writes: an NBT string, `None` over 65535 bytes.
pub open spec fn string_bytes(s: Seq<char>) -> Option<Seq<u8>> {
    if mutf8(s).len() <= 0xFFFF { Some(nbt_string(s)) } else { None }
}

/// The bytes one segment writes, `None` when its value is missing, of the wrong kind, or
/// too long.
pub open spec fn seg_bytes(seg: NbtSeg, values: Seq<(String, FillValue)>) -> Option<Seq<u8>> {
    match seg {
        NbtSeg::Bytes(b) => Some(b@),
        NbtSeg::Hole(arg, _) => match lookup_spec(values, arg) {
            Some(FillValue::Text(s)) => string_bytes(s@),
            _ => None,
        },
        NbtSeg::LangKey { arg, .. } => match lookup_spec(values, arg) {
            Some(FillValue::Text(s)) => string_bytes(s@),
            _ => None,
        },
        NbtSeg::ColorHole(arg) => match lookup_spec(values, arg) {
            Some(FillValue::Color(c)) => Some(seq![0u8, codec_name_spec(c).len() as u8] + ascii_bytes(codec_name_spec(c))),
            _ => None,
        },
        NbtSeg::StrSplice(parts) => match splice_text(parts@, values) {
            Some(t) => string_bytes(t),
            None => None,
        },
        NbtSeg::BoolHole(arg) => match lookup_spec(values, arg) {
            Some(FillValue::Flag(b)) => Some(seq![if b { 1u8 } else { 0u8 }]),
            _ => None,
        },
        NbtSeg::Component { arg, style, at } => if style@ == empty_style() {
            spliced(lookup_spec(values, arg), at)
        } else {
            None
        },
        NbtSeg::ConstComponent { arg, at } => spliced(lookup_spec(values, arg), at),
        NbtSeg::EventHole { .. } => None,
    }
}

/// An encoded component spliced in unstyled at `at`.
pub open spec fn spliced(v: Option<FillValue>, at: SplicePos) -> Option<Seq<u8>> {
    match v {
        Some(FillValue::Encoded(e)) => match at {
            SplicePos::Root => Some(e@),
            SplicePos::Elem => Some(encoded_elem(e@)),
            SplicePos::Entry(name) => if e@.len() > 0 && mutf8(name@).len() > 0xFFFF {
                None
            } else {
                Some(encoded_entry(name@, e@))
            },
        },
        _ => None,
    }
}

/// The bytes a whole template fills to, `None` when a segment cannot be written.
pub open spec fn fill_spec(segs: Seq<NbtSeg>, values: Seq<(String, FillValue)>) -> Option<Seq<u8>>
    decreases segs.len(),
{
    if segs.len() == 0 {
        Some(Seq::empty())
    } else {
        match (fill_spec(segs.drop_last(), values), seg_bytes(segs.last(), values)) {
            (Some(a), Some(b)) => Some(a + b),
            _ => None,
        }
    }
}


fn fill_err(message: &str) -> (r: FillError) {
    FillError { message: message.to_owned() }
}

/// The value supplied for a hole.
fn lookup<'v>(values: &'v Vec<(String, FillValue)>, arg: &HoleArg) -> (r: Option<&'v FillValue>)
    ensures
        match r {
            Some(v) => lookup_spec(values@, *arg) == Some(*v),
            None => lookup_spec(values@, *arg) is None,
        },
{
    match arg {
        HoleArg::Positional(n) => {
            if *n < values.len() {
                Some(&values[*n].1)
            } else {
                None
            }
        },
        HoleArg::Named { name, range } => {
            let want = chars_of(name.as_str());
            let mut k: usize = 0;
            while k < values.len()
                invariant
                    k <= values@.len(),
                    want@ == name@,
                    find_named(values@, name@, 0) == find_named(values@, name@, k as int),
                    *arg == (HoleArg::Named { name: *name, range: *range }),
                decreases values@.len() - k,
            {
                let have = chars_of(values[k].0.as_str());
                if crate::chars::chars_eq(have.as_slice(), want.as_slice()) {
                    return Some(&values[k].1);
                }
                k = k + 1;
            }
            None
        },
    }
}

/// Writes a text value as an NBT string.
fn write_text(buf: &mut Vec<u8>, s: &str) -> (r: Result<(), FillError>)
    ensures
        match string_bytes(s@) {
            Some(b) => r is Ok && final(buf)@ == old(buf)@ + b,
            None => r is Err,
        },
{
    let b = to_mutf8(s);
    if b.len() > 0xFFFF {
        return Err(fill_err("filled value exceeds the 65535-byte limit of an NBT string"));
    }
    write_mutf8(buf, s);
    Ok(())
}

/// An encoded component spliced in unstyled at `at`.
fn write_spliced(buf: &mut Vec<u8>, v: Option<&FillValue>, at: &SplicePos) -> (r: Result<(), FillError>)
    ensures
        match spliced(match v { Some(x) => Some(*x), None => None }, *at) {
            Some(b) => r is Ok && final(buf)@ == old(buf)@ + b,
            None => r is Err,
        },
{
    let e = match v {
        Some(FillValue::Encoded(e)) => e,
        _ => {
            return Err(fill_err("a component hole needs an encoded component value"));
        },
    };
    match at {
        SplicePos::Root => write_encoded_root(buf, e.as_bytes()),
        SplicePos::Elem => write_encoded_elem(buf, e.as_bytes()),
        SplicePos::Entry(name) => {
            if e.as_bytes().len() > 0 && to_mutf8(name.as_str()).len() > 0xFFFF {
                return Err(fill_err("entry name exceeds the 65535-byte limit of an NBT string"));
            }
            write_encoded_entry(buf, name.as_str(), e.as_bytes());
        },
    }
    Ok(())
}

/// The text a string value assembles to.
fn assemble_text(parts: &Vec<StrSeg>, values: &Vec<(String, FillValue)>) -> (r: Result<String, FillError>)
    ensures
        match splice_text(parts@, values@) {
            Some(t) => r matches Ok(s) && s@ == t,
            None => r is Err,
        },
{
    let mut text = String::new();
    let mut i: usize = 0;
    while i < parts.len()
        invariant
            i <= parts@.len(),
            splice_text(parts@.subrange(0, i as int), values@) == Some(text@),
        decreases parts@.len() - i,
    {
        assert(parts@.subrange(0, i + 1).drop_last() =~= parts@.subrange(0, i as int));
        match &parts[i] {
            StrSeg::Lit(l) => text.push_str(l.as_str()),
            StrSeg::Hole(arg, _) => match lookup(values, arg) {
                Some(FillValue::Text(s)) => text.push_str(s.as_str()),
                _ => {
                    proof {
                        lemma_splice_text_none(parts@, values@, i as int + 1);
                    }
                    return Err(fill_err("a string hole needs a text value"));
                },
            },
        }
        i = i + 1;
    }
    assert(parts@.subrange(0, parts@.len() as int) =~= parts@);
    Ok(text)
}

proof fn lemma_splice_text_none(parts: Seq<StrSeg>, values: Seq<(String, FillValue)>, k: int)
    requires
        0 <= k <= parts.len(),
        splice_text(parts.subrange(0, k), values) is None,
    ensures
        splice_text(parts, values) is None,
    decreases parts.len() - k,
{
    if k < parts.len() {
        assert(parts.subrange(0, k + 1).drop_last() =~= parts.subrange(0, k));
        lemma_splice_text_none(parts, values, k + 1);
    } else {
        assert(parts.subrange(0, k) =~= parts);
    }
}

proof fn lemma_fill_none(segs: Seq<NbtSeg>, values: Seq<(String, FillValue)>, k: int)
    requires
        0 <= k <= segs.len(),
        fill_spec(segs.subrange(0, k), values) is None,
    ensures
        fill_spec(segs, values) is None,
    decreases segs.len() - k,
{
    if k < segs.len() {
        assert(segs.subrange(0, k + 1).drop_last() =~= segs.subrange(0, k));
        lemma_fill_none(segs, values, k + 1);
    } else {
        assert(segs.subrange(0, k) =~= segs);
    }
}

/// One segment's bytes.
fn write_seg(buf: &mut Vec<u8>, seg: &NbtSeg, values: &Vec<(String, FillValue)>) -> (r: Result<(), FillError>)
    ensures
        match seg_bytes(*seg, values@) {
            Some(b) => r is Ok && final(buf)@ == old(buf)@ + b,
            None => r is Err,
        },
{
    match seg {
        NbtSeg::Bytes(b) => {
            extend_bytes(buf, b.as_slice());
            Ok(())
        },
        NbtSeg::Hole(arg, _) => match lookup(values, arg) {
            Some(FillValue::Text(s)) => write_text(buf, s.as_str()),
            _ => Err(fill_err("a text hole needs a text value")),
        },
        NbtSeg::LangKey { arg, .. } => match lookup(values, arg) {
            Some(FillValue::Text(s)) => write_text(buf, s.as_str()),
            _ => Err(fill_err("a translation key hole needs a text key")),
        },
        NbtSeg::ColorHole(arg) => match lookup(values, arg) {
            Some(FillValue::Color(c)) => {
                write_color(buf, c);
                Ok(())
            },
            _ => Err(fill_err("a color hole needs a color value")),
        },
        NbtSeg::StrSplice(parts) => match assemble_text(parts, values) {
            Ok(t) => write_text(buf, t.as_str()),
            Err(e) => Err(e),
        },
        NbtSeg::BoolHole(arg) => match lookup(values, arg) {
            Some(FillValue::Flag(b)) => {
                buf.push(if *b { 1 } else { 0 });
                Ok(())
            },
            _ => Err(fill_err("a flag hole needs a bool value")),
        },
        NbtSeg::Component { arg, style, at } => {
            if !style.is_empty() {
                return Err(fill_err("a styled component hole needs the component encoder"));
            }
            write_spliced(buf, lookup(values, arg), at)
        },
        NbtSeg::ConstComponent { arg, at } => write_spliced(buf, lookup(values, arg), at),
        NbtSeg::EventHole { .. } => Err(fill_err("an event hole needs the event encoder")),
    }
}

/// Fills an emitted template: static runs copied, each splice point written from its value.
pub fn fill_segments(segs: &Vec<NbtSeg>, values: &Vec<(String, FillValue)>) -> (r: Result<EncodedComponent, FillError>)
    ensures
        match fill_spec(segs@, values@) {
            Some(b) => r matches Ok(e) && e@ == b,
            None => r is Err,
        },
{
    let mut buf: Vec<u8> = Vec::new();
    let mut i: usize = 0;
    while i < segs.len()
        invariant
            i <= segs@.len(),
            fill_spec(segs@.subrange(0, i as int), values@) == Some(buf@),
        decreases segs@.len() - i,
    {
        assert(segs@.subrange(0, i + 1).drop_last() =~= segs@.subrange(0, i as int));
        if let Err(e) = write_seg(&mut buf, &segs[i], values) {
            proof {
                lemma_fill_none(segs@, values@, i as int + 1);
            }
            return Err(e);
        }
        i = i + 1;
    }
    assert(segs@.subrange(0, segs@.len() as int) =~= segs@);
    Ok(EncodedComponent::from_vec(buf))
}

} // verus!
