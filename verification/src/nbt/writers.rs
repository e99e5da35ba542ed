//! The byte writers compile-time encoding expands to calls of.
use vstd::prelude::*;
use crate::chars::chars_of;
use crate::format::{codec_name_spec, Color};
use crate::grammar::emit::{mutf8, to_mutf8, TAG_COMPOUND, TAG_STRING};

verus! {

/// Appends bytes.
pub fn extend_bytes(buf: &mut Vec<u8>, b: &[u8])
    ensures
        final(buf)@ == old(buf)@ + b@,
{
    let mut i: usize = 0;
    while i < b.len()
        invariant
            i <= b@.len(),
            buf@ == old(buf)@ + b@.subrange(0, i as int),
        decreases b@.len() - i,
    {
        buf.push(b[i]);
        i = i + 1;
        assert(buf@ =~= old(buf)@ + b@.subrange(0, i as int));
    }
    assert(b@.subrange(0, b@.len() as int) =~= b@);
}

/// An NBT string: the u16 big-endian byte count, then the Modified UTF-8 bytes.
pub open spec fn nbt_string(s: Seq<char>) -> Seq<u8> {
    let b = mutf8(s);
    seq![(b.len() / 256) as u8, (b.len() % 256) as u8] + b
}

/// Java Modified UTF-8 payload, no length prefix.
pub fn write_mutf8_body(buf: &mut Vec<u8>, s: &str)
    ensures
        final(buf)@ == old(buf)@ + mutf8(s@),
{
    let b = to_mutf8(s);
    extend_bytes(buf, b.as_slice());
}

/// u16 big-endian length + Java Modified UTF-8 payload.
pub fn write_mutf8(buf: &mut Vec<u8>, s: &str)
    requires
        mutf8(s@).len() <= 0xFFFF,
    ensures
        final(buf)@ == old(buf)@ + nbt_string(s@),
{
    let b = to_mutf8(s);
    let n = nbt_len(b.len());
    buf.push((n / 256) as u8);
    buf.push((n % 256) as u8);
    extend_bytes(buf, b.as_slice());
    assert(final(buf)@ =~= old(buf)@ + nbt_string(s@));
}

/// The u16 length prefix of an NBT string; a length over 65535 is refused by `requires`.
pub fn nbt_len(len: usize) -> (r: u16)
    requires
        len <= 0xFFFF,
    ensures
        r == len,
{
    len as u16
}

/// The bytes of ASCII text, one per char.
pub open spec fn ascii_bytes(s: Seq<char>) -> Seq<u8> {
    s.map_values(|c: char| (c as u32) as u8)
}

fn push_ascii(buf: &mut Vec<u8>, s: &[char])
    ensures
        final(buf)@ == old(buf)@ + ascii_bytes(s@),
{
    let mut i: usize = 0;
    while i < s.len()
        invariant
            i <= s@.len(),
            buf@ == old(buf)@ + ascii_bytes(s@.subrange(0, i as int)),
        decreases s@.len() - i,
    {
        buf.push((s[i] as u32) as u8);
        i = i + 1;
        assert(buf@ =~= old(buf)@ + ascii_bytes(s@.subrange(0, i as int)));
    }
    assert(s@.subrange(0, s@.len() as int) =~= s@);
}

/// u16 big-endian length + the color's codec name ("aqua", "#RRGGBB").
pub fn write_color(buf: &mut Vec<u8>, color: &Color)
    ensures
        final(buf)@ == old(buf)@ + seq![0u8, codec_name_spec(*color).len() as u8]
            + ascii_bytes(codec_name_spec(*color)),
{
    let name = color.codec_name();
    let cs = chars_of(name.as_str());
    proof {
        reveal_strlit("black");
        reveal_strlit("dark_blue");
        reveal_strlit("dark_green");
        reveal_strlit("dark_aqua");
        reveal_strlit("dark_red");
        reveal_strlit("dark_purple");
        reveal_strlit("gold");
        reveal_strlit("gray");
        reveal_strlit("dark_gray");
        reveal_strlit("blue");
        reveal_strlit("green");
        reveal_strlit("aqua");
        reveal_strlit("red");
        reveal_strlit("light_purple");
        reveal_strlit("yellow");
        reveal_strlit("white");
    }
    assert(cs@.len() <= 12);
    buf.push(0);
    buf.push(cs.len() as u8);
    push_ascii(buf, cs.as_slice());
    assert(final(buf)@ =~= old(buf)@ + seq![0u8, codec_name_spec(*color).len() as u8]
        + ascii_bytes(codec_name_spec(*color)));
}

/// An already-encoded component as the whole message: its bytes, verbatim.
pub fn write_encoded_root(buf: &mut Vec<u8>, encoded: &[u8])
    ensures
        final(buf)@ == old(buf)@ + encoded@,
{
    extend_bytes(buf, encoded);
}

/// How an encoded component sits as an element of a compound list: a compound loses its
/// tag type byte; a string is wrapped as `{"": value}`.
pub open spec fn encoded_elem(encoded: Seq<u8>) -> Seq<u8> {
    if encoded.len() == 0 {
        Seq::empty()
    } else if encoded[0] == TAG_COMPOUND {
        encoded.subrange(1, encoded.len() as int)
    } else {
        seq![TAG_STRING, 0u8, 0u8] + encoded.subrange(1, encoded.len() as int) + seq![0u8]
    }
}

/// An already-encoded component as a compound-list element.
pub fn write_encoded_elem(buf: &mut Vec<u8>, encoded: &[u8])
    ensures
        final(buf)@ == old(buf)@ + encoded_elem(encoded@),
{
    if encoded.len() == 0 {
        assert(final(buf)@ =~= old(buf)@ + encoded_elem(encoded@));
        return;
    }
    let payload = crate::grammar::emit::tail_bytes(encoded);
    if encoded[0] == TAG_COMPOUND {
        extend_bytes(buf, payload.as_slice());
    } else {
        buf.push(TAG_STRING);
        buf.push(0);
        buf.push(0);
        extend_bytes(buf, payload.as_slice());
        buf.push(0);
    }
    assert(final(buf)@ =~= old(buf)@ + encoded_elem(encoded@));
}

/// How an encoded component sits as the value of the entry `name`.
pub open spec fn encoded_entry(name: Seq<char>, encoded: Seq<u8>) -> Seq<u8> {
    if encoded.len() == 0 {
        Seq::empty()
    } else {
        seq![encoded[0]] + nbt_string(name) + encoded.subrange(1, encoded.len() as int)
    }
}

/// An already-encoded component as the value of a named entry.
pub fn write_encoded_entry(buf: &mut Vec<u8>, name: &str, encoded: &[u8])
    requires
        encoded@.len() > 0 ==> mutf8(name@).len() <= 0xFFFF,
    ensures
        final(buf)@ == old(buf)@ + encoded_entry(name@, encoded@),
{
    if encoded.len() == 0 {
        assert(final(buf)@ =~= old(buf)@ + encoded_entry(name@, encoded@));
        return;
    }
    buf.push(encoded[0]);
    write_mutf8(buf, name);
    let payload = crate::grammar::emit::tail_bytes(encoded);
    extend_bytes(buf, payload.as_slice());
    assert(final(buf)@ =~= old(buf)@ + encoded_entry(name@, encoded@));
}

} // verus!
