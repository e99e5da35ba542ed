//! NBT tags as values, and their network encoding (`[tag type][payload]`, no root name).
use vstd::prelude::*;
use crate::grammar::emit::{mutf8, to_mutf8};
use crate::nbt::writers::{extend_bytes, nbt_string, write_mutf8};

verus! {

/// A single NBT tag. Floats are carried as their IEEE-754 bits.
#[derive(Debug, PartialEq)]
pub enum NbtTag {
    Byte(i8),
    Short(i16),
    Int(i32),
    Long(i64),
    Float(u32),
    Double(u64),
    ByteArray(Vec<u8>),
    String(String),
    List(Vec<NbtTag>),
    Compound(Vec<(String, NbtTag)>),
    IntArray(Vec<i32>),
    LongArray(Vec<i64>),
}

/// The model of a tag: sequences in place of vectors, text as chars.
pub enum TagV {
    Byte(i8),
    Short(i16),
    Int(i32),
    Long(i64),
    Float(u32),
    Double(u64),
    ByteArray(Seq<u8>),
    String(Seq<char>),
    List(Seq<TagV>),
    Compound(Seq<(Seq<char>, TagV)>),
    IntArray(Seq<i32>),
    LongArray(Seq<i64>),
}

pub open spec fn view_tags(s: Seq<NbtTag>) -> Seq<TagV>
    decreases s,
{
    if s.len() == 0 { Seq::empty() } else { view_tags(s.drop_last()).push(view_tag(s.last())) }
}

pub open spec fn view_entries(s: Seq<(String, NbtTag)>) -> Seq<(Seq<char>, TagV)>
    decreases s,
{
    if s.len() == 0 {
        Seq::empty()
    } else {
        view_entries(s.drop_last()).push((s.last().0@, view_tag(s.last().1)))
    }
}

pub open spec fn view_tag(t: NbtTag) -> TagV
    decreases t,
{
    match t {
        NbtTag::Byte(v) => TagV::Byte(v),
        NbtTag::Short(v) => TagV::Short(v),
        NbtTag::Int(v) => TagV::Int(v),
        NbtTag::Long(v) => TagV::Long(v),
        NbtTag::Float(v) => TagV::Float(v),
        NbtTag::Double(v) => TagV::Double(v),
        NbtTag::ByteArray(v) => TagV::ByteArray(v@),
        NbtTag::String(s) => TagV::String(s@),
        NbtTag::List(v) => TagV::List(view_tags(v@)),
        NbtTag::Compound(v) => TagV::Compound(view_entries(v@)),
        NbtTag::IntArray(v) => TagV::IntArray(v@),
        NbtTag::LongArray(v) => TagV::LongArray(v@),
    }
}

impl View for NbtTag {
    type V = TagV;

    open spec fn view(&self) -> TagV {
        view_tag(*self)
    }
}

pub const END_ID: u8 = 0;
pub const BYTE_ID: u8 = 1;
pub const SHORT_ID: u8 = 2;
pub const INT_ID: u8 = 3;
pub const LONG_ID: u8 = 4;
pub const FLOAT_ID: u8 = 5;
pub const DOUBLE_ID: u8 = 6;
pub const BYTE_ARRAY_ID: u8 = 7;
pub const STRING_ID: u8 = 8;
pub const LIST_ID: u8 = 9;
pub const COMPOUND_ID: u8 = 10;
pub const INT_ARRAY_ID: u8 = 11;
pub const LONG_ARRAY_ID: u8 = 12;

/// The type byte of a tag.
pub open spec fn tag_id(t: TagV) -> u8 {
    match t {
        TagV::Byte(_) => BYTE_ID,
        TagV::Short(_) => SHORT_ID,
        TagV::Int(_) => INT_ID,
        TagV::Long(_) => LONG_ID,
        TagV::Float(_) => FLOAT_ID,
        TagV::Double(_) => DOUBLE_ID,
        TagV::ByteArray(_) => BYTE_ARRAY_ID,
        TagV::String(_) => STRING_ID,
        TagV::List(_) => LIST_ID,
        TagV::Compound(_) => COMPOUND_ID,
        TagV::IntArray(_) => INT_ARRAY_ID,
        TagV::LongArray(_) => LONG_ARRAY_ID,
    }
}

/// Big-endian bytes of an unsigned value `n` bytes wide.
pub open spec fn be(v: nat, n: nat) -> Seq<u8>
    decreases n,
{
    if n == 0 { Seq::empty() } else { be(v / 256, (n - 1) as nat).push((v % 256) as u8) }
}


/// Whether every element has the type of the first: such a list keeps its element type.
pub open spec fn homogeneous(s: Seq<TagV>) -> bool {
    forall|i: int| 0 <= i < s.len() ==> tag_id(#[trigger] s[i]) == tag_id(s[0])
}

/// The type byte a list is written with: its elements' type, End when empty, and
/// Compound when the types differ (the others are then wrapped as `{"": value}`).
pub open spec fn list_elem_id(s: Seq<TagV>) -> u8 {
    if s.len() == 0 { END_ID } else if homogeneous(s) { tag_id(s[0]) } else { COMPOUND_ID }
}

/// What a tag is written as inside a compound list whose types differ.
pub open spec fn wrap_elem(t: TagV) -> TagV {
    match t {
        TagV::Compound(_) => t,
        _ => TagV::Compound(seq![(Seq::<char>::empty(), t)]),
    }
}

/// Every string short enough for its u16 length, every list and array short enough for its
/// i32 length.
pub open spec fn tag_ok(t: TagV) -> bool
    decreases t,
{
    match t {
        TagV::String(s) => mutf8(s).len() <= 0xFFFF,
        TagV::ByteArray(v) => v.len() <= 0x7FFF_FFFF,
        TagV::IntArray(v) => v.len() <= 0x7FFF_FFFF,
        TagV::LongArray(v) => v.len() <= 0x7FFF_FFFF,
        TagV::List(v) => v.len() <= 0x7FFF_FFFF && list_ok(v),
        TagV::Compound(v) => entries_ok(v),
        _ => true,
    }
}

/// Every element of a list within the limits.
pub open spec fn list_ok(s: Seq<TagV>) -> bool
    decreases s,
{
    s.len() == 0 || (list_ok(s.drop_last()) && tag_ok(s.last()))
}

/// Every entry of a compound within the limits, names included.
pub open spec fn entries_ok(s: Seq<(Seq<char>, TagV)>) -> bool
    decreases s,
{
    s.len() == 0 || (entries_ok(s.drop_last()) && mutf8(s.last().0).len() <= 0xFFFF && tag_ok(s.last().1))
}

pub proof fn lemma_list_ok(s: Seq<TagV>, i: int)
    requires
        list_ok(s),
        0 <= i < s.len(),
    ensures
        tag_ok(s[i]),
    decreases s.len(),
{
    if i < s.len() - 1 {
        lemma_list_ok(s.drop_last(), i);
    }
}

pub proof fn lemma_entries_ok(s: Seq<(Seq<char>, TagV)>, i: int)
    requires
        entries_ok(s),
        0 <= i < s.len(),
    ensures
        mutf8(s[i].0).len() <= 0xFFFF,
        tag_ok(s[i].1),
    decreases s.len(),
{
    if i < s.len() - 1 {
        lemma_entries_ok(s.drop_last(), i);
    }
}

/// The payloads of list elements, in order.
pub open spec fn list_payloads(s: Seq<TagV>, wrap: bool) -> Seq<u8>
    decreases s,
{
    if s.len() == 0 {
        Seq::empty()
    } else {
        list_payloads(s.drop_last(), wrap) + if wrap { payload_wrapped(s.last()) } else { payload(s.last()) }
    }
}

/// The payload of a tag as a heterogeneous list writes it.
pub open spec fn payload_wrapped(t: TagV) -> Seq<u8>
    decreases t, 1nat,
{
    match t {
        TagV::Compound(_) => payload(t),
        _ => seq![tag_id(t)] + nbt_string(Seq::empty()) + payload(t) + seq![END_ID],
    }
}

/// The entries of a compound, in order: type, name, payload.
pub open spec fn entry_payloads(s: Seq<(Seq<char>, TagV)>) -> Seq<u8>
    decreases s,
{
    if s.len() == 0 {
        Seq::empty()
    } else {
        entry_payloads(s.drop_last()) + seq![tag_id(s.last().1)] + nbt_string(s.last().0) + payload(s.last().1)
    }
}

/// The payload of a tag: what follows its type byte.
pub open spec fn payload(t: TagV) -> Seq<u8>
    decreases t, 0nat,
{
    match t {
        TagV::Byte(v) => seq![v as u8],
        TagV::Short(v) => be((v as u16) as nat, 2),
        TagV::Int(v) => be((v as u32) as nat, 4),
        TagV::Long(v) => be((v as u64) as nat, 8),
        TagV::Float(v) => be(v as nat, 4),
        TagV::Double(v) => be(v as nat, 8),
        TagV::ByteArray(v) => be(v.len(), 4) + v,
        TagV::String(s) => nbt_string(s),
        TagV::List(v) => seq![list_elem_id(v)] + be(v.len(), 4)
            + list_payloads(v, v.len() > 0 && !homogeneous(v)),
        TagV::Compound(v) => entry_payloads(v) + seq![END_ID],
        TagV::IntArray(v) => be(v.len(), 4) + ints_be(v),
        TagV::LongArray(v) => be(v.len(), 4) + longs_be(v),
    }
}

pub open spec fn ints_be(v: Seq<i32>) -> Seq<u8>
    decreases v.len(),
{
    if v.len() == 0 { Seq::empty() } else { ints_be(v.drop_last()) + be((v.last() as u32) as nat, 4) }
}

pub open spec fn longs_be(v: Seq<i64>) -> Seq<u8>
    decreases v.len(),
{
    if v.len() == 0 { Seq::empty() } else { longs_be(v.drop_last()) + be((v.last() as u64) as nat, 8) }
}

/// A tag as a network message: its type byte, then its payload.
pub open spec fn root_bytes(t: TagV) -> Seq<u8> {
    seq![tag_id(t)] + payload(t)
}


// ---------------------------------------------------------------------------
// Writing.

fn push_be_u16(buf: &mut Vec<u8>, v: u16)
    ensures
        final(buf)@ == old(buf)@ + be(v as nat, 2),
{
    buf.push((v >> 8u16) as u8);
    buf.push(v as u8);
    assert((v >> 8u16) as u8 == (v / 256) % 256 && v as u8 == v % 256) by (bit_vector);
    assert(final(buf)@ =~= old(buf)@ + be(v as nat, 2)) by {
        reveal_with_fuel(be, 3);
    }
}

fn push_be_u32(buf: &mut Vec<u8>, v: u32)
    ensures
        final(buf)@ == old(buf)@ + be(v as nat, 4),
{
    buf.push((v >> 24u32) as u8);
    buf.push((v >> 16u32) as u8);
    buf.push((v >> 8u32) as u8);
    buf.push(v as u8);
    assert((v >> 24u32) as u8 == (v / 256 / 256 / 256) % 256 && (v >> 16u32) as u8 == (v / 256 / 256) % 256
        && (v >> 8u32) as u8 == (v / 256) % 256 && v as u8 == v % 256) by (bit_vector);
    assert(final(buf)@ =~= old(buf)@ + be(v as nat, 4)) by {
        reveal_with_fuel(be, 5);
    }
}

fn push_be_u64(buf: &mut Vec<u8>, v: u64)
    ensures
        final(buf)@ == old(buf)@ + be(v as nat, 8),
{
    let hi = (v >> 32u64) as u32;
    let lo = v as u32;
    push_be_u32(buf, hi);
    push_be_u32(buf, lo);
    assert(hi as nat == v / 0x1_0000_0000 && lo as nat == v % 0x1_0000_0000) by (bit_vector)
        requires
            hi == (v >> 32u64) as u32,
            lo == v as u32,
    ;
    proof {
        lemma_be_split(v as nat);
    }
    assert(final(buf)@ =~= old(buf)@ + be(v as nat, 8));
}

proof fn lemma_be_split(v: nat)
    ensures
        be(v, 8) == be(v / 0x1_0000_0000, 4) + be(v % 0x1_0000_0000, 4),
{
    reveal_with_fuel(be, 9);
    let h = v / 0x1_0000_0000;
    let l = v % 0x1_0000_0000;
    assert(v == h * 0x1_0000_0000 + l);
    assert(v / 256 == h * 0x100_0000 + l / 256) by (nonlinear_arith)
        requires v == h * 0x1_0000_0000 + l, 0 <= l < 0x1_0000_0000;
    assert(v / 256 / 256 == h * 0x1_0000 + l / 256 / 256) by (nonlinear_arith)
        requires v / 256 == h * 0x100_0000 + l / 256, 0 <= l < 0x1_0000_0000;
    assert(v / 256 / 256 / 256 == h * 0x100 + l / 256 / 256 / 256) by (nonlinear_arith)
        requires v / 256 / 256 == h * 0x1_0000 + l / 256 / 256, 0 <= l < 0x1_0000_0000;
    assert(v / 256 / 256 / 256 / 256 == h) by (nonlinear_arith)
        requires v / 256 / 256 / 256 == h * 0x100 + l / 256 / 256 / 256, 0 <= l < 0x1_0000_0000;
    assert(v % 256 == l % 256) by (nonlinear_arith)
        requires v == h * 0x1_0000_0000 + l, 0 <= l;
    assert((v / 256) % 256 == (l / 256) % 256) by (nonlinear_arith)
        requires v / 256 == h * 0x100_0000 + l / 256, 0 <= l;
    assert((v / 256 / 256) % 256 == (l / 256 / 256) % 256) by (nonlinear_arith)
        requires v / 256 / 256 == h * 0x1_0000 + l / 256 / 256, 0 <= l;
    assert((v / 256 / 256 / 256) % 256 == (l / 256 / 256 / 256) % 256) by (nonlinear_arith)
        requires v / 256 / 256 / 256 == h * 0x100 + l / 256 / 256 / 256, 0 <= l;
    assert(l / 256 / 256 / 256 / 256 == 0) by (nonlinear_arith)
        requires 0 <= l < 0x1_0000_0000;
    assert(be(v, 8) =~= be(h, 4) + be(l, 4));
}

/// Appends the payload of a tag.
pub fn write_payload(buf: &mut Vec<u8>, t: &NbtTag)
    requires
        tag_ok(t@),
    ensures
        final(buf)@ == old(buf)@ + payload(t@),
    decreases t, 0nat,
{
    match t {
        NbtTag::Byte(v) => {
            buf.push(*v as u8);
            assert(final(buf)@ =~= old(buf)@ + payload(t@));
        },
        NbtTag::Short(v) => push_be_u16(buf, *v as u16),
        NbtTag::Int(v) => push_be_u32(buf, *v as u32),
        NbtTag::Long(v) => push_be_u64(buf, *v as u64),
        NbtTag::Float(v) => push_be_u32(buf, *v),
        NbtTag::Double(v) => push_be_u64(buf, *v),
        NbtTag::ByteArray(v) => {
            push_be_u32(buf, v.len() as u32);
            extend_bytes(buf, v.as_slice());
        },
        NbtTag::String(s) => write_mutf8(buf, s.as_str()),
        NbtTag::List(v) => write_list(buf, v),
        NbtTag::Compound(v) => write_compound(buf, v),
        NbtTag::IntArray(v) => {
            push_be_u32(buf, v.len() as u32);
            let mut i: usize = 0;
            while i < v.len()
                invariant
                    i <= v@.len(),
                    buf@ == old(buf)@ + be(v@.len(), 4) + ints_be(v@.subrange(0, i as int)),
                decreases v@.len() - i,
            {
                push_be_u32(buf, v[i] as u32);
                assert(v@.subrange(0, i + 1).drop_last() =~= v@.subrange(0, i as int));
                i = i + 1;
            }
            assert(v@.subrange(0, v@.len() as int) =~= v@);
        },
        NbtTag::LongArray(v) => {
            push_be_u32(buf, v.len() as u32);
            let mut i: usize = 0;
            while i < v.len()
                invariant
                    i <= v@.len(),
                    buf@ == old(buf)@ + be(v@.len(), 4) + longs_be(v@.subrange(0, i as int)),
                decreases v@.len() - i,
            {
                push_be_u64(buf, v[i] as u64);
                assert(v@.subrange(0, i + 1).drop_last() =~= v@.subrange(0, i as int));
                i = i + 1;
            }
            assert(v@.subrange(0, v@.len() as int) =~= v@);
        },
    }
}

pub(crate) proof fn lemma_view_tags_index(s: Seq<NbtTag>, i: int)
    requires
        0 <= i < s.len(),
    ensures
        view_tags(s).len() == s.len(),
        view_tags(s)[i] == view_tag(s[i]),
    decreases s.len(),
{
    if i < s.len() - 1 {
        lemma_view_tags_index(s.drop_last(), i);
    } else {
        lemma_view_tags_len(s.drop_last());
    }
}

pub(crate) proof fn lemma_view_tags_len(s: Seq<NbtTag>)
    ensures
        view_tags(s).len() == s.len(),
    decreases s.len(),
{
    if s.len() > 0 {
        lemma_view_tags_len(s.drop_last());
    }
}

proof fn lemma_view_tags_prefix(s: Seq<NbtTag>, i: int)
    requires
        0 <= i <= s.len(),
    ensures
        view_tags(s.subrange(0, i)) == view_tags(s).subrange(0, i),
    decreases s.len() - i,
{
    lemma_view_tags_len(s);
    lemma_view_tags_len(s.subrange(0, i));
    assert forall|k: int| 0 <= k < i implies view_tags(s.subrange(0, i))[k] == view_tags(s)[k] by {
        lemma_view_tags_index(s.subrange(0, i), k);
        lemma_view_tags_index(s, k);
    }
    assert(view_tags(s.subrange(0, i)) =~= view_tags(s).subrange(0, i));
}

/// Whether every element has the first one's type.
fn is_homogeneous(v: &Vec<NbtTag>) -> (r: bool)
    requires
        v@.len() > 0,
    ensures
        r == homogeneous(view_tags(v@)),
{
    proof {
        lemma_view_tags_len(v@);
    }
    let first = tag_type(&v[0]);
    proof {
        lemma_view_tags_index(v@, 0);
    }
    let mut i: usize = 1;
    while i < v.len()
        invariant
            1 <= i <= v@.len(),
            view_tags(v@).len() == v@.len(),
            first == tag_id(view_tags(v@)[0]),
            forall|k: int| 0 <= k < i ==> tag_id(#[trigger] view_tags(v@)[k]) == first,
        decreases v@.len() - i,
    {
        proof {
            lemma_view_tags_index(v@, i as int);
        }
        if tag_type(&v[i]) != first {
            return false;
        }
        i = i + 1;
    }
    true
}

/// The type byte of a tag.
pub fn tag_type(t: &NbtTag) -> (r: u8)
    ensures
        r == tag_id(t@),
{
    match t {
        NbtTag::Byte(_) => BYTE_ID,
        NbtTag::Short(_) => SHORT_ID,
        NbtTag::Int(_) => INT_ID,
        NbtTag::Long(_) => LONG_ID,
        NbtTag::Float(_) => FLOAT_ID,
        NbtTag::Double(_) => DOUBLE_ID,
        NbtTag::ByteArray(_) => BYTE_ARRAY_ID,
        NbtTag::String(_) => STRING_ID,
        NbtTag::List(_) => LIST_ID,
        NbtTag::Compound(_) => COMPOUND_ID,
        NbtTag::IntArray(_) => INT_ARRAY_ID,
        NbtTag::LongArray(_) => LONG_ARRAY_ID,
    }
}

fn write_list(buf: &mut Vec<u8>, v: &Vec<NbtTag>)
    requires
        tag_ok(TagV::List(view_tags(v@))),
    ensures
        final(buf)@ == old(buf)@ + payload(TagV::List(view_tags(v@))),
    decreases v, 0nat,
{
    proof {
        lemma_view_tags_len(v@);
    }
    let ghost vs = view_tags(v@);
    let n = v.len();
    let wrap = n > 0 && !is_homogeneous(v);
    let elem = if n == 0 { END_ID } else if wrap { COMPOUND_ID } else { tag_type(&v[0]) };
    proof {
        if n > 0 {
            lemma_view_tags_index(v@, 0);
        }
    }
    buf.push(elem);
    push_be_u32(buf, n as u32);
    let ghost start = buf@;
    let mut i: usize = 0;
    while i < n
        invariant
            i <= n,
            n == v@.len(),
            vs == view_tags(v@),
            vs.len() == n,
            tag_ok(TagV::List(vs)),
            wrap == (n > 0 && !homogeneous(vs)),
            buf@ == start + list_payloads(vs.subrange(0, i as int), wrap),
        decreases n - i,
    {
        proof {
            lemma_view_tags_index(v@, i as int);
            lemma_list_ok(vs, i as int);
            assert(vs.subrange(0, i + 1).drop_last() =~= vs.subrange(0, i as int));
        }
        if wrap {
            write_payload_wrapped(buf, &v[i]);
        } else {
            write_payload(buf, &v[i]);
        }
        i = i + 1;
    }
    assert(vs.subrange(0, n as int) =~= vs);
    assert(final(buf)@ =~= old(buf)@ + payload(TagV::List(vs)));
}

fn write_payload_wrapped(buf: &mut Vec<u8>, t: &NbtTag)
    requires
        tag_ok(t@),
    ensures
        final(buf)@ == old(buf)@ + payload_wrapped(t@),
    decreases t, 1nat,
{
    if let NbtTag::Compound(_) = t {
        write_payload(buf, t);
    } else {
        buf.push(tag_type(t));
        buf.push(0);
        buf.push(0);
        write_payload(buf, t);
        buf.push(END_ID);
        proof {
            reveal_strlit("");
            assert(mutf8(Seq::<char>::empty()) =~= Seq::<u8>::empty());
        }
        assert(final(buf)@ =~= old(buf)@ + payload_wrapped(t@));
    }
}

pub(crate) proof fn lemma_view_entries_index(s: Seq<(String, NbtTag)>, i: int)
    requires
        0 <= i < s.len(),
    ensures
        view_entries(s).len() == s.len(),
        view_entries(s)[i] == (s[i].0@, view_tag(s[i].1)),
    decreases s.len(),
{
    if i < s.len() - 1 {
        lemma_view_entries_index(s.drop_last(), i);
    } else {
        lemma_view_entries_len(s.drop_last());
    }
}

pub(crate) proof fn lemma_view_entries_len(s: Seq<(String, NbtTag)>)
    ensures
        view_entries(s).len() == s.len(),
    decreases s.len(),
{
    if s.len() > 0 {
        lemma_view_entries_len(s.drop_last());
    }
}

fn write_compound(buf: &mut Vec<u8>, v: &Vec<(String, NbtTag)>)
    requires
        tag_ok(TagV::Compound(view_entries(v@))),
    ensures
        final(buf)@ == old(buf)@ + payload(TagV::Compound(view_entries(v@))),
    decreases v, 0nat,
{
    proof {
        lemma_view_entries_len(v@);
    }
    let ghost es = view_entries(v@);
    let ghost start = buf@;
    let n = v.len();
    let mut i: usize = 0;
    while i < n
        invariant
            i <= n,
            n == v@.len(),
            es == view_entries(v@),
            es.len() == n,
            tag_ok(TagV::Compound(es)),
            buf@ == start + entry_payloads(es.subrange(0, i as int)),
        decreases n - i,
    {
        proof {
            lemma_view_entries_index(v@, i as int);
            lemma_entries_ok(es, i as int);
            assert(es.subrange(0, i + 1).drop_last() =~= es.subrange(0, i as int));
        }
        let (name, t) = &v[i];
        buf.push(tag_type(t));
        write_mutf8(buf, name.as_str());
        write_payload(buf, t);
        i = i + 1;
    }
    buf.push(END_ID);
    assert(es.subrange(0, n as int) =~= es);
    assert(final(buf)@ =~= old(buf)@ + payload(TagV::Compound(es)));
}

/// Appends a tag as a network message: type byte, then payload.
pub fn write_root(buf: &mut Vec<u8>, t: &NbtTag)
    requires
        tag_ok(t@),
    ensures
        final(buf)@ == old(buf)@ + root_bytes(t@),
{
    buf.push(tag_type(t));
    write_payload(buf, t);
    assert(final(buf)@ =~= old(buf)@ + root_bytes(t@));
}


/// Appends the four big-endian bytes of a `u32`.
pub fn push_be_u32_pub(buf: &mut Vec<u8>, v: u32)
    ensures
        final(buf)@ == old(buf)@ + be(v as nat, 4),
{
    push_be_u32(buf, v);
}

/// Whether a tag is within the limits its encoding can carry.
pub fn check_tag(t: &NbtTag) -> (r: bool)
    ensures
        r == tag_ok(t@),
    decreases t, 1nat,
{
    match t {
        NbtTag::String(s) => to_mutf8(s.as_str()).len() <= 0xFFFF,
        NbtTag::ByteArray(v) => v.len() <= 0x7FFF_FFFF,
        NbtTag::IntArray(v) => v.len() <= 0x7FFF_FFFF,
        NbtTag::LongArray(v) => v.len() <= 0x7FFF_FFFF,
        NbtTag::List(v) => {
            proof {
                lemma_view_tags_len(v@);
            }
            v.len() <= 0x7FFF_FFFF && check_list(v)
        },
        NbtTag::Compound(v) => check_entries(v),
        _ => true,
    }
}

fn check_list(v: &Vec<NbtTag>) -> (r: bool)
    ensures
        r == list_ok(view_tags(v@)),
    decreases v, 0nat,
{
    let mut i: usize = 0;
    while i < v.len()
        invariant
            i <= v@.len(),
            list_ok(view_tags(v@.subrange(0, i as int))),
        decreases v@.len() - i,
    {
        assert(v@.subrange(0, i + 1).drop_last() =~= v@.subrange(0, i as int));
        assert(view_tags(v@.subrange(0, i + 1)).drop_last() =~= view_tags(v@.subrange(0, i as int)));
        if !check_tag(&v[i]) {
            proof {
                lemma_list_ok_prefix(v@, i as int + 1);
            }
            return false;
        }
        i = i + 1;
    }
    assert(v@.subrange(0, v@.len() as int) =~= v@);
    true
}

fn check_entries(v: &Vec<(String, NbtTag)>) -> (r: bool)
    ensures
        r == entries_ok(view_entries(v@)),
    decreases v, 0nat,
{
    let mut i: usize = 0;
    while i < v.len()
        invariant
            i <= v@.len(),
            entries_ok(view_entries(v@.subrange(0, i as int))),
        decreases v@.len() - i,
    {
        assert(v@.subrange(0, i + 1).drop_last() =~= v@.subrange(0, i as int));
        assert(view_entries(v@.subrange(0, i + 1)).drop_last() =~= view_entries(v@.subrange(0, i as int)));
        let (name, t) = &v[i];
        if to_mutf8(name.as_str()).len() > 0xFFFF || !check_tag(t) {
            proof {
                lemma_entries_ok_prefix(v@, i as int + 1);
            }
            return false;
        }
        i = i + 1;
    }
    assert(v@.subrange(0, v@.len() as int) =~= v@);
    true
}

proof fn lemma_list_ok_prefix(v: Seq<NbtTag>, k: int)
    requires
        0 <= k <= v.len(),
        !list_ok(view_tags(v.subrange(0, k))),
    ensures
        !list_ok(view_tags(v)),
    decreases v.len() - k,
{
    if k < v.len() {
        assert(v.subrange(0, k + 1).drop_last() =~= v.subrange(0, k));
        assert(view_tags(v.subrange(0, k + 1)).drop_last() =~= view_tags(v.subrange(0, k)));
        lemma_list_ok_prefix(v, k + 1);
    } else {
        assert(v.subrange(0, k) =~= v);
    }
}

proof fn lemma_entries_ok_prefix(v: Seq<(String, NbtTag)>, k: int)
    requires
        0 <= k <= v.len(),
        !entries_ok(view_entries(v.subrange(0, k))),
    ensures
        !entries_ok(view_entries(v)),
    decreases v.len() - k,
{
    if k < v.len() {
        assert(v.subrange(0, k + 1).drop_last() =~= v.subrange(0, k));
        assert(view_entries(v.subrange(0, k + 1)).drop_last() =~= view_entries(v.subrange(0, k)));
        lemma_entries_ok_prefix(v, k + 1);
    } else {
        assert(v.subrange(0, k) =~= v);
    }
}

} // verus!
