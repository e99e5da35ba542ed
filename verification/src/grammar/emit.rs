//! Network-NBT emission over the grammar IR: a template becomes static byte runs
//! (`[tag type][payload]`) interleaved with runtime splice points.
use vstd::prelude::*;
use crate::chars::{chars_of, decimal, decimal_chars, push_chars, push_hex2};
use crate::grammar::copy::copy_segs;
use crate::grammar::ir::{
    BoolIr, ClickIr, ClickKind, ColorIr, HoleArg, HoleKind, HoverIr, LangKey, Piece, PieceV, StrSeg, Style,
    view_piece_lists, view_pieces,
};
use crate::chars::hex2;
use crate::grammar::copy::lemma_view_pieces_len;
use crate::grammar::inspect::piece_style;
use crate::grammar::written::{
    args_bare, click_names, comp_hole, header, leaf_content, lemma_leaf_shape, lemma_payload_shape, lemma_ocat_assoc, lemma_ocat_empty, ocat, pieces_bare, string_entry_bytes,
    tag_type_v, written_bare, written_click, written_color, written_component, written_elem, written_elems, written_flag,
    written_font, written_format, written_hover, written_insertion, written_lang, written_leaf, written_list_elem,
    written_payload, written_shadow, written_splice, written_str_value, written_style, written_args,
    str_fits, lits_fit, bare_fits, splice_fits, hover_fits, style_fits, leaf_fits, lang_fits, args_fit, elem_fits,
    payload_fits, elems_fit, list_elem_fits, component_fits, click_fits, leaf_content_fits, lemma_leaf_fits,
    lemma_elems_fit_prefix, lemma_args_fit_prefix,
};
use crate::minimessage::{
    color_hole_bytes, event_hole_bytes, flag_hole_bytes, joined_bytes, nbt_fill_spec, nbt_seg_bytes, place_of,
    text_hole_bytes, PlaceV, Value,
};
use crate::nbt::writers::nbt_string;

verus! {

/// A template the NBT format cannot represent.
#[derive(Debug)]
pub struct EmitError {
    pub message: String,
    /// Char range of the piece the failure belongs to; `None` for whole-list limits.
    pub range: Option<(usize, usize)>,
}

/// Which event a runtime event hole fills.
#[derive(Debug, Clone, Copy, PartialEq, Eq)]
pub enum EventKind {
    Hover,
    Click,
}

/// Where a spliced component lands.
#[derive(Debug, PartialEq)]
pub enum SplicePos {
    /// The entire message: the component's encoding, verbatim.
    Root,
    /// One element of a compound list (`extra`, `with`): the tag type byte belongs to the list.
    Elem,
    /// The value of a named compound entry, such as a hover's `value`.
    Entry(String),
}

/// One part of an emitted template: static bytes, or a point the runtime fills.
#[derive(Debug)]
pub enum NbtSeg {
    Bytes(Vec<u8>),
    /// Dynamic string payload: u16 BE length + MUTF-8 bytes, written at runtime.
    Hole(HoleArg, Option<String>),
    /// Dynamic color name payload (`<{}>`): u16 length + name written at runtime.
    ColorHole(HoleArg),
    /// Dynamic formatting flag payload (`<b:{}>`): one byte at runtime.
    BoolHole(HoleArg),
    /// An NBT string assembled from literal runs and holes at runtime.
    StrSplice(Vec<StrSeg>),
    /// `{@}`: a component supplied at runtime, spliced in at the position it occupies.
    Component { arg: HoleArg, style: Box<Style>, at: SplicePos },
    /// `{@const NAME}`: a `const` component folded into the surrounding static bytes.
    ConstComponent { arg: HoleArg, at: SplicePos },
    /// `<hover:{item}>` / `<click:{cmd}>`: the event's compound payload is encoded at runtime.
    EventHole { arg: HoleArg, kind: EventKind },
    /// `<lang:{}:…>`: the runtime writes the u16 length + key of a translation.
    LangKey { arg: HoleArg, arity: usize },
}

pub const TAG_BYTE: u8 = 1;
pub const TAG_INT: u8 = 3;
pub const TAG_STRING: u8 = 8;
pub const TAG_LIST: u8 = 9;
pub const TAG_COMPOUND: u8 = 10;

/// Static runs are never empty and never adjacent: each splice point stands between two.
pub open spec fn segs_wf(s: Seq<NbtSeg>) -> bool {
    &&& forall|k: int| 0 <= k < s.len() ==> (#[trigger] s[k] matches NbtSeg::Bytes(b) ==> b@.len() > 0)
    &&& forall|k: int| 0 <= k < s.len() - 1 ==> !((#[trigger] s[k]) is Bytes && s[k + 1] is Bytes)
}

// ---------------------------------------------------------------------------
// Modified UTF-8.

/// Three bytes for a 16-bit unit, as UTF-8 lays out a BMP char.
pub open spec fn mutf8_three(c: u32) -> Seq<u8> {
    seq![(0xE0u32 | (c >> 12u32)) as u8, (0x80u32 | ((c >> 6u32) & 0x3Fu32)) as u8, (0x80u32 | (c & 0x3Fu32)) as u8]
}

/// Java's Modified UTF-8 for one char: NUL as `C0 80`, BMP chars as UTF-8, others as a
/// surrogate pair of three-byte units (CESU-8).
pub open spec fn mutf8_char(ch: char) -> Seq<u8> {
    let c = ch as u32;
    if c == 0 {
        seq![0xC0u8, 0x80u8]
    } else if c <= 0x7F {
        seq![c as u8]
    } else if c <= 0x7FF {
        seq![(0xC0u32 | (c >> 6u32)) as u8, (0x80u32 | (c & 0x3Fu32)) as u8]
    } else if c <= 0xFFFF {
        mutf8_three(c)
    } else {
        let v = (c - 0x1_0000) as u32;
        mutf8_three((0xD800 + (v >> 10u32)) as u32) + mutf8_three((0xDC00 + (v & 0x3FFu32)) as u32)
    }
}

/// Java's Modified UTF-8 for a string.
pub open spec fn mutf8(s: Seq<char>) -> Seq<u8>
    decreases s.len(),
{
    if s.len() == 0 { Seq::empty() } else { mutf8(s.drop_last()) + mutf8_char(s.last()) }
}

fn push3(out: &mut Vec<u8>, c: u32)
    ensures
        final(out)@ == old(out)@ + mutf8_three(c),
{
    out.push((0xE0u32 | (c >> 12u32)) as u8);
    out.push((0x80u32 | ((c >> 6u32) & 0x3Fu32)) as u8);
    out.push((0x80u32 | (c & 0x3Fu32)) as u8);
    assert(final(out)@ =~= old(out)@ + mutf8_three(c));
}

/// Java Modified UTF-8: NUL → C0 80, BMP as UTF-8, supplementary as CESU-8.
pub fn to_mutf8(s: &str) -> (r: Vec<u8>)
    ensures
        r@ == mutf8(s@),
{
    let cs = chars_of(s);
    let mut out: Vec<u8> = Vec::new();
    let mut i: usize = 0;
    while i < cs.len()
        invariant
            i <= cs@.len(),
            cs@ == s@,
            out@ == mutf8(cs@.subrange(0, i as int)),
        decreases cs@.len() - i,
    {
        let ch = cs[i];
        let c = ch as u32;
        let ghost before = out@;
        if c == 0 {
            out.push(0xC0);
            out.push(0x80);
        } else if c <= 0x7F {
            out.push((c as u32) as u8);
        } else if c <= 0x7FF {
            out.push((0xC0u32 | (c >> 6u32)) as u8);
            out.push((0x80u32 | (c & 0x3Fu32)) as u8);
        } else if c <= 0xFFFF {
            push3(&mut out, c);
        } else {
            let v = c - 0x1_0000;
            assert(v >> 10u32 <= 0x3F_FFFF && v & 0x3FFu32 <= 0x3FF) by (bit_vector);
            push3(&mut out, 0xD800 + (v >> 10u32));
            push3(&mut out, 0xDC00 + (v & 0x3FFu32));
        }
        assert(out@ =~= before + mutf8_char(ch));
        assert(cs@.subrange(0, i + 1).drop_last() =~= cs@.subrange(0, i as int));
        i = i + 1;
    }
    assert(cs@.subrange(0, cs@.len() as int) =~= cs@);
    out
}

proof fn lemma_mutf8_char_no_nul(ch: char)
    ensures
        forall|k: int| 0 <= k < mutf8_char(ch).len() ==> #[trigger] mutf8_char(ch)[k] != 0,
        mutf8_char(ch).len() >= 1,
{
    let c = ch as u32;
    assert(c <= 0x10FFFF);
    if c == 0 {
    } else if c <= 0x7F {
    } else if c <= 0x7FF {
        assert((0xC0u32 | (c >> 6u32)) as u8 != 0) by (bit_vector);
        assert((0x80u32 | (c & 0x3Fu32)) as u8 != 0) by (bit_vector);
    } else {
        assert(forall|x: u32| #![trigger mutf8_three(x)] (0xE0u32 | (x >> 12u32)) as u8 != 0 && (0x80u32 | ((x >> 6u32) & 0x3Fu32)) as u8 != 0
            && (0x80u32 | (x & 0x3Fu32)) as u8 != 0) by (bit_vector);
        if c > 0xFFFF {
            let v = (c - 0x1_0000) as u32;
            let a = mutf8_three((0xD800 + (v >> 10u32)) as u32);
            let b = mutf8_three((0xDC00 + (v & 0x3FFu32)) as u32);
            assert forall|k: int| 0 <= k < (a + b).len() implies #[trigger] (a + b)[k] != 0 by {
                if k < 3 {
                    assert((a + b)[k] == a[k]);
                } else {
                    assert((a + b)[k] == b[k - 3]);
                }
            }
        }
    }
}

/// Modified UTF-8 never holds a zero byte, so the encoded text can travel through C strings.
pub proof fn lemma_mutf8_no_nul(s: Seq<char>)
    ensures
        forall|k: int| 0 <= k < mutf8(s).len() ==> #[trigger] mutf8(s)[k] != 0,
    decreases s.len(),
{
    if s.len() > 0 {
        lemma_mutf8_no_nul(s.drop_last());
        lemma_mutf8_char_no_nul(s.last());
        let a = mutf8(s.drop_last());
        let b = mutf8_char(s.last());
        assert forall|k: int| 0 <= k < (a + b).len() implies #[trigger] (a + b)[k] != 0 by {
            if k < a.len() {
                assert((a + b)[k] == a[k]);
            } else {
                assert((a + b)[k] == b[k - a.len()]);
            }
        }
    }
}

/// The Modified UTF-8 of joined text is the joined encodings.
pub proof fn lemma_mutf8_append(a: Seq<char>, b: Seq<char>)
    ensures
        mutf8(a + b) == mutf8(a) + mutf8(b),
    decreases b.len(),
{
    if b.len() == 0 {
        assert(a + b =~= a);
        assert(mutf8(a) + mutf8(b) =~= mutf8(a));
    } else {
        lemma_mutf8_append(a, b.drop_last());
        assert((a + b).drop_last() =~= a + b.drop_last());
        assert((a + b).last() == b.last());
        assert(mutf8(a + b) =~= mutf8(a) + mutf8(b));
    }
}

/// The length of Modified UTF-8: one byte for a char from U+0001 to U+007F, two for NUL and
/// up to U+07FF, three up to U+FFFF, six beyond.
pub open spec fn mutf8_char_len(c: char) -> nat {
    let v = c as u32;
    if 0 < v && v < 0x80 { 1 } else if v < 0x800 { 2 } else if v < 0x1_0000 { 3 } else { 6 }
}

pub open spec fn mutf8_len_spec(s: Seq<char>) -> nat
    decreases s.len(),
{
    if s.len() == 0 { 0 } else { mutf8_len_spec(s.drop_last()) + mutf8_char_len(s.last()) }
}

/// Each char takes the bytes its range gives.
pub proof fn lemma_mutf8_len_formula(s: Seq<char>)
    ensures
        mutf8(s).len() == mutf8_len_spec(s),
    decreases s.len(),
{
    if s.len() > 0 {
        lemma_mutf8_len_formula(s.drop_last());
        assert(mutf8_char(s.last()).len() == mutf8_char_len(s.last()));
    }
}

/// Each char takes at least one byte.
pub proof fn lemma_mutf8_len(s: Seq<char>)
    ensures
        mutf8(s).len() >= s.len(),
    decreases s.len(),
{
    if s.len() > 0 {
        lemma_mutf8_len(s.drop_last());
        lemma_mutf8_char_no_nul(s.last());
    }
}

/// Text of ASCII chars other than NUL encodes to its own char codes.
pub proof fn lemma_mutf8_ascii(s: Seq<char>)
    requires
        forall|k: int| 0 <= k < s.len() ==> 0 < (#[trigger] s[k] as u32) < 0x80,
    ensures
        mutf8(s) == s.map_values(|c: char| (c as u32) as u8),
    decreases s.len(),
{
    if s.len() > 0 {
        assert forall|k: int| 0 <= k < s.drop_last().len() implies 0 < (#[trigger] s.drop_last()[k] as u32) < 0x80 by {
            assert(s.drop_last()[k] == s[k]);
        }
        lemma_mutf8_ascii(s.drop_last());
        assert(0 < (s[s.len() - 1] as u32) < 0x80);
        assert(mutf8_char(s.last()) =~= seq![(s.last() as u32) as u8]);
        assert(s.drop_last().map_values(|c: char| (c as u32) as u8) + seq![(s.last() as u32) as u8] =~= s.map_values(|c: char| (c as u32) as u8));
    }
}


// ---------------------------------------------------------------------------
// The emitter.

/// The four big-endian bytes of an `i32`.
pub open spec fn be_i32(v: i32) -> Seq<u8> {
    let u = v as u32;
    seq![(u >> 24u32) as u8, (u >> 16u32) as u8, (u >> 8u32) as u8, u as u8]
}

fn be_i32_bytes(v: i32) -> (r: [u8; 4])
    ensures
        r@ == be_i32(v),
{
    let u = v as u32;
    [(u >> 24u32) as u8, (u >> 16u32) as u8, (u >> 8u32) as u8, u as u8]
}

struct NbtEmitter {
    segs: Vec<NbtSeg>,
    /// Range of the piece being emitted, stamped onto errors raised inside it.
    at: Option<(usize, usize)>,
}

/// The names the emitter writes fit in an NBT string.
proof fn lemma_names_fit()
    ensures
        str_fits("text"@), str_fits(""@), str_fits("extra"@), str_fits("translate"@), str_fits("with"@),
        str_fits("keybind"@), str_fits("color"@), str_fits("font"@), str_fits("bold"@), str_fits("italic"@),
        str_fits("underlined"@), str_fits("strikethrough"@), str_fits("obfuscated"@), str_fits("shadow_color"@),
        str_fits("insertion"@), str_fits("hover_event"@), str_fits("action"@), str_fits("show_text"@),
        str_fits("value"@), str_fits("click_event"@), str_fits("open_url"@), str_fits("url"@),
        str_fits("run_command"@), str_fits("command"@), str_fits("suggest_command"@),
        str_fits("copy_to_clipboard"@), str_fits("change_page"@), str_fits("page"@), str_fits("show_dialog"@),
        str_fits("dialog"@),
{
    reveal_strlit("text"); lemma_mutf8_len_ascii_bound("text"@);
    reveal_strlit(""); lemma_mutf8_len_ascii_bound(""@);
    reveal_strlit("extra"); lemma_mutf8_len_ascii_bound("extra"@);
    reveal_strlit("translate"); lemma_mutf8_len_ascii_bound("translate"@);
    reveal_strlit("with"); lemma_mutf8_len_ascii_bound("with"@);
    reveal_strlit("keybind"); lemma_mutf8_len_ascii_bound("keybind"@);
    reveal_strlit("color"); lemma_mutf8_len_ascii_bound("color"@);
    reveal_strlit("font"); lemma_mutf8_len_ascii_bound("font"@);
    reveal_strlit("bold"); lemma_mutf8_len_ascii_bound("bold"@);
    reveal_strlit("italic"); lemma_mutf8_len_ascii_bound("italic"@);
    reveal_strlit("underlined"); lemma_mutf8_len_ascii_bound("underlined"@);
    reveal_strlit("strikethrough"); lemma_mutf8_len_ascii_bound("strikethrough"@);
    reveal_strlit("obfuscated"); lemma_mutf8_len_ascii_bound("obfuscated"@);
    reveal_strlit("shadow_color"); lemma_mutf8_len_ascii_bound("shadow_color"@);
    reveal_strlit("insertion"); lemma_mutf8_len_ascii_bound("insertion"@);
    reveal_strlit("hover_event"); lemma_mutf8_len_ascii_bound("hover_event"@);
    reveal_strlit("action"); lemma_mutf8_len_ascii_bound("action"@);
    reveal_strlit("show_text"); lemma_mutf8_len_ascii_bound("show_text"@);
    reveal_strlit("value"); lemma_mutf8_len_ascii_bound("value"@);
    reveal_strlit("click_event"); lemma_mutf8_len_ascii_bound("click_event"@);
    reveal_strlit("open_url"); lemma_mutf8_len_ascii_bound("open_url"@);
    reveal_strlit("url"); lemma_mutf8_len_ascii_bound("url"@);
    reveal_strlit("run_command"); lemma_mutf8_len_ascii_bound("run_command"@);
    reveal_strlit("command"); lemma_mutf8_len_ascii_bound("command"@);
    reveal_strlit("suggest_command"); lemma_mutf8_len_ascii_bound("suggest_command"@);
    reveal_strlit("copy_to_clipboard"); lemma_mutf8_len_ascii_bound("copy_to_clipboard"@);
    reveal_strlit("change_page"); lemma_mutf8_len_ascii_bound("change_page"@);
    reveal_strlit("page"); lemma_mutf8_len_ascii_bound("page"@);
    reveal_strlit("show_dialog"); lemma_mutf8_len_ascii_bound("show_dialog"@);
    reveal_strlit("dialog"); lemma_mutf8_len_ascii_bound("dialog"@);
}

/// Filling a segment list one segment longer adds that segment's bytes.
proof fn lemma_fill_push(s: Seq<NbtSeg>, x: NbtSeg)
    ensures
        forall|vs: Seq<(&str, Value)>| #[trigger] nbt_fill_spec(s.push(x), vs) == ocat(nbt_fill_spec(s, vs), nbt_seg_bytes(x, vs)),
{
    assert(s.push(x).drop_last() =~= s);
}

/// Two appends in a row append their concatenation.
proof fn lemma_then(s0: Seq<NbtSeg>, s1: Seq<NbtSeg>, s2: Seq<NbtSeg>, a: spec_fn(Seq<(&str, Value)>) -> Option<Seq<u8>>, b: spec_fn(Seq<(&str, Value)>) -> Option<Seq<u8>>)
    requires
        forall|vs: Seq<(&str, Value)>| #[trigger] nbt_fill_spec(s1, vs) == ocat(nbt_fill_spec(s0, vs), a(vs)),
        forall|vs: Seq<(&str, Value)>| #[trigger] nbt_fill_spec(s2, vs) == ocat(nbt_fill_spec(s1, vs), b(vs)),
    ensures
        forall|vs: Seq<(&str, Value)>| #[trigger] nbt_fill_spec(s2, vs) == ocat(nbt_fill_spec(s0, vs), ocat(a(vs), b(vs))),
{
    assert forall|vs: Seq<(&str, Value)>| #[trigger] nbt_fill_spec(s2, vs) == ocat(nbt_fill_spec(s0, vs), ocat(a(vs), b(vs))) by {
        assert(nbt_fill_spec(s1, vs) == ocat(nbt_fill_spec(s0, vs), a(vs)));
        lemma_ocat_assoc(nbt_fill_spec(s0, vs), a(vs), b(vs));
    }
}

/// Nothing appended.
proof fn lemma_same(s: Seq<NbtSeg>)
    ensures
        forall|vs: Seq<(&str, Value)>| #[trigger] nbt_fill_spec(s, vs) == ocat(nbt_fill_spec(s, vs), Some(Seq::<u8>::empty())),
{
    assert forall|vs: Seq<(&str, Value)>| #[trigger] nbt_fill_spec(s, vs) == ocat(nbt_fill_spec(s, vs), Some(Seq::<u8>::empty())) by {
        lemma_ocat_empty(nbt_fill_spec(s, vs));
    }
}

proof fn lemma_view_lists(s: Seq<Vec<Piece>>)
    ensures
        view_piece_lists(s).len() == s.len(),
        forall|i: int| 0 <= i < s.len() ==> #[trigger] view_piece_lists(s)[i] == view_pieces(s[i]@),
    decreases s.len(),
{
    if s.len() > 0 {
        lemma_view_lists(s.drop_first());
        assert forall|i: int| 0 <= i < s.len() implies #[trigger] view_piece_lists(s)[i] == view_pieces(s[i]@) by {
            if i > 0 {
                assert(s[i] == s.drop_first()[i - 1]);
            }
        }
    }
}

proof fn lemma_piece_style(p: Piece)
    ensures
        piece_style(p)@ == p@.style(),
        is_component_hole_spec(p) == comp_hole(p@),
{
}

impl NbtEmitter {
    /// Appends static bytes to the trailing run, opening one if a splice point ends the list.
    fn push_bytes(&mut self, b: &[u8])
        requires
            segs_wf(old(self).segs@),
            b@.len() > 0,
        ensures
            segs_wf(final(self).segs@),
            final(self).at == old(self).at,
            forall|vs: Seq<(&str, Value)>| #[trigger] nbt_fill_spec(final(self).segs@, vs)
                == ocat(nbt_fill_spec(old(self).segs@, vs), Some(b@)),
    {
        let n = self.segs.len();
        if n > 0 {
            if let NbtSeg::Bytes(_) = &self.segs[n - 1] {
                let ghost s1 = self.segs@.drop_last();
                let last = self.segs.pop().unwrap();
                if let NbtSeg::Bytes(mut v) = last {
                    let ghost v0 = v@;
                    let mut i: usize = 0;
                    while i < b.len()
                        invariant
                            i <= b@.len(),
                            v@.len() > 0,
                            v@ == v0 + b@.subrange(0, i as int),
                        decreases b@.len() - i,
                    {
                        v.push(b[i]);
                        i = i + 1;
                        assert(v@ =~= v0 + b@.subrange(0, i as int));
                    }
                    assert(b@.subrange(0, b@.len() as int) =~= b@);
                    self.segs.push(NbtSeg::Bytes(v));
                    assert forall|k: int| 0 <= k < self.segs@.len() - 1 implies !((#[trigger] self.segs@[k]) is Bytes && self.segs@[k + 1] is Bytes) by {
                        assert(self.segs@[k] == old(self).segs@[k]);
                        if k + 1 < n - 1 {
                            assert(self.segs@[k + 1] == old(self).segs@[k + 1]);
                        }
                    }
                    proof {
                        assert(self.segs@.drop_last() =~= s1);
                        assert(old(self).segs@.drop_last() =~= s1);
                        assert forall|vs: Seq<(&str, Value)>| #[trigger] nbt_fill_spec(self.segs@, vs)
                            == ocat(nbt_fill_spec(old(self).segs@, vs), Some(b@)) by {
                            lemma_ocat_assoc(nbt_fill_spec(s1, vs), Some(v0), Some(b@));
                        }
                    }
                }
                return;
            }
        }
        let mut v: Vec<u8> = Vec::new();
        let mut i: usize = 0;
        while i < b.len()
            invariant
                i <= b@.len(),
                v@ == b@.subrange(0, i as int),
            decreases b@.len() - i,
        {
            v.push(b[i]);
            i = i + 1;
            assert(v@ =~= b@.subrange(0, i as int));
        }
        assert(b@.subrange(0, b@.len() as int) =~= b@);
        proof {
            lemma_fill_push(self.segs@, NbtSeg::Bytes(v));
        }
        self.segs.push(NbtSeg::Bytes(v));
    }

    /// Appends a splice point.
    fn push_seg(&mut self, s: NbtSeg)
        requires
            segs_wf(old(self).segs@),
            !(s is Bytes),
        ensures
            segs_wf(final(self).segs@),
            final(self).at == old(self).at,
            forall|vs: Seq<(&str, Value)>| #[trigger] nbt_fill_spec(final(self).segs@, vs)
                == ocat(nbt_fill_spec(old(self).segs@, vs), nbt_seg_bytes(s, vs)),
    {
        proof {
            lemma_fill_push(self.segs@, s);
        }
        self.segs.push(s);
    }

    fn u8(&mut self, v: u8)
        requires
            segs_wf(old(self).segs@),
        ensures
            segs_wf(final(self).segs@),
            final(self).at == old(self).at,
            forall|vs: Seq<(&str, Value)>| #[trigger] nbt_fill_spec(final(self).segs@, vs)
                == ocat(nbt_fill_spec(old(self).segs@, vs), Some(seq![v])),
    {
        let b: [u8; 1] = [v];
        assert(b@ =~= seq![v]);
        self.push_bytes(b.as_slice());
    }

    fn int_be(&mut self, v: i32)
        requires
            segs_wf(old(self).segs@),
        ensures
            segs_wf(final(self).segs@),
            final(self).at == old(self).at,
            forall|vs: Seq<(&str, Value)>| #[trigger] nbt_fill_spec(final(self).segs@, vs)
                == ocat(nbt_fill_spec(old(self).segs@, vs), Some(be_i32(v))),
    {
        let b = be_i32_bytes(v);
        self.push_bytes(b.as_slice());
    }

    /// A u16 length and the MUTF-8 bytes; text over 65535 bytes is refused.
    fn mutf8(&mut self, s: &str) -> (r: Result<(), EmitError>)
        requires
            segs_wf(old(self).segs@),
        ensures
            segs_wf(final(self).segs@),
            final(self).at == old(self).at,
            r is Err <==> mutf8(s@).len() > 0xFFFF,
            r is Ok ==> forall|vs: Seq<(&str, Value)>| #[trigger] nbt_fill_spec(final(self).segs@, vs)
                == ocat(nbt_fill_spec(old(self).segs@, vs), Some(nbt_string(s@))),
    {
        let b = to_mutf8(s);
        let n = b.len();
        if n > 0xFFFF {
            let mut m = "text is ".to_owned();
            let d = decimal_chars(n as u64);
            push_chars(&mut m, d.as_slice());
            m.push_str(" bytes once encoded, over the 65535-byte limit an NBT string can carry — split it into several pieces");
            return Err(EmitError { message: m, range: self.at });
        }
        let mut out: Vec<u8> = Vec::new();
        out.push((n / 256) as u8);
        out.push((n % 256) as u8);
        let ghost pre = seq![(n / 256) as u8, (n % 256) as u8];
        assert(out@ =~= pre);
        let mut i: usize = 0;
        while i < n
            invariant
                i <= n,
                n == b@.len(),
                out@ == pre + b@.subrange(0, i as int),
            decreases n - i,
        {
            out.push(b[i]);
            i = i + 1;
            assert(out@ =~= pre + b@.subrange(0, i as int));
        }
        assert(b@.subrange(0, n as int) =~= b@);
        assert(out@ =~= nbt_string(s@));
        self.push_bytes(out.as_slice());
        Ok(())
    }

    fn entry(&mut self, tag: u8, name: &str) -> (r: Result<(), EmitError>)
        requires
            segs_wf(old(self).segs@),
        ensures
            (r is Ok) == str_fits(name@),
            segs_wf(final(self).segs@),
            final(self).at == old(self).at,
            r is Ok ==> forall|vs: Seq<(&str, Value)>| #[trigger] nbt_fill_spec(final(self).segs@, vs)
                == ocat(nbt_fill_spec(old(self).segs@, vs), Some(header(tag, name@))),
    {
        let ghost s0 = self.segs@;
        self.u8(tag);
        let ghost s1 = self.segs@;
        let r = self.mutf8(name);
        proof {
            if r is Ok {
                lemma_then(s0, s1, self.segs@, |vs: Seq<(&str, Value)>| Some(seq![tag]),
                    |vs: Seq<(&str, Value)>| Some(nbt_string(name@)));
            }
        }
        r
    }

    fn string_entry(&mut self, name: &str, value: &str) -> (r: Result<(), EmitError>)
        requires
            segs_wf(old(self).segs@),
        ensures
            (r is Ok) == (str_fits(name@) && str_fits(value@)),
            segs_wf(final(self).segs@),
            final(self).at == old(self).at,
            r is Ok ==> forall|vs: Seq<(&str, Value)>| #[trigger] nbt_fill_spec(final(self).segs@, vs)
                == ocat(nbt_fill_spec(old(self).segs@, vs), Some(string_entry_bytes(name@, value@))),
    {
        let ghost s0 = self.segs@;
        match self.entry(TAG_STRING, name) {
            Ok(()) => {},
            Err(e) => {
                return Err(e);
            },
        }
        let ghost s1 = self.segs@;
        let r = self.mutf8(value);
        proof {
            if r is Ok {
                lemma_then(s0, s1, self.segs@, |vs: Seq<(&str, Value)>| Some(header(TAG_STRING, name@)),
                    |vs: Seq<(&str, Value)>| Some(nbt_string(value@)));
            }
        }
        r
    }

    /// A component hole spliced at `at`; a styled `{@const}` is wrapped so NBT's own style
    /// inheritance applies the tags to the spliced bytes.
    fn splice(&mut self, piece: &Piece, at: SplicePos) -> (r: Result<(), EmitError>)
        requires
            segs_wf(old(self).segs@),
            piece is Hole,
        ensures
            (r is Ok) == splice_fits(piece@, place_of(at)),
            segs_wf(final(self).segs@),
            r is Ok ==> forall|vs: Seq<(&str, Value)>| #[trigger] nbt_fill_spec(final(self).segs@, vs)
                == ocat(nbt_fill_spec(old(self).segs@, vs), written_splice(piece@, place_of(at), vs)),
        decreases piece, 1nat,
    {
        proof {
            lemma_names_fit();
        }
        let ghost s0 = self.segs@;
        let ghost place = place_of(at);
        let (arg, kind, style) = match piece {
            Piece::Hole { arg, kind, style, .. } => (arg, kind, style),
            _ => {
                return Ok(());
            },
        };
        match kind {
            HoleKind::ConstComponent => {},
            _ => {
                self.push_seg(NbtSeg::Component { arg: arg.copy(), style: Box::new(style.copy()), at });
                return Ok(());
            },
        }
        if style.is_empty() {
            self.push_seg(NbtSeg::ConstComponent { arg: arg.copy(), at });
            return Ok(());
        }
        let r = match &at {
            SplicePos::Root => {
                self.u8(TAG_COMPOUND);
                Ok(())
            },
            SplicePos::Elem => Ok(()),
            SplicePos::Entry(name) => self.entry(TAG_COMPOUND, name.as_str()),
        };
        if let Err(e) = r {
            return Err(e);
        }
        if let Err(e) = self.string_entry("text", "") {
            return Err(e);
        }
        if let Err(e) = self.style_entries(style) {
            return Err(e);
        }
        if let Err(e) = self.entry(TAG_LIST, "extra") {
            return Err(e);
        }
        self.u8(TAG_COMPOUND);
        self.int_be(1);
        self.push_seg(NbtSeg::ConstComponent { arg: arg.copy(), at: SplicePos::Elem });
        let ghost s1 = self.segs@;
        self.u8(0);
        assert forall|vs: Seq<(&str, Value)>| #[trigger] nbt_fill_spec(self.segs@, vs)
            == ocat(nbt_fill_spec(s0, vs), written_splice(piece@, place, vs)) by {
            assert(nbt_fill_spec(s1, vs) is None);
        }
        Ok(())
    }

    /// The payload of a bare piece: its text, or a string hole.
    fn bare_payload(&mut self, piece: &Piece) -> (r: Result<(), EmitError>)
        requires
            segs_wf(old(self).segs@),
        ensures
            (r is Ok) == bare_fits(piece@),
            segs_wf(final(self).segs@),
            r is Ok ==> forall|vs: Seq<(&str, Value)>| #[trigger] nbt_fill_spec(final(self).segs@, vs)
                == ocat(nbt_fill_spec(old(self).segs@, vs), written_bare(piece@, vs)),
    {
        self.at = Some(piece.range());
        match piece {
            Piece::Text { text, .. } => self.mutf8(text.as_str()),
            Piece::Hole { arg, spec, .. } => {
                let sp = match spec {
                    Some(x) => Some(x.clone()),
                    None => None,
                };
                self.push_seg(NbtSeg::Hole(arg.copy(), sp));
                Ok(())
            },
            _ => {
                proof {
                    lemma_same(self.segs@);
                }
                Ok(())
            },
        }
    }

    /// A string entry whose value may hold holes.
    fn str_value(&mut self, name: &str, segs: &Vec<StrSeg>) -> (r: Result<(), EmitError>)
        requires
            segs_wf(old(self).segs@),
        ensures
            (r is Ok) == (str_fits(name@) && lits_fit(segs@)),
            segs_wf(final(self).segs@),
            final(self).at == old(self).at,
            r is Ok ==> forall|vs: Seq<(&str, Value)>| #[trigger] nbt_fill_spec(final(self).segs@, vs)
                == ocat(nbt_fill_spec(old(self).segs@, vs), written_str_value(name@, segs@, vs)),
    {
        match StrSeg::join_lits(segs.as_slice()) {
            Some(value) => self.string_entry(name, value.as_str()),
            None => {
                let ghost s0 = self.segs@;
                if let Err(e) = self.entry(TAG_STRING, name) {
                    return Err(e);
                }
                let ghost s1 = self.segs@;
                let parts = copy_segs(segs);
                self.push_seg(NbtSeg::StrSplice(parts));
                proof {
                    lemma_then(s0, s1, self.segs@, |vs: Seq<(&str, Value)>| Some(header(TAG_STRING, name@)),
                        |vs: Seq<(&str, Value)>| joined_bytes(segs@, vs));
                }
                Ok(())
            },
        }
    }

    /// A full component: a lone component hole splices at the root.
    fn component(&mut self, pieces: &Vec<Piece>) -> (r: Result<(), EmitError>)
        requires
            segs_wf(old(self).segs@),
        ensures
            (r is Ok) == component_fits(view_pieces(pieces@)),
            segs_wf(final(self).segs@),
            r is Ok ==> forall|vs: Seq<(&str, Value)>| #[trigger] nbt_fill_spec(final(self).segs@, vs)
                == ocat(nbt_fill_spec(old(self).segs@, vs), written_component(view_pieces(pieces@), vs)),
    {
        proof {
            lemma_view_pieces_len(pieces@);
            if pieces@.len() > 0 {
                lemma_piece_style(pieces@[0]);
            }
        }
        let ghost s0 = self.segs@;
        if pieces.len() == 1 && is_component_hole(&pieces[0]) {
            return self.splice(&pieces[0], SplicePos::Root);
        }
        let t = component_tag_type(pieces);
        self.u8(t);
        let ghost s1 = self.segs@;
        let r = self.component_payload(pieces);
        proof {
            if r is Ok {
                lemma_then(s0, s1, self.segs@, |vs: Seq<(&str, Value)>| Some(seq![t]),
                    |vs: Seq<(&str, Value)>| written_payload(view_pieces(pieces@), vs));
            }
        }
        r
    }

    /// One piece of an `extra` list.
    fn list_elem(&mut self, piece: &Piece, all_bare: bool) -> (r: Result<(), EmitError>)
        requires
            segs_wf(old(self).segs@),
        ensures
            (r is Ok) == list_elem_fits(piece@, all_bare),
            segs_wf(final(self).segs@),
            r is Ok ==> forall|vs: Seq<(&str, Value)>| #[trigger] nbt_fill_spec(final(self).segs@, vs)
                == ocat(nbt_fill_spec(old(self).segs@, vs), written_list_elem(piece@, all_bare, vs)),
        decreases piece, 3nat,
    {
        proof {
            lemma_names_fit();
        }
        proof {
            lemma_piece_style(*piece);
        }
        let ghost s0 = self.segs@;
        if is_component_hole(piece) {
            self.splice(piece, SplicePos::Elem)
        } else if all_bare {
            self.bare_payload(piece)
        } else if piece.is_bare() {
            // vanilla's heterogeneous-list convention: a bare string is wrapped as {"": value}
            proof {
                reveal_strlit("");
            }
            match self.entry(TAG_STRING, "") {
                Ok(()) => {
                    let ghost s1 = self.segs@;
                    match self.bare_payload(piece) {
                        Ok(()) => {
                            let ghost s2 = self.segs@;
                            self.u8(0);
                            proof {
                                lemma_then(s0, s1, s2, |vs: Seq<(&str, Value)>| Some(header(TAG_STRING, Seq::empty())),
                                    |vs: Seq<(&str, Value)>| written_bare(piece@, vs));
                                lemma_then(s0, s2, self.segs@,
                                    |vs: Seq<(&str, Value)>| ocat(Some(header(TAG_STRING, Seq::empty())), written_bare(piece@, vs)),
                                    |vs: Seq<(&str, Value)>| Some(seq![0u8]));
                            }
                            Ok(())
                        },
                        Err(e) => Err(e),
                    }
                },
                Err(e) => Err(e),
            }
        } else {
            self.leaf_compound_payload(piece)
        }
    }

    /// The head of a template of several pieces: an empty text, then the `extra` list's
    /// header.
    fn payload_header(&mut self, n: usize, t: u8) -> (r: Result<(), EmitError>)
        requires
            segs_wf(old(self).segs@),
        ensures
            (r is Ok) == (n <= 0x7FFF_FFFF),
            segs_wf(final(self).segs@),
            r is Ok ==> forall|vs: Seq<(&str, Value)>| #[trigger] nbt_fill_spec(final(self).segs@, vs)
                == ocat(nbt_fill_spec(old(self).segs@, vs), Some(string_entry_bytes("text"@, Seq::empty())
                    + header(TAG_LIST, "extra"@) + seq![t] + be_i32(n as i32))),
    {
        proof {
            lemma_names_fit();
        }
        proof {
            reveal_strlit("");
        }
        let ghost s0 = self.segs@;
        if let Err(e) = self.string_entry("text", "") {
            return Err(e);
        }
        let ghost s1 = self.segs@;
        if let Err(e) = self.entry(TAG_LIST, "extra") {
            return Err(e);
        }
        let ghost s2 = self.segs@;
        self.u8(t);
        let ghost s3 = self.segs@;
        if n > 0x7FFF_FFFF {
            let mut m = String::new();
            let d = decimal_chars(n as u64);
            push_chars(&mut m, d.as_slice());
            m.push_str(" pieces in one component, more than the i32 an NBT list length is");
            return Err(EmitError { message: m, range: None });
        }
        self.int_be(n as i32);
        proof {
            lemma_then(s0, s1, s2, |vs: Seq<(&str, Value)>| Some(string_entry_bytes("text"@, Seq::empty())),
                |vs: Seq<(&str, Value)>| Some(header(TAG_LIST, "extra"@)));
            lemma_then(s0, s2, s3, |vs: Seq<(&str, Value)>| Some(string_entry_bytes("text"@, Seq::empty()) + header(TAG_LIST, "extra"@)),
                |vs: Seq<(&str, Value)>| Some(seq![t]));
            lemma_then(s0, s3, self.segs@,
                |vs: Seq<(&str, Value)>| Some(string_entry_bytes("text"@, Seq::empty()) + header(TAG_LIST, "extra"@) + seq![t]),
                |vs: Seq<(&str, Value)>| Some(be_i32(n as i32)));
        }
        Ok(())
    }

    /// The pieces of an `extra` list, in order.
    fn payload_elems(&mut self, pieces: &Vec<Piece>, all_bare: bool) -> (r: Result<(), EmitError>)
        requires
            segs_wf(old(self).segs@),
        ensures
            (r is Ok) == elems_fit(view_pieces(pieces@), all_bare),
            segs_wf(final(self).segs@),
            r is Ok ==> forall|vs: Seq<(&str, Value)>| #[trigger] nbt_fill_spec(final(self).segs@, vs)
                == ocat(nbt_fill_spec(old(self).segs@, vs), written_elems(view_pieces(pieces@), all_bare, vs)),
        decreases pieces, 1nat,
    {
        let ghost ps = view_pieces(pieces@);
        let ghost s0 = self.segs@;
        proof {
            lemma_view_pieces_len(pieces@);
            lemma_same(s0);
            assert(ps.subrange(0, 0) =~= Seq::<PieceV>::empty());
        }
        let mut i: usize = 0;
        while i < pieces.len()
            invariant
                i <= pieces@.len(),
                ps == view_pieces(pieces@),
                ps.len() == pieces@.len(),
                forall|k: int| 0 <= k < pieces@.len() ==> #[trigger] ps[k] == pieces@[k]@,
                segs_wf(self.segs@),
                forall|vs: Seq<(&str, Value)>| #[trigger] nbt_fill_spec(self.segs@, vs)
                    == ocat(nbt_fill_spec(s0, vs), written_elems(ps.subrange(0, i as int), all_bare, vs)),
                elems_fit(ps.subrange(0, i as int), all_bare),
            decreases pieces@.len() - i,
        {
            let ghost before = self.segs@;
            let r = self.list_elem(&pieces[i], all_bare);
            assert(ps.subrange(0, i + 1).drop_last() =~= ps.subrange(0, i as int));
            assert(ps.subrange(0, i + 1).last() == pieces@[i as int]@);
            if let Err(e) = r {
                proof {
                    if elems_fit(ps, all_bare) {
                        lemma_elems_fit_prefix(ps, all_bare, i + 1);
                    }
                }
                return Err(e);
            }
            proof {
                let cur = ps.subrange(0, i as int);
                assert(ps.subrange(0, i + 1).drop_last() =~= cur);
                assert(ps.subrange(0, i + 1).last() == pieces@[i as int]@);
                lemma_then(s0, before, self.segs@, |vs: Seq<(&str, Value)>| written_elems(cur, all_bare, vs),
                    |vs: Seq<(&str, Value)>| written_list_elem(pieces@[i as int]@, all_bare, vs));
            }
            i = i + 1;
        }
        assert(ps.subrange(0, pieces@.len() as int) =~= ps);
        Ok(())
    }

    fn component_payload(&mut self, pieces: &Vec<Piece>) -> (r: Result<(), EmitError>)
        requires
            segs_wf(old(self).segs@),
        ensures
            (r is Ok) == payload_fits(view_pieces(pieces@)),
            segs_wf(final(self).segs@),
            r is Ok ==> forall|vs: Seq<(&str, Value)>| #[trigger] nbt_fill_spec(final(self).segs@, vs)
                == ocat(nbt_fill_spec(old(self).segs@, vs), written_payload(view_pieces(pieces@), vs)),
        decreases pieces, 2nat,
    {
        let ghost ps = view_pieces(pieces@);
        proof {
            lemma_view_pieces_len(pieces@);
            reveal_strlit("");
        }
        // a present `extra` may not be empty, so an empty template is the empty string
        if pieces.len() == 0 {
            return self.mutf8("");
        }
        if pieces.len() == 1 {
            if pieces[0].is_bare() {
                return self.bare_payload(&pieces[0]);
            } else {
                return self.leaf_compound_payload(&pieces[0]);
            }
        }
        let ghost s0 = self.segs@;
        let all_bare = all_pieces_bare(pieces);
        let t: u8 = if all_bare { TAG_STRING } else { TAG_COMPOUND };
        if let Err(e) = self.payload_header(pieces.len(), t) {
            return Err(e);
        }
        let ghost s1 = self.segs@;
        if let Err(e) = self.payload_elems(pieces, all_bare) {
            return Err(e);
        }
        let ghost s2 = self.segs@;
        self.u8(0);
        proof {
            let hdr = string_entry_bytes("text"@, Seq::empty()) + header(TAG_LIST, "extra"@) + seq![t]
                + be_i32(pieces@.len() as i32);
            lemma_then(s0, s1, s2, |vs: Seq<(&str, Value)>| Some(hdr),
                |vs: Seq<(&str, Value)>| written_elems(ps, all_bare, vs));
            lemma_then(s0, s2, self.segs@, |vs: Seq<(&str, Value)>| ocat(Some(hdr), written_elems(ps, all_bare, vs)),
                |vs: Seq<(&str, Value)>| Some(seq![0u8]));
            assert forall|vs: Seq<(&str, Value)>| #[trigger] nbt_fill_spec(self.segs@, vs)
                == ocat(nbt_fill_spec(s0, vs), written_payload(ps, vs)) by {
                lemma_payload_shape(ps, vs);
            }
        }
        Ok(())
    }

    #[verifier::rlimit(40)]
    fn lang_content(&mut self, key: &LangKey, args: &Vec<Vec<Piece>>) -> (r: Result<(), EmitError>)
        requires
            segs_wf(old(self).segs@),
        ensures
            (r is Ok) == lang_fits(*key, view_piece_lists(args@)),
            segs_wf(final(self).segs@),
            r is Ok ==> forall|vs: Seq<(&str, Value)>| #[trigger] nbt_fill_spec(final(self).segs@, vs)
                == ocat(nbt_fill_spec(old(self).segs@, vs), written_lang(*key, view_piece_lists(args@), vs)),
        decreases args, 0nat,
    {
        proof {
            lemma_names_fit();
        }
        let ghost a = view_piece_lists(args@);
        proof {
            lemma_view_lists(args@);
        }
        let ghost s0 = self.segs@;
        if let Err(e) = self.entry(TAG_STRING, "translate") {
            return Err(e);
        }
        let ghost s1 = self.segs@;
        match key {
            LangKey::Lit(k) => {
                if let Err(e) = self.mutf8(k.as_str()) {
                    return Err(e);
                }
            },
            LangKey::Dyn(arg) => self.push_seg(NbtSeg::LangKey { arg: arg.copy(), arity: args.len() }),
        }
        let ghost s2 = self.segs@;
        let ghost kb = |vs: Seq<(&str, Value)>| match *key {
            LangKey::Lit(k) => Some(nbt_string(k@)),
            LangKey::Dyn(arg) => text_hole_bytes(arg, vs),
        };
        proof {
            lemma_then(s0, s1, s2, |vs: Seq<(&str, Value)>| Some(header(TAG_STRING, "translate"@)), kb);
        }
        if args.len() == 0 {
            return Ok(());
        }
        if let Err(e) = self.entry(TAG_LIST, "with") {
            return Err(e);
        }
        let ghost s3 = self.segs@;
        // an empty arg encodes as the empty string, so it keeps the list bare
        let all_bare = all_args_bare(args);
        let t: u8 = if all_bare { TAG_STRING } else { TAG_COMPOUND };
        self.u8(t);
        let ghost s4 = self.segs@;
        if args.len() > 0x7FFF_FFFF {
            let mut m = String::new();
            let d = decimal_chars(args.len() as u64);
            push_chars(&mut m, d.as_slice());
            m.push_str(" translation args, more than the i32 an NBT list length is");
            return Err(EmitError { message: m, range: None });
        }
        self.int_be(args.len() as i32);
        let ghost s5 = self.segs@;
        let ghost kf = |vs: Seq<(&str, Value)>| ocat(Some(header(TAG_STRING, "translate"@)), kb(vs));
        proof {
            lemma_then(s2, s3, s4, |vs: Seq<(&str, Value)>| Some(header(TAG_LIST, "with"@)),
                |vs: Seq<(&str, Value)>| Some(seq![t]));
            lemma_then(s2, s4, s5, |vs: Seq<(&str, Value)>| Some(header(TAG_LIST, "with"@) + seq![t]),
                |vs: Seq<(&str, Value)>| Some(be_i32(args@.len() as i32)));
            lemma_then(s0, s2, s5, kf,
                |vs: Seq<(&str, Value)>| Some(header(TAG_LIST, "with"@) + seq![t] + be_i32(args@.len() as i32)));
            assert(args_bare(a) == all_bare);
            lemma_same(s5);
            assert(a.subrange(0, 0) =~= Seq::<Seq<PieceV>>::empty());
        }
        let mut i: usize = 0;
        while i < args.len()
            invariant
                i <= args@.len(),
                a == view_piece_lists(args@),
                a.len() == args@.len(),
                forall|k: int| 0 <= k < args@.len() ==> #[trigger] a[k] == view_pieces(args@[k]@),
                segs_wf(self.segs@),
                forall|vs: Seq<(&str, Value)>| #[trigger] nbt_fill_spec(self.segs@, vs)
                    == ocat(nbt_fill_spec(s5, vs), written_args(a.subrange(0, i as int), all_bare, vs)),
                args_fit(a.subrange(0, i as int), all_bare),
                args_bare(a) == all_bare,
                (*key matches LangKey::Lit(k) ==> str_fits(k@)),
                args@.len() <= 0x7FFF_FFFF,
            decreases args@.len() - i,
        {
            let ghost before = self.segs@;
            let r = if all_bare { self.component_payload(&args[i]) } else { self.with_elem(&args[i]) };
            assert(a.subrange(0, i + 1).drop_last() =~= a.subrange(0, i as int));
            assert(a.subrange(0, i + 1).last() == view_pieces(args@[i as int]@));
            if let Err(e) = r {
                proof {
                    if args_fit(a, all_bare) {
                        lemma_args_fit_prefix(a, all_bare, i + 1);
                    }
                }
                return Err(e);
            }
            proof {
                let cur = a.subrange(0, i as int);
                assert(a.subrange(0, i + 1).drop_last() =~= cur);
                assert(a.subrange(0, i + 1).last() == view_pieces(args@[i as int]@));
                lemma_then(s5, before, self.segs@, |vs: Seq<(&str, Value)>| written_args(cur, all_bare, vs),
                    |vs: Seq<(&str, Value)>| if all_bare {
                        written_payload(view_pieces(args@[i as int]@), vs)
                    } else {
                        written_elem(view_pieces(args@[i as int]@), vs)
                    });
            }
            i = i + 1;
        }
        proof {
            assert(a.subrange(0, args@.len() as int) =~= a);
            let hdr = |vs: Seq<(&str, Value)>| ocat(kf(vs),
                Some(header(TAG_LIST, "with"@) + seq![t] + be_i32(args@.len() as i32)));
            lemma_then(s0, s5, self.segs@, hdr, |vs: Seq<(&str, Value)>| written_args(a, all_bare, vs));
        }
        Ok(())
    }

    fn with_elem(&mut self, pieces: &Vec<Piece>) -> (r: Result<(), EmitError>)
        requires
            segs_wf(old(self).segs@),
        ensures
            (r is Ok) == elem_fits(view_pieces(pieces@)),
            segs_wf(final(self).segs@),
            r is Ok ==> forall|vs: Seq<(&str, Value)>| #[trigger] nbt_fill_spec(final(self).segs@, vs)
                == ocat(nbt_fill_spec(old(self).segs@, vs), written_elem(view_pieces(pieces@), vs)),
        decreases pieces, 3nat,
    {
        proof {
            lemma_names_fit();
        }
        proof {
            lemma_view_pieces_len(pieces@);
            reveal_strlit("");
            if pieces@.len() > 0 {
                lemma_piece_style(pieces@[0]);
            }
        }
        let ghost s0 = self.segs@;
        if pieces.len() == 0 {
            if let Err(e) = self.entry(TAG_STRING, "") {
                return Err(e);
            }
            let ghost s1 = self.segs@;
            if let Err(e) = self.mutf8("") {
                return Err(e);
            }
            let ghost s2 = self.segs@;
            self.u8(0);
            proof {
                lemma_then(s0, s1, s2, |vs: Seq<(&str, Value)>| Some(header(TAG_STRING, Seq::empty())),
                    |vs: Seq<(&str, Value)>| Some(nbt_string(Seq::empty())));
                lemma_then(s0, s2, self.segs@, |vs: Seq<(&str, Value)>| Some(string_entry_bytes(Seq::empty(), Seq::empty())),
                    |vs: Seq<(&str, Value)>| Some(seq![0u8]));
            }
            Ok(())
        } else if pieces.len() == 1 && is_component_hole(&pieces[0]) {
            self.splice(&pieces[0], SplicePos::Elem)
        } else if pieces.len() == 1 && pieces[0].is_bare() {
            if let Err(e) = self.entry(TAG_STRING, "") {
                return Err(e);
            }
            let ghost s1 = self.segs@;
            if let Err(e) = self.bare_payload(&pieces[0]) {
                return Err(e);
            }
            let ghost s2 = self.segs@;
            self.u8(0);
            proof {
                lemma_then(s0, s1, s2, |vs: Seq<(&str, Value)>| Some(header(TAG_STRING, Seq::empty())),
                    |vs: Seq<(&str, Value)>| written_bare(pieces@[0]@, vs));
                lemma_then(s0, s2, self.segs@,
                    |vs: Seq<(&str, Value)>| ocat(Some(header(TAG_STRING, Seq::empty())), written_bare(pieces@[0]@, vs)),
                    |vs: Seq<(&str, Value)>| Some(seq![0u8]));
            }
            Ok(())
        } else if pieces.len() == 1 {
            self.leaf_compound_payload(&pieces[0])
        } else {
            self.component_payload(pieces)
        }
    }

    /// A piece's content entries.
    fn leaf_content_entries(&mut self, piece: &Piece) -> (r: Result<(), EmitError>)
        requires
            segs_wf(old(self).segs@),
        ensures
            (r is Ok) == leaf_content_fits(piece@),
            segs_wf(final(self).segs@),
            r is Ok ==> forall|vs: Seq<(&str, Value)>| #[trigger] nbt_fill_spec(final(self).segs@, vs)
                == ocat(nbt_fill_spec(old(self).segs@, vs), leaf_content(piece@, vs)),
        decreases piece, 1nat,
    {
        proof {
            lemma_names_fit();
        }
        let ghost s0 = self.segs@;
        match piece {
            Piece::Keybind { key, .. } => self.string_entry("keybind", key.as_str()),
            Piece::Lang { key, args, .. } => self.lang_content(key, args),
            _ => match self.entry(TAG_STRING, "text") {
                Ok(()) => {
                    let ghost s1 = self.segs@;
                    let r2 = self.bare_payload(piece);
                    proof {
                        if r2 is Ok {
                            lemma_then(s0, s1, self.segs@, |vs: Seq<(&str, Value)>| Some(header(TAG_STRING, "text"@)),
                                |vs: Seq<(&str, Value)>| written_bare(piece@, vs));
                        }
                    }
                    r2
                },
                Err(e) => Err(e),
            },
        }
    }

    /// A piece as a compound, in the codec's field order.
    fn leaf_compound_payload(&mut self, piece: &Piece) -> (r: Result<(), EmitError>)
        requires
            segs_wf(old(self).segs@),
        ensures
            (r is Ok) == leaf_fits(piece@),
            segs_wf(final(self).segs@),
            r is Ok ==> forall|vs: Seq<(&str, Value)>| #[trigger] nbt_fill_spec(final(self).segs@, vs)
                == ocat(nbt_fill_spec(old(self).segs@, vs), written_leaf(piece@, vs)),
        decreases piece, 2nat,
    {
        proof {
            lemma_piece_style(*piece);
        }
        let ghost s0 = self.segs@;
        self.at = Some(piece.range());
        if let Err(e) = self.leaf_content_entries(piece) {
            return Err(e);
        }
        let ghost s2 = self.segs@;
        if let Err(e) = self.style_entries(piece.style()) {
            return Err(e);
        }
        let ghost s3 = self.segs@;
        self.u8(0);
        proof {
            lemma_then(s0, s2, s3, |vs: Seq<(&str, Value)>| leaf_content(piece@, vs),
                |vs: Seq<(&str, Value)>| written_style(piece@.style(), vs));
            lemma_then(s0, s3, self.segs@,
                |vs: Seq<(&str, Value)>| ocat(leaf_content(piece@, vs), written_style(piece@.style(), vs)),
                |vs: Seq<(&str, Value)>| Some(seq![0u8]));
            assert forall|vs: Seq<(&str, Value)>| #[trigger] nbt_fill_spec(self.segs@, vs)
                == ocat(nbt_fill_spec(s0, vs), written_leaf(piece@, vs)) by {
                lemma_leaf_shape(piece@, vs);
            }
        }
        Ok(())
    }

    fn flag_entry(&mut self, name: &str, v: &Option<BoolIr>) -> (r: Result<(), EmitError>)
        requires
            segs_wf(old(self).segs@),
        ensures
            (r is Ok) == (v is None || str_fits(name@)),
            segs_wf(final(self).segs@),
            final(self).at == old(self).at,
            r is Ok ==> forall|vs: Seq<(&str, Value)>| #[trigger] nbt_fill_spec(final(self).segs@, vs)
                == ocat(nbt_fill_spec(old(self).segs@, vs), written_flag(name@, *v, vs)),
    {
        let ghost s0 = self.segs@;
        if let Some(v) = v {
            if let Err(e) = self.entry(TAG_BYTE, name) {
                return Err(e);
            }
            let ghost s1 = self.segs@;
            match v {
                BoolIr::Const(b) => {
                    let x: u8 = if *b { 1 } else { 0 };
                    self.u8(x);
                    proof {
                        lemma_then(s0, s1, self.segs@, |vs: Seq<(&str, Value)>| Some(header(TAG_BYTE, name@)),
                            |vs: Seq<(&str, Value)>| Some(seq![x]));
                    }
                },
                BoolIr::Dyn(arg) => {
                    self.push_seg(NbtSeg::BoolHole(arg.copy()));
                    proof {
                        lemma_then(s0, s1, self.segs@, |vs: Seq<(&str, Value)>| Some(header(TAG_BYTE, name@)),
                            |vs: Seq<(&str, Value)>| flag_hole_bytes(*arg, vs));
                    }
                },
            }
        } else {
            proof {
                lemma_same(s0);
            }
        }
        Ok(())
    }

    /// The color entry.
    #[verifier::rlimit(40)]
    fn color_entry(&mut self, color: &ColorIr) -> (r: Result<(), EmitError>)
        requires
            segs_wf(old(self).segs@),
        ensures
            (r is Ok) == (*color matches ColorIr::Named(n) ==> str_fits(n@)),
            segs_wf(final(self).segs@),
            final(self).at == old(self).at,
            r is Ok ==> forall|vs: Seq<(&str, Value)>| #[trigger] nbt_fill_spec(final(self).segs@, vs)
                == ocat(nbt_fill_spec(old(self).segs@, vs), written_color(Some(*color), vs)),
    {
        proof {
            lemma_names_fit();
        }
        let ghost s0 = self.segs@;
        match color {
            ColorIr::Named(n) => self.string_entry("color", n.as_str()),
            ColorIr::Rgb(r, g, b) => {
                let mut s = String::new();
                s.push('#');
                push_hex2(&mut s, *r);
                push_hex2(&mut s, *g);
                push_hex2(&mut s, *b);
                assert(s@ =~= seq!['#'] + hex2(*r) + hex2(*g) + hex2(*b));
                proof {
                    crate::parity::lemma_color_name_bytes(crate::format::Color::Rgb(*r, *g, *b));
                }
                self.string_entry("color", s.as_str())
            },
            ColorIr::Dyn(arg) => match self.entry(TAG_STRING, "color") {
                Ok(()) => {
                    let ghost s1 = self.segs@;
                    self.push_seg(NbtSeg::ColorHole(arg.copy()));
                    proof {
                        lemma_then(s0, s1, self.segs@, |vs: Seq<(&str, Value)>| Some(header(TAG_STRING, "color"@)),
                            |vs: Seq<(&str, Value)>| color_hole_bytes(*arg, vs));
                    }
                    Ok(())
                },
                Err(e) => Err(e),
            },
        }
    }

    /// The hover entry; the hover's own pieces move the error cursor, which is put back.
    fn hover_entry(&mut self, hover: &HoverIr) -> (r: Result<(), EmitError>)
        requires
            segs_wf(old(self).segs@),
        ensures
            (r is Ok) == hover_fits(hover@),
            segs_wf(final(self).segs@),
            r is Ok ==> final(self).at == old(self).at,
            r is Ok ==> forall|vs: Seq<(&str, Value)>| #[trigger] nbt_fill_spec(final(self).segs@, vs)
                == ocat(nbt_fill_spec(old(self).segs@, vs), written_hover(hover@, vs)),
        decreases hover, 0nat,
    {
        proof {
            lemma_names_fit();
        }
        let at = self.at;
        let ghost s0 = self.segs@;
        match hover {
            HoverIr::Dyn(arg) => {
                if let Err(e) = self.entry(TAG_COMPOUND, "hover_event") {
                    return Err(e);
                }
                let ghost s1 = self.segs@;
                self.push_seg(NbtSeg::EventHole { arg: arg.copy(), kind: EventKind::Hover });
                proof {
                    lemma_then(s0, s1, self.segs@, |vs: Seq<(&str, Value)>| Some(header(TAG_COMPOUND, "hover_event"@)),
                        |vs: Seq<(&str, Value)>| event_hole_bytes(*arg, EventKind::Hover, vs));
                }
                Ok(())
            },
            HoverIr::Text(pieces) => {
                let ghost ps = view_pieces(pieces@);
                proof {
                    lemma_view_pieces_len(pieces@);
                    if pieces@.len() > 0 {
                        lemma_piece_style(pieces@[0]);
                    }
                }
                if let Err(e) = self.entry(TAG_COMPOUND, "hover_event") {
                    return Err(e);
                }
                let ghost s1 = self.segs@;
                if let Err(e) = self.string_entry("action", "show_text") {
                    return Err(e);
                }
                let ghost s2 = self.segs@;
                proof {
                    lemma_then(s0, s1, s2, |vs: Seq<(&str, Value)>| Some(header(TAG_COMPOUND, "hover_event"@)),
                        |vs: Seq<(&str, Value)>| Some(string_entry_bytes("action"@, "show_text"@)));
                }
                // a spliced component decides its own tag type, so its entry header waits
                let r = if pieces.len() == 1 && is_component_hole(&pieces[0]) {
                    let value = "value".to_owned();
                    proof {
                        reveal_strlit("value");
                    }
                    assert(place_of(SplicePos::Entry(value)) == PlaceV::Entry("value"@));
                    self.splice(&pieces[0], SplicePos::Entry(value))
                } else {
                    let t = component_tag_type(pieces);
                    match self.entry(t, "value") {
                        Ok(()) => {
                            let ghost s3 = self.segs@;
                            let r2 = self.component_payload(pieces);
                            proof {
                                if r2 is Ok {
                                    lemma_then(s2, s3, self.segs@, |vs: Seq<(&str, Value)>| Some(header(t, "value"@)),
                                        |vs: Seq<(&str, Value)>| written_payload(ps, vs));
                                }
                            }
                            r2
                        },
                        Err(e) => Err(e),
                    }
                };
                if let Err(e) = r {
                    return Err(e);
                }
                let ghost s4 = self.segs@;
                self.u8(0);
                // the hover's own pieces moved the cursor off this piece
                self.at = at;
                proof {
                    let value = |vs: Seq<(&str, Value)>| if ps.len() == 1 && comp_hole(ps[0]) {
                        written_splice(ps[0], PlaceV::Entry("value"@), vs)
                    } else {
                        ocat(Some(header(tag_type_v(ps), "value"@)), written_payload(ps, vs))
                    };
                    assert forall|vs: Seq<(&str, Value)>| #[trigger] nbt_fill_spec(s4, vs) == ocat(nbt_fill_spec(s2, vs), value(vs)) by {
                    }
                    lemma_then(s0, s2, s4,
                        |vs: Seq<(&str, Value)>| Some(header(TAG_COMPOUND, "hover_event"@) + string_entry_bytes("action"@, "show_text"@)),
                        value);
                    lemma_then(s0, s4, self.segs@,
                        |vs: Seq<(&str, Value)>| ocat(Some(header(TAG_COMPOUND, "hover_event"@) + string_entry_bytes("action"@, "show_text"@)), value(vs)),
                        |vs: Seq<(&str, Value)>| Some(seq![0u8]));
                }
                Ok(())
            },
            _ => {
                proof {
                    lemma_same(s0);
                }
                Ok(())
            },
        }
    }

    /// The click entry.
    fn click_entry(&mut self, click: &ClickIr) -> (r: Result<(), EmitError>)
        requires
            segs_wf(old(self).segs@),
        ensures
            (r is Ok) == click_fits(click@),
            segs_wf(final(self).segs@),
            final(self).at == old(self).at,
            r is Ok ==> forall|vs: Seq<(&str, Value)>| #[trigger] nbt_fill_spec(final(self).segs@, vs)
                == ocat(nbt_fill_spec(old(self).segs@, vs), written_click(click@, vs)),
    {
        proof {
            lemma_names_fit();
        }
        let ghost s0 = self.segs@;
        match click {
            ClickIr::Dyn(arg) => {
                if let Err(e) = self.entry(TAG_COMPOUND, "click_event") {
                    return Err(e);
                }
                let ghost s1 = self.segs@;
                self.push_seg(NbtSeg::EventHole { arg: arg.copy(), kind: EventKind::Click });
                proof {
                    lemma_then(s0, s1, self.segs@, |vs: Seq<(&str, Value)>| Some(header(TAG_COMPOUND, "click_event"@)),
                        |vs: Seq<(&str, Value)>| event_hole_bytes(*arg, EventKind::Click, vs));
                }
                Ok(())
            },
            ClickIr::Action(kind, segs) => {
                if let Err(e) = self.entry(TAG_COMPOUND, "click_event") {
                    return Err(e);
                }
                let ghost s1 = self.segs@;
                let (action, field) = match kind {
                    ClickKind::OpenUrl => ("open_url", "url"),
                    ClickKind::RunCommand => ("run_command", "command"),
                    ClickKind::SuggestCommand => ("suggest_command", "command"),
                    ClickKind::CopyToClipboard => ("copy_to_clipboard", "value"),
                    ClickKind::ChangePage(_) => ("change_page", "page"),
                    ClickKind::ShowDialog => ("show_dialog", "dialog"),
                };
                assert((action@, field@) == click_names(*kind));
                if let Err(e) = self.string_entry("action", action) {
                    return Err(e);
                }
                let ghost s2 = self.segs@;
                let ghost vf = |vs: Seq<(&str, Value)>| match *kind {
                    ClickKind::ChangePage(page) => Some(header(TAG_INT, field@) + be_i32(page)),
                    _ => written_str_value(field@, segs@, vs),
                };
                let r = match kind {
                    ClickKind::ChangePage(page) => match self.entry(TAG_INT, field) {
                        Ok(()) => {
                            let ghost s3 = self.segs@;
                            self.int_be(*page);
                            proof {
                                lemma_then(s2, s3, self.segs@, |vs: Seq<(&str, Value)>| Some(header(TAG_INT, field@)),
                                    |vs: Seq<(&str, Value)>| Some(be_i32(*page)));
                            }
                            Ok(())
                        },
                        Err(e) => Err(e),
                    },
                    _ => self.str_value(field, segs),
                };
                if let Err(e) = r {
                    return Err(e);
                }
                let ghost s4 = self.segs@;
                self.u8(0);
                proof {
                    assert forall|vs: Seq<(&str, Value)>| #[trigger] nbt_fill_spec(s4, vs) == ocat(nbt_fill_spec(s2, vs), vf(vs)) by {
                    }
                    lemma_then(s0, s1, s2, |vs: Seq<(&str, Value)>| Some(header(TAG_COMPOUND, "click_event"@)),
                        |vs: Seq<(&str, Value)>| Some(string_entry_bytes("action"@, action@)));
                    lemma_then(s0, s2, s4,
                        |vs: Seq<(&str, Value)>| Some(header(TAG_COMPOUND, "click_event"@) + string_entry_bytes("action"@, action@)),
                        vf);
                    lemma_then(s0, s4, self.segs@,
                        |vs: Seq<(&str, Value)>| ocat(Some(header(TAG_COMPOUND, "click_event"@) + string_entry_bytes("action"@, action@)), vf(vs)),
                        |vs: Seq<(&str, Value)>| Some(seq![0u8]));
                }
                Ok(())
            },
        }
    }

    /// The styling entries of a compound, in the codec's field order.
    fn style_entries(&mut self, style: &Style) -> (r: Result<(), EmitError>)
        requires
            segs_wf(old(self).segs@),
        ensures
            (r is Ok) == style_fits(style@),
            segs_wf(final(self).segs@),
            r is Ok ==> forall|vs: Seq<(&str, Value)>| #[trigger] nbt_fill_spec(final(self).segs@, vs)
                == ocat(nbt_fill_spec(old(self).segs@, vs), written_style(style@, vs)),
        decreases style, 0nat,
    {
        proof {
            lemma_names_fit();
        }
        let ghost sv = style@;
        let ghost s0 = self.segs@;
        match &style.color {
            Some(color) => {
                if let Err(e) = self.color_entry(color) {
                    return Err(e);
                }
            },
            None => {
                proof {
                    lemma_same(s0);
                }
            },
        }
        let ghost s1 = self.segs@;
        match &style.font {
            Some(font) => {
                if let Err(e) = self.string_entry("font", font.as_str()) {
                    return Err(e);
                }
            },
            None => {
                proof {
                    lemma_same(s1);
                }
            },
        }
        let ghost s2 = self.segs@;
        proof {
            lemma_then(s0, s1, s2, |vs: Seq<(&str, Value)>| written_color(sv.color, vs),
                |vs: Seq<(&str, Value)>| written_font(sv.font));
        }
        if let Err(e) = self.flag_entry("bold", &style.bold) {
            return Err(e);
        }
        let ghost s3 = self.segs@;
        if let Err(e) = self.flag_entry("italic", &style.italic) {
            return Err(e);
        }
        let ghost s4 = self.segs@;
        proof {
            let a = |vs: Seq<(&str, Value)>| ocat(written_color(sv.color, vs), written_font(sv.font));
            lemma_then(s0, s2, s3, a, |vs: Seq<(&str, Value)>| written_flag("bold"@, sv.bold, vs));
            lemma_then(s0, s3, s4, |vs: Seq<(&str, Value)>| ocat(a(vs), written_flag("bold"@, sv.bold, vs)),
                |vs: Seq<(&str, Value)>| written_flag("italic"@, sv.italic, vs));
        }
        if let Err(e) = self.flag_entry("underlined", &style.underlined) {
            return Err(e);
        }
        let ghost s5 = self.segs@;
        if let Err(e) = self.flag_entry("strikethrough", &style.strikethrough) {
            return Err(e);
        }
        let ghost s6 = self.segs@;
        proof {
            let a = |vs: Seq<(&str, Value)>| ocat(written_color(sv.color, vs), written_font(sv.font));
            let b = |vs: Seq<(&str, Value)>| ocat(ocat(a(vs), written_flag("bold"@, sv.bold, vs)),
                written_flag("italic"@, sv.italic, vs));
            lemma_then(s0, s4, s5, b, |vs: Seq<(&str, Value)>| written_flag("underlined"@, sv.underlined, vs));
            lemma_then(s0, s5, s6, |vs: Seq<(&str, Value)>| ocat(b(vs), written_flag("underlined"@, sv.underlined, vs)),
                |vs: Seq<(&str, Value)>| written_flag("strikethrough"@, sv.strikethrough, vs));
        }
        if let Err(e) = self.flag_entry("obfuscated", &style.obfuscated) {
            return Err(e);
        }
        let ghost s7 = self.segs@;
        match style.shadow_color {
            Some(shadow) => {
                if let Err(e) = self.entry(TAG_INT, "shadow_color") {
                    return Err(e);
                }
                let ghost s7a = self.segs@;
                self.int_be(shadow);
                proof {
                    lemma_then(s7, s7a, self.segs@, |vs: Seq<(&str, Value)>| Some(header(TAG_INT, "shadow_color"@)),
                        |vs: Seq<(&str, Value)>| Some(be_i32(shadow)));
                }
            },
            None => {
                proof {
                    lemma_same(s7);
                }
            },
        }
        let ghost s8 = self.segs@;
        proof {
            let a = |vs: Seq<(&str, Value)>| ocat(written_color(sv.color, vs), written_font(sv.font));
            let b = |vs: Seq<(&str, Value)>| ocat(ocat(a(vs), written_flag("bold"@, sv.bold, vs)),
                written_flag("italic"@, sv.italic, vs));
            let c = |vs: Seq<(&str, Value)>| ocat(ocat(b(vs), written_flag("underlined"@, sv.underlined, vs)),
                written_flag("strikethrough"@, sv.strikethrough, vs));
            lemma_then(s0, s6, s7, c, |vs: Seq<(&str, Value)>| written_flag("obfuscated"@, sv.obfuscated, vs));
            lemma_then(s0, s7, s8, |vs: Seq<(&str, Value)>| ocat(c(vs), written_flag("obfuscated"@, sv.obfuscated, vs)),
                |vs: Seq<(&str, Value)>| written_shadow(sv.shadow_color));
            assert forall|vs: Seq<(&str, Value)>| #[trigger] nbt_fill_spec(s8, vs) == ocat(nbt_fill_spec(s0, vs), written_format(sv, vs)) by {
            }
        }
        match &style.insertion {
            Some(segs) => {
                if let Err(e) = self.str_value("insertion", segs) {
                    return Err(e);
                }
            },
            None => {
                proof {
                    lemma_same(s8);
                }
            },
        }
        let ghost s9 = self.segs@;
        match &style.hover {
            None => {
                proof {
                    lemma_same(s9);
                }
            },
            Some(h) => {
                if let Err(e) = self.hover_entry(h) {
                    return Err(e);
                }
            },
        }
        let ghost s10 = self.segs@;
        match &style.click {
            None => {
                proof {
                    lemma_same(s10);
                }
            },
            Some(c) => {
                if let Err(e) = self.click_entry(c) {
                    return Err(e);
                }
            },
        }
        proof {
            let f = |vs: Seq<(&str, Value)>| written_format(sv, vs);
            let ins = |vs: Seq<(&str, Value)>| written_insertion(sv.insertion, vs);
            let hov = |vs: Seq<(&str, Value)>| match sv.hover {
                Some(h) => written_hover(h, vs),
                None => Some(Seq::empty()),
            };
            let clk = |vs: Seq<(&str, Value)>| match sv.click {
                Some(c) => written_click(c, vs),
                None => Some(Seq::empty()),
            };
            lemma_then(s0, s8, s9, f, ins);
            lemma_then(s0, s9, s10, |vs: Seq<(&str, Value)>| ocat(f(vs), ins(vs)), hov);
            lemma_then(s0, s10, self.segs@, |vs: Seq<(&str, Value)>| ocat(ocat(f(vs), ins(vs)), hov(vs)), clk);
        }
        Ok(())
    }
}

/// `{@}` and `{@const …}` pieces: components spliced in rather than written.
pub open spec fn is_component_hole_spec(p: Piece) -> bool {
    p matches Piece::Hole { kind: HoleKind::Component, .. } || p matches Piece::Hole { kind: HoleKind::ConstComponent, .. }
}

fn is_component_hole(p: &Piece) -> (r: bool)
    ensures
        r == is_component_hole_spec(*p),
        r ==> *p is Hole,
{
    match p {
        Piece::Hole { kind: HoleKind::Component, .. } => true,
        Piece::Hole { kind: HoleKind::ConstComponent, .. } => true,
        _ => false,
    }
}

fn all_pieces_bare(pieces: &Vec<Piece>) -> (r: bool)
    ensures
        r == pieces_bare(view_pieces(pieces@)),
{
    proof {
        lemma_view_pieces_len(pieces@);
    }
    let ghost ps = view_pieces(pieces@);
    let mut i: usize = 0;
    while i < pieces.len()
        invariant
            i <= pieces@.len(),
            ps == view_pieces(pieces@),
            ps.len() == pieces@.len(),
            forall|k: int| 0 <= k < pieces@.len() ==> #[trigger] ps[k] == pieces@[k]@,
            forall|k: int| 0 <= k < i ==> (#[trigger] ps[k]).is_bare(),
        decreases pieces@.len() - i,
    {
        if !pieces[i].is_bare() {
            assert(!ps[i as int].is_bare());
            return false;
        }
        i = i + 1;
    }
    true
}

/// Whether every translation argument is empty or one bare piece.
fn all_args_bare(args: &Vec<Vec<Piece>>) -> (r: bool)
    ensures
        r == args_bare(view_piece_lists(args@)),
{
    proof {
        lemma_view_lists(args@);
    }
    let ghost al = view_piece_lists(args@);
    let mut i: usize = 0;
    while i < args.len()
        invariant
            i <= args@.len(),
            al == view_piece_lists(args@),
            al.len() == args@.len(),
            forall|k: int| 0 <= k < args@.len() ==> #[trigger] al[k] == view_pieces(args@[k]@),
            forall|k: int| 0 <= k < i ==> !((#[trigger] al[k]).len() > 1 || (al[k].len() == 1 && !al[k][0].is_bare())),
        decreases args@.len() - i,
    {
        proof {
            lemma_view_pieces_len(args@[i as int]@);
        }
        let a = &args[i];
        if a.len() > 1 || (a.len() == 1 && !a[0].is_bare()) {
            assert(al[i as int].len() > 1 || (al[i as int].len() == 1 && !al[i as int][0].is_bare()));
            return false;
        }
        i = i + 1;
    }
    true
}

/// The tag type of a component: a bare string when it is empty or one bare piece.
pub open spec fn component_tag_type_spec(pieces: Seq<Piece>) -> u8 {
    if pieces.len() == 0 || (pieces.len() == 1 && pieces[0]@.is_bare()) { TAG_STRING } else { TAG_COMPOUND }
}

/// The tag type of a component: a bare string when it is empty or one bare piece.
pub fn component_tag_type(pieces: &Vec<Piece>) -> (r: u8)
    ensures
        r == component_tag_type_spec(pieces@),
{
    if pieces.len() == 0 || (pieces.len() == 1 && pieces[0].is_bare()) { TAG_STRING } else { TAG_COMPOUND }
}

/// Emits a full component tag stream (`[type byte][payload]`) for a template.
pub fn emit(pieces: &Vec<Piece>) -> (r: Result<Vec<NbtSeg>, EmitError>)
    ensures
        r matches Ok(segs) ==> segs_wf(segs@),
        (r is Ok) == component_fits(view_pieces(pieces@)),
        r matches Ok(segs) ==> forall|vs: Seq<(&str, Value)>| #[trigger] nbt_fill_spec(segs@, vs)
            == written_component(view_pieces(pieces@), vs),
{
    let mut emitter = NbtEmitter { segs: Vec::new(), at: None };
    match emitter.component(pieces) {
        Ok(()) => {
            assert forall|vs: Seq<(&str, Value)>| #[trigger] nbt_fill_spec(emitter.segs@, vs)
                == written_component(view_pieces(pieces@), vs) by {
                lemma_ocat_empty(written_component(view_pieces(pieces@), vs));
            }
            Ok(emitter.segs)
        },
        Err(e) => Err(e),
    }
}


/// The bytes after the first.
pub fn tail_bytes(b: &[u8]) -> (r: Vec<u8>)
    requires
        b@.len() > 0,
    ensures
        r@ == b@.subrange(1, b@.len() as int),
{
    let mut v: Vec<u8> = Vec::new();
    let mut i: usize = 1;
    while i < b.len()
        invariant
            1 <= i <= b@.len(),
            v@ == b@.subrange(1, i as int),
        decreases b@.len() - i,
    {
        v.push(b[i]);
        i = i + 1;
        assert(v@ =~= b@.subrange(1, i as int));
    }
    v
}


/// Short ASCII text stays short: each of its chars takes one byte.
pub proof fn lemma_mutf8_len_ascii_bound(s: Seq<char>)
    requires
        forall|k: int| 0 <= k < s.len() ==> 0 < (#[trigger] s[k] as u32) < 0x80,
    ensures
        mutf8(s).len() == s.len(),
{
    lemma_mutf8_ascii(s);
}

} // verus!
