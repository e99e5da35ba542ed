//! Filling a template straight to bytes writes what filling it to a component and encoding
//! that component writes, wherever the list types the emitter fixed agree with the values.
use vstd::prelude::*;
use crate::chars::{digit_char, hex2, hex_upper};
use crate::format::{codec_name_spec, format_none, from_codec_name_spec, lemma_from_codec_name_inverse, Color};
use crate::grammar::emit::{be_i32, lemma_mutf8_ascii, mutf8};
use crate::grammar::inspect::{all_lits, lits_text};
use crate::grammar::ir::{
    BoolIr, ClickIrV, ClickKind, ColorIr, HoleKind, HoverIrV, LangKey, PieceV, StrSeg, StyleV, empty_style,
};
use crate::grammar::written::{
    args_bare, click_names, comp_hole, header, ocat, pieces_bare, string_entry_bytes, tag_type_v, written_args,
    written_bare, written_click, written_color, written_component, written_elem, written_elems, written_flag,
    written_font, written_format, written_hover, written_insertion, written_lang, written_leaf, written_list_elem,
    written_payload, written_shadow, written_splice, written_str_value, written_style,
};
use crate::minimessage::{
    args_ok, args_tags, click_ir_tag, color_spec, fill_tag, flag_after, flag_spec, format_after, hover_ir_tag,
    insertion_after, inter_entries_after, lang_entries, list_tags, lookup_spec, no_interactions, opt_text_entry,
    piece_ok, piece_tag, pieces_ok, placed_tag, emitted, lemma_fill_tag, nbt_fill_spec, pieces_fill, resolve_spec, sets_hover, style_ok, styled_tag, PlaceV, Value,
};
use crate::nbt::encode::{
    flag_tag, format_entries, lemma_entry_payloads_append, opt_click, opt_color, opt_entry, opt_flag, opt_hover,
    opt_shadow, opt_str, str_tag,
};
use crate::nbt::tag::{
    be, entries_ok, entry_payloads, homogeneous, lemma_entries_ok, lemma_list_ok, list_elem_id, list_ok,
    list_payloads, payload, payload_wrapped, root_bytes, tag_id, tag_ok, TagV, COMPOUND_ID, STRING_ID,
};
use crate::component::TextComponent;
use crate::grammar::emit::NbtSeg;
use crate::nbt::encode::component_tag;
use crate::nbt::writers::{ascii_bytes, encoded_elem, encoded_entry, nbt_string};

verus! {

// ---------------------------------------------------------------------------
// Where the emitter's fixed choices agree with the values.

/// A hover the emitter writes as filling builds it: a text hover whose template agrees, or
/// a run-time event.
pub open spec fn hover_agrees(h: HoverIrV, vs: Seq<(&str, Value)>) -> bool
    decreases h, 0nat,
{
    match h {
        HoverIrV::Text(ps) => pieces_agree(ps, vs),
        HoverIrV::Dyn(_) => true,
        _ => false,
    }
}

/// A style whose hover agrees.
pub open spec fn style_agrees(s: StyleV, vs: Seq<(&str, Value)>) -> bool
    decreases s, 0nat,
{
    match s.hover {
        Some(h) => hover_agrees(h, vs),
        None => true,
    }
}

/// A piece that agrees: a translation without a fallback whose arguments agree, and whose
/// argument list is a compound list whenever the emitter made it one; every style agrees.
pub open spec fn piece_agrees(p: PieceV, vs: Seq<(&str, Value)>) -> bool
    decreases p, 0nat,
{
    match p {
        PieceV::Lang { fallback, args, style, .. } => {
            &&& fallback is None
            &&& args_agree(args, vs)
            &&& (args.len() > 0 && !args_bare(args) ==> list_elem_id(args_tags(args, vs)) == COMPOUND_ID)
            &&& style_agrees(style, vs)
        },
        PieceV::Text { style, .. } => style_agrees(style, vs),
        PieceV::Keybind { style, .. } => style_agrees(style, vs),
        PieceV::Hole { style, .. } => style_agrees(style, vs),
        _ => true,
    }
}

/// Every piece agrees.
pub open spec fn each_agrees(ps: Seq<PieceV>, vs: Seq<(&str, Value)>) -> bool
    decreases ps, 0nat,
{
    ps.len() == 0 || (each_agrees(ps.drop_last(), vs) && piece_agrees(ps.last(), vs))
}

/// Every argument agrees.
pub open spec fn args_agree(a: Seq<Seq<PieceV>>, vs: Seq<(&str, Value)>) -> bool
    decreases a, 0nat,
{
    a.len() == 0 || (args_agree(a.drop_last(), vs) && pieces_agree(a.last(), vs))
}

/// A template that agrees: its pieces do, and when the emitter gave several pieces a
/// compound `extra` list, their tags make a compound list too.
pub open spec fn pieces_agree(ps: Seq<PieceV>, vs: Seq<(&str, Value)>) -> bool
    decreases ps, 1nat,
{
    &&& each_agrees(ps, vs)
    &&& (ps.len() >= 2 && !pieces_bare(ps) ==> list_elem_id(list_tags(ps, vs)) == COMPOUND_ID)
}

/// The entries a style adds to a fresh component.
pub open spec fn style_entries_of(s: StyleV, vs: Seq<(&str, Value)>) -> Seq<(Seq<char>, TagV)> {
    format_entries(format_after(format_none(), s, vs, false)) + inter_entries_after(s, no_interactions(), vs, false)
}

// ---------------------------------------------------------------------------
// Small facts.

proof fn lemma_entry_one(n: Seq<char>, t: TagV)
    ensures
        entry_payloads(seq![(n, t)]) == seq![tag_id(t)] + nbt_string(n) + payload(t),
{
    let e = Seq::<(Seq<char>, TagV)>::empty();
    assert(seq![(n, t)].drop_last() =~= e);
    assert(entry_payloads(e) == Seq::<u8>::empty());
    assert(seq![(n, t)].last() == (n, t));
    assert(entry_payloads(seq![(n, t)]) == entry_payloads(e) + seq![tag_id(t)] + nbt_string(n) + payload(t));
    assert(Seq::<u8>::empty() + seq![tag_id(t)] + nbt_string(n) + payload(t) =~= seq![tag_id(t)] + nbt_string(n) + payload(t));
}

proof fn lemma_entries_ok_append(a: Seq<(Seq<char>, TagV)>, b: Seq<(Seq<char>, TagV)>)
    ensures
        entries_ok(a + b) == (entries_ok(a) && entries_ok(b)),
    decreases b.len(),
{
    if b.len() == 0 {
        assert(a + b =~= a);
    } else {
        lemma_entries_ok_append(a, b.drop_last());
        assert((a + b).drop_last() =~= a + b.drop_last());
        assert((a + b).last() == b.last());
    }
}

proof fn lemma_entry_ok_one(n: Seq<char>, t: TagV)
    ensures
        entries_ok(seq![(n, t)]) == (mutf8(n).len() <= 0xFFFF && tag_ok(t)),
{
    let e = Seq::<(Seq<char>, TagV)>::empty();
    assert(seq![(n, t)].drop_last() =~= e);
    assert(entries_ok(e));
    assert(seq![(n, t)].last() == (n, t));
}

/// The bytes of an `i32` the emitter writes are the codec's big-endian bytes.
proof fn lemma_be_i32(v: i32)
    ensures
        be_i32(v) == be((v as u32) as nat, 4),
{
    let u = v as u32;
    reveal_with_fuel(be, 5);
    let x = u as nat;
    assert((u >> 24u32) as u8 == (u / 0x100_0000u32) as u8) by (bit_vector);
    assert((u >> 16u32) as u8 == ((u / 0x1_0000u32) % 256u32) as u8) by (bit_vector);
    assert((u >> 8u32) as u8 == ((u / 256u32) % 256u32) as u8) by (bit_vector);
    assert(u as u8 == (u % 256u32) as u8) by (bit_vector);
    assert(x / 256 / 256 == x / 0x1_0000);
    assert(x / 256 / 256 / 256 == x / 0x100_0000);
    assert(x / 0x100_0000 < 256);
    assert(be_i32(v) =~= be(x, 4));
}

/// An i32 list length the emitter writes is the codec's.
proof fn lemma_be_len(n: nat)
    requires
        n <= 0x7FFF_FFFF,
    ensures
        be_i32(n as i32) == be(n, 4),
{
    lemma_be_i32(n as i32);
    assert(((n as i32) as u32) as nat == n);
}

/// A color's codec name, as the fill writes it, is its NBT string.
pub proof fn lemma_color_name_bytes(c: Color)
    ensures
        seq![0u8, codec_name_spec(c).len() as u8] + ascii_bytes(codec_name_spec(c)) == nbt_string(codec_name_spec(c)),
        mutf8(codec_name_spec(c)).len() <= 0xFFFF,
{
    reveal_strlit("black");
    reveal_strlit("dark_blue");
    reveal_strlit("dark_green");
    reveal_strlit("dark_aqua");
    reveal_strlit("dark_red");
    reveal_strlit("dark_purple");
    reveal_strlit("gold");
    reveal_strlit("gray");
    reveal_strlit("dark_gray");
    reveal_strlit("blue");
    reveal_strlit("green");
    reveal_strlit("aqua");
    reveal_strlit("red");
    reveal_strlit("light_purple");
    reveal_strlit("yellow");
    reveal_strlit("white");
    let s = codec_name_spec(c);
    assert forall|k: int| 0 <= k < s.len() implies 0 < (#[trigger] s[k] as u32) < 0x80 by {
        if let Color::Rgb(r, g, b) = c {
            assert(s =~= seq!['#', hex_upper(r as int / 16), hex_upper(r as int % 16), hex_upper(g as int / 16),
                hex_upper(g as int % 16), hex_upper(b as int / 16), hex_upper(b as int % 16)]);
        }
    }
    lemma_mutf8_ascii(s);
    assert(s.len() <= 12);
    assert(ascii_bytes(s) =~= s.map_values(|c: char| (c as u32) as u8));
    assert(seq![0u8, s.len() as u8] + ascii_bytes(s) =~= nbt_string(s));
}

proof fn lemma_resolve_lits(segs: Seq<StrSeg>, vs: Seq<(&str, Value)>)
    requires
        all_lits(segs),
    ensures
        resolve_spec(segs, vs) == Some(lits_text(segs)),
    decreases segs.len(),
{
    if segs.len() > 0 {
        assert forall|i: int| 0 <= i < segs.drop_last().len() implies (#[trigger] segs.drop_last()[i]) is Lit by {
            assert(segs.drop_last()[i] == segs[i]);
        }
        lemma_resolve_lits(segs.drop_last(), vs);
        assert(segs.last() is Lit);
    }
}

/// A string entry whose value may hold holes writes the text its segments resolve to.
proof fn lemma_str_value(name: Seq<char>, segs: Seq<StrSeg>, vs: Seq<(&str, Value)>)
    requires
        resolve_spec(segs, vs) is Some,
        mutf8(resolve_spec(segs, vs).unwrap()).len() <= 0xFFFF,
    ensures
        written_str_value(name, segs, vs) == Some(header(STRING_ID, name) + nbt_string(resolve_spec(segs, vs).unwrap())),
{
    if all_lits(segs) {
        lemma_resolve_lits(segs, vs);
    }
}

/// The color part of a style.
proof fn lemma_color_part(s: StyleV, vs: Seq<(&str, Value)>)
    requires
        s.color matches Some(c) ==> color_spec(c, vs) is Some,
    ensures
        written_color(s.color, vs) == Some(entry_payloads(opt_color(format_after(format_none(), s, vs, false).color))),
{
    let fa = format_after(format_none(), s, vs, false);
    match s.color {
        Some(c) => {
            let col = color_spec(c, vs).unwrap();
            lemma_entry_one("color"@, str_tag(codec_name_spec(col)));
            match c {
                ColorIr::Named(n) => {
                    lemma_from_codec_name_inverse(n@);
                },
                ColorIr::Rgb(r, g, b) => {},
                ColorIr::Dyn(arg) => {
                    lemma_color_name_bytes(col);
                    assert(header(STRING_ID, "color"@) + (seq![0u8, codec_name_spec(col).len() as u8] + ascii_bytes(codec_name_spec(col)))
                        =~= seq![STRING_ID] + nbt_string("color"@) + nbt_string(codec_name_spec(col)));
                },
            }
        },
        None => {
            assert(entry_payloads(Seq::<(Seq<char>, TagV)>::empty()) == Seq::<u8>::empty());
        },
    }
}

/// A flag of a style.
proof fn lemma_flag_part(name: Seq<char>, b: Option<BoolIr>, vs: Seq<(&str, Value)>)
    requires
        b matches Some(x) ==> flag_spec(x, vs) is Some,
    ensures
        written_flag(name, b, vs) == Some(entry_payloads(opt_flag(name, flag_after(None, b, vs, false)))),
{
    match b {
        Some(x) => {
            let v = flag_spec(x, vs).unwrap();
            lemma_entry_one(name, flag_tag(v));
            assert(payload(flag_tag(v)) =~= seq![if v { 1u8 } else { 0u8 }]);
        },
        None => {
            assert(entry_payloads(Seq::<(Seq<char>, TagV)>::empty()) == Seq::<u8>::empty());
        },
    }
}

proof fn lemma_ep2(a: Seq<(Seq<char>, TagV)>, b: Seq<(Seq<char>, TagV)>, x: Option<Seq<u8>>, y: Option<Seq<u8>>)
    requires
        x == Some(entry_payloads(a)),
        y == Some(entry_payloads(b)),
    ensures
        ocat(x, y) == Some(entry_payloads(a + b)),
{
    lemma_entry_payloads_append(a, b);
}

/// The format part of a style: color, font, the five flags, the shadow.
proof fn lemma_format(s: StyleV, vs: Seq<(&str, Value)>)
    requires
        style_ok(s, vs),
    ensures
        written_format(s, vs) == Some(entry_payloads(format_entries(format_after(format_none(), s, vs, false)))),
{
    let f = format_after(format_none(), s, vs, false);
    lemma_color_part(s, vs);
    match s.font {
        Some(x) => lemma_entry_one("font"@, str_tag(x@)),
        None => assert(entry_payloads(Seq::<(Seq<char>, TagV)>::empty()) == Seq::<u8>::empty()),
    }
    lemma_flag_part("bold"@, s.bold, vs);
    lemma_flag_part("italic"@, s.italic, vs);
    lemma_flag_part("underlined"@, s.underlined, vs);
    lemma_flag_part("strikethrough"@, s.strikethrough, vs);
    lemma_flag_part("obfuscated"@, s.obfuscated, vs);
    match s.shadow_color {
        Some(v) => {
            lemma_entry_one("shadow_color"@, TagV::Int(v));
            lemma_be_i32(v);
        },
        None => assert(entry_payloads(Seq::<(Seq<char>, TagV)>::empty()) == Seq::<u8>::empty()),
    }
    let e1 = opt_color(f.color);
    let e2 = opt_str("font"@, f.font);
    let e3 = opt_flag("bold"@, f.bold);
    let e4 = opt_flag("italic"@, f.italic);
    let e5 = opt_flag("underlined"@, f.underlined);
    let e6 = opt_flag("strikethrough"@, f.strikethrough);
    let e7 = opt_flag("obfuscated"@, f.obfuscated);
    let e8 = opt_shadow(f.shadow_color);
    let a = ocat(written_color(s.color, vs), written_font(s.font));
    lemma_ep2(e1, e2, written_color(s.color, vs), written_font(s.font));
    lemma_ep2(e1 + e2, e3, a, written_flag("bold"@, s.bold, vs));
    let a3 = ocat(a, written_flag("bold"@, s.bold, vs));
    lemma_ep2(e1 + e2 + e3, e4, a3, written_flag("italic"@, s.italic, vs));
    let b = ocat(a3, written_flag("italic"@, s.italic, vs));
    lemma_ep2(e1 + e2 + e3 + e4, e5, b, written_flag("underlined"@, s.underlined, vs));
    let b5 = ocat(b, written_flag("underlined"@, s.underlined, vs));
    lemma_ep2(e1 + e2 + e3 + e4 + e5, e6, b5, written_flag("strikethrough"@, s.strikethrough, vs));
    let c = ocat(b5, written_flag("strikethrough"@, s.strikethrough, vs));
    lemma_ep2(e1 + e2 + e3 + e4 + e5 + e6, e7, c, written_flag("obfuscated"@, s.obfuscated, vs));
    let c7 = ocat(c, written_flag("obfuscated"@, s.obfuscated, vs));
    lemma_ep2(e1 + e2 + e3 + e4 + e5 + e6 + e7, e8, c7, written_shadow(s.shadow_color));
}

/// The text a translation key fills to.
pub open spec fn key_text(key: LangKey, vs: Seq<(&str, Value)>) -> Seq<char> {
    match key {
        LangKey::Lit(k) => k@,
        LangKey::Dyn(arg) => match lookup_spec(vs, arg) {
            Some(Value::Text(t)) => t@,
            _ => Seq::empty(),
        },
    }
}

/// The argument tags of a translation, none when it has no arguments.
pub open spec fn key_args(args: Seq<Seq<PieceV>>, vs: Seq<(&str, Value)>) -> Option<Seq<TagV>> {
    if args.len() == 0 { None } else { Some(args_tags(args, vs)) }
}

proof fn lemma_seq2<A>(a: A, b: A)
    ensures
        seq![a, b] == seq![a] + seq![b],
{
    assert(seq![a, b] =~= seq![a] + seq![b]);
}

proof fn lemma_empty_string()
    ensures
        nbt_string(Seq::empty()) == seq![0u8, 0u8],
        mutf8(Seq::empty()).len() == 0,
{
    assert(mutf8(Seq::empty()) == Seq::<u8>::empty());
    assert(nbt_string(Seq::empty()) =~= seq![0u8, 0u8]);
}

proof fn lemma_ascii_name(s: Seq<char>)
    requires
        forall|k: int| 0 <= k < s.len() ==> 0 < (#[trigger] s[k] as u32) < 0x80,
        s.len() <= 0xFFFF,
    ensures
        mutf8(s).len() <= 0xFFFF,
{
    crate::grammar::emit::lemma_mutf8_len_ascii_bound(s);
}

/// A styled tag is a string or a compound.
proof fn lemma_styled_kind(t: TagV)
    requires
        t is String || t is Compound,
    ensures
        encoded_elem(root_bytes(t)) == payload_wrapped(t),
{
    let r = root_bytes(t);
    assert(r[0] == tag_id(t));
    assert(r.subrange(1, r.len() as int) =~= payload(t));
    if t is String {
        lemma_empty_string();
        assert(encoded_elem(r) =~= payload_wrapped(t));
    }
}

/// A component hole splices its styled value at its place.
proof fn lemma_splice(p: PieceV, at: PlaceV, vs: Seq<(&str, Value)>)
    requires
        piece_ok(p, vs),
        comp_hole(p),
    ensures
        written_splice(p, at, vs) == placed_tag(piece_tag(p, vs), at),
        piece_tag(p, vs) is String || piece_tag(p, vs) is Compound,
{
}

/// With an empty format and no events to start from, keeping unset fields is replacing them.
proof fn lemma_keep(s: StyleV, vs: Seq<(&str, Value)>)
    ensures
        format_after(format_none(), s, vs, true) == format_after(format_none(), s, vs, false),
        inter_entries_after(s, no_interactions(), vs, true) == inter_entries_after(s, no_interactions(), vs, false),
{
}

/// A style that sets anything leaves a compound.
proof fn lemma_nonempty(s: StyleV, vs: Seq<(&str, Value)>)
    requires
        s != empty_style(),
        style_ok(s, vs),
        style_agrees(s, vs),
    ensures
        !(format_after(format_none(), s, vs, false) == format_none() && crate::minimessage::no_events_after(s, no_interactions())),
{
    if s.hover is Some {
        assert(sets_hover(s.hover));
    }
}

/// A bare piece fills to a string, which its payload writes.
proof fn lemma_bare(p: PieceV, vs: Seq<(&str, Value)>)
    requires
        p.is_bare(),
        piece_ok(p, vs),
        tag_ok(piece_tag(p, vs)),
    ensures
        piece_tag(p, vs) is String,
        written_bare(p, vs) == Some(payload(piece_tag(p, vs))),
{
    assert(format_after(format_none(), empty_style(), vs, false) == format_none());
    assert(format_after(format_none(), empty_style(), vs, true) == format_none());
}

proof fn lemma_insertion(s: StyleV, vs: Seq<(&str, Value)>)
    requires
        style_ok(s, vs),
        entries_ok(opt_text_entry("insertion"@, crate::minimessage::insertion_after(s, no_interactions(), vs, false))),
    ensures
        written_insertion(s.insertion, vs) == Some(entry_payloads(opt_text_entry("insertion"@,
            crate::minimessage::insertion_after(s, no_interactions(), vs, false)))),
{
    match s.insertion {
        Some(segs) => {
            let t = resolve_spec(segs, vs).unwrap();
            lemma_entry_ok_one("insertion"@, str_tag(t));
            lemma_str_value("insertion"@, segs, vs);
            lemma_entry_one("insertion"@, str_tag(t));
        },
        None => {
            assert(entry_payloads(Seq::<(Seq<char>, TagV)>::empty()) == Seq::<u8>::empty());
        },
    }
}

proof fn lemma_click(c: ClickIrV, vs: Seq<(&str, Value)>)
    requires
        c matches ClickIrV::Dyn(arg) ==> lookup_spec(vs, arg) matches Some(Value::Click(_)),
        c matches ClickIrV::Action(_, segs) ==> resolve_spec(segs, vs) is Some,
        entries_ok(seq![("click_event"@, click_ir_tag(c, vs))]),
    ensures
        written_click(c, vs) == Some(entry_payloads(seq![("click_event"@, click_ir_tag(c, vs))])),
{
    let t = click_ir_tag(c, vs);
    lemma_entry_ok_one("click_event"@, t);
    lemma_entry_one("click_event"@, t);
    match c {
        ClickIrV::Dyn(arg) => {},
        ClickIrV::Action(kind, segs) => {
            let (action, field) = click_names(kind);
            if let TagV::Compound(es) = t {
                lemma_entries_ok(es, 1);
                let v = es[1].1;
                lemma_seq2(es[0], es[1]);
                lemma_entry_payloads_append(seq![es[0]], seq![es[1]]);
                lemma_entry_one(es[0].0, es[0].1);
                lemma_entry_one(es[1].0, v);
                let vb = match kind {
                    ClickKind::ChangePage(page) => Some(header(crate::nbt::tag::INT_ID, field) + be_i32(page)),
                    _ => written_str_value(field, segs, vs),
                };
                match kind {
                    ClickKind::ChangePage(page) => {
                        lemma_be_i32(page);
                    },
                    _ => {
                        lemma_str_value(field, segs, vs);
                    },
                }
                assert(vb == Some(seq![tag_id(v)] + nbt_string(es[1].0) + payload(v)));
                assert(header(COMPOUND_ID, "click_event"@) + string_entry_bytes("action"@, action) + vb.unwrap() + seq![0u8]
                    =~= seq![tag_id(t)] + nbt_string("click_event"@) + payload(t));
            }
        },
    }
}

proof fn lemma_payloads_compound(v: Seq<TagV>)
    requires
        forall|k: int| 0 <= k < v.len() ==> #[trigger] v[k] is Compound,
    ensures
        list_payloads(v, false) == list_payloads(v, true),
    decreases v.len(),
{
    if v.len() > 0 {
        assert forall|k: int| 0 <= k < v.drop_last().len() implies #[trigger] v.drop_last()[k] is Compound by {
            assert(v.drop_last()[k] == v[k]);
        }
        lemma_payloads_compound(v.drop_last());
        assert(v[v.len() - 1] is Compound);
        assert(payload_wrapped(v.last()) == payload(v.last()));
    }
}

/// The list header the emitter fixed is the one the codec picks for these tags.
proof fn lemma_list_shape(v: Seq<TagV>, bare: bool)
    requires
        v.len() > 0,
        forall|k: int| 0 <= k < v.len() ==> (#[trigger] v[k] is String || v[k] is Compound),
        bare ==> forall|k: int| 0 <= k < v.len() ==> #[trigger] v[k] is String,
        !bare ==> list_elem_id(v) == COMPOUND_ID,
    ensures
        list_elem_id(v) == if bare { STRING_ID } else { COMPOUND_ID },
        list_payloads(v, v.len() > 0 && !homogeneous(v)) == list_payloads(v, !bare),
{
    if bare {
        assert(homogeneous(v));
    } else if homogeneous(v) {
        assert(tag_id(v[0]) == COMPOUND_ID);
        assert forall|k: int| 0 <= k < v.len() implies #[trigger] v[k] is Compound by {
            assert(tag_id(v[k]) == tag_id(v[0]));
        }
        lemma_payloads_compound(v);
    }
}

proof fn lemma_list_tags_len(ps: Seq<PieceV>, vs: Seq<(&str, Value)>)
    ensures
        list_tags(ps, vs).len() == ps.len(),
    decreases ps.len(),
{
    if ps.len() > 0 {
        lemma_list_tags_len(ps.drop_last(), vs);
    }
}

proof fn lemma_args_tags_len(a: Seq<Seq<PieceV>>, vs: Seq<(&str, Value)>)
    ensures
        args_tags(a, vs).len() == a.len(),
    decreases a.len(),
{
    if a.len() > 0 {
        lemma_args_tags_len(a.drop_last(), vs);
    }
}

proof fn lemma_push_list(v: Seq<TagV>, x: TagV, w: bool)
    ensures
        v.push(x).drop_last() == v,
        list_payloads(v.push(x), w) == list_payloads(v, w) + if w { payload_wrapped(x) } else { payload(x) },
        list_ok(v.push(x)) == (list_ok(v) && tag_ok(x)),
{
    assert(v.push(x).drop_last() =~= v);
}

// ---------------------------------------------------------------------------
// The pieces, styles and lists a template writes.

proof fn lemma_hover(h: HoverIrV, vs: Seq<(&str, Value)>)
    requires
        hover_agrees(h, vs),
        h matches HoverIrV::Dyn(arg) ==> lookup_spec(vs, arg) matches Some(Value::Hover(_)),
        h matches HoverIrV::Text(ps) ==> pieces_ok(ps, vs),
        entries_ok(seq![("hover_event"@, hover_ir_tag(h, vs))]),
    ensures
        written_hover(h, vs) == Some(entry_payloads(seq![("hover_event"@, hover_ir_tag(h, vs))])),
    decreases h, 0nat,
{
    let t = hover_ir_tag(h, vs);
    lemma_entry_ok_one("hover_event"@, t);
    lemma_entry_one("hover_event"@, t);
    match h {
        HoverIrV::Dyn(arg) => {},
        HoverIrV::Text(ps) => {
            let ft = fill_tag(ps, vs);
            lemma_entries_ok(seq![("action"@, str_tag("show_text"@)), ("value"@, ft)], 1);
            lemma_value(ps, vs);
            let vb = if ps.len() == 1 && comp_hole(ps[0]) {
                written_splice(ps[0], PlaceV::Entry("value"@), vs)
            } else {
                ocat(Some(header(tag_type_v(ps), "value"@)), written_payload(ps, vs))
            };
            lemma_hover_text_bytes(ft, vb);
        },
        _ => {},
    }
}

proof fn lemma_hover_text_bytes(ft: TagV, vb: Option<Seq<u8>>)
    requires
        vb == Some(seq![tag_id(ft)] + nbt_string("value"@) + payload(ft)),
    ensures
        ocat(ocat(Some(header(COMPOUND_ID, "hover_event"@) + string_entry_bytes("action"@, "show_text"@)), vb), Some(seq![0u8]))
            == Some(entry_payloads(seq![("hover_event"@, TagV::Compound(seq![("action"@, str_tag("show_text"@)), ("value"@, ft)]))])),
{
    let t = TagV::Compound(seq![("action"@, str_tag("show_text"@)), ("value"@, ft)]);
    let e0 = ("action"@, str_tag("show_text"@));
    let e1 = ("value"@, ft);
    lemma_entry_one("hover_event"@, t);
    lemma_seq2(e0, e1);
    lemma_entry_payloads_append(seq![e0], seq![e1]);
    lemma_entry_one(e0.0, e0.1);
    lemma_entry_one(e1.0, e1.1);
    assert(header(COMPOUND_ID, "hover_event"@) + string_entry_bytes("action"@, "show_text"@) + vb.unwrap() + seq![0u8]
        =~= seq![tag_id(t)] + nbt_string("hover_event"@) + payload(t));
}

/// A hover's template as the value of its `value` entry.
proof fn lemma_value(ps: Seq<PieceV>, vs: Seq<(&str, Value)>)
    requires
        pieces_ok(ps, vs),
        pieces_agree(ps, vs),
        tag_ok(fill_tag(ps, vs)),
    ensures
        (if ps.len() == 1 && comp_hole(ps[0]) {
            written_splice(ps[0], PlaceV::Entry("value"@), vs)
        } else {
            ocat(Some(header(tag_type_v(ps), "value"@)), written_payload(ps, vs))
        }) == Some(seq![tag_id(fill_tag(ps, vs))] + nbt_string("value"@) + payload(fill_tag(ps, vs))),
    decreases ps, 3nat,
{
    if ps.len() == 1 && comp_hole(ps[0]) {
        assert(piece_ok(ps[0], vs));
        lemma_splice(ps[0], PlaceV::Entry("value"@), vs);
        lemma_placed_value(fill_tag(ps, vs));
    } else {
        lemma_payload(ps, vs);
    }
}

proof fn lemma_placed_value(t: TagV)
    requires
        tag_ok(t),
    ensures
        placed_tag(t, PlaceV::Entry("value"@)) == Some(seq![tag_id(t)] + nbt_string("value"@) + payload(t)),
{
    reveal_strlit("value");
    lemma_ascii_name("value"@);
    let r = root_bytes(t);
    assert(r.subrange(1, r.len() as int) =~= payload(t));
    assert(encoded_entry("value"@, r) =~= seq![tag_id(t)] + nbt_string("value"@) + payload(t));
}

proof fn lemma_style(s: StyleV, vs: Seq<(&str, Value)>)
    requires
        style_ok(s, vs),
        style_agrees(s, vs),
        entries_ok(style_entries_of(s, vs)),
    ensures
        written_style(s, vs) == Some(entry_payloads(style_entries_of(s, vs))),
    decreases s, 0nat,
{
    let fe = format_entries(format_after(format_none(), s, vs, false));
    let ins = opt_text_entry("insertion"@, crate::minimessage::insertion_after(s, no_interactions(), vs, false));
    let hov = if sets_hover(s.hover) {
        seq![("hover_event"@, hover_ir_tag(s.hover.unwrap(), vs))]
    } else {
        opt_hover(None)
    };
    let clk = match s.click {
        Some(c) => seq![("click_event"@, click_ir_tag(c, vs))],
        None => opt_click(None),
    };
    assert(inter_entries_after(s, no_interactions(), vs, false) == ins + hov + clk);
    assert(style_entries_of(s, vs) =~= fe + ins + hov + clk);
    lemma_entries_ok_append(fe + ins + hov, clk);
    lemma_entries_ok_append(fe + ins, hov);
    lemma_entries_ok_append(fe, ins);
    lemma_format(s, vs);
    lemma_insertion(s, vs);
    let wh = match s.hover {
        Some(h) => written_hover(h, vs),
        None => Some(Seq::<u8>::empty()),
    };
    match s.hover {
        Some(h) => {
            assert(sets_hover(s.hover));
            lemma_hover(h, vs);
        },
        None => {
            assert(entry_payloads(Seq::<(Seq<char>, TagV)>::empty()) == Seq::<u8>::empty());
        },
    }
    let wc = match s.click {
        Some(c) => written_click(c, vs),
        None => Some(Seq::<u8>::empty()),
    };
    match s.click {
        Some(c) => lemma_click(c, vs),
        None => {
            assert(entry_payloads(Seq::<(Seq<char>, TagV)>::empty()) == Seq::<u8>::empty());
        },
    }
    lemma_ep2(fe, ins, written_format(s, vs), written_insertion(s.insertion, vs));
    let f2 = ocat(written_format(s, vs), written_insertion(s.insertion, vs));
    lemma_ep2(fe + ins, hov, f2, wh);
    lemma_ep2(fe + ins + hov, clk, ocat(f2, wh), wc);
}

/// A compound of content entries and a style: what the emitter writes and the tag's payload.
proof fn lemma_leaf_common(
    content: Option<Seq<u8>>,
    bare: Option<Seq<char>>,
    ce: Seq<(Seq<char>, TagV)>,
    s: StyleV,
    vs: Seq<(&str, Value)>,
    keep: bool,
)
    requires
        entries_ok(ce) ==> content == Some(entry_payloads(ce)),
        style_ok(s, vs),
        style_agrees(s, vs),
        tag_ok(styled_tag(bare, ce, Seq::empty(), s, vs, keep, format_none(), no_interactions())),
        bare is Some ==> s != empty_style(),
    ensures
        styled_tag(bare, ce, Seq::empty(), s, vs, keep, format_none(), no_interactions()) is Compound,
        ocat(ocat(content, written_style(s, vs)), Some(seq![0u8]))
            == Some(payload(styled_tag(bare, ce, Seq::empty(), s, vs, keep, format_none(), no_interactions()))),
    decreases s, 1nat,
{
    lemma_keep(s, vs);
    if bare is Some {
        lemma_nonempty(s, vs);
    }
    let soe = style_entries_of(s, vs);
    let e = ce + format_entries(format_after(format_none(), s, vs, false)) + inter_entries_after(s, no_interactions(), vs, false)
        + opt_entry(false, "extra"@, TagV::List(Seq::empty()));
    assert(e =~= ce + soe);
    lemma_entries_ok_append(ce, soe);
    lemma_style(s, vs);
    lemma_entry_payloads_append(ce, soe);
}

proof fn lemma_leaf(p: PieceV, vs: Seq<(&str, Value)>)
    requires
        piece_ok(p, vs),
        piece_agrees(p, vs),
        tag_ok(piece_tag(p, vs)),
        !p.is_bare(),
        !comp_hole(p),
    ensures
        piece_tag(p, vs) is Compound,
        written_leaf(p, vs) == Some(payload(piece_tag(p, vs))),
    decreases p, 2nat,
{
    match p {
        PieceV::Text { text, style, .. } => {
            let ce = seq![("text"@, str_tag(text@))];
            lemma_entry_one("text"@, str_tag(text@));
            lemma_leaf_common(ocat(Some(header(STRING_ID, "text"@)), written_bare(p, vs)), Some(text@), ce, style, vs, false);
        },
        PieceV::Hole { arg, kind, style, .. } => {
            let t = lookup_spec(vs, arg).unwrap()->Text_0;
            let ce = seq![("text"@, str_tag(t@))];
            lemma_entry_one("text"@, str_tag(t@));
            lemma_entry_ok_one("text"@, str_tag(t@));
            lemma_leaf_common(ocat(Some(header(STRING_ID, "text"@)), written_bare(p, vs)), Some(t@), ce, style, vs, true);
        },
        PieceV::Keybind { key, style, .. } => {
            let ce = seq![("keybind"@, str_tag(key@))];
            lemma_entry_one("keybind"@, str_tag(key@));
            lemma_leaf_common(Some(string_entry_bytes("keybind"@, key@)), None, ce, style, vs, false);
        },
        PieceV::Lang { key, args, style, .. } => {
            let ce = lang_entries(key_text(key, vs), None, key_args(args, vs));
            let e = ce + format_entries(format_after(format_none(), style, vs, false))
                + inter_entries_after(style, no_interactions(), vs, false) + opt_entry(false, "extra"@, TagV::List(Seq::empty()));
            assert(piece_tag(p, vs) == TagV::Compound(e));
            assert(e =~= ce + (format_entries(format_after(format_none(), style, vs, false))
                + inter_entries_after(style, no_interactions(), vs, false)));
            lemma_entries_ok_append(ce, format_entries(format_after(format_none(), style, vs, false))
                + inter_entries_after(style, no_interactions(), vs, false));
            lemma_lang(key, args, vs);
            lemma_leaf_common(written_lang(key, args, vs), None, ce, style, vs, false);
        },
        _ => {},
    }
}

proof fn lemma_lang(key: LangKey, args: Seq<Seq<PieceV>>, vs: Seq<(&str, Value)>)
    requires
        key matches LangKey::Dyn(arg) ==> lookup_spec(vs, arg) matches Some(Value::Text(_)),
        args_ok(args, vs),
        args_agree(args, vs),
        args.len() > 0 && !args_bare(args) ==> list_elem_id(args_tags(args, vs)) == COMPOUND_ID,
        entries_ok(lang_entries(key_text(key, vs), None, key_args(args, vs))),
    ensures
        written_lang(key, args, vs) == Some(entry_payloads(lang_entries(key_text(key, vs), None, key_args(args, vs)))),
    decreases args, 1nat,
{
    let k = key_text(key, vs);
    let a = seq![("translate"@, str_tag(k))];
    let w = match key_args(args, vs) {
        Some(v) => seq![("with"@, TagV::List(v))],
        None => Seq::<(Seq<char>, TagV)>::empty(),
    };
    assert(opt_text_entry("fallback"@, None) == Seq::<(Seq<char>, TagV)>::empty());
    assert(lang_entries(k, None, key_args(args, vs)) =~= a + w);
    lemma_entries_ok_append(a, w);
    lemma_entry_ok_one("translate"@, str_tag(k));
    lemma_entry_one("translate"@, str_tag(k));
    lemma_entry_payloads_append(a, w);
    let kb = ocat(Some(header(STRING_ID, "translate"@)), match key {
        LangKey::Lit(kk) => Some(nbt_string(kk@)),
        LangKey::Dyn(arg) => crate::minimessage::text_hole_bytes(arg, vs),
    });
    assert(kb == Some(entry_payloads(a)));
    if args.len() == 0 {
        assert(w =~= Seq::<(Seq<char>, TagV)>::empty());
        assert(entry_payloads(a) + entry_payloads(w) =~= entry_payloads(a));
    } else {
        let v = args_tags(args, vs);
        let bare = args_bare(args);
        lemma_entry_ok_one("with"@, TagV::List(v));
        lemma_args_tags_len(args, vs);
        lemma_args(args, bare, vs);
        lemma_with_bytes(v, bare);
        let hb = Some(header(crate::nbt::tag::LIST_ID, "with"@) + seq![if bare { STRING_ID } else { COMPOUND_ID }]
            + be_i32(args.len() as i32));
        crate::grammar::written::lemma_ocat_assoc(kb, hb, written_args(args, bare, vs));
    }
}

proof fn lemma_with_bytes(v: Seq<TagV>, bare: bool)
    requires
        v.len() > 0,
        tag_ok(TagV::List(v)),
        forall|k: int| 0 <= k < v.len() ==> (#[trigger] v[k] is String || v[k] is Compound),
        bare ==> forall|k: int| 0 <= k < v.len() ==> #[trigger] v[k] is String,
        !bare ==> list_elem_id(v) == COMPOUND_ID,
    ensures
        ocat(Some(header(crate::nbt::tag::LIST_ID, "with"@) + seq![if bare { STRING_ID } else { COMPOUND_ID }]
            + be_i32(v.len() as i32)), Some(list_payloads(v, !bare)))
            == Some(entry_payloads(seq![("with"@, TagV::List(v))])),
{
    lemma_entry_one("with"@, TagV::List(v));
    lemma_list_shape(v, bare);
    lemma_be_len(v.len());
    assert(header(crate::nbt::tag::LIST_ID, "with"@) + seq![if bare { STRING_ID } else { COMPOUND_ID }]
        + be_i32(v.len() as i32) + list_payloads(v, !bare) =~= entry_payloads(seq![("with"@, TagV::List(v))]));
}

proof fn lemma_args(a: Seq<Seq<PieceV>>, bare: bool, vs: Seq<(&str, Value)>)
    requires
        args_ok(a, vs),
        args_agree(a, vs),
        list_ok(args_tags(a, vs)),
        bare ==> args_bare(a),
    ensures
        written_args(a, bare, vs) == Some(list_payloads(args_tags(a, vs), !bare)),
        forall|k: int| 0 <= k < args_tags(a, vs).len() ==> (#[trigger] args_tags(a, vs)[k] is String
            || args_tags(a, vs)[k] is Compound),
        bare ==> forall|k: int| 0 <= k < args_tags(a, vs).len() ==> #[trigger] args_tags(a, vs)[k] is String,
    decreases a, 0nat,
{
    if a.len() > 0 {
        let d = a.drop_last();
        let x = fill_tag(a.last(), vs);
        lemma_push_list(args_tags(d, vs), x, !bare);
        if bare {
            assert forall|k: int| 0 <= k < d.len() implies !((#[trigger] d[k]).len() > 1 || (d[k].len() == 1 && !d[k][0].is_bare())) by {
                assert(d[k] == a[k]);
            }
        }
        lemma_args(d, bare, vs);
        let l = a.last();
        if bare {
            assert(!(a[a.len() - 1].len() > 1 || (a[a.len() - 1].len() == 1 && !a[a.len() - 1][0].is_bare())));
            lemma_payload(l, vs);
        } else {
            lemma_elem(l, vs);
        }
        lemma_fill_kind(l, vs);
        assert(args_tags(a, vs) == args_tags(d, vs).push(x));
    }
}

/// A template fills to a string or a compound; a string when empty or one bare piece.
proof fn lemma_fill_kind(ps: Seq<PieceV>, vs: Seq<(&str, Value)>)
    requires
        pieces_ok(ps, vs),
    ensures
        fill_tag(ps, vs) is String || fill_tag(ps, vs) is Compound,
        (ps.len() == 0 || (ps.len() == 1 && ps[0].is_bare())) ==> fill_tag(ps, vs) is String,
{
    if ps.len() == 1 {
        assert(piece_ok(ps[0], vs));
        if ps[0].is_bare() {
            assert(format_after(format_none(), empty_style(), vs, false) == format_none());
            assert(format_after(format_none(), empty_style(), vs, true) == format_none());
        }
    }
}

proof fn lemma_elem(ps: Seq<PieceV>, vs: Seq<(&str, Value)>)
    requires
        pieces_ok(ps, vs),
        pieces_agree(ps, vs),
        tag_ok(fill_tag(ps, vs)),
    ensures
        written_elem(ps, vs) == Some(payload_wrapped(fill_tag(ps, vs))),
    decreases ps, 3nat,
{
    let ft = fill_tag(ps, vs);
    lemma_empty_string();
    if ps.len() == 0 {
        assert(string_entry_bytes(Seq::empty(), Seq::empty()) + seq![0u8] =~= payload_wrapped(ft));
    } else if ps.len() == 1 {
        assert(piece_ok(ps[0], vs));
        assert(piece_agrees(ps[0], vs));
        if comp_hole(ps[0]) {
            lemma_splice(ps[0], PlaceV::Elem, vs);
            lemma_styled_kind(ft);
        } else if ps[0].is_bare() {
            lemma_bare(ps[0], vs);
            assert(header(STRING_ID, Seq::empty()) + payload(ft) + seq![0u8] =~= payload_wrapped(ft));
        } else {
            lemma_leaf(ps[0], vs);
        }
    } else {
        lemma_payload(ps, vs);
    }
}

proof fn lemma_list_elem(p: PieceV, bare: bool, vs: Seq<(&str, Value)>)
    requires
        piece_ok(p, vs),
        piece_agrees(p, vs),
        tag_ok(piece_tag(p, vs)),
        bare ==> p.is_bare(),
    ensures
        written_list_elem(p, bare, vs) == Some(if bare { payload(piece_tag(p, vs)) } else { payload_wrapped(piece_tag(p, vs)) }),
        piece_tag(p, vs) is String || piece_tag(p, vs) is Compound,
        bare ==> piece_tag(p, vs) is String,
    decreases p, 3nat,
{
    let t = piece_tag(p, vs);
    lemma_empty_string();
    if comp_hole(p) {
        lemma_splice(p, PlaceV::Elem, vs);
        lemma_styled_kind(t);
    } else if p.is_bare() {
        lemma_bare(p, vs);
        assert(header(STRING_ID, Seq::empty()) + payload(t) + seq![0u8] =~= payload_wrapped(t));
    } else {
        lemma_leaf(p, vs);
    }
}

proof fn lemma_elems(ps: Seq<PieceV>, bare: bool, vs: Seq<(&str, Value)>)
    requires
        pieces_ok(ps, vs),
        each_agrees(ps, vs),
        list_ok(list_tags(ps, vs)),
        bare ==> pieces_bare(ps),
    ensures
        written_elems(ps, bare, vs) == Some(list_payloads(list_tags(ps, vs), !bare)),
        forall|k: int| 0 <= k < list_tags(ps, vs).len() ==> (#[trigger] list_tags(ps, vs)[k] is String
            || list_tags(ps, vs)[k] is Compound),
        bare ==> forall|k: int| 0 <= k < list_tags(ps, vs).len() ==> #[trigger] list_tags(ps, vs)[k] is String,
    decreases ps, 0nat,
{
    if ps.len() > 0 {
        let d = ps.drop_last();
        let x = piece_tag(ps.last(), vs);
        lemma_push_list(list_tags(d, vs), x, !bare);
        if bare {
            assert forall|k: int| 0 <= k < d.len() implies (#[trigger] d[k]).is_bare() by {
                assert(d[k] == ps[k]);
            }
            assert(ps[ps.len() - 1].is_bare());
        }
        lemma_elems(d, bare, vs);
        lemma_list_elem(ps.last(), bare, vs);
        assert(list_tags(ps, vs) == list_tags(d, vs).push(x));
    }
}

proof fn lemma_payload(ps: Seq<PieceV>, vs: Seq<(&str, Value)>)
    requires
        pieces_ok(ps, vs),
        pieces_agree(ps, vs),
        tag_ok(fill_tag(ps, vs)),
        !(ps.len() == 1 && comp_hole(ps[0])),
    ensures
        written_payload(ps, vs) == Some(payload(fill_tag(ps, vs))),
        tag_type_v(ps) == tag_id(fill_tag(ps, vs)),
    decreases ps, 2nat,
{
    let ft = fill_tag(ps, vs);
    lemma_empty_string();
    if ps.len() == 1 {
        assert(piece_ok(ps[0], vs));
        assert(piece_agrees(ps[0], vs));
        if ps[0].is_bare() {
            lemma_bare(ps[0], vs);
        } else {
            lemma_leaf(ps[0], vs);
        }
    } else if ps.len() >= 2 {
        lemma_payload_many(ps, vs);
    }
}

proof fn lemma_payload_many(ps: Seq<PieceV>, vs: Seq<(&str, Value)>)
    requires
        ps.len() >= 2,
        pieces_ok(ps, vs),
        pieces_agree(ps, vs),
        tag_ok(fill_tag(ps, vs)),
    ensures
        written_payload(ps, vs) == Some(payload(fill_tag(ps, vs))),
    decreases ps, 1nat,
{
    let lt = list_tags(ps, vs);
    let bare = pieces_bare(ps);
    assert(fill_tag(ps, vs) == TagV::Compound(seq![("text"@, str_tag(Seq::empty())), ("extra"@, TagV::List(lt))]));
    lemma_entries_ok(seq![("text"@, str_tag(Seq::empty())), ("extra"@, TagV::List(lt))], 1);
    lemma_list_tags_len(ps, vs);
    lemma_elems(ps, bare, vs);
    lemma_extra_bytes(lt, bare);
    crate::grammar::written::lemma_payload_shape(ps, vs);
}

proof fn lemma_extra_bytes(lt: Seq<TagV>, bare: bool)
    requires
        lt.len() >= 2,
        tag_ok(TagV::List(lt)),
        forall|k: int| 0 <= k < lt.len() ==> (#[trigger] lt[k] is String || lt[k] is Compound),
        bare ==> forall|k: int| 0 <= k < lt.len() ==> #[trigger] lt[k] is String,
        !bare ==> list_elem_id(lt) == COMPOUND_ID,
    ensures
        ocat(ocat(Some(string_entry_bytes("text"@, Seq::empty()) + header(crate::nbt::tag::LIST_ID, "extra"@)
            + seq![if bare { STRING_ID } else { COMPOUND_ID }] + be_i32(lt.len() as i32)), Some(list_payloads(lt, !bare))),
            Some(seq![0u8]))
            == Some(payload(TagV::Compound(seq![("text"@, str_tag(Seq::empty())), ("extra"@, TagV::List(lt))]))),
{
    let e0 = ("text"@, str_tag(Seq::empty()));
    let e1 = ("extra"@, TagV::List(lt));
    lemma_list_shape(lt, bare);
    lemma_be_len(lt.len());
    lemma_seq2(e0, e1);
    lemma_entry_payloads_append(seq![e0], seq![e1]);
    lemma_entry_one(e0.0, e0.1);
    lemma_entry_one(e1.0, e1.1);
    assert(string_entry_bytes("text"@, Seq::empty()) + header(crate::nbt::tag::LIST_ID, "extra"@)
        + seq![if bare { STRING_ID } else { COMPOUND_ID }] + be_i32(lt.len() as i32) + list_payloads(lt, !bare) + seq![0u8]
        =~= payload(TagV::Compound(seq![e0, e1])));
}

/// What the emitter writes for a template that agrees with its values is the encoding of
/// the tag filling builds.
pub proof fn lemma_written_component(ps: Seq<PieceV>, vs: Seq<(&str, Value)>)
    requires
        pieces_ok(ps, vs),
        pieces_agree(ps, vs),
        tag_ok(fill_tag(ps, vs)),
    ensures
        written_component(ps, vs) == Some(root_bytes(fill_tag(ps, vs))),
{
    if ps.len() == 1 && comp_hole(ps[0]) {
        assert(piece_ok(ps[0], vs));
        lemma_splice(ps[0], PlaceV::Root, vs);
    } else {
        lemma_payload(ps, vs);
    }
}

/// Filling a template straight to bytes writes the encoding of the component filling it
/// builds, wherever the template's list types agree with the values and the component is
/// within the limits of NBT.
pub proof fn lemma_fill_nbt_is_encoding(ps: Seq<PieceV>, segs: Seq<NbtSeg>, vs: Seq<(&str, Value)>, c: TextComponent)
    requires
        emitted(ps, segs),
        pieces_ok(ps, vs),
        pieces_fill(ps, vs, c),
        pieces_agree(ps, vs),
        tag_ok(component_tag(c)),
    ensures
        nbt_fill_spec(segs, vs) == Some(root_bytes(component_tag(c))),
{
    lemma_fill_tag(ps, vs, c);
    lemma_written_component(ps, vs);
}

} // verus!
