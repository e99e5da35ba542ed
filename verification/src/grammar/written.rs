//! What the emitter writes for each part of a template: the bytes its segments fill to
//! under given hole values, piece by piece and style by style.
use vstd::prelude::*;
use crate::chars::hex2;
use crate::grammar::emit::{be_i32, mutf8, EventKind, TAG_BYTE, TAG_COMPOUND, TAG_INT, TAG_LIST, TAG_STRING};
use crate::grammar::inspect::{all_lits, lits_text};
use crate::grammar::ir::{BoolIr, ClickIrV, ClickKind, ColorIr, HoleKind, HoverIrV, LangKey, PieceV, StrSeg, StyleV};
use crate::minimessage::{
    color_hole_bytes, component_hole_bytes, event_hole_bytes, flag_hole_bytes, joined_bytes, text_hole_bytes, PlaceV,
    Value,
};
use crate::nbt::writers::nbt_string;

verus! {

/// Two byte strings one after the other; `None` when either is missing.
pub open spec fn ocat(a: Option<Seq<u8>>, b: Option<Seq<u8>>) -> Option<Seq<u8>> {
    match (a, b) {
        (Some(x), Some(y)) => Some(x + y),
        _ => None,
    }
}

/// Joining byte strings does not depend on how they are grouped.
pub proof fn lemma_ocat_assoc(a: Option<Seq<u8>>, b: Option<Seq<u8>>, c: Option<Seq<u8>>)
    ensures
        ocat(ocat(a, b), c) == ocat(a, ocat(b, c)),
{
    if let (Some(x), Some(y), Some(z)) = (a, b, c) {
        assert((x + y) + z =~= x + (y + z));
    }
}

/// Nothing joined on changes nothing.
pub proof fn lemma_ocat_empty(a: Option<Seq<u8>>)
    ensures
        ocat(a, Some(Seq::empty())) == a,
        ocat(Some(Seq::empty()), a) == a,
{
    if let Some(x) = a {
        assert(x + Seq::<u8>::empty() =~= x);
        assert(Seq::<u8>::empty() + x =~= x);
    }
}

/// A compound entry's header: its type byte and its name.
pub open spec fn header(tag: u8, name: Seq<char>) -> Seq<u8> {
    seq![tag] + nbt_string(name)
}

/// A whole string entry.
pub open spec fn string_entry_bytes(name: Seq<char>, value: Seq<char>) -> Seq<u8> {
    header(TAG_STRING, name) + nbt_string(value)
}

/// A piece that splices a component in: `{@…}` or `{@const …}`.
pub open spec fn comp_hole(p: PieceV) -> bool {
    p matches PieceV::Hole { kind: HoleKind::Component, .. } || p matches PieceV::Hole { kind: HoleKind::ConstComponent, .. }
}

/// The tag type a template is written with: a string when it is empty or one bare piece.
pub open spec fn tag_type_v(ps: Seq<PieceV>) -> u8 {
    if ps.len() == 0 || (ps.len() == 1 && ps[0].is_bare()) { TAG_STRING } else { TAG_COMPOUND }
}

/// Every piece bare.
pub open spec fn pieces_bare(ps: Seq<PieceV>) -> bool {
    forall|k: int| 0 <= k < ps.len() ==> (#[trigger] ps[k]).is_bare()
}

/// Every translation argument empty or one bare piece.
pub open spec fn args_bare(a: Seq<Seq<PieceV>>) -> bool {
    forall|k: int| 0 <= k < a.len() ==> !((#[trigger] a[k]).len() > 1 || (a[k].len() == 1 && !a[k][0].is_bare()))
}

/// A bare piece's payload: its text, or a text hole's value.
pub open spec fn written_bare(p: PieceV, vs: Seq<(&str, Value)>) -> Option<Seq<u8>> {
    match p {
        PieceV::Text { text, .. } => Some(nbt_string(text@)),
        PieceV::Hole { arg, .. } => text_hole_bytes(arg, vs),
        _ => Some(Seq::empty()),
    }
}

/// A component hole at its place. A `{@const …}` has no run-time value.
pub open spec fn written_splice(p: PieceV, at: PlaceV, vs: Seq<(&str, Value)>) -> Option<Seq<u8>> {
    match p {
        PieceV::Hole { arg, kind, style, .. } => match kind {
            HoleKind::ConstComponent => None,
            _ => component_hole_bytes(arg, style, at, vs),
        },
        _ => Some(Seq::empty()),
    }
}

/// A string entry whose value may hold holes.
pub open spec fn written_str_value(name: Seq<char>, segs: Seq<StrSeg>, vs: Seq<(&str, Value)>) -> Option<Seq<u8>> {
    if all_lits(segs) {
        Some(string_entry_bytes(name, lits_text(segs)))
    } else {
        ocat(Some(header(TAG_STRING, name)), joined_bytes(segs, vs))
    }
}

/// A formatting flag's entry, when the style sets it.
pub open spec fn written_flag(name: Seq<char>, o: Option<BoolIr>, vs: Seq<(&str, Value)>) -> Option<Seq<u8>> {
    match o {
        None => Some(Seq::empty()),
        Some(BoolIr::Const(b)) => Some(header(TAG_BYTE, name) + seq![if b { 1u8 } else { 0u8 }]),
        Some(BoolIr::Dyn(arg)) => ocat(Some(header(TAG_BYTE, name)), flag_hole_bytes(arg, vs)),
    }
}

/// The color entry, when the style sets one.
pub open spec fn written_color(o: Option<ColorIr>, vs: Seq<(&str, Value)>) -> Option<Seq<u8>> {
    match o {
        None => Some(Seq::empty()),
        Some(ColorIr::Named(n)) => Some(string_entry_bytes("color"@, n@)),
        Some(ColorIr::Rgb(r, g, b)) => Some(string_entry_bytes("color"@, seq!['#'] + hex2(r) + hex2(g) + hex2(b))),
        Some(ColorIr::Dyn(arg)) => ocat(Some(header(TAG_STRING, "color"@)), color_hole_bytes(arg, vs)),
    }
}

/// The action and value field of a click action.
pub open spec fn click_names(kind: ClickKind) -> (Seq<char>, Seq<char>) {
    match kind {
        ClickKind::OpenUrl => ("open_url"@, "url"@),
        ClickKind::RunCommand => ("run_command"@, "command"@),
        ClickKind::SuggestCommand => ("suggest_command"@, "command"@),
        ClickKind::CopyToClipboard => ("copy_to_clipboard"@, "value"@),
        ClickKind::ChangePage(_) => ("change_page"@, "page"@),
        ClickKind::ShowDialog => ("show_dialog"@, "dialog"@),
    }
}

/// The click entry.
pub open spec fn written_click(c: ClickIrV, vs: Seq<(&str, Value)>) -> Option<Seq<u8>> {
    match c {
        ClickIrV::Dyn(arg) => ocat(Some(header(TAG_COMPOUND, "click_event"@)), event_hole_bytes(arg, EventKind::Click, vs)),
        ClickIrV::Action(kind, segs) => {
            let (action, field) = click_names(kind);
            ocat(
                ocat(
                    Some(header(TAG_COMPOUND, "click_event"@) + string_entry_bytes("action"@, action)),
                    match kind {
                        ClickKind::ChangePage(page) => Some(header(TAG_INT, field) + be_i32(page)),
                        _ => written_str_value(field, segs, vs),
                    },
                ),
                Some(seq![0u8]),
            )
        },
    }
}

/// The hover entry. Hovers other than text and a run-time event write nothing.
pub open spec fn written_hover(h: HoverIrV, vs: Seq<(&str, Value)>) -> Option<Seq<u8>>
    decreases h, 0nat,
{
    match h {
        HoverIrV::Dyn(arg) => ocat(Some(header(TAG_COMPOUND, "hover_event"@)), event_hole_bytes(arg, EventKind::Hover, vs)),
        HoverIrV::Text(ps) => ocat(
            ocat(
                Some(header(TAG_COMPOUND, "hover_event"@) + string_entry_bytes("action"@, "show_text"@)),
                if ps.len() == 1 && comp_hole(ps[0]) {
                    written_splice(ps[0], PlaceV::Entry("value"@), vs)
                } else {
                    ocat(Some(header(tag_type_v(ps), "value"@)), written_payload(ps, vs))
                },
            ),
            Some(seq![0u8]),
        ),
        _ => Some(Seq::empty()),
    }
}

/// The font entry, when the style sets one.
pub open spec fn written_font(o: Option<String>) -> Option<Seq<u8>> {
    match o {
        Some(f) => Some(string_entry_bytes("font"@, f@)),
        None => Some(Seq::empty()),
    }
}

/// The shadow entry, when the style sets one.
pub open spec fn written_shadow(o: Option<i32>) -> Option<Seq<u8>> {
    match o {
        Some(v) => Some(header(TAG_INT, "shadow_color"@) + be_i32(v)),
        None => Some(Seq::empty()),
    }
}

/// The insertion entry, when the style sets one.
pub open spec fn written_insertion(o: Option<Seq<StrSeg>>, vs: Seq<(&str, Value)>) -> Option<Seq<u8>> {
    match o {
        Some(segs) => written_str_value("insertion"@, segs, vs),
        None => Some(Seq::empty()),
    }
}

/// A style's format entries, the five flags after color and font.
pub open spec fn written_format(s: StyleV, vs: Seq<(&str, Value)>) -> Option<Seq<u8>> {
    let a = ocat(written_color(s.color, vs), written_font(s.font));
    let b = ocat(ocat(a, written_flag("bold"@, s.bold, vs)), written_flag("italic"@, s.italic, vs));
    let c = ocat(ocat(b, written_flag("underlined"@, s.underlined, vs)), written_flag("strikethrough"@, s.strikethrough, vs));
    ocat(ocat(c, written_flag("obfuscated"@, s.obfuscated, vs)), written_shadow(s.shadow_color))
}

/// A style's entries in the codec's order: format, insertion, hover, click.
pub open spec fn written_style(s: StyleV, vs: Seq<(&str, Value)>) -> Option<Seq<u8>>
    decreases s, 0nat,
{
    let f = ocat(written_format(s, vs), written_insertion(s.insertion, vs));
    let h = ocat(f, match s.hover {
        Some(h) => written_hover(h, vs),
        None => Some(Seq::empty()),
    });
    ocat(h, match s.click {
        Some(c) => written_click(c, vs),
        None => Some(Seq::empty()),
    })
}

/// A piece as a compound: its content entries, its style, the end byte.
pub open spec fn written_leaf(p: PieceV, vs: Seq<(&str, Value)>) -> Option<Seq<u8>>
    decreases p, 0nat,
{
    let end = Some(seq![0u8]);
    match p {
        PieceV::Keybind { key, style, .. } => ocat(ocat(Some(string_entry_bytes("keybind"@, key@)), written_style(style, vs)), end),
        PieceV::Lang { key, args, style, .. } => ocat(ocat(written_lang(key, args, vs), written_style(style, vs)), end),
        PieceV::Text { style, .. } => ocat(ocat(ocat(Some(header(TAG_STRING, "text"@)), written_bare(p, vs)),
            written_style(style, vs)), end),
        PieceV::Hole { style, .. } => ocat(ocat(ocat(Some(header(TAG_STRING, "text"@)), written_bare(p, vs)),
            written_style(style, vs)), end),
        PieceV::Score { style, .. } => ocat(ocat(ocat(Some(header(TAG_STRING, "text"@)), written_bare(p, vs)),
            written_style(style, vs)), end),
        PieceV::Selector { style, .. } => ocat(ocat(ocat(Some(header(TAG_STRING, "text"@)), written_bare(p, vs)),
            written_style(style, vs)), end),
        PieceV::Nbt { style, .. } => ocat(ocat(ocat(Some(header(TAG_STRING, "text"@)), written_bare(p, vs)),
            written_style(style, vs)), end),
        PieceV::Sprite { style, .. } => ocat(ocat(ocat(Some(header(TAG_STRING, "text"@)), written_bare(p, vs)),
            written_style(style, vs)), end),
        PieceV::Head { style, .. } => ocat(ocat(ocat(Some(header(TAG_STRING, "text"@)), written_bare(p, vs)),
            written_style(style, vs)), end),
    }
}

/// A translation's entries: its key, then its arguments when it has any.
pub open spec fn written_lang(key: LangKey, args: Seq<Seq<PieceV>>, vs: Seq<(&str, Value)>) -> Option<Seq<u8>>
    decreases args, 1nat,
{
    let k = ocat(Some(header(TAG_STRING, "translate"@)), match key {
        LangKey::Lit(k) => Some(nbt_string(k@)),
        LangKey::Dyn(arg) => text_hole_bytes(arg, vs),
    });
    if args.len() == 0 {
        k
    } else {
        let bare = args_bare(args);
        ocat(
            ocat(k, Some(header(TAG_LIST, "with"@) + seq![if bare { TAG_STRING } else { TAG_COMPOUND }]
                + be_i32(args.len() as i32))),
            written_args(args, bare, vs),
        )
    }
}

/// The translation arguments in order: bare payloads in a string list, compounds otherwise.
pub open spec fn written_args(a: Seq<Seq<PieceV>>, bare: bool, vs: Seq<(&str, Value)>) -> Option<Seq<u8>>
    decreases a, 0nat,
{
    if a.len() == 0 {
        Some(Seq::empty())
    } else {
        ocat(written_args(a.drop_last(), bare, vs), if bare { written_payload(a.last(), vs) } else { written_elem(a.last(), vs) })
    }
}

/// A translation argument as an element of a compound list.
pub open spec fn written_elem(ps: Seq<PieceV>, vs: Seq<(&str, Value)>) -> Option<Seq<u8>>
    decreases ps, 2nat,
{
    if ps.len() == 0 {
        Some(string_entry_bytes(Seq::empty(), Seq::empty()) + seq![0u8])
    } else if ps.len() == 1 && comp_hole(ps[0]) {
        written_splice(ps[0], PlaceV::Elem, vs)
    } else if ps.len() == 1 && ps[0].is_bare() {
        ocat(ocat(Some(header(TAG_STRING, Seq::empty())), written_bare(ps[0], vs)), Some(seq![0u8]))
    } else if ps.len() == 1 {
        written_leaf(ps[0], vs)
    } else {
        written_payload(ps, vs)
    }
}

/// A template's payload: the empty string, one piece's payload, or an empty text with the
/// pieces as its `extra` list.
pub open spec fn written_payload(ps: Seq<PieceV>, vs: Seq<(&str, Value)>) -> Option<Seq<u8>>
    decreases ps, 1nat,
{
    if ps.len() == 0 {
        Some(nbt_string(Seq::empty()))
    } else if ps.len() == 1 {
        if ps[0].is_bare() { written_bare(ps[0], vs) } else { written_leaf(ps[0], vs) }
    } else {
        let bare = pieces_bare(ps);
        ocat(
            ocat(
                Some(string_entry_bytes("text"@, Seq::empty()) + header(TAG_LIST, "extra"@)
                    + seq![if bare { TAG_STRING } else { TAG_COMPOUND }] + be_i32(ps.len() as i32)),
                written_elems(ps, bare, vs),
            ),
            Some(seq![0u8]),
        )
    }
}

/// The pieces of an `extra` list in order.
pub open spec fn written_elems(ps: Seq<PieceV>, bare: bool, vs: Seq<(&str, Value)>) -> Option<Seq<u8>>
    decreases ps, 0nat,
{
    if ps.len() == 0 {
        Some(Seq::empty())
    } else {
        ocat(written_elems(ps.drop_last(), bare, vs), written_list_elem(ps.last(), bare, vs))
    }
}

/// One piece of an `extra` list: a bare piece in a string list as its payload, in a
/// compound list wrapped as `{"": value}`.
pub open spec fn written_list_elem(p: PieceV, bare: bool, vs: Seq<(&str, Value)>) -> Option<Seq<u8>>
    decreases p, 1nat,
{
    if comp_hole(p) {
        written_splice(p, PlaceV::Elem, vs)
    } else if bare {
        written_bare(p, vs)
    } else if p.is_bare() {
        ocat(ocat(Some(header(TAG_STRING, Seq::empty())), written_bare(p, vs)), Some(seq![0u8]))
    } else {
        written_leaf(p, vs)
    }
}

/// A whole template: a lone component hole at the root, else the type byte and payload.
pub open spec fn written_component(ps: Seq<PieceV>, vs: Seq<(&str, Value)>) -> Option<Seq<u8>> {
    if ps.len() == 1 && comp_hole(ps[0]) {
        written_splice(ps[0], PlaceV::Root, vs)
    } else {
        ocat(Some(seq![tag_type_v(ps)]), written_payload(ps, vs))
    }
}

/// A piece's content entries as a compound writes them.
pub open spec fn leaf_content(p: PieceV, vs: Seq<(&str, Value)>) -> Option<Seq<u8>> {
    match p {
        PieceV::Keybind { key, .. } => Some(string_entry_bytes("keybind"@, key@)),
        PieceV::Lang { key, args, .. } => written_lang(key, args, vs),
        _ => ocat(Some(header(TAG_STRING, "text"@)), written_bare(p, vs)),
    }
}

/// A piece as a compound: its content entries, its style's entries, the end byte.
pub proof fn lemma_leaf_shape(p: PieceV, vs: Seq<(&str, Value)>)
    ensures
        written_leaf(p, vs) == ocat(ocat(leaf_content(p, vs), written_style(p.style(), vs)), Some(seq![0u8])),
{
}

/// A template of several pieces: the empty text, the `extra` list's header, its pieces,
/// the end byte.
pub proof fn lemma_payload_shape(ps: Seq<PieceV>, vs: Seq<(&str, Value)>)
    requires
        ps.len() >= 2,
    ensures
        written_payload(ps, vs) == ocat(
            ocat(
                Some(string_entry_bytes("text"@, Seq::empty()) + header(TAG_LIST, "extra"@)
                    + seq![if pieces_bare(ps) { TAG_STRING } else { TAG_COMPOUND }] + be_i32(ps.len() as i32)),
                written_elems(ps, pieces_bare(ps), vs),
            ),
            Some(seq![0u8]),
        ),
{
}

// ---------------------------------------------------------------------------
// When the emitter succeeds: every static string within an NBT string's 65535 bytes,
// every list within an i32 length.

/// Text short enough for an NBT string.
pub open spec fn str_fits(s: Seq<char>) -> bool {
    mutf8(s).len() <= 0xFFFF
}

/// A literal string value fits.
pub open spec fn lits_fit(segs: Seq<StrSeg>) -> bool {
    all_lits(segs) ==> str_fits(lits_text(segs))
}

/// A text piece's text fits.
pub open spec fn bare_fits(p: PieceV) -> bool {
    match p {
        PieceV::Text { text, .. } => str_fits(text@),
        _ => true,
    }
}

/// A styled `{@const …}` is wrapped in a compound whose entries must fit.
pub open spec fn splice_fits(p: PieceV, at: PlaceV) -> bool
    decreases p, 0nat,
{
    match p {
        PieceV::Hole { kind: HoleKind::ConstComponent, style, .. } => style == crate::grammar::ir::empty_style() || (
            (at matches PlaceV::Entry(n) ==> str_fits(n)) && style_fits(style)),
        _ => true,
    }
}

/// A click action's literal value fits.
pub open spec fn click_fits(c: ClickIrV) -> bool {
    match c {
        ClickIrV::Action(kind, segs) => kind is ChangePage || lits_fit(segs),
        ClickIrV::Dyn(_) => true,
    }
}

/// A text hover's template fits.
pub open spec fn hover_fits(h: HoverIrV) -> bool
    decreases h, 0nat,
{
    match h {
        HoverIrV::Text(ps) => if ps.len() == 1 && comp_hole(ps[0]) {
            splice_fits(ps[0], PlaceV::Entry("value"@))
        } else {
            payload_fits(ps)
        },
        _ => true,
    }
}

/// A style's named color, font, literal insertion, hover and click fit.
pub open spec fn style_fits(s: StyleV) -> bool
    decreases s, 0nat,
{
    &&& (s.color matches Some(ColorIr::Named(n)) ==> str_fits(n@))
    &&& (s.font matches Some(f) ==> str_fits(f@))
    &&& (s.insertion matches Some(segs) ==> lits_fit(segs))
    &&& match s.hover {
        Some(h) => hover_fits(h),
        None => true,
    }
    &&& (s.click matches Some(c) ==> click_fits(c))
}

/// A piece written as a compound fits.
pub open spec fn leaf_fits(p: PieceV) -> bool
    decreases p, 0nat,
{
    match p {
        PieceV::Keybind { key, style, .. } => str_fits(key@) && style_fits(style),
        PieceV::Lang { key, args, style, .. } => lang_fits(key, args) && style_fits(style),
        PieceV::Text { style, .. } => bare_fits(p) && style_fits(style),
        PieceV::Hole { style, .. } => style_fits(style),
        PieceV::Score { style, .. } => style_fits(style),
        PieceV::Selector { style, .. } => style_fits(style),
        PieceV::Nbt { style, .. } => style_fits(style),
        PieceV::Sprite { style, .. } => style_fits(style),
        PieceV::Head { style, .. } => style_fits(style),
    }
}

/// A translation's literal key and arguments fit, and there are not too many arguments.
pub open spec fn lang_fits(key: LangKey, args: Seq<Seq<PieceV>>) -> bool
    decreases args, 1nat,
{
    &&& (key matches LangKey::Lit(k) ==> str_fits(k@))
    &&& (args.len() > 0 ==> args.len() <= 0x7FFF_FFFF && args_fit(args, args_bare(args)))
}

pub open spec fn args_fit(a: Seq<Seq<PieceV>>, bare: bool) -> bool
    decreases a, 0nat,
{
    a.len() == 0 || (args_fit(a.drop_last(), bare) && if bare { payload_fits(a.last()) } else { elem_fits(a.last()) })
}

pub open spec fn elem_fits(ps: Seq<PieceV>) -> bool
    decreases ps, 2nat,
{
    if ps.len() == 0 {
        true
    } else if ps.len() == 1 && comp_hole(ps[0]) {
        splice_fits(ps[0], PlaceV::Elem)
    } else if ps.len() == 1 && ps[0].is_bare() {
        bare_fits(ps[0])
    } else if ps.len() == 1 {
        leaf_fits(ps[0])
    } else {
        payload_fits(ps)
    }
}

pub open spec fn payload_fits(ps: Seq<PieceV>) -> bool
    decreases ps, 1nat,
{
    if ps.len() == 0 {
        true
    } else if ps.len() == 1 {
        if ps[0].is_bare() { bare_fits(ps[0]) } else { leaf_fits(ps[0]) }
    } else {
        ps.len() <= 0x7FFF_FFFF && elems_fit(ps, pieces_bare(ps))
    }
}

pub open spec fn elems_fit(ps: Seq<PieceV>, bare: bool) -> bool
    decreases ps, 0nat,
{
    ps.len() == 0 || (elems_fit(ps.drop_last(), bare) && list_elem_fits(ps.last(), bare))
}

pub open spec fn list_elem_fits(p: PieceV, bare: bool) -> bool
    decreases p, 1nat,
{
    if comp_hole(p) {
        splice_fits(p, PlaceV::Elem)
    } else if bare || p.is_bare() {
        bare_fits(p)
    } else {
        leaf_fits(p)
    }
}

/// A whole template fits.
pub open spec fn component_fits(ps: Seq<PieceV>) -> bool {
    if ps.len() == 1 && comp_hole(ps[0]) { splice_fits(ps[0], PlaceV::Root) } else { payload_fits(ps) }
}

/// A piece's content entries fit.
pub open spec fn leaf_content_fits(p: PieceV) -> bool {
    match p {
        PieceV::Keybind { key, .. } => str_fits(key@),
        PieceV::Lang { key, args, .. } => lang_fits(key, args),
        _ => bare_fits(p),
    }
}

pub proof fn lemma_leaf_fits(p: PieceV)
    ensures
        leaf_fits(p) == (leaf_content_fits(p) && style_fits(p.style())),
{
}

pub proof fn lemma_elems_fit_prefix(ps: Seq<PieceV>, bare: bool, j: int)
    requires
        0 <= j <= ps.len(),
        elems_fit(ps, bare),
    ensures
        elems_fit(ps.subrange(0, j), bare),
    decreases ps.len(),
{
    if j < ps.len() {
        assert(ps.drop_last() =~= ps.subrange(0, ps.len() - 1));
        lemma_elems_fit_prefix(ps.drop_last(), bare, j);
        assert(ps.drop_last().subrange(0, j) =~= ps.subrange(0, j));
    } else {
        assert(ps.subrange(0, j) =~= ps);
    }
}

pub proof fn lemma_args_fit_prefix(a: Seq<Seq<PieceV>>, bare: bool, j: int)
    requires
        0 <= j <= a.len(),
        args_fit(a, bare),
    ensures
        args_fit(a.subrange(0, j), bare),
    decreases a.len(),
{
    if j < a.len() {
        lemma_args_fit_prefix(a.drop_last(), bare, j);
        assert(a.drop_last().subrange(0, j) =~= a.subrange(0, j));
    } else {
        assert(a.subrange(0, j) =~= a);
    }
}

} // verus!
