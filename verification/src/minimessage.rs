//! MiniMessage templates parsed at run time, from a config file or another data source,
//! then filled with values: into a component tree, or straight into network NBT.
use vstd::prelude::*;
use crate::chars::{chars_eq, chars_of};
use crate::component::TextComponent;
use crate::content::Content;
use crate::duplicate::{
    click_alike, comp_alike, comps_alike, content_alike, copy_click, copy_hover, hover_alike, opt_click_alike,
    opt_hover_alike,
};
use crate::format::{format_none, from_codec_name_spec, Color, Format};
use crate::grammar::copy::{lemma_view_piece_lists_push, lemma_view_pieces_len};
use crate::grammar::error::{rendered_report, span_chars, utf8_len, utf8_length, ParseError};
use crate::grammar::parser::{parse, plain_text, Mode};
use crate::grammar::emit::{emit, segs_wf};
use crate::grammar::ir::{
    BoolIr, ClickIr, HoverIr, ClickIrV, ClickKind, ColorIr, HoleArg, HoleKind, HoverIrV, LangKey, Piece, PieceV, StrSeg, Style,
    StyleV, view_piece_lists, view_pieces,
};
use crate::interactivity::{ClickEvent, Dialog, HoverEvent, Interactivity};
use crate::nbt::encoded::EncodedComponent;
use crate::translation::{Args, TranslatedMessage};
use crate::interactivity::interactivity_none;
use crate::nbt::encode::{
    click_tag, component_tag, components_tags, content_entries, format_entries, hover_tag, interaction_entries,
    opt_click, opt_entry, opt_hover, opt_str, str_tag,
};
use crate::nbt::tag::{
    be, check_tag, entry_payloads, payload, push_be_u32_pub, root_bytes, tag_id, tag_ok, write_root, TagV,
    COMPOUND_ID, END_ID, LIST_ID,
};
use crate::nbt::encode::{write_component_elem, write_component_entry, write_component_root};
use crate::nbt::writers::{
    ascii_bytes, encoded_elem, encoded_entry, extend_bytes, nbt_string, write_color, write_encoded_elem,
    write_encoded_entry, write_encoded_root, write_mutf8,
};
use crate::grammar::emit::{mutf8, to_mutf8, EventKind, NbtSeg, SplicePos};
use crate::grammar::written::{component_fits, written_component};
use crate::parity::{lemma_written_component, pieces_agree};
use crate::grammar::ir::{empty_style, view_opt_segs};
use crate::sorted_names::{add_name, name_set, strictly_sorted};
use crate::fill::string_bytes;
use crate::format::codec_name_spec;

verus! {

/// The value of one hole.
pub enum Value {
    /// Fills `{name}`. Inserted as plain text, never parsed for tags.
    Text(String),
    /// Fills `{@name}`. Keeps its own styling.
    Component(TextComponent),
    /// Fills `{@name}` in `fill_nbt`: the bytes are copied in without decoding.
    Encoded(EncodedComponent),
    /// Fills `<{name}>`.
    Color(Color),
    /// Fills `<b:{name}>` and the other formatting flags.
    Flag(bool),
    /// Fills `<hover:{name}>`.
    Hover(HoverEvent),
    /// Fills `<click:{name}>`.
    Click(ClickEvent),
}

impl Value {
    fn kind_name(&self) -> &'static str {
        match self {
            Value::Text(_) => "text",
            Value::Component(_) => "a component",
            Value::Encoded(_) => "an encoded component",
            Value::Color(_) => "a color",
            Value::Flag(_) => "a flag",
            Value::Hover(_) => "a hover event",
            Value::Click(_) => "a click event",
        }
    }
}

impl From<String> for Value {
    fn from(v: String) -> (r: Value) {
        Value::Text(v)
    }
}

impl vstd::std_specs::convert::FromSpecImpl<String> for Value {
    open spec fn obeys_from_spec() -> bool {
        true
    }

    open spec fn from_spec(v: String) -> Value {
        Value::Text(v)
    }
}

impl From<TextComponent> for Value {
    fn from(v: TextComponent) -> (r: Value) {
        Value::Component(v)
    }
}

impl vstd::std_specs::convert::FromSpecImpl<TextComponent> for Value {
    open spec fn obeys_from_spec() -> bool {
        true
    }

    open spec fn from_spec(v: TextComponent) -> Value {
        Value::Component(v)
    }
}

impl From<EncodedComponent> for Value {
    fn from(v: EncodedComponent) -> (r: Value) {
        Value::Encoded(v)
    }
}

impl vstd::std_specs::convert::FromSpecImpl<EncodedComponent> for Value {
    open spec fn obeys_from_spec() -> bool {
        true
    }

    open spec fn from_spec(v: EncodedComponent) -> Value {
        Value::Encoded(v)
    }
}

impl From<Color> for Value {
    fn from(v: Color) -> (r: Value) {
        Value::Color(v)
    }
}

impl vstd::std_specs::convert::FromSpecImpl<Color> for Value {
    open spec fn obeys_from_spec() -> bool {
        true
    }

    open spec fn from_spec(v: Color) -> Value {
        Value::Color(v)
    }
}

impl From<bool> for Value {
    fn from(v: bool) -> (r: Value) {
        Value::Flag(v)
    }
}

impl vstd::std_specs::convert::FromSpecImpl<bool> for Value {
    open spec fn obeys_from_spec() -> bool {
        true
    }

    open spec fn from_spec(v: bool) -> Value {
        Value::Flag(v)
    }
}

impl From<HoverEvent> for Value {
    fn from(v: HoverEvent) -> (r: Value) {
        Value::Hover(v)
    }
}

impl vstd::std_specs::convert::FromSpecImpl<HoverEvent> for Value {
    open spec fn obeys_from_spec() -> bool {
        true
    }

    open spec fn from_spec(v: HoverEvent) -> Value {
        Value::Hover(v)
    }
}

impl From<ClickEvent> for Value {
    fn from(v: ClickEvent) -> (r: Value) {
        Value::Click(v)
    }
}

impl vstd::std_specs::convert::FromSpecImpl<ClickEvent> for Value {
    open spec fn obeys_from_spec() -> bool {
        true
    }

    open spec fn from_spec(v: ClickEvent) -> Value {
        Value::Click(v)
    }
}

// ---------------------------------------------------------------------------
// Looking values up.

/// The first position at or after `k` holding a value named `name`.
pub open spec fn value_index(vs: Seq<(&str, Value)>, name: Seq<char>, k: int) -> Option<int>
    decreases vs.len() - k,
{
    if k < 0 || k >= vs.len() {
        None
    } else if vs[k].0@ == name {
        Some(k)
    } else {
        value_index(vs, name, k + 1)
    }
}

/// The value a hole takes: the first one supplied under its name. Runtime templates have
/// no positional holes.
pub open spec fn lookup_spec(vs: Seq<(&str, Value)>, arg: HoleArg) -> Option<Value> {
    match arg {
        HoleArg::Named { name, .. } => match value_index(vs, name@, 0) {
            Some(k) => Some(vs[k].1),
            None => None,
        },
        HoleArg::Positional(_) => None,
    }
}

/// The text of literal runs and text holes joined, `None` when a hole lacks a text value.
pub open spec fn resolve_spec(segs: Seq<StrSeg>, vs: Seq<(&str, Value)>) -> Option<Seq<char>>
    decreases segs.len(),
{
    if segs.len() == 0 {
        Some(Seq::empty())
    } else {
        match resolve_spec(segs.drop_last(), vs) {
            None => None,
            Some(t) => match segs.last() {
                StrSeg::Lit(l) => Some(t + l@),
                StrSeg::Hole(arg, _) => match lookup_spec(vs, arg) {
                    Some(Value::Text(s)) => Some(t + s@),
                    _ => None,
                },
            },
        }
    }
}

/// The color a style names.
pub open spec fn color_spec(c: ColorIr, vs: Seq<(&str, Value)>) -> Option<Color> {
    match c {
        ColorIr::Named(n) => from_codec_name_spec(n@),
        ColorIr::Rgb(r, g, b) => Some(Color::Rgb(r, g, b)),
        ColorIr::Dyn(arg) => match lookup_spec(vs, arg) {
            Some(Value::Color(c)) => Some(c),
            _ => None,
        },
    }
}

/// The value a formatting flag takes.
pub open spec fn flag_spec(b: BoolIr, vs: Seq<(&str, Value)>) -> Option<bool> {
    match b {
        BoolIr::Const(v) => Some(v),
        BoolIr::Dyn(arg) => match lookup_spec(vs, arg) {
            Some(Value::Flag(v)) => Some(v),
            _ => None,
        },
    }
}

pub open spec fn flag_ok(b: Option<BoolIr>, vs: Seq<(&str, Value)>) -> bool {
    b matches Some(x) ==> flag_spec(x, vs) is Some
}

// ---------------------------------------------------------------------------
// When filling succeeds.

/// Every hole a style reads has a value of the kind it needs.
pub open spec fn style_ok(s: StyleV, vs: Seq<(&str, Value)>) -> bool
    decreases s,
{
    &&& (s.color matches Some(c) ==> color_spec(c, vs) is Some)
    &&& flag_ok(s.bold, vs)
    &&& flag_ok(s.italic, vs)
    &&& flag_ok(s.underlined, vs)
    &&& flag_ok(s.strikethrough, vs)
    &&& flag_ok(s.obfuscated, vs)
    &&& (s.insertion matches Some(segs) ==> resolve_spec(segs, vs) is Some)
    &&& match s.hover {
        Some(HoverIrV::Dyn(arg)) => lookup_spec(vs, arg) matches Some(Value::Hover(_)),
        Some(HoverIrV::Text(ps)) => pieces_ok(ps, vs),
        _ => true,
    }
    &&& match s.click {
        Some(ClickIrV::Dyn(arg)) => lookup_spec(vs, arg) matches Some(Value::Click(_)),
        Some(ClickIrV::Action(_, segs)) => resolve_spec(segs, vs) is Some,
        None => true,
    }
}

/// Every piece of a list fills.
pub open spec fn pieces_ok(ps: Seq<PieceV>, vs: Seq<(&str, Value)>) -> bool
    decreases ps,
{
    ps.len() == 0 || (pieces_ok(ps.drop_last(), vs) && piece_ok(ps.last(), vs))
}

/// Every argument list of a translation fills.
pub open spec fn args_ok(a: Seq<Seq<PieceV>>, vs: Seq<(&str, Value)>) -> bool
    decreases a,
{
    a.len() == 0 || (args_ok(a.drop_last(), vs) && pieces_ok(a.last(), vs))
}

/// A piece fills: its holes have values of the kinds they need. Only text, keybinds,
/// translations and text or component holes are built at run time.
pub open spec fn piece_ok(p: PieceV, vs: Seq<(&str, Value)>) -> bool
    decreases p,
{
    match p {
        PieceV::Text { style, .. } => style_ok(style, vs),
        PieceV::Keybind { style, .. } => style_ok(style, vs),
        PieceV::Lang { key, fallback, args, style, .. } => {
            &&& (key matches LangKey::Dyn(arg) ==> lookup_spec(vs, arg) matches Some(Value::Text(_)))
            &&& (fallback matches Some(segs) ==> resolve_spec(segs, vs) is Some)
            &&& args_ok(args, vs)
            &&& style_ok(style, vs)
        },
        PieceV::Hole { arg, kind, style, .. } => {
            &&& match (kind, lookup_spec(vs, arg)) {
                (HoleKind::Text, Some(Value::Text(_))) => true,
                (HoleKind::Component, Some(Value::Component(_))) => true,
                _ => false,
            }
            &&& style_ok(style, vs)
        },
        _ => false,
    }
}

// ---------------------------------------------------------------------------
// What filling builds.

/// The format after a style: each field the style sets replaces the old one, or with
/// `keep`, fills it only where it was unset.
pub open spec fn format_after(f: Format, s: StyleV, vs: Seq<(&str, Value)>, keep: bool) -> Format {
    Format {
        color: match s.color {
            Some(c) => if !keep || f.color is None { color_spec(c, vs) } else { f.color },
            None => f.color,
        },
        font: match s.font {
            Some(x) => if !keep || f.font is None { Some(x) } else { f.font },
            None => f.font,
        },
        bold: flag_after(f.bold, s.bold, vs, keep),
        italic: flag_after(f.italic, s.italic, vs, keep),
        underlined: flag_after(f.underlined, s.underlined, vs, keep),
        strikethrough: flag_after(f.strikethrough, s.strikethrough, vs, keep),
        obfuscated: flag_after(f.obfuscated, s.obfuscated, vs, keep),
        shadow_color: match s.shadow_color {
            Some(x) => if !keep || f.shadow_color is None { Some(x) } else { f.shadow_color },
            None => f.shadow_color,
        },
    }
}

pub open spec fn flag_after(old: Option<bool>, b: Option<BoolIr>, vs: Seq<(&str, Value)>, keep: bool) -> Option<bool> {
    match b {
        Some(x) => if !keep || old is None { flag_spec(x, vs) } else { old },
        None => old,
    }
}

/// The click event a template's click action makes.
pub open spec fn click_from(c: ClickIrV, vs: Seq<(&str, Value)>, e: ClickEvent) -> bool {
    match c {
        ClickIrV::Dyn(arg) => lookup_spec(vs, arg) matches Some(Value::Click(k)) && click_alike(e, k),
        ClickIrV::Action(kind, segs) => {
            let t = resolve_spec(segs, vs).unwrap();
            match kind {
                ClickKind::OpenUrl => e matches ClickEvent::OpenUrl { url } && url@ == t,
                ClickKind::RunCommand => e matches ClickEvent::RunCommand { command } && command@ == t,
                ClickKind::SuggestCommand => e matches ClickEvent::SuggestCommand { command } && command@ == t,
                ClickKind::CopyToClipboard => e matches ClickEvent::CopyToClipboard { value } && value@ == t,
                ClickKind::ChangePage(page) => e == (ClickEvent::ChangePage { page }),
                ClickKind::ShowDialog => e matches ClickEvent::ShowDialog { dialog: Dialog::Reference(r) } && r@ == t,
            }
        },
    }
}

/// Whether a style sets this hover: show-item and show-entity hovers are not built at run
/// time.
pub open spec fn sets_hover(h: Option<HoverIrV>) -> bool {
    h matches Some(HoverIrV::Dyn(_)) || h matches Some(HoverIrV::Text(_))
}

/// The hover event a template's hover makes.
pub open spec fn hover_from(h: HoverIrV, vs: Seq<(&str, Value)>, e: HoverEvent) -> bool
    decreases h, 0nat,
{
    match h {
        HoverIrV::Dyn(arg) => lookup_spec(vs, arg) matches Some(Value::Hover(k)) && hover_alike(e, k),
        HoverIrV::Text(ps) => e matches HoverEvent::ShowText { value } && pieces_fill(ps, vs, *value),
        _ => false,
    }
}

/// The events and insertion after a style, each unchanged one alike the old.
pub open spec fn inter_after(s: StyleV, i: Interactivity, vs: Seq<(&str, Value)>, keep: bool, out: Interactivity) -> bool
    decreases s, 0nat,
{
    &&& match s.insertion {
        Some(segs) => if !keep || i.insertion is None {
            out.insertion matches Some(x) && x@ == resolve_spec(segs, vs).unwrap()
        } else {
            out.insertion == i.insertion
        },
        None => out.insertion == i.insertion,
    }
    &&& if sets_hover(s.hover) && (!keep || i.hover is None) {
        out.hover matches Some(e) && hover_from(s.hover.unwrap(), vs, e)
    } else {
        opt_hover_alike(out.hover, i.hover)
    }
    &&& match s.click {
        Some(c) => if !keep || i.click is None {
            out.click matches Some(e) && click_from(c, vs, e)
        } else {
            opt_click_alike(out.click, i.click)
        },
        None => opt_click_alike(out.click, i.click),
    }
}

/// A component built from children, format and events by applying a style.
pub open spec fn styled(
    s: StyleV,
    vs: Seq<(&str, Value)>,
    keep: bool,
    kids: Seq<TextComponent>,
    f: Format,
    i: Interactivity,
    c: TextComponent,
) -> bool
    decreases s, 1nat,
{
    &&& comps_alike(c.children@, kids)
    &&& c.format == format_after(f, s, vs, keep)
    &&& inter_after(s, i, vs, keep, c.interactions)
}

/// No events and no insertion.
pub open spec fn no_interactions() -> Interactivity {
    Interactivity { insertion: None, click: None, hover: None }
}

/// A piece filled: its content, then its style applied. A hole's style only fills what
/// the value leaves unset.
pub open spec fn piece_fill(p: PieceV, vs: Seq<(&str, Value)>, c: TextComponent) -> bool
    decreases p, 2nat,
{
    match p {
        PieceV::Text { text, style, .. } => c.content == (Content::Text { text })
            && styled(style, vs, false, Seq::empty(), format_none(), no_interactions(), c),
        PieceV::Keybind { key, style, .. } => c.content == (Content::Keybind { keybind: key })
            && styled(style, vs, false, Seq::empty(), format_none(), no_interactions(), c),
        PieceV::Lang { key, fallback, args, style, .. } => {
            &&& c.content matches Content::Translate(m)
            &&& match key {
                LangKey::Lit(k) => m.key == k,
                LangKey::Dyn(arg) => lookup_spec(vs, arg) == Some(Value::Text(m.key)),
            }
            &&& match fallback {
                Some(segs) => m.fallback matches Some(f) && f@ == resolve_spec(segs, vs).unwrap(),
                None => m.fallback is None,
            }
            &&& if args.len() == 0 {
                m.args is Absent
            } else {
                m.args matches Args::Owned(v) && args_fill(args, vs, v@)
            }
            &&& styled(style, vs, false, Seq::empty(), format_none(), no_interactions(), c)
        },
        PieceV::Hole { arg, kind, style, .. } => match (kind, lookup_spec(vs, arg)) {
            (HoleKind::Text, Some(Value::Text(s))) => c.content == (Content::Text { text: s })
                && styled(style, vs, true, Seq::empty(), format_none(), no_interactions(), c),
            (HoleKind::Component, Some(Value::Component(v))) => content_alike(c.content, v.content)
                && styled(style, vs, true, v.children@, v.format, v.interactions, c),
            _ => false,
        },
        _ => false,
    }
}

/// Components filled from pieces one for one.
pub open spec fn list_fill(ps: Seq<PieceV>, vs: Seq<(&str, Value)>, cs: Seq<TextComponent>) -> bool
    decreases ps, 0nat,
{
    &&& ps.len() == cs.len()
    &&& (ps.len() == 0 || (list_fill(ps.drop_last(), vs, cs.drop_last()) && piece_fill(ps.last(), vs, cs.last())))
}

/// Translation arguments filled from their templates one for one.
pub open spec fn args_fill(a: Seq<Seq<PieceV>>, vs: Seq<(&str, Value)>, cs: Seq<TextComponent>) -> bool
    decreases a, 0nat,
{
    &&& a.len() == cs.len()
    &&& (a.len() == 0 || (args_fill(a.drop_last(), vs, cs.drop_last()) && pieces_fill(a.last(), vs, cs.last())))
}

/// A template filled: a single piece stands alone, several become the children of an
/// empty text component.
pub open spec fn pieces_fill(ps: Seq<PieceV>, vs: Seq<(&str, Value)>, c: TextComponent) -> bool
    decreases ps, 1nat,
{
    if ps.len() == 1 {
        piece_fill(ps[0], vs, c)
    } else {
        &&& c.content matches Content::Text { text } && text@.len() == 0
        &&& c.format == format_none()
        &&& c.interactions == no_interactions()
        &&& list_fill(ps, vs, c.children@)
    }
}

/// The events and insertion after a style, each unchanged one moved over as it was.
pub open spec fn inter_moved(s: StyleV, i: Interactivity, vs: Seq<(&str, Value)>, keep: bool, out: Interactivity) -> bool {
    &&& match s.insertion {
        Some(segs) => if !keep || i.insertion is None {
            out.insertion matches Some(x) && x@ == resolve_spec(segs, vs).unwrap()
        } else {
            out.insertion == i.insertion
        },
        None => out.insertion == i.insertion,
    }
    &&& if sets_hover(s.hover) && (!keep || i.hover is None) {
        out.hover matches Some(e) && hover_from(s.hover.unwrap(), vs, e)
    } else {
        out.hover == i.hover
    }
    &&& match s.click {
        Some(c) => if !keep || i.click is None {
            out.click matches Some(e) && click_from(c, vs, e)
        } else {
            out.click == i.click
        },
        None => out.click == i.click,
    }
}

proof fn lemma_moved_after(s: StyleV, i: Interactivity, base: Interactivity, vs: Seq<(&str, Value)>, keep: bool, out: Interactivity)
    requires
        inter_moved(s, i, vs, keep, out),
        crate::duplicate::inter_alike(i, base),
    ensures
        inter_after(s, base, vs, keep, out),
{
}

proof fn lemma_none_alike(i: Interactivity)
    requires
        crate::interactivity::interactivity_none(i),
    ensures
        crate::duplicate::inter_alike(i, no_interactions()),
{
}

// ---------------------------------------------------------------------------
// Errors.

/// What an [`Error`] is about.
#[derive(Debug)]
pub enum ErrorKind {
    /// The template does not parse.
    Parse { error: ParseError, template: String },
    /// A value was missing or had the wrong type.
    Fill(String),
}

/// A parse or fill error. `message` renders it, and for a parse error also the position
/// in the template and the help line.
#[derive(Debug)]
pub struct Error {
    kind: ErrorKind,
}

/// Three pieces of text joined.
fn join3(a: &str, b: &str, c: &str) -> (r: String)
    ensures
        r@ == a@ + b@ + c@,
{
    let mut s = String::new();
    s.push_str(a);
    s.push_str(b);
    s.push_str(c);
    s
}

/// Five pieces of text joined.
fn join5(a: &str, b: &str, c: &str, d: &str, e: &str) -> (r: String)
    ensures
        r@ == a@ + b@ + c@ + d@ + e@,
{
    let mut s = join3(a, b, c);
    s.push_str(d);
    s.push_str(e);
    s
}

impl View for Error {
    type V = ErrorKind;

    closed spec fn view(&self) -> ErrorKind {
        self.kind
    }
}

impl Error {
    fn fill(message: String) -> (r: Error)
        ensures
            r@ == ErrorKind::Fill(message),
    {
        Error { kind: ErrorKind::Fill(message) }
    }

    /// What this error is about.
    pub fn kind(&self) -> (r: &ErrorKind)
        ensures
            *r == self@,
    {
        &self.kind
    }

    /// The character range in the template a parse error points at.
    pub fn range(&self) -> (r: Option<(usize, usize)>)
        ensures
            r == match self@ {
                ErrorKind::Parse { error, .. } => Some(error.range),
                ErrorKind::Fill(_) => None,
            },
    {
        match &self.kind {
            ErrorKind::Parse { error, .. } => Some(error.range),
            ErrorKind::Fill(_) => None,
        }
    }

    /// The help line attached to a parse error, if any.
    pub fn help(&self) -> (r: Option<&str>)
        ensures
            match self@ {
                ErrorKind::Parse { error, .. } => match error.help {
                    Some(h) => r matches Some(x) && x@ == h@,
                    None => r is None,
                },
                ErrorKind::Fill(_) => r is None,
            },
    {
        match &self.kind {
            ErrorKind::Parse { error, .. } => match &error.help {
                Some(help) => Some(help.as_str()),
                None => None,
            },
            ErrorKind::Fill(_) => None,
        }
    }
}

// ---------------------------------------------------------------------------
// Filling a tree.

/// The value supplied for a hole.
fn lookup<'v>(values: &'v [(&str, Value)], arg: &HoleArg) -> (r: Result<&'v Value, Error>)
    ensures
        match r {
            Ok(v) => lookup_spec(values@, *arg) == Some(*v),
            Err(_) => lookup_spec(values@, *arg) is None,
        },
{
    match arg {
        HoleArg::Positional(_) => Err(Error::fill("runtime templates need named holes".to_owned())),
        HoleArg::Named { name, range } => {
            let want = chars_of(name.as_str());
            let mut k: usize = 0;
            while k < values.len()
                invariant
                    k <= values@.len(),
                    want@ == name@,
                    value_index(values@, name@, 0) == value_index(values@, name@, k as int),
                    *arg == (HoleArg::Named { name: *name, range: *range }),
                decreases values@.len() - k,
            {
                let have = chars_of(values[k].0);
                if chars_eq(have.as_slice(), want.as_slice()) {
                    return Ok(&values[k].1);
                }
                k = k + 1;
            }
            let mut available = String::new();
            let mut j: usize = 0;
            while j < values.len()
                decreases values@.len() - j,
            {
                if j > 0 {
                    available.push_str(", ");
                }
                available.push_str(values[j].0);
                j = j + 1;
            }
            let mut message = join3("template needs a value for `{", name.as_str(), "}`, provided: [");
            message.push_str(available.as_str());
            message.push_str("]");
            Err(Error::fill(message))
        },
    }
}

/// The name of a hole, for messages.
fn hole_name(arg: &HoleArg) -> &str {
    match arg {
        HoleArg::Named { name, .. } => name.as_str(),
        HoleArg::Positional(_) => "",
    }
}

/// Literal runs and filled text holes joined into one string.
fn resolve_string(segs: &Vec<StrSeg>, what: &str, values: &[(&str, Value)]) -> (r: Result<String, Error>)
    ensures
        match resolve_spec(segs@, values@) {
            Some(t) => r matches Ok(s) && s@ == t,
            None => r is Err,
        },
{
    let mut text = String::new();
    let mut i: usize = 0;
    while i < segs.len()
        invariant
            i <= segs@.len(),
            resolve_spec(segs@.subrange(0, i as int), values@) == Some(text@),
        decreases segs@.len() - i,
    {
        assert(segs@.subrange(0, i + 1).drop_last() =~= segs@.subrange(0, i as int));
        match &segs[i] {
            StrSeg::Lit(l) => text.push_str(l.as_str()),
            StrSeg::Hole(arg, _) => match lookup(values, arg) {
                Ok(Value::Text(s)) => text.push_str(s.as_str()),
                Ok(other) => {
                    proof {
                        lemma_resolve_none(segs@, values@, i as int + 1);
                    }
                    return Err(Error::fill(join5(what, " hole `{", hole_name(arg), "}` needs a text value, got ",
                        other.kind_name())));
                },
                Err(e) => {
                    proof {
                        lemma_resolve_none(segs@, values@, i as int + 1);
                    }
                    return Err(e);
                },
            },
        }
        i = i + 1;
    }
    assert(segs@.subrange(0, segs@.len() as int) =~= segs@);
    Ok(text)
}

proof fn lemma_resolve_none(segs: Seq<StrSeg>, vs: Seq<(&str, Value)>, k: int)
    requires
        0 <= k <= segs.len(),
        resolve_spec(segs.subrange(0, k), vs) is None,
    ensures
        resolve_spec(segs, vs) is None,
    decreases segs.len() - k,
{
    if k < segs.len() {
        assert(segs.subrange(0, k + 1).drop_last() =~= segs.subrange(0, k));
        lemma_resolve_none(segs, vs, k + 1);
    } else {
        assert(segs.subrange(0, k) =~= segs);
    }
}

fn resolve_color(c: &ColorIr, values: &[(&str, Value)]) -> (r: Result<Color, Error>)
    ensures
        match color_spec(*c, values@) {
            Some(x) => r matches Ok(y) && y == x,
            None => r is Err,
        },
{
    match c {
        ColorIr::Named(name) => match Color::from_codec_name(name.as_str()) {
            Some(color) => Ok(color),
            None => Err(Error::fill(join3("the grammar produced a color `", name.as_str(),
                "` this Color version doesn't know"))),
        },
        ColorIr::Rgb(r, g, b) => Ok(Color::Rgb(*r, *g, *b)),
        ColorIr::Dyn(arg) => match lookup(values, arg) {
            Ok(Value::Color(color)) => Ok(*color),
            Ok(other) => Err(Error::fill(join5("`<{", hole_name(arg), "}>` needs a Color value, got ",
                other.kind_name(), ""))),
            Err(e) => Err(e),
        },
    }
}

fn apply_flag(old: Option<bool>, b: &Option<BoolIr>, values: &[(&str, Value)], keep: bool) -> (r: Result<Option<bool>, Error>)
    ensures
        (r is Ok) == flag_ok(*b, values@),
        r matches Ok(x) ==> x == flag_after(old, *b, values@, keep),
{
    match b {
        None => Ok(old),
        Some(b) => {
            let v = match b {
                BoolIr::Const(v) => *v,
                BoolIr::Dyn(arg) => match lookup(values, arg) {
                    Ok(Value::Flag(v)) => *v,
                    Ok(other) => {
                        return Err(Error::fill(join5("flag hole `{", hole_name(arg), "}` needs a bool value, got ",
                            other.kind_name(), "")));
                    },
                    Err(e) => {
                        return Err(e);
                    },
                },
            };
            if !keep || old.is_none() {
                Ok(Some(v))
            } else {
                Ok(old)
            }
        },
    }
}

/// The click event a click action makes from its assembled value.
fn click_event(kind: &ClickKind, value: String) -> (r: ClickEvent)
    ensures
        match *kind {
            ClickKind::OpenUrl => r matches ClickEvent::OpenUrl { url } && url == value,
            ClickKind::RunCommand => r matches ClickEvent::RunCommand { command } && command == value,
            ClickKind::SuggestCommand => r matches ClickEvent::SuggestCommand { command } && command == value,
            ClickKind::CopyToClipboard => r matches ClickEvent::CopyToClipboard { value: v } && v == value,
            ClickKind::ChangePage(page) => r == (ClickEvent::ChangePage { page }),
            ClickKind::ShowDialog => r matches ClickEvent::ShowDialog { dialog: Dialog::Reference(d) } && d == value,
        },
{
    match kind {
        ClickKind::OpenUrl => ClickEvent::OpenUrl { url: value },
        ClickKind::RunCommand => ClickEvent::RunCommand { command: value },
        ClickKind::SuggestCommand => ClickEvent::SuggestCommand { command: value },
        ClickKind::CopyToClipboard => ClickEvent::CopyToClipboard { value },
        ClickKind::ChangePage(page) => ClickEvent::ChangePage { page: *page },
        ClickKind::ShowDialog => ClickEvent::ShowDialog { dialog: Dialog::Reference(value) },
    }
}

/// Applies a style to a component. With `keep`, the style only fills what the component
/// leaves unset.
fn apply_style(component: TextComponent, style: &Style, values: &[(&str, Value)], keep: bool) -> (r: Result<TextComponent, Error>)
    ensures
        (r is Ok) == style_ok(style@, values@),
        r matches Ok(c) ==> {
            &&& c.content == component.content
            &&& c.children == component.children
            &&& c.format == format_after(component.format, style@, values@, keep)
            &&& inter_moved(style@, component.interactions, values@, keep, c.interactions)
        },
    decreases style, 0nat,
{
    let TextComponent { content, children, format, interactions } = component;
    let mut format = format;
    let mut interactions = interactions;
    if let Some(c) = &style.color {
        let color = match resolve_color(c, values) {
            Ok(x) => x,
            Err(e) => {
                return Err(e);
            },
        };
        if !keep || format.color.is_none() {
            format.color = Some(color);
        }
    }
    match apply_flag(format.bold, &style.bold, values, keep) {
        Ok(x) => format.bold = x,
        Err(e) => {
            return Err(e);
        },
    }
    match apply_flag(format.italic, &style.italic, values, keep) {
        Ok(x) => format.italic = x,
        Err(e) => {
            return Err(e);
        },
    }
    match apply_flag(format.underlined, &style.underlined, values, keep) {
        Ok(x) => format.underlined = x,
        Err(e) => {
            return Err(e);
        },
    }
    match apply_flag(format.strikethrough, &style.strikethrough, values, keep) {
        Ok(x) => format.strikethrough = x,
        Err(e) => {
            return Err(e);
        },
    }
    match apply_flag(format.obfuscated, &style.obfuscated, values, keep) {
        Ok(x) => format.obfuscated = x,
        Err(e) => {
            return Err(e);
        },
    }
    if let Some(font) = &style.font {
        if !keep || format.font.is_none() {
            format.font = Some(font.clone());
        }
    }
    if let Some(shadow) = style.shadow_color {
        if !keep || format.shadow_color.is_none() {
            format.shadow_color = Some(shadow);
        }
    }
    if let Some(segs) = &style.insertion {
        let value = match resolve_string(segs, "insertion", values) {
            Ok(v) => v,
            Err(e) => {
                return Err(e);
            },
        };
        if !keep || interactions.insertion.is_none() {
            interactions.insertion = Some(value);
        }
    }
    match &style.hover {
        Some(HoverIr::Dyn(arg)) => {
            let event = match lookup(values, arg) {
                Ok(Value::Hover(event)) => copy_hover(event),
                Ok(other) => {
                    return Err(Error::fill(join5("`<hover:{", hole_name(arg), "}>` needs a HoverEvent value, got ",
                        other.kind_name(), "")));
                },
                Err(e) => {
                    return Err(e);
                },
            };
            if !keep || interactions.hover.is_none() {
                interactions.hover = Some(event);
            }
        },
        Some(HoverIr::Text(pieces)) => {
            let value = match fill_pieces(pieces, values) {
                Ok(c) => c,
                Err(e) => {
                    return Err(e);
                },
            };
            if !keep || interactions.hover.is_none() {
                interactions.hover = Some(HoverEvent::ShowText { value: Box::new(value) });
            }
        },
        _ => {},
    }
    match &style.click {
        Some(ClickIr::Dyn(arg)) => {
            let event = match lookup(values, arg) {
                Ok(Value::Click(event)) => copy_click(event),
                Ok(other) => {
                    return Err(Error::fill(join5("`<click:{", hole_name(arg), "}>` needs a ClickEvent value, got ",
                        other.kind_name(), "")));
                },
                Err(e) => {
                    return Err(e);
                },
            };
            if !keep || interactions.click.is_none() {
                interactions.click = Some(event);
            }
        },
        Some(ClickIr::Action(kind, segs)) => {
            let value = match resolve_string(segs, "click", values) {
                Ok(v) => v,
                Err(e) => {
                    return Err(e);
                },
            };
            let event = click_event(kind, value);
            if !keep || interactions.click.is_none() {
                interactions.click = Some(event);
            }
        },
        None => {},
    }
    Ok(TextComponent { content, children, format, interactions })
}

proof fn lemma_pieces_ok_prefix(ps: Seq<PieceV>, vs: Seq<(&str, Value)>, k: int)
    requires
        0 <= k <= ps.len(),
        !pieces_ok(ps.subrange(0, k), vs),
    ensures
        !pieces_ok(ps, vs),
    decreases ps.len() - k,
{
    if k < ps.len() {
        assert(ps.subrange(0, k + 1).drop_last() =~= ps.subrange(0, k));
        lemma_pieces_ok_prefix(ps, vs, k + 1);
    } else {
        assert(ps.subrange(0, k) =~= ps);
    }
}

proof fn lemma_args_ok_prefix(a: Seq<Seq<PieceV>>, vs: Seq<(&str, Value)>, k: int)
    requires
        0 <= k <= a.len(),
        !args_ok(a.subrange(0, k), vs),
    ensures
        !args_ok(a, vs),
    decreases a.len() - k,
{
    if k < a.len() {
        assert(a.subrange(0, k + 1).drop_last() =~= a.subrange(0, k));
        lemma_args_ok_prefix(a, vs, k + 1);
    } else {
        assert(a.subrange(0, k) =~= a);
    }
}

/// A template's pieces filled into one component.
fn fill_pieces(pieces: &Vec<Piece>, values: &[(&str, Value)]) -> (r: Result<TextComponent, Error>)
    ensures
        (r is Ok) == pieces_ok(view_pieces(pieces@), values@),
        r matches Ok(c) ==> pieces_fill(view_pieces(pieces@), values@, c),
    decreases pieces, 0nat,
{
    let ghost ps = view_pieces(pieces@);
    proof {
        lemma_view_pieces_len(pieces@);
    }
    let mut children: Vec<TextComponent> = Vec::new();
    let mut i: usize = 0;
    while i < pieces.len()
        invariant
            i <= pieces@.len(),
            ps == view_pieces(pieces@),
            ps.len() == pieces@.len(),
            forall|j: int| 0 <= j < pieces@.len() ==> #[trigger] ps[j] == pieces@[j]@,
            pieces_ok(ps.subrange(0, i as int), values@),
            list_fill(ps.subrange(0, i as int), values@, children@),
        decreases pieces@.len() - i,
    {
        assert(ps.subrange(0, i + 1).drop_last() =~= ps.subrange(0, i as int));
        assert(ps.subrange(0, i + 1).last() == pieces@[i as int]@);
        let c = match build_piece(&pieces[i], values) {
            Ok(c) => c,
            Err(e) => {
                proof {
                    lemma_pieces_ok_prefix(ps, values@, i as int + 1);
                }
                return Err(e);
            },
        };
        let ghost before = children@;
        children.push(c);
        assert(children@.drop_last() =~= before);
        i = i + 1;
    }
    assert(ps.subrange(0, pieces@.len() as int) =~= ps);
    if children.len() == 1 {
        assert(list_fill(ps, values@, children@));
        assert(ps.last() == ps[0]);
        let c = children.pop().unwrap();
        Ok(c)
    } else {
        let mut root = TextComponent::plain(String::new());
        root.children = children;
        Ok(root)
    }
}

proof fn lemma_view_piece_lists_len(s: Seq<Vec<Piece>>)
    ensures
        view_piece_lists(s).len() == s.len(),
        forall|i: int| 0 <= i < s.len() ==> #[trigger] view_piece_lists(s)[i] == view_pieces(s[i]@),
    decreases s.len(),
{
    if s.len() > 0 {
        lemma_view_piece_lists_len(s.drop_first());
        assert forall|i: int| 0 <= i < s.len() implies #[trigger] view_piece_lists(s)[i] == view_pieces(s[i]@) by {
            if i > 0 {
                assert(s[i] == s.drop_first()[i - 1]);
            }
        }
    }
}

/// The argument templates of a translation, each filled.
fn fill_args(args: &Vec<Vec<Piece>>, values: &[(&str, Value)]) -> (r: Result<Vec<TextComponent>, Error>)
    ensures
        (r is Ok) == args_ok(view_piece_lists(args@), values@),
        r matches Ok(v) ==> args_fill(view_piece_lists(args@), values@, v@),
    decreases args, 0nat,
{
    let ghost a = view_piece_lists(args@);
    proof {
        lemma_view_piece_lists_len(args@);
    }
    let mut translated: Vec<TextComponent> = Vec::new();
    let mut j: usize = 0;
    while j < args.len()
        invariant
            j <= args@.len(),
            a == view_piece_lists(args@),
            a.len() == args@.len(),
            forall|i: int| 0 <= i < args@.len() ==> #[trigger] a[i] == view_pieces(args@[i]@),
            args_ok(a.subrange(0, j as int), values@),
            args_fill(a.subrange(0, j as int), values@, translated@),
        decreases args@.len() - j,
    {
        assert(a.subrange(0, j + 1).drop_last() =~= a.subrange(0, j as int));
        assert(a.subrange(0, j + 1).last() == view_pieces(args@[j as int]@));
        let c = match fill_pieces(&args[j], values) {
            Ok(c) => c,
            Err(e) => {
                proof {
                    lemma_args_ok_prefix(a, values@, j as int + 1);
                }
                return Err(e);
            },
        };
        let ghost before = translated@;
        translated.push(c);
        assert(translated@.drop_last() =~= before);
        j = j + 1;
    }
    assert(a.subrange(0, args@.len() as int) =~= a);
    Ok(translated)
}

/// Applies a style to a base component built from the template, or copied from a value.
fn style_base(
    base: TextComponent,
    Ghost(like): Ghost<Interactivity>,
    style: &Style,
    values: &[(&str, Value)],
    keep: bool,
) -> (r: Result<TextComponent, Error>)
    requires
        crate::duplicate::inter_alike(base.interactions, like),
    ensures
        (r is Ok) == style_ok(style@, values@),
        r matches Ok(c) ==> {
            &&& c.content == base.content
            &&& c.children == base.children
            &&& c.format == format_after(base.format, style@, values@, keep)
            &&& inter_after(style@, like, values@, keep, c.interactions)
        },
    decreases style, 1nat,
{
    let ghost bi = base.interactions;
    let r = apply_style(base, style, values, keep);
    proof {
        if r is Ok {
            lemma_moved_after(style@, bi, like, values@, keep, r->Ok_0.interactions);
        }
    }
    r
}

/// One piece filled.
fn build_piece(piece: &Piece, values: &[(&str, Value)]) -> (r: Result<TextComponent, Error>)
    ensures
        (r is Ok) == piece_ok(piece@, values@),
        r matches Ok(c) ==> piece_fill(piece@, values@, c),
    decreases piece, 0nat,
{
    match piece {
        Piece::Text { text, style, .. } => {
            let base = TextComponent::plain(text.clone());
            proof {
                lemma_none_alike(base.interactions);
            }
            style_base(base, Ghost(no_interactions()), style, values, false)
        },
        Piece::Keybind { key, style, .. } => {
            let base = TextComponent::of(Content::Keybind { keybind: key.clone() });
            proof {
                lemma_none_alike(base.interactions);
            }
            style_base(base, Ghost(no_interactions()), style, values, false)
        },
        Piece::Lang { key, fallback, args, style, .. } => {
            let key = match key {
                LangKey::Lit(k) => k.clone(),
                LangKey::Dyn(arg) => match lookup(values, arg) {
                    Ok(Value::Text(k)) => k.clone(),
                    Ok(other) => {
                        return Err(Error::fill(join5("`<lang:{", hole_name(arg), "}>` needs a text key, got ",
                            other.kind_name(), "")));
                    },
                    Err(e) => {
                        return Err(e);
                    },
                },
            };
            let fallback = match fallback {
                Some(segs) => match resolve_string(segs, "fallback", values) {
                    Ok(f) => Some(f),
                    Err(e) => {
                        return Err(e);
                    },
                },
                None => None,
            };
            let translated = match fill_args(args, values) {
                Ok(v) => v,
                Err(e) => {
                    return Err(e);
                },
            };
            let args = if translated.len() == 0 {
                Args::Absent
            } else {
                Args::Owned(translated)
            };
            let base = TextComponent::translated(TranslatedMessage { key, fallback, args });
            proof {
                lemma_none_alike(base.interactions);
            }
            style_base(base, Ghost(no_interactions()), style, values, false)
        },
        Piece::Hole { arg, kind, style, .. } => {
            let value = match lookup(values, arg) {
                Ok(v) => v,
                Err(e) => {
                    return Err(e);
                },
            };
            let ghost mut like = no_interactions();
            let base = match (kind, value) {
                (HoleKind::Text, Value::Text(s)) => {
                    let base = TextComponent::plain(s.clone());
                    proof {
                        lemma_none_alike(base.interactions);
                    }
                    base
                },
                (HoleKind::Component, Value::Component(c)) => {
                    proof {
                        like = c.interactions;
                    }
                    c.duplicate()
                },
                (HoleKind::Text, Value::Component(_)) => {
                    let name = hole_name(arg);
                    let mut m = join5("`{", name, "}` is a text hole but the value is a component — write {@", name, "}");
                    return Err(Error::fill(m));
                },
                (HoleKind::Component, Value::Text(_)) => {
                    let name = hole_name(arg);
                    let mut m = join5("`{@", name, "}` is a component hole but the value is text — write {", name, "}");
                    return Err(Error::fill(m));
                },
                (HoleKind::Component, Value::Encoded(_)) => {
                    return Err(Error::fill(join3("`{@", hole_name(arg),
                        "}` got an EncodedComponent. fill() cannot use it; use fill_nbt(), or pass a TextComponent")));
                },
                (_, other) => {
                    return Err(Error::fill(join5("`{", hole_name(arg), "}` can't take ", other.kind_name(), "")));
                },
            };
            style_base(base, Ghost(like), style, values, true)
        },
        _ => Err(Error::fill("this tag is not built by run-time templates".to_owned())),
    }
}

// ---------------------------------------------------------------------------
// The tags a filled template encodes as.

/// A text entry when the text is present.
pub open spec fn opt_text_entry(name: Seq<char>, o: Option<Seq<char>>) -> Seq<(Seq<char>, TagV)> {
    match o {
        Some(t) => seq![(name, str_tag(t))],
        None => Seq::empty(),
    }
}

pub open spec fn opt_view(o: Option<String>) -> Option<Seq<char>> {
    match o {
        Some(s) => Some(s@),
        None => None,
    }
}

/// The insertion after a style.
pub open spec fn insertion_after(s: StyleV, i: Interactivity, vs: Seq<(&str, Value)>, keep: bool) -> Option<Seq<char>> {
    match s.insertion {
        Some(segs) => if !keep || i.insertion is None { Some(resolve_spec(segs, vs).unwrap()) } else { opt_view(i.insertion) },
        None => opt_view(i.insertion),
    }
}

/// The tag of the event a click action makes.
pub open spec fn click_ir_tag(c: ClickIrV, vs: Seq<(&str, Value)>) -> TagV {
    match c {
        ClickIrV::Dyn(arg) => match lookup_spec(vs, arg) {
            Some(Value::Click(k)) => click_tag(k),
            _ => TagV::Byte(0),
        },
        ClickIrV::Action(kind, segs) => {
            let t = resolve_spec(segs, vs).unwrap();
            let (action, field, value) = match kind {
                ClickKind::OpenUrl => ("open_url"@, "url"@, str_tag(t)),
                ClickKind::RunCommand => ("run_command"@, "command"@, str_tag(t)),
                ClickKind::SuggestCommand => ("suggest_command"@, "command"@, str_tag(t)),
                ClickKind::CopyToClipboard => ("copy_to_clipboard"@, "value"@, str_tag(t)),
                ClickKind::ChangePage(page) => ("change_page"@, "page"@, TagV::Int(page)),
                ClickKind::ShowDialog => ("show_dialog"@, "dialog"@, str_tag(t)),
            };
            TagV::Compound(seq![("action"@, str_tag(action)), (field, value)])
        },
    }
}

/// The tag of the hover a template sets.
pub open spec fn hover_ir_tag(h: HoverIrV, vs: Seq<(&str, Value)>) -> TagV
    decreases h, 0nat,
{
    match h {
        HoverIrV::Dyn(arg) => match lookup_spec(vs, arg) {
            Some(Value::Hover(k)) => hover_tag(k),
            _ => TagV::Byte(0),
        },
        HoverIrV::Text(ps) => TagV::Compound(seq![("action"@, str_tag("show_text"@)), ("value"@, fill_tag(ps, vs))]),
        _ => TagV::Byte(0),
    }
}

/// The event and insertion entries after a style.
pub open spec fn inter_entries_after(s: StyleV, i: Interactivity, vs: Seq<(&str, Value)>, keep: bool) -> Seq<(Seq<char>, TagV)>
    decreases s, 0nat,
{
    opt_text_entry("insertion"@, insertion_after(s, i, vs, keep))
        + (if sets_hover(s.hover) && (!keep || i.hover is None) {
            seq![("hover_event"@, hover_ir_tag(s.hover.unwrap(), vs))]
        } else {
            opt_hover(i.hover)
        })
        + match s.click {
            Some(c) => if !keep || i.click is None { seq![("click_event"@, click_ir_tag(c, vs))] } else { opt_click(i.click) },
            None => opt_click(i.click),
        }
}

/// Whether a style leaves a component without events and insertion.
pub open spec fn no_events_after(s: StyleV, i: Interactivity) -> bool {
    &&& s.insertion is None && i.insertion is None
    &&& !sets_hover(s.hover) && i.hover is None
    &&& s.click is None && i.click is None
}

/// The tag of a component built from content entries, child tags, format and events by a
/// style; `bare` is its text when its content is text.
pub open spec fn styled_tag(
    bare: Option<Seq<char>>,
    ce: Seq<(Seq<char>, TagV)>,
    kids: Seq<TagV>,
    s: StyleV,
    vs: Seq<(&str, Value)>,
    keep: bool,
    f: Format,
    i: Interactivity,
) -> TagV
    decreases s, 1nat,
{
    let fa = format_after(f, s, vs, keep);
    if bare is Some && kids.len() == 0 && fa == format_none() && no_events_after(s, i) {
        str_tag(bare.unwrap())
    } else {
        TagV::Compound(ce + format_entries(fa) + inter_entries_after(s, i, vs, keep)
            + opt_entry(kids.len() > 0, "extra"@, TagV::List(kids)))
    }
}

/// The entries of a translation.
pub open spec fn lang_entries(key: Seq<char>, fallback: Option<Seq<char>>, args: Option<Seq<TagV>>) -> Seq<(Seq<char>, TagV)> {
    seq![("translate"@, str_tag(key))] + opt_text_entry("fallback"@, fallback) + match args {
        Some(a) => seq![("with"@, TagV::List(a))],
        None => Seq::empty(),
    }
}

/// The text of a content, when it is text.
pub open spec fn bare_text(c: Content) -> Option<Seq<char>> {
    match c {
        Content::Text { text } => Some(text@),
        _ => None,
    }
}

/// The tag a piece fills to.
pub open spec fn piece_tag(p: PieceV, vs: Seq<(&str, Value)>) -> TagV
    decreases p, 2nat,
{
    match p {
        PieceV::Text { text, style, .. } => styled_tag(Some(text@), seq![("text"@, str_tag(text@))], Seq::empty(),
            style, vs, false, format_none(), no_interactions()),
        PieceV::Keybind { key, style, .. } => styled_tag(None, seq![("keybind"@, str_tag(key@))], Seq::empty(),
            style, vs, false, format_none(), no_interactions()),
        PieceV::Lang { key, fallback, args, style, .. } => {
            let k = match key {
                LangKey::Lit(k) => k@,
                LangKey::Dyn(arg) => match lookup_spec(vs, arg) {
                    Some(Value::Text(t)) => t@,
                    _ => Seq::empty(),
                },
            };
            let fb = match fallback {
                Some(segs) => Some(resolve_spec(segs, vs).unwrap()),
                None => None,
            };
            let a = if args.len() == 0 { None } else { Some(args_tags(args, vs)) };
            styled_tag(None, lang_entries(k, fb, a), Seq::empty(), style, vs, false, format_none(), no_interactions())
        },
        PieceV::Hole { arg, kind, style, .. } => match (kind, lookup_spec(vs, arg)) {
            (HoleKind::Text, Some(Value::Text(t))) => styled_tag(Some(t@), seq![("text"@, str_tag(t@))], Seq::empty(),
                style, vs, true, format_none(), no_interactions()),
            (HoleKind::Component, Some(Value::Component(v))) => styled_tag(bare_text(v.content),
                content_entries(v.content), components_tags(v.children@), style, vs, true, v.format, v.interactions),
            _ => TagV::Byte(0),
        },
        _ => TagV::Byte(0),
    }
}

/// The tags of pieces filled one for one.
pub open spec fn list_tags(ps: Seq<PieceV>, vs: Seq<(&str, Value)>) -> Seq<TagV>
    decreases ps, 0nat,
{
    if ps.len() == 0 { Seq::empty() } else { list_tags(ps.drop_last(), vs).push(piece_tag(ps.last(), vs)) }
}

/// The tags of translation arguments.
pub open spec fn args_tags(a: Seq<Seq<PieceV>>, vs: Seq<(&str, Value)>) -> Seq<TagV>
    decreases a, 0nat,
{
    if a.len() == 0 { Seq::empty() } else { args_tags(a.drop_last(), vs).push(fill_tag(a.last(), vs)) }
}

/// The tag a template fills to.
pub open spec fn fill_tag(ps: Seq<PieceV>, vs: Seq<(&str, Value)>) -> TagV
    decreases ps, 1nat,
{
    if ps.len() == 1 {
        piece_tag(ps[0], vs)
    } else if ps.len() == 0 {
        str_tag(Seq::empty())
    } else {
        TagV::Compound(seq![("text"@, str_tag(Seq::empty())), ("extra"@, TagV::List(list_tags(ps, vs)))])
    }
}

proof fn lemma_format_none_entries()
    ensures
        format_entries(format_none()) == Seq::<(Seq<char>, TagV)>::empty(),
{
    assert(format_entries(format_none()) =~= Seq::<(Seq<char>, TagV)>::empty());
}

proof fn lemma_click_ir(c: ClickIrV, vs: Seq<(&str, Value)>, e: ClickEvent)
    requires
        click_from(c, vs, e),
    ensures
        click_tag(e) == click_ir_tag(c, vs),
{
    if let ClickIrV::Dyn(arg) = c {
        if let Some(Value::Click(k)) = lookup_spec(vs, arg) {
            crate::duplicate::lemma_click_tag(e, k);
        }
    }
}

proof fn lemma_hover_ir(h: HoverIrV, vs: Seq<(&str, Value)>, e: HoverEvent)
    requires
        hover_from(h, vs, e),
    ensures
        hover_tag(e) == hover_ir_tag(h, vs),
    decreases h, 0nat,
{
    match h {
        HoverIrV::Dyn(arg) => {
            if let Some(Value::Hover(k)) = lookup_spec(vs, arg) {
                crate::duplicate::lemma_alike_hover(e, k);
            }
        },
        HoverIrV::Text(ps) => {
            if let HoverEvent::ShowText { value } = e {
                lemma_fill_tag(ps, vs, *value);
            }
        },
        _ => {},
    }
}

proof fn lemma_inter_entries(s: StyleV, i: Interactivity, vs: Seq<(&str, Value)>, keep: bool, out: Interactivity)
    requires
        inter_after(s, i, vs, keep, out),
    ensures
        interaction_entries(out) == inter_entries_after(s, i, vs, keep),
        interactivity_none(out) == no_events_after(s, i),
    decreases s, 0nat,
{
    assert(opt_str("insertion"@, out.insertion) == opt_text_entry("insertion"@, insertion_after(s, i, vs, keep)));
    if sets_hover(s.hover) && (!keep || i.hover is None) {
        lemma_hover_ir(s.hover.unwrap(), vs, out.hover.unwrap());
    } else if let Some(h) = out.hover {
        crate::duplicate::lemma_alike_hover(h, i.hover.unwrap());
    }
    assert(opt_hover(out.hover) == (if sets_hover(s.hover) && (!keep || i.hover is None) {
        seq![("hover_event"@, hover_ir_tag(s.hover.unwrap(), vs))]
    } else {
        opt_hover(i.hover)
    }));
    match s.click {
        Some(c) => {
            if !keep || i.click is None {
                lemma_click_ir(c, vs, out.click.unwrap());
            } else {
                crate::duplicate::lemma_click_tag(out.click.unwrap(), i.click.unwrap());
            }
        },
        None => {
            if let Some(c) = out.click {
                crate::duplicate::lemma_click_tag(c, i.click.unwrap());
            }
        },
    }
}

proof fn lemma_styled_tag(
    bare: Option<Seq<char>>,
    ce: Seq<(Seq<char>, TagV)>,
    kids: Seq<TextComponent>,
    s: StyleV,
    vs: Seq<(&str, Value)>,
    keep: bool,
    f: Format,
    i: Interactivity,
    c: TextComponent,
)
    requires
        styled(s, vs, keep, kids, f, i, c),
        content_entries(c.content) == ce,
        bare_text(c.content) == bare,
    ensures
        component_tag(c) == styled_tag(bare, ce, components_tags(kids), s, vs, keep, f, i),
    decreases s, 1nat,
{
    lemma_inter_entries(s, i, vs, keep, c.interactions);
    crate::duplicate::lemma_alike_tags(c.children@, kids);
    lemma_tags_len(c.children@);
    lemma_tags_len(kids);
}

proof fn lemma_tags_len(s: Seq<TextComponent>)
    ensures
        components_tags(s).len() == s.len(),
    decreases s.len(),
{
    if s.len() > 0 {
        lemma_tags_len(s.drop_last());
    }
}

proof fn lemma_piece_tag(p: PieceV, vs: Seq<(&str, Value)>, c: TextComponent)
    requires
        piece_fill(p, vs, c),
    ensures
        component_tag(c) == piece_tag(p, vs),
    decreases p, 2nat,
{
    match p {
        PieceV::Text { text, style, .. } => {
            lemma_styled_tag(Some(text@), seq![("text"@, str_tag(text@))], Seq::empty(), style, vs, false,
                format_none(), no_interactions(), c);
            assert(components_tags(Seq::<TextComponent>::empty()) =~= Seq::<TagV>::empty());
        },
        PieceV::Keybind { key, style, .. } => {
            lemma_styled_tag(None, seq![("keybind"@, str_tag(key@))], Seq::empty(), style, vs, false,
                format_none(), no_interactions(), c);
            assert(components_tags(Seq::<TextComponent>::empty()) =~= Seq::<TagV>::empty());
        },
        PieceV::Lang { key, fallback, args, style, .. } => {
            if let Content::Translate(m) = c.content {
                let k = match key {
                    LangKey::Lit(k) => k@,
                    LangKey::Dyn(arg) => match lookup_spec(vs, arg) {
                        Some(Value::Text(t)) => t@,
                        _ => Seq::empty(),
                    },
                };
                let fb = match fallback {
                    Some(segs) => Some(resolve_spec(segs, vs).unwrap()),
                    None => None,
                };
                let a = if args.len() == 0 { None } else { Some(args_tags(args, vs)) };
                if args.len() > 0 {
                    if let Args::Owned(v) = m.args {
                        lemma_args_tags(args, vs, v@);
                    }
                }
                assert(content_entries(c.content) =~= lang_entries(k, fb, a));
                lemma_styled_tag(None, lang_entries(k, fb, a), Seq::empty(), style, vs, false, format_none(),
                    no_interactions(), c);
                assert(components_tags(Seq::<TextComponent>::empty()) =~= Seq::<TagV>::empty());
            }
        },
        PieceV::Hole { arg, kind, style, .. } => {
            match (kind, lookup_spec(vs, arg)) {
                (HoleKind::Text, Some(Value::Text(t))) => {
                    lemma_styled_tag(Some(t@), seq![("text"@, str_tag(t@))], Seq::empty(), style, vs, true,
                        format_none(), no_interactions(), c);
                    assert(components_tags(Seq::<TextComponent>::empty()) =~= Seq::<TagV>::empty());
                },
                (HoleKind::Component, Some(Value::Component(v))) => {
                    crate::duplicate::lemma_alike_content(c.content, v.content);
                    lemma_styled_tag(bare_text(v.content), content_entries(v.content), v.children@, style, vs,
                        true, v.format, v.interactions, c);
                },
                _ => {},
            }
        },
        _ => {},
    }
}

proof fn lemma_list_tags(ps: Seq<PieceV>, vs: Seq<(&str, Value)>, cs: Seq<TextComponent>)
    requires
        list_fill(ps, vs, cs),
    ensures
        components_tags(cs) == list_tags(ps, vs),
    decreases ps, 0nat,
{
    if ps.len() > 0 {
        lemma_list_tags(ps.drop_last(), vs, cs.drop_last());
        lemma_piece_tag(ps.last(), vs, cs.last());
    }
}

proof fn lemma_args_tags(a: Seq<Seq<PieceV>>, vs: Seq<(&str, Value)>, cs: Seq<TextComponent>)
    requires
        args_fill(a, vs, cs),
    ensures
        components_tags(cs) == args_tags(a, vs),
    decreases a, 0nat,
{
    if a.len() > 0 {
        lemma_args_tags(a.drop_last(), vs, cs.drop_last());
        lemma_fill_tag(a.last(), vs, cs.last());
    }
}

/// A filled template encodes as its tag model: the tree `fill` builds and the bytes
/// `fill_nbt` writes for a spliced component agree.
pub proof fn lemma_fill_tag(ps: Seq<PieceV>, vs: Seq<(&str, Value)>, c: TextComponent)
    requires
        pieces_fill(ps, vs, c),
    ensures
        component_tag(c) == fill_tag(ps, vs),
    decreases ps, 1nat,
{
    if ps.len() == 1 {
        lemma_piece_tag(ps[0], vs, c);
    } else {
        lemma_list_tags(ps, vs, c.children@);
        lemma_format_none_entries();
        lemma_tags_len(c.children@);
        assert(interaction_entries(c.interactions) =~= Seq::<(Seq<char>, TagV)>::empty());
        if let Content::Text { text } = c.content {
            assert(text@ =~= Seq::<char>::empty());
            assert(content_entries(c.content) =~= seq![("text"@, str_tag(Seq::empty()))]);
        }
        if ps.len() > 0 {
            assert(c.children@.len() > 0);
            let ce = content_entries(c.content);
            assert(component_tag(c) == TagV::Compound(ce + format_entries(c.format)
                + interaction_entries(c.interactions)
                + opt_entry(true, "extra"@, TagV::List(components_tags(c.children@)))));
            assert(ce + format_entries(c.format) + interaction_entries(c.interactions)
                + opt_entry(true, "extra"@, TagV::List(components_tags(c.children@)))
                =~= seq![("text"@, str_tag(Seq::empty())), ("extra"@, TagV::List(list_tags(ps, vs)))]);
        } else {
            lemma_tags_len(c.children@);
        }
    }
}

// ---------------------------------------------------------------------------
// Filling straight to bytes.

/// Where a spliced component lands, by the name of its entry.
pub enum PlaceV {
    Root,
    Elem,
    Entry(Seq<char>),
}

/// The place a splice position names.
pub open spec fn place_of(at: SplicePos) -> PlaceV {
    match at {
        SplicePos::Root => PlaceV::Root,
        SplicePos::Elem => PlaceV::Elem,
        SplicePos::Entry(name) => PlaceV::Entry(name@),
    }
}

/// A component tag written at a splice point, `None` past the limits of NBT.
pub open spec fn placed_tag(t: TagV, at: PlaceV) -> Option<Seq<u8>> {
    if !tag_ok(t) {
        None
    } else {
        match at {
            PlaceV::Root => Some(root_bytes(t)),
            PlaceV::Elem => Some(encoded_elem(root_bytes(t))),
            PlaceV::Entry(name) => if mutf8(name).len() > 0xFFFF {
                None
            } else {
                Some(encoded_entry(name, root_bytes(t)))
            },
        }
    }
}

/// Encoded bytes spliced in unstyled.
pub open spec fn placed_encoded(e: Seq<u8>, at: PlaceV) -> Option<Seq<u8>> {
    match at {
        PlaceV::Root => Some(e),
        PlaceV::Elem => Some(encoded_elem(e)),
        PlaceV::Entry(name) => if e.len() > 0 && mutf8(name).len() > 0xFFFF {
            None
        } else {
            Some(encoded_entry(name, e))
        },
    }
}

/// The tag of the empty text a style is carried on when it wraps encoded bytes.
pub open spec fn carrier_tag(s: StyleV, vs: Seq<(&str, Value)>) -> TagV {
    styled_tag(Some(Seq::empty()), seq![("text"@, str_tag(Seq::empty()))], Seq::empty(), s, vs, false,
        format_none(), no_interactions())
}

/// Encoded bytes as the only child of a styled carrier: the carrier's entries, then an
/// `extra` list of one element. A carrier that encodes as a plain string leaves only the
/// element.
pub open spec fn wrapped(ct: TagV, e: Seq<u8>) -> Seq<u8> {
    if tag_id(ct) == COMPOUND_ID {
        payload(ct).drop_last() + seq![LIST_ID] + nbt_string("extra"@) + seq![COMPOUND_ID] + be(1, 4)
            + encoded_elem(e) + seq![0u8]
    } else {
        encoded_elem(e)
    }
}

/// Encoded bytes spliced in under a styled carrier.
pub open spec fn placed_wrapped(ct: TagV, e: Seq<u8>, at: PlaceV) -> Option<Seq<u8>> {
    if !tag_ok(ct) {
        None
    } else {
        match at {
            PlaceV::Root => Some(seq![COMPOUND_ID] + wrapped(ct, e)),
            PlaceV::Elem => Some(wrapped(ct, e)),
            PlaceV::Entry(name) => if mutf8(name).len() > 0xFFFF {
                None
            } else {
                Some(seq![COMPOUND_ID] + nbt_string(name) + wrapped(ct, e))
            },
        }
    }
}

/// What a text hole fills to: its text value as an NBT string.
pub open spec fn text_hole_bytes(arg: HoleArg, vs: Seq<(&str, Value)>) -> Option<Seq<u8>> {
    match lookup_spec(vs, arg) {
        Some(Value::Text(s)) => string_bytes(s@),
        _ => None,
    }
}

/// What a color hole fills to: the color's codec name as an NBT string.
pub open spec fn color_hole_bytes(arg: HoleArg, vs: Seq<(&str, Value)>) -> Option<Seq<u8>> {
    match lookup_spec(vs, arg) {
        Some(Value::Color(c)) => Some(seq![0u8, codec_name_spec(c).len() as u8] + ascii_bytes(codec_name_spec(c))),
        _ => None,
    }
}

/// What a string of literal runs and text holes fills to.
pub open spec fn joined_bytes(parts: Seq<StrSeg>, vs: Seq<(&str, Value)>) -> Option<Seq<u8>> {
    match resolve_spec(parts, vs) {
        Some(t) => string_bytes(t),
        None => None,
    }
}

/// What a flag hole fills to: one byte.
pub open spec fn flag_hole_bytes(arg: HoleArg, vs: Seq<(&str, Value)>) -> Option<Seq<u8>> {
    match lookup_spec(vs, arg) {
        Some(Value::Flag(b)) => Some(seq![if b { 1u8 } else { 0u8 }]),
        _ => None,
    }
}

/// What an event hole fills to: the event compound's payload.
pub open spec fn event_hole_bytes(arg: HoleArg, kind: EventKind, vs: Seq<(&str, Value)>) -> Option<Seq<u8>> {
    match (kind, lookup_spec(vs, arg)) {
        (EventKind::Hover, Some(Value::Hover(e))) => if tag_ok(hover_tag(e)) { Some(payload(hover_tag(e))) } else { None },
        (EventKind::Click, Some(Value::Click(e))) => if tag_ok(click_tag(e)) { Some(payload(click_tag(e))) } else { None },
        _ => None,
    }
}

/// What a component hole fills to: a component value styled and written at its place, or
/// encoded bytes spliced in, under a styled carrier when the hole has a style.
pub open spec fn component_hole_bytes(arg: HoleArg, style: StyleV, at: PlaceV, vs: Seq<(&str, Value)>) -> Option<Seq<u8>> {
    match lookup_spec(vs, arg) {
        Some(Value::Component(v)) => if style_ok(style, vs) {
            placed_tag(styled_tag(bare_text(v.content), content_entries(v.content), components_tags(v.children@),
                style, vs, true, v.format, v.interactions), at)
        } else {
            None
        },
        Some(Value::Encoded(e)) => if style == empty_style() {
            placed_encoded(e@, at)
        } else if style_ok(style, vs) {
            placed_wrapped(carrier_tag(style, vs), e@, at)
        } else {
            None
        },
        _ => None,
    }
}

/// The bytes one segment fills to, `None` when its value is missing, of the wrong kind,
/// or past the limits of NBT.
pub open spec fn nbt_seg_bytes(seg: NbtSeg, vs: Seq<(&str, Value)>) -> Option<Seq<u8>> {
    match seg {
        NbtSeg::Bytes(b) => Some(b@),
        NbtSeg::Hole(arg, _) => text_hole_bytes(arg, vs),
        NbtSeg::LangKey { arg, .. } => text_hole_bytes(arg, vs),
        NbtSeg::ColorHole(arg) => color_hole_bytes(arg, vs),
        NbtSeg::StrSplice(parts) => joined_bytes(parts@, vs),
        NbtSeg::BoolHole(arg) => flag_hole_bytes(arg, vs),
        NbtSeg::EventHole { arg, kind } => event_hole_bytes(arg, kind, vs),
        NbtSeg::Component { arg, style, at } => component_hole_bytes(arg, style@, place_of(at), vs),
        NbtSeg::ConstComponent { .. } => None,
    }
}

/// The bytes a whole template fills to, `None` when a segment cannot be written.
pub open spec fn nbt_fill_spec(segs: Seq<NbtSeg>, vs: Seq<(&str, Value)>) -> Option<Seq<u8>>
    decreases segs.len(),
{
    if segs.len() == 0 {
        Some(Seq::empty())
    } else {
        match (nbt_fill_spec(segs.drop_last(), vs), nbt_seg_bytes(segs.last(), vs)) {
            (Some(a), Some(b)) => Some(a + b),
            _ => None,
        }
    }
}

proof fn lemma_nbt_fill_none(segs: Seq<NbtSeg>, vs: Seq<(&str, Value)>, k: int)
    requires
        0 <= k <= segs.len(),
        nbt_fill_spec(segs.subrange(0, k), vs) is None,
    ensures
        nbt_fill_spec(segs, vs) is None,
    decreases segs.len() - k,
{
    if k < segs.len() {
        assert(segs.subrange(0, k + 1).drop_last() =~= segs.subrange(0, k));
        lemma_nbt_fill_none(segs, vs, k + 1);
    } else {
        assert(segs.subrange(0, k) =~= segs);
    }
}

fn too_long() -> (r: Error) {
    Error::fill("filled value exceeds the 65535-byte limit of an NBT string".to_owned())
}

/// Writes a text value as an NBT string.
fn write_text(buf: &mut Vec<u8>, s: &str) -> (r: Result<(), Error>)
    ensures
        match string_bytes(s@) {
            Some(b) => r is Ok && final(buf)@ == old(buf)@ + b,
            None => r is Err && final(buf)@ == old(buf)@,
        },
{
    let b = to_mutf8(s);
    if b.len() > 0xFFFF {
        return Err(too_long());
    }
    write_mutf8(buf, s);
    Ok(())
}

/// A component written at a splice point.
fn write_placed(buf: &mut Vec<u8>, c: &TextComponent, at: &SplicePos) -> (r: Result<(), Error>)
    ensures
        match placed_tag(component_tag(*c), place_of(*at)) {
            Some(b) => r is Ok && final(buf)@ == old(buf)@ + b,
            None => r is Err,
        },
{
    let t = c.to_codec_nbt();
    if !check_tag(&t) {
        return Err(Error::fill("a filled component exceeds the limits of NBT".to_owned()));
    }
    match at {
        SplicePos::Root => write_component_root(buf, c),
        SplicePos::Elem => write_component_elem(buf, c),
        SplicePos::Entry(name) => {
            if to_mutf8(name.as_str()).len() > 0xFFFF {
                return Err(too_long());
            }
            write_component_entry(buf, name.as_str(), c);
        },
    }
    Ok(())
}

/// Encoded bytes spliced in unstyled.
fn write_encoded_at(buf: &mut Vec<u8>, e: &EncodedComponent, at: &SplicePos) -> (r: Result<(), Error>)
    ensures
        match placed_encoded(e@, place_of(*at)) {
            Some(b) => r is Ok && final(buf)@ == old(buf)@ + b,
            None => r is Err,
        },
{
    match at {
        SplicePos::Root => write_encoded_root(buf, e.as_bytes()),
        SplicePos::Elem => write_encoded_elem(buf, e.as_bytes()),
        SplicePos::Entry(name) => {
            if e.as_bytes().len() > 0 && to_mutf8(name.as_str()).len() > 0xFFFF {
                return Err(too_long());
            }
            write_encoded_entry(buf, name.as_str(), e.as_bytes());
        },
    }
    Ok(())
}

/// The style a splice puts its bytes under, as a tag.
pub open spec fn splice_style(style: Option<&TextComponent>) -> Option<TagV> {
    match style {
        Some(c) => Some(component_tag(*c)),
        None => None,
    }
}

/// A carrier the codec can write.
pub open spec fn carrier_ok(style: Option<&TextComponent>) -> bool {
    match style {
        Some(c) => tag_ok(component_tag(*c)),
        None => true,
    }
}

/// What splicing writes as the whole message: the bytes, or a compound of the carrier with the
/// bytes as its only child.
pub open spec fn spliced_root(style: Option<TagV>, e: Seq<u8>) -> Seq<u8> {
    match style {
        None => e,
        Some(ct) => seq![COMPOUND_ID] + wrapped(ct, e),
    }
}

/// What splicing writes as one element of a compound list.
pub open spec fn spliced_elem(style: Option<TagV>, e: Seq<u8>) -> Seq<u8> {
    match style {
        None => encoded_elem(e),
        Some(ct) => wrapped(ct, e),
    }
}

/// What splicing writes as the value of the entry `name`.
pub open spec fn spliced_entry(name: Seq<char>, style: Option<TagV>, e: Seq<u8>) -> Seq<u8> {
    match style {
        None => encoded_entry(name, e),
        Some(ct) => seq![COMPOUND_ID] + nbt_string(name) + wrapped(ct, e),
    }
}

impl EncodedComponent {
    /// Splices these bytes in as the whole message, under `style` when one is given.
    pub fn splice_root(self, buf: &mut Vec<u8>, style: Option<&TextComponent>)
        requires
            carrier_ok(style),
        ensures
            final(buf)@ == old(buf)@ + spliced_root(splice_style(style), self@),
    {
        match style {
            None => write_encoded_root(buf, self.as_bytes()),
            Some(c) => {
                buf.push(COMPOUND_ID);
                write_wrapped(buf, c, &self);
            },
        }
        assert(final(buf)@ =~= old(buf)@ + spliced_root(splice_style(style), self@));
    }

    /// Splices these bytes in as one element of a compound list, under `style` when one is
    /// given.
    pub fn splice_elem(self, buf: &mut Vec<u8>, style: Option<&TextComponent>)
        requires
            carrier_ok(style),
        ensures
            final(buf)@ == old(buf)@ + spliced_elem(splice_style(style), self@),
    {
        match style {
            None => write_encoded_elem(buf, self.as_bytes()),
            Some(c) => write_wrapped(buf, c, &self),
        }
    }

    /// Splices these bytes in as the value of the entry `name`, under `style` when one is
    /// given.
    pub fn splice_entry(self, buf: &mut Vec<u8>, name: &str, style: Option<&TextComponent>)
        requires
            carrier_ok(style),
            mutf8(name@).len() <= 0xFFFF,
        ensures
            final(buf)@ == old(buf)@ + spliced_entry(name@, splice_style(style), self@),
    {
        match style {
            None => write_encoded_entry(buf, name, self.as_bytes()),
            Some(c) => {
                buf.push(COMPOUND_ID);
                write_mutf8(buf, name);
                write_wrapped(buf, c, &self);
            },
        }
        assert(final(buf)@ =~= old(buf)@ + spliced_entry(name@, splice_style(style), self@));
    }
}

/// Encoded bytes as the only child of a styled carrier.
fn write_wrapped(buf: &mut Vec<u8>, carrier: &TextComponent, e: &EncodedComponent)
    requires
        tag_ok(component_tag(*carrier)),
    ensures
        final(buf)@ == old(buf)@ + wrapped(component_tag(*carrier), e@),
{
    let t = carrier.to_codec_nbt();
    let mut tmp: Vec<u8> = Vec::new();
    write_root(&mut tmp, &t);
    assert(tmp@ =~= root_bytes(t@));
    if tmp[0] == COMPOUND_ID {
        proof {
            lemma_compound_payload_ends(t@);
        }
        let mut i: usize = 1;
        let end = tmp.len() - 1;
        let ghost start = buf@;
        while i < end
            invariant
                1 <= i <= end,
                end == tmp@.len() - 1,
                buf@ == start + tmp@.subrange(1, i as int),
            decreases end - i,
        {
            buf.push(tmp[i]);
            i = i + 1;
            assert(buf@ =~= start + tmp@.subrange(1, i as int));
        }
        assert(tmp@.subrange(1, end as int) =~= payload(t@).drop_last());
        buf.push(LIST_ID);
        proof {
            reveal_strlit("extra");
            lemma_ascii_mutf8_extra();
        }
        write_mutf8(buf, "extra");
        buf.push(COMPOUND_ID);
        push_be_u32_pub(buf, 1);
        write_encoded_elem(buf, e.as_bytes());
        buf.push(0);
        assert(final(buf)@ =~= old(buf)@ + wrapped(component_tag(*carrier), e@));
    } else {
        write_encoded_elem(buf, e.as_bytes());
    }
}

proof fn lemma_compound_payload_ends(t: TagV)
    requires
        tag_id(t) == COMPOUND_ID,
    ensures
        payload(t).len() >= 1,
{
    if let TagV::Compound(es) = t {
        assert(payload(t) == entry_payloads(es) + seq![END_ID]);
    }
}

proof fn lemma_ascii_mutf8_extra()
    ensures
        mutf8("extra"@).len() <= 0xFFFF,
{
    reveal_strlit("extra");
    crate::grammar::emit::lemma_mutf8_len_ascii_bound("extra"@);
}

/// A component hole's bytes: a component value styled and encoded, or encoded bytes
/// spliced in, under a styled carrier when the hole has a style.
fn write_component_seg(buf: &mut Vec<u8>, arg: &HoleArg, style: &Box<Style>, at: &SplicePos, values: &[(&str, Value)]) -> (r: Result<(), Error>)
    ensures
        match nbt_seg_bytes(NbtSeg::Component { arg: *arg, style: *style, at: *at }, values@) {
            Some(b) => r is Ok && final(buf)@ == old(buf)@ + b,
            None => r is Err,
        },
{
match lookup(values, arg) {
        Ok(Value::Component(component)) => {
            let copy = component.duplicate();
            let styled = match style_base(copy, Ghost(component.interactions), style, values, true) {
                Ok(c) => c,
                Err(e) => {
                    return Err(e);
                },
            };
            proof {
                crate::duplicate::lemma_alike_content(styled.content, component.content);
                lemma_alike_bare(styled.content, component.content);
                lemma_styled_tag(bare_text(component.content), content_entries(component.content),
                    component.children@, style@, values@, true, component.format, component.interactions, styled);
            }
            write_placed(buf, &styled, at)
        },
        Ok(Value::Encoded(encoded)) => {
            if style.is_empty() {
                write_encoded_at(buf, encoded, at)
            } else {
                let base = TextComponent::plain(String::new());
                proof {
                    lemma_none_alike(base.interactions);
                }
                let carrier = match style_base(base, Ghost(no_interactions()), style, values, false) {
                    Ok(c) => c,
                    Err(e) => {
                        return Err(e);
                    },
                };
                proof {
                    lemma_styled_tag(Some(Seq::empty()), seq![("text"@, str_tag(Seq::empty()))], Seq::empty(),
                        style@, values@, false, format_none(), no_interactions(), carrier);
                    assert(components_tags(Seq::<TextComponent>::empty()) =~= Seq::<TagV>::empty());
                }
                let t = carrier.to_codec_nbt();
                if !check_tag(&t) {
                    return Err(Error::fill("a filled component exceeds the limits of NBT".to_owned()));
                }
                match at {
                    SplicePos::Root => {
                        buf.push(COMPOUND_ID);
                        write_wrapped(buf, &carrier, encoded);
                    },
                    SplicePos::Elem => write_wrapped(buf, &carrier, encoded),
                    SplicePos::Entry(name) => {
                        if to_mutf8(name.as_str()).len() > 0xFFFF {
                            return Err(too_long());
                        }
                        buf.push(COMPOUND_ID);
                        write_mutf8(buf, name.as_str());
                        write_wrapped(buf, &carrier, encoded);
                    },
                }
                Ok(())
            }
        },
        Ok(other) => Err(Error::fill(join5("`{@", hole_name(arg), "}` needs a component value, got ",
            other.kind_name(), ""))),
        Err(e) => Err(e),
    }
}

/// One segment's bytes.
fn write_nbt_seg(buf: &mut Vec<u8>, seg: &NbtSeg, values: &[(&str, Value)]) -> (r: Result<(), Error>)
    ensures
        match nbt_seg_bytes(*seg, values@) {
            Some(b) => r is Ok && final(buf)@ == old(buf)@ + b,
            None => r is Err,
        },
{
    match seg {
        NbtSeg::Bytes(b) => {
            extend_bytes(buf, b.as_slice());
            Ok(())
        },
        NbtSeg::Hole(arg, _) => match lookup(values, arg) {
            Ok(Value::Text(s)) => write_text(buf, s.as_str()),
            Ok(other) => Err(Error::fill(join5("`{", hole_name(arg), "}` needs a text value, got ", other.kind_name(), ""))),
            Err(e) => Err(e),
        },
        NbtSeg::LangKey { arg, .. } => match lookup(values, arg) {
            Ok(Value::Text(s)) => write_text(buf, s.as_str()),
            Ok(other) => Err(Error::fill(join5("`<lang:{", hole_name(arg), "}>` needs a text key, got ",
                other.kind_name(), ""))),
            Err(e) => Err(e),
        },
        NbtSeg::ColorHole(arg) => match lookup(values, arg) {
            Ok(Value::Color(c)) => {
                write_color(buf, c);
                Ok(())
            },
            Ok(other) => Err(Error::fill(join5("`<{", hole_name(arg), "}>` needs a Color value, got ",
                other.kind_name(), ""))),
            Err(e) => Err(e),
        },
        NbtSeg::StrSplice(parts) => match resolve_string(parts, "click", values) {
            Ok(t) => write_text(buf, t.as_str()),
            Err(e) => Err(e),
        },
        NbtSeg::BoolHole(arg) => match lookup(values, arg) {
            Ok(Value::Flag(b)) => {
                buf.push(if *b { 1 } else { 0 });
                Ok(())
            },
            Ok(other) => Err(Error::fill(join5("flag hole `{", hole_name(arg), "}` needs a bool value, got ",
                other.kind_name(), ""))),
            Err(e) => Err(e),
        },
        NbtSeg::EventHole { arg, kind } => {
            let tag = match (kind, lookup(values, arg)) {
                (EventKind::Hover, Ok(Value::Hover(event))) => event.to_codec_nbt(),
                (EventKind::Click, Ok(Value::Click(event))) => event.to_codec_nbt(),
                (EventKind::Hover, Ok(other)) => {
                    return Err(Error::fill(join5("`<hover:{", hole_name(arg), "}>` needs a HoverEvent value, got ",
                        other.kind_name(), "")));
                },
                (EventKind::Click, Ok(other)) => {
                    return Err(Error::fill(join5("`<click:{", hole_name(arg), "}>` needs a ClickEvent value, got ",
                        other.kind_name(), "")));
                },
                (_, Err(e)) => {
                    return Err(e);
                },
            };
            if !check_tag(&tag) {
                return Err(Error::fill("a filled event exceeds the limits of NBT".to_owned()));
            }
            let mut tmp: Vec<u8> = Vec::new();
            write_root(&mut tmp, &tag);
            let rest = crate::grammar::emit::tail_bytes(tmp.as_slice());
            assert(rest@ =~= payload(tag@));
            extend_bytes(buf, rest.as_slice());
            Ok(())
        },
        NbtSeg::Component { arg, style, at } => write_component_seg(buf, arg, style, at, values),
        NbtSeg::ConstComponent { .. } => Err(Error::fill(
            "{@const} splices only work in the text_nbt! macro; pass the component as a value".to_owned(),
        )),
    }
}

proof fn lemma_alike_bare(a: Content, b: Content)
    requires
        content_alike(a, b),
    ensures
        bare_text(a) == bare_text(b),
{
}

// ---------------------------------------------------------------------------
// Templates.

/// A parsed MiniMessage template. Parse once, fill as often as needed.
#[derive(Debug)]
pub struct MiniMessage {
    pieces: Vec<Piece>,
    segments: Vec<NbtSeg>,
}

impl View for MiniMessage {
    /// The template's pieces, and the byte segments it fills to NBT through.
    type V = (Seq<PieceV>, Seq<NbtSeg>);

    closed spec fn view(&self) -> (Seq<PieceV>, Seq<NbtSeg>) {
        (view_pieces(self.pieces@), self.segments@)
    }
}

/// The segments fill to what the emitter writes for the pieces, under every set of values.
pub open spec fn emitted(ps: Seq<PieceV>, segs: Seq<NbtSeg>) -> bool {
    &&& segs_wf(segs)
    &&& forall|vs: Seq<(&str, Value)>| #[trigger] nbt_fill_spec(segs, vs) == written_component(ps, vs)
}

impl MiniMessage {
    /// A template's segments are the ones its pieces emit to.
    #[verifier::type_invariant]
    spec fn segments_emitted(self) -> bool {
        emitted(view_pieces(self.pieces@), self.segments@)
    }

    /// Parses a template. The error carries the position in the template and a help
    /// line, both rendered by `message`.
    pub fn new(input: &str) -> (r: Result<MiniMessage, Error>)
        ensures
            r matches Ok(m) ==> emitted(m@.0, m@.1) && component_fits(m@.0),
            r matches Err(e) ==> (e@ matches ErrorKind::Parse { template, .. } ==> template@ == input@),
            plain_text(input@) ==> (r matches Ok(m) ==> m@.0.len() == (if input@.len() == 0 { 0int } else { 1int })),
            plain_text(input@) && input@.len() > 0 ==> (r matches Ok(m) ==> (m@.0[0] matches PieceV::Text { text, style, range }
                && text@ == input@ && style == empty_style() && range.0 == 0 && range.1 == input@.len())),
    {
        let template = match parse(input, Mode::Runtime) {
            Ok(t) => t,
            Err(error) => {
                return Err(Error { kind: ErrorKind::Parse { error, template: input.to_owned() } });
            },
        };
        let segments = match emit(&template.pieces) {
            Ok(segs) => segs,
            Err(e) => {
                return match e.range {
                    Some(range) => Err(Error {
                        kind: ErrorKind::Parse {
                            error: ParseError { range, message: e.message, help: None },
                            template: input.to_owned(),
                        },
                    }),
                    None => Err(Error::fill(e.message)),
                };
            },
        };
        proof {
            reveal_with_fuel(view_pieces, 2);
        }
        Ok(MiniMessage { pieces: template.pieces, segments })
    }

    /// Fills the template. A missing value, or one of the wrong kind, is an error.
    pub fn fill(&self, values: &[(&str, Value)]) -> (r: Result<TextComponent, Error>)
        ensures
            (r is Ok) == pieces_ok(self@.0, values@),
            r matches Ok(c) ==> pieces_fill(self@.0, values@, c),
    {
        fill_pieces(&self.pieces, values)
    }

    /// Fills the template and returns the message encoded as network NBT.
    pub fn fill_nbt(&self, values: &[(&str, Value)]) -> (r: Result<EncodedComponent, Error>)
        ensures
            match nbt_fill_spec(self@.1, values@) {
                Some(b) => r matches Ok(e) && e@ == b,
                None => r is Err,
            },
            pieces_ok(self@.0, values@) && pieces_agree(self@.0, values@) && tag_ok(fill_tag(self@.0, values@))
                ==> (r matches Ok(e) && e@ == root_bytes(fill_tag(self@.0, values@))),
    {
        proof {
            use_type_invariant(self);
            if pieces_ok(self@.0, values@) && pieces_agree(self@.0, values@) && tag_ok(fill_tag(self@.0, values@)) {
                lemma_written_component(self@.0, values@);
            }
        }
        fill_segments_nbt(&self.segments, values)
    }
}

/// The bytes a segment list fills to.
fn fill_segments_nbt(segments: &Vec<NbtSeg>, values: &[(&str, Value)]) -> (r: Result<EncodedComponent, Error>)
    ensures
        match nbt_fill_spec(segments@, values@) {
            Some(b) => r matches Ok(e) && e@ == b,
            None => r is Err,
        },
{
    let mut buf: Vec<u8> = Vec::new();
    let mut i: usize = 0;
    while i < segments.len()
        invariant
            i <= segments@.len(),
            nbt_fill_spec(segments@.subrange(0, i as int), values@) == Some(buf@),
        decreases segments@.len() - i,
    {
        assert(segments@.subrange(0, i + 1).drop_last() =~= segments@.subrange(0, i as int));
        if let Err(e) = write_nbt_seg(&mut buf, &segments[i], values) {
            proof {
                lemma_nbt_fill_none(segments@, values@, i as int + 1);
            }
            return Err(e);
        }
        i = i + 1;
    }
    assert(segments@.subrange(0, segments@.len() as int) =~= segments@);
    Ok(EncodedComponent::from_vec(buf))
}

impl Error {
    /// The message; a parse error also shows the position in the template and the help
    /// line.
    pub fn message(&self) -> (r: String)
        ensures
            self@ matches ErrorKind::Fill(m) ==> r == m,
            self@ matches ErrorKind::Parse { error, template } ==> (utf8_len(template@) <= usize::MAX ==>
                r@ == rendered_report(error.message@, template@,
                    utf8_len(template@.subrange(0, span_chars(template@.len() as int, error.range).0)),
                    utf8_len(template@.subrange(0, span_chars(template@.len() as int, error.range).1)),
                    match error.help {
                        Some(h) => Some(h@),
                        None => None,
                    })),
    {
        match &self.kind {
            ErrorKind::Parse { error, template } => {
                let cs = chars_of(template.as_str());
                if utf8_length(cs.as_slice()) <= usize::MAX as u128 {
                    error.render(template.as_str())
                } else {
                    error.message.clone()
                }
            },
            ErrorKind::Fill(m) => m.clone(),
        }
    }
}

// ---------------------------------------------------------------------------
// The names of a template's holes.

pub open spec fn arg_names(arg: HoleArg) -> Set<Seq<char>> {
    match arg {
        HoleArg::Named { name, .. } => set![name@],
        HoleArg::Positional(_) => Set::empty(),
    }
}

pub open spec fn seg_names(segs: Seq<StrSeg>) -> Set<Seq<char>>
    decreases segs.len(),
{
    if segs.len() == 0 {
        Set::empty()
    } else {
        seg_names(segs.drop_last()).union(match segs.last() {
            StrSeg::Hole(arg, _) => arg_names(arg),
            StrSeg::Lit(_) => Set::empty(),
        })
    }
}

pub open spec fn flag_names(b: Option<BoolIr>) -> Set<Seq<char>> {
    match b {
        Some(BoolIr::Dyn(arg)) => arg_names(arg),
        _ => Set::empty(),
    }
}

/// The holes a style reads.
pub open spec fn style_names(s: StyleV) -> Set<Seq<char>>
    decreases s,
{
    (match s.color {
        Some(ColorIr::Dyn(arg)) => arg_names(arg),
        _ => Set::empty(),
    }).union(flag_names(s.bold)).union(flag_names(s.italic)).union(flag_names(s.underlined))
        .union(flag_names(s.strikethrough)).union(flag_names(s.obfuscated))
        .union(match s.insertion {
            Some(segs) => seg_names(segs),
            None => Set::empty(),
        })
        .union(match s.hover {
            Some(HoverIrV::Text(ps)) => pieces_names(ps),
            Some(HoverIrV::Dyn(arg)) => arg_names(arg),
            _ => Set::empty(),
        })
        .union(match s.click {
            Some(ClickIrV::Action(_, segs)) => seg_names(segs),
            Some(ClickIrV::Dyn(arg)) => arg_names(arg),
            None => Set::empty(),
        })
}

/// The holes a piece reads: its own, those of a translation's key, fallback and
/// arguments, and those of its style.
pub open spec fn piece_names(p: PieceV) -> Set<Seq<char>>
    decreases p,
{
    match p {
        PieceV::Hole { arg, style, .. } => arg_names(arg).union(style_names(style)),
        PieceV::Lang { key, fallback, args, style, .. } => (match key {
            LangKey::Dyn(arg) => arg_names(arg),
            LangKey::Lit(_) => Set::empty(),
        }).union(match fallback {
            Some(segs) => seg_names(segs),
            None => Set::empty(),
        }).union(args_names(args)).union(style_names(style)),
        PieceV::Text { style, .. } => style_names(style),
        PieceV::Keybind { style, .. } => style_names(style),
        PieceV::Score { style, .. } => style_names(style),
        PieceV::Selector { style, .. } => style_names(style),
        PieceV::Nbt { style, .. } => style_names(style),
        PieceV::Sprite { style, .. } => style_names(style),
        PieceV::Head { style, .. } => style_names(style),
    }
}

pub open spec fn pieces_names(ps: Seq<PieceV>) -> Set<Seq<char>>
    decreases ps,
{
    if ps.len() == 0 { Set::empty() } else { pieces_names(ps.drop_last()).union(piece_names(ps.last())) }
}

pub open spec fn args_names(a: Seq<Seq<PieceV>>) -> Set<Seq<char>>
    decreases a,
{
    if a.len() == 0 { Set::empty() } else { args_names(a.drop_last()).union(pieces_names(a.last())) }
}

fn collect_arg(arg: &HoleArg, out: &mut Vec<String>)
    requires
        strictly_sorted(old(out)@),
    ensures
        strictly_sorted(final(out)@),
        name_set(final(out)@) == name_set(old(out)@).union(arg_names(*arg)),
{
    match arg {
        HoleArg::Named { name, .. } => {
            add_name(out, name.as_str());
            assert(name_set(out@) =~= name_set(old(out)@).union(arg_names(*arg)));
        },
        HoleArg::Positional(_) => {
            assert(name_set(out@) =~= name_set(old(out)@).union(arg_names(*arg)));
        },
    }
}

fn collect_segs(segs: &Vec<StrSeg>, out: &mut Vec<String>)
    requires
        strictly_sorted(old(out)@),
    ensures
        strictly_sorted(final(out)@),
        name_set(final(out)@) == name_set(old(out)@).union(seg_names(segs@)),
{
    let ghost start = name_set(out@);
    let mut i: usize = 0;
    assert(start =~= start.union(seg_names(segs@.subrange(0, 0))));
    while i < segs.len()
        invariant
            i <= segs@.len(),
            strictly_sorted(out@),
            name_set(out@) == start.union(seg_names(segs@.subrange(0, i as int))),
        decreases segs@.len() - i,
    {
        assert(segs@.subrange(0, i + 1).drop_last() =~= segs@.subrange(0, i as int));
        let ghost before = name_set(out@);
        if let StrSeg::Hole(arg, _) = &segs[i] {
            collect_arg(arg, out);
        } else {
            assert(name_set(out@) =~= before.union(Set::empty()));
        }
        i = i + 1;
        assert(name_set(out@) =~= start.union(seg_names(segs@.subrange(0, i as int))));
    }
    assert(segs@.subrange(0, segs@.len() as int) =~= segs@);
}

fn collect_opt_segs(segs: &Option<Vec<StrSeg>>, out: &mut Vec<String>)
    requires
        strictly_sorted(old(out)@),
    ensures
        strictly_sorted(final(out)@),
        name_set(final(out)@) == name_set(old(out)@).union(match view_opt_segs(*segs) {
            Some(s) => seg_names(s),
            None => Set::empty(),
        }),
{
    match segs {
        Some(v) => collect_segs(v, out),
        None => {
            assert(name_set(out@) =~= name_set(old(out)@).union(Set::empty()));
        },
    }
}

fn collect_flag(b: &Option<BoolIr>, out: &mut Vec<String>)
    requires
        strictly_sorted(old(out)@),
    ensures
        strictly_sorted(final(out)@),
        name_set(final(out)@) == name_set(old(out)@).union(flag_names(*b)),
{
    match b {
        Some(BoolIr::Dyn(arg)) => collect_arg(arg, out),
        _ => {
            assert(name_set(out@) =~= name_set(old(out)@).union(flag_names(*b)));
        },
    }
}

fn collect_style(style: &Style, out: &mut Vec<String>)
    requires
        strictly_sorted(old(out)@),
    ensures
        strictly_sorted(final(out)@),
        name_set(final(out)@) == name_set(old(out)@).union(style_names(style@)),
    decreases style,
{
    let ghost s = style@;
    let ghost start = name_set(out@);
    let ghost c = match s.color {
        Some(ColorIr::Dyn(arg)) => arg_names(arg),
        _ => Set::<Seq<char>>::empty(),
    };
    match &style.color {
        Some(ColorIr::Dyn(arg)) => collect_arg(arg, out),
        _ => {
            assert(name_set(out@) =~= start.union(c));
        },
    }
    let ghost s1 = name_set(out@);
    collect_flag(&style.bold, out);
    collect_flag(&style.italic, out);
    collect_flag(&style.underlined, out);
    collect_flag(&style.strikethrough, out);
    collect_flag(&style.obfuscated, out);
    let ghost s2 = name_set(out@);
    collect_opt_segs(&style.insertion, out);
    let ghost s3 = name_set(out@);
    let ghost h = match s.hover {
        Some(HoverIrV::Text(ps)) => pieces_names(ps),
        Some(HoverIrV::Dyn(arg)) => arg_names(arg),
        _ => Set::<Seq<char>>::empty(),
    };
    match &style.hover {
        Some(HoverIr::Text(ps)) => collect_pieces(ps, out),
        Some(HoverIr::Dyn(arg)) => collect_arg(arg, out),
        _ => {
            assert(name_set(out@) =~= s3.union(h));
        },
    }
    let ghost s4 = name_set(out@);
    let ghost k = match s.click {
        Some(ClickIrV::Action(_, segs)) => seg_names(segs),
        Some(ClickIrV::Dyn(arg)) => arg_names(arg),
        None => Set::<Seq<char>>::empty(),
    };
    match &style.click {
        Some(ClickIr::Action(_, segs)) => collect_segs(segs, out),
        Some(ClickIr::Dyn(arg)) => collect_arg(arg, out),
        None => {
            assert(name_set(out@) =~= s4.union(k));
        },
    }
    assert(name_set(out@) =~= start.union(style_names(s)));
}

fn collect_piece(piece: &Piece, out: &mut Vec<String>)
    requires
        strictly_sorted(old(out)@),
    ensures
        strictly_sorted(final(out)@),
        name_set(final(out)@) == name_set(old(out)@).union(piece_names(piece@)),
    decreases piece,
{
    let ghost start = name_set(out@);
    match piece {
        Piece::Hole { arg, style, .. } => {
            collect_arg(arg, out);
            collect_style(style, out);
        },
        Piece::Lang { key, fallback, args, style, .. } => {
            if let LangKey::Dyn(arg) = key {
                collect_arg(arg, out);
            } else {
                assert(name_set(out@) =~= start.union(Set::empty()));
            }
            collect_opt_segs(fallback, out);
            collect_args(args, out);
            collect_style(style, out);
        },
        Piece::Text { style, .. } => collect_style(style, out),
        Piece::Keybind { style, .. } => collect_style(style, out),
        Piece::Score { style, .. } => collect_style(style, out),
        Piece::Selector { style, .. } => collect_style(style, out),
        Piece::Nbt { style, .. } => collect_style(style, out),
        Piece::Sprite { style, .. } => collect_style(style, out),
        Piece::Head { style, .. } => collect_style(style, out),
    }
    assert(name_set(out@) =~= start.union(piece_names(piece@)));
}

fn collect_pieces(pieces: &Vec<Piece>, out: &mut Vec<String>)
    requires
        strictly_sorted(old(out)@),
    ensures
        strictly_sorted(final(out)@),
        name_set(final(out)@) == name_set(old(out)@).union(pieces_names(view_pieces(pieces@))),
    decreases pieces,
{
    let ghost ps = view_pieces(pieces@);
    proof {
        lemma_view_pieces_len(pieces@);
    }
    let ghost start = name_set(out@);
    assert(start =~= start.union(pieces_names(ps.subrange(0, 0))));
    let mut i: usize = 0;
    while i < pieces.len()
        invariant
            i <= pieces@.len(),
            ps == view_pieces(pieces@),
            ps.len() == pieces@.len(),
            forall|j: int| 0 <= j < pieces@.len() ==> #[trigger] ps[j] == pieces@[j]@,
            strictly_sorted(out@),
            name_set(out@) == start.union(pieces_names(ps.subrange(0, i as int))),
        decreases pieces@.len() - i,
    {
        assert(ps.subrange(0, i + 1).drop_last() =~= ps.subrange(0, i as int));
        assert(ps.subrange(0, i + 1).last() == pieces@[i as int]@);
        collect_piece(&pieces[i], out);
        i = i + 1;
        assert(name_set(out@) =~= start.union(pieces_names(ps.subrange(0, i as int))));
    }
    assert(ps.subrange(0, pieces@.len() as int) =~= ps);
}

fn collect_args(args: &Vec<Vec<Piece>>, out: &mut Vec<String>)
    requires
        strictly_sorted(old(out)@),
    ensures
        strictly_sorted(final(out)@),
        name_set(final(out)@) == name_set(old(out)@).union(args_names(view_piece_lists(args@))),
    decreases args,
{
    let ghost a = view_piece_lists(args@);
    proof {
        lemma_view_piece_lists_len(args@);
    }
    let ghost start = name_set(out@);
    assert(start =~= start.union(args_names(a.subrange(0, 0))));
    let mut j: usize = 0;
    while j < args.len()
        invariant
            j <= args@.len(),
            a == view_piece_lists(args@),
            a.len() == args@.len(),
            forall|i: int| 0 <= i < args@.len() ==> #[trigger] a[i] == view_pieces(args@[i]@),
            strictly_sorted(out@),
            name_set(out@) == start.union(args_names(a.subrange(0, j as int))),
        decreases args@.len() - j,
    {
        assert(a.subrange(0, j + 1).drop_last() =~= a.subrange(0, j as int));
        assert(a.subrange(0, j + 1).last() == view_pieces(args@[j as int]@));
        collect_pieces(&args[j], out);
        j = j + 1;
        assert(name_set(out@) =~= start.union(args_names(a.subrange(0, j as int))));
    }
    assert(a.subrange(0, args@.len() as int) =~= a);
}

impl MiniMessage {
    /// The names of the holes this template needs, sorted, each once.
    pub fn holes(&self) -> (r: Vec<String>)
        ensures
            strictly_sorted(r@),
            name_set(r@) == pieces_names(self@.0),
    {
        let mut out: Vec<String> = Vec::new();
        assert(name_set(out@) =~= Set::<Seq<char>>::empty());
        collect_pieces(&self.pieces, &mut out);
        assert(name_set(out@) =~= pieces_names(self@.0));
        out
    }
}

} // verus!
