//! Components as the NBT tags vanilla's component codec writes, and as network bytes.
use vstd::prelude::*;
use crate::component::TextComponent;
use crate::content::{Content, NbtSource, Object, ObjectPlayer, PlayerModel, PlayerProperties, Resolvable};
use crate::format::{codec_name_spec, format_none, Color, Format};
use crate::interactivity::{interactivity_none, ClickEvent, Dialog, HoverEvent, Interactivity};
use crate::nbt::encoded::{EncodedComponent, UnresolvedContent};
use crate::nbt::tag::{
    be, push_be_u32_pub, root_bytes, tag_ok, view_entries, view_tag, view_tags, write_root, NbtTag, TagV,
    COMPOUND_ID, END_ID, LIST_ID, STRING_ID,
};
use crate::grammar::emit::mutf8;
use crate::nbt::tag::{entry_payloads, payload, payload_wrapped};
use crate::nbt::writers::{encoded_elem, encoded_entry, nbt_string, write_encoded_elem, write_encoded_entry, write_mutf8};
use crate::translation::{Args, TranslatedMessage};

verus! {

/// A string tag.
pub open spec fn str_tag(s: Seq<char>) -> TagV {
    TagV::String(s)
}

/// One entry, or none when `present` is false.
pub open spec fn opt_entry(present: bool, name: Seq<char>, t: TagV) -> Seq<(Seq<char>, TagV)> {
    if present { seq![(name, t)] } else { Seq::empty() }
}

/// A flag as the codec stores it: one byte, 1 or 0.
pub open spec fn flag_tag(b: bool) -> TagV {
    TagV::Byte(if b { 1 } else { 0 })
}

/// A string entry when the value is present.
pub open spec fn opt_str(name: Seq<char>, o: Option<String>) -> Seq<(Seq<char>, TagV)> {
    match o {
        Some(s) => seq![(name, str_tag(s@))],
        None => Seq::empty(),
    }
}

/// A flag entry when the flag is set.
pub open spec fn opt_flag(name: Seq<char>, o: Option<bool>) -> Seq<(Seq<char>, TagV)> {
    match o {
        Some(b) => seq![(name, flag_tag(b))],
        None => Seq::empty(),
    }
}

/// The color entry when a color is set: its codec name.
pub open spec fn opt_color(o: Option<Color>) -> Seq<(Seq<char>, TagV)> {
    match o {
        Some(c) => seq![("color"@, str_tag(codec_name_spec(c)))],
        None => Seq::empty(),
    }
}

/// The shadow entry when a shadow is set.
pub open spec fn opt_shadow(o: Option<i32>) -> Seq<(Seq<char>, TagV)> {
    match o {
        Some(v) => seq![("shadow_color"@, TagV::Int(v))],
        None => Seq::empty(),
    }
}

/// The styling entries of a format, in codec order.
pub open spec fn format_entries(f: Format) -> Seq<(Seq<char>, TagV)> {
    opt_color(f.color) + opt_str("font"@, f.font) + opt_flag("bold"@, f.bold) + opt_flag("italic"@, f.italic)
        + opt_flag("underlined"@, f.underlined) + opt_flag("strikethrough"@, f.strikethrough)
        + opt_flag("obfuscated"@, f.obfuscated) + opt_shadow(f.shadow_color)
}

/// The four ints of a UUID, most significant first.
pub open spec fn uuid_ints(u: u128) -> Seq<i32> {
    seq![((u >> 96u128) as u32) as i32, ((u >> 64u128) as u32) as i32, ((u >> 32u128) as u32) as i32, (u as u32) as i32]
}

/// A skin property as the codec writes it.
pub open spec fn property_tag(p: PlayerProperties) -> TagV {
    TagV::Compound(seq![("name"@, str_tag(p.name@)), ("value"@, str_tag(p.value@))]
        + match p.signature { Some(s) => seq![("signature"@, str_tag(s@))], None => Seq::empty() })
}

pub open spec fn property_tags(s: Seq<PlayerProperties>) -> Seq<TagV>
    decreases s.len(),
{
    if s.len() == 0 { Seq::empty() } else { property_tags(s.drop_last()).push(property_tag(s.last())) }
}

/// The player of a head as the codec writes it.
pub open spec fn player_entries(p: ObjectPlayer) -> Seq<(Seq<char>, TagV)> {
    (match p.id { Some(id) => seq![("id"@, TagV::IntArray(id@))], None => Seq::empty() })
        + opt_str("name"@, p.name) + opt_str("texture"@, p.texture) + opt_str("cape"@, p.cape)
        + opt_str("elytra"@, p.elytra)
        + (match p.model {
            Some(PlayerModel::Slim) => seq![("model"@, str_tag("slim"@))],
            Some(PlayerModel::Wide) => seq![("model"@, str_tag("wide"@))],
            None => Seq::empty(),
        })
        + opt_entry(p.properties@.len() > 0, "properties"@, TagV::List(property_tags(p.properties@)))
}

/// The event a click writes: its action, then the field the action takes.
pub open spec fn click_tag(c: ClickEvent) -> TagV {
    let (action, field, value) = match c {
        ClickEvent::OpenUrl { url } => ("open_url"@, "url"@, str_tag(url@)),
        ClickEvent::RunCommand { command } => ("run_command"@, "command"@, str_tag(command@)),
        ClickEvent::SuggestCommand { command } => ("suggest_command"@, "command"@, str_tag(command@)),
        ClickEvent::ChangePage { page } => ("change_page"@, "page"@, TagV::Int(page)),
        ClickEvent::CopyToClipboard { value } => ("copy_to_clipboard"@, "value"@, str_tag(value@)),
        ClickEvent::ShowDialog { dialog } => ("show_dialog"@, "dialog"@, match dialog {
            Dialog::Reference(r) => str_tag(r@),
            Dialog::Inline(t) => view_tag(t),
        }),
    };
    TagV::Compound(seq![("action"@, str_tag(action)), (field, value)])
}

/// Whether item components are worth writing: present and not an empty compound.
pub open spec fn components_present(c: Option<NbtTag>) -> bool {
    match c {
        Some(NbtTag::Compound(v)) => v@.len() > 0,
        Some(_) => true,
        None => false,
    }
}

/// The event a hover writes.
pub open spec fn hover_tag(h: HoverEvent) -> TagV
    decreases h,
{
    match h {
        HoverEvent::ShowText { value } => TagV::Compound(seq![
            ("action"@, str_tag("show_text"@)),
            ("value"@, component_tag(*value)),
        ]),
        HoverEvent::ShowItem { id, count, components } => TagV::Compound(
            seq![("action"@, str_tag("show_item"@)), ("id"@, str_tag(id@))]
                + opt_entry(count != 1, "count"@, TagV::Int(count))
                + match components {
                    Some(t) => opt_entry(components_present(components), "components"@, view_tag(t)),
                    None => Seq::empty(),
                },
        ),
        HoverEvent::ShowEntity { name, id, uuid } => TagV::Compound(
            seq![
                ("action"@, str_tag("show_entity"@)),
                ("id"@, str_tag(id@)),
                ("uuid"@, TagV::IntArray(uuid_ints(uuid))),
            ] + match name {
                Some(n) => seq![("name"@, component_tag(*n))],
                None => Seq::empty(),
            },
        ),
    }
}

/// The hover entry when a hover is set.
pub open spec fn opt_hover(o: Option<HoverEvent>) -> Seq<(Seq<char>, TagV)>
    decreases o,
{
    match o {
        Some(h) => seq![("hover_event"@, hover_tag(h))],
        None => Seq::empty(),
    }
}

/// The click entry when a click is set.
pub open spec fn opt_click(o: Option<ClickEvent>) -> Seq<(Seq<char>, TagV)> {
    match o {
        Some(c) => seq![("click_event"@, click_tag(c))],
        None => Seq::empty(),
    }
}

/// The click, hover and insertion entries, in codec order.
pub open spec fn interaction_entries(i: Interactivity) -> Seq<(Seq<char>, TagV)>
    decreases i,
{
    opt_str("insertion"@, i.insertion) + opt_hover(i.hover) + opt_click(i.click)
}

/// What a component's content writes.
pub open spec fn content_entries(c: Content) -> Seq<(Seq<char>, TagV)>
    decreases c,
{
    match c {
        Content::Text { text } => seq![("text"@, str_tag(text@))],
        Content::Object(Object::Atlas { atlas, sprite, fallback }) =>
            opt_entry(atlas@ != "minecraft:blocks"@, "atlas"@, str_tag(atlas@))
                + seq![("sprite"@, str_tag(sprite@))]
                + match fallback { Some(f) => seq![("fallback"@, component_tag(*f))], None => Seq::empty() },
        Content::Object(Object::Player { player, hat, fallback }) =>
            seq![("player"@, TagV::Compound(player_entries(*player)))]
                + opt_entry(!hat, "hat"@, TagV::Byte(0))
                + match fallback { Some(f) => seq![("fallback"@, component_tag(*f))], None => Seq::empty() },
        Content::Keybind { keybind } => seq![("keybind"@, str_tag(keybind@))],
        Content::Translate(msg) =>
            seq![("translate"@, str_tag(msg.key@))]
                + (match msg.fallback { Some(f) => seq![("fallback"@, str_tag(f@))], None => Seq::empty() })
                + match msg.args {
                    Args::Absent => Seq::empty(),
                    Args::Owned(v) => seq![("with"@, TagV::List(components_tags(v@)))],
                },
        Content::Resolvable(Resolvable::Scoreboard { selector, objective }) =>
            seq![("score"@, TagV::Compound(seq![("name"@, str_tag(selector@)), ("objective"@, str_tag(objective@))]))],
        Content::Resolvable(Resolvable::Entity { selector, separator }) =>
            seq![("selector"@, str_tag(selector@))]
                + match separator { Some(s) => seq![("separator"@, component_tag(*s))], None => Seq::empty() },
        Content::Resolvable(Resolvable::NBT { path, interpret, plain, separator, source }) =>
            seq![("nbt"@, str_tag(path@))]
                + opt_entry(interpret, "interpret"@, TagV::Byte(1))
                + opt_entry(plain, "plain"@, TagV::Byte(1))
                + (match separator { Some(s) => seq![("separator"@, component_tag(*s))], None => Seq::empty() })
                + match source {
                    NbtSource::Entity(v) => seq![("entity"@, str_tag(v@))],
                    NbtSource::Block(v) => seq![("block"@, str_tag(v@))],
                    NbtSource::Storage(v) => seq![("storage"@, str_tag(v@))],
                },
    }
}

/// The tags of a list of components.
pub open spec fn components_tags(s: Seq<TextComponent>) -> Seq<TagV>
    decreases s,
{
    if s.len() == 0 { Seq::empty() } else { components_tags(s.drop_last()).push(component_tag(s.last())) }
}

/// A component as vanilla's codec writes it: bare text as a string tag, anything else as a
/// compound of its content, styling, events and `extra` children.
pub open spec fn component_tag(c: TextComponent) -> TagV
    decreases c,
{
    if c.content is Text && c.children@.len() == 0 && c.format == format_none() && interactivity_none(c.interactions) {
        match c.content {
            Content::Text { text } => str_tag(text@),
            _ => str_tag(Seq::empty()),
        }
    } else {
        TagV::Compound(
            content_entries(c.content) + format_entries(c.format) + interaction_entries(c.interactions)
                + opt_entry(c.children@.len() > 0, "extra"@, TagV::List(components_tags(c.children@))),
        )
    }
}

// ---------------------------------------------------------------------------
// Building the tags.

fn push_entry(items: &mut Vec<(String, NbtTag)>, name: &str, t: NbtTag)
    ensures
        view_entries(final(items)@) == view_entries(old(items)@).push((name@, t@)),
{
    items.push((name.to_owned(), t));
    assert(final(items)@.drop_last() =~= old(items)@);
}

fn push_tag(items: &mut Vec<NbtTag>, t: NbtTag)
    ensures
        view_tags(final(items)@) == view_tags(old(items)@).push(t@),
{
    items.push(t);
    assert(final(items)@.drop_last() =~= old(items)@);
}

fn string_tag(s: &String) -> (r: NbtTag)
    ensures
        r@ == str_tag(s@),
{
    NbtTag::String(s.clone())
}

fn lit_tag(s: &str) -> (r: NbtTag)
    ensures
        r@ == str_tag(s@),
{
    NbtTag::String(s.to_owned())
}

/// A copy of a vector of plain values.
pub fn copy_vec<T: Copy>(v: &Vec<T>) -> (r: Vec<T>)
    ensures
        r@ == v@,
{
    let mut out: Vec<T> = Vec::new();
    let mut i: usize = 0;
    while i < v.len()
        invariant
            i <= v@.len(),
            out@ == v@.subrange(0, i as int),
        decreases v@.len() - i,
    {
        out.push(v[i]);
        i = i + 1;
        assert(out@ =~= v@.subrange(0, i as int));
    }
    assert(v@.subrange(0, v@.len() as int) =~= v@);
    out
}

fn copy_tags(v: &Vec<NbtTag>) -> (r: Vec<NbtTag>)
    ensures
        view_tags(r@) == view_tags(v@),
    decreases v,
{
    let mut out: Vec<NbtTag> = Vec::new();
    let mut i: usize = 0;
    while i < v.len()
        invariant
            i <= v@.len(),
            view_tags(out@) == view_tags(v@.subrange(0, i as int)),
        decreases v@.len() - i,
    {
        let c = v[i].copy();
        push_tag(&mut out, c);
        assert(v@.subrange(0, i + 1).drop_last() =~= v@.subrange(0, i as int));
        i = i + 1;
    }
    assert(v@.subrange(0, v@.len() as int) =~= v@);
    out
}

fn copy_entries(v: &Vec<(String, NbtTag)>) -> (r: Vec<(String, NbtTag)>)
    ensures
        view_entries(r@) == view_entries(v@),
    decreases v,
{
    let mut out: Vec<(String, NbtTag)> = Vec::new();
    let mut i: usize = 0;
    while i < v.len()
        invariant
            i <= v@.len(),
            view_entries(out@) == view_entries(v@.subrange(0, i as int)),
        decreases v@.len() - i,
    {
        let c = v[i].1.copy();
        let ghost before = out@;
        out.push((v[i].0.clone(), c));
        assert(out@.drop_last() =~= before);
        assert(v@.subrange(0, i + 1).drop_last() =~= v@.subrange(0, i as int));
        i = i + 1;
    }
    assert(v@.subrange(0, v@.len() as int) =~= v@);
    out
}

impl NbtTag {
    /// A deep copy.
    pub fn copy(&self) -> (r: NbtTag)
        ensures
            r@ == self@,
        decreases self,
    {
        match self {
            NbtTag::Byte(v) => NbtTag::Byte(*v),
            NbtTag::Short(v) => NbtTag::Short(*v),
            NbtTag::Int(v) => NbtTag::Int(*v),
            NbtTag::Long(v) => NbtTag::Long(*v),
            NbtTag::Float(v) => NbtTag::Float(*v),
            NbtTag::Double(v) => NbtTag::Double(*v),
            NbtTag::ByteArray(v) => NbtTag::ByteArray(copy_vec(v)),
            NbtTag::String(s) => NbtTag::String(s.clone()),
            NbtTag::List(v) => NbtTag::List(copy_tags(v)),
            NbtTag::Compound(v) => NbtTag::Compound(copy_entries(v)),
            NbtTag::IntArray(v) => NbtTag::IntArray(copy_vec(v)),
            NbtTag::LongArray(v) => NbtTag::LongArray(copy_vec(v)),
        }
    }
}


fn flag_value(b: bool) -> (r: NbtTag)
    ensures
        r@ == flag_tag(b),
{
    NbtTag::Byte(if b { 1 } else { 0 })
}

fn push_opt_str(items: &mut Vec<(String, NbtTag)>, name: &str, o: &Option<String>)
    ensures
        view_entries(final(items)@) == view_entries(old(items)@) + opt_str(name@, *o),
{
    if let Some(s) = o {
        push_entry(items, name, string_tag(s));
    }
    assert(view_entries(final(items)@) =~= view_entries(old(items)@) + opt_str(name@, *o));
}

fn push_opt_flag(items: &mut Vec<(String, NbtTag)>, name: &str, o: Option<bool>)
    ensures
        view_entries(final(items)@) == view_entries(old(items)@) + opt_flag(name@, o),
{
    if let Some(b) = o {
        push_entry(items, name, flag_value(b));
    }
    assert(view_entries(final(items)@) =~= view_entries(old(items)@) + opt_flag(name@, o));
}

/// Pushes the styling entries of a format, in codec order.
#[verifier::rlimit(40)]
fn format_to_compound(f: &Format, items: &mut Vec<(String, NbtTag)>)
    ensures
        view_entries(final(items)@) == view_entries(old(items)@) + format_entries(*f),
{
    let ghost e0 = view_entries(items@);
    if let Some(c) = &f.color {
        let name = c.codec_name();
        push_entry(items, "color", NbtTag::String(name));
    }
    let ghost s1 = opt_color(f.color);
    assert(view_entries(items@) =~= e0 + s1);
    push_opt_str(items, "font", &f.font);
    let ghost s2 = s1 + opt_str("font"@, f.font);
    assert(view_entries(items@) =~= e0 + s2);
    push_opt_flag(items, "bold", f.bold);
    let ghost s3 = s2 + opt_flag("bold"@, f.bold);
    assert(view_entries(items@) =~= e0 + s3);
    push_opt_flag(items, "italic", f.italic);
    let ghost s4 = s3 + opt_flag("italic"@, f.italic);
    assert(view_entries(items@) =~= e0 + s4);
    push_opt_flag(items, "underlined", f.underlined);
    let ghost s5 = s4 + opt_flag("underlined"@, f.underlined);
    assert(view_entries(items@) =~= e0 + s5);
    push_opt_flag(items, "strikethrough", f.strikethrough);
    let ghost s6 = s5 + opt_flag("strikethrough"@, f.strikethrough);
    assert(view_entries(items@) =~= e0 + s6);
    push_opt_flag(items, "obfuscated", f.obfuscated);
    let ghost s7 = s6 + opt_flag("obfuscated"@, f.obfuscated);
    assert(view_entries(items@) =~= e0 + s7);
    let ghost v7 = view_entries(items@);
    if let Some(v) = f.shadow_color {
        push_entry(items, "shadow_color", NbtTag::Int(v));
    }
    assert(view_entries(items@) =~= v7 + opt_shadow(f.shadow_color));
    let ghost s8 = s7 + opt_shadow(f.shadow_color);
    assert(view_entries(items@) =~= e0 + s8);
}

/// The event a click writes.
fn click_to_tag(c: &ClickEvent) -> (r: NbtTag)
    ensures
        r@ == click_tag(*c),
{
    let (action, field, value) = match c {
        ClickEvent::OpenUrl { url } => ("open_url", "url", string_tag(url)),
        ClickEvent::RunCommand { command } => ("run_command", "command", string_tag(command)),
        ClickEvent::SuggestCommand { command } => ("suggest_command", "command", string_tag(command)),
        ClickEvent::ChangePage { page } => ("change_page", "page", NbtTag::Int(*page)),
        ClickEvent::CopyToClipboard { value } => ("copy_to_clipboard", "value", string_tag(value)),
        ClickEvent::ShowDialog { dialog } => ("show_dialog", "dialog", match dialog {
            Dialog::Reference(r) => string_tag(r),
            Dialog::Inline(t) => t.copy(),
        }),
    };
    let mut items: Vec<(String, NbtTag)> = Vec::new();
    push_entry(&mut items, "action", lit_tag(action));
    push_entry(&mut items, field, value);
    assert(view_entries(items@) =~= match click_tag(*c) { TagV::Compound(e) => e, _ => Seq::empty() });
    NbtTag::Compound(items)
}

/// The four ints of a UUID, most significant first.
fn uuid_to_ints(u: u128) -> (r: Vec<i32>)
    ensures
        r@ == uuid_ints(u),
{
    let mut v: Vec<i32> = Vec::new();
    v.push(((u >> 96u128) as u32) as i32);
    v.push(((u >> 64u128) as u32) as i32);
    v.push(((u >> 32u128) as u32) as i32);
    v.push((u as u32) as i32);
    assert(v@ =~= uuid_ints(u));
    v
}

/// The event a hover writes.
fn hover_to_tag(h: &HoverEvent) -> (r: NbtTag)
    ensures
        r@ == hover_tag(*h),
    decreases h,
{
    let mut items: Vec<(String, NbtTag)> = Vec::new();
    match h {
        HoverEvent::ShowText { value } => {
            push_entry(&mut items, "action", lit_tag("show_text"));
            let v = (**value).to_codec_nbt();
            push_entry(&mut items, "value", v);
        },
        HoverEvent::ShowItem { id, count, components } => {
            push_entry(&mut items, "action", lit_tag("show_item"));
            push_entry(&mut items, "id", string_tag(id));
            let ghost base = view_entries(items@);
            if *count != 1 {
                push_entry(&mut items, "count", NbtTag::Int(*count));
            }
            let ghost base2 = view_entries(items@);
            assert(base2 =~= base + opt_entry(*count != 1, "count"@, TagV::Int(*count)));
            if let Some(t) = components {
                let present = match t {
                    NbtTag::Compound(v) => v.len() > 0,
                    _ => true,
                };
                if present {
                    push_entry(&mut items, "components", t.copy());
                }
                assert(view_entries(items@) =~= base2 + opt_entry(components_present(*components), "components"@, view_tag(*t)));
            } else {
                assert(view_entries(items@) =~= base2);
            }
        },
        HoverEvent::ShowEntity { name, id, uuid } => {
            push_entry(&mut items, "action", lit_tag("show_entity"));
            push_entry(&mut items, "id", string_tag(id));
            push_entry(&mut items, "uuid", NbtTag::IntArray(uuid_to_ints(*uuid)));
            let ghost base = view_entries(items@);
            if let Some(n) = name {
                let t = (**n).to_codec_nbt();
                push_entry(&mut items, "name", t);
            }
            assert(view_entries(items@) =~= base + match name { Some(n) => seq![("name"@, component_tag(**n))], None => Seq::empty() });
        },
    }
    assert(view_entries(items@) =~= match hover_tag(*h) { TagV::Compound(e) => e, _ => Seq::empty() });
    NbtTag::Compound(items)
}

/// Pushes the insertion, hover and click entries.
fn interactions_to_compound(i: &Interactivity, items: &mut Vec<(String, NbtTag)>)
    ensures
        view_entries(final(items)@) == view_entries(old(items)@) + interaction_entries(*i),
    decreases i,
{
    let ghost e0 = view_entries(items@);
    if let Some(s) = &i.insertion {
        push_entry(items, "insertion", string_tag(s));
    }
    let ghost p1 = opt_str("insertion"@, i.insertion);
    assert(view_entries(items@) =~= e0 + p1);
    if let Some(h) = &i.hover {
        let t = hover_to_tag(h);
        push_entry(items, "hover_event", t);
    }
    let ghost p2 = opt_hover(i.hover);
    assert(view_entries(items@) =~= e0 + p1 + p2);
    if let Some(c) = &i.click {
        push_entry(items, "click_event", click_to_tag(c));
    }
    let ghost p3 = opt_click(i.click);
    assert(view_entries(items@) =~= e0 + p1 + p2 + p3);
    assert(interaction_entries(*i) =~= p1 + p2 + p3);
}

fn properties_to_tags(v: &Vec<PlayerProperties>) -> (r: Vec<NbtTag>)
    ensures
        view_tags(r@) == property_tags(v@),
{
    let mut out: Vec<NbtTag> = Vec::new();
    let mut i: usize = 0;
    while i < v.len()
        invariant
            i <= v@.len(),
            view_tags(out@) == property_tags(v@.subrange(0, i as int)),
        decreases v@.len() - i,
    {
        let p = &v[i];
        let mut items: Vec<(String, NbtTag)> = Vec::new();
        push_entry(&mut items, "name", string_tag(&p.name));
        push_entry(&mut items, "value", string_tag(&p.value));
        let ghost base = view_entries(items@);
        if let Some(s) = &p.signature {
            push_entry(&mut items, "signature", string_tag(s));
        }
        assert(view_entries(items@) =~= match property_tag(*p) { TagV::Compound(e) => e, _ => Seq::empty() });
        push_tag(&mut out, NbtTag::Compound(items));
        assert(v@.subrange(0, i + 1).drop_last() =~= v@.subrange(0, i as int));
        i = i + 1;
    }
    assert(v@.subrange(0, v@.len() as int) =~= v@);
    out
}

/// The player of a head as the codec writes it.
fn player_to_tag(p: &ObjectPlayer) -> (r: NbtTag)
    ensures
        r@ == TagV::Compound(player_entries(*p)),
{
    let mut items: Vec<(String, NbtTag)> = Vec::new();
    if let Some(id) = &p.id {
        let mut v: Vec<i32> = Vec::new();
        v.push(id[0]);
        v.push(id[1]);
        v.push(id[2]);
        v.push(id[3]);
        assert(v@ =~= id@);
        push_entry(&mut items, "id", NbtTag::IntArray(v));
    }
    let ghost p1 = view_entries(items@);
    assert(p1 =~= match p.id { Some(id) => seq![("id"@, TagV::IntArray(id@))], None => Seq::empty() });
    push_opt_str(&mut items, "name", &p.name);
    push_opt_str(&mut items, "texture", &p.texture);
    push_opt_str(&mut items, "cape", &p.cape);
    push_opt_str(&mut items, "elytra", &p.elytra);
    let ghost p5 = view_entries(items@);
    if let Some(m) = p.model {
        let name = match m {
            PlayerModel::Slim => "slim",
            PlayerModel::Wide => "wide",
        };
        push_entry(&mut items, "model", lit_tag(name));
    }
    let ghost p6 = view_entries(items@);
    assert(p6 =~= p5 + match p.model {
        Some(PlayerModel::Slim) => seq![("model"@, str_tag("slim"@))],
        Some(PlayerModel::Wide) => seq![("model"@, str_tag("wide"@))],
        None => Seq::empty(),
    });
    if p.properties.len() > 0 {
        let props = properties_to_tags(&p.properties);
        push_entry(&mut items, "properties", NbtTag::List(props));
    }
    assert(view_entries(items@) =~= p6 + opt_entry(p.properties@.len() > 0, "properties"@, TagV::List(property_tags(p.properties@))));
    assert(view_entries(items@) =~= player_entries(*p));
    NbtTag::Compound(items)
}

/// The tags of a list of components.
fn components_to_tags(v: &Vec<TextComponent>) -> (r: Vec<NbtTag>)
    ensures
        view_tags(r@) == components_tags(v@),
    decreases v,
{
    let mut out: Vec<NbtTag> = Vec::new();
    let mut i: usize = 0;
    while i < v.len()
        invariant
            i <= v@.len(),
            view_tags(out@) == components_tags(v@.subrange(0, i as int)),
        decreases v@.len() - i,
    {
        let t = v[i].to_codec_nbt();
        push_tag(&mut out, t);
        assert(v@.subrange(0, i + 1).drop_last() =~= v@.subrange(0, i as int));
        i = i + 1;
    }
    assert(v@.subrange(0, v@.len() as int) =~= v@);
    out
}

/// Pushes what a component's content writes.
fn content_to_compound(c: &Content, items: &mut Vec<(String, NbtTag)>)
    ensures
        view_entries(final(items)@) == view_entries(old(items)@) + content_entries(*c),
    decreases c,
{
    let ghost e0 = view_entries(items@);
    match c {
        Content::Text { text } => {
            push_entry(items, "text", string_tag(text));
        },
        Content::Object(Object::Atlas { atlas, sprite, fallback }) => {
            let a = crate::chars::chars_of(atlas.as_str());
            if !crate::chars::eq_lit(a.as_slice(), "minecraft:blocks") {
                push_entry(items, "atlas", string_tag(atlas));
            }
            let ghost e1 = view_entries(items@);
            assert(e1 =~= e0 + opt_entry(atlas@ != "minecraft:blocks"@, "atlas"@, str_tag(atlas@)));
            push_entry(items, "sprite", string_tag(sprite));
            let ghost e2 = view_entries(items@);
            if let Some(f) = fallback {
                let t = (**f).to_codec_nbt();
                push_entry(items, "fallback", t);
            }
            assert(view_entries(items@) =~= e2 + match fallback { Some(f) => seq![("fallback"@, component_tag(**f))], None => Seq::empty() });
        },
        Content::Object(Object::Player { player, hat, fallback }) => {
            push_entry(items, "player", player_to_tag(player));
            let ghost e1 = view_entries(items@);
            if !*hat {
                push_entry(items, "hat", NbtTag::Byte(0));
            }
            let ghost e2 = view_entries(items@);
            assert(e2 =~= e1 + opt_entry(!*hat, "hat"@, TagV::Byte(0)));
            if let Some(f) = fallback {
                let t = (**f).to_codec_nbt();
                push_entry(items, "fallback", t);
            }
            assert(view_entries(items@) =~= e2 + match fallback { Some(f) => seq![("fallback"@, component_tag(**f))], None => Seq::empty() });
        },
        Content::Keybind { keybind } => {
            push_entry(items, "keybind", string_tag(keybind));
        },
        Content::Translate(msg) => {
            push_entry(items, "translate", string_tag(&msg.key));
            let ghost e1 = view_entries(items@);
            if let Some(f) = &msg.fallback {
                push_entry(items, "fallback", string_tag(f));
            }
            let ghost e2 = view_entries(items@);
            assert(e2 =~= e1 + match msg.fallback { Some(f) => seq![("fallback"@, str_tag(f@))], None => Seq::empty() });
            match &msg.args {
                Args::Absent => {},
                Args::Owned(v) => {
                    let tags = components_to_tags(v);
                    push_entry(items, "with", NbtTag::List(tags));
                },
            }
            assert(view_entries(items@) =~= e2 + match msg.args {
                Args::Absent => Seq::empty(),
                Args::Owned(v) => seq![("with"@, TagV::List(components_tags(v@)))],
            });
        },
        Content::Resolvable(Resolvable::Scoreboard { selector, objective }) => {
            let mut inner: Vec<(String, NbtTag)> = Vec::new();
            push_entry(&mut inner, "name", string_tag(selector));
            push_entry(&mut inner, "objective", string_tag(objective));
            assert(view_entries(inner@) =~= seq![("name"@, str_tag(selector@)), ("objective"@, str_tag(objective@))]);
            push_entry(items, "score", NbtTag::Compound(inner));
        },
        Content::Resolvable(Resolvable::Entity { selector, separator }) => {
            push_entry(items, "selector", string_tag(selector));
            let ghost e1 = view_entries(items@);
            if let Some(sep) = separator {
                let t = (**sep).to_codec_nbt();
                push_entry(items, "separator", t);
            }
            assert(view_entries(items@) =~= e1 + match separator { Some(s) => seq![("separator"@, component_tag(**s))], None => Seq::empty() });
        },
        Content::Resolvable(Resolvable::NBT { path, interpret, plain, separator, source }) => {
            push_entry(items, "nbt", string_tag(path));
            let ghost e1 = view_entries(items@);
            if *interpret {
                push_entry(items, "interpret", NbtTag::Byte(1));
            }
            let ghost e2 = view_entries(items@);
            assert(e2 =~= e1 + opt_entry(*interpret, "interpret"@, TagV::Byte(1)));
            if *plain {
                push_entry(items, "plain", NbtTag::Byte(1));
            }
            let ghost e3 = view_entries(items@);
            assert(e3 =~= e2 + opt_entry(*plain, "plain"@, TagV::Byte(1)));
            if let Some(sep) = separator {
                let t = (**sep).to_codec_nbt();
                push_entry(items, "separator", t);
            }
            let ghost e4 = view_entries(items@);
            assert(e4 =~= e3 + match separator { Some(s) => seq![("separator"@, component_tag(**s))], None => Seq::empty() });
            match source {
                NbtSource::Entity(v) => push_entry(items, "entity", string_tag(v)),
                NbtSource::Block(v) => push_entry(items, "block", string_tag(v)),
                NbtSource::Storage(v) => push_entry(items, "storage", string_tag(v)),
            }
        },
    }
    assert(view_entries(items@) =~= e0 + content_entries(*c));
}

impl ClickEvent {
    /// The event as the component codec writes it.
    pub fn to_codec_nbt(&self) -> (r: NbtTag)
        ensures
            r@ == click_tag(*self),
    {
        click_to_tag(self)
    }
}

impl HoverEvent {
    /// The event as the component codec writes it.
    pub fn to_codec_nbt(&self) -> (r: NbtTag)
        ensures
            r@ == hover_tag(*self),
    {
        hover_to_tag(self)
    }
}

impl TextComponent {
    /// The tag vanilla's component codec writes for this component.
    pub fn to_codec_nbt(&self) -> (r: NbtTag)
        ensures
            r@ == component_tag(*self),
        decreases self,
    {
        let bare_text = match &self.content {
            Content::Text { .. } => true,
            _ => false,
        };
        if bare_text && self.children.len() == 0 && self.format.is_none() && self.interactions.is_none() {
            if let Content::Text { text } = &self.content {
                return string_tag(text);
            }
        }
        let mut items: Vec<(String, NbtTag)> = Vec::new();
        content_to_compound(&self.content, &mut items);
        format_to_compound(&self.format, &mut items);
        interactions_to_compound(&self.interactions, &mut items);
        let ghost e = view_entries(items@);
        if self.children.len() > 0 {
            let tags = components_to_tags(&self.children);
            push_entry(&mut items, "extra", NbtTag::List(tags));
        }
        assert(view_entries(items@) =~= e + opt_entry(self.children@.len() > 0, "extra"@, TagV::List(components_tags(self.children@))));
        assert(view_entries(items@) =~= content_entries(self.content) + format_entries(self.format)
            + interaction_entries(self.interactions)
            + opt_entry(self.children@.len() > 0, "extra"@, TagV::List(components_tags(self.children@))));
        NbtTag::Compound(items)
    }
}


// ---------------------------------------------------------------------------
// Content that still needs resolution.

/// The kind of a resolvable content.
pub open spec fn resolvable_kind(r: Resolvable) -> UnresolvedContent {
    match r {
        Resolvable::Scoreboard { .. } => UnresolvedContent::Scoreboard,
        Resolvable::Entity { .. } => UnresolvedContent::Entity,
        Resolvable::NBT { .. } => UnresolvedContent::Nbt,
    }
}

/// The first of these components, in order, that holds content resolution has to fill in.
pub open spec fn first_unresolved(s: Seq<TextComponent>) -> Option<UnresolvedContent>
    decreases s,
{
    if s.len() == 0 {
        None
    } else {
        match unresolved_spec(s[0]) {
            Some(u) => Some(u),
            None => first_unresolved(s.subrange(1, s.len() as int)),
        }
    }
}

/// The first content below a component that resolution has to fill in: its own content,
/// then its translation arguments or object fallback, then its hover text, then its
/// children in order.
pub open spec fn unresolved_spec(c: TextComponent) -> Option<UnresolvedContent>
    decreases c,
{
    let own = match c.content {
        Content::Resolvable(r) => Some(resolvable_kind(r)),
        Content::Translate(msg) => match msg.args {
            Args::Owned(v) => first_unresolved(v@),
            Args::Absent => None,
        },
        Content::Object(Object::Atlas { fallback: Some(f), .. }) => unresolved_spec(*f),
        Content::Object(Object::Player { fallback: Some(f), .. }) => unresolved_spec(*f),
        _ => None,
    };
    if own is Some {
        own
    } else {
        let hover = match c.interactions.hover {
            Some(HoverEvent::ShowText { value }) => unresolved_spec(*value),
            _ => None,
        };
        if hover is Some { hover } else { first_unresolved(c.children@) }
    }
}

fn first_unresolved_in(v: &Vec<TextComponent>) -> (r: Option<UnresolvedContent>)
    ensures
        r == first_unresolved(v@),
    decreases v,
{
    let mut i: usize = 0;
    assert(v@.subrange(0, v@.len() as int) =~= v@);
    while i < v.len()
        invariant
            i <= v@.len(),
            first_unresolved(v@) == first_unresolved(v@.subrange(i as int, v@.len() as int)),
        decreases v@.len() - i,
    {
        let ghost rest = v@.subrange(i as int, v@.len() as int);
        assert(rest[0] == v@[i as int]);
        assert(rest.subrange(1, rest.len() as int) =~= v@.subrange(i + 1, v@.len() as int));
        if let Some(u) = v[i].unresolved() {
            return Some(u);
        }
        i = i + 1;
    }
    assert(v@.subrange(v@.len() as int, v@.len() as int) =~= Seq::<TextComponent>::empty());
    None
}

impl TextComponent {
    /// The first content below this component that resolution has to fill in.
    pub fn unresolved(&self) -> (r: Option<UnresolvedContent>)
        ensures
            r == unresolved_spec(*self),
        decreases self,
    {
        let own = match &self.content {
            Content::Resolvable(Resolvable::Scoreboard { .. }) => Some(UnresolvedContent::Scoreboard),
            Content::Resolvable(Resolvable::Entity { .. }) => Some(UnresolvedContent::Entity),
            Content::Resolvable(Resolvable::NBT { .. }) => Some(UnresolvedContent::Nbt),
            Content::Translate(msg) => match &msg.args {
                Args::Owned(v) => first_unresolved_in(v),
                Args::Absent => None,
            },
            Content::Object(Object::Atlas { fallback: Some(f), .. }) => (**f).unresolved(),
            Content::Object(Object::Player { fallback: Some(f), .. }) => (**f).unresolved(),
            _ => None,
        };
        if own.is_some() {
            return own;
        }
        let hover = match &self.interactions.hover {
            Some(HoverEvent::ShowText { value }) => (**value).unresolved(),
            _ => None,
        };
        if hover.is_some() {
            return hover;
        }
        first_unresolved_in(&self.children)
    }

    /// Encodes this component into the network NBT a packet writes; content that still
    /// needs resolution is refused.
    pub fn try_encode(&self) -> (r: Result<EncodedComponent, UnresolvedContent>)
        requires
            tag_ok(component_tag(*self)),
        ensures
            match unresolved_spec(*self) {
                Some(u) => r == Err::<EncodedComponent, UnresolvedContent>(u),
                None => r matches Ok(e) && e@ == root_bytes(component_tag(*self)),
            },
    {
        if let Some(u) = self.unresolved() {
            return Err(u);
        }
        let mut buf: Vec<u8> = Vec::new();
        let t = self.to_codec_nbt();
        write_root(&mut buf, &t);
        Ok(EncodedComponent::from_vec(buf))
    }

    /// Encodes this component into the network NBT a packet writes; content that still
    /// needs resolution is ruled out by `requires`.
    pub fn encode(&self) -> (r: EncodedComponent)
        requires
            tag_ok(component_tag(*self)),
            unresolved_spec(*self) is None,
        ensures
            r@ == root_bytes(component_tag(*self)),
    {
        let mut buf: Vec<u8> = Vec::new();
        let t = self.to_codec_nbt();
        write_root(&mut buf, &t);
        EncodedComponent::from_vec(buf)
    }
}


// ---------------------------------------------------------------------------
// Writing components into byte buffers.

/// A component's own encoding, verbatim (`[type][payload]`).
pub fn write_component_root(buf: &mut Vec<u8>, component: &TextComponent)
    requires
        tag_ok(component_tag(*component)),
    ensures
        final(buf)@ == old(buf)@ + root_bytes(component_tag(*component)),
{
    let t = component.to_codec_nbt();
    write_root(buf, &t);
}

/// A component as a compound list element.
pub fn write_component_elem(buf: &mut Vec<u8>, component: &TextComponent)
    requires
        tag_ok(component_tag(*component)),
    ensures
        final(buf)@ == old(buf)@ + encoded_elem(root_bytes(component_tag(*component))),
{
    let t = component.to_codec_nbt();
    let mut tmp: Vec<u8> = Vec::new();
    write_root(&mut tmp, &t);
    write_encoded_elem(buf, tmp.as_slice());
}

/// A component as the value of a compound entry.
pub fn write_component_entry(buf: &mut Vec<u8>, name: &str, component: &TextComponent)
    requires
        tag_ok(component_tag(*component)),
        mutf8(name@).len() <= 0xFFFF,
    ensures
        final(buf)@ == old(buf)@ + encoded_entry(name@, root_bytes(component_tag(*component))),
{
    let t = component.to_codec_nbt();
    let mut tmp: Vec<u8> = Vec::new();
    write_root(&mut tmp, &t);
    write_encoded_entry(buf, name, tmp.as_slice());
}

// ---------------------------------------------------------------------------
// Translated messages, written straight to bytes.

/// Whether a component encodes as a bare string: text with no children, styling or events.
pub open spec fn encodes_as_string(c: TextComponent) -> bool {
    c.content is Text && c.children@.len() == 0 && c.format == format_none() && interactivity_none(c.interactions)
}

/// Whether every argument encodes as a bare string.
pub open spec fn all_strings(s: Seq<TextComponent>) -> bool {
    forall|i: int| 0 <= i < s.len() ==> encodes_as_string(#[trigger] s[i])
}

/// The text of a text component.
pub open spec fn text_of(c: TextComponent) -> Seq<char> {
    match c.content {
        Content::Text { text } => text@,
        _ => Seq::empty(),
    }
}

/// The string payloads of text arguments, in order.
pub open spec fn texts_payload(s: Seq<TextComponent>) -> Seq<u8>
    decreases s.len(),
{
    if s.len() == 0 { Seq::empty() } else { texts_payload(s.drop_last()) + nbt_string(text_of(s.last())) }
}

/// The arguments as compound list elements, in order.
pub open spec fn elems_payload(s: Seq<TextComponent>) -> Seq<u8>
    decreases s.len(),
{
    if s.len() == 0 {
        Seq::empty()
    } else {
        elems_payload(s.drop_last()) + encoded_elem(root_bytes(component_tag(s.last())))
    }
}

/// A translated message as network NBT: `translate`, then `fallback`, then the `with` list,
/// a string list when every argument is bare text.
pub open spec fn translated_bytes(msg: TranslatedMessage) -> Seq<u8> {
    seq![COMPOUND_ID, STRING_ID] + nbt_string("translate"@) + nbt_string(msg.key@)
        + (match msg.fallback {
            Some(f) => seq![STRING_ID] + nbt_string("fallback"@) + nbt_string(f@),
            None => Seq::empty(),
        })
        + (match msg.args {
            Args::Absent => Seq::empty(),
            Args::Owned(v) => with_bytes(v@),
        })
        + seq![END_ID]
}

/// Everything `translated_bytes` writes fits the NBT limits.
pub open spec fn translated_ok(msg: TranslatedMessage) -> bool {
    &&& mutf8(msg.key@).len() <= 0xFFFF
    &&& (match msg.fallback { Some(f) => mutf8(f@).len() <= 0xFFFF, None => true })
    &&& (match msg.args {
        Args::Absent => true,
        Args::Owned(v) => v@.len() <= 0x7FFF_FFFF
            && forall|i: int| 0 <= i < v@.len() ==> tag_ok(component_tag(#[trigger] v@[i])),
    })
}

/// The `with` list of a translated message, for the arguments given.
pub open spec fn with_bytes(v: Seq<TextComponent>) -> Seq<u8> {
    seq![LIST_ID] + nbt_string("with"@) + if v.len() > 0 && all_strings(v) {
        seq![STRING_ID] + be(v.len(), 4) + texts_payload(v)
    } else {
        seq![COMPOUND_ID] + be(v.len(), 4) + elems_payload(v)
    }
}

fn write_texts(buf: &mut Vec<u8>, v: &Vec<TextComponent>)
    requires
        all_strings(v@),
        forall|k: int| 0 <= k < v@.len() ==> tag_ok(component_tag(#[trigger] v@[k])),
    ensures
        final(buf)@ == old(buf)@ + texts_payload(v@),
{
    let n = v.len();
    let mut i: usize = 0;
    while i < n
        invariant
            i <= n,
            n == v@.len(),
            all_strings(v@),
            forall|k: int| 0 <= k < v@.len() ==> tag_ok(component_tag(#[trigger] v@[k])),
            buf@ == old(buf)@ + texts_payload(v@.subrange(0, i as int)),
        decreases n - i,
    {
        assert(encodes_as_string(v@[i as int]));
        assert(tag_ok(component_tag(v@[i as int])));
        if let Content::Text { text } = &v[i].content {
            write_mutf8(buf, text.as_str());
        }
        assert(v@.subrange(0, i + 1).drop_last() =~= v@.subrange(0, i as int));
        i = i + 1;
    }
    assert(v@.subrange(0, n as int) =~= v@);
}

fn write_elems(buf: &mut Vec<u8>, v: &Vec<TextComponent>)
    requires
        forall|k: int| 0 <= k < v@.len() ==> tag_ok(component_tag(#[trigger] v@[k])),
    ensures
        final(buf)@ == old(buf)@ + elems_payload(v@),
{
    let n = v.len();
    let mut i: usize = 0;
    while i < n
        invariant
            i <= n,
            n == v@.len(),
            forall|k: int| 0 <= k < v@.len() ==> tag_ok(component_tag(#[trigger] v@[k])),
            buf@ == old(buf)@ + elems_payload(v@.subrange(0, i as int)),
        decreases n - i,
    {
        assert(tag_ok(component_tag(v@[i as int])));
        write_component_elem(buf, &v[i]);
        assert(v@.subrange(0, i + 1).drop_last() =~= v@.subrange(0, i as int));
        i = i + 1;
    }
    assert(v@.subrange(0, n as int) =~= v@);
}

fn write_with(buf: &mut Vec<u8>, v: &Vec<TextComponent>)
    requires
        v@.len() <= 0x7FFF_FFFF,
        forall|k: int| 0 <= k < v@.len() ==> tag_ok(component_tag(#[trigger] v@[k])),
    ensures
        final(buf)@ == old(buf)@ + with_bytes(v@),
{
    proof {
        reveal_strlit("with");
        crate::grammar::emit::lemma_mutf8_len_ascii_bound("with"@);
    }
    buf.push(LIST_ID);
    write_mutf8(buf, "with");
    let n = v.len();
    let strings = n > 0 && all_args_strings(v);
    let ghost b3 = buf@;
    if strings {
        buf.push(STRING_ID);
        push_be_u32_pub(buf, n as u32);
        write_texts(buf, v);
    } else {
        buf.push(COMPOUND_ID);
        push_be_u32_pub(buf, n as u32);
        write_elems(buf, v);
    }
    assert(final(buf)@ =~= old(buf)@ + with_bytes(v@));
}

impl TranslatedMessage {
    /// Encodes `{translate, fallback?, with?}` straight into network NBT.
    pub fn encode(&self) -> (r: EncodedComponent)
        requires
            translated_ok(*self),
        ensures
            r@ == translated_bytes(*self),
    {
        let mut buf: Vec<u8> = Vec::new();
        buf.push(COMPOUND_ID);
        buf.push(STRING_ID);
        proof {
            reveal_strlit("translate");
            reveal_strlit("fallback");
            crate::grammar::emit::lemma_mutf8_len_ascii_bound("translate"@);
            crate::grammar::emit::lemma_mutf8_len_ascii_bound("fallback"@);
        }
        write_mutf8(&mut buf, "translate");
        write_mutf8(&mut buf, self.key.as_str());
        let ghost b1 = buf@;
        if let Some(f) = &self.fallback {
            buf.push(STRING_ID);
            write_mutf8(&mut buf, "fallback");
            write_mutf8(&mut buf, f.as_str());
        }
        let ghost b2 = buf@;
        assert(b2 =~= b1 + match self.fallback {
            Some(f) => seq![STRING_ID] + nbt_string("fallback"@) + nbt_string(f@),
            None => Seq::empty(),
        });
        if let Args::Owned(v) = &self.args {
            write_with(&mut buf, v);
        }
        let ghost b3 = buf@;
        assert(b3 =~= b2 + match self.args {
            Args::Absent => Seq::empty(),
            Args::Owned(v) => with_bytes(v@),
        });
        buf.push(END_ID);
        assert(buf@ =~= translated_bytes(*self));
        EncodedComponent::from_vec(buf)
    }
}

fn all_args_strings(v: &Vec<TextComponent>) -> (r: bool)
    ensures
        r == all_strings(v@),
{
    let mut i: usize = 0;
    while i < v.len()
        invariant
            i <= v@.len(),
            forall|k: int| 0 <= k < i ==> encodes_as_string(#[trigger] v@[k]),
        decreases v@.len() - i,
    {
        let c = &v[i];
        let text = match &c.content {
            Content::Text { .. } => true,
            _ => false,
        };
        if !(text && c.children.len() == 0 && c.format.is_none() && c.interactions.is_none()) {
            return false;
        }
        i = i + 1;
    }
    true
}


// ---------------------------------------------------------------------------
// The fast path writes what the tree encoder writes.

pub proof fn lemma_entry_payloads_append(a: Seq<(Seq<char>, TagV)>, b: Seq<(Seq<char>, TagV)>)
    ensures
        entry_payloads(a + b) == entry_payloads(a) + entry_payloads(b),
    decreases b.len(),
{
    if b.len() == 0 {
        assert(a + b =~= a);
        assert(entry_payloads(a) + entry_payloads(b) =~= entry_payloads(a));
    } else {
        lemma_entry_payloads_append(a, b.drop_last());
        assert((a + b).drop_last() =~= a + b.drop_last());
        assert((a + b).last() == b.last());
        assert(entry_payloads(a + b) =~= entry_payloads(a) + entry_payloads(b));
    }
}

proof fn lemma_components_tags(v: Seq<TextComponent>, i: int)
    requires
        0 <= i < v.len(),
    ensures
        components_tags(v).len() == v.len(),
        components_tags(v)[i] == component_tag(v[i]),
    decreases v.len(),
{
    if i < v.len() - 1 {
        lemma_components_tags(v.drop_last(), i);
    } else {
        lemma_components_tags_len(v.drop_last());
    }
}

proof fn lemma_components_tags_len(v: Seq<TextComponent>)
    ensures
        components_tags(v).len() == v.len(),
    decreases v.len(),
{
    if v.len() > 0 {
        lemma_components_tags_len(v.drop_last());
    }
}

/// A component's tag is a string exactly when it encodes as one, and otherwise a compound.
proof fn lemma_component_tag_kind(c: TextComponent)
    ensures
        encodes_as_string(c) ==> component_tag(c) == str_tag(text_of(c)),
        !encodes_as_string(c) ==> component_tag(c) is Compound,
{
}

proof fn lemma_elem_bytes(c: TextComponent)
    ensures
        payload_wrapped(component_tag(c)) == encoded_elem(root_bytes(component_tag(c))),
        component_tag(c) is Compound ==> payload(component_tag(c)) == encoded_elem(root_bytes(component_tag(c))),
{
    lemma_component_tag_kind(c);
    let t = component_tag(c);
    assert(root_bytes(t).subrange(1, root_bytes(t).len() as int) =~= payload(t));
    if !(t is Compound) {
        reveal_strlit("");
        assert(mutf8(Seq::<char>::empty()) =~= Seq::<u8>::empty());
        assert(nbt_string(Seq::<char>::empty()) =~= seq![0u8, 0u8]);
        assert(payload_wrapped(t) =~= encoded_elem(root_bytes(t)));
    }
}

proof fn lemma_list_elems(v: Seq<TextComponent>, wrap: bool)
    requires
        wrap || forall|i: int| 0 <= i < v.len() ==> (#[trigger] component_tag(v[i])) is Compound,
    ensures
        crate::nbt::tag::list_payloads(components_tags(v), wrap) == elems_payload(v),
    decreases v.len(),
{
    if v.len() > 0 {
        assert(wrap || forall|i: int| 0 <= i < v.drop_last().len() ==> (#[trigger] component_tag(v.drop_last()[i])) is Compound) by {
            if !wrap {
                assert forall|i: int| 0 <= i < v.drop_last().len() implies (#[trigger] component_tag(v.drop_last()[i])) is Compound by {
                    assert(v.drop_last()[i] == v[i]);
                }
            }
        }
        lemma_list_elems(v.drop_last(), wrap);
        lemma_elem_bytes(v.last());
        assert(components_tags(v).drop_last() == components_tags(v.drop_last()));
        if !wrap {
            assert(component_tag(v[v.len() - 1]) is Compound);
        }
    }
}

proof fn lemma_list_texts(v: Seq<TextComponent>)
    requires
        all_strings(v),
    ensures
        crate::nbt::tag::list_payloads(components_tags(v), false) == texts_payload(v),
    decreases v.len(),
{
    if v.len() > 0 {
        assert(all_strings(v.drop_last())) by {
            assert forall|i: int| 0 <= i < v.drop_last().len() implies encodes_as_string(#[trigger] v.drop_last()[i]) by {
                assert(v.drop_last()[i] == v[i]);
            }
        }
        lemma_list_texts(v.drop_last());
        assert(encodes_as_string(v[v.len() - 1]));
        lemma_component_tag_kind(v.last());
        assert(components_tags(v).drop_last() == components_tags(v.drop_last()));
        assert(components_tags(v).last() == component_tag(v.last()));
        lemma_components_tags_len(v);
        assert(component_tag(v.last()) == str_tag(text_of(v.last())));
        assert(payload(component_tag(v.last())) == nbt_string(text_of(v.last())));
    }
}

proof fn lemma_with_payload(v: Seq<TextComponent>)
    requires
        v.len() > 0,
    ensures
        seq![LIST_ID] + nbt_string("with"@) + payload(TagV::List(components_tags(v))) == with_bytes(v),
{
    let tags = components_tags(v);
    lemma_components_tags_len(v);
    let h = crate::nbt::tag::homogeneous(tags);
    if all_strings(v) {
        assert(h) by {
            assert forall|i: int| 0 <= i < tags.len() implies crate::nbt::tag::tag_id(#[trigger] tags[i]) == crate::nbt::tag::tag_id(tags[0]) by {
                lemma_components_tags(v, i);
                lemma_components_tags(v, 0);
                lemma_component_tag_kind(v[i]);
                lemma_component_tag_kind(v[0]);
            }
        }
        lemma_components_tags(v, 0);
        lemma_component_tag_kind(v[0]);
        lemma_list_texts(v);
    } else {
        let k = choose|k: int| 0 <= k < v.len() && !encodes_as_string(#[trigger] v[k]);
        lemma_components_tags(v, k);
        lemma_component_tag_kind(v[k]);
        if h {
            assert(forall|i: int| 0 <= i < v.len() ==> (#[trigger] component_tag(v[i])) is Compound) by {
                assert forall|i: int| 0 <= i < v.len() implies (#[trigger] component_tag(v[i])) is Compound by {
                    lemma_components_tags(v, i);
                    lemma_component_tag_kind(v[i]);
                    assert(crate::nbt::tag::tag_id(tags[i]) == crate::nbt::tag::tag_id(tags[0]));
                    assert(crate::nbt::tag::tag_id(tags[k]) == crate::nbt::tag::tag_id(tags[0]));
                }
            }
            lemma_components_tags(v, 0);
            lemma_list_elems(v, false);
        } else {
            lemma_list_elems(v, true);
        }
    }
    assert(seq![LIST_ID] + nbt_string("with"@) + payload(TagV::List(components_tags(v))) =~= with_bytes(v));
}

proof fn lemma_single_entry(name: Seq<char>, t: TagV)
    ensures
        entry_payloads(seq![(name, t)]) == seq![crate::nbt::tag::tag_id(t)] + nbt_string(name) + payload(t),
{
    reveal_with_fuel(entry_payloads, 2);
    assert(seq![(name, t)].drop_last() =~= Seq::<(Seq<char>, TagV)>::empty());
    assert(entry_payloads(seq![(name, t)]) =~= seq![crate::nbt::tag::tag_id(t)] + nbt_string(name) + payload(t));
}

/// The fallback entry's bytes.
pub open spec fn fallback_bytes(f: Option<String>) -> Seq<u8> {
    match f {
        Some(f) => seq![STRING_ID] + nbt_string("fallback"@) + nbt_string(f@),
        None => Seq::empty(),
    }
}

/// The `with` entry's bytes.
pub open spec fn args_bytes(a: Args) -> Seq<u8> {
    match a {
        Args::Absent => Seq::empty(),
        Args::Owned(v) => with_bytes(v@),
    }
}

proof fn lemma_translated_parts(msg: TranslatedMessage)
    ensures
        translated_bytes(msg) == seq![COMPOUND_ID] + (seq![STRING_ID] + nbt_string("translate"@) + nbt_string(msg.key@)
            + fallback_bytes(msg.fallback) + args_bytes(msg.args)) + seq![END_ID],
{
    assert(translated_bytes(msg) =~= seq![COMPOUND_ID] + (seq![STRING_ID] + nbt_string("translate"@) + nbt_string(msg.key@)
        + fallback_bytes(msg.fallback) + args_bytes(msg.args)) + seq![END_ID]);
}

/// Writing a translated message straight to bytes gives the bytes the tree encoder writes
/// for it, whenever its `with` list is absent or holds arguments (an empty list is typed End
/// by the tree encoder and Compound by the fast path).
#[verifier::rlimit(40)]
pub proof fn lemma_translated_bytes_match_tree(msg: TranslatedMessage)
    requires
        !(msg.args matches Args::Owned(v) && v@.len() == 0),
    ensures
        translated_bytes(msg) == root_bytes(TagV::Compound(content_entries(Content::Translate(msg)))),
{
    let e1 = seq![("translate"@, str_tag(msg.key@))];
    let e2 = match msg.fallback { Some(f) => seq![("fallback"@, str_tag(f@))], None => Seq::<(Seq<char>, TagV)>::empty() };
    let e3 = match msg.args {
        Args::Absent => Seq::<(Seq<char>, TagV)>::empty(),
        Args::Owned(v) => seq![("with"@, TagV::List(components_tags(v@)))],
    };
    assert(content_entries(Content::Translate(msg)) == e1 + e2 + e3);
    lemma_entry_payloads_append(e1 + e2, e3);
    lemma_entry_payloads_append(e1, e2);
    lemma_single_entry("translate"@, str_tag(msg.key@));
    assert(entry_payloads(e2) == fallback_bytes(msg.fallback)) by {
        match msg.fallback {
            Some(f) => lemma_single_entry("fallback"@, str_tag(f@)),
            None => {},
        }
    }
    assert(entry_payloads(e3) == args_bytes(msg.args)) by {
        match msg.args {
            Args::Absent => {},
            Args::Owned(v) => {
                lemma_single_entry("with"@, TagV::List(components_tags(v@)));
                lemma_with_payload(v@);
            },
        }
    }
    lemma_translated_parts(msg);
    assert(root_bytes(TagV::Compound(e1 + e2 + e3)) =~= seq![COMPOUND_ID] + (entry_payloads(e1) + entry_payloads(e2)
        + entry_payloads(e3)) + seq![END_ID]);
}

} // verus!
