//! Reading back what the component codec writes gives the component again.
use vstd::prelude::*;
use crate::component::TextComponent;
use crate::content::{Content, NbtSource, Object, ObjectPlayer, PlayerProperties, Resolvable};
use crate::format::{codec_name_spec, format_none, lemma_rgb_name, Color, Format};
use crate::interactivity::{interactivity_none, ClickEvent, Dialog, HoverEvent, Interactivity};
use crate::nbt::decoding::{
    property_list, properties_spec, model_spec, profile_id, optional_string, optional_identifier, required_identifier,
    text_spec, keybind_spec, score_spec, translatable_spec, selector_spec, nbt_spec, object_spec, source_spec,
    atlas_spec, player_content_spec, profile_spec, required_string, flag,
    click_spec, hover_spec, inter_spec, uuid_spec, count_spec, item_components, four_ints,
    allowed_url, banned_chat_char, color_spec, compound_spec, content_spec, decode_field, decode_list, decode_spec,
    field, find_index, format_none_v, format_spec, is_identifier, lemma_find_index, list_field, plain_v,
    valid_player_name, Number,
};
use crate::nbt::encode::{
    components_present, player_entries, property_tag, property_tags, uuid_ints,
    click_tag, component_tag, components_tags, content_entries, format_entries, hover_tag, interaction_entries,
    opt_click, opt_color, opt_entry, opt_flag, opt_hover, opt_shadow, opt_str,
};
use crate::nbt::model::{
    player_view, properties_view, source_view, PlayerV, PropertyV, opt_chars,
    click_view, comp_view, comps_view, content_view, format_view, hover_view, inter_view, ClickV, CompV, DecodeErrV,
    HoverV, InterV,
};
use crate::nbt::tag::{lemma_view_entries_len, view_entries, view_tag, NbtTag, TagV};
use crate::snbt::events::uuid_of_halves;
use crate::translation::Args;

verus! {

pub proof fn lemma_find_index_at(es: Seq<(Seq<char>, TagV)>, name: Seq<char>, i: int)
    requires
        0 <= i <= es.len(),
        forall|k: int| 0 <= k < i ==> #[trigger] es[k].0 != name,
        i < es.len() ==> es[i].0 == name,
    ensures
        find_index(es, name) == if i < es.len() { Some(i) } else { None::<int> },
    decreases es.len(),
{
    reveal(find_index);
    if es.len() > 0 && i > 0 {
        assert(es[0].0 != name);
        assert forall|k: int| 0 <= k < i - 1 implies #[trigger] es.drop_first()[k].0 != name by {
            assert(es.drop_first()[k] == es[k + 1]);
        }
        lemma_find_index_at(es.drop_first(), name, i - 1);
    }
}

/// A field of two runs of entries is the first run's when it has one, else the second's.
pub broadcast proof fn lemma_field_concat(a: Seq<(Seq<char>, TagV)>, b: Seq<(Seq<char>, TagV)>, name: Seq<char>)
    ensures
        #[trigger] field(a + b, name) == if field(a, name) is Some { field(a, name) } else { field(b, name) },
{
    lemma_find_index(a, name);
    lemma_find_index(b, name);
    let ab = a + b;
    match find_index(a, name) {
        Some(i) => {
            assert forall|k: int| 0 <= k < i implies #[trigger] ab[k].0 != name by {
                assert(ab[k] == a[k]);
            }
            lemma_find_index_at(ab, name, i);
        },
        None => match find_index(b, name) {
            Some(j) => {
                assert forall|k: int| 0 <= k < a.len() + j implies #[trigger] ab[k].0 != name by {
                    if k < a.len() {
                        assert(ab[k] == a[k]);
                    } else {
                        assert(ab[k] == b[k - a.len()]);
                    }
                }
                lemma_find_index_at(ab, name, a.len() + j);
            },
            None => {
                assert forall|k: int| 0 <= k < ab.len() implies #[trigger] ab[k].0 != name by {
                    if k < a.len() {
                        assert(ab[k] == a[k]);
                    } else {
                        assert(ab[k] == b[k - a.len()]);
                    }
                }
                lemma_find_index_at(ab, name, ab.len() as int);
            },
        },
    }
}

/// The field of a single entry.
pub broadcast proof fn lemma_field_one(k: Seq<char>, v: TagV, name: Seq<char>)
    ensures
        #[trigger] field(seq![(k, v)], name) == if k == name { Some(v) } else { None::<TagV> },
{
    let es = seq![(k, v)];
    if k == name {
        lemma_find_index_at(es, name, 0);
    } else {
        lemma_find_index_at(es, name, 1);
    }
}

/// No entries, no field.
pub broadcast proof fn lemma_field_empty(name: Seq<char>)
    ensures
        #[trigger] field(Seq::<(Seq<char>, TagV)>::empty(), name) is None,
{
    reveal(find_index);
}

/// Reading a field as a component reads the field's value.
pub proof fn lemma_decode_field(es: Seq<(Seq<char>, TagV)>, f: Seq<char>, ch: spec_fn(Number) -> i32)
    ensures
        decode_field(es, f, ch) == match field(es, f) {
            Some(t) => Some(decode_spec(t, ch)),
            None => None,
        },
{
}

/// Absent names give no field.
pub proof fn lemma_field_absent(es: Seq<(Seq<char>, TagV)>, name: Seq<char>)
    requires
        forall|j: int| 0 <= j < es.len() ==> #[trigger] es[j].0 != name,
    ensures
        field(es, name) is None,
{
    lemma_find_index_at(es, name, es.len() as int);
}

// ---------------------------------------------------------------------------
// The names the codec writes.

/// The names of style and event entries, and of the children.
pub open spec fn style_key(k: Seq<char>) -> bool {
    ||| k == "color"@
    ||| k == "font"@
    ||| k == "bold"@
    ||| k == "italic"@
    ||| k == "underlined"@
    ||| k == "strikethrough"@
    ||| k == "obfuscated"@
    ||| k == "shadow_color"@
    ||| k == "insertion"@
    ||| k == "click_event"@
    ||| k == "hover_event"@
    ||| k == "extra"@
}

/// Every entry named as `style` says.
pub open spec fn keys_styled(es: Seq<(Seq<char>, TagV)>, style: bool) -> bool {
    forall|j: int| 0 <= j < es.len() ==> style_key(#[trigger] es[j].0) == style
}

proof fn lemma_keys_concat(a: Seq<(Seq<char>, TagV)>, b: Seq<(Seq<char>, TagV)>, style: bool)
    requires
        keys_styled(a, style),
        keys_styled(b, style),
    ensures
        keys_styled(a + b, style),
{
    assert forall|j: int| 0 <= j < (a + b).len() implies style_key(#[trigger] (a + b)[j].0) == style by {
        if j < a.len() {
            assert((a + b)[j] == a[j]);
        } else {
            assert((a + b)[j] == b[j - a.len()]);
        }
    }
}

/// The literals the codec and the reader agree on, spelled out.
pub proof fn lemma_names()
    ensures
        "color"@ =~= seq!['c', 'o', 'l', 'o', 'r'],
        "font"@ =~= seq!['f', 'o', 'n', 't'],
        "bold"@ =~= seq!['b', 'o', 'l', 'd'],
        "italic"@ =~= seq!['i', 't', 'a', 'l', 'i', 'c'],
        "underlined"@ =~= seq!['u', 'n', 'd', 'e', 'r', 'l', 'i', 'n', 'e', 'd'],
        "strikethrough"@ =~= seq!['s', 't', 'r', 'i', 'k', 'e', 't', 'h', 'r', 'o', 'u', 'g', 'h'],
        "obfuscated"@ =~= seq!['o', 'b', 'f', 'u', 's', 'c', 'a', 't', 'e', 'd'],
        "shadow_color"@ =~= seq!['s', 'h', 'a', 'd', 'o', 'w', '_', 'c', 'o', 'l', 'o', 'r'],
        "insertion"@ =~= seq!['i', 'n', 's', 'e', 'r', 't', 'i', 'o', 'n'],
        "click_event"@ =~= seq!['c', 'l', 'i', 'c', 'k', '_', 'e', 'v', 'e', 'n', 't'],
        "hover_event"@ =~= seq!['h', 'o', 'v', 'e', 'r', '_', 'e', 'v', 'e', 'n', 't'],
        "extra"@ =~= seq!['e', 'x', 't', 'r', 'a'],
        "type"@ =~= seq!['t', 'y', 'p', 'e'],
        "text"@ =~= seq!['t', 'e', 'x', 't'],
        "translate"@ =~= seq!['t', 'r', 'a', 'n', 's', 'l', 'a', 't', 'e'],
        "fallback"@ =~= seq!['f', 'a', 'l', 'l', 'b', 'a', 'c', 'k'],
        "with"@ =~= seq!['w', 'i', 't', 'h'],
        "keybind"@ =~= seq!['k', 'e', 'y', 'b', 'i', 'n', 'd'],
        "score"@ =~= seq!['s', 'c', 'o', 'r', 'e'],
        "name"@ =~= seq!['n', 'a', 'm', 'e'],
        "objective"@ =~= seq!['o', 'b', 'j', 'e', 'c', 't', 'i', 'v', 'e'],
        "selector"@ =~= seq!['s', 'e', 'l', 'e', 'c', 't', 'o', 'r'],
        "separator"@ =~= seq!['s', 'e', 'p', 'a', 'r', 'a', 't', 'o', 'r'],
        "nbt"@ =~= seq!['n', 'b', 't'],
        "interpret"@ =~= seq!['i', 'n', 't', 'e', 'r', 'p', 'r', 'e', 't'],
        "plain"@ =~= seq!['p', 'l', 'a', 'i', 'n'],
        "source"@ =~= seq!['s', 'o', 'u', 'r', 'c', 'e'],
        "entity"@ =~= seq!['e', 'n', 't', 'i', 't', 'y'],
        "block"@ =~= seq!['b', 'l', 'o', 'c', 'k'],
        "storage"@ =~= seq!['s', 't', 'o', 'r', 'a', 'g', 'e'],
        "object"@ =~= seq!['o', 'b', 'j', 'e', 'c', 't'],
        "sprite"@ =~= seq!['s', 'p', 'r', 'i', 't', 'e'],
        "player"@ =~= seq!['p', 'l', 'a', 'y', 'e', 'r'],
        "atlas"@ =~= seq!['a', 't', 'l', 'a', 's'],
        "hat"@ =~= seq!['h', 'a', 't'],
{
    reveal_strlit("color");
    reveal_strlit("font");
    reveal_strlit("bold");
    reveal_strlit("italic");
    reveal_strlit("underlined");
    reveal_strlit("strikethrough");
    reveal_strlit("obfuscated");
    reveal_strlit("shadow_color");
    reveal_strlit("insertion");
    reveal_strlit("click_event");
    reveal_strlit("hover_event");
    reveal_strlit("extra");
    reveal_strlit("type");
    reveal_strlit("text");
    reveal_strlit("translate");
    reveal_strlit("fallback");
    reveal_strlit("with");
    reveal_strlit("keybind");
    reveal_strlit("score");
    reveal_strlit("name");
    reveal_strlit("objective");
    reveal_strlit("selector");
    reveal_strlit("separator");
    reveal_strlit("nbt");
    reveal_strlit("interpret");
    reveal_strlit("plain");
    reveal_strlit("source");
    reveal_strlit("entity");
    reveal_strlit("block");
    reveal_strlit("storage");
    reveal_strlit("object");
    reveal_strlit("sprite");
    reveal_strlit("player");
    reveal_strlit("atlas");
    reveal_strlit("hat");
}

/// The color names, spelled out.
pub proof fn lemma_color_names()
    ensures
        "black"@ =~= seq!['b', 'l', 'a', 'c', 'k'],
        "dark_blue"@ =~= seq!['d', 'a', 'r', 'k', '_', 'b', 'l', 'u', 'e'],
        "dark_green"@ =~= seq!['d', 'a', 'r', 'k', '_', 'g', 'r', 'e', 'e', 'n'],
        "dark_aqua"@ =~= seq!['d', 'a', 'r', 'k', '_', 'a', 'q', 'u', 'a'],
        "dark_red"@ =~= seq!['d', 'a', 'r', 'k', '_', 'r', 'e', 'd'],
        "dark_purple"@ =~= seq!['d', 'a', 'r', 'k', '_', 'p', 'u', 'r', 'p', 'l', 'e'],
        "gold"@ =~= seq!['g', 'o', 'l', 'd'],
        "gray"@ =~= seq!['g', 'r', 'a', 'y'],
        "dark_gray"@ =~= seq!['d', 'a', 'r', 'k', '_', 'g', 'r', 'a', 'y'],
        "blue"@ =~= seq!['b', 'l', 'u', 'e'],
        "green"@ =~= seq!['g', 'r', 'e', 'e', 'n'],
        "aqua"@ =~= seq!['a', 'q', 'u', 'a'],
        "red"@ =~= seq!['r', 'e', 'd'],
        "light_purple"@ =~= seq!['l', 'i', 'g', 'h', 't', '_', 'p', 'u', 'r', 'p', 'l', 'e'],
        "yellow"@ =~= seq!['y', 'e', 'l', 'l', 'o', 'w'],
        "white"@ =~= seq!['w', 'h', 'i', 't', 'e'],
{
    reveal_strlit("black");
    reveal_strlit("dark_blue");
    reveal_strlit("dark_green");
    reveal_strlit("dark_aqua");
    reveal_strlit("dark_red");
    reveal_strlit("dark_purple");
    reveal_strlit("gold");
    reveal_strlit("gray");
    reveal_strlit("dark_gray");
    reveal_strlit("blue");
    reveal_strlit("green");
    reveal_strlit("aqua");
    reveal_strlit("red");
    reveal_strlit("light_purple");
    reveal_strlit("yellow");
    reveal_strlit("white");
}

/// A color's codec name reads back as the color.
pub proof fn lemma_color_round_trip(c: Color)
    ensures
        color_spec(codec_name_spec(c)) == Ok::<Color, DecodeErrV>(c),
{
    lemma_color_names();
    match c {
        Color::Rgb(r, g, b) => {
            lemma_rgb_name(r, g, b);
            let s = codec_name_spec(c);
            assert(crate::format::from_codec_name_spec(s) is None);
        },
        _ => {},
    }
}

/// The style and event entries of a component, and its children.
pub open spec fn rest_entries(c: TextComponent) -> Seq<(Seq<char>, TagV)> {
    format_entries(c.format) + interaction_entries(c.interactions)
        + opt_entry(c.children@.len() > 0, "extra"@, TagV::List(components_tags(c.children@)))
}

proof fn lemma_rest_keys(c: TextComponent)
    ensures
        keys_styled(rest_entries(c), true),
{
    lemma_names();
    let f = c.format;
    let i = c.interactions;
    lemma_keys_concat(opt_color(f.color), opt_str("font"@, f.font), true);
    let a = opt_color(f.color) + opt_str("font"@, f.font);
    lemma_keys_concat(a, opt_flag("bold"@, f.bold), true);
    let a = a + opt_flag("bold"@, f.bold);
    lemma_keys_concat(a, opt_flag("italic"@, f.italic), true);
    let a = a + opt_flag("italic"@, f.italic);
    lemma_keys_concat(a, opt_flag("underlined"@, f.underlined), true);
    let a = a + opt_flag("underlined"@, f.underlined);
    lemma_keys_concat(a, opt_flag("strikethrough"@, f.strikethrough), true);
    let a = a + opt_flag("strikethrough"@, f.strikethrough);
    lemma_keys_concat(a, opt_flag("obfuscated"@, f.obfuscated), true);
    let a = a + opt_flag("obfuscated"@, f.obfuscated);
    lemma_keys_concat(a, opt_shadow(f.shadow_color), true);
    assert(a + opt_shadow(f.shadow_color) == format_entries(f));
    lemma_keys_concat(opt_str("insertion"@, i.insertion), opt_hover(i.hover), true);
    lemma_keys_concat(opt_str("insertion"@, i.insertion) + opt_hover(i.hover), opt_click(i.click), true);
    lemma_keys_concat(format_entries(f), interaction_entries(i), true);
    lemma_keys_concat(
        format_entries(f) + interaction_entries(i),
        opt_entry(c.children@.len() > 0, "extra"@, TagV::List(components_tags(c.children@))),
        true,
    );
}

/// Entries before a run that hold no entry of this name leave the run's field.
pub proof fn lemma_field_skip(a: Seq<(Seq<char>, TagV)>, b: Seq<(Seq<char>, TagV)>, name: Seq<char>)
    requires
        forall|j: int| 0 <= j < a.len() ==> #[trigger] a[j].0 != name,
    ensures
        field(a + b, name) == field(b, name),
{
    lemma_field_absent(a, name);
    lemma_field_concat(a, b, name);
}

/// A style field of a component's entries, after entries that are no style entries.
proof fn lemma_style_field(pre: Seq<(Seq<char>, TagV)>, c: TextComponent, k: Seq<char>)
    requires
        keys_styled(pre, false),
        style_key(k),
    ensures
        field(pre + rest_entries(c), k) == field(rest_entries(c), k),
{
    assert forall|j: int| 0 <= j < pre.len() implies #[trigger] pre[j].0 != k by {
        assert(style_key(pre[j].0) == false);
    }
    lemma_field_skip(pre, rest_entries(c), k);
}

/// The first of two optional fields that is there.
pub open spec fn first_of(a: Option<TagV>, b: Option<TagV>) -> Option<TagV> {
    if a is Some { a } else { b }
}

/// An optional entry's field.
pub open spec fn entry_field(present: bool, k: Seq<char>, v: TagV, name: Seq<char>) -> Option<TagV> {
    if present && k == name { Some(v) } else { None }
}

proof fn lemma_opt_entry_field(present: bool, k: Seq<char>, v: TagV, name: Seq<char>)
    ensures
        field(opt_entry(present, k, v), name) == entry_field(present, k, v, name),
{
    if present {
        lemma_field_one(k, v, name);
    } else {
        lemma_field_empty(name);
    }
}

/// The fields of a format's entries.
pub open spec fn format_field(f: Format, name: Seq<char>) -> Option<TagV> {
    let color = match f.color {
        Some(c) => entry_field(true, "color"@, TagV::String(codec_name_spec(c)), name),
        None => None,
    };
    let font = match f.font {
        Some(s) => entry_field(true, "font"@, TagV::String(s@), name),
        None => None,
    };
    let flag = |k: Seq<char>, o: Option<bool>| match o {
        Some(b) => entry_field(true, k, TagV::Byte(if b { 1 } else { 0 }), name),
        None => None,
    };
    let shadow = match f.shadow_color {
        Some(v) => entry_field(true, "shadow_color"@, TagV::Int(v), name),
        None => None,
    };
    first_of(color, first_of(font, first_of(flag("bold"@, f.bold), first_of(flag("italic"@, f.italic),
        first_of(flag("underlined"@, f.underlined), first_of(flag("strikethrough"@, f.strikethrough),
        first_of(flag("obfuscated"@, f.obfuscated), shadow)))))))
}

proof fn lemma_opt_str_field(k: Seq<char>, o: Option<String>, name: Seq<char>)
    ensures
        field(opt_str(k, o), name) == match o {
            Some(s) => entry_field(true, k, TagV::String(s@), name),
            None => None,
        },
{
    match o {
        Some(s) => lemma_field_one(k, TagV::String(s@), name),
        None => lemma_field_empty(name),
    }
}

proof fn lemma_opt_flag_field(k: Seq<char>, o: Option<bool>, name: Seq<char>)
    ensures
        field(opt_flag(k, o), name) == match o {
            Some(b) => entry_field(true, k, TagV::Byte(if b { 1 } else { 0 }), name),
            None => None,
        },
{
    match o {
        Some(b) => lemma_field_one(k, TagV::Byte(if b { 1 } else { 0 }), name),
        None => lemma_field_empty(name),
    }
}

proof fn lemma_format_field(f: Format, name: Seq<char>)
    ensures
        field(format_entries(f), name) == format_field(f, name),
{
    let c = opt_color(f.color);
    match f.color {
        Some(col) => lemma_field_one("color"@, TagV::String(codec_name_spec(col)), name),
        None => lemma_field_empty(name),
    }
    lemma_opt_str_field("font"@, f.font, name);
    lemma_opt_flag_field("bold"@, f.bold, name);
    lemma_opt_flag_field("italic"@, f.italic, name);
    lemma_opt_flag_field("underlined"@, f.underlined, name);
    lemma_opt_flag_field("strikethrough"@, f.strikethrough, name);
    lemma_opt_flag_field("obfuscated"@, f.obfuscated, name);
    match f.shadow_color {
        Some(v) => lemma_field_one("shadow_color"@, TagV::Int(v), name),
        None => lemma_field_empty(name),
    }
    let s1 = c + opt_str("font"@, f.font);
    lemma_field_concat(c, opt_str("font"@, f.font), name);
    let s2 = s1 + opt_flag("bold"@, f.bold);
    lemma_field_concat(s1, opt_flag("bold"@, f.bold), name);
    let s3 = s2 + opt_flag("italic"@, f.italic);
    lemma_field_concat(s2, opt_flag("italic"@, f.italic), name);
    let s4 = s3 + opt_flag("underlined"@, f.underlined);
    lemma_field_concat(s3, opt_flag("underlined"@, f.underlined), name);
    let s5 = s4 + opt_flag("strikethrough"@, f.strikethrough);
    lemma_field_concat(s4, opt_flag("strikethrough"@, f.strikethrough), name);
    let s6 = s5 + opt_flag("obfuscated"@, f.obfuscated);
    lemma_field_concat(s5, opt_flag("obfuscated"@, f.obfuscated), name);
    lemma_field_concat(s6, opt_shadow(f.shadow_color), name);
}

/// The fields of an interactivity's entries.
pub open spec fn inter_field(i: Interactivity, name: Seq<char>) -> Option<TagV> {
    let insertion = match i.insertion {
        Some(s) => entry_field(true, "insertion"@, TagV::String(s@), name),
        None => None,
    };
    let hover = match i.hover {
        Some(h) => entry_field(true, "hover_event"@, hover_tag(h), name),
        None => None,
    };
    let click = match i.click {
        Some(c) => entry_field(true, "click_event"@, click_tag(c), name),
        None => None,
    };
    first_of(insertion, first_of(hover, click))
}

proof fn lemma_inter_field(i: Interactivity, name: Seq<char>)
    ensures
        field(interaction_entries(i), name) == inter_field(i, name),
{
    lemma_opt_str_field("insertion"@, i.insertion, name);
    match i.hover {
        Some(h) => lemma_field_one("hover_event"@, hover_tag(h), name),
        None => lemma_field_empty(name),
    }
    match i.click {
        Some(c) => lemma_field_one("click_event"@, click_tag(c), name),
        None => lemma_field_empty(name),
    }
    lemma_field_concat(opt_str("insertion"@, i.insertion), opt_hover(i.hover), name);
    lemma_field_concat(opt_str("insertion"@, i.insertion) + opt_hover(i.hover), opt_click(i.click), name);
}

/// The fields of the style, event and children entries of a component.
pub open spec fn rest_field(c: TextComponent, name: Seq<char>) -> Option<TagV> {
    first_of(format_field(c.format, name), first_of(inter_field(c.interactions, name),
        entry_field(c.children@.len() > 0, "extra"@, TagV::List(components_tags(c.children@)), name)))
}

proof fn lemma_rest_field(pre: Seq<(Seq<char>, TagV)>, c: TextComponent, name: Seq<char>)
    requires
        keys_styled(pre, false),
        style_key(name),
    ensures
        field(pre + rest_entries(c), name) == rest_field(c, name),
{
    lemma_style_field(pre, c, name);
    lemma_format_field(c.format, name);
    lemma_inter_field(c.interactions, name);
    let x = opt_entry(c.children@.len() > 0, "extra"@, TagV::List(components_tags(c.children@)));
    lemma_opt_entry_field(c.children@.len() > 0, "extra"@, TagV::List(components_tags(c.children@)), name);
    lemma_field_concat(format_entries(c.format), interaction_entries(c.interactions), name);
    lemma_field_concat(format_entries(c.format) + interaction_entries(c.interactions), x, name);
}

/// Each style, event and children field of a component's entries: the value written, if any.
pub proof fn lemma_style_fields(pre: Seq<(Seq<char>, TagV)>, c: TextComponent)
    requires
        keys_styled(pre, false),
    ensures
        field(pre + rest_entries(c), "color"@) == match c.format.color { Some(col) => Some(TagV::String(codec_name_spec(col))), None => None },
        field(pre + rest_entries(c), "font"@) == match c.format.font { Some(f) => Some(TagV::String(f@)), None => None },
        field(pre + rest_entries(c), "bold"@) == match c.format.bold { Some(b) => Some(TagV::Byte(if b { 1 } else { 0 })), None => None },
        field(pre + rest_entries(c), "italic"@) == match c.format.italic { Some(b) => Some(TagV::Byte(if b { 1 } else { 0 })), None => None },
        field(pre + rest_entries(c), "underlined"@) == match c.format.underlined { Some(b) => Some(TagV::Byte(if b { 1 } else { 0 })), None => None },
        field(pre + rest_entries(c), "strikethrough"@) == match c.format.strikethrough { Some(b) => Some(TagV::Byte(if b { 1 } else { 0 })), None => None },
        field(pre + rest_entries(c), "obfuscated"@) == match c.format.obfuscated { Some(b) => Some(TagV::Byte(if b { 1 } else { 0 })), None => None },
        field(pre + rest_entries(c), "shadow_color"@) == match c.format.shadow_color { Some(v) => Some(TagV::Int(v)), None => None },
        field(pre + rest_entries(c), "insertion"@) == match c.interactions.insertion { Some(t) => Some(TagV::String(t@)), None => None },
        field(pre + rest_entries(c), "click_event"@) == match c.interactions.click { Some(k) => Some(click_tag(k)), None => None },
        field(pre + rest_entries(c), "hover_event"@) == match c.interactions.hover { Some(h) => Some(hover_tag(h)), None => None },
        field(pre + rest_entries(c), "extra"@) == if c.children@.len() > 0 { Some(TagV::List(components_tags(c.children@))) } else { None },
{
    lemma_style_field_color(pre, c);
    lemma_style_field_font(pre, c);
    lemma_style_field_bold(pre, c);
    lemma_style_field_italic(pre, c);
    lemma_style_field_underlined(pre, c);
    lemma_style_field_strikethrough(pre, c);
    lemma_style_field_obfuscated(pre, c);
    lemma_style_field_shadow_color(pre, c);
    lemma_style_field_insertion(pre, c);
    lemma_style_field_click_event(pre, c);
    lemma_style_field_hover_event(pre, c);
    lemma_style_field_extra(pre, c);
}

proof fn lemma_style_field_color(pre: Seq<(Seq<char>, TagV)>, c: TextComponent)
    requires
        keys_styled(pre, false),
    ensures
        field(pre + rest_entries(c), "color"@) == match c.format.color { Some(col) => Some(TagV::String(codec_name_spec(col))), None => None },
{
    lemma_names();
    lemma_rest_field(pre, c, "color"@);
}

proof fn lemma_style_field_font(pre: Seq<(Seq<char>, TagV)>, c: TextComponent)
    requires
        keys_styled(pre, false),
    ensures
        field(pre + rest_entries(c), "font"@) == match c.format.font { Some(f) => Some(TagV::String(f@)), None => None },
{
    lemma_names();
    lemma_rest_field(pre, c, "font"@);
}

proof fn lemma_style_field_bold(pre: Seq<(Seq<char>, TagV)>, c: TextComponent)
    requires
        keys_styled(pre, false),
    ensures
        field(pre + rest_entries(c), "bold"@) == match c.format.bold { Some(b) => Some(TagV::Byte(if b { 1 } else { 0 })), None => None },
{
    lemma_names();
    lemma_rest_field(pre, c, "bold"@);
}

proof fn lemma_style_field_italic(pre: Seq<(Seq<char>, TagV)>, c: TextComponent)
    requires
        keys_styled(pre, false),
    ensures
        field(pre + rest_entries(c), "italic"@) == match c.format.italic { Some(b) => Some(TagV::Byte(if b { 1 } else { 0 })), None => None },
{
    lemma_names();
    lemma_rest_field(pre, c, "italic"@);
}

proof fn lemma_style_field_underlined(pre: Seq<(Seq<char>, TagV)>, c: TextComponent)
    requires
        keys_styled(pre, false),
    ensures
        field(pre + rest_entries(c), "underlined"@) == match c.format.underlined { Some(b) => Some(TagV::Byte(if b { 1 } else { 0 })), None => None },
{
    lemma_names();
    lemma_rest_field(pre, c, "underlined"@);
}

proof fn lemma_style_field_strikethrough(pre: Seq<(Seq<char>, TagV)>, c: TextComponent)
    requires
        keys_styled(pre, false),
    ensures
        field(pre + rest_entries(c), "strikethrough"@) == match c.format.strikethrough { Some(b) => Some(TagV::Byte(if b { 1 } else { 0 })), None => None },
{
    lemma_names();
    lemma_rest_field(pre, c, "strikethrough"@);
}

proof fn lemma_style_field_obfuscated(pre: Seq<(Seq<char>, TagV)>, c: TextComponent)
    requires
        keys_styled(pre, false),
    ensures
        field(pre + rest_entries(c), "obfuscated"@) == match c.format.obfuscated { Some(b) => Some(TagV::Byte(if b { 1 } else { 0 })), None => None },
{
    lemma_names();
    lemma_rest_field(pre, c, "obfuscated"@);
}

proof fn lemma_style_field_shadow_color(pre: Seq<(Seq<char>, TagV)>, c: TextComponent)
    requires
        keys_styled(pre, false),
    ensures
        field(pre + rest_entries(c), "shadow_color"@) == match c.format.shadow_color { Some(v) => Some(TagV::Int(v)), None => None },
{
    lemma_names();
    lemma_rest_field(pre, c, "shadow_color"@);
}

proof fn lemma_style_field_insertion(pre: Seq<(Seq<char>, TagV)>, c: TextComponent)
    requires
        keys_styled(pre, false),
    ensures
        field(pre + rest_entries(c), "insertion"@) == match c.interactions.insertion { Some(t) => Some(TagV::String(t@)), None => None },
{
    lemma_names();
    lemma_rest_field(pre, c, "insertion"@);
}

proof fn lemma_style_field_click_event(pre: Seq<(Seq<char>, TagV)>, c: TextComponent)
    requires
        keys_styled(pre, false),
    ensures
        field(pre + rest_entries(c), "click_event"@) == match c.interactions.click { Some(k) => Some(click_tag(k)), None => None },
{
    lemma_names();
    lemma_rest_field(pre, c, "click_event"@);
}

proof fn lemma_style_field_hover_event(pre: Seq<(Seq<char>, TagV)>, c: TextComponent)
    requires
        keys_styled(pre, false),
    ensures
        field(pre + rest_entries(c), "hover_event"@) == match c.interactions.hover { Some(h) => Some(hover_tag(h)), None => None },
{
    lemma_names();
    lemma_rest_field(pre, c, "hover_event"@);
}

proof fn lemma_style_field_extra(pre: Seq<(Seq<char>, TagV)>, c: TextComponent)
    requires
        keys_styled(pre, false),
    ensures
        field(pre + rest_entries(c), "extra"@) == if c.children@.len() > 0 { Some(TagV::List(components_tags(c.children@))) } else { None },
{
    lemma_names();
    lemma_rest_field(pre, c, "extra"@);
}

/// A component's style reads back from its entries.
proof fn lemma_format_round_trip(pre: Seq<(Seq<char>, TagV)>, c: TextComponent, ch: spec_fn(Number) -> i32)
    requires
        keys_styled(pre, false),
        c.format.font matches Some(f) ==> is_identifier(f@),
    ensures
        format_spec(pre + rest_entries(c), ch) == Ok::<crate::nbt::model::FormatV, DecodeErrV>(format_view(c.format)),
{
    reveal(format_spec);
    lemma_style_fields(pre, c);
    match c.format.color {
        Some(col) => lemma_color_round_trip(col),
        None => {},
    }
}

// ---------------------------------------------------------------------------
// What the codec reads back.

/// A click event the reader accepts as written.
pub open spec fn click_ready(c: ClickEvent) -> bool {
    match c {
        ClickEvent::OpenUrl { url } => allowed_url(url@),
        ClickEvent::RunCommand { command } => !exists|k: int| 0 <= k < command@.len() && banned_chat_char(#[trigger] command@[k]),
        ClickEvent::SuggestCommand { command } => !exists|k: int| 0 <= k < command@.len() && banned_chat_char(#[trigger] command@[k]),
        ClickEvent::ChangePage { page } => page > 0,
        ClickEvent::CopyToClipboard { .. } => true,
        ClickEvent::ShowDialog { dialog: Dialog::Reference(r) } => is_identifier(r@),
        ClickEvent::ShowDialog { dialog: Dialog::Inline(t) } => t@ is Compound,
    }
}

/// A player the reader accepts as written.
pub open spec fn player_ready(p: ObjectPlayer) -> bool {
    &&& p.name matches Some(n) ==> valid_player_name(n@)
    &&& p.texture matches Some(t) ==> is_identifier(t@)
    &&& p.cape matches Some(t) ==> is_identifier(t@)
    &&& p.elytra matches Some(t) ==> is_identifier(t@)
    &&& p.properties@.len() <= 16
}

/// An optional component the reader accepts as written.
pub open spec fn opt_ready(o: Option<Box<TextComponent>>) -> bool
    decreases o,
{
    match o {
        Some(c) => component_ready(*c),
        None => true,
    }
}

/// Content the reader accepts as written: identifiers where it wants them, a valid player,
/// not both NBT flags, and every nested component likewise.
pub open spec fn content_ready(c: Content) -> bool
    decreases c,
{
    match c {
        Content::Translate(m) => match m.args {
            Args::Owned(v) => comps_ready(v@),
            Args::Absent => true,
        },
        Content::Object(Object::Atlas { atlas, sprite, fallback }) => is_identifier(atlas@) && is_identifier(sprite@)
            && opt_ready(fallback),
        Content::Object(Object::Player { player, fallback, .. }) => player_ready(*player) && opt_ready(fallback),
        Content::Resolvable(Resolvable::Entity { separator, .. }) => opt_ready(separator),
        Content::Resolvable(Resolvable::NBT { interpret, plain, separator, source, .. }) => !(interpret && plain)
            && opt_ready(separator) && (source matches NbtSource::Storage(s) ==> is_identifier(s@)),
        _ => true,
    }
}

/// A hover event the reader accepts as written.
pub open spec fn hover_ready(h: HoverEvent) -> bool
    decreases h,
{
    match h {
        HoverEvent::ShowText { value } => component_ready(*value),
        HoverEvent::ShowItem { id, count, components } => is_identifier(id@) && 1 <= count <= 99
            && (components matches Some(t) ==> t@ matches TagV::Compound(v) && v.len() > 0),
        HoverEvent::ShowEntity { name, id, .. } => is_identifier(id@) && opt_ready(name),
    }
}

/// A component the codec reads back as written: its content, font, events and children
/// within what the reader accepts.
pub open spec fn component_ready(c: TextComponent) -> bool
    decreases c,
{
    &&& content_ready(c.content)
    &&& c.format.font matches Some(f) ==> is_identifier(f@)
    &&& c.interactions.click matches Some(k) ==> click_ready(k)
    &&& c.interactions.hover matches Some(h) ==> hover_ready(h)
    &&& comps_ready(c.children@)
}

/// Components the codec reads back as written.
pub open spec fn comps_ready(s: Seq<TextComponent>) -> bool
    decreases s,
{
    s.len() == 0 || (comps_ready(s.drop_last()) && component_ready(s.last()))
}

/// The names of event fields and actions, spelled out.
pub proof fn lemma_event_names()
    ensures
        "action"@ =~= seq!['a', 'c', 't', 'i', 'o', 'n'],
        "url"@ =~= seq!['u', 'r', 'l'],
        "command"@ =~= seq!['c', 'o', 'm', 'm', 'a', 'n', 'd'],
        "page"@ =~= seq!['p', 'a', 'g', 'e'],
        "value"@ =~= seq!['v', 'a', 'l', 'u', 'e'],
        "dialog"@ =~= seq!['d', 'i', 'a', 'l', 'o', 'g'],
        "open_url"@ =~= seq!['o', 'p', 'e', 'n', '_', 'u', 'r', 'l'],
        "run_command"@ =~= seq!['r', 'u', 'n', '_', 'c', 'o', 'm', 'm', 'a', 'n', 'd'],
        "suggest_command"@ =~= seq!['s', 'u', 'g', 'g', 'e', 's', 't', '_', 'c', 'o', 'm', 'm', 'a', 'n', 'd'],
        "change_page"@ =~= seq!['c', 'h', 'a', 'n', 'g', 'e', '_', 'p', 'a', 'g', 'e'],
        "copy_to_clipboard"@ =~= seq!['c', 'o', 'p', 'y', '_', 't', 'o', '_', 'c', 'l', 'i', 'p', 'b', 'o', 'a', 'r', 'd'],
        "show_dialog"@ =~= seq!['s', 'h', 'o', 'w', '_', 'd', 'i', 'a', 'l', 'o', 'g'],
        "show_text"@ =~= seq!['s', 'h', 'o', 'w', '_', 't', 'e', 'x', 't'],
        "show_item"@ =~= seq!['s', 'h', 'o', 'w', '_', 'i', 't', 'e', 'm'],
        "show_entity"@ =~= seq!['s', 'h', 'o', 'w', '_', 'e', 'n', 't', 'i', 't', 'y'],
        "id"@ =~= seq!['i', 'd'],
        "count"@ =~= seq!['c', 'o', 'u', 'n', 't'],
        "components"@ =~= seq!['c', 'o', 'm', 'p', 'o', 'n', 'e', 'n', 't', 's'],
        "uuid"@ =~= seq!['u', 'u', 'i', 'd'],
        "name"@ =~= seq!['n', 'a', 'm', 'e'],
{
    reveal_strlit("action");
    reveal_strlit("url");
    reveal_strlit("command");
    reveal_strlit("page");
    reveal_strlit("value");
    reveal_strlit("dialog");
    reveal_strlit("open_url");
    reveal_strlit("run_command");
    reveal_strlit("suggest_command");
    reveal_strlit("change_page");
    reveal_strlit("copy_to_clipboard");
    reveal_strlit("show_dialog");
    reveal_strlit("show_text");
    reveal_strlit("show_item");
    reveal_strlit("show_entity");
    reveal_strlit("id");
    reveal_strlit("count");
    reveal_strlit("components");
    reveal_strlit("uuid");
    reveal_strlit("name");
}

proof fn lemma_field_two(k1: Seq<char>, v1: TagV, k2: Seq<char>, v2: TagV, name: Seq<char>)
    ensures
        field(seq![(k1, v1), (k2, v2)], name) == if k1 == name { Some(v1) } else if k2 == name { Some(v2) } else { None::<TagV> },
{
    assert(seq![(k1, v1), (k2, v2)] =~= seq![(k1, v1)] + seq![(k2, v2)]);
    lemma_field_one(k1, v1, name);
    lemma_field_one(k2, v2, name);
    lemma_field_concat(seq![(k1, v1)], seq![(k2, v2)], name);
}

/// A click event reads back as written.
pub proof fn lemma_click_round_trip(k: ClickEvent)
    requires
        click_ready(k),
    ensures
        click_spec(click_tag(k)->Compound_0) == Ok::<ClickV, DecodeErrV>(click_view(k)),
{
    lemma_event_names();
    reveal(click_spec);
    let es = click_tag(k)->Compound_0;
    let a = es[0];
    let b = es[1];
    assert(es == seq![a, b]);
    lemma_field_two(a.0, a.1, b.0, b.1, "action"@);
    lemma_field_two(a.0, a.1, b.0, b.1, "url"@);
    lemma_field_two(a.0, a.1, b.0, b.1, "command"@);
    lemma_field_two(a.0, a.1, b.0, b.1, "page"@);
    lemma_field_two(a.0, a.1, b.0, b.1, "value"@);
    lemma_field_two(a.0, a.1, b.0, b.1, "dialog"@);
}

/// A UUID written as four ints reads back as itself.
pub proof fn lemma_uuid_round_trip(u: u128)
    ensures
        uuid_spec(TagV::IntArray(uuid_ints(u))) == Ok::<u128, DecodeErrV>(u),
{
    let v = uuid_ints(u);
    let a = ((u >> 96u128) as u32) as i32;
    let b = ((u >> 64u128) as u32) as i32;
    let c = ((u >> 32u128) as u32) as i32;
    let d = (u as u32) as i32;
    assert(v[0] == a && v[1] == b && v[2] == c && v[3] == d);
    let high = (((a as u32) as u64) * 0x1_0000_0000 + (b as u32) as u64) as u64;
    let low = (((c as u32) as u64) * 0x1_0000_0000 + (d as u32) as u64) as u64;
    assert(uuid_of_halves(high, low) == u) by (bit_vector)
        requires
            a == ((u >> 96u128) as u32) as i32,
            b == ((u >> 64u128) as u32) as i32,
            c == ((u >> 32u128) as u32) as i32,
            d == (u as u32) as i32,
            high == (((a as u32) as u64) * 0x1_0000_0000 + (b as u32) as u64) as u64,
            low == (((c as u32) as u64) * 0x1_0000_0000 + (d as u32) as u64) as u64,
    ;
    assert(four_ints(TagV::IntArray(v)) == Some([a, b, c, d]));
}

/// Reading a list field reads the list's elements.
pub proof fn lemma_list_field(es: Seq<(Seq<char>, TagV)>, f: Seq<char>, ch: spec_fn(Number) -> i32)
    ensures
        list_field(es, f, ch) == match field(es, f) {
            Some(TagV::List(v)) => decode_list(v, ch),
            _ => Ok::<Seq<CompV>, DecodeErrV>(Seq::empty()),
        },
{
}

/// The children of a component, written as a list, read back.
pub proof fn lemma_list_round_trip(s: Seq<TextComponent>, ch: spec_fn(Number) -> i32)
    requires
        comps_ready(s),
    ensures
        decode_list(components_tags(s), ch) == Ok::<Seq<CompV>, DecodeErrV>(comps_view(s)),
    decreases s, 0nat,
{
    if s.len() > 0 {
        lemma_list_round_trip(s.drop_last(), ch);
        lemma_round_trip(s.last(), ch);
        assert(components_tags(s).drop_last() =~= components_tags(s.drop_last()));
    }
}

/// An optional component reads back.
pub proof fn lemma_opt_round_trip(o: Option<Box<TextComponent>>, ch: spec_fn(Number) -> i32)
    requires
        opt_ready(o),
    ensures
        o matches Some(c) ==> decode_spec(component_tag(*c), ch) == Ok::<CompV, DecodeErrV>(comp_view(*c)),
    decreases o, 0nat,
{
    match o {
        Some(c) => lemma_round_trip(*c, ch),
        None => {},
    }
}

/// A hover event reads back as written.
pub proof fn lemma_hover_round_trip(h: HoverEvent, ch: spec_fn(Number) -> i32)
    requires
        hover_ready(h),
    ensures
        hover_spec(hover_tag(h)->Compound_0, ch) == Ok::<HoverV, DecodeErrV>(hover_view(h)),
    decreases h, 0nat,
{
    lemma_event_names();
    let es = hover_tag(h)->Compound_0;
    match h {
        HoverEvent::ShowText { value } => {
            lemma_field_two("action"@, TagV::String("show_text"@), "value"@, component_tag(*value), "action"@);
            lemma_field_two("action"@, TagV::String("show_text"@), "value"@, component_tag(*value), "value"@);
            lemma_decode_field(es, "value"@, ch);
            lemma_round_trip(*value, ch);
        },
        HoverEvent::ShowItem { id, count, components } => {
            let head = seq![("action"@, TagV::String("show_item"@)), ("id"@, TagV::String(id@))];
            let cnt = opt_entry(count != 1, "count"@, TagV::Int(count));
            let comp = match components {
                Some(t) => opt_entry(components_present(components), "components"@, view_tag(t)),
                None => Seq::empty(),
            };
            assert(es == head + cnt + comp);
            match components {
                Some(t) => {
                    let v = t->Compound_0;
                    lemma_view_entries_len(v@);
                    lemma_opt_entry_field(components_present(components), "components"@, view_tag(t), "action"@);
                    lemma_opt_entry_field(components_present(components), "components"@, view_tag(t), "id"@);
                    lemma_opt_entry_field(components_present(components), "components"@, view_tag(t), "count"@);
                    lemma_opt_entry_field(components_present(components), "components"@, view_tag(t), "components"@);
                },
                None => {
                    lemma_field_empty("action"@);
                    lemma_field_empty("id"@);
                    lemma_field_empty("count"@);
                    lemma_field_empty("components"@);
                },
            }
            lemma_opt_entry_field(count != 1, "count"@, TagV::Int(count), "action"@);
            lemma_opt_entry_field(count != 1, "count"@, TagV::Int(count), "id"@);
            lemma_opt_entry_field(count != 1, "count"@, TagV::Int(count), "count"@);
            lemma_opt_entry_field(count != 1, "count"@, TagV::Int(count), "components"@);
            lemma_field_two("action"@, TagV::String("show_item"@), "id"@, TagV::String(id@), "action"@);
            lemma_field_two("action"@, TagV::String("show_item"@), "id"@, TagV::String(id@), "id"@);
            lemma_field_two("action"@, TagV::String("show_item"@), "id"@, TagV::String(id@), "count"@);
            lemma_field_two("action"@, TagV::String("show_item"@), "id"@, TagV::String(id@), "components"@);
            lemma_field_concat(head, cnt, "action"@);
            lemma_field_concat(head, cnt, "id"@);
            lemma_field_concat(head, cnt, "count"@);
            lemma_field_concat(head, cnt, "components"@);
            lemma_field_concat(head + cnt, comp, "action"@);
            lemma_field_concat(head + cnt, comp, "id"@);
            lemma_field_concat(head + cnt, comp, "count"@);
            lemma_field_concat(head + cnt, comp, "components"@);
        },
        HoverEvent::ShowEntity { name, id, uuid } => {
            let head = seq![
                ("action"@, TagV::String("show_entity"@)),
                ("id"@, TagV::String(id@)),
                ("uuid"@, TagV::IntArray(uuid_ints(uuid))),
            ];
            let tail = match name {
                Some(n) => seq![("name"@, component_tag(*n))],
                None => Seq::<(Seq<char>, TagV)>::empty(),
            };
            assert(es == head + tail);
            assert(head =~= seq![("action"@, TagV::String("show_entity"@)), ("id"@, TagV::String(id@))]
                + seq![("uuid"@, TagV::IntArray(uuid_ints(uuid)))]);
            let two = seq![("action"@, TagV::String("show_entity"@)), ("id"@, TagV::String(id@))];
            let three = seq![("uuid"@, TagV::IntArray(uuid_ints(uuid)))];
            lemma_field_two("action"@, TagV::String("show_entity"@), "id"@, TagV::String(id@), "action"@);
            lemma_field_two("action"@, TagV::String("show_entity"@), "id"@, TagV::String(id@), "id"@);
            lemma_field_two("action"@, TagV::String("show_entity"@), "id"@, TagV::String(id@), "uuid"@);
            lemma_field_two("action"@, TagV::String("show_entity"@), "id"@, TagV::String(id@), "name"@);
            lemma_field_one("uuid"@, TagV::IntArray(uuid_ints(uuid)), "action"@);
            lemma_field_one("uuid"@, TagV::IntArray(uuid_ints(uuid)), "id"@);
            lemma_field_one("uuid"@, TagV::IntArray(uuid_ints(uuid)), "uuid"@);
            lemma_field_one("uuid"@, TagV::IntArray(uuid_ints(uuid)), "name"@);
            lemma_field_concat(two, three, "action"@);
            lemma_field_concat(two, three, "id"@);
            lemma_field_concat(two, three, "uuid"@);
            lemma_field_concat(two, three, "name"@);
            match name {
                Some(n) => {
                    lemma_field_one("name"@, component_tag(*n), "action"@);
                    lemma_field_one("name"@, component_tag(*n), "id"@);
                    lemma_field_one("name"@, component_tag(*n), "uuid"@);
                    lemma_field_one("name"@, component_tag(*n), "name"@);
                },
                None => {
                    lemma_field_empty("action"@);
                    lemma_field_empty("id"@);
                    lemma_field_empty("uuid"@);
                    lemma_field_empty("name"@);
                },
            }
            lemma_field_concat(head, tail, "action"@);
            lemma_field_concat(head, tail, "id"@);
            lemma_field_concat(head, tail, "uuid"@);
            lemma_field_concat(head, tail, "name"@);
            lemma_decode_field(es, "name"@, ch);
            lemma_uuid_round_trip(uuid);
            lemma_opt_round_trip(name, ch);
        },
    }
}

/// A component's events read back from its entries.
proof fn lemma_inter_round_trip(pre: Seq<(Seq<char>, TagV)>, c: TextComponent, ch: spec_fn(Number) -> i32)
    requires
        keys_styled(pre, false),
        component_ready(c),
    ensures
        inter_spec(pre + rest_entries(c), ch) == Ok::<InterV, DecodeErrV>(inter_view(c.interactions)),
    decreases c, 1nat,
{
    lemma_style_fields(pre, c);
    let es = pre + rest_entries(c);
    lemma_find_index(es, "hover_event"@);
    match c.interactions.click {
        Some(k) => lemma_click_round_trip(k),
        None => {},
    }
    match c.interactions.hover {
        Some(h) => lemma_hover_round_trip(h, ch),
        None => {},
    }
}

/// Names no style entry has.
proof fn lemma_content_fields(ct: Content, c: TextComponent)
    ensures
        forall|k: Seq<char>| !style_key(k) ==> #[trigger] field(content_entries(ct) + rest_entries(c), k)
            == field(content_entries(ct), k),
{
    lemma_rest_keys(c);
    let rest = rest_entries(c);
    assert forall|k: Seq<char>| !style_key(k) implies #[trigger] field(content_entries(ct) + rest_entries(c), k)
        == field(content_entries(ct), k) by {
        assert forall|j: int| 0 <= j < rest.len() implies #[trigger] rest[j].0 != k by {
            assert(style_key(rest[j].0));
        }
        lemma_field_absent(rest, k);
        lemma_field_concat(content_entries(ct), rest, k);
    }
}

proof fn lemma_keys_one(k: Seq<char>, v: TagV)
    requires
        !style_key(k),
    ensures
        keys_styled(seq![(k, v)], false),
{
}

proof fn lemma_keys_opt(present: bool, k: Seq<char>, v: TagV)
    requires
        !style_key(k),
    ensures
        keys_styled(opt_entry(present, k, v), false),
{
}

/// An optional component's entry.
pub open spec fn comp_entry(name: Seq<char>, o: Option<Box<TextComponent>>) -> Seq<(Seq<char>, TagV)> {
    match o {
        Some(f) => seq![(name, component_tag(*f))],
        None => Seq::empty(),
    }
}

/// The field an optional component's entry gives.
pub open spec fn comp_entry_field(name: Seq<char>, o: Option<Box<TextComponent>>, k: Seq<char>) -> Option<TagV> {
    match o {
        Some(f) => entry_field(true, name, component_tag(*f), k),
        None => None,
    }
}

proof fn lemma_comp_entry_field(name: Seq<char>, o: Option<Box<TextComponent>>, k: Seq<char>)
    ensures
        field(comp_entry(name, o), k) == comp_entry_field(name, o, k),
{
    match o {
        Some(f) => lemma_field_one(name, component_tag(*f), k),
        None => lemma_field_empty(k),
    }
}

/// The fields of a content's entries.
pub open spec fn content_field(ct: Content, k: Seq<char>) -> Option<TagV> {
    match ct {
        Content::Text { text } => entry_field(true, "text"@, TagV::String(text@), k),
        Content::Keybind { keybind } => entry_field(true, "keybind"@, TagV::String(keybind@), k),
        Content::Translate(m) => first_of(entry_field(true, "translate"@, TagV::String(m.key@), k), first_of(
            match m.fallback {
                Some(f) => entry_field(true, "fallback"@, TagV::String(f@), k),
                None => None,
            },
            match m.args {
                Args::Absent => None,
                Args::Owned(v) => entry_field(true, "with"@, TagV::List(components_tags(v@)), k),
            },
        )),
        Content::Resolvable(Resolvable::Scoreboard { selector, objective }) => entry_field(
            true,
            "score"@,
            TagV::Compound(seq![("name"@, TagV::String(selector@)), ("objective"@, TagV::String(objective@))]),
            k,
        ),
        Content::Resolvable(Resolvable::Entity { selector, separator }) => first_of(
            entry_field(true, "selector"@, TagV::String(selector@), k),
            comp_entry_field("separator"@, separator, k),
        ),
        Content::Resolvable(Resolvable::NBT { path, interpret, plain, separator, source }) => first_of(
            entry_field(true, "nbt"@, TagV::String(path@), k),
            first_of(entry_field(interpret, "interpret"@, TagV::Byte(1), k), first_of(
                entry_field(plain, "plain"@, TagV::Byte(1), k),
                first_of(comp_entry_field("separator"@, separator, k), match source {
                    NbtSource::Entity(v) => entry_field(true, "entity"@, TagV::String(v@), k),
                    NbtSource::Block(v) => entry_field(true, "block"@, TagV::String(v@), k),
                    NbtSource::Storage(v) => entry_field(true, "storage"@, TagV::String(v@), k),
                }),
            )),
        ),
        Content::Object(Object::Atlas { atlas, sprite, fallback }) => first_of(
            entry_field(atlas@ != "minecraft:blocks"@, "atlas"@, TagV::String(atlas@), k),
            first_of(entry_field(true, "sprite"@, TagV::String(sprite@), k), comp_entry_field("fallback"@, fallback, k)),
        ),
        Content::Object(Object::Player { player, hat, fallback }) => first_of(
            entry_field(true, "player"@, TagV::Compound(player_entries(*player)), k),
            first_of(entry_field(!hat, "hat"@, TagV::Byte(0), k), comp_entry_field("fallback"@, fallback, k)),
        ),
    }
}

proof fn lemma_content_field(ct: Content, k: Seq<char>)
    ensures
        field(content_entries(ct), k) == content_field(ct, k),
{
    match ct {
        Content::Text { text } => lemma_field_one("text"@, TagV::String(text@), k),
        Content::Keybind { keybind } => lemma_field_one("keybind"@, TagV::String(keybind@), k),
        Content::Translate(m) => {
            let a = seq![("translate"@, TagV::String(m.key@))];
            let b = match m.fallback {
                Some(f) => seq![("fallback"@, TagV::String(f@))],
                None => Seq::<(Seq<char>, TagV)>::empty(),
            };
            let c = match m.args {
                Args::Absent => Seq::<(Seq<char>, TagV)>::empty(),
                Args::Owned(v) => seq![("with"@, TagV::List(components_tags(v@)))],
            };
            lemma_field_one("translate"@, TagV::String(m.key@), k);
            match m.fallback {
                Some(f) => lemma_field_one("fallback"@, TagV::String(f@), k),
                None => lemma_field_empty(k),
            }
            match m.args {
                Args::Absent => lemma_field_empty(k),
                Args::Owned(v) => lemma_field_one("with"@, TagV::List(components_tags(v@)), k),
            }
            lemma_field_concat(a, b, k);
            lemma_field_concat(a + b, c, k);
        },
        Content::Resolvable(Resolvable::Scoreboard { selector, objective }) => {
            lemma_field_one(
                "score"@,
                TagV::Compound(seq![("name"@, TagV::String(selector@)), ("objective"@, TagV::String(objective@))]),
                k,
            );
        },
        Content::Resolvable(Resolvable::Entity { selector, separator }) => {
            lemma_field_one("selector"@, TagV::String(selector@), k);
            lemma_comp_entry_field("separator"@, separator, k);
            lemma_field_concat(seq![("selector"@, TagV::String(selector@))], comp_entry("separator"@, separator), k);
        },
        Content::Resolvable(Resolvable::NBT { path, interpret, plain, separator, source }) => {
            let a = seq![("nbt"@, TagV::String(path@))];
            let b = opt_entry(interpret, "interpret"@, TagV::Byte(1));
            let c = opt_entry(plain, "plain"@, TagV::Byte(1));
            let d = comp_entry("separator"@, separator);
            let e = match source {
                NbtSource::Entity(v) => seq![("entity"@, TagV::String(v@))],
                NbtSource::Block(v) => seq![("block"@, TagV::String(v@))],
                NbtSource::Storage(v) => seq![("storage"@, TagV::String(v@))],
            };
            lemma_field_one("nbt"@, TagV::String(path@), k);
            lemma_opt_entry_field(interpret, "interpret"@, TagV::Byte(1), k);
            lemma_opt_entry_field(plain, "plain"@, TagV::Byte(1), k);
            lemma_comp_entry_field("separator"@, separator, k);
            match source {
                NbtSource::Entity(v) => lemma_field_one("entity"@, TagV::String(v@), k),
                NbtSource::Block(v) => lemma_field_one("block"@, TagV::String(v@), k),
                NbtSource::Storage(v) => lemma_field_one("storage"@, TagV::String(v@), k),
            }
            lemma_field_concat(a, b, k);
            lemma_field_concat(a + b, c, k);
            lemma_field_concat(a + b + c, d, k);
            lemma_field_concat(a + b + c + d, e, k);
        },
        Content::Object(Object::Atlas { atlas, sprite, fallback }) => {
            let a = opt_entry(atlas@ != "minecraft:blocks"@, "atlas"@, TagV::String(atlas@));
            let b = seq![("sprite"@, TagV::String(sprite@))];
            let c = comp_entry("fallback"@, fallback);
            lemma_opt_entry_field(atlas@ != "minecraft:blocks"@, "atlas"@, TagV::String(atlas@), k);
            lemma_field_one("sprite"@, TagV::String(sprite@), k);
            lemma_comp_entry_field("fallback"@, fallback, k);
            lemma_field_concat(a, b, k);
            lemma_field_concat(a + b, c, k);
        },
        Content::Object(Object::Player { player, hat, fallback }) => {
            let a = seq![("player"@, TagV::Compound(player_entries(*player)))];
            let b = opt_entry(!hat, "hat"@, TagV::Byte(0));
            let c = comp_entry("fallback"@, fallback);
            lemma_field_one("player"@, TagV::Compound(player_entries(*player)), k);
            lemma_opt_entry_field(!hat, "hat"@, TagV::Byte(0), k);
            lemma_comp_entry_field("fallback"@, fallback, k);
            lemma_field_concat(a, b, k);
            lemma_field_concat(a + b, c, k);
        },
    }
}

/// The field of a content's entries followed by style entries, for a name no style entry
/// has.
proof fn lemma_content_key(ct: Content, c: TextComponent, k: Seq<char>)
    requires
        !style_key(k),
    ensures
        field(content_entries(ct) + rest_entries(c), k) == content_field(ct, k),
{
    lemma_content_fields(ct, c);
    lemma_content_field(ct, k);
}

type Entries = Seq<(Seq<char>, TagV)>;

proof fn lemma_text_fails(es: Entries)
    requires
        field(es, "text"@) is None,
    ensures
        text_spec(es) is Err,
{
    reveal(text_spec);
}

proof fn lemma_keybind_fails(es: Entries)
    requires
        field(es, "keybind"@) is None,
    ensures
        keybind_spec(es) is Err,
{
    reveal(keybind_spec);
}

proof fn lemma_score_fails(es: Entries)
    requires
        field(es, "score"@) is None,
    ensures
        score_spec(es) is Err,
{
    reveal(score_spec);
}

/// Before the content kind of `ct` is tried, each earlier kind fails on its entries.
proof fn lemma_earlier_kinds_fail(ct: Content, c: TextComponent, ch: spec_fn(Number) -> i32)
    ensures
        ({
            let es = content_entries(ct) + rest_entries(c);
            &&& field(es, "type"@) is None
            &&& !(ct is Text) ==> text_spec(es) is Err
            &&& !(ct is Text || ct is Translate) ==> translatable_spec(es, ch) is Err
            &&& !(ct is Text || ct is Translate || ct is Keybind) ==> keybind_spec(es) is Err
            &&& (ct is Resolvable && !(ct->Resolvable_0 is Scoreboard)) || ct is Object ==> score_spec(es) is Err
            &&& (ct is Resolvable && ct->Resolvable_0 is NBT) || ct is Object ==> selector_spec(es, ch) is Err
            &&& ct is Object ==> nbt_spec(es, ch) is Err
        }),
{
    lemma_names();
    let es = content_entries(ct) + rest_entries(c);
    lemma_content_key(ct, c, "type"@);
    lemma_content_key(ct, c, "text"@);
    lemma_content_key(ct, c, "translate"@);
    lemma_content_key(ct, c, "keybind"@);
    lemma_content_key(ct, c, "score"@);
    lemma_content_key(ct, c, "selector"@);
    lemma_content_key(ct, c, "nbt"@);
    if !(ct is Text) {
        lemma_text_fails(es);
    }
    if !(ct is Text || ct is Translate || ct is Keybind) {
        lemma_keybind_fails(es);
    }
    if (ct is Resolvable && !(ct->Resolvable_0 is Scoreboard)) || ct is Object {
        lemma_score_fails(es);
    }
}

proof fn lemma_keys_comp(name: Seq<char>, o: Option<Box<TextComponent>>)
    requires
        !style_key(name),
    ensures
        keys_styled(comp_entry(name, o), false),
{
}

/// The names of a content's entries are no style names, and the first is not empty.
proof fn lemma_content_keys(ct: Content)
    ensures
        keys_styled(content_entries(ct), false),
        content_entries(ct).len() > 0 && content_entries(ct)[0].0.len() > 0,
{
    lemma_names();
    match ct {
        Content::Text { text } => {},
        Content::Keybind { keybind } => {},
        Content::Translate(m) => {
            let a = seq![("translate"@, TagV::String(m.key@))];
            let b = match m.fallback {
                Some(f) => seq![("fallback"@, TagV::String(f@))],
                None => Seq::<(Seq<char>, TagV)>::empty(),
            };
            let c = match m.args {
                Args::Absent => Seq::<(Seq<char>, TagV)>::empty(),
                Args::Owned(v) => seq![("with"@, TagV::List(components_tags(v@)))],
            };
            lemma_keys_concat(a, b, false);
            lemma_keys_concat(a + b, c, false);
            assert((a + b + c)[0] == a[0]);
        },
        Content::Resolvable(Resolvable::Scoreboard { .. }) => {},
        Content::Resolvable(Resolvable::Entity { selector, separator }) => {
            let a = seq![("selector"@, TagV::String(selector@))];
            lemma_keys_comp("separator"@, separator);
            lemma_keys_concat(a, comp_entry("separator"@, separator), false);
            assert((a + comp_entry("separator"@, separator))[0] == a[0]);
        },
        Content::Resolvable(Resolvable::NBT { path, interpret, plain, separator, source }) => {
            let a = seq![("nbt"@, TagV::String(path@))];
            let b = opt_entry(interpret, "interpret"@, TagV::Byte(1));
            let c = opt_entry(plain, "plain"@, TagV::Byte(1));
            let d = comp_entry("separator"@, separator);
            let e = match source {
                NbtSource::Entity(v) => seq![("entity"@, TagV::String(v@))],
                NbtSource::Block(v) => seq![("block"@, TagV::String(v@))],
                NbtSource::Storage(v) => seq![("storage"@, TagV::String(v@))],
            };
            lemma_keys_comp("separator"@, separator);
            lemma_keys_concat(a, b, false);
            lemma_keys_concat(a + b, c, false);
            lemma_keys_concat(a + b + c, d, false);
            lemma_keys_concat(a + b + c + d, e, false);
            assert((a + b + c + d + e)[0] == a[0]);
        },
        Content::Object(Object::Atlas { atlas, sprite, fallback }) => {
            let a = opt_entry(atlas@ != "minecraft:blocks"@, "atlas"@, TagV::String(atlas@));
            let b = seq![("sprite"@, TagV::String(sprite@))];
            let c = comp_entry("fallback"@, fallback);
            lemma_keys_comp("fallback"@, fallback);
            lemma_keys_concat(a, b, false);
            lemma_keys_concat(a + b, c, false);
            assert((a + b + c)[0] == (a + b)[0]);
            assert((a + b)[0].0 == "atlas"@ || (a + b)[0].0 == "sprite"@);
        },
        Content::Object(Object::Player { player, hat, fallback }) => {
            let a = seq![("player"@, TagV::Compound(player_entries(*player)))];
            let b = opt_entry(!hat, "hat"@, TagV::Byte(0));
            let c = comp_entry("fallback"@, fallback);
            lemma_keys_comp("fallback"@, fallback);
            lemma_keys_concat(a, b, false);
            lemma_keys_concat(a + b, c, false);
            assert((a + b + c)[0] == a[0]);
        },
    }
}

/// The names of a player profile's entries, spelled out.
pub proof fn lemma_player_names()
    ensures
        "id"@ =~= seq!['i', 'd'],
        "name"@ =~= seq!['n', 'a', 'm', 'e'],
        "texture"@ =~= seq!['t', 'e', 'x', 't', 'u', 'r', 'e'],
        "cape"@ =~= seq!['c', 'a', 'p', 'e'],
        "elytra"@ =~= seq!['e', 'l', 'y', 't', 'r', 'a'],
        "model"@ =~= seq!['m', 'o', 'd', 'e', 'l'],
        "properties"@ =~= seq!['p', 'r', 'o', 'p', 'e', 'r', 't', 'i', 'e', 's'],
        "slim"@ =~= seq!['s', 'l', 'i', 'm'],
        "wide"@ =~= seq!['w', 'i', 'd', 'e'],
        "value"@ =~= seq!['v', 'a', 'l', 'u', 'e'],
        "signature"@ =~= seq!['s', 'i', 'g', 'n', 'a', 't', 'u', 'r', 'e'],
{
    reveal_strlit("id");
    reveal_strlit("name");
    reveal_strlit("texture");
    reveal_strlit("cape");
    reveal_strlit("elytra");
    reveal_strlit("model");
    reveal_strlit("properties");
    reveal_strlit("slim");
    reveal_strlit("wide");
    reveal_strlit("value");
    reveal_strlit("signature");
}

/// The fields of a profile's entries.
pub open spec fn player_field(p: ObjectPlayer, k: Seq<char>) -> Option<TagV> {
    let s = |name: Seq<char>, o: Option<String>| match o {
        Some(v) => entry_field(true, name, TagV::String(v@), k),
        None => None,
    };
    first_of(
        match p.id {
            Some(id) => entry_field(true, "id"@, TagV::IntArray(id@), k),
            None => None,
        },
        first_of(s("name"@, p.name), first_of(s("texture"@, p.texture), first_of(s("cape"@, p.cape), first_of(
            s("elytra"@, p.elytra),
            first_of(
                match p.model {
                    Some(crate::content::PlayerModel::Slim) => entry_field(true, "model"@, TagV::String("slim"@), k),
                    Some(crate::content::PlayerModel::Wide) => entry_field(true, "model"@, TagV::String("wide"@), k),
                    None => None,
                },
                entry_field(p.properties@.len() > 0, "properties"@, TagV::List(property_tags(p.properties@)), k),
            ),
        )))),
    )
}

proof fn lemma_player_field(p: ObjectPlayer, k: Seq<char>)
    ensures
        field(player_entries(p), k) == player_field(p, k),
{
    let a = match p.id {
        Some(id) => seq![("id"@, TagV::IntArray(id@))],
        None => Seq::<(Seq<char>, TagV)>::empty(),
    };
    let m = match p.model {
        Some(crate::content::PlayerModel::Slim) => seq![("model"@, TagV::String("slim"@))],
        Some(crate::content::PlayerModel::Wide) => seq![("model"@, TagV::String("wide"@))],
        None => Seq::<(Seq<char>, TagV)>::empty(),
    };
    let pr = opt_entry(p.properties@.len() > 0, "properties"@, TagV::List(property_tags(p.properties@)));
    match p.id {
        Some(id) => lemma_field_one("id"@, TagV::IntArray(id@), k),
        None => lemma_field_empty(k),
    }
    lemma_opt_str_field("name"@, p.name, k);
    lemma_opt_str_field("texture"@, p.texture, k);
    lemma_opt_str_field("cape"@, p.cape, k);
    lemma_opt_str_field("elytra"@, p.elytra, k);
    match p.model {
        Some(crate::content::PlayerModel::Slim) => lemma_field_one("model"@, TagV::String("slim"@), k),
        Some(crate::content::PlayerModel::Wide) => lemma_field_one("model"@, TagV::String("wide"@), k),
        None => lemma_field_empty(k),
    }
    lemma_opt_entry_field(p.properties@.len() > 0, "properties"@, TagV::List(property_tags(p.properties@)), k);
    let s1 = a + opt_str("name"@, p.name);
    lemma_field_concat(a, opt_str("name"@, p.name), k);
    let s2 = s1 + opt_str("texture"@, p.texture);
    lemma_field_concat(s1, opt_str("texture"@, p.texture), k);
    let s3 = s2 + opt_str("cape"@, p.cape);
    lemma_field_concat(s2, opt_str("cape"@, p.cape), k);
    let s4 = s3 + opt_str("elytra"@, p.elytra);
    lemma_field_concat(s3, opt_str("elytra"@, p.elytra), k);
    let s5 = s4 + m;
    lemma_field_concat(s4, m, k);
    lemma_field_concat(s5, pr, k);
}

proof fn lemma_property_tags(s: Seq<PlayerProperties>)
    ensures
        property_tags(s).len() == s.len(),
        forall|k: int| 0 <= k < s.len() ==> #[trigger] property_tags(s)[k] == crate::nbt::encode::property_tag(s[k]),
    decreases s.len(),
{
    if s.len() > 0 {
        lemma_property_tags(s.drop_last());
        assert forall|k: int| 0 <= k < s.len() implies #[trigger] property_tags(s)[k] == crate::nbt::encode::property_tag(s[k]) by {
            if k < s.len() - 1 {
                assert(property_tags(s)[k] == property_tags(s.drop_last())[k]);
                assert(s.drop_last()[k] == s[k]);
            }
        }
    }
}

/// Skin properties written as a list read back.
proof fn lemma_property_list(s: Seq<PlayerProperties>)
    ensures
        property_list(property_tags(s)) == Ok::<Seq<PropertyV>, DecodeErrV>(properties_view(s)),
    decreases s.len(),
{
    lemma_player_names();
    if s.len() == 0 {
        assert(properties_view(s) =~= Seq::<PropertyV>::empty());
    } else {
        lemma_property_list(s.drop_last());
        lemma_property_tags(s);
        lemma_property_tags(s.drop_last());
        assert(property_tags(s).drop_last() =~= property_tags(s.drop_last()));
        let p = s.last();
        let head = seq![("name"@, TagV::String(p.name@)), ("value"@, TagV::String(p.value@))];
        let sig = match p.signature {
            Some(x) => seq![("signature"@, TagV::String(x@))],
            None => Seq::<(Seq<char>, TagV)>::empty(),
        };
        assert(property_tags(s).last() == crate::nbt::encode::property_tag(p));
        assert(crate::nbt::encode::property_tag(p) == TagV::Compound(head + sig));
        match p.signature {
            Some(x) => {
                lemma_field_one("signature"@, TagV::String(x@), "name"@);
                lemma_field_one("signature"@, TagV::String(x@), "value"@);
                lemma_field_one("signature"@, TagV::String(x@), "signature"@);
            },
            None => {
                lemma_field_empty("name"@);
                lemma_field_empty("value"@);
                lemma_field_empty("signature"@);
            },
        }
        lemma_field_two("name"@, TagV::String(p.name@), "value"@, TagV::String(p.value@), "name"@);
        lemma_field_two("name"@, TagV::String(p.name@), "value"@, TagV::String(p.value@), "value"@);
        lemma_field_two("name"@, TagV::String(p.name@), "value"@, TagV::String(p.value@), "signature"@);
        lemma_field_concat(head, sig, "name"@);
        lemma_field_concat(head, sig, "value"@);
        lemma_field_concat(head, sig, "signature"@);
        assert(properties_view(s) =~= properties_view(s.drop_last()).push(properties_view(s).last()));
    }
}

/// A player profile reads back as written.
proof fn lemma_profile_round_trip(p: ObjectPlayer)
    requires
        player_ready(p),
    ensures
        profile_spec(player_entries(p)) == Ok::<PlayerV, DecodeErrV>(player_view(p)),
{
    reveal(profile_spec);
    lemma_player_names();
    let es = player_entries(p);
    lemma_player_field(p, "id"@);
    lemma_player_field(p, "name"@);
    lemma_player_field(p, "texture"@);
    lemma_player_field(p, "cape"@);
    lemma_player_field(p, "elytra"@);
    lemma_player_field(p, "model"@);
    lemma_player_field(p, "properties"@);
    match p.id {
        Some(id) => {
            assert(four_ints(TagV::IntArray(id@)) == Some([id@[0], id@[1], id@[2], id@[3]]));
            assert([id@[0], id@[1], id@[2], id@[3]] =~= id);
        },
        None => {},
    }
    assert(profile_id(es) == Ok::<Option<[i32; 4]>, DecodeErrV>(p.id));
    if p.properties@.len() > 0 {
        lemma_property_tags(p.properties@);
        lemma_property_list(p.properties@);
        assert(properties_spec(field(es, "properties"@)) == Ok::<Seq<PropertyV>, DecodeErrV>(properties_view(p.properties@)));
    } else {
        assert(properties_view(p.properties@) =~= Seq::<PropertyV>::empty());
    }
}

/// Text content reads back.
proof fn lemma_text_round_trip(ct: Content, c: TextComponent, ch: spec_fn(Number) -> i32)
    requires
        ct is Text,
    ensures
        content_spec(content_entries(ct) + rest_entries(c), ch) == Ok::<crate::nbt::model::ContentV, DecodeErrV>(content_view(ct)),
{
    reveal(text_spec);
    lemma_names();
    lemma_earlier_kinds_fail(ct, c, ch);
    lemma_content_key(ct, c, "text"@);
}

/// Keybind content reads back.
proof fn lemma_keybind_round_trip(ct: Content, c: TextComponent, ch: spec_fn(Number) -> i32)
    requires
        ct is Keybind,
    ensures
        content_spec(content_entries(ct) + rest_entries(c), ch) == Ok::<crate::nbt::model::ContentV, DecodeErrV>(content_view(ct)),
{
    reveal(keybind_spec);
    lemma_names();
    lemma_earlier_kinds_fail(ct, c, ch);
    lemma_content_key(ct, c, "keybind"@);
}

/// Translated content reads back.
proof fn lemma_translate_round_trip(ct: Content, c: TextComponent, ch: spec_fn(Number) -> i32)
    requires
        ct is Translate,
        content_ready(ct),
    ensures
        content_spec(content_entries(ct) + rest_entries(c), ch) == Ok::<crate::nbt::model::ContentV, DecodeErrV>(content_view(ct)),
    decreases ct, 0nat,
{
    lemma_names();
    lemma_earlier_kinds_fail(ct, c, ch);
    let es = content_entries(ct) + rest_entries(c);
    lemma_content_key(ct, c, "translate"@);
    lemma_content_key(ct, c, "fallback"@);
    lemma_content_key(ct, c, "with"@);
    lemma_list_field(es, "with"@, ch);
    match ct {
        Content::Translate(m) => match m.args {
            Args::Owned(v) => lemma_list_round_trip(v@, ch),
            Args::Absent => {},
        },
        _ => {},
    }
}

/// Score content reads back.
proof fn lemma_score_round_trip(ct: Content, c: TextComponent, ch: spec_fn(Number) -> i32)
    requires
        ct is Resolvable && ct->Resolvable_0 is Scoreboard,
    ensures
        content_spec(content_entries(ct) + rest_entries(c), ch) == Ok::<crate::nbt::model::ContentV, DecodeErrV>(content_view(ct)),
{
    reveal(score_spec);
    lemma_names();
    lemma_earlier_kinds_fail(ct, c, ch);
    lemma_content_key(ct, c, "score"@);
    match ct {
        Content::Resolvable(Resolvable::Scoreboard { selector, objective }) => {
            lemma_field_two("name"@, TagV::String(selector@), "objective"@, TagV::String(objective@), "name"@);
            lemma_field_two("name"@, TagV::String(selector@), "objective"@, TagV::String(objective@), "objective"@);
        },
        _ => {},
    }
}

/// Selector content reads back.
proof fn lemma_selector_round_trip(ct: Content, c: TextComponent, ch: spec_fn(Number) -> i32)
    requires
        ct is Resolvable && ct->Resolvable_0 is Entity,
        content_ready(ct),
    ensures
        content_spec(content_entries(ct) + rest_entries(c), ch) == Ok::<crate::nbt::model::ContentV, DecodeErrV>(content_view(ct)),
    decreases ct, 0nat,
{
    lemma_names();
    lemma_earlier_kinds_fail(ct, c, ch);
    let es = content_entries(ct) + rest_entries(c);
    lemma_content_key(ct, c, "selector"@);
    lemma_content_key(ct, c, "separator"@);
    lemma_decode_field(es, "separator"@, ch);
    match ct {
        Content::Resolvable(Resolvable::Entity { separator, .. }) => lemma_opt_round_trip(separator, ch),
        _ => {},
    }
}

/// The source of NBT content reads back from its entry.
proof fn lemma_nbt_source(ct: Content, c: TextComponent)
    requires
        ct is Resolvable && ct->Resolvable_0 is NBT,
        content_ready(ct),
    ensures
        source_spec(content_entries(ct) + rest_entries(c)) == Ok::<crate::nbt::model::SourceV, DecodeErrV>(
            source_view(ct->Resolvable_0->NBT_source),
        ),
{
    reveal(source_spec);
    lemma_names();
    lemma_content_key(ct, c, "source"@);
    lemma_content_key(ct, c, "entity"@);
    lemma_content_key(ct, c, "block"@);
    lemma_content_key(ct, c, "storage"@);
}

/// The path and the two flags of NBT content read back from their entries.
proof fn lemma_nbt_flags(ct: Content, c: TextComponent)
    requires
        ct is Resolvable && ct->Resolvable_0 is NBT,
    ensures
        ({
            let es = content_entries(ct) + rest_entries(c);
            &&& required_string(es, "nbt"@) == Ok::<Seq<char>, DecodeErrV>(ct->Resolvable_0->NBT_path@)
            &&& flag(es, "interpret"@, false) == ct->Resolvable_0->NBT_interpret
            &&& flag(es, "plain"@, false) == ct->Resolvable_0->NBT_plain
        }),
{
    lemma_names();
    lemma_content_key(ct, c, "nbt"@);
    lemma_content_key(ct, c, "interpret"@);
    lemma_content_key(ct, c, "plain"@);
}

/// NBT content reads back.
proof fn lemma_nbt_round_trip(ct: Content, c: TextComponent, ch: spec_fn(Number) -> i32)
    requires
        ct is Resolvable && ct->Resolvable_0 is NBT,
        content_ready(ct),
    ensures
        content_spec(content_entries(ct) + rest_entries(c), ch) == Ok::<crate::nbt::model::ContentV, DecodeErrV>(content_view(ct)),
    decreases ct, 0nat,
{
    lemma_names();
    lemma_earlier_kinds_fail(ct, c, ch);
    let es = content_entries(ct) + rest_entries(c);
    lemma_nbt_source(ct, c);
    lemma_nbt_flags(ct, c);
    lemma_content_key(ct, c, "separator"@);
    lemma_decode_field(es, "separator"@, ch);
    match ct {
        Content::Resolvable(Resolvable::NBT { separator, .. }) => lemma_opt_round_trip(separator, ch),
        _ => {},
    }
}

/// Atlas sprites read back.
proof fn lemma_atlas_round_trip(ct: Content, c: TextComponent, ch: spec_fn(Number) -> i32)
    requires
        ct is Object && ct->Object_0 is Atlas,
        content_ready(ct),
    ensures
        content_spec(content_entries(ct) + rest_entries(c), ch) == Ok::<crate::nbt::model::ContentV, DecodeErrV>(content_view(ct)),
    decreases ct, 0nat,
{
    reveal(atlas_spec);
    lemma_names();
    lemma_earlier_kinds_fail(ct, c, ch);
    let es = content_entries(ct) + rest_entries(c);
    lemma_content_key(ct, c, "fallback"@);
    lemma_content_key(ct, c, "object"@);
    lemma_content_key(ct, c, "sprite"@);
    lemma_content_key(ct, c, "atlas"@);
    lemma_decode_field(es, "fallback"@, ch);
    match ct {
        Content::Object(Object::Atlas { fallback, .. }) => lemma_opt_round_trip(fallback, ch),
        _ => {},
    }
}

/// Player heads read back.
proof fn lemma_player_round_trip(ct: Content, c: TextComponent, ch: spec_fn(Number) -> i32)
    requires
        ct is Object && ct->Object_0 is Player,
        content_ready(ct),
    ensures
        content_spec(content_entries(ct) + rest_entries(c), ch) == Ok::<crate::nbt::model::ContentV, DecodeErrV>(content_view(ct)),
    decreases ct, 0nat,
{
    reveal(player_content_spec);
    lemma_names();
    lemma_earlier_kinds_fail(ct, c, ch);
    let es = content_entries(ct) + rest_entries(c);
    lemma_content_key(ct, c, "fallback"@);
    lemma_content_key(ct, c, "object"@);
    lemma_content_key(ct, c, "sprite"@);
    lemma_content_key(ct, c, "player"@);
    lemma_content_key(ct, c, "hat"@);
    lemma_decode_field(es, "fallback"@, ch);
    match ct {
        Content::Object(Object::Player { player, fallback, .. }) => {
            lemma_opt_round_trip(fallback, ch);
            lemma_profile_round_trip(*player);
        },
        _ => {},
    }
}

/// A component's content reads back from its entries, whatever style entries follow them.
proof fn lemma_content_round_trip(ct: Content, c: TextComponent, ch: spec_fn(Number) -> i32)
    requires
        content_ready(ct),
    ensures
        keys_styled(content_entries(ct), false),
        content_entries(ct).len() > 0 && content_entries(ct)[0].0.len() > 0,
        content_spec(content_entries(ct) + rest_entries(c), ch) == Ok::<crate::nbt::model::ContentV, DecodeErrV>(content_view(ct)),
    decreases ct, 1nat,
{
    lemma_content_keys(ct);
    match ct {
        Content::Text { .. } => lemma_text_round_trip(ct, c, ch),
        Content::Keybind { .. } => lemma_keybind_round_trip(ct, c, ch),
        Content::Translate(_) => lemma_translate_round_trip(ct, c, ch),
        Content::Resolvable(Resolvable::Scoreboard { .. }) => lemma_score_round_trip(ct, c, ch),
        Content::Resolvable(Resolvable::Entity { .. }) => lemma_selector_round_trip(ct, c, ch),
        Content::Resolvable(Resolvable::NBT { .. }) => lemma_nbt_round_trip(ct, c, ch),
        Content::Object(Object::Atlas { .. }) => lemma_atlas_round_trip(ct, c, ch),
        Content::Object(Object::Player { .. }) => lemma_player_round_trip(ct, c, ch),
    }
}

/// A component reads back as written.
pub proof fn lemma_round_trip(c: TextComponent, ch: spec_fn(Number) -> i32)
    requires
        component_ready(c),
    ensures
        decode_spec(component_tag(c), ch) == Ok::<CompV, DecodeErrV>(comp_view(c)),
    decreases c, 2nat,
{
    if c.content is Text && c.children@.len() == 0 && c.format == format_none() && interactivity_none(c.interactions) {
        assert(comps_view(c.children@) =~= Seq::<CompV>::empty());
    } else {
        let pre = content_entries(c.content);
        let es = pre + rest_entries(c);
        assert(content_entries(c.content) + format_entries(c.format) + interaction_entries(c.interactions)
            + opt_entry(c.children@.len() > 0, "extra"@, TagV::List(components_tags(c.children@))) =~= es);
        lemma_content_round_trip(c.content, c, ch);
        lemma_format_round_trip(pre, c, ch);
        lemma_inter_round_trip(pre, c, ch);
        lemma_style_fields(pre, c);
        lemma_list_field(es, "extra"@, ch);
        lemma_list_round_trip(c.children@, ch);
        if c.children@.len() == 0 {
            assert(comps_view(c.children@) =~= Seq::<CompV>::empty());
        }
    }
}

} // verus!