//! Deep copies of components and events. Vectors have no equality of their own in the
//! model, so a copy is related to its original by likeness: the same values, each vector
//! compared by its contents.
use vstd::prelude::*;
use crate::component::TextComponent;
use crate::content::{Content, NbtSource, Object, ObjectPlayer, PlayerProperties, Resolvable};
use crate::format::Format;
use crate::interactivity::{ClickEvent, Dialog, HoverEvent, Interactivity};
use crate::nbt::encode::{
    click_tag, component_tag, components_tags, content_entries, hover_tag, interaction_entries, opt_click,
    opt_hover, player_entries, property_tags,
};
use crate::nbt::tag::NbtTag;
use crate::translation::{Args, TranslatedMessage};

verus! {

/// Two players with the same fields, properties compared by contents.
pub open spec fn player_alike(p: ObjectPlayer, q: ObjectPlayer) -> bool {
    &&& p.name == q.name
    &&& p.id == q.id
    &&& p.texture == q.texture
    &&& p.cape == q.cape
    &&& p.elytra == q.elytra
    &&& p.model == q.model
    &&& p.properties@ == q.properties@
}

/// Two optional tags with the same model.
pub open spec fn opt_tag_alike(a: Option<NbtTag>, b: Option<NbtTag>) -> bool {
    match (a, b) {
        (Some(x), Some(y)) => x@ == y@,
        (None, None) => true,
        _ => false,
    }
}

/// Two click events alike: equal, an inline dialog compared by its model.
pub open spec fn click_alike(a: ClickEvent, b: ClickEvent) -> bool {
    match a {
        ClickEvent::ShowDialog { dialog: Dialog::Inline(t) } => b matches ClickEvent::ShowDialog {
            dialog: Dialog::Inline(u),
        } && t@ == u@,
        _ => a == b,
    }
}

pub open spec fn opt_click_alike(a: Option<ClickEvent>, b: Option<ClickEvent>) -> bool {
    match (a, b) {
        (Some(x), Some(y)) => click_alike(x, y),
        (None, None) => true,
        _ => false,
    }
}

/// Two components alike: the same content, styling and events, children alike in order.
pub open spec fn comp_alike(a: TextComponent, b: TextComponent) -> bool
    decreases a,
{
    &&& content_alike(a.content, b.content)
    &&& comps_alike(a.children@, b.children@)
    &&& a.format == b.format
    &&& inter_alike(a.interactions, b.interactions)
}

/// Two lists of components alike element by element.
pub open spec fn comps_alike(s: Seq<TextComponent>, t: Seq<TextComponent>) -> bool
    decreases s,
{
    &&& s.len() == t.len()
    &&& (s.len() == 0 || (comps_alike(s.drop_last(), t.drop_last()) && comp_alike(s.last(), t.last())))
}

pub open spec fn opt_comp_alike(a: Option<Box<TextComponent>>, b: Option<Box<TextComponent>>) -> bool
    decreases a,
{
    match a {
        Some(x) => b matches Some(y) && comp_alike(*x, *y),
        None => b is None,
    }
}

pub open spec fn args_alike(a: Args, b: Args) -> bool
    decreases a,
{
    match a {
        Args::Absent => b is Absent,
        Args::Owned(v) => b matches Args::Owned(w) && comps_alike(v@, w@),
    }
}

pub open spec fn content_alike(a: Content, b: Content) -> bool
    decreases a,
{
    match a {
        Content::Translate(m) => b matches Content::Translate(n) && m.key == n.key
            && m.fallback == n.fallback && args_alike(m.args, n.args),
        Content::Object(Object::Atlas { atlas, sprite, fallback }) => b matches Content::Object(
            Object::Atlas { atlas: a2, sprite: s2, fallback: f2 },
        ) && atlas == a2 && sprite == s2 && opt_comp_alike(fallback, f2),
        Content::Object(Object::Player { player, hat, fallback }) => b matches Content::Object(
            Object::Player { player: p2, hat: h2, fallback: f2 },
        ) && player_alike(*player, *p2) && hat == h2 && opt_comp_alike(fallback, f2),
        Content::Resolvable(Resolvable::Entity { selector, separator }) => b matches Content::Resolvable(
            Resolvable::Entity { selector: s2, separator: p2 },
        ) && selector == s2 && opt_comp_alike(separator, p2),
        Content::Resolvable(Resolvable::NBT { path, interpret, plain, separator, source }) => b matches Content::Resolvable(
            Resolvable::NBT { path: p2, interpret: i2, plain: l2, separator: s2, source: o2 },
        ) && path == p2 && interpret == i2 && plain == l2 && opt_comp_alike(separator, s2) && source == o2,
        _ => a == b,
    }
}

pub open spec fn hover_alike(a: HoverEvent, b: HoverEvent) -> bool
    decreases a,
{
    match a {
        HoverEvent::ShowText { value } => b matches HoverEvent::ShowText { value: v2 } && comp_alike(*value, *v2),
        HoverEvent::ShowItem { id, count, components } => b matches HoverEvent::ShowItem {
            id: i2,
            count: c2,
            components: k2,
        } && id == i2 && count == c2 && opt_tag_alike(components, k2),
        HoverEvent::ShowEntity { name, id, uuid } => b matches HoverEvent::ShowEntity {
            name: n2,
            id: i2,
            uuid: u2,
        } && opt_comp_alike(name, n2) && id == i2 && uuid == u2,
    }
}

pub open spec fn opt_hover_alike(a: Option<HoverEvent>, b: Option<HoverEvent>) -> bool
    decreases a,
{
    match a {
        Some(x) => b matches Some(y) && hover_alike(x, y),
        None => b is None,
    }
}

pub open spec fn inter_alike(a: Interactivity, b: Interactivity) -> bool
    decreases a,
{
    &&& a.insertion == b.insertion
    &&& opt_click_alike(a.click, b.click)
    &&& opt_hover_alike(a.hover, b.hover)
}

// ---------------------------------------------------------------------------
// Alike components encode alike.

proof fn lemma_player_entries(p: ObjectPlayer, q: ObjectPlayer)
    requires
        player_alike(p, q),
    ensures
        player_entries(p) == player_entries(q),
{
}

pub proof fn lemma_click_tag(a: ClickEvent, b: ClickEvent)
    requires
        click_alike(a, b),
    ensures
        click_tag(a) == click_tag(b),
{
}

/// Alike components have the same tag.
pub proof fn lemma_alike_tag(a: TextComponent, b: TextComponent)
    requires
        comp_alike(a, b),
    ensures
        component_tag(a) == component_tag(b),
    decreases a,
{
    lemma_alike_content(a.content, b.content);
    lemma_alike_tags(a.children@, b.children@);
    lemma_alike_inter(a.interactions, b.interactions);
    if a.content is Text {
        assert(b.content == a.content);
    }
    if a.content is Text && a.children@.len() == 0 && a.format == crate::format::format_none()
        && crate::interactivity::interactivity_none(a.interactions) {
        assert(b.interactions.click is None);
        assert(b.interactions.hover is None);
    }
    if b.content is Text && b.children@.len() == 0 && b.format == crate::format::format_none()
        && crate::interactivity::interactivity_none(b.interactions) {
        assert(a.interactions.click is None);
        assert(a.interactions.hover is None);
        assert(a.content == b.content);
    }
}

pub proof fn lemma_alike_tags(s: Seq<TextComponent>, t: Seq<TextComponent>)
    requires
        comps_alike(s, t),
    ensures
        components_tags(s) == components_tags(t),
    decreases s,
{
    if s.len() > 0 {
        lemma_alike_tags(s.drop_last(), t.drop_last());
        lemma_alike_tag(s.last(), t.last());
    }
}

proof fn lemma_alike_opt(a: Option<Box<TextComponent>>, b: Option<Box<TextComponent>>)
    requires
        opt_comp_alike(a, b),
    ensures
        match (a, b) {
            (Some(x), Some(y)) => component_tag(*x) == component_tag(*y),
            _ => true,
        },
    decreases a,
{
    if let Some(x) = a {
        if let Some(y) = b {
            lemma_alike_tag(*x, *y);
        }
    }
}

pub proof fn lemma_alike_content(a: Content, b: Content)
    requires
        content_alike(a, b),
    ensures
        content_entries(a) == content_entries(b),
    decreases a,
{
    match a {
        Content::Translate(m) => {
            if let Content::Translate(n) = b {
                if let Args::Owned(v) = m.args {
                    if let Args::Owned(w) = n.args {
                        lemma_alike_tags(v@, w@);
                    }
                }
            }
        },
        Content::Object(Object::Atlas { fallback, .. }) => {
            if let Content::Object(Object::Atlas { fallback: f2, .. }) = b {
                lemma_alike_opt(fallback, f2);
            }
        },
        Content::Object(Object::Player { player, fallback, .. }) => {
            if let Content::Object(Object::Player { player: p2, fallback: f2, .. }) = b {
                lemma_player_entries(*player, *p2);
                lemma_alike_opt(fallback, f2);
            }
        },
        Content::Resolvable(Resolvable::Entity { separator, .. }) => {
            if let Content::Resolvable(Resolvable::Entity { separator: s2, .. }) = b {
                lemma_alike_opt(separator, s2);
            }
        },
        Content::Resolvable(Resolvable::NBT { separator, .. }) => {
            if let Content::Resolvable(Resolvable::NBT { separator: s2, .. }) = b {
                lemma_alike_opt(separator, s2);
            }
        },
        _ => {},
    }
}

pub proof fn lemma_alike_hover(a: HoverEvent, b: HoverEvent)
    requires
        hover_alike(a, b),
    ensures
        hover_tag(a) == hover_tag(b),
    decreases a,
{
    match a {
        HoverEvent::ShowText { value } => {
            if let HoverEvent::ShowText { value: v2 } = b {
                lemma_alike_tag(*value, *v2);
            }
        },
        HoverEvent::ShowItem { .. } => {},
        HoverEvent::ShowEntity { name, .. } => {
            if let HoverEvent::ShowEntity { name: n2, .. } = b {
                lemma_alike_opt(name, n2);
            }
        },
    }
}

pub proof fn lemma_alike_inter(a: Interactivity, b: Interactivity)
    requires
        inter_alike(a, b),
    ensures
        interaction_entries(a) == interaction_entries(b),
    decreases a,
{
    if let Some(h) = a.hover {
        if let Some(k) = b.hover {
            lemma_alike_hover(h, k);
        }
    }
    if let Some(c) = a.click {
        if let Some(d) = b.click {
            lemma_click_tag(c, d);
        }
    }
    assert(opt_hover(a.hover) == opt_hover(b.hover));
    assert(opt_click(a.click) == opt_click(b.click));
}

// ---------------------------------------------------------------------------
// Copies.

pub(crate) fn copy_opt_string(o: &Option<String>) -> (r: Option<String>)
    ensures
        r == *o,
{
    match o {
        Some(s) => Some(s.clone()),
        None => None,
    }
}

/// A copy of a format.
pub fn copy_format(f: &Format) -> (r: Format)
    ensures
        r == *f,
{
    Format {
        color: f.color,
        font: copy_opt_string(&f.font),
        bold: f.bold,
        italic: f.italic,
        underlined: f.underlined,
        strikethrough: f.strikethrough,
        obfuscated: f.obfuscated,
        shadow_color: f.shadow_color,
    }
}

fn copy_property(p: &PlayerProperties) -> (r: PlayerProperties)
    ensures
        r == *p,
{
    PlayerProperties { name: p.name.clone(), value: p.value.clone(), signature: copy_opt_string(&p.signature) }
}

pub(crate) fn copy_player(p: &ObjectPlayer) -> (r: ObjectPlayer)
    ensures
        player_alike(r, *p),
{
    let mut properties: Vec<PlayerProperties> = Vec::new();
    let mut i: usize = 0;
    while i < p.properties.len()
        invariant
            i <= p.properties@.len(),
            properties@ == p.properties@.subrange(0, i as int),
        decreases p.properties@.len() - i,
    {
        properties.push(copy_property(&p.properties[i]));
        i = i + 1;
        assert(properties@ =~= p.properties@.subrange(0, i as int));
    }
    assert(p.properties@.subrange(0, p.properties@.len() as int) =~= p.properties@);
    ObjectPlayer {
        name: copy_opt_string(&p.name),
        id: p.id,
        texture: copy_opt_string(&p.texture),
        cape: copy_opt_string(&p.cape),
        elytra: copy_opt_string(&p.elytra),
        model: p.model,
        properties,
    }
}

pub(crate) fn copy_source(s: &NbtSource) -> (r: NbtSource)
    ensures
        r == *s,
{
    match s {
        NbtSource::Entity(v) => NbtSource::Entity(v.clone()),
        NbtSource::Block(v) => NbtSource::Block(v.clone()),
        NbtSource::Storage(v) => NbtSource::Storage(v.clone()),
    }
}

fn copy_opt_tag(o: &Option<NbtTag>) -> (r: Option<NbtTag>)
    ensures
        opt_tag_alike(r, *o),
{
    match o {
        Some(t) => Some(t.copy()),
        None => None,
    }
}

/// A copy of a click event.
pub fn copy_click(c: &ClickEvent) -> (r: ClickEvent)
    ensures
        click_alike(r, *c),
{
    match c {
        ClickEvent::OpenUrl { url } => ClickEvent::OpenUrl { url: url.clone() },
        ClickEvent::RunCommand { command } => ClickEvent::RunCommand { command: command.clone() },
        ClickEvent::SuggestCommand { command } => ClickEvent::SuggestCommand { command: command.clone() },
        ClickEvent::ChangePage { page } => ClickEvent::ChangePage { page: *page },
        ClickEvent::CopyToClipboard { value } => ClickEvent::CopyToClipboard { value: value.clone() },
        ClickEvent::ShowDialog { dialog } => ClickEvent::ShowDialog {
            dialog: match dialog {
                Dialog::Reference(r) => Dialog::Reference(r.clone()),
                Dialog::Inline(t) => Dialog::Inline(t.copy()),
            },
        },
    }
}

pub(crate) fn copy_opt_click(o: &Option<ClickEvent>) -> (r: Option<ClickEvent>)
    ensures
        opt_click_alike(r, *o),
{
    match o {
        Some(c) => Some(copy_click(c)),
        None => None,
    }
}

/// A copy of a hover event.
pub fn copy_hover(h: &HoverEvent) -> (r: HoverEvent)
    ensures
        hover_alike(r, *h),
    decreases h,
{
    match h {
        HoverEvent::ShowText { value } => HoverEvent::ShowText { value: Box::new(value.duplicate()) },
        HoverEvent::ShowItem { id, count, components } => HoverEvent::ShowItem {
            id: id.clone(),
            count: *count,
            components: copy_opt_tag(components),
        },
        HoverEvent::ShowEntity { name, id, uuid } => HoverEvent::ShowEntity {
            name: copy_opt_box(name),
            id: id.clone(),
            uuid: *uuid,
        },
    }
}

pub(crate) fn copy_opt_hover(o: &Option<HoverEvent>) -> (r: Option<HoverEvent>)
    ensures
        opt_hover_alike(r, *o),
    decreases o,
{
    match o {
        Some(h) => Some(copy_hover(h)),
        None => None,
    }
}

pub(crate) fn copy_opt_box(o: &Option<Box<TextComponent>>) -> (r: Option<Box<TextComponent>>)
    ensures
        opt_comp_alike(r, *o),
    decreases o,
{
    match o {
        Some(c) => Some(Box::new(c.duplicate())),
        None => None,
    }
}

/// A copy of a component list.
pub fn copy_comps(v: &Vec<TextComponent>) -> (r: Vec<TextComponent>)
    ensures
        comps_alike(r@, v@),
    decreases v,
{
    let mut r: Vec<TextComponent> = Vec::new();
    let mut i: usize = 0;
    while i < v.len()
        invariant
            i <= v@.len(),
            comps_alike(r@, v@.subrange(0, i as int)),
        decreases v@.len() - i,
    {
        let c = v[i].duplicate();
        let ghost before = r@;
        r.push(c);
        assert(r@.drop_last() =~= before);
        assert(v@.subrange(0, i + 1).drop_last() =~= v@.subrange(0, i as int));
        i = i + 1;
    }
    assert(v@.subrange(0, v@.len() as int) =~= v@);
    r
}

pub(crate) fn copy_content(c: &Content) -> (r: Content)
    ensures
        content_alike(r, *c),
    decreases c,
{
    match c {
        Content::Text { text } => Content::Text { text: text.clone() },
        Content::Keybind { keybind } => Content::Keybind { keybind: keybind.clone() },
        Content::Translate(m) => Content::Translate(TranslatedMessage {
            key: m.key.clone(),
            fallback: copy_opt_string(&m.fallback),
            args: match &m.args {
                Args::Absent => Args::Absent,
                Args::Owned(v) => Args::Owned(copy_comps(v)),
            },
        }),
        Content::Object(Object::Atlas { atlas, sprite, fallback }) => Content::Object(Object::Atlas {
            atlas: atlas.clone(),
            sprite: sprite.clone(),
            fallback: copy_opt_box(fallback),
        }),
        Content::Object(Object::Player { player, hat, fallback }) => Content::Object(Object::Player {
            player: Box::new(copy_player(player)),
            hat: *hat,
            fallback: copy_opt_box(fallback),
        }),
        Content::Resolvable(Resolvable::Scoreboard { selector, objective }) => Content::Resolvable(
            Resolvable::Scoreboard { selector: selector.clone(), objective: objective.clone() },
        ),
        Content::Resolvable(Resolvable::Entity { selector, separator }) => Content::Resolvable(
            Resolvable::Entity { selector: selector.clone(), separator: copy_opt_box(separator) },
        ),
        Content::Resolvable(Resolvable::NBT { path, interpret, plain, separator, source }) => Content::Resolvable(
            Resolvable::NBT {
                path: path.clone(),
                interpret: *interpret,
                plain: *plain,
                separator: copy_opt_box(separator),
                source: copy_source(source),
            },
        ),
    }
}

/// A copy of the click, hover and insertion of a component.
pub fn copy_interactions(i: &Interactivity) -> (r: Interactivity)
    ensures
        inter_alike(r, *i),
    decreases i,
{
    Interactivity {
        insertion: copy_opt_string(&i.insertion),
        click: copy_opt_click(&i.click),
        hover: copy_opt_hover(&i.hover),
    }
}

impl TextComponent {
    /// A deep copy.
    pub fn duplicate(&self) -> (r: TextComponent)
        ensures
            comp_alike(r, *self),
        decreases self,
    {
        TextComponent {
            content: copy_content(&self.content),
            children: copy_comps(&self.children),
            format: copy_format(&self.format),
            interactions: copy_interactions(&self.interactions),
        }
    }
}

} // verus!
