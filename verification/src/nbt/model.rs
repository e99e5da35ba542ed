//! The mathematical model of a component tree: every string as its chars, every vector as a
//! sequence. Reading a component from NBT is stated over it.
use vstd::prelude::*;
use crate::component::TextComponent;
use crate::content::{Content, NbtSource, Object, ObjectPlayer, PlayerModel, PlayerProperties, Resolvable};
use crate::decode::ComponentDecodeError;
use crate::format::{Color, Format};
use crate::interactivity::{ClickEvent, Dialog, HoverEvent, Interactivity};
use crate::nbt::tag::{NbtTag, TagV};
use crate::translation::Args;

verus! {

pub struct PropertyV {
    pub name: Seq<char>,
    pub value: Seq<char>,
    pub signature: Option<Seq<char>>,
}

pub struct PlayerV {
    pub name: Option<Seq<char>>,
    pub id: Option<[i32; 4]>,
    pub texture: Option<Seq<char>>,
    pub cape: Option<Seq<char>>,
    pub elytra: Option<Seq<char>>,
    pub model: Option<PlayerModel>,
    pub properties: Seq<PropertyV>,
}

pub enum SourceV {
    Entity(Seq<char>),
    Block(Seq<char>),
    Storage(Seq<char>),
}

pub enum ArgsV {
    Absent,
    Owned(Seq<CompV>),
}

pub enum ContentV {
    Text(Seq<char>),
    Translate { key: Seq<char>, fallback: Option<Seq<char>>, args: ArgsV },
    Keybind(Seq<char>),
    Atlas { atlas: Seq<char>, sprite: Seq<char>, fallback: Option<Box<CompV>> },
    Player { player: PlayerV, hat: bool, fallback: Option<Box<CompV>> },
    Scoreboard { selector: Seq<char>, objective: Seq<char> },
    Entity { selector: Seq<char>, separator: Option<Box<CompV>> },
    Nbt { path: Seq<char>, interpret: bool, plain: bool, separator: Option<Box<CompV>>, source: SourceV },
}

pub struct FormatV {
    pub color: Option<Color>,
    pub font: Option<Seq<char>>,
    pub bold: Option<bool>,
    pub italic: Option<bool>,
    pub underlined: Option<bool>,
    pub strikethrough: Option<bool>,
    pub obfuscated: Option<bool>,
    pub shadow_color: Option<i32>,
}

pub enum ClickV {
    OpenUrl(Seq<char>),
    RunCommand(Seq<char>),
    SuggestCommand(Seq<char>),
    ChangePage(i32),
    CopyToClipboard(Seq<char>),
    DialogReference(Seq<char>),
    DialogInline(TagV),
}

pub enum HoverV {
    ShowText(Box<CompV>),
    ShowItem { id: Seq<char>, count: i32, components: Option<TagV> },
    ShowEntity { name: Option<Box<CompV>>, id: Seq<char>, uuid: u128 },
}

pub struct InterV {
    pub insertion: Option<Seq<char>>,
    pub click: Option<ClickV>,
    pub hover: Option<HoverV>,
}

/// The model of a component.
pub struct CompV {
    pub content: ContentV,
    pub children: Seq<CompV>,
    pub format: FormatV,
    pub interactions: InterV,
}

/// The model of a decode error: its texts as chars.
pub enum DecodeErrV {
    ExpectedComponent,
    EmptyComponentList,
    MissingField(Seq<char>),
    InvalidField(Seq<char>, Seq<char>),
    UnknownContentType(Seq<char>),
    UnknownObjectType(Seq<char>),
    UnknownDataSource(Seq<char>),
    UnknownClickAction(Seq<char>),
    UnknownHoverAction(Seq<char>),
    NoMatchingContent,
    ConflictingNbtFlags,
}

pub open spec fn opt_chars(o: Option<String>) -> Option<Seq<char>> {
    match o {
        Some(s) => Some(s@),
        None => None,
    }
}

pub open spec fn properties_view(s: Seq<PlayerProperties>) -> Seq<PropertyV> {
    s.map_values(|p: PlayerProperties| PropertyV { name: p.name@, value: p.value@, signature: opt_chars(p.signature) })
}

pub open spec fn player_view(p: ObjectPlayer) -> PlayerV {
    PlayerV {
        name: opt_chars(p.name),
        id: p.id,
        texture: opt_chars(p.texture),
        cape: opt_chars(p.cape),
        elytra: opt_chars(p.elytra),
        model: p.model,
        properties: properties_view(p.properties@),
    }
}

pub open spec fn source_view(s: NbtSource) -> SourceV {
    match s {
        NbtSource::Entity(v) => SourceV::Entity(v@),
        NbtSource::Block(v) => SourceV::Block(v@),
        NbtSource::Storage(v) => SourceV::Storage(v@),
    }
}

pub open spec fn format_view(f: Format) -> FormatV {
    FormatV {
        color: f.color,
        font: opt_chars(f.font),
        bold: f.bold,
        italic: f.italic,
        underlined: f.underlined,
        strikethrough: f.strikethrough,
        obfuscated: f.obfuscated,
        shadow_color: f.shadow_color,
    }
}

pub open spec fn click_view(c: ClickEvent) -> ClickV {
    match c {
        ClickEvent::OpenUrl { url } => ClickV::OpenUrl(url@),
        ClickEvent::RunCommand { command } => ClickV::RunCommand(command@),
        ClickEvent::SuggestCommand { command } => ClickV::SuggestCommand(command@),
        ClickEvent::ChangePage { page } => ClickV::ChangePage(page),
        ClickEvent::CopyToClipboard { value } => ClickV::CopyToClipboard(value@),
        ClickEvent::ShowDialog { dialog: Dialog::Reference(r) } => ClickV::DialogReference(r@),
        ClickEvent::ShowDialog { dialog: Dialog::Inline(t) } => ClickV::DialogInline(t@),
    }
}

pub open spec fn comps_view(s: Seq<TextComponent>) -> Seq<CompV>
    decreases s,
{
    if s.len() == 0 {
        Seq::empty()
    } else {
        comps_view(s.drop_last()).push(comp_view(s.last()))
    }
}

pub open spec fn opt_comp_view(o: Option<Box<TextComponent>>) -> Option<Box<CompV>>
    decreases o,
{
    match o {
        Some(c) => Some(Box::new(comp_view(*c))),
        None => None,
    }
}

pub open spec fn content_view(c: Content) -> ContentV
    decreases c,
{
    match c {
        Content::Text { text } => ContentV::Text(text@),
        Content::Translate(m) => ContentV::Translate {
            key: m.key@,
            fallback: opt_chars(m.fallback),
            args: match m.args {
                Args::Absent => ArgsV::Absent,
                Args::Owned(v) => ArgsV::Owned(comps_view(v@)),
            },
        },
        Content::Keybind { keybind } => ContentV::Keybind(keybind@),
        Content::Object(Object::Atlas { atlas, sprite, fallback }) => ContentV::Atlas {
            atlas: atlas@,
            sprite: sprite@,
            fallback: opt_comp_view(fallback),
        },
        Content::Object(Object::Player { player, hat, fallback }) => ContentV::Player {
            player: player_view(*player),
            hat,
            fallback: opt_comp_view(fallback),
        },
        Content::Resolvable(Resolvable::Scoreboard { selector, objective }) => ContentV::Scoreboard {
            selector: selector@,
            objective: objective@,
        },
        Content::Resolvable(Resolvable::Entity { selector, separator }) => ContentV::Entity {
            selector: selector@,
            separator: opt_comp_view(separator),
        },
        Content::Resolvable(Resolvable::NBT { path, interpret, plain, separator, source }) => ContentV::Nbt {
            path: path@,
            interpret,
            plain,
            separator: opt_comp_view(separator),
            source: source_view(source),
        },
    }
}

pub open spec fn hover_view(h: HoverEvent) -> HoverV
    decreases h,
{
    match h {
        HoverEvent::ShowText { value } => HoverV::ShowText(Box::new(comp_view(*value))),
        HoverEvent::ShowItem { id, count, components } => HoverV::ShowItem {
            id: id@,
            count,
            components: match components {
                Some(t) => Some(t@),
                None => None,
            },
        },
        HoverEvent::ShowEntity { name, id, uuid } => HoverV::ShowEntity {
            name: opt_comp_view(name),
            id: id@,
            uuid,
        },
    }
}

pub open spec fn inter_view(i: Interactivity) -> InterV
    decreases i,
{
    InterV {
        insertion: opt_chars(i.insertion),
        click: match i.click {
            Some(c) => Some(click_view(c)),
            None => None,
        },
        hover: match i.hover {
            Some(h) => Some(hover_view(h)),
            None => None,
        },
    }
}

/// The model of a component.
pub open spec fn comp_view(c: TextComponent) -> CompV
    decreases c,
{
    CompV {
        content: content_view(c.content),
        children: comps_view(c.children@),
        format: format_view(c.format),
        interactions: inter_view(c.interactions),
    }
}

impl View for TextComponent {
    type V = CompV;

    open spec fn view(&self) -> CompV {
        comp_view(*self)
    }
}

impl View for ComponentDecodeError {
    type V = DecodeErrV;

    open spec fn view(&self) -> DecodeErrV {
        match *self {
            ComponentDecodeError::ExpectedComponent => DecodeErrV::ExpectedComponent,
            ComponentDecodeError::EmptyComponentList => DecodeErrV::EmptyComponentList,
            ComponentDecodeError::MissingField(f) => DecodeErrV::MissingField(f@),
            ComponentDecodeError::InvalidField { field, expected } => DecodeErrV::InvalidField(field@, expected@),
            ComponentDecodeError::UnknownContentType(v) => DecodeErrV::UnknownContentType(v@),
            ComponentDecodeError::UnknownObjectType(v) => DecodeErrV::UnknownObjectType(v@),
            ComponentDecodeError::UnknownDataSource(v) => DecodeErrV::UnknownDataSource(v@),
            ComponentDecodeError::UnknownClickAction(v) => DecodeErrV::UnknownClickAction(v@),
            ComponentDecodeError::UnknownHoverAction(v) => DecodeErrV::UnknownHoverAction(v@),
            ComponentDecodeError::NoMatchingContent => DecodeErrV::NoMatchingContent,
            ComponentDecodeError::ConflictingNbtFlags => DecodeErrV::ConflictingNbtFlags,
        }
    }
}

} // verus!
