//! The parsed form of a MiniMessage template, and its mathematical model.
use vstd::prelude::*;

verus! {

/// Which argument fills a hole.
#[derive(Debug, PartialEq)]
pub enum HoleArg {
    /// `{}` — filled from macro arguments in order.
    Positional(usize),
    /// `{name}` — filled by name.
    Named {
        name: String,
        /// Char range of the hole in the outermost template.
        range: (usize, usize),
    },
}

/// What a hole takes.
#[derive(Debug, Clone, Copy, PartialEq)]
pub enum HoleKind {
    /// `{}` — a string.
    Text,
    /// `{@}` — a component.
    Component,
    /// `{@const NAME}` — a `const` component whose bytes are folded in at compile time.
    ConstComponent,
    /// `{const NAME}` — a `const &str` spliced as literal text.
    ConstText,
}

#[derive(Debug, PartialEq)]
pub enum ColorIr {
    /// A named color, canonicalized (`grey` → `gray`).
    Named(String),
    /// `<#RRGGBB>`.
    Rgb(u8, u8, u8),
    /// `<{}>` / `<{name}>` — a color chosen at runtime.
    Dyn(HoleArg),
}

#[derive(Debug, PartialEq)]
pub enum BoolIr {
    Const(bool),
    /// `<b:{}>` / `<b:{is_op}>` — a flag chosen at runtime.
    Dyn(HoleArg),
}

/// One part of a click value: `'/msg {} '` parses to [Lit, Hole, Lit].
#[derive(Debug, PartialEq)]
pub enum StrSeg {
    Lit(String),
    /// A hole with an optional `format!` spec (`{x:.2}` → `Some(".2")`).
    Hole(HoleArg, Option<String>),
}

#[derive(Debug, PartialEq)]
pub enum ClickKind {
    OpenUrl,
    RunCommand,
    SuggestCommand,
    CopyToClipboard,
    ChangePage(i32),
    ShowDialog,
}

#[derive(Debug, PartialEq)]
pub enum HoverIr {
    /// `<hover:show_text:'…'>` — full markup, holes included.
    Text(Vec<Piece>),
    /// `<hover:show_item:'minecraft:diamond_sword':3>`.
    Item { id: String, count: i32 },
    /// `<hover:show_entity:'minecraft:pig':uuid:'name'>` — the name its own template.
    Entity {
        id: String,
        /// Big-endian bytes.
        uuid: [u8; 16],
        name: Option<Vec<Piece>>,
    },
    /// `<hover:{item}>` — a whole hover event supplied at runtime.
    Dyn(HoleArg),
}

/// Where `<nbt:…>` reads from.
#[derive(Debug, PartialEq)]
pub enum NbtSourceIr {
    Block(String),
    Entity(String),
    Storage(String),
}

/// How `<head:…>` names the player.
#[derive(Debug, PartialEq)]
pub enum HeadIr {
    Name(String),
    /// Big-endian bytes.
    Uuid([u8; 16]),
    Texture(String),
}

#[derive(Debug, PartialEq)]
pub enum ClickIr {
    /// The value may contain `{}` / `{name}` string holes.
    Action(ClickKind, Vec<StrSeg>),
    /// `<click:{action}>` — a whole click event supplied at runtime.
    Dyn(HoleArg),
}

#[derive(Debug, Default, PartialEq)]
pub struct Style {
    pub color: Option<ColorIr>,
    /// `<font:minecraft:uniform>` — a resource location, passed through.
    pub font: Option<String>,
    pub bold: Option<BoolIr>,
    pub italic: Option<BoolIr>,
    pub underlined: Option<BoolIr>,
    pub strikethrough: Option<BoolIr>,
    pub obfuscated: Option<BoolIr>,
    /// `<shadow:#AARRGGBB>` — packed ARGB, as the codec stores it.
    pub shadow_color: Option<i32>,
    /// `<insertion:'…'>` — shift-click chat text, string holes included.
    pub insertion: Option<Vec<StrSeg>>,
    pub hover: Option<HoverIr>,
    pub click: Option<ClickIr>,
}

/// The key of a `<lang:…>` tag.
#[derive(Debug, PartialEq)]
pub enum LangKey {
    /// `<lang:multiplayer.player.left:…>` — the key spelled out.
    Lit(String),
    /// `<lang:{}:…>` / `<lang:{msg}:…>` — the key supplied at runtime.
    Dyn(HoleArg),
}

/// One part of a template, with the char range it occupies in the outermost template.
#[derive(Debug, PartialEq)]
pub enum Piece {
    Text { text: String, style: Style, range: (usize, usize) },
    /// `<key:key.jump>` — the client renders the player's own binding.
    Keybind { key: String, style: Style, range: (usize, usize) },
    /// `<lang:key:arg:arg>` — a translation the client resolves, each arg its own template.
    Lang {
        key: LangKey,
        /// `<lang_or:key:'text':arg>`
        fallback: Option<Vec<StrSeg>>,
        args: Vec<Vec<Piece>>,
        style: Style,
        range: (usize, usize),
    },
    /// `<score:name:objective>` — a scoreboard value the server resolves.
    Score { name: String, objective: String, style: Style, range: (usize, usize) },
    /// `<selector:@a[:separator]>` — the entities a selector matches.
    Selector {
        selector: String,
        separator: Option<Vec<Piece>>,
        style: Style,
        range: (usize, usize),
    },
    /// `<nbt:entity:'@s':Health[:separator][:interpret]>` — NBT data the server resolves.
    Nbt {
        source: NbtSourceIr,
        path: String,
        interpret: bool,
        separator: Option<Vec<Piece>>,
        style: Style,
        range: (usize, usize),
    },
    /// `<sprite[:atlas]:sprite>` — an atlas sprite drawn inline.
    Sprite { atlas: String, sprite: String, style: Style, range: (usize, usize) },
    /// `<head:name|uuid|texture[:outer_layer]>` — a player head drawn inline.
    Head { player: HeadIr, hat: bool, style: Style, range: (usize, usize) },
    Hole {
        arg: HoleArg,
        kind: HoleKind,
        /// Optional `format!` spec on a text hole (`{x:.2}` → `Some(".2")`).
        spec: Option<String>,
        style: Style,
        range: (usize, usize),
    },
}

/// A parsed template.
#[derive(Debug, PartialEq)]
pub struct Template {
    pub pieces: Vec<Piece>,
    /// How many positional holes the template contains.
    pub positional_count: usize,
}

// ---------------------------------------------------------------------------
// The model: the same shapes with sequences in place of vectors.

pub enum ClickIrV {
    Action(ClickKind, Seq<StrSeg>),
    Dyn(HoleArg),
}

pub enum HoverIrV {
    Text(Seq<PieceV>),
    Item { id: String, count: i32 },
    Entity { id: String, uuid: [u8; 16], name: Option<Seq<PieceV>> },
    Dyn(HoleArg),
}

pub struct StyleV {
    pub color: Option<ColorIr>,
    pub font: Option<String>,
    pub bold: Option<BoolIr>,
    pub italic: Option<BoolIr>,
    pub underlined: Option<BoolIr>,
    pub strikethrough: Option<BoolIr>,
    pub obfuscated: Option<BoolIr>,
    pub shadow_color: Option<i32>,
    pub insertion: Option<Seq<StrSeg>>,
    pub hover: Option<HoverIrV>,
    pub click: Option<ClickIrV>,
}

pub enum PieceV {
    Text { text: String, style: StyleV, range: (usize, usize) },
    Keybind { key: String, style: StyleV, range: (usize, usize) },
    Lang {
        key: LangKey,
        fallback: Option<Seq<StrSeg>>,
        args: Seq<Seq<PieceV>>,
        style: StyleV,
        range: (usize, usize),
    },
    Score { name: String, objective: String, style: StyleV, range: (usize, usize) },
    Selector { selector: String, separator: Option<Seq<PieceV>>, style: StyleV, range: (usize, usize) },
    Nbt {
        source: NbtSourceIr,
        path: String,
        interpret: bool,
        separator: Option<Seq<PieceV>>,
        style: StyleV,
        range: (usize, usize),
    },
    Sprite { atlas: String, sprite: String, style: StyleV, range: (usize, usize) },
    Head { player: HeadIr, hat: bool, style: StyleV, range: (usize, usize) },
    Hole { arg: HoleArg, kind: HoleKind, spec: Option<String>, style: StyleV, range: (usize, usize) },
}

pub open spec fn view_opt_segs(o: Option<Vec<StrSeg>>) -> Option<Seq<StrSeg>> {
    match o {
        Some(v) => Some(v@),
        None => None,
    }
}

pub open spec fn view_click(c: ClickIr) -> ClickIrV {
    match c {
        ClickIr::Action(k, segs) => ClickIrV::Action(k, segs@),
        ClickIr::Dyn(a) => ClickIrV::Dyn(a),
    }
}

pub open spec fn view_opt_click(c: Option<ClickIr>) -> Option<ClickIrV> {
    match c {
        Some(c) => Some(view_click(c)),
        None => None,
    }
}

pub open spec fn view_pieces(s: Seq<Piece>) -> Seq<PieceV>
    decreases s,
{
    if s.len() == 0 {
        Seq::empty()
    } else {
        seq![view_piece(s[0])] + view_pieces(s.drop_first())
    }
}

pub open spec fn view_piece_lists(s: Seq<Vec<Piece>>) -> Seq<Seq<PieceV>>
    decreases s,
{
    if s.len() == 0 {
        Seq::empty()
    } else {
        seq![view_pieces(s[0]@)] + view_piece_lists(s.drop_first())
    }
}

pub open spec fn view_opt_pieces(o: Option<Vec<Piece>>) -> Option<Seq<PieceV>>
    decreases o,
{
    match o {
        Some(v) => Some(view_pieces(v@)),
        None => None,
    }
}

pub open spec fn view_hover(h: HoverIr) -> HoverIrV
    decreases h,
{
    match h {
        HoverIr::Text(v) => HoverIrV::Text(view_pieces(v@)),
        HoverIr::Item { id, count } => HoverIrV::Item { id, count },
        HoverIr::Entity { id, uuid, name } => HoverIrV::Entity { id, uuid, name: view_opt_pieces(name) },
        HoverIr::Dyn(a) => HoverIrV::Dyn(a),
    }
}

pub open spec fn view_opt_hover(h: Option<HoverIr>) -> Option<HoverIrV>
    decreases h,
{
    match h {
        Some(h) => Some(view_hover(h)),
        None => None,
    }
}

pub open spec fn view_style(s: Style) -> StyleV
    decreases s,
{
    StyleV {
        color: s.color,
        font: s.font,
        bold: s.bold,
        italic: s.italic,
        underlined: s.underlined,
        strikethrough: s.strikethrough,
        obfuscated: s.obfuscated,
        shadow_color: s.shadow_color,
        insertion: view_opt_segs(s.insertion),
        hover: view_opt_hover(s.hover),
        click: view_opt_click(s.click),
    }
}

pub open spec fn view_piece(p: Piece) -> PieceV
    decreases p,
{
    match p {
        Piece::Text { text, style, range } => PieceV::Text { text, style: view_style(style), range },
        Piece::Keybind { key, style, range } => PieceV::Keybind { key, style: view_style(style), range },
        Piece::Lang { key, fallback, args, style, range } => PieceV::Lang {
            key,
            fallback: view_opt_segs(fallback),
            args: view_piece_lists(args@),
            style: view_style(style),
            range,
        },
        Piece::Score { name, objective, style, range } => PieceV::Score {
            name,
            objective,
            style: view_style(style),
            range,
        },
        Piece::Selector { selector, separator, style, range } => PieceV::Selector {
            selector,
            separator: view_opt_pieces(separator),
            style: view_style(style),
            range,
        },
        Piece::Nbt { source, path, interpret, separator, style, range } => PieceV::Nbt {
            source,
            path,
            interpret,
            separator: view_opt_pieces(separator),
            style: view_style(style),
            range,
        },
        Piece::Sprite { atlas, sprite, style, range } => PieceV::Sprite {
            atlas,
            sprite,
            style: view_style(style),
            range,
        },
        Piece::Head { player, hat, style, range } => PieceV::Head {
            player,
            hat,
            style: view_style(style),
            range,
        },
        Piece::Hole { arg, kind, spec, style, range } => PieceV::Hole {
            arg,
            kind,
            spec,
            style: view_style(style),
            range,
        },
    }
}

impl View for Style {
    type V = StyleV;

    open spec fn view(&self) -> StyleV {
        view_style(*self)
    }
}

impl View for Piece {
    type V = PieceV;

    open spec fn view(&self) -> PieceV {
        view_piece(*self)
    }
}

impl View for HoverIr {
    type V = HoverIrV;

    open spec fn view(&self) -> HoverIrV {
        view_hover(*self)
    }
}

impl View for ClickIr {
    type V = ClickIrV;

    open spec fn view(&self) -> ClickIrV {
        view_click(*self)
    }
}

/// The model of the empty style.
pub open spec fn empty_style() -> StyleV {
    StyleV {
        color: None,
        font: None,
        bold: None,
        italic: None,
        underlined: None,
        strikethrough: None,
        obfuscated: None,
        shadow_color: None,
        insertion: None,
        hover: None,
        click: None,
    }
}

impl PieceV {
    pub open spec fn style(self) -> StyleV {
        match self {
            PieceV::Text { style, .. } => style,
            PieceV::Keybind { style, .. } => style,
            PieceV::Lang { style, .. } => style,
            PieceV::Score { style, .. } => style,
            PieceV::Selector { style, .. } => style,
            PieceV::Nbt { style, .. } => style,
            PieceV::Sprite { style, .. } => style,
            PieceV::Head { style, .. } => style,
            PieceV::Hole { style, .. } => style,
        }
    }

    pub open spec fn range(self) -> (usize, usize) {
        match self {
            PieceV::Text { range, .. } => range,
            PieceV::Keybind { range, .. } => range,
            PieceV::Lang { range, .. } => range,
            PieceV::Score { range, .. } => range,
            PieceV::Selector { range, .. } => range,
            PieceV::Nbt { range, .. } => range,
            PieceV::Sprite { range, .. } => range,
            PieceV::Head { range, .. } => range,
            PieceV::Hole { range, .. } => range,
        }
    }

    /// How many gradient positions this piece occupies.
    pub open spec fn width(self) -> nat {
        match self {
            PieceV::Text { text, .. } => text@.len(),
            _ => 1,
        }
    }

    /// Bare pieces (no styling, not components) encode as plain NBT strings.
    pub open spec fn is_bare(self) -> bool {
        match self {
            PieceV::Hole { kind: HoleKind::Component, .. } => false,
            PieceV::Hole { kind: HoleKind::ConstComponent, .. } => false,
            PieceV::Keybind { .. } => false,
            PieceV::Lang { .. } => false,
            PieceV::Score { .. } => false,
            PieceV::Selector { .. } => false,
            PieceV::Nbt { .. } => false,
            PieceV::Sprite { .. } => false,
            PieceV::Head { .. } => false,
            _ => self.style() == empty_style(),
        }
    }
}

} // verus!
