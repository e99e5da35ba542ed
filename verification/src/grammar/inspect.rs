//! Questions asked of a parsed template: which parts are decided at runtime, and which
//! pieces can be written as plain strings.
use vstd::prelude::*;
use crate::chars::push_chars;
use crate::grammar::ir::{
    BoolIr, ClickIr, ColorIr, HoleKind, HoverIr, LangKey, Piece, StrSeg, Style, empty_style,
    view_style,
};

verus! {

/// The text of the literal segments, in order.
pub open spec fn lits_text(s: Seq<StrSeg>) -> Seq<char>
    decreases s.len(),
{
    if s.len() == 0 {
        Seq::empty()
    } else {
        lits_text(s.drop_last()) + match s.last() {
            StrSeg::Lit(t) => t@,
            StrSeg::Hole(..) => Seq::empty(),
        }
    }
}

/// Whether every segment is a literal.
pub open spec fn all_lits(s: Seq<StrSeg>) -> bool {
    forall|i: int| 0 <= i < s.len() ==> s[i] is Lit
}

/// Whether a string value holds a hole.
pub open spec fn segs_dyn(s: Seq<StrSeg>) -> bool {
    exists|i: int| 0 <= i < s.len() && s[i] is Hole
}

/// Whether a flag is chosen at runtime.
pub open spec fn flag_dyn(f: Option<BoolIr>) -> bool {
    f matches Some(BoolIr::Dyn(_))
}

/// Whether any part of a style is decided at runtime.
pub open spec fn style_dyn(s: Style) -> bool
    decreases s,
{
    ||| s.color matches Some(ColorIr::Dyn(_))
    ||| flag_dyn(s.bold)
    ||| flag_dyn(s.italic)
    ||| flag_dyn(s.underlined)
    ||| flag_dyn(s.strikethrough)
    ||| flag_dyn(s.obfuscated)
    ||| (s.insertion matches Some(v) && segs_dyn(v@))
    ||| match s.hover {
        Some(HoverIr::Text(v)) => pieces_dyn(v@),
        Some(HoverIr::Entity { name: Some(v), .. }) => pieces_dyn(v@),
        Some(HoverIr::Dyn(_)) => true,
        _ => false,
    }
    ||| match s.click {
        Some(ClickIr::Action(_, segs)) => segs_dyn(segs@),
        Some(ClickIr::Dyn(_)) => true,
        None => false,
    }
}

/// Whether any piece of a list is decided at runtime.
pub open spec fn pieces_dyn(s: Seq<Piece>) -> bool
    decreases s,
{
    exists|i: int| 0 <= i < s.len() && piece_dyn(s[i])
}

/// Whether any argument list of a translation is decided at runtime.
pub open spec fn lists_dyn(s: Seq<Vec<Piece>>) -> bool
    decreases s,
{
    exists|i: int| 0 <= i < s.len() && pieces_dyn(s[i]@)
}

/// Whether a piece is a hole or carries runtime styling.
pub open spec fn piece_dyn(p: Piece) -> bool
    decreases p,
{
    match p {
        Piece::Hole { kind: HoleKind::ConstText, style, .. } => style_dyn(style),
        Piece::Hole { .. } => true,
        Piece::Lang { key, fallback, args, style, .. } => {
            ||| key is Dyn
            ||| (fallback matches Some(f) && segs_dyn(f@))
            ||| lists_dyn(args@)
            ||| style_dyn(style)
        },
        Piece::Selector { separator, style, .. } => (separator matches Some(v) && pieces_dyn(v@))
            || style_dyn(style),
        Piece::Nbt { separator, style, .. } => (separator matches Some(v) && pieces_dyn(v@))
            || style_dyn(style),
        Piece::Text { style, .. } => style_dyn(style),
        Piece::Keybind { style, .. } => style_dyn(style),
        Piece::Score { style, .. } => style_dyn(style),
        Piece::Sprite { style, .. } => style_dyn(style),
        Piece::Head { style, .. } => style_dyn(style),
    }
}

/// The style a piece carries.
pub open spec fn piece_style(p: Piece) -> Style {
    match p {
        Piece::Text { style, .. } => style,
        Piece::Keybind { style, .. } => style,
        Piece::Lang { style, .. } => style,
        Piece::Score { style, .. } => style,
        Piece::Selector { style, .. } => style,
        Piece::Nbt { style, .. } => style,
        Piece::Sprite { style, .. } => style,
        Piece::Head { style, .. } => style,
        Piece::Hole { style, .. } => style,
    }
}

/// The char range a piece occupies.
pub open spec fn piece_range(p: Piece) -> (usize, usize) {
    match p {
        Piece::Text { range, .. } => range,
        Piece::Keybind { range, .. } => range,
        Piece::Lang { range, .. } => range,
        Piece::Score { range, .. } => range,
        Piece::Selector { range, .. } => range,
        Piece::Nbt { range, .. } => range,
        Piece::Sprite { range, .. } => range,
        Piece::Head { range, .. } => range,
        Piece::Hole { range, .. } => range,
    }
}

impl StrSeg {
    /// Joins segments that are all literals; None if any hole is present.
    pub fn join_lits(segs: &[StrSeg]) -> (r: Option<String>)
        ensures
            r is Some <==> all_lits(segs@),
            r matches Some(s) ==> s@ == lits_text(segs@),
    {
        let mut out = String::new();
        let mut i: usize = 0;
        while i < segs.len()
            invariant
                i <= segs@.len(),
                all_lits(segs@.subrange(0, i as int)),
                out@ == lits_text(segs@.subrange(0, i as int)),
            decreases segs@.len() - i,
        {
            assert(segs@.subrange(0, i + 1).drop_last() =~= segs@.subrange(0, i as int));
            match &segs[i] {
                StrSeg::Lit(lit) => {
                    let v = crate::chars::chars_of(lit.as_str());
                    push_chars(&mut out, v.as_slice());
                },
                StrSeg::Hole(..) => {
                    return None;
                },
            }
            i = i + 1;
        }
        assert(segs@.subrange(0, segs@.len() as int) =~= segs@);
        Some(out)
    }
}

/// Whether a string value needs runtime assembly.
pub fn segs_have_dyn(segs: &[StrSeg]) -> (r: bool)
    ensures
        r == segs_dyn(segs@),
{
    let mut i: usize = 0;
    while i < segs.len()
        invariant
            i <= segs@.len(),
            forall|k: int| 0 <= k < i ==> !(segs@[k] is Hole),
        decreases segs@.len() - i,
    {
        if let StrSeg::Hole(..) = &segs[i] {
            return true;
        }
        i = i + 1;
    }
    false
}

fn flag_has_dyn(f: &Option<BoolIr>) -> (r: bool)
    ensures
        r == flag_dyn(*f),
{
    match f {
        Some(BoolIr::Dyn(_)) => true,
        _ => false,
    }
}

fn vec_has_dyn(v: &Vec<Piece>) -> (r: bool)
    ensures
        r == pieces_dyn(v@),
    decreases v,
{
    let mut i: usize = 0;
    while i < v.len()
        invariant
            i <= v@.len(),
            forall|k: int| 0 <= k < i ==> !piece_dyn(#[trigger] v@[k]),
        decreases v@.len() - i,
    {
        if v[i].has_dyn() {
            return true;
        }
        i = i + 1;
    }
    false
}

fn lists_have_dyn(v: &Vec<Vec<Piece>>) -> (r: bool)
    ensures
        r == lists_dyn(v@),
    decreases v,
{
    let mut i: usize = 0;
    while i < v.len()
        invariant
            i <= v@.len(),
            forall|k: int| 0 <= k < i ==> !pieces_dyn(#[trigger] v@[k]@),
        decreases v@.len() - i,
    {
        if vec_has_dyn(&v[i]) {
            return true;
        }
        i = i + 1;
    }
    false
}

/// Whether any piece is a hole or carries runtime styling.
pub fn pieces_have_dyn(pieces: &[Piece]) -> (r: bool)
    ensures
        r == pieces_dyn(pieces@),
{
    let mut i: usize = 0;
    while i < pieces.len()
        invariant
            i <= pieces@.len(),
            forall|k: int| 0 <= k < i ==> !piece_dyn(#[trigger] pieces@[k]),
        decreases pieces@.len() - i,
    {
        if pieces[i].has_dyn() {
            return true;
        }
        i = i + 1;
    }
    false
}

impl Style {
    /// The five flags by name, in the order the codec writes them.
    pub fn flags(&self) -> (r: [(&'static str, &Option<BoolIr>); 5])
        ensures
            r[0].0@ == "bold"@ && r[0].1 == &self.bold,
            r[1].0@ == "italic"@ && r[1].1 == &self.italic,
            r[2].0@ == "underlined"@ && r[2].1 == &self.underlined,
            r[3].0@ == "strikethrough"@ && r[3].1 == &self.strikethrough,
            r[4].0@ == "obfuscated"@ && r[4].1 == &self.obfuscated,
    {
        [
            ("bold", &self.bold),
            ("italic", &self.italic),
            ("underlined", &self.underlined),
            ("strikethrough", &self.strikethrough),
            ("obfuscated", &self.obfuscated),
        ]
    }

    /// Whether any part of this style is decided at runtime.
    pub fn has_dyn(&self) -> (r: bool)
        ensures
            r == style_dyn(*self),
        decreases self,
    {
        if let Some(ColorIr::Dyn(_)) = &self.color {
            return true;
        }
        if flag_has_dyn(&self.bold) || flag_has_dyn(&self.italic) || flag_has_dyn(&self.underlined)
            || flag_has_dyn(&self.strikethrough) || flag_has_dyn(&self.obfuscated) {
            return true;
        }
        if let Some(segs) = &self.insertion {
            if segs_have_dyn(segs.as_slice()) {
                return true;
            }
        }
        let hover = match &self.hover {
            Some(HoverIr::Text(v)) => vec_has_dyn(v),
            Some(HoverIr::Entity { name: Some(v), .. }) => vec_has_dyn(v),
            Some(HoverIr::Dyn(_)) => true,
            _ => false,
        };
        if hover {
            return true;
        }
        match &self.click {
            Some(ClickIr::Action(_, segs)) => segs_have_dyn(segs.as_slice()),
            Some(ClickIr::Dyn(_)) => true,
            None => false,
        }
    }
}

impl Piece {
    /// Whether this piece is a hole or carries runtime styling.
    pub fn has_dyn(&self) -> (r: bool)
        ensures
            r == piece_dyn(*self),
        decreases self,
    {
        match self {
            Piece::Hole { kind: HoleKind::ConstText, style, .. } => style.has_dyn(),
            Piece::Hole { .. } => true,
            Piece::Lang { key, fallback, args, style, .. } => {
                if let LangKey::Dyn(_) = key {
                    return true;
                }
                if let Some(f) = fallback {
                    if segs_have_dyn(f.as_slice()) {
                        return true;
                    }
                }
                lists_have_dyn(args) || style.has_dyn()
            },
            Piece::Selector { separator, style, .. } => {
                let sep = match separator {
                    Some(v) => vec_has_dyn(v),
                    None => false,
                };
                sep || style.has_dyn()
            },
            Piece::Nbt { separator, style, .. } => {
                let sep = match separator {
                    Some(v) => vec_has_dyn(v),
                    None => false,
                };
                sep || style.has_dyn()
            },
            Piece::Text { style, .. } => style.has_dyn(),
            Piece::Keybind { style, .. } => style.has_dyn(),
            Piece::Score { style, .. } => style.has_dyn(),
            Piece::Sprite { style, .. } => style.has_dyn(),
            Piece::Head { style, .. } => style.has_dyn(),
        }
    }

    /// The style this piece carries.
    pub fn style(&self) -> (r: &Style)
        ensures
            *r == piece_style(*self),
    {
        match self {
            Piece::Text { style, .. } => style,
            Piece::Keybind { style, .. } => style,
            Piece::Lang { style, .. } => style,
            Piece::Score { style, .. } => style,
            Piece::Selector { style, .. } => style,
            Piece::Nbt { style, .. } => style,
            Piece::Sprite { style, .. } => style,
            Piece::Head { style, .. } => style,
            Piece::Hole { style, .. } => style,
        }
    }

    /// The char range this piece occupies in the outermost template.
    pub fn range(&self) -> (r: (usize, usize))
        ensures
            r == piece_range(*self),
    {
        match self {
            Piece::Text { range, .. } => *range,
            Piece::Keybind { range, .. } => *range,
            Piece::Lang { range, .. } => *range,
            Piece::Score { range, .. } => *range,
            Piece::Selector { range, .. } => *range,
            Piece::Nbt { range, .. } => *range,
            Piece::Sprite { range, .. } => *range,
            Piece::Head { range, .. } => *range,
            Piece::Hole { range, .. } => *range,
        }
    }

    /// Bare pieces (no styling, not components) encode as plain NBT strings.
    pub fn is_bare(&self) -> (r: bool)
        ensures
            r == self@.is_bare(),
    {
        match self {
            Piece::Hole { kind: HoleKind::Component, .. } => false,
            Piece::Hole { kind: HoleKind::ConstComponent, .. } => false,
            Piece::Keybind { .. } => false,
            Piece::Lang { .. } => false,
            Piece::Score { .. } => false,
            Piece::Selector { .. } => false,
            Piece::Nbt { .. } => false,
            Piece::Sprite { .. } => false,
            Piece::Head { .. } => false,
            Piece::Text { style, .. } => style.is_empty(),
            Piece::Hole { style, .. } => style.is_empty(),
        }
    }
}

} // verus!
