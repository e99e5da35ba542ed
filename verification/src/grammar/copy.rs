//! Copies of template values whose models equal the originals.
use vstd::prelude::*;
use super::ir::{
    BoolIr, ClickIr, ClickKind, ColorIr, HeadIr, HoleArg, HoverIr, LangKey, NbtSourceIr, Piece, StrSeg,
    Style, PieceV, empty_style, view_opt_pieces, view_opt_segs, view_piece, view_piece_lists, view_pieces,
};

verus! {

pub proof fn lemma_view_pieces_push(s: Seq<Piece>, p: Piece)
    ensures
        view_pieces(s.push(p)) == view_pieces(s).push(view_piece(p)),
    decreases s.len(),
{
    if s.len() == 0 {
        assert(s.push(p).drop_first() =~= Seq::<Piece>::empty());
        assert(view_pieces(s.push(p).drop_first()) =~= Seq::<PieceV>::empty());
        assert(s.push(p)[0] == p);
        assert(view_pieces(s.push(p)) =~= view_pieces(s).push(view_piece(p)));
    } else {
        assert(s.push(p).drop_first() =~= s.drop_first().push(p));
        lemma_view_pieces_push(s.drop_first(), p);
        assert(view_pieces(s.push(p)) =~= view_pieces(s).push(view_piece(p)));
    }
}

pub proof fn lemma_view_pieces_len(s: Seq<Piece>)
    ensures
        view_pieces(s).len() == s.len(),
        forall|i: int| 0 <= i < s.len() ==> #[trigger] view_pieces(s)[i] == view_piece(s[i]),
    decreases s.len(),
{
    if s.len() > 0 {
        lemma_view_pieces_len(s.drop_first());
        assert forall|i: int| 0 <= i < s.len() implies #[trigger] view_pieces(s)[i] == view_piece(s[i]) by {
            if i > 0 {
                assert(s[i] == s.drop_first()[i - 1]);
            }
        }
    }
}

pub proof fn lemma_view_pieces_append(a: Seq<Piece>, b: Seq<Piece>)
    ensures
        view_pieces(a + b) == view_pieces(a) + view_pieces(b),
    decreases a.len(),
{
    if a.len() == 0 {
        assert(a + b =~= b);
        assert(view_pieces(a) + view_pieces(b) =~= view_pieces(b));
    } else {
        assert((a + b).drop_first() =~= a.drop_first() + b);
        lemma_view_pieces_append(a.drop_first(), b);
        assert(view_pieces(a + b) =~= view_pieces(a) + view_pieces(b));
    }
}

pub proof fn lemma_view_pieces_subrange(s: Seq<Piece>, i: int, j: int)
    requires
        0 <= i <= j <= s.len(),
    ensures
        view_pieces(s.subrange(i, j)) == view_pieces(s).subrange(i, j),
{
    lemma_view_pieces_len(s);
    lemma_view_pieces_len(s.subrange(i, j));
    assert(view_pieces(s.subrange(i, j)) =~= view_pieces(s).subrange(i, j));
}

pub proof fn lemma_view_piece_lists_push(s: Seq<Vec<Piece>>, p: Vec<Piece>)
    ensures
        view_piece_lists(s.push(p)) == view_piece_lists(s).push(view_pieces(p@)),
    decreases s.len(),
{
    if s.len() == 0 {
        assert(s.push(p).drop_first() =~= Seq::<Vec<Piece>>::empty());
        assert(view_piece_lists(s.push(p).drop_first()) =~= Seq::<Seq<PieceV>>::empty());
        assert(s.push(p)[0] == p);
        assert(view_piece_lists(s.push(p)) =~= view_piece_lists(s).push(view_pieces(p@)));
    } else {
        assert(s.push(p).drop_first() =~= s.drop_first().push(p));
        lemma_view_piece_lists_push(s.drop_first(), p);
        assert(view_piece_lists(s.push(p)) =~= view_piece_lists(s).push(view_pieces(p@)));
    }
}

impl HoleArg {
    pub fn copy(&self) -> (r: HoleArg)
        ensures
            r == *self,
    {
        match self {
            HoleArg::Positional(n) => HoleArg::Positional(*n),
            HoleArg::Named { name, range } => HoleArg::Named { name: name.clone(), range: *range },
        }
    }
}

impl ColorIr {
    pub fn copy(&self) -> (r: ColorIr)
        ensures
            r == *self,
    {
        match self {
            ColorIr::Named(n) => ColorIr::Named(n.clone()),
            ColorIr::Rgb(r, g, b) => ColorIr::Rgb(*r, *g, *b),
            ColorIr::Dyn(a) => ColorIr::Dyn(a.copy()),
        }
    }
}

impl BoolIr {
    pub fn copy(&self) -> (r: BoolIr)
        ensures
            r == *self,
    {
        match self {
            BoolIr::Const(b) => BoolIr::Const(*b),
            BoolIr::Dyn(a) => BoolIr::Dyn(a.copy()),
        }
    }
}

impl StrSeg {
    pub fn copy(&self) -> (r: StrSeg)
        ensures
            r == *self,
    {
        match self {
            StrSeg::Lit(s) => StrSeg::Lit(s.clone()),
            StrSeg::Hole(a, spec) => StrSeg::Hole(
                a.copy(),
                match spec {
                    Some(s) => Some(s.clone()),
                    None => None,
                },
            ),
        }
    }
}

impl ClickKind {
    pub fn copy(&self) -> (r: ClickKind)
        ensures
            r == *self,
    {
        match self {
            ClickKind::OpenUrl => ClickKind::OpenUrl,
            ClickKind::RunCommand => ClickKind::RunCommand,
            ClickKind::SuggestCommand => ClickKind::SuggestCommand,
            ClickKind::CopyToClipboard => ClickKind::CopyToClipboard,
            ClickKind::ChangePage(p) => ClickKind::ChangePage(*p),
            ClickKind::ShowDialog => ClickKind::ShowDialog,
        }
    }
}

impl LangKey {
    pub fn copy(&self) -> (r: LangKey)
        ensures
            r == *self,
    {
        match self {
            LangKey::Lit(s) => LangKey::Lit(s.clone()),
            LangKey::Dyn(a) => LangKey::Dyn(a.copy()),
        }
    }
}

impl NbtSourceIr {
    pub fn copy(&self) -> (r: NbtSourceIr)
        ensures
            r == *self,
    {
        match self {
            NbtSourceIr::Block(s) => NbtSourceIr::Block(s.clone()),
            NbtSourceIr::Entity(s) => NbtSourceIr::Entity(s.clone()),
            NbtSourceIr::Storage(s) => NbtSourceIr::Storage(s.clone()),
        }
    }
}

impl HeadIr {
    pub fn copy(&self) -> (r: HeadIr)
        ensures
            r == *self,
    {
        match self {
            HeadIr::Name(s) => HeadIr::Name(s.clone()),
            HeadIr::Uuid(u) => HeadIr::Uuid(*u),
            HeadIr::Texture(s) => HeadIr::Texture(s.clone()),
        }
    }
}

pub fn copy_opt_string(o: &Option<String>) -> (r: Option<String>)
    ensures
        r == *o,
{
    match o {
        Some(s) => Some(s.clone()),
        None => None,
    }
}

pub fn copy_opt_color(o: &Option<ColorIr>) -> (r: Option<ColorIr>)
    ensures
        r == *o,
{
    match o {
        Some(c) => Some(c.copy()),
        None => None,
    }
}

pub fn copy_opt_bool(o: &Option<BoolIr>) -> (r: Option<BoolIr>)
    ensures
        r == *o,
{
    match o {
        Some(c) => Some(c.copy()),
        None => None,
    }
}

pub fn copy_segs(v: &Vec<StrSeg>) -> (r: Vec<StrSeg>)
    ensures
        r@ == v@,
{
    let mut r: Vec<StrSeg> = Vec::new();
    let mut i: usize = 0;
    while i < v.len()
        invariant
            i <= v@.len(),
            r@ == v@.subrange(0, i as int),
        decreases v@.len() - i,
    {
        r.push(v[i].copy());
        i = i + 1;
        assert(r@ =~= v@.subrange(0, i as int));
    }
    assert(v@.subrange(0, v@.len() as int) =~= v@);
    r
}

pub fn copy_opt_segs(o: &Option<Vec<StrSeg>>) -> (r: Option<Vec<StrSeg>>)
    ensures
        view_opt_segs(r) == view_opt_segs(*o),
{
    match o {
        Some(v) => Some(copy_segs(v)),
        None => None,
    }
}

impl ClickIr {
    pub fn copy(&self) -> (r: ClickIr)
        ensures
            r@ == self@,
    {
        match self {
            ClickIr::Action(k, segs) => ClickIr::Action(k.copy(), copy_segs(segs)),
            ClickIr::Dyn(a) => ClickIr::Dyn(a.copy()),
        }
    }
}

pub fn copy_pieces(v: &Vec<Piece>) -> (r: Vec<Piece>)
    ensures
        view_pieces(r@) == view_pieces(v@),
    decreases v,
{
    let mut r: Vec<Piece> = Vec::new();
    let mut i: usize = 0;
    while i < v.len()
        invariant
            i <= v@.len(),
            view_pieces(r@) == view_pieces(v@.subrange(0, i as int)),
        decreases v@.len() - i,
    {
        let p = v[i].copy();
        proof {
            lemma_view_pieces_push(r@, p);
            lemma_view_pieces_push(v@.subrange(0, i as int), v@[i as int]);
            assert(v@.subrange(0, i as int).push(v@[i as int]) =~= v@.subrange(0, i + 1));
        }
        r.push(p);
        i = i + 1;
    }
    assert(v@.subrange(0, v@.len() as int) =~= v@);
    r
}

pub fn copy_opt_pieces(o: &Option<Vec<Piece>>) -> (r: Option<Vec<Piece>>)
    ensures
        view_opt_pieces(r) == view_opt_pieces(*o),
    decreases o,
{
    match o {
        Some(v) => Some(copy_pieces(v)),
        None => None,
    }
}

pub fn copy_piece_lists(v: &Vec<Vec<Piece>>) -> (r: Vec<Vec<Piece>>)
    ensures
        view_piece_lists(r@) == view_piece_lists(v@),
    decreases v,
{
    let mut r: Vec<Vec<Piece>> = Vec::new();
    let mut i: usize = 0;
    while i < v.len()
        invariant
            i <= v@.len(),
            view_piece_lists(r@) == view_piece_lists(v@.subrange(0, i as int)),
        decreases v@.len() - i,
    {
        let p = copy_pieces(&v[i]);
        proof {
            lemma_view_piece_lists_push(r@, p);
            lemma_view_piece_lists_push(v@.subrange(0, i as int), v@[i as int]);
            assert(v@.subrange(0, i as int).push(v@[i as int]) =~= v@.subrange(0, i + 1));
        }
        r.push(p);
        i = i + 1;
    }
    assert(v@.subrange(0, v@.len() as int) =~= v@);
    r
}

impl HoverIr {
    pub fn copy(&self) -> (r: HoverIr)
        ensures
            r@ == self@,
        decreases self,
    {
        match self {
            HoverIr::Text(v) => HoverIr::Text(copy_pieces(v)),
            HoverIr::Item { id, count } => HoverIr::Item { id: id.clone(), count: *count },
            HoverIr::Entity { id, uuid, name } => HoverIr::Entity {
                id: id.clone(),
                uuid: *uuid,
                name: copy_opt_pieces(name),
            },
            HoverIr::Dyn(a) => HoverIr::Dyn(a.copy()),
        }
    }
}

impl Style {
    /// The style with nothing set.
    pub fn empty() -> (r: Style)
        ensures
            r@ == empty_style(),
    {
        Style {
            color: None,
            font: None,
            bold: None,
            italic: None,
            underlined: None,
            strikethrough: None,
            obfuscated: None,
            shadow_color: None,
            insertion: None,
            hover: None,
            click: None,
        }
    }

    pub fn copy(&self) -> (r: Style)
        ensures
            r@ == self@,
        decreases self,
    {
        Style {
            color: copy_opt_color(&self.color),
            font: copy_opt_string(&self.font),
            bold: copy_opt_bool(&self.bold),
            italic: copy_opt_bool(&self.italic),
            underlined: copy_opt_bool(&self.underlined),
            strikethrough: copy_opt_bool(&self.strikethrough),
            obfuscated: copy_opt_bool(&self.obfuscated),
            shadow_color: self.shadow_color,
            insertion: copy_opt_segs(&self.insertion),
            hover: match &self.hover {
                Some(h) => Some(h.copy()),
                None => None,
            },
            click: match &self.click {
                Some(c) => Some(c.copy()),
                None => None,
            },
        }
    }

    /// Whether nothing is set.
    pub fn is_empty(&self) -> (r: bool)
        ensures
            r == (self@ == empty_style()),
    {
        self.color.is_none() && self.font.is_none() && self.bold.is_none() && self.italic.is_none()
            && self.underlined.is_none() && self.strikethrough.is_none() && self.obfuscated.is_none()
            && self.shadow_color.is_none() && self.insertion.is_none() && self.hover.is_none()
            && self.click.is_none()
    }
}

impl Piece {
    pub fn copy(&self) -> (r: Piece)
        ensures
            r@ == self@,
        decreases self,
    {
        match self {
            Piece::Text { text, style, range } => Piece::Text {
                text: text.clone(),
                style: style.copy(),
                range: *range,
            },
            Piece::Keybind { key, style, range } => Piece::Keybind {
                key: key.clone(),
                style: style.copy(),
                range: *range,
            },
            Piece::Lang { key, fallback, args, style, range } => Piece::Lang {
                key: key.copy(),
                fallback: copy_opt_segs(fallback),
                args: copy_piece_lists(args),
                style: style.copy(),
                range: *range,
            },
            Piece::Score { name, objective, style, range } => Piece::Score {
                name: name.clone(),
                objective: objective.clone(),
                style: style.copy(),
                range: *range,
            },
            Piece::Selector { selector, separator, style, range } => Piece::Selector {
                selector: selector.clone(),
                separator: copy_opt_pieces(separator),
                style: style.copy(),
                range: *range,
            },
            Piece::Nbt { source, path, interpret, separator, style, range } => Piece::Nbt {
                source: source.copy(),
                path: path.clone(),
                interpret: *interpret,
                separator: copy_opt_pieces(separator),
                style: style.copy(),
                range: *range,
            },
            Piece::Sprite { atlas, sprite, style, range } => Piece::Sprite {
                atlas: atlas.clone(),
                sprite: sprite.clone(),
                style: style.copy(),
                range: *range,
            },
            Piece::Head { player, hat, style, range } => Piece::Head {
                player: player.copy(),
                hat: *hat,
                style: style.copy(),
                range: *range,
            },
            Piece::Hole { arg, kind, spec, style, range } => Piece::Hole {
                arg: arg.copy(),
                kind: *kind,
                spec: copy_opt_string(spec),
                style: style.copy(),
                range: *range,
            },
        }
    }
}

} // verus!
