//! Filling in content the server has to look up: scoreboard values, entity names, NBT
//! values, and the translations a client would show.
use vstd::prelude::*;
use crate::chars::{chars_of, string_between};
use crate::component::{bare, TextComponent};
use crate::content::{Content, Object, Resolvable};
use crate::duplicate::{
    comp_alike, comps_alike, copy_content, copy_interactions, copy_opt_string, copy_player, hover_alike, inter_alike,
    opt_click_alike, opt_hover_alike,
};
use crate::format::mix_spec;
use crate::interactivity::{HoverEvent, Interactivity};
use crate::translation::{Args, TranslatedMessage};

verus! {

// ---------------------------------------------------------------------------
// Splitting a translated string at its argument markers.

/// An argument marker `%n$s` with `n` from 1 through 8 at `p`: its argument number.
pub open spec fn numbered_marker(t: Seq<char>, p: int) -> Option<int> {
    if 0 <= p && p + 4 <= t.len() && t[p] == '%' && '1' <= t[p + 1] <= '8' && t[p + 2] == '$' && t[p + 3] == 's' {
        Some(t[p + 1] as int - '0' as int)
    } else {
        None
    }
}

/// A plain marker `%s` at `p`.
pub open spec fn plain_marker(t: Seq<char>, p: int) -> bool {
    0 <= p && p + 2 <= t.len() && t[p] == '%' && t[p + 1] == 's'
}

/// The parts of `t` from `p` on, the current literal having started at `seg` and `count`
/// plain markers having been seen: each literal paired with the argument of the marker
/// that ends it (a plain marker takes the next number in order), the last paired with 0.
pub open spec fn parts_from(t: Seq<char>, p: int, seg: int, count: int) -> Seq<(Seq<char>, int)>
    decreases t.len() - p,
{
    if p >= t.len() {
        seq![(t.subrange(seg, t.len() as int), 0)]
    } else if numbered_marker(t, p) is Some {
        seq![(t.subrange(seg, p), numbered_marker(t, p)->0)] + parts_from(t, p + 4, p + 4, count)
    } else if plain_marker(t, p) {
        seq![(t.subrange(seg, p), count + 1)] + parts_from(t, p + 2, p + 2, count + 1)
    } else {
        parts_from(t, p + 1, seg, count)
    }
}

/// A translated string split into literal parts, each paired with the 1-based argument
/// that follows it, or 0 for none.
pub open spec fn translation_parts(t: Seq<char>) -> Seq<(Seq<char>, int)> {
    parts_from(t, 0, 0, 0)
}

/// The model of split parts.
pub open spec fn parts_view(v: Seq<(String, usize)>) -> Seq<(Seq<char>, int)> {
    v.map_values(|x: (String, usize)| (x.0@, x.1 as int))
}

/// Splits a translated string into literal parts, each paired with the 1-based argument
/// that follows it (`%1$s` to `%8$s` name theirs, each `%s` takes the next), or 0 for none.
pub fn split_translation(text: &str) -> (r: Vec<(String, usize)>)
    ensures
        parts_view(r@) == translation_parts(text@),
{
    let cs = chars_of(text);
    let n = cs.len();
    let mut out: Vec<(String, usize)> = Vec::new();
    let mut p: usize = 0;
    let mut seg: usize = 0;
    let mut count: usize = 0;
    while p < n
        invariant
            n == cs@.len(),
            cs@ == text@,
            seg <= p <= n,
            count <= p,
            parts_view(out@) + parts_from(cs@, p as int, seg as int, count as int) == translation_parts(cs@),
        decreases n - p,
    {
        let ghost before = out@;
        if n - p >= 4 && cs[p] == '%' && '1' <= cs[p + 1] && cs[p + 1] <= '8' && cs[p + 2] == '$' && cs[p + 3] == 's' {
            let arg = (cs[p + 1] as u32 - '0' as u32) as usize;
            out.push((string_between(cs.as_slice(), seg, p), arg));
            proof {
                assert(parts_view(out@) =~= parts_view(before).push((cs@.subrange(seg as int, p as int), arg as int)));
                assert(parts_view(out@) + parts_from(cs@, p + 4, p + 4, count as int) =~= parts_view(before)
                    + parts_from(cs@, p as int, seg as int, count as int));
            }
            p = p + 4;
            seg = p;
        } else if n - p >= 2 && cs[p] == '%' && cs[p + 1] == 's' {
            count = count + 1;
            out.push((string_between(cs.as_slice(), seg, p), count));
            proof {
                assert(parts_view(out@) =~= parts_view(before).push((cs@.subrange(seg as int, p as int), count as int)));
                assert(parts_view(out@) + parts_from(cs@, p + 2, p + 2, count as int) =~= parts_view(before)
                    + parts_from(cs@, p as int, seg as int, count - 1));
            }
            p = p + 2;
            seg = p;
        } else {
            p = p + 1;
        }
    }
    let ghost before = out@;
    out.push((string_between(cs.as_slice(), seg, n), 0));
    proof {
        assert(parts_view(out@) =~= parts_view(before).push((cs@.subrange(seg as int, n as int), 0int)));
        assert(parts_view(out@) =~= parts_view(before) + parts_from(cs@, p as int, seg as int, count as int));
    }
    out
}

// ---------------------------------------------------------------------------
// Resolvers.

/// Fills in the content this crate cannot render on its own.
pub trait TextResolutor {
    /// Resolves content that needs no lookup, by default a copy.
    fn resolve_other(&self, content: &Content) -> TextComponent {
        TextComponent::of(copy_content(content))
    }

    /// Resolves a scoreboard, entity, or NBT value.
    fn resolve_content(&self, resolvable: &Resolvable) -> TextComponent;

    /// The translation for a key, `None` when it is unknown.
    fn translate(&self, key: &str) -> Option<String>;

    /// Splits a translated string into literal parts, each paired with the 1-based argument
    /// that follows it, or 0 for none.
    fn split_translation(&self, text: String) -> Vec<(String, usize)> {
        split_translation(text.as_str())
    }
}

/// A resolver for component contents that may fail.
pub trait TryTextResolutor {
    type Error;

    /// Resolves content that needs no lookup, by default a copy.
    fn try_resolve_other(&self, content: &Content) -> Result<TextComponent, Self::Error> {
        Ok(TextComponent::of(copy_content(content)))
    }

    /// Resolves a scoreboard, entity, or NBT value; `recursion_depth` is how deep this
    /// content sits below the root component, and anything past 100 is left unresolved.
    fn try_resolve_content(&self, resolvable: &Resolvable, recursion_depth: usize) -> Result<TextComponent, Self::Error>;
}

/// The placeholder text for a scoreboard value.
pub open spec fn score_placeholder(objective: Seq<char>) -> Seq<char> {
    "[Score: "@ + objective + "]"@
}

/// The placeholder text for an entity selector.
pub open spec fn entity_placeholder(selector: Seq<char>) -> Seq<char> {
    "[Entity: "@ + selector + "]"@
}

/// The placeholder text for an NBT path.
pub open spec fn nbt_placeholder(path: Seq<char>) -> Seq<char> {
    "[Nbt: "@ + path + "]"@
}

/// The placeholder a resolvable content stands for.
pub open spec fn placeholder(r: Resolvable) -> Seq<char> {
    match r {
        Resolvable::Scoreboard { objective, .. } => score_placeholder(objective@),
        Resolvable::Entity { selector, .. } => entity_placeholder(selector@),
        Resolvable::NBT { path, .. } => nbt_placeholder(path@),
    }
}

fn framed(head: &str, middle: &str) -> (r: String)
    ensures
        r@ == head@ + middle@ + "]"@,
{
    let mut s = head.to_owned();
    s.push_str(middle);
    s.push_str("]");
    s
}

/// A resolver that renders every lookup as a placeholder (`[Score: objective]`,
/// `[Entity: selector]`, `[Nbt: path]`) and knows no translation.
pub struct NoResolutor;

impl TextResolutor for NoResolutor {
    fn resolve_content(&self, resolvable: &Resolvable) -> (r: TextComponent)
        ensures
            r.content matches Content::Text { text } && text@ == placeholder(*resolvable),
            r.children@.len() == 0,
            r.format == crate::format::format_none(),
            crate::interactivity::interactivity_none(r.interactions),
    {
        let text = match resolvable {
            Resolvable::Scoreboard { objective, .. } => framed("[Score: ", objective.as_str()),
            Resolvable::Entity { selector, .. } => framed("[Entity: ", selector.as_str()),
            Resolvable::NBT { path, .. } => framed("[Nbt: ", path.as_str()),
        };
        TextComponent::plain(text)
    }

    fn translate(&self, key: &str) -> (r: Option<String>)
        ensures
            r is None,
    {
        None
    }
}

/// Runs an infallible resolver where a fallible one is expected.
struct InfallibleResolver<'a, R: TextResolutor + ?Sized>(&'a R);

impl<'a, R: TextResolutor + ?Sized> TryTextResolutor for InfallibleResolver<'a, R> {
    type Error = std::convert::Infallible;

    fn try_resolve_other(&self, content: &Content) -> Result<TextComponent, std::convert::Infallible> {
        Ok(self.0.resolve_other(content))
    }

    fn try_resolve_content(&self, resolvable: &Resolvable, recursion_depth: usize) -> Result<TextComponent, std::convert::Infallible> {
        Ok(self.0.resolve_content(resolvable))
    }
}

// ---------------------------------------------------------------------------
// Resolving a tree.

/// The deepest level that is still resolved; below it components are copied as they are.
pub const MAX_DEPTH: usize = 100;

/// `c` is `s` resolved at `depth`: past the limit a copy; otherwise `s`'s own style and
/// events win over what the resolver returned (a shown text resolved in turn), and `s`'s
/// children, each resolved one level deeper, come after the resolver's own children.
pub open spec fn resolved_from(c: TextComponent, s: TextComponent, depth: int) -> bool
    decreases s,
{
    if depth > MAX_DEPTH {
        comp_alike(c, s)
    } else {
        let cs = c.children@;
        let ss = s.children@;
        &&& c.format == mix_spec(s.format, c.format)
        &&& s.interactions.insertion is Some ==> c.interactions.insertion == s.interactions.insertion
        &&& s.interactions.click is Some ==> opt_click_alike(c.interactions.click, s.interactions.click)
        &&& match s.interactions.hover {
            Some(HoverEvent::ShowText { value }) => c.interactions.hover matches Some(
                HoverEvent::ShowText { value: v },
            ) && resolved_from(*v, *value, depth + 1),
            Some(h) => opt_hover_alike(c.interactions.hover, Some(h)),
            None => true,
        }
        &&& cs.len() >= ss.len()
        &&& all_resolved(cs.subrange(cs.len() - ss.len(), cs.len() as int), ss, depth + 1)
    }
}

/// Each of `cs` is the one of `ss` at its place resolved at `depth`.
pub open spec fn all_resolved(cs: Seq<TextComponent>, ss: Seq<TextComponent>, depth: int) -> bool
    decreases ss,
{
    &&& cs.len() == ss.len()
    &&& (ss.len() == 0 || (all_resolved(cs.drop_last(), ss.drop_last(), depth)
        && resolved_from(cs.last(), ss.last(), depth)))
}

proof fn lemma_all_resolved(cs: Seq<TextComponent>, ss: Seq<TextComponent>, depth: int)
    requires
        cs.len() == ss.len(),
        forall|k: int| 0 <= k < ss.len() ==> #[trigger] resolved_from(cs[k], ss[k], depth),
    ensures
        all_resolved(cs, ss, depth),
    decreases ss.len(),
{
    if ss.len() > 0 {
        assert forall|k: int| 0 <= k < ss.len() - 1 implies #[trigger] resolved_from(cs.drop_last()[k], ss.drop_last()[k], depth) by {
            assert(resolved_from(cs[k], ss[k], depth));
        }
        lemma_all_resolved(cs.drop_last(), ss.drop_last(), depth);
        assert(resolved_from(cs[ss.len() - 1], ss[ss.len() - 1], depth));
    }
}

/// A copy of a component counts as it resolved, at any depth.
pub proof fn lemma_alike_resolved(c: TextComponent, s: TextComponent, depth: int)
    requires
        comp_alike(c, s),
    ensures
        resolved_from(c, s, depth),
    decreases s,
{
    if depth <= MAX_DEPTH {
        let cs = c.children@;
        let ss = s.children@;
        lemma_comps_alike_index(cs, ss);
        assert forall|k: int| 0 <= k < ss.len() implies #[trigger] resolved_from(cs[k], ss[k], depth + 1) by {
            lemma_alike_resolved(cs[k], ss[k], depth + 1);
        }
        assert(cs.subrange(0, cs.len() as int) =~= cs);
        lemma_all_resolved(cs, ss, depth + 1);
        match s.interactions.hover {
            Some(HoverEvent::ShowText { value }) => {
                assert(inter_alike(c.interactions, s.interactions));
                assert(opt_hover_alike(c.interactions.hover, s.interactions.hover));
                let x = c.interactions.hover->Some_0;
                assert(hover_alike(x, HoverEvent::ShowText { value }));
                match x {
                    HoverEvent::ShowText { value: v } => {
                        lemma_alike_resolved(*v, *value, depth + 1);
                    },
                    HoverEvent::ShowItem { .. } => {},
                    HoverEvent::ShowEntity { .. } => {},
                }
            },
            _ => {},
        }
    }
}

proof fn lemma_comps_alike_index(s: Seq<TextComponent>, t: Seq<TextComponent>)
    requires
        comps_alike(s, t),
    ensures
        s.len() == t.len(),
        forall|k: int| 0 <= k < s.len() ==> #[trigger] comp_alike(s[k], t[k]),
    decreases s.len(),
{
    if s.len() > 0 {
        lemma_comps_alike_index(s.drop_last(), t.drop_last());
        assert forall|k: int| 0 <= k < s.len() implies #[trigger] comp_alike(s[k], t[k]) by {
            if k < s.len() - 1 {
                assert(s[k] == s.drop_last()[k]);
                assert(t[k] == t.drop_last()[k]);
            }
        }
    }
}

/// Resolves each component of a list one level down, stopping at the first error.
fn resolve_all<R: TryTextResolutor + ?Sized>(v: &Vec<TextComponent>, resolutor: &R, depth: usize) -> (r: Result<Vec<TextComponent>, R::Error>)
    requires
        depth <= MAX_DEPTH + 1,
    ensures
        r matches Ok(w) ==> w@.len() == v@.len()
            && forall|k: int| 0 <= k < v@.len() ==> #[trigger] resolved_from(w@[k], v@[k], depth as int),
    decreases v, 1nat,
{
    let mut out: Vec<TextComponent> = Vec::new();
    let mut i: usize = 0;
    while i < v.len()
        invariant
            i <= v@.len(),
            depth <= MAX_DEPTH + 1,
            out@.len() == i,
            forall|k: int| 0 <= k < i ==> #[trigger] resolved_from(out@[k], v@[k], depth as int),
        decreases v@.len() - i,
    {
        match v[i].try_resolve_at_depth(resolutor, depth) {
            Ok(c) => out.push(c),
            Err(e) => return Err(e),
        }
        i = i + 1;
    }
    Ok(out)
}

/// Resolves an optional boxed component one level down.
fn resolve_opt<R: TryTextResolutor + ?Sized>(o: &Option<Box<TextComponent>>, resolutor: &R, depth: usize) -> (r: Result<Option<Box<TextComponent>>, R::Error>)
    requires
        depth <= MAX_DEPTH + 1,
    ensures
        r matches Ok(w) ==> (match *o {
            Some(x) => w matches Some(y) && resolved_from(*y, *x, depth as int),
            None => w is None,
        }),
    decreases o, 1nat,
{
    match o {
        Some(x) => match x.try_resolve_at_depth(resolutor, depth) {
            Ok(c) => Ok(Some(Box::new(c))),
            Err(e) => Err(e),
        },
        None => Ok(None),
    }
}

impl TextComponent {
    /// Resolves this component and everything below it.
    pub fn resolve<R: TextResolutor + ?Sized>(&self, resolutor: &R) -> (r: TextComponent)
        ensures
            resolved_from(r, *self, 0),
    {
        match self.try_resolve(&InfallibleResolver(resolutor)) {
            Ok(c) => c,
            // `Infallible` has no value, so this arm never runs; a copy keeps the contract.
            Err(_) => {
                let c = self.duplicate();
                proof {
                    lemma_alike_resolved(c, *self, 0);
                }
                c
            },
        }
    }

    /// Resolves this component and everything below it, stopping at the first error.
    pub fn try_resolve<R: TryTextResolutor + ?Sized>(&self, resolutor: &R) -> (r: Result<TextComponent, R::Error>)
        ensures
            r matches Ok(c) ==> resolved_from(c, *self, 0),
    {
        self.try_resolve_at_depth(resolutor, 0)
    }

    /// Resolves content nested inside a resolver-provided value, `recursion_depth` levels
    /// below the root.
    pub fn try_resolve_from_depth<R: TryTextResolutor + ?Sized>(&self, resolutor: &R, recursion_depth: usize) -> (r: Result<TextComponent, R::Error>)
        ensures
            r matches Ok(c) ==> resolved_from(c, *self, recursion_depth as int),
            recursion_depth > MAX_DEPTH ==> (r matches Ok(c) && comp_alike(c, *self)),
    {
        self.try_resolve_at_depth(resolutor, recursion_depth)
    }

    fn try_resolve_at_depth<R: TryTextResolutor + ?Sized>(&self, resolutor: &R, depth: usize) -> (r: Result<TextComponent, R::Error>)
        ensures
            r matches Ok(c) ==> resolved_from(c, *self, depth as int),
            depth > MAX_DEPTH ==> (r matches Ok(c) && comp_alike(c, *self)),
        decreases self, 0nat,
    {
        if depth > MAX_DEPTH {
            return Ok(self.duplicate());
        }
        let inner = depth + 1;
        let resolved = match &self.content {
            Content::Translate(message) => {
                let args = match &message.args {
                    Args::Absent => Args::Absent,
                    Args::Owned(v) => match resolve_all(v, resolutor, inner) {
                        Ok(w) => Args::Owned(w),
                        Err(e) => return Err(e),
                    },
                };
                let message = TranslatedMessage {
                    key: message.key.clone(),
                    fallback: copy_opt_string(&message.fallback),
                    args,
                };
                resolutor.try_resolve_other(&Content::Translate(message))
            },
            Content::Object(Object::Atlas { atlas, sprite, fallback }) => {
                let fallback = match resolve_opt(fallback, resolutor, inner) {
                    Ok(f) => f,
                    Err(e) => return Err(e),
                };
                let object = Object::Atlas { atlas: atlas.clone(), sprite: sprite.clone(), fallback };
                resolutor.try_resolve_other(&Content::Object(object))
            },
            Content::Object(Object::Player { player, hat, fallback }) => {
                let fallback = match resolve_opt(fallback, resolutor, inner) {
                    Ok(f) => f,
                    Err(e) => return Err(e),
                };
                let object = Object::Player { player: Box::new(copy_player(player)), hat: *hat, fallback };
                resolutor.try_resolve_other(&Content::Object(object))
            },
            Content::Resolvable(Resolvable::Scoreboard { selector, objective }) => {
                let resolvable = Resolvable::Scoreboard { selector: selector.clone(), objective: objective.clone() };
                resolutor.try_resolve_content(&resolvable, inner)
            },
            Content::Resolvable(Resolvable::Entity { selector, separator }) => {
                let separator = match resolve_opt(separator, resolutor, inner) {
                    Ok(s) => s,
                    Err(e) => return Err(e),
                };
                let resolvable = Resolvable::Entity { selector: selector.clone(), separator };
                resolutor.try_resolve_content(&resolvable, inner)
            },
            Content::Resolvable(Resolvable::NBT { path, interpret, plain, separator, source }) => {
                let separator = match resolve_opt(separator, resolutor, inner) {
                    Ok(s) => s,
                    Err(e) => return Err(e),
                };
                let resolvable = Resolvable::NBT {
                    path: path.clone(),
                    interpret: *interpret,
                    plain: *plain,
                    separator,
                    source: crate::duplicate::copy_source(source),
                };
                resolutor.try_resolve_content(&resolvable, inner)
            },
            content => resolutor.try_resolve_other(content),
        };
        let mut component = match resolved {
            Ok(c) => c,
            Err(e) => return Err(e),
        };
        let children = match resolve_all(&self.children, resolutor, inner) {
            Ok(w) => w,
            Err(e) => return Err(e),
        };
        let ghost own = component.children@;
        let mut children = children;
        let ghost kids = children@;
        component.children.append(&mut children);
        let mut interactions = copy_interactions(&self.interactions);
        if let Some(HoverEvent::ShowText { value }) = &self.interactions.hover {
            let v = match value.try_resolve_at_depth(resolutor, inner) {
                Ok(v) => v,
                Err(e) => return Err(e),
            };
            interactions.hover = Some(HoverEvent::ShowText { value: Box::new(v) });
        }
        if interactions.insertion.is_some() {
            component.interactions.insertion = interactions.insertion;
        }
        if interactions.click.is_some() {
            component.interactions.click = interactions.click;
        }
        if interactions.hover.is_some() {
            component.interactions.hover = interactions.hover;
        }
        component.format = self.format.mix(&component.format);
        proof {
            let cs = component.children@;
            let ss = self.children@;
            assert(cs =~= own + kids);
            assert(cs.subrange(cs.len() - ss.len(), cs.len() as int) =~= kids);
            lemma_all_resolved(kids, ss, depth + 1);
        }
        Ok(component)
    }
}

} // verus!
