//! A tree of styled text with click and hover events.
use vstd::prelude::*;
use crate::content::{Content, NbtSource, Object, ObjectPlayer, Resolvable};
use crate::format::{format_none, Format};
use crate::interactivity::{interactivity_none, Interactivity};
use crate::translation::TranslatedMessage;

verus! {

/// A tree of styled text with click and hover events.
#[derive(Debug, PartialEq)]
pub struct TextComponent {
    pub content: Content,
    pub children: Vec<TextComponent>,
    pub format: Format,
    pub interactions: Interactivity,
}

/// A component holding only this content: no children, no styling, no events.
pub open spec fn bare(c: TextComponent, content: Content) -> bool {
    &&& c.content == content
    &&& c.children@.len() == 0
    &&& c.format == format_none()
    &&& interactivity_none(c.interactions)
}

impl TextComponent {
    pub(crate) fn of(content: Content) -> (r: TextComponent)
        ensures
            bare(r, content),
    {
        TextComponent {
            content,
            children: Vec::new(),
            format: Format::new(),
            interactions: Interactivity::new(),
        }
    }

    /// An empty component, useful as a parent.
    pub fn new() -> (r: TextComponent)
        ensures
            r.content matches Content::Text { text } && text@.len() == 0,
            r.children@.len() == 0,
            r.format == format_none(),
            interactivity_none(r.interactions),
    {
        let r = TextComponent::of(Content::Text { text: String::new() });
        r
    }

    /// Plain text known at compile time.
    pub fn const_plain(text: &'static str) -> (r: TextComponent)
        ensures
            r.content matches Content::Text { text: t } && t@ == text@,
            r.children@.len() == 0,
            r.format == format_none(),
            interactivity_none(r.interactions),
    {
        TextComponent::of(Content::Text { text: text.to_owned() })
    }

    /// Plain text.
    pub fn plain(text: String) -> (r: TextComponent)
        ensures
            bare(r, Content::Text { text }),
    {
        TextComponent::of(Content::Text { text })
    }

    /// A translated message.
    pub fn translated(message: TranslatedMessage) -> (r: TextComponent)
        ensures
            bare(r, Content::Translate(message)),
    {
        TextComponent::of(Content::Translate(message))
    }

    /// A sprite from an atlas; the atlas defaults to `minecraft:blocks`.
    pub fn atlas(sprite: String, atlas: Option<String>) -> (r: TextComponent)
        ensures
            r.content matches Content::Object(Object::Atlas { atlas: a, sprite: s, fallback: f })
                && s == sprite && f is None && a@ == (match atlas {
                    Some(x) => x@,
                    None => "minecraft:blocks"@,
                }),
            r.children@.len() == 0,
            r.format == format_none(),
            interactivity_none(r.interactions),
    {
        let atlas = match atlas {
            Some(a) => a,
            None => "minecraft:blocks".to_owned(),
        };
        TextComponent::of(Content::Object(Object::Atlas { atlas, sprite, fallback: None }))
    }

    /// The head of a player.
    pub fn player_head(player: ObjectPlayer, hat: bool) -> (r: TextComponent)
        ensures
            bare(r, Content::Object(Object::Player { player: Box::new(player), hat, fallback: None })),
    {
        TextComponent::of(Content::Object(Object::Player { player: Box::new(player), hat, fallback: None }))
    }

    /// The value of a scoreboard, for the one entity the selector picks.
    pub fn scoreboard(selector: String, objective: String) -> (r: TextComponent)
        ensures
            bare(r, Content::Resolvable(Resolvable::Scoreboard { selector, objective })),
    {
        TextComponent::of(Content::Resolvable(Resolvable::Scoreboard { selector, objective }))
    }

    /// The entities a selector matches, with an optional separator.
    pub fn entity(selector: String, separator: Option<TextComponent>) -> (r: TextComponent)
        ensures
            bare(r, Content::Resolvable(Resolvable::Entity {
                selector,
                separator: match separator { Some(s) => Some(Box::new(s)), None => None },
            })),
    {
        let separator = match separator {
            Some(s) => Some(Box::new(s)),
            None => None,
        };
        TextComponent::of(Content::Resolvable(Resolvable::Entity { selector, separator }))
    }

    /// The data of an NBT path.
    pub fn nbt(path: String, source: NbtSource, interpret: bool, separator: Option<TextComponent>) -> (r: TextComponent)
        ensures
            bare(r, Content::Resolvable(Resolvable::NBT {
                path,
                interpret,
                plain: false,
                separator: match separator { Some(s) => Some(Box::new(s)), None => None },
                source,
            })),
    {
        let separator = match separator {
            Some(s) => Some(Box::new(s)),
            None => None,
        };
        TextComponent::of(Content::Resolvable(Resolvable::NBT { path, interpret, plain: false, separator, source }))
    }
}

} // verus!
