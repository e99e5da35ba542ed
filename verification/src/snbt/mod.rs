//! Components read back from SNBT, the text form of NBT.
//!
//! A shadow color written as a list of four channel fractions is the one value that needs
//! floating point; the caller supplies that arithmetic as `channel`, which turns the text
//! of one fraction into its 0–255 channel value, or refuses it.
pub mod scalar;
pub mod object;
pub mod events;

use vstd::prelude::*;
use crate::chars::{chars_of, eq_lit};
use crate::component::{bare, TextComponent};
use crate::content::{Content, NbtSource, Object, ObjectPlayer, Resolvable};
use crate::decode::{SnbtError, SnbtErrorV};
use crate::format::{format_none, from_codec_name_spec, from_hex_spec, Color, Format};
use crate::grammar::parser::is_whitespace;
use crate::interactivity::{interactivity_none, Interactivity};
use crate::snbt::events::{parse_click, parse_hover};
use crate::snbt::object::{parse_player, parse_scoreboard, required, skip_ws, ws_end};
use crate::snbt::scalar::{as_i32, bool_spec, is_numeric, num_i32, num_spec, parse_bool, parse_num, parse_string, string_from};
use crate::translation::{Args, TranslatedMessage};

verus! {

pub const BODY_EMPTY: u32 = 45;
pub const BODY_BAD_START: u32 = 65;
pub const LIST_BAD_FIRST: u32 = 71;
pub const LIST_BAD_CHAR: u32 = 84;
pub const LIST_UNCLOSED: u32 = 87;
pub const COMPOUND_NO_VALUE: u32 = 150;
pub const COMPOUND_BAD_CHAR: u32 = 166;
pub const COMPOUND_UNCLOSED: u32 = 169;

/// Whether the channel arithmetic may be called on any text.
pub open spec fn channel_ok<F: Fn(Vec<char>) -> Option<u32>>(channel: &F) -> bool {
    forall|t: Vec<char>| #[trigger] channel.requires((t,))
}

impl TextComponent {
    /// Parses a component from SNBT; `channel` turns a shadow color's channel fraction
    /// into its 0–255 value.
    pub fn from_snbt_with<F: Fn(Vec<char>) -> Option<u32>>(string: &str, channel: &F) -> (r: Result<TextComponent, SnbtError>)
        requires
            channel_ok(channel),
        ensures
            ({
                let s = string@;
                let k = ws_end(s, 0);
                &&& k == s.len() ==> (r matches Err(SnbtError::EndedAbruptely(n)) && n == BODY_EMPTY)
                &&& k < s.len() && (s[k] == '"' || s[k] == '\'') ==> match string_from(s, k + 1, s[k], Seq::empty()) {
                    Ok((t, _)) => r matches Ok(c) && c.content matches Content::Text { text } && text@ == t
                        && bare(c, c.content),
                    Err(e) => r matches Err(x) && x@ == e,
                }
                &&& k < s.len() && !(s[k] == '"' || s[k] == '\'' || s[k] == '[' || s[k] == '{')
                    ==> (r matches Err(SnbtError::EndedAbruptely(n)) && n == BODY_BAD_START)
                &&& k < s.len() && s[k] == '{' ==> (text_compound(s, k + 1) matches Some((t, _)) ==> (r matches Ok(c)
                    && (c.content matches Content::Text { text } && text@ == t) && bare(c, c.content)))
            }),
    {
        let cs = chars_of(string);
        match parse_any(cs.as_slice(), 0, channel) {
            Ok((c, _)) => Ok(c),
            Err(e) => Err(e),
        }
    }
}

/// A component starting at the first char from `pos` on that is not whitespace.
fn parse_any<F: Fn(Vec<char>) -> Option<u32>>(cs: &[char], pos: usize, channel: &F) -> (r: Result<(TextComponent, usize), SnbtError>)
    requires
        pos <= cs@.len(),
        channel_ok(channel),
    ensures
        r matches Ok((_, p)) ==> pos < p <= cs@.len(),
        ({
            let k = ws_end(cs@, pos as int);
            &&& k == cs@.len() ==> (r matches Err(SnbtError::EndedAbruptely(n)) && n == BODY_EMPTY)
            &&& k < cs@.len() && (cs@[k] == '"' || cs@[k] == '\'') ==> match string_from(cs@, k + 1, cs@[k], Seq::empty()) {
                Ok((t, q)) => r matches Ok((c, p)) && c.content matches Content::Text { text } && text@ == t
                    && bare(c, c.content),
                Err(e) => r matches Err(x) && x@ == e,
            }
            &&& k < cs@.len() && !(cs@[k] == '"' || cs@[k] == '\'' || cs@[k] == '[' || cs@[k] == '{')
                ==> (r matches Err(SnbtError::EndedAbruptely(n)) && n == BODY_BAD_START)
            &&& k < cs@.len() && cs@[k] == '{' ==> (text_compound(cs@, k + 1) matches Some((t, q)) ==> (r matches Ok((c, p))
                && (c.content matches Content::Text { text } && text@ == t) && bare(c, c.content)))
        }),
    decreases cs@.len() - pos, 1nat,
{
    let k = skip_ws(cs, pos);
    if k >= cs.len() {
        return Err(SnbtError::EndedAbruptely(BODY_EMPTY));
    }
    parse_value(cs[k], cs, k + 1, channel)
}

/// A component whose first char `first` is already read: a quoted string is plain text,
/// a list is its first component with the rest as children, a compound is read whole.
pub(crate) fn parse_value<F: Fn(Vec<char>) -> Option<u32>>(first: char, cs: &[char], pos: usize, channel: &F) -> (r: Result<(TextComponent, usize), SnbtError>)
    requires
        pos <= cs@.len(),
        channel_ok(channel),
    ensures
        r matches Ok((_, p)) ==> pos <= p <= cs@.len(),
        (first == '"' || first == '\'') ==> match string_from(cs@, pos as int, first, Seq::empty()) {
            Ok((t, q)) => r matches Ok((c, p)) && c.content matches Content::Text { text } && text@ == t
                && bare(c, c.content) && p == q,
            Err(e) => r matches Err(x) && x@ == e,
        },
        !(first == '"' || first == '\'' || first == '[' || first == '{')
            ==> (r matches Err(SnbtError::EndedAbruptely(n)) && n == BODY_BAD_START),
        first == '{' ==> (text_compound(cs@, pos as int) matches Some((t, q)) ==> (r matches Ok((c, p)) && p == q
            && (c.content matches Content::Text { text } && text@ == t) && bare(c, c.content))),
    decreases cs@.len() - pos, 3nat,
{
    if first == '"' || first == '\'' {
        return match parse_string(cs, pos, first) {
            Ok((s, q)) => Ok((TextComponent::plain(s), q)),
            Err(e) => Err(e),
        };
    }
    if first == '[' {
        let (mut components, q) = match parse_vec(cs, pos, channel) {
            Ok(x) => x,
            Err(e) => {
                return Err(e);
            },
        };
        if components.len() == 0 {
            return Err(required("Lists", "at least one component"));
        }
        let mut head = components.remove(0);
        head.children.append(&mut components);
        return Ok((head, q));
    }
    if first == '{' {
        return parse_compound(cs, pos, channel);
    }
    Err(SnbtError::EndedAbruptely(BODY_BAD_START))
}

/// The components of a list whose opening bracket is already read.
fn parse_vec<F: Fn(Vec<char>) -> Option<u32>>(cs: &[char], pos: usize, channel: &F) -> (r: Result<(Vec<TextComponent>, usize), SnbtError>)
    requires
        pos <= cs@.len(),
        channel_ok(channel),
    ensures
        r matches Ok((v, p)) ==> pos < p <= cs@.len() && v@.len() > 0,
    decreases cs@.len() - pos, 2nat,
{
    let mut components: Vec<TextComponent> = Vec::new();
    let (child, q) = match parse_any(cs, pos, channel) {
        Ok(x) => x,
        Err(_) => {
            return Err(SnbtError::UnfinishedComponent(LIST_BAD_FIRST));
        },
    };
    components.push(child);
    let mut i = q;
    while i < cs.len()
        invariant
            pos < i <= cs@.len(),
            components@.len() > 0,
            channel_ok(channel),
        decreases cs@.len() - i,
    {
        let c = cs[i];
        i = i + 1;
        if is_whitespace(c) {
            continue;
        }
        if c == ']' {
            return Ok((components, i));
        } else if c == ',' {
            let (child, q) = match parse_any(cs, i, channel) {
                Ok(x) => x,
                Err(e) => {
                    return Err(e);
                },
            };
            components.push(child);
            i = q;
        } else {
            return Err(SnbtError::UnfinishedComponent(LIST_BAD_CHAR));
        }
    }
    Err(SnbtError::EndedAbruptely(LIST_UNCLOSED))
}

/// The parts of a compound's content gathered while its entries are read; which one
/// becomes the content is decided at the closing brace.
struct Parts {
    /// The `type` discriminator.
    kind: Vec<char>,
    /// The `object` discriminator.
    object: Vec<char>,
    /// The `source` of NBT content.
    nbt: Vec<char>,
    text: Option<String>,
    translate: Option<TranslatedMessage>,
    score: Option<Content>,
    entity: Option<(String, Option<Box<TextComponent>>)>,
    keybind: Option<String>,
    nbt_content: Option<(String, bool, Option<Box<TextComponent>>)>,
    atlas: Option<(String, String)>,
    player: Option<(ObjectPlayer, bool)>,
    entity_source: Option<String>,
    block_source: Option<String>,
    storage_source: Option<String>,
}

/// The keys that set a component's content.
pub open spec fn content_key(k: Seq<char>) -> bool {
    ||| k == "type"@ || k == "text"@ || k == "translate"@ || k == "fallback"@ || k == "with"@
    ||| k == "score"@ || k == "selector"@ || k == "separator"@ || k == "keybind"@ || k == "source"@
    ||| k == "nbt"@ || k == "interpret"@ || k == "entity"@ || k == "block"@ || k == "storage"@
    ||| k == "object"@ || k == "atlas"@ || k == "sprite"@ || k == "player"@ || k == "hat"@
}

/// The content keys are distinct words.
proof fn lemma_content_keys()
    ensures
        "type"@ != "text"@, "type"@ != "with"@, "text"@ != "with"@,
        "translate"@ != "separator"@, "translate"@ != "interpret"@, "separator"@ != "interpret"@,
        "fallback"@ != "selector"@,
        "score"@ != "block"@, "score"@ != "atlas"@, "block"@ != "atlas"@,
        "keybind"@ != "storage"@,
        "source"@ != "entity"@, "source"@ != "object"@, "source"@ != "sprite"@, "source"@ != "player"@,
        "entity"@ != "object"@, "entity"@ != "sprite"@, "entity"@ != "player"@,
        "object"@ != "sprite"@, "object"@ != "player"@, "sprite"@ != "player"@,
        "nbt"@ != "hat"@,
        "type"@.len() == 4, "text"@.len() == 4, "with"@.len() == 4, "translate"@.len() == 9,
        "separator"@.len() == 9, "interpret"@.len() == 9, "fallback"@.len() == 8, "selector"@.len() == 8,
        "score"@.len() == 5, "block"@.len() == 5, "atlas"@.len() == 5, "keybind"@.len() == 7,
        "storage"@.len() == 7, "source"@.len() == 6, "entity"@.len() == 6, "object"@.len() == 6,
        "sprite"@.len() == 6, "player"@.len() == 6, "nbt"@.len() == 3, "hat"@.len() == 3,
{
    reveal_strlit("type"); reveal_strlit("text"); reveal_strlit("with"); reveal_strlit("translate");
    reveal_strlit("separator"); reveal_strlit("interpret"); reveal_strlit("fallback"); reveal_strlit("selector");
    reveal_strlit("score"); reveal_strlit("block"); reveal_strlit("atlas"); reveal_strlit("keybind");
    reveal_strlit("storage"); reveal_strlit("source"); reveal_strlit("entity"); reveal_strlit("object");
    reveal_strlit("sprite"); reveal_strlit("player"); reveal_strlit("nbt"); reveal_strlit("hat");
    assert("type"@[1] != "text"@[1]);
    assert("type"@[0] != "with"@[0]);
    assert("text"@[0] != "with"@[0]);
    assert("translate"@[0] != "separator"@[0]);
    assert("translate"@[0] != "interpret"@[0]);
    assert("separator"@[0] != "interpret"@[0]);
    assert("fallback"@[0] != "selector"@[0]);
    assert("score"@[0] != "block"@[0]);
    assert("score"@[0] != "atlas"@[0]);
    assert("block"@[0] != "atlas"@[0]);
    assert("keybind"@[0] != "storage"@[0]);
    assert("source"@[0] != "entity"@[0]);
    assert("source"@[0] != "object"@[0]);
    assert("source"@[1] != "sprite"@[1]);
    assert("source"@[0] != "player"@[0]);
    assert("entity"@[0] != "object"@[0]);
    assert("entity"@[0] != "sprite"@[0]);
    assert("entity"@[0] != "player"@[0]);
    assert("object"@[0] != "sprite"@[0]);
    assert("object"@[0] != "player"@[0]);
    assert("sprite"@[0] != "player"@[0]);
    assert("nbt"@[0] != "hat"@[0]);
}

/// The keys a format sets.
pub open spec fn flag_key(k: Seq<char>) -> bool {
    k == "bold"@ || k == "italic"@ || k == "underlined"@ || k == "strikethrough"@ || k == "obfuscated"@
}

pub open spec fn format_key(k: Seq<char>) -> bool {
    k == "color"@ || k == "font"@ || flag_key(k) || k == "shadow_color"@
}

/// A format with one flag set.
pub open spec fn set_flag(f: Format, k: Seq<char>, b: bool) -> Format {
    if k == "bold"@ {
        Format { bold: Some(b), ..f }
    } else if k == "italic"@ {
        Format { italic: Some(b), ..f }
    } else if k == "underlined"@ {
        Format { underlined: Some(b), ..f }
    } else if k == "strikethrough"@ {
        Format { strikethrough: Some(b), ..f }
    } else {
        Format { obfuscated: Some(b), ..f }
    }
}

/// The color a text names: a codec name, else a hex color.
pub open spec fn color_named(t: Seq<char>) -> Option<Color> {
    match from_codec_name_spec(t) {
        Some(c) => Some(c),
        None => from_hex_spec(t),
    }
}

fn is_quote(c: char) -> (r: bool)
    ensures
        r == (c == '"' || c == '\''),
{
    c == '"' || c == '\''
}

fn wrong(name: &[char]) -> (r: SnbtError)
    ensures
        r@ == SnbtErrorV::WrongContentType(name@),
{
    SnbtError::WrongContentType(crate::chars::string_of(name))
}

/// What a quoted value reads as: a string when it starts with a quote, else a wrong-type
/// error naming the key.
pub open spec fn quoted_spec(name: Seq<char>, first: char, cs: Seq<char>, pos: int) -> Result<(Seq<char>, int), SnbtErrorV> {
    if first == '"' || first == '\'' {
        string_from(cs, pos, first, Seq::empty())
    } else {
        Err(SnbtErrorV::WrongContentType(name))
    }
}

/// A quoted string whose opening quote is `first`, or a wrong-type error naming the key.
fn quoted(name: &[char], first: char, cs: &[char], pos: usize) -> (r: Result<(String, usize), SnbtError>)
    requires
        pos <= cs@.len(),
    ensures
        r matches Ok((_, p)) ==> pos < p <= cs@.len(),
        match quoted_spec(name@, first, cs@, pos as int) {
            Ok((t, q)) => r matches Ok((s, p)) && s@ == t && p == q,
            Err(e) => r matches Err(x) && x@ == e,
        },
{
    if is_quote(first) {
        parse_string(cs, pos, first)
    } else {
        Err(wrong(name))
    }
}

/// What the translation, selector, NBT and object keys do to the parts read so far: each
/// sets its own field and keeps the fields it shares with other keys.
spec fn keys_effect(name: Seq<char>, first: char, cs: Seq<char>, pos: int, before: Parts, after: Parts, r: Result<Option<usize>, SnbtError>) -> bool {
    if name == "translate"@ {
        match quoted_spec(name, first, cs, pos) {
            Ok((t, q)) => (r matches Ok(Some(p)) && p == q) && after == (Parts { translate: after.translate, ..before })
                && (after.translate matches Some(m) && m.key@ == t
                && match before.translate {
                    Some(m0) => m.fallback == m0.fallback && m.args == m0.args,
                    None => m.fallback is None && m.args is Absent,
                }),
            Err(e) => r matches Err(x) && x@ == e,
        }
    } else if name == "fallback"@ {
        match quoted_spec(name, first, cs, pos) {
            Ok((t, q)) => (r matches Ok(Some(p)) && p == q) && after == (Parts { translate: after.translate, ..before })
                && (after.translate matches Some(m) && (m.fallback matches Some(f) && f@ == t)
                && match before.translate {
                    Some(m0) => m.key == m0.key && m.args == m0.args,
                    None => m.key@.len() == 0 && m.args is Absent,
                }),
            Err(e) => r matches Err(x) && x@ == e,
        }
    } else if name == "selector"@ {
        match quoted_spec(name, first, cs, pos) {
            Ok((t, q)) => (r matches Ok(Some(p)) && p == q) && after == (Parts { entity: after.entity, ..before })
                && (after.entity matches Some((sel, sep)) && sel@ == t
                && sep == match before.entity { Some((_, s0)) => s0, None => None }),
            Err(e) => r matches Err(x) && x@ == e,
        }
    } else if name == "nbt"@ {
        match quoted_spec(name, first, cs, pos) {
            Ok((t, q)) => (r matches Ok(Some(p)) && p == q) && after == (Parts { nbt_content: after.nbt_content, ..before })
                && (after.nbt_content matches Some((path, interpret, sep)) && path@ == t
                && match before.nbt_content {
                    Some((_, i0, s0)) => interpret == i0 && sep == s0,
                    None => !interpret && sep is None,
                }),
            Err(e) => r matches Err(x) && x@ == e,
        }
    } else if name == "interpret"@ {
        match bool_spec(first, cs, pos, "interpret"@) {
            Ok((b, q)) => (r matches Ok(Some(p)) && p == q) && after == (Parts { nbt_content: after.nbt_content, ..before })
                && (after.nbt_content matches Some((path, interpret, sep)) && interpret == b
                && match before.nbt_content {
                    Some((p0, _, s0)) => path == p0 && sep == s0,
                    None => path@ == "-None-"@ && sep is None,
                }),
            Err(e) => r matches Err(x) && x@ == e,
        }
    } else if name == "object"@ {
        match quoted_spec(name, first, cs, pos) {
            Ok((t, q)) => if t == "player"@ || t == "atlas"@ {
                (r matches Ok(Some(p)) && p == q) && after == (Parts { object: after.object, ..before }) && after.object@ == t
            } else {
                r matches Err(x) && x@ == SnbtErrorV::UnknownKey(t)
            },
            Err(e) => r matches Err(x) && x@ == e,
        }
    } else if name == "source"@ {
        match quoted_spec(name, first, cs, pos) {
            Ok((t, q)) => if before.object@ == "block"@ || before.object@ == "entity"@ || before.object@ == "storage"@ {
                (r matches Ok(Some(p)) && p == q) && after == (Parts { nbt: after.nbt, ..before }) && after.nbt@ == t
            } else {
                r matches Err(x) && x@ == SnbtErrorV::UnknownKey(before.object@)
            },
            Err(e) => r matches Err(x) && x@ == e,
        }
    } else if name == "atlas"@ {
        match quoted_spec(name, first, cs, pos) {
            Ok((t, q)) => (r matches Ok(Some(p)) && p == q) && after == (Parts { atlas: after.atlas, ..before })
                && (after.atlas matches Some((a, sp)) && a@ == t
                && match before.atlas { Some((_, s0)) => sp == s0, None => sp@ == "-None-"@ }),
            Err(e) => r matches Err(x) && x@ == e,
        }
    } else if name == "sprite"@ {
        match quoted_spec(name, first, cs, pos) {
            Ok((t, q)) => (r matches Ok(Some(p)) && p == q) && after == (Parts { atlas: after.atlas, ..before })
                && (after.atlas matches Some((a, sp)) && sp@ == t
                && match before.atlas { Some((a0, _)) => a == a0, None => a@ == "minecraft:blocks"@ }),
            Err(e) => r matches Err(x) && x@ == e,
        }
    } else if name == "with"@ {
        first != '[' ==> (r matches Err(x) && x@ == SnbtErrorV::WrongContentType(name))
    } else if name == "separator"@ {
        !(first == '"' || first == '\'') ==> (r matches Err(x) && x@ == SnbtErrorV::WrongContentType(name))
    } else {
        true
    }
}

/// A content entry: sets its part and gives the position after the value, or tells
/// that the key is not a content key.
fn match_content<F: Fn(Vec<char>) -> Option<u32>>(
    name: &[char],
    parts: &mut Parts,
    first: char,
    cs: &[char],
    pos: usize,
    channel: &F,
) -> (r: Result<Option<usize>, SnbtError>)
    requires
        pos <= cs@.len(),
        channel_ok(channel),
    ensures
        r matches Ok(Some(p)) ==> pos <= p <= cs@.len(),
        !content_key(name@) ==> (r matches Ok(None) && *final(parts) == *old(parts)),
        content_key(name@) ==> !(r matches Ok(None)),
        name@ == "type"@ ==> match quoted_spec(name@, first, cs@, pos as int) {
            Ok((t, q)) => r matches Ok(Some(p)) && p == q && final(parts).kind@ == t
                && *final(parts) == (Parts { kind: final(parts).kind, ..*old(parts) }),
            Err(e) => r matches Err(x) && x@ == e,
        },
        name@ == "text"@ ==> match quoted_spec(name@, first, cs@, pos as int) {
            Ok((t, q)) => r matches Ok(Some(p)) && p == q && (final(parts).text matches Some(x) && x@ == t)
                && *final(parts) == (Parts { text: final(parts).text, ..*old(parts) }),
            Err(e) => r matches Err(x) && x@ == e,
        },
        name@ == "keybind"@ ==> match quoted_spec(name@, first, cs@, pos as int) {
            Ok((t, q)) => r matches Ok(Some(p)) && p == q && (final(parts).keybind matches Some(x) && x@ == t)
                && *final(parts) == (Parts { keybind: final(parts).keybind, ..*old(parts) }),
            Err(e) => r matches Err(x) && x@ == e,
        },
        name@ == "entity"@ ==> match quoted_spec(name@, first, cs@, pos as int) {
            Ok((t, q)) => r matches Ok(Some(p)) && p == q && (final(parts).entity_source matches Some(x) && x@ == t)
                && *final(parts) == (Parts { entity_source: final(parts).entity_source, ..*old(parts) }),
            Err(e) => r matches Err(x) && x@ == e,
        },
        name@ == "block"@ ==> match quoted_spec(name@, first, cs@, pos as int) {
            Ok((t, q)) => r matches Ok(Some(p)) && p == q && (final(parts).block_source matches Some(x) && x@ == t)
                && *final(parts) == (Parts { block_source: final(parts).block_source, ..*old(parts) }),
            Err(e) => r matches Err(x) && x@ == e,
        },
        name@ == "storage"@ ==> match quoted_spec(name@, first, cs@, pos as int) {
            Ok((t, q)) => r matches Ok(Some(p)) && p == q && (final(parts).storage_source matches Some(x) && x@ == t)
                && *final(parts) == (Parts { storage_source: final(parts).storage_source, ..*old(parts) }),
            Err(e) => r matches Err(x) && x@ == e,
        },
        name@ == "hat"@ ==> (r matches Err(x) && x@ == SnbtErrorV::WrongContentType("hat"@)),
        keys_effect(name@, first, cs@, pos as int, *old(parts), *final(parts), r),
        name@ == "score"@ ==> r is Err,
        name@ == "player"@ ==> if first != '{' {
            r matches Err(x) && x@ == SnbtErrorV::WrongContentType(name@)
        } else {
            match crate::snbt::object::player_from(cs@, pos as int, None, None, None, Seq::empty(), Seq::empty(), true) {
                Ok((v, q)) => r matches Ok(Some(p)) && p == q
                    && (final(parts).player matches Some((pl, _)) && crate::nbt::model::player_view(pl) == v),
                Err(e) => r matches Err(x) && x@ == e,
            }
        },
    decreases cs@.len() - pos, 4nat,
{
    proof {
        lemma_content_keys();
    }
    if eq_lit(name, "type") {
        let (s, q) = match quoted(name, first, cs, pos) {
            Ok(x) => x,
            Err(e) => {
                return Err(e);
            },
        };
        parts.kind = chars_of(s.as_str());
        Ok(Some(q))
    } else if eq_lit(name, "text") {
        let (s, q) = match quoted(name, first, cs, pos) {
            Ok(x) => x,
            Err(e) => {
                return Err(e);
            },
        };
        parts.text = Some(s);
        Ok(Some(q))
    } else if eq_lit(name, "translate") {
        let (s, q) = match quoted(name, first, cs, pos) {
            Ok(x) => x,
            Err(e) => {
                return Err(e);
            },
        };
        parts.translate = match parts.translate.take() {
            Some(m) => Some(TranslatedMessage { key: s, fallback: m.fallback, args: m.args }),
            None => Some(TranslatedMessage { key: s, fallback: None, args: Args::Absent }),
        };
        Ok(Some(q))
    } else if eq_lit(name, "fallback") {
        let (s, q) = match quoted(name, first, cs, pos) {
            Ok(x) => x,
            Err(e) => {
                return Err(e);
            },
        };
        parts.translate = match parts.translate.take() {
            Some(m) => Some(TranslatedMessage { key: m.key, fallback: Some(s), args: m.args }),
            None => Some(TranslatedMessage { key: String::new(), fallback: Some(s), args: Args::Absent }),
        };
        Ok(Some(q))
    } else if eq_lit(name, "with") {
        if first != '[' {
            return Err(wrong(name));
        }
        let (v, q) = match parse_vec(cs, pos, channel) {
            Ok(x) => x,
            Err(e) => {
                return Err(e);
            },
        };
        parts.translate = match parts.translate.take() {
            Some(m) => Some(TranslatedMessage { key: m.key, fallback: m.fallback, args: Args::Owned(v) }),
            None => Some(TranslatedMessage { key: String::new(), fallback: None, args: Args::Owned(v) }),
        };
        Ok(Some(q))
    } else if eq_lit(name, "score") {
        // a score is read and kept, yet the key itself is refused
        if first == '{' {
            let (score, _) = match parse_scoreboard(cs, pos) {
                Ok(x) => x,
                Err(e) => {
                    return Err(e);
                },
            };
            parts.score = Some(score);
        }
        Err(wrong(name))
    } else if eq_lit(name, "selector") {
        let (s, q) = match quoted(name, first, cs, pos) {
            Ok(x) => x,
            Err(e) => {
                return Err(e);
            },
        };
        parts.entity = match parts.entity.take() {
            Some((_, separator)) => Some((s, separator)),
            None => Some((s, None)),
        };
        Ok(Some(q))
    } else if eq_lit(name, "separator") {
        if !is_quote(first) {
            return Err(wrong(name));
        }
        // the entity and the NBT content each read a separator of their own, one after
        // the other
        let (a, q) = match parse_value(first, cs, pos, channel) {
            Ok(x) => x,
            Err(e) => {
                return Err(e);
            },
        };
        parts.entity = match parts.entity.take() {
            Some((selector, _)) => Some((selector, Some(Box::new(a)))),
            None => Some(("-None-".to_owned(), Some(Box::new(a)))),
        };
        let (b, q2) = match parse_value(first, cs, q, channel) {
            Ok(x) => x,
            Err(e) => {
                return Err(e);
            },
        };
        parts.nbt_content = match parts.nbt_content.take() {
            Some((path, interpret, _)) => Some((path, interpret, Some(Box::new(b)))),
            None => Some(("-None-".to_owned(), false, Some(Box::new(b)))),
        };
        Ok(Some(q2))
    } else if eq_lit(name, "keybind") {
        let (s, q) = match quoted(name, first, cs, pos) {
            Ok(x) => x,
            Err(e) => {
                return Err(e);
            },
        };
        parts.keybind = Some(s);
        Ok(Some(q))
    } else if eq_lit(name, "source") {
        let (s, q) = match quoted(name, first, cs, pos) {
            Ok(x) => x,
            Err(e) => {
                return Err(e);
            },
        };
        parts.nbt = chars_of(s.as_str());
        let o = parts.object.as_slice();
        if eq_lit(o, "block") || eq_lit(o, "entity") || eq_lit(o, "storage") {
            Ok(Some(q))
        } else {
            Err(SnbtError::UnknownKey(crate::chars::string_of(o)))
        }
    } else if eq_lit(name, "nbt") {
        let (s, q) = match quoted(name, first, cs, pos) {
            Ok(x) => x,
            Err(e) => {
                return Err(e);
            },
        };
        parts.nbt_content = match parts.nbt_content.take() {
            Some((_, interpret, separator)) => Some((s, interpret, separator)),
            None => Some((s, false, None)),
        };
        Ok(Some(q))
    } else if eq_lit(name, "interpret") {
        let (b, q) = match parse_bool(first, cs, pos, "interpret") {
            Ok(x) => x,
            Err(e) => {
                return Err(e);
            },
        };
        parts.nbt_content = match parts.nbt_content.take() {
            Some((path, _, separator)) => Some((path, b, separator)),
            None => Some(("-None-".to_owned(), b, None)),
        };
        Ok(Some(q))
    } else if eq_lit(name, "entity") {
        let (s, q) = match quoted(name, first, cs, pos) {
            Ok(x) => x,
            Err(e) => {
                return Err(e);
            },
        };
        parts.entity_source = Some(s);
        Ok(Some(q))
    } else if eq_lit(name, "block") {
        let (s, q) = match quoted(name, first, cs, pos) {
            Ok(x) => x,
            Err(e) => {
                return Err(e);
            },
        };
        parts.block_source = Some(s);
        Ok(Some(q))
    } else if eq_lit(name, "storage") {
        let (s, q) = match quoted(name, first, cs, pos) {
            Ok(x) => x,
            Err(e) => {
                return Err(e);
            },
        };
        parts.storage_source = Some(s);
        Ok(Some(q))
    } else if eq_lit(name, "object") {
        let (s, q) = match quoted(name, first, cs, pos) {
            Ok(x) => x,
            Err(e) => {
                return Err(e);
            },
        };
        parts.object = chars_of(s.as_str());
        let o = parts.object.as_slice();
        if eq_lit(o, "player") || eq_lit(o, "atlas") {
            Ok(Some(q))
        } else {
            Err(SnbtError::UnknownKey(s))
        }
    } else if eq_lit(name, "atlas") {
        let (s, q) = match quoted(name, first, cs, pos) {
            Ok(x) => x,
            Err(e) => {
                return Err(e);
            },
        };
        parts.atlas = match parts.atlas.take() {
            Some((_, sprite)) => Some((s, sprite)),
            None => Some((s, "-None-".to_owned())),
        };
        Ok(Some(q))
    } else if eq_lit(name, "sprite") {
        let (s, q) = match quoted(name, first, cs, pos) {
            Ok(x) => x,
            Err(e) => {
                return Err(e);
            },
        };
        parts.atlas = match parts.atlas.take() {
            Some((atlas, _)) => Some((atlas, s)),
            None => Some(("minecraft:blocks".to_owned(), s)),
        };
        Ok(Some(q))
    } else if eq_lit(name, "player") {
        if first != '{' {
            return Err(wrong(name));
        }
        let (p, q) = match parse_player(cs, pos) {
            Ok(x) => x,
            Err(e) => {
                return Err(e);
            },
        };
        parts.player = match parts.player.take() {
            Some((_, hat)) => Some((p, hat)),
            None => Some((p, true)),
        };
        Ok(Some(q))
    } else if eq_lit(name, "hat") {
        // a hat flag after a brace is read as a boolean, which a brace never starts
        Err(SnbtError::WrongContentType("hat".to_owned()))
    } else {
        Ok(None)
    }
}

/// Whether the `n`-th content part is the one the discriminators ask for.
fn wanted(which: Option<usize>, n: usize) -> (r: bool)
    ensures
        r == (which is None || which == Some(n)),
{
    match which {
        Some(w) => w == n,
        None => true,
    }
}

/// The content a compound's parts make: the one its `type` names, or else the first
/// part that is complete; an incomplete part's error stands when none is.
fn retrieve_content(parts: Parts) -> (r: Result<Content, SnbtError>)
    ensures
        parts.kind@.len() == 0 && parts.text is Some ==> r == Ok::<Content, SnbtError>(Content::Text { text: parts.text->0 }),
{
    proof {
        reveal_strlit("text");
        reveal_strlit("translatable");
        reveal_strlit("score");
        reveal_strlit("selector");
        reveal_strlit("keybind");
        reveal_strlit("nbt");
        reveal_strlit("object");
        assert("text"@.len() > 0 && "translatable"@.len() > 0 && "score"@.len() > 0 && "selector"@.len() > 0);
        assert("keybind"@.len() > 0 && "nbt"@.len() > 0 && "object"@.len() > 0);
    }
    let k = parts.kind.as_slice();
    let o_player = eq_lit(parts.object.as_slice(), "player");
    let which: Option<usize> = if eq_lit(k, "text") {
        Some(0)
    } else if eq_lit(k, "translatable") {
        Some(1)
    } else if eq_lit(k, "score") {
        Some(2)
    } else if eq_lit(k, "selector") {
        Some(3)
    } else if eq_lit(k, "keybind") {
        Some(4)
    } else if eq_lit(k, "nbt") {
        Some(5)
    } else if eq_lit(k, "object") {
        if o_player {
            Some(7)
        } else {
            Some(6)
        }
    } else if k.len() == 0 {
        None
    } else {
        return Err(SnbtError::UnknownKey(crate::chars::string_of(k)));
    };
    let mut error = SnbtError::MissingContent;
    if wanted(which, 0) {
        if let Some(text) = parts.text {
            return Ok(Content::Text { text });
        }
    }
    if wanted(which, 1) {
        if let Some(m) = parts.translate {
            if chars_of(m.key.as_str()).len() > 0 {
                return Ok(Content::Translate(m));
            }
            error = required("Translations", "key");
        }
    }
    if wanted(which, 2) {
        if let Some(score) = parts.score {
            return Ok(score);
        }
    }
    if wanted(which, 3) {
        if let Some((selector, separator)) = parts.entity {
            if !eq_lit(chars_of(selector.as_str()).as_slice(), "-None-") {
                return Ok(Content::Resolvable(Resolvable::Entity { selector, separator }));
            }
            error = required("Entities", "selector");
        }
    }
    if wanted(which, 4) {
        if let Some(keybind) = parts.keybind {
            return Ok(Content::Keybind { keybind });
        }
    }
    if wanted(which, 5) {
        if let Some((path, interpret, separator)) = parts.nbt_content {
            let n = parts.nbt.as_slice();
            let source = if eq_lit(n, "entity") {
                match parts.entity_source {
                    Some(s) => Ok(NbtSource::Entity(s)),
                    None => Err(required("Nbt", "entity")),
                }
            } else if eq_lit(n, "block") {
                match parts.block_source {
                    Some(s) => Ok(NbtSource::Block(s)),
                    None => Err(required("Nbt", "block")),
                }
            } else if eq_lit(n, "storage") {
                match parts.storage_source {
                    Some(s) => Ok(NbtSource::Storage(s)),
                    None => Err(required("Nbt", "storage")),
                }
            } else {
                match (parts.entity_source, parts.block_source, parts.storage_source) {
                    (Some(s), _, _) => Ok(NbtSource::Entity(s)),
                    (None, Some(s), _) => Ok(NbtSource::Block(s)),
                    (None, None, Some(s)) => Ok(NbtSource::Storage(s)),
                    (None, None, None) => Ok(NbtSource::Block(String::new())),
                }
            };
            match source {
                Ok(source) => {
                    if !eq_lit(chars_of(path.as_str()).as_slice(), "-None-") {
                        return Ok(Content::Resolvable(Resolvable::NBT { path, interpret, plain: false, separator, source }));
                    }
                    error = required("Nbt", "entity, \"block, or \"storage");
                },
                Err(e) => {
                    error = e;
                },
            }
        }
    }
    if wanted(which, 6) && !o_player {
        if let Some((atlas, sprite)) = parts.atlas {
            if !eq_lit(chars_of(sprite.as_str()).as_slice(), "-None-") {
                return Ok(Content::Object(Object::Atlas { atlas, sprite, fallback: None }));
            }
            error = required("Atlas object", "sprite");
        }
    }
    if wanted(which, 7) {
        if let Some((player, hat)) = parts.player {
            if !player.is_empty() {
                return Ok(Content::Object(Object::Player { player: Box::new(player), hat, fallback: None }));
            }
            error = required("Player object", "player");
        }
    }
    Err(error)
}

/// The channel texts of a shadow color list from position `i` on, with the texts done and
/// the one being read: the texts between commas, each keeping only its numeric chars and
/// points, up to the closing bracket (the position after it) or the end of the text.
pub open spec fn shadow_texts_from(cs: Seq<char>, i: int, done: Seq<Seq<char>>, num: Seq<char>) -> (Seq<Seq<char>>, int)
    decreases cs.len() - i,
{
    if i < 0 || i >= cs.len() {
        (done, i)
    } else {
        let c = cs[i];
        if c == ']' {
            (done.push(num), i + 1)
        } else if crate::grammar::parser::is_whitespace_spec(c) {
            shadow_texts_from(cs, i + 1, done, num)
        } else {
            let done2 = if c == ',' { done.push(num) } else { done };
            let num2 = if c == ',' { Seq::empty() } else { num };
            let num3 = if crate::snbt::scalar::numeric_char(c) || c == '.' { num2.push(c) } else { num2 };
            shadow_texts_from(cs, i + 1, done2, num3)
        }
    }
}

/// The channel texts of a shadow color list whose opening bracket is at `pos - 1`.
pub open spec fn shadow_list(cs: Seq<char>, pos: int) -> Seq<Seq<char>> {
    shadow_texts_from(cs, pos, Seq::empty(), Seq::empty()).0
}

/// The four channel fractions of a shadow color list whose opening bracket is already
/// read: the texts between commas, each keeping only its numeric chars and points, up to
/// the closing bracket or the end of the text.
fn shadow_texts(cs: &[char], pos: usize) -> (r: (Vec<Vec<char>>, usize))
    requires
        pos <= cs@.len(),
    ensures
        pos <= r.1 <= cs@.len(),
        r.0@.len() == shadow_list(cs@, pos as int).len(),
        forall|k: int| 0 <= k < r.0@.len() ==> (#[trigger] r.0@[k])@ == shadow_list(cs@, pos as int)[k],
{
    let mut nums: Vec<Vec<char>> = Vec::new();
    let mut num: Vec<char> = Vec::new();
    let mut i = pos;
    let ghost goal = shadow_texts_from(cs@, pos as int, Seq::empty(), Seq::empty());
    assert(nums@.map_values(|v: Vec<char>| v@) =~= Seq::<Seq<char>>::empty());
    assert(num@ =~= Seq::<char>::empty());
    while i < cs.len()
        invariant
            pos <= i <= cs@.len(),
            goal == shadow_texts_from(cs@, pos as int, Seq::empty(), Seq::empty()),
            goal == shadow_texts_from(cs@, i as int, nums@.map_values(|v: Vec<char>| v@), num@),
        decreases cs@.len() - i,
    {
        let c = cs[i];
        let ghost done = nums@.map_values(|v: Vec<char>| v@);
        let ghost n0 = num@;
        i = i + 1;
        if c == ']' {
            nums.push(num);
            proof {
                assert(nums@.map_values(|v: Vec<char>| v@) =~= done.push(n0));
            }
            return (nums, i);
        }
        if is_whitespace(c) {
            continue;
        }
        if c == ',' {
            nums.push(num);
            num = Vec::new();
            proof {
                assert(nums@.map_values(|v: Vec<char>| v@) =~= done.push(n0));
            }
        }
        if is_numeric(c) || c == '.' {
            num.push(c);
        }
    }
    (nums, i)
}

/// A shadow's four channels packed as the codec stores them: alpha in the top byte, then
/// red, green and blue, each shifted into place and added with wrapping.
pub open spec fn shadow_pack(a: u32, r: u32, g: u32, b: u32) -> u32 {
    vstd::wrapping::u32_specs::wrapping_add(
        vstd::wrapping::u32_specs::wrapping_add(
            vstd::wrapping::u32_specs::wrapping_add(a << 24u32, r << 16u32),
            g << 8u32,
        ),
        b,
    )
}

/// A shadow whose four channels are bytes reads back from its packed value byte by byte:
/// alpha from the top byte, then red, green and blue.
pub proof fn lemma_shadow_pack_bytes(a: u32, r: u32, g: u32, b: u32)
    requires
        a < 256,
        r < 256,
        g < 256,
        b < 256,
    ensures
        shadow_pack(a, r, g, b) >> 24u32 == a,
        (shadow_pack(a, r, g, b) >> 16u32) & 0xFFu32 == r,
        (shadow_pack(a, r, g, b) >> 8u32) & 0xFFu32 == g,
        shadow_pack(a, r, g, b) & 0xFFu32 == b,
        shadow_pack(a, r, g, b) as int == a * 0x100_0000 + r * 0x1_0000 + g * 0x100 + b,
{
    assert((a << 24u32) as int == a * 0x100_0000 && (r << 16u32) as int == r * 0x1_0000 && (g << 8u32) as int == g * 0x100) by (bit_vector)
        requires
            a < 256,
            r < 256,
            g < 256;
    let p = ((a * 0x100_0000 + r * 0x1_0000 + g * 0x100 + b) as int) as u32;
    assert(shadow_pack(a, r, g, b) == p);
    assert(p >> 24u32 == a && (p >> 16u32) & 0xFFu32 == r && (p >> 8u32) & 0xFFu32 == g && p & 0xFFu32 == b) by (bit_vector)
        requires
            a < 256,
            r < 256,
            g < 256,
            b < 256,
            p == ((a * 0x100_0000 + r * 0x1_0000 + g * 0x100 + b) as int) as u32;
}

/// `channel` gives `v` for a text whose chars are `t`.
pub open spec fn channel_read<F: Fn(Vec<char>) -> Option<u32>>(channel: &F, t: Seq<char>, v: u32) -> bool {
    exists|w: Vec<char>| w@ == t && #[trigger] channel.ensures((w,), Some(v))
}

/// What a shadow color list does: four channel texts, red, green, blue, alpha, each read by
/// `channel`, packed with alpha on top; any other count of texts is refused.
pub open spec fn shadow_list_read<F: Fn(Vec<char>) -> Option<u32>>(
    channel: &F,
    cs: Seq<char>,
    pos: int,
    before: Format,
    after: Format,
    r: Result<Option<usize>, SnbtError>,
) -> bool {
    let ts = shadow_list(cs, pos);
    &&& ts.len() != 4 ==> (r matches Err(x) && x@ == SnbtErrorV::WrongContentType("shadow_color"@))
    &&& r is Ok ==> ts.len() == 4 && exists|vs: Seq<u32>|
        #![trigger shadow_pack(vs[3], vs[0], vs[1], vs[2])]
        vs.len() == 4 && channel_read(channel, ts[0], vs[0]) && channel_read(channel, ts[1], vs[1])
        && channel_read(channel, ts[2], vs[2]) && channel_read(channel, ts[3], vs[3])
        && after == (Format { shadow_color: Some(shadow_pack(vs[3], vs[0], vs[1], vs[2]) as i32), ..before })
}

/// A formatting entry: sets its field and gives the position after the value, or tells
/// that the key is not a formatting key.
fn match_format<F: Fn(Vec<char>) -> Option<u32>>(
    name: &[char],
    format: &mut Format,
    first: char,
    cs: &[char],
    pos: usize,
    channel: &F,
) -> (r: Result<Option<usize>, SnbtError>)
    requires
        pos <= cs@.len(),
        channel_ok(channel),
    ensures
        r matches Ok(Some(p)) ==> pos <= p <= cs@.len(),
        !format_key(name@) ==> (r matches Ok(None) && *final(format) == *old(format)),
        format_key(name@) ==> !(r matches Ok(None)),
        name@ == "color"@ ==> if !(first == '"' || first == '\'') {
            r matches Err(x) && x@ == SnbtErrorV::WrongContentType("color"@)
        } else {
            match string_from(cs@, pos as int, first, Seq::empty()) {
                Ok((t, q)) => match color_named(t) {
                    Some(c) => r matches Ok(Some(p)) && p == q && *final(format) == (Format { color: Some(c), ..*old(format) }),
                    None => r matches Err(x) && x@ == SnbtErrorV::UnknownColor(t),
                },
                Err(e) => r matches Err(x) && x@ == e,
            }
        },
        name@ == "font"@ ==> if !(first == '"' || first == '\'') {
            r matches Err(x) && x@ == SnbtErrorV::WrongContentType("font"@)
        } else {
            match string_from(cs@, pos as int, first, Seq::empty()) {
                Ok((t, q)) => r matches Ok(Some(p)) && p == q && (final(format).font matches Some(f) && f@ == t)
                    && *final(format) == (Format { font: final(format).font, ..*old(format) }),
                Err(e) => r matches Err(x) && x@ == e,
            }
        },
        flag_key(name@) ==> match bool_spec(first, cs@, pos as int, name@) {
            Ok((b, q)) => r matches Ok(Some(p)) && p == q && *final(format) == set_flag(*old(format), name@, b),
            Err(e) => r matches Err(x) && x@ == e,
        },
        name@ == "shadow_color"@ && first != '[' ==> match num_spec(first, cs@, pos as int, "shadow_color"@) {
            Ok((n, q)) => r matches Ok(Some(p)) && p == q
                && *final(format) == (Format { shadow_color: Some(num_i32(n)), ..*old(format) }),
            Err(e) => r matches Err(x) && x@ == e,
        },
        name@ == "shadow_color"@ && first == '[' ==> (r is Ok ==> final(format).shadow_color is Some
            && *final(format) == (Format { shadow_color: final(format).shadow_color, ..*old(format) })),
        name@ == "shadow_color"@ && first == '[' ==> shadow_list_read(channel, cs@, pos as int, *old(format), *final(format), r),
{
    proof {
        reveal_strlit("color");
        reveal_strlit("font");
        reveal_strlit("bold");
        reveal_strlit("italic");
        reveal_strlit("underlined");
        reveal_strlit("strikethrough");
        reveal_strlit("obfuscated");
        reveal_strlit("shadow_color");
        assert("bold"@[0] != "font"@[0]);
        assert("font"@ != "bold"@);
        assert("underlined"@[0] != "obfuscated"@[0]);
        assert("underlined"@ != "obfuscated"@);
        assert("color"@.len() == 5 && "font"@.len() == 4 && "bold"@.len() == 4 && "italic"@.len() == 6);
        assert("underlined"@.len() == 10 && "strikethrough"@.len() == 13 && "obfuscated"@.len() == 10);
        assert("shadow_color"@.len() == 12);
    }
    if eq_lit(name, "color") {
        if !is_quote(first) {
            return Err(SnbtError::WrongContentType("color".to_owned()));
        }
        let (s, q) = match parse_string(cs, pos, first) {
            Ok(x) => x,
            Err(e) => {
                return Err(e);
            },
        };
        let color = match Color::from_codec_name(s.as_str()) {
            Some(c) => c,
            None => match Color::from_hex(s.as_str()) {
                Some(c) => c,
                None => {
                    return Err(SnbtError::UnknownColor(s));
                },
            },
        };
        format.color = Some(color);
        Ok(Some(q))
    } else if eq_lit(name, "font") {
        if !is_quote(first) {
            return Err(SnbtError::WrongContentType("font".to_owned()));
        }
        let (s, q) = match parse_string(cs, pos, first) {
            Ok(x) => x,
            Err(e) => {
                return Err(e);
            },
        };
        format.font = Some(s);
        Ok(Some(q))
    } else if eq_lit(name, "bold") || eq_lit(name, "italic") || eq_lit(name, "underlined")
        || eq_lit(name, "strikethrough") || eq_lit(name, "obfuscated") {
        let key = crate::chars::string_of(name);
        let (b, q) = match parse_bool(first, cs, pos, key.as_str()) {
            Ok(x) => x,
            Err(e) => {
                return Err(e);
            },
        };
        if eq_lit(name, "bold") {
            format.bold = Some(b);
        } else if eq_lit(name, "italic") {
            format.italic = Some(b);
        } else if eq_lit(name, "underlined") {
            format.underlined = Some(b);
        } else if eq_lit(name, "strikethrough") {
            format.strikethrough = Some(b);
        } else {
            format.obfuscated = Some(b);
        }
        Ok(Some(q))
    } else if eq_lit(name, "shadow_color") {
        if first == '[' {
            let (nums, q) = shadow_texts(cs, pos);
            let ghost ts = shadow_list(cs@, pos as int);
            if nums.len() != 4 {
                return Err(SnbtError::WrongContentType("shadow_color".to_owned()));
            }
            // alpha comes last in the list and first in the packed value
            let arg = nums[3].clone();
            assert(arg@ =~= ts[3]);
            let alpha = match channel(arg) {
                Some(v) => v,
                None => {
                    return Err(SnbtError::WrongContentType("shadow_color".to_owned()));
                },
            };
            assert(channel_read(channel, ts[3], alpha));
            let mut packed: u32 = alpha << 24u32;
            let ghost mut vs: Seq<u32> = Seq::empty();
            let mut k: usize = 0;
            while k < 3
                invariant
                    k <= 3,
                    nums@.len() == 4,
                    ts == shadow_list(cs@, pos as int),
                    ts.len() == 4,
                    forall|j: int| 0 <= j < 4 ==> (#[trigger] nums@[j])@ == ts[j],
                    channel_ok(channel),
                    name@ == "shadow_color"@,
                    first == '[',
                    *format == *old(format),
                    "shadow_color"@ != "color"@ && "shadow_color"@ != "font"@ && !flag_key("shadow_color"@),
                    channel_read(channel, ts[3], alpha),
                    vs.len() == k,
                    forall|j: int| 0 <= j < k ==> channel_read(channel, ts[j], #[trigger] vs[j]),
                    k == 0 ==> packed == alpha << 24u32,
                    k == 1 ==> packed == vstd::wrapping::u32_specs::wrapping_add(alpha << 24u32, vs[0] << 16u32),
                    k == 2 ==> packed == vstd::wrapping::u32_specs::wrapping_add(
                        vstd::wrapping::u32_specs::wrapping_add(alpha << 24u32, vs[0] << 16u32), vs[1] << 8u32),
                    k == 3 ==> packed == shadow_pack(alpha, vs[0], vs[1], vs[2]),
                decreases 3 - k,
            {
                let arg = nums[k].clone();
                assert(arg@ =~= ts[k as int]);
                let v = match channel(arg) {
                    Some(v) => v,
                    None => {
                        return Err(SnbtError::WrongContentType("shadow_color".to_owned()));
                    },
                };
                assert(channel_read(channel, ts[k as int], v));
                let shift: u32 = 16 - 8 * (k as u32);
                assert(v << 0u32 == v) by (bit_vector);
                packed = packed.wrapping_add(v << shift);
                proof {
                    vs = vs.push(v);
                }
                k = k + 1;
            }
            format.shadow_color = Some(packed as i32);
            assert(shadow_list_read(channel, cs@, pos as int, *old(format), *format, Ok::<Option<usize>, SnbtError>(Some(q)))) by {
                assert(vs.len() == 4 || vs.len() == 3);
                let ws = vs.push(alpha);
                assert(ws[3] == alpha && ws[0] == vs[0] && ws[1] == vs[1] && ws[2] == vs[2]);
            }
            Ok(Some(q))
        } else {
            let (n, q) = match parse_num(first, cs, pos, "shadow_color") {
                Ok(x) => x,
                Err(e) => {
                    return Err(e);
                },
            };
            format.shadow_color = Some(as_i32(&n));
            Ok(Some(q))
        }
    } else {
        Ok(None)
    }
}

/// An interaction entry: sets its event and gives the position after the value, or tells
/// that the key is not an interaction key. An insertion is always refused: it asks for a
/// first char that is both quotes at once.
fn match_interactions<F: Fn(Vec<char>) -> Option<u32>>(
    name: &[char],
    interactions: &mut Interactivity,
    first: char,
    cs: &[char],
    pos: usize,
    channel: &F,
) -> (r: Result<Option<usize>, SnbtError>)
    requires
        pos <= cs@.len(),
        channel_ok(channel),
    ensures
        r matches Ok(Some(p)) ==> pos <= p <= cs@.len(),
        !(name@ == "insertion"@ || name@ == "click_event"@ || name@ == "hover_event"@)
            ==> (r matches Ok(None) && *final(interactions) == *old(interactions)),
    decreases cs@.len() - pos, 4nat,
{
    if eq_lit(name, "insertion") {
        Err(SnbtError::WrongContentType("insertion".to_owned()))
    } else if eq_lit(name, "click_event") {
        if first != '{' {
            return Err(SnbtError::WrongContentType("click_event".to_owned()));
        }
        let (c, q) = match parse_click(cs, pos) {
            Ok(x) => x,
            Err(e) => {
                return Err(e);
            },
        };
        interactions.click = Some(c);
        Ok(Some(q))
    } else if eq_lit(name, "hover_event") {
        if first != '{' {
            return Err(SnbtError::WrongContentType("hover_event".to_owned()));
        }
        let (h, q) = match parse_hover(cs, pos, channel) {
            Ok(x) => x,
            Err(e) => {
                return Err(e);
            },
        };
        interactions.hover = Some(h);
        Ok(Some(q))
    } else {
        Ok(None)
    }
}

/// A compound, its opening brace already read, that holds only a `text` entry written
/// `text:` and a quoted string, then the closing brace: the text and the position after it.
pub open spec fn text_compound(cs: Seq<char>, pos: int) -> Option<(Seq<char>, int)> {
    if 0 <= pos && pos + 6 <= cs.len() && cs.subrange(pos, pos + 4) == "text"@ && cs[pos + 4] == ':'
        && (cs[pos + 5] == '"' || cs[pos + 5] == '\'') {
        match string_from(cs, pos + 6, cs[pos + 5], Seq::empty()) {
            Ok((t, q)) => if 0 <= q < cs.len() && cs[q] == '}' { Some((t, q + 1)) } else { None },
            Err(_) => None,
        }
    } else {
        None
    }
}

proof fn lemma_text_key()
    ensures
        "text"@ == seq!['t', 'e', 'x', 't'],
        !format_key("text"@),
        "text"@ != "extra"@,
        "text"@ != "insertion"@,
        "text"@ != "click_event"@,
        "text"@ != "hover_event"@,
{
    reveal_strlit("text");
    reveal_strlit("extra");
    reveal_strlit("insertion");
    reveal_strlit("click_event");
    reveal_strlit("hover_event");
    reveal_strlit("color");
    reveal_strlit("font");
    reveal_strlit("shadow_color");
    reveal_strlit("bold");
    reveal_strlit("italic");
    reveal_strlit("underlined");
    reveal_strlit("strikethrough");
    reveal_strlit("obfuscated");
    assert("text"@ =~= seq!['t', 'e', 'x', 't']);
    assert("font"@[0] == 'f');
    assert("bold"@[0] == 'b');
    assert("color"@.len() == 5);
    assert("extra"@.len() == 5);
    assert("italic"@.len() == 6);
    assert("underlined"@.len() == 10);
    assert("strikethrough"@.len() == 13);
    assert("obfuscated"@.len() == 10);
    assert("shadow_color"@.len() == 12);
    assert("insertion"@.len() == 9);
    assert("click_event"@.len() == 11);
    assert("hover_event"@.len() == 11);
}

/// A compound whose opening brace is already read: `key: value` entries up to the
/// closing brace, `extra` holding the children.
fn parse_compound<F: Fn(Vec<char>) -> Option<u32>>(cs: &[char], pos: usize, channel: &F) -> (r: Result<(TextComponent, usize), SnbtError>)
    requires
        pos <= cs@.len(),
        channel_ok(channel),
    ensures
        r matches Ok((_, p)) ==> pos < p <= cs@.len(),
        text_compound(cs@, pos as int) matches Some((t, p)) ==> (r matches Ok((c, e)) && e == p
            && (c.content matches Content::Text { text } && text@ == t) && bare(c, c.content)),
    decreases cs@.len() - pos, 2nat,
{
    proof {
        lemma_text_key();
    }
    let ghost sh = text_compound(cs@, pos as int);
    let mut parts = Parts {
        kind: Vec::new(),
        object: Vec::new(),
        nbt: Vec::new(),
        text: None,
        translate: None,
        score: None,
        entity: None,
        keybind: None,
        nbt_content: None,
        atlas: None,
        player: None,
        entity_source: None,
        block_source: None,
        storage_source: None,
    };
    let mut format = Format::new();
    let mut interactions = Interactivity::new();
    let mut children: Vec<TextComponent> = Vec::new();
    let mut name: Vec<char> = Vec::new();
    let mut in_name = true;
    let mut i = pos;
    let ghost fmt0 = format;
    let ghost int0 = interactions;
    assert(fmt0 == format_none());
    while i < cs.len()
        invariant
            pos <= i <= cs@.len(),
            channel_ok(channel),
            sh == text_compound(cs@, pos as int),
            "text"@ == seq!['t', 'e', 'x', 't'],
            !format_key("text"@),
            "text"@ != "extra"@,
            "text"@ != "insertion"@ && "text"@ != "click_event"@ && "text"@ != "hover_event"@,
            sh matches Some((t, p)) ==> format == format_none() && interactivity_none(interactions)
                && children@.len() == 0 && parts.kind@.len() == 0
                && ((pos <= i <= pos + 4 && in_name && name@ == cs@.subrange(pos as int, i as int) && parts.text is None)
                || (i == p - 1 && (parts.text matches Some(x) && x@ == t))),
        decreases cs@.len() - i,
    {
        let ghost i0 = i as int;
        let c = cs[i];
        i = i + 1;
        proof {
            if sh is Some && i0 < pos + 4 {
                assert(cs@.subrange(pos as int, pos + 4)[i0 - pos] == cs@[i0]);
            }
        }
        if is_whitespace(c) {
            continue;
        }
        if c == '}' {
            let content = match retrieve_content(parts) {
                Ok(x) => x,
                Err(e) => {
                    return Err(e);
                },
            };
            return Ok((TextComponent { content, children, format, interactions }, i));
        } else if c == ',' {
            in_name = true;
        } else if is_quote(c) {
            in_name = false;
            let (s, q) = match parse_string(cs, i, c) {
                Ok(x) => x,
                Err(e) => {
                    return Err(e);
                },
            };
            name = chars_of(s.as_str());
            i = q;
        } else if c == ':' {
            in_name = false;
            let j = skip_ws(cs, i);
            if j >= cs.len() {
                return Err(SnbtError::EndedAbruptely(COMPOUND_NO_VALUE));
            }
            let first = cs[j];
            let at = j + 1;
            if eq_lit(name.as_slice(), "extra") {
                let (v, q) = match parse_vec(cs, at, channel) {
                    Ok(x) => x,
                    Err(e) => {
                        return Err(e);
                    },
                };
                children = v;
                i = q;
                name = Vec::new();
                continue;
            }
            let mut at_end = at;
            let mut unknown: u8 = 0;
            match match_content(name.as_slice(), &mut parts, first, cs, at, channel) {
                Ok(Some(q)) => at_end = q,
                Ok(None) => unknown = unknown + 1,
                Err(e) => {
                    return Err(e);
                },
            }
            match match_format(name.as_slice(), &mut format, first, cs, at_end, channel) {
                Ok(Some(q)) => at_end = q,
                Ok(None) => unknown = unknown + 1,
                Err(e) => {
                    return Err(e);
                },
            }
            match match_interactions(name.as_slice(), &mut interactions, first, cs, at_end, channel) {
                Ok(Some(q)) => at_end = q,
                Ok(None) => unknown = unknown + 1,
                Err(e) => {
                    return Err(e);
                },
            }
            if unknown == 3 {
                return Err(SnbtError::UnknownKey(crate::chars::string_of(name.as_slice())));
            }
            i = at_end;
            name = Vec::new();
        } else if in_name {
            name.push(c);
            proof {
                if sh is Some && i0 < pos + 4 {
                    assert(name@ =~= cs@.subrange(pos as int, i as int));
                }
            }
        } else {
            return Err(SnbtError::UnfinishedComponent(COMPOUND_BAD_CHAR));
        }
    }
    Err(SnbtError::EndedAbruptely(COMPOUND_UNCLOSED))
}

} // verus!
