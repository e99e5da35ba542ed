//! The compound values of content: a scoreboard, a player profile and its properties.
use vstd::prelude::*;
use crate::chars::eq_lit;
use crate::content::{Content, ObjectPlayer, PlayerProperties, Resolvable};
use crate::decode::{SnbtError, SnbtErrorV};
use crate::grammar::parser::is_whitespace;
use crate::snbt::scalar::{ints_from, parse_int_vec, parse_string, string_from};
use crate::nbt::model::{player_view, properties_view, PlayerV, PropertyV};

verus! {

pub const SCORE_BAD_VALUE: u32 = 60;
pub const SCORE_BAD_CHAR: u32 = 67;
pub const SCORE_UNCLOSED: u32 = 70;
pub const PLAYER_BAD_ID: u32 = 134;
pub const PLAYER_BAD_PROPERTY: u32 = 150;
pub const PLAYER_BAD_VALUE: u32 = 162;
pub const PLAYER_BAD_CHAR: u32 = 167;
pub const PLAYER_UNCLOSED: u32 = 170;
pub const PROPERTY_BAD_VALUE: u32 = 230;
pub const PROPERTY_BAD_CHAR: u32 = 235;
pub const PROPERTY_UNCLOSED: u32 = 238;

/// The first position from `i` on that holds no whitespace, or the end.
pub open spec fn ws_end(s: Seq<char>, i: int) -> int
    decreases s.len() - i,
{
    if i < 0 || i >= s.len() || !crate::grammar::parser::is_whitespace_spec(s[i]) { i } else { ws_end(s, i + 1) }
}

/// The first position from `pos` on that holds no whitespace.
pub(crate) fn skip_ws(cs: &[char], pos: usize) -> (r: usize)
    requires
        pos <= cs@.len(),
    ensures
        pos <= r <= cs@.len(),
        r < cs@.len() ==> !crate::grammar::parser::is_whitespace_spec(cs@[r as int]),
        r == ws_end(cs@, pos as int),
{
    let mut i = pos;
    while i < cs.len() && is_whitespace(cs[i])
        invariant
            pos <= i <= cs@.len(),
            ws_end(cs@, i as int) == ws_end(cs@, pos as int),
        decreases cs@.len() - i,
    {
        i = i + 1;
    }
    i
}

pub(crate) fn required(what: &str, field: &str) -> (r: SnbtError)
    ensures
        r@ == crate::decode::SnbtErrorV::Required(what@, field@),
{
    SnbtError::Required(what.to_owned(), field.to_owned())
}

fn unknown_key(key: &[char]) -> (r: SnbtError)
    ensures
        r@ == SnbtErrorV::UnknownKey(key@),
{
    SnbtError::UnknownKey(crate::chars::string_of(key))
}

/// A player property as its model.
pub open spec fn property_view(p: PlayerProperties) -> PropertyV {
    PropertyV { name: p.name@, value: p.value@, signature: opt_chars(p.signature) }
}

pub open spec fn opt_chars(o: Option<String>) -> Option<Seq<char>> {
    match o {
        Some(s) => Some(s@),
        None => None,
    }
}

/// What a player property's fields read as from position `i` on: `name`, `value` and an
/// optional `signature`, all quoted strings.
pub open spec fn property_from(
    cs: Seq<char>,
    i: int,
    pname: Option<Seq<char>>,
    value: Option<Seq<char>>,
    signature: Option<Seq<char>>,
    name: Seq<char>,
    in_name: bool,
) -> Result<(PropertyV, int), SnbtErrorV>
    decreases cs.len() - i,
{
    if i < 0 || i >= cs.len() {
        Err(SnbtErrorV::EndedAbruptely(PROPERTY_UNCLOSED))
    } else {
        let c = cs[i];
        if crate::grammar::parser::is_whitespace_spec(c) {
            property_from(cs, i + 1, pname, value, signature, name, in_name)
        } else if c == '}' {
            match (pname, value) {
                (Some(n), Some(v)) => Ok((PropertyV { name: n, value: v, signature }, i + 1)),
                (None, _) => Err(SnbtErrorV::Required("Player property"@, "name"@)),
                (Some(_), None) => Err(SnbtErrorV::Required("Player property"@, "value"@)),
            }
        } else if c == ',' {
            property_from(cs, i + 1, pname, value, signature, name, true)
        } else if c == '"' || c == '\'' {
            match string_from(cs, i + 1, c, Seq::empty()) {
                Ok((t, q)) => if i < q <= cs.len() {
                    property_from(cs, q, pname, value, signature, t, false)
                } else {
                    Err(SnbtErrorV::EndedAbruptely(PROPERTY_UNCLOSED))
                },
                Err(e) => Err(e),
            }
        } else if c == ':' {
            let j = ws_end(cs, i + 1);
            if j < cs.len() {
                let next = cs[j];
                if next == '"' || next == '\'' {
                    match string_from(cs, j + 1, next, Seq::empty()) {
                        Ok((t, q)) => if !(i < q <= cs.len()) {
                            Err(SnbtErrorV::EndedAbruptely(PROPERTY_UNCLOSED))
                        } else if name == "name"@ {
                            property_from(cs, q, Some(t), value, signature, Seq::empty(), false)
                        } else if name == "value"@ {
                            property_from(cs, q, pname, Some(t), signature, Seq::empty(), false)
                        } else if name == "signature"@ {
                            property_from(cs, q, pname, value, Some(t), Seq::empty(), false)
                        } else {
                            Err(SnbtErrorV::UnknownKey(name))
                        },
                        Err(e) => Err(e),
                    }
                } else {
                    Err(SnbtErrorV::UnfinishedComponent(PROPERTY_BAD_VALUE))
                }
            } else {
                Err(SnbtErrorV::EndedAbruptely(PROPERTY_UNCLOSED))
            }
        } else if in_name {
            property_from(cs, i + 1, pname, value, signature, name.push(c), in_name)
        } else {
            Err(SnbtErrorV::UnfinishedComponent(PROPERTY_BAD_CHAR))
        }
    }
}

/// What a list of player properties reads as from position `i` on: compounds separated
/// by commas up to the closing bracket or the end of the text.
pub open spec fn properties_from(cs: Seq<char>, i: int, acc: Seq<PropertyV>) -> Result<(Seq<PropertyV>, int), SnbtErrorV>
    decreases cs.len() - i,
{
    if i < 0 || i >= cs.len() {
        Ok((acc, i))
    } else {
        let c = cs[i];
        if crate::grammar::parser::is_whitespace_spec(c) || c == ',' {
            properties_from(cs, i + 1, acc)
        } else if c == ']' {
            Ok((acc, i + 1))
        } else if c == '{' {
            match property_from(cs, i + 1, None, None, None, Seq::empty(), true) {
                Ok((pv, q)) => if i < q <= cs.len() {
                    properties_from(cs, q, acc.push(pv))
                } else {
                    Err(SnbtErrorV::UnfinishedComponent(PLAYER_BAD_PROPERTY))
                },
                Err(e) => Err(e),
            }
        } else {
            Err(SnbtErrorV::UnfinishedComponent(PLAYER_BAD_PROPERTY))
        }
    }
}

/// What a player object's fields read as from position `i` on: `name` and `texture` as
/// quoted strings, `id` as four ints, `properties` as a list; at least one of them.
pub open spec fn player_from(
    cs: Seq<char>,
    i: int,
    pname: Option<Seq<char>>,
    id: Option<[i32; 4]>,
    texture: Option<Seq<char>>,
    props: Seq<PropertyV>,
    name: Seq<char>,
    in_name: bool,
) -> Result<(PlayerV, int), SnbtErrorV>
    decreases cs.len() - i,
{
    if i < 0 || i >= cs.len() {
        Err(SnbtErrorV::EndedAbruptely(PLAYER_UNCLOSED))
    } else {
        let c = cs[i];
        if crate::grammar::parser::is_whitespace_spec(c) {
            player_from(cs, i + 1, pname, id, texture, props, name, in_name)
        } else if c == '}' {
            if pname is None && id is None && texture is None && props.len() == 0 {
                Err(SnbtErrorV::Required("Player object"@, "name\", \"id\", \"texture\", or \"properties"@))
            } else {
                Ok((PlayerV { name: pname, id, texture, cape: None, elytra: None, model: None, properties: props }, i + 1))
            }
        } else if c == ',' {
            player_from(cs, i + 1, pname, id, texture, props, name, true)
        } else if c == '"' || c == '\'' {
            match string_from(cs, i + 1, c, Seq::empty()) {
                Ok((t, q)) => if i < q <= cs.len() {
                    player_from(cs, q, pname, id, texture, props, t, false)
                } else {
                    Err(SnbtErrorV::EndedAbruptely(PLAYER_UNCLOSED))
                },
                Err(e) => Err(e),
            }
        } else if c == ':' {
            let j = ws_end(cs, i + 1);
            if j < cs.len() {
                let next = cs[j];
                if next == '"' || next == '\'' {
                    match string_from(cs, j + 1, next, Seq::empty()) {
                        Ok((t, q)) => if !(i < q <= cs.len()) {
                            Err(SnbtErrorV::EndedAbruptely(PLAYER_UNCLOSED))
                        } else if name == "name"@ {
                            player_from(cs, q, Some(t), id, texture, props, Seq::empty(), false)
                        } else if name == "texture"@ {
                            player_from(cs, q, pname, id, Some(t), props, Seq::empty(), false)
                        } else {
                            Err(SnbtErrorV::UnknownKey(name))
                        },
                        Err(e) => Err(e),
                    }
                } else if next == '[' {
                    if name == "id"@ {
                        match ints_from(cs, j + 1, "Player id"@, Seq::empty()) {
                            Ok((v, q)) => if v.len() != 4 {
                                Err(SnbtErrorV::UnfinishedComponent(PLAYER_BAD_ID))
                            } else if i < q <= cs.len() {
                                player_from(cs, q, pname, Some([v[0], v[1], v[2], v[3]]), texture, props, Seq::empty(), false)
                            } else {
                                Err(SnbtErrorV::EndedAbruptely(PLAYER_UNCLOSED))
                            },
                            Err(e) => Err(e),
                        }
                    } else if name == "properties"@ {
                        match properties_from(cs, j + 1, Seq::empty()) {
                            Ok((v, q)) => if i < q <= cs.len() {
                                player_from(cs, q, pname, id, texture, v, Seq::empty(), false)
                            } else {
                                Err(SnbtErrorV::EndedAbruptely(PLAYER_UNCLOSED))
                            },
                            Err(e) => Err(e),
                        }
                    } else {
                        Err(SnbtErrorV::UnknownKey(name))
                    }
                } else {
                    Err(SnbtErrorV::UnfinishedComponent(PLAYER_BAD_VALUE))
                }
            } else {
                Err(SnbtErrorV::EndedAbruptely(PLAYER_UNCLOSED))
            }
        } else if in_name {
            player_from(cs, i + 1, pname, id, texture, props, name.push(c), in_name)
        } else {
            Err(SnbtErrorV::UnfinishedComponent(PLAYER_BAD_CHAR))
        }
    }
}

/// What a scoreboard's fields read as from position `i` on, with the fields read so far,
/// the key being read, and whether a key is being read: `name` and `objective` as
/// quoted strings, keys bare or quoted, the closing brace ending it.
pub open spec fn score_from(
    cs: Seq<char>,
    i: int,
    selector: Option<Seq<char>>,
    objective: Option<Seq<char>>,
    name: Seq<char>,
    in_name: bool,
) -> Result<(Seq<char>, Seq<char>, int), SnbtErrorV>
    decreases cs.len() - i,
{
    if i < 0 || i >= cs.len() {
        Err(SnbtErrorV::EndedAbruptely(SCORE_UNCLOSED))
    } else {
        let c = cs[i];
        if crate::grammar::parser::is_whitespace_spec(c) {
            score_from(cs, i + 1, selector, objective, name, in_name)
        } else if c == '}' {
            match (selector, objective) {
                (Some(sel), Some(obj)) => Ok((sel, obj, i + 1)),
                (None, _) => Err(SnbtErrorV::Required("Scoreboards"@, "name"@)),
                (Some(_), None) => Err(SnbtErrorV::Required("Scoreboards"@, "objective"@)),
            }
        } else if c == ',' {
            score_from(cs, i + 1, selector, objective, name, true)
        } else if c == '"' || c == '\'' {
            match string_from(cs, i + 1, c, Seq::empty()) {
                Ok((t, q)) => if i < q <= cs.len() {
                    score_from(cs, q, selector, objective, t, false)
                } else {
                    Err(SnbtErrorV::EndedAbruptely(SCORE_UNCLOSED))
                },
                Err(e) => Err(e),
            }
        } else if c == ':' {
            let j = ws_end(cs, i + 1);
            if j < cs.len() {
                let next = cs[j];
                if next == '"' || next == '\'' {
                    match string_from(cs, j + 1, next, Seq::empty()) {
                        Ok((t, q)) => if !(i < q <= cs.len()) {
                            Err(SnbtErrorV::EndedAbruptely(SCORE_UNCLOSED))
                        } else if name == "name"@ {
                            score_from(cs, q, Some(t), objective, Seq::empty(), false)
                        } else if name == "objective"@ {
                            score_from(cs, q, selector, Some(t), Seq::empty(), false)
                        } else {
                            Err(SnbtErrorV::UnknownKey(name))
                        },
                        Err(e) => Err(e),
                    }
                } else {
                    Err(SnbtErrorV::UnfinishedComponent(SCORE_BAD_VALUE))
                }
            } else {
                Err(SnbtErrorV::EndedAbruptely(SCORE_UNCLOSED))
            }
        } else if in_name {
            score_from(cs, i + 1, selector, objective, name.push(c), in_name)
        } else {
            Err(SnbtErrorV::UnfinishedComponent(SCORE_BAD_CHAR))
        }
    }
}

/// A scoreboard whose opening brace is already read: its `name` and `objective`.
pub(crate) fn parse_scoreboard(cs: &[char], pos: usize) -> (r: Result<(Content, usize), SnbtError>)
    requires
        pos <= cs@.len(),
    ensures
        r matches Ok((_, p)) ==> pos < p <= cs@.len(),
        match score_from(cs@, pos as int, None, None, Seq::empty(), true) {
            Ok((sel, obj, q)) => r matches Ok((Content::Resolvable(Resolvable::Scoreboard { selector, objective }), p))
                && selector@ == sel && objective@ == obj && p == q,
            Err(e) => r matches Err(x) && x@ == e,
        },
{
    let mut selector: Option<String> = None;
    let mut objective: Option<String> = None;
    let mut name: Vec<char> = Vec::new();
    let mut in_name = true;
    let mut i = pos;
    while i < cs.len()
        invariant
            pos <= i <= cs@.len(),
            score_from(cs@, pos as int, None, None, Seq::empty(), true)
                == score_from(cs@, i as int, opt_chars(selector), opt_chars(objective), name@, in_name),
        decreases cs@.len() - i,
    {
        let c = cs[i];
        i = i + 1;
        if is_whitespace(c) {
            continue;
        }
        if c == '}' {
            let selector = match selector {
                Some(s) => s,
                None => {
                    return Err(required("Scoreboards", "name"));
                },
            };
            let objective = match objective {
                Some(o) => o,
                None => {
                    return Err(required("Scoreboards", "objective"));
                },
            };
            return Ok((Content::Resolvable(Resolvable::Scoreboard { selector, objective }), i));
        } else if c == ',' {
            in_name = true;
        } else if c == '"' || c == '\'' {
            in_name = false;
            let (s, q) = match parse_string(cs, i, c) {
                Ok(x) => x,
                Err(e) => {
                    return Err(e);
                },
            };
            name = crate::chars::chars_of(s.as_str());
            i = q;
        } else if c == ':' {
            in_name = false;
            let j = skip_ws(cs, i);
            if j < cs.len() {
                let next = cs[j];
                if next == '"' || next == '\'' {
                    let (s, q) = match parse_string(cs, j + 1, next) {
                        Ok(x) => x,
                        Err(e) => {
                            return Err(e);
                        },
                    };
                    if eq_lit(name.as_slice(), "name") {
                        selector = Some(s);
                    } else if eq_lit(name.as_slice(), "objective") {
                        objective = Some(s);
                    } else {
                        return Err(unknown_key(name.as_slice()));
                    }
                    i = q;
                } else {
                    return Err(SnbtError::UnfinishedComponent(SCORE_BAD_VALUE));
                }
                name = Vec::new();
            } else {
                i = j;
            }
        } else if in_name {
            name.push(c);
        } else {
            return Err(SnbtError::UnfinishedComponent(SCORE_BAD_CHAR));
        }
    }
    Err(SnbtError::EndedAbruptely(SCORE_UNCLOSED))
}

/// One signed skin property whose opening brace is already read.
fn parse_player_property(cs: &[char], pos: usize) -> (r: Result<(PlayerProperties, usize), SnbtError>)
    requires
        pos <= cs@.len(),
    ensures
        r matches Ok((_, p)) ==> pos < p <= cs@.len(),
        match property_from(cs@, pos as int, None, None, None, Seq::empty(), true) {
            Ok((v, q)) => r matches Ok((pr, p)) && property_view(pr) == v && p == q,
            Err(e) => r matches Err(x) && x@ == e,
        },
{
    let mut pname: Option<String> = None;
    let mut value: Option<String> = None;
    let mut signature: Option<String> = None;
    let mut name: Vec<char> = Vec::new();
    let mut in_name = true;
    let mut i = pos;
    while i < cs.len()
        invariant
            pos <= i <= cs@.len(),
            property_from(cs@, pos as int, None, None, None, Seq::empty(), true)
                == property_from(cs@, i as int, opt_chars(pname), opt_chars(value), opt_chars(signature), name@, in_name),
        decreases cs@.len() - i,
    {
        let c = cs[i];
        i = i + 1;
        if is_whitespace(c) {
            continue;
        }
        if c == '}' {
            let pname = match pname {
                Some(n) => n,
                None => {
                    return Err(required("Player property", "name"));
                },
            };
            let value = match value {
                Some(v) => v,
                None => {
                    return Err(required("Player property", "value"));
                },
            };
            return Ok((PlayerProperties { name: pname, value, signature }, i));
        } else if c == ',' {
            in_name = true;
        } else if c == '"' || c == '\'' {
            in_name = false;
            let (s, q) = match parse_string(cs, i, c) {
                Ok(x) => x,
                Err(e) => {
                    return Err(e);
                },
            };
            name = crate::chars::chars_of(s.as_str());
            i = q;
        } else if c == ':' {
            in_name = false;
            let j = skip_ws(cs, i);
            if j < cs.len() {
                let next = cs[j];
                if next == '"' || next == '\'' {
                    let (s, q) = match parse_string(cs, j + 1, next) {
                        Ok(x) => x,
                        Err(e) => {
                            return Err(e);
                        },
                    };
                    if eq_lit(name.as_slice(), "name") {
                        pname = Some(s);
                    } else if eq_lit(name.as_slice(), "value") {
                        value = Some(s);
                    } else if eq_lit(name.as_slice(), "signature") {
                        signature = Some(s);
                    } else {
                        return Err(unknown_key(name.as_slice()));
                    }
                    i = q;
                    name = Vec::new();
                } else {
                    return Err(SnbtError::UnfinishedComponent(PROPERTY_BAD_VALUE));
                }
            } else {
                i = j;
            }
        } else if in_name {
            name.push(c);
        } else {
            return Err(SnbtError::UnfinishedComponent(PROPERTY_BAD_CHAR));
        }
    }
    Err(SnbtError::EndedAbruptely(PROPERTY_UNCLOSED))
}

/// The properties of a player whose opening bracket is already read, up to the closing
/// bracket or the end of the text.
fn parse_properties(cs: &[char], pos: usize) -> (r: Result<(Vec<PlayerProperties>, usize), SnbtError>)
    requires
        pos <= cs@.len(),
    ensures
        r matches Ok((_, p)) ==> pos <= p <= cs@.len(),
        match properties_from(cs@, pos as int, Seq::empty()) {
            Ok((v, q)) => r matches Ok((w, p)) && properties_view(w@) == v && p == q,
            Err(e) => r matches Err(x) && x@ == e,
        },
{
    let mut properties: Vec<PlayerProperties> = Vec::new();
    let mut i = pos;
    assert(properties_view(properties@) =~= Seq::<PropertyV>::empty());
    while i < cs.len()
        invariant
            pos <= i <= cs@.len(),
            properties_from(cs@, pos as int, Seq::empty()) == properties_from(cs@, i as int, properties_view(properties@)),
        decreases cs@.len() - i,
    {
        let c = cs[i];
        i = i + 1;
        if is_whitespace(c) || c == ',' {
            continue;
        }
        if c == ']' {
            return Ok((properties, i));
        } else if c == '{' {
            let (p, q) = match parse_player_property(cs, i) {
                Ok(x) => x,
                Err(e) => {
                    return Err(e);
                },
            };
            let ghost before = properties@;
            properties.push(p);
            assert(properties_view(properties@) =~= properties_view(before).push(property_view(p)));
            i = q;
        } else {
            return Err(SnbtError::UnfinishedComponent(PLAYER_BAD_PROPERTY));
        }
    }
    Ok((properties, i))
}

/// A player profile whose opening brace is already read.
pub(crate) fn parse_player(cs: &[char], pos: usize) -> (r: Result<(ObjectPlayer, usize), SnbtError>)
    requires
        pos <= cs@.len(),
    ensures
        r matches Ok((_, p)) ==> pos < p <= cs@.len(),
        match player_from(cs@, pos as int, None, None, None, Seq::empty(), Seq::empty(), true) {
            Ok((v, q)) => r matches Ok((pl, p)) && player_view(pl) == v && p == q,
            Err(e) => r matches Err(x) && x@ == e,
        },
{
    let mut player = ObjectPlayer {
        name: None,
        id: None,
        texture: None,
        cape: None,
        elytra: None,
        model: None,
        properties: Vec::new(),
    };
    let mut name: Vec<char> = Vec::new();
    let mut in_name = true;
    let mut i = pos;
    assert(properties_view(player.properties@) =~= Seq::<PropertyV>::empty());
    while i < cs.len()
        invariant
            pos <= i <= cs@.len(),
            player.cape is None && player.elytra is None && player.model is None,
            player_from(cs@, pos as int, None, None, None, Seq::empty(), Seq::empty(), true)
                == player_from(cs@, i as int, opt_chars(player.name), player.id, opt_chars(player.texture),
                    properties_view(player.properties@), name@, in_name),
        decreases cs@.len() - i,
    {
        let c = cs[i];
        i = i + 1;
        if is_whitespace(c) {
            continue;
        }
        if c == '}' {
            if player.is_empty() {
                return Err(required("Player object", "name\", \"id\", \"texture\", or \"properties"));
            }
            return Ok((player, i));
        } else if c == ',' {
            in_name = true;
        } else if c == '"' || c == '\'' {
            in_name = false;
            let (s, q) = match parse_string(cs, i, c) {
                Ok(x) => x,
                Err(e) => {
                    return Err(e);
                },
            };
            name = crate::chars::chars_of(s.as_str());
            i = q;
        } else if c == ':' {
            in_name = false;
            let j = skip_ws(cs, i);
            if j < cs.len() {
                let next = cs[j];
                if next == '"' || next == '\'' {
                    let (s, q) = match parse_string(cs, j + 1, next) {
                        Ok(x) => x,
                        Err(e) => {
                            return Err(e);
                        },
                    };
                    if eq_lit(name.as_slice(), "name") {
                        player.name = Some(s);
                    } else if eq_lit(name.as_slice(), "texture") {
                        player.texture = Some(s);
                    } else {
                        return Err(unknown_key(name.as_slice()));
                    }
                    i = q;
                } else if next == '[' {
                    if eq_lit(name.as_slice(), "id") {
                        let (nums, q) = match parse_int_vec(cs, j + 1, "Player id") {
                            Ok(x) => x,
                            Err(e) => {
                                return Err(e);
                            },
                        };
                        if nums.len() != 4 {
                            return Err(SnbtError::UnfinishedComponent(PLAYER_BAD_ID));
                        }
                        player.id = Some([nums[0], nums[1], nums[2], nums[3]]);
                        i = q;
                    } else if eq_lit(name.as_slice(), "properties") {
                        let (properties, q) = match parse_properties(cs, j + 1) {
                            Ok(x) => x,
                            Err(e) => {
                                return Err(e);
                            },
                        };
                        player.properties = properties;
                        i = q;
                    } else {
                        return Err(unknown_key(name.as_slice()));
                    }
                } else {
                    return Err(SnbtError::UnfinishedComponent(PLAYER_BAD_VALUE));
                }
                name = Vec::new();
            } else {
                i = j;
            }
        } else if in_name {
            name.push(c);
        } else {
            return Err(SnbtError::UnfinishedComponent(PLAYER_BAD_CHAR));
        }
    }
    Err(SnbtError::EndedAbruptely(PLAYER_UNCLOSED))
}

} // verus!
