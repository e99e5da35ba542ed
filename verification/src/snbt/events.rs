//! Click and hover events in SNBT.
use vstd::prelude::*;
use crate::chars::{chars_of, eq_lit};
use crate::component::{bare, TextComponent};
use crate::content::Content;
use crate::decode::{SnbtError, SnbtErrorV};
use crate::nbt::model::{click_view, ClickV};
use crate::grammar::parser::is_whitespace;
use crate::interactivity::{ClickEvent, Dialog, HoverEvent};
use crate::nbt::tag::NbtTag;
use crate::snbt::object::{opt_chars, required, ws_end};
use crate::snbt::scalar::{as_i32, ints_from, num_i32, num_spec, parse_int_vec, parse_num, parse_string, string_from};
use crate::snbt::{channel_ok, parse_value};

verus! {

pub const CLICK_BAD_VALUE: u32 = 158;
pub const CLICK_BAD_CHAR: u32 = 165;
pub const CLICK_UNCLOSED: u32 = 168;
pub const HOVER_BAD_CHAR: u32 = 382;
pub const HOVER_UNCLOSED: u32 = 385;

/// What `uuid::Uuid::parse_str` reads a text as: the UUID's 128 bits, most significant
/// first, or none when it refuses the text.
pub uninterp spec fn uuid_parsed(s: Seq<char>) -> Option<u128>;

/// `uuid::Uuid::parse_str`, the result taken as its 128 bits (`Uuid::as_u128`). Claimed:
/// the result depends on the text alone.
#[verifier::external_body]
pub(crate) fn parse_uuid(s: &str) -> (r: Option<u128>)
    ensures
        r == uuid_parsed(s@),
{
    match uuid::Uuid::parse_str(s) {
        Ok(u) => Some(u.as_u128()),
        Err(_) => None,
    }
}

/// A UUID from its two halves, most significant first.
pub open spec fn uuid_of_halves(high: u64, low: u64) -> u128 {
    ((high as u128) << 64u128) | (low as u128)
}

fn uuid_from_halves(high: u64, low: u64) -> (r: u128)
    ensures
        r == uuid_of_halves(high, low),
{
    ((high as u128) << 64u128) | (low as u128)
}

/// Two ints as the high and low halves of a `u64`.
fn int_pair(high: i32, low: i32) -> (r: u64)
    ensures
        r == int_pair_spec(high, low),
{
    (((high as u32) as u64) << 32u64) | ((low as u32) as u64)
}

fn take_name(name: &mut Vec<char>)
    ensures
        final(name)@ == Seq::<char>::empty(),
{
    *name = Vec::new();
}

/// What a click event's fields read as from position `i` on, with the action and the
/// values read so far, the key being read, and whether a key is being read.
pub open spec fn click_from(
    cs: Seq<char>,
    i: int,
    action: Seq<char>,
    url: Option<Seq<char>>,
    command: Option<Seq<char>>,
    value: Option<Seq<char>>,
    dialog: Option<Seq<char>>,
    name: Seq<char>,
    in_name: bool,
) -> Result<(ClickV, int), SnbtErrorV>
    decreases cs.len() - i,
{
    if i < 0 || i >= cs.len() {
        Err(SnbtErrorV::EndedAbruptely(CLICK_UNCLOSED))
    } else {
        let c = cs[i];
        if crate::grammar::parser::is_whitespace_spec(c) {
            click_from(cs, i + 1, action, url, command, value, dialog, name, in_name)
        } else if c == '}' {
            if action == "open_url"@ {
                match url {
                    Some(u) => Ok((ClickV::OpenUrl(u), i + 1)),
                    None => Err(SnbtErrorV::Required("\"open_url\""@, "url"@)),
                }
            } else if action == "run_command"@ {
                match command {
                    Some(u) => Ok((ClickV::RunCommand(u), i + 1)),
                    None => Err(SnbtErrorV::Required("\"run_command\""@, "command"@)),
                }
            } else if action == "suggest_command"@ {
                match command {
                    Some(u) => Ok((ClickV::SuggestCommand(u), i + 1)),
                    None => Err(SnbtErrorV::Required("\"suggest_command\""@, "command"@)),
                }
            } else if action == "change_page"@ {
                Err(SnbtErrorV::Required("\"change_page\""@, "page"@))
            } else if action == "copy_to_clipboard"@ {
                match value {
                    Some(u) => Ok((ClickV::CopyToClipboard(u), i + 1)),
                    None => Err(SnbtErrorV::Required("\"copy_to_clipboard\""@, "value"@)),
                }
            } else if action == "show_dialog"@ {
                match dialog {
                    Some(u) => Ok((ClickV::DialogReference(u), i + 1)),
                    None => Err(SnbtErrorV::Required("\"show_dialog\""@, "dialog"@)),
                }
            } else {
                Err(SnbtErrorV::WrongContentType("action"@))
            }
        } else if c == ',' {
            click_from(cs, i + 1, action, url, command, value, dialog, name, true)
        } else if c == '"' || c == '\'' {
            match string_from(cs, i + 1, c, Seq::empty()) {
                Ok((t, q)) => if i < q <= cs.len() {
                    click_from(cs, q, action, url, command, value, dialog, t, false)
                } else {
                    Err(SnbtErrorV::EndedAbruptely(CLICK_UNCLOSED))
                },
                Err(e) => Err(e),
            }
        } else if c == ':' {
            let j = ws_end(cs, i + 1);
            if j < cs.len() {
                let next = cs[j];
                if next == '"' || next == '\'' {
                    if name == "page"@ {
                        match num_spec(next, cs, j + 1, "page"@) {
                            Ok(_) => Err(SnbtErrorV::WrongContentType("page"@)),
                            Err(e) => Err(e),
                        }
                    } else {
                        match string_from(cs, j + 1, next, Seq::empty()) {
                            Ok((t, q)) => if !(i < q <= cs.len()) {
                                Err(SnbtErrorV::EndedAbruptely(CLICK_UNCLOSED))
                            } else if name == "action"@ {
                                click_from(cs, q, t, url, command, value, dialog, Seq::empty(), false)
                            } else if name == "url"@ {
                                click_from(cs, q, action, Some(t), command, value, dialog, Seq::empty(), false)
                            } else if name == "command"@ {
                                click_from(cs, q, action, url, Some(t), value, dialog, Seq::empty(), false)
                            } else if name == "value"@ {
                                click_from(cs, q, action, url, command, Some(t), dialog, Seq::empty(), false)
                            } else if name == "dialog"@ {
                                click_from(cs, q, action, url, command, value, Some(t), Seq::empty(), false)
                            } else {
                                Err(SnbtErrorV::UnknownKey(name))
                            },
                            Err(e) => Err(e),
                        }
                    }
                } else {
                    Err(SnbtErrorV::UnfinishedComponent(CLICK_BAD_VALUE))
                }
            } else {
                Err(SnbtErrorV::EndedAbruptely(CLICK_UNCLOSED))
            }
        } else if in_name {
            click_from(cs, i + 1, action, url, command, value, dialog, name.push(c), in_name)
        } else {
            Err(SnbtErrorV::UnfinishedComponent(CLICK_BAD_CHAR))
        }
    }
}

/// A click event whose opening brace is already read: its `action`, and the field that
/// action takes.
pub(crate) fn parse_click(cs: &[char], pos: usize) -> (r: Result<(ClickEvent, usize), SnbtError>)
    requires
        pos <= cs@.len(),
    ensures
        r matches Ok((_, p)) ==> pos < p <= cs@.len(),
        match click_from(cs@, pos as int, Seq::empty(), None, None, None, None, Seq::empty(), true) {
            Ok((v, q)) => r matches Ok((e, p)) && click_view(e) == v && p == q,
            Err(e) => r matches Err(x) && x@ == e,
        },
{
    let mut action: Vec<char> = Vec::new();
    let mut url: Option<String> = None;
    let mut command: Option<String> = None;
    let mut value: Option<String> = None;
    let mut dialog: Option<String> = None;
    let mut name: Vec<char> = Vec::new();
    let mut in_name = true;
    let mut i = pos;
    while i < cs.len()
        invariant
            pos <= i <= cs@.len(),
            click_from(cs@, pos as int, Seq::empty(), None, None, None, None, Seq::empty(), true)
                == click_from(cs@, i as int, action@, opt_chars(url), opt_chars(command), opt_chars(value),
                    opt_chars(dialog), name@, in_name),
        decreases cs@.len() - i,
    {
        let c = cs[i];
        i = i + 1;
        if is_whitespace(c) {
            continue;
        }
        if c == '}' {
            let a = action.as_slice();
            if eq_lit(a, "open_url") {
                return match url {
                    Some(url) => Ok((ClickEvent::OpenUrl { url }, i)),
                    None => Err(required("\"open_url\"", "url")),
                };
            } else if eq_lit(a, "run_command") {
                return match command {
                    Some(command) => Ok((ClickEvent::RunCommand { command }, i)),
                    None => Err(required("\"run_command\"", "command")),
                };
            } else if eq_lit(a, "suggest_command") {
                return match command {
                    Some(command) => Ok((ClickEvent::SuggestCommand { command }, i)),
                    None => Err(required("\"suggest_command\"", "command")),
                };
            } else if eq_lit(a, "change_page") {
                return Err(required("\"change_page\"", "page"));
            } else if eq_lit(a, "copy_to_clipboard") {
                return match value {
                    Some(value) => Ok((ClickEvent::CopyToClipboard { value }, i)),
                    None => Err(required("\"copy_to_clipboard\"", "value")),
                };
            } else if eq_lit(a, "show_dialog") {
                return match dialog {
                    Some(d) => Ok((ClickEvent::ShowDialog { dialog: Dialog::Reference(d) }, i)),
                    None => Err(required("\"show_dialog\"", "dialog")),
                };
            } else {
                return Err(SnbtError::WrongContentType("action".to_owned()));
            }
        } else if c == ',' {
            in_name = true;
        } else if c == '"' || c == '\'' {
            in_name = false;
            let (s, q) = match parse_string(cs, i, c) {
                Ok(x) => x,
                Err(e) => {
                    return Err(e);
                },
            };
            name = chars_of(s.as_str());
            i = q;
        } else if c == ':' {
            in_name = false;
            let j = crate::snbt::object::skip_ws(cs, i);
            if j < cs.len() {
                let next = cs[j];
                if next == '"' || next == '\'' {
                    let n = name.as_slice();
                    if eq_lit(n, "page") {
                        // a page is a number, and a number cannot start with a quote
                        return match parse_num(next, cs, j + 1, "page") {
                            Ok(_) => Err(SnbtError::WrongContentType("page".to_owned())),
                            Err(e) => Err(e),
                        };
                    }
                    let (s, q) = match parse_string(cs, j + 1, next) {
                        Ok(x) => x,
                        Err(e) => {
                            return Err(e);
                        },
                    };
                    if eq_lit(n, "action") {
                        action = chars_of(s.as_str());
                    } else if eq_lit(n, "url") {
                        url = Some(s);
                    } else if eq_lit(n, "command") {
                        command = Some(s);
                    } else if eq_lit(n, "value") {
                        value = Some(s);
                    } else if eq_lit(n, "dialog") {
                        dialog = Some(s);
                    } else {
                        return Err(SnbtError::UnknownKey(crate::chars::string_of(n)));
                    }
                    i = q;
                } else {
                    return Err(SnbtError::UnfinishedComponent(CLICK_BAD_VALUE));
                }
                take_name(&mut name);
            } else {
                i = j;
            }
        } else if in_name {
            name.push(c);
        } else {
            return Err(SnbtError::UnfinishedComponent(CLICK_BAD_CHAR));
        }
    }
    Err(SnbtError::EndedAbruptely(CLICK_UNCLOSED))
}

/// What a hover event reads as: the text of a `show_text` value given as a string; an item's
/// id, count and components text; an entity's name given as a string, id and UUID.
pub enum HoverOut {
    ShowText(Seq<char>),
    ShowItem(Seq<char>, i32, Option<Seq<char>>),
    ShowEntity(Option<Seq<char>>, Seq<char>, u128),
}

/// A component value read from a string: plain text, nothing else set.
pub open spec fn text_rel(c: TextComponent, t: Seq<char>) -> bool {
    &&& c.content matches Content::Text { text } && text@ == t
    &&& bare(c, c.content)
}

pub open spec fn opt_text_rel(c: Option<TextComponent>, t: Option<Seq<char>>) -> bool {
    match c {
        None => t is None,
        Some(x) => t matches Some(u) && text_rel(x, u),
    }
}

pub open spec fn item_rel(item: Option<(String, i32, Option<NbtTag>)>, v: Option<(Seq<char>, i32, Option<Seq<char>>)>) -> bool {
    match item {
        None => v is None,
        Some((id, count, comps)) => v matches Some((id2, count2, comps2)) && id@ == id2 && count == count2
            && match comps {
                None => comps2 is None,
                Some(tag) => tag matches NbtTag::String(x) && comps2 == Some(x@),
            },
    }
}

pub open spec fn entity_rel(e: Option<(Option<Box<TextComponent>>, String, u128)>, v: Option<(Option<Seq<char>>, Seq<char>, u128)>) -> bool {
    match e {
        None => v is None,
        Some((name, id, uuid)) => v matches Some((name2, id2, uuid2)) && id@ == id2 && uuid == uuid2
            && match name {
                None => name2 is None,
                Some(b) => name2 matches Some(t) && text_rel(*b, t),
            },
    }
}

/// The hover event holds what was read.
pub open spec fn hover_is(e: HoverEvent, v: HoverOut) -> bool {
    match v {
        HoverOut::ShowText(t) => e matches HoverEvent::ShowText { value } && text_rel(*value, t),
        HoverOut::ShowItem(id, count, comps) => e matches HoverEvent::ShowItem { id: i, count: c, components }
            && item_rel(Some((i, c, components)), Some((id, count, comps))),
        HoverOut::ShowEntity(name, id, uuid) => e matches HoverEvent::ShowEntity { name: n, id: i, uuid: u }
            && entity_rel(Some((n, i, u)), Some((name, id, uuid))),
    }
}

pub open spec fn item_id(item: Option<(Seq<char>, i32, Option<Seq<char>>)>, t: Seq<char>) -> Option<(Seq<char>, i32, Option<Seq<char>>)> {
    match item {
        Some((_, count, comps)) => Some((t, count, comps)),
        None => Some((t, 1, None)),
    }
}

pub open spec fn item_count(item: Option<(Seq<char>, i32, Option<Seq<char>>)>, n: i32) -> Option<(Seq<char>, i32, Option<Seq<char>>)> {
    match item {
        Some((id, _, comps)) => Some((id, n, comps)),
        None => Some(("-None-"@, n, None)),
    }
}

pub open spec fn item_components(item: Option<(Seq<char>, i32, Option<Seq<char>>)>, t: Seq<char>) -> Option<(Seq<char>, i32, Option<Seq<char>>)> {
    match item {
        Some((id, count, _)) => Some((id, count, Some(t))),
        None => Some(("-None-"@, 1, Some(t))),
    }
}

pub open spec fn entity_id(e: Option<(Option<Seq<char>>, Seq<char>, u128)>, t: Seq<char>) -> Option<(Option<Seq<char>>, Seq<char>, u128)> {
    match e {
        Some((name, _, uuid)) => Some((name, t, uuid)),
        None => Some((None, t, 0)),
    }
}

pub open spec fn entity_name(e: Option<(Option<Seq<char>>, Seq<char>, u128)>, t: Seq<char>) -> Option<(Option<Seq<char>>, Seq<char>, u128)> {
    match e {
        Some((_, id, uuid)) => Some((Some(t), id, uuid)),
        None => Some((Some(t), "-None-"@, 0)),
    }
}

pub open spec fn entity_uuid(e: Option<(Option<Seq<char>>, Seq<char>, u128)>, u: u128) -> Option<(Option<Seq<char>>, Seq<char>, u128)> {
    match e {
        Some((name, id, _)) => Some((name, id, u)),
        None => Some((None, "-None-"@, u)),
    }
}

/// The number two ints make as the high and low halves of a `u64`.
pub open spec fn int_pair_spec(high: i32, low: i32) -> u64 {
    (((high as u32) as u64) << 32u64) | ((low as u32) as u64)
}

/// What a hover event's fields read as from position `i` on, with the action and the values
/// read so far, the key being read, and whether a key is being read. `None` where the outcome
/// rests on a component value that is not written as a string (a list or a compound), which
/// this reads only through the full component reader.
pub open spec fn hover_from(
    cs: Seq<char>,
    i: int,
    action: Seq<char>,
    text: Option<Seq<char>>,
    item: Option<(Seq<char>, i32, Option<Seq<char>>)>,
    entity: Option<(Option<Seq<char>>, Seq<char>, u128)>,
    name: Seq<char>,
    in_name: bool,
) -> Option<Result<(HoverOut, int), SnbtErrorV>>
    decreases cs.len() - i,
{
    if i < 0 || i >= cs.len() {
        Some(Err(SnbtErrorV::EndedAbruptely(HOVER_UNCLOSED)))
    } else {
        let c = cs[i];
        if crate::grammar::parser::is_whitespace_spec(c) {
            hover_from(cs, i + 1, action, text, item, entity, name, in_name)
        } else if c == '}' {
            Some(if action == "show_text"@ {
                match text {
                    Some(t) => Ok((HoverOut::ShowText(t), i + 1)),
                    None => Err(SnbtErrorV::Required("\"show_text\""@, "value"@)),
                }
            } else if action == "show_item"@ {
                match item {
                    Some((id, count, comps)) => if id == "-None-"@ {
                        Err(SnbtErrorV::Required("\"show_item\""@, "id"@))
                    } else {
                        Ok((HoverOut::ShowItem(id, count, comps), i + 1))
                    },
                    None => Err(SnbtErrorV::Required("\"show_item\""@, "id"@)),
                }
            } else if action == "show_entity"@ {
                match entity {
                    Some((nm, id, uuid)) => if id == "-None-"@ {
                        Err(SnbtErrorV::Required("\"show_entity\""@, "id"@))
                    } else if uuid == 0 {
                        Err(SnbtErrorV::Required("\"show_entity\""@, "uuid"@))
                    } else {
                        Ok((HoverOut::ShowEntity(nm, id, uuid), i + 1))
                    },
                    None => Err(SnbtErrorV::Required("\"show_entity\""@, "id\", and \"uuid"@)),
                }
            } else {
                Err(SnbtErrorV::WrongContentType("action"@))
            })
        } else if c == ',' {
            hover_from(cs, i + 1, action, text, item, entity, name, true)
        } else if c == '"' || c == '\'' {
            match string_from(cs, i + 1, c, Seq::empty()) {
                Ok((t, q)) => if i < q <= cs.len() {
                    hover_from(cs, q, action, text, item, entity, t, false)
                } else {
                    Some(Err(SnbtErrorV::EndedAbruptely(HOVER_UNCLOSED)))
                },
                Err(e) => Some(Err(e)),
            }
        } else if c == ':' {
            let j = ws_end(cs, i + 1);
            if j < cs.len() {
                let next = cs[j];
                let quoted = next == '"' || next == '\'';
                if name == "action"@ {
                    match string_from(cs, j + 1, next, Seq::empty()) {
                        Ok((t, q)) => if i < q <= cs.len() {
                            hover_from(cs, q, t, text, item, entity, Seq::empty(), false)
                        } else {
                            Some(Err(SnbtErrorV::EndedAbruptely(HOVER_UNCLOSED)))
                        },
                        Err(e) => Some(Err(e)),
                    }
                } else if name == "value"@ {
                    if !quoted {
                        None
                    } else {
                        match string_from(cs, j + 1, next, Seq::empty()) {
                            Ok((t, q)) => if i < q <= cs.len() {
                                hover_from(cs, q, action, Some(t), item, entity, Seq::empty(), false)
                            } else {
                                Some(Err(SnbtErrorV::EndedAbruptely(HOVER_UNCLOSED)))
                            },
                            Err(e) => Some(Err(e)),
                        }
                    }
                } else if name == "id"@ {
                    if !quoted {
                        Some(Err(SnbtErrorV::WrongContentType("id"@)))
                    } else {
                        match string_from(cs, j + 1, next, Seq::empty()) {
                            Ok((t, q)) => if i < q <= cs.len() {
                                hover_from(cs, q, action, text, item_id(item, t), entity_id(entity, t), Seq::empty(), false)
                            } else {
                                Some(Err(SnbtErrorV::EndedAbruptely(HOVER_UNCLOSED)))
                            },
                            Err(e) => Some(Err(e)),
                        }
                    }
                } else if name == "count"@ {
                    match num_spec(next, cs, j + 1, "id"@) {
                        Ok((n, q)) => if i < q <= cs.len() {
                            hover_from(cs, q, action, text, item_count(item, num_i32(n)), entity, Seq::empty(), false)
                        } else {
                            Some(Err(SnbtErrorV::EndedAbruptely(HOVER_UNCLOSED)))
                        },
                        Err(e) => Some(Err(e)),
                    }
                } else if name == "components"@ {
                    if !quoted {
                        Some(Err(SnbtErrorV::WrongContentType("components"@)))
                    } else {
                        match string_from(cs, j + 1, next, Seq::empty()) {
                            Ok((t, q)) => if i < q <= cs.len() {
                                hover_from(cs, q, action, text, item_components(item, t), entity, Seq::empty(), false)
                            } else {
                                Some(Err(SnbtErrorV::EndedAbruptely(HOVER_UNCLOSED)))
                            },
                            Err(e) => Some(Err(e)),
                        }
                    }
                } else if name == "name"@ {
                    if !quoted {
                        None
                    } else {
                        match string_from(cs, j + 1, next, Seq::empty()) {
                            Ok((t, q)) => if i < q <= cs.len() {
                                hover_from(cs, q, action, text, item, entity_name(entity, t), Seq::empty(), false)
                            } else {
                                Some(Err(SnbtErrorV::EndedAbruptely(HOVER_UNCLOSED)))
                            },
                            Err(e) => Some(Err(e)),
                        }
                    }
                } else if name == "uuid"@ {
                    if quoted {
                        match string_from(cs, j + 1, next, Seq::empty()) {
                            Ok((t, q)) => match uuid_parsed(t) {
                                Some(u) => if i < q <= cs.len() {
                                    hover_from(cs, q, action, text, item, entity_uuid(entity, u), Seq::empty(), false)
                                } else {
                                    Some(Err(SnbtErrorV::EndedAbruptely(HOVER_UNCLOSED)))
                                },
                                None => Some(Err(SnbtErrorV::WrongContentType("uuid"@))),
                            },
                            Err(e) => Some(Err(e)),
                        }
                    } else if next == '[' {
                        match ints_from(cs, j + 1, "uuid"@, Seq::empty()) {
                            Ok((v, q)) => if v.len() != 4 {
                                Some(Err(SnbtErrorV::WrongContentType("uuid"@)))
                            } else if i < q <= cs.len() {
                                let u = uuid_of_halves(int_pair_spec(v[0], v[1]), int_pair_spec(v[2], v[3]));
                                hover_from(cs, q, action, text, item, entity_uuid(entity, u), Seq::empty(), false)
                            } else {
                                Some(Err(SnbtErrorV::EndedAbruptely(HOVER_UNCLOSED)))
                            },
                            Err(e) => Some(Err(e)),
                        }
                    } else {
                        Some(Err(SnbtErrorV::WrongContentType("uuid"@)))
                    }
                } else {
                    Some(Err(SnbtErrorV::UnknownKey(name)))
                }
            } else {
                Some(Err(SnbtErrorV::EndedAbruptely(HOVER_UNCLOSED)))
            }
        } else if in_name {
            hover_from(cs, i + 1, action, text, item, entity, name.push(c), in_name)
        } else {
            Some(Err(SnbtErrorV::UnfinishedComponent(HOVER_BAD_CHAR)))
        }
    }
}

/// A hover event whose opening brace is already read: its `action`, and the fields that
/// action takes. Exact wherever every component value in it is written as a string.
pub(crate) fn parse_hover<F: Fn(Vec<char>) -> Option<u32>>(cs: &[char], pos: usize, channel: &F) -> (r: Result<(HoverEvent, usize), SnbtError>)
    requires
        pos <= cs@.len(),
        channel_ok(channel),
    ensures
        r matches Ok((_, p)) ==> pos < p <= cs@.len() && cs@[p - 1] == '}',
        r matches Ok((HoverEvent::ShowItem { id, .. }, _)) ==> id@ != "-None-"@,
        r matches Ok((HoverEvent::ShowEntity { id, uuid, .. }, _)) ==> id@ != "-None-"@ && uuid != 0,
        match hover_from(cs@, pos as int, Seq::empty(), None, None, None, Seq::empty(), true) {
            Some(Ok((v, q))) => r matches Ok((e, p)) && hover_is(e, v) && p == q,
            Some(Err(e)) => r matches Err(x) && x@ == e,
            None => true,
        },
    decreases cs@.len() - pos, 2nat,
{
    let mut action: Vec<char> = Vec::new();
    let mut text: Option<TextComponent> = None;
    let mut item: Option<(String, i32, Option<NbtTag>)> = None;
    let mut entity: Option<(Option<Box<TextComponent>>, String, u128)> = None;
    let mut name: Vec<char> = Vec::new();
    let mut in_name = true;
    let mut i = pos;
    let ghost g = hover_from(cs@, pos as int, Seq::empty(), None, None, None, Seq::empty(), true);
    let ghost mut tv: Option<Seq<char>> = None;
    let ghost mut iv: Option<(Seq<char>, i32, Option<Seq<char>>)> = None;
    let ghost mut ev: Option<(Option<Seq<char>>, Seq<char>, u128)> = None;
    while i < cs.len()
        invariant
            pos <= i <= cs@.len(),
            channel_ok(channel),
            g == hover_from(cs@, pos as int, Seq::empty(), None, None, None, Seq::empty(), true),
            g is Some ==> g == hover_from(cs@, i as int, action@, tv, iv, ev, name@, in_name)
                && opt_text_rel(text, tv) && item_rel(item, iv) && entity_rel(entity, ev),
        decreases cs@.len() - i,
    {
        let ghost i0 = i as int;
        let c = cs[i];
        i = i + 1;
        if is_whitespace(c) {
            continue;
        }
        if c == '}' {
            let a = action.as_slice();
            if eq_lit(a, "show_text") {
                return match text {
                    Some(value) => Ok((HoverEvent::ShowText { value: Box::new(value) }, i)),
                    None => Err(required("\"show_text\"", "value")),
                };
            } else if eq_lit(a, "show_item") {
                return match item {
                    Some((id, count, components)) => {
                        if eq_lit(chars_of(id.as_str()).as_slice(), "-None-") {
                            Err(required("\"show_item\"", "id"))
                        } else {
                            Ok((HoverEvent::ShowItem { id, count, components }, i))
                        }
                    },
                    None => Err(required("\"show_item\"", "id")),
                };
            } else if eq_lit(a, "show_entity") {
                return match entity {
                    Some((name, id, uuid)) => {
                        if eq_lit(chars_of(id.as_str()).as_slice(), "-None-") {
                            Err(required("\"show_entity\"", "id"))
                        } else if uuid == 0 {
                            Err(required("\"show_entity\"", "uuid"))
                        } else {
                            Ok((HoverEvent::ShowEntity { name, id, uuid }, i))
                        }
                    },
                    None => Err(required("\"show_entity\"", "id\", and \"uuid")),
                };
            } else {
                return Err(SnbtError::WrongContentType("action".to_owned()));
            }
        } else if c == ',' {
            in_name = true;
        } else if c == '"' || c == '\'' {
            in_name = false;
            let (s, q) = match parse_string(cs, i, c) {
                Ok(x) => x,
                Err(e) => {
                    return Err(e);
                },
            };
            name = chars_of(s.as_str());
            i = q;
        } else if c == ':' {
            in_name = false;
            let j = crate::snbt::object::skip_ws(cs, i);
            if j < cs.len() {
                let next = cs[j];
                let at = j + 1;
                let n = name.as_slice();
                if eq_lit(n, "action") {
                    let (s, q) = match parse_string(cs, at, next) {
                        Ok(x) => x,
                        Err(e) => {
                            return Err(e);
                        },
                    };
                    action = chars_of(s.as_str());
                    i = q;
                } else if eq_lit(n, "value") {
                    let (v, q) = match parse_value(next, cs, at, channel) {
                        Ok(x) => x,
                        Err(e) => {
                            return Err(e);
                        },
                    };
                    proof {
                        if next == '"' || next == '\'' {
                            tv = Some(v.content->Text_text@);
                        }
                    }
                    text = Some(v);
                    i = q;
                } else if eq_lit(n, "id") {
                    if next != '"' && next != '\'' {
                        return Err(SnbtError::WrongContentType("id".to_owned()));
                    }
                    let (s, q) = match parse_string(cs, at, next) {
                        Ok(x) => x,
                        Err(e) => {
                            return Err(e);
                        },
                    };
                    proof {
                        iv = item_id(iv, s@);
                        ev = entity_id(ev, s@);
                    }
                    item = match item {
                        Some((_, count, components)) => Some((s.clone(), count, components)),
                        None => Some((s.clone(), 1, None)),
                    };
                    entity = match entity {
                        Some((name, _, uuid)) => Some((name, s, uuid)),
                        None => Some((None, s, 0)),
                    };
                    i = q;
                } else if eq_lit(n, "count") {
                    let (num, q) = match parse_num(next, cs, at, "id") {
                        Ok(x) => x,
                        Err(e) => {
                            return Err(e);
                        },
                    };
                    let count = as_i32(&num);
                    proof {
                        iv = item_count(iv, count);
                    }
                    item = match item {
                        Some((id, _, components)) => Some((id, count, components)),
                        None => Some(("-None-".to_owned(), count, None)),
                    };
                    i = q;
                } else if eq_lit(n, "components") {
                    if next != '"' && next != '\'' {
                        return Err(SnbtError::WrongContentType("components".to_owned()));
                    }
                    let (s, q) = match parse_string(cs, at, next) {
                        Ok(x) => x,
                        Err(e) => {
                            return Err(e);
                        },
                    };
                    proof {
                        iv = item_components(iv, s@);
                    }
                    item = match item {
                        Some((id, count, _)) => Some((id, count, Some(NbtTag::String(s)))),
                        None => Some(("-None-".to_owned(), 1, Some(NbtTag::String(s)))),
                    };
                    i = q;
                } else if eq_lit(n, "name") {
                    let (v, q) = match parse_value(next, cs, at, channel) {
                        Ok(x) => x,
                        Err(e) => {
                            return Err(e);
                        },
                    };
                    proof {
                        if next == '"' || next == '\'' {
                            ev = entity_name(ev, v.content->Text_text@);
                        }
                    }
                    entity = match entity {
                        Some((_, id, uuid)) => Some((Some(Box::new(v)), id, uuid)),
                        None => Some((Some(Box::new(v)), "-None-".to_owned(), 0)),
                    };
                    i = q;
                } else if eq_lit(n, "uuid") {
                    let (uuid, q) = if next == '"' || next == '\'' {
                        let (s, q) = match parse_string(cs, at, next) {
                            Ok(x) => x,
                            Err(e) => {
                                return Err(e);
                            },
                        };
                        match parse_uuid(s.as_str()) {
                            Some(u) => (u, q),
                            None => {
                                return Err(SnbtError::WrongContentType("uuid".to_owned()));
                            },
                        }
                    } else if next == '[' {
                        let (nums, q) = match parse_int_vec(cs, at, "uuid") {
                            Ok(x) => x,
                            Err(e) => {
                                return Err(e);
                            },
                        };
                        if nums.len() != 4 {
                            return Err(SnbtError::WrongContentType("uuid".to_owned()));
                        }
                        (uuid_from_halves(int_pair(nums[0], nums[1]), int_pair(nums[2], nums[3])), q)
                    } else {
                        return Err(SnbtError::WrongContentType("uuid".to_owned()));
                    };
                    proof {
                        ev = entity_uuid(ev, uuid);
                    }
                    entity = match entity {
                        Some((name, id, _)) => Some((name, id, uuid)),
                        None => Some((None, "-None-".to_owned(), uuid)),
                    };
                    i = q;
                } else {
                    return Err(SnbtError::UnknownKey(crate::chars::string_of(n)));
                }
                take_name(&mut name);
            } else {
                i = j;
            }
        } else if in_name {
            name.push(c);
        } else {
            return Err(SnbtError::UnfinishedComponent(HOVER_BAD_CHAR));
        }
    }
    Err(SnbtError::EndedAbruptely(HOVER_UNCLOSED))
}

} // verus!
