//! Why reading a component back failed: from SNBT text, or from an NBT tree.
use vstd::prelude::*;
use crate::chars::{decimal, decimal_chars, push_chars};

verus! {

/// Why SNBT parsing failed.
#[derive(Debug, PartialEq)]
pub enum SnbtError {
    /// The SNBT ran out mid-component; the payload is the parser line that gave up.
    EndedAbruptely(u32),
    /// A component closed while the parser still expected more; the payload is the parser
    /// line that gave up.
    UnfinishedComponent(u32),
    WrongContentType(String),
    UnknownKey(String),
    MissingContent,
    UnknownColor(String),
    NumberOverflow(String, String),
    Required(String, String),
}

/// The model of an SNBT error: its texts as chars.
pub enum SnbtErrorV {
    EndedAbruptely(u32),
    UnfinishedComponent(u32),
    WrongContentType(Seq<char>),
    UnknownKey(Seq<char>),
    MissingContent,
    UnknownColor(Seq<char>),
    NumberOverflow(Seq<char>, Seq<char>),
    Required(Seq<char>, Seq<char>),
}

impl View for SnbtError {
    type V = SnbtErrorV;

    open spec fn view(&self) -> SnbtErrorV {
        match *self {
            SnbtError::EndedAbruptely(i) => SnbtErrorV::EndedAbruptely(i),
            SnbtError::UnfinishedComponent(i) => SnbtErrorV::UnfinishedComponent(i),
            SnbtError::WrongContentType(c) => SnbtErrorV::WrongContentType(c@),
            SnbtError::UnknownKey(k) => SnbtErrorV::UnknownKey(k@),
            SnbtError::MissingContent => SnbtErrorV::MissingContent,
            SnbtError::UnknownColor(c) => SnbtErrorV::UnknownColor(c@),
            SnbtError::NumberOverflow(c, n) => SnbtErrorV::NumberOverflow(c@, n@),
            SnbtError::Required(c, v) => SnbtErrorV::Required(c@, v@),
        }
    }
}

/// The message of an SNBT error.
pub open spec fn snbt_message(e: SnbtError) -> Seq<char> {
    match e {
        SnbtError::EndedAbruptely(i) => "The SNBT ended in the middle of the component. (Line: "@
            + decimal(i as nat) + ")"@,
        SnbtError::UnfinishedComponent(i) => "A component finished at some point, blocking the parsing. (Line: "@
            + decimal(i as nat) + ")"@,
        SnbtError::WrongContentType(c) => "Invalid content for the value of "@ + c@ + "."@,
        SnbtError::UnknownKey(k) => "The key \""@ + k@ + "\" is unknown."@,
        SnbtError::MissingContent => "There's a component without any content."@,
        SnbtError::UnknownColor(c) => "The color \""@ + c@ + "\" can't be parsed."@,
        SnbtError::NumberOverflow(c, n) => "In "@ + c@ + ", the value marked as "@ + n@ + " overflows."@,
        SnbtError::Required(c, v) => c@ + " requires \""@ + v@ + "\" to work, but it's missing."@,
    }
}

fn text3(a: &str, mid: &String, b: &str) -> (r: String)
    ensures
        r@ == a@ + mid@ + b@,
{
    let mut s = a.to_owned();
    s.push_str(mid.as_str());
    s.push_str(b);
    s
}

impl SnbtError {
    /// What went wrong, as a sentence.
    pub fn message(&self) -> (r: String)
        ensures
            r@ == snbt_message(*self),
    {
        match self {
            SnbtError::EndedAbruptely(i) => {
                let mut s = "The SNBT ended in the middle of the component. (Line: ".to_owned();
                let d = decimal_chars(*i as u64);
                push_chars(&mut s, d.as_slice());
                s.push_str(")");
                s
            },
            SnbtError::UnfinishedComponent(i) => {
                let mut s = "A component finished at some point, blocking the parsing. (Line: ".to_owned();
                let d = decimal_chars(*i as u64);
                push_chars(&mut s, d.as_slice());
                s.push_str(")");
                s
            },
            SnbtError::WrongContentType(c) => text3("Invalid content for the value of ", c, "."),
            SnbtError::UnknownKey(k) => text3("The key \"", k, "\" is unknown."),
            SnbtError::MissingContent => "There's a component without any content.".to_owned(),
            SnbtError::UnknownColor(c) => text3("The color \"", c, "\" can't be parsed."),
            SnbtError::NumberOverflow(c, n) => {
                let mut s = text3("In ", c, ", the value marked as ");
                s.push_str(n.as_str());
                s.push_str(" overflows.");
                s
            },
            SnbtError::Required(c, v) => {
                let mut s = c.clone();
                s.push_str(" requires \"");
                s.push_str(v.as_str());
                s.push_str("\" to work, but it's missing.");
                s
            },
        }
    }
}

/// Why an NBT tree is not a text component.
#[derive(Debug, Clone, PartialEq, Eq)]
pub enum ComponentDecodeError {
    ExpectedComponent,
    EmptyComponentList,
    MissingField(&'static str),
    InvalidField { field: &'static str, expected: &'static str },
    UnknownContentType(String),
    UnknownObjectType(String),
    UnknownDataSource(String),
    UnknownClickAction(String),
    UnknownHoverAction(String),
    NoMatchingContent,
    ConflictingNbtFlags,
}

/// The message of a decode error.
pub open spec fn decode_message(e: ComponentDecodeError) -> Seq<char> {
    match e {
        ComponentDecodeError::ExpectedComponent => "expected a text component"@,
        ComponentDecodeError::EmptyComponentList => "component lists cannot be empty"@,
        ComponentDecodeError::MissingField(f) => "missing required field `"@ + f@ + "`"@,
        ComponentDecodeError::InvalidField { field, expected } => "field `"@ + field@ + "` must be "@ + expected@,
        ComponentDecodeError::UnknownContentType(v) => "unknown component type `"@ + v@ + "`"@,
        ComponentDecodeError::UnknownObjectType(v) => "unknown object type `"@ + v@ + "`"@,
        ComponentDecodeError::UnknownDataSource(v) => "unknown NBT source `"@ + v@ + "`"@,
        ComponentDecodeError::UnknownClickAction(v) => "unknown click action `"@ + v@ + "`"@,
        ComponentDecodeError::UnknownHoverAction(v) => "unknown hover action `"@ + v@ + "`"@,
        ComponentDecodeError::NoMatchingContent => "no matching component content"@,
        ComponentDecodeError::ConflictingNbtFlags => "`interpret` and `plain` cannot both be enabled"@,
    }
}

impl ComponentDecodeError {
    /// What went wrong, as a sentence.
    pub fn message(&self) -> (r: String)
        ensures
            r@ == decode_message(*self),
    {
        match self {
            ComponentDecodeError::ExpectedComponent => "expected a text component".to_owned(),
            ComponentDecodeError::EmptyComponentList => "component lists cannot be empty".to_owned(),
            ComponentDecodeError::MissingField(f) => {
                let mut s = "missing required field `".to_owned();
                s.push_str(f);
                s.push_str("`");
                s
            },
            ComponentDecodeError::InvalidField { field, expected } => {
                let mut s = "field `".to_owned();
                s.push_str(field);
                s.push_str("` must be ");
                s.push_str(expected);
                s
            },
            ComponentDecodeError::UnknownContentType(v) => text3("unknown component type `", v, "`"),
            ComponentDecodeError::UnknownObjectType(v) => text3("unknown object type `", v, "`"),
            ComponentDecodeError::UnknownDataSource(v) => text3("unknown NBT source `", v, "`"),
            ComponentDecodeError::UnknownClickAction(v) => text3("unknown click action `", v, "`"),
            ComponentDecodeError::UnknownHoverAction(v) => text3("unknown hover action `", v, "`"),
            ComponentDecodeError::NoMatchingContent => "no matching component content".to_owned(),
            ComponentDecodeError::ConflictingNbtFlags => "`interpret` and `plain` cannot both be enabled".to_owned(),
        }
    }
}

} // verus!
