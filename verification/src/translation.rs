//! Translation keys and their pre-encoded messages.
use vstd::prelude::*;
use crate::grammar::emit::{mutf8, TAG_COMPOUND, TAG_STRING};
use crate::nbt::encoded::EncodedComponent;
use crate::nbt::writers::{nbt_string, write_mutf8};
use crate::component::TextComponent;

verus! {

/// A translation key that takes exactly `ARGS` arguments.
#[derive(Debug, Clone, Copy, PartialEq, Eq, Hash)]
pub struct Translation<const ARGS: usize>(pub &'static str);

/// The `with` list of a translated message.
#[derive(Debug, PartialEq)]
pub enum Args {
    /// No `with` field at all.
    Absent,
    Owned(Vec<TextComponent>),
}

/// The arguments, empty for `Args::Absent`.
pub open spec fn args_seq(a: Args) -> Seq<TextComponent> {
    match a {
        Args::Absent => Seq::empty(),
        Args::Owned(v) => v@,
    }
}

impl Args {
    /// Whether there is no `with` field at all.
    pub fn is_none(&self) -> (r: bool)
        ensures
            r == (*self is Absent),
    {
        match self {
            Args::Absent => true,
            Args::Owned(_) => false,
        }
    }

    /// The arguments, empty for `Args::Absent`.
    pub fn as_slice(&self) -> (r: &[TextComponent])
        ensures
            r@ == args_seq(*self),
    {
        match self {
            Args::Absent => &[],
            Args::Owned(v) => v.as_slice(),
        }
    }

    /// The arguments in order, each by reference.
    pub fn iter(&self) -> (r: Vec<&TextComponent>)
        ensures
            r@.len() == args_seq(*self).len(),
            forall|i: int| 0 <= i < r@.len() ==> *r@[i] == args_seq(*self)[i],
    {
        let s = self.as_slice();
        let mut out: Vec<&TextComponent> = Vec::new();
        let mut i: usize = 0;
        while i < s.len()
            invariant
                i <= s@.len(),
                s@ == args_seq(*self),
                out@.len() == i,
                forall|j: int| 0 <= j < i ==> *out@[j] == s@[j],
            decreases s@.len() - i,
        {
            out.push(&s[i]);
            i = i + 1;
        }
        out
    }

    /// Whether there are no arguments.
    pub fn is_empty(&self) -> (r: bool)
        ensures
            r == (args_seq(*self).len() == 0),
    {
        self.as_slice().len() == 0
    }
}

/// A translation key with its arguments and fallback.
#[derive(Debug, PartialEq)]
pub struct TranslatedMessage {
    pub key: String,
    /// Text shown when the key is unknown.
    pub fallback: Option<String>,
    pub args: Args,
}

impl TranslatedMessage {
    /// A message without fallback.
    pub fn new(key: &'static str, args: Args) -> (r: TranslatedMessage)
        ensures
            r.key@ == key@,
            r.fallback is None,
            r.args == args,
    {
        TranslatedMessage { key: key.to_owned(), fallback: None, args }
    }

    /// A message showing `fallback` when the key is unknown.
    pub fn with_fallback(key: &'static str, fallback: &'static str, args: Args) -> (r: TranslatedMessage)
        ensures
            r.key@ == key@,
            r.fallback matches Some(f) && f@ == fallback@,
            r.args == args,
    {
        TranslatedMessage { key: key.to_owned(), fallback: Some(fallback.to_owned()), args }
    }
}

/// A translation with no arguments as network NBT: a compound holding only `translate`.
pub open spec fn translation_nbt(key: Seq<char>) -> Seq<u8> {
    seq![TAG_COMPOUND, TAG_STRING] + nbt_string("translate"@) + nbt_string(key) + seq![0u8]
}

impl Translation<0> {
    /// The message with no arguments.
    pub fn msg(&self) -> (r: TranslatedMessage)
        ensures
            r.key@ == self.0@,
            r.fallback is None,
            r.args == Args::Absent,
    {
        TranslatedMessage::new(self.0, Args::Absent)
    }

    /// The message pre-encoded as network NBT, ready to write into a packet.
    pub fn encode(&self) -> (r: EncodedComponent)
        requires
            mutf8(self.0@).len() <= 0xFFFF,
        ensures
            r@ == translation_nbt(self.0@),
    {
        let mut buf: Vec<u8> = Vec::new();
        buf.push(TAG_COMPOUND);
        buf.push(TAG_STRING);
        proof {
            reveal_strlit("translate");
            crate::grammar::emit::lemma_mutf8_len_ascii_bound("translate"@);
        }
        write_mutf8(&mut buf, "translate");
        write_mutf8(&mut buf, self.0);
        buf.push(0);
        assert(buf@ =~= translation_nbt(self.0@));
        EncodedComponent::from_vec(buf)
    }
}

} // verus!
