//! A text component pre-encoded as network NBT.
use vstd::prelude::*;

verus! {

/// A text component pre-encoded as network NBT (`[tag type][payload]`).
#[derive(Debug, Clone, PartialEq, Eq)]
pub struct EncodedComponent {
    bytes: Vec<u8>,
}

impl View for EncodedComponent {
    type V = Seq<u8>;

    closed spec fn view(&self) -> Seq<u8> {
        self.bytes@
    }
}

impl EncodedComponent {
    /// Wraps already-encoded `'static` bytes.
    pub fn from_static(bytes: &'static [u8]) -> (r: EncodedComponent)
        ensures
            r@ == bytes@,
    {
        let mut v: Vec<u8> = Vec::new();
        let mut i: usize = 0;
        while i < bytes.len()
            invariant
                i <= bytes@.len(),
                v@ == bytes@.subrange(0, i as int),
            decreases bytes@.len() - i,
        {
            v.push(bytes[i]);
            i = i + 1;
            assert(v@ =~= bytes@.subrange(0, i as int));
        }
        assert(bytes@.subrange(0, bytes@.len() as int) =~= bytes@);
        EncodedComponent { bytes: v }
    }

    /// Wraps already-encoded bytes.
    pub fn from_vec(bytes: Vec<u8>) -> (r: EncodedComponent)
        ensures
            r@ == bytes@,
    {
        EncodedComponent { bytes }
    }

    /// The encoded bytes.
    pub fn as_bytes(&self) -> (r: &[u8])
        ensures
            r@ == self@,
    {
        self.bytes.as_slice()
    }

    /// Takes the encoded bytes.
    pub fn into_bytes(self) -> (r: Vec<u8>)
        ensures
            r@ == self@,
    {
        self.bytes
    }

    /// The hint a `{@}` hole gives when the component is already encoded: nothing to do at
    /// run time.
    pub fn already_encoded(&self) {
    }
}

/// Content a component carries that only resolution can fill in.
#[derive(Debug, Clone, Copy, PartialEq, Eq, Hash)]
pub enum UnresolvedContent {
    /// A scoreboard value.
    Scoreboard,
    /// An entity selector.
    Entity,
    /// An NBT value.
    Nbt,
    /// A custom payload.
    Custom,
}

/// What the content is, as the error message names it.
pub open spec fn unresolved_name(u: UnresolvedContent) -> Seq<char> {
    match u {
        UnresolvedContent::Scoreboard => "a scoreboard value"@,
        UnresolvedContent::Entity => "an entity selector"@,
        UnresolvedContent::Nbt => "an NBT value"@,
        UnresolvedContent::Custom => "custom content"@,
    }
}

impl UnresolvedContent {
    /// What the content is, as the error message names it.
    pub fn name(self) -> (r: &'static str)
        ensures
            r@ == unresolved_name(self),
    {
        match self {
            UnresolvedContent::Scoreboard => "a scoreboard value",
            UnresolvedContent::Entity => "an entity selector",
            UnresolvedContent::Nbt => "an NBT value",
            UnresolvedContent::Custom => "custom content",
        }
    }

    /// The error message: why the component cannot be encoded yet.
    pub fn message(self) -> (r: String)
        ensures
            r@ == "the component contains "@ + unresolved_name(self)
                + ", which has to be resolved before it can be encoded"@,
    {
        let mut m = "the component contains ".to_owned();
        m.push_str(self.name());
        m.push_str(", which has to be resolved before it can be encoded");
        m
    }
}


/// The no-op branch of the `already_encoded` hint: every type has it.
pub trait AlreadyEncoded {
    fn already_encoded(&self) {
    }
}

impl<T: ?Sized> AlreadyEncoded for T {
}

/// Renders a component as the NBT tag vanilla's component codec expects.
pub struct NbtBuilder;

} // verus!
