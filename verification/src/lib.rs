//! Minecraft text components: a styled text tree, its network NBT encoding and decoding,
//! and the MiniMessage template language that builds both.
use vstd::prelude::*;

pub mod chars;
pub mod grammar;
pub mod format;
pub mod content;
pub mod nbt;
pub mod translation;
pub mod decode;
pub mod interactivity;
pub mod resolving;
pub mod fill;
pub mod component;
pub mod duplicate;
pub mod minimessage;
pub mod sorted_names;
pub mod snbt;
pub mod parity;

verus! {
} // verus!
