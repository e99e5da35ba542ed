//! The MiniMessage grammar: one parser shared by every consumer.
pub mod ir;
pub mod copy;
pub mod tags;
pub mod error;
pub mod inspect;
pub mod gradient;
pub mod parser;
pub mod emit;
pub mod written;
