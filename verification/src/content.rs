//! What a component displays: player heads and the sources NBT content reads from.
use vstd::prelude::*;
use crate::chars::{push_signed_decimal, signed_decimal};
use crate::component::TextComponent;

verus! {

/// The arm width of a player skin.
#[derive(Debug, Clone, Copy, PartialEq, Eq, Hash)]
pub enum PlayerModel {
    Slim,
    Wide,
}

/// A signed skin property from the session server.
#[derive(Debug, Clone, PartialEq, Eq, Hash)]
pub struct PlayerProperties {
    pub name: String,
    pub value: String,
    pub signature: Option<String>,
}

/// The player a head object renders, named by any one of these fields.
#[derive(Debug, Clone, PartialEq, Eq, Hash)]
pub struct ObjectPlayer {
    pub name: Option<String>,
    pub id: Option<[i32; 4]>,
    pub texture: Option<String>,
    pub cape: Option<String>,
    pub elytra: Option<String>,
    pub model: Option<PlayerModel>,
    pub properties: Vec<PlayerProperties>,
}

/// Cape, elytra and model unset, as every constructor leaves them.
pub open spec fn player_only(p: ObjectPlayer) -> bool {
    &&& p.cape is None
    &&& p.elytra is None
    &&& p.model is None
}

impl ObjectPlayer {
    /// A player named by name.
    pub fn name(name: String) -> (r: ObjectPlayer)
        ensures
            r.name == Some(name),
            r.id is None,
            r.texture is None,
            player_only(r),
            r.properties@.len() == 0,
    {
        ObjectPlayer {
            name: Some(name),
            id: None,
            texture: None,
            cape: None,
            elytra: None,
            model: None,
            properties: Vec::new(),
        }
    }

    /// A player named by a name known at compile time.
    pub fn const_name(name: &'static str) -> (r: ObjectPlayer)
        ensures
            r.name matches Some(n) && n@ == name@,
            r.id is None,
            r.texture is None,
            player_only(r),
            r.properties@.len() == 0,
    {
        ObjectPlayer {
            name: Some(name.to_owned()),
            id: None,
            texture: None,
            cape: None,
            elytra: None,
            model: None,
            properties: Vec::new(),
        }
    }

    /// A player named by the four ints of its id.
    pub fn id(id: [i32; 4]) -> (r: ObjectPlayer)
        ensures
            r.name is None,
            r.id == Some(id),
            r.texture is None,
            player_only(r),
            r.properties@.len() == 0,
    {
        ObjectPlayer {
            name: None,
            id: Some(id),
            texture: None,
            cape: None,
            elytra: None,
            model: None,
            properties: Vec::new(),
        }
    }

    /// A player named by the path to a texture of a resource pack.
    pub fn texture(path: String) -> (r: ObjectPlayer)
        ensures
            r.name is None,
            r.id is None,
            r.texture == Some(path),
            player_only(r),
            r.properties@.len() == 0,
    {
        ObjectPlayer {
            name: None,
            id: None,
            texture: Some(path),
            cape: None,
            elytra: None,
            model: None,
            properties: Vec::new(),
        }
    }

    /// A player named by its skin property: one `textures` property with this value.
    pub fn property(value: String, signature: Option<String>) -> (r: ObjectPlayer)
        ensures
            r.name is None,
            r.id is None,
            r.texture is None,
            player_only(r),
            r.properties@.len() == 1,
            r.properties@[0].name@ == "textures"@,
            r.properties@[0].value == value,
            r.properties@[0].signature == signature,
    {
        let mut properties: Vec<PlayerProperties> = Vec::new();
        properties.push(PlayerProperties { name: "textures".to_owned(), value, signature });
        ObjectPlayer {
            name: None,
            id: None,
            texture: None,
            cape: None,
            elytra: None,
            model: None,
            properties,
        }
    }

    /// Whether nothing names the player.
    pub fn is_empty(&self) -> (r: bool)
        ensures
            r == (self.name is None && self.id is None && self.texture is None && self.cape is None
                && self.elytra is None && self.model is None && self.properties@.len() == 0),
    {
        self.name.is_none() && self.id.is_none() && self.texture.is_none() && self.cape.is_none()
            && self.elytra.is_none() && self.model.is_none() && self.properties.len() == 0
    }
}

/// Where NBT content reads its tag from.
#[derive(Debug, Clone, PartialEq, Eq, Hash)]
pub enum NbtSource {
    Entity(String),
    Block(String),
    Storage(String),
}

/// Block coordinates as the codec writes them: `x y z`.
pub open spec fn block_pos_text(x: i32, y: i32, z: i32) -> Seq<char> {
    signed_decimal(x as int) + seq![' '] + signed_decimal(y as int) + seq![' '] + signed_decimal(z as int)
}

impl NbtSource {
    /// The entities an entity selector matches.
    pub fn entity(selector: String) -> (r: NbtSource)
        ensures
            r == NbtSource::Entity(selector),
    {
        NbtSource::Entity(selector)
    }

    /// The block at these coordinates.
    pub fn block(x: i32, y: i32, z: i32) -> (r: NbtSource)
        ensures
            r matches NbtSource::Block(s) && s@ == block_pos_text(x, y, z),
    {
        let mut s = String::new();
        push_signed_decimal(&mut s, x as i64);
        s.push(' ');
        push_signed_decimal(&mut s, y as i64);
        s.push(' ');
        push_signed_decimal(&mut s, z as i64);
        assert(s@ =~= block_pos_text(x, y, z));
        NbtSource::Block(s)
    }

    /// A command storage, by its identifier.
    pub fn storage(identifier: String) -> (r: NbtSource)
        ensures
            r == NbtSource::Storage(identifier),
    {
        NbtSource::Storage(identifier)
    }
}


/// An image drawn inline with the text.
#[derive(Debug, PartialEq)]
pub enum Object {
    Atlas { atlas: String, sprite: String, fallback: Option<Box<TextComponent>> },
    Player {
        /// The player profile to render.
        player: Box<ObjectPlayer>,
        hat: bool,
        fallback: Option<Box<TextComponent>>,
    },
}

/// Content whose value the server has to look up.
#[derive(Debug, PartialEq)]
pub enum Resolvable {
    /// The selector must only accept one target.
    Scoreboard { selector: String, objective: String },
    Entity { selector: String, separator: Option<Box<TextComponent>> },
    NBT {
        path: String,
        /// Whether selected NBT values should be decoded as components.
        interpret: bool,
        /// Whether non-interpreted NBT should omit rich type styling.
        plain: bool,
        separator: Option<Box<TextComponent>>,
        source: NbtSource,
    },
}

/// What a component displays.
#[derive(Debug, PartialEq)]
pub enum Content {
    Text { text: String },
    Translate(crate::translation::TranslatedMessage),
    Keybind { keybind: String },
    Object(Object),
    Resolvable(Resolvable),
}

} // verus!
