//! Values a component holds either borrowed for the whole program or owned.
use vstd::prelude::*;
use crate::component::TextComponent;
use crate::nbt::tag::NbtTag;

verus! {

/// A `'static` borrow or a heap-owned value.
pub enum MaybeStatic<T: 'static> {
    Static(&'static T),
    Owned(Box<T>),
}

/// The value either way.
pub open spec fn maybe_static_value<T>(m: MaybeStatic<T>) -> T {
    match m {
        MaybeStatic::Static(v) => *v,
        MaybeStatic::Owned(v) => *v,
    }
}

impl<T> MaybeStatic<T> {
    /// The value, borrowed.
    pub fn get(&self) -> (r: &T)
        ensures
            *r == maybe_static_value(*self),
    {
        match self {
            MaybeStatic::Static(v) => v,
            MaybeStatic::Owned(v) => v,
        }
    }
}


/// The dialog a show-dialog click opens.
#[derive(Debug, PartialEq)]
pub enum Dialog {
    /// The id of a dialog in the registry.
    Reference(String),
    /// A dialog definition carried in the component.
    Inline(NbtTag),
}

/// What happens when a component is clicked.
#[derive(Debug, PartialEq)]
pub enum ClickEvent {
    OpenUrl { url: String },
    RunCommand { command: String },
    SuggestCommand { command: String },
    ChangePage { page: i32 },
    CopyToClipboard { value: String },
    ShowDialog { dialog: Dialog },
}

/// What is shown when a component is hovered.
#[derive(Debug, PartialEq)]
pub enum HoverEvent {
    ShowText { value: Box<TextComponent> },
    ShowItem { id: String, count: i32, components: Option<NbtTag> },
    /// The UUID as one 128-bit number, most significant bits first.
    ShowEntity { name: Option<Box<TextComponent>>, id: String, uuid: u128 },
}

/// The click behavior, hover behavior, and chat insertion of a component.
#[derive(Debug, PartialEq)]
pub struct Interactivity {
    pub insertion: Option<String>,
    pub click: Option<ClickEvent>,
    pub hover: Option<HoverEvent>,
}

/// Item components as a hover keeps them: an empty compound counts as none.
pub open spec fn kept_components(c: Option<NbtTag>) -> Option<NbtTag> {
    match c {
        Some(NbtTag::Compound(v)) => if v@.len() == 0 { None } else { c },
        _ => c,
    }
}

/// Nothing set.
pub open spec fn interactivity_none(i: Interactivity) -> bool {
    i.insertion is None && i.click is None && i.hover is None
}

impl Interactivity {
    /// An interactivity with nothing set.
    pub fn new() -> (r: Interactivity)
        ensures
            interactivity_none(r),
    {
        Interactivity { insertion: None, click: None, hover: None }
    }

    /// Whether nothing is set.
    pub fn is_none(&self) -> (r: bool)
        ensures
            r == interactivity_none(*self),
    {
        self.insertion.is_none() && self.click.is_none() && self.hover.is_none()
    }
}

impl ClickEvent {
    /// Opens a url when clicked.
    pub fn open_url(url: String) -> (r: ClickEvent)
        ensures
            r == (ClickEvent::OpenUrl { url }),
    {
        ClickEvent::OpenUrl { url }
    }

    /// Runs a command when clicked.
    pub fn run_command(command: String) -> (r: ClickEvent)
        ensures
            r == (ClickEvent::RunCommand { command }),
    {
        ClickEvent::RunCommand { command }
    }

    /// Replaces the chat input with a command when clicked.
    pub fn suggest_command(command: String) -> (r: ClickEvent)
        ensures
            r == (ClickEvent::SuggestCommand { command }),
    {
        ClickEvent::SuggestCommand { command }
    }

    /// Turns a book to a page when clicked; the page is stored as the codec's `i32`.
    pub fn change_page(page: u32) -> (r: ClickEvent)
        ensures
            r == (ClickEvent::ChangePage { page: page as i32 }),
    {
        ClickEvent::ChangePage { page: page as i32 }
    }

    /// Copies a value to the clipboard when clicked.
    pub fn copy_to_clipboard(value: String) -> (r: ClickEvent)
        ensures
            r == (ClickEvent::CopyToClipboard { value }),
    {
        ClickEvent::CopyToClipboard { value }
    }

    /// Shows a registered dialog when clicked.
    pub fn show_dialog(dialog: String) -> (r: ClickEvent)
        ensures
            r == (ClickEvent::ShowDialog { dialog: Dialog::Reference(dialog) }),
    {
        ClickEvent::ShowDialog { dialog: Dialog::Reference(dialog) }
    }
}

impl HoverEvent {
    /// Shows a text component on hover.
    pub fn show_text(text: TextComponent) -> (r: HoverEvent)
        ensures
            r == (HoverEvent::ShowText { value: Box::new(text) }),
    {
        HoverEvent::ShowText { value: Box::new(text) }
    }

    /// Shows an item on hover; the count defaults to one, and an empty compound of
    /// components is dropped.
    pub fn show_item(id: String, count: Option<i32>, components: Option<NbtTag>) -> (r: HoverEvent)
        ensures
            r == (HoverEvent::ShowItem {
                id,
                count: match count { Some(c) => c, None => 1 },
                components: kept_components(components),
            }),
    {
        let count = match count {
            Some(c) => c,
            None => 1,
        };
        let components = match components {
            Some(NbtTag::Compound(v)) => if v.len() == 0 { None } else { Some(NbtTag::Compound(v)) },
            other => other,
        };
        HoverEvent::ShowItem { id, count, components }
    }

    /// Shows an entity on hover.
    pub fn show_entity(id: String, uuid: u128, name: Option<TextComponent>) -> (r: HoverEvent)
        ensures
            r == (HoverEvent::ShowEntity {
                name: match name { Some(n) => Some(Box::new(n)), None => None },
                id,
                uuid,
            }),
    {
        let name = match name {
            Some(n) => Some(Box::new(n)),
            None => None,
        };
        HoverEvent::ShowEntity { name, id, uuid }
    }
}

} // verus!
