//! Resolving server-side content, fallible and depth-limited.

use std::cell::Cell;
use std::convert::Infallible;

use text_components::component::TextComponent;
use text_components::content::{Content, Object, Resolvable};
use text_components::format::{Color, Format};
use text_components::interactivity::{ClickEvent, HoverEvent, Interactivity};
use text_components::resolving::{split_translation, NoResolutor, TextResolutor, TryTextResolutor};
use text_components::translation::{Args, TranslatedMessage};

struct Resolver {
    calls: Cell<usize>,
}

impl TryTextResolutor for Resolver {
    type Error = &'static str;

    fn try_resolve_content(&self, resolvable: &Resolvable, _recursion_depth: usize) -> Result<TextComponent, Self::Error> {
        self.calls.set(self.calls.get() + 1);
        match resolvable {
            Resolvable::Entity { selector, .. } if selector == "@error" => Err("selector failed"),
            Resolvable::Entity { selector, .. } => Ok(TextComponent::plain(format!("resolved:{selector}"))),
            _ => Ok(TextComponent::new()),
        }
    }
}

fn entity(selector: &str) -> TextComponent {
    TextComponent::entity(selector.to_string(), None)
}

#[test]
fn fallible_resolution_propagates_content_errors() {
    let resolver = Resolver { calls: Cell::new(0) };
    let component = entity("@error");

    assert_eq!(component.try_resolve(&resolver), Err("selector failed"));
}

#[test]
fn resolution_reaches_hover_text_and_object_fallbacks() {
    let resolver = Resolver { calls: Cell::new(0) };
    let mut component = TextComponent {
        content: Content::Object(Object::Atlas {
            atlas: "minecraft:blocks".to_string(),
            sprite: "minecraft:item/diamond".to_string(),
            fallback: Some(Box::new(entity("@fallback"))),
        }),
        children: Vec::new(),
        format: Format::new(),
        interactions: Interactivity::new(),
    };
    component.interactions.hover = Some(HoverEvent::show_text(entity("@hover")));

    let output = component.try_resolve(&resolver).expect("nested resolution should succeed");
    assert!(matches!(
        output.content,
        Content::Object(Object::Atlas {
            fallback: Some(ref fallback),
            ..
        }) if **fallback == TextComponent::plain("resolved:@fallback".to_string())
    ));
    assert!(matches!(
        output.interactions.hover,
        Some(HoverEvent::ShowText { ref value })
            if **value == TextComponent::plain("resolved:@hover".to_string())
    ));
    assert_eq!(resolver.calls.get(), 2);
}

#[test]
fn depth_limit_copies_remaining_components_without_resolving_them() {
    let resolver = Resolver { calls: Cell::new(0) };
    let unresolved = entity("@deep");
    let mut component = unresolved.duplicate();
    for _ in 0..=100 {
        let mut parent = TextComponent::new();
        parent.children.push(component);
        component = parent;
    }

    let output = component.try_resolve(&resolver).expect("depth limiting should not fail");
    let mut current = &output;
    for _ in 0..=100 {
        current = &current.children[0];
    }
    assert_eq!(current, &unresolved);
    assert_eq!(resolver.calls.get(), 0);
}

struct InfallibleResolver;

impl TryTextResolutor for InfallibleResolver {
    type Error = Infallible;

    fn try_resolve_content(&self, _resolvable: &Resolvable, _recursion_depth: usize) -> Result<TextComponent, Self::Error> {
        Ok(TextComponent::plain("resolved".to_string()))
    }
}

#[test]
fn try_resolve_supports_infallible_resolvers() {
    assert_eq!(
        entity("@s").try_resolve(&InfallibleResolver),
        Ok(TextComponent::plain("resolved".to_string()))
    );
}

#[test]
fn own_style_and_events_win_over_the_resolved_content() {
    struct Styled;
    impl TryTextResolutor for Styled {
        type Error = Infallible;

        fn try_resolve_content(&self, _resolvable: &Resolvable, _recursion_depth: usize) -> Result<TextComponent, Self::Error> {
            let mut c = TextComponent::plain("x".to_string());
            c.format = Format::new().color(Color::Red).bold(true);
            c.interactions.insertion = Some("theirs".to_string());
            c.children.push(TextComponent::plain("inner".to_string()));
            Ok(c)
        }
    }
    let mut component = entity("@p");
    component.format = Format::new().color(Color::Gold);
    component.interactions.insertion = Some("mine".to_string());
    component.interactions.click = Some(ClickEvent::run_command("/help".to_string()));
    component.children.push(TextComponent::plain("child".to_string()));

    let out = component.try_resolve(&Styled).expect("infallible");
    assert_eq!(out.format.color, Some(Color::Gold));
    assert_eq!(out.format.bold, Some(true));
    assert_eq!(out.interactions.insertion, Some("mine".to_string()));
    assert_eq!(out.interactions.click, Some(ClickEvent::run_command("/help".to_string())));
    assert_eq!(out.children.len(), 2);
    assert_eq!(out.children[0], TextComponent::plain("inner".to_string()));
    assert_eq!(out.children[1], TextComponent::plain("child".to_string()));
}

#[test]
fn translation_arguments_are_resolved_before_the_message() {
    let resolver = Resolver { calls: Cell::new(0) };
    let message = TranslatedMessage::new("chat.type.text", Args::Owned(vec![entity("@a"), TextComponent::plain("hi".to_string())]));
    let out = TextComponent::translated(message).try_resolve(&resolver).expect("resolves");
    match out.content {
        Content::Translate(m) => match m.args {
            Args::Owned(args) => {
                assert_eq!(args[0], TextComponent::plain("resolved:@a".to_string()));
                assert_eq!(args[1], TextComponent::plain("hi".to_string()));
            }
            Args::Absent => panic!("arguments were dropped"),
        },
        other => panic!("expected a translation, got {other:?}"),
    }
    assert_eq!(resolver.calls.get(), 1);
}

#[test]
fn no_resolutor_renders_placeholders() {
    let scores = TextComponent::scoreboard("@p".to_string(), "kills".to_string()).resolve(&NoResolutor);
    assert_eq!(scores, TextComponent::plain("[Score: kills]".to_string()));
    assert_eq!(entity("@e").resolve(&NoResolutor), TextComponent::plain("[Entity: @e]".to_string()));
    assert_eq!(NoResolutor.translate("key"), None);
}

#[test]
fn translations_split_at_their_markers() {
    let parts = split_translation("%s joined (formerly %2$s)%s");
    assert_eq!(
        parts,
        vec![
            ("".to_string(), 1),
            (" joined (formerly ".to_string(), 2),
            (")".to_string(), 2),
            ("".to_string(), 0),
        ]
    );
    assert_eq!(split_translation("plain"), vec![("plain".to_string(), 0)]);
    assert_eq!(split_translation("%9$s%%s"), vec![("%9$s%".to_string(), 1), ("".to_string(), 0)]);
    assert_eq!(NoResolutor.split_translation("a%1$sb".to_string()), vec![("a".to_string(), 1), ("b".to_string(), 0)]);
}
