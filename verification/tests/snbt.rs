//! Components read back from SNBT text.

use text_components::component::TextComponent;
use text_components::content::{Content, Resolvable};
use text_components::decode::SnbtError;
use text_components::format::Color;
use text_components::interactivity::{ClickEvent, HoverEvent};
use text_components::translation::Args;

fn channel(text: Vec<char>) -> Option<u32> {
    let s: String = text.into_iter().collect();
    s.parse::<f32>().ok().map(|n| (n * 255.0) as u32)
}

fn read(s: &str) -> Result<TextComponent, SnbtError> {
    TextComponent::from_snbt_with(s, &channel)
}

fn text_of(c: &TextComponent) -> &str {
    match &c.content {
        Content::Text { text } => text.as_str(),
        other => panic!("expected text, got {other:?}"),
    }
}

#[test]
fn a_quoted_string_is_plain_text() {
    assert_eq!(read("  \"hello\"").unwrap(), TextComponent::plain("hello".to_string()));
    assert_eq!(read("'it''s'").unwrap(), TextComponent::plain("it".to_string()));
    assert_eq!(read(r#""a\"b\nc\\d\qe""#).unwrap(), TextComponent::plain("a\"b\nc\\de".to_string()));
}

#[test]
fn a_list_is_its_first_component_with_the_rest_as_children() {
    let c = read(r#"["a", "b", {"text":"c"}]"#).unwrap();
    assert_eq!(text_of(&c), "a");
    assert_eq!(c.children.len(), 2);
    assert_eq!(text_of(&c.children[0]), "b");
    assert_eq!(text_of(&c.children[1]), "c");
}

#[test]
fn a_compound_reads_content_format_and_children() {
    let c = read(r#"{"text":"hi", "color":"red", bold:1b, italic:0b, font:"minecraft:alt", "extra":["x"]}"#).unwrap();
    assert_eq!(text_of(&c), "hi");
    assert_eq!(c.format.color, Some(Color::Red));
    assert_eq!(c.format.bold, Some(true));
    assert_eq!(c.format.italic, Some(false));
    assert_eq!(c.format.font.as_deref(), Some("minecraft:alt"));
    assert_eq!(c.children.len(), 1);

    let hex = read(r##"{text:"a", color:"#FF8800"}"##).unwrap();
    assert_eq!(hex.format.color, Some(Color::Rgb(0xFF, 0x88, 0x00)));
}

#[test]
fn spelled_out_booleans_read_as_true() {
    assert_eq!(read(r#"{text:"a", bold:true}"#).unwrap().format.bold, Some(true));
    assert_eq!(read(r#"{text:"a", bold:false}"#).unwrap().format.bold, Some(true));
}

#[test]
fn translations_take_a_fallback_and_arguments() {
    let c = read(r#"{translate:"chat.type", fallback:"<%s>", with:["Notch", "hi"]}"#).unwrap();
    match &c.content {
        Content::Translate(m) => {
            assert_eq!(m.key, "chat.type");
            assert_eq!(m.fallback.as_deref(), Some("<%s>"));
            match &m.args {
                Args::Owned(args) => assert_eq!(args.len(), 2),
                Args::Absent => panic!("expected arguments"),
            }
        }
        other => panic!("expected a translation, got {other:?}"),
    }
    assert!(matches!(read(r#"{fallback:"x"}"#), Err(SnbtError::Required(_, _))));
}

#[test]
fn keybinds_selectors_and_nbt() {
    let c = read(r#"{keybind:"key.jump"}"#).unwrap();
    assert!(matches!(&c.content, Content::Keybind { keybind } if keybind == "key.jump"));
    let c = read(r#"{selector:"@p"}"#).unwrap();
    assert!(matches!(&c.content, Content::Resolvable(Resolvable::Entity { selector, separator: None }) if selector == "@p"));
    let c = read(r#"{nbt:"Health", entity:"@s", interpret:1b}"#).unwrap();
    match &c.content {
        Content::Resolvable(Resolvable::NBT { path, interpret, .. }) => {
            assert_eq!(path, "Health");
            assert!(*interpret);
        }
        other => panic!("expected nbt, got {other:?}"),
    }
}

#[test]
fn the_type_discriminator_picks_the_content() {
    let c = read(r#"{type:"keybind", text:"t", keybind:"key.jump"}"#).unwrap();
    assert!(matches!(&c.content, Content::Keybind { .. }));
    assert!(matches!(read(r#"{type:"what", text:"t"}"#), Err(SnbtError::UnknownKey(k)) if k == "what"));
}

#[test]
fn events_are_read() {
    let c = read(r#"{text:"a", click_event:{action:"run_command", command:"/say hi"}}"#).unwrap();
    assert_eq!(c.interactions.click, Some(ClickEvent::RunCommand { command: "/say hi".to_string() }));

    let c = read(r#"{text:"a", hover_event:{action:"show_text", value:"b"}}"#).unwrap();
    match &c.interactions.hover {
        Some(HoverEvent::ShowText { value }) => assert_eq!(text_of(value), "b"),
        other => panic!("expected show_text, got {other:?}"),
    }

    let c = read(r#"{text:"a", hover_event:{action:"show_item", id:"minecraft:stone", count:3}}"#).unwrap();
    assert!(matches!(&c.interactions.hover, Some(HoverEvent::ShowItem { id, count: 3, components: None }) if id == "minecraft:stone"));
}

#[test]
fn uuids_take_both_spellings() {
    let c = read(
        r#"{text:"a", hover_event:{action:"show_entity", id:"minecraft:pig", uuid:"f81d4fae-7dec-11d0-a765-00a0c91e6bf6"}}"#,
    )
    .unwrap();
    assert!(matches!(&c.interactions.hover,
        Some(HoverEvent::ShowEntity { uuid, .. }) if *uuid == 0xf81d4fae_7dec_11d0_a765_00a0c91e6bf6));
    let c = read(r#"{text:"a", hover_event:{action:"show_entity", id:"minecraft:pig", uuid:[1, 2, 3, 4]}}"#).unwrap();
    assert!(matches!(&c.interactions.hover,
        Some(HoverEvent::ShowEntity { uuid, .. }) if *uuid == (1u128 << 96) | (2u128 << 64) | (3u128 << 32) | 4));
    assert!(matches!(
        read(r#"{text:"a", hover_event:{action:"show_entity", id:"minecraft:pig", uuid:"nope"}}"#),
        Err(SnbtError::WrongContentType(k)) if k == "uuid"
    ));
}

#[test]
fn shadow_colors_take_a_number_or_four_fractions() {
    let c = read(r#"{text:"a", shadow_color:-16777216}"#).unwrap();
    assert_eq!(c.format.shadow_color, Some(-16777216));
    let c = read(r#"{text:"a", shadow_color:[1.0, 0.0, 0.0, 0.5]}"#).unwrap();
    assert_eq!(c.format.shadow_color, Some(0x7FFF_0000));
    assert!(read(r#"{text:"a", shadow_color:[1.0, 0.0, 0.5]}"#).is_err());
}

#[test]
fn number_suffixes_and_overflow() {
    let c = read(r#"{text:"a", hover_event:{action:"show_item", id:"x", count:7b}}"#).unwrap();
    assert!(matches!(&c.interactions.hover, Some(HoverEvent::ShowItem { count: 7, .. })));
    let c = read(r#"{text:"a", hover_event:{action:"show_item", id:"x", count:16777217f}}"#).unwrap();
    assert!(matches!(&c.interactions.hover, Some(HoverEvent::ShowItem { count: 16777216, .. })));
    let c = read(r#"{text:"a", hover_event:{action:"show_item", id:"x", count:3000000000d}}"#).unwrap();
    assert!(matches!(&c.interactions.hover, Some(HoverEvent::ShowItem { count: 2147483647, .. })));
    assert!(matches!(
        read(r#"{text:"a", bold:300b}"#),
        Err(SnbtError::NumberOverflow(k, t)) if k == "bold" && t == "byte"
    ));
}

#[test]
fn malformed_snbt_is_an_error() {
    assert_eq!(read("").unwrap_err(), SnbtError::EndedAbruptely(45));
    assert_eq!(read(r#"{"text":"x""#).unwrap_err(), SnbtError::EndedAbruptely(169));
    assert_eq!(read(r#""open"#).unwrap_err(), SnbtError::EndedAbruptely(25));
    assert_eq!(read("{}").unwrap_err(), SnbtError::MissingContent);
    assert_eq!(read(r#"{foo:"x"}"#).unwrap_err(), SnbtError::UnknownKey("foo".to_string()));
    assert_eq!(read(r#"{text:"a", color:"mauve"}"#).unwrap_err(), SnbtError::UnknownColor("mauve".to_string()));
    assert_eq!(read(r#"{text:"a", insertion:"x"}"#).unwrap_err(), SnbtError::WrongContentType("insertion".to_string()));
    assert_eq!(read("[]").unwrap_err(), SnbtError::UnfinishedComponent(71));
    assert_eq!(
        read(r#"{text:"a", click_event:{action:"open_url"}}"#).unwrap_err(),
        SnbtError::Required("\"open_url\"".to_string(), "url".to_string())
    );
}

#[test]
fn snbt_error_messages() {
    assert_eq!(
        SnbtError::UnknownKey("foo".to_string()).message(),
        "The key \"foo\" is unknown."
    );
    assert_eq!(
        SnbtError::EndedAbruptely(45).message(),
        "The SNBT ended in the middle of the component. (Line: 45)"
    );
}

#[test]
fn a_text_only_compound_is_plain_text() {
    let c = read("{text:'hi'}").unwrap();
    assert_eq!(c, TextComponent::plain("hi".to_owned()));
    let c = read("  {text:\"a \\\"b\\\"\"}").unwrap();
    assert_eq!(c, TextComponent::plain("a \"b\"".to_owned()));
}

#[test]
fn a_hover_reads_its_text_item_and_entity() {
    let c = read("{text:'x',hover_event:{action:'show_text',value:'tip'}}").unwrap();
    assert!(matches!(
        &c.interactions.hover,
        Some(HoverEvent::ShowText { value }) if **value == TextComponent::plain("tip".to_owned())
    ));
    let c = read("{text:'x',hover_event:{action:'show_item',id:'minecraft:stone',count:3}}").unwrap();
    assert!(matches!(
        &c.interactions.hover,
        Some(HoverEvent::ShowItem { id, count: 3, components: None }) if id == "minecraft:stone"
    ));
    assert!(read("{text:'x',hover_event:{action:'show_item',count:3}}").is_err());
    assert!(read("{text:'x',hover_event:{action:'show_entity',id:'pig'}}").is_err());
}
