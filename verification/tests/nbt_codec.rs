//! Round-trips through the component codec: components as NBT trees and back.

use text_components::component::TextComponent;
use text_components::content::{Content, NbtSource, Object, ObjectPlayer, PlayerModel, Resolvable};
use text_components::decode::ComponentDecodeError;
use text_components::format::Color;
use text_components::interactivity::{ClickEvent, Dialog, HoverEvent};
use text_components::nbt::decoding::Number;
use text_components::nbt::tag::NbtTag;
use text_components::translation::{Args, TranslatedMessage};

fn channel(n: Number) -> i32 {
    let value: f64 = match n {
        Number::Int(v) => v as f64,
        Number::Float(bits) => f64::from(f32::from_bits(bits)),
        Number::Double(bits) => f64::from_bits(bits),
    };
    ((value as f32) * 255.0).floor() as i32
}

fn decode(tag: &NbtTag) -> Result<TextComponent, ComponentDecodeError> {
    TextComponent::try_from_nbt_with(tag, &channel)
}

fn s(v: &str) -> NbtTag {
    NbtTag::String(v.to_string())
}

fn compound(values: Vec<(&str, NbtTag)>) -> NbtTag {
    NbtTag::Compound(values.into_iter().map(|(name, value)| (name.to_string(), value)).collect())
}

fn plain(text: &str) -> TextComponent {
    TextComponent::plain(text.to_string())
}

fn get<'a>(tag: &'a NbtTag, name: &str) -> Option<&'a NbtTag> {
    match tag {
        NbtTag::Compound(entries) => entries.iter().find(|(n, _)| n == name).map(|(_, t)| t),
        _ => None,
    }
}

#[test]
fn accepts_empty_string_and_non_empty_list_roots() {
    assert_eq!(decode(&s("")), Ok(plain("")));

    let list = NbtTag::List(vec![s("first"), s("second")]);
    let component = decode(&list).expect("non-empty list should parse");
    assert_eq!(component.content, Content::Text { text: "first".to_string() });
    assert_eq!(component.children, vec![plain("second")]);

    assert_eq!(decode(&NbtTag::List(vec![])), Err(ComponentDecodeError::EmptyComponentList));
    assert_eq!(plain("plain").to_codec_nbt(), s("plain"));
}

#[test]
fn type_discriminator_wins_over_fuzzy_content_matching() {
    let tag = compound(vec![("type", s("selector")), ("text", s("not selected")), ("selector", s("@a"))]);

    let component = decode(&tag).expect("typed selector should parse");
    assert!(matches!(
        component.content,
        Content::Resolvable(Resolvable::Entity { ref selector, .. }) if selector == "@a"
    ));
}

#[test]
fn invalid_nested_components_fail_the_whole_component() {
    let tag = compound(vec![
        ("text", s("parent")),
        ("extra", NbtTag::List(vec![compound(vec![("unknown", s("value"))])])),
    ]);

    assert!(decode(&tag).is_err());
}

#[test]
fn nbt_plain_flag_is_preserved_and_conflicts_with_interpret() {
    let plain_tag = compound(vec![
        ("type", s("nbt")),
        ("nbt", s("Health")),
        ("plain", NbtTag::Byte(1)),
        ("entity", s("@s")),
    ]);
    let component = decode(&plain_tag).expect("plain NBT should parse");
    assert!(matches!(
        component.content,
        Content::Resolvable(Resolvable::NBT {
            plain: true,
            source: NbtSource::Entity(ref selector),
            ..
        }) if selector == "@s"
    ));

    let conflicting_tag = compound(vec![
        ("type", s("nbt")),
        ("nbt", s("Health")),
        ("interpret", NbtTag::Byte(1)),
        ("plain", NbtTag::Byte(1)),
        ("entity", s("@s")),
    ]);
    assert_eq!(decode(&conflicting_tag), Err(ComponentDecodeError::ConflictingNbtFlags));
}

#[test]
fn object_fallback_is_parsed_and_serialized() {
    let tag = compound(vec![
        ("type", s("object")),
        ("object", s("atlas")),
        ("sprite", s("minecraft:item/diamond")),
        ("fallback", s("diamond")),
    ]);

    let component = decode(&tag).expect("object should parse");
    assert!(matches!(
        component.content,
        Content::Object(Object::Atlas {
            ref atlas,
            fallback: Some(ref fallback),
            ..
        }) if atlas == "minecraft:blocks" && **fallback == plain("diamond")
    ));

    let encoded = component.to_codec_nbt();
    let decoded = decode(&encoded).expect("encoded object should parse");
    assert_eq!(decoded, component);
}

#[test]
fn modern_player_object_fields_round_trip() {
    let tag = compound(vec![
        ("object", s("player")),
        (
            "player",
            compound(vec![
                ("name", s("Jeb_")),
                ("texture", s("minecraft:skins/jeb")),
                ("cape", s("minecraft:capes/test")),
                ("elytra", s("minecraft:elytra/test")),
                ("model", s("slim")),
            ]),
        ),
        ("hat", NbtTag::Byte(0)),
    ]);

    let component = decode(&tag).expect("player object should parse");
    match &component.content {
        Content::Object(Object::Player { player, hat, .. }) => {
            assert_eq!(player.name.as_deref(), Some("Jeb_"));
            assert_eq!(player.model, Some(PlayerModel::Slim));
            assert!(!hat);
        }
        other => panic!("expected a player head, got {other:?}"),
    }
    let encoded = component.to_codec_nbt();
    assert_eq!(decode(&encoded), Ok(component));
}

#[test]
fn compatibility_parser_remains_available() {
    assert_eq!(TextComponent::from_nbt_with(&s("text"), &channel), Some(plain("text")));
    assert_eq!(TextComponent::from_nbt_with(&NbtTag::Int(1), &channel), None);
}

#[test]
fn resolvable_content_round_trips() {
    let components = [
        TextComponent::scoreboard("@s".to_string(), "points".to_string()),
        TextComponent::entity("@a".to_string(), Some(plain(" | "))),
        TextComponent::nbt(
            "Inventory[0]".to_string(),
            NbtSource::Storage("steel:test".to_string()),
            true,
            Some(plain(" / ")),
        ),
    ];

    for component in components {
        let encoded = component.to_codec_nbt();
        assert_eq!(decode(&encoded), Ok(component), "resolvable content should survive the component codec");
    }
}

#[test]
fn component_codec_collapses_plain_components_recursively() {
    let mut component = TextComponent::translated(TranslatedMessage {
        key: "test.message".to_string(),
        fallback: None,
        args: Args::Owned(vec![plain("argument")]),
    });
    component.children.push(plain("child"));
    component.interactions.hover = Some(HoverEvent::show_text(plain("hover")));

    let encoded = component.to_codec_nbt();
    assert!(matches!(encoded, NbtTag::Compound(_)), "styled component should encode as a compound");
    assert_eq!(get(&encoded, "with"), Some(&NbtTag::List(vec![s("argument")])));
    assert_eq!(get(&encoded, "extra"), Some(&NbtTag::List(vec![s("child")])));
    let hover = get(&encoded, "hover_event").expect("hover event should encode as a compound");
    assert_eq!(get(hover, "value"), Some(&s("hover")));
}

#[test]
fn nested_hover_components_are_encoded_without_resolving_them() {
    let mut component = plain("hover");
    component.interactions.hover = Some(HoverEvent::show_text(TextComponent::entity("@a".to_string(), None)));

    let encoded = component.to_codec_nbt();
    let value = get(&encoded, "hover_event")
        .and_then(|hover| get(hover, "value"))
        .expect("hover value should encode as a component compound");
    assert_eq!(get(value, "selector"), Some(&s("@a")));
}

#[test]
fn embedded_registry_payloads_are_preserved_verbatim() {
    let payload = compound(vec![("minecraft:custom_name", s("Stone"))]);
    let mut component = plain("item");
    component.interactions.hover = Some(HoverEvent::ShowItem {
        id: "minecraft:stone".to_string(),
        count: 1,
        components: Some(payload.copy()),
    });

    let encoded = component.to_codec_nbt();
    let hover = get(&encoded, "hover_event").expect("hover event should encode as a compound");
    assert_eq!(get(hover, "components"), Some(&payload));
}

#[test]
fn modern_style_and_dialog_fields_round_trip() {
    let inline_dialog = compound(vec![("type", s("minecraft:notice")), ("title", s("Notice"))]);
    let mut component = plain("styled");
    component.format.color = Some(Color::Rgb(0x12, 0x34, 0x56));
    component.format.shadow_color = Some(0x7f12_3456);
    component.interactions.click = Some(ClickEvent::ShowDialog { dialog: Dialog::Inline(inline_dialog) });

    let encoded = component.to_codec_nbt();
    assert_eq!(decode(&encoded), Ok(component));
}

#[test]
fn shadow_colors_read_from_integers_and_channel_lists() {
    let int_form = compound(vec![("text", s("x")), ("shadow_color", NbtTag::Int(-16777216))]);
    assert_eq!(decode(&int_form).expect("int shadow").format.shadow_color, Some(-16777216));
    let list_form = compound(vec![
        ("text", s("x")),
        (
            "shadow_color",
            NbtTag::List(vec![
                NbtTag::Float(1.0f32.to_bits()),
                NbtTag::Float(0.5f32.to_bits()),
                NbtTag::Double(0.0f64.to_bits()),
                NbtTag::Byte(1),
            ]),
        ),
    ]);
    assert_eq!(decode(&list_form).expect("list shadow").format.shadow_color, Some(0xFFFF_7F00u32 as i32));
    let bad = compound(vec![("text", s("x")), ("shadow_color", NbtTag::List(vec![s("a"), s("b"), s("c"), s("d")]))]);
    assert_eq!(
        decode(&bad),
        Err(ComponentDecodeError::InvalidField {
            field: "shadow_color",
            expected: "an ARGB integer or four-number list"
        })
    );
}

#[test]
fn numbers_convert_the_way_casts_do() {
    let count = |tag: NbtTag| {
        let hover = compound(vec![("action", s("show_item")), ("id", s("minecraft:stone")), ("count", tag)]);
        let c = decode(&compound(vec![("text", s("x")), ("hover_event", hover)]));
        match c.map(|c| c.interactions.hover) {
            Ok(Some(HoverEvent::ShowItem { count, .. })) => Ok(count),
            Ok(other) => panic!("expected an item, got {other:?}"),
            Err(e) => Err(e),
        }
    };
    assert_eq!(count(NbtTag::Float(42.9f32.to_bits())), Ok(42));
    assert_eq!(count(NbtTag::Double(7.99f64.to_bits())), Ok(7));
    assert_eq!(count(NbtTag::Long((1i64 << 32) + 5)), Ok(5));
    assert_eq!(
        count(NbtTag::Float(f32::NAN.to_bits())),
        Err(ComponentDecodeError::InvalidField { field: "count", expected: "an integer from 1 through 99" })
    );
    assert_eq!(
        count(s("3")),
        Err(ComponentDecodeError::InvalidField { field: "count", expected: "an integer" })
    );
}

#[test]
fn colors_read_by_name_or_hex() {
    let color = |v: &str| decode(&compound(vec![("text", s("x")), ("color", s(v))])).map(|c| c.format.color);
    assert_eq!(color("gold"), Ok(Some(Color::Gold)));
    assert_eq!(color("#0a0B0c"), Ok(Some(Color::Rgb(10, 11, 12))));
    assert_eq!(color("#+ff"), Ok(Some(Color::Rgb(0, 0, 255))));
    let bad = Err(ComponentDecodeError::InvalidField { field: "color", expected: "a text color" });
    assert_eq!(color("#1000000"), bad);
    assert_eq!(color("#"), bad);
    assert_eq!(color("purple"), bad);
}

#[test]
fn events_are_checked_field_by_field() {
    let with_click = |click: NbtTag| decode(&compound(vec![("text", s("x")), ("click_event", click)]));
    assert_eq!(
        with_click(compound(vec![("action", s("open_url")), ("url", s("ftp://x"))])),
        Err(ComponentDecodeError::InvalidField { field: "url", expected: "an HTTP or HTTPS URI" })
    );
    assert!(with_click(compound(vec![("action", s("open_url")), ("url", s("HTTPS://example.com"))])).is_ok());
    assert_eq!(
        with_click(compound(vec![("action", s("run_command")), ("command", s("/say \u{a7}c"))])),
        Err(ComponentDecodeError::InvalidField { field: "command", expected: "a chat string" })
    );
    assert_eq!(
        with_click(compound(vec![("action", s("change_page")), ("page", NbtTag::Int(0))])),
        Err(ComponentDecodeError::InvalidField { field: "page", expected: "a positive integer" })
    );
    assert_eq!(
        with_click(compound(vec![("action", s("dance"))])),
        Err(ComponentDecodeError::UnknownClickAction("dance".to_string()))
    );
    let entity = compound(vec![
        ("action", s("show_entity")),
        ("id", s("minecraft:pig")),
        ("uuid", NbtTag::IntArray(vec![0, 1, 2, 3])),
    ]);
    let c = decode(&compound(vec![("text", s("x")), ("hover_event", entity)])).expect("entity hover");
    assert!(matches!(
        c.interactions.hover,
        Some(HoverEvent::ShowEntity { uuid, .. }) if uuid == (1u128 << 64) | (2u128 << 32) | 3
    ));
}

#[test]
fn player_names_and_identifiers_are_validated() {
    let head = |player: NbtTag| decode(&compound(vec![("type", s("object")), ("player", player)]));
    assert_eq!(
        head(s("has space")),
        Err(ComponentDecodeError::InvalidField { field: "name", expected: "a valid player name" })
    );
    assert!(matches!(
        head(s("Notch")).map(|c| c.content),
        Ok(Content::Object(Object::Player { ref player, hat: true, .. })) if **player == ObjectPlayer::name("Notch".to_string())
    ));
    assert_eq!(
        head(compound(vec![("texture", s("Bad:Path"))])),
        Err(ComponentDecodeError::InvalidField { field: "texture", expected: "an identifier" })
    );
    assert_eq!(
        decode(&compound(vec![("type", s("object")), ("sprite", s("../x")), ("atlas", s("..:x"))])),
        Err(ComponentDecodeError::InvalidField { field: "atlas", expected: "an identifier" })
    );
    // Without a type, a kind whose fields fail to read is passed over.
    assert_eq!(decode(&compound(vec![("player", s("has space"))])), Err(ComponentDecodeError::NoMatchingContent));
}
