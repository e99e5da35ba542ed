//! Templates parsed at run time: filling into a tree, filling into bytes, and the errors
//! both report.

use text_components::component::TextComponent;
use text_components::content::Content;
use text_components::format::Color;
use text_components::interactivity::{ClickEvent, HoverEvent};
use text_components::minimessage::{ErrorKind, MiniMessage, Value};

fn parse(input: &str) -> TextComponent {
    MiniMessage::new(input).unwrap().fill(&[]).unwrap()
}

fn text(s: &str) -> Value {
    Value::Text(s.to_string())
}

fn new_err(input: &str) -> String {
    match MiniMessage::new(input) {
        Ok(_) => panic!("{input:?} parsed"),
        Err(e) => e.message(),
    }
}

fn sword() -> HoverEvent {
    HoverEvent::show_item("minecraft:diamond_sword".to_string(), Some(3), None)
}

fn give() -> ClickEvent {
    ClickEvent::run_command("/give @s diamond_sword".to_string())
}

#[test]
fn runtime_rejects_format_specs() {
    let err = new_err("<red>{x:.2}</red>");
    assert!(err.contains("format specs"), "unexpected error: {err}");
    assert!(MiniMessage::new("<click:run_command:'/tp {x:.1}'>go</click>").is_err());
}

#[test]
fn prestyled_component_keeps_its_own_format() {
    let template = MiniMessage::new("<aqua>{@name}</aqua>").unwrap();
    let mut purple = TextComponent::plain("Notch".to_string());
    purple.format.color = Some(Color::LightPurple);
    let filled = template.fill(&[("name", Value::Component(purple))]).unwrap();
    assert_eq!(filled.format.color, Some(Color::LightPurple));
}

#[test]
fn holes_inside_hover_and_click() {
    let template = MiniMessage::new(
        "<aqua><hover:show_text:'<yellow>Rank: {rank}'>\
         <click:suggest_command:'/msg {name} '>{name}</click></hover></aqua>",
    )
    .unwrap();
    assert_eq!(template.holes(), ["name", "rank"]);

    let filled = template.fill(&[("rank", text("MVP+")), ("name", text("Notch"))]).unwrap();
    match &filled.interactions.click {
        Some(ClickEvent::SuggestCommand { command }) => assert_eq!(command, "/msg Notch "),
        other => panic!("expected suggest_command, got {other:?}"),
    }
}

#[test]
fn event_holes_carry_whole_events() {
    let template =
        MiniMessage::new("<gold><hover:{item}><click:{cmd}>[Sword]</click></hover></gold>").unwrap();
    assert_eq!(template.holes(), ["cmd", "item"]);

    let filled = template
        .fill(&[("item", sword().into()), ("cmd", give().into())])
        .unwrap();
    match &filled.interactions.hover {
        Some(HoverEvent::ShowItem { id, count, .. }) => {
            assert_eq!(id, "minecraft:diamond_sword");
            assert_eq!(*count, 3);
        }
        other => panic!("expected show_item, got {other:?}"),
    }
    assert_eq!(filled.interactions.click, Some(give()));
}

#[test]
fn show_item_by_tag_points_at_the_event_hole() {
    let msg = new_err("<hover:show_item:'diamond'>x</hover>");
    assert!(msg.contains("needs runtime data"), "{msg}");
    assert!(msg.contains("<hover:{item}>"), "{msg}");
}

#[test]
fn keybind_font_shadow_and_insertion() {
    let keyed = parse("<key:key.inventory>");
    assert!(
        matches!(&keyed.content, Content::Keybind { keybind } if keybind == "key.inventory"),
        "{keyed:?}"
    );

    let font = parse("<font:minecraft:alt>x</font>");
    assert_eq!(font.format.font.as_deref(), Some("minecraft:alt"));
    let shadow = parse("<shadow:#80FF0000>x</shadow>");
    assert_eq!(shadow.format.shadow_color, Some(0x80FF_0000_u32 as i32));

    let template = MiniMessage::new("<insertion:'/msg {name} '>{name}</insertion>").unwrap();
    let filled = template.fill(&[("name", text("Notch"))]).unwrap();
    assert_eq!(filled.interactions.insertion.as_deref(), Some("/msg Notch "));
}

#[test]
fn insert_is_the_canonical_insertion() {
    let template = MiniMessage::new("<insert:'/msg {name} '>{name}</insert>").unwrap();
    let filled = template.fill(&[("name", text("Notch"))]).unwrap();
    assert_eq!(filled.interactions.insertion.as_deref(), Some("/msg Notch "));
    assert_eq!(parse("<insert:'x'>a</insertion>"), parse("<insertion:'x'>a</insertion>"));
}

#[test]
fn tag_names_ignore_case() {
    // a hole names a variable, so its case survives
    let template = MiniMessage::new("<{Color}>x</{Color}>").unwrap();
    assert_eq!(template.holes(), ["Color"]);
    let filled = template.fill(&[("Color", Color::Aqua.into())]).unwrap();
    assert_eq!(filled.format.color, Some(Color::Aqua));
}

#[test]
fn gradient_colors_every_character() {
    let filled = parse("<gradient:#000000:#FFFFFF>abcde</gradient>");
    let colors: Vec<Option<Color>> = filled.children.iter().map(|child| child.format.color).collect();
    assert_eq!(
        colors,
        vec![
            Some(Color::Rgb(0x00, 0x00, 0x00)),
            Some(Color::Rgb(0x40, 0x40, 0x40)),
            Some(Color::Rgb(0x80, 0x80, 0x80)),
            Some(Color::Rgb(0xBF, 0xBF, 0xBF)),
            Some(Color::Rgb(0xFF, 0xFF, 0xFF)),
        ]
    );

    let bold = parse("<gradient:red:blue><b>ab</b></gradient>");
    assert!(bold.children.iter().all(|c| c.format.bold == Some(true)));
    assert_eq!(bold.children[0].format.color, Some(Color::Rgb(0xFF, 0x55, 0x55)));
    assert_eq!(bold.children[1].format.color, Some(Color::Rgb(0x55, 0x55, 0xFF)));

    let mixed = parse("<gradient:#000000:#FFFFFF>a<green>b</green>c</gradient>");
    assert_eq!(mixed.children[1].format.color, Some(Color::Green));
    assert_eq!(mixed.children[2].format.color, Some(Color::Rgb(0xFF, 0xFF, 0xFF)));

    let holed = MiniMessage::new("<gradient:#000000:#FFFFFF>a{name}b</gradient>").unwrap();
    let holed = holed.fill(&[("name", text("Notch"))]).unwrap();
    assert_eq!(holed.children.len(), 3);
    assert_eq!(holed.children[1].format.color, Some(Color::Rgb(0x80, 0x80, 0x80)));

    assert_eq!(parse("<gradient:red:blue>ab"), parse("<gradient:red:blue>ab</gradient>"));

    let rainbow = parse("<rainbow>abc</rainbow>");
    assert_eq!(rainbow.children.len(), 3);
    assert_eq!(rainbow.children[0].format.color, Some(Color::Rgb(255, 0, 0)));
    assert_eq!(rainbow.children[1].format.color, Some(Color::Rgb(0, 255, 0)));
    assert_eq!(rainbow.children[2].format.color, Some(Color::Rgb(0, 0, 255)));
}

#[test]
fn gradient_errors_are_helpful() {
    let err = new_err("<gradient:#ff0000>x</gradient>");
    assert!(err.contains("needs at least two colors"), "{err}");
    let err = new_err("<gradient:red:mauve>x</gradient>");
    assert!(err.contains("`mauve` is not a color"), "{err}");
    let err = new_err("<rainbow:red>x</rainbow>");
    assert!(err.contains("takes no arguments"), "{err}");
}

#[test]
fn change_page_rejects_holes() {
    let err = new_err("<click:change_page:'{page}'>next</click>");
    assert!(err.contains("change_page can't take holes"), "{err}");
}

#[test]
fn parse_errors_are_rich() {
    let msg = new_err("<red>☠ </red><drak_gray>oops");
    assert!(msg.contains("unknown tag `<drak_gray>`"), "{msg}");
    assert!(msg.contains("did you mean `<dark_gray>`?"), "{msg}");
    assert!(msg.contains("^^^^^^^^^^^"), "{msg}");

    let msg = new_err("<aqua><b>MVP</gold>");
    assert!(msg.contains("doesn't match any open tag"), "{msg}");
    assert!(msg.contains("currently open: <aqua>, <bold>"), "{msg}");

    let msg = new_err("hello {}");
    assert!(msg.contains("runtime templates need named holes"), "{msg}");
}

#[test]
fn fill_errors_are_helpful() {
    let template = MiniMessage::new("<{c}>{victim}</{c}>").unwrap();
    let err = template.fill(&[("victim", text("Notch"))]).unwrap_err();
    assert!(err.message().contains("template needs a value for `{c}`"), "{}", err.message());

    let err = template
        .fill(&[("victim", text("n")), ("c", text("not a color"))])
        .unwrap_err();
    assert!(err.message().contains("needs a Color value"), "{}", err.message());
}

#[test]
fn const_splices_are_rejected_at_runtime() {
    let msg = new_err("<red>{@const HEADER}</red>");
    assert!(msg.contains("only works in the text_nbt! macro"), "{msg}");
    assert!(msg.contains("pass the component as a value"), "{msg}");
}

// ---------------------------------------------------------------------------
// Own tests.

/// The bytes `fill_nbt` writes, against the tree `fill` builds and then encodes.
fn assert_parity(template: &str, values: &[(&str, Value)]) {
    let template_ = MiniMessage::new(template).unwrap_or_else(|e| panic!("{template:?}: {}", e.message()));
    let tree = template_.fill(values).unwrap_or_else(|e| panic!("{template:?}: {}", e.message()));
    let bytes = template_.fill_nbt(values).unwrap_or_else(|e| panic!("{template:?}: {}", e.message()));
    assert_eq!(tree.encode().as_bytes(), bytes.as_bytes(), "{template:?}");
}

#[test]
fn fill_nbt_matches_the_filled_tree() {
    assert_parity("<gold><b>Steel</b></gold>", &[]);
    assert_parity("plain", &[]);
    assert_parity(
        "<red>\u{2620} </red><{c}>{victim}</{c}><gray> was slain by </gray>{@killer}<obf:{magic}>!!</obf>",
        &[
            ("victim", text("Notch")),
            ("killer", Value::Component(parse("<gold><hover:show_text:'Rank: MVP+'>Herobrine</hover></gold>"))),
            ("c", Color::Aqua.into()),
            ("magic", true.into()),
        ],
    );
    assert_parity(
        "<aqua><hover:show_text:'<yellow>Rank: {rank}'><click:suggest_command:'/msg {name} '>{name}</click></hover></aqua>",
        &[("rank", text("MVP+")), ("name", text("Notch"))],
    );
    assert_parity(
        "<gold><hover:{item}><click:{cmd}>[Sword]</click></hover></gold>",
        &[("item", sword().into()), ("cmd", give().into())],
    );
    assert_parity("<lang:multiplayer.player.joined:'{@who}'>", &[("who", Value::Component(parse("<aqua>Notch")))]);
    assert_parity("<key:key.jump>", &[]);
}

#[test]
fn fill_nbt_splices_encoded_bytes() {
    let hi = MiniMessage::new("<red>hi</red>").unwrap().fill_nbt(&[]).unwrap();
    let spliced = MiniMessage::new("{@x}").unwrap().fill_nbt(&[("x", hi.clone().into())]).unwrap();
    assert_eq!(spliced, hi);
    let styled = MiniMessage::new("<gray>{@x}</gray>").unwrap().fill_nbt(&[("x", hi.into())]).unwrap();
    // the style wraps the bytes instead of restyling them: a gray parent with one red child
    let mut parent = TextComponent::plain(String::new());
    parent.format.color = Some(Color::Gray);
    parent.children.push(parse("<red>hi</red>"));
    assert_eq!(styled.as_bytes(), parent.encode().as_bytes());
}

#[test]
fn fill_rejects_encoded_bytes() {
    let hi = MiniMessage::new("<red>hi</red>").unwrap().fill_nbt(&[]).unwrap();
    let err = MiniMessage::new("<gray>{@x}</gray>").unwrap().fill(&[("x", hi.into())]).unwrap_err();
    assert!(err.message().contains("EncodedComponent"), "{}", err.message());
}

#[test]
fn a_text_hole_refuses_a_component() {
    let template = MiniMessage::new("{x}").unwrap();
    let err = template.fill(&[("x", Value::Component(parse("hi")))]).unwrap_err();
    assert!(err.message().contains("is a text hole but the value is a component"), "{}", err.message());
    let template = MiniMessage::new("{@x}").unwrap();
    let err = template.fill(&[("x", text("hi"))]).unwrap_err();
    assert!(err.message().contains("is a component hole but the value is text"), "{}", err.message());
}

#[test]
fn a_hole_style_only_fills_what_the_value_leaves_unset() {
    let template = MiniMessage::new("<red><b>{@x}</b></red>").unwrap();
    let mut value = TextComponent::plain("v".to_string());
    value.format.color = Some(Color::Blue);
    let filled = template.fill(&[("x", Value::Component(value))]).unwrap();
    assert_eq!(filled.format.color, Some(Color::Blue));
    assert_eq!(filled.format.bold, Some(true));
}

#[test]
fn several_pieces_become_children_of_empty_text() {
    let filled = parse("a<red>b</red>");
    assert!(matches!(&filled.content, Content::Text { text } if text.is_empty()));
    assert_eq!(filled.children.len(), 2);
    assert_eq!(parse(""), TextComponent::plain(String::new()));
}

#[test]
fn errors_carry_ranges_and_help() {
    let err = MiniMessage::new("<red>☠ </red><drak_gray>oops").unwrap_err();
    assert!(err.range().is_some());
    assert!(err.help().unwrap().contains("dark_gray"));
    assert!(matches!(err.kind(), ErrorKind::Parse { .. }));
    let template = MiniMessage::new("{x}").unwrap();
    let err = template.fill(&[]).unwrap_err();
    assert!(err.range().is_none());
    assert!(err.help().is_none());
    assert!(matches!(err.kind(), ErrorKind::Fill(_)));
}

#[test]
fn fill_nbt_matches_fill_then_encode() {
    let template = MiniMessage::new(
        "<gold><hover:show_text:'Rank: {rank}'>{name}</hover> <b>won</b></gold><gray> in {secs}s</gray>",
    )
    .unwrap();
    let values = [
        ("rank", Value::Text("MVP+".to_string())),
        ("name", Value::Text("Notch".to_string())),
        ("secs", Value::Text("12".to_string())),
    ];
    let tree = template.fill(&values).unwrap();
    let bytes = template.fill_nbt(&values).unwrap();
    assert_eq!(bytes.as_bytes(), tree.encode().as_bytes());
}

#[test]
fn fill_nbt_matches_fill_then_encode_with_a_component_hole() {
    let template = MiniMessage::new("<red>slain by </red>{@who}").unwrap();
    let who = MiniMessage::new("<aqua><b>Herobrine</b></aqua>").unwrap().fill(&[]).unwrap();
    let values = [("who", Value::Component(who))];
    let tree = template.fill(&values).unwrap();
    let bytes = template.fill_nbt(&values).unwrap();
    assert_eq!(bytes.as_bytes(), tree.encode().as_bytes());
}
