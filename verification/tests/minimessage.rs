//! Compile-time templates: parsed in macro mode, emitted as NBT segments, and filled.

use text_components::fill::{fill_segments, FillValue};
use text_components::format::Color;
use text_components::grammar::emit::emit;
use text_components::grammar::parser::{parse, Mode};
use text_components::nbt::encoded::EncodedComponent;

/// What a macro template encodes to once its holes are filled.
fn nbt_with(template: &str, values: Vec<(String, FillValue)>) -> EncodedComponent {
    let parsed = parse(template, Mode::Macro).unwrap();
    let segs = emit(&parsed.pieces).unwrap();
    fill_segments(&segs, &values).unwrap()
}

/// What a static macro template encodes to.
fn nbt(template: &str) -> EncodedComponent {
    nbt_with(template, Vec::new())
}

fn prefix() -> EncodedComponent {
    nbt("<gold>[Steel] </gold>")
}

#[test]
fn color_tag_spellings_share_bytes() {
    assert_eq!(nbt("<color:red>hot</color>"), nbt("<red>hot</red>"));
    assert_eq!(nbt("<color:#ff0000>hot</color>"), nbt("<#ff0000>hot</#ff0000>"));
}

#[test]
fn const_and_runtime_holes_mix() {
    let name = "Notch".to_string();
    assert_eq!(
        nbt_with(
            "{@const PREFIX}<gray>{name}</gray>",
            vec![
                ("PREFIX".to_string(), FillValue::Encoded(prefix())),
                ("name".to_string(), FillValue::Text(name.clone())),
            ]
        ),
        nbt_with(
            "<gold>[Steel] </gold><gray>{name}</gray>",
            vec![("name".to_string(), FillValue::Text(name.clone()))]
        )
    );

    let who = nbt("<aqua>Notch</aqua>");
    assert_eq!(
        nbt_with(
            "{@const PREFIX}{@who}<gray> joined</gray>",
            vec![
                ("PREFIX".to_string(), FillValue::Encoded(prefix())),
                ("who".to_string(), FillValue::Encoded(who)),
            ]
        ),
        nbt("<gold>[Steel] </gold><aqua>Notch</aqua><gray> joined</gray>")
    );
}

#[test]
fn plain_text_is_a_bare_nbt_string() {
    // [TAG_String][u16 length]["hi"]
    assert_eq!(nbt("hi").as_bytes(), &[8u8, 0, 2, b'h', b'i'][..]);
    assert_eq!(nbt("").as_bytes(), &[8u8, 0, 0][..]);
}

#[test]
fn styled_text_is_a_compound() {
    let bytes = nbt("<red>x</red>").into_bytes();
    let mut want: Vec<u8> = vec![10, 8, 0, 4];
    want.extend_from_slice(b"text");
    want.extend_from_slice(&[0, 1, b'x', 8, 0, 5]);
    want.extend_from_slice(b"color");
    want.extend_from_slice(&[0, 3]);
    want.extend_from_slice(b"red");
    want.push(0);
    assert_eq!(bytes, want);
}

#[test]
fn dynamic_color_and_flag_fill_like_static_ones() {
    assert_eq!(
        nbt_with("<{c}>ok</{c}>", vec![("c".to_string(), FillValue::Color(Color::Green))]),
        nbt("<green>ok</green>")
    );
    assert_eq!(
        nbt_with("<gold><obf:{f}>x</obf></gold>", vec![("f".to_string(), FillValue::Flag(true))]),
        nbt("<gold><obf>x</obf></gold>")
    );
}

#[test]
fn positional_holes_take_values_in_order() {
    assert_eq!(
        nbt_with(
            "<red>{}</red><blue>{}</blue>",
            vec![
                ("".to_string(), FillValue::Text("a".to_string())),
                ("".to_string(), FillValue::Text("b".to_string())),
            ]
        ),
        nbt("<red>a</red><blue>b</blue>")
    );
}

#[test]
fn click_values_assemble_their_holes() {
    assert_eq!(
        nbt_with(
            "<click:run_command:'/tp {who}'>go</click>",
            vec![("who".to_string(), FillValue::Text("Notch".to_string()))]
        ),
        nbt("<click:run_command:'/tp Notch'>go</click>")
    );
}

#[test]
fn a_missing_value_is_an_error() {
    let parsed = parse("<red>{name}</red>", Mode::Runtime).unwrap();
    let segs = emit(&parsed.pieces).unwrap();
    assert!(fill_segments(&segs, &Vec::new()).is_err());
    let wrong = vec![("name".to_string(), FillValue::Flag(true))];
    assert!(fill_segments(&segs, &wrong).is_err());
}

#[test]
fn canonical_color_names_round_trip() {
    for (_, canonical, _) in text_components::grammar::tags::NAMED_COLORS {
        let color = Color::from_codec_name(canonical)
            .unwrap_or_else(|| panic!("`Color` has no variant for `{canonical}`"));
        assert_eq!(color.codec_name(), *canonical);
    }
}
