//! NBT written back out as SNBT text.

use text_components::component::TextComponent;
use text_components::content::Content;
use text_components::format::Color;
use text_components::nbt::tag::NbtTag;
use text_components::nbt::text::ToSNBT;

fn float_text(bits: u32) -> String {
    format!("{:?}", f32::from_bits(bits))
}

fn double_text(bits: u64) -> String {
    format!("{:?}", f64::from_bits(bits))
}

fn snbt(tag: &NbtTag) -> String {
    tag.to_snbt_with(&float_text, &double_text)
}

#[test]
fn numbers_carry_their_suffixes() {
    assert_eq!(snbt(&NbtTag::Byte(-3)), "-3b");
    assert_eq!(snbt(&NbtTag::Short(300)), "300s");
    assert_eq!(snbt(&NbtTag::Int(i32::MIN)), "-2147483648");
    assert_eq!(snbt(&NbtTag::Long(7)), "7l");
    assert_eq!(snbt(&NbtTag::Float(1.5f32.to_bits())), "1.5f");
    assert_eq!(snbt(&NbtTag::Double(2.0f64.to_bits())), "2.0d");
}

#[test]
fn arrays_name_their_element_type() {
    assert_eq!(snbt(&NbtTag::ByteArray(vec![1, 255])), "[B;1b,255b]");
    assert_eq!(snbt(&NbtTag::IntArray(vec![1, -2, 3])), "[I;1,-2,3]");
    assert_eq!(snbt(&NbtTag::LongArray(vec![])), "[L;]");
    assert_eq!(snbt(&NbtTag::LongArray(vec![-9])), "[L;-9l]");
}

#[test]
fn strings_are_quoted_and_escaped() {
    assert_eq!(snbt(&NbtTag::String("a\"b'c\\d\ne".to_string())), "\"a\\\"b\\'c\\\\d\\ne\"");
}

#[test]
fn lists_and_compounds_join_with_commas() {
    let list = NbtTag::List(vec![NbtTag::Int(1), NbtTag::String("x".to_string())]);
    assert_eq!(snbt(&list), "[1,\"x\"]");
    let compound = NbtTag::Compound(vec![
        ("color".to_string(), NbtTag::String("red".to_string())),
        ("minecraft:id".to_string(), NbtTag::Byte(1)),
        ("".to_string(), NbtTag::Int(2)),
    ]);
    assert_eq!(snbt(&compound), "{color:\"red\",\"minecraft:id\":1b,2}");
}

#[test]
fn a_lone_text_entry_stands_for_its_value() {
    let text = NbtTag::Compound(vec![("text".to_string(), NbtTag::String("hi".to_string()))]);
    assert_eq!(snbt(&text), "\"hi\"");
    let unnamed = NbtTag::Compound(vec![("".to_string(), NbtTag::Long(4))]);
    assert_eq!(snbt(&unnamed), "4l");
    let named = NbtTag::Compound(vec![("bold".to_string(), NbtTag::Byte(1))]);
    assert_eq!(snbt(&named), "{bold:1b}");
    assert_eq!(snbt(&NbtTag::Compound(vec![])), "{}");
}

fn text(c: &TextComponent) -> &str {
    match &c.content {
        Content::Text { text } => text.as_str(),
        other => panic!("expected text, got {other:?}"),
    }
}

fn flat(c: &TextComponent) -> String {
    let mut s = text(c).to_string();
    for child in &c.children {
        s.push_str(&flat(child));
    }
    s
}

fn show(tag: &NbtTag) -> TextComponent {
    TextComponent::nbt_display(tag, &float_text, &double_text)
}

#[test]
fn numbers_show_in_gold_with_a_red_suffix() {
    let c = show(&NbtTag::Byte(5));
    assert_eq!(text(&c), "5");
    assert_eq!(c.format.color, Some(Color::Gold));
    assert_eq!(c.children.len(), 1);
    assert_eq!(text(&c.children[0]), "b");
    assert_eq!(c.children[0].format.color, Some(Color::Red));
    let i = show(&NbtTag::Int(-7));
    assert_eq!(text(&i), "-7");
    assert!(i.children.is_empty());
    assert_eq!(flat(&show(&NbtTag::Double(0.5f64.to_bits()))), "0.5d");
}

#[test]
fn strings_show_green_between_quotes() {
    let c = show(&NbtTag::String("hi".to_string()));
    assert_eq!(text(&c), "\"");
    assert_eq!(c.format.color, None);
    assert_eq!(c.children.len(), 2);
    assert_eq!(text(&c.children[0]), "hi");
    assert_eq!(c.children[0].format.color, Some(Color::Green));
    assert_eq!(flat(&c), "\"hi\"");
}

#[test]
fn arrays_show_their_type_letter() {
    let c = show(&NbtTag::IntArray(vec![1, 2]));
    assert_eq!(c.format.color, Some(Color::White));
    assert_eq!(text(&c.children[0]), "I");
    assert_eq!(c.children[0].format.color, Some(Color::Red));
    assert_eq!(flat(&c), "[I; 1, 2]");
    assert_eq!(flat(&show(&NbtTag::ByteArray(vec![200]))), "[B; 200b]");
    assert_eq!(flat(&show(&NbtTag::LongArray(vec![]))), "[L; ]");
}

#[test]
fn compounds_show_names_in_aqua() {
    let tag = NbtTag::Compound(vec![
        ("a".to_string(), NbtTag::Int(1)),
        ("".to_string(), NbtTag::List(vec![NbtTag::Short(2), NbtTag::Long(3)])),
    ]);
    let c = show(&tag);
    assert_eq!(flat(&c), "{a: 1, [2s, 3l]}");
    assert_eq!(c.children[0].format.color, Some(Color::Aqua));
    let lone = NbtTag::Compound(vec![("".to_string(), NbtTag::Int(9))]);
    assert_eq!(flat(&show(&lone)), "9");
    let named = NbtTag::Compound(vec![("x".to_string(), NbtTag::Int(9))]);
    assert_eq!(flat(&show(&named)), "{x: 9}");
}
