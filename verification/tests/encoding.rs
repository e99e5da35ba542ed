//! Components as network NBT: the tree encoder, the byte writers, and the fast paths.

use text_components::component::TextComponent;
use text_components::content::{Content, NbtSource, ObjectPlayer};
use text_components::format::{Color, Format};
use text_components::interactivity::{ClickEvent, HoverEvent};
use text_components::nbt::encoded::{EncodedComponent, UnresolvedContent};
use text_components::nbt::encode::{write_component_elem, write_component_entry, write_component_root};
use text_components::nbt::splice::{splice_len, SplicePart};
use text_components::nbt::tag::{write_root, NbtTag};
use text_components::translation::{Args, TranslatedMessage, Translation};

fn nbt_str(s: &str) -> Vec<u8> {
    let mut v = vec![(s.len() >> 8) as u8, s.len() as u8];
    v.extend_from_slice(s.as_bytes());
    v
}

#[test]
fn plain_text_encodes_as_a_string_tag() {
    let c = TextComponent::plain("hi".to_string());
    let mut want = vec![8u8];
    want.extend(nbt_str("hi"));
    assert_eq!(c.encode().into_bytes(), want);
}

#[test]
fn styled_text_encodes_as_a_compound_in_codec_order() {
    let mut c = TextComponent::plain("x".to_string());
    c.format = Format::new().color(Color::Red).bold(true);
    let mut want = vec![10u8, 8];
    want.extend(nbt_str("text"));
    want.extend(nbt_str("x"));
    want.push(8);
    want.extend(nbt_str("color"));
    want.extend(nbt_str("red"));
    want.push(1);
    want.extend(nbt_str("bold"));
    want.push(1);
    want.push(0);
    assert_eq!(c.encode().into_bytes(), want);
}

#[test]
fn children_go_in_extra() {
    let mut parent = TextComponent::plain("a".to_string());
    parent.children.push(TextComponent::plain("b".to_string()));
    let bytes = parent.encode().into_bytes();
    let mut want = vec![10u8, 8];
    want.extend(nbt_str("text"));
    want.extend(nbt_str("a"));
    want.push(9);
    want.extend(nbt_str("extra"));
    want.push(8);
    want.extend_from_slice(&1i32.to_be_bytes());
    want.extend(nbt_str("b"));
    want.push(0);
    assert_eq!(bytes, want);
}

#[test]
fn mixed_children_wrap_their_strings() {
    let mut parent = TextComponent::new();
    parent.children.push(TextComponent::plain("a".to_string()));
    let mut red = TextComponent::plain("b".to_string());
    red.format = Format::new().color(Color::Red);
    parent.children.push(red);
    let bytes = parent.encode().into_bytes();
    // the list is a compound list, the bare string wrapped as {"": "a"}
    let extra = bytes.windows(5).position(|w| w == b"extra").unwrap();
    assert_eq!(bytes[extra + 5], 10);
    assert_eq!(&bytes[extra + 10..extra + 14], &[8u8, 0, 0, 0][..]);
}

#[test]
fn unresolved_content_is_refused() {
    let score = TextComponent::scoreboard("@p".to_string(), "deaths".to_string());
    assert_eq!(score.try_encode().unwrap_err(), UnresolvedContent::Scoreboard);
    let mut parent = TextComponent::plain("a".to_string());
    parent.children.push(TextComponent::entity("@a".to_string(), None));
    assert_eq!(parent.unresolved(), Some(UnresolvedContent::Entity));
    let nbt = TextComponent::nbt("Health".to_string(), NbtSource::entity("@p".to_string()), false, None);
    assert_eq!(nbt.unresolved(), Some(UnresolvedContent::Nbt));
    assert!(TextComponent::plain("ok".to_string()).try_encode().is_ok());
    assert_eq!(
        UnresolvedContent::Entity.message(),
        "the component contains an entity selector, which has to be resolved before it can be encoded"
    );
}

#[test]
fn translation_fast_path_matches_the_tree_encoder() {
    let args = vec![TextComponent::plain("Steve".to_string()), {
        let mut c = TextComponent::plain("Zombie".to_string());
        c.format = Format::new().color(Color::Red);
        c
    }];
    let msg = TranslatedMessage::new("death.attack.mob", Args::Owned(args));
    let fast = msg.encode();
    let tree = TextComponent::translated(msg).encode();
    assert_eq!(fast, tree);

    let plain = TranslatedMessage::with_fallback("a.key", "A key", Args::Owned(vec![TextComponent::plain("x".to_string())]));
    let fast = plain.encode();
    assert_eq!(fast, TextComponent::translated(plain).encode());

    let none = Translation::<0>("item.minecraft.diamond_sword");
    assert_eq!(none.encode(), TextComponent::translated(none.msg()).encode());
}

#[test]
fn component_writers_place_the_encoding() {
    let mut red = TextComponent::plain("r".to_string());
    red.format = Format::new().color(Color::Red);
    let root = red.encode().into_bytes();

    let mut buf = Vec::new();
    write_component_root(&mut buf, &red);
    assert_eq!(buf, root);

    let mut buf = Vec::new();
    write_component_elem(&mut buf, &red);
    assert_eq!(buf, root[1..].to_vec());

    let mut buf = Vec::new();
    write_component_entry(&mut buf, "value", &red);
    let mut want = vec![10u8];
    want.extend(nbt_str("value"));
    want.extend_from_slice(&root[1..]);
    assert_eq!(buf, want);

    let plain = TextComponent::plain("p".to_string());
    let mut buf = Vec::new();
    write_component_elem(&mut buf, &plain);
    let mut want = vec![8u8, 0, 0];
    want.extend(nbt_str("p"));
    want.push(0);
    assert_eq!(buf, want);
}

#[test]
fn events_encode_their_fields() {
    let mut c = TextComponent::plain("go".to_string());
    c.interactions.click = Some(ClickEvent::change_page(3));
    c.interactions.hover = Some(HoverEvent::show_text(TextComponent::plain("tip".to_string())));
    let bytes = c.encode().into_bytes();
    let find = |needle: &[u8]| bytes.windows(needle.len()).any(|w| w == needle);
    assert!(find(b"hover_event"));
    assert!(find(b"show_text"));
    assert!(find(b"click_event"));
    assert!(find(b"change_page"));
    let mut page = vec![3u8];
    page.extend(nbt_str("page"));
    page.extend_from_slice(&3i32.to_be_bytes());
    assert!(find(&page));
}

#[test]
fn player_heads_write_their_profile() {
    let head = TextComponent::player_head(ObjectPlayer::name("Notch".to_string()), false);
    let bytes = head.encode().into_bytes();
    let find = |needle: &[u8]| bytes.windows(needle.len()).any(|w| w == needle);
    assert!(find(b"player"));
    assert!(find(b"Notch"));
    let mut hat = vec![1u8];
    hat.extend(nbt_str("hat"));
    hat.push(0);
    assert!(find(&hat));
    assert!(matches!(head.content, Content::Object(_)));
}

#[test]
fn tags_write_their_network_bytes() {
    let mut buf = Vec::new();
    write_root(&mut buf, &NbtTag::List(Vec::new()));
    assert_eq!(buf, vec![9u8, 0, 0, 0, 0, 0]);
    let mut buf = Vec::new();
    write_root(&mut buf, &NbtTag::IntArray(vec![1, -1]));
    assert_eq!(buf, vec![11u8, 0, 0, 0, 2, 0, 0, 0, 1, 255, 255, 255, 255]);
    let mut buf = Vec::new();
    write_root(&mut buf, &NbtTag::Long(-2));
    assert_eq!(buf, vec![4u8, 255, 255, 255, 255, 255, 255, 255, 254]);
    let mut buf = Vec::new();
    write_root(&mut buf, &NbtTag::List(vec![NbtTag::Int(1), NbtTag::String("a".to_string())]));
    let mut want = vec![9u8, 10, 0, 0, 0, 2, 3, 0, 0, 0, 0, 0, 1, 0, 8, 0, 0];
    want.extend(nbt_str("a"));
    want.push(0);
    assert_eq!(buf, want);
}

#[test]
fn encoded_components_wrap_their_bytes() {
    let e = EncodedComponent::from_vec(vec![8, 0, 1, b'x']);
    assert_eq!(e.as_bytes(), &[8u8, 0, 1, b'x'][..]);
    assert_eq!(EncodedComponent::from_static(&[8, 0, 0]).into_bytes(), vec![8u8, 0, 0]);
}

#[test]
fn splicing_encoded_bytes_without_a_style_copies_them() {
    let hi = TextComponent::plain("hi".to_owned()).encode();
    let mut root = Vec::new();
    EncodedComponent::from_vec(hi.as_bytes().to_vec()).splice_root(&mut root, None);
    assert_eq!(root, hi.as_bytes());

    // a string element is wrapped as {"": value}
    let mut elem = Vec::new();
    EncodedComponent::from_vec(hi.as_bytes().to_vec()).splice_elem(&mut elem, None);
    assert_eq!(elem, vec![8, 0, 0, 0, 2, b'h', b'i', 0]);

    let mut entry = Vec::new();
    EncodedComponent::from_vec(hi.as_bytes().to_vec()).splice_entry(&mut entry, "x", None);
    assert_eq!(entry, vec![8, 0, 1, b'x', 0, 2, b'h', b'i']);
}

#[test]
fn splicing_under_a_style_makes_the_bytes_its_only_child() {
    let hi = TextComponent::plain("hi".to_owned()).encode();
    let mut styled = TextComponent::plain(String::new());
    styled.format.color = Some(Color::Red);
    let mut root = Vec::new();
    EncodedComponent::from_vec(hi.as_bytes().to_vec()).splice_root(&mut root, Some(&styled));
    let carrier = styled.encode();
    let carrier = carrier.as_bytes();
    // the carrier's entries, then `extra`: a list of one compound, {"": "hi"}
    assert_eq!(&root[..carrier.len() - 1], &carrier[..carrier.len() - 1]);
    let mut tail = vec![9, 0, 5];
    tail.extend_from_slice(b"extra");
    tail.extend_from_slice(&[10, 0, 0, 0, 1, 8, 0, 0, 0, 2, b'h', b'i', 0, 0]);
    assert_eq!(&root[carrier.len() - 1..], &tail[..]);
}

#[test]
fn args_iter_walks_the_arguments_in_order() {
    assert!(Args::Absent.iter().is_empty());
    let args = Args::Owned(vec![TextComponent::plain("a".to_owned()), TextComponent::plain("b".to_owned())]);
    let seen: Vec<&TextComponent> = args.iter();
    assert_eq!(seen.len(), 2);
    assert_eq!(*seen[0], TextComponent::plain("a".to_owned()));
    assert_eq!(*seen[1], TextComponent::plain("b".to_owned()));
}

#[test]
fn splice_len_counts_a_name_in_utf8_bytes() {
    assert_eq!(splice_len(&[SplicePart::Entry("é", &[8, 0, 0])]), 7);
    assert_eq!(splice_len(&[SplicePart::Raw(&[1, 2]), SplicePart::Elem(&[10, 0])]), 3);
}
