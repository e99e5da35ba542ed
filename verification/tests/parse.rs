//! Malformed input errors instead of panicking, and equivalent spellings parse identically.

use text_components::grammar::emit::emit;
use text_components::grammar::inspect::segs_have_dyn;
use text_components::grammar::ir::{ColorIr, HoleArg, HoleKind, HoverIr, Piece, StrSeg, Style};
use text_components::grammar::parser::{parse, Mode};

fn pieces(input: &str, mode: Mode) -> Vec<Piece> {
    match parse(input, mode) {
        Ok(template) => template.pieces,
        Err(err) => panic!("{}", err.render(input)),
    }
}

fn text_of(pieces: &[Piece]) -> String {
    pieces
        .iter()
        .filter_map(|p| match p {
            Piece::Text { text, .. } => Some(text.as_str()),
            _ => None,
        })
        .collect()
}

fn dyn_color_name(input: &str) -> String {
    match &pieces(input, Mode::Runtime)[0].style().color {
        Some(ColorIr::Dyn(HoleArg::Named { name, .. })) => name.clone(),
        other => panic!("{input:?}: expected a named dynamic color, got {other:?}"),
    }
}

#[test]
fn malformed_input_errors() {
    for input in [
        "<color>",
        "<color:red:blue>",
        "<color:mauve>",
        "<shadow:#€abcde>",
        "<shadow:#zzzzzzzz>",
        "<red",
        "<hover:show_text:'oops>x",
        "<insertion:'a'b'c'>",
        "<rainbow:red>",
        "<gradient:#ff0000>x</gradient>",
        "</gold>",
        "hello {}",
        "{name",
        // a color tag has nothing to do with an argument
        "<red:blue>x",
        // hole names become variables in the macros: `²` and a lone `_` are not identifiers
        "{a²}",
        "<{a²}>x",
        "{_}",
        "<score:a>",
        "<score:a:b:c>",
        "<score:{x}:b>",
        "<selector>",
        "<nbt:chest:'0 0 0':Items>",
        "<nbt:entity:'@s':Health:' ':nope>",
        "<sprite>",
        "<sprite:a:b:c>",
        "<head:'a name that is far too long'>",
        "<head:Notch:maybe>",
        "<transition:red:blue:2>",
        "<transition:0.5>",
        "<hover:show_entity:pig:not-a-uuid>",
        "<hover:show_item:'minecraft:stone':many>",
        "<hover:show_item:'minecraft:stone':1:'{}'>",
        "<hover:show_entity:pig:1f085b2d-9548-4159-a8c7-f3ccdf0c2054:''>",
    ] {
        let Err(err) = parse(input, Mode::Runtime) else {
            panic!("{input:?} parsed but should not");
        };
        assert!(
            err.render(input).contains(&err.message),
            "{input:?} rendered without its message"
        );
    }
}

/// Text and styling, dropping the source ranges.
fn shape(input: &str, mode: Mode) -> (String, Vec<Style>) {
    let pieces = pieces(input, mode);
    (text_of(&pieces), pieces.iter().map(|p| p.style().copy()).collect())
}

#[test]
fn color_tag_matches_the_shorthands() {
    for (long, short) in [
        ("<color:red>x</color>", "<red>x</red>"),
        ("<color:#ff0000>x</color>", "<#ff0000>x</#ff0000>"),
        ("<color:{}>x</color>", "<{}>x</{}>"),
    ] {
        assert_eq!(shape(long, Mode::Macro), shape(short, Mode::Macro), "{long:?} vs {short:?}");
    }
    // a named hole records where it was written, so compare the name instead
    assert_eq!(dyn_color_name("<color:{c}>x</color>"), "c");
    assert_eq!(dyn_color_name("<{c}>x</{c}>"), "c");
}

#[test]
fn close_color_ends_a_dynamic_color() {
    let pieces = pieces("<{c}>a</color>b", Mode::Runtime);
    assert!(matches!(pieces[0].style().color, Some(ColorIr::Dyn(_))));
    assert!(pieces[1].style().color.is_none());
}

#[test]
fn quotes_unescape() {
    let parsed = pieces("<hover:show_text:'don\\'t'>x</hover>", Mode::Runtime);
    let Some(HoverIr::Text(text)) = &parsed[0].style().hover else {
        panic!("expected hover text, got {:?}", parsed[0].style().hover);
    };
    assert_eq!(text_of(text), "don't");

    let parsed = pieces("<insertion:'a\\\\b'>x", Mode::Runtime);
    let insertion = &parsed[0].style().insertion;
    assert_eq!(
        insertion.as_deref().and_then(StrSeg::join_lits).as_deref(),
        Some("a\\b")
    );
}

#[test]
fn markup_escapes_stay_literal() {
    assert_eq!(text_of(&pieces(r"\<literal {{}} \\", Mode::Runtime)), r"<literal {} \");
}

#[test]
fn const_holes_name_their_const() {
    let styled = pieces("<red>{@const HEADER}</red>", Mode::Macro);
    let Piece::Hole { arg, kind, .. } = &styled[0] else {
        panic!("expected a hole, got {:?}", styled[0]);
    };
    assert_eq!(*kind, HoleKind::ConstComponent);
    assert!(matches!(arg, HoleArg::Named { name, .. } if name == "HEADER"));

    for input in ["{@const}", "{@const }", "{@const a b}"] {
        assert!(parse(input, Mode::Macro).is_err(), "{input:?} parsed but should not");
    }
    assert!(matches!(
        &pieces("{@constant}", Mode::Macro)[0],
        Piece::Hole { kind: HoleKind::Component, .. }
    ));
    assert!(parse("{@const HEADER}", Mode::Runtime).is_err());
}

#[test]
fn hole_names_are_identifiers() {
    for input in ["{name}", "{_name}", "{n2}", "{café}"] {
        assert!(parse(input, Mode::Runtime).is_ok(), "{input:?} should parse");
    }
}

#[test]
fn empty_template_has_no_pieces() {
    assert_eq!(parse("", Mode::Runtime).unwrap().pieces, Vec::<Piece>::new());
}

#[test]
fn text_producing_tags() {
    assert_eq!(text_of(&pieces("a<newline>b", Mode::Runtime)), "a\nb");
    let reset = pieces("<red>a<reset>b", Mode::Runtime);
    assert!(reset[0].style().color.is_some());
    assert!(reset[1].style().color.is_none());
}

#[test]
fn emit_errors_point_at_the_piece_that_failed() {
    // one character over what an NBT string can carry
    let long = "a".repeat(65536);
    let template = format!("<red>ok</red><gold>{long}</gold>");
    let Err(err) = emit(&pieces(&template, Mode::Runtime)) else {
        panic!("a 65536-byte string should not encode");
    };
    assert_eq!(err.range, Some((19, 19 + long.chars().count())));
}

#[test]
fn open_tags_close_at_the_end() {
    assert_eq!(pieces("<red>x", Mode::Runtime), pieces("<red>x</red>", Mode::Runtime));
}

#[test]
fn runtime_templates_count_no_positional_holes() {
    assert_eq!(parse("<red>{a}</red>{b}", Mode::Runtime).unwrap().positional_count, 0);
    assert_eq!(parse("{}{x}{}", Mode::Macro).unwrap().positional_count, 2);
    assert!(parse("{x:.2}", Mode::Runtime).is_err());
    assert!(parse("{x:.2}", Mode::Macro).is_ok());
}

#[test]
fn unknown_tags_suggest_the_nearest_name() {
    let err = parse("<yelow>x", Mode::Runtime).unwrap_err();
    assert_eq!(err.message, "unknown tag `<yelow>`");
    assert_eq!(err.help.as_deref(), Some("did you mean `<yellow>`?"));
    let err = parse("<click:run_comand:'/x'>x", Mode::Runtime).unwrap_err();
    assert_eq!(err.help.as_deref(), Some("did you mean `run_command`?"));
}

#[test]
fn closing_an_unopened_tag_lists_the_open_ones() {
    let err = parse("<red><b>x</gold>", Mode::Runtime).unwrap_err();
    assert_eq!(err.help.as_deref(), Some("currently open: <red>, <bold>"));
    assert_eq!(err.range, (9, 16));
}

#[test]
fn gradients_run_from_the_first_stop_to_the_last() {
    let parsed = pieces("<gradient:#000000:#ffffff>abc</gradient>", Mode::Runtime);
    assert_eq!(parsed.len(), 3);
    assert_eq!(parsed[0].style().color, Some(ColorIr::Rgb(0, 0, 0)));
    assert_eq!(parsed[1].style().color, Some(ColorIr::Rgb(128, 128, 128)));
    assert_eq!(parsed[2].style().color, Some(ColorIr::Rgb(255, 255, 255)));
}

#[test]
fn rainbows_start_red_and_sweep_the_hue() {
    let parsed = pieces("<rainbow>abc</rainbow>", Mode::Runtime);
    assert_eq!(parsed[0].style().color, Some(ColorIr::Rgb(255, 0, 0)));
    assert_eq!(parsed[1].style().color, Some(ColorIr::Rgb(0, 255, 0)));
    assert_eq!(parsed[2].style().color, Some(ColorIr::Rgb(0, 0, 255)));
}

#[test]
fn flags_shadows_and_pages_parse() {
    let parsed = pieces("<b><!i><shadow:#80FF0000>x", Mode::Runtime);
    let style = parsed[0].style();
    assert!(style.bold.is_some() && style.italic.is_some());
    assert_eq!(style.shadow_color, Some(0x80FF_0000_u32 as i32));
    assert_eq!(shadow_of("<shadow:red>x"), Some(0x40FF_5555_u32 as i32));
    assert!(parse("<click:change_page:'x'>y", Mode::Runtime).is_err());
    assert!(parse("<click:change_page:'3'>y", Mode::Runtime).is_ok());
    assert!(parse("<click:open_url:'ftp://x'>y", Mode::Runtime).is_err());
}

fn shadow_of(input: &str) -> Option<i32> {
    pieces(input, Mode::Runtime)[0].style().shadow_color
}

#[test]
fn string_values_know_their_holes() {
    let parsed = pieces("<insert:'/msg {name} '>x", Mode::Runtime);
    let segs = parsed[0].style().insertion.as_ref().unwrap();
    assert!(segs_have_dyn(segs));
    assert!(parsed[0].has_dyn());
    assert!(!pieces("<red>x", Mode::Runtime)[0].has_dyn());
}

#[test]
fn plain_text_is_one_unstyled_piece() {
    let t = parse("hello world", Mode::Macro).unwrap();
    assert_eq!(t.positional_count, 0);
    assert_eq!(t.pieces.len(), 1);
    match &t.pieces[0] {
        Piece::Text { text, style, range } => {
            assert_eq!(text, "hello world");
            assert!(style.color.is_none() && style.bold.is_none() && style.hover.is_none());
            assert_eq!(*range, (0, 11));
        },
        other => panic!("expected a text piece, got {other:?}"),
    }
}

#[test]
fn closing_tags_restore_the_style_before_their_tag() {
    let t = parse("<red>a<bold>b</red>c", Mode::Runtime).unwrap();
    let texts: Vec<(String, bool, bool)> = t
        .pieces
        .iter()
        .map(|p| match p {
            Piece::Text { text, style, .. } => (text.clone(), style.color.is_some(), style.bold.is_some()),
            other => panic!("expected text, got {other:?}"),
        })
        .collect();
    assert_eq!(
        texts,
        vec![("a".to_owned(), true, false), ("b".to_owned(), true, true), ("c".to_owned(), false, false)]
    );
    assert!(parse("a</red>", Mode::Runtime).is_err());
    assert_eq!(parse("a</red>", Mode::Runtime).unwrap_err().range, (1, 7));
}

#[test]
fn gradients_start_and_end_on_their_stops() {
    let t = parse("<gradient:#ff0000:#00ff00:#0000ff>abcde</gradient>", Mode::Runtime).unwrap();
    let colors: Vec<Option<&ColorIr>> = t
        .pieces
        .iter()
        .map(|p| match p {
            Piece::Text { style, .. } => style.color.as_ref(),
            other => panic!("expected text, got {other:?}"),
        })
        .collect();
    assert_eq!(colors.len(), 5);
    assert_eq!(colors[0], Some(&ColorIr::Rgb(255, 0, 0)));
    assert_eq!(colors[2], Some(&ColorIr::Rgb(0, 255, 0)));
    assert_eq!(colors[4], Some(&ColorIr::Rgb(0, 0, 255)));
}

#[test]
fn const_text_holes_name_their_const() {
    let styled = pieces("<red>{const GIT_HASH}</red>", Mode::Macro);
    let Piece::Hole { arg, kind, .. } = &styled[0] else {
        panic!("expected a hole, got {:?}", styled[0]);
    };
    assert_eq!(*kind, HoleKind::ConstText);
    assert!(matches!(arg, HoleArg::Named { name, .. } if name == "GIT_HASH"));

    for input in ["{const}", "{const }", "{const A:.2}", "{const a b}"] {
        assert!(parse(input, Mode::Macro).is_err(), "{input:?} parsed but should not");
    }
    assert!(matches!(&pieces("{constant}", Mode::Macro)[0], Piece::Hole { kind: HoleKind::Text, .. }));
    assert!(parse("{const GIT_HASH}", Mode::Runtime).is_err());
}

#[test]
fn shadow_alpha_defaults_to_a_quarter() {
    assert_eq!(shadow_of("<shadow:red>x"), Some(0x40FF_5555_u32 as i32));
    assert_eq!(shadow_of("<shadow:#ff0000>x"), Some(0x40FF_0000_u32 as i32));
    assert_eq!(shadow_of("<shadow:#80FF0000>x"), Some(0x80FF_0000_u32 as i32));
    assert_eq!(shadow_of("<shadow:red:0.5>x"), Some(0x80FF_5555_u32 as i32));
    assert_eq!(shadow_of("<shadow:#ff0000:0.5>x"), Some(0x80FF_0000_u32 as i32));
    assert_eq!(shadow_of("<shadow:red:0>x"), Some(0x00FF_5555));
    assert_eq!(shadow_of("<shadow:red:1>x"), Some(0xFFFF_5555_u32 as i32));
    assert_eq!(shadow_of("<!shadow>x"), Some(0));

    for input in [
        "<shadow:red:2>x",
        "<shadow:red:-0.5>x",
        "<shadow:red:half>x",
        "<shadow:red:0.5:0.5>x",
        "<!shadow:red>x",
        "<!red>x",
    ] {
        assert!(parse(input, Mode::Runtime).is_err(), "{input:?} parsed but should not");
    }
}

#[test]
fn tag_names_are_case_insensitive() {
    for (upper, lower) in [
        ("<RED>x</Red>", "<red>x</red>"),
        ("<C:blue>x</c>", "<color:blue>x</color>"),
        ("<COLOUR:#00FF00>x", "<color:#00ff00>x"),
        ("<Shadow:red>x", "<shadow:red>x"),
        ("<B>x</B>", "<bold>x</bold>"),
        ("a<NewLine>b", "a<newline>b"),
        ("<Key:key.jump>", "<key:key.jump>"),
    ] {
        assert_eq!(shape(upper, Mode::Runtime), shape(lower, Mode::Runtime), "{upper:?} vs {lower:?}");
    }
    // a hole names a variable, so its case survives
    assert_eq!(dyn_color_name("<{Color}>x</{Color}>"), "Color");
    assert_eq!(
        shape("<Font:Minecraft:Uniform>x", Mode::Runtime).1[0].font,
        Some("Minecraft:Uniform".to_string())
    );
}

#[test]
fn double_quotes_work_like_single_quotes() {
    let hover = |input: &str| match &pieces(input, Mode::Runtime)[0].style().hover {
        Some(HoverIr::Text(text)) => text_of(text),
        other => panic!("{input:?}: expected hover text, got {other:?}"),
    };
    assert_eq!(hover("<hover:show_text:\"hi\">x</hover>"), "hi");
    assert_eq!(hover("<hover:show_text:\"it's\">x</hover>"), "it's");
    assert_eq!(hover("<hover:show_text:\"say \\\"hi\\\"\">x</hover>"), "say \"hi\"");
    assert_eq!(hover("<hover:show_text:'say \"hi\"'>x</hover>"), "say \"hi\"");

    let err = parse("<hover:show_text:\"a'>x", Mode::Runtime).unwrap_err();
    assert!(err.message.contains("unclosed `\"`"), "{}", err.message);
    let err = parse("<insertion:\"a\"b\">x", Mode::Runtime).unwrap_err();
    assert!(err.message.contains("must span the whole argument"), "{}", err.message);
}

#[test]
fn self_closing_tags_close_themselves() {
    // the source ranges differ, so compare text and styling
    assert_eq!(shape("<key:key.jump/>x", Mode::Runtime), shape("<key:key.jump>x", Mode::Runtime));
    assert!(matches!(
        &pieces("<key:key.jump/>x", Mode::Runtime)[0],
        Piece::Keybind { key, .. } if key == "key.jump"
    ));
    assert_eq!(shape("<red/>x", Mode::Runtime), shape("x", Mode::Runtime));
    assert_eq!(shape("<red/>x<red>y", Mode::Runtime), shape("x<red>y</red>", Mode::Runtime));
    assert_eq!(text_of(&pieces("a<newline/>b", Mode::Runtime)), "a\nb");
    assert_eq!(pieces("<font:a/b>x", Mode::Runtime)[0].style().font, Some("a/b".to_string()));
    assert_eq!(shape("<insert:'x'/>y", Mode::Runtime), shape("y", Mode::Runtime));
}

#[test]
fn lang_or_carries_a_fallback() {
    let fallback = |input: &str| match &pieces(input, Mode::Runtime)[0] {
        Piece::Lang { fallback, args, .. } => (fallback.as_deref().and_then(StrSeg::join_lits), args.len()),
        other => panic!("{input:?}: expected a translation, got {other:?}"),
    };
    assert_eq!(fallback("<lang_or:my.key:'Fallback text'>"), (Some("Fallback text".to_string()), 0));
    assert_eq!(fallback("<tr_or:my.key:'Fallback':'a':'b'>"), (Some("Fallback".to_string()), 2));
    assert_eq!(fallback("<translate_or:my.key:'Fallback'>"), (Some("Fallback".to_string()), 0));
    assert_eq!(fallback("<lang:my.key:'a'>"), (None, 1));

    let err = parse("<lang_or:my.key>", Mode::Runtime).unwrap_err();
    assert!(err.message.contains("needs a fallback"), "{}", err.message);
}
