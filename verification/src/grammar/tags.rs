//! Tag names: the named colors, aliases, and canonical spellings.
use vstd::prelude::*;
use crate::chars::{chars_of, eq_lit, has_prefix, starts_with_char};

verus! {

/// (alias, canonical, rgb) for every vanilla named color.
pub const NAMED_COLORS: [(&'static str, &'static str, (u8, u8, u8)); 18] = [
    ("black", "black", (0x00, 0x00, 0x00)),
    ("dark_blue", "dark_blue", (0x00, 0x00, 0xAA)),
    ("dark_green", "dark_green", (0x00, 0xAA, 0x00)),
    ("dark_aqua", "dark_aqua", (0x00, 0xAA, 0xAA)),
    ("dark_red", "dark_red", (0xAA, 0x00, 0x00)),
    ("dark_purple", "dark_purple", (0xAA, 0x00, 0xAA)),
    ("gold", "gold", (0xFF, 0xAA, 0x00)),
    ("gray", "gray", (0xAA, 0xAA, 0xAA)),
    ("grey", "gray", (0xAA, 0xAA, 0xAA)),
    ("dark_gray", "dark_gray", (0x55, 0x55, 0x55)),
    ("dark_grey", "dark_gray", (0x55, 0x55, 0x55)),
    ("blue", "blue", (0x55, 0x55, 0xFF)),
    ("green", "green", (0x55, 0xFF, 0x55)),
    ("aqua", "aqua", (0x55, 0xFF, 0xFF)),
    ("red", "red", (0xFF, 0x55, 0x55)),
    ("light_purple", "light_purple", (0xFF, 0x55, 0xFF)),
    ("yellow", "yellow", (0xFF, 0xFF, 0x55)),
    ("white", "white", (0xFF, 0xFF, 0xFF)),
];

/// The first table row at or after `i` whose alias is `name`.
pub open spec fn alias_row_from(name: Seq<char>, i: int) -> Option<int>
    decreases 18 - i,
{
    if i < 0 || i >= 18 {
        None
    } else if NAMED_COLORS[i].0@ == name {
        Some(i)
    } else {
        alias_row_from(name, i + 1)
    }
}

/// The first table row whose alias is `name`.
pub open spec fn alias_row(name: Seq<char>) -> Option<int> {
    alias_row_from(name, 0)
}

/// The first table row at or after `i` whose canonical name is `name`.
pub open spec fn canonical_row_from(name: Seq<char>, i: int) -> Option<int>
    decreases 18 - i,
{
    if i < 0 || i >= 18 {
        None
    } else if NAMED_COLORS[i].1@ == name {
        Some(i)
    } else {
        canonical_row_from(name, i + 1)
    }
}

/// The first table row whose canonical name is `name`.
pub open spec fn canonical_row(name: Seq<char>) -> Option<int> {
    canonical_row_from(name, 0)
}

pub proof fn lemma_alias_row_from(name: Seq<char>, i: int)
    requires
        0 <= i,
    ensures
        alias_row_from(name, i) matches Some(r) ==> i <= r < 18 && NAMED_COLORS[r].0@ == name,
    decreases 18 - i,
{
    if i < 18 && NAMED_COLORS[i].0@ != name {
        lemma_alias_row_from(name, i + 1);
    }
}

pub proof fn lemma_canonical_row_from(name: Seq<char>, i: int)
    requires
        0 <= i,
    ensures
        canonical_row_from(name, i) matches Some(r) ==> i <= r < 18 && NAMED_COLORS[r].1@ == name,
    decreases 18 - i,
{
    if i < 18 && NAMED_COLORS[i].1@ != name {
        lemma_canonical_row_from(name, i + 1);
    }
}

/// The row of the named-color table whose alias is `name`.
pub fn find_alias(name: &[char]) -> (r: Option<usize>)
    ensures
        match r {
            Some(i) => alias_row(name@) == Some(i as int) && i < 18,
            None => alias_row(name@) is None,
        },
{
    let mut i: usize = 0;
    while i < 18
        invariant
            i <= 18,
            alias_row(name@) == alias_row_from(name@, i as int),
        decreases 18 - i,
    {
        if eq_lit(name, NAMED_COLORS[i].0) {
            return Some(i);
        }
        i = i + 1;
    }
    None
}

/// The row of the named-color table whose canonical name is `name`.
pub fn find_canonical(name: &[char]) -> (r: Option<usize>)
    ensures
        match r {
            Some(i) => canonical_row(name@) == Some(i as int) && i < 18,
            None => canonical_row(name@) is None,
        },
{
    let mut i: usize = 0;
    while i < 18
        invariant
            i <= 18,
            canonical_row(name@) == canonical_row_from(name@, i as int),
        decreases 18 - i,
    {
        if eq_lit(name, NAMED_COLORS[i].1) {
            return Some(i);
        }
        i = i + 1;
    }
    None
}

/// The canonical spelling of a tag name: aliases map to the name the stack records.
pub open spec fn canonical_tag_spec(name: Seq<char>) -> Seq<char> {
    if name == "b"@ {
        "bold"@
    } else if name == "i"@ || name == "em"@ {
        "italic"@
    } else if name == "u"@ {
        "underlined"@
    } else if name == "st"@ {
        "strikethrough"@
    } else if name == "obf"@ {
        "obfuscated"@
    } else if name == "shadow_color"@ {
        "shadow"@
    } else if name == "keybind"@ {
        "key"@
    } else if name == "insertion"@ {
        "insert"@
    } else if name == "c"@ || name == "colour"@ {
        "color"@
    } else if name == "tr"@ || name == "translate"@ {
        "lang"@
    } else if name == "tr_or"@ || name == "translate_or"@ {
        "lang_or"@
    } else if name == "sel"@ {
        "selector"@
    } else if name == "data"@ {
        "nbt"@
    } else if starts_with_char(name, '#') || starts_with_char(name, '{') {
        "color"@
    } else {
        match alias_row(name) {
            Some(i) => NAMED_COLORS[i].1@,
            None => name,
        }
    }
}

/// Every short or alternative tag name reads as the long form it stands for, and every long
/// form reads as itself, so `<st>` and `<strikethrough>` open the same tag.
pub proof fn lemma_tag_aliases()
    ensures
        canonical_tag_spec("b"@) == "bold"@,
        canonical_tag_spec("i"@) == "italic"@,
        canonical_tag_spec("em"@) == "italic"@,
        canonical_tag_spec("u"@) == "underlined"@,
        canonical_tag_spec("st"@) == "strikethrough"@,
        canonical_tag_spec("obf"@) == "obfuscated"@,
        canonical_tag_spec("shadow_color"@) == "shadow"@,
        canonical_tag_spec("keybind"@) == "key"@,
        canonical_tag_spec("insertion"@) == "insert"@,
        canonical_tag_spec("c"@) == "color"@,
        canonical_tag_spec("colour"@) == "color"@,
        canonical_tag_spec("tr"@) == "lang"@,
        canonical_tag_spec("translate"@) == "lang"@,
        canonical_tag_spec("tr_or"@) == "lang_or"@,
        canonical_tag_spec("translate_or"@) == "lang_or"@,
        canonical_tag_spec("sel"@) == "selector"@,
        canonical_tag_spec("data"@) == "nbt"@,
        canonical_tag_spec("bold"@) == "bold"@,
        canonical_tag_spec("color"@) == "color"@,
        canonical_tag_spec("insert"@) == "insert"@,
        canonical_tag_spec("italic"@) == "italic"@,
        canonical_tag_spec("key"@) == "key"@,
        canonical_tag_spec("lang"@) == "lang"@,
        canonical_tag_spec("lang_or"@) == "lang_or"@,
        canonical_tag_spec("nbt"@) == "nbt"@,
        canonical_tag_spec("obfuscated"@) == "obfuscated"@,
        canonical_tag_spec("selector"@) == "selector"@,
        canonical_tag_spec("shadow"@) == "shadow"@,
        canonical_tag_spec("strikethrough"@) == "strikethrough"@,
        canonical_tag_spec("underlined"@) == "underlined"@,
{
    reveal_strlit("aqua");
    reveal_strlit("b");
    reveal_strlit("black");
    reveal_strlit("blue");
    reveal_strlit("bold");
    reveal_strlit("c");
    reveal_strlit("color");
    reveal_strlit("colour");
    reveal_strlit("dark_aqua");
    reveal_strlit("dark_blue");
    reveal_strlit("dark_gray");
    reveal_strlit("dark_green");
    reveal_strlit("dark_grey");
    reveal_strlit("dark_purple");
    reveal_strlit("dark_red");
    reveal_strlit("data");
    reveal_strlit("em");
    reveal_strlit("gold");
    reveal_strlit("gray");
    reveal_strlit("green");
    reveal_strlit("grey");
    reveal_strlit("i");
    reveal_strlit("insert");
    reveal_strlit("insertion");
    reveal_strlit("italic");
    reveal_strlit("key");
    reveal_strlit("keybind");
    reveal_strlit("lang");
    reveal_strlit("lang_or");
    reveal_strlit("light_purple");
    reveal_strlit("nbt");
    reveal_strlit("obf");
    reveal_strlit("obfuscated");
    reveal_strlit("red");
    reveal_strlit("sel");
    reveal_strlit("selector");
    reveal_strlit("shadow");
    reveal_strlit("shadow_color");
    reveal_strlit("st");
    reveal_strlit("strikethrough");
    reveal_strlit("tr");
    reveal_strlit("tr_or");
    reveal_strlit("translate");
    reveal_strlit("translate_or");
    reveal_strlit("u");
    reveal_strlit("underlined");
    reveal_strlit("white");
    reveal_strlit("yellow");
    assert("aqua"@.len() == 4);
    assert("b"@.len() == 1);
    assert("black"@.len() == 5);
    assert("blue"@.len() == 4);
    assert("bold"@.len() == 4);
    assert("c"@.len() == 1);
    assert("color"@.len() == 5);
    assert("colour"@.len() == 6);
    assert("dark_aqua"@.len() == 9);
    assert("dark_blue"@.len() == 9);
    assert("dark_gray"@.len() == 9);
    assert("dark_green"@.len() == 10);
    assert("dark_grey"@.len() == 9);
    assert("dark_purple"@.len() == 11);
    assert("dark_red"@.len() == 8);
    assert("data"@.len() == 4);
    assert("em"@.len() == 2);
    assert("gold"@.len() == 4);
    assert("gray"@.len() == 4);
    assert("green"@.len() == 5);
    assert("grey"@.len() == 4);
    assert("i"@.len() == 1);
    assert("insert"@.len() == 6);
    assert("insertion"@.len() == 9);
    assert("italic"@.len() == 6);
    assert("key"@.len() == 3);
    assert("keybind"@.len() == 7);
    assert("lang"@.len() == 4);
    assert("lang_or"@.len() == 7);
    assert("light_purple"@.len() == 12);
    assert("nbt"@.len() == 3);
    assert("obf"@.len() == 3);
    assert("obfuscated"@.len() == 10);
    assert("red"@.len() == 3);
    assert("sel"@.len() == 3);
    assert("selector"@.len() == 8);
    assert("shadow"@.len() == 6);
    assert("shadow_color"@.len() == 12);
    assert("st"@.len() == 2);
    assert("strikethrough"@.len() == 13);
    assert("tr"@.len() == 2);
    assert("tr_or"@.len() == 5);
    assert("translate"@.len() == 9);
    assert("translate_or"@.len() == 12);
    assert("u"@.len() == 1);
    assert("underlined"@.len() == 10);
    assert("white"@.len() == 5);
    assert("yellow"@.len() == 6);
    assert("bold"@[0] != "data"@[0]);
    assert("bold"@[0] != "gold"@[0]);
    assert("bold"@[0] != "gray"@[0]);
    assert("bold"@[0] != "grey"@[0]);
    assert("bold"@[1] != "blue"@[1]);
    assert("bold"@[0] != "aqua"@[0]);
    assert("color"@[0] != "tr_or"@[0]);
    assert("color"@[0] != "black"@[0]);
    assert("color"@[0] != "green"@[0]);
    assert("color"@[0] != "white"@[0]);
    assert("insert"@[0] != "colour"@[0]);
    assert("insert"@[0] != "yellow"@[0]);
    assert("italic"@[0] != "colour"@[0]);
    assert("italic"@[0] != "yellow"@[0]);
    assert("key"@[0] != "obf"@[0]);
    assert("key"@[0] != "sel"@[0]);
    assert("key"@[0] != "red"@[0]);
    assert("lang"@[0] != "data"@[0]);
    assert("lang"@[0] != "gold"@[0]);
    assert("lang"@[0] != "gray"@[0]);
    assert("lang"@[0] != "grey"@[0]);
    assert("lang"@[0] != "blue"@[0]);
    assert("lang"@[0] != "aqua"@[0]);
    assert("lang_or"@[0] != "keybind"@[0]);
    assert("nbt"@[0] != "obf"@[0]);
    assert("nbt"@[0] != "sel"@[0]);
    assert("nbt"@[0] != "red"@[0]);
    assert("obfuscated"@[0] != "dark_green"@[0]);
    assert("selector"@[0] != "dark_red"@[0]);
    assert("shadow"@[0] != "colour"@[0]);
    assert("shadow"@[0] != "yellow"@[0]);
    assert("underlined"@[0] != "dark_green"@[0]);
    assert("bold"@[0] != '#' && "bold"@[0] != '{');
    assert("color"@[0] != '#' && "color"@[0] != '{');
    assert("insert"@[0] != '#' && "insert"@[0] != '{');
    assert("italic"@[0] != '#' && "italic"@[0] != '{');
    assert("key"@[0] != '#' && "key"@[0] != '{');
    assert("lang"@[0] != '#' && "lang"@[0] != '{');
    assert("lang_or"@[0] != '#' && "lang_or"@[0] != '{');
    assert("nbt"@[0] != '#' && "nbt"@[0] != '{');
    assert("obfuscated"@[0] != '#' && "obfuscated"@[0] != '{');
    assert("selector"@[0] != '#' && "selector"@[0] != '{');
    assert("shadow"@[0] != '#' && "shadow"@[0] != '{');
    assert("strikethrough"@[0] != '#' && "strikethrough"@[0] != '{');
    assert("underlined"@[0] != '#' && "underlined"@[0] != '{');
    assert("b"@[0] != "i"@[0]);
    assert("b"@[0] != "u"@[0]);
    assert("b"@[0] != "c"@[0]);
    assert("i"@[0] != "b"@[0]);
    assert("i"@[0] != "u"@[0]);
    assert("i"@[0] != "c"@[0]);
    assert("em"@[0] != "st"@[0]);
    assert("em"@[0] != "tr"@[0]);
    assert("u"@[0] != "b"@[0]);
    assert("u"@[0] != "i"@[0]);
    assert("u"@[0] != "c"@[0]);
    assert("st"@[0] != "em"@[0]);
    assert("st"@[0] != "tr"@[0]);
    assert("obf"@[0] != "sel"@[0]);
    assert("shadow_color"@[0] != "translate_or"@[0]);
    assert("insertion"@[0] != "translate"@[0]);
    assert("c"@[0] != "b"@[0]);
    assert("c"@[0] != "i"@[0]);
    assert("c"@[0] != "u"@[0]);
    assert("tr"@[0] != "em"@[0]);
    assert("tr"@[0] != "st"@[0]);
    assert("translate"@[0] != "insertion"@[0]);
    assert("translate_or"@[0] != "shadow_color"@[0]);
    assert("sel"@[0] != "obf"@[0]);
    reveal_with_fuel(alias_row_from, 19);
}

/// The canonical spelling of a tag name.
pub fn canonical_tag(name: &[char]) -> (r: Vec<char>)
    ensures
        r@ == canonical_tag_spec(name@),
{
    if eq_lit(name, "b") {
        chars_of("bold")
    } else if eq_lit(name, "i") || eq_lit(name, "em") {
        chars_of("italic")
    } else if eq_lit(name, "u") {
        chars_of("underlined")
    } else if eq_lit(name, "st") {
        chars_of("strikethrough")
    } else if eq_lit(name, "obf") {
        chars_of("obfuscated")
    } else if eq_lit(name, "shadow_color") {
        chars_of("shadow")
    } else if eq_lit(name, "keybind") {
        chars_of("key")
    } else if eq_lit(name, "insertion") {
        chars_of("insert")
    } else if eq_lit(name, "c") || eq_lit(name, "colour") {
        chars_of("color")
    } else if eq_lit(name, "tr") || eq_lit(name, "translate") {
        chars_of("lang")
    } else if eq_lit(name, "tr_or") || eq_lit(name, "translate_or") {
        chars_of("lang_or")
    } else if eq_lit(name, "sel") {
        chars_of("selector")
    } else if eq_lit(name, "data") {
        chars_of("nbt")
    } else if name.len() > 0 && (name[0] == '#' || name[0] == '{') {
        chars_of("color")
    } else {
        match find_alias(name) {
            Some(i) => chars_of(NAMED_COLORS[i].1),
            None => {
                let mut r: Vec<char> = Vec::new();
                let mut k: usize = 0;
                while k < name.len()
                    invariant
                        k <= name@.len(),
                        r@ == name@.subrange(0, k as int),
                    decreases name@.len() - k,
                {
                    r.push(name[k]);
                    k = k + 1;
                    assert(r@ =~= name@.subrange(0, k as int));
                }
                assert(name@.subrange(0, name@.len() as int) =~= name@);
                r
            },
        }
    }
}

/// Every tag name the parser knows, for typo suggestions.
pub const TAG_NAMES: [&'static str; 42] = [
    "b", "bold", "i", "em", "italic", "u", "underlined", "st", "strikethrough", "obf",
    "obfuscated", "reset", "newline", "br", "hover", "click", "font", "insert", "insertion",
    "shadow", "shadow_color", "key", "keybind", "lang", "tr", "translate", "lang_or", "tr_or",
    "translate_or", "color", "colour", "c", "gradient", "rainbow", "score", "selector", "sel",
    "nbt", "data", "sprite", "head", "transition",
];

/// The candidate list for suggestions: every color alias, then every other tag name.
pub open spec fn all_tag_names_spec() -> Seq<&'static str> {
    Seq::new(18, |i: int| NAMED_COLORS[i].0) + Seq::new(42, |i: int| TAG_NAMES[i])
}

/// Every tag name the parser knows: the color aliases, then the other tags.
pub fn all_tag_names() -> (r: Vec<&'static str>)
    ensures
        r@ == all_tag_names_spec(),
{
    let mut r: Vec<&'static str> = Vec::new();
    let mut i: usize = 0;
    while i < 18
        invariant
            i <= 18,
            r@ == Seq::new(i as nat, |k: int| NAMED_COLORS[k].0),
        decreases 18 - i,
    {
        r.push(NAMED_COLORS[i].0);
        i = i + 1;
        assert(r@ =~= Seq::new(i as nat, |k: int| NAMED_COLORS[k].0));
    }
    let mut j: usize = 0;
    while j < 42
        invariant
            j <= 42,
            r@ == Seq::new(18, |k: int| NAMED_COLORS[k].0) + Seq::new(j as nat, |k: int| TAG_NAMES[k]),
        decreases 42 - j,
    {
        r.push(TAG_NAMES[j]);
        j = j + 1;
        assert(r@ =~= Seq::new(18, |k: int| NAMED_COLORS[k].0) + Seq::new(j as nat, |k: int| TAG_NAMES[k]));
    }
    r
}

pub const SUPPORTED_SUMMARY: &'static str = "supported tags: named colors (<red>, <dark_gray>, …), <#RRGGBB>, <b>/<i>/<u>/<st>/<obf>, <reset>, <newline>, <font:…>, <shadow:red:0.5>, <key:key.jump>, <lang:key:'arg'>, <lang_or:key:'fallback'>, <gradient:#a:#b>, <rainbow>, <transition:red:blue:0.5>, <insert:'…'>, <hover:show_text:'…'>, <hover:show_item:'minecraft:stone':3>, <hover:show_entity:pig:uuid>, <click:run_command:'…'> (and open_url, suggest_command, copy_to_clipboard, change_page, show_dialog), <score:name:objective>, <selector:@a>, <nbt:entity:'@s':Health>, <sprite:item/emerald>, <head:Notch>";

pub const COLOR_HELP: &'static str = "for example <color:red> or <color:#ff0000>";

} // verus!
