//! The component vanilla shows for an NBT tag: numbers in gold with their type suffix in
//! red, strings in green, compound names in aqua, brackets in white.
use vstd::prelude::*;
use crate::chars::{chars_of, decimal, decimal_chars, push_chars, push_signed_decimal, signed_decimal};
use crate::component::TextComponent;
use crate::content::Content;
use crate::format::{format_none, Color, Format};
use crate::interactivity::{interactivity_none, Interactivity};
use crate::nbt::tag::{
    lemma_view_entries_index, lemma_view_entries_len, lemma_view_tags_index, lemma_view_tags_len,
    view_entries, view_tags, NbtTag, TagV,
};
use crate::nbt::text::{rendered, renders};

verus! {

/// `c` is the text `s`, colored `color` (or not colored), with no other style or events.
pub open spec fn styled_text(c: TextComponent, s: Seq<char>, color: Option<Color>) -> bool {
    &&& c.content matches Content::Text { text } && text@ == s
    &&& c.format == (Format { color, ..format_none() })
    &&& interactivity_none(c.interactions)
}

/// `c` is such a text with no children.
pub open spec fn leaf(c: TextComponent, s: Seq<char>, color: Option<Color>) -> bool {
    styled_text(c, s, color) && c.children@.len() == 0
}

/// A number: its text in gold, then its type suffix in red when it has one.
pub open spec fn number_shown(c: TextComponent, s: Seq<char>, suffix: Option<Seq<char>>) -> bool {
    &&& styled_text(c, s, Some(Color::Gold))
    &&& match suffix {
        None => c.children@.len() == 0,
        Some(x) => c.children@.len() == 1 && leaf(c.children@[0], x, Some(Color::Red)),
    }
}

/// The separator between elements.
pub open spec fn comma(c: TextComponent) -> bool {
    leaf(c, seq![',', ' '], None)
}

/// How many components a sequence of `n` elements takes with commas between them.
pub open spec fn with_commas(n: int) -> int {
    if n == 0 { 0 } else { 2 * n - 1 }
}

/// Numbers of an array, with commas between them.
pub open spec fn numbers_shown(cs: Seq<TextComponent>, texts: Seq<Seq<char>>, suffix: Option<Seq<char>>) -> bool {
    &&& cs.len() == with_commas(texts.len() as int)
    &&& forall|k: int| 0 <= k < texts.len() ==> #[trigger] number_shown(cs[2 * k], texts[k], suffix)
    &&& forall|k: int| 0 <= k < texts.len() - 1 ==> #[trigger] comma(cs[2 * k + 1])
}

/// The elements of a list, with commas between them.
pub open spec fn list_shown(cs: Seq<TextComponent>, items: Seq<TagV>, ft: spec_fn(u32) -> Seq<char>, dt: spec_fn(u64) -> Seq<char>) -> bool
    decreases items,
{
    if items.len() == 0 {
        cs.len() == 0
    } else {
        let sep: int = if items.len() > 1 { 1 } else { 0 };
        &&& cs.len() >= sep + 1
        &&& list_shown(cs.subrange(0, cs.len() - sep - 1), items.drop_last(), ft, dt)
        &&& items.len() > 1 ==> comma(cs[cs.len() - 2])
        &&& shown(cs.last(), items.last(), ft, dt)
    }
}

/// The entries of a compound, with commas between them: an entry's name in aqua and
/// `: ` first where it has one, then its value.
pub open spec fn entries_shown(cs: Seq<TextComponent>, es: Seq<(Seq<char>, TagV)>, ft: spec_fn(u32) -> Seq<char>, dt: spec_fn(u64) -> Seq<char>) -> bool
    decreases es,
{
    if es.len() == 0 {
        cs.len() == 0
    } else {
        let sep: int = if es.len() > 1 { 1 } else { 0 };
        let named = es.last().0.len() > 0;
        let head: int = if named { 2 } else { 0 };
        let base = cs.len() - sep - head - 1;
        &&& base >= 0
        &&& entries_shown(cs.subrange(0, base), es.drop_last(), ft, dt)
        &&& es.len() > 1 ==> comma(cs[base])
        &&& named ==> leaf(cs[base + sep], es.last().0, Some(Color::Aqua))
            && leaf(cs[base + sep + 1], seq![':', ' '], None)
        &&& shown(cs.last(), es.last().1, ft, dt)
    }
}

/// An array: `[`, its type letter in red and `; `, the numbers, `]`.
pub open spec fn array_shown(c: TextComponent, letter: char, texts: Seq<Seq<char>>, suffix: Option<Seq<char>>) -> bool {
    let cs = c.children@;
    &&& styled_text(c, seq!['['], Some(Color::White))
    &&& cs.len() == with_commas(texts.len() as int) + 3
    &&& leaf(cs[0], seq![letter], Some(Color::Red))
    &&& leaf(cs[1], seq![';', ' '], None)
    &&& numbers_shown(cs.subrange(2, cs.len() - 1), texts, suffix)
    &&& leaf(cs.last(), seq![']'], None)
}

/// Whether `c` is the component shown for tag `t`; `ft` and `dt` give the text of a float
/// and of a double by their bits.
pub open spec fn shown(c: TextComponent, t: TagV, ft: spec_fn(u32) -> Seq<char>, dt: spec_fn(u64) -> Seq<char>) -> bool
    decreases t, 0nat,
{
    match t {
        TagV::Byte(n) => number_shown(c, signed_decimal(n as int), Some(seq!['b'])),
        TagV::Short(n) => number_shown(c, signed_decimal(n as int), Some(seq!['s'])),
        TagV::Int(n) => number_shown(c, signed_decimal(n as int), None),
        TagV::Long(n) => number_shown(c, signed_decimal(n as int), Some(seq!['l'])),
        TagV::Float(b) => number_shown(c, ft(b), Some(seq!['f'])),
        TagV::Double(b) => number_shown(c, dt(b), Some(seq!['d'])),
        TagV::ByteArray(v) => array_shown(c, 'B', v.map_values(|n: u8| decimal(n as nat)), Some(seq!['b'])),
        TagV::IntArray(v) => array_shown(c, 'I', v.map_values(|n: i32| signed_decimal(n as int)), None),
        TagV::LongArray(v) => array_shown(c, 'L', v.map_values(|n: i64| signed_decimal(n as int)), Some(seq!['l'])),
        TagV::String(s) => {
            &&& styled_text(c, seq!['"'], None)
            &&& c.children@.len() == 2
            &&& leaf(c.children@[0], s, Some(Color::Green))
            &&& leaf(c.children@[1], seq!['"'], None)
        },
        TagV::List(items) => {
            let cs = c.children@;
            &&& styled_text(c, seq!['['], Some(Color::White))
            &&& cs.len() >= 1
            &&& list_shown(cs.drop_last(), items, ft, dt)
            &&& leaf(cs.last(), seq![']'], None)
        },
        TagV::Compound(es) => if es.len() == 1 && es[0].0.len() == 0 {
            shown(c, es[0].1, ft, dt)
        } else {
            let cs = c.children@;
            &&& styled_text(c, seq!['{'], Some(Color::White))
            &&& cs.len() >= 1
            &&& entries_shown(cs.drop_last(), es, ft, dt)
            &&& leaf(cs.last(), seq!['}'], None)
        },
    }
}

/// A text component of `text`, colored `color` or not.
fn text_leaf(text: String, color: Option<Color>) -> (r: TextComponent)
    ensures
        leaf(r, text@, color),
{
    TextComponent {
        content: Content::Text { text },
        children: Vec::new(),
        format: Format { color, ..Format::new() },
        interactions: Interactivity::new(),
    }
}

/// A component of the chars `cs`, colored `color` or not.
fn chars_leaf(cs: &[char], color: Option<Color>) -> (r: TextComponent)
    ensures
        leaf(r, cs@, color),
{
    let mut s = String::new();
    push_chars(&mut s, cs);
    text_leaf(s, color)
}

fn one_char(c: char, color: Option<Color>) -> (r: TextComponent)
    ensures
        leaf(r, seq![c], color),
{
    let mut s = String::new();
    s.push(c);
    text_leaf(s, color)
}

fn two_chars(a: char, b: char, color: Option<Color>) -> (r: TextComponent)
    ensures
        leaf(r, seq![a, b], color),
{
    let mut s = String::new();
    s.push(a);
    s.push(b);
    assert(s@ =~= seq![a, b]);
    text_leaf(s, color)
}

/// A number's component from its text, with its suffix letter in red when it has one.
fn number(text: String, suffix: Option<char>) -> (r: TextComponent)
    ensures
        number_shown(r, text@, match suffix {
            Some(x) => Some(seq![x]),
            None => None,
        }),
{
    let mut c = text_leaf(text, Some(Color::Gold));
    match suffix {
        Some(x) => {
            c.children.push(one_char(x, Some(Color::Red)));
        },
        None => {},
    }
    c
}

fn signed_text(n: i64) -> (r: String)
    ensures
        r@ == signed_decimal(n as int),
{
    let mut s = String::new();
    push_signed_decimal(&mut s, n);
    s
}

fn unsigned_text(n: u64) -> (r: String)
    ensures
        r@ == decimal(n as nat),
{
    let mut s = String::new();
    let d = decimal_chars(n);
    push_chars(&mut s, d.as_slice());
    s
}

proof fn lemma_numbers_push(before: Seq<TextComponent>, after: Seq<TextComponent>, texts: Seq<Seq<char>>, t: Seq<char>, suffix: Option<Seq<char>>)
    requires
        numbers_shown(before, texts, suffix),
        after.len() == before.len() + if texts.len() > 0 { 2int } else { 1int },
        after.subrange(0, before.len() as int) == before,
        texts.len() > 0 ==> comma(after[before.len() as int]),
        number_shown(after.last(), t, suffix),
    ensures
        numbers_shown(after, texts.push(t), suffix),
{
    let ts = texts.push(t);
    assert forall|k: int| 0 <= k < ts.len() implies #[trigger] number_shown(after[2 * k], ts[k], suffix) by {
        if k < texts.len() {
            assert(after[2 * k] == after.subrange(0, before.len() as int)[2 * k]);
        }
    }
    assert forall|k: int| 0 <= k < ts.len() - 1 implies #[trigger] comma(after[2 * k + 1]) by {
        if k < texts.len() - 1 {
            assert(after[2 * k + 1] == after.subrange(0, before.len() as int)[2 * k + 1]);
        }
    }
}

/// The array component: `[`, the letter in red, `; `, the numbers, `]`.
fn array_component(letter: char, numbers: Vec<TextComponent>, Ghost(texts): Ghost<Seq<Seq<char>>>, Ghost(suffix): Ghost<Option<Seq<char>>>) -> (r: TextComponent)
    requires
        numbers_shown(numbers@, texts, suffix),
    ensures
        array_shown(r, letter, texts, suffix),
{
    let mut c = one_char('[', Some(Color::White));
    c.children.push(one_char(letter, Some(Color::Red)));
    c.children.push(two_chars(';', ' ', None));
    let mut numbers = numbers;
    let ghost nums = numbers@;
    c.children.append(&mut numbers);
    c.children.push(one_char(']', None));
    proof {
        let cs = c.children@;
        assert(cs.subrange(2, cs.len() - 1) =~= nums);
    }
    c
}

impl TextComponent {
    /// The component vanilla shows for an NBT tag, styled by tag type; `float` and `double`
    /// render a float and a double given by their bits, the way `{:?}` prints them.
    pub fn nbt_display<F: Fn(u32) -> String, D: Fn(u64) -> String>(tag: &NbtTag, float: &F, double: &D) -> (r: TextComponent)
        requires
            renders(float),
            renders(double),
        ensures
            shown(r, tag@, |b: u32| rendered(float, b), |b: u64| rendered(double, b)),
        decreases tag, 0nat,
    {
        let ghost ft = |b: u32| rendered(float, b);
        let ghost dt = |b: u64| rendered(double, b);
        match tag {
            NbtTag::Byte(n) => number(signed_text(*n as i64), Some('b')),
            NbtTag::Short(n) => number(signed_text(*n as i64), Some('s')),
            NbtTag::Int(n) => number(signed_text(*n as i64), None),
            NbtTag::Long(n) => number(signed_text(*n), Some('l')),
            NbtTag::Float(b) => {
                let s = float(*b);
                proof {
                    let c = choose|c: String| float.ensures((*b,), c);
                    assert(float.ensures((*b,), c));
                }
                number(s, Some('f'))
            },
            NbtTag::Double(b) => {
                let s = double(*b);
                proof {
                    let c = choose|c: String| double.ensures((*b,), c);
                    assert(double.ensures((*b,), c));
                }
                number(s, Some('d'))
            },
            NbtTag::ByteArray(v) => {
                let ghost texts = v@.map_values(|n: u8| decimal(n as nat));
                let mut nums: Vec<TextComponent> = Vec::new();
                let mut i: usize = 0;
                while i < v.len()
                    invariant
                        i <= v@.len(),
                        texts == v@.map_values(|n: u8| decimal(n as nat)),
                        numbers_shown(nums@, texts.subrange(0, i as int), Some(seq!['b'])),
                    decreases v@.len() - i,
                {
                    let ghost before = nums@;
                    if i > 0 {
                        nums.push(two_chars(',', ' ', None));
                    }
                    nums.push(number(unsigned_text(v[i] as u64), Some('b')));
                    proof {
                        assert(texts.subrange(0, i + 1) =~= texts.subrange(0, i as int).push(texts[i as int]));
                        assert(nums@.subrange(0, before.len() as int) =~= before);
                        lemma_numbers_push(before, nums@, texts.subrange(0, i as int), texts[i as int], Some(seq!['b']));
                    }
                    i = i + 1;
                }
                assert(texts.subrange(0, v@.len() as int) =~= texts);
                array_component('B', nums, Ghost(texts), Ghost(Some(seq!['b'])))
            },
            NbtTag::IntArray(v) => {
                let ghost texts = v@.map_values(|n: i32| signed_decimal(n as int));
                let mut nums: Vec<TextComponent> = Vec::new();
                let mut i: usize = 0;
                while i < v.len()
                    invariant
                        i <= v@.len(),
                        texts == v@.map_values(|n: i32| signed_decimal(n as int)),
                        numbers_shown(nums@, texts.subrange(0, i as int), None),
                    decreases v@.len() - i,
                {
                    let ghost before = nums@;
                    if i > 0 {
                        nums.push(two_chars(',', ' ', None));
                    }
                    nums.push(number(signed_text(v[i] as i64), None));
                    proof {
                        assert(texts.subrange(0, i + 1) =~= texts.subrange(0, i as int).push(texts[i as int]));
                        assert(nums@.subrange(0, before.len() as int) =~= before);
                        lemma_numbers_push(before, nums@, texts.subrange(0, i as int), texts[i as int], None);
                    }
                    i = i + 1;
                }
                assert(texts.subrange(0, v@.len() as int) =~= texts);
                array_component('I', nums, Ghost(texts), Ghost(None))
            },
            NbtTag::LongArray(v) => {
                let ghost texts = v@.map_values(|n: i64| signed_decimal(n as int));
                let mut nums: Vec<TextComponent> = Vec::new();
                let mut i: usize = 0;
                while i < v.len()
                    invariant
                        i <= v@.len(),
                        texts == v@.map_values(|n: i64| signed_decimal(n as int)),
                        numbers_shown(nums@, texts.subrange(0, i as int), Some(seq!['l'])),
                    decreases v@.len() - i,
                {
                    let ghost before = nums@;
                    if i > 0 {
                        nums.push(two_chars(',', ' ', None));
                    }
                    nums.push(number(signed_text(v[i]), Some('l')));
                    proof {
                        assert(texts.subrange(0, i + 1) =~= texts.subrange(0, i as int).push(texts[i as int]));
                        assert(nums@.subrange(0, before.len() as int) =~= before);
                        lemma_numbers_push(before, nums@, texts.subrange(0, i as int), texts[i as int], Some(seq!['l']));
                    }
                    i = i + 1;
                }
                assert(texts.subrange(0, v@.len() as int) =~= texts);
                array_component('L', nums, Ghost(texts), Ghost(Some(seq!['l'])))
            },
            NbtTag::String(s) => {
                let mut c = one_char('"', None);
                let cs = chars_of(s.as_str());
                c.children.push(chars_leaf(cs.as_slice(), Some(Color::Green)));
                c.children.push(one_char('"', None));
                c
            },
            NbtTag::List(items) => {
                let mut c = one_char('[', Some(Color::White));
                list_children(&mut c.children, items, float, double);
                let ghost mid = c.children@;
                c.children.push(one_char(']', None));
                proof {
                    assert(c.children@.drop_last() =~= mid);
                }
                c
            },
            NbtTag::Compound(es) => {
                proof {
                    lemma_view_entries_len(es@);
                }
                if es.len() == 1 && empty_name(es[0].0.as_str()) {
                    proof {
                        lemma_view_entries_index(es@, 0);
                    }
                    return TextComponent::nbt_display(&es[0].1, float, double);
                }
                proof {
                    if es@.len() == 1 {
                        lemma_view_entries_index(es@, 0);
                    }
                }
                let mut c = one_char('{', Some(Color::White));
                entry_children(&mut c.children, es, float, double);
                let ghost mid = c.children@;
                c.children.push(one_char('}', None));
                proof {
                    assert(c.children@.drop_last() =~= mid);
                }
                c
            },
        }
    }
}

/// Whether a name is empty.
fn empty_name(name: &str) -> (r: bool)
    ensures
        r == (name@.len() == 0),
{
    let cs = chars_of(name);
    cs.len() == 0
}

/// Appends the components of a list's elements, with commas between them.
fn list_children<F: Fn(u32) -> String, D: Fn(u64) -> String>(out: &mut Vec<TextComponent>, items: &Vec<NbtTag>, float: &F, double: &D)
    requires
        renders(float),
        renders(double),
        old(out)@.len() == 0,
    ensures
        list_shown(final(out)@, view_tags(items@), |b: u32| rendered(float, b), |b: u64| rendered(double, b)),
    decreases items, 0nat,
{
    let ghost ft = |b: u32| rendered(float, b);
    let ghost dt = |b: u64| rendered(double, b);
    proof {
        lemma_view_tags_len(items@);
    }
    let ghost vs = view_tags(items@);
    let mut i: usize = 0;
    while i < items.len()
        invariant
            i <= items@.len(),
            vs == view_tags(items@),
            vs.len() == items@.len(),
            renders(float),
            renders(double),
            ft == (|b: u32| rendered(float, b)),
            dt == (|b: u64| rendered(double, b)),
            list_shown(out@, vs.subrange(0, i as int), ft, dt),
        decreases items@.len() - i,
    {
        let ghost before = out@;
        proof {
            lemma_view_tags_index(items@, i as int);
        }
        if i > 0 {
            out.push(two_chars(',', ' ', None));
        }
        let c = TextComponent::nbt_display(&items[i], float, double);
        out.push(c);
        proof {
            let ts = vs.subrange(0, i + 1);
            assert(ts.drop_last() =~= vs.subrange(0, i as int));
            let sep: int = if i > 0 { 1 } else { 0 };
            assert(out@.subrange(0, out@.len() - sep - 1) =~= before);
        }
        i = i + 1;
    }
    assert(vs.subrange(0, items@.len() as int) =~= vs);
}

/// Appends the components of a compound's entries, with commas between them.
fn entry_children<F: Fn(u32) -> String, D: Fn(u64) -> String>(out: &mut Vec<TextComponent>, es: &Vec<(String, NbtTag)>, float: &F, double: &D)
    requires
        renders(float),
        renders(double),
        old(out)@.len() == 0,
    ensures
        entries_shown(final(out)@, view_entries(es@), |b: u32| rendered(float, b), |b: u64| rendered(double, b)),
    decreases es, 0nat,
{
    let ghost ft = |b: u32| rendered(float, b);
    let ghost dt = |b: u64| rendered(double, b);
    proof {
        lemma_view_entries_len(es@);
    }
    let ghost vs = view_entries(es@);
    let mut i: usize = 0;
    while i < es.len()
        invariant
            i <= es@.len(),
            vs == view_entries(es@),
            vs.len() == es@.len(),
            renders(float),
            renders(double),
            ft == (|b: u32| rendered(float, b)),
            dt == (|b: u64| rendered(double, b)),
            entries_shown(out@, vs.subrange(0, i as int), ft, dt),
        decreases es@.len() - i,
    {
        let ghost before = out@;
        proof {
            lemma_view_entries_index(es@, i as int);
        }
        if i > 0 {
            out.push(two_chars(',', ' ', None));
        }
        let (name, tag) = &es[i];
        let named = !empty_name(name.as_str());
        if named {
            let cs = chars_of(name.as_str());
            out.push(chars_leaf(cs.as_slice(), Some(Color::Aqua)));
            out.push(two_chars(':', ' ', None));
        }
        let c = TextComponent::nbt_display(tag, float, double);
        out.push(c);
        proof {
            let ts = vs.subrange(0, i + 1);
            assert(ts.drop_last() =~= vs.subrange(0, i as int));
            let sep: int = if i > 0 { 1 } else { 0 };
            let head: int = if named { 2 } else { 0 };
            assert(out@.subrange(0, out@.len() - sep - head - 1) =~= before);
        }
        i = i + 1;
    }
    assert(vs.subrange(0, es@.len() as int) =~= vs);
}

} // verus!
