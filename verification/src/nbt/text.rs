//! NBT written back out as SNBT text.
use vstd::prelude::*;
use crate::chars::{chars_of, decimal, decimal_chars, push_chars, push_signed_decimal, signed_decimal};
use crate::nbt::tag::{
    lemma_view_entries_index, lemma_view_entries_len, lemma_view_tags_index, lemma_view_tags_len,
    view_entries, view_tags, NbtTag, TagV,
};

verus! {

/// Whether `f` can render every value, and renders the same value to the same text.
pub open spec fn renders<A, F: Fn(A) -> String>(f: &F) -> bool {
    &&& forall|a: A| #[trigger] f.requires((a,))
    &&& forall|a: A, s: String, t: String|
        #[trigger] f.ensures((a,), s) && #[trigger] f.ensures((a,), t) ==> s@ == t@
}

/// The text `f` renders a value as.
pub open spec fn rendered<A, F: Fn(A) -> String>(f: &F, a: A) -> Seq<char> {
    (choose|s: String| f.ensures((a,), s))@
}

/// A char as it stands inside a quoted SNBT string.
pub open spec fn escape_char(c: char) -> Seq<char> {
    if c == '\\' {
        seq!['\\', '\\']
    } else if c == '\n' {
        seq!['\\', 'n']
    } else if c == '"' {
        seq!['\\', '"']
    } else if c == '\'' {
        seq!['\\', '\'']
    } else {
        seq![c]
    }
}

/// A string with backslashes, newlines and both quotes escaped.
pub open spec fn escaped(s: Seq<char>) -> Seq<char>
    decreases s.len(),
{
    if s.len() == 0 {
        Seq::empty()
    } else {
        escaped(s.drop_last()) + escape_char(s.last())
    }
}

/// What stands before a compound entry's value: nothing for an empty name, the name in
/// double quotes when it holds a `:`, the bare name otherwise; then a `:`.
pub open spec fn name_prefix(n: Seq<char>) -> Seq<char> {
    if n.len() == 0 {
        Seq::empty()
    } else if n.contains(':') {
        seq!['"'] + n + seq!['"', ':']
    } else {
        n.push(':')
    }
}

/// Texts joined by commas.
pub open spec fn joined(items: Seq<Seq<char>>) -> Seq<char>
    decreases items.len(),
{
    if items.len() == 0 {
        Seq::empty()
    } else if items.len() == 1 {
        items[0]
    } else {
        joined(items.drop_last()) + seq![','] + items.last()
    }
}

/// The texts of list elements, in order.
pub open spec fn list_texts(s: Seq<TagV>, ft: spec_fn(u32) -> Seq<char>, dt: spec_fn(u64) -> Seq<char>) -> Seq<Seq<char>>
    decreases s,
{
    if s.len() == 0 {
        Seq::empty()
    } else {
        list_texts(s.drop_last(), ft, dt).push(snbt_text(s.last(), ft, dt))
    }
}

/// The texts of compound entries, in order: name prefix, then value.
pub open spec fn entry_texts(s: Seq<(Seq<char>, TagV)>, ft: spec_fn(u32) -> Seq<char>, dt: spec_fn(u64) -> Seq<char>) -> Seq<Seq<char>>
    decreases s,
{
    if s.len() == 0 {
        Seq::empty()
    } else {
        entry_texts(s.drop_last(), ft, dt).push(name_prefix(s.last().0) + snbt_text(s.last().1, ft, dt))
    }
}

/// Whether a compound is written as its one value alone: one entry, named `""` or `text`.
pub open spec fn collapses(es: Seq<(Seq<char>, TagV)>) -> bool {
    es.len() == 1 && (es[0].0.len() == 0 || es[0].0 == seq!['t', 'e', 'x', 't'])
}

/// The SNBT text of a tag; `ft` and `dt` give the text of a float and of a double by
/// their bits.
pub open spec fn snbt_text(t: TagV, ft: spec_fn(u32) -> Seq<char>, dt: spec_fn(u64) -> Seq<char>) -> Seq<char>
    decreases t, 0nat,
{
    match t {
        TagV::Byte(n) => signed_decimal(n as int).push('b'),
        TagV::Short(n) => signed_decimal(n as int).push('s'),
        TagV::Int(n) => signed_decimal(n as int),
        TagV::Long(n) => signed_decimal(n as int).push('l'),
        TagV::Float(b) => ft(b).push('f'),
        TagV::Double(b) => dt(b).push('d'),
        TagV::ByteArray(v) => seq!['[', 'B', ';']
            + joined(v.map_values(|n: u8| decimal(n as nat).push('b'))) + seq![']'],
        TagV::String(s) => seq!['"'] + escaped(s) + seq!['"'],
        TagV::List(v) => seq!['['] + joined(list_texts(v, ft, dt)) + seq![']'],
        TagV::Compound(es) => if collapses(es) {
            snbt_text(es[0].1, ft, dt)
        } else {
            seq!['{'] + joined(entry_texts(es, ft, dt)) + seq!['}']
        },
        TagV::IntArray(v) => seq!['[', 'I', ';']
            + joined(v.map_values(|n: i32| signed_decimal(n as int))) + seq![']'],
        TagV::LongArray(v) => seq!['[', 'L', ';']
            + joined(v.map_values(|n: i64| signed_decimal(n as int).push('l'))) + seq![']'],
    }
}

proof fn lemma_joined_step(items: Seq<Seq<char>>, i: int)
    requires
        0 <= i < items.len(),
    ensures
        joined(items.subrange(0, i + 1)) == if i == 0 {
            items[0]
        } else {
            joined(items.subrange(0, i)) + seq![','] + items[i]
        },
{
    assert(items.subrange(0, i + 1).drop_last() =~= items.subrange(0, i));
}

proof fn lemma_list_texts_prefix(s: Seq<TagV>, i: int, ft: spec_fn(u32) -> Seq<char>, dt: spec_fn(u64) -> Seq<char>)
    requires
        0 <= i <= s.len(),
    ensures
        list_texts(s.subrange(0, i), ft, dt).len() == i,
        forall|k: int| 0 <= k < i ==> #[trigger] list_texts(s.subrange(0, i), ft, dt)[k] == snbt_text(s[k], ft, dt),
    decreases i,
{
    if i > 0 {
        assert(s.subrange(0, i).drop_last() =~= s.subrange(0, i - 1));
        lemma_list_texts_prefix(s, i - 1, ft, dt);
    }
}

proof fn lemma_entry_texts_prefix(s: Seq<(Seq<char>, TagV)>, i: int, ft: spec_fn(u32) -> Seq<char>, dt: spec_fn(u64) -> Seq<char>)
    requires
        0 <= i <= s.len(),
    ensures
        entry_texts(s.subrange(0, i), ft, dt).len() == i,
        forall|k: int| 0 <= k < i ==> #[trigger] entry_texts(s.subrange(0, i), ft, dt)[k]
            == name_prefix(s[k].0) + snbt_text(s[k].1, ft, dt),
    decreases i,
{
    if i > 0 {
        assert(s.subrange(0, i).drop_last() =~= s.subrange(0, i - 1));
        lemma_entry_texts_prefix(s, i - 1, ft, dt);
    }
}

proof fn lemma_escaped_push(s: Seq<char>, c: char)
    ensures
        escaped(s.push(c)) == escaped(s) + escape_char(c),
{
    assert(s.push(c).drop_last() =~= s);
}

/// Appends a string escaped for a quoted SNBT string.
fn push_escaped(out: &mut String, s: &str)
    ensures
        final(out)@ == old(out)@ + escaped(s@),
{
    let cs = chars_of(s);
    let mut i: usize = 0;
    while i < cs.len()
        invariant
            i <= cs@.len(),
            cs@ == s@,
            out@ == old(out)@ + escaped(cs@.subrange(0, i as int)),
        decreases cs@.len() - i,
    {
        let c = cs[i];
        proof {
            assert(cs@.subrange(0, i + 1) =~= cs@.subrange(0, i as int).push(c));
            lemma_escaped_push(cs@.subrange(0, i as int), c);
        }
        if c == '\\' {
            out.push('\\');
            out.push('\\');
        } else if c == '\n' {
            out.push('\\');
            out.push('n');
        } else if c == '"' {
            out.push('\\');
            out.push('"');
        } else if c == '\'' {
            out.push('\\');
            out.push('\'');
        } else {
            out.push(c);
        }
        proof {
            assert(out@ =~= old(out)@ + escaped(cs@.subrange(0, i + 1)));
        }
        i = i + 1;
    }
    assert(cs@.subrange(0, cs@.len() as int) =~= cs@);
}

/// Whether a lone entry with this name stands for its value alone.
fn collapsing_name(name: &str) -> (r: bool)
    ensures
        r == (name@.len() == 0 || name@ == seq!['t', 'e', 'x', 't']),
{
    let cs = chars_of(name);
    if cs.len() == 0 {
        return true;
    }
    if cs.len() == 4 && cs[0] == 't' && cs[1] == 'e' && cs[2] == 'x' && cs[3] == 't' {
        assert(cs@ =~= seq!['t', 'e', 'x', 't']);
        return true;
    }
    false
}

/// Appends the prefix a compound entry's name gives its value.
fn push_name_prefix(out: &mut String, name: &str)
    ensures
        final(out)@ == old(out)@ + name_prefix(name@),
{
    let cs = chars_of(name);
    if cs.len() == 0 {
        assert(old(out)@ + name_prefix(name@) =~= old(out)@);
        return;
    }
    let mut colon = false;
    let mut i: usize = 0;
    while i < cs.len()
        invariant
            i <= cs@.len(),
            colon == cs@.subrange(0, i as int).contains(':'),
        decreases cs@.len() - i,
    {
        proof {
            assert(cs@.subrange(0, i + 1) =~= cs@.subrange(0, i as int).push(cs@[i as int]));
            if cs@.subrange(0, i as int).contains(':') {
                let k = choose|k: int| 0 <= k < i && cs@.subrange(0, i as int)[k] == ':';
                assert(cs@.subrange(0, i + 1)[k] == ':');
            }
            if cs@[i as int] == ':' {
                assert(cs@.subrange(0, i + 1)[i as int] == ':');
            }
        }
        if cs[i] == ':' {
            colon = true;
        }
        i = i + 1;
    }
    assert(cs@.subrange(0, cs@.len() as int) =~= cs@);
    if colon {
        out.push('"');
        push_chars(out, cs.as_slice());
        out.push('"');
        out.push(':');
    } else {
        push_chars(out, cs.as_slice());
        out.push(':');
    }
    assert(final(out)@ =~= old(out)@ + name_prefix(name@));
}

/// Appends the SNBT text of a tag; `float` and `double` render a float and a double
/// given by their bits.
pub fn write_snbt<F: Fn(u32) -> String, D: Fn(u64) -> String>(out: &mut String, t: &NbtTag, float: &F, double: &D)
    requires
        renders(float),
        renders(double),
    ensures
        final(out)@ == old(out)@ + snbt_text(
            t@,
            |b: u32| rendered(float, b),
            |b: u64| rendered(double, b),
        ),
    decreases t, 0nat,
{
    let ghost ft = |b: u32| rendered(float, b);
    let ghost dt = |b: u64| rendered(double, b);
    match t {
        NbtTag::Byte(n) => {
            push_signed_decimal(out, *n as i64);
            out.push('b');
        },
        NbtTag::Short(n) => {
            push_signed_decimal(out, *n as i64);
            out.push('s');
        },
        NbtTag::Int(n) => {
            push_signed_decimal(out, *n as i64);
        },
        NbtTag::Long(n) => {
            push_signed_decimal(out, *n);
            out.push('l');
        },
        NbtTag::Float(b) => {
            let s = float(*b);
            proof {
                let c = choose|c: String| float.ensures((*b,), c);
                assert(float.ensures((*b,), c));
            }
            out.push_str(s.as_str());
            out.push('f');
        },
        NbtTag::Double(b) => {
            let s = double(*b);
            proof {
                let c = choose|c: String| double.ensures((*b,), c);
                assert(double.ensures((*b,), c));
            }
            out.push_str(s.as_str());
            out.push('d');
        },
        NbtTag::ByteArray(v) => {
            out.push('[');
            out.push('B');
            out.push(';');
            let ghost start = out@;
            let ghost items = v@.map_values(|n: u8| decimal(n as nat).push('b'));
            let mut i: usize = 0;
            while i < v.len()
                invariant
                    i <= v@.len(),
                    items == v@.map_values(|n: u8| decimal(n as nat).push('b')),
                    out@ == start + joined(items.subrange(0, i as int)),
                decreases v@.len() - i,
            {
                proof {
                    lemma_joined_step(items, i as int);
                }
                if i > 0 {
                    out.push(',');
                }
                let d = decimal_chars(v[i] as u64);
                push_chars(out, d.as_slice());
                out.push('b');
                proof {
                    assert(out@ =~= start + joined(items.subrange(0, i + 1)));
                }
                i = i + 1;
            }
            assert(items.subrange(0, v@.len() as int) =~= items);
            out.push(']');
        },
        NbtTag::String(s) => {
            out.push('"');
            push_escaped(out, s.as_str());
            out.push('"');
        },
        NbtTag::List(v) => {
            out.push('[');
            write_list_items(out, v, float, double);
            out.push(']');
        },
        NbtTag::Compound(es) => {
            proof {
                lemma_view_entries_len(es@);
            }
            if es.len() == 1 && collapsing_name(es[0].0.as_str()) {
                proof {
                    lemma_view_entries_index(es@, 0);
                }
                write_snbt(out, &es[0].1, float, double);
                return;
            }
            out.push('{');
            write_entries(out, es, float, double);
            out.push('}');
        },
        NbtTag::IntArray(v) => {
            out.push('[');
            out.push('I');
            out.push(';');
            let ghost start = out@;
            let ghost items = v@.map_values(|n: i32| signed_decimal(n as int));
            let mut i: usize = 0;
            while i < v.len()
                invariant
                    i <= v@.len(),
                    items == v@.map_values(|n: i32| signed_decimal(n as int)),
                    out@ == start + joined(items.subrange(0, i as int)),
                decreases v@.len() - i,
            {
                proof {
                    lemma_joined_step(items, i as int);
                }
                if i > 0 {
                    out.push(',');
                }
                push_signed_decimal(out, v[i] as i64);
                proof {
                    assert(out@ =~= start + joined(items.subrange(0, i + 1)));
                }
                i = i + 1;
            }
            assert(items.subrange(0, v@.len() as int) =~= items);
            out.push(']');
        },
        NbtTag::LongArray(v) => {
            out.push('[');
            out.push('L');
            out.push(';');
            let ghost start = out@;
            let ghost items = v@.map_values(|n: i64| signed_decimal(n as int).push('l'));
            let mut i: usize = 0;
            while i < v.len()
                invariant
                    i <= v@.len(),
                    items == v@.map_values(|n: i64| signed_decimal(n as int).push('l')),
                    out@ == start + joined(items.subrange(0, i as int)),
                decreases v@.len() - i,
            {
                proof {
                    lemma_joined_step(items, i as int);
                }
                if i > 0 {
                    out.push(',');
                }
                push_signed_decimal(out, v[i]);
                out.push('l');
                proof {
                    assert(out@ =~= start + joined(items.subrange(0, i + 1)));
                }
                i = i + 1;
            }
            assert(items.subrange(0, v@.len() as int) =~= items);
            out.push(']');
        },
    }
    assert(final(out)@ =~= old(out)@ + snbt_text(t@, ft, dt));
}

fn write_list_items<F: Fn(u32) -> String, D: Fn(u64) -> String>(out: &mut String, v: &Vec<NbtTag>, float: &F, double: &D)
    requires
        renders(float),
        renders(double),
    ensures
        final(out)@ == old(out)@ + joined(list_texts(
            view_tags(v@),
            |b: u32| rendered(float, b),
            |b: u64| rendered(double, b),
        )),
    decreases v, 0nat,
{
    let ghost ft = |b: u32| rendered(float, b);
    let ghost dt = |b: u64| rendered(double, b);
    proof {
        lemma_view_tags_len(v@);
    }
    let ghost vs = view_tags(v@);
    let ghost start = out@;
    let mut i: usize = 0;
    while i < v.len()
        invariant
            i <= v@.len(),
            vs == view_tags(v@),
            vs.len() == v@.len(),
            renders(float),
            renders(double),
            ft == (|b: u32| rendered(float, b)),
            dt == (|b: u64| rendered(double, b)),
            out@ == start + joined(list_texts(vs, ft, dt).subrange(0, i as int)),
        decreases v@.len() - i,
    {
        proof {
            lemma_view_tags_index(v@, i as int);
            lemma_list_texts_prefix(vs, vs.len() as int, ft, dt);
            assert(vs.subrange(0, vs.len() as int) =~= vs);
            lemma_joined_step(list_texts(vs, ft, dt), i as int);
        }
        if i > 0 {
            out.push(',');
        }
        write_snbt(out, &v[i], float, double);
        proof {
            assert(out@ =~= start + joined(list_texts(vs, ft, dt).subrange(0, i + 1)));
        }
        i = i + 1;
    }
    proof {
        lemma_list_texts_prefix(vs, vs.len() as int, ft, dt);
        assert(vs.subrange(0, vs.len() as int) =~= vs);
        assert(list_texts(vs, ft, dt).subrange(0, v@.len() as int) =~= list_texts(vs, ft, dt));
    }
}

fn write_entries<F: Fn(u32) -> String, D: Fn(u64) -> String>(out: &mut String, es: &Vec<(String, NbtTag)>, float: &F, double: &D)
    requires
        renders(float),
        renders(double),
    ensures
        final(out)@ == old(out)@ + joined(entry_texts(
            view_entries(es@),
            |b: u32| rendered(float, b),
            |b: u64| rendered(double, b),
        )),
    decreases es, 0nat,
{
    let ghost ft = |b: u32| rendered(float, b);
    let ghost dt = |b: u64| rendered(double, b);
    proof {
        lemma_view_entries_len(es@);
    }
    let ghost vs = view_entries(es@);
    let ghost start = out@;
    let mut i: usize = 0;
    while i < es.len()
        invariant
            i <= es@.len(),
            vs == view_entries(es@),
            vs.len() == es@.len(),
            renders(float),
            renders(double),
            ft == (|b: u32| rendered(float, b)),
            dt == (|b: u64| rendered(double, b)),
            out@ == start + joined(entry_texts(vs, ft, dt).subrange(0, i as int)),
        decreases es@.len() - i,
    {
        proof {
            lemma_view_entries_index(es@, i as int);
            lemma_entry_texts_prefix(vs, vs.len() as int, ft, dt);
            assert(vs.subrange(0, vs.len() as int) =~= vs);
            lemma_joined_step(entry_texts(vs, ft, dt), i as int);
        }
        if i > 0 {
            out.push(',');
        }
        let (name, tag) = &es[i];
        push_name_prefix(out, name.as_str());
        write_snbt(out, tag, float, double);
        proof {
            assert(out@ =~= start + joined(entry_texts(vs, ft, dt).subrange(0, i + 1)));
        }
        i = i + 1;
    }
    proof {
        lemma_entry_texts_prefix(vs, vs.len() as int, ft, dt);
        assert(vs.subrange(0, vs.len() as int) =~= vs);
        assert(entry_texts(vs, ft, dt).subrange(0, es@.len() as int) =~= entry_texts(vs, ft, dt));
    }
}

/// Writes NBT back out as SNBT text.
pub trait ToSNBT {
    /// The value as SNBT; `float` and `double` render a float and a double given by their
    /// bits, the way `{:?}` prints them.
    fn to_snbt_with<F: Fn(u32) -> String, D: Fn(u64) -> String>(&self, float: &F, double: &D) -> String
        requires
            renders(float),
            renders(double),
    ;
}

impl ToSNBT for NbtTag {
    fn to_snbt_with<F: Fn(u32) -> String, D: Fn(u64) -> String>(&self, float: &F, double: &D) -> (r: String)
        ensures
            r@ == snbt_text(self@, |b: u32| rendered(float, b), |b: u64| rendered(double, b)),
    {
        let mut out = String::new();
        write_snbt(&mut out, self, float, double);
        out
    }
}

} // verus!
