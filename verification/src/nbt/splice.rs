//! Compile-time byte runs: literal bytes with every `{@const}` component folded in.
use vstd::prelude::*;
use crate::chars::chars_of;
use crate::grammar::error::{utf8_len, utf8_length};
use crate::grammar::emit::{TAG_COMPOUND, TAG_STRING};
use crate::nbt::writers::{ascii_bytes, extend_bytes};

verus! {

/// One piece of a compile-time byte run.
pub enum SplicePart<'a> {
    /// Literal bytes.
    Raw(&'a [u8]),
    /// A component as the whole message.
    Root(&'a [u8]),
    /// A component as one element of a compound list.
    Elem(&'a [u8]),
    /// A component as the value of a named entry; the name goes in as it stands, so it has
    /// to be ASCII.
    Entry(&'a str, &'a [u8]),
}

/// An encoding a splice accepts: a tag type byte that is a string or a compound.
pub open spec fn splice_tag_ok(bytes: Seq<u8>) -> bool {
    bytes.len() > 0 && (bytes[0] == TAG_STRING || bytes[0] == TAG_COMPOUND)
}

/// What a part needs: a component encoding for the component parts, and an ASCII name of at
/// most 65535 bytes for an entry.
pub open spec fn part_ok(p: SplicePart) -> bool {
    match p {
        SplicePart::Raw(_) => true,
        SplicePart::Root(_) => true,
        SplicePart::Elem(b) => splice_tag_ok(b@),
        SplicePart::Entry(name, b) => splice_tag_ok(b@) && name@.len() <= 0xFFFF
            && forall|i: int| 0 <= i < name@.len() ==> (#[trigger] name@[i] as u32) < 0x80,
    }
}

/// The bytes one part contributes.
pub open spec fn part_bytes(p: SplicePart) -> Seq<u8> {
    match p {
        SplicePart::Raw(b) => b@,
        SplicePart::Root(b) => b@,
        SplicePart::Elem(b) => if b@[0] == TAG_COMPOUND {
            b@.subrange(1, b@.len() as int)
        } else {
            seq![TAG_STRING, 0u8, 0u8] + b@.subrange(1, b@.len() as int) + seq![0u8]
        },
        SplicePart::Entry(name, b) => seq![b@[0], (name@.len() / 256) as u8, (name@.len() % 256) as u8]
            + ascii_bytes(name@) + b@.subrange(1, b@.len() as int),
    }
}

/// The whole run: each part's bytes in order.
pub open spec fn splice_spec(parts: Seq<SplicePart>) -> Seq<u8>
    decreases parts.len(),
{
    if parts.len() == 0 { Seq::empty() } else { splice_spec(parts.drop_last()) + part_bytes(parts.last()) }
}

/// What a part needs to be counted: a component encoding for the component parts.
pub open spec fn part_counted(p: SplicePart) -> bool {
    match p {
        SplicePart::Elem(b) => splice_tag_ok(b@),
        SplicePart::Entry(_, b) => splice_tag_ok(b@),
        _ => true,
    }
}

/// The size a part takes in the run; an entry's name counts its UTF-8 bytes.
pub open spec fn part_size(p: SplicePart) -> nat {
    match p {
        SplicePart::Raw(b) => b@.len(),
        SplicePart::Root(b) => b@.len(),
        SplicePart::Elem(b) => if b@[0] == TAG_COMPOUND { (b@.len() - 1) as nat } else { b@.len() + 3 },
        SplicePart::Entry(name, b) => b@.len() + 2 + utf8_len(name@),
    }
}

/// The size of the whole run: each part's size.
pub open spec fn splice_size(parts: Seq<SplicePart>) -> nat
    decreases parts.len(),
{
    if parts.len() == 0 { 0 } else { splice_size(parts.drop_last()) + part_size(parts.last()) }
}

/// An ASCII text is as long in UTF-8 bytes as in chars.
pub proof fn lemma_utf8_len_ascii(s: Seq<char>)
    requires
        forall|i: int| 0 <= i < s.len() ==> (#[trigger] s[i] as u32) < 0x80,
    ensures
        utf8_len(s) == s.len(),
    decreases s.len(),
{
    if s.len() > 0 {
        let d = s.drop_last();
        assert forall|i: int| 0 <= i < d.len() implies (#[trigger] d[i] as u32) < 0x80 by {
            assert(d[i] == s[i]);
        }
        lemma_utf8_len_ascii(d);
        assert((s[s.len() - 1] as u32) < 0x80);
    }
}

/// Where every part can be spliced, the size counted is the size of the run built.
pub proof fn lemma_splice_size(parts: Seq<SplicePart>)
    requires
        forall|k: int| 0 <= k < parts.len() ==> part_ok(#[trigger] parts[k]),
    ensures
        splice_size(parts) == splice_spec(parts).len(),
    decreases parts.len(),
{
    if parts.len() > 0 {
        let d = parts.drop_last();
        assert forall|k: int| 0 <= k < d.len() implies part_ok(#[trigger] d[k]) by {
            assert(d[k] == parts[k]);
        }
        lemma_splice_size(d);
        let p = parts.last();
        assert(part_ok(parts[parts.len() - 1]));
        match p {
            SplicePart::Entry(name, b) => {
                lemma_utf8_len_ascii(name@);
                assert(ascii_bytes(name@).len() == name@.len());
            },
            _ => {},
        }
    }
}

/// Every part acceptable, and the run no longer than memory can index.
pub open spec fn parts_ok(parts: Seq<SplicePart>) -> bool {
    &&& forall|k: int| 0 <= k < parts.len() ==> part_ok(#[trigger] parts[k])
    &&& splice_spec(parts).len() <= usize::MAX
}

proof fn lemma_splice_prefix(parts: Seq<SplicePart>, k: int)
    requires
        0 <= k <= parts.len(),
    ensures
        splice_spec(parts.subrange(0, k)).len() <= splice_spec(parts).len(),
    decreases parts.len() - k,
{
    if k < parts.len() {
        lemma_splice_prefix(parts, k + 1);
        assert(parts.subrange(0, k + 1).drop_last() =~= parts.subrange(0, k));
    } else {
        assert(parts.subrange(0, k) =~= parts);
    }
}

/// The number of bytes one part contributes.
fn part_len(p: &SplicePart) -> (r: usize)
    requires
        part_counted(*p),
        part_size(*p) <= usize::MAX,
    ensures
        r == part_size(*p),
{
    match p {
        SplicePart::Raw(b) => b.len(),
        SplicePart::Root(b) => b.len(),
        SplicePart::Elem(b) => if b[0] == TAG_COMPOUND { b.len() - 1 } else { b.len() + 3 },
        SplicePart::Entry(name, b) => {
            let n = utf8_length(chars_of(name).as_slice());
            b.len() + 2 + (n as usize)
        },
    }
}

proof fn lemma_size_prefix(parts: Seq<SplicePart>, k: int)
    requires
        0 <= k <= parts.len(),
    ensures
        splice_size(parts.subrange(0, k)) <= splice_size(parts),
    decreases parts.len() - k,
{
    if k < parts.len() {
        lemma_size_prefix(parts, k + 1);
        assert(parts.subrange(0, k + 1).drop_last() =~= parts.subrange(0, k));
    } else {
        assert(parts.subrange(0, k) =~= parts);
    }
}

/// The size of the run [`splice_bytes`] builds for these parts. A name counts its UTF-8 bytes;
/// every component part must be a string or compound encoding.
pub fn splice_len(parts: &[SplicePart]) -> (r: usize)
    requires
        forall|k: int| 0 <= k < parts@.len() ==> part_counted(#[trigger] parts@[k]),
        splice_size(parts@) <= usize::MAX,
    ensures
        r == splice_size(parts@),
        parts_ok(parts@) ==> r == splice_spec(parts@).len(),
{
    let mut len: usize = 0;
    let mut i: usize = 0;
    while i < parts.len()
        invariant
            i <= parts@.len(),
            forall|k: int| 0 <= k < parts@.len() ==> part_counted(#[trigger] parts@[k]),
            splice_size(parts@) <= usize::MAX,
            len == splice_size(parts@.subrange(0, i as int)),
        decreases parts@.len() - i,
    {
        proof {
            lemma_size_prefix(parts@, i + 1);
            assert(parts@.subrange(0, i + 1).drop_last() =~= parts@.subrange(0, i as int));
            assert(part_counted(parts@[i as int]));
        }
        len = len + part_len(&parts[i]);
        i = i + 1;
    }
    assert(parts@.subrange(0, parts@.len() as int) =~= parts@);
    proof {
        if parts_ok(parts@) {
            lemma_splice_size(parts@);
        }
    }
    len
}

/// The run itself: literal bytes with every spliced component folded in.
pub fn splice_bytes(parts: &[SplicePart]) -> (r: Vec<u8>)
    requires
        parts_ok(parts@),
    ensures
        r@ == splice_spec(parts@),
{
    let mut out: Vec<u8> = Vec::new();
    let mut i: usize = 0;
    while i < parts.len()
        invariant
            i <= parts@.len(),
            parts_ok(parts@),
            out@ == splice_spec(parts@.subrange(0, i as int)),
        decreases parts@.len() - i,
    {
        proof {
            assert(parts@.subrange(0, i + 1).drop_last() =~= parts@.subrange(0, i as int));
            assert(part_ok(parts@[i as int]));
        }
        let ghost before = out@;
        match &parts[i] {
            SplicePart::Raw(b) => extend_bytes(&mut out, b),
            SplicePart::Root(b) => extend_bytes(&mut out, b),
            SplicePart::Elem(b) => {
                let payload = crate::grammar::emit::tail_bytes(b);
                if b[0] == TAG_COMPOUND {
                    extend_bytes(&mut out, payload.as_slice());
                } else {
                    out.push(TAG_STRING);
                    out.push(0);
                    out.push(0);
                    extend_bytes(&mut out, payload.as_slice());
                    out.push(0);
                }
            },
            SplicePart::Entry(name, b) => {
                let cs = chars_of(name);
                let n = cs.len();
                out.push(b[0]);
                out.push((n / 256) as u8);
                out.push((n % 256) as u8);
                let mut k: usize = 0;
                while k < n
                    invariant
                        k <= n,
                        n == cs@.len(),
                        out@ == before + seq![b@[0], (n / 256) as u8, (n % 256) as u8]
                            + ascii_bytes(cs@.subrange(0, k as int)),
                    decreases n - k,
                {
                    out.push((cs[k] as u32) as u8);
                    k = k + 1;
                    assert(out@ =~= before + seq![b@[0], (n / 256) as u8, (n % 256) as u8]
                        + ascii_bytes(cs@.subrange(0, k as int)));
                }
                assert(cs@.subrange(0, n as int) =~= cs@);
                let payload = crate::grammar::emit::tail_bytes(b);
                extend_bytes(&mut out, payload.as_slice());
            },
        }
        assert(out@ =~= before + part_bytes(parts@[i as int]));
        i = i + 1;
    }
    assert(parts@.subrange(0, parts@.len() as int) =~= parts@);
    out
}

} // verus!
