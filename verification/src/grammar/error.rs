//! Parse errors with a char range and a help line, and the typo suggestions they carry.
use vstd::prelude::*;
use crate::chars::chars_of;
use annotate_snippets::{AnnotationKind, Level, Renderer, Snippet};

verus! {

/// A parse error at a char range inside the template.
#[derive(Debug, PartialEq)]
pub struct ParseError {
    /// Char range of the offending text in the template.
    pub range: (usize, usize),
    /// What went wrong.
    pub message: String,
    /// A suggested fix.
    pub help: Option<String>,
}

impl ParseError {
    pub fn new(range: (usize, usize), message: String) -> (r: ParseError)
        ensures
            r.range == range,
            r.message == message,
            r.help is None,
    {
        ParseError { range, message, help: None }
    }

    pub fn help(self, help: String) -> (r: ParseError)
        ensures
            r.range == self.range,
            r.message == self.message,
            r.help == Some(help),
    {
        ParseError { range: self.range, message: self.message, help: Some(help) }
    }

    /// The byte span of the char range in `src`.
    pub fn byte_span(&self, src: &str) -> (r: (usize, usize))
        requires
            utf8_len(src@) <= usize::MAX,
        ensures
            r.0 == utf8_len(src@.subrange(0, span_chars(src@.len() as int, self.range).0)),
            r.1 == utf8_len(src@.subrange(0, span_chars(src@.len() as int, self.range).1)),
            r.0 <= r.1,
    {
        let cs = chars_of(src);
        let n = cs.len();
        let start = if self.range.0 <= n { self.range.0 } else { n };
        let end0 = if self.range.1 < start { start } else if self.range.1 > n { n } else { self.range.1 };
        let next = if start < n { start + 1 } else { n };
        let end = if end0 >= next { end0 } else { next };
        let a = crate::grammar::error::utf8_length(crate::chars::slice_chars(cs.as_slice(), 0, start).as_slice());
        let b = crate::grammar::error::utf8_length(crate::chars::slice_chars(cs.as_slice(), 0, end).as_slice());
        proof {
            lemma_utf8_len_prefix_mono(cs@, start as int, end as int);
            lemma_utf8_len_bound(cs@);
            lemma_utf8_len_prefix_mono(cs@, end as int, n as int);
            assert(cs@.subrange(0, n as int) =~= cs@);
        }
        (a as usize, b as usize)
    }

    /// Renders the message, the offending source line under a caret span, and the help line.
    pub fn render(&self, src: &str) -> (r: String)
        requires
            utf8_len(src@) <= usize::MAX,
        ensures
            r@ == rendered_report(self.message@, src@,
                utf8_len(src@.subrange(0, span_chars(src@.len() as int, self.range).0)),
                utf8_len(src@.subrange(0, span_chars(src@.len() as int, self.range).1)),
                match self.help {
                    Some(h) => Some(h@),
                    None => None,
                }),
    {
        let (start, end) = self.byte_span(src);
        let ghost sp = span_chars(src@.len() as int, self.range);
        assert(is_char_boundary_spec(src@, start as nat)) by {
            assert(utf8_len(src@.subrange(0, sp.0)) == start);
        }
        assert(is_char_boundary_spec(src@, end as nat)) by {
            assert(utf8_len(src@.subrange(0, sp.1)) == end);
        }
        match &self.help {
            Some(h) => render_report(self.message.as_str(), src, start, end, Some(h.as_str())),
            None => render_report(self.message.as_str(), src, start, end, None),
        }
    }

    pub fn copy(&self) -> (r: ParseError)
        ensures
            r == *self,
    {
        ParseError {
            range: self.range,
            message: self.message.clone(),
            help: match &self.help {
                Some(h) => Some(h.clone()),
                None => None,
            },
        }
    }
}

/// The report `annotate_snippets` renders for a message, a source, the byte span it
/// underlines, and an optional help line.
pub uninterp spec fn rendered_report(message: Seq<char>, source: Seq<char>, start: nat, end: nat, help: Option<Seq<char>>) -> Seq<char>;

/// A byte offset of `s` that starts a char, or the end.
pub open spec fn is_char_boundary_spec(s: Seq<char>, b: nat) -> bool {
    exists|i: int| 0 <= i <= s.len() && utf8_len(#[trigger] s.subrange(0, i)) == b
}

/// `annotate_snippets`: the plain rendering of an error titled `message`, quoting `src` with
/// the byte span `start..end` underlined, then the help line if there is one. The result is
/// named, not restated: it depends on these arguments alone.
#[verifier::external_body]
fn render_report(message: &str, src: &str, start: usize, end: usize, help: Option<&str>) -> (r: String)
    requires
        start <= end,
        is_char_boundary_spec(src@, start as nat),
        is_char_boundary_spec(src@, end as nat),
    ensures
        r@ == rendered_report(message@, src@, start as nat, end as nat, match help {
            Some(h) => Some(h@),
            None => None,
        }),
{
    let group = Level::ERROR.no_name().primary_title(message).element(
        Snippet::source(src).annotation(AnnotationKind::Primary.span(start..end)),
    );
    let group = match help {
        Some(h) => group.element(Level::HELP.message(h)),
        None => group,
    };
    Renderer::plain().render(&[group])
}

/// The char positions a span covers, clamped to the text; an empty span covers the next
/// char so it underlines something.
pub open spec fn span_chars(n: int, range: (usize, usize)) -> (int, int) {
    let start = if range.0 <= n { range.0 as int } else { n };
    let end0 = if range.1 < start { start } else if range.1 > n { n } else { range.1 as int };
    let next = if start + 1 <= n { start + 1 } else { n };
    (start, if end0 >= next { end0 } else { next })
}

pub open spec fn min2(a: int, b: int) -> int {
    if a <= b { a } else { b }
}

/// The edit distance between the first `i` characters of `a` and the first `j` of `b`.
pub open spec fn lev(a: Seq<char>, b: Seq<char>, i: nat, j: nat) -> nat
    decreases i + j,
{
    if i == 0 {
        j
    } else if j == 0 {
        i
    } else {
        let cost: int = if a[i - 1] != b[j - 1] { 1 } else { 0 };
        let del: int = lev(a, b, (i - 1) as nat, j) as int + 1;
        let ins: int = lev(a, b, i, (j - 1) as nat) as int + 1;
        let sub: int = lev(a, b, (i - 1) as nat, (j - 1) as nat) + cost;
        min2(min2(del, ins), sub) as nat
    }
}

/// The edit distance between two character sequences.
pub open spec fn levenshtein_spec(a: Seq<char>, b: Seq<char>) -> nat {
    lev(a, b, a.len(), b.len())
}

pub proof fn lemma_lev_bound(a: Seq<char>, b: Seq<char>, i: nat, j: nat)
    ensures
        lev(a, b, i, j) <= if i >= j { i } else { j },
    decreases i + j,
{
    if i > 0 && j > 0 {
        lemma_lev_bound(a, b, (i - 1) as nat, (j - 1) as nat);
    }
}

/// The edit distance between two character sequences.
pub fn levenshtein(a: &[char], b: &[char]) -> (r: usize)
    ensures
        r == levenshtein_spec(a@, b@),
{
    let mut prev: Vec<u128> = Vec::new();
    prev.push(0);
    let mut j: usize = 0;
    while j < b.len()
        invariant
            j <= b@.len(),
            prev@.len() == j + 1,
            forall|k: int| 0 <= k <= j ==> prev@[k] == k,
        decreases b@.len() - j,
    {
        prev.push(j as u128 + 1);
        j = j + 1;
    }
    let mut i: usize = 0;
    while i < a.len()
        invariant
            i <= a@.len(),
            prev@.len() == b@.len() + 1,
            forall|k: int| 0 <= k <= b@.len() ==> prev@[k] == lev(a@, b@, i as nat, k as nat),
        decreases a@.len() - i,
    {
        let mut cur: Vec<u128> = Vec::new();
        cur.push(i as u128 + 1);
        let mut j: usize = 0;
        while j < b.len()
            invariant
                i < a@.len(),
                j <= b@.len(),
                prev@.len() == b@.len() + 1,
                cur@.len() == j + 1,
                forall|k: int| 0 <= k <= b@.len() ==> prev@[k] == lev(a@, b@, i as nat, k as nat),
                forall|k: int| 0 <= k <= j ==> cur@[k] == lev(a@, b@, (i + 1) as nat, k as nat),
            decreases b@.len() - j,
        {
            proof {
                lemma_lev_bound(a@, b@, i as nat, (j + 1) as nat);
                lemma_lev_bound(a@, b@, (i + 1) as nat, j as nat);
                lemma_lev_bound(a@, b@, i as nat, j as nat);
            }
            let cost: u128 = if a[i] != b[j] { 1 } else { 0 };
            let x = prev[j + 1] + 1;
            let y = cur[j] + 1;
            let z = prev[j] + cost;
            let m1 = if x <= y { x } else { y };
            let m = if m1 <= z { m1 } else { z };
            cur.push(m);
            j = j + 1;
        }
        prev = cur;
        i = i + 1;
    }
    proof {
        lemma_lev_bound(a@, b@, a@.len(), b@.len());
    }
    prev[b.len()] as usize
}

/// The number of bytes the UTF-8 encoding of `c` takes.
pub open spec fn char_utf8_len(c: char) -> nat {
    if (c as u32) < 0x80 {
        1
    } else if (c as u32) < 0x800 {
        2
    } else if (c as u32) < 0x10000 {
        3
    } else {
        4
    }
}

/// The number of bytes the UTF-8 encoding of `s` takes.
pub open spec fn utf8_len(s: Seq<char>) -> nat
    decreases s.len(),
{
    if s.len() == 0 {
        0
    } else {
        utf8_len(s.drop_last()) + char_utf8_len(s.last())
    }
}

pub proof fn lemma_utf8_len_bound(s: Seq<char>)
    ensures
        utf8_len(s) <= 4 * s.len(),
    decreases s.len(),
{
    if s.len() > 0 {
        lemma_utf8_len_bound(s.drop_last());
    }
}

pub proof fn lemma_utf8_len_at_least(s: Seq<char>)
    ensures
        utf8_len(s) >= s.len(),
        utf8_len(s) == s.len() ==> forall|i: int| 0 <= i < s.len() ==> (#[trigger] s[i] as u32) < 0x80,
    decreases s.len(),
{
    if s.len() > 0 {
        lemma_utf8_len_at_least(s.drop_last());
        assert forall|i: int| 0 <= i < s.len() && utf8_len(s) == s.len() implies (#[trigger] s[i] as u32) < 0x80 by {
            if i < s.len() - 1 {
                assert(s[i] == s.drop_last()[i]);
            }
        }
    }
}

pub proof fn lemma_utf8_len_prefix_mono(s: Seq<char>, i: int, j: int)
    requires
        0 <= i <= j <= s.len(),
    ensures
        utf8_len(s.subrange(0, i)) <= utf8_len(s.subrange(0, j)),
    decreases j - i,
{
    if i < j {
        lemma_utf8_len_prefix_mono(s, i, j - 1);
        assert(s.subrange(0, j).drop_last() =~= s.subrange(0, j - 1));
    }
}

/// The number of bytes the UTF-8 encoding of `s` takes.
pub fn utf8_length(s: &[char]) -> (r: u128)
    ensures
        r == utf8_len(s@),
{
    let mut n: u128 = 0;
    let mut i: usize = 0;
    while i < s.len()
        invariant
            i <= s@.len(),
            n == utf8_len(s@.subrange(0, i as int)),
            n <= 4 * i,
        decreases s@.len() - i,
    {
        let c = s[i] as u32;
        let w: u128 = if c < 0x80 { 1 } else if c < 0x800 { 2 } else if c < 0x10000 { 3 } else { 4 };
        assert(s@.subrange(0, i + 1).drop_last() =~= s@.subrange(0, i as int));
        n = n + w;
        i = i + 1;
    }
    assert(s@.subrange(0, s@.len() as int) =~= s@);
    n
}

/// Whether candidate `c` is close enough to `input` to be suggested.
pub open spec fn close_enough(input: Seq<char>, c: Seq<char>) -> bool {
    let longest = if utf8_len(c) >= utf8_len(input) { utf8_len(c) } else { utf8_len(input) };
    let limit = if longest / 3 >= 1 { longest / 3 } else { 1 };
    levenshtein_spec(input, c) <= limit
}

/// The closest acceptable candidate among the first `n`, the first one on ties.
pub open spec fn suggest_prefix(input: Seq<char>, cands: Seq<&'static str>, n: int) -> Option<int>
    decreases n,
{
    if n <= 0 {
        None
    } else {
        let prev = suggest_prefix(input, cands, n - 1);
        let c = cands[n - 1]@;
        if close_enough(input, c) && (match prev {
            None => true,
            Some(k) => levenshtein_spec(input, c) < levenshtein_spec(input, cands[k]@),
        }) {
            Some(n - 1)
        } else {
            prev
        }
    }
}

pub proof fn lemma_suggest_prefix(input: Seq<char>, cands: Seq<&'static str>, n: int)
    ensures
        suggest_prefix(input, cands, n) matches Some(k) ==> 0 <= k < n,
    decreases n,
{
    if n > 0 {
        lemma_suggest_prefix(input, cands, n - 1);
    }
}

/// The closest candidate within a third of the longer length (at least one edit), if any.
pub open spec fn suggest_spec(input: Seq<char>, cands: Seq<&'static str>) -> Option<&'static str> {
    match suggest_prefix(input, cands, cands.len() as int) {
        Some(k) => Some(cands[k]),
        None => None,
    }
}

/// The closest candidate within a third of the longer length (at least one edit), if any.
pub fn suggest(input: &[char], candidates: &[&'static str]) -> (r: Option<&'static str>)
    ensures
        r == suggest_spec(input@, candidates@),
{
    let input_len = utf8_length(input);
    proof {
        lemma_utf8_len_bound(input@);
    }
    let mut best: Option<(usize, usize)> = None;
    let mut i: usize = 0;
    while i < candidates.len()
        invariant
            i <= candidates@.len(),
            input_len == utf8_len(input@),
            match best {
                None => suggest_prefix(input@, candidates@, i as int) is None,
                Some((k, d)) => suggest_prefix(input@, candidates@, i as int) == Some(k as int)
                    && d == levenshtein_spec(input@, candidates@[k as int]@) && k < i,
            },
        decreases candidates@.len() - i,
    {
        let c = chars_of(candidates[i]);
        let d = levenshtein(input, c.as_slice());
        let clen = utf8_length(c.as_slice());
        let longest = if clen >= input_len { clen } else { input_len };
        let limit = if longest / 3 >= 1 { longest / 3 } else { 1 };
        let better = match best {
            None => true,
            Some((_, bd)) => d < bd,
        };
        if (d as u128) <= limit && better {
            best = Some((i, d));
        }
        i = i + 1;
    }
    match best {
        Some((k, _)) => Some(candidates[k]),
        None => None,
    }
}

} // verus!

