//! Sorted sets of names: strings in lexicographic order of their chars, each at most once.
use vstd::prelude::*;
use crate::chars::chars_of;

verus! {

/// Lexicographic order on chars, a proper prefix first: the order of `str`.
pub open spec fn str_lt(a: Seq<char>, b: Seq<char>) -> bool
    decreases a.len(),
{
    if a.len() == 0 {
        b.len() > 0
    } else if b.len() == 0 {
        false
    } else if a[0] != b[0] {
        a[0] < b[0]
    } else {
        str_lt(a.drop_first(), b.drop_first())
    }
}

pub proof fn lemma_str_lt_irreflexive(a: Seq<char>)
    ensures
        !str_lt(a, a),
    decreases a.len(),
{
    if a.len() > 0 {
        lemma_str_lt_irreflexive(a.drop_first());
    }
}

pub proof fn lemma_str_lt_transitive(a: Seq<char>, b: Seq<char>, c: Seq<char>)
    requires
        str_lt(a, b),
        str_lt(b, c),
    ensures
        str_lt(a, c),
    decreases a.len(),
{
    if a.len() > 0 && b.len() > 0 && c.len() > 0 && a[0] == b[0] && b[0] == c[0] {
        lemma_str_lt_transitive(a.drop_first(), b.drop_first(), c.drop_first());
    }
}

pub proof fn lemma_str_lt_total(a: Seq<char>, b: Seq<char>)
    requires
        a != b,
    ensures
        str_lt(a, b) || str_lt(b, a),
    decreases a.len(),
{
    if a.len() > 0 && b.len() > 0 && a[0] == b[0] {
        if a.drop_first() == b.drop_first() {
            assert(a =~= seq![a[0]] + a.drop_first());
            assert(b =~= seq![b[0]] + b.drop_first());
        }
        lemma_str_lt_total(a.drop_first(), b.drop_first());
    } else if a.len() > 0 && b.len() > 0 {
    } else if a.len() == 0 && b.len() == 0 {
        assert(a =~= b);
    }
}

/// Whether `a` comes before `b`.
pub fn str_less(a: &str, b: &str) -> (r: bool)
    ensures
        r == str_lt(a@, b@),
{
    let x = chars_of(a);
    let y = chars_of(b);
    let mut i: usize = 0;
    assert(a@.subrange(0, a@.len() as int) =~= a@);
    assert(b@.subrange(0, b@.len() as int) =~= b@);
    while i < x.len() && i < y.len() && x[i] == y[i]
        invariant
            i <= x@.len(),
            i <= y@.len(),
            x@ == a@,
            y@ == b@,
            str_lt(a@, b@) == str_lt(a@.subrange(i as int, a@.len() as int), b@.subrange(i as int, b@.len() as int)),
        decreases x@.len() - i,
    {
        assert(a@.subrange(i as int, a@.len() as int).drop_first() =~= a@.subrange(i + 1, a@.len() as int));
        assert(b@.subrange(i as int, b@.len() as int).drop_first() =~= b@.subrange(i + 1, b@.len() as int));
        i = i + 1;
    }
    if i == x.len() {
        i < y.len()
    } else if i == y.len() {
        false
    } else {
        x[i] < y[i]
    }
}

/// The names a list holds.
pub open spec fn name_set(v: Seq<String>) -> Set<Seq<char>> {
    Set::new(|n: Seq<char>| exists|i: int| 0 <= i < v.len() && #[trigger] v[i]@ == n)
}

/// Strictly increasing: sorted, and no name twice.
pub open spec fn strictly_sorted(v: Seq<String>) -> bool {
    forall|i: int, j: int| 0 <= i < j < v.len() ==> str_lt(#[trigger] v[i]@, #[trigger] v[j]@)
}

/// Adds a name to a sorted list, keeping it sorted and free of repeats.
pub fn add_name(out: &mut Vec<String>, name: &str)
    requires
        strictly_sorted(old(out)@),
    ensures
        strictly_sorted(final(out)@),
        name_set(final(out)@) == name_set(old(out)@).insert(name@),
{
    let mut p: usize = 0;
    while p < out.len() && str_less(out[p].as_str(), name)
        invariant
            p <= out@.len(),
            forall|k: int| 0 <= k < p ==> str_lt(#[trigger] out@[k]@, name@),
        decreases out@.len() - p,
    {
        p = p + 1;
    }
    if p < out.len() && crate::chars::chars_eq(chars_of(out[p].as_str()).as_slice(), chars_of(name).as_slice()) {
        assert(name_set(out@) =~= name_set(out@).insert(name@)) by {
            assert(out@[p as int]@ == name@);
        }
        return;
    }
    proof {
        if p < out@.len() {
            lemma_str_lt_total(out@[p as int]@, name@);
            assert forall|k: int| p <= k < out@.len() implies str_lt(name@, #[trigger] out@[k]@) by {
                if k > p {
                    lemma_str_lt_transitive(name@, out@[p as int]@, out@[k]@);
                }
            }
        }
    }
    let ghost before = out@;
    out.insert(p, name.to_owned());
    assert(out@ == before.insert(p as int, out@[p as int]));
    assert forall|i: int, j: int| 0 <= i < j < out@.len() implies str_lt(#[trigger] out@[i]@, #[trigger] out@[j]@) by {
        if j < p {
            assert(out@[i] == before[i] && out@[j] == before[j]);
        } else if j == p {
            assert(out@[i] == before[i]);
        } else if i == p {
            assert(out@[j] == before[j - 1]);
        } else if i < p {
            assert(out@[i] == before[i] && out@[j] == before[j - 1]);
            lemma_str_lt_transitive(before[i]@, name@, before[j - 1]@);
        } else {
            assert(out@[i] == before[i - 1] && out@[j] == before[j - 1]);
        }
    }
    assert forall|n: Seq<char>| #[trigger] name_set(out@).contains(n) == name_set(before).insert(name@).contains(n) by {
        if name_set(out@).contains(n) {
            let i = choose|i: int| 0 <= i < out@.len() && #[trigger] out@[i]@ == n;
            if i < p {
                assert(before[i]@ == n);
            } else if i > p {
                assert(before[i - 1]@ == n);
            }
        }
        if name_set(before).contains(n) {
            let i = choose|i: int| 0 <= i < before.len() && #[trigger] before[i]@ == n;
            if i < p {
                assert(out@[i]@ == n);
            } else {
                assert(out@[i + 1]@ == n);
            }
        }
        if n == name@ {
            assert(out@[p as int]@ == n);
        }
    }
    assert(name_set(out@) =~= name_set(before).insert(name@));
}

} // verus!
