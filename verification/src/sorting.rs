//! The order of `str`: byte-wise lexicographic, and a stable sort of
//! string slices by it.

use vstd::prelude::*;
use vstd::relations::{sorted_by, total_ordering};
use vstd::string::StringSliceAdditionalSpecFns;
use vstd::utf8::{decode_utf8, encode_utf8};

verus! {

broadcast use vstd::utf8::encode_utf8_decode_utf8, vstd::seq_lib::to_multiset_insert;

/// `a` is at most `b` in byte-wise lexicographic order.
pub open spec fn lex_le(a: Seq<u8>, b: Seq<u8>) -> bool
    decreases a.len(),
{
    if a.len() == 0 {
        true
    } else if b.len() == 0 {
        false
    } else if a[0] != b[0] {
        a[0] < b[0]
    } else {
        lex_le(a.drop_first(), b.drop_first())
    }
}

pub proof fn lemma_lex_refl(a: Seq<u8>)
    ensures
        lex_le(a, a),
    decreases a.len(),
{
    if a.len() > 0 {
        lemma_lex_refl(a.drop_first());
    }
}

pub proof fn lemma_lex_total(a: Seq<u8>, b: Seq<u8>)
    ensures
        lex_le(a, b) || lex_le(b, a),
    decreases a.len(),
{
    if a.len() > 0 && b.len() > 0 && a[0] == b[0] {
        lemma_lex_total(a.drop_first(), b.drop_first());
    }
}

pub proof fn lemma_lex_antisym(a: Seq<u8>, b: Seq<u8>)
    requires
        lex_le(a, b),
        lex_le(b, a),
    ensures
        a == b,
    decreases a.len(),
{
    if a.len() > 0 && b.len() > 0 {
        lemma_lex_antisym(a.drop_first(), b.drop_first());
        assert(a =~= seq![a[0]] + a.drop_first());
        assert(b =~= seq![b[0]] + b.drop_first());
    }
}

pub proof fn lemma_lex_trans(a: Seq<u8>, b: Seq<u8>, c: Seq<u8>)
    requires
        lex_le(a, b),
        lex_le(b, c),
    ensures
        lex_le(a, c),
    decreases a.len(),
{
    if a.len() > 0 && b.len() > 0 && c.len() > 0 && a[0] == b[0] && b[0] == c[0] {
        lemma_lex_trans(a.drop_first(), b.drop_first(), c.drop_first());
    }
}

/// The order of strings: that of their UTF-8 bytes.
pub open spec fn str_le(a: Seq<char>, b: Seq<char>) -> bool {
    lex_le(encode_utf8(a), encode_utf8(b))
}

/// [`str_le`] as a relation.
pub open spec fn str_order() -> spec_fn(Seq<char>, Seq<char>) -> bool {
    |a: Seq<char>, b: Seq<char>| str_le(a, b)
}

/// The order of strings is total.
pub proof fn lemma_str_order_total()
    ensures
        total_ordering(str_order()),
{
    assert forall|x: Seq<char>| #[trigger] str_order()(x, x) by {
        lemma_lex_refl(encode_utf8(x));
    }
    assert forall|x: Seq<char>, y: Seq<char>| #[trigger] str_order()(x, y) && #[trigger] str_order()(y, x) implies x
        == y by {
        lemma_lex_antisym(encode_utf8(x), encode_utf8(y));
        assert(decode_utf8(encode_utf8(x)) == x);
        assert(decode_utf8(encode_utf8(y)) == y);
    }
    assert forall|x: Seq<char>, y: Seq<char>, z: Seq<char>| #[trigger] str_order()(x, y) && #[trigger] str_order()(
        y,
        z,
    ) implies str_order()(x, z) by {
        lemma_lex_trans(encode_utf8(x), encode_utf8(y), encode_utf8(z));
    }
    assert forall|x: Seq<char>, y: Seq<char>| #[trigger] str_order()(x, y) || #[trigger] str_order()(y, x) by {
        lemma_lex_total(encode_utf8(x), encode_utf8(y));
    }
}

/// Whether `a <= b` byte-wise.
pub fn lex_le_exec(a: &[u8], b: &[u8]) -> (r: bool)
    ensures
        r == lex_le(a@, b@),
{
    let mut i: usize = 0;
    proof {
        assert(a@.skip(0) =~= a@);
        assert(b@.skip(0) =~= b@);
    }
    while i < a.len() && i < b.len()
        invariant
            0 <= i <= a@.len(),
            i <= b@.len(),
            lex_le(a@, b@) == lex_le(a@.skip(i as int), b@.skip(i as int)),
        decreases a@.len() - i,
    {
        proof {
            assert(a@.skip(i as int)[0] == a@[i as int]);
            assert(b@.skip(i as int)[0] == b@[i as int]);
            assert(a@.skip(i as int).drop_first() =~= a@.skip(i + 1));
            assert(b@.skip(i as int).drop_first() =~= b@.skip(i + 1));
        }
        if a[i] != b[i] {
            return a[i] < b[i];
        }
        i = i + 1;
    }
    i == a.len()
}

/// Whether `a <= b` as `str` orders them.
pub fn str_le_exec(a: &str, b: &str) -> (r: bool)
    ensures
        r == str_le(a@, b@),
{
    lex_le_exec(a.as_bytes(), b.as_bytes())
}

/// The characters of each string.
pub open spec fn str_views(s: Seq<&str>) -> Seq<Seq<char>> {
    s.map_values(|x: &str| x@)
}

/// Sort string slices in `str` order; among equal strings the input order
/// is kept.
pub fn sort_strs<'a>(v: Vec<&'a str>) -> (r: Vec<&'a str>)
    ensures
        str_views(r@) == str_views(v@).sort_by(str_order()),
{
    proof {
        lemma_str_order_total();
    }
    let mut out: Vec<&'a str> = Vec::new();
    let mut i: usize = 0;
    proof {
        assert(str_views(out@) =~= str_views(v@.take(0)));
    }
    while i < v.len()
        invariant
            0 <= i <= v@.len(),
            total_ordering(str_order()),
            sorted_by(str_views(out@), str_order()),
            str_views(out@).to_multiset() == str_views(v@.take(i as int)).to_multiset(),
        decreases v@.len() - i,
    {
        let x = v[i];
        let mut p: usize = 0;
        while p < out.len() && str_le_exec(out[p], x)
            invariant
                0 <= p <= out@.len(),
                forall|j: int| 0 <= j < p ==> str_le(#[trigger] out@[j]@, x@),
            decreases out@.len() - p,
        {
            p = p + 1;
        }
        let ghost before = out@;
        out.insert(p, x);
        proof {
            let sv = str_views(before);
            assert(str_views(out@) =~= sv.insert(p as int, x@));
            assert forall|a: int, c: int| 0 <= a < c < str_views(out@).len() implies #[trigger] str_order()(
                str_views(out@)[a],
                str_views(out@)[c],
            ) by {
                if c < p {
                    assert(str_order()(sv[a], sv[c]));
                } else if c == p {
                    assert(str_le(before[a]@, x@));
                } else if a < p {
                    assert(str_le(before[a]@, x@));
                    if p < before.len() {
                        assert(!str_le(before[p as int]@, x@));
                        assert(str_order()(x@, sv[p as int]) || str_order()(sv[p as int], x@));
                        if c - 1 > p {
                            assert(str_order()(sv[p as int], sv[c - 1]));
                        }
                        assert(str_order()(x@, sv[c - 1]));
                    }
                    assert(str_order()(sv[a], sv[c - 1]));
                } else if a == p {
                    assert(!str_le(before[p as int]@, x@));
                    assert(str_order()(x@, sv[p as int]) || str_order()(sv[p as int], x@));
                    if c - 1 > p {
                        assert(str_order()(sv[p as int], sv[c - 1]));
                    }
                } else {
                    assert(str_order()(sv[a - 1], sv[c - 1]));
                }
            }
            assert(v@.take(i + 1) =~= v@.take(i as int).push(x));
            assert(str_views(v@.take(i + 1)) =~= str_views(v@.take(i as int)).push(x@));
            assert(str_views(v@.take(i as int)).push(x@) =~= str_views(v@.take(i as int)).insert(
                i as int,
                x@,
            ));
        }
        i = i + 1;
    }
    proof {
        assert(v@.take(v@.len() as int) =~= v@);
        str_views(v@).lemma_sort_by_ensures(str_order());
        vstd::seq_lib::lemma_sorted_unique(
            str_views(out@),
            str_views(v@).sort_by(str_order()),
            str_order(),
        );
    }
    out
}

/// Labelled entries ordered by label, then by index: sorting entries whose
/// indices are their input positions by this order is a stable sort by
/// label.
pub open spec fn entry_le(a: (Seq<char>, int), b: (Seq<char>, int)) -> bool {
    if a.0 == b.0 {
        a.1 <= b.1
    } else {
        str_le(a.0, b.0)
    }
}

/// [`entry_le`] as a relation.
pub open spec fn entry_order() -> spec_fn((Seq<char>, int), (Seq<char>, int)) -> bool {
    |a: (Seq<char>, int), b: (Seq<char>, int)| entry_le(a, b)
}

/// The order of entries is total.
pub proof fn lemma_entry_order_total()
    ensures
        total_ordering(entry_order()),
{
    lemma_str_order_total();
    assert forall|x: (Seq<char>, int), y: (Seq<char>, int)| #[trigger] entry_order()(x, y) && #[trigger] entry_order()(
        y,
        x,
    ) implies x == y by {
        if x.0 != y.0 {
            assert(str_order()(x.0, y.0) && str_order()(y.0, x.0));
        }
    }
    assert forall|x: (Seq<char>, int), y: (Seq<char>, int), z: (Seq<char>, int)| #[trigger] entry_order()(x, y)
        && #[trigger] entry_order()(y, z) implies entry_order()(x, z) by {
        assert(str_order()(x.0, y.0));
        assert(str_order()(y.0, z.0));
        assert(str_order()(x.0, z.0));
        if x.0 == z.0 && x.0 != y.0 {
            assert(str_order()(y.0, x.0));
        }
    }
    assert forall|x: (Seq<char>, int), y: (Seq<char>, int)| #[trigger] entry_order()(x, y) || #[trigger] entry_order()(
        y,
        x,
    ) by {
        assert(str_order()(x.0, y.0) || str_order()(y.0, x.0));
    }
}

/// Whether entry `a` comes no later than entry `b`.
fn entry_le_exec(a: (&str, usize), b: (&str, usize)) -> (r: bool)
    ensures
        r == entry_le((a.0@, a.1 as int), (b.0@, b.1 as int)),
{
    if crate::text::same_str(a.0, b.0) {
        a.1 <= b.1
    } else {
        str_le_exec(a.0, b.0)
    }
}

/// The labels and indices of entries.
pub open spec fn entry_views(s: Seq<(&str, usize)>) -> Seq<(Seq<char>, int)> {
    s.map_values(|x: (&str, usize)| (x.0@, x.1 as int))
}

/// Sort labelled entries by label, then by index.
pub fn sort_entries<'a>(v: Vec<(&'a str, usize)>) -> (r: Vec<(&'a str, usize)>)
    ensures
        entry_views(r@) == entry_views(v@).sort_by(entry_order()),
{
    proof {
        lemma_entry_order_total();
    }
    let mut out: Vec<(&'a str, usize)> = Vec::new();
    let mut i: usize = 0;
    proof {
        assert(entry_views(out@) =~= entry_views(v@.take(0)));
    }
    while i < v.len()
        invariant
            0 <= i <= v@.len(),
            total_ordering(entry_order()),
            sorted_by(entry_views(out@), entry_order()),
            entry_views(out@).to_multiset() == entry_views(v@.take(i as int)).to_multiset(),
        decreases v@.len() - i,
    {
        let x = v[i];
        let mut p: usize = 0;
        while p < out.len() && entry_le_exec(out[p], x)
            invariant
                0 <= p <= out@.len(),
                forall|j: int| 0 <= j < p ==> entry_le(((#[trigger] out@[j]).0@, out@[j].1 as int), (x.0@, x.1 as int)),
            decreases out@.len() - p,
        {
            p = p + 1;
        }
        let ghost before = out@;
        out.insert(p, x);
        proof {
            let sv = entry_views(before);
            let xv = (x.0@, x.1 as int);
            assert(entry_views(out@) =~= sv.insert(p as int, xv));
            assert forall|a: int, c: int| 0 <= a < c < entry_views(out@).len() implies #[trigger] entry_order()(
                entry_views(out@)[a],
                entry_views(out@)[c],
            ) by {
                if c < p {
                    assert(entry_order()(sv[a], sv[c]));
                } else if c == p {
                    assert(entry_le(sv[a], xv));
                } else if a < p {
                    assert(entry_le(sv[a], xv));
                    if p < before.len() {
                        assert(!entry_le(sv[p as int], xv));
                        assert(entry_order()(xv, sv[p as int]) || entry_order()(sv[p as int], xv));
                        if c - 1 > p {
                            assert(entry_order()(sv[p as int], sv[c - 1]));
                        }
                        assert(entry_order()(xv, sv[c - 1]));
                    }
                    assert(entry_order()(sv[a], sv[c - 1]));
                } else if a == p {
                    assert(!entry_le(sv[p as int], xv));
                    assert(entry_order()(xv, sv[p as int]) || entry_order()(sv[p as int], xv));
                    if c - 1 > p {
                        assert(entry_order()(sv[p as int], sv[c - 1]));
                    }
                } else {
                    assert(entry_order()(sv[a - 1], sv[c - 1]));
                }
            }
            assert(v@.take(i + 1) =~= v@.take(i as int).push(x));
            assert(entry_views(v@.take(i + 1)) =~= entry_views(v@.take(i as int)).push(xv));
            assert(entry_views(v@.take(i as int)).push(xv) =~= entry_views(v@.take(i as int)).insert(
                i as int,
                xv,
            ));
        }
        i = i + 1;
    }
    proof {
        assert(v@.take(v@.len() as int) =~= v@);
        entry_views(v@).lemma_sort_by_ensures(entry_order());
        vstd::seq_lib::lemma_sorted_unique(
            entry_views(out@),
            entry_views(v@).sort_by(entry_order()),
            entry_order(),
        );
    }
    out
}

} // verus!
