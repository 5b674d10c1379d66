//! The change notification of the Spec Explorer: which documents changed,
//! and whether the explorer's revision moves.

use vstd::prelude::*;
use vstd::utf8::{decode_utf8, encode_utf8};
use crate::navigation::names;
use crate::sorting::{lemma_lex_antisym, lemma_lex_total, lemma_lex_trans, str_le, str_le_exec};
use crate::text::same_str;

verus! {

broadcast use vstd::utf8::encode_utf8_decode_utf8;

/// Strictly ascending in string order.
pub open spec fn ascending(s: Seq<String>) -> bool {
    forall|i: int, j: int|
        0 <= i < j < s.len() ==> str_le((#[trigger] s[i])@, (#[trigger] s[j])@) && s[i]@ != s[j]@
}

proof fn lemma_str_antisym(a: Seq<char>, b: Seq<char>)
    requires
        str_le(a, b),
        str_le(b, a),
    ensures
        a == b,
{
    lemma_lex_antisym(encode_utf8(a), encode_utf8(b));
    assert(decode_utf8(encode_utf8(a)) == a);
    assert(decode_utf8(encode_utf8(b)) == b);
}

/// Insert `x` into the ascending `v` unless it is there already.
fn insert_sorted(v: &mut Vec<String>, x: &str)
    requires
        ascending(old(v)@),
    ensures
        ascending(final(v)@),
        forall|c: Seq<char>| #[trigger] names(final(v)@, c) <==> (names(old(v)@, c) || c == x@),
{
    let ghost start = v@;
    let mut k: usize = 0;
    while k < v.len() && !str_le_exec(x, v[k].as_str())
        invariant
            0 <= k <= v@.len(),
            v@ == start,
            ascending(v@),
            forall|j: int| 0 <= j < k ==> !str_le(x@, (#[trigger] v@[j])@),
        decreases v@.len() - k,
    {
        k = k + 1;
    }
    if k < v.len() && same_str(v[k].as_str(), x) {
        proof {
            assert forall|c: Seq<char>| #[trigger] names(v@, c) <==> (names(start, c) || c == x@) by {
                if c == x@ {
                    assert(v@[k as int]@ == c);
                }
            }
        }
        return;
    }
    let ghost before = v@;
    v.insert(k, x.to_string());
    proof {
        assert(v@[k as int]@ == x@);
        assert forall|i: int, j: int| 0 <= i < j < v@.len() implies str_le((#[trigger] v@[i])@, (#[trigger] v@[j])@)
            && v@[i]@ != v@[j]@ by {
            let a = v@[i]@;
            let b = v@[j]@;
            if j < k {
                assert(v@[i] == before[i] && v@[j] == before[j]);
            } else if j == k {
                assert(v@[i] == before[i]);
                lemma_lex_total(encode_utf8(x@), encode_utf8(a));
                if a == x@ {
                    lemma_lex_total(encode_utf8(x@), encode_utf8(x@));
                }
            } else if i == k {
                assert(v@[j] == before[j - 1]);
                assert(str_le(x@, before[k as int]@));
                if j - 1 > k {
                    assert(str_le(before[k as int]@, before[j - 1]@));
                    lemma_lex_trans(encode_utf8(x@), encode_utf8(before[k as int]@), encode_utf8(b));
                }
                if b == x@ {
                    if j - 1 > k {
                        lemma_str_antisym(before[k as int]@, x@);
                    }
                }
            } else if i < k {
                assert(v@[i] == before[i] && v@[j] == before[j - 1]);
            } else {
                assert(v@[i] == before[i - 1] && v@[j] == before[j - 1]);
            }
        }
        assert forall|c: Seq<char>| #[trigger] names(v@, c) <==> (names(start, c) || c == x@) by {
            if names(v@, c) {
                let i = choose|i: int| 0 <= i < v@.len() && (#[trigger] v@[i])@ == c;
                if i < k {
                    assert(v@[i] == before[i]);
                } else if i > k {
                    assert(v@[i] == before[i - 1]);
                }
            }
            if names(start, c) {
                let i = choose|i: int| 0 <= i < start.len() && (#[trigger] start[i])@ == c;
                if i < k {
                    assert(v@[i] == before[i]);
                } else {
                    assert(v@[i + 1] == before[i]);
                }
            }
        }
    }
}

/// The documents that changed and whether the explorer's revision moves.
/// Without detail changes the snapshot's changed documents stand as they
/// are; with some, they are joined by the documents whose details changed
/// and were not removed, each once, in string order.  The revision moves
/// for the first snapshot, or when a document changed or was removed.
pub fn merge_explorer_changes(
    changed: Vec<String>,
    removed: &[String],
    detail_changes: &[String],
    first_snapshot: bool,
) -> (r: (Vec<String>, bool))
    ensures
        detail_changes@.len() == 0 ==> r.0@ == changed@,
        detail_changes@.len() > 0 ==> ascending(r.0@) && forall|c: Seq<char>|
            #[trigger] names(r.0@, c) <==> (names(changed@, c) || (names(detail_changes@, c) && !names(
                removed@,
                c,
            ))),
        r.1 == (first_snapshot || r.0@.len() > 0 || removed@.len() > 0),
{
    if detail_changes.len() == 0 {
        let moved = first_snapshot || changed.len() > 0 || removed.len() > 0;
        return (changed, moved);
    }
    let ghost ch = changed@;
    let mut out: Vec<String> = Vec::new();
    let mut i: usize = 0;
    while i < changed.len()
        invariant
            0 <= i <= changed@.len(),
            changed@ == ch,
            ascending(out@),
            forall|c: Seq<char>| #[trigger] names(out@, c) <==> names(ch.take(i as int), c),
        decreases changed@.len() - i,
    {
        insert_sorted(&mut out, changed[i].as_str());
        proof {
            assert forall|c: Seq<char>| #[trigger] names(out@, c) <==> names(ch.take(i + 1), c) by {
                if names(ch.take(i + 1), c) {
                    let j = choose|j: int| 0 <= j < ch.take(i + 1).len() && (#[trigger] ch.take(i + 1)[j])@ == c;
                    if j < i {
                        assert(ch.take(i as int)[j] == ch.take(i + 1)[j]);
                        assert(names(ch.take(i as int), c));
                    }
                }
                if names(ch.take(i as int), c) {
                    let j = choose|j: int| 0 <= j < ch.take(i as int).len() && (#[trigger] ch.take(i as int)[j])@ == c;
                    assert(ch.take(i + 1)[j] == ch.take(i as int)[j]);
                }
                if c == ch[i as int]@ {
                    assert(ch.take(i + 1)[i as int] == ch[i as int]);
                }
            }
        }
        i = i + 1;
    }
    proof {
        assert(ch.take(ch.len() as int) =~= ch);
    }
    let mut k: usize = 0;
    while k < detail_changes.len()
        invariant
            0 <= k <= detail_changes@.len(),
            ascending(out@),
            forall|c: Seq<char>|
                #[trigger] names(out@, c) <==> (names(ch, c) || (names(detail_changes@.take(k as int), c)
                    && !names(removed@, c))),
        decreases detail_changes@.len() - k,
    {
        let d = detail_changes[k].as_str();
        let mut gone = false;
        let mut m: usize = 0;
        while m < removed.len()
            invariant
                0 <= m <= removed@.len(),
                gone == names(removed@.take(m as int), d@),
            decreases removed@.len() - m,
        {
            if same_str(removed[m].as_str(), d) {
                gone = true;
            }
            proof {
                if names(removed@.take(m + 1), d@) {
                    let j = choose|j: int| 0 <= j < removed@.take(m + 1).len() && (#[trigger] removed@.take(m + 1)[j])@ == d@;
                    if j < m {
                        assert(removed@.take(m as int)[j] == removed@.take(m + 1)[j]);
                    }
                }
                if names(removed@.take(m as int), d@) {
                    let j = choose|j: int| 0 <= j < removed@.take(m as int).len() && (#[trigger] removed@.take(m as int)[j])@ == d@;
                    assert(removed@.take(m + 1)[j] == removed@.take(m as int)[j]);
                }
                if removed@[m as int]@ == d@ {
                    assert(removed@.take(m + 1)[m as int] == removed@[m as int]);
                }
            }
            m = m + 1;
        }
        proof {
            assert(removed@.take(removed@.len() as int) =~= removed@);
        }
        let ghost prev = out@;
        if !gone {
            insert_sorted(&mut out, d);
        }
        proof {
            assert forall|c: Seq<char>|
                #[trigger] names(out@, c) <==> (names(ch, c) || (names(detail_changes@.take(k + 1), c) && !names(removed@, c))) by {
                assert(names(prev, c) <==> (names(ch, c) || (names(detail_changes@.take(k as int), c) && !names(removed@, c))));
                if names(detail_changes@.take(k + 1), c) {
                    let j = choose|j: int| 0 <= j < detail_changes@.take(k + 1).len() && (#[trigger] detail_changes@.take(k + 1)[j])@ == c;
                    if j < k {
                        assert(detail_changes@.take(k as int)[j] == detail_changes@.take(k + 1)[j]);
                        assert(names(detail_changes@.take(k as int), c));
                    }
                }
                if names(detail_changes@.take(k as int), c) {
                    let j = choose|j: int| 0 <= j < detail_changes@.take(k as int).len() && (#[trigger] detail_changes@.take(k as int)[j])@ == c;
                    assert(detail_changes@.take(k + 1)[j] == detail_changes@.take(k as int)[j]);
                }
                if c == d@ {
                    assert(detail_changes@.take(k + 1)[k as int] == detail_changes@[k as int]);
                }
            }
        }
        k = k + 1;
    }
    proof {
        assert(detail_changes@.take(detail_changes@.len() as int) =~= detail_changes@);
    }
    let moved = first_snapshot || out.len() > 0 || removed.len() > 0;
    (out, moved)
}

} // verus!
