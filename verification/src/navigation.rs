//! Which documents take part in references and renames, chosen from what
//! the document graph reports, and which refs point at a target.

use vstd::prelude::*;
use vstd::string::StringExecFns;
use crate::text::same_str;

verus! {

/// One of `s` has the characters `c`.
pub open spec fn names(s: Seq<String>, c: Seq<char>) -> bool {
    exists|i: int| 0 <= i < s.len() && (#[trigger] s[i])@ == c
}

/// No two of `s` have the same characters.
pub open spec fn distinct(s: Seq<String>) -> bool {
    forall|i: int, j: int| 0 <= i < j < s.len() ==> (#[trigger] s[i])@ != (#[trigger] s[j])@
}

/// Whether one of `v` has the characters of `x`.
fn names_exec(v: &Vec<String>, x: &str) -> (r: bool)
    ensures
        r == names(v@, x@),
{
    let mut k: usize = 0;
    while k < v.len()
        invariant
            0 <= k <= v@.len(),
            forall|j: int| 0 <= j < k ==> (#[trigger] v@[j])@ != x@,
        decreases v@.len() - k,
    {
        if same_str(v[k].as_str(), x) {
            return true;
        }
        k = k + 1;
    }
    false
}

/// Append to `out` those of `v` it does not name yet.
fn push_new(out: &mut Vec<String>, v: &[String])
    requires
        distinct(old(out)@),
    ensures
        distinct(final(out)@),
        forall|c: Seq<char>| names(final(out)@, c) <==> (names(old(out)@, c) || names(v@, c)),
        old(out)@.is_prefix_of(final(out)@),
{
    let ghost start = out@;
    let mut k: usize = 0;
    while k < v.len()
        invariant
            0 <= k <= v@.len(),
            distinct(out@),
            start.is_prefix_of(out@),
            forall|c: Seq<char>| names(out@, c) <==> (names(start, c) || names(v@.take(k as int), c)),
        decreases v@.len() - k,
    {
        let ghost before = out@;
        let ghost k0 = k as int;
        proof {
            assert(forall|c: Seq<char>| #[trigger] names(before, c) <==> (names(start, c) || names(v@.take(k0), c)));
        }
        if !names_exec(out, v[k].as_str()) {
            out.push(v[k].clone());
            proof {
                assert forall|i: int, j: int| 0 <= i < j < out@.len() implies (#[trigger] out@[i])@ != (#[trigger] out@[j])@ by {
                    if j == out@.len() - 1 {
                        assert(before[i] == out@[i]);
                    } else {
                        assert(before[i] == out@[i] && before[j] == out@[j]);
                    }
                }
            }
        }
        k = k + 1;
        proof {
            assert forall|c: Seq<char>| names(out@, c) <==> (names(start, c) || names(v@.take(k as int), c)) by {
                assert(names(before, c) <==> (names(start, c) || names(v@.take(k0), c)));
                assert(k0 == k - 1);
                if names(v@.take(k as int), c) {
                    let i = choose|i: int| 0 <= i < v@.take(k as int).len() && (#[trigger] v@.take(k as int)[i])@ == c;
                    if i < k - 1 {
                        assert(v@.take(k - 1)[i] == v@.take(k as int)[i]);
                    } else {
                        if names(before, c) {
                        } else {
                            assert(out@[out@.len() - 1]@ == c);
                        }
                    }
                }
                if names(v@.take(k - 1), c) {
                    let i = choose|i: int| 0 <= i < v@.take(k - 1).len() && (#[trigger] v@.take(k - 1)[i])@ == c;
                    assert(v@.take(k as int)[i] == v@.take(k - 1)[i]);
                }
                if names(out@, c) {
                    let i = choose|i: int| 0 <= i < out@.len() && (#[trigger] out@[i])@ == c;
                    if i < before.len() {
                        assert(before[i] == out@[i]);
                    } else {
                        assert(v@.take(k as int)[k - 1] == v@[k - 1]);
                    }
                }
                if names(before, c) {
                    let i = choose|i: int| 0 <= i < before.len() && (#[trigger] before[i])@ == c;
                    assert(out@[i] == before[i]);
                }
            }
        }
    }
    proof {
        assert(v@.take(v@.len() as int) =~= v@);
    }
}

/// The documents whose components point at a target, each once: those
/// whose refs name it, those that implement it, and, for a document
/// target (no fragment), those that depend on it.
pub fn reference_sources(
    referrers: &[String],
    implementers: &[String],
    dependents: &[String],
    fragment: bool,
) -> (r: Vec<String>)
    ensures
        distinct(r@),
        forall|c: Seq<char>|
            names(r@, c) <==> (names(referrers@, c) || names(implementers@, c) || (!fragment && names(
                dependents@,
                c,
            ))),
{
    let mut out: Vec<String> = Vec::new();
    push_new(&mut out, referrers);
    push_new(&mut out, implementers);
    if !fragment {
        push_new(&mut out, dependents);
    }
    out
}

/// Whether a resolved ref points at the target: at its document, and, for
/// a fragment target, at that fragment.
pub fn ref_points_at(ref_doc: &str, ref_fragment: Option<&str>, target_doc: &str, target_fragment: Option<
    &str,
>) -> (r: bool)
    ensures
        r == (ref_doc@ == target_doc@ && match target_fragment {
            Some(f) => ref_fragment matches Some(g) && g@ == f@,
            None => true,
        }),
{
    if !same_str(ref_doc, target_doc) {
        return false;
    }
    match target_fragment {
        Some(f) => match ref_fragment {
            Some(g) => same_str(g, f),
            None => false,
        },
        None => true,
    }
}

/// The ref of the target itself, which a references request that includes
/// the declaration resolves first: `doc#fragment`, or `doc`.
pub fn declaration_ref(target_doc: &str, target_fragment: Option<&str>) -> (r: String)
    ensures
        r@ == match target_fragment {
            Some(f) => target_doc@ + seq!['#'] + f@,
            None => target_doc@,
        },
{
    let mut s = String::from_str(target_doc);
    match target_fragment {
        Some(f) => {
            s.append("#");
            s.append(f);
            proof {
                reveal_strlit("#");
            }
        },
        None => {},
    }
    s
}

/// The documents a rename touches, each with whether it defines the target
/// and whether it refers to it: the owner first (referring when it is one
/// of `sources`), then each other source.
pub fn rename_participants(owner: &str, sources: &[String]) -> (r: Vec<(String, bool, bool)>)
    ensures
        r@.len() >= 1,
        r@[0].0@ == owner@ && r@[0].1 && r@[0].2 == names(sources@, owner@),
        forall|k: int| 1 <= k < r@.len() ==> !(#[trigger] r@[k]).1 && r@[k].2 && r@[k].0@ != owner@ && names(
            sources@,
            r@[k].0@,
        ),
        forall|c: Seq<char>| c != owner@ && #[trigger] names(sources@, c) ==> exists|k: int| 1 <= k < r@.len() && (#[trigger] r@[k]).0@ == c,
{
    let mut out: Vec<(String, bool, bool)> = Vec::new();
    out.push((String::from_str(owner), true, false));
    let mut refers = false;
    let mut k: usize = 0;
    while k < sources.len()
        invariant
            0 <= k <= sources@.len(),
            refers == names(sources@.take(k as int), owner@),
            1 <= out@.len() <= k + 1,
            out@[0].0@ == owner@ && out@[0].1,
            forall|m: int| 1 <= m < out@.len() ==> !(#[trigger] out@[m]).1 && out@[m].2 && out@[m].0@ != owner@ && names(
                sources@,
                out@[m].0@,
            ),
            forall|c: Seq<char>| c != owner@ && #[trigger] names(sources@.take(k as int), c) ==> exists|m: int| 1 <= m < out@.len() && (#[trigger] out@[m]).0@ == c,
        decreases sources@.len() - k,
    {
        let ghost before = out@;
        if same_str(sources[k].as_str(), owner) {
            refers = true;
        } else {
            out.push((sources[k].clone(), false, true));
        }
        proof {
            assert(sources@.take(k + 1)[k as int] == sources@[k as int]);
            assert forall|m: int| 1 <= m < out@.len() implies !(#[trigger] out@[m]).1 && out@[m].2 && out@[m].0@ != owner@ && names(
                sources@,
                out@[m].0@,
            ) by {
                if m < before.len() {
                    assert(out@[m] == before[m]);
                } else {
                    assert(sources@[k as int]@ == out@[m].0@);
                }
            }
            assert forall|c: Seq<char>| c != owner@ && #[trigger] names(sources@.take(k + 1), c) implies exists|m: int| 1 <= m < out@.len() && (#[trigger] out@[m]).0@ == c by {
                let i = choose|i: int| 0 <= i < sources@.take(k + 1).len() && (#[trigger] sources@.take(k + 1)[i])@ == c;
                if i < k {
                    assert(sources@.take(k as int)[i] == sources@.take(k + 1)[i]);
                    assert(names(sources@.take(k as int), c));
                    let m = choose|m: int| 1 <= m < before.len() && (#[trigger] before[m]).0@ == c;
                    assert(out@[m] == before[m]);
                } else {
                    assert(out@[out@.len() - 1].0@ == c);
                }
            }
            if names(sources@.take(k + 1), owner@) {
                let i = choose|i: int| 0 <= i < sources@.take(k + 1).len() && (#[trigger] sources@.take(k + 1)[i])@ == owner@;
                if i < k {
                    assert(sources@.take(k as int)[i] == sources@.take(k + 1)[i]);
                }
            }
            if names(sources@.take(k as int), owner@) {
                let i = choose|i: int| 0 <= i < sources@.take(k as int).len() && (#[trigger] sources@.take(k as int)[i])@ == owner@;
                assert(sources@.take(k + 1)[i] == sources@.take(k as int)[i]);
            }
        }
        k = k + 1;
    }
    proof {
        assert(sources@.take(sources@.len() as int) =~= sources@);
    }
    let ghost before = out@;
    out.set(0, (String::from_str(owner), true, refers));
    proof {
        assert forall|m: int| 1 <= m < out@.len() implies out@[m] == before[m] by {}
        assert forall|c: Seq<char>| c != owner@ && #[trigger] names(sources@, c) implies exists|k: int| 1 <= k < out@.len() && (#[trigger] out@[k]).0@ == c by {
            let m = choose|m: int| 1 <= m < before.len() && (#[trigger] before[m]).0@ == c;
            assert(out@[m] == before[m]);
        }
    }
    out
}

} // verus!
