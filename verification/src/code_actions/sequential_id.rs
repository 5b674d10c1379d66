//! Renumbering sequential component IDs (`prefix-N`) so that each prefix
//! counts 1, 2, 3, ... in order of appearance, and rewriting the
//! `depends` values that name a renumbered ID.

use vstd::prelude::*;
use vstd::string::{StringExecFns, StringSliceAdditionalSpecFns};
use vstd::utf8::{decode_utf8, encode_utf8};
use crate::code_actions::broken_ref::{item_text, split_items, split_items_exec};
use crate::code_actions::{
    parse_sequential_id, sequential_id, ActionRequestContext, CodeAction, SequentialIdProvider, CodeActionProvider};
use crate::diagnostics::DiagnosticData;
use crate::fence::{fence_mask, in_supersigil_fence};
use crate::frontmatter::lemma_line_index_bound;
use crate::numerals::{decimal, push_decimal};
use crate::position::{lemma_encode_concat, Range, TextEdit};
use crate::rename_edits::{line_range, line_range_exec};
use crate::report::Diagnostic;
use crate::text::{
    char_start, find_exec, find_from, lemma_after_ascii, lemma_ascii_start, lemma_find_from_bounds,
    lemma_next_nl_bounds, lemma_nth_line, line_at_exec, line_start, nth_line, same_str, slice_str,
};
use crate::tokens::{depends_attr, depends_attr_spec, id_attr, id_attr_spec};

verus! {

broadcast use vstd::utf8::encode_utf8_valid_utf8, vstd::utf8::encode_utf8_decode_utf8;

// ---------------------------------------------------------------------------
// Attribute values inside fences
// ---------------------------------------------------------------------------

/// Where an attribute value stands: its line, the line's start, and the
/// value's bytes `[vs, ve)`.
pub struct AttrSite {
    pub line: nat,
    pub start: int,
    pub vs: int,
    pub ve: int,
}

/// The values of the attribute `n` (as `name="`) on `[j, e)`, each
/// searched after the previous value's closing quote; an opening without a
/// closing quote ends the line.
pub open spec fn attr_values_on(b: Seq<u8>, j: int, e: int, n: Seq<u8>) -> Seq<(int, int)>
    decreases e - j,
{
    if j > e {
        Seq::empty()
    } else {
        match find_from(b, j, e, n) {
            None => Seq::empty(),
            Some(p) => {
                proof {
                    lemma_find_from_bounds(b, j, e, n);
                    lemma_find_from_bounds(b, p + n.len(), e, seq![34u8]);
                }
                match find_from(b, p + n.len(), e, seq![34u8]) {
                    None => Seq::empty(),
                    Some(c) => seq![(p + n.len(), c)] + attr_values_on(b, c + 1, e, n),
                }
            },
        }
    }
}

/// The sites of the values `vals` on line `k`, which starts at `s`.
pub open spec fn sites_of(k: nat, s: int, vals: Seq<(int, int)>) -> Seq<AttrSite> {
    vals.map_values(|v: (int, int)| AttrSite { line: k, start: s, vs: v.0, ve: v.1 })
}

/// The sites of the values of attribute `n` on the lines inside
/// `supersigil-xml` fences, from line `k` on.
pub open spec fn fence_sites_from(b: Seq<u8>, k: nat, n: Seq<u8>) -> Seq<AttrSite>
    decreases b.len() - k,
{
    if k >= b.len() {
        Seq::empty()
    } else {
        match nth_line(b, k) {
            None => Seq::empty(),
            Some((s, e)) => (if in_supersigil_fence(b, k) {
                sites_of(k, s, attr_values_on(b, s, e, n))
            } else {
                Seq::empty()
            }) + fence_sites_from(b, k + 1, n),
        }
    }
}

/// An exec site matches a spec site.
pub open spec fn site_is(x: (usize, usize, usize, usize), t: AttrSite) -> bool {
    x.0 as nat == t.line && x.1 as int == t.start && x.2 as int == t.vs && x.3 as int == t.ve
}

/// The values of attribute `n` on `[s, e)`.
fn attr_values_on_exec(b: &[u8], s: usize, e: usize, n: &[u8]) -> (r: Vec<(usize, usize)>)
    requires
        s <= e <= b@.len(),
        vstd::utf8::valid_utf8(b@),
        n@.len() > 0,
        n@[n@.len() - 1] < 128,
    ensures
        r@.len() == attr_values_on(b@, s as int, e as int, n@).len(),
        forall|i: int| 0 <= i < r@.len() ==> (#[trigger] r@[i]).0 == attr_values_on(b@, s as int, e as int, n@)[i].0
            && r@[i].1 == attr_values_on(b@, s as int, e as int, n@)[i].1,
        forall|i: int| 0 <= i < r@.len() ==> s <= (#[trigger] r@[i]).0 <= r@[i].1 < e && char_start(b@, r@[i].0 as int)
            && char_start(b@, r@[i].1 as int),
{
    let quote = [34u8];
    proof {
        assert(quote@ =~= seq![34u8]);
    }
    let mut out: Vec<(usize, usize)> = Vec::new();
    let ghost mut done: Seq<(int, int)> = Seq::empty();
    let mut j = s;
    loop
        invariant
            s <= j <= e + 1,
            e <= b@.len(),
            vstd::utf8::valid_utf8(b@),
            n@.len() > 0,
            n@[n@.len() - 1] < 128,
            quote@ == seq![34u8],
            attr_values_on(b@, s as int, e as int, n@) == done + attr_values_on(b@, j as int, e as int, n@),
            out@.len() == done.len(),
            forall|i: int| 0 <= i < out@.len() ==> (#[trigger] out@[i]).0 == done[i].0 && out@[i].1 == done[i].1,
            forall|i: int| 0 <= i < out@.len() ==> s <= (#[trigger] out@[i]).0 <= out@[i].1 < e && char_start(
                b@,
                out@[i].0 as int,
            ) && char_start(b@, out@[i].1 as int),
        decreases e + 1 - j,
    {
        if j > e {
            proof {
                assert(done + attr_values_on(b@, j as int, e as int, n@) =~= done);
            }
            return out;
        }
        proof {
            lemma_find_from_bounds(b@, j as int, e as int, n@);
        }
        let p = match find_exec(b, j, e, n) {
            Some(p) => p,
            None => {
                proof {
                    assert(done + attr_values_on(b@, j as int, e as int, n@) =~= done);
                }
                return out;
            },
        };
        let vs = p + n.len();
        proof {
            lemma_find_from_bounds(b@, vs as int, e as int, seq![34u8]);
        }
        let c = match find_exec(b, vs, e, quote.as_slice()) {
            Some(c) => c,
            None => {
                proof {
                    assert(done + attr_values_on(b@, j as int, e as int, n@) =~= done);
                }
                return out;
            },
        };
        proof {
            assert(b@[p + (n@.len() - 1)] == n@[n@.len() - 1]);
            assert(b@[c + 0] == seq![34u8][0]);
            lemma_after_ascii(b@, vs - 1);
            lemma_ascii_start(b@, c as int);
        }
        out.push((vs, c));
        proof {
            let item = (vs as int, c as int);
            assert(attr_values_on(b@, j as int, e as int, n@) == seq![item] + attr_values_on(b@, c + 1, e as int, n@));
            assert(done.push(item) + attr_values_on(b@, c + 1, e as int, n@) =~= done + attr_values_on(
                b@,
                j as int,
                e as int,
                n@,
            ));
            done = done.push(item);
        }
        j = c + 1;
    }
}

/// The sites of the values of attribute `n` (as `name="`) on the lines
/// inside `supersigil-xml` fences, in document order: line, line start,
/// value start, value end.
pub fn fence_sites(content: &str, n: &[u8]) -> (r: Vec<(usize, usize, usize, usize)>)
    requires
        n@.len() > 0,
        n@[n@.len() - 1] < 128,
    ensures
        r@.len() == fence_sites_from(content.spec_bytes(), 0, n@).len(),
        forall|i: int| 0 <= i < r@.len() ==> site_is(#[trigger] r@[i], fence_sites_from(content.spec_bytes(), 0, n@)[i]),
        forall|i: int| 0 <= i < r@.len() ==> {
            let x = #[trigger] r@[i];
            &&& nth_line(content.spec_bytes(), x.0 as nat) matches Some((s, e)) && s == x.1 && x.1 <= x.2 <= x.3 < e
            &&& char_start(content.spec_bytes(), x.2 as int) && char_start(content.spec_bytes(), x.3 as int)
        },
{
    let b = content.as_bytes();
    let mask = fence_mask(content);
    let mut out: Vec<(usize, usize, usize, usize)> = Vec::new();
    if b.len() == 0 {
        return out;
    }
    let ghost all = fence_sites_from(b@, 0, n@);
    let ghost mut done: Seq<AttrSite> = Seq::empty();
    let mut k: usize = 0;
    let mut st: usize = 0;
    loop
        invariant
            st < b@.len(),
            k <= st,
            b@ == content.spec_bytes(),
            vstd::utf8::valid_utf8(b@),
            n@.len() > 0,
            n@[n@.len() - 1] < 128,
            all == fence_sites_from(b@, 0, n@),
            line_start(b@, k as nat) == Some(st as int),
            forall|i: int| 0 <= i < mask@.len() ==> #[trigger] line_start(b@, i as nat) is Some,
            line_start(b@, mask@.len()) is None,
            forall|i: int| 0 <= i < mask@.len() ==> #[trigger] mask@[i] == in_supersigil_fence(b@, i as nat),
            all == done + fence_sites_from(b@, k as nat, n@),
            out@.len() == done.len(),
            forall|i: int| 0 <= i < out@.len() ==> site_is(#[trigger] out@[i], done[i]),
            forall|i: int| 0 <= i < out@.len() ==> {
                let x = #[trigger] out@[i];
                &&& nth_line(b@, x.0 as nat) matches Some((s, e)) && s == x.1 && x.1 <= x.2 <= x.3 < e
                &&& char_start(b@, x.2 as int) && char_start(b@, x.3 as int)
            },
        decreases b@.len() - k,
    {
        let (e, next) = line_at_exec(b, st);
        proof {
            lemma_next_nl_bounds(b@, st as int);
            lemma_nth_line(b@, k as nat);
            lemma_line_index_bound(b@, k as nat);
            if k >= mask@.len() {
                crate::text::lemma_line_start_none_after(b@, mask@.len() as nat, k as nat);
            }
        }
        let ghost own = if in_supersigil_fence(b@, k as nat) {
            sites_of(k as nat, st as int, attr_values_on(b@, st as int, e as int, n@))
        } else {
            Seq::empty()
        };
        if mask[k] {
            let vals = attr_values_on_exec(b, st, e, n);
            let mut i: usize = 0;
            let ghost base = out@;
            while i < vals.len()
                invariant
                    0 <= i <= vals@.len(),
                    out@.len() == base.len() + i,
                    forall|m: int| 0 <= m < base.len() ==> out@[m] == base[m],
                    forall|m: int| 0 <= m < i ==> #[trigger] out@[base.len() + m] == (k, st, vals@[m].0, vals@[m].1),
                decreases vals@.len() - i,
            {
                out.push((k, st, vals[i].0, vals[i].1));
                i = i + 1;
            }
            proof {
                assert(in_supersigil_fence(b@, k as nat));
                assert(own.len() == vals@.len());
                assert forall|m: int| 0 <= m < (done + own).len() implies site_is(#[trigger] out@[m], (done + own)[m]) by {
                    if m >= done.len() {
                        let m2 = m - done.len();
                        assert(out@[base.len() + m2] == out@[m]);
                        assert(out@[base.len() + m2] == (k, st, vals@[m2].0, vals@[m2].1));
                        assert((done + own)[m] == own[m2]);
                    } else {
                        assert(out@[m] == base[m]);
                    }
                }
                assert forall|m: int| 0 <= m < out@.len() implies {
                    let x = #[trigger] out@[m];
                    &&& nth_line(b@, x.0 as nat) matches Some((s, e2)) && s == x.1 && x.1 <= x.2 <= x.3 < e2
                    &&& char_start(b@, x.2 as int) && char_start(b@, x.3 as int)
                } by {
                    if m >= base.len() {
                        assert(out@[base.len() + (m - base.len())] == out@[m]);
                    } else {
                        assert(out@[m] == base[m]);
                    }
                }
            }
        } else {
            proof {
                assert(done + own =~= done);
            }
        }
        proof {
            assert(fence_sites_from(b@, k as nat, n@) == own + fence_sites_from(b@, (k + 1) as nat, n@));
            assert(all =~= (done + own) + fence_sites_from(b@, (k + 1) as nat, n@));
            done = done + own;
        }
        match next {
            Some(t) => {
                st = t;
                k = k + 1;
            },
            None => {
                proof {
                    assert(line_start(b@, (k + 1) as nat) is None);
                    assert(fence_sites_from(b@, (k + 1) as nat, n@) =~= Seq::<AttrSite>::empty());
                    assert(all =~= done);
                }
                return out;
            },
        }
    }
}

// ---------------------------------------------------------------------------
// Sequential IDs
// ---------------------------------------------------------------------------

/// A sequential ID in a fence: where it stands, its prefix and its number.
pub struct SeqOcc {
    pub site: AttrSite,
    pub prefix: Seq<u8>,
    pub number: int,
}

/// The sequential IDs among the values at `sites`, in order.
pub open spec fn seq_occs(b: Seq<u8>, sites: Seq<AttrSite>) -> Seq<SeqOcc>
    decreases sites.len(),
{
    if sites.len() == 0 {
        Seq::empty()
    } else {
        let rest = seq_occs(b, sites.drop_last());
        let st = sites.last();
        match sequential_id(b.subrange(st.vs, st.ve)) {
            Some((d, n)) => rest.push(SeqOcc { site: st, prefix: b.subrange(st.vs, st.vs + d), number: n }),
            None => rest,
        }
    }
}

/// The sequential IDs among the `id="..."` values inside
/// `supersigil-xml` fences, in document order.
pub open spec fn sequential_occurrences(b: Seq<u8>) -> Seq<SeqOcc> {
    seq_occs(b, fence_sites_from(b, 0, id_attr_spec()))
}

/// The range of the value at a site.
pub open spec fn site_range(b: Seq<u8>, st: AttrSite) -> Range {
    line_range(b, st.line, st.vs - st.start, st.ve - st.start)
}

/// A sequential ID as found: its prefix, its number and the range of the
/// whole ID value.
#[derive(Debug)]
pub struct IdOccurrence {
    pub prefix: String,
    pub number: usize,
    pub range: Range,
}

/// An exec occurrence matches a spec one.
pub open spec fn occurrence_is(x: IdOccurrence, o: SeqOcc, b: Seq<u8>) -> bool {
    &&& encode_utf8(x.prefix@) == o.prefix
    &&& x.number as int == o.number
    &&& x.range == site_range(b, o.site)
}

/// Scan the `id="..."` values inside `supersigil-xml` fences for
/// sequential IDs, in order of appearance.
pub fn find_sequential_ids(content: &str) -> (r: Vec<IdOccurrence>)
    requires
        content.spec_bytes().len() <= u32::MAX,
    ensures
        r@.len() == sequential_occurrences(content.spec_bytes()).len(),
        forall|i: int| 0 <= i < r@.len() ==> occurrence_is(
            #[trigger] r@[i],
            sequential_occurrences(content.spec_bytes())[i],
            content.spec_bytes(),
        ),
{
    let b = content.as_bytes();
    let attr = id_attr();
    proof {
        assert(attr@[3] == 34u8);
    }
    let sites = fence_sites(content, attr.as_slice());
    let ghost all = fence_sites_from(b@, 0, id_attr_spec());
    let mut out: Vec<IdOccurrence> = Vec::new();
    let mut i: usize = 0;
    while i < sites.len()
        invariant
            0 <= i <= sites@.len(),
            b@ == content.spec_bytes(),
            b@.len() <= u32::MAX,
            all == fence_sites_from(b@, 0, id_attr_spec()),
            sites@.len() == all.len(),
            forall|m: int| 0 <= m < sites@.len() ==> site_is(#[trigger] sites@[m], all[m]),
            forall|m: int| 0 <= m < sites@.len() ==> {
                let x = #[trigger] sites@[m];
                &&& nth_line(b@, x.0 as nat) matches Some((s, e)) && s == x.1 && x.1 <= x.2 <= x.3 < e
                &&& char_start(b@, x.2 as int) && char_start(b@, x.3 as int)
            },
            out@.len() == seq_occs(b@, all.take(i as int)).len(),
            forall|m: int| 0 <= m < out@.len() ==> occurrence_is(#[trigger] out@[m], seq_occs(b@, all.take(i as int))[m], b@),
        decreases sites@.len() - i,
    {
        let (line, s, vs, ve) = sites[i];
        proof {
            assert(all.take(i + 1).drop_last() =~= all.take(i as int));
            assert(all.take(i + 1).last() == all[i as int]);
            assert(site_is(sites@[i as int], all[i as int]));
            lemma_nth_line(b@, line as nat);
        }
        let value = slice_str(content, vs, ve);
        let ghost before = out@;
        match parse_sequential_id(value) {
            Some((prefix, number)) => {
                let range = line_range_exec(content, line, s, ve_line_end(b, line, s, ve), vs - s, ve - s);
                out.push(IdOccurrence { prefix, number, range });
                proof {
                    let st = all[i as int];
                    let v = b@.subrange(st.vs, st.ve);
                    let (d, n) = sequential_id(v).unwrap();
                    crate::text::lemma_rfind_to_bounds(v, 0, v.len() - 1, seq![45u8]);
                    assert(b@.subrange(st.vs, st.ve).subrange(0, d) =~= b@.subrange(st.vs, st.vs + d));
                    assert forall|m: int| 0 <= m < out@.len() implies occurrence_is(
                        #[trigger] out@[m],
                        seq_occs(b@, all.take(i + 1))[m],
                        b@,
                    ) by {
                        if m < before.len() {
                            assert(out@[m] == before[m]);
                        }
                    }
                }
            },
            None => {},
        }
        i = i + 1;
    }
    proof {
        assert(all.take(sites@.len() as int) =~= all);
    }
    out
}

/// The end of line `line`, which starts at `s` and holds `[.., ve)`.
fn ve_line_end(b: &[u8], line: usize, s: usize, ve: usize) -> (e: usize)
    requires
        nth_line(b@, line as nat) matches Some((s2, e2)) && s2 == s && ve < e2,
    ensures
        nth_line(b@, line as nat) == Some((s as int, e as int)),
{
    proof {
        lemma_nth_line(b@, line as nat);
    }
    line_at_exec(b, s).0
}

// ---------------------------------------------------------------------------
// Renumbering
// ---------------------------------------------------------------------------

/// The number of occurrences before `j` with prefix `p`.
pub open spec fn count_prefix(occs: Seq<SeqOcc>, p: Seq<u8>, j: int) -> int
    decreases j,
{
    if j <= 0 {
        0
    } else {
        count_prefix(occs, p, j - 1) + (if occs[j - 1].prefix == p {
            1int
        } else {
            0
        })
    }
}

/// The number occurrence `i` should carry: one more than the occurrences
/// with its prefix before it.
pub open spec fn expected_number(occs: Seq<SeqOcc>, i: int) -> int {
    count_prefix(occs, occs[i].prefix, i) + 1
}

/// The occurrences with prefix `p` from `j` on whose number is off.
pub open spec fn group_renumbered_from(occs: Seq<SeqOcc>, p: Seq<u8>, j: int) -> Seq<int>
    decreases occs.len() - j,
{
    if j >= occs.len() {
        Seq::empty()
    } else {
        (if occs[j].prefix == p && occs[j].number != expected_number(occs, j) {
            seq![j]
        } else {
            Seq::empty()
        }) + group_renumbered_from(occs, p, j + 1)
    }
}

/// The occurrences whose number is off, prefix group by prefix group in
/// order of each prefix's first appearance, from occurrence `i` on.
pub open spec fn renumbered_from(occs: Seq<SeqOcc>, i: int) -> Seq<int>
    decreases occs.len() - i,
{
    if i >= occs.len() {
        Seq::empty()
    } else {
        (if count_prefix(occs, occs[i].prefix, i) == 0 {
            group_renumbered_from(occs, occs[i].prefix, i)
        } else {
            Seq::empty()
        }) + renumbered_from(occs, i + 1)
    }
}

/// The ID that occurrence `i` carries: its prefix, a dash, its number.
pub open spec fn old_id(occs: Seq<SeqOcc>, i: int) -> Seq<char> {
    decode_utf8(occs[i].prefix) + seq!['-'] + decimal(occs[i].number as nat)
}

/// The ID that occurrence `i` is renumbered to.
pub open spec fn new_id(occs: Seq<SeqOcc>, i: int) -> Seq<char> {
    decode_utf8(occs[i].prefix) + seq!['-'] + decimal(expected_number(occs, i) as nat)
}

/// The renames `(old, new)` in the order of the renumbering edits.
pub open spec fn rename_pairs(occs: Seq<SeqOcc>, idx: Seq<int>) -> Seq<(Seq<char>, Seq<char>)> {
    idx.map_values(|i: int| (old_id(occs, i), new_id(occs, i)))
}

/// The new name for `key`: that of the last rename of `key`.
pub open spec fn lookup(pairs: Seq<(Seq<char>, Seq<char>)>, key: Seq<char>) -> Option<Seq<char>>
    decreases pairs.len(),
{
    if pairs.len() == 0 {
        None
    } else if pairs.last().0 == key {
        Some(pairs.last().1)
    } else {
        lookup(pairs.drop_last(), key)
    }
}

proof fn lemma_count_prefix_bounds(occs: Seq<SeqOcc>, p: Seq<u8>, j: int)
    ensures
        0 <= count_prefix(occs, p, j),
        j >= 0 ==> count_prefix(occs, p, j) <= j,
    decreases j,
{
    if j > 0 {
        lemma_count_prefix_bounds(occs, p, j - 1);
    }
}

/// Whether two prefixes are the same.
fn same_prefix(a: &String, b: &String) -> (r: bool)
    ensures
        r == (encode_utf8(a@) == encode_utf8(b@)),
{
    let r = same_str(a.as_str(), b.as_str());
    proof {
        if encode_utf8(a@) == encode_utf8(b@) {
            assert(decode_utf8(encode_utf8(a@)) == a@);
            assert(decode_utf8(encode_utf8(b@)) == b@);
        }
    }
    r
}

/// `prefix-n` as a string.
fn numbered(prefix: &String, n: u128) -> (r: String)
    ensures
        r@ == prefix@ + seq!['-'] + decimal(n as nat),
{
    let mut s = prefix.clone();
    s.append("-");
    proof {
        reveal_strlit("-");
    }
    push_decimal(&mut s, n);
    s
}

/// The renumbering edits, and the renames `(old, new)` in the same order.
fn renumber(occs: &Vec<IdOccurrence>, Ghost(spec_occs): Ghost<Seq<SeqOcc>>, Ghost(b): Ghost<Seq<u8>>) -> (r: (
    Vec<TextEdit>,
    Vec<(String, String)>,
))
    requires
        occs@.len() == spec_occs.len(),
        forall|i: int| 0 <= i < occs@.len() ==> occurrence_is(#[trigger] occs@[i], spec_occs[i], b),
    ensures
        r.0@.len() == renumbered_from(spec_occs, 0).len(),
        r.1@.len() == renumbered_from(spec_occs, 0).len(),
        forall|k: int| 0 <= k < r.0@.len() ==> {
            let i = renumbered_from(spec_occs, 0)[k];
            &&& (#[trigger] r.0@[k]).range == site_range(b, spec_occs[i].site)
            &&& r.0@[k].new_text@ == new_id(spec_occs, i)
        },
        forall|k: int| 0 <= k < r.1@.len() ==> (#[trigger] r.1@[k]).0@ == rename_pairs(
            spec_occs,
            renumbered_from(spec_occs, 0),
        )[k].0 && r.1@[k].1@ == rename_pairs(spec_occs, renumbered_from(spec_occs, 0))[k].1,
{
    let ghost all = renumbered_from(spec_occs, 0);
    let ghost mut done: Seq<int> = Seq::empty();
    let mut edits: Vec<TextEdit> = Vec::new();
    let mut pairs: Vec<(String, String)> = Vec::new();
    let n = occs.len();
    let mut i: usize = 0;
    while i < n
        invariant
            0 <= i <= n,
            n == occs@.len(),
            occs@.len() == spec_occs.len(),
            forall|m: int| 0 <= m < occs@.len() ==> occurrence_is(#[trigger] occs@[m], spec_occs[m], b),
            all == renumbered_from(spec_occs, 0),
            all == done + renumbered_from(spec_occs, i as int),
            edits@.len() == done.len(),
            pairs@.len() == done.len(),
            forall|k: int| 0 <= k < done.len() ==> 0 <= #[trigger] done[k] < spec_occs.len(),
            forall|k: int| 0 <= k < edits@.len() ==> {
                let m = done[k];
                &&& (#[trigger] edits@[k]).range == site_range(b, spec_occs[m].site)
                &&& edits@[k].new_text@ == new_id(spec_occs, m)
            },
            forall|k: int| 0 <= k < pairs@.len() ==> (#[trigger] pairs@[k]).0@ == old_id(spec_occs, done[k])
                && pairs@[k].1@ == new_id(spec_occs, done[k]),
        decreases n - i,
    {
        let p = &occs[i].prefix;
        let mut first = true;
        let mut j: usize = 0;
        while j < i
            invariant
                0 <= j <= i < n,
                n == occs@.len(),
                occs@.len() == spec_occs.len(),
                forall|m: int| 0 <= m < occs@.len() ==> occurrence_is(#[trigger] occs@[m], spec_occs[m], b),
                *p == occs@[i as int].prefix,
                first == (count_prefix(spec_occs, spec_occs[i as int].prefix, j as int) == 0),
            decreases i - j,
        {
            proof {
                lemma_count_prefix_bounds(spec_occs, spec_occs[i as int].prefix, j as int);
            }
            if same_prefix(&occs[j].prefix, p) {
                first = false;
            }
            j = j + 1;
        }
        let ghost own = if count_prefix(spec_occs, spec_occs[i as int].prefix, i as int) == 0 {
            group_renumbered_from(spec_occs, spec_occs[i as int].prefix, i as int)
        } else {
            Seq::empty()
        };
        if first {
            let ghost gp = spec_occs[i as int].prefix;
            let ghost mut gdone: Seq<int> = Seq::empty();
            let mut cnt: usize = 0;
            let mut j = i;
            while j < n
                invariant
                    i <= j <= n,
                    n == occs@.len(),
                    occs@.len() == spec_occs.len(),
                    forall|m: int| 0 <= m < occs@.len() ==> occurrence_is(#[trigger] occs@[m], spec_occs[m], b),
                    *p == occs@[i as int].prefix,
                    gp == spec_occs[i as int].prefix,
                    encode_utf8(p@) == gp,
                    cnt == count_prefix(spec_occs, gp, j as int),
                    cnt <= j,
                    group_renumbered_from(spec_occs, gp, i as int) == gdone + group_renumbered_from(
                        spec_occs,
                        gp,
                        j as int,
                    ),
                    forall|k: int| 0 <= k < gdone.len() ==> i <= #[trigger] gdone[k] < j,
                    edits@.len() == done.len() + gdone.len(),
                    pairs@.len() == done.len() + gdone.len(),
                    forall|k: int| 0 <= k < done.len() ==> 0 <= #[trigger] done[k] < spec_occs.len(),
                    forall|k: int| 0 <= k < edits@.len() ==> {
                        let m = (done + gdone)[k];
                        &&& (#[trigger] edits@[k]).range == site_range(b, spec_occs[m].site)
                        &&& edits@[k].new_text@ == new_id(spec_occs, m)
                    },
                    forall|k: int| 0 <= k < pairs@.len() ==> (#[trigger] pairs@[k]).0@ == old_id(
                        spec_occs,
                        (done + gdone)[k],
                    ) && pairs@[k].1@ == new_id(spec_occs, (done + gdone)[k]),
                decreases n - j,
            {
                let ghost own_j = if spec_occs[j as int].prefix == gp && spec_occs[j as int].number
                    != expected_number(spec_occs, j as int) {
                    seq![j as int]
                } else {
                    Seq::empty()
                };
                if same_prefix(&occs[j].prefix, p) {
                    cnt = cnt + 1;
                    if occs[j].number != cnt {
                        let old = numbered(&occs[j].prefix, occs[j].number as u128);
                        let new = numbered(&occs[j].prefix, cnt as u128);
                        let ghost eb = edits@;
                        let ghost pb = pairs@;
                        edits.push(TextEdit { range: occs[j].range, new_text: new.clone() });
                        pairs.push((old, new));
                        proof {
                            assert forall|k: int| 0 <= k < edits@.len() implies {
                                let m = (done + gdone.push(j as int))[k];
                                &&& (#[trigger] edits@[k]).range == site_range(b, spec_occs[m].site)
                                &&& edits@[k].new_text@ == new_id(spec_occs, m)
                            } by {
                                if k < eb.len() {
                                    assert(edits@[k] == eb[k]);
                                    assert((done + gdone.push(j as int))[k] == (done + gdone)[k]);
                                }
                            }
                            assert forall|k: int| 0 <= k < pairs@.len() implies (#[trigger] pairs@[k]).0@
                                == old_id(spec_occs, (done + gdone.push(j as int))[k]) && pairs@[k].1@ == new_id(
                                spec_occs,
                                (done + gdone.push(j as int))[k],
                            ) by {
                                if k < pb.len() {
                                    assert(pairs@[k] == pb[k]);
                                    assert((done + gdone.push(j as int))[k] == (done + gdone)[k]);
                                }
                            }
                        }
                    }
                }
                proof {
                    assert(group_renumbered_from(spec_occs, gp, j as int) == own_j + group_renumbered_from(
                        spec_occs,
                        gp,
                        j + 1,
                    ));
                    assert(gdone + own_j + group_renumbered_from(spec_occs, gp, j + 1) =~= gdone
                        + group_renumbered_from(spec_occs, gp, j as int));
                    assert(done + (gdone + own_j) =~= (done + gdone) + own_j);
                    gdone = gdone + own_j;
                }
                j = j + 1;
            }
            proof {
                assert(group_renumbered_from(spec_occs, gp, n as int) =~= Seq::<int>::empty());
                assert(gdone =~= own);
            }
        } else {
            proof {
                assert(own =~= Seq::<int>::empty());
            }
        }
        proof {
            assert(renumbered_from(spec_occs, i as int) == own + renumbered_from(spec_occs, i + 1));
            assert(all =~= (done + own) + renumbered_from(spec_occs, i + 1));
            assert forall|k: int| 0 <= k < (done + own).len() implies 0 <= #[trigger] (done + own)[k]
                < spec_occs.len() by {
                if k >= done.len() {
                    assert(own.len() > 0);
                }
            }
            done = done + own;
        }
        i = i + 1;
    }
    proof {
        assert(renumbered_from(spec_occs, n as int) =~= Seq::<int>::empty());
        assert(all =~= done);
    }
    (edits, pairs)
}

// ---------------------------------------------------------------------------
// `depends` values
// ---------------------------------------------------------------------------

/// An item's text, renamed when a rename applies to it.
pub open spec fn mapped_item(b: Seq<u8>, it: (int, int), pairs: Seq<(Seq<char>, Seq<char>)>) -> Seq<char> {
    let t = decode_utf8(item_text(b, it));
    match lookup(pairs, t) {
        Some(n) => n,
        None => t,
    }
}

/// Some item is renamed.
pub open spec fn any_renamed(b: Seq<u8>, items: Seq<(int, int)>, pairs: Seq<(Seq<char>, Seq<char>)>) -> bool {
    exists|i: int| 0 <= i < items.len() && lookup(pairs, decode_utf8(item_text(b, #[trigger] items[i]))) is Some
}

/// The items, renamed, joined by `, `.
pub open spec fn joined_mapped(b: Seq<u8>, items: Seq<(int, int)>, pairs: Seq<(Seq<char>, Seq<char>)>) -> Seq<char>
    decreases items.len(),
{
    if items.len() == 0 {
        Seq::empty()
    } else if items.len() == 1 {
        mapped_item(b, items[0], pairs)
    } else {
        joined_mapped(b, items.drop_last(), pairs) + seq![',', ' '] + mapped_item(b, items.last(), pairs)
    }
}

/// The `depends` values among `sites` that name a renamed ID, with their
/// rewritten values.
pub open spec fn depends_rewrites(b: Seq<u8>, sites: Seq<AttrSite>, pairs: Seq<(Seq<char>, Seq<char>)>) -> Seq<
    (AttrSite, Seq<char>),
>
    decreases sites.len(),
{
    if sites.len() == 0 {
        Seq::empty()
    } else {
        let rest = depends_rewrites(b, sites.drop_last(), pairs);
        let st = sites.last();
        let items = split_items(b, st.vs, st.ve);
        if any_renamed(b, items, pairs) {
            rest.push((st, joined_mapped(b, items, pairs)))
        } else {
            rest
        }
    }
}

/// The new name for `key` among `pairs`: the last rename of it.
fn lookup_exec<'a>(pairs: &'a Vec<(String, String)>, key: &str, Ghost(spec): Ghost<Seq<(Seq<char>, Seq<char>)>>) -> (r:
    Option<&'a String>)
    requires
        pairs@.len() == spec.len(),
        forall|k: int| 0 <= k < pairs@.len() ==> (#[trigger] pairs@[k]).0@ == spec[k].0 && pairs@[k].1@ == spec[k].1,
    ensures
        match lookup(spec, key@) {
            Some(n) => r matches Some(x) && x@ == n,
            None => r is None,
        },
{
    let mut i = pairs.len();
    proof {
        assert(spec.take(i as int) =~= spec);
    }
    while i > 0
        invariant
            0 <= i <= pairs@.len(),
            pairs@.len() == spec.len(),
            forall|k: int| 0 <= k < pairs@.len() ==> (#[trigger] pairs@[k]).0@ == spec[k].0 && pairs@[k].1@ == spec[k].1,
            lookup(spec, key@) == lookup(spec.take(i as int), key@),
        decreases i,
    {
        proof {
            assert(spec.take(i as int).drop_last() =~= spec.take(i - 1));
            assert(spec.take(i as int).last() == spec[i - 1]);
        }
        if same_str(pairs[i - 1].0.as_str(), key) {
            return Some(&pairs[i - 1].1);
        }
        i = i - 1;
    }
    None
}

/// The rewritten value of the `depends` value `[vs, ve)`, and whether any
/// of its items was renamed.
fn rewrite_value(
    content: &str,
    vs: usize,
    ve: usize,
    pairs: &Vec<(String, String)>,
    Ghost(spec): Ghost<Seq<(Seq<char>, Seq<char>)>>,
) -> (r: (bool, String))
    requires
        vs <= ve <= content.spec_bytes().len(),
        char_start(content.spec_bytes(), vs as int),
        char_start(content.spec_bytes(), ve as int),
        pairs@.len() == spec.len(),
        forall|k: int| 0 <= k < pairs@.len() ==> (#[trigger] pairs@[k]).0@ == spec[k].0 && pairs@[k].1@ == spec[k].1,
    ensures
        r.0 == any_renamed(content.spec_bytes(), split_items(content.spec_bytes(), vs as int, ve as int), spec),
        r.1@ == joined_mapped(content.spec_bytes(), split_items(content.spec_bytes(), vs as int, ve as int), spec),
{
    let b = content.as_bytes();
    proof {
        assert(vstd::utf8::valid_utf8(b@));
    }
    let items = split_items_exec(b, vs, ve);
    let ghost all = split_items(b@, vs as int, ve as int);
    let mut any = false;
    let mut out = String::new();
    let mut i: usize = 0;
    while i < items.len()
        invariant
            0 <= i <= items@.len(),
            vs <= ve <= b@.len(),
            b@ == content.spec_bytes(),
            all == split_items(b@, vs as int, ve as int),
            items@.len() == all.len(),
            pairs@.len() == spec.len(),
            forall|k: int| 0 <= k < pairs@.len() ==> (#[trigger] pairs@[k]).0@ == spec[k].0 && pairs@[k].1@ == spec[k].1,
            forall|k: int| 0 <= k < items@.len() ==> (#[trigger] items@[k]).0 == all[k].0 && items@[k].1 == all[k].1,
            forall|k: int| 0 <= k < items@.len() ==> vs <= (#[trigger] items@[k]).0 <= items@[k].1 <= ve && char_start(
                b@,
                items@[k].0 as int,
            ) && char_start(b@, items@[k].1 as int),
            any == any_renamed(b@, all.take(i as int), spec),
            out@ == joined_mapped(b@, all.take(i as int), spec),
        decreases items@.len() - i,
    {
        let (p, q) = items[i];
        let ghost prev = all.take(i as int);
        let ghost next = all.take(i + 1);
        proof {
            assert(next.drop_last() =~= prev);
            assert(next.last() == all[i as int]);
        }
        let part = slice_str(content, p, q);
        proof {
            assert(part@ == decode_utf8(item_text(b@, all[i as int])));
        }
        if i > 0 {
            out.append(", ");
            proof {
                reveal_strlit(", ");
            }
        }
        match lookup_exec(pairs, part, Ghost(spec)) {
            Some(n) => {
                any = true;
                out.append(n.as_str());
            },
            None => {
                out.append(part);
            },
        }
        proof {
            if any_renamed(b@, next, spec) && !any_renamed(b@, prev, spec) {
                let w = choose|w: int| 0 <= w < next.len() && lookup(spec, decode_utf8(item_text(b@, #[trigger] next[w]))) is Some;
                if w < i {
                    assert(prev[w] == next[w]);
                }
            }
            if any_renamed(b@, prev, spec) {
                let w = choose|w: int| 0 <= w < prev.len() && lookup(spec, decode_utf8(item_text(b@, #[trigger] prev[w]))) is Some;
                assert(next[w] == prev[w]);
            }
            if lookup(spec, part@) is Some {
                assert(next[i as int] == all[i as int]);
            }
        }
        i = i + 1;
    }
    proof {
        assert(all.take(items@.len() as int) =~= all);
    }
    (any, out)
}

/// Rewrite the `depends="..."` values inside `supersigil-xml` fences
/// that name a renamed ID, each item replaced by its new name.
pub fn find_depends_edits(
    content: &str,
    pairs: &Vec<(String, String)>,
    Ghost(spec): Ghost<Seq<(Seq<char>, Seq<char>)>>,
) -> (r: Vec<TextEdit>)
    requires
        content.spec_bytes().len() <= u32::MAX,
        pairs@.len() == spec.len(),
        forall|k: int| 0 <= k < pairs@.len() ==> (#[trigger] pairs@[k]).0@ == spec[k].0 && pairs@[k].1@ == spec[k].1,
    ensures
        r@.len() == depends_rewrites(content.spec_bytes(), fence_sites_from(content.spec_bytes(), 0, depends_attr_spec()), spec).len(),
        forall|k: int| 0 <= k < r@.len() ==> {
            let w = depends_rewrites(
                content.spec_bytes(),
                fence_sites_from(content.spec_bytes(), 0, depends_attr_spec()),
                spec,
            )[k];
            &&& (#[trigger] r@[k]).range == site_range(content.spec_bytes(), w.0)
            &&& r@[k].new_text@ == w.1
        },
{
    let b = content.as_bytes();
    let needle = depends_attr();
    proof {
        assert(needle@[8] == 34u8);
    }
    let sites = fence_sites(content, needle.as_slice());
    let ghost all = fence_sites_from(b@, 0, depends_attr_spec());
    let mut out: Vec<TextEdit> = Vec::new();
    let mut i: usize = 0;
    while i < sites.len()
        invariant
            0 <= i <= sites@.len(),
            b@ == content.spec_bytes(),
            b@.len() <= u32::MAX,
            all == fence_sites_from(b@, 0, depends_attr_spec()),
            sites@.len() == all.len(),
            forall|m: int| 0 <= m < sites@.len() ==> site_is(#[trigger] sites@[m], all[m]),
            forall|m: int| 0 <= m < sites@.len() ==> {
                let x = #[trigger] sites@[m];
                &&& nth_line(b@, x.0 as nat) matches Some((s, e)) && s == x.1 && x.1 <= x.2 <= x.3 < e
                &&& char_start(b@, x.2 as int) && char_start(b@, x.3 as int)
            },
            pairs@.len() == spec.len(),
            forall|k: int| 0 <= k < pairs@.len() ==> (#[trigger] pairs@[k]).0@ == spec[k].0 && pairs@[k].1@ == spec[k].1,
            out@.len() == depends_rewrites(b@, all.take(i as int), spec).len(),
            forall|k: int| 0 <= k < out@.len() ==> {
                let w = depends_rewrites(b@, all.take(i as int), spec)[k];
                &&& (#[trigger] out@[k]).range == site_range(b@, w.0)
                &&& out@[k].new_text@ == w.1
            },
        decreases sites@.len() - i,
    {
        let (line, s, vs, ve) = sites[i];
        proof {
            assert(all.take(i + 1).drop_last() =~= all.take(i as int));
            assert(all.take(i + 1).last() == all[i as int]);
            assert(site_is(sites@[i as int], all[i as int]));
            lemma_nth_line(b@, line as nat);
        }
        let ghost before = out@;
        let (any, value) = rewrite_value(content, vs, ve, pairs, Ghost(spec));
        if any {
            let range = line_range_exec(content, line, s, ve_line_end(b, line, s, ve), vs - s, ve - s);
            out.push(TextEdit { range, new_text: value });
            proof {
                assert forall|k: int| 0 <= k < out@.len() implies {
                    let w = depends_rewrites(b@, all.take(i + 1), spec)[k];
                    &&& (#[trigger] out@[k]).range == site_range(b@, w.0)
                    &&& out@[k].new_text@ == w.1
                } by {
                    if k < before.len() {
                        assert(out@[k] == before[k]);
                    }
                }
            }
        }
        i = i + 1;
    }
    proof {
        assert(all.take(sites@.len() as int) =~= all);
    }
    out
}

// ---------------------------------------------------------------------------
// The quick fix
// ---------------------------------------------------------------------------

/// The edits of the renumbering: the IDs whose number is off, then the
/// `depends` values that name them.
pub open spec fn renumber_edits_are(edits: Seq<TextEdit>, b: Seq<u8>) -> bool {
    let occs = sequential_occurrences(b);
    let idx = renumbered_from(occs, 0);
    let deps = depends_rewrites(b, fence_sites_from(b, 0, depends_attr_spec()), rename_pairs(occs, idx));
    &&& edits.len() == idx.len() + deps.len()
    &&& forall|k: int| 0 <= k < idx.len() ==> (#[trigger] edits[k]).range == site_range(b, occs[idx[k]].site)
        && edits[k].new_text@ == new_id(occs, idx[k])
    &&& forall|k: int| 0 <= k < deps.len() ==> (#[trigger] edits[idx.len() + k]).range == site_range(b, deps[k].0)
        && edits[idx.len() + k].new_text@ == deps[k].1
}

impl SequentialIdProvider {
    /// Offer to renumber each prefix's sequential IDs 1, 2, 3, ... in order
    /// of appearance, rewriting the `depends` values that name a renumbered
    /// ID; nothing when every ID already has its number.
    pub fn actions(&self, diagnostic: &Diagnostic, data: &DiagnosticData, ctx: &ActionRequestContext) -> (r: Vec<CodeAction>)
        requires
            ctx.file_content.spec_bytes().len() <= u32::MAX,
        ensures
            renumbered_from(sequential_occurrences(ctx.file_content.spec_bytes()), 0).len() == 0 ==> r@.len() == 0,
            renumbered_from(sequential_occurrences(ctx.file_content.spec_bytes()), 0).len() > 0 ==> {
                &&& r@.len() == 1
                &&& r@[0].title@ == "Renumber sequential IDs"@
                &&& renumber_edits_are(r@[0].edits@, ctx.file_content.spec_bytes())
            },
    {
        let mut out: Vec<CodeAction> = Vec::new();
        let ghost b = ctx.file_content.spec_bytes();
        let occurrences = find_sequential_ids(ctx.file_content);
        let ghost occs = sequential_occurrences(b);
        let (mut edits, pairs) = renumber(&occurrences, Ghost(occs), Ghost(b));
        if edits.len() == 0 {
            return out;
        }
        let ghost idx = renumbered_from(occs, 0);
        let mut deps = find_depends_edits(ctx.file_content, &pairs, Ghost(rename_pairs(occs, idx)));
        edits.append(&mut deps);
        out.push(CodeAction { title: String::from_str("Renumber sequential IDs"), edits });
        proof {
            reveal_strlit("Renumber sequential IDs");
        }
        out
    }
}

// ---------------------------------------------------------------------------
// Laws
// ---------------------------------------------------------------------------

proof fn lemma_count_prefix_zero(occs: Seq<SeqOcc>, p: Seq<u8>, j: int)
    requires
        0 <= j <= occs.len(),
    ensures
        count_prefix(occs, p, j) == 0 <==> forall|m: int| 0 <= m < j ==> #[trigger] occs[m].prefix != p,
    decreases j,
{
    if j > 0 {
        lemma_count_prefix_zero(occs, p, j - 1);
        lemma_count_prefix_bounds(occs, p, j - 1);
    }
}

proof fn lemma_group_contains(occs: Seq<SeqOcc>, p: Seq<u8>, j: int, m: int)
    requires
        0 <= j,
    ensures
        group_renumbered_from(occs, p, j).contains(m) <==> (j <= m < occs.len() && occs[m].prefix == p
            && occs[m].number != expected_number(occs, m)),
    decreases occs.len() - j,
{
    if j < occs.len() {
        lemma_group_contains(occs, p, j + 1, m);
        let own: Seq<int> = if occs[j].prefix == p && occs[j].number != expected_number(occs, j) {
            seq![j]
        } else {
            Seq::empty()
        };
        let rest = group_renumbered_from(occs, p, j + 1);
        assert(group_renumbered_from(occs, p, j) == own + rest);
        if (own + rest).contains(m) {
            let w = choose|w: int| 0 <= w < (own + rest).len() && (own + rest)[w] == m;
            if w >= own.len() {
                assert(rest[w - own.len()] == m);
            }
        }
        if rest.contains(m) {
            let w = choose|w: int| 0 <= w < rest.len() && rest[w] == m;
            assert((own + rest)[own.len() + w] == m);
        }
        if j == m && occs[m].prefix == p && occs[m].number != expected_number(occs, m) {
            assert((own + rest)[0] == m);
        }
    }
}

proof fn lemma_renumbered_contains(occs: Seq<SeqOcc>, s: int, m: int)
    requires
        0 <= s,
    ensures
        renumbered_from(occs, s).contains(m) <==> exists|j: int|
            s <= j < occs.len() && count_prefix(occs, occs[j].prefix, j) == 0 && #[trigger] group_renumbered_from(
                occs,
                occs[j].prefix,
                j,
            ).contains(m),
    decreases occs.len() - s,
{
    if s < occs.len() {
        lemma_renumbered_contains(occs, s + 1, m);
        let own: Seq<int> = if count_prefix(occs, occs[s].prefix, s) == 0 {
            group_renumbered_from(occs, occs[s].prefix, s)
        } else {
            Seq::empty()
        };
        let rest = renumbered_from(occs, s + 1);
        assert(renumbered_from(occs, s) == own + rest);
        if (own + rest).contains(m) {
            let w = choose|w: int| 0 <= w < (own + rest).len() && (own + rest)[w] == m;
            if w >= own.len() {
                assert(rest[w - own.len()] == m);
            } else {
                assert(own[w] == m);
                assert(group_renumbered_from(occs, occs[s].prefix, s).contains(m));
            }
        }
        if exists|j: int|
            s <= j < occs.len() && count_prefix(occs, occs[j].prefix, j) == 0 && #[trigger] group_renumbered_from(
                occs,
                occs[j].prefix,
                j,
            ).contains(m) {
            let j = choose|j: int|
                s <= j < occs.len() && count_prefix(occs, occs[j].prefix, j) == 0 && #[trigger] group_renumbered_from(
                    occs,
                    occs[j].prefix,
                    j,
                ).contains(m);
            if j == s {
                let w = choose|w: int| 0 <= w < own.len() && own[w] == m;
                assert((own + rest)[w] == m);
            } else {
                let w = choose|w: int| 0 <= w < rest.len() && rest[w] == m;
                assert((own + rest)[own.len() + w] == m);
            }
        }
    }
}

/// The first occurrence with a given prefix, up to `i`.
proof fn lemma_first_with_prefix(occs: Seq<SeqOcc>, i: int) -> (j: int)
    requires
        0 <= i < occs.len(),
    ensures
        0 <= j <= i,
        occs[j].prefix == occs[i].prefix,
        count_prefix(occs, occs[i].prefix, j) == 0,
    decreases i,
{
    let p = occs[i].prefix;
    lemma_count_prefix_zero(occs, p, i);
    if count_prefix(occs, p, i) == 0 {
        i
    } else {
        let m = choose|m: int| 0 <= m < i && occs[m].prefix == p;
        lemma_first_with_prefix(occs, m)
    }
}

/// The renumbering edits exactly the sequential IDs whose number is not one
/// more than the number of IDs with the same prefix before them; so after
/// it, the IDs of each prefix are numbered 1, 2, 3, ... in order of
/// appearance.
pub proof fn law_renumbering_fixes_exactly_the_misnumbered(occs: Seq<SeqOcc>, i: int)
    requires
        0 <= i < occs.len(),
    ensures
        renumbered_from(occs, 0).contains(i) <==> occs[i].number != expected_number(occs, i),
        expected_number(occs, i) == count_prefix(occs, occs[i].prefix, i) + 1,
{
    lemma_renumbered_contains(occs, 0, i);
    let j = lemma_first_with_prefix(occs, i);
    lemma_group_contains(occs, occs[i].prefix, j, i);
    if renumbered_from(occs, 0).contains(i) {
        let j2 = choose|j2: int|
            0 <= j2 < occs.len() && count_prefix(occs, occs[j2].prefix, j2) == 0 && #[trigger] group_renumbered_from(
                occs,
                occs[j2].prefix,
                j2,
            ).contains(i);
        lemma_group_contains(occs, occs[j2].prefix, j2, i);
    }
}

/// The renumbering as a whole: it offers nothing exactly when every
/// sequential ID already has the number one more than the IDs of its prefix
/// before it; otherwise its edits rewrite exactly the misnumbered IDs, each
/// to its prefix, `-` and that number, and then the `depends` values that
/// name a rewritten ID.
pub proof fn law_renumbering_as_a_whole(b: Seq<u8>)
    ensures
        ({
            let occs = sequential_occurrences(b);
            let idx = renumbered_from(occs, 0);
            &&& (idx.len() == 0) <==> (forall|i: int|
                0 <= i < occs.len() ==> (#[trigger] occs[i]).number == expected_number(occs, i))
            &&& forall|k: int|
                0 <= k < idx.len() ==> 0 <= #[trigger] idx[k] < occs.len() && occs[idx[k]].number
                    != expected_number(occs, idx[k]) && new_id(occs, idx[k]) == decode_utf8(
                    occs[idx[k]].prefix,
                ) + seq!['-'] + decimal((count_prefix(occs, occs[idx[k]].prefix, idx[k]) + 1) as nat)
            &&& forall|i: int|
                0 <= i < occs.len() && (#[trigger] occs[i]).number != expected_number(occs, i)
                    ==> idx.contains(i)
        }),
{
    let occs = sequential_occurrences(b);
    let idx = renumbered_from(occs, 0);
    assert forall|k: int| 0 <= k < idx.len() implies 0 <= #[trigger] idx[k] < occs.len() && occs[idx[k]].number
        != expected_number(occs, idx[k]) by {
        assert(idx.contains(idx[k]));
        lemma_renumbered_contains(occs, 0, idx[k]);
        let j = choose|j: int|
            0 <= j < occs.len() && count_prefix(occs, occs[j].prefix, j) == 0 && #[trigger] group_renumbered_from(
                occs,
                occs[j].prefix,
                j,
            ).contains(idx[k]);
        lemma_group_contains(occs, occs[j].prefix, j, idx[k]);
    }
    assert forall|i: int|
        0 <= i < occs.len() && (#[trigger] occs[i]).number != expected_number(occs, i) implies idx.contains(i) by {
        law_renumbering_fixes_exactly_the_misnumbered(occs, i);
    }
    if idx.len() > 0 {
        assert(idx.contains(idx[0]));
    }
    if idx.len() == 0 {
        assert forall|i: int| 0 <= i < occs.len() implies (#[trigger] occs[i]).number == expected_number(occs, i) by {
            law_renumbering_fixes_exactly_the_misnumbered(occs, i);
        }
    }
}

/// The `depends` rewrites of the renumbering: each is a `depends` value one
/// of whose items is a renamed ID, rewritten to its items with each renamed
/// one replaced; and every `depends` value with a renamed item is rewritten.
pub proof fn law_depends_rewrites(b: Seq<u8>, sites: Seq<AttrSite>, pairs: Seq<(Seq<char>, Seq<char>)>)
    ensures
        ({
            let r = depends_rewrites(b, sites, pairs);
            &&& forall|k: int|
                0 <= k < r.len() ==> sites.contains((#[trigger] r[k]).0) && any_renamed(
                    b,
                    split_items(b, r[k].0.vs, r[k].0.ve),
                    pairs,
                ) && r[k].1 == joined_mapped(b, split_items(b, r[k].0.vs, r[k].0.ve), pairs)
            &&& forall|i: int|
                0 <= i < sites.len() && any_renamed(b, split_items(b, (#[trigger] sites[i]).vs, sites[i].ve), pairs)
                    ==> exists|k: int| 0 <= k < r.len() && (#[trigger] r[k]).0 == sites[i]
        }),
    decreases sites.len(),
{
    if sites.len() > 0 {
        let init = sites.drop_last();
        law_depends_rewrites(b, init, pairs);
        let rest = depends_rewrites(b, init, pairs);
        let r = depends_rewrites(b, sites, pairs);
        assert forall|k: int| 0 <= k < rest.len() implies sites.contains((#[trigger] rest[k]).0) by {
            let m = choose|m: int| 0 <= m < init.len() && init[m] == rest[k].0;
            assert(sites[m] == init[m]);
        }
        assert forall|i: int|
            0 <= i < sites.len() && any_renamed(b, split_items(b, (#[trigger] sites[i]).vs, sites[i].ve), pairs)
                implies exists|k: int| 0 <= k < r.len() && (#[trigger] r[k]).0 == sites[i] by {
            if i < sites.len() - 1 {
                assert(init[i] == sites[i]);
                let k = choose|k: int| 0 <= k < rest.len() && (#[trigger] rest[k]).0 == init[i];
                assert(r[k] == rest[k]);
            } else {
                assert(r[r.len() - 1].0 == sites[i]);
            }
        }
        assert forall|k: int| 0 <= k < r.len() implies sites.contains((#[trigger] r[k]).0) && any_renamed(
            b,
            split_items(b, r[k].0.vs, r[k].0.ve),
            pairs,
        ) && r[k].1 == joined_mapped(b, split_items(b, r[k].0.vs, r[k].0.ve), pairs) by {
            if k < rest.len() {
                assert(r[k] == rest[k]);
            } else {
                assert(sites[sites.len() - 1] == sites.last());
            }
        }
    }
}

impl CodeActionProvider for SequentialIdProvider {
    open spec fn accepts(&self, diagnostic: &Diagnostic, data: &DiagnosticData, ctx: &ActionRequestContext) -> bool {
        ctx.file_content.spec_bytes().len() <= u32::MAX
    }

    fn handles(&self, data: &DiagnosticData) -> (r: bool) {
        SequentialIdProvider::handles(self, data)
    }

    fn actions(&self, diagnostic: &Diagnostic, data: &DiagnosticData, ctx: &ActionRequestContext) -> (r: Vec<CodeAction>) {
        SequentialIdProvider::actions(self, diagnostic, data, ctx)
    }
}

} // verus!
