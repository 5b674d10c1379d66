//! Removing a broken ref from the comma-separated value of a `refs`,
//! `implements` or `depends` attribute near the diagnostic.

use vstd::prelude::*;
use vstd::string::{StringExecFns, StringSliceAdditionalSpecFns};
use vstd::utf8::encode_utf8;
use crate::code_actions::{ActionRequestContext, BrokenRefProvider, CodeAction, CodeActionProvider};
use crate::definition::{comma_spec, hash_spec, ref_attr_needle, ref_attr_spec};
use crate::diagnostics::{ActionContext, DiagnosticData};
use crate::frontmatter::lemma_line_index_bound;
use crate::position::{Range, TextEdit};
use crate::rename_edits::{attr_value, lemma_attr_value_bounds, line_range, line_range_exec};
use crate::report::Diagnostic;
use crate::text::{
    char_start, find_exec, find_from, lemma_after_ascii, lemma_ascii_start, lemma_find_from_bounds,
    lemma_line_start_bounds, lemma_nth_line, lemma_skip_ws_back_bounds, lemma_skip_ws_back_char_start,
    lemma_skip_ws_bounds, lemma_skip_ws_char_start, matches_at, matches_at_exec, nth_line,
    nth_line_exec, lemma_line_start_none_after, skip_ws, skip_ws_back, skip_ws_back_exec, skip_ws_exec, slice_str,
};

verus! {

broadcast use vstd::utf8::encode_utf8_valid_utf8;

// ---------------------------------------------------------------------------
// Splitting and joining a ref list
// ---------------------------------------------------------------------------

/// The comma-separated items of `[j, ve)`, each trimmed of whitespace, as
/// `split(',').map(str::trim)` yields them.
pub open spec fn split_items(b: Seq<u8>, j: int, ve: int) -> Seq<(int, int)>
    decreases ve - j,
{
    match find_from(b, j, ve, comma_spec()) {
        Some(c) => {
            proof {
                lemma_find_from_bounds(b, j, ve, comma_spec());
            }
            seq![(skip_ws(b, j, c), skip_ws_back(b, skip_ws(b, j, c), c))] + split_items(b, c + 1, ve)
        },
        None => seq![(skip_ws(b, j, ve), skip_ws_back(b, skip_ws(b, j, ve), ve))],
    }
}

/// The bytes of an item.
pub open spec fn item_text(b: Seq<u8>, it: (int, int)) -> Seq<u8> {
    b.subrange(it.0, it.1)
}

/// One of `items` is `t`.
pub open spec fn has_item(b: Seq<u8>, items: Seq<(int, int)>, t: Seq<u8>) -> bool {
    exists|i: int| 0 <= i < items.len() && item_text(b, #[trigger] items[i]) == t
}

/// The items other than `t`, in order.
pub open spec fn kept_items(b: Seq<u8>, items: Seq<(int, int)>, t: Seq<u8>) -> Seq<(int, int)>
    decreases items.len(),
{
    if items.len() == 0 {
        Seq::empty()
    } else if item_text(b, items.last()) == t {
        kept_items(b, items.drop_last(), t)
    } else {
        kept_items(b, items.drop_last(), t).push(items.last())
    }
}

/// The bytes of `, `.
pub open spec fn list_separator() -> Seq<u8> {
    encode_utf8(seq![',', ' '])
}

/// The items joined by `, `.
pub open spec fn joined(b: Seq<u8>, items: Seq<(int, int)>) -> Seq<u8>
    decreases items.len(),
{
    if items.len() == 0 {
        Seq::empty()
    } else if items.len() == 1 {
        item_text(b, items[0])
    } else {
        joined(b, items.drop_last()) + list_separator() + item_text(b, items.last())
    }
}

/// The value `[vs, ve)` with every item equal to `t` removed.
pub open spec fn value_without(b: Seq<u8>, vs: int, ve: int, t: Seq<u8>) -> Seq<u8> {
    joined(b, kept_items(b, split_items(b, vs, ve), t))
}

proof fn lemma_split_items_bounds(b: Seq<u8>, j: int, ve: int)
    requires
        0 <= j <= ve <= b.len(),
    ensures
        forall|i: int| 0 <= i < split_items(b, j, ve).len() ==> j <= (#[trigger] split_items(b, j, ve)[i]).0
            <= split_items(b, j, ve)[i].1 <= ve,
        split_items(b, j, ve).len() >= 1,
    decreases ve - j,
{
    lemma_find_from_bounds(b, j, ve, comma_spec());
    match find_from(b, j, ve, comma_spec()) {
        Some(c) => {
            lemma_skip_ws_bounds(b, j, c);
            lemma_skip_ws_back_bounds(b, skip_ws(b, j, c), c);
            lemma_split_items_bounds(b, c + 1, ve);
            let rest = split_items(b, c + 1, ve);
            assert forall|i: int| 0 <= i < split_items(b, j, ve).len() implies j <= (
            #[trigger] split_items(b, j, ve)[i]).0 <= split_items(b, j, ve)[i].1 <= ve by {
                if i > 0 {
                    assert(split_items(b, j, ve)[i] == rest[i - 1]);
                }
            }
        },
        None => {
            lemma_skip_ws_bounds(b, j, ve);
            lemma_skip_ws_back_bounds(b, skip_ws(b, j, ve), ve);
        },
    }
}

/// The trimmed items of the value `[vs, ve)`.
pub(crate) fn split_items_exec(b: &[u8], vs: usize, ve: usize) -> (r: Vec<(usize, usize)>)
    requires
        vs <= ve <= b@.len(),
        vstd::utf8::valid_utf8(b@),
        char_start(b@, vs as int),
        char_start(b@, ve as int),
    ensures
        r@.len() == split_items(b@, vs as int, ve as int).len(),
        forall|i: int| 0 <= i < r@.len() ==> (#[trigger] r@[i]).0 == split_items(b@, vs as int, ve as int)[i].0
            && r@[i].1 == split_items(b@, vs as int, ve as int)[i].1,
        forall|i: int| 0 <= i < r@.len() ==> vs <= (#[trigger] r@[i]).0 <= r@[i].1 <= ve && char_start(b@, r@[i].0 as int)
            && char_start(b@, r@[i].1 as int),
{
    let comma = [44u8];
    proof {
        assert(comma@ =~= comma_spec());
    }
    let mut out: Vec<(usize, usize)> = Vec::new();
    let ghost mut done: Seq<(int, int)> = Seq::empty();
    let mut j = vs;
    loop
        invariant
            vs <= j <= ve <= b@.len(),
            vstd::utf8::valid_utf8(b@),
            char_start(b@, j as int),
            char_start(b@, ve as int),
            comma@ == comma_spec(),
            split_items(b@, vs as int, ve as int) == done + split_items(b@, j as int, ve as int),
            out@.len() == done.len(),
            forall|i: int| 0 <= i < out@.len() ==> (#[trigger] out@[i]).0 == done[i].0 && out@[i].1 == done[i].1,
            forall|i: int| 0 <= i < out@.len() ==> vs <= (#[trigger] out@[i]).0 <= out@[i].1 <= ve && char_start(
                b@,
                out@[i].0 as int,
            ) && char_start(b@, out@[i].1 as int),
        decreases ve - j,
    {
        proof {
            lemma_find_from_bounds(b@, j as int, ve as int, comma_spec());
        }
        match find_exec(b, j, ve, comma.as_slice()) {
            Some(c) => {
                proof {
                    assert(b@[c + 0] == comma_spec()[0]);
                    lemma_ascii_start(b@, c as int);
                    lemma_after_ascii(b@, c as int);
                    lemma_skip_ws_bounds(b@, j as int, c as int);
                    lemma_skip_ws_char_start(b@, j as int, c as int);
                }
                let p = skip_ws_exec(b, j, c);
                proof {
                    lemma_skip_ws_back_char_start(b@, p as int, c as int);
                }
                let q = skip_ws_back_exec(b, p, c);
                out.push((p, q));
                proof {
                    let item = (p as int, q as int);
                    assert(split_items(b@, j as int, ve as int) == seq![item] + split_items(b@, c + 1, ve as int));
                    assert(done.push(item) + split_items(b@, c + 1, ve as int) =~= done + split_items(
                        b@,
                        j as int,
                        ve as int,
                    ));
                    done = done.push(item);
                }
                j = c + 1;
            },
            None => {
                proof {
                    lemma_skip_ws_char_start(b@, j as int, ve as int);
                }
                let p = skip_ws_exec(b, j, ve);
                proof {
                    lemma_skip_ws_back_char_start(b@, p as int, ve as int);
                }
                let q = skip_ws_back_exec(b, p, ve);
                out.push((p, q));
                proof {
                    let item = (p as int, q as int);
                    assert(split_items(b@, j as int, ve as int) == seq![item]);
                    assert(done.push(item) =~= done + split_items(b@, j as int, ve as int));
                    done = done.push(item);
                }
                return out;
            },
        }
    }
}

/// Whether the bytes `[x, y)` of `b` are `t`.
fn range_is(b: &[u8], x: usize, y: usize, t: &[u8]) -> (r: bool)
    requires
        x <= y <= b@.len(),
    ensures
        r == (b@.subrange(x as int, y as int) == t@),
{
    if y - x != t.len() {
        proof {
            assert(b@.subrange(x as int, y as int).len() != t@.len());
        }
        return false;
    }
    let m = matches_at_exec(b, x, t);
    proof {
        if m {
            assert forall|k: int| 0 <= k < t@.len() implies #[trigger] b@.subrange(x as int, y as int)[k]
                == t@[k] by {
                assert(b@[x + k] == t@[k]);
            }
            assert(b@.subrange(x as int, y as int) =~= t@);
        } else {
            if b@.subrange(x as int, y as int) == t@ {
                assert forall|k: int| 0 <= k < t@.len() implies #[trigger] b@[x + k] == t@[k] by {
                    assert(b@.subrange(x as int, y as int)[k] == b@[x + k]);
                }
            }
        }
    }
    m
}

proof fn lemma_kept_items_len(b: Seq<u8>, items: Seq<(int, int)>, t: Seq<u8>)
    ensures
        kept_items(b, items, t).len() <= items.len(),
    decreases items.len(),
{
    if items.len() > 0 {
        lemma_kept_items_len(b, items.drop_last(), t);
    }
}

/// Split the value `[vs, ve)` of `content` into its items, and join the
/// items other than `t` with `, `; also whether some item was `t`.
fn remove_item(content: &str, vs: usize, ve: usize, t: &str) -> (r: (bool, String))
    requires
        vs <= ve <= content.spec_bytes().len(),
        char_start(content.spec_bytes(), vs as int),
        char_start(content.spec_bytes(), ve as int),
    ensures
        r.0 == has_item(content.spec_bytes(), split_items(content.spec_bytes(), vs as int, ve as int), t.spec_bytes()),
        encode_utf8(r.1@) == value_without(content.spec_bytes(), vs as int, ve as int, t.spec_bytes()),
{
    let b = content.as_bytes();
    let tb = t.as_bytes();
    let items = split_items_exec(b, vs, ve);
    let ghost all = split_items(b@, vs as int, ve as int);
    let mut found = false;
    let mut out = String::new();
    let mut first = true;
    let mut i: usize = 0;
    proof {
        assert(all.take(0) =~= Seq::<(int, int)>::empty());
    }
    while i < items.len()
        invariant
            0 <= i <= items@.len(),
            vs <= ve <= b@.len(),
            b@ == content.spec_bytes(),
            tb@ == t.spec_bytes(),
            all == split_items(b@, vs as int, ve as int),
            items@.len() == all.len(),
            forall|k: int| 0 <= k < items@.len() ==> (#[trigger] items@[k]).0 == all[k].0 && items@[k].1 == all[k].1,
            forall|k: int| 0 <= k < items@.len() ==> vs <= (#[trigger] items@[k]).0 <= items@[k].1 <= ve
                && char_start(b@, items@[k].0 as int) && char_start(b@, items@[k].1 as int),
            found == has_item(b@, all.take(i as int), tb@),
            first == (kept_items(b@, all.take(i as int), tb@).len() == 0),
            encode_utf8(out@) == joined(b@, kept_items(b@, all.take(i as int), tb@)),
        decreases items@.len() - i,
    {
        let (p, q) = items[i];
        let ghost prev = all.take(i as int);
        let ghost next = all.take(i + 1);
        proof {
            assert(next.drop_last() =~= prev);
            assert(next.last() == all[i as int]);
            assert(ve <= b@.len());
        }
        if range_is(b, p, q, tb) {
            found = true;
            proof {
                assert(item_text(b@, next[i as int]) == tb@);
            }
        } else {
            let piece = slice_str(content, p, q);
            let ghost before = out@;
            if !first {
                out.append(", ");
                proof {
                    reveal_strlit(", ");
                    assert(", "@ == seq![',', ' ']);
                    crate::position::lemma_encode_concat(before, ", "@);
                }
            }
            let ghost mid = out@;
            out.append(piece);
            proof {
                crate::position::lemma_encode_concat(mid, piece@);
                let kp = kept_items(b@, prev, tb@);
                assert(kept_items(b@, next, tb@) == kp.push(all[i as int]));
                assert(kp.push(all[i as int]).drop_last() =~= kp);
                if kp.len() == 0 {
                    assert(encode_utf8(before) == Seq::<u8>::empty());
                }
            }
            first = false;
        }
        proof {
            if has_item(b@, next, tb@) && !has_item(b@, prev, tb@) {
                let w = choose|w: int| 0 <= w < next.len() && item_text(b@, #[trigger] next[w]) == tb@;
                if w < i {
                    assert(prev[w] == next[w]);
                }
            }
            if has_item(b@, prev, tb@) {
                let w = choose|w: int| 0 <= w < prev.len() && item_text(b@, #[trigger] prev[w]) == tb@;
                assert(next[w] == prev[w]);
            }
        }
        i = i + 1;
    }
    proof {
        assert(all.take(items@.len() as int) =~= all);
    }
    (found, out)
}

// ---------------------------------------------------------------------------
// Finding the attribute
// ---------------------------------------------------------------------------

/// Number of attributes a broken ref is removed from: `refs`,
/// `implements`, `depends`.
pub const REMOVABLE_ATTR_COUNT: usize = 3;

/// The first of the attributes `k` on (of `refs`, `implements`,
/// `depends`) on `[s, e)` whose value holds the item `t`: that value.
pub open spec fn attr_holding(b: Seq<u8>, s: int, e: int, k: nat, t: Seq<u8>) -> Option<(int, int)>
    decreases 3 - k,
{
    if k >= 3 {
        None
    } else {
        match attr_value(b, s, e, k as int) {
            Some((vs, c)) => if has_item(b, split_items(b, vs, c), t) {
                Some((vs, c))
            } else {
                attr_holding(b, s, e, k + 1, t)
            },
            None => attr_holding(b, s, e, k + 1, t),
        }
    }
}

/// The first of `count` lines from line `k` on with such a value: the line,
/// its start, and the value.
pub open spec fn removal_search(b: Seq<u8>, k: nat, count: nat, t: Seq<u8>) -> Option<(nat, int, int, int)>
    decreases count,
{
    if count == 0 {
        None
    } else {
        match nth_line(b, k) {
            None => None,
            Some((s, e)) => match attr_holding(b, s, e, 0, t) {
                Some((vs, c)) => Some((k, s, vs, c)),
                None => removal_search(b, k + 1, (count - 1) as nat, t),
            },
        }
    }
}

/// The search around the diagnostic's line: from three lines before it to
/// three lines after it.
pub open spec fn removal_near(b: Seq<u8>, line: nat, t: Seq<u8>) -> Option<(nat, int, int, int)> {
    let start: nat = if line >= 3 {
        (line - 3) as nat
    } else {
        0
    };
    removal_search(b, start, (line + 4 - start) as nat, t)
}

proof fn lemma_attr_holding_bounds(b: Seq<u8>, s: int, e: int, k: nat, t: Seq<u8>)
    requires
        0 <= s <= e <= b.len(),
    ensures
        attr_holding(b, s, e, k, t) matches Some((vs, c)) ==> s <= vs <= c < e,
    decreases 3 - k,
{
    if k < 3 {
        lemma_attr_value_bounds(b, s, e, k as int);
        lemma_attr_holding_bounds(b, s, e, k + 1, t);
    }
}

/// The value of the first attribute on the line `[s, e)` that holds `t`,
/// with `t` removed from it.
fn attr_holding_exec(content: &str, s: usize, e: usize, t: &str) -> (r: Option<(usize, usize, String)>)
    requires
        s <= e <= content.spec_bytes().len(),
        char_start(content.spec_bytes(), s as int),
        char_start(content.spec_bytes(), e as int),
    ensures
        match attr_holding(content.spec_bytes(), s as int, e as int, 0, t.spec_bytes()) {
            None => r is None,
            Some((vs, c)) => r matches Some((x, y, v)) && x == vs && y == c && encode_utf8(v@)
                == value_without(content.spec_bytes(), vs, c, t.spec_bytes()),
        },
{
    let b = content.as_bytes();
    let quote = [34u8];
    proof {
        assert(quote@ =~= seq![34u8]);
        assert(vstd::utf8::valid_utf8(b@));
    }
    let mut k: usize = 0;
    while k < REMOVABLE_ATTR_COUNT
        invariant
            0 <= k <= 3,
            s <= e <= b@.len(),
            b@ == content.spec_bytes(),
            vstd::utf8::valid_utf8(b@),
            quote@ == seq![34u8],
            attr_holding(b@, s as int, e as int, 0, t.spec_bytes()) == attr_holding(
                b@,
                s as int,
                e as int,
                k as nat,
                t.spec_bytes(),
            ),
        decreases 3 - k,
    {
        let needle = ref_attr_needle(k);
        proof {
            lemma_find_from_bounds(b@, s as int, e as int, ref_attr_spec(k as int));
        }
        match find_exec(b, s, e, needle.as_slice()) {
            Some(p) => {
                let vs = p + needle.len();
                proof {
                    lemma_find_from_bounds(b@, vs as int, e as int, seq![34u8]);
                    crate::definition::lemma_ref_attr_ends_with_quote(k as int);
                    assert(b@[p + (ref_attr_spec(k as int).len() - 1)] == ref_attr_spec(k as int)[ref_attr_spec(
                        k as int,
                    ).len() - 1]);
                    lemma_after_ascii(b@, vs - 1);
                }
                match find_exec(b, vs, e, quote.as_slice()) {
                    Some(c) => {
                        proof {
                            assert(b@[c + 0] == seq![34u8][0]);
                            lemma_ascii_start(b@, c as int);
                        }
                        let (has, v) = remove_item(content, vs, c, t);
                        if has {
                            return Some((vs, c, v));
                        }
                    },
                    None => {},
                }
            },
            None => {},
        }
        k = k + 1;
    }
    None
}

/// Search the lines around the diagnostic for a `refs`, `implements` or
/// `depends` value holding `target_ref`: the range of the value (inside
/// the quotes) and the value without it.
pub fn find_and_remove_ref(content: &str, diag_range: &Range, target_ref: &str) -> (r: Option<(Range, String)>)
    requires
        content.spec_bytes().len() <= u32::MAX,
    ensures
        match removal_near(content.spec_bytes(), diag_range.start.line as nat, target_ref.spec_bytes()) {
            None => r is None,
            Some((k, s, vs, c)) => r matches Some((range, v)) && range == line_range(
                content.spec_bytes(),
                k,
                vs - s,
                c - s,
            ) && encode_utf8(v@) == value_without(content.spec_bytes(), vs, c, target_ref.spec_bytes()),
        },
{
    let b = content.as_bytes();
    let diag_line = diag_range.start.line as usize;
    let start = if diag_line >= 3 {
        diag_line - 3
    } else {
        0
    };
    let count = diag_line - start + 4;
    let mut j: usize = 0;
    while j < count
        invariant
            0 <= j <= count,
            count == diag_line - start + 4,
            start <= diag_line,
            b@ == content.spec_bytes(),
            content.spec_bytes().len() <= u32::MAX,
            removal_near(b@, diag_range.start.line as nat, target_ref.spec_bytes()) == removal_search(
                b@,
                (start + j) as nat,
                (count - j) as nat,
                target_ref.spec_bytes(),
            ),
        decreases count - j,
    {
        let k = match start.checked_add(j) {
            Some(k) => k,
            None => {
                proof {
                    lemma_line_index_bound(b@, (start + j) as nat);
                    lemma_line_start_bounds(b@, (start + j) as nat);
                }
                return None;
            },
        };
        match nth_line_exec(b, k) {
            None => {
                return None;
            },
            Some((s, e)) => {
                proof {
                    assert(vstd::utf8::valid_utf8(b@));
                    lemma_nth_line(b@, k as nat);
                }
                match attr_holding_exec(content, s, e, target_ref) {
                    Some((vs, c, v)) => {
                        proof {
                            lemma_attr_holding_bounds(b@, s as int, e as int, 0, target_ref.spec_bytes());
                        }
                        return Some((line_range_exec(content, k, s, e, vs - s, c - s), v));
                    },
                    None => {},
                }
            },
        }
        j = j + 1;
    }
    None
}

// ---------------------------------------------------------------------------
// The quick fix
// ---------------------------------------------------------------------------

/// `a` replaces the text at `range` with `new_value`, titled after the ref.
pub open spec fn removal_action_is(a: CodeAction, range: Range, new_value: Seq<u8>, target_ref: Seq<char>) -> bool {
    &&& a.title@ == "Remove broken ref '"@ + target_ref + "'"@
    &&& a.edits@.len() == 1
    &&& a.edits@[0].range == range
    &&& encode_utf8(a.edits@[0].new_text@) == new_value
}

/// The message says the ref's target was not found.
pub open spec fn not_found_reason(message: Seq<u8>) -> bool {
    find_from(message, 0, message.len() as int, not_found_spec()) is Some
}

/// The bytes of `not found`.
pub open spec fn not_found_spec() -> Seq<u8> {
    seq![110u8, 111u8, 116u8, 32u8, 102u8, 111u8, 117u8, 110u8, 100u8]
}

/// Whether a broken ref calls for creating its missing document: the
/// message says its target was not found, and the ref has no `#fragment`.
pub fn wants_create_document(diagnostic: &Diagnostic, target_ref: &str) -> (r: bool)
    ensures
        r == (not_found_reason(encode_utf8(diagnostic.message@)) && find_from(
            target_ref.spec_bytes(),
            0,
            target_ref.spec_bytes().len() as int,
            hash_spec(),
        ) is None),
{
    let m = diagnostic.message.as_str().as_bytes();
    let t = target_ref.as_bytes();
    let nf = [110u8, 111u8, 116u8, 32u8, 102u8, 111u8, 117u8, 110u8, 100u8];
    let hash = [35u8];
    proof {
        assert(nf@ =~= not_found_spec());
        assert(hash@ =~= hash_spec());
    }
    find_exec(m, 0, m.len(), nf.as_slice()).is_some() && find_exec(t, 0, t.len(), hash.as_slice()).is_none()
}

impl BrokenRefProvider {
    /// Offer to remove the broken ref from the attribute value near the
    /// diagnostic that lists it; nothing when no such value is found.
    /// (Creating the missing document needs the project configuration; see
    /// [`wants_create_document`] for when it is offered.)
    pub fn actions(&self, diagnostic: &Diagnostic, data: &DiagnosticData, ctx: &ActionRequestContext) -> (r: Vec<CodeAction>)
        requires
            ctx.file_content.spec_bytes().len() <= u32::MAX,
        ensures
            match data.context {
                ActionContext::BrokenRef { target_ref } => match removal_near(
                    ctx.file_content.spec_bytes(),
                    diagnostic.range.start.line as nat,
                    encode_utf8(target_ref@),
                ) {
                    None => r@.len() == 0,
                    Some((k, s, vs, c)) => r@.len() == 1 && removal_action_is(
                        r@[0],
                        line_range(ctx.file_content.spec_bytes(), k, vs - s, c - s),
                        value_without(ctx.file_content.spec_bytes(), vs, c, encode_utf8(target_ref@)),
                        target_ref@,
                    ),
                },
                _ => r@.len() == 0,
            },
    {
        let mut out: Vec<CodeAction> = Vec::new();
        let target_ref = match &data.context {
            ActionContext::BrokenRef { target_ref } => target_ref,
            _ => {
                return out;
            },
        };
        match find_and_remove_ref(ctx.file_content, &diagnostic.range, target_ref.as_str()) {
            Some((range, new_value)) => {
                let mut title = String::from_str("Remove broken ref '");
                title.append(target_ref.as_str());
                title.append("'");
                let mut edits: Vec<TextEdit> = Vec::new();
                edits.push(TextEdit { range, new_text: new_value });
                out.push(CodeAction { title, edits });
            },
            None => {},
        }
        out
    }
}

// ---------------------------------------------------------------------------
// Laws
// ---------------------------------------------------------------------------

/// Removing a broken ref from a list keeps exactly the other items, in
/// their order.
pub proof fn law_removal_keeps_other_items(b: Seq<u8>, items: Seq<(int, int)>, t: Seq<u8>)
    ensures
        kept_items(b, items, t) == items.filter(|it: (int, int)| item_text(b, it) != t),
    decreases items.len(),
{
    reveal(Seq::filter);
    if items.len() > 0 {
        law_removal_keeps_other_items(b, items.drop_last(), t);
    }
}

/// No item that remains after removing a broken ref is that ref.
pub proof fn law_removed_ref_is_gone(b: Seq<u8>, items: Seq<(int, int)>, t: Seq<u8>)
    ensures
        !has_item(b, kept_items(b, items, t), t),
    decreases items.len(),
{
    if items.len() > 0 {
        law_removed_ref_is_gone(b, items.drop_last(), t);
        let rest = kept_items(b, items.drop_last(), t);
        if item_text(b, items.last()) != t {
            let k = rest.push(items.last());
            if has_item(b, k, t) {
                let w = choose|w: int| 0 <= w < k.len() && item_text(b, #[trigger] k[w]) == t;
                if w < rest.len() {
                    assert(k[w] == rest[w]);
                }
            }
        }
    }
}

/// Ref attribute `a` of the line `[s, e)` lists `t` among its items.
pub open spec fn attr_lists_ref(b: Seq<u8>, s: int, e: int, a: int, t: Seq<u8>) -> bool {
    match attr_value(b, s, e, a) {
        Some((vs, c)) => has_item(b, split_items(b, vs, c), t),
        None => false,
    }
}

/// One of the ref attributes of line `j` lists `t` among its items.
pub open spec fn line_lists_ref(b: Seq<u8>, j: nat, t: Seq<u8>) -> bool {
    nth_line(b, j) matches Some((s, e)) && exists|a: int|
        0 <= a < 3 && #[trigger] attr_lists_ref(b, s, e, a, t)
}

proof fn lemma_attr_holding_exists(b: Seq<u8>, s: int, e: int, k: nat, t: Seq<u8>)
    requires
        k <= 3,
    ensures
        attr_holding(b, s, e, k, t) is Some <==> exists|a: int|
            k <= a < 3 && #[trigger] attr_lists_ref(b, s, e, a, t),
    decreases 3 - k,
{
    if k < 3 {
        lemma_attr_holding_exists(b, s, e, k + 1, t);
        if attr_lists_ref(b, s, e, k as int, t) {
            assert(attr_holding(b, s, e, k, t) is Some);
        } else {
            assert(attr_holding(b, s, e, k, t) == attr_holding(b, s, e, k + 1, t));
        }
        if exists|a: int|
            k <= a < 3 && #[trigger] attr_lists_ref(b, s, e, a, t) {
            let a = choose|a: int|
                k <= a < 3 && #[trigger] attr_lists_ref(b, s, e, a, t);
            if a != k {
                assert(k + 1 <= a);
            }
        }
    }
}

proof fn lemma_removal_search_exists(b: Seq<u8>, k: nat, count: nat, t: Seq<u8>)
    ensures
        removal_search(b, k, count, t) is Some <==> exists|j: nat|
            k <= j < k + count && #[trigger] line_lists_ref(b, j, t),
    decreases count,
{
    if count > 0 {
        lemma_removal_search_exists(b, k + 1, (count - 1) as nat, t);
        match nth_line(b, k) {
            None => {
                assert forall|j: nat| k <= j < k + count implies !#[trigger] line_lists_ref(b, j, t) by {
                    lemma_line_start_none_after(b, k, j);
                }
            },
            Some((s, e)) => {
                lemma_attr_holding_exists(b, s, e, 0, t);
                if exists|j: nat| k <= j < k + count && #[trigger] line_lists_ref(b, j, t) {
                    let j = choose|j: nat| k <= j < k + count && #[trigger] line_lists_ref(b, j, t);
                    if j != k {
                        assert(k + 1 <= j);
                    }
                }
                if attr_holding(b, s, e, 0, t) is Some {
                    assert(line_lists_ref(b, k, t));
                }
            },
        }
    }
}

/// `find_and_remove_ref` finds a ref exactly when a ref attribute on one of
/// the lines from three before the diagnostic's line to three after it
/// lists the ref.
pub proof fn law_removal_found_iff_listed(b: Seq<u8>, line: nat, t: Seq<u8>)
    ensures
        removal_near(b, line, t) is Some <==> exists|j: nat|
            (if line >= 3 { line - 3 } else { 0 }) <= j <= line + 3 && #[trigger] line_lists_ref(b, j, t),
{
    let start: nat = if line >= 3 {
        (line - 3) as nat
    } else {
        0
    };
    lemma_removal_search_exists(b, start, (line + 4 - start) as nat, t);
}

impl CodeActionProvider for BrokenRefProvider {
    open spec fn accepts(&self, diagnostic: &Diagnostic, data: &DiagnosticData, ctx: &ActionRequestContext) -> bool {
        ctx.file_content.spec_bytes().len() <= u32::MAX
    }

    fn handles(&self, data: &DiagnosticData) -> (r: bool) {
        BrokenRefProvider::handles(self, data)
    }

    fn actions(&self, diagnostic: &Diagnostic, data: &DiagnosticData, ctx: &ActionRequestContext) -> (r: Vec<CodeAction>) {
        BrokenRefProvider::actions(self, diagnostic, data, ctx)
    }
}

} // verus!
