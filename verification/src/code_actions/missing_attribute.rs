//! Inserting a missing required attribute, with a default value that fits
//! the component, at the close of its opening tag.

use vstd::prelude::*;
use vstd::string::{StringExecFns, StringSliceAdditionalSpecFns};
use vstd::utf8::{decode_utf8, encode_utf8};
use crate::code_actions::{
    parse_sequential_id, sequential_id, ActionRequestContext, CodeAction, MissingAttributeProvider, CodeActionProvider};
use crate::code_lens::{Component, CRITERION};
use crate::diagnostics::{ActionContext, DiagnosticData};
use crate::frontmatter::lemma_line_index_bound;
use crate::numerals::{decimal, push_decimal};
use crate::position::{lemma_encode_concat, zero_range, Position, Range, TextEdit};
use crate::rename_edits::{line_range, line_range_exec};
use crate::report::Diagnostic;
use crate::text::{
    char_start, find_exec, find_from, lemma_after_ascii, lemma_ascii_start, lemma_find_from_bounds,
    lemma_line_start_bounds, lemma_line_start_none_after, lemma_next_nl_bounds, lemma_nth_line,
    lemma_skip_ws_back_bounds, lemma_skip_ws_back_char_start, lemma_skip_ws_bounds,
    lemma_skip_ws_char_start, line_at_exec, line_start, matches_at, nth_line, nth_line_exec,
    same_str, skip_ws, skip_ws_back, skip_ws_back_exec, skip_ws_exec, slice_str,
};
use crate::tokens::{id_attr, id_attr_spec};
use crate::fence::{starts_at, starts_at_exec};

verus! {

broadcast use vstd::utf8::encode_utf8_valid_utf8, vstd::utf8::encode_utf8_decode_utf8;

/// The component name `Task`.
pub const TASK: &'static str = "Task";

/// The component name `VerifiedBy`.
pub const VERIFIED_BY: &'static str = "VerifiedBy";

// ---------------------------------------------------------------------------
// Where the attribute goes
// ---------------------------------------------------------------------------

/// The first `>` or `/>` on `[i, e)`: the offset of its first byte.
pub open spec fn tag_close(b: Seq<u8>, i: int, e: int) -> Option<int>
    decreases e - i,
{
    if i >= e {
        None
    } else if b[i] == 62 || (b[i] == 47 && i + 1 < e && b[i + 1] == 62) {
        Some(i)
    } else {
        tag_close(b, i + 1, e)
    }
}

/// Back from `p` over the spaces after the line start `s`.
pub open spec fn back_over_spaces(b: Seq<u8>, s: int, p: int) -> int
    decreases p - s,
{
    if p > s && b[p - 1] == 32 {
        back_over_spaces(b, s, p - 1)
    } else {
        p
    }
}

/// From line `k` on, the first line with a tag close: the line, its start,
/// and the offset before the spaces that precede the close.
pub open spec fn insertion_from(b: Seq<u8>, k: nat) -> Option<(nat, int, int)>
    decreases b.len() - k,
{
    if k >= b.len() {
        None
    } else {
        match nth_line(b, k) {
            None => None,
            Some((s, e)) => match tag_close(b, s, e) {
                Some(p) => Some((k, s, back_over_spaces(b, s, p))),
                None => insertion_from(b, k + 1),
            },
        }
    }
}

/// The position of an insertion point found by [`insertion_from`].
pub open spec fn insertion_position(b: Seq<u8>, found: (nat, int, int)) -> Position {
    line_range(b, found.0, found.2 - found.1, found.2 - found.1).start
}

proof fn lemma_insertion_none(b: Seq<u8>, k: nat)
    requires
        line_start(b, k) is None,
    ensures
        insertion_from(b, k) is None,
{
}

proof fn lemma_back_over_spaces_bounds(b: Seq<u8>, s: int, p: int)
    requires
        s <= p,
    ensures
        s <= back_over_spaces(b, s, p) <= p,
        forall|k: int| back_over_spaces(b, s, p) <= k < p ==> b[k] == 32,
    decreases p - s,
{
    if p > s && b[p - 1] == 32 {
        lemma_back_over_spaces_bounds(b, s, p - 1);
    }
}

/// Find the position just before the spaces preceding the `>` or `/>`
/// that closes the opening tag, from the diagnostic's line on.
pub fn find_insertion_point(content: &str, diag_range: &Range) -> (r: Option<Position>)
    requires
        content.spec_bytes().len() <= u32::MAX,
    ensures
        match insertion_from(content.spec_bytes(), diag_range.start.line as nat) {
            Some(found) => r == Some(insertion_position(content.spec_bytes(), found)),
            None => r is None,
        },
{
    let b = content.as_bytes();
    let first = diag_range.start.line as usize;
    let mut st = match nth_line_exec(b, first) {
        Some((s, _)) => s,
        None => {
            proof {
                lemma_insertion_none(b@, first as nat);
            }
            return None;
        },
    };
    proof {
        lemma_nth_line(b@, first as nat);
        lemma_line_index_bound(b@, first as nat);
    }
    let mut k = first;
    loop
        invariant
            st < b@.len() <= u32::MAX,
            k <= st,
            b@ == content.spec_bytes(),
            line_start(b@, k as nat) == Some(st as int),
            first == diag_range.start.line as usize,
            insertion_from(b@, first as nat) == insertion_from(b@, k as nat),
        decreases b@.len() - k,
    {
        let (e, next) = line_at_exec(b, st);
        proof {
            lemma_next_nl_bounds(b@, st as int);
            lemma_nth_line(b@, k as nat);
        }
        let mut i = st;
        while i < e
            invariant
                st <= i <= e <= b@.len() <= u32::MAX,
                b@ == content.spec_bytes(),
                nth_line(b@, k as nat) == Some((st as int, e as int)),
                first == diag_range.start.line as usize,
                insertion_from(b@, first as nat) == insertion_from(b@, k as nat),
                tag_close(b@, st as int, e as int) == tag_close(b@, i as int, e as int),
            decreases e - i,
        {
            if b[i] == 62 || (b[i] == 47 && i + 1 < e && b[i + 1] == 62) {
                let mut p = i;
                while p > st && b[p - 1] == 32
                    invariant
                        st <= p <= i < e <= b@.len(),
                        back_over_spaces(b@, st as int, i as int) == back_over_spaces(b@, st as int, p as int),
                    decreases p - st,
                {
                    p = p - 1;
                }
                proof {
                    lemma_line_index_bound(b@, k as nat);
                    assert(tag_close(b@, i as int, e as int) == Some(i as int));
                    assert(back_over_spaces(b@, st as int, p as int) == p);
                    assert(insertion_from(b@, k as nat) == Some((k as nat, st as int, p as int)));
                }
                return Some(line_range_exec(content, k, st, e, p - st, p - st).start);
            }
            i = i + 1;
        }
        proof {
            lemma_line_index_bound(b@, k as nat);
            assert(tag_close(b@, i as int, e as int) is None);
            assert(insertion_from(b@, k as nat) == insertion_from(b@, (k + 1) as nat));
        }
        match next {
            Some(t) => {
                st = t;
                k = k + 1;
            },
            None => {
                proof {
                    lemma_insertion_none(b@, (k + 1) as nat);
                }
                return None;
            },
        }
    }
}

// ---------------------------------------------------------------------------
// The enclosing criterion, for a VerifiedBy tag
// ---------------------------------------------------------------------------

/// The bytes of `<Criterion`.
pub open spec fn criterion_open_spec() -> Seq<u8> {
    seq![60u8, 67u8, 114u8, 105u8, 116u8, 101u8, 114u8, 105u8, 111u8, 110u8]
}

/// The non-empty `id="..."` value of a line `[s, e)` that, trimmed, opens
/// with `<Criterion`.
pub open spec fn line_criterion_id(b: Seq<u8>, s: int, e: int) -> Option<(int, int)> {
    let t = skip_ws(b, s, e);
    let q = skip_ws_back(b, t, e);
    if !starts_at(b, t, q, criterion_open_spec()) {
        None
    } else {
        match find_from(b, t + 10, q, id_attr_spec()) {
            None => None,
            Some(p) => match find_from(b, p + 4, q, seq![34u8]) {
                None => None,
                Some(c) => if c == p + 4 {
                    None
                } else {
                    Some((p + 4, c))
                },
            },
        }
    }
}

/// The nearest line at or before `k` with a criterion ID: that ID.
pub open spec fn criterion_id_before(b: Seq<u8>, k: nat) -> Option<(int, int)>
    decreases k,
{
    let here = match nth_line(b, k) {
        Some((s, e)) => line_criterion_id(b, s, e),
        None => None,
    };
    match here {
        Some(x) => Some(x),
        None => if k == 0 {
            None
        } else {
            criterion_id_before(b, (k - 1) as nat)
        },
    }
}

proof fn lemma_criterion_skip(b: Seq<u8>, k: nat, n: nat)
    requires
        line_start(b, n) is None,
        k >= n,
    ensures
        criterion_id_before(b, k) == (if n == 0 {
            None
        } else {
            criterion_id_before(b, (n - 1) as nat)
        }),
    decreases k,
{
    lemma_line_start_none_after(b, n, k);
    if k > n {
        lemma_criterion_skip(b, (k - 1) as nat, n);
    }
}

/// The criterion ID of the line `[s, e)`, computed.
fn line_criterion_id_exec(b: &[u8], s: usize, e: usize) -> (r: Option<(usize, usize)>)
    requires
        s <= e <= b@.len(),
        vstd::utf8::valid_utf8(b@),
        char_start(b@, s as int),
        char_start(b@, e as int),
    ensures
        r matches Some((x, y)) ==> line_criterion_id(b@, s as int, e as int) == Some((x as int, y as int))
            && x <= y && char_start(b@, x as int) && char_start(b@, y as int),
        r is None ==> line_criterion_id(b@, s as int, e as int) is None,
{
    let open = [60u8, 67u8, 114u8, 105u8, 116u8, 101u8, 114u8, 105u8, 111u8, 110u8];
    let attr = id_attr();
    let quote = [34u8];
    proof {
        assert(open@ =~= criterion_open_spec());
        assert(quote@ =~= seq![34u8]);
        lemma_skip_ws_bounds(b@, s as int, e as int);
    }
    let t = skip_ws_exec(b, s, e);
    proof {
        lemma_skip_ws_back_bounds(b@, t as int, e as int);
    }
    let q = skip_ws_back_exec(b, t, e);
    if !starts_at_exec(b, t, q, open.as_slice()) {
        return None;
    }
    proof {
        lemma_find_from_bounds(b@, t + 10, q as int, id_attr_spec());
    }
    let p = match find_exec(b, t + 10, q, attr.as_slice()) {
        Some(p) => p,
        None => {
            return None;
        },
    };
    proof {
        lemma_find_from_bounds(b@, p + 4, q as int, seq![34u8]);
    }
    let c = match find_exec(b, p + 4, q, quote.as_slice()) {
        Some(c) => c,
        None => {
            return None;
        },
    };
    if c == p + 4 {
        return None;
    }
    proof {
        assert(b@[p + 3] == id_attr_spec()[3]);
        assert(b@[c + 0] == seq![34u8][0]);
        lemma_after_ascii(b@, p + 3);
        lemma_ascii_start(b@, c as int);
    }
    Some((p + 4, c))
}

/// The line ranges of lines `0..=last` (those that exist).
fn line_ranges_upto(b: &[u8], last: usize) -> (r: Vec<(usize, usize)>)
    ensures
        forall|i: int| 0 <= i < r@.len() ==> nth_line(b@, i as nat) == Some(
            ((#[trigger] r@[i]).0 as int, r@[i].1 as int),
        ),
        r@.len() <= last + 1,
        r@.len() < last + 1 ==> line_start(b@, r@.len()) is None,
{
    let mut out: Vec<(usize, usize)> = Vec::new();
    if b.len() == 0 {
        return out;
    }
    let mut st: usize = 0;
    loop
        invariant
            st < b@.len(),
            out@.len() <= last,
            line_start(b@, out@.len()) == Some(st as int),
            forall|i: int| 0 <= i < out@.len() ==> nth_line(b@, i as nat) == Some(
                ((#[trigger] out@[i]).0 as int, out@[i].1 as int),
            ),
        decreases b@.len() - st,
    {
        let (e, next) = line_at_exec(b, st);
        proof {
            lemma_next_nl_bounds(b@, st as int);
        }
        out.push((st, e));
        if out.len() > last {
            return out;
        }
        match next {
            Some(t) => {
                st = t;
            },
            None => {
                return out;
            },
        }
    }
}

/// The tag for a `<VerifiedBy>`: the document ID and the ID of the nearest
/// `<Criterion` line at or above the diagnostic, as `doc#criterion`.
pub fn default_verified_by_tag(diagnostic: &Diagnostic, ctx: &ActionRequestContext) -> (r: Option<String>)
    ensures
        match ctx.current_doc {
            None => r is None,
            Some(doc) => match criterion_id_before(
                ctx.file_content.spec_bytes(),
                diagnostic.range.start.line as nat,
            ) {
                None => r is None,
                Some((x, y)) => r matches Some(t) && t@ == doc.doc_id@ + seq!['#'] + decode_utf8(
                    ctx.file_content.spec_bytes().subrange(x, y),
                ),
            },
        },
{
    let doc = match ctx.current_doc {
        Some(d) => d,
        None => {
            return None;
        },
    };
    let content = ctx.file_content;
    let b = content.as_bytes();
    let diag_line = diagnostic.range.start.line as usize;
    let lines = line_ranges_upto(b, diag_line);
    proof {
        assert(vstd::utf8::valid_utf8(b@));
        if lines@.len() < diag_line + 1 {
            lemma_criterion_skip(b@, diag_line as nat, lines@.len() as nat);
        }
    }
    let mut i = lines.len();
    while i > 0
        invariant
            0 <= i <= lines@.len(),
            b@ == ctx.file_content.spec_bytes(),
            b@ == content.spec_bytes(),
            ctx.current_doc == Some(doc),
            diag_line == diagnostic.range.start.line as usize,
            vstd::utf8::valid_utf8(b@),
            forall|j: int| 0 <= j < lines@.len() ==> nth_line(b@, j as nat) == Some(
                ((#[trigger] lines@[j]).0 as int, lines@[j].1 as int),
            ),
            criterion_id_before(b@, diag_line as nat) == (if i == 0 {
                None
            } else {
                criterion_id_before(b@, (i - 1) as nat)
            }),
        decreases i,
    {
        let (s, e) = lines[i - 1];
        proof {
            assert(nth_line(b@, (i - 1) as nat) == Some((s as int, e as int)));
            lemma_nth_line(b@, (i - 1) as nat);
        }
        match line_criterion_id_exec(b, s, e) {
            Some((x, y)) => {
                let mut t = doc.doc_id.clone();
                t.append("#");
                t.append(slice_str(content, x, y));
                proof {
                    reveal_strlit("#");
                }
                return Some(t);
            },
            None => {},
        }
        i = i - 1;
    }
    None
}

// ---------------------------------------------------------------------------
// The next sequential ID
// ---------------------------------------------------------------------------

/// The sequential ID `(prefix, number)` of `c` itself, if it is named
/// `target` and has one.
pub open spec fn own_seq_id(c: Component, target: Seq<char>) -> Seq<(Seq<u8>, int)> {
    match c.id {
        Some(id) => if c.name@ == target {
            match sequential_id(encode_utf8(id@)) {
                Some((d, n)) => seq![(encode_utf8(id@).subrange(0, d), n)],
                None => Seq::empty(),
            }
        } else {
            Seq::empty()
        },
        None => Seq::empty(),
    }
}

/// The sequential IDs `(prefix, number)` of the components named `target`
/// among `c` and its descendants, in document order.
pub open spec fn comp_seq_ids(c: Component, target: Seq<char>) -> Seq<(Seq<u8>, int)>
    decreases c,
{
    own_seq_id(c, target) + list_seq_ids(c.children@, target)
}

/// The sequential IDs of the components named `target` in `cs` and their
/// descendants, in document order.
pub open spec fn list_seq_ids(cs: Seq<Component>, target: Seq<char>) -> Seq<(Seq<u8>, int)>
    decreases cs,
{
    if cs.len() == 0 {
        Seq::empty()
    } else {
        list_seq_ids(cs.drop_last(), target) + comp_seq_ids(cs.last(), target)
    }
}

/// The running state over `ids`: the prefix of the first ID, and the
/// largest number among the IDs with that prefix.
pub open spec fn seq_fold(ids: Seq<(Seq<u8>, int)>, best: Option<Seq<u8>>, max: int) -> (Option<Seq<u8>>, int)
    decreases ids.len(),
{
    if ids.len() == 0 {
        (best, max)
    } else {
        let (b0, m0) = seq_fold(ids.drop_last(), best, max);
        let (p, n) = ids.last();
        if b0 is None || b0 == Some(p) {
            (Some(p), if n > m0 {
                n
            } else {
                m0
            })
        } else {
            (b0, m0)
        }
    }
}

proof fn lemma_seq_fold_concat(a: Seq<(Seq<u8>, int)>, c: Seq<(Seq<u8>, int)>, best: Option<Seq<u8>>, max: int)
    ensures
        seq_fold(a + c, best, max) == seq_fold(c, seq_fold(a, best, max).0, seq_fold(a, best, max).1),
    decreases c.len(),
{
    if c.len() == 0 {
        assert(a + c =~= a);
    } else {
        assert((a + c).drop_last() =~= a + c.drop_last());
        assert((a + c).last() == c.last());
        lemma_seq_fold_concat(a, c.drop_last(), best, max);
    }
}

proof fn lemma_seq_fold_bound(ids: Seq<(Seq<u8>, int)>, best: Option<Seq<u8>>, max: int, hi: int)
    requires
        max <= hi,
        forall|i: int| 0 <= i < ids.len() ==> (#[trigger] ids[i]).1 <= hi,
    ensures
        seq_fold(ids, best, max).1 <= hi,
        max <= seq_fold(ids, best, max).1,
    decreases ids.len(),
{
    if ids.len() > 0 {
        lemma_seq_fold_bound(ids.drop_last(), best, max, hi);
    }
}

/// The prefix of the sequential IDs: an optional string's bytes.
pub open spec fn prefix_bytes(p: Option<String>) -> Option<Seq<u8>> {
    match p {
        Some(s) => Some(encode_utf8(s@)),
        None => None,
    }
}

/// Walk the component tree, updating the first prefix and the largest
/// number of the sequential IDs of the components named `target_name`.
pub fn collect_ids_recursive(
    components: &[Component],
    target_name: &str,
    best_prefix: &mut Option<String>,
    max_num: &mut usize,
)
    ensures
        (prefix_bytes(*final(best_prefix)), *final(max_num) as int) == seq_fold(
            list_seq_ids(components@, target_name@),
            prefix_bytes(*old(best_prefix)),
            *old(max_num) as int,
        ),
    decreases components@,
{
    let ghost start = (prefix_bytes(*best_prefix), *max_num as int);
    let mut i: usize = 0;
    while i < components.len()
        invariant
            0 <= i <= components@.len(),
            start == (prefix_bytes(*old(best_prefix)), *old(max_num) as int),
            (prefix_bytes(*best_prefix), *max_num as int) == seq_fold(
                list_seq_ids(components@.take(i as int), target_name@),
                start.0,
                start.1,
            ),
        decreases components@.len() - i,
    {
        let comp = &components[i];
        proof {
            assert(components@.take(i + 1).drop_last() =~= components@.take(i as int));
            assert(components@.take(i + 1).last() == components@[i as int]);
        }
        let ghost own = own_seq_id(*comp, target_name@);
        let ghost before = (prefix_bytes(*best_prefix), *max_num as int);
        if same_str(comp.name.as_str(), target_name) {
            match &comp.id {
                Some(id) => {
                    match parse_sequential_id(id.as_str()) {
                        Some((prefix, n)) => {
                            let take = match &*best_prefix {
                                None => true,
                                Some(bp) => same_str(bp.as_str(), prefix.as_str()),
                            };
                            proof {
                                if *best_prefix is Some {
                                    let bp = (*best_prefix).unwrap();
                                    if encode_utf8(bp@) == encode_utf8(prefix@) {
                                        assert(decode_utf8(encode_utf8(bp@)) == bp@);
                                        assert(decode_utf8(encode_utf8(prefix@)) == prefix@);
                                    }
                                }
                            }
                            proof {
                                assert(own.drop_last() =~= Seq::<(Seq<u8>, int)>::empty());
                                assert(seq_fold(own.drop_last(), before.0, before.1) == before);
                                assert(own.last().0 == encode_utf8(prefix@));
                                assert(own.last().1 == n);
                                assert(take == (before.0 is None || before.0 == Some(encode_utf8(prefix@))));
                            }
                            if take {
                                *best_prefix = Some(prefix);
                                if n > *max_num {
                                    *max_num = n;
                                }
                            }
                        },
                        None => {},
                    }
                },
                None => {},
            }
        }
        proof {
            assert((prefix_bytes(*best_prefix), *max_num as int) == seq_fold(own, before.0, before.1));
        }
        collect_ids_recursive(comp.children.as_slice(), target_name, best_prefix, max_num);
        proof {
            let head = list_seq_ids(components@.take(i as int), target_name@);
            let kids = list_seq_ids(comp.children@, target_name@);
            assert(comp_seq_ids(components@[i as int], target_name@) == own + kids);
            assert(list_seq_ids(components@.take(i + 1), target_name@) == head + (own + kids));
            lemma_seq_fold_concat(head, own + kids, start.0, start.1);
            lemma_seq_fold_concat(own, kids, before.0, before.1);
        }
        i = i + 1;
    }
    proof {
        assert(components@.take(components@.len() as int) =~= components@);
    }
}

/// The state of the sequential-ID walk over the current document for
/// components named `component`.
pub open spec fn doc_seq_state(ctx: &ActionRequestContext, component: Seq<char>) -> (Option<Seq<u8>>, int) {
    match ctx.current_doc {
        Some(doc) => seq_fold(list_seq_ids(doc.components@, component), None, 0),
        None => (None, 0),
    }
}

/// Whether the largest number among the sequential IDs of `component` in
/// the current document leaves room for one more: the condition that
/// `next_sequential_id` requires.
pub fn sequential_id_room(component: &str, ctx: &ActionRequestContext) -> (r: bool)
    ensures
        r == (doc_seq_state(ctx, component@).1 < usize::MAX),
{
    match ctx.current_doc {
        Some(doc) => {
            let mut best_prefix: Option<String> = None;
            let mut max_num: usize = 0;
            collect_ids_recursive(doc.components.as_slice(), component, &mut best_prefix, &mut max_num);
            max_num < usize::MAX
        },
        None => true,
    }
}

/// The next sequential ID for `component`: the prefix of the first of its
/// sequential IDs in the current document, a dash, and one more than the
/// largest number with that prefix.
pub fn next_sequential_id(component: &str, ctx: &ActionRequestContext) -> (r: Option<String>)
    requires
        doc_seq_state(ctx, component@).1 < usize::MAX,
    ensures
        match doc_seq_state(ctx, component@) {
            (None, _) => r is None,
            (Some(p), m) => r matches Some(s) && s@ == decode_utf8(p) + seq!['-'] + decimal((m + 1) as nat),
        },
{
    let doc = match ctx.current_doc {
        Some(d) => d,
        None => {
            return None;
        },
    };
    let mut best_prefix: Option<String> = None;
    let mut max_num: usize = 0;
    collect_ids_recursive(doc.components.as_slice(), component, &mut best_prefix, &mut max_num);
    match best_prefix {
        None => None,
        Some(prefix) => {
            let mut s = prefix;
            s.append("-");
            proof {
                reveal_strlit("-");
            }
            push_decimal(&mut s, (max_num + 1) as u128);
            Some(s)
        },
    }
}

// ---------------------------------------------------------------------------
// The default value and the quick fix
// ---------------------------------------------------------------------------

/// The default value of `attribute` on `component`: `draft` for a Task's
/// status, `tag` for a VerifiedBy's strategy, the derived tag for a
/// VerifiedBy's tag, the next sequential ID for an id, else empty.
pub open spec fn default_value(
    attribute: Seq<char>,
    component: Seq<char>,
    diagnostic: &Diagnostic,
    ctx: &ActionRequestContext,
) -> Seq<char> {
    if attribute == "status"@ && component == TASK@ {
        "draft"@
    } else if attribute == "strategy"@ && component == VERIFIED_BY@ {
        "tag"@
    } else if attribute == "tag"@ && component == VERIFIED_BY@ {
        match ctx.current_doc {
            None => Seq::empty(),
            Some(doc) => match criterion_id_before(
                ctx.file_content.spec_bytes(),
                diagnostic.range.start.line as nat,
            ) {
                None => Seq::empty(),
                Some((x, y)) => doc.doc_id@ + seq!['#'] + decode_utf8(ctx.file_content.spec_bytes().subrange(x, y)),
            },
        }
    } else if attribute == "id"@ {
        match doc_seq_state(ctx, component) {
            (None, _) => Seq::empty(),
            (Some(p), m) => decode_utf8(p) + seq!['-'] + decimal((m + 1) as nat),
        }
    } else {
        Seq::empty()
    }
}

/// Determine a context-aware default value for the given attribute.
pub fn default_for_attribute(
    attribute: &str,
    component: &str,
    diagnostic: &Diagnostic,
    ctx: &ActionRequestContext,
) -> (r: String)
    requires
        attribute@ == "id"@ ==> doc_seq_state(ctx, component@).1 < usize::MAX,
    ensures
        r@ == default_value(attribute@, component@, diagnostic, ctx),
{
    proof {
        reveal_strlit("status");
        reveal_strlit("strategy");
        reveal_strlit("tag");
        reveal_strlit("id");
        reveal_strlit("draft");
        reveal_strlit("Task");
        reveal_strlit("VerifiedBy");
    }
    if same_str(attribute, "status") && same_str(component, TASK) {
        String::from_str("draft")
    } else if same_str(attribute, "strategy") && same_str(component, VERIFIED_BY) {
        String::from_str("tag")
    } else if same_str(attribute, "tag") && same_str(component, VERIFIED_BY) {
        match default_verified_by_tag(diagnostic, ctx) {
            Some(t) => t,
            None => String::new(),
        }
    } else if same_str(attribute, "id") {
        match next_sequential_id(component, ctx) {
            Some(t) => t,
            None => String::new(),
        }
    } else {
        String::new()
    }
}

/// `a` inserts ` attribute="value"` at `pos`, titled after the attribute
/// and the component.
pub open spec fn attribute_action_is(
    a: CodeAction,
    pos: Position,
    attribute: Seq<char>,
    component: Seq<char>,
    value: Seq<char>,
) -> bool {
    &&& a.title@ == "Add missing '"@ + attribute + "' attribute to <"@ + component + ">"@
    &&& a.edits@.len() == 1
    &&& a.edits@[0].range == Range { start: pos, end: pos }
    &&& a.edits@[0].new_text@ == " "@ + attribute + "=\""@ + value + "\""@
}

impl MissingAttributeProvider {
    /// Offer to insert the missing attribute with its default value before
    /// the close of the component's opening tag; nothing when no tag close
    /// follows the diagnostic.
    pub fn actions(&self, diagnostic: &Diagnostic, data: &DiagnosticData, ctx: &ActionRequestContext) -> (r: Vec<CodeAction>)
        requires
            ctx.file_content.spec_bytes().len() <= u32::MAX,
            data.context matches ActionContext::MissingAttribute { component, attribute } ==> (attribute@
                == "id"@ ==> doc_seq_state(ctx, component@).1 < usize::MAX),
        ensures
            match data.context {
                ActionContext::MissingAttribute { component, attribute } => match insertion_from(
                    ctx.file_content.spec_bytes(),
                    diagnostic.range.start.line as nat,
                ) {
                    None => r@.len() == 0,
                    Some(found) => r@.len() == 1 && attribute_action_is(
                        r@[0],
                        insertion_position(ctx.file_content.spec_bytes(), found),
                        attribute@,
                        component@,
                        default_value(attribute@, component@, diagnostic, ctx),
                    ),
                },
                _ => r@.len() == 0,
            },
    {
        let mut out: Vec<CodeAction> = Vec::new();
        let (component, attribute) = match &data.context {
            ActionContext::MissingAttribute { component, attribute } => (component, attribute),
            _ => {
                return out;
            },
        };
        let insert_pos = match find_insertion_point(ctx.file_content, &diagnostic.range) {
            Some(p) => p,
            None => {
                return out;
            },
        };
        let default_value = default_for_attribute(attribute.as_str(), component.as_str(), diagnostic, ctx);
        let mut new_text = String::from_str(" ");
        new_text.append(attribute.as_str());
        new_text.append("=\"");
        new_text.append(default_value.as_str());
        new_text.append("\"");
        let mut title = String::from_str("Add missing '");
        title.append(attribute.as_str());
        title.append("' attribute to <");
        title.append(component.as_str());
        title.append(">");
        let mut edits: Vec<TextEdit> = Vec::new();
        edits.push(TextEdit { range: zero_range(insert_pos), new_text });
        out.push(CodeAction { title, edits });
        out
    }
}

impl CodeActionProvider for MissingAttributeProvider {
    open spec fn accepts(&self, diagnostic: &Diagnostic, data: &DiagnosticData, ctx: &ActionRequestContext) -> bool {
        ctx.file_content.spec_bytes().len() <= u32::MAX && (data.context matches ActionContext::MissingAttribute { component, attribute } ==> (attribute@
            == "id"@ ==> doc_seq_state(ctx, component@).1 < usize::MAX))
    }

    fn handles(&self, data: &DiagnosticData) -> (r: bool) {
        MissingAttributeProvider::handles(self, data)
    }

    fn actions(&self, diagnostic: &Diagnostic, data: &DiagnosticData, ctx: &ActionRequestContext) -> (r: Vec<CodeAction>) {
        MissingAttributeProvider::actions(self, diagnostic, data, ctx)
    }
}

} // verus!
