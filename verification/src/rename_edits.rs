//! The text edits of a rename within one file: the definition site of a
//! component or document ID, and the refs that point at it.

use vstd::prelude::*;
use vstd::string::StringSliceAdditionalSpecFns;
use vstd::utf8::{decode_utf8, encode_utf8, valid_utf8};
use vstd::string::StringExecFns;
use crate::definition::{ref_attr_needle, ref_attr_spec, REF_ATTR_COUNT};
use crate::fence::{fence_mask, in_supersigil_fence, run_len, run_len_exec};
use crate::frontmatter::{frontmatter_block, frontmatter_block_exec, lemma_line_index_bound};
use crate::rename::{fm_id_value, fm_id_value_exec};
use crate::position::{
    byte_range_to_lsp, lemma_utf16_before_bound, lemma_utf8_len_encode, utf16_before, Position,
    Range, TextEdit,
};
use crate::tokens::{space_id_attr, space_id_attr_spec, supersigil_ref, supersigil_ref_spec};
use crate::text::{
    bytes_with, find_exec, find_from, lemma_find_from_bounds, lemma_line_start_bounds, lemma_next_nl_bounds, lemma_nth_line, line_at_exec, line_start,
    matches_at, matches_at_exec, next_line_start, nth_line, skip_ws, skip_ws_back,
    skip_ws_back_exec, skip_ws_exec, slice_str,
};

verus! {

broadcast use vstd::utf8::encode_utf8_valid_utf8, vstd::utf8::encode_utf8_decode_utf8;

/// An edit as the specification sees it: a line and the byte offsets of
/// the replaced text within the line.
pub struct EditAt {
    pub line: nat,
    pub start: int,
    pub end: int,
}

/// The characters of line `line`.
pub open spec fn line_text(b: Seq<u8>, line: nat) -> Seq<char> {
    match nth_line(b, line) {
        Some((s, e)) => decode_utf8(b.subrange(s, e)),
        None => Seq::empty(),
    }
}

/// `t` replaces the bytes of `e` with `new_text`, its columns counted in
/// UTF-16 code units.
pub open spec fn edit_is(t: TextEdit, e: EditAt, b: Seq<u8>, new_text: Seq<char>) -> bool {
    let cs = line_text(b, e.line);
    &&& t.range.start == Position {
        line: e.line as u32,
        character: utf16_before(cs, e.start as u32 as int) as u32,
    }
    &&& t.range.end == Position {
        line: e.line as u32,
        character: utf16_before(cs, e.end as u32 as int) as u32,
    }
    &&& t.new_text@ == new_text
}

/// `ts` is `old_ts` followed by the edits `es` replacing with `new_text`.
pub open spec fn edits_extend(
    ts: Seq<TextEdit>,
    old_ts: Seq<TextEdit>,
    es: Seq<EditAt>,
    b: Seq<u8>,
    new_text: Seq<char>,
) -> bool {
    &&& ts.len() == old_ts.len() + es.len()
    &&& forall|i: int| 0 <= i < old_ts.len() ==> ts[i] == old_ts[i]
    &&& forall|i: int| 0 <= i < es.len() ==> edit_is(#[trigger] ts[old_ts.len() + i], es[i], b, new_text)
}

proof fn lemma_edits_extend_push(
    ts: Seq<TextEdit>,
    old_ts: Seq<TextEdit>,
    es: Seq<EditAt>,
    t: TextEdit,
    e: EditAt,
    b: Seq<u8>,
    new_text: Seq<char>,
)
    requires
        edits_extend(ts, old_ts, es, b, new_text),
        edit_is(t, e, b, new_text),
    ensures
        edits_extend(ts.push(t), old_ts, es.push(e), b, new_text),
{
    assert forall|i: int| 0 <= i < es.len() + 1 implies edit_is(
        #[trigger] ts.push(t)[old_ts.len() + i],
        es.push(e)[i],
        b,
        new_text,
    ) by {
        if i < es.len() {
            assert(ts.push(t)[old_ts.len() + i] == ts[old_ts.len() + i]);
        }
    }
}

/// Append the edit replacing bytes `[start, end)` of line `k` (which spans
/// `[s, e)` of `content`) with `new_text`.
fn push_edit(
    content: &str,
    k: usize,
    s: usize,
    e: usize,
    start: usize,
    end: usize,
    new_text: &str,
    edits: &mut Vec<TextEdit>,
)
    requires
        nth_line(content.spec_bytes(), k as nat) == Some((s as int, e as int)),
        content.spec_bytes().len() <= u32::MAX,
    ensures
        final(edits)@.len() == old(edits)@.len() + 1,
        final(edits)@.drop_last() == old(edits)@,
        edit_is(
            final(edits)@.last(),
            EditAt { line: k as nat, start: start as int, end: end as int },
            content.spec_bytes(),
            new_text@,
        ),
{
    let ghost b = content.spec_bytes();
    proof {
        lemma_nth_line(b, k as nat);
        lemma_line_index_bound(b, k as nat);
    }
    let line_str = slice_str(content, s, e);
    proof {
        lemma_utf8_len_encode(line_str@);
        lemma_utf16_before_bound(line_str@, start as u32 as int);
        lemma_utf16_before_bound(line_str@, end as u32 as int);
    }
    let range = byte_range_to_lsp(line_str, k as u32, start, end);
    edits.push(TextEdit { range, new_text: new_text.to_owned() });
    proof {
        assert(edits@.drop_last() =~= old(edits)@);
    }
}

/// The LSP range of bytes `[start, end)` of line `line`, its columns
/// counted in UTF-16 code units.
pub open spec fn line_range(b: Seq<u8>, line: nat, start: int, end: int) -> Range {
    let cs = line_text(b, line);
    Range {
        start: Position { line: line as u32, character: utf16_before(cs, start as u32 as int) as u32 },
        end: Position { line: line as u32, character: utf16_before(cs, end as u32 as int) as u32 },
    }
}

/// The range of bytes `[start, end)` of line `k`, which spans `[s, e)` of
/// `content`.
pub fn line_range_exec(content: &str, k: usize, s: usize, e: usize, start: usize, end: usize) -> (r: Range)
    requires
        nth_line(content.spec_bytes(), k as nat) == Some((s as int, e as int)),
        content.spec_bytes().len() <= u32::MAX,
    ensures
        r == line_range(content.spec_bytes(), k as nat, start as int, end as int),
{
    let ghost b = content.spec_bytes();
    proof {
        lemma_nth_line(b, k as nat);
        lemma_line_index_bound(b, k as nat);
    }
    let line_str = slice_str(content, s, e);
    proof {
        lemma_utf8_len_encode(line_str@);
        lemma_utf16_before_bound(line_str@, start as u32 as int);
        lemma_utf16_before_bound(line_str@, end as u32 as int);
    }
    byte_range_to_lsp(line_str, k as u32, start, end)
}

// ---------------------------------------------------------------------------
// `id="old"` in supersigil-xml fences
// ---------------------------------------------------------------------------

/// ` id="old"`.
pub open spec fn id_attr_needle(old: Seq<u8>) -> Seq<u8> {
    space_id_attr_spec() + old + seq![34u8]
}

/// The edit of the first ` id="old"` on line `k` (spanning `[s, e)`) when
/// the line is inside a supersigil-xml fence.
pub open spec fn line_id_attr_edit(b: Seq<u8>, k: nat, s: int, e: int, old: Seq<u8>) -> Seq<EditAt> {
    if in_supersigil_fence(b, k) {
        match find_from(b, s, e, id_attr_needle(old)) {
            Some(p) => seq![EditAt { line: k, start: p - s + 5, end: p - s + 5 + old.len() }],
            None => Seq::empty(),
        }
    } else {
        Seq::empty()
    }
}

/// The ` id="old"` edits from line `k` on.
pub open spec fn id_attr_edits_from(b: Seq<u8>, k: nat, old: Seq<u8>) -> Seq<EditAt>
    decreases b.len() - k,
{
    if k >= b.len() {
        Seq::empty()
    } else {
        match nth_line(b, k) {
            Some((s, e)) => line_id_attr_edit(b, k, s, e, old) + id_attr_edits_from(b, k + 1, old),
            None => Seq::empty(),
        }
    }
}


proof fn lemma_edits_extend_trans(
    c: Seq<TextEdit>,
    b2: Seq<TextEdit>,
    a: Seq<TextEdit>,
    d1: Seq<EditAt>,
    d2: Seq<EditAt>,
    b: Seq<u8>,
    new_text: Seq<char>,
)
    requires
        edits_extend(b2, a, d1, b, new_text),
        edits_extend(c, b2, d2, b, new_text),
    ensures
        edits_extend(c, a, d1 + d2, b, new_text),
{
    assert forall|i: int| 0 <= i < (d1 + d2).len() implies edit_is(
        #[trigger] c[a.len() + i],
        (d1 + d2)[i],
        b,
        new_text,
    ) by {
        if i < d1.len() {
            assert(c[a.len() + i] == b2[a.len() + i]);
        } else {
            assert(c[a.len() + i] == c[b2.len() + (i - d1.len())]);
        }
    }
}

/// The ` id="old"` edit of one line.
fn id_attr_line_edit(
    content: &str,
    needle: &Vec<u8>,
    old_len: usize,
    Ghost(old_b): Ghost<Seq<u8>>,
    k: usize,
    s: usize,
    e: usize,
    in_fence: bool,
    new_name: &str,
    edits: &mut Vec<TextEdit>,
)
    requires
        nth_line(content.spec_bytes(), k as nat) == Some((s as int, e as int)),
        content.spec_bytes().len() <= u32::MAX,
        old_b.len() == old_len,
        needle@ == id_attr_needle(old_b),
        in_fence == in_supersigil_fence(content.spec_bytes(), k as nat),
    ensures
        edits_extend(
            final(edits)@,
            old(edits)@,
            line_id_attr_edit(content.spec_bytes(), k as nat, s as int, e as int, old_b),
            content.spec_bytes(),
            new_name@,
        ),
{
    let b = content.as_bytes();
    proof {
        lemma_nth_line(b@, k as nat);
    }
    if in_fence {
        proof {
            lemma_find_from_bounds(b@, s as int, e as int, needle@);
        }
        match find_exec(b, s, e, needle.as_slice()) {
            Some(p) => {
                push_edit(content, k, s, e, p - s + 5, p - s + 5 + old_len, new_name, edits);
                proof {
                    assert(edits@[old(edits)@.len() + 0int] == edits@.last());
                    assert forall|i: int| 0 <= i < old(edits)@.len() implies edits@[i] == old(edits)@[i] by {
                        assert(edits@.drop_last()[i] == edits@[i]);
                    }
                }
                return;
            },
            None => {},
        }
    }
}

/// Replace the value of ` id="old_id"` on every supersigil-xml fence line
/// with `new_name`.
pub fn collect_id_attr_edits(content: &str, old_id: &str, new_name: &str, edits: &mut Vec<TextEdit>)
    requires
        content.spec_bytes().len() <= u32::MAX,
    ensures
        edits_extend(
            final(edits)@,
            old(edits)@,
            id_attr_edits_from(content.spec_bytes(), 0, old_id.spec_bytes()),
            content.spec_bytes(),
            new_name@,
        ),
{
    let b = content.as_bytes();
    let ghost old_b = old_id.spec_bytes();
    let prefix = space_id_attr();
    let quote = [34u8];
    let old_bytes = old_id.as_bytes();
    let old_len = old_bytes.len();
    let needle = bytes_with(prefix.as_slice(), old_bytes, quote.as_slice());
    proof {
        assert(quote@ =~= seq![34u8]);
    }
    let in_fence = fence_mask(content);
    let ghost start = edits@;
    let ghost mut done: Seq<EditAt> = Seq::empty();
    if b.len() == 0 {
        return;
    }
    let mut k: usize = 0;
    let mut st: usize = 0;
    loop
        invariant
            st < b@.len() <= u32::MAX,
            k <= st,
            b@ == content.spec_bytes(),
            needle@ == id_attr_needle(old_b),
            old_b == old_id.spec_bytes(),
            old_len == old_b.len(),
            line_start(b@, k as nat) == Some(st as int),
            k < in_fence@.len(),
            forall|i: int| 0 <= i < in_fence@.len() ==> #[trigger] in_fence@[i] == in_supersigil_fence(b@, i as nat),
            line_start(b@, in_fence@.len()) is None,
            id_attr_edits_from(b@, 0, old_b) == done + id_attr_edits_from(b@, k as nat, old_b),
            start == old(edits)@,
            edits_extend(edits@, start, done, b@, new_name@),
        decreases b@.len() - k,
    {
        let (e, next) = line_at_exec(b, st);
        proof {
            lemma_next_nl_bounds(b@, st as int);
        }
        let ghost own = line_id_attr_edit(b@, k as nat, st as int, e as int, old_b);
        let ghost before = edits@;
        id_attr_line_edit(content, &needle, old_len, Ghost(old_b), k, st, e, in_fence[k], new_name, edits);
        proof {
            lemma_edits_extend_trans(edits@, before, start, done, own, b@, new_name@);
            assert(id_attr_edits_from(b@, k as nat, old_b) == own + id_attr_edits_from(b@, (k + 1) as nat, old_b));
            assert(id_attr_edits_from(b@, 0, old_b) =~= (done + own) + id_attr_edits_from(b@, (k + 1) as nat, old_b));
            done = done + own;
        }
        match next {
            Some(t) => {
                proof {
                    if (k + 1) as int >= in_fence@.len() {
                        assert(line_start(b@, (k + 1) as nat) is Some);
                    }
                }
                st = t;
                k = k + 1;
            },
            None => {
                proof {
                    assert(line_start(b@, (k + 1) as nat) is None);
                    assert(id_attr_edits_from(b@, (k + 1) as nat, old_b) =~= Seq::<EditAt>::empty());
                    assert(done =~= done + id_attr_edits_from(b@, (k + 1) as nat, old_b));
                }
                return;
            },
        }
    }
}

// ---------------------------------------------------------------------------
// `supersigil-ref=old` in fence info strings
// ---------------------------------------------------------------------------

/// The bytes `u8::is_ascii_whitespace` accepts: space, tab, line feed, form
/// feed and carriage return.
pub open spec fn is_ascii_whitespace_byte(c: u8) -> bool {
    c == 32 || c == 9 || c == 10 || c == 12 || c == 13
}

/// The edit of `supersigil-ref=old` on line `k` (spanning `[s, e)`): the
/// line must open a fence (three or more backticks or tildes after leading
/// whitespace), and the first occurrence must start the line or follow
/// ASCII whitespace, and end the line or precede `#` or ASCII whitespace.
pub open spec fn line_sref_edit(b: Seq<u8>, k: nat, s: int, e: int, old: Seq<u8>) -> Seq<EditAt> {
    let t = skip_ws(b, s, e);
    let needle = supersigil_ref_spec() + old;
    if run_len(b, t, e, 96) < 3 && run_len(b, t, e, 126) < 3 {
        Seq::empty()
    } else {
        match find_from(b, s, e, needle) {
            None => Seq::empty(),
            Some(p) => {
                let after = p + needle.len();
                if p > s && !is_ascii_whitespace_byte(b[p - 1]) {
                    Seq::empty()
                } else if after < e && b[after] != 35 && !is_ascii_whitespace_byte(b[after]) {
                    Seq::empty()
                } else {
                    seq![EditAt { line: k, start: p - s + 15, end: p - s + 15 + old.len() }]
                }
            },
        }
    }
}

/// The `supersigil-ref=old` edits from line `k` on.
pub open spec fn sref_edits_from(b: Seq<u8>, k: nat, old: Seq<u8>) -> Seq<EditAt>
    decreases b.len() - k,
{
    if k >= b.len() {
        Seq::empty()
    } else {
        match nth_line(b, k) {
            Some((s, e)) => line_sref_edit(b, k, s, e, old) + sref_edits_from(b, k + 1, old),
            None => Seq::empty(),
        }
    }
}

fn is_ascii_whitespace_byte_exec(c: u8) -> (r: bool)
    ensures
        r == is_ascii_whitespace_byte(c),
{
    c == 32 || c == 9 || c == 10 || c == 12 || c == 13
}

/// The `supersigil-ref=old` edit of one line.
fn sref_line_edit(
    content: &str,
    needle: &Vec<u8>,
    old_len: usize,
    Ghost(old_b): Ghost<Seq<u8>>,
    k: usize,
    s: usize,
    e: usize,
    new_name: &str,
    edits: &mut Vec<TextEdit>,
)
    requires
        nth_line(content.spec_bytes(), k as nat) == Some((s as int, e as int)),
        content.spec_bytes().len() <= u32::MAX,
        old_b.len() == old_len,
        needle@ == supersigil_ref_spec() + old_b,
    ensures
        edits_extend(
            final(edits)@,
            old(edits)@,
            line_sref_edit(content.spec_bytes(), k as nat, s as int, e as int, old_b),
            content.spec_bytes(),
            new_name@,
        ),
{
    let b = content.as_bytes();
    proof {
        lemma_nth_line(b@, k as nat);
    }
    let t = skip_ws_exec(b, s, e);
    if run_len_exec(b, t, e, 96) < 3 && run_len_exec(b, t, e, 126) < 3 {
        return;
    }
    proof {
        lemma_find_from_bounds(b@, s as int, e as int, needle@);
    }
    let p = match find_exec(b, s, e, needle.as_slice()) {
        Some(p) => p,
        None => {
            return;
        },
    };
    if p > s && !is_ascii_whitespace_byte_exec(b[p - 1]) {
        return;
    }
    let after = p + needle.len();
    if after < e && b[after] != 35 && !is_ascii_whitespace_byte_exec(b[after]) {
        return;
    }
    push_edit(content, k, s, e, p - s + 15, p - s + 15 + old_len, new_name, edits);
    proof {
        assert(edits@[old(edits)@.len() + 0int] == edits@.last());
        assert forall|i: int| 0 <= i < old(edits)@.len() implies edits@[i] == old(edits)@[i] by {
            assert(edits@.drop_last()[i] == edits@[i]);
        }
    }
}

/// Replace `old_id` in every `supersigil-ref=old_id` token of a code fence
/// info string with `new_name`.
pub fn collect_supersigil_ref_edits(content: &str, old_id: &str, new_name: &str, edits: &mut Vec<TextEdit>)
    requires
        content.spec_bytes().len() <= u32::MAX,
    ensures
        edits_extend(
            final(edits)@,
            old(edits)@,
            sref_edits_from(content.spec_bytes(), 0, old_id.spec_bytes()),
            content.spec_bytes(),
            new_name@,
        ),
{
    let b = content.as_bytes();
    let ghost old_b = old_id.spec_bytes();
    let prefix = supersigil_ref();
    let old_bytes = old_id.as_bytes();
    let old_len = old_bytes.len();
    let empty: [u8; 0] = [];
    let needle = bytes_with(prefix.as_slice(), old_bytes, empty.as_slice());
    proof {
        assert(needle@ =~= supersigil_ref_spec() + old_b);
    }
    let ghost start = edits@;
    let ghost mut done: Seq<EditAt> = Seq::empty();
    if b.len() == 0 {
        return;
    }
    let mut k: usize = 0;
    let mut st: usize = 0;
    loop
        invariant
            st < b@.len() <= u32::MAX,
            k <= st,
            b@ == content.spec_bytes(),
            needle@ == supersigil_ref_spec() + old_b,
            old_b == old_id.spec_bytes(),
            old_len == old_b.len(),
            line_start(b@, k as nat) == Some(st as int),
            sref_edits_from(b@, 0, old_b) == done + sref_edits_from(b@, k as nat, old_b),
            start == old(edits)@,
            edits_extend(edits@, start, done, b@, new_name@),
        decreases b@.len() - k,
    {
        let (e, next) = line_at_exec(b, st);
        proof {
            lemma_next_nl_bounds(b@, st as int);
            lemma_line_index_bound(b@, k as nat);
        }
        let ghost own = line_sref_edit(b@, k as nat, st as int, e as int, old_b);
        let ghost before = edits@;
        sref_line_edit(content, &needle, old_len, Ghost(old_b), k, st, e, new_name, edits);
        proof {
            lemma_edits_extend_trans(edits@, before, start, done, own, b@, new_name@);
            assert(sref_edits_from(b@, k as nat, old_b) == own + sref_edits_from(b@, (k + 1) as nat, old_b));
            assert(sref_edits_from(b@, 0, old_b) =~= (done + own) + sref_edits_from(b@, (k + 1) as nat, old_b));
            done = done + own;
        }
        match next {
            Some(t) => {
                st = t;
                k = k + 1;
            },
            None => {
                proof {
                    assert(line_start(b@, (k + 1) as nat) is None);
                    assert(sref_edits_from(b@, (k + 1) as nat, old_b) =~= Seq::<EditAt>::empty());
                    assert(done =~= done + sref_edits_from(b@, (k + 1) as nat, old_b));
                }
                return;
            },
        }
    }
}

// ---------------------------------------------------------------------------
// Ref attribute values in supersigil-xml fences
// ---------------------------------------------------------------------------

/// The value `[start, end)` of the first `attr="..."` on `[s, e)` for the
/// `k`-th ref attribute, when it is closed by a quote on the line.
pub open spec fn attr_value(b: Seq<u8>, s: int, e: int, k: int) -> Option<(int, int)> {
    match find_from(b, s, e, ref_attr_spec(k)) {
        None => None,
        Some(p) => {
            let vs = p + ref_attr_spec(k).len();
            match find_from(b, vs, e, seq![34u8]) {
                None => None,
                Some(c) => Some((vs, c)),
            }
        },
    }
}

/// The ref attribute values on `[s, e)`, attribute `k` on: `refs`,
/// `implements`, `depends`, `verifies`.
pub open spec fn attr_values_from(b: Seq<u8>, s: int, e: int, k: nat) -> Seq<(int, int)>
    decreases 4 - k,
{
    if k >= 4 {
        Seq::empty()
    } else {
        (match attr_value(b, s, e, k as int) {
            Some(v) => seq![v],
            None => Seq::empty(),
        }) + attr_values_from(b, s, e, k + 1)
    }
}

pub proof fn lemma_attr_value_bounds(b: Seq<u8>, s: int, e: int, k: int)
    requires
        0 <= s <= e <= b.len(),
    ensures
        attr_value(b, s, e, k) matches Some((vs, c)) ==> s <= vs <= c && c < e && b[c] == 34,
{
    lemma_find_from_bounds(b, s, e, ref_attr_spec(k));
    if let Some(p) = find_from(b, s, e, ref_attr_spec(k)) {
        let vs = p + ref_attr_spec(k).len();
        lemma_find_from_bounds(b, vs, e, seq![34u8]);
        if let Some(c) = find_from(b, vs, e, seq![34u8]) {
            assert(b[c + 0] == seq![34u8][0]);
        }
    }
}

/// The values of the ref attributes on the line `[s, e)`, in attribute
/// order: each `attr="` found first on the line, up to the next quote.
fn ref_attr_values(b: &[u8], s: usize, e: usize) -> (r: Vec<(usize, usize)>)
    requires
        s <= e <= b@.len(),
    ensures
        r@.len() == attr_values_from(b@, s as int, e as int, 0).len(),
        forall|i: int| 0 <= i < r@.len() ==> (#[trigger] r@[i]).0 == attr_values_from(b@, s as int, e as int, 0)[i].0
            && r@[i].1 == attr_values_from(b@, s as int, e as int, 0)[i].1,
        forall|i: int| 0 <= i < r@.len() ==> s <= (#[trigger] r@[i]).0 <= r@[i].1 < e,
{
    let mut out: Vec<(usize, usize)> = Vec::new();
    let quote = [34u8];
    let ghost mut done: Seq<(int, int)> = Seq::empty();
    let mut k: usize = 0;
    while k < REF_ATTR_COUNT
        invariant
            0 <= k <= 4,
            s <= e <= b@.len(),
            quote@ == seq![34u8],
            attr_values_from(b@, s as int, e as int, 0) == done + attr_values_from(b@, s as int, e as int, k as nat),
            out@.len() == done.len(),
            forall|i: int| 0 <= i < out@.len() ==> (#[trigger] out@[i]).0 == done[i].0 && out@[i].1 == done[i].1,
            forall|i: int| 0 <= i < out@.len() ==> s <= (#[trigger] out@[i]).0 <= out@[i].1 < e,
        decreases 4 - k,
    {
        proof {
            lemma_attr_value_bounds(b@, s as int, e as int, k as int);
            lemma_find_from_bounds(b@, s as int, e as int, ref_attr_spec(k as int));
            assert(quote@ =~= seq![34u8]);
        }
        let ghost own: Seq<(int, int)> = match attr_value(b@, s as int, e as int, k as int) {
            Some(v) => seq![v],
            None => Seq::empty(),
        };
        let needle = ref_attr_needle(k);
        match find_exec(b, s, e, needle.as_slice()) {
            Some(p) => {
                let vs = p + needle.len();
                proof {
                    lemma_find_from_bounds(b@, vs as int, e as int, seq![34u8]);
                }
                match find_exec(b, vs, e, quote.as_slice()) {
                    Some(c) => {
                        out.push((vs, c));
                    },
                    None => {},
                }
            },
            None => {},
        }
        proof {
            done = done + own;
            assert(attr_values_from(b@, s as int, e as int, k as nat) == own + attr_values_from(b@, s as int, e as int, (k + 1) as nat));
            assert(attr_values_from(b@, s as int, e as int, 0) =~= done + attr_values_from(b@, s as int, e as int, (k + 1) as nat));
        }
        k = k + 1;
    }
    proof {
        assert(attr_values_from(b@, s as int, e as int, 4) =~= Seq::<(int, int)>::empty());
        assert(done =~= attr_values_from(b@, s as int, e as int, 0));
    }
    out
}

// ---------------------------------------------------------------------------
// Whole ref strings
// ---------------------------------------------------------------------------

/// The occurrences of `n` in the value `[vs, ve)` from `j` on, each
/// searched after the previous one, that stand between separators: a
/// comma, a space, or an end of the value on each side.
pub open spec fn ref_string_matches(b: Seq<u8>, vs: int, ve: int, j: int, n: Seq<u8>) -> Seq<int>
    decreases ve - j,
{
    if n.len() == 0 || j > ve {
        Seq::empty()
    } else {
        match find_from(b, j, ve, n) {
            None => Seq::empty(),
            Some(p) => {
                proof {
                    lemma_find_from_bounds(b, j, ve, n);
                }
                let me = p + n.len();
                let bounded = (me >= ve || b[me] == 44 || b[me] == 32) && (p == vs || b[p - 1] == 44
                    || b[p - 1] == 32);
                (if bounded {
                    seq![p]
                } else {
                    Seq::empty()
                }) + ref_string_matches(b, vs, ve, me, n)
            },
        }
    }
}

/// Edits on line `k` (starting at `s`) of length `len` at the offsets `ps`.
pub open spec fn edits_at(k: nat, s: int, ps: Seq<int>, len: int) -> Seq<EditAt> {
    ps.map_values(|p: int| EditAt { line: k, start: p - s, end: p - s + len })
}

/// The ref-string edits of the values `vals` on line `k`.
pub open spec fn values_ref_edits(b: Seq<u8>, k: nat, s: int, vals: Seq<(int, int)>, n: Seq<u8>) -> Seq<
    EditAt,
>
    decreases vals.len(),
{
    if vals.len() == 0 {
        Seq::empty()
    } else {
        values_ref_edits(b, k, s, vals.drop_last(), n) + edits_at(
            k,
            s,
            ref_string_matches(b, vals.last().0, vals.last().1, vals.last().0, n),
            n.len() as int,
        )
    }
}

/// The ref-string edits of line `k` (spanning `[s, e)`).
pub open spec fn line_ref_string_edits(b: Seq<u8>, k: nat, s: int, e: int, n: Seq<u8>) -> Seq<EditAt> {
    if in_supersigil_fence(b, k) {
        values_ref_edits(b, k, s, attr_values_from(b, s, e, 0), n)
    } else {
        Seq::empty()
    }
}

/// The ref-string edits from line `k` on.
pub open spec fn ref_string_edits_from(b: Seq<u8>, k: nat, n: Seq<u8>) -> Seq<EditAt>
    decreases b.len() - k,
{
    if k >= b.len() {
        Seq::empty()
    } else {
        match nth_line(b, k) {
            Some((s, e)) => line_ref_string_edits(b, k, s, e, n) + ref_string_edits_from(b, k + 1, n),
            None => Seq::empty(),
        }
    }
}

/// The ref-string edits of one value.
fn value_ref_string_edits(
    content: &str,
    n: &[u8],
    k: usize,
    s: usize,
    e: usize,
    vs: usize,
    ve: usize,
    new_ref: &str,
    edits: &mut Vec<TextEdit>,
)
    requires
        nth_line(content.spec_bytes(), k as nat) == Some((s as int, e as int)),
        content.spec_bytes().len() <= u32::MAX,
        s <= vs <= ve <= e,
        n@.len() > 0,
    ensures
        edits_extend(
            final(edits)@,
            old(edits)@,
            edits_at(k as nat, s as int, ref_string_matches(content.spec_bytes(), vs as int, ve as int, vs as int, n@), n@.len() as int),
            content.spec_bytes(),
            new_ref@,
        ),
{
    let b = content.as_bytes();
    proof {
        lemma_nth_line(b@, k as nat);
    }
    let ghost mut done: Seq<int> = Seq::empty();
    let mut j = vs;
    loop
        invariant
            vs <= j <= ve <= e <= b@.len() <= u32::MAX,
            b@ == content.spec_bytes(),
            nth_line(b@, k as nat) == Some((s as int, e as int)),
            s <= vs,
            n@.len() > 0,
            ref_string_matches(b@, vs as int, ve as int, vs as int, n@) == done + ref_string_matches(b@, vs as int, ve as int, j as int, n@),
            edits_extend(edits@, old(edits)@, edits_at(k as nat, s as int, done, n@.len() as int), b@, new_ref@),
        decreases ve - j,
    {
        proof {
            lemma_find_from_bounds(b@, j as int, ve as int, n@);
        }
        let p = match find_exec(b, j, ve, n) {
            Some(p) => p,
            None => {
                proof {
                    assert(done + ref_string_matches(b@, vs as int, ve as int, j as int, n@) =~= done);
                }
                return;
            },
        };
        let me = p + n.len();
        let bounded = (me >= ve || b[me] == 44 || b[me] == 32) && (p == vs || b[p - 1] == 44 || b[p - 1] == 32);
        let ghost own: Seq<int> = if bounded { seq![p as int] } else { Seq::empty() };
        if bounded {
            let ghost before = edits@;
            push_edit(content, k, s, e, p - s, p - s + n.len(), new_ref, edits);
            proof {
                let t = edits@.last();
                assert(edits@ == before.push(t));
                let es = edits_at(k as nat, s as int, done, n@.len() as int);
                lemma_edits_extend_push(before, old(edits)@, es, t, EditAt { line: k as nat, start: p - s, end: p - s + n@.len() }, b@, new_ref@);
                assert(es.push(EditAt { line: k as nat, start: p - s, end: p - s + n@.len() }) =~= edits_at(k as nat, s as int, done + own, n@.len() as int));
            }
        } else {
            proof {
                assert(done + own =~= done);
            }
        }
        proof {
            assert(ref_string_matches(b@, vs as int, ve as int, j as int, n@) == own + ref_string_matches(b@, vs as int, ve as int, me as int, n@));
            assert(ref_string_matches(b@, vs as int, ve as int, vs as int, n@) =~= (done + own) + ref_string_matches(b@, vs as int, ve as int, me as int, n@));
            done = done + own;
        }
        j = me;
    }
}

/// The ref-string edits of one line.
fn ref_string_line_edits(
    content: &str,
    n: &[u8],
    k: usize,
    s: usize,
    e: usize,
    in_fence: bool,
    new_ref: &str,
    edits: &mut Vec<TextEdit>,
)
    requires
        nth_line(content.spec_bytes(), k as nat) == Some((s as int, e as int)),
        content.spec_bytes().len() <= u32::MAX,
        in_fence == in_supersigil_fence(content.spec_bytes(), k as nat),
        n@.len() > 0,
    ensures
        edits_extend(
            final(edits)@,
            old(edits)@,
            line_ref_string_edits(content.spec_bytes(), k as nat, s as int, e as int, n@),
            content.spec_bytes(),
            new_ref@,
        ),
{
    let b = content.as_bytes();
    proof {
        lemma_nth_line(b@, k as nat);
    }
    if !in_fence {
        return;
    }
    let vals = ref_attr_values(b, s, e);
    let ghost spec_vals = attr_values_from(b@, s as int, e as int, 0);
    let mut i: usize = 0;
    while i < vals.len()
        invariant
            0 <= i <= vals@.len(),
            vals@.len() == spec_vals.len(),
            forall|x: int| 0 <= x < vals@.len() ==> (#[trigger] vals@[x]).0 == spec_vals[x].0 && vals@[x].1 == spec_vals[x].1,
            forall|x: int| 0 <= x < vals@.len() ==> s <= (#[trigger] vals@[x]).0 <= vals@[x].1 < e,
            b@ == content.spec_bytes(),
            nth_line(b@, k as nat) == Some((s as int, e as int)),
            b@.len() <= u32::MAX,
            n@.len() > 0,
            edits_extend(edits@, old(edits)@, values_ref_edits(b@, k as nat, s as int, spec_vals.take(i as int), n@), b@, new_ref@),
        decreases vals@.len() - i,
    {
        let (vs, ve) = vals[i];
        let ghost before = edits@;
        value_ref_string_edits(content, n, k, s, e, vs, ve, new_ref, edits);
        proof {
            let prev = values_ref_edits(b@, k as nat, s as int, spec_vals.take(i as int), n@);
            let own = edits_at(k as nat, s as int, ref_string_matches(b@, vs as int, ve as int, vs as int, n@), n@.len() as int);
            lemma_edits_extend_trans(edits@, before, old(edits)@, prev, own, b@, new_ref@);
            assert(spec_vals.take(i + 1).drop_last() =~= spec_vals.take(i as int));
            assert(spec_vals.take(i + 1).last() == spec_vals[i as int]);
        }
        i = i + 1;
    }
    proof {
        assert(spec_vals.take(vals@.len() as int) =~= spec_vals);
    }
}

/// Replace every whole occurrence of `old_ref` (such as `doc#frag`) in the
/// ref attributes of supersigil-xml fence lines with `new_ref`.
pub fn collect_ref_string_edits(content: &str, old_ref: &str, new_ref: &str, edits: &mut Vec<TextEdit>)
    requires
        content.spec_bytes().len() <= u32::MAX,
        old_ref@.len() > 0,
    ensures
        edits_extend(
            final(edits)@,
            old(edits)@,
            ref_string_edits_from(content.spec_bytes(), 0, old_ref.spec_bytes()),
            content.spec_bytes(),
            new_ref@,
        ),
{
    let b = content.as_bytes();
    let n = old_ref.as_bytes();
    proof {
        if n@.len() == 0 {
            assert(vstd::utf8::decode_utf8(n@) =~= Seq::<char>::empty());
        }
    }
    let in_fence = fence_mask(content);
    let ghost start = edits@;
    let ghost mut done: Seq<EditAt> = Seq::empty();
    if b.len() == 0 {
        return;
    }
    let mut k: usize = 0;
    let mut st: usize = 0;
    loop
        invariant
            st < b@.len() <= u32::MAX,
            k <= st,
            b@ == content.spec_bytes(),
            n@ == old_ref.spec_bytes(),
            n@.len() > 0,
            line_start(b@, k as nat) == Some(st as int),
            k < in_fence@.len(),
            forall|i: int| 0 <= i < in_fence@.len() ==> #[trigger] in_fence@[i] == in_supersigil_fence(b@, i as nat),
            line_start(b@, in_fence@.len()) is None,
            ref_string_edits_from(b@, 0, n@) == done + ref_string_edits_from(b@, k as nat, n@),
            start == old(edits)@,
            edits_extend(edits@, start, done, b@, new_ref@),
        decreases b@.len() - k,
    {
        let (e, next) = line_at_exec(b, st);
        proof {
            lemma_next_nl_bounds(b@, st as int);
        }
        let ghost own = line_ref_string_edits(b@, k as nat, st as int, e as int, n@);
        let ghost before = edits@;
        ref_string_line_edits(content, n, k, st, e, in_fence[k], new_ref, edits);
        proof {
            lemma_edits_extend_trans(edits@, before, start, done, own, b@, new_ref@);
            assert(ref_string_edits_from(b@, k as nat, n@) == own + ref_string_edits_from(b@, (k + 1) as nat, n@));
            assert(ref_string_edits_from(b@, 0, n@) =~= (done + own) + ref_string_edits_from(b@, (k + 1) as nat, n@));
            done = done + own;
        }
        match next {
            Some(t) => {
                proof {
                    if (k + 1) as int >= in_fence@.len() {
                        assert(line_start(b@, (k + 1) as nat) is Some);
                    }
                }
                st = t;
                k = k + 1;
            },
            None => {
                proof {
                    assert(line_start(b@, (k + 1) as nat) is None);
                    assert(ref_string_edits_from(b@, (k + 1) as nat, n@) =~= Seq::<EditAt>::empty());
                    assert(done =~= done + ref_string_edits_from(b@, (k + 1) as nat, n@));
                }
                return;
            },
        }
    }
}

// ---------------------------------------------------------------------------
// The document ID part of refs
// ---------------------------------------------------------------------------

/// The starts of the comma-separated parts of the value `[ps, ve)` (from
/// part start `ps` on) that, trimmed, are `old` or start with `old#`: the
/// offset of the part's first non-whitespace byte.
pub open spec fn doc_ref_parts(b: Seq<u8>, ps: int, ve: int, old: Seq<u8>) -> Seq<int>
    decreases ve - ps,
{
    let c = find_from(b, ps, ve, seq![44u8]);
    let pe = match c {
        Some(c) => c,
        None => ve,
    };
    let t = skip_ws(b, ps, pe);
    let q = skip_ws_back(b, t, pe);
    let hit = (q - t == old.len() && matches_at(b, t, old)) || (q - t >= old.len() + 1
        && matches_at(b, t, old.push(35u8)));
    (if hit {
        seq![t]
    } else {
        Seq::empty()
    }) + match c {
        Some(c) => {
            proof {
                lemma_find_from_bounds(b, ps, ve, seq![44u8]);
            }
            if c + 1 > ps {
                doc_ref_parts(b, c + 1, ve, old)
            } else {
                Seq::empty()
            }
        },
        None => Seq::empty(),
    }
}

/// The document-ID edits of the values `vals` on line `k`.
pub open spec fn values_doc_edits(b: Seq<u8>, k: nat, s: int, vals: Seq<(int, int)>, old: Seq<u8>) -> Seq<
    EditAt,
>
    decreases vals.len(),
{
    if vals.len() == 0 {
        Seq::empty()
    } else {
        values_doc_edits(b, k, s, vals.drop_last(), old) + edits_at(
            k,
            s,
            doc_ref_parts(b, vals.last().0, vals.last().1, old),
            old.len() as int,
        )
    }
}

/// The document-ID edits of line `k` (spanning `[s, e)`).
pub open spec fn line_doc_edits(b: Seq<u8>, k: nat, s: int, e: int, old: Seq<u8>) -> Seq<EditAt> {
    if in_supersigil_fence(b, k) {
        values_doc_edits(b, k, s, attr_values_from(b, s, e, 0), old)
    } else {
        Seq::empty()
    }
}

/// The document-ID edits from line `k` on.
pub open spec fn doc_edits_from(b: Seq<u8>, k: nat, old: Seq<u8>) -> Seq<EditAt>
    decreases b.len() - k,
{
    if k >= b.len() {
        Seq::empty()
    } else {
        match nth_line(b, k) {
            Some((s, e)) => line_doc_edits(b, k, s, e, old) + doc_edits_from(b, k + 1, old),
            None => Seq::empty(),
        }
    }
}

/// The document-ID edits of one value.
fn value_doc_edits(
    content: &str,
    old_id: &[u8],
    old_hash: &[u8],
    k: usize,
    s: usize,
    e: usize,
    vs: usize,
    ve: usize,
    new_name: &str,
    edits: &mut Vec<TextEdit>,
)
    requires
        nth_line(content.spec_bytes(), k as nat) == Some((s as int, e as int)),
        content.spec_bytes().len() <= u32::MAX,
        s <= vs <= ve <= e,
        old_hash@ == old_id@.push(35u8),
    ensures
        edits_extend(
            final(edits)@,
            old(edits)@,
            edits_at(k as nat, s as int, doc_ref_parts(content.spec_bytes(), vs as int, ve as int, old_id@), old_id@.len() as int),
            content.spec_bytes(),
            new_name@,
        ),
{
    let b = content.as_bytes();
    let comma = [44u8];
    proof {
        lemma_nth_line(b@, k as nat);
        assert(comma@ =~= seq![44u8]);
    }
    let ghost mut done: Seq<int> = Seq::empty();
    let mut ps = vs;
    loop
        invariant
            vs <= ps <= ve <= e <= b@.len() <= u32::MAX,
            b@ == content.spec_bytes(),
            comma@ == seq![44u8],
            old_hash@ == old_id@.push(35u8),
            nth_line(b@, k as nat) == Some((s as int, e as int)),
            s <= vs,
            doc_ref_parts(b@, vs as int, ve as int, old_id@) == done + doc_ref_parts(b@, ps as int, ve as int, old_id@),
            edits_extend(edits@, old(edits)@, edits_at(k as nat, s as int, done, old_id@.len() as int), b@, new_name@),
        decreases ve - ps,
    {
        proof {
            lemma_find_from_bounds(b@, ps as int, ve as int, seq![44u8]);
        }
        let c = find_exec(b, ps, ve, comma.as_slice());
        let pe = match c {
            Some(c) => c,
            None => ve,
        };
        let t = skip_ws_exec(b, ps, pe);
        let q = skip_ws_back_exec(b, t, pe);
        let hit = (q - t == old_id.len() && matches_at_exec(b, t, old_id)) || (q - t > old_id.len()
            && matches_at_exec(b, t, old_hash));
        let ghost own: Seq<int> = if hit { seq![t as int] } else { Seq::empty() };
        if hit {
            let ghost before = edits@;
            push_edit(content, k, s, e, t - s, t - s + old_id.len(), new_name, edits);
            proof {
                let x = edits@.last();
                assert(edits@ == before.push(x));
                let es = edits_at(k as nat, s as int, done, old_id@.len() as int);
                lemma_edits_extend_push(before, old(edits)@, es, x, EditAt { line: k as nat, start: t - s, end: t - s + old_id@.len() }, b@, new_name@);
                assert(es.push(EditAt { line: k as nat, start: t - s, end: t - s + old_id@.len() }) =~= edits_at(k as nat, s as int, done + own, old_id@.len() as int));
            }
        } else {
            proof {
                assert(done + own =~= done);
            }
        }
        proof {
            done = done + own;
        }
        match c {
            Some(c) => {
                proof {
                    assert(doc_ref_parts(b@, vs as int, ve as int, old_id@) =~= done + doc_ref_parts(b@, c + 1, ve as int, old_id@));
                }
                ps = c + 1;
            },
            None => {
                proof {
                    assert(doc_ref_parts(b@, vs as int, ve as int, old_id@) =~= done);
                }
                return;
            },
        }
    }
}

/// The document-ID edits of one line.
fn doc_id_line_edits(
    content: &str,
    old_id: &[u8],
    old_hash: &[u8],
    k: usize,
    s: usize,
    e: usize,
    in_fence: bool,
    new_name: &str,
    edits: &mut Vec<TextEdit>,
)
    requires
        nth_line(content.spec_bytes(), k as nat) == Some((s as int, e as int)),
        content.spec_bytes().len() <= u32::MAX,
        in_fence == in_supersigil_fence(content.spec_bytes(), k as nat),
        old_hash@ == old_id@.push(35u8),
    ensures
        edits_extend(
            final(edits)@,
            old(edits)@,
            line_doc_edits(content.spec_bytes(), k as nat, s as int, e as int, old_id@),
            content.spec_bytes(),
            new_name@,
        ),
{
    let b = content.as_bytes();
    proof {
        lemma_nth_line(b@, k as nat);
    }
    if !in_fence {
        return;
    }
    let vals = ref_attr_values(b, s, e);
    let ghost spec_vals = attr_values_from(b@, s as int, e as int, 0);
    let mut i: usize = 0;
    while i < vals.len()
        invariant
            0 <= i <= vals@.len(),
            vals@.len() == spec_vals.len(),
            forall|x: int| 0 <= x < vals@.len() ==> (#[trigger] vals@[x]).0 == spec_vals[x].0 && vals@[x].1 == spec_vals[x].1,
            forall|x: int| 0 <= x < vals@.len() ==> s <= (#[trigger] vals@[x]).0 <= vals@[x].1 < e,
            b@ == content.spec_bytes(),
            nth_line(b@, k as nat) == Some((s as int, e as int)),
            b@.len() <= u32::MAX,
            old_hash@ == old_id@.push(35u8),
            edits_extend(edits@, old(edits)@, values_doc_edits(b@, k as nat, s as int, spec_vals.take(i as int), old_id@), b@, new_name@),
        decreases vals@.len() - i,
    {
        let (vs, ve) = vals[i];
        let ghost before = edits@;
        value_doc_edits(content, old_id, old_hash, k, s, e, vs, ve, new_name, edits);
        proof {
            let prev = values_doc_edits(b@, k as nat, s as int, spec_vals.take(i as int), old_id@);
            let own = edits_at(k as nat, s as int, doc_ref_parts(b@, vs as int, ve as int, old_id@), old_id@.len() as int);
            lemma_edits_extend_trans(edits@, before, old(edits)@, prev, own, b@, new_name@);
            assert(spec_vals.take(i + 1).drop_last() =~= spec_vals.take(i as int));
            assert(spec_vals.take(i + 1).last() == spec_vals[i as int]);
        }
        i = i + 1;
    }
    proof {
        assert(spec_vals.take(vals@.len() as int) =~= spec_vals);
    }
}

/// Replace the document-ID part of every ref in the ref attributes of
/// supersigil-xml fence lines that is `old_doc_id` or starts with
/// `old_doc_id#` with `new_name`.
pub fn collect_doc_id_ref_edits(content: &str, old_doc_id: &str, new_name: &str, edits: &mut Vec<TextEdit>)
    requires
        content.spec_bytes().len() <= u32::MAX,
    ensures
        edits_extend(
            final(edits)@,
            old(edits)@,
            doc_edits_from(content.spec_bytes(), 0, old_doc_id.spec_bytes()),
            content.spec_bytes(),
            new_name@,
        ),
{
    let b = content.as_bytes();
    let old_id = old_doc_id.as_bytes();
    let hash = [35u8];
    let empty: [u8; 0] = [];
    let old_hash = bytes_with(old_id, hash.as_slice(), empty.as_slice());
    proof {
        assert(old_hash@ =~= old_id@.push(35u8));
    }
    let in_fence = fence_mask(content);
    let ghost start = edits@;
    let ghost mut done: Seq<EditAt> = Seq::empty();
    if b.len() == 0 {
        return;
    }
    let mut k: usize = 0;
    let mut st: usize = 0;
    loop
        invariant
            st < b@.len() <= u32::MAX,
            k <= st,
            b@ == content.spec_bytes(),
            old_id@ == old_doc_id.spec_bytes(),
            old_hash@ == old_id@.push(35u8),
            line_start(b@, k as nat) == Some(st as int),
            k < in_fence@.len(),
            forall|i: int| 0 <= i < in_fence@.len() ==> #[trigger] in_fence@[i] == in_supersigil_fence(b@, i as nat),
            line_start(b@, in_fence@.len()) is None,
            doc_edits_from(b@, 0, old_id@) == done + doc_edits_from(b@, k as nat, old_id@),
            start == old(edits)@,
            edits_extend(edits@, start, done, b@, new_name@),
        decreases b@.len() - k,
    {
        let (e, next) = line_at_exec(b, st);
        proof {
            lemma_next_nl_bounds(b@, st as int);
        }
        let ghost own = line_doc_edits(b@, k as nat, st as int, e as int, old_id@);
        let ghost before = edits@;
        doc_id_line_edits(content, old_id, old_hash.as_slice(), k, st, e, in_fence[k], new_name, edits);
        proof {
            lemma_edits_extend_trans(edits@, before, start, done, own, b@, new_name@);
            assert(doc_edits_from(b@, k as nat, old_id@) == own + doc_edits_from(b@, (k + 1) as nat, old_id@));
            assert(doc_edits_from(b@, 0, old_id@) =~= (done + own) + doc_edits_from(b@, (k + 1) as nat, old_id@));
            done = done + own;
        }
        match next {
            Some(t) => {
                proof {
                    if (k + 1) as int >= in_fence@.len() {
                        assert(line_start(b@, (k + 1) as nat) is Some);
                    }
                }
                st = t;
                k = k + 1;
            },
            None => {
                proof {
                    assert(line_start(b@, (k + 1) as nat) is None);
                    assert(doc_edits_from(b@, (k + 1) as nat, old_id@) =~= Seq::<EditAt>::empty());
                    assert(done =~= done + doc_edits_from(b@, (k + 1) as nat, old_id@));
                }
                return;
            },
        }
    }
}

// ---------------------------------------------------------------------------
// The frontmatter `id:` value
// ---------------------------------------------------------------------------

/// The frontmatter block's delimiter lines: `(0, close)` when the first
/// line is `---` and a later `---` line closes it.
pub fn frontmatter_range(content: &str) -> (r: Option<(usize, usize)>)
    ensures
        r matches Some((o, c)) ==> frontmatter_block(content.spec_bytes()) == Some((o as nat, c as nat)),
        r is None ==> frontmatter_block(content.spec_bytes()) is None,
{
    frontmatter_block_exec(content)
}

/// The edit of the frontmatter `id:` value on line `k` (spanning
/// `[s, e)`) when the value is exactly `old`.
pub open spec fn line_fm_edit(b: Seq<u8>, k: nat, s: int, e: int, old: Seq<u8>) -> Seq<EditAt> {
    match fm_id_value(b, s, e) {
        Some((p, q)) => if q - p == old.len() && matches_at(b, p, old) {
            seq![EditAt { line: k, start: p - s, end: q - s }]
        } else {
            Seq::empty()
        },
        None => Seq::empty(),
    }
}

/// The frontmatter `id:` edits of lines `k` up to `close`.
pub open spec fn fm_edits_from(b: Seq<u8>, k: nat, close: nat, old: Seq<u8>) -> Seq<EditAt>
    decreases b.len() - k,
{
    if k >= b.len() || k >= close {
        Seq::empty()
    } else {
        match nth_line(b, k) {
            Some((s, e)) => line_fm_edit(b, k, s, e, old) + fm_edits_from(b, k + 1, close, old),
            None => Seq::empty(),
        }
    }
}

/// The frontmatter `id:` edits: on the lines between the delimiters.
pub open spec fn frontmatter_id_edits(b: Seq<u8>, old: Seq<u8>) -> Seq<EditAt> {
    match frontmatter_block(b) {
        Some((o, c)) => fm_edits_from(b, o + 1, c, old),
        None => Seq::empty(),
    }
}

/// Replace the frontmatter `id:` value with `new_name` where it is
/// `old_doc_id`.
pub fn collect_frontmatter_id_edits(content: &str, old_doc_id: &str, new_name: &str, edits: &mut Vec<TextEdit>)
    requires
        content.spec_bytes().len() <= u32::MAX,
    ensures
        edits_extend(
            final(edits)@,
            old(edits)@,
            frontmatter_id_edits(content.spec_bytes(), old_doc_id.spec_bytes()),
            content.spec_bytes(),
            new_name@,
        ),
{
    let b = content.as_bytes();
    let old_id = old_doc_id.as_bytes();
    let ghost start = edits@;
    let (fm_start, fm_end) = match frontmatter_range(content) {
        Some(r) => r,
        None => {
            return;
        },
    };
    let ghost mut done: Seq<EditAt> = Seq::empty();
    proof {
        lemma_line_start_bounds(b@, 0);
    }
    let mut k: usize = 0;
    let mut st: usize = 0;
    loop
        invariant
            st < b@.len() <= u32::MAX,
            k <= st,
            k <= fm_start + 1 || k <= fm_end,
            fm_start == 0,
            b@ == content.spec_bytes(),
            old_id@ == old_doc_id.spec_bytes(),
            frontmatter_block(b@) == Some((fm_start as nat, fm_end as nat)),
            line_start(b@, k as nat) == Some(st as int),
            k <= 1 ==> done.len() == 0,
            k >= 1 ==> fm_edits_from(b@, 1, fm_end as nat, old_id@) == done + fm_edits_from(b@, k as nat, fm_end as nat, old_id@),
            start == old(edits)@,
            edits_extend(edits@, start, done, b@, new_name@),
        decreases b@.len() - k,
    {
        if k >= fm_end {
            proof {
                assert(fm_edits_from(b@, k as nat, fm_end as nat, old_id@) =~= Seq::<EditAt>::empty());
                assert(done =~= done + fm_edits_from(b@, k as nat, fm_end as nat, old_id@));
            }
            return;
        }
        let (e, next) = line_at_exec(b, st);
        proof {
            lemma_next_nl_bounds(b@, st as int);
            lemma_line_index_bound(b@, k as nat);
        }
        if k > fm_start {
            let ghost own = line_fm_edit(b@, k as nat, st as int, e as int, old_id@);
            match fm_id_value_exec(b, st, e) {
                Some((p, q)) => {
                    if q - p == old_id.len() && matches_at_exec(b, p, old_id) {
                        let ghost before = edits@;
                        push_edit(content, k, st, e, p - st, q - st, new_name, edits);
                        proof {
                            let x = edits@.last();
                            assert(edits@ == before.push(x));
                            lemma_edits_extend_push(before, start, done, x, own[0], b@, new_name@);
                            assert(done.push(own[0]) =~= done + own);
                        }
                    } else {
                        proof {
                            assert(done + own =~= done);
                        }
                    }
                },
                None => {
                    proof {
                        assert(done + own =~= done);
                    }
                },
            }
            proof {
                assert(fm_edits_from(b@, k as nat, fm_end as nat, old_id@) == own + fm_edits_from(b@, (k + 1) as nat, fm_end as nat, old_id@));
                assert(fm_edits_from(b@, 1, fm_end as nat, old_id@) =~= (done + own) + fm_edits_from(b@, (k + 1) as nat, fm_end as nat, old_id@));
                done = done + own;
            }
        } else {
            proof {
                assert(fm_edits_from(b@, 1, fm_end as nat, old_id@) =~= done + fm_edits_from(b@, 1, fm_end as nat, old_id@));
            }
        }
        match next {
            Some(t) => {
                st = t;
                k = k + 1;
            },
            None => {
                proof {
                    assert(line_start(b@, (k + 1) as nat) is None);
                    assert(fm_edits_from(b@, (k + 1) as nat, fm_end as nat, old_id@) =~= Seq::<EditAt>::empty());
                    assert(done =~= done + fm_edits_from(b@, (k + 1) as nat, fm_end as nat, old_id@));
                }
                return;
            },
        }
    }
}

// ---------------------------------------------------------------------------
// The edits of a rename within one file
// ---------------------------------------------------------------------------

/// `doc#id` as bytes.
pub open spec fn fragment_ref_bytes(doc_id: Seq<char>, id: Seq<char>) -> Seq<u8> {
    encode_utf8(doc_id + seq!['#'] + id)
}

/// `doc#id`.
fn fragment_ref(doc_id: &str, id: &str) -> (r: String)
    ensures
        r@ == doc_id@ + seq!['#'] + id@,
{
    let mut s = String::from_str(doc_id);
    s.append("#");
    s.append(id);
    proof {
        reveal_strlit("#");
    }
    s
}

/// The edits within one file of renaming component `old_id` of document
/// `doc_id` to `new_name`: when the file defines the component, its
/// `id="..."` attribute and its `supersigil-ref` tokens; then, when the
/// file refers to the component, each `doc_id#old_id` ref, rewritten to
/// `doc_id#new_name`.
pub fn component_rename_file_edits(
    content: &str,
    doc_id: &str,
    old_id: &str,
    new_name: &str,
    defines: bool,
    refers: bool,
) -> (r: Vec<TextEdit>)
    requires
        content.spec_bytes().len() <= u32::MAX,
    ensures
        ({
            let b = content.spec_bytes();
            let own = if defines {
                id_attr_edits_from(b, 0, old_id.spec_bytes()) + sref_edits_from(b, 0, old_id.spec_bytes())
            } else {
                Seq::empty()
            };
            let refs = if refers {
                ref_string_edits_from(b, 0, fragment_ref_bytes(doc_id@, old_id@))
            } else {
                Seq::empty()
            };
            &&& edits_extend(r@.take(own.len() as int), Seq::empty(), own, b, new_name@)
            &&& edits_extend(r@, r@.take(own.len() as int), refs, b, doc_id@ + seq!['#'] + new_name@)
        }),
{
    let ghost b = content.spec_bytes();
    let mut edits: Vec<TextEdit> = Vec::new();
    let ghost own: Seq<EditAt> = Seq::empty();
    if defines {
        collect_id_attr_edits(content, old_id, new_name, &mut edits);
        let ghost first = edits@;
        collect_supersigil_ref_edits(content, old_id, new_name, &mut edits);
        proof {
            own = id_attr_edits_from(b, 0, old_id.spec_bytes()) + sref_edits_from(b, 0, old_id.spec_bytes());
            assert forall|i: int| 0 <= i < own.len() implies edit_is(#[trigger] edits@[0 + i], own[i], b, new_name@) by {
                if i < first.len() {
                    assert(edits@[i] == first[i]);
                } else {
                    assert(edits@[first.len() + (i - first.len())] == edits@[i]);
                }
            }
        }
    }
    let ghost mid = edits@;
    proof {
        assert(mid.take(own.len() as int) =~= mid);
    }
    if refers {
        let old_ref = fragment_ref(doc_id, old_id);
        let new_ref = fragment_ref(doc_id, new_name);
        proof {
            assert(old_ref@.len() > 0);
        }
        collect_ref_string_edits(content, old_ref.as_str(), new_ref.as_str(), &mut edits);
        proof {
            assert(edits@.take(own.len() as int) =~= mid);
        }
    } else {
        proof {
            assert(edits@.take(own.len() as int) =~= mid);
        }
    }
    edits
}

/// The edits within one file of renaming document `old_doc_id` to
/// `new_name`: when the file is that document, its frontmatter `id:`
/// value; then, when the file refers to the document, the document part
/// of each ref to it.
pub fn document_rename_file_edits(content: &str, old_doc_id: &str, new_name: &str, defines: bool, refers: bool) -> (r:
    Vec<TextEdit>)
    requires
        content.spec_bytes().len() <= u32::MAX,
    ensures
        ({
            let b = content.spec_bytes();
            let own = if defines {
                frontmatter_id_edits(b, old_doc_id.spec_bytes())
            } else {
                Seq::empty()
            };
            let refs = if refers {
                doc_edits_from(b, 0, old_doc_id.spec_bytes())
            } else {
                Seq::empty()
            };
            &&& edits_extend(r@, Seq::empty(), own + refs, b, new_name@)
        }),
{
    let ghost b = content.spec_bytes();
    let mut edits: Vec<TextEdit> = Vec::new();
    let ghost own: Seq<EditAt> = Seq::empty();
    if defines {
        collect_frontmatter_id_edits(content, old_doc_id, new_name, &mut edits);
        proof {
            own = frontmatter_id_edits(b, old_doc_id.spec_bytes());
        }
    }
    let ghost mid = edits@;
    let ghost refs: Seq<EditAt> = Seq::empty();
    if refers {
        collect_doc_id_ref_edits(content, old_doc_id, new_name, &mut edits);
        proof {
            refs = doc_edits_from(b, 0, old_doc_id.spec_bytes());
        }
    }
    proof {
        assert forall|i: int| 0 <= i < (own + refs).len() implies edit_is(
            #[trigger] edits@[0 + i],
            (own + refs)[i],
            b,
            new_name@,
        ) by {
            if i < own.len() {
                assert(edits@[i] == mid[i]);
            } else {
                assert(edits@[mid.len() + (i - own.len())] == edits@[i]);
            }
        }
    }
    edits
}

} // verus!
