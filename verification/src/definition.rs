//! Locating the ref string under the cursor, for go-to-definition, hover,
//! references and rename.
//!
//! A ref lives in the value of a ref-accepting attribute (`refs`,
//! `implements`, `depends`, `verifies`) inside a `supersigil-xml` fence, as
//! one item of a comma-separated list: `doc-id` or `doc-id#fragment-id`.

use vstd::prelude::*;
use vstd::string::StringSliceAdditionalSpecFns;
use vstd::utf8::{encode_utf8, valid_utf8};
use vstd::slice::slice_to_vec;
use crate::fence::{in_supersigil_fence, is_in_supersigil_fence};
use crate::text::{
    char_start, find_exec, find_from, lemma_after_ascii, lemma_ascii_start, lemma_find_from_bounds,
    lemma_nth_line, lemma_skip_ws_back_bounds, lemma_skip_ws_back_char_start, lemma_skip_ws_bounds,
    lemma_skip_ws_char_start, matches_at, nth_line, nth_line_exec, skip_ws, skip_ws_back,
    rfind_in, rfind_to, skip_ws_back_exec, skip_ws_exec, substring, ws_len_at, ws_len_before,
};
use crate::tokens::{
    depends_attr, depends_attr_spec, implements_attr, implements_attr_spec, refs_attr,
    refs_attr_spec, verifies_attr, verifies_attr_spec,
};

verus! {

broadcast use vstd::utf8::encode_utf8_valid_utf8;

/// Number of ref-accepting attributes.
pub const REF_ATTR_COUNT: usize = 4;

/// `attr="` for the `k`-th ref-accepting attribute: `refs`, `implements`,
/// `depends`, `verifies`.
pub open spec fn ref_attr_spec(k: int) -> Seq<u8> {
    if k == 0 {
        refs_attr_spec()
    } else if k == 1 {
        implements_attr_spec()
    } else if k == 2 {
        depends_attr_spec()
    } else {
        verifies_attr_spec()
    }
}

pub proof fn lemma_ref_attr_ends_with_quote(k: int)
    ensures
        ref_attr_spec(k).len() >= 2,
        ref_attr_spec(k)[ref_attr_spec(k).len() - 1] == 34u8,
{
}

pub fn ref_attr_needle(k: usize) -> (r: Vec<u8>)
    requires
        k < REF_ATTR_COUNT,
    ensures
        r@ == ref_attr_spec(k as int),
{
    if k == 0 {
        slice_to_vec(refs_attr().as_slice())
    } else if k == 1 {
        slice_to_vec(implements_attr().as_slice())
    } else if k == 2 {
        slice_to_vec(depends_attr().as_slice())
    } else {
        slice_to_vec(verifies_attr().as_slice())
    }
}

/// The bytes of `"`.
pub open spec fn quote_spec() -> Seq<u8> {
    seq![34u8]
}

/// The bytes of `,`.
pub open spec fn comma_spec() -> Seq<u8> {
    seq![44u8]
}

/// The bytes of `#`.
pub open spec fn hash_spec() -> Seq<u8> {
    seq![35u8]
}

/// Which part of a ref string the cursor is on.
#[derive(Debug, Clone, Copy, PartialEq, Eq, Structural)]
pub enum RefPart {
    /// Cursor is on the document ID portion (before `#`), or no `#` present.
    DocId,
    /// Cursor is on the fragment portion (after `#`).
    Fragment,
}

/// A ref string found at a cursor position, with span information.
#[derive(Debug, Clone, PartialEq, Eq)]
pub struct RefAtPosition {
    /// The full ref string (e.g. "auth/req#crit-a").
    pub ref_string: String,
    /// Which part of the ref the cursor is on.
    pub part: RefPart,
    /// Byte offset within the line where the relevant part starts.
    pub part_start: u32,
    /// Byte offset within the line where the relevant part ends (exclusive).
    pub part_end: u32,
}

/// A located ref: its bytes `[ref_start, ref_end)` in the document, the
/// part under the cursor, and that part's span relative to the line start.
pub type RefSpan = (int, int, RefPart, int, int);

/// The part of the trimmed ref `[p, q)` (line starting at `ls`) that the
/// cursor column `ch` is on.
pub open spec fn ref_part_span(b: Seq<u8>, ls: int, p: int, q: int, ch: int) -> RefSpan {
    match find_from(b, p, q, hash_spec()) {
        Some(h) => if ch < h + 1 - ls {
            (p, q, RefPart::DocId, p - ls, h - ls)
        } else {
            (p, q, RefPart::Fragment, h + 1 - ls, q - ls)
        },
        None => (p, q, RefPart::DocId, p - ls, q - ls),
    }
}

/// The comma-separated item of the value `[off, ve)` that holds the cursor
/// at absolute offset `cur`: `None` to go on with the next attribute,
/// `Some(None)` when the item is blank, `Some(Some(span))` otherwise.
pub open spec fn ref_in_value(b: Seq<u8>, ls: int, off: int, ve: int, cur: int, ch: int) -> Option<
    Option<RefSpan>,
>
    decreases ve - off,
{
    let pe = match find_from(b, off, ve, comma_spec()) {
        Some(c) => c,
        None => ve,
    };
    if off <= cur && cur < pe {
        let p = skip_ws(b, off, pe);
        let q = skip_ws_back(b, p, pe);
        if p == q {
            Some(None)
        } else {
            Some(Some(ref_part_span(b, ls, p, q, ch)))
        }
    } else if pe >= ve || off >= ve {
        None
    } else {
        proof {
            lemma_find_from_bounds(b, off, ve, comma_spec());
        }
        ref_in_value(b, ls, pe + 1, ve, cur, ch)
    }
}

/// What the `k`-th ref attribute on the line `[ls, le)` yields: `None` to go
/// on with the next attribute, `Some(result)` to stop with `result`.
pub open spec fn ref_at_attr(b: Seq<u8>, ls: int, le: int, k: int, ch: int) -> Option<
    Option<RefSpan>,
> {
    let needle = ref_attr_spec(k);
    match find_from(b, ls, le, needle) {
        None => None,
        Some(a) => {
            let vs = a + needle.len();
            match find_from(b, vs, le, quote_spec()) {
                None => None,
                Some(ve) => if ch < vs - ls || ch >= ve - ls {
                    None
                } else {
                    ref_in_value(b, ls, vs, ve, ls + ch, ch)
                },
            }
        },
    }
}

/// The attributes `k..` in order.
pub open spec fn ref_at_attrs(b: Seq<u8>, ls: int, le: int, k: int, ch: int) -> Option<RefSpan>
    decreases 4 - k,
{
    if k >= 4 {
        None
    } else {
        match ref_at_attr(b, ls, le, k, ch) {
            None => ref_at_attrs(b, ls, le, k + 1, ch),
            Some(r) => r,
        }
    }
}

/// The ref under the cursor at (`line`, byte column `ch`), if the line is
/// inside a `supersigil-xml` fence.
pub open spec fn ref_at_position(b: Seq<u8>, line: nat, ch: int) -> Option<RefSpan> {
    if !in_supersigil_fence(b, line) {
        None
    } else {
        match nth_line(b, line) {
            Some((ls, le)) => ref_at_attrs(b, ls, le, 0, ch),
            None => None,
        }
    }
}

/// `r` is the exec value of the located span `sp` in document bytes `b`.
pub open spec fn ref_matches(r: RefAtPosition, sp: RefSpan, b: Seq<u8>) -> bool {
    &&& encode_utf8(r.ref_string@) == b.subrange(sp.0, sp.1)
    &&& r.part == sp.2
    &&& r.part_start == sp.3
    &&& r.part_end == sp.4
}

/// Facts about every located ref: it lies on the line and starts and ends
/// at characters.
pub open spec fn span_wf(b: Seq<u8>, ls: int, le: int, sp: RefSpan) -> bool {
    &&& ls <= sp.0 < sp.1 <= le
    &&& char_start(b, sp.0)
    &&& char_start(b, sp.1)
    &&& 0 <= sp.3 <= sp.4 <= le - ls
}

proof fn lemma_ref_part_span(b: Seq<u8>, ls: int, le: int, p: int, q: int, ch: int)
    requires
        valid_utf8(b),
        0 <= ls <= p < q <= le <= b.len(),
        char_start(b, p),
        char_start(b, q),
    ensures
        span_wf(b, ls, le, ref_part_span(b, ls, p, q, ch)),
{
    lemma_find_from_bounds(b, p, q, hash_spec());
}

/// Given the trimmed ref `[p, q)` and the line start, build the
/// [`RefAtPosition`] for the part the cursor column is on.
fn ref_part_at(content: &str, b: &[u8], ls: usize, p: usize, q: usize, character: u32) -> (r:
    RefAtPosition)
    requires
        b@ == content.spec_bytes(),
        ls <= p < q <= b@.len(),
        b@.len() <= u32::MAX,
        char_start(b@, p as int),
        char_start(b@, q as int),
    ensures
        ref_matches(r, ref_part_span(b@, ls as int, p as int, q as int, character as int), b@),
{
    let ref_string = substring(content, p, q);
    let hash = [35u8];
    proof {
        assert(hash@ =~= hash_spec());
        lemma_find_from_bounds(b@, p as int, q as int, hash_spec());
    }
    match find_exec(b, p, q, hash.as_slice()) {
        Some(h) => {
            if (character as usize) < h + 1 - ls {
                RefAtPosition {
                    ref_string,
                    part: RefPart::DocId,
                    part_start: (p - ls) as u32,
                    part_end: (h - ls) as u32,
                }
            } else {
                RefAtPosition {
                    ref_string,
                    part: RefPart::Fragment,
                    part_start: (h + 1 - ls) as u32,
                    part_end: (q - ls) as u32,
                }
            }
        },
        None => RefAtPosition {
            ref_string,
            part: RefPart::DocId,
            part_start: (p - ls) as u32,
            part_end: (q - ls) as u32,
        },
    }
}

/// Walk the comma-separated items of the value `[vs, ve)`.
fn ref_in_value_exec(
    content: &str,
    b: &[u8],
    ls: usize,
    le: usize,
    vs: usize,
    ve: usize,
    character: u32,
) -> (r: Option<Option<RefAtPosition>>)
    requires
        b@ == content.spec_bytes(),
        ls <= vs <= ve <= le <= b@.len(),
        b@.len() <= u32::MAX,
        ls + character < ve,
        char_start(b@, vs as int),
        char_start(b@, ve as int),
        char_start(b@, ls as int),
        char_start(b@, le as int),
    ensures
        match ref_in_value(b@, ls as int, vs as int, ve as int, ls + character, character as int) {
            None => r is None,
            Some(None) => r == Some(None::<RefAtPosition>),
            Some(Some(sp)) => r matches Some(Some(x)) && ref_matches(x, sp, b@) && span_wf(
                b@,
                ls as int,
                le as int,
                sp,
            ),
        },
{
    let cur = ls + character as usize;
    let comma = [44u8];
    proof {
        assert(comma@ =~= comma_spec());
    }
    let mut off = vs;
    loop
        invariant
            b@ == content.spec_bytes(),
            ls <= vs <= off <= ve <= le <= b@.len(),
            b@.len() <= u32::MAX,
            cur == ls + character,
            cur < ve,
            comma@ == comma_spec(),
            char_start(b@, off as int),
            char_start(b@, ve as int),
            char_start(b@, ls as int),
            char_start(b@, le as int),
            ref_in_value(b@, ls as int, vs as int, ve as int, cur as int, character as int)
                == ref_in_value(b@, ls as int, off as int, ve as int, cur as int, character as int),
        decreases ve - off,
    {
        proof {
            lemma_find_from_bounds(b@, off as int, ve as int, comma_spec());
        }
        let pe = match find_exec(b, off, ve, comma.as_slice()) {
            Some(c) => c,
            None => ve,
        };
        proof {
            if pe < ve {
                assert(matches_at(b@, pe as int, comma_spec()));
                assert(b@[pe + 0] == comma_spec()[0]);
                lemma_ascii_start(b@, pe as int);
                lemma_after_ascii(b@, pe as int);
            }
        }
        if off <= cur && cur < pe {
            let p = skip_ws_exec(b, off, pe);
            let q = skip_ws_back_exec(b, p, pe);
            if p == q {
                return Some(None);
            }
            proof {
                lemma_skip_ws_char_start(b@, off as int, pe as int);
                lemma_skip_ws_back_char_start(b@, p as int, pe as int);
                lemma_ref_part_span(b@, ls as int, le as int, p as int, q as int, character as int);
            }
            return Some(Some(ref_part_at(content, b, ls, p, q, character)));
        }
        if pe >= ve || off >= ve {
            return None;
        }
        off = pe + 1;
    }
}

/// Extract the ref string at the given cursor position within `content`.
///
/// `line` and `character` are 0-based LSP coordinates, `character` taken as
/// a byte offset in the line.  Returns the ref string, which part the cursor
/// is on, and the byte span of that part within the line; `None` when the
/// cursor is not inside a ref-accepting attribute value of a
/// `supersigil-xml` fence.
pub fn find_ref_at_position(content: &str, line: u32, character: u32) -> (r: Option<
    RefAtPosition,
>)
    requires
        content.spec_bytes().len() <= u32::MAX,
    ensures
        match ref_at_position(content.spec_bytes(), line as nat, character as int) {
            None => r is None,
            Some(sp) => r matches Some(x) && ref_matches(x, sp, content.spec_bytes()) && 0 <= sp.0
                < sp.1 <= content.spec_bytes().len(),
        },
{
    if !is_in_supersigil_fence(content, line) {
        return None;
    }
    let b = content.as_bytes();
    let (ls, le) = match nth_line_exec(b, line as usize) {
        Some(x) => x,
        None => {
            return None;
        },
    };
    proof {
        assert(valid_utf8(b@));
        lemma_nth_line(b@, line as nat);
    }
    let quote = [34u8];
    proof {
        assert(quote@ =~= quote_spec());
    }
    let mut k: usize = 0;
    while k < REF_ATTR_COUNT
        invariant
            b@ == content.spec_bytes(),
            valid_utf8(b@),
            b@.len() <= u32::MAX,
            ls <= le <= b@.len(),
            char_start(b@, ls as int),
            char_start(b@, le as int),
            quote@ == quote_spec(),
            nth_line(b@, line as nat) == Some((ls as int, le as int)),
            in_supersigil_fence(b@, line as nat),
            ref_at_attrs(b@, ls as int, le as int, 0, character as int) == ref_at_attrs(
                b@,
                ls as int,
                le as int,
                k as int,
                character as int,
            ),
        decreases REF_ATTR_COUNT - k,
    {
        let needle = ref_attr_needle(k);
        proof {
            lemma_find_from_bounds(b@, ls as int, le as int, needle@);
        }
        if let Some(a) = find_exec(b, ls, le, needle.as_slice()) {
            let vs = a + needle.len();
            proof {
                // The needle ends with an ASCII quote.
                lemma_ref_attr_ends_with_quote(k as int);
                assert(matches_at(b@, a as int, needle@));
                assert(b@[a + (needle@.len() - 1)] == needle@[needle@.len() - 1]);
                lemma_after_ascii(b@, vs - 1);
                lemma_find_from_bounds(b@, vs as int, le as int, quote_spec());
            }
            if let Some(ve) = find_exec(b, vs, le, quote.as_slice()) {
                proof {
                    assert(matches_at(b@, ve as int, quote_spec()));
                    assert(b@[ve + 0] == quote_spec()[0]);
                    lemma_ascii_start(b@, ve as int);
                }
                if !((character as usize) < vs - ls || (character as usize) >= ve - ls) {
                    match ref_in_value_exec(content, b, ls, le, vs, ve, character) {
                        Some(res) => {
                            return res;
                        },
                        None => {},
                    }
                }
            }
        }
        k = k + 1;
    }
    None
}

proof fn lemma_skip_ws_stops(b: Seq<u8>, i: int, hi: int)
    requires
        0 <= i <= hi <= b.len(),
    ensures
        skip_ws(b, i, hi) < hi ==> ws_len_at(b, skip_ws(b, i, hi), hi) == 0,
    decreases hi - i,
{
    if i < hi && ws_len_at(b, i, hi) > 0 {
        lemma_skip_ws_stops(b, i + ws_len_at(b, i, hi), hi);
    }
}

proof fn lemma_skip_ws_back_stops(b: Seq<u8>, lo: int, j: int)
    requires
        0 <= lo <= j <= b.len(),
    ensures
        lo < skip_ws_back(b, lo, j) ==> ws_len_before(b, lo, skip_ws_back(b, lo, j)) == 0,
    decreases j - lo,
{
    if lo < j && ws_len_before(b, lo, j) > 0 {
        lemma_skip_ws_back_stops(b, lo, j - ws_len_before(b, lo, j));
    }
}

proof fn lemma_find_from_first(b: Seq<u8>, i: int, hi: int, n: Seq<u8>)
    ensures
        find_from(b, i, hi, n) matches Some(c) ==> forall|j: int| i <= j < c ==> !matches_at(b, j, n),
    decreases hi + 1 - i,
{
    if !(i + n.len() > hi) && !matches_at(b, i, n) {
        lemma_find_from_first(b, i + 1, hi, n);
    }
}

/// No byte of `[s, e)` is a comma.
pub open spec fn comma_free(b: Seq<u8>, s: int, e: int) -> bool {
    forall|j: int| s <= j < e ==> #[trigger] b[j] != 44u8
}

/// The shape of a ref found in a value: a non-empty comma-free item of the
/// value, starting and ending off whitespace, and split at its first `#`.
pub open spec fn ref_span_shape(b: Seq<u8>, ls: int, lo: int, hi: int, sp: RefSpan, ch: int) -> bool {
    &&& lo <= sp.0 < sp.1 <= hi
    &&& comma_free(b, sp.0, sp.1)
    &&& ws_len_at(b, sp.0, sp.1) == 0
    &&& ws_len_before(b, sp.0, sp.1) == 0
    &&& sp == ref_part_span(b, ls, sp.0, sp.1, ch)
}

proof fn lemma_ref_in_value_shape(b: Seq<u8>, ls: int, off: int, ve: int, cur: int, ch: int)
    requires
        0 <= off,
        ve <= b.len(),
    ensures
        ref_in_value(b, ls, off, ve, cur, ch) matches Some(Some(sp)) ==> ref_span_shape(b, ls, off, ve, sp, ch),
    decreases ve - off,
{
    lemma_find_from_bounds(b, off, ve, comma_spec());
    lemma_find_from_first(b, off, ve, comma_spec());
    let pe = match find_from(b, off, ve, comma_spec()) {
        Some(c) => c,
        None => ve,
    };
    if off <= cur && cur < pe {
        let p = skip_ws(b, off, pe);
        let q = skip_ws_back(b, p, pe);
        if p != q && off <= pe {
            lemma_skip_ws_bounds(b, off, pe);
            lemma_skip_ws_back_bounds(b, p, pe);
            lemma_skip_ws_stops(b, off, pe);
            lemma_skip_ws_back_stops(b, p, pe);
            assert forall|j: int| p <= j < q implies #[trigger] b[j] != 44u8 by {
                if b[j] == 44u8 {
                    assert(matches_at(b, j, comma_spec()));
                }
            }
            assert(ws_len_at(b, p, q) == 0);
        }
    } else if !(pe >= ve || off >= ve) {
        lemma_ref_in_value_shape(b, ls, pe + 1, ve, cur, ch);
    }
}

proof fn lemma_ref_at_attrs_shape(b: Seq<u8>, ls: int, le: int, k: int, ch: int)
    requires
        0 <= ls <= le <= b.len(),
    ensures
        ref_at_attrs(b, ls, le, k, ch) matches Some(sp) ==> ref_span_shape(b, ls, ls, le, sp, ch),
    decreases 4 - k,
{
    if k < 4 {
        lemma_ref_at_attrs_shape(b, ls, le, k + 1, ch);
        let needle = ref_attr_spec(k);
        lemma_find_from_bounds(b, ls, le, needle);
        if let Some(a) = find_from(b, ls, le, needle) {
            let vs = a + needle.len();
            lemma_find_from_bounds(b, vs, le, quote_spec());
            if let Some(ve) = find_from(b, vs, le, quote_spec()) {
                lemma_ref_in_value_shape(b, ls, vs, ve, ls + ch, ch);
            }
        }
    }
}

/// The ref found at the cursor lies inside a `supersigil-xml` fence, on the
/// cursor's line; it is a non-empty item of a ref attribute's value, free
/// of commas and starting and ending off whitespace; and the part under the
/// cursor is its text before the first `#` (or all of it when there is no
/// `#`) or its text after that `#`.
pub proof fn law_ref_at_cursor_structure(b: Seq<u8>, line: nat, ch: int)
    ensures
        ref_at_position(b, line, ch) matches Some(sp) ==> {
            &&& in_supersigil_fence(b, line)
            &&& nth_line(b, line) is Some
            &&& ref_span_shape(b, nth_line(b, line).unwrap().0, nth_line(b, line).unwrap().0, nth_line(b, line).unwrap().1, sp, ch)
        },
{
    if let Some(sp) = ref_at_position(b, line, ch) {
        lemma_nth_line(b, line);
        let (ls, le) = nth_line(b, line).unwrap();
        lemma_ref_at_attrs_shape(b, ls, le, 0, ch);
    }
}

/// The quoted value `[vs, ve)` of the `k`-th ref attribute on the line
/// `[ls, le)`: from just after its first `attr="` to the next `"`.
pub open spec fn attr_value(b: Seq<u8>, ls: int, le: int, k: int) -> Option<(int, int)> {
    match find_from(b, ls, le, ref_attr_spec(k)) {
        None => None,
        Some(a) => {
            let vs = a + ref_attr_spec(k).len();
            match find_from(b, vs, le, quote_spec()) {
                None => None,
                Some(ve) => Some((vs, ve)),
            }
        },
    }
}

/// The cursor column `ch` of the line starting at `ls` lies inside the
/// quoted value of the `k`-th ref attribute.
pub open spec fn cursor_in_value(b: Seq<u8>, ls: int, le: int, k: int, ch: int) -> bool {
    attr_value(b, ls, le, k) matches Some((vs, ve)) && vs <= ls + ch < ve
}

/// The comma-separated item of the value `[vs, ve)` around the offset
/// `cur`, with surrounding whitespace trimmed: it starts after the last
/// comma before `cur` (or at the value's start) and ends at the first comma
/// from `cur` on (or at the value's end); `None` when it is blank.
pub open spec fn cursor_item(b: Seq<u8>, vs: int, ve: int, cur: int) -> Option<(int, int)> {
    let s = match rfind_in(b, vs, cur, comma_spec()) {
        Some(c) => c + 1,
        None => vs,
    };
    let e = match find_from(b, cur, ve, comma_spec()) {
        Some(c) => c,
        None => ve,
    };
    let p = skip_ws(b, s, e);
    let q = skip_ws_back(b, p, e);
    if p == q {
        None
    } else {
        Some((p, q))
    }
}

proof fn lemma_find_from_later(b: Seq<u8>, off: int, cur: int, hi: int, n: Seq<u8>)
    requires
        off <= cur,
        forall|j: int| off <= j < cur ==> !matches_at(b, j, n),
    ensures
        find_from(b, off, hi, n) == find_from(b, cur, hi, n),
    decreases cur - off,
{
    if off < cur {
        lemma_find_from_later(b, off + 1, cur, hi, n);
    }
}

proof fn lemma_rfind_to_lower(b: Seq<u8>, lo: int, lo2: int, top: int, n: Seq<u8>)
    requires
        lo <= lo2,
    ensures
        rfind_to(b, lo2, top, n) matches Some(c) ==> rfind_to(b, lo, top, n) == Some(c),
        rfind_to(b, lo2, top, n) is None && lo <= lo2 - 1 <= top && matches_at(b, lo2 - 1, n)
            ==> rfind_to(b, lo, top, n) == Some(lo2 - 1),
    decreases top - lo + 1,
{
    if top >= lo && !matches_at(b, top, n) {
        lemma_rfind_to_lower(b, lo, lo2, top - 1, n);
    }
}

proof fn lemma_rfind_to_none(b: Seq<u8>, lo: int, top: int, n: Seq<u8>)
    requires
        forall|j: int| lo <= j <= top ==> !matches_at(b, j, n),
    ensures
        rfind_to(b, lo, top, n) is None,
    decreases top - lo + 1,
{
    if top >= lo {
        lemma_rfind_to_none(b, lo, top - 1, n);
    }
}

/// Walking the items of a value from `off` finds the item around `cur`.
proof fn lemma_ref_in_value_item(b: Seq<u8>, ls: int, off: int, ve: int, cur: int, ch: int)
    requires
        0 <= off <= cur < ve <= b.len(),
        b[cur] != 44u8,
    ensures
        ref_in_value(b, ls, off, ve, cur, ch) == Some(
            match cursor_item(b, off, ve, cur) {
                Some((p, q)) => Some(ref_part_span(b, ls, p, q, ch)),
                None => None::<RefSpan>,
            },
        ),
    decreases ve - off,
{
    lemma_find_from_bounds(b, off, ve, comma_spec());
    lemma_find_from_first(b, off, ve, comma_spec());
    let pe = match find_from(b, off, ve, comma_spec()) {
        Some(c) => c,
        None => ve,
    };
    if cur < pe {
        assert forall|j: int| off <= j <= cur - 1 implies !matches_at(b, j, comma_spec()) by {}
        lemma_rfind_to_none(b, off, cur - 1, comma_spec());
        lemma_find_from_later(b, off, cur, ve, comma_spec());
    } else {
        assert(pe < ve);
        assert(b[pe + 0] == comma_spec()[0]);
        lemma_ref_in_value_item(b, ls, pe + 1, ve, cur, ch);
        lemma_rfind_to_lower(b, off, pe + 1, cur - 1, comma_spec());
    }
}

proof fn lemma_attrs_skip(b: Seq<u8>, ls: int, le: int, j: int, k: int, ch: int)
    requires
        0 <= j <= k <= 4,
        forall|i: int| j <= i < k ==> !cursor_in_value(b, ls, le, i, ch),
    ensures
        ref_at_attrs(b, ls, le, j, ch) == ref_at_attrs(b, ls, le, k, ch),
    decreases k - j,
{
    if j < k {
        assert(!cursor_in_value(b, ls, le, j, ch));
        assert(ref_at_attr(b, ls, le, j, ch) is None);
        lemma_attrs_skip(b, ls, le, j + 1, k, ch);
    }
}

/// Go to definition on a ref attribute: when the cursor lies inside the
/// quoted value of a ref attribute (`refs`, `implements`, `depends`,
/// `verifies`) on a fenced line, on no comma, and inside the value of no
/// ref attribute before it in that order, the ref under the cursor is the
/// comma-separated item of that value around the cursor, trimmed, split at
/// its first `#`; there is none only when that item is blank.  Attributes
/// whose values do not hold the cursor play no part.
pub proof fn law_ref_under_cursor_is_its_item(
    b: Seq<u8>,
    line: nat,
    ch: int,
    k: int,
    ls: int,
    le: int,
    vs: int,
    ve: int,
)
    requires
        0 <= k < 4,
        in_supersigil_fence(b, line),
        nth_line(b, line) == Some((ls, le)),
        attr_value(b, ls, le, k) == Some((vs, ve)),
        vs <= ls + ch < ve,
        b[ls + ch] != 44u8,
        forall|j: int| 0 <= j < k ==> !cursor_in_value(b, ls, le, j, ch),
    ensures
        ref_at_position(b, line, ch) == match cursor_item(b, vs, ve, ls + ch) {
            Some((p, q)) => Some(ref_part_span(b, ls, p, q, ch)),
            None => None::<RefSpan>,
        },
{
    lemma_nth_line(b, line);
    let needle = ref_attr_spec(k);
    lemma_find_from_bounds(b, ls, le, needle);
    let a = find_from(b, ls, le, needle).unwrap();
    lemma_find_from_bounds(b, a + needle.len(), le, quote_spec());
    lemma_attrs_skip(b, ls, le, 0, k, ch);
    lemma_ref_in_value_item(b, ls, vs, ve, ls + ch, ch);
    assert(ref_at_attr(b, ls, le, k, ch) == ref_in_value(b, ls, vs, ve, ls + ch, ch));
}

/// Which part of the ref `[p, q)` the cursor is on: with no `#` in the ref
/// the whole ref is the document ID; otherwise, at its first `#`, a cursor
/// up to and on that `#` is on the document ID before it, and a cursor past
/// it on the fragment after it.  The ref itself is always `[p, q)`.
pub proof fn law_ref_part_split_at_first_hash(b: Seq<u8>, ls: int, p: int, q: int, ch: int, h: int)
    requires
        0 <= p <= q <= b.len(),
    ensures
        ref_part_span(b, ls, p, q, ch).0 == p,
        ref_part_span(b, ls, p, q, ch).1 == q,
        (forall|i: int| p <= i < q ==> b[i] != 35u8) ==> ref_part_span(b, ls, p, q, ch) == (
            p,
            q,
            RefPart::DocId,
            p - ls,
            q - ls,
        ),
        p <= h < q && b[h] == 35u8 && (forall|i: int| p <= i < h ==> b[i] != 35u8) ==> {
            &&& ls + ch <= h ==> ref_part_span(b, ls, p, q, ch) == (p, q, RefPart::DocId, p - ls, h - ls)
            &&& ls + ch > h ==> ref_part_span(b, ls, p, q, ch) == (
                p,
                q,
                RefPart::Fragment,
                h + 1 - ls,
                q - ls,
            )
        },
{
    lemma_find_from_bounds(b, p, q, hash_spec());
    lemma_find_from_first(b, p, q, hash_spec());
    if let Some(f) = find_from(b, p, q, hash_spec()) {
        assert(b[f + 0] == hash_spec()[0]);
        if p <= h < q && b[h] == 35u8 && (forall|i: int| p <= i < h ==> b[i] != 35u8) {
            if f < h {
                assert(b[f] != 35u8);
            }
            if h < f {
                assert(matches_at(b, h, hash_spec()));
            }
        }
    } else {
        if p <= h < q && b[h] == 35u8 {
            assert(matches_at(b, h, hash_spec()));
        }
    }
}

} // verus!
