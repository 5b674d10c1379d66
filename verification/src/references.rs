//! Identifying the target of Find All References at a cursor position.

use vstd::prelude::*;
use vstd::string::StringSliceAdditionalSpecFns;
use vstd::utf8::{encode_utf8, valid_utf8};
use crate::definition::{
    find_ref_at_position, hash_spec, quote_spec, ref_at_position, ref_matches, RefSpan,
};
use crate::fence::{fence_delim, in_supersigil_fence, is_in_supersigil_fence, run_len_exec, starts_at, starts_at_exec, lemma_run_len_bounds};
use crate::frontmatter::{frontmatter_block, frontmatter_block_exec};
use crate::hover::{component_name_at, component_name_at_position, component_name_lookup_ok, name_lookup_ok_at};
use crate::text::{
    char_start, rfind_in, rfind_to, find_exec, find_from, find_ws, find_ws_exec, lemma_after_ascii, lemma_ascii_start,
    lemma_find_from_bounds, lemma_find_ws_bounds, lemma_find_ws_char_start, lemma_nth_line,
    lemma_skip_ws_bounds, lemma_skip_ws_char_start, matches_at, nth_line, nth_line_exec, skip_ws,
    skip_ws_exec, substring,
};
use crate::tokens::{id_attr, id_attr_spec, supersigil_ref, supersigil_ref_spec};

verus! {

broadcast use vstd::utf8::encode_utf8_valid_utf8;

/// Where a string of a result comes from: the document's own ID, or bytes
/// `[a, z)` of the document.
pub enum Piece {
    DocId,
    Span(int, int),
}

/// `s` is the string that `p` denotes.
pub open spec fn piece_is(s: String, p: Piece, b: Seq<u8>, doc_id: Seq<char>) -> bool {
    match p {
        Piece::DocId => s@ == doc_id,
        Piece::Span(a, z) => encode_utf8(s@) == b.subrange(a, z),
    }
}

/// `r` is the exec value of the target `t`.
pub open spec fn target_is(
    r: (String, Option<String>),
    t: (Piece, Option<Piece>),
    b: Seq<u8>,
    doc_id: Seq<char>,
) -> bool {
    &&& piece_is(r.0, t.0, b, doc_id)
    &&& match (r.1, t.1) {
        (None, None) => true,
        (Some(x), Some(p)) => piece_is(x, p, b, doc_id),
        _ => false,
    }
}

/// `ref_str` split at its first `#` into document and fragment.
pub open spec fn ref_target(b: Seq<u8>, rs: int, re: int) -> (Piece, Option<Piece>) {
    match find_from(b, rs, re, hash_spec()) {
        Some(h) => (Piece::Span(rs, h), Some(Piece::Span(h + 1, re))),
        None => (Piece::Span(rs, re), None),
    }
}

/// The first whitespace-separated token at or after `i` on the line ending
/// at `le` that starts with `supersigil-ref=`, if the scan reaches one.
pub open spec fn sref_token(b: Seq<u8>, i: int, le: int) -> Option<(int, int)>
    decreases le - i,
{
    if !(0 <= i <= le <= b.len()) {
        None
    } else {
        let ts = skip_ws(b, i, le);
        let te = find_ws(b, ts, le);
        proof {
            lemma_skip_ws_bounds(b, i, le);
            lemma_find_ws_bounds(b, ts, le);
        }
        if te <= ts {
            None
        } else if starts_at(b, ts, te, supersigil_ref_spec()) {
            Some((ts, te))
        } else {
            sref_token(b, te, le)
        }
    }
}

/// The `supersigil-ref=<target>[#<fragment>]` token under the cursor on a
/// code fence opening line: the target's bytes and, when non-empty, the
/// fragment's.
pub open spec fn supersigil_ref_at(b: Seq<u8>, line: nat, ch: int) -> Option<
    ((int, int), Option<(int, int)>),
> {
    match nth_line(b, line) {
        None => None,
        Some((ls, le)) => {
            let t = skip_ws(b, ls, le);
            let cnt = fence_delim(b, t, le).1;
            if cnt < 3 {
                None
            } else {
                match sref_token(b, t + cnt, le) {
                    None => None,
                    Some((ts, te)) => {
                        let vs = ts + supersigil_ref_spec().len();
                        if ch < ts - ls || ch >= te - ls || vs == te {
                            None
                        } else {
                            match find_from(b, vs, te, hash_spec()) {
                                Some(h) => if h == vs {
                                    None
                                } else if h + 1 == te {
                                    Some(((vs, h), None))
                                } else {
                                    Some(((vs, h), Some((h + 1, te))))
                                },
                                None => Some(((vs, te), None)),
                            }
                        }
                    },
                }
            }
        },
    }
}

/// The value of the first `id="..."` on line `line`, if non-empty.
pub open spec fn id_attr_on_line(b: Seq<u8>, line: nat) -> Option<(int, int)> {
    match nth_line(b, line) {
        None => None,
        Some((ls, le)) => match find_from(b, ls, le, id_attr_spec()) {
            None => None,
            Some(a) => {
                let vs = a + id_attr_spec().len();
                match find_from(b, vs, le, quote_spec()) {
                    None => None,
                    Some(ve) => if ve == vs {
                        None
                    } else {
                        Some((vs, ve))
                    },
                }
            },
        },
    }
}

/// Line `line` lies strictly inside the frontmatter block.
pub open spec fn in_frontmatter(b: Seq<u8>, line: nat) -> bool {
    match frontmatter_block(b) {
        Some((_, close)) => 0 < line && line < close,
        None => false,
    }
}

/// The reference target at the cursor, in priority order: a ref string in
/// a fence; a `supersigil-ref=` token; a component tag with an `id`; the
/// frontmatter.
pub open spec fn reference_target(b: Seq<u8>, line: nat, ch: int) -> Option<
    (Piece, Option<Piece>),
> {
    match ref_at_position(b, line, ch) {
        Some(sp) => Some(ref_target(b, sp.0, sp.1)),
        None => match supersigil_ref_at(b, line, ch) {
            Some((target, _)) => Some((Piece::DocId, Some(Piece::Span(target.0, target.1)))),
            None => if in_supersigil_fence(b, line) && component_name_at(b, line, ch) is Some
                && id_attr_on_line(b, line) is Some {
                let (a, z) = id_attr_on_line(b, line).unwrap();
                Some((Piece::DocId, Some(Piece::Span(a, z))))
            } else if in_frontmatter(b, line) {
                Some((Piece::DocId, None))
            } else {
                None
            },
        },
    }
}

/// The component-name lookup of [`find_reference_target`] does not slice
/// inside a character when it is reached.
pub open spec fn reference_lookup_ok(b: Seq<u8>, line: nat, ch: int) -> bool {
    (ref_at_position(b, line, ch) is None && supersigil_ref_at(b, line, ch) is None
        && in_supersigil_fence(b, line)) ==> name_lookup_ok_at(b, line, ch)
}

/// Whether finding the reference target at the cursor stays on character
/// boundaries: the condition that `find_reference_target` requires.
pub fn reference_lookup_ok_exec(content: &str, line: u32, character: u32) -> (r: bool)
    requires
        content.spec_bytes().len() <= u32::MAX,
    ensures
        r == reference_lookup_ok(content.spec_bytes(), line as nat, character as int),
{
    find_ref_at_position(content, line, character).is_some()
        || find_supersigil_ref_at_position(content, line, character).is_some()
        || !is_in_supersigil_fence(content, line)
        || component_name_lookup_ok(content, line, character)
}

/// Parse a ref string like `"auth/req#login"` into `(doc_id, fragment)`.
pub fn parse_ref_target(ref_str: &str) -> (r: (String, Option<String>))
    ensures
        target_is(r, ref_target(ref_str.spec_bytes(), 0, ref_str.spec_bytes().len() as int), ref_str.spec_bytes(), Seq::empty()),
{
    let b = ref_str.as_bytes();
    let hash = [35u8];
    proof {
        assert(hash@ =~= hash_spec());
        assert(valid_utf8(b@));
        lemma_find_from_bounds(b@, 0, b@.len() as int, hash_spec());
        crate::text::lemma_char_start_boundary(b@, b@.len() as int);
    }
    match find_exec(b, 0, b.len(), hash.as_slice()) {
        Some(h) => {
            proof {
                assert(b@[h + 0] == hash_spec()[0]);
                lemma_ascii_start(b@, h as int);
                lemma_after_ascii(b@, h as int);
            }
            (substring(ref_str, 0, h), Some(substring(ref_str, h + 1, b.len())))
        },
        None => (substring(ref_str, 0, b.len()), None),
    }
}

/// Bounds of a token found by [`sref_token`].
pub proof fn lemma_sref_token_bounds(b: Seq<u8>, i: int, le: int)
    ensures
        sref_token(b, i, le) matches Some((ts, te)) ==> i <= ts < te <= le && starts_at(
            b,
            ts,
            te,
            supersigil_ref_spec(),
        ) && te == find_ws(b, ts, le),
    decreases le - i,
{
    if 0 <= i <= le <= b.len() {
        let ts = skip_ws(b, i, le);
        let te = find_ws(b, ts, le);
        lemma_skip_ws_bounds(b, i, le);
        lemma_find_ws_bounds(b, ts, le);
        if te > ts && !starts_at(b, ts, te, supersigil_ref_spec()) {
            lemma_sref_token_bounds(b, te, le);
        }
    }
}

fn sref_token_exec(b: &[u8], i0: usize, le: usize) -> (r: Option<(usize, usize)>)
    requires
        i0 <= le <= b@.len(),
    ensures
        r matches Some((ts, te)) ==> sref_token(b@, i0 as int, le as int) == Some(
            (ts as int, te as int),
        ) && i0 <= ts < te <= le && starts_at(b@, ts as int, te as int, supersigil_ref_spec())
            && te == find_ws(b@, ts as int, le as int),
        r is None ==> sref_token(b@, i0 as int, le as int) is None,
{
    let prefix = supersigil_ref();
    let mut i = i0;
    loop
        invariant
            i0 <= i <= le <= b@.len(),
            prefix@ == supersigil_ref_spec(),
            sref_token(b@, i0 as int, le as int) == sref_token(b@, i as int, le as int),
        decreases le - i,
    {
        let ts = skip_ws_exec(b, i, le);
        let te = find_ws_exec(b, ts, le);
        if te <= ts {
            return None;
        }
        proof {
            lemma_skip_ws_bounds(b@, i as int, le as int);
        }
        if starts_at_exec(b, ts, te, prefix.as_slice()) {
            return Some((ts, te));
        }
        i = te;
    }
}

/// Detect a `supersigil-ref=<target>` token on the given line: the line
/// must open a code fence, and the cursor must fall within the token.
pub fn find_supersigil_ref_at_position(content: &str, line: u32, character: u32) -> (r: Option<
    (String, Option<String>),
>)
    ensures
        match supersigil_ref_at(content.spec_bytes(), line as nat, character as int) {
            None => r is None,
            Some((t, f)) => r matches Some((x, y)) && encode_utf8(x@)
                == content.spec_bytes().subrange(t.0, t.1) && match (y, f) {
                (None, None) => true,
                (Some(y), Some(f)) => encode_utf8(y@) == content.spec_bytes().subrange(f.0, f.1),
                _ => false,
            },
        },
{
    let b = content.as_bytes();
    let (ls, le) = match nth_line_exec(b, line as usize) {
        Some(x) => x,
        None => {
            return None;
        },
    };
    proof {
        assert(valid_utf8(b@));
        lemma_nth_line(b@, line as nat);
    }
    let t = skip_ws_exec(b, ls, le);
    let bt = run_len_exec(b, t, le, 96);
    let tl = run_len_exec(b, t, le, 126);
    let cnt = if bt >= 3 {
        bt
    } else if tl >= 3 {
        tl
    } else {
        return None;
    };
    proof {
        lemma_skip_ws_char_start(b@, ls as int, le as int);
        lemma_run_len_bounds(b@, t as int, le as int, 96);
        lemma_run_len_bounds(b@, t as int, le as int, 126);
    }
    let (ts, te) = match sref_token_exec(b, t + cnt, le) {
        Some(x) => x,
        None => {
            return None;
        },
    };
    assert(sref_token(b@, t + cnt, le as int) == Some((ts as int, te as int)));
    let cursor = character as usize;
    if cursor < ts - ls || cursor >= te - ls {
        return None;
    }
    let vs = ts + 15;
    if vs == te {
        return None;
    }
    proof {
        // The token starts a character and its prefix is ASCII.
        assert(char_start(b@, t as int + cnt)) by {
            if t + cnt < le {
                assert(b@[t + cnt - 1] < 0x80);
                lemma_after_ascii(b@, t + cnt - 1);
            }
        }
        assert(matches_at(b@, ts as int, supersigil_ref_spec()));
        assert(b@[ts + 14] == supersigil_ref_spec()[14]);
        lemma_after_ascii(b@, ts + 14);
        lemma_find_ws_char_start(b@, ts as int, le as int);
        lemma_find_from_bounds(b@, vs as int, te as int, hash_spec());
    }
    let hash = [35u8];
    proof {
        assert(hash@ =~= hash_spec());
    }
    match find_exec(b, vs, te, hash.as_slice()) {
        Some(h) => {
            if h == vs {
                return None;
            }
            proof {
                assert(b@[h + 0] == hash_spec()[0]);
                lemma_ascii_start(b@, h as int);
                lemma_after_ascii(b@, h as int);
            }
            let target = substring(content, vs, h);
            if h + 1 == te {
                Some((target, None))
            } else {
                Some((target, Some(substring(content, h + 1, te))))
            }
        },
        None => Some((substring(content, vs, te), None)),
    }
}

/// Extract the `id="..."` attribute value from a line.
pub fn extract_id_attribute_on_line(content: &str, line: u32) -> (r: Option<String>)
    ensures
        match id_attr_on_line(content.spec_bytes(), line as nat) {
            None => r is None,
            Some((a, z)) => r matches Some(x) && encode_utf8(x@) == content.spec_bytes().subrange(
                a,
                z,
            ),
        },
{
    let b = content.as_bytes();
    let (ls, le) = match nth_line_exec(b, line as usize) {
        Some(x) => x,
        None => {
            return None;
        },
    };
    proof {
        assert(valid_utf8(b@));
        lemma_nth_line(b@, line as nat);
        lemma_find_from_bounds(b@, ls as int, le as int, id_attr_spec());
    }
    let needle = id_attr();
    let a = match find_exec(b, ls, le, needle.as_slice()) {
        Some(a) => a,
        None => {
            return None;
        },
    };
    let vs = a + 4;
    let quote = [34u8];
    proof {
        assert(quote@ =~= quote_spec());
        assert(b@[a + 3] == id_attr_spec()[3]);
        lemma_after_ascii(b@, a + 3);
        lemma_find_from_bounds(b@, vs as int, le as int, quote_spec());
    }
    let ve = match find_exec(b, vs, le, quote.as_slice()) {
        Some(v) => v,
        None => {
            return None;
        },
    };
    if ve == vs {
        return None;
    }
    proof {
        assert(b@[ve + 0] == quote_spec()[0]);
        lemma_ascii_start(b@, ve as int);
    }
    Some(substring(content, vs, ve))
}

/// Check if the given 0-based line is inside the YAML frontmatter: strictly
/// between a `---` at line 0 and the next `---` line.
pub fn is_in_frontmatter(content: &str, line: u32) -> (r: bool)
    ensures
        r == in_frontmatter(content.spec_bytes(), line as nat),
{
    match frontmatter_block_exec(content) {
        Some((_, close)) => 0 < line && (line as usize) < close,
        None => false,
    }
}

/// Identify the reference target at the given cursor position: the
/// `(doc_id, fragment)` the cursor points at.  Checks, in priority order,
/// a ref string inside a `supersigil-xml` fence, a `supersigil-ref=` token
/// in a code fence info string, a component tag with an `id` attribute,
/// and the YAML frontmatter (document level).
pub fn find_reference_target(content: &str, line: u32, character: u32, doc_id: &str) -> (r:
    Option<(String, Option<String>)>)
    requires
        content.spec_bytes().len() <= u32::MAX,
        reference_lookup_ok(content.spec_bytes(), line as nat, character as int),
    ensures
        match reference_target(content.spec_bytes(), line as nat, character as int) {
            None => r is None,
            Some(t) => r matches Some(x) && target_is(x, t, content.spec_bytes(), doc_id@),
        },
{
    let ghost b = content.spec_bytes();
    if let Some(ref_at) = find_ref_at_position(content, line, character) {
        let ghost sp = ref_at_position(b, line as nat, character as int).unwrap();
        let (d, f) = parse_ref_target(ref_at.ref_string.as_str());
        proof {
            lemma_ref_target_shift(b, ref_at.ref_string@, sp.0, sp.1);
            assert(target_is((d, f), ref_target(b, sp.0, sp.1), b, Seq::empty()));
            lemma_target_doc_irrelevant((d, f), ref_target(b, sp.0, sp.1), b, doc_id@);
        }
        return Some((d, f));
    }
    if let Some((target, _fragment)) = find_supersigil_ref_at_position(content, line, character) {
        return Some((doc_id.to_owned(), Some(target)));
    }
    if is_in_supersigil_fence(content, line) && component_name_at_position(
        content,
        line,
        character,
    ).is_some() {
        if let Some(id) = extract_id_attribute_on_line(content, line) {
            return Some((doc_id.to_owned(), Some(id)));
        }
    }
    if is_in_frontmatter(content, line) {
        return Some((doc_id.to_owned(), None));
    }
    None
}

/// [`find_reference_target`] on any input: `None` when the content is too
/// long for 32-bit offsets or the lookup would slice inside a character,
/// else `Some` of the target, if any.
pub fn find_reference_target_checked(content: &str, line: u32, character: u32, doc_id: &str) -> (r:
    Option<Option<(String, Option<String>)>>)
    ensures
        match r {
            None => !(content.spec_bytes().len() <= u32::MAX && reference_lookup_ok(
                content.spec_bytes(),
                line as nat,
                character as int,
            )),
            Some(t) => content.spec_bytes().len() <= u32::MAX && reference_lookup_ok(
                content.spec_bytes(),
                line as nat,
                character as int,
            ) && match reference_target(content.spec_bytes(), line as nat, character as int) {
                None => t is None,
                Some(s) => t matches Some(x) && target_is(x, s, content.spec_bytes(), doc_id@),
            },
        },
{
    if content.as_bytes().len() > 0xffff_ffffusize || !reference_lookup_ok_exec(content, line, character) {
        return None;
    }
    Some(find_reference_target(content, line, character, doc_id))
}

/// Targets built from spans only do not depend on the document ID.
pub proof fn lemma_target_doc_irrelevant(
    x: (String, Option<String>),
    t: (Piece, Option<Piece>),
    b: Seq<u8>,
    d: Seq<char>,
)
    requires
        t.0 is Span,
        t.1 matches Some(p) ==> p is Span,
        target_is(x, t, b, Seq::empty()),
    ensures
        target_is(x, t, b, d),
{
}

/// Splitting a ref at `#` gives the same pieces whether done on the ref
/// string itself or on the document bytes it was taken from.
pub proof fn lemma_ref_target_shift(b: Seq<u8>, s: Seq<char>, rs: int, re: int)
    requires
        0 <= rs <= re <= b.len(),
        encode_utf8(s) == b.subrange(rs, re),
    ensures
        forall|x: (String, Option<String>)|
            target_is(x, ref_target(encode_utf8(s), 0, encode_utf8(s).len() as int), encode_utf8(s), Seq::empty())
                ==> target_is(x, ref_target(b, rs, re), b, Seq::empty()),
{
    let sb = encode_utf8(s);
    lemma_find_shift(b, sb, rs, re, hash_spec());
    lemma_find_from_bounds(sb, 0, sb.len() as int, hash_spec());
    assert forall|x: (String, Option<String>)|
        target_is(x, ref_target(sb, 0, sb.len() as int), sb, Seq::empty()) implies target_is(
        x,
        ref_target(b, rs, re),
        b,
        Seq::empty(),
    ) by {
        match find_from(sb, 0, sb.len() as int, hash_spec()) {
            Some(h) => {
                assert(sb.subrange(0, h) =~= b.subrange(rs, rs + h));
                assert(sb.subrange(h + 1, sb.len() as int) =~= b.subrange(rs + h + 1, re));
            },
            None => {
                assert(sb.subrange(0, sb.len() as int) =~= b.subrange(rs, re));
            },
        }
    }
}

/// Searching a copy of a window finds the same offsets, shifted.
pub proof fn lemma_find_shift(b: Seq<u8>, sb: Seq<u8>, rs: int, re: int, n: Seq<u8>)
    requires
        0 <= rs <= re <= b.len(),
        sb == b.subrange(rs, re),
    ensures
        match find_from(sb, 0, sb.len() as int, n) {
            Some(h) => find_from(b, rs, re, n) == Some(rs + h),
            None => find_from(b, rs, re, n) is None,
        },
{
    lemma_find_shift_from(b, sb, rs, re, n, 0);
}

/// Searching a copy of a window backwards finds the same offsets, shifted.
pub proof fn lemma_rfind_shift(b: Seq<u8>, sb: Seq<u8>, rs: int, re: int, n: Seq<u8>)
    requires
        0 <= rs <= re <= b.len(),
        sb == b.subrange(rs, re),
    ensures
        match rfind_in(sb, 0, sb.len() as int, n) {
            Some(h) => rfind_in(b, rs, re, n) == Some(rs + h),
            None => rfind_in(b, rs, re, n) is None,
        },
{
    lemma_rfind_shift_to(b, sb, rs, re, n, sb.len() - n.len());
}

proof fn lemma_rfind_shift_to(b: Seq<u8>, sb: Seq<u8>, rs: int, re: int, n: Seq<u8>, top: int)
    requires
        0 <= rs <= re <= b.len(),
        sb == b.subrange(rs, re),
        top <= sb.len() - n.len(),
    ensures
        match rfind_to(sb, 0, top, n) {
            Some(h) => rfind_to(b, rs, rs + top, n) == Some(rs + h),
            None => rfind_to(b, rs, rs + top, n) is None,
        },
    decreases top + 1,
{
    if top >= 0 {
        assert(matches_at(sb, top, n) == matches_at(b, rs + top, n)) by {
            if matches_at(sb, top, n) {
                assert forall|k: int| 0 <= k < n.len() implies #[trigger] b[rs + top + k] == n[k] by {
                    assert(sb[top + k] == n[k]);
                }
            }
            if matches_at(b, rs + top, n) {
                assert forall|k: int| 0 <= k < n.len() implies #[trigger] sb[top + k] == n[k] by {
                    assert(b[rs + top + k] == n[k]);
                }
            }
        }
        if !matches_at(sb, top, n) {
            lemma_rfind_shift_to(b, sb, rs, re, n, top - 1);
        }
    }
}

proof fn lemma_find_shift_from(b: Seq<u8>, sb: Seq<u8>, rs: int, re: int, n: Seq<u8>, i: int)
    requires
        0 <= rs <= re <= b.len(),
        sb == b.subrange(rs, re),
        0 <= i,
    ensures
        match find_from(sb, i, sb.len() as int, n) {
            Some(h) => find_from(b, rs + i, re, n) == Some(rs + h),
            None => find_from(b, rs + i, re, n) is None,
        },
    decreases sb.len() + 1 - i,
{
    if i + n.len() > sb.len() {
    } else {
        assert(matches_at(sb, i, n) == matches_at(b, rs + i, n)) by {
            if matches_at(sb, i, n) {
                assert forall|k: int| 0 <= k < n.len() implies #[trigger] b[rs + i + k] == n[k] by {
                    assert(sb[i + k] == n[k]);
                }
            }
            if matches_at(b, rs + i, n) {
                assert forall|k: int| 0 <= k < n.len() implies #[trigger] sb[i + k] == n[k] by {
                    assert(b[rs + i + k] == n[k]);
                }
            }
        }
        if !matches_at(sb, i, n) {
            lemma_find_shift_from(b, sb, rs, re, n, i + 1);
        }
    }
}

/// The reference target at a ref under the cursor is that ref split at its
/// first `#`: the text before it names the document, the text after it (if
/// there is a `#`) the fragment.  Without a ref under the cursor, any
/// target's document is the current document.
pub proof fn law_reference_target_splits_the_ref(b: Seq<u8>, line: nat, ch: int)
    ensures
        ref_at_position(b, line, ch) matches Some(sp) ==> reference_target(b, line, ch) == Some(
            match find_from(b, sp.0, sp.1, hash_spec()) {
                Some(h) => (Piece::Span(sp.0, h), Some(Piece::Span(h + 1, sp.1))),
                None => (Piece::Span(sp.0, sp.1), None::<Piece>),
            },
        ),
        ref_at_position(b, line, ch) is None ==> (reference_target(b, line, ch) matches Some(t) ==> t.0
            == Piece::DocId),
{
}

} // verus!
