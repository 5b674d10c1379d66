//! Rename support: the rename target under the cursor and the validation
//! of new names.

use vstd::prelude::*;
use vstd::string::StringSliceAdditionalSpecFns;
use vstd::utf8::{encode_utf8, valid_utf8};
use crate::definition::{
    comma_spec, find_ref_at_position, hash_spec, quote_spec, ref_at_attrs, ref_at_position, ref_in_value,
    ref_part_span, RefPart, RefSpan,
};
use crate::fence::{in_supersigil_fence, is_in_supersigil_fence};
use crate::hover::{component_name_at, component_name_at_position, component_name_lookup_ok, name_lookup_ok_at};
use crate::references::{
    extract_id_attribute_on_line, find_supersigil_ref_at_position, id_attr_on_line, in_frontmatter,
    is_in_frontmatter, lemma_find_shift, supersigil_ref_at,
};
use crate::text::{
    char_start, find_exec, find_from, find_ws, find_ws_exec, lemma_after_ascii, lemma_ascii_start,
    lemma_find_from_bounds, lemma_find_ws_bounds, lemma_nth_line, lemma_skip_ws_back_bounds,
    lemma_skip_ws_bounds, lemma_skip_ws_char_start, matches_at, matches_at_exec, nth_line,
    nth_line_exec, skip_ws, skip_ws_back, skip_ws_back_exec, skip_ws_exec, substring, ws_len_at,
};
use crate::tokens::{
    id_key, id_key_spec, space_id_attr, space_id_attr_spec, supersigil_ref, supersigil_ref_spec,
};

verus! {

broadcast use vstd::utf8::encode_utf8_valid_utf8;

/// A byte-offset range within a single source line.
#[derive(Debug, Clone, Copy, PartialEq, Eq, Structural)]
pub struct LineRange {
    /// 0-based line number.
    pub line: u32,
    /// Byte offset of range start within the line.
    pub start: u32,
    /// Byte offset of range end (exclusive) within the line.
    pub end: u32,
}

/// What the user intends to rename.
#[derive(Debug, Clone, PartialEq, Eq)]
pub enum RenameTarget {
    /// Rename a component ID (fragment).
    ComponentId { doc_id: String, component_id: String, range: LineRange },
    /// Rename a document ID.
    DocumentId { doc_id: String, range: LineRange },
}

/// A string of a rename target: the document's own ID, bytes `[a, z)` of
/// the document, or the empty string.
pub enum Text {
    DocId,
    Span(int, int),
    Empty,
}

/// The rename target, with its strings given as [`Text`]s and its range
/// as `(line, start, end)`.
pub enum TargetSpec {
    ComponentId { doc_id: Text, component_id: Text, range: (int, int, int) },
    DocumentId { doc_id: Text, range: (int, int, int) },
}

/// `s` is the string that `t` denotes.
pub open spec fn text_is(s: String, t: Text, b: Seq<u8>, doc_id: Seq<char>) -> bool {
    match t {
        Text::DocId => s@ == doc_id,
        Text::Span(a, z) => encode_utf8(s@) == b.subrange(a, z),
        Text::Empty => s@ == Seq::<char>::empty(),
    }
}

/// `r` holds the line and the offsets of `t`, cast to `u32`.
pub open spec fn range_is(r: LineRange, t: (int, int, int)) -> bool {
    r.line == t.0 && r.start == t.1 as u32 && r.end == t.2 as u32
}

/// `r` is the exec value of the target `t`.
pub open spec fn rename_target_is(r: RenameTarget, t: TargetSpec, b: Seq<u8>, doc_id: Seq<char>) -> bool {
    match (r, t) {
        (
            RenameTarget::ComponentId { doc_id: d, component_id: c, range },
            TargetSpec::ComponentId { doc_id: td, component_id: tc, range: tr },
        ) => text_is(d, td, b, doc_id) && text_is(c, tc, b, doc_id) && range_is(range, tr),
        (
            RenameTarget::DocumentId { doc_id: d, range },
            TargetSpec::DocumentId { doc_id: td, range: tr },
        ) => text_is(d, td, b, doc_id) && range_is(range, tr),
        _ => false,
    }
}

/// The target named by a located ref: its fragment when the cursor is on
/// the fragment, else its document ID.
pub open spec fn target_from_ref(b: Seq<u8>, line: int, sp: RefSpan) -> TargetSpec {
    let range = (line, sp.3, sp.4);
    match sp.2 {
        RefPart::Fragment => match find_from(b, sp.0, sp.1, hash_spec()) {
            Some(h) => TargetSpec::ComponentId {
                doc_id: Text::Span(sp.0, h),
                component_id: Text::Span(h + 1, sp.1),
                range,
            },
            None => TargetSpec::ComponentId {
                doc_id: Text::Span(sp.0, sp.1),
                component_id: Text::Empty,
                range,
            },
        },
        RefPart::DocId => match find_from(b, sp.0, sp.1, hash_spec()) {
            Some(h) => TargetSpec::DocumentId { doc_id: Text::Span(sp.0, h), range },
            None => TargetSpec::DocumentId { doc_id: Text::Span(sp.0, sp.1), range },
        },
    }
}

/// The `supersigil-ref=` target: the range starts after the first
/// `supersigil-ref=` of the line and spans the target's length.
pub open spec fn target_from_sref(b: Seq<u8>, line: nat, ch: int) -> Option<TargetSpec> {
    match supersigil_ref_at(b, line, ch) {
        None => None,
        Some((t, _)) => match nth_line(b, line) {
            None => None,
            Some((ls, le)) => match find_from(b, ls, le, supersigil_ref_spec()) {
                None => None,
                Some(p) => {
                    let vs = p - ls + supersigil_ref_spec().len();
                    Some(
                        TargetSpec::ComponentId {
                            doc_id: Text::DocId,
                            component_id: Text::Span(t.0, t.1),
                            range: (line as int, vs, vs + (t.1 - t.0)),
                        },
                    )
                },
            },
        },
    }
}

/// The value of the first ` id="..."` of the line, as absolute offsets
/// `(vs, ve)`, if present and non-empty.
pub open spec fn space_id_value(b: Seq<u8>, ls: int, le: int) -> Option<(int, int)> {
    match find_from(b, ls, le, space_id_attr_spec()) {
        None => None,
        Some(p) => {
            let vs = p + space_id_attr_spec().len();
            match find_from(b, vs, le, quote_spec()) {
                None => None,
                Some(ve) => if ve == vs {
                    None
                } else {
                    Some((vs, ve))
                },
            }
        },
    }
}

/// The cursor is directly on an ` id="..."` value of the line: the value
/// and its range within the line.
pub open spec fn id_value_at(b: Seq<u8>, line: nat, ch: int) -> Option<(int, int)> {
    match nth_line(b, line) {
        None => None,
        Some((ls, le)) => match space_id_value(b, ls, le) {
            None => None,
            Some((vs, ve)) => if vs - ls <= ch && ch < ve - ls {
                Some((vs, ve))
            } else {
                None
            },
        },
    }
}

/// A component ID under the cursor inside a fence: on an ` id="..."`
/// value, or on a component tag name whose line has an `id="..."`.
pub open spec fn target_from_component(b: Seq<u8>, line: nat, ch: int) -> Option<TargetSpec> {
    if !in_supersigil_fence(b, line) {
        None
    } else {
        match (id_value_at(b, line, ch), nth_line(b, line)) {
            (Some((vs, ve)), Some((ls, _))) => Some(
                TargetSpec::ComponentId {
                    doc_id: Text::DocId,
                    component_id: Text::Span(vs, ve),
                    range: (line as int, vs - ls, ve - ls),
                },
            ),
            _ => if component_name_at(b, line, ch) is Some && id_attr_on_line(b, line) is Some {
                let (a, z) = id_attr_on_line(b, line).unwrap();
                match nth_line(b, line) {
                    None => None,
                    Some((ls, le)) => match find_from(b, ls, le, space_id_attr_spec()) {
                        None => None,
                        Some(p) => {
                            let vs = p - ls + space_id_attr_spec().len();
                            Some(
                                TargetSpec::ComponentId {
                                    doc_id: Text::DocId,
                                    component_id: Text::Span(a, z),
                                    range: (line as int, vs, vs + (z - a)),
                                },
                            )
                        },
                    },
                }
            } else {
                None
            },
        }
    }
}

/// The `id:` value of a frontmatter line `[s, e)`, as absolute offsets.
pub open spec fn fm_id_value(b: Seq<u8>, s: int, e: int) -> Option<(int, int)> {
    let t = skip_ws(b, s, e);
    if !(t + id_key_spec().len() <= e && matches_at(b, t, id_key_spec())) {
        None
    } else {
        let p = skip_ws(b, t + 3, e);
        let q = skip_ws_back(b, p, e);
        if p == q {
            None
        } else {
            Some((p, q))
        }
    }
}

/// The frontmatter `id:` value under the cursor.
pub open spec fn target_from_frontmatter(b: Seq<u8>, line: nat, ch: int) -> Option<TargetSpec> {
    if !in_frontmatter(b, line) {
        None
    } else {
        match nth_line(b, line) {
            None => None,
            Some((ls, le)) => match fm_id_value(b, ls, le) {
                None => None,
                Some((p, q)) => if ch < p - ls || ch >= q - ls {
                    None
                } else {
                    Some(
                        TargetSpec::DocumentId { doc_id: Text::DocId, range: (line as int, p - ls, q - ls) },
                    )
                },
            },
        }
    }
}

/// The rename target at the cursor, in priority order: a ref string, a
/// `supersigil-ref=` token, a component ID, the frontmatter `id:` value.
pub open spec fn rename_target(b: Seq<u8>, line: nat, ch: int) -> Option<TargetSpec> {
    match ref_at_position(b, line, ch) {
        Some(sp) => Some(target_from_ref(b, line as int, sp)),
        None => match target_from_sref(b, line, ch) {
            Some(t) => Some(t),
            None => match target_from_component(b, line, ch) {
                Some(t) => Some(t),
                None => target_from_frontmatter(b, line, ch),
            },
        },
    }
}

/// The component-name lookup of [`find_rename_target`] does not slice
/// inside a character when it is reached.
pub open spec fn rename_lookup_ok(b: Seq<u8>, line: nat, ch: int) -> bool {
    (ref_at_position(b, line, ch) is None && target_from_sref(b, line, ch) is None
        && in_supersigil_fence(b, line) && id_value_at(b, line, ch) is None) ==> name_lookup_ok_at(
        b,
        line,
        ch,
    )
}

/// Whether finding the rename target at the cursor stays on character
/// boundaries: the condition that `find_rename_target` requires.
pub fn rename_lookup_ok_exec(content: &str, line: u32, character: u32) -> (r: bool)
    requires
        content.spec_bytes().len() <= u32::MAX,
    ensures
        r == rename_lookup_ok(content.spec_bytes(), line as nat, character as int),
{
    find_ref_at_position(content, line, character).is_some()
        || try_supersigil_ref(content, line, character, "").is_some()
        || !is_in_supersigil_fence(content, line)
        || find_id_value_at_position(content, line, character).is_some()
        || component_name_lookup_ok(content, line, character)
}

/// Build a [`RenameTarget`] from the ref under the cursor.
fn rename_target_from_ref(
    content: &str,
    ref_string: &str,
    part: RefPart,
    line: u32,
    part_start: u32,
    part_end: u32,
    Ghost(rs): Ghost<int>,
    Ghost(re): Ghost<int>,
) -> (r: RenameTarget)
    requires
        0 <= rs <= re <= content.spec_bytes().len(),
        encode_utf8(ref_string@) == content.spec_bytes().subrange(rs, re),
    ensures
        rename_target_is(
            r,
            target_from_ref(content.spec_bytes(), line as int, (rs, re, part, part_start as int, part_end as int)),
            content.spec_bytes(),
            Seq::empty(),
        ),
{
    let ghost b = content.spec_bytes();
    let sb = ref_string.as_bytes();
    let range = LineRange { line, start: part_start, end: part_end };
    let hash = [35u8];
    proof {
        assert(hash@ =~= hash_spec());
        assert(valid_utf8(sb@));
        lemma_find_shift(b, sb@, rs, re, hash_spec());
        lemma_find_from_bounds(sb@, 0, sb@.len() as int, hash_spec());
        crate::text::lemma_char_start_boundary(sb@, sb@.len() as int);
    }
    match find_exec(sb, 0, sb.len(), hash.as_slice()) {
        Some(h) => {
            proof {
                assert(sb@[h + 0] == hash_spec()[0]);
                lemma_ascii_start(sb@, h as int);
                lemma_after_ascii(sb@, h as int);
                assert(sb@.subrange(0, h as int) =~= b.subrange(rs, rs + h));
                assert(sb@.subrange(h + 1, sb@.len() as int) =~= b.subrange(rs + h + 1, re));
            }
            let d = substring(ref_string, 0, h);
            match part {
                RefPart::Fragment => RenameTarget::ComponentId {
                    doc_id: d,
                    component_id: substring(ref_string, h + 1, sb.len()),
                    range,
                },
                RefPart::DocId => RenameTarget::DocumentId { doc_id: d, range },
            }
        },
        None => {
            proof {
                assert(sb@.subrange(0, sb@.len() as int) =~= b.subrange(rs, re));
            }
            let d = substring(ref_string, 0, sb.len());
            match part {
                RefPart::Fragment => RenameTarget::ComponentId {
                    doc_id: d,
                    component_id: String::new(),
                    range,
                },
                RefPart::DocId => RenameTarget::DocumentId { doc_id: d, range },
            }
        },
    }
}

/// Try to detect a `supersigil-ref=<target>` rename target.
fn try_supersigil_ref(content: &str, line: u32, character: u32, doc_id: &str) -> (r: Option<
    RenameTarget,
>)
    requires
        content.spec_bytes().len() <= u32::MAX,
    ensures
        match target_from_sref(content.spec_bytes(), line as nat, character as int) {
            None => r is None,
            Some(t) => r matches Some(x) && rename_target_is(x, t, content.spec_bytes(), doc_id@),
        },
{
    let (target, _fragment) = match find_supersigil_ref_at_position(content, line, character) {
        Some(x) => x,
        None => {
            return None;
        },
    };
    let ghost t = supersigil_ref_at(content.spec_bytes(), line as nat, character as int).unwrap().0;
    let b = content.as_bytes();
    let (ls, le) = match nth_line_exec(b, line as usize) {
        Some(x) => x,
        None => {
            return None;
        },
    };
    let prefix = supersigil_ref();
    proof {
        lemma_nth_line(b@, line as nat);
        lemma_find_from_bounds(b@, ls as int, le as int, supersigil_ref_spec());
        lemma_sref_target_len(b@, line as nat, character as int, target@);
    }
    let p = match find_exec(b, ls, le, prefix.as_slice()) {
        Some(p) => p,
        None => {
            return None;
        },
    };
    let target_len = target.as_str().as_bytes().len();
    let value_start = (p - ls) as u64 + 15;
    let target_end = value_start + target_len as u64;
    Some(
        RenameTarget::ComponentId {
            doc_id: doc_id.to_owned(),
            component_id: target,
            range: LineRange { line, start: value_start as u32, end: target_end as u32 },
        },
    )
}

/// The target found by the `supersigil-ref=` scan lies on the line.
proof fn lemma_sref_target_len(b: Seq<u8>, line: nat, ch: int, s: Seq<char>)
    requires
        supersigil_ref_at(b, line, ch) matches Some((t, _)) && encode_utf8(s) == b.subrange(t.0, t.1),
    ensures
        supersigil_ref_at(b, line, ch) matches Some((t, _)) && 0 <= t.0 <= t.1 <= b.len()
            && encode_utf8(s).len() == t.1 - t.0,
{
    lemma_nth_line(b, line);
    let (ls, le) = nth_line(b, line).unwrap();
    let t0 = skip_ws(b, ls, le);
    lemma_skip_ws_bounds(b, ls, le);
    let cnt = crate::fence::fence_delim(b, t0, le).1;
    crate::fence::lemma_run_len_bounds(b, t0, le, 96);
    crate::fence::lemma_run_len_bounds(b, t0, le, 126);
    crate::references::lemma_sref_token_bounds(b, t0 + cnt, le);
    let (ts, te) = crate::references::sref_token(b, t0 + cnt, le).unwrap();
    lemma_find_from_bounds(b, ts + 15, te, hash_spec());
}

/// Check if the cursor is directly on an ` id="..."` attribute value (not
/// on the tag name): the value and its byte offsets within the line.
pub fn find_id_value_at_position(content: &str, line: u32, character: u32) -> (r: Option<
    (String, u32, u32),
>)
    requires
        content.spec_bytes().len() <= u32::MAX,
    ensures
        match id_value_at(content.spec_bytes(), line as nat, character as int) {
            None => r is None,
            Some((vs, ve)) => r matches Some((x, s, e)) && encode_utf8(x@)
                == content.spec_bytes().subrange(vs, ve) && (nth_line(
                content.spec_bytes(),
                line as nat,
            ) matches Some((ls, _)) && s == vs - ls && e == ve - ls),
        },
{
    let b = content.as_bytes();
    let (ls, le) = match nth_line_exec(b, line as usize) {
        Some(x) => x,
        None => {
            return None;
        },
    };
    proof {
        assert(valid_utf8(b@));
        lemma_nth_line(b@, line as nat);
        lemma_find_from_bounds(b@, ls as int, le as int, space_id_attr_spec());
    }
    let needle = space_id_attr();
    let p = match find_exec(b, ls, le, needle.as_slice()) {
        Some(p) => p,
        None => {
            return None;
        },
    };
    let vs = p + 5;
    let quote = [34u8];
    proof {
        assert(quote@ =~= quote_spec());
        assert(b@[p + 4] == space_id_attr_spec()[4]);
        lemma_after_ascii(b@, p + 4);
        lemma_find_from_bounds(b@, vs as int, le as int, quote_spec());
    }
    let ve = match find_exec(b, vs, le, quote.as_slice()) {
        Some(v) => v,
        None => {
            return None;
        },
    };
    if ve == vs {
        return None;
    }
    let cursor = character as usize;
    if !(cursor >= vs - ls && cursor < ve - ls) {
        return None;
    }
    proof {
        assert(b@[ve + 0] == quote_spec()[0]);
        lemma_ascii_start(b@, ve as int);
    }
    Some((substring(content, vs, ve), (vs - ls) as u32, (ve - ls) as u32))
}

/// Try to detect a component tag or ` id="..."` value rename target.
fn try_component_id(content: &str, line: u32, character: u32, doc_id: &str) -> (r: Option<
    RenameTarget,
>)
    requires
        content.spec_bytes().len() <= u32::MAX,
        (in_supersigil_fence(content.spec_bytes(), line as nat) && id_value_at(
            content.spec_bytes(),
            line as nat,
            character as int,
        ) is None) ==> name_lookup_ok_at(content.spec_bytes(), line as nat, character as int),
    ensures
        match target_from_component(content.spec_bytes(), line as nat, character as int) {
            None => r is None,
            Some(t) => r matches Some(x) && rename_target_is(x, t, content.spec_bytes(), doc_id@),
        },
{
    if !is_in_supersigil_fence(content, line) {
        return None;
    }
    if let Some((id, start, end)) = find_id_value_at_position(content, line, character) {
        return Some(
            RenameTarget::ComponentId {
                doc_id: doc_id.to_owned(),
                component_id: id,
                range: LineRange { line, start, end },
            },
        );
    }
    if component_name_at_position(content, line, character).is_some() {
        if let Some(id) = extract_id_attribute_on_line(content, line) {
            let b = content.as_bytes();
            let (ls, le) = match nth_line_exec(b, line as usize) {
                Some(x) => x,
                None => {
                    return None;
                },
            };
            proof {
                lemma_nth_line(b@, line as nat);
                lemma_find_from_bounds(b@, ls as int, le as int, space_id_attr_spec());
                lemma_id_attr_bounds(b@, line as nat);
            }
            let needle = space_id_attr();
            let p = match find_exec(b, ls, le, needle.as_slice()) {
                Some(p) => p,
                None => {
                    return None;
                },
            };
            let id_len = id.as_str().as_bytes().len();
            let value_start = (p - ls) as u64 + 5;
            let value_end = value_start + id_len as u64;
            return Some(
                RenameTarget::ComponentId {
                    doc_id: doc_id.to_owned(),
                    component_id: id,
                    range: LineRange { line, start: value_start as u32, end: value_end as u32 },
                },
            );
        }
    }
    None
}

/// An `id="..."` value lies on its line.
proof fn lemma_id_attr_bounds(b: Seq<u8>, line: nat)
    ensures
        id_attr_on_line(b, line) matches Some((a, z)) ==> nth_line(b, line) matches Some((ls, le))
            && ls <= a <= z <= le,
{
    lemma_nth_line(b, line);
    if let Some((ls, le)) = nth_line(b, line) {
        lemma_find_from_bounds(b, ls, le, crate::tokens::id_attr_spec());
        if let Some(a) = find_from(b, ls, le, crate::tokens::id_attr_spec()) {
            lemma_find_from_bounds(b, a + 4, le, quote_spec());
        }
    }
}

/// The exec counterpart of [`fm_id_value`].
pub(crate) fn fm_id_value_exec(b: &[u8], s: usize, e: usize) -> (r: Option<(usize, usize)>)
    requires
        s <= e <= b@.len(),
    ensures
        r matches Some((p, q)) ==> fm_id_value(b@, s as int, e as int) == Some((p as int, q as int))
            && s <= p < q <= e,
        r is None ==> fm_id_value(b@, s as int, e as int) is None,
{
    let t = skip_ws_exec(b, s, e);
    let key = id_key();
    if !(3 <= e - t && matches_at_exec(b, t, key.as_slice())) {
        return None;
    }
    let p = skip_ws_exec(b, t + 3, e);
    let q = skip_ws_back_exec(b, p, e);
    if p == q {
        None
    } else {
        Some((p, q))
    }
}

/// Find the `id:` value range on a frontmatter line, as byte offsets
/// within the line.
pub fn find_frontmatter_id_range(line_str: &str) -> (r: Option<(u32, u32)>)
    requires
        line_str.spec_bytes().len() <= u32::MAX,
    ensures
        match fm_id_value(line_str.spec_bytes(), 0, line_str.spec_bytes().len() as int) {
            None => r is None,
            Some((p, q)) => r == Some((p as u32, q as u32)),
        },
{
    let b = line_str.as_bytes();
    match fm_id_value_exec(b, 0, b.len()) {
        Some((p, q)) => Some((p as u32, q as u32)),
        None => None,
    }
}

/// Try to detect a frontmatter `id:` value rename target.
fn try_frontmatter_id(content: &str, line: u32, character: u32, doc_id: &str) -> (r: Option<
    RenameTarget,
>)
    requires
        content.spec_bytes().len() <= u32::MAX,
    ensures
        match target_from_frontmatter(content.spec_bytes(), line as nat, character as int) {
            None => r is None,
            Some(t) => r matches Some(x) && rename_target_is(x, t, content.spec_bytes(), doc_id@),
        },
{
    if !is_in_frontmatter(content, line) {
        return None;
    }
    let b = content.as_bytes();
    let (ls, le) = match nth_line_exec(b, line as usize) {
        Some(x) => x,
        None => {
            return None;
        },
    };
    proof {
        lemma_nth_line(b@, line as nat);
    }
    let (p, q) = match fm_id_value_exec(b, ls, le) {
        Some(x) => x,
        None => {
            return None;
        },
    };
    let start = (p - ls) as u32;
    let end = (q - ls) as u32;
    if character < start || character >= end {
        return None;
    }
    Some(
        RenameTarget::DocumentId {
            doc_id: doc_id.to_owned(),
            range: LineRange { line, start, end },
        },
    )
}

/// Identify the rename target at the given cursor position, in priority
/// order: a ref string inside a `supersigil-xml` fence; a
/// `supersigil-ref=<target>` in a code fence info string; a component tag
/// with an `id` attribute, or the cursor on an `id` value; the YAML
/// frontmatter `id:` value.  `None` when the cursor is not on a renameable
/// position.
pub fn find_rename_target(content: &str, line: u32, character: u32, doc_id: &str) -> (r: Option<
    RenameTarget,
>)
    requires
        content.spec_bytes().len() <= u32::MAX,
        rename_lookup_ok(content.spec_bytes(), line as nat, character as int),
    ensures
        match rename_target(content.spec_bytes(), line as nat, character as int) {
            None => r is None,
            Some(t) => r matches Some(x) && rename_target_is(x, t, content.spec_bytes(), doc_id@),
        },
{
    let ghost b = content.spec_bytes();
    if let Some(ref_at) = find_ref_at_position(content, line, character) {
        let ghost sp = ref_at_position(b, line as nat, character as int).unwrap();
        let t = rename_target_from_ref(
            content,
            ref_at.ref_string.as_str(),
            ref_at.part,
            line,
            ref_at.part_start,
            ref_at.part_end,
            Ghost(sp.0),
            Ghost(sp.1),
        );
        proof {
            lemma_rename_target_doc_irrelevant(t, target_from_ref(b, line as int, sp), b, doc_id@);
        }
        return Some(t);
    }
    if let Some(t) = try_supersigil_ref(content, line, character, doc_id) {
        return Some(t);
    }
    if let Some(t) = try_component_id(content, line, character, doc_id) {
        return Some(t);
    }
    if let Some(t) = try_frontmatter_id(content, line, character, doc_id) {
        return Some(t);
    }
    None
}

/// [`find_rename_target`] on any input: `None` when the content is too long
/// for 32-bit offsets or the lookup would slice inside a character, else
/// `Some` of the target, if any.
pub fn find_rename_target_checked(content: &str, line: u32, character: u32, doc_id: &str) -> (r: Option<
    Option<RenameTarget>,
>)
    ensures
        match r {
            None => !(content.spec_bytes().len() <= u32::MAX && rename_lookup_ok(
                content.spec_bytes(),
                line as nat,
                character as int,
            )),
            Some(t) => content.spec_bytes().len() <= u32::MAX && rename_lookup_ok(
                content.spec_bytes(),
                line as nat,
                character as int,
            ) && match rename_target(content.spec_bytes(), line as nat, character as int) {
                None => t is None,
                Some(s) => t matches Some(x) && rename_target_is(x, s, content.spec_bytes(), doc_id@),
            },
        },
{
    if content.as_bytes().len() > 0xffff_ffffusize || !rename_lookup_ok_exec(content, line, character) {
        return None;
    }
    Some(find_rename_target(content, line, character, doc_id))
}

/// Targets built from ref spans only do not depend on the document ID.
proof fn lemma_rename_target_doc_irrelevant(r: RenameTarget, t: TargetSpec, b: Seq<u8>, d: Seq<
    char,
>)
    requires
        rename_target_is(r, t, b, Seq::empty()),
        match t {
            TargetSpec::ComponentId { doc_id, component_id, .. } => !(doc_id is DocId) && !(
            component_id is DocId),
            TargetSpec::DocumentId { doc_id, .. } => !(doc_id is DocId),
        },
    ensures
        rename_target_is(r, t, b, d),
{
}

/// The reason `new_name` is refused, if it is: it is empty, or contains
/// whitespace, `#` or `"` (checked in that order).
pub open spec fn name_refusal(b: Seq<u8>) -> Option<int> {
    if b.len() == 0 {
        Some(0)
    } else if find_ws(b, 0, b.len() as int) < b.len() {
        Some(1)
    } else if find_from(b, 0, b.len() as int, hash_spec()) is Some {
        Some(2)
    } else if find_from(b, 0, b.len() as int, quote_spec()) is Some {
        Some(3)
    } else {
        None
    }
}

/// Validate a new name for a rename operation: `Err(message)` if the name
/// is empty, contains whitespace, `#`, or `"`.
pub fn validate_new_name(new_name: &str) -> (r: Result<(), String>)
    ensures
        match name_refusal(new_name.spec_bytes()) {
            None => r is Ok,
            Some(k) => r matches Err(m) && m@.len() > 0 && (k == 0 ==> m@ == "New name must not be empty"@)
                && (k == 1 ==> m@ == "New name must not contain whitespace"@) && (k == 2 ==> m@
                == "New name must not contain '#'"@) && (k == 3 ==> m@
                == "New name must not contain '\"'"@),
        },
{
    let b = new_name.as_bytes();
    if b.len() == 0 {
        let m = "New name must not be empty";
        proof {
            reveal_strlit("New name must not be empty");
        }
        return Err(m.to_owned());
    }
    if find_ws_exec(b, 0, b.len()) < b.len() {
        let m = "New name must not contain whitespace";
        proof {
            reveal_strlit("New name must not contain whitespace");
        }
        return Err(m.to_owned());
    }
    let hash = [35u8];
    let quote = [34u8];
    proof {
        assert(hash@ =~= hash_spec());
        assert(quote@ =~= quote_spec());
    }
    if find_exec(b, 0, b.len(), hash.as_slice()).is_some() {
        let m = "New name must not contain '#'";
        proof {
            reveal_strlit("New name must not contain '#'");
        }
        return Err(m.to_owned());
    }
    if find_exec(b, 0, b.len(), quote.as_slice()).is_some() {
        let m = "New name must not contain '\"'";
        proof {
            reveal_strlit("New name must not contain '\"'");
        }
        return Err(m.to_owned());
    }
    Ok(())
}

/// Some byte of `b` starts the encoding of a whitespace character (one
/// with the Unicode `White_Space` property).
pub open spec fn has_whitespace(b: Seq<u8>) -> bool {
    exists|i: int| 0 <= i < b.len() && #[trigger] ws_len_at(b, i, b.len() as int) > 0
}

/// Some byte of `b` is `c`.
pub open spec fn has_byte(b: Seq<u8>, c: u8) -> bool {
    exists|i: int| 0 <= i < b.len() && #[trigger] b[i] == c
}

proof fn lemma_find_ws_found(b: Seq<u8>, i: int, hi: int)
    requires
        i <= hi,
    ensures
        find_ws(b, i, hi) < hi <==> exists|j: int| i <= j < hi && #[trigger] ws_len_at(b, j, hi) > 0,
    decreases hi - i,
{
    if i < hi && ws_len_at(b, i, hi) == 0 {
        lemma_find_ws_found(b, i + 1, hi);
        if exists|j: int| i <= j < hi && #[trigger] ws_len_at(b, j, hi) > 0 {
            let j = choose|j: int| i <= j < hi && #[trigger] ws_len_at(b, j, hi) > 0;
            assert(i + 1 <= j);
        }
    }
}

proof fn lemma_find_byte(b: Seq<u8>, c: u8)
    ensures
        find_from(b, 0, b.len() as int, seq![c]) is Some <==> has_byte(b, c),
{
    lemma_find_from_bounds(b, 0, b.len() as int, seq![c]);
    if let Some(p) = find_from(b, 0, b.len() as int, seq![c]) {
        assert(b[p + 0] == seq![c][0]);
        assert(b[p] == c);
    } else {
        if has_byte(b, c) {
            let i = choose|i: int| 0 <= i < b.len() && #[trigger] b[i] == c;
            assert(matches_at(b, i, seq![c]));
        }
    }
}

/// A new name is refused exactly when it is empty, or contains whitespace,
/// `#` or `"`; the first that applies, in that order, gives the reason.
pub proof fn law_name_refusal_rule(b: Seq<u8>)
    ensures
        (name_refusal(b) is Some) <==> (b.len() == 0 || has_whitespace(b) || has_byte(b, 35u8) || has_byte(
            b,
            34u8,
        )),
        name_refusal(b) == Some(0int) <==> b.len() == 0,
        name_refusal(b) == Some(1int) <==> (b.len() > 0 && has_whitespace(b)),
{
    lemma_find_ws_found(b, 0, b.len() as int);
    assert(hash_spec() == seq![35u8]);
    assert(quote_spec() == seq![34u8]);
    lemma_find_byte(b, 35u8);
    lemma_find_byte(b, 34u8);
}

proof fn lemma_ref_in_value_span(b: Seq<u8>, ls: int, off: int, ve: int, cur: int, ch: int)
    ensures
        ref_in_value(b, ls, off, ve, cur, ch) matches Some(Some(sp)) ==> sp == ref_part_span(
            b,
            ls,
            sp.0,
            sp.1,
            ch,
        ),
    decreases ve - off,
{
    let pe = match find_from(b, off, ve, comma_spec()) {
        Some(c) => c,
        None => ve,
    };
    if !(off <= cur && cur < pe) && !(pe >= ve || off >= ve) {
        lemma_find_from_bounds(b, off, ve, comma_spec());
        lemma_ref_in_value_span(b, ls, pe + 1, ve, cur, ch);
    }
}

proof fn lemma_ref_at_attrs_span(b: Seq<u8>, ls: int, le: int, k: int, ch: int)
    ensures
        ref_at_attrs(b, ls, le, k, ch) matches Some(sp) ==> sp == ref_part_span(b, ls, sp.0, sp.1, ch),
    decreases 4 - k,
{
    if k < 4 {
        lemma_ref_at_attrs_span(b, ls, le, k + 1, ch);
        let needle = crate::definition::ref_attr_spec(k);
        if let Some(a) = find_from(b, ls, le, needle) {
            let vs = a + needle.len();
            if let Some(ve) = find_from(b, vs, le, quote_spec()) {
                lemma_ref_in_value_span(b, ls, vs, ve, ls + ch, ch);
            }
        }
    }
}

/// The range of a rename target covers its text: the component ID of a
/// component target, the document ID of a document target, taken from the
/// line starting at `ls` (targets named by the document's own ID are not
/// constrained here).
pub open spec fn range_covers(t: TargetSpec, ls: int) -> bool {
    match t {
        TargetSpec::ComponentId { component_id: Text::Span(a, z), range, .. } => range.1 == a - ls
            && range.2 == z - ls,
        TargetSpec::DocumentId { doc_id: Text::Span(a, z), range } => range.1 == a - ls && range.2
            == z - ls,
        _ => true,
    }
}

/// The line a rename target's range lies on.
pub open spec fn target_line(t: TargetSpec) -> int {
    match t {
        TargetSpec::ComponentId { range, .. } => range.0,
        TargetSpec::DocumentId { range, .. } => range.0,
    }
}

/// Rename ranges lie on the cursor's line; when the target is the ref under
/// the cursor, or the ` id="..."` value under it, the range covers exactly
/// the text that is renamed.
pub proof fn law_rename_range_on_line(b: Seq<u8>, line: nat, ch: int)
    ensures
        rename_target(b, line, ch) matches Some(t) ==> target_line(t) == line,
        (ref_at_position(b, line, ch) is Some || (target_from_sref(b, line, ch) is None
            && in_supersigil_fence(b, line) && id_value_at(b, line, ch) is Some)) ==> (rename_target(
            b,
            line,
            ch,
        ) matches Some(t) && range_covers(t, nth_line(b, line).unwrap().0)),
{
    if let Some(sp) = ref_at_position(b, line, ch) {
        let (ls, le) = nth_line(b, line).unwrap();
        lemma_ref_at_attrs_span(b, ls, le, 0, ch);
        lemma_find_from_bounds(b, sp.0, sp.1, hash_spec());
    }
}

} // verus!
