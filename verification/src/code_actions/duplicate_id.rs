//! Renaming a duplicate ID: the first free `-N` suffix, and where the ID
//! stands in the document.

use vstd::prelude::*;
use vstd::set_lib::{lemma_int_range, lemma_len_subset, lemma_map_size, set_int_range};
use vstd::string::{StringExecFns, StringSliceAdditionalSpecFns};
use vstd::utf8::decode_utf8;
use crate::fence::{fence_mask, in_supersigil_fence, starts_at, starts_at_exec};
use crate::frontmatter::{is_delim, is_delim_exec, lemma_line_index_bound};
use crate::numerals::{decimal, lemma_decimal_injective, push_decimal};
use crate::code_actions::{ActionRequestContext, CodeAction, DuplicateIdProvider, CodeActionProvider};
use crate::diagnostics::{ActionContext, DiagnosticData, DiagnosticSource, GraphDiagnosticKind};
use crate::position::{Range, TextEdit};
use crate::report::Diagnostic;
use crate::rename_edits::{line_range, line_range_exec};
use crate::text::{
    find_exec, find_from, lemma_after_ascii, lemma_ascii_start, lemma_find_from_bounds,
    lemma_line_start_bounds, lemma_line_start_none_after, lemma_next_nl_bounds, lemma_nth_line, line_at_exec, line_start,
    matches_at, matches_at_exec, nth_line, nth_line_exec, same_str, skip_ws, skip_ws_back,
    skip_ws_back_exec, skip_ws_exec, slice_str,
};
use crate::tokens::{id_attr, id_attr_spec, id_key, id_key_spec};

verus! {

broadcast use vstd::utf8::encode_utf8_decode_utf8, vstd::utf8::encode_utf8_valid_utf8;

// ---------------------------------------------------------------------------
// The first free suffix
// ---------------------------------------------------------------------------

/// `base-n`.
pub open spec fn suffixed(base: Seq<char>, n: nat) -> Seq<char> {
    base + seq!['-'] + decimal(n)
}

/// The characters of each ID in `ids`.
pub open spec fn id_views(ids: Seq<&str>) -> Seq<Seq<char>> {
    ids.map_values(|s: &str| s@)
}

/// `s` is one of `ids`.
pub open spec fn id_listed(ids: Seq<Seq<char>>, s: Seq<char>) -> bool {
    ids.contains(s)
}

/// `n` is the first number from 2 on whose `base-n` is not in `ids`.
pub open spec fn first_free_suffix(base: Seq<char>, ids: Seq<Seq<char>>, n: nat) -> bool {
    &&& 2 <= n
    &&& !id_listed(ids, suffixed(base, n))
    &&& forall|k: nat| 2 <= k < n ==> id_listed(ids, #[trigger] suffixed(base, k))
}

proof fn lemma_suffixed_injective(base: Seq<char>, n: nat, m: nat)
    requires
        suffixed(base, n) == suffixed(base, m),
    ensures
        n == m,
{
    let p = base.len() + 1int;
    assert(suffixed(base, n).skip(p) =~= decimal(n));
    assert(suffixed(base, m).skip(p) =~= decimal(m));
    lemma_decimal_injective(n, m);
}

/// If `base-2` through `base-n` are all taken, `ids` has at least `n - 1`
/// entries: distinct numbers give distinct candidates.
proof fn lemma_taken_bound(base: Seq<char>, ids: Seq<Seq<char>>, n: nat)
    requires
        2 <= n,
        forall|k: nat| 2 <= k <= n ==> id_listed(ids, #[trigger] suffixed(base, k)),
    ensures
        n - 1 <= ids.len(),
{
    let range = set_int_range(2, n + 1int);
    let f = |k: int| suffixed(base, k as nat);
    let image = range.map(f);
    let views = ids;
    lemma_int_range(2, n + 1int);
    assert(vstd::relations::injective_on(f, range)) by {
        assert forall|x: int, y: int| range.contains(x) && range.contains(y) && #[trigger] f(x)
            == #[trigger] f(y) implies x == y by {
            lemma_suffixed_injective(base, x as nat, y as nat);
        }
    }
    lemma_map_size(range, image, f);
    assert(image.subset_of(views.to_set())) by {
        assert forall|s: Seq<char>| image.contains(s) implies views.to_set().contains(s) by {
            let k = choose|k: int| range.contains(k) && f(k) == s;
            assert(id_listed(ids, suffixed(base, k as nat)));
        }
    }
    views.lemma_cardinality_of_set();
    lemma_len_subset(image, views.to_set());
}

/// Whether `s` is one of `ids`.
fn listed(ids: &[&str], s: &str) -> (r: bool)
    ensures
        r == id_listed(id_views(ids@), s@),
{
    let mut i: usize = 0;
    while i < ids.len()
        invariant
            0 <= i <= ids@.len(),
            forall|j: int| 0 <= j < i ==> ids@[j]@ != s@,
        decreases ids@.len() - i,
    {
        if same_str(ids[i], s) {
            proof {
                assert(id_views(ids@)[i as int] == s@);
            }
            return true;
        }
        i = i + 1;
    }
    proof {
        if id_listed(id_views(ids@), s@) {
            let j = choose|j: int| 0 <= j < id_views(ids@).len() && id_views(ids@)[j] == s@;
            assert(ids@[j]@ == s@);
        }
    }
    false
}

/// Try `{base_id}-2`, `{base_id}-3`, ... and return the first one that is
/// not in `existing_ids`.
pub fn find_unique_suffix(base_id: &str, existing_ids: &[&str]) -> (r: String)
    ensures
        exists|n: nat| first_free_suffix(base_id@, id_views(existing_ids@), n) && r@ == suffixed(base_id@, n),
{
    let len = existing_ids.len();
    let mut n: u128 = 2;
    loop
        invariant
            len == existing_ids@.len(),
            2 <= n <= existing_ids@.len() + 2,
            forall|k: nat| 2 <= k < n ==> id_listed(id_views(existing_ids@), #[trigger] suffixed(base_id@, k)),
        decreases existing_ids@.len() + 2 - n,
    {
        let mut candidate = String::from_str(base_id);
        candidate.append("-");
        proof {
            reveal_strlit("-");
        }
        push_decimal(&mut candidate, n);
        assert(candidate@ == suffixed(base_id@, n as nat));
        if !listed(existing_ids, candidate.as_str()) {
            return candidate;
        }
        proof {
            lemma_taken_bound(base_id@, id_views(existing_ids@), n as nat);
        }
        n = n + 1;
    }
}

// ---------------------------------------------------------------------------
// The document ID in the frontmatter
// ---------------------------------------------------------------------------

/// Where the search for a frontmatter `id:` value ends.
pub enum FrontmatterIdSearch {
    /// The value: its line and its byte range within the line.
    At { line: nat, start: int, end: int },
    /// No `id:` line of the block holds the value.
    Absent,
    /// An `id:` line whose quoted value cannot be unquoted by slicing: a
    /// lone quote, or a value whose last byte belongs to a multi-byte
    /// character.
    BadQuote,
}

/// Where the value starts after an `id:` key at the trimmed start of
/// `[s, e)`.
pub open spec fn id_key_value(b: Seq<u8>, s: int, e: int) -> Option<int> {
    let t = skip_ws(b, s, e);
    if starts_at(b, t, e, id_key_spec()) {
        Some(skip_ws(b, t + 3, e))
    } else {
        None
    }
}

/// The value `[p, e)` opens with a double or a single quote.
pub open spec fn quoted_at(b: Seq<u8>, p: int, e: int) -> bool {
    p < e && (b[p] == 34 || b[p] == 39)
}

/// A quoted value from which dropping the first and the last byte is no
/// slice of whole characters.
pub open spec fn bad_quote(b: Seq<u8>, p: int, e: int) -> bool {
    quoted_at(b, p, e) && (e - p < 2 || b[e - 1] >= 128)
}

/// The value without its quotes: its first and last byte dropped when it
/// opens with a quote.
pub open spec fn unquoted(b: Seq<u8>, p: int, e: int) -> (int, int) {
    if quoted_at(b, p, e) {
        (p + 1, e - 1)
    } else {
        (p, e)
    }
}

/// `[us, ue)`, trimmed at its end, is `id`.
pub open spec fn value_is(b: Seq<u8>, us: int, ue: int, id: Seq<u8>) -> bool {
    skip_ws_back(b, us, ue) - us == id.len() && matches_at(b, us, id)
}

/// The search from line `k` on, among the first twenty lines: the block
/// opens at the first `---` line and ends at the next one.
pub open spec fn fm_id_search(b: Seq<u8>, k: nat, in_fm: bool, id: Seq<u8>) -> FrontmatterIdSearch
    decreases 20 - k,
{
    if k >= 20 {
        FrontmatterIdSearch::Absent
    } else {
        match nth_line(b, k) {
            None => FrontmatterIdSearch::Absent,
            Some((s, e)) => if is_delim(b, s, e) {
                if in_fm {
                    FrontmatterIdSearch::Absent
                } else {
                    fm_id_search(b, k + 1, true, id)
                }
            } else if !in_fm {
                fm_id_search(b, k + 1, false, id)
            } else {
                match id_key_value(b, s, e) {
                    None => fm_id_search(b, k + 1, true, id),
                    Some(p) => if bad_quote(b, p, e) {
                        FrontmatterIdSearch::BadQuote
                    } else {
                        let (us, ue) = unquoted(b, p, e);
                        if value_is(b, us, ue, id) {
                            FrontmatterIdSearch::At { line: k, start: us - s, end: us - s + id.len() }
                        } else {
                            fm_id_search(b, k + 1, true, id)
                        }
                    },
                }
            },
        }
    }
}

/// The frontmatter search of `content` for `id`.
pub open spec fn frontmatter_id_search(content: Seq<u8>, id: Seq<u8>) -> FrontmatterIdSearch {
    fm_id_search(content, 0, false, id)
}

proof fn lemma_fm_id_search_none(b: Seq<u8>, k: nat, in_fm: bool, id: Seq<u8>)
    requires
        line_start(b, k) is None,
    ensures
        fm_id_search(b, k, in_fm, id) == FrontmatterIdSearch::Absent,
{
}

/// The frontmatter search for `id`, with its outcome: `Err(())` when the
/// `id:` line holding a value in quotes cannot be unquoted.
fn scan_frontmatter_id(content: &str, id: &str) -> (r: Result<Option<Range>, ()>)
    requires
        content.spec_bytes().len() <= u32::MAX,
    ensures
        match frontmatter_id_search(content.spec_bytes(), id.spec_bytes()) {
            FrontmatterIdSearch::At { line, start, end } => r == Ok::<Option<Range>, ()>(
                Some(line_range(content.spec_bytes(), line, start, end)),
            ),
            FrontmatterIdSearch::Absent => r == Ok::<Option<Range>, ()>(None),
            FrontmatterIdSearch::BadQuote => r is Err,
        },
{
    let b = content.as_bytes();
    let idb = id.as_bytes();
    if b.len() == 0 {
        return Ok(None);
    }
    let key = id_key();
    let mut k: usize = 0;
    let mut st: usize = 0;
    let mut in_fm = false;
    loop
        invariant
            st < b@.len() <= u32::MAX,
            k <= st,
            b@ == content.spec_bytes(),
            idb@ == id.spec_bytes(),
            key@ == id_key_spec(),
            line_start(b@, k as nat) == Some(st as int),
            frontmatter_id_search(b@, idb@) == fm_id_search(b@, k as nat, in_fm, idb@),
        decreases b@.len() - k,
    {
        if k >= 20 {
            return Ok(None);
        }
        let (e, next) = line_at_exec(b, st);
        proof {
            lemma_next_nl_bounds(b@, st as int);
            lemma_nth_line(b@, k as nat);
        }
        if is_delim_exec(b, st, e) {
            if in_fm {
                return Ok(None);
            }
            in_fm = true;
        } else if in_fm {
            let t = skip_ws_exec(b, st, e);
            if starts_at_exec(b, t, e, key.as_slice()) {
                let p = skip_ws_exec(b, t + 3, e);
                let quoted = p < e && (b[p] == 34 || b[p] == 39);
                if quoted && (e - p < 2 || b[e - 1] >= 128) {
                    return Err(());
                }
                let (us, ue) = if quoted {
                    (p + 1, e - 1)
                } else {
                    (p, e)
                };
                let q = skip_ws_back_exec(b, us, ue);
                if q - us == idb.len() && matches_at_exec(b, us, idb) {
                    return Ok(Some(line_range_exec(content, k, st, e, us - st, us - st + idb.len())));
                }
            }
        }
        match next {
            Some(t) => {
                st = t;
                k = k + 1;
            },
            None => {
                proof {
                    lemma_fm_id_search_none(b@, (k + 1) as nat, in_fm, idb@);
                }
                return Ok(None);
            },
        }
    }
}

/// Find the range of the ID value in the YAML frontmatter (`id: value`,
/// `id: "value"` or `id: 'value'`), within the first frontmatter block of
/// the first twenty lines.
pub fn find_frontmatter_id(content: &str, id: &str) -> (r: Option<Range>)
    requires
        content.spec_bytes().len() <= u32::MAX,
        !(frontmatter_id_search(content.spec_bytes(), id.spec_bytes()) is BadQuote),
    ensures
        match frontmatter_id_search(content.spec_bytes(), id.spec_bytes()) {
            FrontmatterIdSearch::At { line, start, end } => r == Some(
                line_range(content.spec_bytes(), line, start, end),
            ),
            _ => r is None,
        },
{
    match scan_frontmatter_id(content, id) {
        Ok(r) => r,
        Err(()) => None,
    }
}

/// Whether the frontmatter `id:` line, if the search for `id` reaches one
/// whose value opens with a quote, can be unquoted: the condition that
/// `find_frontmatter_id` requires.
pub fn frontmatter_id_quote_ok(content: &str, id: &str) -> (r: bool)
    requires
        content.spec_bytes().len() <= u32::MAX,
    ensures
        r == !(frontmatter_id_search(content.spec_bytes(), id.spec_bytes()) is BadQuote),
{
    scan_frontmatter_id(content, id).is_ok()
}

// ---------------------------------------------------------------------------
// A component ID near the diagnostic
// ---------------------------------------------------------------------------

/// `id="`, the ID, and a closing quote.
pub open spec fn id_needle(id: Seq<u8>) -> Seq<u8> {
    id_attr_spec() + id + seq![34u8]
}

/// The first of `count` lines from line `k` on that holds `n`: the line
/// and the offset of the first match within it.
pub open spec fn needle_search(b: Seq<u8>, k: nat, count: nat, n: Seq<u8>) -> Option<(nat, int)>
    decreases count,
{
    if count == 0 {
        None
    } else {
        match nth_line(b, k) {
            None => None,
            Some((s, e)) => match find_from(b, s, e, n) {
                Some(p) => Some((k, p - s)),
                None => needle_search(b, k + 1, (count - 1) as nat, n),
            },
        }
    }
}

/// The search for `id="<id>"` around the diagnostic's line: its five lines
/// from there on, then the two lines before it.
pub open spec fn component_id_search(b: Seq<u8>, id: Seq<u8>, line: nat) -> Option<(nat, int)> {
    match needle_search(b, line, 5, id_needle(id)) {
        Some(x) => Some(x),
        None => {
            let start: nat = if line >= 2 {
                (line - 2) as nat
            } else {
                0
            };
            needle_search(b, start, (line - start) as nat, id_needle(id))
        },
    }
}

/// The range of the ID value of a match of `id="<id>"` at `off` on `line`.
pub open spec fn needle_value_range(b: Seq<u8>, found: (nat, int), id: Seq<u8>) -> Range {
    line_range(b, found.0, found.1 + 4, found.1 + 4 + id.len())
}

/// Scan `count` lines from `start_line` on for `needle` and return the
/// range of the ID value after the `id="` of the first match.
pub fn search_for_id_needle(content: &str, needle: &[u8], id: &str, start_line: usize, count: usize) -> (r:
    Option<Range>)
    requires
        content.spec_bytes().len() <= u32::MAX,
        id.spec_bytes().len() + 4 <= needle@.len(),
    ensures
        match needle_search(content.spec_bytes(), start_line as nat, count as nat, needle@) {
            Some(found) => r == Some(needle_value_range(content.spec_bytes(), found, id.spec_bytes())),
            None => r is None,
        },
{
    let b = content.as_bytes();
    let n = needle;
    let mut j: usize = 0;
    while j < count
        invariant
            0 <= j <= count,
            b@ == content.spec_bytes(),
            n@ == needle@,
            id.spec_bytes().len() + 4 <= needle@.len(),
            content.spec_bytes().len() <= u32::MAX,
            needle_search(b@, start_line as nat, count as nat, n@) == needle_search(
                b@,
                (start_line + j) as nat,
                (count - j) as nat,
                n@,
            ),
        decreases count - j,
    {
        let k = match start_line.checked_add(j) {
            Some(k) => k,
            None => {
                proof {
                    lemma_line_index_bound(b@, (start_line + j) as nat);
                    lemma_line_start_bounds(b@, (start_line + j) as nat);
                }
                return None;
            },
        };
        match nth_line_exec(b, k) {
            None => {
                return None;
            },
            Some((s, e)) => {
                proof {
                    lemma_nth_line(b@, k as nat);
                    lemma_find_from_bounds(b@, s as int, e as int, n@);
                }
                match find_exec(b, s, e, n) {
                    Some(p) => {
                        let vs = p - s + 4;
                        return Some(line_range_exec(content, k, s, e, vs, vs + id.as_bytes().len()));
                    },
                    None => {},
                }
            },
        }
        j = j + 1;
    }
    None
}

/// Find the range of the ID value in a component attribute `id="<id>"`
/// near the diagnostic: from its line forward, then just before it.
pub fn find_component_id(content: &str, id: &str, diag_range: &Range) -> (r: Option<Range>)
    requires
        content.spec_bytes().len() <= u32::MAX,
    ensures
        match component_id_search(content.spec_bytes(), id.spec_bytes(), diag_range.start.line as nat) {
            Some(found) => r == Some(needle_value_range(content.spec_bytes(), found, id.spec_bytes())),
            None => r is None,
        },
{
    let diag_line = diag_range.start.line as usize;
    let attr = id_attr();
    let quote = [34u8];
    let needle = crate::text::bytes_with(attr.as_slice(), id.as_bytes(), quote.as_slice());
    proof {
        assert(quote@ =~= seq![34u8]);
        assert(needle@ =~= id_needle(id.spec_bytes()));
    }
    match search_for_id_needle(content, needle.as_slice(), id, diag_line, 5) {
        Some(found) => Some(found),
        None => {
            let start = if diag_line >= 2 {
                diag_line - 2
            } else {
                0
            };
            search_for_id_needle(content, needle.as_slice(), id, start, diag_line - start)
        },
    }
}

// ---------------------------------------------------------------------------
// The component IDs of the file
// ---------------------------------------------------------------------------

/// The `id="..."` values on `[j, e)`, each searched after the previous
/// value's closing quote; an `id="` without a closing quote ends the line.
pub open spec fn id_values_from(b: Seq<u8>, j: int, e: int) -> Seq<(int, int)>
    decreases e - j,
{
    if j > e {
        Seq::empty()
    } else {
        match find_from(b, j, e, id_attr_spec()) {
            None => Seq::empty(),
            Some(p) => {
                proof {
                    lemma_find_from_bounds(b, j, e, id_attr_spec());
                    lemma_find_from_bounds(b, p + 4, e, seq![34u8]);
                }
                match find_from(b, p + 4, e, seq![34u8]) {
                    None => Seq::empty(),
                    Some(c) => seq![(p + 4, c)] + id_values_from(b, c + 1, e),
                }
            },
        }
    }
}

/// The `id="..."` values on the lines inside `supersigil-xml` fences, from
/// line `k` on.
pub open spec fn component_ids_from(b: Seq<u8>, k: nat) -> Seq<(int, int)>
    decreases b.len() - k,
{
    if k >= b.len() {
        Seq::empty()
    } else {
        match nth_line(b, k) {
            None => Seq::empty(),
            Some((s, e)) => (if in_supersigil_fence(b, k) {
                id_values_from(b, s, e)
            } else {
                Seq::empty()
            }) + component_ids_from(b, k + 1),
        }
    }
}

/// The texts of the component IDs of the file.
pub open spec fn component_id_texts(b: Seq<u8>) -> Seq<Seq<char>> {
    component_ids_from(b, 0).map_values(|v: (int, int)| decode_utf8(b.subrange(v.0, v.1)))
}

/// Append the `id="..."` values of the line `[s, e)`.
fn push_line_ids<'a>(content: &'a str, s: usize, e: usize, out: &mut Vec<&'a str>)
    requires
        s <= e <= content.spec_bytes().len(),
    ensures
        final(out)@.len() == old(out)@.len() + id_values_from(content.spec_bytes(), s as int, e as int).len(),
        forall|i: int| 0 <= i < old(out)@.len() ==> final(out)@[i] == old(out)@[i],
        forall|i: int| 0 <= i < id_values_from(content.spec_bytes(), s as int, e as int).len() ==> {
            let v = #[trigger] id_values_from(content.spec_bytes(), s as int, e as int)[i];
            final(out)@[old(out)@.len() + i]@ == decode_utf8(content.spec_bytes().subrange(v.0, v.1))
        },
{
    let b = content.as_bytes();
    let attr = id_attr();
    let quote = [34u8];
    proof {
        assert(quote@ =~= seq![34u8]);
        assert(vstd::utf8::valid_utf8(b@));
    }
    let ghost start = out@;
    let ghost mut done: Seq<(int, int)> = Seq::empty();
    let mut j = s;
    loop
        invariant
            s <= j <= e + 1,
            e <= b@.len(),
            b@ == content.spec_bytes(),
            attr@ == id_attr_spec(),
            quote@ == seq![34u8],
            id_values_from(b@, s as int, e as int) == done + id_values_from(b@, j as int, e as int),
            out@.len() == start.len() + done.len(),
            forall|i: int| 0 <= i < start.len() ==> out@[i] == start[i],
            forall|i: int| 0 <= i < done.len() ==> (#[trigger] out@[start.len() + i])@ == decode_utf8(
                b@.subrange(done[i].0, done[i].1),
            ),
            start == old(out)@,
        decreases e + 1 - j,
    {
        if j > e {
            proof {
                assert(done + id_values_from(b@, j as int, e as int) =~= done);
            }
            return;
        }
        proof {
            lemma_find_from_bounds(b@, j as int, e as int, id_attr_spec());
        }
        let p = match find_exec(b, j, e, attr.as_slice()) {
            Some(p) => p,
            None => {
                proof {
                    assert(done + id_values_from(b@, j as int, e as int) =~= done);
                }
                return;
            },
        };
        proof {
            lemma_find_from_bounds(b@, p + 4, e as int, seq![34u8]);
        }
        let c = match find_exec(b, p + 4, e, quote.as_slice()) {
            Some(c) => c,
            None => {
                proof {
                    assert(done + id_values_from(b@, j as int, e as int) =~= done);
                }
                return;
            },
        };
        proof {
            assert(b@[p + 3] == id_attr_spec()[3]);
            assert(b@[c + 0] == seq![34u8][0]);
            lemma_after_ascii(b@, p + 3);
            lemma_ascii_start(b@, c as int);
        }
        let v = slice_str(content, p + 4, c);
        let ghost before = out@;
        out.push(v);
        proof {
            let item = (p + 4 as int, c as int);
            assert(id_values_from(b@, j as int, e as int) == seq![item] + id_values_from(b@, c + 1, e as int));
            assert forall|i: int| 0 <= i < done.len() + 1 implies (#[trigger] out@[start.len() + i])@ == decode_utf8(
                b@.subrange(done.push(item)[i].0, done.push(item)[i].1),
            ) by {
                if i < done.len() {
                    assert(out@[start.len() + i] == before[start.len() + i]);
                }
            }
            assert(done.push(item) + id_values_from(b@, c + 1, e as int) =~= done + id_values_from(b@, j as int, e as int));
            done = done.push(item);
        }
        j = c + 1;
    }
}

/// Collect the `id="..."` values on the lines inside `supersigil-xml`
/// fences, in order.
pub fn collect_component_ids(content: &str) -> (r: Vec<&str>)
    ensures
        id_views(r@) == component_id_texts(content.spec_bytes()),
{
    let b = content.as_bytes();
    let mask = fence_mask(content);
    let mut out: Vec<&str> = Vec::new();
    if b.len() == 0 {
        proof {
            assert(component_ids_from(b@, 0) =~= Seq::<(int, int)>::empty());
            assert(id_views(out@) =~= component_id_texts(b@));
        }
        return out;
    }
    let ghost all = component_ids_from(b@, 0);
    let ghost mut done: Seq<(int, int)> = Seq::empty();
    let mut k: usize = 0;
    let mut st: usize = 0;
    loop
        invariant
            st < b@.len(),
            k <= st,
            k < mask@.len() || line_start(b@, k as nat) is None,
            b@ == content.spec_bytes(),
            all == component_ids_from(b@, 0),
            line_start(b@, k as nat) == Some(st as int),
            forall|i: int| 0 <= i < mask@.len() ==> #[trigger] line_start(b@, i as nat) is Some,
            line_start(b@, mask@.len()) is None,
            forall|i: int| 0 <= i < mask@.len() ==> #[trigger] mask@[i] == in_supersigil_fence(b@, i as nat),
            all == done + component_ids_from(b@, k as nat),
            out@.len() == done.len(),
            forall|i: int| 0 <= i < done.len() ==> (#[trigger] out@[i])@ == decode_utf8(
                b@.subrange(done[i].0, done[i].1),
            ),
        decreases b@.len() - k,
    {
        let (e, next) = line_at_exec(b, st);
        proof {
            lemma_next_nl_bounds(b@, st as int);
            lemma_nth_line(b@, k as nat);
            lemma_line_index_bound(b@, k as nat);
        }
        let ghost own = if in_supersigil_fence(b@, k as nat) {
            id_values_from(b@, st as int, e as int)
        } else {
            Seq::empty()
        };
        if mask[k] {
            let ghost before = out@;
            push_line_ids(content, st, e, &mut out);
            proof {
                assert forall|i: int| 0 <= i < (done + own).len() implies (#[trigger] out@[i])@ == decode_utf8(
                    b@.subrange((done + own)[i].0, (done + own)[i].1),
                ) by {
                    if i < done.len() {
                        assert(out@[i] == before[i]);
                    } else {
                        let m = i - done.len();
                        assert(own[m] == id_values_from(b@, st as int, e as int)[m]);
                    }
                }
            }
        } else {
            proof {
                assert(done + own =~= done);
            }
        }
        proof {
            assert(component_ids_from(b@, k as nat) == own + component_ids_from(b@, (k + 1) as nat));
            assert(all =~= (done + own) + component_ids_from(b@, (k + 1) as nat));
            done = done + own;
        }
        match next {
            Some(t) => {
                st = t;
                k = k + 1;
            },
            None => {
                proof {
                    assert(line_start(b@, (k + 1) as nat) is None);
                    assert(component_ids_from(b@, (k + 1) as nat) =~= Seq::<(int, int)>::empty());
                    assert(all =~= done);
                    assert(id_views(out@) =~= component_id_texts(b@));
                }
                return out;
            },
        }
    }
}

// ---------------------------------------------------------------------------
// The quick fix
// ---------------------------------------------------------------------------

/// `a` renames the text at `range` to `new_id`.
pub open spec fn rename_action_is(a: CodeAction, range: Range, new_id: Seq<char>) -> bool {
    &&& a.title@ == "Rename to '"@ + new_id + "'"@
    &&& a.edits@.len() == 1
    &&& a.edits@[0].range == range
    &&& a.edits@[0].new_text@ == new_id
}

/// Where the duplicate ID stands: the frontmatter value for a document ID,
/// the attribute value near the diagnostic for a component ID.
pub open spec fn duplicate_id_range(b: Seq<u8>, id: Seq<char>, is_document_id: bool, line: nat) -> Option<
    Range,
> {
    if is_document_id {
        match frontmatter_id_search(b, vstd::utf8::encode_utf8(id)) {
            FrontmatterIdSearch::At { line: l, start, end } => Some(line_range(b, l, start, end)),
            _ => None,
        }
    } else {
        match component_id_search(b, vstd::utf8::encode_utf8(id), line) {
            Some(found) => Some(needle_value_range(b, found, vstd::utf8::encode_utf8(id))),
            None => None,
        }
    }
}

/// The IDs a new one must avoid: all document IDs for a document ID, the
/// file's component IDs for a component ID.
pub open spec fn taken_ids(ctx: &ActionRequestContext, is_document_id: bool) -> Seq<Seq<char>> {
    if is_document_id {
        ctx.document_ids@.map_values(|s: String| s@)
    } else {
        component_id_texts(ctx.file_content.spec_bytes())
    }
}

/// The document IDs as string slices.
fn document_id_strs<'a>(ids: &'a [String]) -> (r: Vec<&'a str>)
    ensures
        id_views(r@) == ids@.map_values(|s: String| s@),
{
    let mut out: Vec<&str> = Vec::new();
    let mut i: usize = 0;
    while i < ids.len()
        invariant
            0 <= i <= ids@.len(),
            out@.len() == i,
            forall|j: int| 0 <= j < i ==> (#[trigger] out@[j])@ == ids@[j]@,
        decreases ids@.len() - i,
    {
        out.push(ids[i].as_str());
        i = i + 1;
    }
    proof {
        assert(id_views(out@) =~= ids@.map_values(|s: String| s@));
    }
    out
}

impl DuplicateIdProvider {
    /// Offer to rename a duplicate document or component ID to the first
    /// `<id>-N` (N from 2 on) that no other ID takes; nothing when the ID
    /// cannot be found in the file.
    pub fn actions(&self, diagnostic: &Diagnostic, data: &DiagnosticData, ctx: &ActionRequestContext) -> (r: Vec<CodeAction>)
        requires
            ctx.file_content.spec_bytes().len() <= u32::MAX,
            data.source == DiagnosticSource::Graph(GraphDiagnosticKind::DuplicateDocumentId) ==> (
            data.context matches ActionContext::DuplicateId { id, .. } ==> !(frontmatter_id_search(
                ctx.file_content.spec_bytes(),
                vstd::utf8::encode_utf8(id@),
            ) is BadQuote)),
        ensures
            match data.context {
                ActionContext::DuplicateId { id, .. } => {
                    let is_doc = data.source == DiagnosticSource::Graph(GraphDiagnosticKind::DuplicateDocumentId);
                    match duplicate_id_range(
                        ctx.file_content.spec_bytes(),
                        id@,
                        is_doc,
                        diagnostic.range.start.line as nat,
                    ) {
                        None => r@.len() == 0,
                        Some(range) => r@.len() == 1 && exists|n: nat|
                            first_free_suffix(id@, taken_ids(ctx, is_doc), n) && rename_action_is(
                                r@[0],
                                range,
                                #[trigger] suffixed(id@, n),
                            ),
                    }
                },
                _ => r@.len() == 0,
            },
    {
        let mut out: Vec<CodeAction> = Vec::new();
        let id = match &data.context {
            ActionContext::DuplicateId { id, .. } => id,
            _ => {
                return out;
            },
        };
        let is_document_id = match data.source {
            DiagnosticSource::Graph(GraphDiagnosticKind::DuplicateDocumentId) => true,
            _ => false,
        };
        let candidate = if is_document_id {
            find_frontmatter_id(ctx.file_content, id.as_str())
        } else {
            find_component_id(ctx.file_content, id.as_str(), &diagnostic.range)
        };
        let edit_range = match candidate {
            Some(r) => r,
            None => {
                return out;
            },
        };
        let existing = if is_document_id {
            document_id_strs(ctx.document_ids)
        } else {
            collect_component_ids(ctx.file_content)
        };
        let new_id = find_unique_suffix(id.as_str(), existing.as_slice());
        let mut title = String::from_str("Rename to '");
        title.append(new_id.as_str());
        title.append("'");
        let mut edits: Vec<TextEdit> = Vec::new();
        edits.push(TextEdit { range: edit_range, new_text: new_id });
        out.push(CodeAction { title, edits });
        out
    }
}

// ---------------------------------------------------------------------------
// Laws
// ---------------------------------------------------------------------------

/// The ID a duplicate is renamed to is taken by no other ID, and differs
/// from the duplicated one.
pub proof fn law_new_id_is_fresh(base: Seq<char>, ids: Seq<Seq<char>>, n: nat)
    requires
        first_free_suffix(base, ids, n),
    ensures
        !ids.contains(suffixed(base, n)),
        suffixed(base, n) != base,
{
    assert(suffixed(base, n).len() > base.len());
}

impl CodeActionProvider for DuplicateIdProvider {
    open spec fn accepts(&self, diagnostic: &Diagnostic, data: &DiagnosticData, ctx: &ActionRequestContext) -> bool {
        ctx.file_content.spec_bytes().len() <= u32::MAX && (data.source == DiagnosticSource::Graph(GraphDiagnosticKind::DuplicateDocumentId) ==> (
            data.context matches ActionContext::DuplicateId { id, .. } ==> !(frontmatter_id_search(
                ctx.file_content.spec_bytes(),
                vstd::utf8::encode_utf8(id@),
            ) is BadQuote)))
    }

    fn handles(&self, data: &DiagnosticData) -> (r: bool) {
        DuplicateIdProvider::handles(self, data)
    }

    fn actions(&self, diagnostic: &Diagnostic, data: &DiagnosticData, ctx: &ActionRequestContext) -> (r: Vec<CodeAction>) {
        DuplicateIdProvider::actions(self, diagnostic, data, ctx)
    }
}

} // verus!
