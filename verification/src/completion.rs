//! Autocomplete: detecting what the cursor is positioned inside, and the
//! context-sensitive value completions for `status` and `strategy`.

use vstd::prelude::*;
use vstd::string::StringSliceAdditionalSpecFns;
use vstd::utf8::{decode_utf8, encode_utf8, valid_utf8};
use crate::definition::{comma_spec, hash_spec, quote_spec, ref_attr_needle, ref_attr_spec, REF_ATTR_COUNT, lemma_ref_attr_ends_with_quote};
use crate::frontmatter::{delim_from, delim_from_exec, is_delim_exec, is_delim_line, lemma_delim_from_none};
use crate::position::{
    char_offset, lemma_char_offset_mono, lemma_char_offset_start, lemma_char_offset_step,
    lemma_char_range_encode, lemma_widths, utf8_width_exec,
};
use crate::text::{
    char_start, chars_of, find_exec, find_from, find_ws, find_ws_exec, lemma_after_ascii,
    lemma_ascii_start, lemma_find_from_bounds, lemma_find_ws_bounds, lemma_line_start_none_after,
    lemma_next_nl_bounds, lemma_nth_line, lemma_rfind_to_bounds, lemma_skip_ws_back_bounds,
    lemma_skip_ws_back_char_start, lemma_skip_ws_bounds, lemma_skip_ws_char_start, line_at_exec,
    line_start, matches_at, nth_line, nth_line_exec, rfind_exec, rfind_in, rfind_to, skip_ws, skip_ws_back,
    skip_ws_back_exec, skip_ws_exec, slice_str, substring,
};
use crate::tokens::{status_attr, status_attr_spec, strategy_attr, strategy_attr_spec};
use crate::unicode::{char_is_alphanumeric, is_alphanumeric};

verus! {

broadcast use vstd::utf8::encode_utf8_valid_utf8, vstd::utf8::encode_utf8_decode_utf8;

/// Describes what the cursor is positioned inside, determining which
/// completion provider to invoke.
#[derive(Debug, PartialEq)]
pub enum CompletionContext {
    /// Inside a ref-accepting attribute value before `#` or with no `#`.
    RefDocId { prefix: String },
    /// Inside a ref-accepting attribute value after `doc-id#`.
    RefFragment { doc_id: String, prefix: String },
    /// After `<`: completing a component name.
    ComponentName { prefix: String },
    /// Inside a `strategy="..."` attribute value with enclosing component.
    AttributeStrategy { prefix: String, component: Option<String> },
    /// Inside a `status="..."` attribute value with enclosing context.
    AttributeStatus { prefix: String, context: StatusContext },
    /// No recognized completion context.
    NoContext,
}

/// The enclosing context for a `status` attribute, determining which values
/// are valid.
#[derive(Debug, PartialEq)]
pub enum StatusContext {
    /// Inside YAML frontmatter: valid statuses come from the document type.
    Frontmatter,
    /// Inside a `<Task>` component.
    Task,
    /// Inside an `<Alternative>` component.
    Alternative,
    /// Inside an `<Expected>` component (free-form exit code).
    Expected,
    /// Inside an unknown or other component.
    Other(String),
}

/// [`StatusContext`] with the component name as characters.
pub enum StatusSpec {
    Frontmatter,
    Task,
    Alternative,
    Expected,
    Other(Seq<char>),
}

/// [`CompletionContext`] with its strings as byte ranges of the document,
/// or characters for enclosing component names.
pub enum ContextSpec {
    RefDocId { prefix: (int, int) },
    RefFragment { doc_id: (int, int), prefix: (int, int) },
    ComponentName { prefix: (int, int) },
    AttributeStrategy { prefix: (int, int), component: Option<Seq<char>> },
    AttributeStatus { prefix: (int, int), context: StatusSpec },
    NoContext,
}

pub open spec fn bytes_are(s: String, r: (int, int), b: Seq<u8>) -> bool {
    encode_utf8(s@) == b.subrange(r.0, r.1)
}

pub open spec fn status_is(c: StatusContext, t: StatusSpec) -> bool {
    match (c, t) {
        (StatusContext::Frontmatter, StatusSpec::Frontmatter) => true,
        (StatusContext::Task, StatusSpec::Task) => true,
        (StatusContext::Alternative, StatusSpec::Alternative) => true,
        (StatusContext::Expected, StatusSpec::Expected) => true,
        (StatusContext::Other(s), StatusSpec::Other(n)) => s@ == n,
        _ => false,
    }
}

/// `c` is the exec value of `t` for document bytes `b`.
pub open spec fn context_is(c: CompletionContext, t: ContextSpec, b: Seq<u8>) -> bool {
    match (c, t) {
        (CompletionContext::RefDocId { prefix }, ContextSpec::RefDocId { prefix: p }) => bytes_are(
            prefix,
            p,
            b,
        ),
        (
            CompletionContext::RefFragment { doc_id, prefix },
            ContextSpec::RefFragment { doc_id: d, prefix: p },
        ) => bytes_are(doc_id, d, b) && bytes_are(prefix, p, b),
        (CompletionContext::ComponentName { prefix }, ContextSpec::ComponentName { prefix: p }) => {
            bytes_are(prefix, p, b)
        },
        (
            CompletionContext::AttributeStrategy { prefix, component },
            ContextSpec::AttributeStrategy { prefix: p, component: n },
        ) => bytes_are(prefix, p, b) && match (component, n) {
            (None, None) => true,
            (Some(x), Some(y)) => x@ == y,
            _ => false,
        },
        (
            CompletionContext::AttributeStatus { prefix, context },
            ContextSpec::AttributeStatus { prefix: p, context: s },
        ) => bytes_are(prefix, p, b) && status_is(context, s),
        (CompletionContext::NoContext, ContextSpec::NoContext) => true,
        _ => false,
    }
}

// ---------------------------------------------------------------------------
// Frontmatter and enclosing component
// ---------------------------------------------------------------------------

/// Line `line` is in the frontmatter as completion sees it: line 0 is
/// `---` and `line` comes before the closing `---` (the opening delimiter
/// line counts as inside).
pub open spec fn completion_in_frontmatter(b: Seq<u8>, line: nat) -> bool {
    is_delim_line(b, 0) && match delim_from(b, 1) {
        Some(d) => line < d,
        None => false,
    }
}

/// Characters of a component name: alphanumeric or `_`.
pub open spec fn is_name_char(c: char) -> bool {
    is_alphanumeric(c) || c == '_'
}

/// Index of the first character of `cs` that is not a name character.
pub open spec fn name_end(cs: Seq<char>, k: int) -> int
    decreases cs.len() - k,
{
    if k >= cs.len() || k < 0 {
        cs.len() as int
    } else if !is_name_char(cs[k]) {
        k
    } else {
        name_end(cs, k + 1)
    }
}

/// The component name opened on the line `[s, e)`: the trimmed line starts
/// with `<` not followed by `/`, `!` or an ASCII lowercase letter, and the
/// name is the non-empty run of name characters after `<`.
pub open spec fn tag_name_on_line(b: Seq<u8>, s: int, e: int) -> Option<Seq<char>> {
    let p = skip_ws(b, s, e);
    let q = skip_ws_back(b, p, e);
    if !(p < q && b[p] == 60) {
        None
    } else if p + 1 < q && (b[p + 1] == 47 || b[p + 1] == 33 || (97 <= b[p + 1] && b[p + 1]
        <= 122)) {
        None
    } else {
        let cs = decode_utf8(b.subrange(p + 1, q));
        let k = name_end(cs, 0);
        if k == 0 {
            None
        } else {
            Some(cs.take(k))
        }
    }
}

/// The nearest component name opened on a line at or before `k`.
pub open spec fn enclosing_from(b: Seq<u8>, k: int) -> Option<Seq<char>>
    decreases k + 1,
{
    if k < 0 {
        None
    } else {
        match nth_line(b, k as nat) {
            Some((s, e)) => match tag_name_on_line(b, s, e) {
                Some(n) => Some(n),
                None => enclosing_from(b, k - 1),
            },
            None => enclosing_from(b, k - 1),
        }
    }
}

/// Check whether the given line is inside the YAML frontmatter block: the
/// region between the opening `---` (line 0, included) and the closing
/// `---` (excluded).
pub fn is_in_frontmatter(content: &str, line: usize) -> (r: bool)
    ensures
        r == completion_in_frontmatter(content.spec_bytes(), line as nat),
{
    let b = content.as_bytes();
    if b.len() == 0 {
        return false;
    }
    let (e0, next) = line_at_exec(b, 0);
    if !is_delim_exec(b, 0, e0) {
        return false;
    }
    match next {
        None => {
            proof {
                lemma_delim_from_none(b@, 1);
            }
            false
        },
        Some(t) => match delim_from_exec(b, 1, t) {
            Some(d) => line < d,
            None => false,
        },
    }
}

proof fn lemma_name_end_bounds(cs: Seq<char>, k: int)
    requires
        0 <= k <= cs.len(),
    ensures
        k <= name_end(cs, k) <= cs.len(),
    decreases cs.len() - k,
{
    if k < cs.len() && is_name_char(cs[k]) {
        lemma_name_end_bounds(cs, k + 1);
    }
}

/// The component name opened on the line `[s, e)` of `content`.
fn tag_name_on_line_exec(content: &str, b: &[u8], s: usize, e: usize) -> (r: Option<String>)
    requires
        b@ == content.spec_bytes(),
        s <= e <= b@.len(),
        char_start(b@, s as int),
        char_start(b@, e as int),
    ensures
        match tag_name_on_line(b@, s as int, e as int) {
            Some(n) => r matches Some(x) && x@ == n,
            None => r is None,
        },
{
    let p = skip_ws_exec(b, s, e);
    let q = skip_ws_back_exec(b, p, e);
    if !(p < q && b[p] == 60) {
        return None;
    }
    if p + 1 < q && (b[p + 1] == 47 || b[p + 1] == 33 || (97 <= b[p + 1] && b[p + 1] <= 122)) {
        return None;
    }
    proof {
        lemma_skip_ws_char_start(b@, s as int, e as int);
        lemma_skip_ws_back_char_start(b@, p as int, e as int);
        lemma_after_ascii(b@, p as int);
    }
    let rest = slice_str(content, p + 1, q);
    let cs = chars_of(rest);
    let ghost g = cs@;
    proof {
        assert(g == decode_utf8(b@.subrange(p + 1, q as int)));
        lemma_char_offset_start(g, 0);
        assert(g.take(0) =~= Seq::<char>::empty());
    }
    let mut k: usize = 0;
    let mut off: usize = 0;
    while k < cs.len() && (char_is_alphanumeric(cs[k]) || cs[k] == '_')
        invariant
            g == cs@,
            0 <= k <= g.len(),
            off == char_offset(g, k as int),
            name_end(g, 0) == name_end(g, k as int),
            off <= encode_utf8(g).len(),
            encode_utf8(g).len() <= usize::MAX,
        decreases g.len() - k,
    {
        proof {
            lemma_char_offset_step(g, k as int);
            lemma_char_offset_start(g, k + 1);
        }
        off = off + utf8_width_exec(cs[k]);
        k = k + 1;
    }
    if k == 0 {
        return None;
    }
    proof {
        lemma_char_offset_start(g, k as int);
        lemma_char_range_encode(g, 0, k as int);
        assert(g.subrange(0, k as int) =~= g.take(k as int));
        assert(g.take(0) =~= Seq::<char>::empty());
        lemma_char_offset_start(g, 0);
        assert(name_end(g, k as int) == k);
        assert(encode_utf8(g) == rest.spec_bytes());
    }
    let name = slice_str(rest, 0, off).to_owned();
    proof {
        assert(char_offset(g, 0) == 0);
        assert(encode_utf8(name@) == encode_utf8(g.take(k as int)));
        assert(decode_utf8(encode_utf8(name@)) == name@);
        assert(decode_utf8(encode_utf8(g.take(k as int))) == g.take(k as int));
    }
    Some(name)
}

/// Scan backward from `line` to find the nearest unmatched `<ComponentName`:
/// the name opened by the last line at or before `line` that opens one.
pub fn find_enclosing_component(content: &str, line: usize) -> (r: Option<String>)
    ensures
        match enclosing_from(content.spec_bytes(), line as int) {
            Some(n) => r matches Some(x) && x@ == n,
            None => r is None,
        },
{
    let b = content.as_bytes();
    if b.len() == 0 {
        proof {
            lemma_enclosing_no_lines(b@, line as int);
        }
        return None;
    }
    let mut found: Option<String> = None;
    let mut s: usize = 0;
    let mut i: usize = 0;
    loop
        invariant
            b@ == content.spec_bytes(),
            valid_utf8(b@),
            0 <= i <= line,
            s < b@.len(),
            line_start(b@, i as nat) == Some(s as int),
            match enclosing_from(b@, i - 1) {
                Some(n) => found matches Some(x) && x@ == n,
                None => found is None,
            },
        decreases line - i,
    {
        let (e, next) = line_at_exec(b, s);
        proof {
            lemma_nth_line(b@, i as nat);
        }
        let here = tag_name_on_line_exec(content, b, s, e);
        if here.is_some() {
            found = here;
        }
        if i == line {
            return found;
        }
        match next {
            Some(t) => {
                s = t;
                i = i + 1;
            },
            None => {
                proof {
                    lemma_line_start_none_after(b@, (i + 1) as nat, (i + 1) as nat);
                    lemma_enclosing_beyond(b@, i as int, line as int);
                }
                return found;
            },
        }
    }
}

/// Lines that do not exist contribute nothing to the backward search.
proof fn lemma_enclosing_beyond(b: Seq<u8>, last: int, k: int)
    requires
        0 <= last <= k,
        line_start(b, (last + 1) as nat) is None,
    ensures
        enclosing_from(b, k) == enclosing_from(b, last),
    decreases k - last,
{
    if k > last {
        lemma_line_start_none_after(b, (last + 1) as nat, k as nat);
        lemma_enclosing_beyond(b, last, k - 1);
    }
}

proof fn lemma_enclosing_no_lines(b: Seq<u8>, k: int)
    requires
        b.len() == 0,
    ensures
        enclosing_from(b, k) is None,
    decreases k + 1,
{
    if k >= 0 {
        lemma_line_start_none_after(b, 0, k as nat);
        lemma_enclosing_no_lines(b, k - 1);
    }
}

// ---------------------------------------------------------------------------
// Context detection
// ---------------------------------------------------------------------------

/// The token being typed in a ref value `[vs, cp)`: after the last comma,
/// with leading whitespace trimmed.
pub open spec fn ref_token_start(b: Seq<u8>, vs: int, cp: int) -> int {
    match rfind_in(b, vs, cp, comma_spec()) {
        Some(c) => skip_ws(b, c + 1, cp),
        None => vs,
    }
}

/// What the `k`-th ref attribute before the cursor `cp` on the line
/// starting at `ls` yields: `None` to go on with the next attribute.
pub open spec fn ref_context(b: Seq<u8>, ls: int, cp: int, k: int) -> Option<ContextSpec> {
    let needle = ref_attr_spec(k);
    match rfind_in(b, ls, cp, needle) {
        None => None,
        Some(a) => {
            let vs = a + needle.len();
            if find_from(b, vs, cp, quote_spec()) is Some {
                None
            } else {
                let ts = ref_token_start(b, vs, cp);
                match rfind_in(b, ts, cp, hash_spec()) {
                    Some(h) => Some(ContextSpec::RefFragment { doc_id: (ts, h), prefix: (h + 1, cp) }),
                    None => Some(ContextSpec::RefDocId { prefix: (ts, cp) }),
                }
            }
        },
    }
}

/// The ref attributes `k..` in order.
pub open spec fn ref_contexts(b: Seq<u8>, ls: int, cp: int, k: int) -> Option<ContextSpec>
    decreases 4 - k,
{
    if k >= 4 {
        None
    } else {
        match ref_context(b, ls, cp, k) {
            Some(c) => Some(c),
            None => ref_contexts(b, ls, cp, k + 1),
        }
    }
}

/// An open `attr="` (no closing quote yet) before the cursor: the value so
/// far.
pub open spec fn open_value(b: Seq<u8>, ls: int, cp: int, needle: Seq<u8>) -> Option<(int, int)> {
    match rfind_in(b, ls, cp, needle) {
        None => None,
        Some(a) => {
            let vs = a + needle.len();
            if find_from(b, vs, cp, quote_spec()) is Some {
                None
            } else {
                Some((vs, cp))
            }
        },
    }
}

/// The status context of an enclosing component name.
pub open spec fn status_of(n: Option<Seq<char>>) -> StatusSpec {
    match n {
        Some(x) => if x == seq!['T', 'a', 's', 'k'] {
            StatusSpec::Task
        } else if x == seq!['A', 'l', 't', 'e', 'r', 'n', 'a', 't', 'i', 'v', 'e'] {
            StatusSpec::Alternative
        } else if x == seq!['E', 'x', 'p', 'e', 'c', 't', 'e', 'd'] {
            StatusSpec::Expected
        } else {
            StatusSpec::Other(x)
        },
        None => StatusSpec::Other(Seq::empty()),
    }
}

/// The cursor offset within the line, clamped to the line's length.
pub open spec fn clamp_cursor(ls: int, le: int, ch: int) -> int {
    if ch < le - ls {
        ls + ch
    } else {
        le
    }
}

/// The completion context at (`line`, byte column `ch`).
pub open spec fn completion_context(b: Seq<u8>, line: nat, ch: int) -> ContextSpec {
    match nth_line(b, line) {
        None => ContextSpec::NoContext,
        Some((ls, le)) => {
            let cp = clamp_cursor(ls, le, ch);
            match ref_contexts(b, ls, cp, 0) {
                Some(c) => c,
                None => {
                    let in_fm = completion_in_frontmatter(b, line);
                    match open_value(b, ls, cp, strategy_attr_spec()) {
                        Some(v) => ContextSpec::AttributeStrategy {
                            prefix: v,
                            component: if in_fm {
                                None
                            } else {
                                enclosing_from(b, line as int)
                            },
                        },
                        None => match open_value(b, ls, cp, status_attr_spec()) {
                            Some(v) => ContextSpec::AttributeStatus {
                                prefix: v,
                                context: if in_fm {
                                    StatusSpec::Frontmatter
                                } else {
                                    status_of(enclosing_from(b, line as int))
                                },
                            },
                            None => match rfind_in(b, ls, cp, seq![60u8]) {
                                Some(lt) => if (lt + 1 < cp && (b[lt + 1] == 47 || b[lt + 1]
                                    == 33)) || find_ws(b, lt + 1, cp) < cp {
                                    ContextSpec::NoContext
                                } else {
                                    ContextSpec::ComponentName { prefix: (lt + 1, cp) }
                                },
                                None => ContextSpec::NoContext,
                            },
                        },
                    }
                },
            }
        },
    }
}

/// The slice before the cursor ends at a character boundary.
pub open spec fn cursor_ok(b: Seq<u8>, line: nat, ch: int) -> bool {
    match nth_line(b, line) {
        Some((ls, le)) => char_start(b, clamp_cursor(ls, le, ch)),
        None => true,
    }
}

/// An open `attr="` value before the cursor.
fn open_value_exec(b: &[u8], ls: usize, cp: usize, needle: &[u8]) -> (r: Option<(usize, usize)>)
    requires
        ls <= cp <= b@.len(),
        needle@.len() >= 1,
        needle@[needle@.len() - 1] == 34u8,
        valid_utf8(b@),
    ensures
        match open_value(b@, ls as int, cp as int, needle@) {
            None => r is None,
            Some((x, y)) => r == Some((x as usize, y as usize)) && ls <= x <= y && y == cp
                && char_start(b@, x),
        },
{
    let quote = [34u8];
    proof {
        assert(quote@ =~= quote_spec());
        lemma_rfind_to_bounds(b@, ls as int, cp - needle@.len(), needle@);
    }
    match rfind_exec(b, ls, cp, needle) {
        None => None,
        Some(a) => {
            let vs = a + needle.len();
            proof {
                assert(b@[a + (needle@.len() - 1)] == needle@[needle@.len() - 1]);
                lemma_after_ascii(b@, vs - 1);
            }
            if find_exec(b, vs, cp, quote.as_slice()).is_some() {
                None
            } else {
                Some((vs, cp))
            }
        },
    }
}

/// The `k`-th ref attribute's context before the cursor.
fn ref_context_exec(content: &str, b: &[u8], ls: usize, cp: usize, k: usize) -> (r: Option<
    CompletionContext,
>)
    requires
        b@ == content.spec_bytes(),
        ls <= cp <= b@.len(),
        char_start(b@, cp as int),
        k < REF_ATTR_COUNT,
    ensures
        match ref_context(b@, ls as int, cp as int, k as int) {
            None => r is None,
            Some(t) => r matches Some(c) && context_is(c, t, b@),
        },
{
    let needle = ref_attr_needle(k);
    proof {
        lemma_ref_attr_ends_with_quote(k as int);
        assert(valid_utf8(b@));
    }
    let (vs, _) = match open_value_exec(b, ls, cp, needle.as_slice()) {
        None => {
            return None;
        },
        Some(v) => v,
    };
    let comma = [44u8];
    let hash = [35u8];
    proof {
        assert(comma@ =~= comma_spec());
        assert(hash@ =~= hash_spec());
        lemma_rfind_to_bounds(b@, vs as int, cp - 1, comma_spec());
    }
    let ts = match rfind_exec(b, vs, cp, comma.as_slice()) {
        Some(c) => {
            proof {
                assert(b@[c + 0] == comma_spec()[0]);
                lemma_after_ascii(b@, c as int);
                lemma_skip_ws_char_start(b@, c + 1, cp as int);
            }
            skip_ws_exec(b, c + 1, cp)
        },
        None => vs,
    };
    proof {
        lemma_rfind_to_bounds(b@, ts as int, cp - 1, hash_spec());
    }
    match rfind_exec(b, ts, cp, hash.as_slice()) {
        Some(h) => {
            proof {
                assert(b@[h + 0] == hash_spec()[0]);
                lemma_ascii_start(b@, h as int);
                lemma_after_ascii(b@, h as int);
            }
            Some(
                CompletionContext::RefFragment {
                    doc_id: substring(content, ts, h),
                    prefix: substring(content, h + 1, cp),
                },
            )
        },
        None => Some(CompletionContext::RefDocId { prefix: substring(content, ts, cp) }),
    }
}

/// Whether a component name (as characters) is exactly `lit`.
fn name_is(name: &String, lit: &[char]) -> (r: bool)
    ensures
        r == (name@ == lit@),
{
    let cs = chars_of(name.as_str());
    if cs.len() != lit.len() {
        return false;
    }
    let mut k: usize = 0;
    while k < cs.len()
        invariant
            cs@ == name@,
            cs@.len() == lit@.len(),
            0 <= k <= cs@.len(),
            forall|j: int| 0 <= j < k ==> cs@[j] == lit@[j],
        decreases cs@.len() - k,
    {
        if cs[k] != lit[k] {
            return false;
        }
        k = k + 1;
    }
    assert(cs@ =~= lit@);
    true
}

/// Detect the completion context at the given cursor position.  `line` and
/// `character` are 0-based LSP coordinates; `character` is taken as a byte
/// Whether the cursor, clamped to its line, falls on a character boundary:
/// the condition that `detect_context` requires.
pub fn cursor_ok_exec(content: &str, line: u32, character: u32) -> (r: bool)
    ensures
        r == cursor_ok(content.spec_bytes(), line as nat, character as int),
{
    let b = content.as_bytes();
    match nth_line_exec(b, line as usize) {
        None => true,
        Some((ls, le)) => {
            proof {
                lemma_nth_line(b@, line as nat);
            }
            let cp = if (character as usize) < le - ls {
                ls + character as usize
            } else {
                le
            };
            cp == b.len() || !(0x80 <= b[cp] && b[cp] <= 0xbf)
        },
    }
}

/// offset and clamped to the line length.
#[verifier::spinoff_prover]
#[verifier::rlimit(40)]
pub fn detect_context(content: &str, line: u32, character: u32) -> (r: CompletionContext)
    requires
        cursor_ok(content.spec_bytes(), line as nat, character as int),
    ensures
        context_is(r, completion_context(content.spec_bytes(), line as nat, character as int), content.spec_bytes()),
{
    let b = content.as_bytes();
    let (ls, le) = match nth_line_exec(b, line as usize) {
        Some(x) => x,
        None => {
            return CompletionContext::NoContext;
        },
    };
    proof {
        assert(valid_utf8(b@));
        lemma_nth_line(b@, line as nat);
    }
    let cp = if (character as usize) < le - ls {
        ls + character as usize
    } else {
        le
    };
    let mut k: usize = 0;
    while k < REF_ATTR_COUNT
        invariant
            b@ == content.spec_bytes(),
            valid_utf8(b@),
            ls <= cp <= le <= b@.len(),
            char_start(b@, cp as int),
            nth_line(b@, line as nat) == Some((ls as int, le as int)),
            cp == clamp_cursor(ls as int, le as int, character as int),
            ref_contexts(b@, ls as int, cp as int, 0) == ref_contexts(
                b@,
                ls as int,
                cp as int,
                k as int,
            ),
        decreases REF_ATTR_COUNT - k,
    {
        if let Some(c) = ref_context_exec(content, b, ls, cp, k) {
            return c;
        }
        k = k + 1;
    }
    let in_fm = is_in_frontmatter(content, line as usize);
    let strategy = strategy_attr();
    let status = status_attr();
    if let Some((vs, _)) = open_value_exec(b, ls, cp, strategy.as_slice()) {
        let component = if in_fm {
            None
        } else {
            find_enclosing_component(content, line as usize)
        };
        return CompletionContext::AttributeStrategy { prefix: substring(content, vs, cp), component };
    }
    if let Some((vs, _)) = open_value_exec(b, ls, cp, status.as_slice()) {
        let context = if in_fm {
            StatusContext::Frontmatter
        } else {
            match find_enclosing_component(content, line as usize) {
                Some(name) => {
                    if name_is(&name, ['T', 'a', 's', 'k'].as_slice()) {
                        StatusContext::Task
                    } else if name_is(
                        &name,
                        ['A', 'l', 't', 'e', 'r', 'n', 'a', 't', 'i', 'v', 'e'].as_slice(),
                    ) {
                        StatusContext::Alternative
                    } else if name_is(&name, ['E', 'x', 'p', 'e', 'c', 't', 'e', 'd'].as_slice()) {
                        StatusContext::Expected
                    } else {
                        StatusContext::Other(name)
                    }
                },
                None => StatusContext::Other(String::new()),
            }
        };
        proof {
            assert(seq!['T', 'a', 's', 'k'] =~= ['T', 'a', 's', 'k']@);
            assert(seq!['A', 'l', 't', 'e', 'r', 'n', 'a', 't', 'i', 'v', 'e'] =~= [
                'A',
                'l',
                't',
                'e',
                'r',
                'n',
                'a',
                't',
                'i',
                'v',
                'e',
            ]@);
            assert(seq!['E', 'x', 'p', 'e', 'c', 't', 'e', 'd'] =~= [
                'E',
                'x',
                'p',
                'e',
                'c',
                't',
                'e',
                'd',
            ]@);
        }
        return CompletionContext::AttributeStatus { prefix: substring(content, vs, cp), context };
    }
    let lt_tok = [60u8];
    proof {
        assert(lt_tok@ =~= seq![60u8]);
        lemma_rfind_to_bounds(b@, ls as int, cp - 1, seq![60u8]);
    }
    if let Some(lt) = rfind_exec(b, ls, cp, lt_tok.as_slice()) {
        if (lt + 1 < cp && (b[lt + 1] == 47 || b[lt + 1] == 33)) || find_ws_exec(b, lt + 1, cp)
            < cp {
            return CompletionContext::NoContext;
        }
        proof {
            assert(b@[lt + 0] == 60u8);
            lemma_after_ascii(b@, lt as int);
        }
        return CompletionContext::ComponentName { prefix: substring(content, lt + 1, cp) };
    }
    CompletionContext::NoContext
}

proof fn lemma_rfind_to_last_byte(b: Seq<u8>, lo: int, top: int, n: Seq<u8>)
    ensures
        rfind_to(b, lo, top, n) matches Some(p) ==> forall|q: int| p < q <= top ==> !matches_at(b, q, n),
    decreases top - lo + 1,
{
    if top >= lo && !matches_at(b, top, n) {
        lemma_rfind_to_last_byte(b, lo, top - 1, n);
    }
}

/// The ref context of one attribute: the token runs from its start to the
/// cursor without a comma; a fragment context splits it at its last `#`,
/// the prefix after that `#` being free of `#`; a document context has no
/// `#` at all.
proof fn lemma_ref_context_shape(b: Seq<u8>, ls: int, cp: int, k: int)
    requires
        0 <= ls <= cp <= b.len(),
    ensures
        ref_context(b, ls, cp, k) matches Some(c) ==> ref_token_shape(b, ls, cp, c),
{
    let needle = ref_attr_spec(k);
    lemma_ref_attr_ends_with_quote(k);
    lemma_rfind_to_bounds(b, ls, cp - needle.len(), needle);
    if let Some(a) = rfind_in(b, ls, cp, needle) {
        let vs = a + needle.len();
        if find_from(b, vs, cp, quote_spec()) is None {
            lemma_rfind_to_bounds(b, vs, cp - 1, comma_spec());
            lemma_rfind_to_last_byte(b, vs, cp - 1, comma_spec());
            let ts = ref_token_start(b, vs, cp);
            assert(b[a + (needle.len() - 1)] == needle[needle.len() - 1]);
            if let Some(c) = rfind_in(b, vs, cp, comma_spec()) {
                lemma_skip_ws_bounds(b, c + 1, cp);
                assert(b[c + 0] == comma_spec()[0]);
                assert(token_start_ok(b, ls, cp, ts));
                assert forall|i: int| ts <= i < cp implies b[i] != 44u8 by {
                    if b[i] == 44u8 {
                        assert(matches_at(b, i, comma_spec()));
                    }
                }
            } else {
                assert forall|i: int| ts <= i < cp implies b[i] != 44u8 by {
                    if b[i] == 44u8 {
                        assert(matches_at(b, i, comma_spec()));
                    }
                }
            }
            lemma_rfind_to_bounds(b, ts, cp - 1, hash_spec());
            lemma_rfind_to_last_byte(b, ts, cp - 1, hash_spec());
            if let Some(h) = rfind_in(b, ts, cp, hash_spec()) {
                assert(b[h + 0] == hash_spec()[0]);
                assert forall|i: int| h + 1 <= i < cp implies b[i] != 35u8 by {
                    if b[i] == 35u8 {
                        assert(matches_at(b, i, hash_spec()));
                    }
                }
            } else {
                assert forall|i: int| ts <= i < cp implies b[i] != 35u8 by {
                    if b[i] == 35u8 {
                        assert(matches_at(b, i, hash_spec()));
                    }
                }
            }
        }
    }
}

/// A token being typed in a ref value starts right after the opening quote
/// of the value, or after a comma and the whitespace that follows it.
pub open spec fn token_start_ok(b: Seq<u8>, ls: int, cp: int, start: int) -> bool {
    ||| ls < start && b[start - 1] == 34u8
    ||| exists|c: int| ls <= c < start && b[c] == 44u8 && start == #[trigger] skip_ws(b, c + 1, cp)
}

/// The shape of a ref completion context before the cursor `cp` on the line
/// starting at `ls`.
pub open spec fn ref_token_shape(b: Seq<u8>, ls: int, cp: int, c: ContextSpec) -> bool {
    match c {
        ContextSpec::RefFragment { doc_id, prefix } => {
            &&& ls <= doc_id.0 <= doc_id.1
            &&& token_start_ok(b, ls, cp, doc_id.0)
            &&& prefix.0 == doc_id.1 + 1
            &&& prefix.0 <= prefix.1
            &&& prefix.1 == cp
            &&& b[doc_id.1] == 35u8
            &&& forall|i: int| prefix.0 <= i < prefix.1 ==> b[i] != 35u8
            &&& forall|i: int| doc_id.0 <= i < prefix.1 ==> b[i] != 44u8
        },
        ContextSpec::RefDocId { prefix } => {
            &&& ls <= prefix.0 <= prefix.1
            &&& token_start_ok(b, ls, cp, prefix.0)
            &&& prefix.1 == cp
            &&& forall|i: int| prefix.0 <= i < prefix.1 ==> b[i] != 35u8 && b[i] != 44u8
        },
        _ => true,
    }
}

proof fn lemma_ref_contexts_shape(b: Seq<u8>, ls: int, cp: int, k: int)
    requires
        0 <= ls <= cp <= b.len(),
    ensures
        ref_contexts(b, ls, cp, k) matches Some(c) ==> ref_token_shape(b, ls, cp, c),
    decreases 4 - k,
{
    if k < 4 {
        lemma_ref_context_shape(b, ls, cp, k);
        lemma_ref_contexts_shape(b, ls, cp, k + 1);
    }
}

/// Completing a ref in a ref attribute: the token being typed runs from
/// after the last comma of the value (leading whitespace skipped) to the
/// cursor and holds no comma.  When it holds a `#`, the context is a
/// fragment context that splits it at its last `#`: the document ID is the
/// text before that `#`, the prefix the text after it up to the cursor, so
/// the prefix never holds a `#`, and document ID, `#` and prefix together
/// are the token.  Without a `#` the whole token is a document-ID prefix.
#[verifier::spinoff_prover]
pub proof fn law_ref_completion_splits_at_last_hash(b: Seq<u8>, line: nat, ch: int)
    requires
        0 <= ch,
    ensures
        nth_line(b, line) matches Some((ls, le)) ==> ref_token_shape(
            b,
            ls,
            clamp_cursor(ls, le, ch),
            completion_context(b, line, ch),
        ),
        completion_context(b, line, ch) matches ContextSpec::RefFragment { doc_id, prefix } ==> b.subrange(
            doc_id.0,
            doc_id.1,
        ) + seq![35u8] + b.subrange(prefix.0, prefix.1) == b.subrange(doc_id.0, prefix.1),
{
    lemma_nth_line(b, line);
    if let Some((ls, le)) = nth_line(b, line) {
        let cp = clamp_cursor(ls, le, ch);
        lemma_ref_contexts_shape(b, ls, cp, 0);
        if let ContextSpec::RefFragment { doc_id, prefix } = completion_context(b, line, ch) {
            assert(ref_contexts(b, ls, cp, 0) is Some);
            assert(b.subrange(doc_id.0, doc_id.1) + seq![35u8] + b.subrange(prefix.0, prefix.1)
                =~= b.subrange(doc_id.0, prefix.1));
        }
    }
}

/// The shape of a component-name or attribute-value completion context
/// before the cursor `cp` on the line starting at `ls`.
pub open spec fn context_prefix_shape(b: Seq<u8>, ls: int, cp: int, c: ContextSpec) -> bool {
    match c {
        ContextSpec::ComponentName { prefix } => {
            &&& ls < prefix.0 <= prefix.1
            &&& prefix.1 == cp
            &&& b[prefix.0 - 1] == 60u8
            &&& forall|i: int| prefix.0 <= i < cp ==> b[i] != 60u8
            &&& prefix.0 < cp ==> b[prefix.0] != 47u8 && b[prefix.0] != 33u8
            &&& find_ws(b, prefix.0, cp) == cp
        },
        ContextSpec::AttributeStrategy { prefix, .. } => {
            &&& ls < prefix.0 <= prefix.1
            &&& prefix.1 == cp
            &&& b[prefix.0 - 1] == 34u8
            &&& forall|i: int| prefix.0 <= i < cp ==> b[i] != 34u8
        },
        ContextSpec::AttributeStatus { prefix, .. } => {
            &&& ls < prefix.0 <= prefix.1
            &&& prefix.1 == cp
            &&& b[prefix.0 - 1] == 34u8
            &&& forall|i: int| prefix.0 <= i < cp ==> b[i] != 34u8
        },
        _ => true,
    }
}

proof fn lemma_open_value_shape(b: Seq<u8>, ls: int, cp: int, needle: Seq<u8>)
    requires
        0 <= ls <= cp <= b.len(),
        needle.len() >= 1,
        needle[needle.len() - 1] == 34u8,
    ensures
        open_value(b, ls, cp, needle) matches Some((vs, e)) ==> {
            &&& ls < vs <= e
            &&& e == cp
            &&& b[vs - 1] == 34u8
            &&& forall|i: int| vs <= i < cp ==> b[i] != 34u8
        },
{
    lemma_rfind_to_bounds(b, ls, cp - needle.len(), needle);
    if let Some(a) = rfind_in(b, ls, cp, needle) {
        let vs = a + needle.len();
        assert(b[a + (needle.len() - 1)] == needle[needle.len() - 1]);
        lemma_find_from_bounds(b, vs, cp, quote_spec());
        if find_from(b, vs, cp, quote_spec()) is None {
            assert forall|i: int| vs <= i < cp implies b[i] != 34u8 by {
                if b[i] == 34u8 {
                    assert(matches_at(b, i, quote_spec()));
                }
            }
        }
    }
}

/// Completing a component name or an attribute value: the prefix runs to
/// the cursor.  A component name's prefix starts right after the last `<`
/// before the cursor, holds no whitespace and does not open a closing tag
/// (`</`) or a comment (`<!`); a `strategy` or `status` value's prefix
/// starts right after the value's opening quote and holds no quote.
#[verifier::spinoff_prover]
#[verifier::rlimit(40)]
pub proof fn law_completion_prefix_runs_to_cursor(b: Seq<u8>, line: nat, ch: int)
    requires
        0 <= ch,
    ensures
        nth_line(b, line) matches Some((ls, le)) ==> context_prefix_shape(
            b,
            ls,
            clamp_cursor(ls, le, ch),
            completion_context(b, line, ch),
        ),
{
    lemma_nth_line(b, line);
    if let Some((ls, le)) = nth_line(b, line) {
        let cp = clamp_cursor(ls, le, ch);
        lemma_open_value_shape(b, ls, cp, strategy_attr_spec());
        lemma_open_value_shape(b, ls, cp, status_attr_spec());
        lemma_rfind_to_bounds(b, ls, cp - 1, seq![60u8]);
        lemma_rfind_to_last_byte(b, ls, cp - 1, seq![60u8]);
        if let Some(lt) = rfind_in(b, ls, cp, seq![60u8]) {
            assert(b[lt + 0] == seq![60u8][0]);
            lemma_find_ws_bounds(b, lt + 1, cp);
            assert forall|i: int| lt + 1 <= i < cp implies b[i] != 60u8 by {
                if b[i] == 60u8 {
                    assert(matches_at(b, i, seq![60u8]));
                }
            }
        }
        lemma_ref_contexts_kind(b, ls, cp, 0);
    }
}

proof fn lemma_ref_contexts_kind(b: Seq<u8>, ls: int, cp: int, k: int)
    ensures
        ref_contexts(b, ls, cp, k) matches Some(c) ==> (c is RefDocId || c is RefFragment),
    decreases 4 - k,
{
    if k < 4 {
        lemma_ref_contexts_kind(b, ls, cp, k + 1);
    }
}

} // verus!
