//! Quick fixes around Decision components: stubs for an incomplete or
//! orphan Decision, and wrapping a misplaced Rationale or Alternative.

use vstd::prelude::*;
use vstd::string::{StringExecFns, StringSliceAdditionalSpecFns};
use vstd::utf8::encode_utf8;
use crate::code_actions::{
    ActionRequestContext, CodeAction, IncompleteDecisionProvider, InvalidPlacementProvider,
    OrphanDecisionProvider, CodeActionProvider};
use crate::code_lens::Component;
use crate::diagnostics::{DiagnosticData, DiagnosticSource, RuleName};
use crate::fence::{starts_at, starts_at_exec};
use crate::position::{zero_range, Position, Range, TextEdit};
use crate::report::Diagnostic;
use crate::text::{
    char_start, find_exec, find_from, lemma_next_nl_bounds, lemma_nth_line, lemma_skip_ws_bounds, lemma_skip_ws_char_start,
    line_at_exec, line_start, nth_line, nth_line_exec, skip_ws, skip_ws_exec, substring,
};

verus! {

broadcast use vstd::utf8::encode_utf8_valid_utf8;

// ---------------------------------------------------------------------------
// The closing `</Decision>` tag
// ---------------------------------------------------------------------------

/// The bytes of `</Decision>`.
pub open spec fn decision_close_spec() -> Seq<u8> {
    seq![60u8, 47u8, 68u8, 101u8, 99u8, 105u8, 115u8, 105u8, 111u8, 110u8, 62u8]
}

/// The first line at or after `k` that, after leading whitespace, starts
/// with `</Decision>`: its index, its start and the end of its indentation.
pub open spec fn closing_decision_from(b: Seq<u8>, k: nat) -> Option<(nat, int, int)>
    decreases b.len() - k,
{
    if k >= b.len() {
        None
    } else {
        match nth_line(b, k) {
            None => None,
            Some((s, e)) => {
                let t = skip_ws(b, s, e);
                if starts_at(b, t, e, decision_close_spec()) {
                    Some((k, s, t))
                } else {
                    closing_decision_from(b, k + 1)
                }
            },
        }
    }
}

proof fn lemma_closing_decision_none(b: Seq<u8>, k: nat)
    requires
        line_start(b, k) is None,
    ensures
        closing_decision_from(b, k) is None,
{
}

/// Search forward from the diagnostic's line for a `</Decision>` closing
/// tag: the position at the start of that line and the line's indentation.
pub fn find_closing_decision_tag(content: &str, diag_range: &Range) -> (r: Option<(Position, String)>)
    ensures
        match closing_decision_from(content.spec_bytes(), diag_range.start.line as nat) {
            Some((k, s, t)) => r matches Some((pos, indent)) && pos == (Position {
                line: k as u32,
                character: 0,
            }) && encode_utf8(indent@) == content.spec_bytes().subrange(s, t),
            None => r is None,
        },
{
    let b = content.as_bytes();
    let first = diag_range.start.line as usize;
    let mut st = match nth_line_exec(b, first) {
        Some((s, _)) => s,
        None => {
            proof {
                lemma_closing_decision_none(b@, first as nat);
            }
            return None;
        },
    };
    proof {
        lemma_nth_line(b@, first as nat);
        crate::frontmatter::lemma_line_index_bound(b@, first as nat);
    }
    let close = [60u8, 47u8, 68u8, 101u8, 99u8, 105u8, 115u8, 105u8, 111u8, 110u8, 62u8];
    proof {
        assert(close@ =~= decision_close_spec());
    }
    let mut k = first;
    loop
        invariant
            st < b@.len(),
            k <= st,
            b@ == content.spec_bytes(),
            close@ == decision_close_spec(),
            line_start(b@, k as nat) == Some(st as int),
            first == diag_range.start.line as usize,
            closing_decision_from(b@, first as nat) == closing_decision_from(b@, k as nat),
        decreases b@.len() - k,
    {
        let (e, next) = line_at_exec(b, st);
        proof {
            lemma_next_nl_bounds(b@, st as int);
            lemma_nth_line(b@, k as nat);
            lemma_skip_ws_bounds(b@, st as int, e as int);
            lemma_skip_ws_char_start(b@, st as int, e as int);
        }
        let t = skip_ws_exec(b, st, e);
        if starts_at_exec(b, t, e, close.as_slice()) {
            let indent = substring(content, st, t);
            return Some((Position { line: k as u32, character: 0 }, indent));
        }
        match next {
            Some(n) => {
                st = n;
                k = k + 1;
            },
            None => {
                proof {
                    lemma_closing_decision_none(b@, (k + 1) as nat);
                }
                return None;
            },
        }
    }
}

// ---------------------------------------------------------------------------
// Stubs for an incomplete or orphan Decision
// ---------------------------------------------------------------------------

/// `a` is the action titled `title` that inserts `text` at `pos`.
pub open spec fn insert_action_is(a: CodeAction, title: Seq<char>, pos: Position, text: Seq<char>) -> bool {
    &&& a.title@ == title
    &&& a.edits@.len() == 1
    &&& a.edits@[0].range == Range { start: pos, end: pos }
    &&& a.edits@[0].new_text@ == text
}

/// A `<Rationale>` stub at indentation `ind`.
pub open spec fn rationale_stub(ind: Seq<char>) -> Seq<char> {
    ind + "<Rationale>\n"@ + ind + "TODO: Add rationale for this decision.\n"@ + ind + "</Rationale>\n"@
}

/// An `<Alternative>` stub at indentation `ind`.
pub open spec fn alternative_stub(ind: Seq<char>) -> Seq<char> {
    ind + "<Alternative id=\"\" status=\"\">\n"@ + ind + "TODO: Describe alternative.\n"@ + ind
        + "</Alternative>\n"@
}

/// A single insertion of `text` at `pos`.
fn insert_action(title: &str, pos: Position, text: String) -> (r: CodeAction)
    ensures
        insert_action_is(r, title@, pos, text@),
{
    let mut edits: Vec<TextEdit> = Vec::new();
    edits.push(TextEdit { range: zero_range(pos), new_text: text });
    CodeAction { title: String::from_str(title), edits }
}

/// `ind` then `a`, `ind` then `b`, `ind` then `c`.
fn three_lines(ind: &str, a: &str, b: &str, c: &str) -> (r: String)
    ensures
        r@ == ind@ + a@ + ind@ + b@ + ind@ + c@,
{
    let mut s = String::from_str(ind);
    s.append(a);
    s.append(ind);
    s.append(b);
    s.append(ind);
    s.append(c);
    s
}

impl IncompleteDecisionProvider {
    /// Offer to insert a `<Rationale>` stub or an `<Alternative>` stub just
    /// before the Decision's closing tag, at its indentation; nothing when no
    /// closing tag follows the diagnostic.
    pub fn actions(&self, diagnostic: &Diagnostic, data: &DiagnosticData, ctx: &ActionRequestContext) -> (r: Vec<CodeAction>)
        ensures
            match closing_decision_from(ctx.file_content.spec_bytes(), diagnostic.range.start.line as nat) {
                None => r@.len() == 0,
                Some((k, s, t)) => {
                    let pos = Position { line: k as u32, character: 0 };
                    let ind = vstd::utf8::decode_utf8(ctx.file_content.spec_bytes().subrange(s, t));
                    &&& r@.len() == 2
                    &&& insert_action_is(r@[0], "Add <Rationale> stub to Decision"@, pos, rationale_stub(ind))
                    &&& insert_action_is(r@[1], "Add <Alternative> stub to Decision"@, pos, alternative_stub(ind))
                },
            },
    {
        let mut out: Vec<CodeAction> = Vec::new();
        let (pos, indent) = match find_closing_decision_tag(ctx.file_content, &diagnostic.range) {
            Some(x) => x,
            None => {
                return out;
            },
        };
        proof {
            vstd::utf8::encode_utf8_decode_utf8(indent@);
        }
        let rationale = three_lines(
            indent.as_str(),
            "<Rationale>\n",
            "TODO: Add rationale for this decision.\n",
            "</Rationale>\n",
        );
        let alternative = three_lines(
            indent.as_str(),
            "<Alternative id=\"\" status=\"\">\n",
            "TODO: Describe alternative.\n",
            "</Alternative>\n",
        );
        out.push(insert_action("Add <Rationale> stub to Decision", pos, rationale));
        out.push(insert_action("Add <Alternative> stub to Decision", pos, alternative));
        out
    }
}

/// The `refs` of the first component named `name` that has one.
pub open spec fn first_refs_of(cs: Seq<Component>, name: Seq<char>) -> Option<Seq<char>>
    decreases cs.len(),
{
    if cs.len() == 0 {
        None
    } else if cs[0].name@ == name && cs[0].refs is Some {
        Some(cs[0].refs.unwrap()@)
    } else {
        first_refs_of(cs.drop_first(), name)
    }
}

/// The `refs` a new `<References>` gets: those of the first `Implements`
/// among the document's top-level components, else those of the first
/// `References`, else empty.
pub open spec fn inferred_refs(cs: Seq<Component>) -> Seq<char> {
    match first_refs_of(cs, "Implements"@) {
        Some(r) => r,
        None => match first_refs_of(cs, "References"@) {
            Some(r) => r,
            None => Seq::empty(),
        },
    }
}

/// The refs a new `<References>` component should point at, taken from the
/// document parsed from the file; empty when there is none.
pub fn infer_refs_target(ctx: &ActionRequestContext) -> (r: String)
    ensures
        r@ == match ctx.current_doc {
            Some(d) => inferred_refs(d.components@),
            None => Seq::empty(),
        },
{
    let doc = match ctx.current_doc {
        Some(d) => d,
        None => {
            return String::new();
        },
    };
    let cs = &doc.components;
    let mut fallback: Option<&String> = None;
    let mut i: usize = 0;
    proof {
        assert(cs@.skip(0) =~= cs@);
    }
    while i < cs.len()
        invariant
            0 <= i <= cs@.len(),
            ctx.current_doc == Some(doc),
            cs@ == doc.components@,
            first_refs_of(cs@, "Implements"@) == first_refs_of(cs@.skip(i as int), "Implements"@),
            match fallback {
                Some(f) => first_refs_of(cs@, "References"@) == Some(f@),
                None => first_refs_of(cs@, "References"@) == first_refs_of(cs@.skip(i as int), "References"@),
            },
        decreases cs@.len() - i,
    {
        let c = &cs[i];
        proof {
            assert(cs@.skip(i as int)[0] == cs@[i as int]);
            assert(cs@.skip(i as int).drop_first() =~= cs@.skip(i + 1));
        }
        let is_implements = crate::text::same_str(c.name.as_str(), "Implements");
        let is_references = crate::text::same_str(c.name.as_str(), "References");
        match &c.refs {
            Some(refs) => {
                if is_implements {
                    return refs.clone();
                }
                if is_references && fallback.is_none() {
                    fallback = Some(refs);
                }
            },
            None => {},
        }
        i = i + 1;
    }
    proof {
        assert(cs@.skip(cs@.len() as int) =~= Seq::<Component>::empty());
    }
    match fallback {
        Some(f) => f.clone(),
        None => String::new(),
    }
}

/// A `<References>` line at indentation `ind` pointing at `refs`.
pub open spec fn references_stub(ind: Seq<char>, refs: Seq<char>) -> Seq<char> {
    ind + "<References refs=\""@ + refs + "\" />\n"@
}

impl OrphanDecisionProvider {
    /// Offer to insert a `<References>` component, pointing at the refs the
    /// document already implements or references, just before the
    /// Decision's closing tag; nothing when no closing tag follows.
    pub fn actions(&self, diagnostic: &Diagnostic, data: &DiagnosticData, ctx: &ActionRequestContext) -> (r: Vec<CodeAction>)
        ensures
            match closing_decision_from(ctx.file_content.spec_bytes(), diagnostic.range.start.line as nat) {
                None => r@.len() == 0,
                Some((k, s, t)) => {
                    let pos = Position { line: k as u32, character: 0 };
                    let ind = vstd::utf8::decode_utf8(ctx.file_content.spec_bytes().subrange(s, t));
                    let refs = match ctx.current_doc {
                        Some(d) => inferred_refs(d.components@),
                        None => Seq::empty(),
                    };
                    &&& r@.len() == 1
                    &&& insert_action_is(r@[0], "Add <References> to Decision"@, pos, references_stub(ind, refs))
                },
            },
    {
        let mut out: Vec<CodeAction> = Vec::new();
        let (pos, indent) = match find_closing_decision_tag(ctx.file_content, &diagnostic.range) {
            Some(x) => x,
            None => {
                return out;
            },
        };
        proof {
            vstd::utf8::encode_utf8_decode_utf8(indent@);
        }
        let refs = infer_refs_target(ctx);
        let mut text = String::from_str(indent.as_str());
        text.append("<References refs=\"");
        text.append(refs.as_str());
        text.append("\" />\n");
        out.push(insert_action("Add <References> to Decision", pos, text));
        out
    }
}

// ---------------------------------------------------------------------------
// Wrapping a misplaced component
// ---------------------------------------------------------------------------

/// The first line at or after `k` that, after leading whitespace, starts
/// with `n`: its index, start, indentation end and end.
pub open spec fn line_starting_from(b: Seq<u8>, k: nat, n: Seq<u8>) -> Option<(nat, int, int, int)>
    decreases b.len() - k,
{
    if k >= b.len() {
        None
    } else {
        match nth_line(b, k) {
            None => None,
            Some((s, e)) => {
                let t = skip_ws(b, s, e);
                if starts_at(b, t, e, n) {
                    Some((k, s, t, e))
                } else {
                    line_starting_from(b, k + 1, n)
                }
            },
        }
    }
}

/// The extent of the component `name` whose opening tag is on the first
/// line at or after `first` that starts with `<name`: that line, the line
/// of its closing tag (the same line when the opening line holds `/>`,
/// else the next line starting with `</name>`), and the opening line's
/// start and indentation end.
pub open spec fn component_extent(b: Seq<u8>, first: nat, name: Seq<u8>) -> Option<(nat, nat, int, int)> {
    match line_starting_from(b, first, seq![60u8] + name) {
        None => None,
        Some((k, s, t, e)) => if find_from(b, t, e, seq![47u8, 62u8]) is Some {
            Some((k, k, s, t))
        } else {
            match line_starting_from(b, k + 1, seq![60u8, 47u8] + name + seq![62u8]) {
                Some((j, _, _, _)) => Some((k, j, s, t)),
                None => None,
            }
        },
    }
}

proof fn lemma_line_starting_none(b: Seq<u8>, k: nat, n: Seq<u8>)
    requires
        line_start(b, k) is None,
    ensures
        line_starting_from(b, k, n) is None,
{
}

/// The first line at or after `first` that starts with `n` after leading
/// whitespace.
fn find_line_starting_with(b: &[u8], first: usize, n: &[u8]) -> (r: Option<(usize, usize, usize, usize)>)
    ensures
        r matches Some((k, s, t, e)) ==> line_starting_from(b@, first as nat, n@) == Some(
            (k as nat, s as int, t as int, e as int),
        ) && s <= t <= e <= b@.len() && k < b@.len() && nth_line(b@, k as nat) == Some(
            (s as int, e as int),
        ) && t == skip_ws(b@, s as int, e as int),
        r is None ==> line_starting_from(b@, first as nat, n@) is None,
{
    let mut st = match nth_line_exec(b, first) {
        Some((s, _)) => s,
        None => {
            proof {
                lemma_line_starting_none(b@, first as nat, n@);
            }
            return None;
        },
    };
    proof {
        lemma_nth_line(b@, first as nat);
        crate::frontmatter::lemma_line_index_bound(b@, first as nat);
    }
    let mut k = first;
    loop
        invariant
            st < b@.len(),
            k <= st,
            line_start(b@, k as nat) == Some(st as int),
            line_starting_from(b@, first as nat, n@) == line_starting_from(b@, k as nat, n@),
        decreases b@.len() - k,
    {
        let (e, next) = line_at_exec(b, st);
        proof {
            lemma_next_nl_bounds(b@, st as int);
            lemma_nth_line(b@, k as nat);
            lemma_skip_ws_bounds(b@, st as int, e as int);
        }
        let t = skip_ws_exec(b, st, e);
        if starts_at_exec(b, t, e, n) {
            return Some((k, st, t, e));
        }
        match next {
            Some(x) => {
                st = x;
                k = k + 1;
            },
            None => {
                proof {
                    lemma_line_starting_none(b@, (k + 1) as nat, n@);
                }
                return None;
            },
        }
    }
}

/// Find the component `child_name` from the diagnostic's line on: the line
/// of its opening tag, the line of its closing tag, and the opening line's
/// indentation.
pub fn find_component_extent(content: &str, diag_range: &Range, child_name: &str) -> (r: Option<
    (usize, usize, String),
>)
    ensures
        match component_extent(content.spec_bytes(), diag_range.start.line as nat, child_name.spec_bytes()) {
            Some((k, j, s, t)) => r matches Some((a, z, ind)) && a == k && z == j && encode_utf8(ind@)
                == content.spec_bytes().subrange(s, t) && j < content.spec_bytes().len(),
            None => r is None,
        },
{
    let b = content.as_bytes();
    let name = child_name.as_bytes();
    let lt = [60u8];
    let slash_lt = [60u8, 47u8];
    let gt = [62u8];
    let none: [u8; 0] = [];
    let self_close = [47u8, 62u8];
    let open_prefix = crate::text::bytes_with(lt.as_slice(), name, none.as_slice());
    let close_tag = crate::text::bytes_with(slash_lt.as_slice(), name, gt.as_slice());
    proof {
        assert(open_prefix@ =~= seq![60u8] + name@);
        assert(self_close@ =~= seq![47u8, 62u8]);
        assert(close_tag@ =~= seq![60u8, 47u8] + name@ + seq![62u8]);
    }
    let (k, s, t, e) = match find_line_starting_with(b, diag_range.start.line as usize, open_prefix.as_slice()) {
        Some(x) => x,
        None => {
            return None;
        },
    };
    proof {
        assert(vstd::utf8::valid_utf8(b@));
        lemma_nth_line(b@, k as nat);
        lemma_skip_ws_char_start(b@, s as int, e as int);
    }
    let indent = substring(content, s, t);
    if find_exec(b, t, e, self_close.as_slice()).is_some() {
        return Some((k, k, indent));
    }
    let blen = b.len();
    assert(k < blen);
    match find_line_starting_with(b, k + 1, close_tag.as_slice()) {
        Some((j, _, _, _)) => Some((k, j, indent)),
        None => None,
    }
}

/// The component a misplacement rule is about.
pub open spec fn misplaced_child(source: DiagnosticSource) -> Option<Seq<char>> {
    match source {
        DiagnosticSource::Verify(RuleName::InvalidRationalePlacement) => Some("Rationale"@),
        DiagnosticSource::Verify(RuleName::InvalidAlternativePlacement) => Some("Alternative"@),
        _ => None,
    }
}

impl InvalidPlacementProvider {
    /// Offer to wrap a misplaced Rationale or Alternative in a Decision:
    /// an opening `<Decision id="">` line before the component and a
    /// closing `</Decision>` line after it, both at its indentation;
    /// nothing when the component's extent cannot be found.
    pub fn actions(&self, diagnostic: &Diagnostic, data: &DiagnosticData, ctx: &ActionRequestContext) -> (r: Vec<CodeAction>)
        ensures
            match misplaced_child(data.source) {
                None => r@.len() == 0,
                Some(child) => match component_extent(
                    ctx.file_content.spec_bytes(),
                    diagnostic.range.start.line as nat,
                    encode_utf8(child),
                ) {
                    None => r@.len() == 0,
                    Some((k, j, s, t)) => {
                        let ind = vstd::utf8::decode_utf8(ctx.file_content.spec_bytes().subrange(s, t));
                        let open_pos = Position { line: k as u32, character: 0 };
                        let close_pos = Position { line: (j + 1) as u32, character: 0 };
                        &&& r@.len() == 1
                        &&& r@[0].title@ == "Wrap in <Decision>"@
                        &&& r@[0].edits@.len() == 2
                        &&& r@[0].edits@[0].range == Range { start: open_pos, end: open_pos }
                        &&& r@[0].edits@[0].new_text@ == ind + "<Decision id=\"\">\n"@
                        &&& r@[0].edits@[1].range == Range { start: close_pos, end: close_pos }
                        &&& r@[0].edits@[1].new_text@ == ind + "</Decision>\n"@
                    },
                },
            },
    {
        let mut out: Vec<CodeAction> = Vec::new();
        let child = match data.source {
            DiagnosticSource::Verify(RuleName::InvalidRationalePlacement) => "Rationale",
            DiagnosticSource::Verify(RuleName::InvalidAlternativePlacement) => "Alternative",
            _ => {
                return out;
            },
        };
        let (start_line, end_line, indent) = match find_component_extent(ctx.file_content, &diagnostic.range, child) {
            Some(x) => x,
            None => {
                return out;
            },
        };
        proof {
            vstd::utf8::encode_utf8_decode_utf8(indent@);
        }
        let blen = ctx.file_content.as_bytes().len();
        assert(end_line < blen);
        let open_pos = Position { line: start_line as u32, character: 0 };
        let close_pos = Position { line: (end_line + 1) as u32, character: 0 };
        let mut open_text = String::from_str(indent.as_str());
        open_text.append("<Decision id=\"\">\n");
        let mut close_text = String::from_str(indent.as_str());
        close_text.append("</Decision>\n");
        let mut edits: Vec<TextEdit> = Vec::new();
        edits.push(TextEdit { range: zero_range(open_pos), new_text: open_text });
        edits.push(TextEdit { range: zero_range(close_pos), new_text: close_text });
        out.push(CodeAction { title: String::from_str("Wrap in <Decision>"), edits });
        out
    }
}

impl CodeActionProvider for IncompleteDecisionProvider {
    open spec fn accepts(&self, diagnostic: &Diagnostic, data: &DiagnosticData, ctx: &ActionRequestContext) -> bool {
        true
    }

    fn handles(&self, data: &DiagnosticData) -> (r: bool) {
        IncompleteDecisionProvider::handles(self, data)
    }

    fn actions(&self, diagnostic: &Diagnostic, data: &DiagnosticData, ctx: &ActionRequestContext) -> (r: Vec<CodeAction>) {
        IncompleteDecisionProvider::actions(self, diagnostic, data, ctx)
    }
}

impl CodeActionProvider for OrphanDecisionProvider {
    open spec fn accepts(&self, diagnostic: &Diagnostic, data: &DiagnosticData, ctx: &ActionRequestContext) -> bool {
        true
    }

    fn handles(&self, data: &DiagnosticData) -> (r: bool) {
        OrphanDecisionProvider::handles(self, data)
    }

    fn actions(&self, diagnostic: &Diagnostic, data: &DiagnosticData, ctx: &ActionRequestContext) -> (r: Vec<CodeAction>) {
        OrphanDecisionProvider::actions(self, diagnostic, data, ctx)
    }
}

impl CodeActionProvider for InvalidPlacementProvider {
    open spec fn accepts(&self, diagnostic: &Diagnostic, data: &DiagnosticData, ctx: &ActionRequestContext) -> bool {
        true
    }

    fn handles(&self, data: &DiagnosticData) -> (r: bool) {
        InvalidPlacementProvider::handles(self, data)
    }

    fn actions(&self, diagnostic: &Diagnostic, data: &DiagnosticData, ctx: &ActionRequestContext) -> (r: Vec<CodeAction>) {
        InvalidPlacementProvider::actions(self, diagnostic, data, ctx)
    }
}

} // verus!
