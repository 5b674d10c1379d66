//! Inserting a skeleton of a missing required component before the close
//! of the last `supersigil-xml` fence.

use vstd::prelude::*;
use vstd::string::{StringExecFns, StringSliceAdditionalSpecFns};
use crate::code_actions::{ActionRequestContext, CodeAction, MissingComponentProvider, CodeActionProvider};
use crate::component_defs::{def_named, find_component_def, sorted_required, sorted_required_names};
use crate::diagnostics::{ActionContext, DiagnosticData};
use crate::fence::{fence_step, fence_step_exec, scan_before, FenceScan};
use crate::frontmatter::lemma_line_index_bound;
use crate::position::{zero_range, Position, Range, TextEdit};
use crate::report::Diagnostic;
use crate::sorting::str_views;
use crate::text::{
    lemma_line_start_none_after, lemma_next_nl_bounds, lemma_nth_line, line_at_exec, line_start,
    nth_line,
};

verus! {

// ---------------------------------------------------------------------------
// The close of the last fence
// ---------------------------------------------------------------------------

/// Line `k` closes a `supersigil-xml` fence.
pub open spec fn closes_supersigil_fence(b: Seq<u8>, k: nat) -> bool {
    match nth_line(b, k) {
        Some((s, e)) => {
            let st = scan_before(b, k);
            &&& st.fence matches Some((_, _, sup)) && sup
            &&& fence_step(st, b, s, e).0.fence is None
        },
        None => false,
    }
}

/// The last line before `k` that closes a `supersigil-xml` fence.
pub open spec fn last_close_before(b: Seq<u8>, k: nat) -> Option<nat>
    decreases k,
{
    if k == 0 {
        None
    } else if closes_supersigil_fence(b, (k - 1) as nat) {
        Some((k - 1) as nat)
    } else {
        last_close_before(b, (k - 1) as nat)
    }
}

/// The line that closes the last `supersigil-xml` fence of the document.
pub open spec fn last_fence_close(b: Seq<u8>) -> Option<nat> {
    last_close_before(b, b.len())
}

proof fn lemma_last_close_skip(b: Seq<u8>, k: nat, n: nat)
    requires
        line_start(b, n) is None,
        n <= k,
    ensures
        last_close_before(b, k) == last_close_before(b, n),
    decreases k,
{
    if k > n {
        lemma_line_start_none_after(b, n, (k - 1) as nat);
        lemma_last_close_skip(b, (k - 1) as nat, n);
    }
}

/// The position at the start of the line that closes the last
/// `supersigil-xml` fence block.
pub fn find_last_fence_close(content: &str) -> (r: Option<Position>)
    ensures
        match last_fence_close(content.spec_bytes()) {
            Some(k) => r == Some(Position { line: k as u32, character: 0 }),
            None => r is None,
        },
{
    let b = content.as_bytes();
    if b.len() == 0 {
        return None;
    }
    let mut st = FenceScan { fence: None, in_comment: false };
    let mut last: Option<usize> = None;
    let mut s: usize = 0;
    let mut k: usize = 0;
    loop
        invariant
            b@ == content.spec_bytes(),
            s < b@.len(),
            k <= s,
            line_start(b@, k as nat) == Some(s as int),
            st == scan_before(b@, k as nat),
            last matches Some(y) ==> last_close_before(b@, k as nat) == Some(y as nat),
            last is None ==> last_close_before(b@, k as nat) is None,
        decreases b@.len() - s,
    {
        let (e, next) = line_at_exec(b, s);
        proof {
            lemma_next_nl_bounds(b@, s as int);
            lemma_nth_line(b@, k as nat);
        }
        let (st2, _) = fence_step_exec(st, b, s, e);
        let closes = match st.fence {
            Some((_, _, sup)) => sup && st2.fence.is_none(),
            None => false,
        };
        if closes {
            last = Some(k);
        }
        proof {
            assert(closes == closes_supersigil_fence(b@, k as nat));
            assert(scan_before(b@, (k + 1) as nat) == st2);
        }
        match next {
            Some(t) => {
                s = t;
                k = k + 1;
                st = st2;
            },
            None => {
                proof {
                    lemma_line_index_bound(b@, k as nat);
                    lemma_last_close_skip(b@, b@.len() as nat, (k + 1) as nat);
                }
                return match last {
                    Some(x) => {
                        let r = Some(Position { line: x as u32, character: 0 });
                        proof {
                            assert(last_fence_close(b@) == Some(x as nat));
                        }
                        r
                    },
                    None => None,
                };
            },
        }
    }
}

// ---------------------------------------------------------------------------
// The skeleton
// ---------------------------------------------------------------------------

/// ` name=""` for each name, in order.
pub open spec fn empty_attrs_text(names: Seq<Seq<char>>) -> Seq<char>
    decreases names.len(),
{
    if names.len() == 0 {
        Seq::empty()
    } else {
        empty_attrs_text(names.drop_last()) + " "@ + names.last() + "=\"\""@
    }
}

/// The opening-tag attributes for `component`: its required attributes,
/// sorted, each with an empty value; nothing for an unknown component.
pub open spec fn required_attrs_text(ctx: &ActionRequestContext, component: Seq<char>) -> Seq<char> {
    match def_named(ctx.component_defs@, component) {
        Some(def) => empty_attrs_text(sorted_required(def)),
        None => Seq::empty(),
    }
}

/// Build the required attributes for the component's opening tag, for
/// example ` id=""` for a Criterion.
pub fn build_required_attrs_str(component_name: &str, ctx: &ActionRequestContext) -> (r: String)
    ensures
        r@ == required_attrs_text(ctx, component_name@),
{
    let def = match find_component_def(ctx.component_defs, component_name) {
        Some(d) => d,
        None => {
            return String::new();
        },
    };
    let required = sorted_required_names(def);
    let mut s = String::new();
    let mut i: usize = 0;
    proof {
        reveal_strlit(" ");
        reveal_strlit("=\"\"");
    }
    while i < required.len()
        invariant
            0 <= i <= required@.len(),
            s@ == empty_attrs_text(str_views(required@).take(i as int)),
        decreases required@.len() - i,
    {
        proof {
            assert(str_views(required@).take(i + 1).drop_last() =~= str_views(required@).take(i as int));
            assert(str_views(required@).take(i + 1).last() == required@[i as int]@);
        }
        s.append(" ");
        s.append(required[i]);
        s.append("=\"\"");
        i = i + 1;
    }
    proof {
        assert(str_views(required@).take(required@.len() as int) =~= str_views(required@));
    }
    s
}

/// The skeleton of `component` with the attributes `attrs`.
pub open spec fn skeleton_text(component: Seq<char>, attrs: Seq<char>) -> Seq<char> {
    "<"@ + component + attrs + ">\n"@ + "<!-- TODO: Add "@ + component + " content -->\n"@ + "</"@ + component
        + ">\n"@
}

impl MissingComponentProvider {
    /// Offer to insert a skeleton of the missing component at the start of
    /// the line that closes the last `supersigil-xml` fence; nothing when
    /// the document has no closed fence.
    pub fn actions(&self, diagnostic: &Diagnostic, data: &DiagnosticData, ctx: &ActionRequestContext) -> (r: Vec<CodeAction>)
        ensures
            match data.context {
                ActionContext::MissingComponent { component, .. } => match last_fence_close(
                    ctx.file_content.spec_bytes(),
                ) {
                    None => r@.len() == 0,
                    Some(k) => {
                        let pos = Position { line: k as u32, character: 0 };
                        &&& r@.len() == 1
                        &&& r@[0].title@ == "Add <"@ + component@ + "> skeleton"@
                        &&& r@[0].edits@.len() == 1
                        &&& r@[0].edits@[0].range == (Range { start: pos, end: pos })
                        &&& r@[0].edits@[0].new_text@ == skeleton_text(
                            component@,
                            required_attrs_text(ctx, component@),
                        )
                    },
                },
                _ => r@.len() == 0,
            },
    {
        let mut out: Vec<CodeAction> = Vec::new();
        let component = match &data.context {
            ActionContext::MissingComponent { component, .. } => component,
            _ => {
                return out;
            },
        };
        let insert_pos = match find_last_fence_close(ctx.file_content) {
            Some(p) => p,
            None => {
                return out;
            },
        };
        let attrs = build_required_attrs_str(component.as_str(), ctx);
        let name = component.as_str();
        let mut skeleton = String::from_str("<");
        skeleton.append(name);
        skeleton.append(attrs.as_str());
        skeleton.append(">\n");
        skeleton.append("<!-- TODO: Add ");
        skeleton.append(name);
        skeleton.append(" content -->\n");
        skeleton.append("</");
        skeleton.append(name);
        skeleton.append(">\n");
        let mut title = String::from_str("Add <");
        title.append(name);
        title.append("> skeleton");
        let mut edits: Vec<TextEdit> = Vec::new();
        edits.push(TextEdit { range: zero_range(insert_pos), new_text: skeleton });
        out.push(CodeAction { title, edits });
        out
    }
}

impl CodeActionProvider for MissingComponentProvider {
    open spec fn accepts(&self, diagnostic: &Diagnostic, data: &DiagnosticData, ctx: &ActionRequestContext) -> bool {
        true
    }

    fn handles(&self, data: &DiagnosticData) -> (r: bool) {
        MissingComponentProvider::handles(self, data)
    }

    fn actions(&self, diagnostic: &Diagnostic, data: &DiagnosticData, ctx: &ActionRequestContext) -> (r: Vec<CodeAction>) {
        MissingComponentProvider::actions(self, diagnostic, data, ctx)
    }
}

} // verus!
