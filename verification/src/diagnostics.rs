//! Diagnostic metadata for code action providers, and the enrichment of
//! verification findings with fix-specific context parsed from their
//! messages.

use vstd::prelude::*;
use vstd::string::StringSliceAdditionalSpecFns;
use vstd::utf8::{encode_utf8, valid_utf8};
use crate::position::SourcePosition;
use crate::text::{
    char_start, find_exec, find_from, lemma_after_ascii, lemma_ascii_start, lemma_char_start_boundary,
    lemma_find_from_bounds, lemma_rfind_to_bounds, matches_at, rfind_exec, rfind_in, same_str, substring,
};

verus! {

broadcast use vstd::utf8::encode_utf8_valid_utf8;

/// The verification rule of a finding: those the server distinguishes,
/// and any other by its name.
#[derive(Debug, Clone, PartialEq, Eq)]
pub enum RuleName {
    MissingRequiredComponent,
    OrphanDecision,
    InvalidRationalePlacement,
    InvalidAlternativePlacement,
    InvalidExpectedPlacement,
    SequentialIdGap,
    SequentialIdOrder,
    IncompleteDecision,
    EmptyProject,
    /// Any other verification rule, by its name.
    Other(String),
}

impl RuleName {
    /// A copy of the rule name.
    pub fn duplicate(&self) -> (r: RuleName)
        ensures
            r == *self,
    {
        match self {
            RuleName::MissingRequiredComponent => RuleName::MissingRequiredComponent,
            RuleName::OrphanDecision => RuleName::OrphanDecision,
            RuleName::InvalidRationalePlacement => RuleName::InvalidRationalePlacement,
            RuleName::InvalidAlternativePlacement => RuleName::InvalidAlternativePlacement,
            RuleName::InvalidExpectedPlacement => RuleName::InvalidExpectedPlacement,
            RuleName::SequentialIdGap => RuleName::SequentialIdGap,
            RuleName::SequentialIdOrder => RuleName::SequentialIdOrder,
            RuleName::IncompleteDecision => RuleName::IncompleteDecision,
            RuleName::EmptyProject => RuleName::EmptyProject,
            RuleName::Other(name) => RuleName::Other(name.clone()),
        }
    }
}

/// Categorises parse-stage diagnostics.
#[derive(Debug, Clone, Copy, PartialEq, Eq, Structural)]
pub enum ParseDiagnosticKind {
    MissingRequiredAttribute,
    UnknownComponent,
    XmlSyntaxError,
    UnclosedFrontmatter,
    DuplicateCodeRef,
    Other,
}

/// Categorises graph-stage diagnostics.
#[derive(Debug, Clone, Copy, PartialEq, Eq, Structural)]
pub enum GraphDiagnosticKind {
    DuplicateDocumentId,
    DuplicateComponentId,
    BrokenRef,
    DependencyCycle,
    InvalidComponent,
}

/// Identifies which subsystem produced the diagnostic.
#[derive(Debug, Clone, PartialEq, Eq)]
pub enum DiagnosticSource {
    Parse(ParseDiagnosticKind),
    Graph(GraphDiagnosticKind),
    Verify(RuleName),
}

/// Fix-specific metadata carried by a diagnostic for code action providers.
#[derive(Debug, Clone, PartialEq, Eq)]
pub enum ActionContext {
    /// No fix-specific metadata.
    NoContext,
    BrokenRef { target_ref: String },
    MissingAttribute { component: String, attribute: String },
    DuplicateId { id: String, other_path: String },
    IncompleteDecision { decision_id: String },
    MissingComponent { component: String, parent_id: String },
    OrphanDecision { decision_id: String },
    InvalidPlacement { component: String, expected_parent: String },
    SequentialIdGap { component_type: String },
}

/// Structured metadata attached to the `data` field of an LSP diagnostic,
/// so that code action providers need not re-parse the message text.
#[derive(Debug, Clone, PartialEq, Eq)]
pub struct DiagnosticData {
    pub source: DiagnosticSource,
    pub doc_id: Option<String>,
    pub context: ActionContext,
}

/// Severity of a verification finding.
#[derive(Debug, Clone, Copy, PartialEq, Eq, Structural)]
pub enum ReportSeverity {
    Error,
    Warning,
    Info,
    Off,
}

/// Severity of an LSP diagnostic.
#[derive(Debug, Clone, Copy, PartialEq, Eq, Structural)]
pub enum DiagnosticSeverity {
    Error,
    Warning,
    Information,
    Hint,
}

/// Where a finding points, when the verifier knows more than the
/// document: a file, a 1-based line and column, and whether running the
/// document's examples could cover it.
#[derive(Debug, Clone, PartialEq, Eq)]
pub struct FindingDetails {
    pub path: Option<String>,
    pub line: Option<usize>,
    pub column: Option<usize>,
    pub example_coverable: bool,
}

impl Default for FindingDetails {
    fn default() -> (r: FindingDetails)
        ensures
            r.path is None,
            r.line is None,
            r.column is None,
            !r.example_coverable,
    {
        FindingDetails { path: None, line: None, column: None, example_coverable: false }
    }
}

/// A verification finding: the rule, the document it concerns, its message
/// and position, the severity configured for it, and optional details.
#[derive(Debug, Clone, PartialEq, Eq)]
pub struct Finding {
    pub rule: RuleName,
    pub doc_id: Option<String>,
    pub message: String,
    pub position: Option<SourcePosition>,
    pub effective_severity: ReportSeverity,
    pub details: Option<FindingDetails>,
}

impl Finding {
    /// A finding of `rule` at severity Error, without details.
    pub fn new(
        rule: RuleName,
        doc_id: Option<String>,
        message: String,
        position: Option<SourcePosition>,
    ) -> (r: Finding)
        ensures
            r.rule == rule,
            r.doc_id == doc_id,
            r.message == message,
            r.position == position,
            r.effective_severity == ReportSeverity::Error,
            r.details is None,
    {
        Finding {
            rule,
            doc_id,
            message,
            position,
            effective_severity: ReportSeverity::Error,
            details: None,
        }
    }
}

/// The LSP severity of a finding severity; `None` for `Off`.
pub open spec fn lsp_severity(severity: ReportSeverity) -> Option<DiagnosticSeverity> {
    match severity {
        ReportSeverity::Error => Some(DiagnosticSeverity::Error),
        ReportSeverity::Warning => Some(DiagnosticSeverity::Warning),
        ReportSeverity::Info => Some(DiagnosticSeverity::Hint),
        ReportSeverity::Off => None,
    }
}

/// Map a finding severity to an LSP severity; `None` for `Off` findings,
/// which are not published.
pub fn severity_to_lsp(severity: ReportSeverity) -> (r: Option<DiagnosticSeverity>)
    ensures
        r == lsp_severity(severity),
{
    match severity {
        ReportSeverity::Error => Some(DiagnosticSeverity::Error),
        ReportSeverity::Warning => Some(DiagnosticSeverity::Warning),
        ReportSeverity::Info => Some(DiagnosticSeverity::Hint),
        ReportSeverity::Off => None,
    }
}

/// The bytes of a backtick.
pub open spec fn backtick_spec() -> Seq<u8> {
    seq![96u8]
}

/// The backtick-delimited token at or after `pos`: the token's bytes
/// `[start, end)`; the caller resumes after the closing backtick.
pub open spec fn backtick_token(b: Seq<u8>, pos: int) -> Option<(int, int)> {
    match find_from(b, pos, b.len() as int, backtick_spec()) {
        None => None,
        Some(o) => match find_from(b, o + 1, b.len() as int, backtick_spec()) {
            None => None,
            Some(c) => Some((o + 1, c)),
        },
    }
}

/// Extract a backtick-delimited token starting at or after `pos` in `msg`:
/// the token and the byte position after the closing backtick.
pub fn extract_backtick_token(msg: &str, pos: usize) -> (r: Option<(String, usize)>)
    requires
        pos <= msg.spec_bytes().len(),
        char_start(msg.spec_bytes(), pos as int),
    ensures
        match backtick_token(msg.spec_bytes(), pos as int) {
            None => r is None,
            Some((s, e)) => r matches Some((t, after)) && encode_utf8(t@)
                == msg.spec_bytes().subrange(s, e) && after == e + 1,
        },
{
    let b = msg.as_bytes();
    let tick = [96u8];
    proof {
        assert(tick@ =~= backtick_spec());
        lemma_find_from_bounds(b@, pos as int, b@.len() as int, backtick_spec());
    }
    let o = match find_exec(b, pos, b.len(), tick.as_slice()) {
        Some(o) => o,
        None => {
            return None;
        },
    };
    proof {
        assert(b@[o + 0] == backtick_spec()[0]);
        lemma_after_ascii(b@, o as int);
        lemma_find_from_bounds(b@, o + 1, b@.len() as int, backtick_spec());
    }
    let c = match find_exec(b, o + 1, b.len(), tick.as_slice()) {
        Some(c) => c,
        None => {
            return None;
        },
    };
    proof {
        assert(b@[c + 0] == backtick_spec()[0]);
        lemma_ascii_start(b@, c as int);
    }
    Some((substring(msg, o + 1, c), c + 1))
}

/// The bytes of ``missing required component ` ``.
pub open spec fn missing_component_spec() -> Seq<u8> {
    seq![
        109u8, 105u8, 115u8, 115u8, 105u8, 110u8, 103u8, 32u8, 114u8, 101u8, 113u8, 117u8, 105u8,
        114u8, 101u8, 100u8, 32u8, 99u8, 111u8, 109u8, 112u8, 111u8, 110u8, 101u8, 110u8, 116u8,
        32u8, 96u8,
    ]
}

/// [`ActionContext`] with its strings as byte ranges of the message, the
/// document ID, or fixed component names.
pub enum ActionSpec {
    NoContext,
    MissingComponent { component: (int, int) },
    OrphanDecision { decision_id: (int, int) },
    /// The misplaced component and its expected parent, as literals.
    InvalidPlacement { component: Seq<char>, expected_parent: Seq<char> },
    /// The component type: the first backtick token up to its last `-`,
    /// or empty.
    SequentialIdGap { component_type: Option<(int, int)> },
    IncompleteDecision,
}

/// The action context of a finding with `rule` and message bytes `b`.
pub open spec fn finding_context(rule: RuleName, b: Seq<u8>) -> ActionSpec {
    match rule {
        RuleName::MissingRequiredComponent => match find_from(
            b,
            0,
            b.len() as int,
            missing_component_spec(),
        ) {
            None => ActionSpec::NoContext,
            Some(p) => {
                let rest = p + missing_component_spec().len();
                match find_from(b, rest, b.len() as int, backtick_spec()) {
                    None => ActionSpec::NoContext,
                    Some(e) => ActionSpec::MissingComponent { component: (rest, e) },
                }
            },
        },
        RuleName::OrphanDecision => match backtick_token(b, 0) {
            Some(t) => ActionSpec::OrphanDecision { decision_id: t },
            None => ActionSpec::NoContext,
        },
        RuleName::InvalidRationalePlacement => ActionSpec::InvalidPlacement {
            component: "Rationale"@,
            expected_parent: "Decision"@,
        },
        RuleName::InvalidAlternativePlacement => ActionSpec::InvalidPlacement {
            component: "Alternative"@,
            expected_parent: "Decision"@,
        },
        RuleName::InvalidExpectedPlacement => ActionSpec::InvalidPlacement {
            component: "Expected"@,
            expected_parent: "Example"@,
        },
        RuleName::SequentialIdGap | RuleName::SequentialIdOrder => ActionSpec::SequentialIdGap {
            component_type: match backtick_token(b, 0) {
                Some((s, e)) => match rfind_in(b, s, e, seq![45u8]) {
                    Some(d) => Some((s, d)),
                    None => None,
                },
                None => None,
            },
        },
        RuleName::IncompleteDecision => ActionSpec::IncompleteDecision,
        _ => ActionSpec::NoContext,
    }
}

/// `c` is the exec value of `t` for message bytes `b` and document ID `d`.
pub open spec fn action_is(c: ActionContext, t: ActionSpec, b: Seq<u8>, d: Seq<char>) -> bool {
    match (c, t) {
        (ActionContext::NoContext, ActionSpec::NoContext) => true,
        (
            ActionContext::MissingComponent { component, parent_id },
            ActionSpec::MissingComponent { component: r },
        ) => encode_utf8(component@) == b.subrange(r.0, r.1) && parent_id@ == d,
        (ActionContext::OrphanDecision { decision_id }, ActionSpec::OrphanDecision { decision_id: r }) => {
            encode_utf8(decision_id@) == b.subrange(r.0, r.1)
        },
        (
            ActionContext::InvalidPlacement { component, expected_parent },
            ActionSpec::InvalidPlacement { component: c2, expected_parent: p2 },
        ) => component@ == c2 && expected_parent@ == p2,
        (
            ActionContext::SequentialIdGap { component_type },
            ActionSpec::SequentialIdGap { component_type: r },
        ) => match r {
            Some(r) => encode_utf8(component_type@) == b.subrange(r.0, r.1),
            None => component_type@ == Seq::<char>::empty(),
        },
        (ActionContext::IncompleteDecision { decision_id }, ActionSpec::IncompleteDecision) => {
            decision_id@ == d
        },
        _ => false,
    }
}

/// The document ID of a finding, or empty.
pub open spec fn finding_doc_id(f: Finding) -> Seq<char> {
    match f.doc_id {
        Some(d) => d@,
        None => Seq::empty(),
    }
}

/// Build the [`ActionContext`] of a finding from its rule and message,
/// sparing code action providers from re-parsing the message.
pub fn enrich_finding_context(finding: &Finding) -> (r: ActionContext)
    ensures
        action_is(
            r,
            finding_context(finding.rule, encode_utf8(finding.message@)),
            encode_utf8(finding.message@),
            finding_doc_id(*finding),
        ),
{
    let msg = finding.message.as_str();
    let b = msg.as_bytes();
    let doc_id = match &finding.doc_id {
        Some(d) => d.clone(),
        None => String::new(),
    };
    proof {
        assert(valid_utf8(b@));
        lemma_char_start_boundary(b@, 0);
    }
    match &finding.rule {
        RuleName::MissingRequiredComponent => {
            let needle: [u8; 28] = [
                109u8, 105u8, 115u8, 115u8, 105u8, 110u8, 103u8, 32u8, 114u8, 101u8, 113u8, 117u8,
                105u8, 114u8, 101u8, 100u8, 32u8, 99u8, 111u8, 109u8, 112u8, 111u8, 110u8, 101u8,
                110u8, 116u8, 32u8, 96u8,
            ];
            let tick = [96u8];
            proof {
                assert(needle@ =~= missing_component_spec());
                assert(tick@ =~= backtick_spec());
                lemma_find_from_bounds(b@, 0, b@.len() as int, missing_component_spec());
            }
            let p = match find_exec(b, 0, b.len(), needle.as_slice()) {
                Some(p) => p,
                None => {
                    return ActionContext::NoContext;
                },
            };
            let rest = p + 28;
            proof {
                assert(b@[p + 27] == missing_component_spec()[27]);
                lemma_after_ascii(b@, p + 27);
                lemma_find_from_bounds(b@, rest as int, b@.len() as int, backtick_spec());
            }
            match find_exec(b, rest, b.len(), tick.as_slice()) {
                Some(e) => {
                    proof {
                        assert(b@[e + 0] == backtick_spec()[0]);
                        lemma_ascii_start(b@, e as int);
                    }
                    ActionContext::MissingComponent {
                        component: substring(msg, rest, e),
                        parent_id: doc_id,
                    }
                },
                None => ActionContext::NoContext,
            }
        },
        RuleName::OrphanDecision => match extract_backtick_token(msg, 0) {
            Some((decision_id, _)) => ActionContext::OrphanDecision { decision_id },
            None => ActionContext::NoContext,
        },
        RuleName::InvalidRationalePlacement => ActionContext::InvalidPlacement {
            component: "Rationale".to_owned(),
            expected_parent: "Decision".to_owned(),
        },
        RuleName::InvalidAlternativePlacement => ActionContext::InvalidPlacement {
            component: "Alternative".to_owned(),
            expected_parent: "Decision".to_owned(),
        },
        RuleName::InvalidExpectedPlacement => ActionContext::InvalidPlacement {
            component: "Expected".to_owned(),
            expected_parent: "Example".to_owned(),
        },
        RuleName::SequentialIdGap | RuleName::SequentialIdOrder => {
            let component_type = match extract_backtick_token(msg, 0) {
                Some((id, _)) => {
                    let ib = id.as_str().as_bytes();
                    let dash = [45u8];
                    let ghost t = backtick_token(b@, 0).unwrap();
                    proof {
                        assert(dash@ =~= seq![45u8]);
                        lemma_backtick_token_bounds(b@, 0);
                        crate::references::lemma_rfind_shift(b@, ib@, t.0, t.1, seq![45u8]);
                        lemma_rfind_to_bounds(ib@, 0, ib@.len() - 1, seq![45u8]);
                        lemma_char_start_boundary(ib@, 0);
                    }
                    match rfind_exec(ib, 0, ib.len(), dash.as_slice()) {
                        Some(d) => {
                            proof {
                                assert(ib@[d + 0] == 45u8);
                                lemma_ascii_start(ib@, d as int);
                                assert(ib@.subrange(0, d as int) =~= b@.subrange(t.0, t.0 + d));
                            }
                            substring(id.as_str(), 0, d)
                        },
                        None => String::new(),
                    }
                },
                None => String::new(),
            };
            ActionContext::SequentialIdGap { component_type }
        },
        RuleName::IncompleteDecision => ActionContext::IncompleteDecision { decision_id: doc_id },
        _ => ActionContext::NoContext,
    }
}

/// How far the server goes when it publishes diagnostics: parse and graph
/// findings only, or the full verification as well.
#[derive(Debug, Clone, Copy, PartialEq, Eq, Structural)]
pub enum DiagnosticsTier {
    Lint,
    Verify,
}

/// The tier a configuration value names: `lint` or `verify`; `None` for any
/// other value.
pub fn parse_tier(s: &str) -> (r: Option<DiagnosticsTier>)
    ensures
        r == (if s@ == "lint"@ {
            Some(DiagnosticsTier::Lint)
        } else if s@ == "verify"@ {
            Some(DiagnosticsTier::Verify)
        } else {
            None::<DiagnosticsTier>
        }),
{
    if same_str(s, "lint") {
        Some(DiagnosticsTier::Lint)
    } else if same_str(s, "verify") {
        Some(DiagnosticsTier::Verify)
    } else {
        None
    }
}

proof fn lemma_backtick_token_bounds(b: Seq<u8>, pos: int)
    requires
        0 <= pos <= b.len(),
    ensures
        backtick_token(b, pos) matches Some((s, e)) ==> pos < s <= e < b.len(),
{
    lemma_find_from_bounds(b, pos, b.len() as int, backtick_spec());
    if let Some(o) = find_from(b, pos, b.len() as int, backtick_spec()) {
        lemma_find_from_bounds(b, o + 1, b.len() as int, backtick_spec());
    }
}

} // verus!
