//! Quick-fix providers: which diagnostics each one handles, and the text
//! helpers they share.

use vstd::prelude::*;
use vstd::string::StringSliceAdditionalSpecFns;
use vstd::utf8::{encode_utf8, valid_utf8};
use crate::code_lens::Component;
use crate::numerals::{decimal, digit_char};
use crate::component_defs::ComponentDef;
use crate::position::TextEdit;
use crate::requests::{path_strip_prefix, strip_path_prefix};
use crate::urls::{url_file_path, url_to_file_path};
use crate::report::Diagnostic;
use crate::diagnostics::{DiagnosticData, DiagnosticSource, GraphDiagnosticKind, ParseDiagnosticKind, RuleName};
use crate::text::{
    char_start, find_exec, find_from, lemma_after_ascii, lemma_ascii_start, lemma_char_start_boundary,
    lemma_find_from_bounds, lemma_rfind_to_bounds, matches_at, rfind_exec, rfind_in, rfind_to,
    slice_str, substring,
};

pub mod broken_ref;
pub mod decision;
pub mod duplicate_id;
pub mod missing_attribute;
pub mod missing_component;
pub mod sequential_id;

pub use decision::find_closing_decision_tag;
pub use duplicate_id::find_unique_suffix;

verus! {

broadcast use vstd::utf8::encode_utf8_valid_utf8;

/// A quick fix: its title and the edits it makes to the requested file.
#[derive(Debug, Clone, PartialEq, Eq)]
pub struct CodeAction {
    pub title: String,
    pub edits: Vec<TextEdit>,
}

/// What providers read besides the diagnostic: the text of the requested
/// file, the document parsed from it (if it parsed), the IDs of all
/// documents of the project, and the component definitions.
pub struct ActionRequestContext<'a> {
    pub file_content: &'a str,
    pub current_doc: Option<&'a ParsedDocument>,
    pub document_ids: &'a [String],
    pub component_defs: &'a [ComponentDef],
}

/// A parsed spec document: its ID and its top-level components.
#[derive(Debug)]
pub struct ParsedDocument {
    pub doc_id: String,
    pub components: Vec<Component>,
}

/// A provider of quick fixes: which diagnostic data it handles, and the
/// actions it offers for a diagnostic, on the inputs it accepts.
pub trait CodeActionProvider {
    /// The inputs on which the provider computes its actions.
    spec fn accepts(&self, diagnostic: &Diagnostic, data: &DiagnosticData, ctx: &ActionRequestContext) -> bool;

    /// Whether the provider handles diagnostics with this data.
    fn handles(&self, data: &DiagnosticData) -> bool;

    /// The quick fixes for `diagnostic`.
    fn actions(&self, diagnostic: &Diagnostic, data: &DiagnosticData, ctx: &ActionRequestContext) -> Vec<CodeAction>
        requires
            self.accepts(diagnostic, data, ctx),
    ;
}

/// Offers to remove a broken ref or to create the missing document.
#[derive(Debug)]
pub struct BrokenRefProvider;

/// Offers to rename a duplicate document or component ID.
#[derive(Debug)]
pub struct DuplicateIdProvider;

/// Offers to insert a Rationale stub into an incomplete Decision.
#[derive(Debug)]
pub struct IncompleteDecisionProvider;

/// Offers to wrap a misplaced Rationale or Alternative in a Decision.
#[derive(Debug)]
pub struct InvalidPlacementProvider;

/// Offers to add a missing required attribute.
#[derive(Debug)]
pub struct MissingAttributeProvider;

/// Offers to add a missing required component.
#[derive(Debug)]
pub struct MissingComponentProvider;

/// Offers to connect or remove an orphan Decision.
#[derive(Debug)]
pub struct OrphanDecisionProvider;

/// Offers to renumber sequential IDs with gaps or out of order.
#[derive(Debug)]
pub struct SequentialIdProvider;

impl BrokenRefProvider {
    /// Handles broken refs in the graph.
    pub fn handles(&self, data: &DiagnosticData) -> (r: bool)
        ensures
            r == (data.source == DiagnosticSource::Graph(GraphDiagnosticKind::BrokenRef)),
    {
        match data.source {
            DiagnosticSource::Graph(GraphDiagnosticKind::BrokenRef) => true,
            _ => false,
        }
    }
}

impl DuplicateIdProvider {
    /// Handles duplicate document and component IDs.
    pub fn handles(&self, data: &DiagnosticData) -> (r: bool)
        ensures
            r == (data.source == DiagnosticSource::Graph(GraphDiagnosticKind::DuplicateDocumentId)
                || data.source == DiagnosticSource::Graph(GraphDiagnosticKind::DuplicateComponentId)),
    {
        match data.source {
            DiagnosticSource::Graph(GraphDiagnosticKind::DuplicateDocumentId) => true,
            DiagnosticSource::Graph(GraphDiagnosticKind::DuplicateComponentId) => true,
            _ => false,
        }
    }
}

impl IncompleteDecisionProvider {
    /// Handles the incomplete-decision verification rule.
    pub fn handles(&self, data: &DiagnosticData) -> (r: bool)
        ensures
            r == (data.source == DiagnosticSource::Verify(RuleName::IncompleteDecision)),
    {
        match data.source {
            DiagnosticSource::Verify(RuleName::IncompleteDecision) => true,
            _ => false,
        }
    }
}

impl InvalidPlacementProvider {
    /// Handles misplaced Rationale and Alternative components.
    pub fn handles(&self, data: &DiagnosticData) -> (r: bool)
        ensures
            r == (data.source == DiagnosticSource::Verify(RuleName::InvalidRationalePlacement)
                || data.source == DiagnosticSource::Verify(RuleName::InvalidAlternativePlacement)),
    {
        match data.source {
            DiagnosticSource::Verify(RuleName::InvalidRationalePlacement) => true,
            DiagnosticSource::Verify(RuleName::InvalidAlternativePlacement) => true,
            _ => false,
        }
    }
}

impl MissingAttributeProvider {
    /// Handles parse errors for missing required attributes.
    pub fn handles(&self, data: &DiagnosticData) -> (r: bool)
        ensures
            r == (data.source == DiagnosticSource::Parse(
                ParseDiagnosticKind::MissingRequiredAttribute,
            )),
    {
        match data.source {
            DiagnosticSource::Parse(ParseDiagnosticKind::MissingRequiredAttribute) => true,
            _ => false,
        }
    }
}

impl MissingComponentProvider {
    /// Handles the missing-required-component verification rule.
    pub fn handles(&self, data: &DiagnosticData) -> (r: bool)
        ensures
            r == (data.source == DiagnosticSource::Verify(RuleName::MissingRequiredComponent)),
    {
        match data.source {
            DiagnosticSource::Verify(RuleName::MissingRequiredComponent) => true,
            _ => false,
        }
    }
}

impl OrphanDecisionProvider {
    /// Handles the orphan-decision verification rule.
    pub fn handles(&self, data: &DiagnosticData) -> (r: bool)
        ensures
            r == (data.source == DiagnosticSource::Verify(RuleName::OrphanDecision)),
    {
        match data.source {
            DiagnosticSource::Verify(RuleName::OrphanDecision) => true,
            _ => false,
        }
    }
}

impl SequentialIdProvider {
    /// Handles gaps and disorder in sequential IDs.
    pub fn handles(&self, data: &DiagnosticData) -> (r: bool)
        ensures
            r == (data.source == DiagnosticSource::Verify(RuleName::SequentialIdGap)
                || data.source == DiagnosticSource::Verify(RuleName::SequentialIdOrder)),
    {
        match data.source {
            DiagnosticSource::Verify(RuleName::SequentialIdGap) => true,
            DiagnosticSource::Verify(RuleName::SequentialIdOrder) => true,
            _ => false,
        }
    }
}

/// The `file_parses` key of the file at the URL `file_uri`: its path
/// relative to `project_root`, or its absolute path when it lies outside;
/// `None` when the URL gives no file path.
pub open spec fn relative_key(file_uri: Seq<char>, project_root: Seq<char>) -> Option<Seq<char>> {
    match url_file_path(file_uri) {
        None => None,
        Some(abs) => Some(
            match path_strip_prefix(abs, project_root) {
                Some(rel) => rel,
                None => abs,
            },
        ),
    }
}

/// Convert the file URI to a relative path key matching `file_parses` keys.
pub fn file_relative_key(file_uri: &str, project_root: &str) -> (r: Option<String>)
    ensures
        match relative_key(file_uri@, project_root@) {
            Some(k) => r matches Some(s) && s@ == k,
            None => r is None,
        },
{
    let abs = match url_to_file_path(file_uri) {
        Some(p) => p,
        None => return None,
    };
    match strip_path_prefix(abs.as_str(), project_root) {
        Some(rel) => Some(rel),
        None => Some(abs),
    }
}

/// The bytes of `/`.
pub open spec fn slash_spec() -> Seq<u8> {
    seq![47u8]
}

/// A document ref `feature/type` split at its only `/`, both parts
/// non-empty: the offset of the `/`.
pub open spec fn doc_ref_split(b: Seq<u8>) -> Option<int> {
    match find_from(b, 0, b.len() as int, slash_spec()) {
        None => None,
        Some(p) => if p == 0 || p + 1 == b.len() || find_from(b, p + 1, b.len() as int, slash_spec()) is Some {
            None
        } else {
            Some(p)
        },
    }
}

/// Parse a document ref like `"auth/design"` into `("auth", "design")`;
/// `None` unless it has exactly one `/` with text on both sides.
pub fn parse_doc_ref(target_ref: &str) -> (r: Option<(&str, &str)>)
    ensures
        match doc_ref_split(target_ref.spec_bytes()) {
            None => r is None,
            Some(p) => r matches Some((f, t)) && f.spec_bytes() == target_ref.spec_bytes().subrange(
                0,
                p,
            ) && t.spec_bytes() == target_ref.spec_bytes().subrange(
                p + 1,
                target_ref.spec_bytes().len() as int,
            ),
        },
{
    let b = target_ref.as_bytes();
    let slash = [47u8];
    proof {
        assert(slash@ =~= slash_spec());
        lemma_find_from_bounds(b@, 0, b@.len() as int, slash_spec());
        assert(valid_utf8(b@));
    }
    let p = match find_exec(b, 0, b.len(), slash.as_slice()) {
        Some(p) => p,
        None => {
            return None;
        },
    };
    if p == 0 || p + 1 == b.len() || find_exec(b, p + 1, b.len(), slash.as_slice()).is_some() {
        return None;
    }
    proof {
        assert(b@[p + 0] == slash_spec()[0]);
        lemma_ascii_start(b@, p as int);
        lemma_after_ascii(b@, p as int);
        lemma_char_start_boundary(b@, 0);
    }
    Some((slice_str(target_ref, 0, p), slice_str(target_ref, p + 1, b.len())))
}

/// The decimal value of the ASCII digits `[s, e)`.
pub open spec fn decimal_value(b: Seq<u8>, s: int, e: int) -> int
    decreases e - s,
{
    if e <= s {
        0
    } else {
        decimal_value(b, s, e - 1) * 10 + (b[e - 1] - 48)
    }
}

/// All bytes in `[s, e)` are ASCII digits.
pub open spec fn all_digits(b: Seq<u8>, s: int, e: int) -> bool {
    forall|k: int| s <= k < e ==> 48 <= #[trigger] b[k] <= 57
}

/// A sequential ID `prefix-N`: the offset of the last `-` and the number,
/// when the suffix is a non-empty run of ASCII digits without leading
/// zeros (except `0` itself) whose value fits in `usize`.
pub open spec fn sequential_id(b: Seq<u8>) -> Option<(int, int)> {
    match rfind_in(b, 0, b.len() as int, seq![45u8]) {
        None => None,
        Some(d) => {
            let s = d + 1;
            let e = b.len() as int;
            if s == e || !all_digits(b, s, e) || (e - s > 1 && b[s] == 48) || decimal_value(b, s, e)
                > usize::MAX {
                None
            } else {
                Some((d, decimal_value(b, s, e)))
            }
        },
    }
}

proof fn lemma_decimal_value_nonneg(b: Seq<u8>, s: int, e: int)
    requires
        all_digits(b, s, e),
    ensures
        decimal_value(b, s, e) >= 0,
    decreases e - s,
{
    if e > s {
        lemma_decimal_value_nonneg(b, s, e - 1);
    }
}

proof fn lemma_decimal_value_mono(b: Seq<u8>, s: int, k: int, e: int)
    requires
        s <= k <= e,
        all_digits(b, s, e),
    ensures
        decimal_value(b, s, k) <= decimal_value(b, s, e),
    decreases e - k,
{
    if k < e {
        lemma_decimal_value_mono(b, s, k, e - 1);
        lemma_decimal_value_nonneg(b, s, e - 1);
    }
}

/// Parse an ID into `(prefix, number)` by splitting at the last `-`;
/// `None` if the ID does not end with a numeric segment.
pub fn parse_sequential_id(id: &str) -> (r: Option<(String, usize)>)
    ensures
        match sequential_id(id.spec_bytes()) {
            None => r is None,
            Some((d, n)) => r matches Some((p, v)) && encode_utf8(p@) == id.spec_bytes().subrange(
                0,
                d,
            ) && v == n,
        },
{
    let b = id.as_bytes();
    let dash = [45u8];
    proof {
        assert(dash@ =~= seq![45u8]);
        assert(valid_utf8(b@));
        lemma_rfind_to_bounds(b@, 0, b@.len() - 1, seq![45u8]);
    }
    let d = match rfind_exec(b, 0, b.len(), dash.as_slice()) {
        Some(d) => d,
        None => {
            return None;
        },
    };
    let s = d + 1;
    let e = b.len();
    if s == e {
        return None;
    }
    let mut k = s;
    while k < e
        invariant
            s <= k <= e,
            e == b@.len(),
            b@ == id.spec_bytes(),
            s == d + 1,
            rfind_in(b@, 0, e as int, seq![45u8]) == Some(d as int),
            all_digits(b@, s as int, k as int),
        decreases e - k,
    {
        if !(48 <= b[k] && b[k] <= 57) {
            assert(!all_digits(b@, s as int, e as int)) by {
                assert(!(48 <= b@[k as int] <= 57));
            }
            return None;
        }
        k = k + 1;
    }
    if e - s > 1 && b[s] == 48 {
        return None;
    }
    let mut value: usize = 0;
    let mut j = s;
    while j < e
        invariant
            s <= j <= e,
            e == b@.len(),
            b@ == id.spec_bytes(),
            s == d + 1,
            rfind_in(b@, 0, e as int, seq![45u8]) == Some(d as int),
            !(e - s > 1 && b@[s as int] == 48),
            all_digits(b@, s as int, e as int),
            value == decimal_value(b@, s as int, j as int),
        decreases e - j,
    {
        let digit = (b[j] - 48) as usize;
        proof {
            lemma_decimal_value_mono(b@, s as int, j + 1, e as int);
        }
        let m = match value.checked_mul(10) {
            Some(m) => m,
            None => {
                proof {
                    lemma_decimal_value_nonneg(b@, s as int, j as int);
                    assert(decimal_value(b@, s as int, j + 1) == value * 10 + (b@[j as int] - 48));
                }
                return None;
            },
        };
        value = match m.checked_add(digit) {
            Some(v) => v,
            None => {
                proof {
                    assert(decimal_value(b@, s as int, j + 1) == m + digit);
                }
                return None;
            },
        };
        j = j + 1;
    }
    proof {
        assert(b@[d + 0] == 45u8);
        lemma_ascii_start(b@, d as int);
        lemma_char_start_boundary(b@, 0);
    }
    Some((substring(id, 0, d), value))
}

/// The ASCII bytes of the decimal numeral of `n`.
pub open spec fn decimal_bytes(n: nat) -> Seq<u8>
    decreases n,
{
    if n < 10 {
        seq![(48 + n) as u8]
    } else {
        decimal_bytes(n / 10).push((48 + n % 10) as u8)
    }
}

proof fn lemma_encode_decimal(n: nat)
    ensures
        encode_utf8(decimal(n)) == decimal_bytes(n),
    decreases n,
{
    let d = if n < 10 { n } else { n % 10 };
    let c = digit_char(d as int);
    let v: u32 = (48 + d) as u32;
    assert(v <= 0x7F ==> (v & 0x7F) as u8 == v) by (bit_vector);
    assert(encode_utf8(seq![c]) =~= seq![(48 + d) as u8]) by {
        assert(c as u32 == v);
        assert(vstd::utf8::encode_scalar(v) =~= seq![(v & 0x7F) as u8]);
        assert(seq![c].drop_first() =~= Seq::<char>::empty());
        assert(encode_utf8(seq![c]) =~= vstd::utf8::encode_scalar(c as u32) + encode_utf8(Seq::<char>::empty()));
    }
    if n >= 10 {
        lemma_encode_decimal(n / 10);
        crate::position::lemma_encode_concat(decimal(n / 10), seq![c]);
        assert(decimal(n) =~= decimal(n / 10) + seq![c]);
    }
}

proof fn lemma_decimal_bytes_shape(n: nat)
    ensures
        decimal_bytes(n).len() >= 1,
        forall|k: int| 0 <= k < decimal_bytes(n).len() ==> 48 <= #[trigger] decimal_bytes(n)[k] <= 57,
        n >= 1 ==> decimal_bytes(n)[0] != 48,
        n >= 10 ==> decimal_bytes(n).len() > 1,
    decreases n,
{
    if n >= 10 {
        lemma_decimal_bytes_shape(n / 10);
    }
}

proof fn lemma_decimal_value_ext(b1: Seq<u8>, b2: Seq<u8>, s: int, e: int)
    requires
        forall|k: int| s <= k < e ==> b1[k] == b2[k],
    ensures
        decimal_value(b1, s, e) == decimal_value(b2, s, e),
    decreases e - s,
{
    if e > s {
        lemma_decimal_value_ext(b1, b2, s, e - 1);
    }
}

proof fn lemma_decimal_value_of_bytes(p: Seq<u8>, n: nat)
    ensures
        decimal_value(p + decimal_bytes(n), p.len() as int, (p + decimal_bytes(n)).len() as int) == n,
    decreases n,
{
    let b = p + decimal_bytes(n);
    if n >= 10 {
        let b0 = p + decimal_bytes(n / 10);
        lemma_decimal_value_of_bytes(p, n / 10);
        assert(b.drop_last() =~= b0);
        lemma_decimal_value_ext(b, b0, p.len() as int, b0.len() as int);
    } else {
        assert(decimal_value(b, p.len() as int, p.len() as int) == 0);
    }
}

proof fn lemma_last_dash(b: Seq<u8>, d: int, t: int)
    requires
        0 <= d <= t < b.len(),
        b[d] == 45,
        forall|k: int| d < k < b.len() ==> 48 <= #[trigger] b[k] <= 57,
    ensures
        rfind_to(b, 0, t, seq![45u8]) == Some(d),
    decreases t - d,
{
    if t > d {
        assert(!matches_at(b, t, seq![45u8])) by {
            assert(b[t + 0] != seq![45u8][0]);
        }
        lemma_last_dash(b, d, t - 1);
    } else {
        assert(matches_at(b, t, seq![45u8]));
    }
}

/// An ID written as a prefix, `-` and the numeral of a number that fits in
/// `usize` reads back as that prefix and number: the IDs that renumbering
/// writes are sequential IDs again.
pub proof fn law_sequential_id_roundtrip(prefix: Seq<char>, n: nat)
    requires
        n <= usize::MAX,
    ensures
        sequential_id(encode_utf8(prefix + "-"@ + decimal(n))) == Some(
            (encode_utf8(prefix).len() as int, n as int),
        ),
{
    reveal_strlit("-");
    let pb = encode_utf8(prefix);
    let b = encode_utf8(prefix + "-"@ + decimal(n));
    assert(encode_utf8("-"@) =~= seq![45u8]) by {
        let v: u32 = 45;
        assert(v <= 0x7F ==> (v & 0x7F) as u8 == v) by (bit_vector);
        assert("-"@[0] as u32 == v);
        assert(vstd::utf8::encode_scalar(v) =~= seq![(v & 0x7F) as u8]);
        assert("-"@.drop_first() =~= Seq::<char>::empty());
        assert(encode_utf8("-"@) =~= vstd::utf8::encode_scalar("-"@[0] as u32) + encode_utf8(Seq::<char>::empty()));
    }
    crate::position::lemma_encode_concat(prefix + "-"@, decimal(n));
    crate::position::lemma_encode_concat(prefix, "-"@);
    lemma_encode_decimal(n);
    lemma_decimal_bytes_shape(n);
    let q = pb + seq![45u8];
    assert(b =~= q + decimal_bytes(n));
    let d = pb.len() as int;
    assert(b[d] == 45);
    assert forall|k: int| d < k < b.len() implies 48 <= #[trigger] b[k] <= 57 by {
        assert(b[k] == decimal_bytes(n)[k - d - 1]);
    }
    lemma_last_dash(b, d, b.len() - 1);
    assert(rfind_in(b, 0, b.len() as int, seq![45u8]) == Some(d));
    assert(all_digits(b, d + 1, b.len() as int)) by {
        assert forall|k: int| d + 1 <= k < b.len() implies 48 <= #[trigger] b[k] <= 57 by {
            assert(b[k] == decimal_bytes(n)[k - d - 1]);
        }
    }
    lemma_decimal_value_of_bytes(q, n);
    assert(b.len() - (d + 1) > 1 ==> b[d + 1] != 48) by {
        assert(b[d + 1] == decimal_bytes(n)[0]);
        if b.len() - (d + 1) > 1 {
            assert(decimal_bytes(n).len() > 1);
            if n < 10 {
                assert(decimal_bytes(n).len() == 1);
            }
        }
    }
}

proof fn lemma_digits_are_decimal_bytes(b: Seq<u8>, s: int, e: int)
    requires
        0 <= s < e <= b.len(),
        all_digits(b, s, e),
        e - s > 1 ==> b[s] != 48,
    ensures
        decimal_value(b, s, e) >= 0,
        decimal_bytes(decimal_value(b, s, e) as nat) == b.subrange(s, e),
    decreases e - s,
{
    lemma_decimal_value_nonneg(b, s, e);
    let v = decimal_value(b, s, e);
    if e - s == 1 {
        assert(decimal_value(b, s, s) == 0);
        assert(decimal_bytes(v as nat) =~= b.subrange(s, e));
    } else {
        lemma_digits_are_decimal_bytes(b, s, e - 1);
        lemma_decimal_value_mono(b, s, s + 1, e - 1);
        assert(decimal_value(b, s, s) == 0);
        let u = decimal_value(b, s, e - 1);
        assert(u >= 1);
        let d = b[e - 1] - 48;
        assert(v == u * 10 + d);
        assert(0 <= d < 10);
        assert(v >= 10);
        assert(v / 10 == u && v % 10 == d) by (nonlinear_arith)
            requires
                v == u * 10 + d,
                0 <= d < 10,
                u >= 1,
        ;
        assert(decimal_bytes(v as nat) =~= b.subrange(s, e - 1).push(b[e - 1]));
        assert(b.subrange(s, e - 1).push(b[e - 1]) =~= b.subrange(s, e));
    }
}

/// A sequential ID reads back as its prefix, `-` and the numeral of its
/// number: writing the parsed parts out again gives the ID.
pub proof fn law_sequential_id_written_back(b: Seq<u8>)
    requires
        sequential_id(b) is Some,
    ensures
        ({
            let (d, n) = sequential_id(b).unwrap();
            &&& n >= 0
            &&& b == b.subrange(0, d) + seq![45u8] + decimal_bytes(n as nat)
        }),
{
    lemma_rfind_to_bounds(b, 0, b.len() - 1, seq![45u8]);
    let d = rfind_in(b, 0, b.len() as int, seq![45u8]).unwrap();
    assert(b[d + 0] == seq![45u8][0]);
    lemma_digits_are_decimal_bytes(b, d + 1, b.len() as int);
    assert(b =~= b.subrange(0, d) + seq![45u8] + b.subrange(d + 1, b.len() as int));
}

} // verus!
