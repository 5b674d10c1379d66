//! Conversion of parse errors, parse warnings, graph errors and
//! verification findings into diagnostics, each paired with the path of the
//! file it belongs to.
//!
//! Positions come from the text of the file: the live buffer where the
//! editor has one, else the file as read from disk (`None` when it could
//! not be read).

use vstd::prelude::*;
use vstd::string::{StringExecFns, StringSliceAdditionalSpecFns};
use vstd::utf8::{decode_utf8, encode_utf8, valid_utf8};
use crate::diagnostics::{
    action_is, enrich_finding_context, finding_context, finding_doc_id, lsp_severity,
    severity_to_lsp, ActionContext, DiagnosticData, DiagnosticSeverity, DiagnosticSource, Finding,
    GraphDiagnosticKind, ParseDiagnosticKind,
};
use crate::position::{
    lemma_segment_start, pred_sat, segment_start, source_to_lsp, source_to_lsp_utf16,
    utf16_before, utf16_position, utf16_position_ok, zero_range, Position, Range,
    SourcePosition,
};
use crate::text::{
    char_start, lemma_next_nl_bounds, same_str, lemma_rfind_to_bounds, matches_at, next_nl, rfind_exec,
    rfind_in, rfind_to, slice_str,
};

use crate::urls::{path_to_url, path_url};

verus! {

broadcast use vstd::utf8::encode_utf8_valid_utf8, vstd::utf8::encode_utf8_decode_utf8;

/// The `source` of every diagnostic the server publishes.
pub const DIAGNOSTIC_SOURCE: &'static str = "supersigil";

/// An LSP diagnostic.
#[derive(Debug, Clone, PartialEq, Eq)]
pub struct Diagnostic {
    pub range: Range,
    pub severity: Option<DiagnosticSeverity>,
    pub source: Option<String>,
    pub message: String,
    pub data: Option<DiagnosticData>,
}

/// A fatal error from parsing one spec file.
#[derive(Debug, Clone, PartialEq, Eq)]
pub enum ParseError {
    XmlSyntaxError { path: String, line: usize, column: usize, message: String },
    MissingRequiredAttribute {
        path: String,
        position: SourcePosition,
        component: String,
        attribute: String,
    },
    UnclosedFrontMatter { path: String },
    MissingId { path: String },
    InvalidYaml { path: String, message: String },
    /// A read failure, with the text of the I/O error.
    IoError { path: String, source: String },
    OrphanCodeRef { path: String, target: String, content_offset: usize },
    DuplicateCodeRef { path: String, target: String },
    DualSourceConflict { path: String, target: String, content_offset: usize },
}

/// A non-fatal finding from parsing one spec file.
#[derive(Debug, Clone, PartialEq, Eq)]
pub enum ParseWarning {
    OrphanCodeRef { path: String, target: String, content_offset: usize },
    DuplicateCodeRef { path: String, target: String },
    DualSourceConflict { path: String, target: String, content_offset: usize },
}

// ---------------------------------------------------------------------------
// Messages
// ---------------------------------------------------------------------------

/// `a` followed by `x` and `z`.
fn concat3(a: &str, x: &str, z: &str) -> (r: String)
    ensures
        r@ == a@ + x@ + z@,
{
    let mut s = String::from_str(a);
    s.append(x);
    s.append(z);
    s
}

/// `a` followed by `x`.
fn concat2(a: &str, x: &str) -> (r: String)
    ensures
        r@ == a@ + x@,
{
    let mut s = String::from_str(a);
    s.append(x);
    s
}

/// `a`, `x`, `m`, `y`, `z` in a row.
fn concat5(a: &str, x: &str, m: &str, y: &str, z: &str) -> (r: String)
    ensures
        r@ == a@ + x@ + m@ + y@ + z@,
{
    let mut s = concat3(a, x, m);
    s.append(y);
    s.append(z);
    s
}

// ---------------------------------------------------------------------------
// Positions from byte offsets
// ---------------------------------------------------------------------------

/// Number of line feeds in `b[0..k)`.
pub open spec fn count_nl(b: Seq<u8>, k: int) -> int
    decreases k,
{
    if k <= 0 {
        0
    } else {
        count_nl(b, k - 1) + if b[k - 1] == 10 {
            1int
        } else {
            0int
        }
    }
}

/// Offset just after the last line feed before `k`, or 0.
pub open spec fn line_begin(b: Seq<u8>, k: int) -> int {
    match rfind_in(b, 0, k, seq![10u8]) {
        Some(p) => p + 1,
        None => 0,
    }
}

/// The 1-based source position of byte offset `k`.
pub open spec fn offset_position(b: Seq<u8>, k: int) -> SourcePosition {
    SourcePosition { line: (count_nl(b, k) + 1) as usize, column: (k - line_begin(b, k) + 1) as usize }
}

/// The offset a code-ref error points at, clamped to the buffer.
pub open spec fn clamp_offset(off: int, len: int) -> int {
    if off < len {
        off
    } else {
        len
    }
}

proof fn lemma_rfind_to_last(b: Seq<u8>, lo: int, top: int, n: Seq<u8>)
    ensures
        rfind_to(b, lo, top, n) matches Some(p) ==> forall|q: int|
            p < q <= top ==> !matches_at(b, q, n),
    decreases top - lo + 1,
{
    if top >= lo && !matches_at(b, top, n) {
        lemma_rfind_to_last(b, lo, top - 1, n);
    }
}

proof fn lemma_count_nl_bound(b: Seq<u8>, k: int)
    ensures
        0 <= count_nl(b, k),
        k >= 0 ==> count_nl(b, k) <= k,
    decreases k,
{
    if k > 0 {
        lemma_count_nl_bound(b, k - 1);
    }
}

/// The line of offset `k` starts where the `count_nl(b, k)`-th piece of
/// `split('\n')` starts.
proof fn lemma_segment_of_offset(b: Seq<u8>, k: int)
    requires
        0 <= k <= b.len(),
    ensures
        segment_start(b, count_nl(b, k) as nat) == Some(line_begin(b, k)),
        0 <= line_begin(b, k) <= k,
    decreases k,
{
    lemma_count_nl_bound(b, k);
    if k > 0 {
        lemma_segment_of_offset(b, k - 1);
        lemma_count_nl_bound(b, k - 1);
        let s = line_begin(b, k - 1);
        lemma_rfind_to_bounds(b, 0, k - 2, seq![10u8]);
        lemma_rfind_to_last(b, 0, k - 2, seq![10u8]);
        assert forall|q: int| s <= q < k - 1 implies b[q] != 10 by {
            assert(!matches_at(b, q, seq![10u8]));
        }
        lemma_next_nl_bounds(b, s);
        if b[k - 1] == 10 {
            assert(matches_at(b, k - 1, seq![10u8]));
            assert(next_nl(b, s) == k - 1);
        } else {
            assert(b[(k - 1) + 0] != seq![10u8][0]);
            assert(!matches_at(b, k - 1, seq![10u8]));
        }
    } else {
        assert(rfind_in(b, 0, 0, seq![10u8]) is None);
    }
}

/// The source position of byte offset `off` of `buf` (clamped to its
/// length), as line feeds before it and bytes since the last one.
fn offset_to_source_position(buf: &str, off: usize) -> (r: SourcePosition)
    requires
        char_start(buf.spec_bytes(), clamp_offset(off as int, buf.spec_bytes().len() as int)),
        buf.spec_bytes().len() < usize::MAX,
    ensures
        r == offset_position(buf.spec_bytes(), clamp_offset(off as int, buf.spec_bytes().len() as int)),
{
    let b = buf.as_bytes();
    let offset = if off < b.len() {
        off
    } else {
        b.len()
    };
    let mut count: usize = 0;
    let mut i: usize = 0;
    while i < offset
        invariant
            0 <= i <= offset <= b@.len() < usize::MAX,
            count == count_nl(b@, i as int),
            count <= i,
        decreases offset - i,
    {
        if b[i] == 10 {
            count = count + 1;
        }
        i = i + 1;
    }
    let nl = [10u8];
    proof {
        assert(nl@ =~= seq![10u8]);
        lemma_rfind_to_bounds(b@, 0, offset - 1, seq![10u8]);
    }
    let last_nl = match rfind_exec(b, 0, offset, nl.as_slice()) {
        Some(p) => p + 1,
        None => 0,
    };
    SourcePosition { line: count + 1, column: offset - last_nl + 1 }
}

// ---------------------------------------------------------------------------
// Source positions against the file text
// ---------------------------------------------------------------------------

/// The bytes of an optional text.
pub open spec fn opt_bytes(o: Option<&str>) -> Option<Seq<u8>> {
    match o {
        Some(s) => Some(s.spec_bytes()),
        None => None,
    }
}

/// The text positions are computed against: the live buffer if there is
/// one, else the file as read from disk.
pub open spec fn position_text(buffer: Option<Seq<u8>>, disk: Option<Seq<u8>>) -> Option<Seq<u8>> {
    if buffer is Some {
        buffer
    } else {
        disk
    }
}

/// A text whose offsets fit the integer types positions are counted in.
pub open spec fn text_fits(t: Option<Seq<u8>>) -> bool {
    t matches Some(b) ==> b.len() <= u32::MAX && b.len() < usize::MAX
}

/// The LSP position of `sp`: UTF-16 based against the text when there is
/// one, else the byte column taken as the character offset.
pub open spec fn text_position(sp: SourcePosition, t: Option<Seq<u8>>) -> Position {
    match t {
        Some(b) => utf16_position(sp, b),
        None => Position {
            line: pred_sat(sp.line as int) as u32,
            character: pred_sat(sp.column as int) as u32,
        },
    }
}

/// The text has the line of `sp`.
pub open spec fn text_position_ok(sp: SourcePosition, t: Option<Seq<u8>>) -> bool {
    t matches Some(b) ==> utf16_position_ok(sp, b)
}

/// Whether `content` has the line of `sp`, so that its UTF-16 position
/// can be computed.
pub fn utf16_position_in_bounds(sp: &SourcePosition, content: &str) -> (r: bool)
    ensures
        r == utf16_position_ok(*sp, content.spec_bytes()),
{
    let b = content.as_bytes();
    let line_idx: usize = if sp.line > 0 {
        sp.line - 1
    } else {
        0
    };
    let mut s: usize = 0;
    let mut k: usize = 0;
    while k < line_idx
        invariant
            0 <= k <= line_idx,
            line_idx == pred_sat(sp.line as int),
            b@ == content.spec_bytes(),
            segment_start(b@, k as nat) == Some(s as int),
            s <= b@.len(),
        decreases line_idx - k,
    {
        let mut e = s;
        while e < b.len() && b[e] != 10
            invariant
                s <= e <= b@.len(),
                next_nl(b@, s as int) == next_nl(b@, e as int),
            decreases b@.len() - e,
        {
            e = e + 1;
        }
        proof {
            lemma_next_nl_bounds(b@, e as int);
        }
        if e == b.len() {
            proof {
                lemma_segment_none_after(b@, (k + 1) as nat, line_idx as nat);
            }
            return false;
        }
        s = e + 1;
        k = k + 1;
    }
    true
}

proof fn lemma_segment_none_after(b: Seq<u8>, m: nat, n: nat)
    requires
        m <= n,
        segment_start(b, m) is None,
    ensures
        segment_start(b, n) is None,
    decreases n - m,
{
    if m < n {
        lemma_segment_none_after(b, m + 1, n);
    }
}

/// The position of `sp` against the text, if any.
fn sp_to_lsp(sp: &SourcePosition, text: Option<&str>) -> (r: Position)
    requires
        text_position_ok(*sp, opt_bytes(text)),
        text_fits(opt_bytes(text)),
    ensures
        r == text_position(*sp, opt_bytes(text)),
{
    match text {
        Some(content) => source_to_lsp_utf16(sp, content),
        None => source_to_lsp(sp),
    }
}

/// The source position of a code-ref error at byte offset `off`: computed
/// from the buffer when there is one, else the first line and column.
pub open spec fn code_ref_position(off: usize, buffer: Option<Seq<u8>>) -> SourcePosition {
    match buffer {
        Some(b) => offset_position(b, clamp_offset(off as int, b.len() as int)),
        None => SourcePosition { line: 1, column: 1 },
    }
}

/// The buffer, if any, can be sliced at the clamped offset.
pub open spec fn code_ref_offset_ok(off: usize, buffer: Option<Seq<u8>>) -> bool {
    buffer matches Some(b) ==> char_start(b, clamp_offset(off as int, b.len() as int))
}

/// The LSP position of a code-ref error.
fn code_ref_to_lsp(off: usize, buffer: Option<&str>, disk: Option<&str>) -> (r: Position)
    requires
        code_ref_offset_ok(off, opt_bytes(buffer)),
        text_fits(opt_bytes(buffer)),
        text_fits(opt_bytes(disk)),
    ensures
        r == text_position(
            code_ref_position(off, opt_bytes(buffer)),
            position_text(opt_bytes(buffer), opt_bytes(disk)),
        ),
{
    match buffer {
        Some(buf) => {
            let sp = offset_to_source_position(buf, off);
            proof {
                let b = buf.spec_bytes();
                lemma_segment_of_offset(b, clamp_offset(off as int, b.len() as int));
                lemma_count_nl_bound(b, clamp_offset(off as int, b.len() as int));
            }
            source_to_lsp_utf16(&sp, buf)
        },
        None => {
            let sp = SourcePosition { line: 1, column: 1 };
            sp_to_lsp(&sp, disk)
        },
    }
}

// ---------------------------------------------------------------------------
// Parse errors and warnings
// ---------------------------------------------------------------------------

/// `d` is a diagnostic from the server at `pos` with the given severity,
/// message and metadata.
pub open spec fn diagnostic_is(
    d: Diagnostic,
    pos: Position,
    severity: DiagnosticSeverity,
    message: Seq<char>,
    data: DiagnosticData,
) -> bool {
    &&& d.range == Range { start: pos, end: pos }
    &&& d.severity == Some(severity)
    &&& d.source matches Some(s) && s@ == DIAGNOSTIC_SOURCE@
    &&& d.message@ == message
    &&& d.data == Some(data)
}

/// The path, position, message, kind and action context of a parse error.
pub open spec fn parse_error_parts(
    err: ParseError,
    buffer: Option<Seq<u8>>,
    disk: Option<Seq<u8>>,
) -> (String, Position, Seq<char>, ParseDiagnosticKind, ActionContext) {
    let text = position_text(buffer, disk);
    let origin = Position { line: 0, character: 0 };
    match err {
        ParseError::XmlSyntaxError { path, line, column, message } => (
            path,
            text_position(SourcePosition { line, column }, text),
            message@,
            ParseDiagnosticKind::XmlSyntaxError,
            ActionContext::NoContext,
        ),
        ParseError::MissingRequiredAttribute { path, position, component, attribute } => (
            path,
            text_position(position, text),
            "missing required attribute `"@ + attribute@ + "` on `<"@ + component@ + ">`"@,
            ParseDiagnosticKind::MissingRequiredAttribute,
            ActionContext::MissingAttribute { component, attribute },
        ),
        ParseError::UnclosedFrontMatter { path } => (
            path,
            origin,
            "unclosed front matter (missing closing `---`)"@,
            ParseDiagnosticKind::UnclosedFrontmatter,
            ActionContext::NoContext,
        ),
        ParseError::MissingId { path } => (
            path,
            origin,
            "missing required `id` field in supersigil front matter"@,
            ParseDiagnosticKind::Other,
            ActionContext::NoContext,
        ),
        ParseError::InvalidYaml { path, message } => (
            path,
            origin,
            "invalid YAML: "@ + message@,
            ParseDiagnosticKind::Other,
            ActionContext::NoContext,
        ),
        ParseError::IoError { path, source } => (
            path,
            origin,
            "I/O error: "@ + source@,
            ParseDiagnosticKind::Other,
            ActionContext::NoContext,
        ),
        ParseError::OrphanCodeRef { path, target, content_offset } => (
            path,
            text_position(code_ref_position(content_offset, buffer), text),
            "orphan supersigil-ref `"@ + target@ + "` (no matching component)"@,
            ParseDiagnosticKind::Other,
            ActionContext::NoContext,
        ),
        ParseError::DuplicateCodeRef { path, target } => (
            path,
            origin,
            "duplicate supersigil-ref fences targeting `"@ + target@ + "`"@,
            ParseDiagnosticKind::DuplicateCodeRef,
            ActionContext::NoContext,
        ),
        ParseError::DualSourceConflict { path, target, content_offset } => (
            path,
            text_position(code_ref_position(content_offset, buffer), text),
            "dual-source conflict for `"@ + target@
                + "` (both inline text and supersigil-ref fence)"@,
            ParseDiagnosticKind::Other,
            ActionContext::NoContext,
        ),
    }
}

/// The positions of a parse error can be computed without slicing out of
/// bounds.
pub open spec fn parse_error_positions_ok(
    err: ParseError,
    buffer: Option<Seq<u8>>,
    disk: Option<Seq<u8>>,
) -> bool {
    let text = position_text(buffer, disk);
    &&& text_fits(buffer)
    &&& text_fits(disk)
    &&& match err {
        ParseError::XmlSyntaxError { line, column, .. } => text_position_ok(
            SourcePosition { line, column },
            text,
        ),
        ParseError::MissingRequiredAttribute { position, .. } => text_position_ok(position, text),
        ParseError::OrphanCodeRef { content_offset, .. } => code_ref_offset_ok(
            content_offset,
            buffer,
        ),
        ParseError::DualSourceConflict { content_offset, .. } => code_ref_offset_ok(
            content_offset,
            buffer,
        ),
        _ => true,
    }
}

/// Convert a parse error to a `(URL, diagnostic)` pair with severity
/// Error.  Positions are computed against `buffer` when the editor has the
/// file open, else against `disk`, the file's text as read from disk
/// (`None` when it could not be read; positions then fall back to byte
/// columns).
pub fn parse_error_to_diagnostic(err: &ParseError, buffer: Option<&str>, disk: Option<&str>) -> (r: (
    String,
    Diagnostic,
))
    requires
        parse_error_positions_ok(*err, opt_bytes(buffer), opt_bytes(disk)),
    ensures
        ({
            let (path, pos, message, kind, context) = parse_error_parts(
                *err,
                opt_bytes(buffer),
                opt_bytes(disk),
            );
            &&& r.0@ == path_url(path@)
            &&& diagnostic_is(
                r.1,
                pos,
                DiagnosticSeverity::Error,
                message,
                DiagnosticData {
                    source: DiagnosticSource::Parse(kind),
                    doc_id: None,
                    context,
                },
            )
        }),
{
    let text = match buffer {
        Some(b) => Some(b),
        None => disk,
    };
    let origin = Position { line: 0, character: 0 };
    let (path, pos, message, kind, context) = match err {
        ParseError::XmlSyntaxError { path, line, column, message } => {
            let sp = SourcePosition { line: *line, column: *column };
            (
                path.clone(),
                sp_to_lsp(&sp, text),
                message.clone(),
                ParseDiagnosticKind::XmlSyntaxError,
                ActionContext::NoContext,
            )
        },
        ParseError::MissingRequiredAttribute { path, position, component, attribute } => (
            path.clone(),
            sp_to_lsp(position, text),
            concat5(
                "missing required attribute `",
                attribute.as_str(),
                "` on `<",
                component.as_str(),
                ">`",
            ),
            ParseDiagnosticKind::MissingRequiredAttribute,
            ActionContext::MissingAttribute {
                component: component.clone(),
                attribute: attribute.clone(),
            },
        ),
        ParseError::UnclosedFrontMatter { path } => (
            path.clone(),
            origin,
            String::from_str("unclosed front matter (missing closing `---`)"),
            ParseDiagnosticKind::UnclosedFrontmatter,
            ActionContext::NoContext,
        ),
        ParseError::MissingId { path } => (
            path.clone(),
            origin,
            String::from_str("missing required `id` field in supersigil front matter"),
            ParseDiagnosticKind::Other,
            ActionContext::NoContext,
        ),
        ParseError::InvalidYaml { path, message } => (
            path.clone(),
            origin,
            concat2("invalid YAML: ", message.as_str()),
            ParseDiagnosticKind::Other,
            ActionContext::NoContext,
        ),
        ParseError::IoError { path, source } => (
            path.clone(),
            origin,
            concat2("I/O error: ", source.as_str()),
            ParseDiagnosticKind::Other,
            ActionContext::NoContext,
        ),
        ParseError::OrphanCodeRef { path, target, content_offset } => (
            path.clone(),
            code_ref_to_lsp(*content_offset, buffer, disk),
            concat3("orphan supersigil-ref `", target.as_str(), "` (no matching component)"),
            ParseDiagnosticKind::Other,
            ActionContext::NoContext,
        ),
        ParseError::DuplicateCodeRef { path, target } => (
            path.clone(),
            origin,
            concat3("duplicate supersigil-ref fences targeting `", target.as_str(), "`"),
            ParseDiagnosticKind::DuplicateCodeRef,
            ActionContext::NoContext,
        ),
        ParseError::DualSourceConflict { path, target, content_offset } => (
            path.clone(),
            code_ref_to_lsp(*content_offset, buffer, disk),
            concat3(
                "dual-source conflict for `",
                target.as_str(),
                "` (both inline text and supersigil-ref fence)",
            ),
            ParseDiagnosticKind::Other,
            ActionContext::NoContext,
        ),
    };
    let data = DiagnosticData { source: DiagnosticSource::Parse(kind), doc_id: None, context };
    let diagnostic = Diagnostic {
        range: zero_range(pos),
        severity: Some(DiagnosticSeverity::Error),
        source: Some(String::from_str(DIAGNOSTIC_SOURCE)),
        message,
        data: Some(data),
    };
    (path_to_url(path.as_str()), diagnostic)
}

/// The path, position, message and kind of a parse warning.
pub open spec fn parse_warning_parts(
    warn: ParseWarning,
    buffer: Option<Seq<u8>>,
    disk: Option<Seq<u8>>,
) -> (String, Position, Seq<char>, ParseDiagnosticKind) {
    let text = position_text(buffer, disk);
    match warn {
        ParseWarning::OrphanCodeRef { path, target, content_offset } => (
            path,
            text_position(code_ref_position(content_offset, buffer), text),
            "orphan supersigil-ref `"@ + target@ + "` (no matching component)"@,
            ParseDiagnosticKind::Other,
        ),
        ParseWarning::DuplicateCodeRef { path, target } => (
            path,
            Position { line: 0, character: 0 },
            "duplicate supersigil-ref fences targeting `"@ + target@ + "`"@,
            ParseDiagnosticKind::DuplicateCodeRef,
        ),
        ParseWarning::DualSourceConflict { path, target, content_offset } => (
            path,
            text_position(code_ref_position(content_offset, buffer), text),
            "dual-source conflict for `"@ + target@
                + "` (both inline text and supersigil-ref fence)"@,
            ParseDiagnosticKind::Other,
        ),
    }
}

/// The positions of a parse warning can be computed without slicing out
/// of bounds.
pub open spec fn parse_warning_positions_ok(
    warn: ParseWarning,
    buffer: Option<Seq<u8>>,
    disk: Option<Seq<u8>>,
) -> bool {
    &&& text_fits(buffer)
    &&& text_fits(disk)
    &&& match warn {
        ParseWarning::OrphanCodeRef { content_offset, .. } => code_ref_offset_ok(
            content_offset,
            buffer,
        ),
        ParseWarning::DualSourceConflict { content_offset, .. } => code_ref_offset_ok(
            content_offset,
            buffer,
        ),
        ParseWarning::DuplicateCodeRef { .. } => true,
    }
}

/// Convert a parse warning to a `(URL, diagnostic)` pair with severity
/// Warning; positions as for [`parse_error_to_diagnostic`].
pub fn parse_warning_to_diagnostic(warn: &ParseWarning, buffer: Option<&str>, disk: Option<&str>) -> (r: (
    String,
    Diagnostic,
))
    requires
        parse_warning_positions_ok(*warn, opt_bytes(buffer), opt_bytes(disk)),
    ensures
        ({
            let (path, pos, message, kind) = parse_warning_parts(
                *warn,
                opt_bytes(buffer),
                opt_bytes(disk),
            );
            &&& r.0@ == path_url(path@)
            &&& diagnostic_is(
                r.1,
                pos,
                DiagnosticSeverity::Warning,
                message,
                DiagnosticData {
                    source: DiagnosticSource::Parse(kind),
                    doc_id: None,
                    context: ActionContext::NoContext,
                },
            )
        }),
{
    let (path, pos, message, kind) = match warn {
        ParseWarning::OrphanCodeRef { path, target, content_offset } => (
            path.clone(),
            code_ref_to_lsp(*content_offset, buffer, disk),
            concat3("orphan supersigil-ref `", target.as_str(), "` (no matching component)"),
            ParseDiagnosticKind::Other,
        ),
        ParseWarning::DuplicateCodeRef { path, target } => (
            path.clone(),
            Position { line: 0, character: 0 },
            concat3("duplicate supersigil-ref fences targeting `", target.as_str(), "`"),
            ParseDiagnosticKind::DuplicateCodeRef,
        ),
        ParseWarning::DualSourceConflict { path, target, content_offset } => (
            path.clone(),
            code_ref_to_lsp(*content_offset, buffer, disk),
            concat3(
                "dual-source conflict for `",
                target.as_str(),
                "` (both inline text and supersigil-ref fence)",
            ),
            ParseDiagnosticKind::Other,
        ),
    };
    let data = DiagnosticData {
        source: DiagnosticSource::Parse(kind),
        doc_id: None,
        context: ActionContext::NoContext,
    };
    let diagnostic = Diagnostic {
        range: zero_range(pos),
        severity: Some(DiagnosticSeverity::Warning),
        source: Some(String::from_str(DIAGNOSTIC_SOURCE)),
        message,
        data: Some(data),
    };
    (path_to_url(path.as_str()), diagnostic)
}

// ---------------------------------------------------------------------------
// Graph errors
// ---------------------------------------------------------------------------

/// An error from building the document graph.
#[derive(Debug, Clone, PartialEq, Eq)]
pub enum GraphError {
    DuplicateId { id: String, paths: Vec<String> },
    DuplicateComponentId { doc_id: String, component_id: String, positions: Vec<SourcePosition> },
    BrokenRef { doc_id: String, ref_str: String, reason: String, position: SourcePosition },
    TaskDependencyCycle { doc_id: String, cycle: Vec<String> },
    DocumentDependencyCycle { cycle: Vec<String> },
    /// An invalid component definition, with the text of its error.
    InvalidComponentDef { message: String },
}

/// The file that holds a document.
#[derive(Debug, Clone, PartialEq, Eq)]
pub struct DocPath {
    pub doc_id: String,
    pub path: String,
}

/// The text of a file as read from disk.
#[derive(Debug, Clone, PartialEq, Eq)]
pub struct FileText {
    pub path: String,
    pub text: String,
}

/// What diagnostics need from the project: the file of each document, and
/// the text of the files that could be read.
#[derive(Debug, Clone, PartialEq, Eq)]
pub struct SourceFiles {
    pub doc_paths: Vec<DocPath>,
    pub texts: Vec<FileText>,
}

/// Index of the first entry at or after `k` for document `id`.
pub open spec fn doc_entry_from(docs: Seq<DocPath>, id: Seq<char>, k: int) -> Option<int>
    decreases docs.len() - k,
{
    if k < 0 || k >= docs.len() {
        None
    } else if docs[k].doc_id@ == id {
        Some(k)
    } else {
        doc_entry_from(docs, id, k + 1)
    }
}

/// The entry for document `id`.
pub open spec fn doc_entry(sf: SourceFiles, id: Seq<char>) -> Option<int> {
    doc_entry_from(sf.doc_paths@, id, 0)
}

/// Index of the first text at or after `k` of the file at `path`.
pub open spec fn text_entry_from(texts: Seq<FileText>, path: Seq<char>, k: int) -> Option<int>
    decreases texts.len() - k,
{
    if k < 0 || k >= texts.len() {
        None
    } else if texts[k].path@ == path {
        Some(k)
    } else {
        text_entry_from(texts, path, k + 1)
    }
}

/// The bytes of the file at `path`, when it could be read.
pub open spec fn file_text(sf: SourceFiles, path: Seq<char>) -> Option<Seq<u8>> {
    match text_entry_from(sf.texts@, path, 0) {
        Some(k) => Some(encode_utf8(sf.texts@[k].text@)),
        None => None,
    }
}

/// The file of document `id`.
fn lookup_doc(sf: &SourceFiles, id: &str) -> (r: Option<usize>)
    ensures
        r matches Some(k) ==> doc_entry(*sf, id@) == Some(k as int) && k < sf.doc_paths@.len(),
        r is None ==> doc_entry(*sf, id@) is None,
{
    let mut k: usize = 0;
    while k < sf.doc_paths.len()
        invariant
            0 <= k <= sf.doc_paths@.len(),
            doc_entry(*sf, id@) == doc_entry_from(sf.doc_paths@, id@, k as int),
        decreases sf.doc_paths@.len() - k,
    {
        if same_str(sf.doc_paths[k].doc_id.as_str(), id) {
            return Some(k);
        }
        k = k + 1;
    }
    None
}

/// The text of the file at `path`, when it could be read.
fn lookup_text<'a>(sf: &'a SourceFiles, path: &str) -> (r: Option<&'a str>)
    ensures
        opt_bytes(r) == file_text(*sf, path@),
{
    let mut k: usize = 0;
    while k < sf.texts.len()
        invariant
            0 <= k <= sf.texts@.len(),
            text_entry_from(sf.texts@, path@, 0) == text_entry_from(sf.texts@, path@, k as int),
        decreases sf.texts@.len() - k,
    {
        if same_str(sf.texts[k].path.as_str(), path) {
            return Some(sf.texts[k].text.as_str());
        }
        k = k + 1;
    }
    None
}

/// `items` joined with ` → ` between them.
pub open spec fn arrow_joined(items: Seq<String>) -> Seq<char>
    decreases items.len(),
{
    if items.len() == 0 {
        Seq::empty()
    } else if items.len() == 1 {
        items[0]@
    } else {
        arrow_joined(items.drop_last()) + " → "@ + items.last()@
    }
}

/// `prefix` followed by `items` joined with ` → `.
fn with_arrow_joined(prefix: &str, items: &Vec<String>) -> (r: String)
    ensures
        r@ == prefix@ + arrow_joined(items@),
{
    let mut s = String::from_str(prefix);
    let mut k: usize = 0;
    while k < items.len()
        invariant
            0 <= k <= items@.len(),
            s@ == prefix@ + arrow_joined(items@.take(k as int)),
        decreases items@.len() - k,
    {
        proof {
            assert(items@.take(k + 1).drop_last() =~= items@.take(k as int));
        }
        if k > 0 {
            s.append(" → ");
        } else {
            proof {
                assert(items@.take(0) =~= Seq::<String>::empty());
            }
        }
        s.append(items[k].as_str());
        k = k + 1;
    }
    proof {
        assert(items@.take(items@.len() as int) =~= items@);
    }
    s
}

/// The other path a duplicate document ID is also in, seen from path `i`:
/// the first path that is not `i`, or empty.
pub open spec fn other_path(paths: Seq<String>, i: int) -> Seq<char> {
    if i != 0 {
        paths[0]@
    } else if paths.len() > 1 {
        paths[1]@
    } else {
        Seq::empty()
    }
}

/// The message for a duplicate document ID seen from a path.
pub open spec fn duplicate_id_message(id: Seq<char>, other: Seq<char>) -> Seq<char> {
    if other.len() == 0 {
        "duplicate document ID `"@ + id + "`"@
    } else {
        "duplicate document ID `"@ + id + "` (also in "@ + other + ")"@
    }
}

/// `d` is the diagnostic for path `i` of a duplicate document ID.
pub open spec fn duplicate_id_diagnostic(d: (String, Diagnostic), id: String, paths: Seq<String>, i: int) -> bool {
    &&& d.0@ == path_url(paths[i]@)
    &&& d.1.range == Range { start: Position { line: 0, character: 0 }, end: Position { line: 0, character: 0 } }
    &&& d.1.severity == Some(DiagnosticSeverity::Error)
    &&& d.1.source matches Some(s) && s@ == DIAGNOSTIC_SOURCE@
    &&& d.1.message@ == duplicate_id_message(id@, other_path(paths, i))
    &&& d.1.data is Some
    &&& d.1.data.unwrap().source == DiagnosticSource::Graph(GraphDiagnosticKind::DuplicateDocumentId)
    &&& d.1.data.unwrap().doc_id == Some(id)
    &&& match d.1.data.unwrap().context {
        ActionContext::DuplicateId { id: x, other_path: o } => x == id && o@ == other_path(paths, i),
        _ => false,
    }
}

/// The diagnostics of a graph error that carries its paths: one per path
/// of a duplicate document ID, none for the others.
pub open spec fn graph_error_diagnostics(r: Seq<(String, Diagnostic)>, err: GraphError) -> bool {
    match err {
        GraphError::DuplicateId { id, paths } => r.len() == paths@.len() && forall|i: int|
            0 <= i < r.len() ==> duplicate_id_diagnostic(#[trigger] r[i], id, paths@, i),
        _ => r.len() == 0,
    }
}

/// Convert a graph error to `(URL, diagnostic)` pairs, without a document
/// lookup: only a duplicate document ID carries its paths.
pub fn graph_error_to_diagnostic(err: &GraphError) -> (r: Vec<(String, Diagnostic)>)
    ensures
        graph_error_diagnostics(r@, *err),
{
    let mut out: Vec<(String, Diagnostic)> = Vec::new();
    match err {
        GraphError::DuplicateId { id, paths } => {
            let mut i: usize = 0;
            while i < paths.len()
                invariant
                    0 <= i <= paths@.len(),
                    out@.len() == i,
                    forall|j: int| 0 <= j < i ==> duplicate_id_diagnostic(#[trigger] out@[j], *id, paths@, j),
                decreases paths@.len() - i,
            {
                let other = if i != 0 {
                    paths[0].clone()
                } else if paths.len() > 1 {
                    paths[1].clone()
                } else {
                    String::new()
                };
                let message = if other.as_str().is_empty() {
                    concat3("duplicate document ID `", id.as_str(), "`")
                } else {
                    let mut m = concat3("duplicate document ID `", id.as_str(), "` (also in ");
                    m.append(other.as_str());
                    m.append(")");
                    m
                };
                let data = DiagnosticData {
                    source: DiagnosticSource::Graph(GraphDiagnosticKind::DuplicateDocumentId),
                    doc_id: Some(id.clone()),
                    context: ActionContext::DuplicateId { id: id.clone(), other_path: other },
                };
                let diagnostic = Diagnostic {
                    range: zero_range(Position { line: 0, character: 0 }),
                    severity: Some(DiagnosticSeverity::Error),
                    source: Some(String::from_str(DIAGNOSTIC_SOURCE)),
                    message,
                    data: Some(data),
                };
                out.push((path_to_url(paths[i].as_str()), diagnostic));
                i = i + 1;
            }
        },
        _ => {},
    }
    out
}

/// The text of the file of document entry `k`.
pub open spec fn doc_text(sf: SourceFiles, k: int) -> Option<Seq<u8>> {
    file_text(sf, sf.doc_paths@[k].path@)
}

/// The positions in the cycle whose documents have a file, in order.
pub open spec fn cycle_hits(sf: SourceFiles, cycle: Seq<String>) -> Seq<int>
    decreases cycle.len(),
{
    if cycle.len() == 0 {
        Seq::empty()
    } else if doc_entry(sf, cycle.last()@) is Some {
        cycle_hits(sf, cycle.drop_last()).push(cycle.len() - 1)
    } else {
        cycle_hits(sf, cycle.drop_last())
    }
}

/// `d` is the diagnostic for one position of a duplicate component ID.
pub open spec fn duplicate_component_diagnostic(
    d: Diagnostic,
    pos: Position,
    doc_id: String,
    component_id: String,
) -> bool {
    &&& d.range == Range { start: pos, end: pos }
    &&& d.severity == Some(DiagnosticSeverity::Error)
    &&& d.source matches Some(s) && s@ == DIAGNOSTIC_SOURCE@
    &&& d.message@ == "duplicate component ID `"@ + component_id@ + "`"@
    &&& d.data is Some
    &&& d.data.unwrap().source == DiagnosticSource::Graph(GraphDiagnosticKind::DuplicateComponentId)
    &&& d.data.unwrap().doc_id == Some(doc_id)
    &&& match d.data.unwrap().context {
        ActionContext::DuplicateId { id: x, other_path: o } => x == component_id && o@.len() == 0,
        _ => false,
    }
}

/// `d` is the diagnostic of a document dependency cycle for the document
/// at position `c` of the cycle.
pub open spec fn cycle_diagnostic_at(
    d: (String, Diagnostic),
    sf: SourceFiles,
    cycle: Seq<String>,
    c: int,
    message: Seq<char>,
) -> bool {
    &&& 0 <= c < cycle.len()
    &&& doc_entry(sf, cycle[c]@) is Some
    &&& d.0@ == path_url(sf.doc_paths@[doc_entry(sf, cycle[c]@).unwrap()].path@)
    &&& diagnostic_is(
        d.1,
        Position { line: 0, character: 0 },
        DiagnosticSeverity::Error,
        message,
        DiagnosticData {
            source: DiagnosticSource::Graph(GraphDiagnosticKind::DependencyCycle),
            doc_id: Some(cycle[c]),
            context: ActionContext::NoContext,
        },
    )
}

/// One diagnostic per document of the cycle positions `hits`, in order.
pub open spec fn cycle_diagnostics(
    r: Seq<(String, Diagnostic)>,
    sf: SourceFiles,
    cycle: Seq<String>,
    hits: Seq<int>,
    message: Seq<char>,
) -> bool {
    &&& r.len() == hits.len()
    &&& forall|t: int| 0 <= t < r.len() ==> cycle_diagnostic_at(#[trigger] r[t], sf, cycle, hits[t], message)
}

/// The diagnostics of a graph error, given the files of the documents.
pub open spec fn graph_lookup_diagnostics(
    r: Seq<(String, Diagnostic)>,
    err: GraphError,
    sf: SourceFiles,
) -> bool {
    let origin = Position { line: 0, character: 0 };
    match err {
        GraphError::BrokenRef { doc_id, ref_str, reason, position } => match doc_entry(
            sf,
            doc_id@,
        ) {
            None => r.len() == 0,
            Some(k) => r.len() == 1 && r[0].0@ == path_url(sf.doc_paths@[k].path@) && diagnostic_is(
                r[0].1,
                text_position(position, doc_text(sf, k)),
                DiagnosticSeverity::Error,
                "broken ref `"@ + ref_str@ + "`: "@ + reason@,
                DiagnosticData {
                    source: DiagnosticSource::Graph(GraphDiagnosticKind::BrokenRef),
                    doc_id: Some(doc_id),
                    context: ActionContext::BrokenRef { target_ref: ref_str },
                },
            ),
        },
        GraphError::DuplicateComponentId { doc_id, component_id, positions } => match doc_entry(
            sf,
            doc_id@,
        ) {
            None => r.len() == 0,
            Some(k) => r.len() == positions@.len() && forall|i: int|
                0 <= i < r.len() ==> (#[trigger] r[i]).0@ == path_url(sf.doc_paths@[k].path@)
                    && duplicate_component_diagnostic(
                    r[i].1,
                    text_position(positions@[i], doc_text(sf, k)),
                    doc_id,
                    component_id,
                ),
        },
        GraphError::TaskDependencyCycle { doc_id, cycle } => match doc_entry(sf, doc_id@) {
            None => r.len() == 0,
            Some(k) => r.len() == 1 && r[0].0@ == path_url(sf.doc_paths@[k].path@) && diagnostic_is(
                r[0].1,
                origin,
                DiagnosticSeverity::Error,
                "dependency cycle in tasks: "@ + arrow_joined(cycle@),
                DiagnosticData {
                    source: DiagnosticSource::Graph(GraphDiagnosticKind::DependencyCycle),
                    doc_id: Some(doc_id),
                    context: ActionContext::NoContext,
                },
            ),
        },
        GraphError::DocumentDependencyCycle { cycle } => cycle_diagnostics(
            r,
            sf,
            cycle@,
            cycle_hits(sf, cycle@),
            "document dependency cycle: "@ + arrow_joined(cycle@),
        ),
        _ => graph_error_diagnostics(r, err),
    }
}

/// The positions of a graph error can be computed against its document's
/// text.
pub open spec fn graph_error_positions_ok(err: GraphError, sf: SourceFiles) -> bool {
    match err {
        GraphError::BrokenRef { doc_id, position, .. } => match doc_entry(sf, doc_id@) {
            Some(k) => text_fits(doc_text(sf, k)) && text_position_ok(position, doc_text(sf, k)),
            None => true,
        },
        GraphError::DuplicateComponentId { doc_id, positions, .. } => match doc_entry(sf, doc_id@) {
            Some(k) => text_fits(doc_text(sf, k)) && forall|i: int|
                0 <= i < positions@.len() ==> text_position_ok(
                    #[trigger] positions@[i],
                    doc_text(sf, k),
                ),
            None => true,
        },
        _ => true,
    }
}

/// The text of the file of document entry `k`.
fn doc_text_exec<'a>(sf: &'a SourceFiles, k: usize) -> (r: Option<&'a str>)
    requires
        k < sf.doc_paths@.len(),
    ensures
        opt_bytes(r) == doc_text(*sf, k as int),
{
    lookup_text(sf, sf.doc_paths[k].path.as_str())
}

/// A graph diagnostic with severity Error.
fn graph_diagnostic(
    pos: Position,
    message: String,
    kind: GraphDiagnosticKind,
    doc_id: String,
    context: ActionContext,
) -> (r: Diagnostic)
    ensures
        diagnostic_is(
            r,
            pos,
            DiagnosticSeverity::Error,
            message@,
            DiagnosticData {
                source: DiagnosticSource::Graph(kind),
                doc_id: Some(doc_id),
                context,
            },
        ),
{
    Diagnostic {
        range: zero_range(pos),
        severity: Some(DiagnosticSeverity::Error),
        source: Some(String::from_str(DIAGNOSTIC_SOURCE)),
        message,
        data: Some(
            DiagnosticData { source: DiagnosticSource::Graph(kind), doc_id: Some(doc_id), context },
        ),
    }
}

/// Convert a graph error to `(URL, diagnostic)` pairs, resolving the file
/// of each document the error names through `sf`; errors whose document
/// has no file give no diagnostic.
pub fn graph_error_to_diagnostic_with_lookup(err: &GraphError, sf: &SourceFiles) -> (r: Vec<
    (String, Diagnostic),
>)
    requires
        graph_error_positions_ok(*err, *sf),
    ensures
        graph_lookup_diagnostics(r@, *err, *sf),
{
    let origin = Position { line: 0, character: 0 };
    match err {
        GraphError::BrokenRef { doc_id, ref_str, reason, position } => {
            let k = match lookup_doc(sf, doc_id.as_str()) {
                Some(k) => k,
                None => {
                    return Vec::new();
                },
            };
            let pos = sp_to_lsp(position, doc_text_exec(sf, k));
            let mut message = concat3("broken ref `", ref_str.as_str(), "`: ");
            message.append(reason.as_str());
            let d = graph_diagnostic(
                pos,
                message,
                GraphDiagnosticKind::BrokenRef,
                doc_id.clone(),
                ActionContext::BrokenRef { target_ref: ref_str.clone() },
            );
            let mut out: Vec<(String, Diagnostic)> = Vec::new();
            out.push((path_to_url(sf.doc_paths[k].path.as_str()), d));
            out
        },
        GraphError::DuplicateComponentId { doc_id, component_id, positions } => {
            let k = match lookup_doc(sf, doc_id.as_str()) {
                Some(k) => k,
                None => {
                    return Vec::new();
                },
            };
            let text = doc_text_exec(sf, k);
            let mut out: Vec<(String, Diagnostic)> = Vec::new();
            let mut i: usize = 0;
            while i < positions.len()
                invariant
                    0 <= i <= positions@.len(),
                    out@.len() == i,
                    k < sf.doc_paths@.len(),
                    opt_bytes(text) == doc_text(*sf, k as int),
                    text_fits(doc_text(*sf, k as int)),
                    forall|j: int| 0 <= j < positions@.len() ==> text_position_ok(
                        #[trigger] positions@[j],
                        doc_text(*sf, k as int),
                    ),
                    forall|j: int|
                        0 <= j < i ==> (#[trigger] out@[j]).0@ == path_url(sf.doc_paths@[k as int].path@)
                            && duplicate_component_diagnostic(
                            out@[j].1,
                            text_position(positions@[j], doc_text(*sf, k as int)),
                            *doc_id,
                            *component_id,
                        ),
                decreases positions@.len() - i,
            {
                let pos = sp_to_lsp(&positions[i], text);
                let message = concat3("duplicate component ID `", component_id.as_str(), "`");
                let d = graph_diagnostic(
                    pos,
                    message,
                    GraphDiagnosticKind::DuplicateComponentId,
                    doc_id.clone(),
                    ActionContext::DuplicateId { id: component_id.clone(), other_path: String::new() },
                );
                out.push((path_to_url(sf.doc_paths[k].path.as_str()), d));
                i = i + 1;
            }
            out
        },
        GraphError::TaskDependencyCycle { doc_id, cycle } => {
            let k = match lookup_doc(sf, doc_id.as_str()) {
                Some(k) => k,
                None => {
                    return Vec::new();
                },
            };
            let message = with_arrow_joined("dependency cycle in tasks: ", cycle);
            let d = graph_diagnostic(
                origin,
                message,
                GraphDiagnosticKind::DependencyCycle,
                doc_id.clone(),
                ActionContext::NoContext,
            );
            let mut out: Vec<(String, Diagnostic)> = Vec::new();
            out.push((path_to_url(sf.doc_paths[k].path.as_str()), d));
            out
        },
        GraphError::DocumentDependencyCycle { cycle } => {
            let message = with_arrow_joined("document dependency cycle: ", cycle);
            let mut out: Vec<(String, Diagnostic)> = Vec::new();
            let mut j: usize = 0;
            while j < cycle.len()
                invariant
                    0 <= j <= cycle@.len(),
                    message@ == "document dependency cycle: "@ + arrow_joined(cycle@),
                    origin == (Position { line: 0, character: 0 }),
                    cycle_diagnostics(out@, *sf, cycle@, cycle_hits(*sf, cycle@.take(j as int)), message@),
                decreases cycle@.len() - j,
            {
                proof {
                    assert(cycle@.take(j + 1).drop_last() =~= cycle@.take(j as int));
                    assert(cycle@.take(j + 1).last() == cycle@[j as int]);
                }
                let ghost old_out = out@;
                let ghost old_hits = cycle_hits(*sf, cycle@.take(j as int));
                match lookup_doc(sf, cycle[j].as_str()) {
                    Some(k) => {
                        let d = graph_diagnostic(
                            origin,
                            message.clone(),
                            GraphDiagnosticKind::DependencyCycle,
                            cycle[j].clone(),
                            ActionContext::NoContext,
                        );
                        out.push((path_to_url(sf.doc_paths[k].path.as_str()), d));
                        proof {
                            let hits = cycle_hits(*sf, cycle@.take(j + 1));
                            assert(hits == old_hits.push(j as int));
                            assert forall|t: int| 0 <= t < out@.len() implies cycle_diagnostic_at(
                                #[trigger] out@[t],
                                *sf,
                                cycle@,
                                hits[t],
                                message@,
                            ) by {
                                if t < old_out.len() {
                                    assert(out@[t] == old_out[t]);
                                    assert(hits[t] == old_hits[t]);
                                } else {
                                    assert(hits[t] == j);
                                    assert(doc_entry(*sf, cycle@[j as int]@) == Some(k as int));
                                }
                            }
                        }
                    },
                    None => {
                        proof {
                            assert(cycle_hits(*sf, cycle@.take(j + 1)) == old_hits);
                        }
                    },
                }
                j = j + 1;
            }
            proof {
                assert(cycle@.take(cycle@.len() as int) =~= cycle@);
            }
            out
        },
        _ => graph_error_to_diagnostic(err),
    }
}

// ---------------------------------------------------------------------------
// Findings
// ---------------------------------------------------------------------------

/// The LSP severity of a finding: its configured severity, lowered to
/// Hint when running examples could cover it; `None` when it is off.
pub open spec fn finding_severity(f: Finding) -> Option<DiagnosticSeverity> {
    match lsp_severity(f.effective_severity) {
        None => None,
        Some(s) => Some(
            if f.details matches Some(d) && d.example_coverable {
                DiagnosticSeverity::Hint
            } else {
                s
            },
        ),
    }
}

/// The source position a finding points at in its details' file: the
/// details' line and column (column 0 when absent) if it has a line, else
/// the finding's own position.
pub open spec fn details_position(f: Finding, line: Option<usize>, column: Option<usize>) -> Option<
    SourcePosition,
> {
    match line {
        Some(l) => Some(
            SourcePosition {
                line: l,
                column: match column {
                    Some(c) => c,
                    None => 0,
                },
            },
        ),
        None => f.position,
    }
}

/// The path of the file a finding is reported in, and the source position
/// there, if any: the details' path when it has one, else the file of its
/// document (`None` when that has no file).
pub open spec fn finding_target(f: Finding, sf: SourceFiles) -> Option<(String, Option<SourcePosition>)> {
    match f.details {
        Some(d) => match d.path {
            Some(p) => Some((p, details_position(f, d.line, d.column))),
            None => finding_doc_target(f, sf),
        },
        None => finding_doc_target(f, sf),
    }
}

/// The file of a finding's document and its position.
pub open spec fn finding_doc_target(f: Finding, sf: SourceFiles) -> Option<(String, Option<SourcePosition>)> {
    match doc_entry(sf, finding_doc_id(f)) {
        Some(k) => Some((sf.doc_paths@[k].path, f.position)),
        None => None,
    }
}

/// The LSP position of a finding in its file's text.
pub open spec fn finding_position(sp: Option<SourcePosition>, t: Option<Seq<u8>>) -> Position {
    match sp {
        Some(p) => text_position(p, t),
        None => Position { line: 0, character: 0 },
    }
}

/// The position of a finding can be computed against its file's text.
pub open spec fn finding_position_ok(f: Finding, sf: SourceFiles) -> bool {
    finding_target(f, sf) matches Some((path, sp)) ==> {
        let t = file_text(sf, path@);
        &&& text_fits(t)
        &&& sp matches Some(p) ==> text_position_ok(p, t)
    }
}

/// The file of a finding and its position there.
fn finding_target_exec(finding: &Finding, sf: &SourceFiles) -> (r: Option<(String, Option<SourcePosition>)>)
    ensures
        r == finding_target(*finding, *sf),
{
    let doc_id: &str = match &finding.doc_id {
        Some(d) => d.as_str(),
        None => "",
    };
    proof {
        reveal_strlit("");
        assert(doc_id@ == finding_doc_id(*finding));
    }
    let (path, sp) = match &finding.details {
        Some(d) => match &d.path {
            Some(p) => {
                let sp = match d.line {
                    Some(l) => Some(
                        SourcePosition {
                            line: l,
                            column: match d.column {
                                Some(c) => c,
                                None => 0,
                            },
                        },
                    ),
                    None => finding.position,
                };
                (p.clone(), sp)
            },
            None => match lookup_doc(sf, doc_id) {
                Some(k) => (sf.doc_paths[k].path.clone(), finding.position),
                None => {
                    return None;
                },
            },
        },
        None => match lookup_doc(sf, doc_id) {
            Some(k) => (sf.doc_paths[k].path.clone(), finding.position),
            None => {
                return None;
            },
        },
    };
    Some((path, sp))
}

/// Whether a text's offsets fit the integer types positions are counted in.
fn text_fits_exec(t: Option<&str>) -> (r: bool)
    ensures
        r == text_fits(opt_bytes(t)),
{
    match t {
        Some(s) => {
            let n = s.as_bytes().len();
            n <= 0xffff_ffffusize && n < usize::MAX
        },
        None => true,
    }
}

/// Whether the UTF-16 position of `sp` can be computed against `t`.
fn text_position_in_bounds(sp: &SourcePosition, t: Option<&str>) -> (r: bool)
    ensures
        r == text_position_ok(*sp, opt_bytes(t)),
{
    match t {
        Some(s) => utf16_position_in_bounds(sp, s),
        None => true,
    }
}

/// Whether the buffer, if any, can be sliced at the clamped offset `off`.
fn code_ref_offset_in_bounds(off: usize, buffer: Option<&str>) -> (r: bool)
    ensures
        r == code_ref_offset_ok(off, opt_bytes(buffer)),
{
    match buffer {
        Some(s) => {
            let b = s.as_bytes();
            let i = if off < b.len() {
                off
            } else {
                b.len()
            };
            i == b.len() || !(0x80 <= b[i] && b[i] <= 0xbf)
        },
        None => true,
    }
}

/// Whether the positions of a parse error can be computed against the
/// texts given, as `parse_error_to_diagnostic` requires.
pub fn parse_error_positions_in_bounds(err: &ParseError, buffer: Option<&str>, disk: Option<&str>) -> (r: bool)
    ensures
        r == parse_error_positions_ok(*err, opt_bytes(buffer), opt_bytes(disk)),
{
    if !text_fits_exec(buffer) || !text_fits_exec(disk) {
        return false;
    }
    let text = if buffer.is_some() {
        buffer
    } else {
        disk
    };
    match err {
        ParseError::XmlSyntaxError { line, column, .. } => text_position_in_bounds(
            &SourcePosition { line: *line, column: *column },
            text,
        ),
        ParseError::MissingRequiredAttribute { position, .. } => text_position_in_bounds(position, text),
        ParseError::OrphanCodeRef { content_offset, .. } => code_ref_offset_in_bounds(*content_offset, buffer),
        ParseError::DualSourceConflict { content_offset, .. } => code_ref_offset_in_bounds(
            *content_offset,
            buffer,
        ),
        _ => true,
    }
}

/// Whether the positions of a parse warning can be computed against the
/// texts given, as `parse_warning_to_diagnostic` requires.
pub fn parse_warning_positions_in_bounds(warn: &ParseWarning, buffer: Option<&str>, disk: Option<&str>) -> (r: bool)
    ensures
        r == parse_warning_positions_ok(*warn, opt_bytes(buffer), opt_bytes(disk)),
{
    if !text_fits_exec(buffer) || !text_fits_exec(disk) {
        return false;
    }
    match warn {
        ParseWarning::OrphanCodeRef { content_offset, .. } => code_ref_offset_in_bounds(*content_offset, buffer),
        ParseWarning::DualSourceConflict { content_offset, .. } => code_ref_offset_in_bounds(
            *content_offset,
            buffer,
        ),
        ParseWarning::DuplicateCodeRef { .. } => true,
    }
}

/// Whether the UTF-16 positions of all of `positions` can be computed
/// against `t`.
fn all_positions_in_bounds(positions: &Vec<SourcePosition>, t: Option<&str>) -> (r: bool)
    ensures
        r == forall|j: int| 0 <= j < positions@.len() ==> text_position_ok(#[trigger] positions@[j], opt_bytes(t)),
{
    let mut i: usize = 0;
    while i < positions.len()
        invariant
            0 <= i <= positions@.len(),
            forall|j: int| 0 <= j < i ==> text_position_ok(#[trigger] positions@[j], opt_bytes(t)),
        decreases positions@.len() - i,
    {
        if !text_position_in_bounds(&positions[i], t) {
            return false;
        }
        i = i + 1;
    }
    true
}

/// Whether the positions of a graph error can be computed against its
/// document's text, as `graph_error_to_diagnostic_with_lookup` requires.
pub fn graph_error_positions_in_bounds(err: &GraphError, sf: &SourceFiles) -> (r: bool)
    ensures
        r == graph_error_positions_ok(*err, *sf),
{
    match err {
        GraphError::BrokenRef { doc_id, position, .. } => match lookup_doc(sf, doc_id.as_str()) {
            Some(k) => {
                let t = doc_text_exec(sf, k);
                text_fits_exec(t) && text_position_in_bounds(position, t)
            },
            None => true,
        },
        GraphError::DuplicateComponentId { doc_id, positions, .. } => match lookup_doc(sf, doc_id.as_str()) {
            Some(k) => {
                let t = doc_text_exec(sf, k);
                text_fits_exec(t) && all_positions_in_bounds(positions, t)
            },
            None => true,
        },
        _ => true,
    }
}

/// Whether the position of a finding can be computed against its file's
/// text, as `finding_to_diagnostic` requires.
pub fn finding_position_in_bounds(finding: &Finding, sf: &SourceFiles) -> (r: bool)
    ensures
        r == finding_position_ok(*finding, *sf),
{
    match finding_target_exec(finding, sf) {
        Some((path, sp)) => {
            let t = lookup_text(sf, path.as_str());
            text_fits_exec(t) && match sp {
                Some(p) => text_position_in_bounds(&p, t),
                None => true,
            }
        },
        None => true,
    }
}

/// Convert a verification finding to a `(URL, diagnostic)` pair; `None`
/// when the finding is off or no file can be determined for it.
pub fn finding_to_diagnostic(finding: &Finding, sf: &SourceFiles) -> (r: Option<(String, Diagnostic)>)
    requires
        finding_position_ok(*finding, *sf),
    ensures
        match (finding_severity(*finding), finding_target(*finding, *sf)) {
            (Some(severity), Some((path, sp))) => r matches Some((p, d)) && {
                let b = encode_utf8(finding.message@);
                &&& p@ == path_url(path@)
                &&& d.range == Range {
                    start: finding_position(sp, file_text(*sf, path@)),
                    end: finding_position(sp, file_text(*sf, path@)),
                }
                &&& d.severity == Some(severity)
                &&& d.source matches Some(s) && s@ == DIAGNOSTIC_SOURCE@
                &&& d.message == finding.message
                &&& d.data is Some
                &&& d.data.unwrap().source == DiagnosticSource::Verify(finding.rule)
                &&& d.data.unwrap().doc_id == finding.doc_id
                &&& action_is(
                    d.data.unwrap().context,
                    finding_context(finding.rule, b),
                    b,
                    finding_doc_id(*finding),
                )
            },
            _ => r is None,
        },
{
    let mut severity = match severity_to_lsp(finding.effective_severity) {
        Some(s) => s,
        None => {
            return None;
        },
    };
    match &finding.details {
        Some(d) => {
            if d.example_coverable {
                severity = DiagnosticSeverity::Hint;
            }
        },
        None => {},
    }
    let (path, sp) = match finding_target_exec(finding, sf) {
        Some(t) => t,
        None => {
            return None;
        },
    };
    let text = lookup_text(sf, path.as_str());
    let pos = match sp {
        Some(p) => sp_to_lsp(&p, text),
        None => Position { line: 0, character: 0 },
    };
    let context = enrich_finding_context(finding);
    let data = DiagnosticData {
        source: DiagnosticSource::Verify(finding.rule.duplicate()),
        doc_id: finding.doc_id.clone(),
        context,
    };
    let diagnostic = Diagnostic {
        range: zero_range(pos),
        severity: Some(severity),
        source: Some(String::from_str(DIAGNOSTIC_SOURCE)),
        message: finding.message.clone(),
        data: Some(data),
    };
    Some((path_to_url(path.as_str()), diagnostic))
}

} // verus!
