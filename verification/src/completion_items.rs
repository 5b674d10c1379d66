//! Completion items: document IDs, fragment IDs, component names with
//! their snippets, and attribute values, each list filtered by the typed
//! prefix and sorted by label.

use vstd::prelude::*;
use vstd::string::{StringExecFns, StringSliceAdditionalSpecFns};
use vstd::utf8::{decode_utf8, encode_utf8};
use crate::completion::{
    completion_context, cursor_ok, detect_context, CompletionContext, ContextSpec, StatusContext,
    StatusSpec,
};
use crate::component_defs::{required_names, sorted_required, sorted_required_names, ComponentDef};
use crate::numerals::{decimal, push_decimal};
use crate::sorting::{entry_order, entry_views, sort_entries, str_views};
use crate::text::same_str;

verus! {

broadcast use vstd::utf8::encode_utf8_decode_utf8;

/// The kind of a completion item.
#[derive(Debug, Clone, Copy, PartialEq, Eq, Structural)]
pub enum CompletionItemKind {
    Reference,
    Class,
    EnumMember,
}

/// How the insert text of a completion item is to be read.
#[derive(Debug, Clone, Copy, PartialEq, Eq, Structural)]
pub enum InsertTextFormat {
    PlainText,
    Snippet,
}

/// A completion item.
#[derive(Debug, Clone, PartialEq, Eq)]
pub struct CompletionItem {
    pub label: String,
    pub kind: Option<CompletionItemKind>,
    pub detail: Option<String>,
    pub insert_text: Option<String>,
    pub insert_text_format: Option<InsertTextFormat>,
}

/// A completion item as the specification sees it.
pub struct ItemView {
    pub label: Seq<char>,
    pub kind: Option<CompletionItemKind>,
    pub detail: Option<Seq<char>>,
    pub insert_text: Option<Seq<char>>,
    pub insert_text_format: Option<InsertTextFormat>,
}

/// The characters of an optional string.
pub open spec fn opt_view(o: Option<String>) -> Option<Seq<char>> {
    match o {
        Some(s) => Some(s@),
        None => None,
    }
}

/// The view of an item.
pub open spec fn item_view(x: CompletionItem) -> ItemView {
    ItemView {
        label: x.label@,
        kind: x.kind,
        detail: opt_view(x.detail),
        insert_text: opt_view(x.insert_text),
        insert_text_format: x.insert_text_format,
    }
}

/// The views of items.
pub open spec fn items_view(xs: Seq<CompletionItem>) -> Seq<ItemView> {
    xs.map_values(|x: CompletionItem| item_view(x))
}

/// A document, as the completion of document IDs sees it: its ID and its
/// type, if declared.
#[derive(Debug, Clone, PartialEq, Eq)]
pub struct DocumentSummary {
    pub id: String,
    pub doc_type: Option<String>,
}

/// A referenceable component: its document, its ID and its body text.
#[derive(Debug, Clone, PartialEq, Eq)]
pub struct FragmentSummary {
    pub doc_id: String,
    pub id: String,
    pub body_text: Option<String>,
}

// ---------------------------------------------------------------------------
// Selecting and sorting
// ---------------------------------------------------------------------------

/// `s` starts with `p`, byte for byte.
pub open spec fn str_starts_with(s: Seq<char>, p: Seq<char>) -> bool {
    let sb = encode_utf8(s);
    let pb = encode_utf8(p);
    pb.len() <= sb.len() && sb.subrange(0, pb.len() as int) == pb
}

/// Whether `s` starts with `p`.
pub fn starts_with_exec(s: &str, p: &str) -> (r: bool)
    ensures
        r == str_starts_with(s@, p@),
{
    let sb = s.as_bytes();
    let pb = p.as_bytes();
    if pb.len() > sb.len() {
        return false;
    }
    let mut i: usize = 0;
    while i < pb.len()
        invariant
            0 <= i <= pb@.len() <= sb@.len(),
            sb@ == encode_utf8(s@),
            pb@ == encode_utf8(p@),
            forall|k: int| 0 <= k < i ==> sb@[k] == pb@[k],
        decreases pb@.len() - i,
    {
        if sb[i] != pb[i] {
            proof {
                assert(sb@.subrange(0, pb@.len() as int)[i as int] != pb@[i as int]);
            }
            return false;
        }
        i = i + 1;
    }
    proof {
        assert(sb@.subrange(0, pb@.len() as int) =~= pb@);
    }
    true
}

/// The entries `(label, index)` of the selected labels, in order.
pub open spec fn selected_entries(labels: Seq<Seq<char>>, sel: Seq<bool>) -> Seq<(Seq<char>, int)>
    decreases labels.len(),
{
    if labels.len() == 0 {
        Seq::empty()
    } else {
        let rest = selected_entries(labels.drop_last(), sel);
        if sel[labels.len() - 1] {
            rest.push((labels.last(), labels.len() - 1))
        } else {
            rest
        }
    }
}

/// The selected entries, sorted by label (stably).
pub open spec fn sorted_selection(labels: Seq<Seq<char>>, sel: Seq<bool>) -> Seq<(Seq<char>, int)> {
    selected_entries(labels, sel).sort_by(entry_order())
}

proof fn lemma_selected_index(labels: Seq<Seq<char>>, sel: Seq<bool>, k: int)
    requires
        0 <= k < selected_entries(labels, sel).len(),
    ensures
        0 <= selected_entries(labels, sel)[k].1 < labels.len(),
        selected_entries(labels, sel)[k].0 == labels[selected_entries(labels, sel)[k].1],
        sel[selected_entries(labels, sel)[k].1],
    decreases labels.len(),
{
    let rest = selected_entries(labels.drop_last(), sel);
    if k < rest.len() {
        lemma_selected_index(labels.drop_last(), sel, k);
    }
}

proof fn lemma_sorted_selection_index(labels: Seq<Seq<char>>, sel: Seq<bool>, k: int)
    requires
        0 <= k < sorted_selection(labels, sel).len(),
    ensures
        0 <= sorted_selection(labels, sel)[k].1 < labels.len(),
        sorted_selection(labels, sel)[k].0 == labels[sorted_selection(labels, sel)[k].1],
        sel[sorted_selection(labels, sel)[k].1],
{
    let s = selected_entries(labels, sel);
    crate::sorting::lemma_entry_order_total();
    s.lemma_sort_by_ensures(entry_order());
    let x = sorted_selection(labels, sel)[k];
    assert(s.sort_by(entry_order()).contains(x));
    assert(s.contains(x));
    let j = choose|j: int| 0 <= j < s.len() && s[j] == x;
    lemma_selected_index(labels, sel, j);
}

/// Sort the selected labels, each with its index.
pub fn sort_selected_entries<'a>(labels: &Vec<&'a str>, sel: &Vec<bool>) -> (r: Vec<(&'a str, usize)>)
    requires
        sel@.len() == labels@.len(),
    ensures
        entry_views(r@) == sorted_selection(str_views(labels@), sel@),
        forall|k: int| 0 <= k < r@.len() ==> (#[trigger] r@[k]).1 < labels@.len() && r@[k].0@ == labels@[r@[k].1 as int]@,
{
    let mut entries: Vec<(&'a str, usize)> = Vec::new();
    let mut i: usize = 0;
    while i < labels.len()
        invariant
            0 <= i <= labels@.len(),
            sel@.len() == labels@.len(),
            entry_views(entries@) == selected_entries(str_views(labels@).take(i as int), sel@),
        decreases labels@.len() - i,
    {
        proof {
            assert(str_views(labels@).take(i + 1).drop_last() =~= str_views(labels@).take(i as int));
            assert(str_views(labels@).take(i + 1).last() == labels@[i as int]@);
        }
        if sel[i] {
            let ghost before = entries@;
            entries.push((labels[i], i));
            proof {
                assert(entry_views(entries@) =~= entry_views(before).push((labels@[i as int]@, i as int)));
            }
        }
        i = i + 1;
    }
    proof {
        assert(str_views(labels@).take(labels@.len() as int) =~= str_views(labels@));
    }
    let r = sort_entries(entries);
    proof {
        assert forall|k: int| 0 <= k < r@.len() implies (#[trigger] r@[k]).1 < labels@.len() && r@[k].0@
            == labels@[r@[k].1 as int]@ by {
            assert(entry_views(r@)[k] == (r@[k].0@, r@[k].1 as int));
            lemma_sorted_selection_index(str_views(labels@), sel@, k);
        }
    }
    r
}

// ---------------------------------------------------------------------------
// Attribute values
// ---------------------------------------------------------------------------

/// The selection of the candidates that start with `prefix`.
pub open spec fn prefix_selection(cands: Seq<Seq<char>>, prefix: Seq<char>) -> Seq<bool> {
    Seq::new(cands.len(), |i: int| str_starts_with(cands[i], prefix))
}

/// An attribute-value item.
pub open spec fn value_item(label: Seq<char>) -> ItemView {
    ItemView {
        label,
        kind: Some(CompletionItemKind::EnumMember),
        detail: Some("Supersigil"@),
        insert_text: None,
        insert_text_format: None,
    }
}

/// The value items of the candidates starting with `prefix`, sorted.
pub open spec fn value_items(cands: Seq<Seq<char>>, prefix: Seq<char>) -> Seq<ItemView> {
    sorted_selection(cands, prefix_selection(cands, prefix)).map_values(|e: (Seq<char>, int)| value_item(e.0))
}

/// Filter the candidate values by prefix and make them completion items,
/// sorted by label.
pub fn filter_to_completion_items(candidates: &[&str], prefix: &str) -> (r: Vec<CompletionItem>)
    ensures
        items_view(r@) == value_items(str_views(candidates@), prefix@),
{
    let mut labels: Vec<&str> = Vec::new();
    let mut sel: Vec<bool> = Vec::new();
    let mut i: usize = 0;
    while i < candidates.len()
        invariant
            0 <= i <= candidates@.len(),
            labels@ == candidates@.take(i as int),
            sel@.len() == i,
            forall|k: int| 0 <= k < i ==> #[trigger] sel@[k] == str_starts_with(candidates@[k]@, prefix@),
        decreases candidates@.len() - i,
    {
        labels.push(candidates[i]);
        sel.push(starts_with_exec(candidates[i], prefix));
        proof {
            assert(labels@ =~= candidates@.take(i + 1));
        }
        i = i + 1;
    }
    proof {
        assert(labels@ =~= candidates@);
        assert(sel@ =~= prefix_selection(str_views(candidates@), prefix@));
    }
    let sorted = sort_selected_entries(&labels, &sel);
    let mut out: Vec<CompletionItem> = Vec::new();
    let mut k: usize = 0;
    proof {
        reveal_strlit("Supersigil");
    }
    while k < sorted.len()
        invariant
            0 <= k <= sorted@.len(),
            out@.len() == k,
            forall|m: int| 0 <= m < k ==> item_view(#[trigger] out@[m]) == value_item(sorted@[m].0@),
        decreases sorted@.len() - k,
    {
        out.push(CompletionItem {
            label: sorted[k].0.to_owned(),
            kind: Some(CompletionItemKind::EnumMember),
            detail: Some(String::from_str("Supersigil")),
            insert_text: None,
            insert_text_format: None,
        });
        k = k + 1;
    }
    proof {
        assert(items_view(out@) =~= value_items(str_views(candidates@), prefix@)) by {
            assert forall|m: int| 0 <= m < out@.len() implies items_view(out@)[m] == value_items(
                str_views(candidates@),
                prefix@,
            )[m] by {
                assert(entry_views(sorted@)[m] == (sorted@[m].0@, sorted@[m].1 as int));
            }
        }
    }
    out
}

/// Task lifecycle statuses.
pub open spec fn task_statuses() -> Seq<Seq<char>> {
    seq!["draft"@, "ready"@, "in-progress"@, "done"@]
}

/// Recognized Alternative statuses.
pub open spec fn alternative_statuses() -> Seq<Seq<char>> {
    seq!["rejected"@, "deferred"@, "superseded"@]
}

/// The status candidates for a context: the document type's statuses in
/// frontmatter (when it declares some), the fixed lists for Task and
/// Alternative, none elsewhere.
pub open spec fn status_candidates(context: StatusSpec, doc_statuses: Option<Seq<Seq<char>>>) -> Seq<Seq<char>> {
    match context {
        StatusSpec::Frontmatter => match doc_statuses {
            Some(s) => s,
            None => Seq::empty(),
        },
        StatusSpec::Task => task_statuses(),
        StatusSpec::Alternative => alternative_statuses(),
        _ => Seq::empty(),
    }
}

/// The view of a status context.
pub open spec fn status_view(c: StatusContext) -> StatusSpec {
    match c {
        StatusContext::Frontmatter => StatusSpec::Frontmatter,
        StatusContext::Task => StatusSpec::Task,
        StatusContext::Alternative => StatusSpec::Alternative,
        StatusContext::Expected => StatusSpec::Expected,
        StatusContext::Other(s) => StatusSpec::Other(s@),
    }
}

/// The statuses of the current document's type, as characters.
pub open spec fn statuses_view(s: Option<&[String]>) -> Option<Seq<Seq<char>>> {
    match s {
        Some(v) => Some(v@.map_values(|x: String| x@)),
        None => None,
    }
}

/// Completion items for `status` attribute values: the candidates for the
/// context that start with `prefix`, sorted.  `doc_statuses` are the
/// statuses that the current document's type declares, if it is known.
pub fn complete_status(prefix: &str, context: &StatusContext, doc_statuses: Option<&[String]>) -> (r: Vec<
    CompletionItem,
>)
    ensures
        items_view(r@) == value_items(status_candidates(status_view(*context), statuses_view(doc_statuses)), prefix@),
{
    let mut candidates: Vec<&str> = Vec::new();
    proof {
        reveal_strlit("draft");
        reveal_strlit("ready");
        reveal_strlit("in-progress");
        reveal_strlit("done");
        reveal_strlit("rejected");
        reveal_strlit("deferred");
        reveal_strlit("superseded");
    }
    match context {
        StatusContext::Frontmatter => match doc_statuses {
            Some(statuses) => {
                let mut i: usize = 0;
                while i < statuses.len()
                    invariant
                        0 <= i <= statuses@.len(),
                        str_views(candidates@) == statuses@.take(i as int).map_values(|x: String| x@),
                    decreases statuses@.len() - i,
                {
                    let ghost before = candidates@;
                    candidates.push(statuses[i].as_str());
                    proof {
                        assert(str_views(candidates@) =~= str_views(before).push(statuses@[i as int]@));
                        assert(statuses@.take(i + 1).map_values(|x: String| x@) =~= statuses@.take(
                            i as int,
                        ).map_values(|x: String| x@).push(statuses@[i as int]@));
                    }
                    i = i + 1;
                }
                proof {
                    assert(statuses@.take(statuses@.len() as int) =~= statuses@);
                }
            },
            None => {},
        },
        StatusContext::Task => {
            candidates.push("draft");
            candidates.push("ready");
            candidates.push("in-progress");
            candidates.push("done");
        },
        StatusContext::Alternative => {
            candidates.push("rejected");
            candidates.push("deferred");
            candidates.push("superseded");
        },
        _ => {},
    }
    proof {
        assert(str_views(candidates@) =~= status_candidates(status_view(*context), statuses_view(doc_statuses)));
    }
    filter_to_completion_items(candidates.as_slice(), prefix)
}

/// The strategy candidates: `tag` and `file-glob` inside a VerifiedBy,
/// none elsewhere.
pub open spec fn strategy_candidates(component: Option<Seq<char>>) -> Seq<Seq<char>> {
    if component == Some("VerifiedBy"@) {
        seq!["tag"@, "file-glob"@]
    } else {
        Seq::empty()
    }
}

/// The characters of an optional string slice.
pub open spec fn opt_str_view(o: Option<&str>) -> Option<Seq<char>> {
    match o {
        Some(s) => Some(s@),
        None => None,
    }
}

/// Completion items for `strategy` attribute values.
pub fn complete_strategy(prefix: &str, component: Option<&str>) -> (r: Vec<CompletionItem>)
    ensures
        items_view(r@) == value_items(strategy_candidates(opt_str_view(component)), prefix@),
{
    let mut candidates: Vec<&str> = Vec::new();
    proof {
        reveal_strlit("VerifiedBy");
        reveal_strlit("tag");
        reveal_strlit("file-glob");
    }
    let verified_by = match component {
        Some(c) => same_str(c, "VerifiedBy"),
        None => false,
    };
    if verified_by {
        candidates.push("tag");
        candidates.push("file-glob");
    }
    proof {
        assert(str_views(candidates@) =~= strategy_candidates(opt_str_view(component)));
    }
    filter_to_completion_items(candidates.as_slice(), prefix)
}

// ---------------------------------------------------------------------------
// Document and fragment IDs
// ---------------------------------------------------------------------------

/// The IDs of the documents.
pub open spec fn doc_ids(docs: Seq<DocumentSummary>) -> Seq<Seq<char>> {
    docs.map_values(|d: DocumentSummary| d.id@)
}

/// The item of a document: its ID, detailed by its type or else its ID.
pub open spec fn doc_item(d: DocumentSummary) -> ItemView {
    ItemView {
        label: d.id@,
        kind: Some(CompletionItemKind::Reference),
        detail: Some(
            match d.doc_type {
                Some(t) => t@,
                None => d.id@,
            },
        ),
        insert_text: None,
        insert_text_format: None,
    }
}

/// The items of the documents whose ID starts with `prefix`, sorted by ID.
pub open spec fn doc_items(prefix: Seq<char>, docs: Seq<DocumentSummary>) -> Seq<ItemView> {
    sorted_selection(doc_ids(docs), prefix_selection(doc_ids(docs), prefix)).map_values(
        |e: (Seq<char>, int)| doc_item(docs[e.1]),
    )
}

/// Return the documents whose ID starts with `prefix`, as completion
/// items sorted by ID.
pub fn complete_document_ids(prefix: &str, docs: &[DocumentSummary]) -> (r: Vec<CompletionItem>)
    ensures
        items_view(r@) == doc_items(prefix@, docs@),
{
    let mut labels: Vec<&str> = Vec::new();
    let mut sel: Vec<bool> = Vec::new();
    let mut i: usize = 0;
    while i < docs.len()
        invariant
            0 <= i <= docs@.len(),
            str_views(labels@) == doc_ids(docs@).take(i as int),
            sel@.len() == i,
            forall|k: int| 0 <= k < i ==> #[trigger] sel@[k] == str_starts_with(docs@[k].id@, prefix@),
        decreases docs@.len() - i,
    {
        let ghost before = labels@;
        labels.push(docs[i].id.as_str());
        sel.push(starts_with_exec(docs[i].id.as_str(), prefix));
        proof {
            assert(str_views(labels@) =~= str_views(before).push(docs@[i as int].id@));
            assert(doc_ids(docs@).take(i + 1) =~= doc_ids(docs@).take(i as int).push(docs@[i as int].id@));
        }
        i = i + 1;
    }
    proof {
        assert(doc_ids(docs@).take(docs@.len() as int) =~= doc_ids(docs@));
        assert(sel@ =~= prefix_selection(doc_ids(docs@), prefix@));
    }
    let sorted = sort_selected_entries(&labels, &sel);
    let ghost ss = sorted_selection(doc_ids(docs@), prefix_selection(doc_ids(docs@), prefix@));
    let mut out: Vec<CompletionItem> = Vec::new();
    let mut k: usize = 0;
    while k < sorted.len()
        invariant
            0 <= k <= sorted@.len(),
            labels@.len() == docs@.len(),
            entry_views(sorted@) == ss,
            forall|m: int| 0 <= m < sorted@.len() ==> (#[trigger] sorted@[m]).1 < labels@.len(),
            out@.len() == k,
            forall|m: int| 0 <= m < k ==> item_view(#[trigger] out@[m]) == doc_item(docs@[ss[m].1]),
        decreases sorted@.len() - k,
    {
        let d = &docs[sorted[k].1];
        proof {
            assert(entry_views(sorted@)[k as int] == (sorted@[k as int].0@, sorted@[k as int].1 as int));
        }
        let detail = match &d.doc_type {
            Some(t) => t.clone(),
            None => d.id.clone(),
        };
        out.push(CompletionItem {
            label: d.id.clone(),
            kind: Some(CompletionItemKind::Reference),
            detail: Some(detail),
            insert_text: None,
            insert_text_format: None,
        });
        k = k + 1;
    }
    proof {
        assert(items_view(out@) =~= doc_items(prefix@, docs@));
    }
    out
}

/// The first 60 characters of `t`, and `…` after them when `t` is longer
/// than 60 bytes.
pub open spec fn preview(t: Seq<char>) -> Seq<char> {
    let head = if t.len() <= 60 {
        t
    } else {
        t.take(60)
    };
    if encode_utf8(t).len() > 60 {
        head + seq!['…']
    } else {
        head
    }
}

/// The preview of a body text.
fn preview_exec(t: &str) -> (r: String)
    ensures
        r@ == preview(t@),
{
    let cs = crate::text::chars_of(t);
    let n: usize = if cs.len() < 60 {
        cs.len()
    } else {
        60
    };
    let total = t.as_bytes().len();
    let mut off: usize = 0;
    let mut k: usize = 0;
    proof {
        crate::position::lemma_char_offset_encode(t@, 0);
        crate::position::lemma_char_offset_encode(t@, t@.len() as int);
        assert(t@.take(t@.len() as int) =~= t@);
    }
    while k < n
        invariant
            0 <= k <= n <= cs@.len(),
            cs@ == t@,
            total == encode_utf8(t@).len(),
            crate::position::char_offset(t@, t@.len() as int) == total,
            off == crate::position::char_offset(t@, k as int),
        decreases n - k,
    {
        proof {
            crate::position::lemma_char_offset_step(t@, k as int);
            crate::position::lemma_char_offset_mono(t@, k + 1, t@.len() as int);
            crate::position::lemma_char_offset_start(t@, t@.len() as int);
            crate::position::lemma_char_offset_encode(t@, t@.len() as int);
            assert(t@.take(t@.len() as int) =~= t@);
        }
        off = off + crate::position::utf8_width_exec(cs[k]);
        k = k + 1;
    }
    proof {
        crate::position::lemma_char_offset_start(t@, 0);
        crate::position::lemma_char_offset_start(t@, n as int);
        crate::position::lemma_char_range_encode(t@, 0, n as int);
        assert(t@.subrange(0, n as int) =~= t@.take(n as int));
        crate::position::lemma_char_offset_encode(t@, 0);
        assert(t@.take(0) =~= Seq::<char>::empty());
    }
    let head = crate::text::slice_str(t, 0, off);
    proof {
        assert(decode_utf8(encode_utf8(head@)) == head@);
        assert(decode_utf8(encode_utf8(t@.take(n as int))) == t@.take(n as int));
        if t@.len() <= 60 {
            assert(t@.take(n as int) =~= t@);
        }
    }
    let mut s = head.to_owned();
    if t.as_bytes().len() > 60 {
        s.append("…");
        proof {
            reveal_strlit("…");
        }
    }
    s
}

/// The IDs of the fragments.
pub open spec fn fragment_ids(frags: Seq<FragmentSummary>) -> Seq<Seq<char>> {
    frags.map_values(|f: FragmentSummary| f.id@)
}

/// The fragments of `doc_id` whose ID starts with `prefix`.
pub open spec fn fragment_selection(frags: Seq<FragmentSummary>, doc_id: Seq<char>, prefix: Seq<char>) -> Seq<bool> {
    Seq::new(frags.len(), |i: int| frags[i].doc_id@ == doc_id && str_starts_with(frags[i].id@, prefix))
}

/// The item of a fragment: its ID, detailed by a preview of its body.
pub open spec fn fragment_item(f: FragmentSummary) -> ItemView {
    ItemView {
        label: f.id@,
        kind: Some(CompletionItemKind::Reference),
        detail: match f.body_text {
            Some(t) => Some(preview(t@)),
            None => None,
        },
        insert_text: None,
        insert_text_format: None,
    }
}

/// The items of the fragments of `doc_id` starting with `prefix`, sorted.
pub open spec fn fragment_items(doc_id: Seq<char>, prefix: Seq<char>, frags: Seq<FragmentSummary>) -> Seq<ItemView> {
    sorted_selection(fragment_ids(frags), fragment_selection(frags, doc_id, prefix)).map_values(
        |e: (Seq<char>, int)| fragment_item(frags[e.1]),
    )
}

/// Return the referenceable components of `doc_id` whose ID starts with
/// `prefix`, as completion items sorted by ID.
pub fn complete_fragment_ids(doc_id: &str, prefix: &str, frags: &[FragmentSummary]) -> (r: Vec<CompletionItem>)
    ensures
        items_view(r@) == fragment_items(doc_id@, prefix@, frags@),
{
    let mut labels: Vec<&str> = Vec::new();
    let mut sel: Vec<bool> = Vec::new();
    let mut i: usize = 0;
    while i < frags.len()
        invariant
            0 <= i <= frags@.len(),
            str_views(labels@) == fragment_ids(frags@).take(i as int),
            sel@.len() == i,
            forall|k: int| 0 <= k < i ==> #[trigger] sel@[k] == (frags@[k].doc_id@ == doc_id@ && str_starts_with(
                frags@[k].id@,
                prefix@,
            )),
        decreases frags@.len() - i,
    {
        let ghost before = labels@;
        labels.push(frags[i].id.as_str());
        let keep = same_str(frags[i].doc_id.as_str(), doc_id) && starts_with_exec(frags[i].id.as_str(), prefix);
        sel.push(keep);
        proof {
            assert(str_views(labels@) =~= str_views(before).push(frags@[i as int].id@));
            assert(fragment_ids(frags@).take(i + 1) =~= fragment_ids(frags@).take(i as int).push(frags@[i as int].id@));
        }
        i = i + 1;
    }
    proof {
        assert(fragment_ids(frags@).take(frags@.len() as int) =~= fragment_ids(frags@));
        assert(sel@ =~= fragment_selection(frags@, doc_id@, prefix@));
    }
    let sorted = sort_selected_entries(&labels, &sel);
    let ghost ss = sorted_selection(fragment_ids(frags@), fragment_selection(frags@, doc_id@, prefix@));
    let mut out: Vec<CompletionItem> = Vec::new();
    let mut k: usize = 0;
    while k < sorted.len()
        invariant
            0 <= k <= sorted@.len(),
            labels@.len() == frags@.len(),
            entry_views(sorted@) == ss,
            forall|m: int| 0 <= m < sorted@.len() ==> (#[trigger] sorted@[m]).1 < labels@.len(),
            out@.len() == k,
            forall|m: int| 0 <= m < k ==> item_view(#[trigger] out@[m]) == fragment_item(frags@[ss[m].1]),
        decreases sorted@.len() - k,
    {
        let f = &frags[sorted[k].1];
        proof {
            assert(entry_views(sorted@)[k as int] == (sorted@[k as int].0@, sorted@[k as int].1 as int));
        }
        let detail = match &f.body_text {
            Some(t) => Some(preview_exec(t.as_str())),
            None => None,
        };
        out.push(CompletionItem {
            label: f.id.clone(),
            kind: Some(CompletionItemKind::Reference),
            detail,
            insert_text: None,
            insert_text_format: None,
        });
        k = k + 1;
    }
    proof {
        assert(items_view(out@) =~= fragment_items(doc_id@, prefix@, frags@));
    }
    out
}

// ---------------------------------------------------------------------------
// Component names
// ---------------------------------------------------------------------------

/// `name="$stop"`.
pub open spec fn tab_attr(name: Seq<char>, stop: nat) -> Seq<char> {
    name + "=\"$"@ + decimal(stop) + "\""@
}

/// The attribute snippets of `names`, numbered from 1, joined by spaces.
pub open spec fn attr_snippets(names: Seq<Seq<char>>) -> Seq<char>
    decreases names.len(),
{
    if names.len() == 0 {
        Seq::empty()
    } else if names.len() == 1 {
        tab_attr(names[0], 1)
    } else {
        attr_snippets(names.drop_last()) + " "@ + tab_attr(names.last(), names.len())
    }
}

/// The snippet of a component: its required attributes (sorted) as tab
/// stops, then a body tab stop and a closing tag for a referenceable
/// component, or a self-closing end for any other.
pub open spec fn component_snippet(name: Seq<char>, def: ComponentDef) -> Seq<char> {
    let req = sorted_required(def);
    let n = req.len();
    if def.referenceable {
        if n == 0 {
            name + ">\n$"@ + decimal(n + 1) + "\n</"@ + name + ">"@
        } else {
            name + " "@ + attr_snippets(req) + ">\n$"@ + decimal(n + 1) + "\n</"@ + name + ">"@
        }
    } else if n == 0 {
        name + " />"@
    } else {
        name + " "@ + attr_snippets(req) + " />"@
    }
}

/// Build the snippet for a component from its definition.
pub fn build_component_snippet(name: &str, def: &ComponentDef) -> (r: String)
    requires
        sorted_required(*def).len() < u32::MAX,
    ensures
        r@ == component_snippet(name@, *def),
{
    let required = sorted_required_names(def);
    let mut attrs = String::new();
    let mut tab_stop: u32 = 1;
    let mut i: usize = 0;
    proof {
        reveal_strlit(" ");
        reveal_strlit("=\"$");
        reveal_strlit("\"");
    }
    while i < required.len()
        invariant
            0 <= i <= required@.len(),
            required@.len() < u32::MAX,
            tab_stop == i + 1,
            attrs@ == attr_snippets(str_views(required@).take(i as int)),
        decreases required@.len() - i,
    {
        proof {
            assert(str_views(required@).take(i + 1).drop_last() =~= str_views(required@).take(i as int));
            assert(str_views(required@).take(i + 1).last() == required@[i as int]@);
        }
        if i > 0 {
            attrs.append(" ");
        }
        attrs.append(required[i]);
        attrs.append("=\"$");
        push_decimal(&mut attrs, tab_stop as u128);
        attrs.append("\"");
        tab_stop = tab_stop + 1;
        i = i + 1;
    }
    proof {
        assert(str_views(required@).take(required@.len() as int) =~= str_views(required@));
        reveal_strlit(">\n$");
        reveal_strlit("\n</");
        reveal_strlit(">");
        reveal_strlit(" />");
    }
    let mut s = String::from_str(name);
    if def.referenceable {
        if required.len() > 0 {
            s.append(" ");
            s.append(attrs.as_str());
        }
        s.append(">\n$");
        push_decimal(&mut s, tab_stop as u128);
        s.append("\n</");
        s.append(name);
        s.append(">");
    } else {
        if required.len() > 0 {
            s.append(" ");
            s.append(attrs.as_str());
        }
        s.append(" />");
    }
    s
}

/// The names of the definitions.
pub open spec fn def_names(defs: Seq<ComponentDef>) -> Seq<Seq<char>> {
    defs.map_values(|d: ComponentDef| d.name@)
}

/// The item of a component definition.
pub open spec fn component_item(d: ComponentDef) -> ItemView {
    ItemView {
        label: d.name@,
        kind: Some(CompletionItemKind::Class),
        detail: Some("Supersigil"@),
        insert_text: Some(component_snippet(d.name@, d)),
        insert_text_format: Some(InsertTextFormat::Snippet),
    }
}

/// The items of the components whose name starts with `prefix`, sorted.
pub open spec fn component_items(prefix: Seq<char>, defs: Seq<ComponentDef>) -> Seq<ItemView> {
    sorted_selection(def_names(defs), prefix_selection(def_names(defs), prefix)).map_values(
        |e: (Seq<char>, int)| component_item(defs[e.1]),
    )
}

/// Each definition has fewer than `u32::MAX` required attributes.
pub open spec fn defs_fit(defs: Seq<ComponentDef>) -> bool {
    forall|i: int| 0 <= i < defs.len() ==> sorted_required(#[trigger] defs[i]).len() < u32::MAX
}

/// Return the components whose name starts with `prefix`, as completion
/// items with snippets, sorted by name.
pub fn complete_component_names(prefix: &str, defs: &[ComponentDef]) -> (r: Vec<CompletionItem>)
    requires
        defs_fit(defs@),
    ensures
        items_view(r@) == component_items(prefix@, defs@),
{
    let mut labels: Vec<&str> = Vec::new();
    let mut sel: Vec<bool> = Vec::new();
    let mut i: usize = 0;
    while i < defs.len()
        invariant
            0 <= i <= defs@.len(),
            str_views(labels@) == def_names(defs@).take(i as int),
            sel@.len() == i,
            forall|k: int| 0 <= k < i ==> #[trigger] sel@[k] == str_starts_with(defs@[k].name@, prefix@),
        decreases defs@.len() - i,
    {
        let ghost before = labels@;
        labels.push(defs[i].name.as_str());
        sel.push(starts_with_exec(defs[i].name.as_str(), prefix));
        proof {
            assert(str_views(labels@) =~= str_views(before).push(defs@[i as int].name@));
            assert(def_names(defs@).take(i + 1) =~= def_names(defs@).take(i as int).push(defs@[i as int].name@));
        }
        i = i + 1;
    }
    proof {
        assert(def_names(defs@).take(defs@.len() as int) =~= def_names(defs@));
        assert(sel@ =~= prefix_selection(def_names(defs@), prefix@));
        reveal_strlit("Supersigil");
    }
    let sorted = sort_selected_entries(&labels, &sel);
    let ghost ss = sorted_selection(def_names(defs@), prefix_selection(def_names(defs@), prefix@));
    let mut out: Vec<CompletionItem> = Vec::new();
    let mut k: usize = 0;
    while k < sorted.len()
        invariant
            0 <= k <= sorted@.len(),
            labels@.len() == defs@.len(),
            defs_fit(defs@),
            entry_views(sorted@) == ss,
            forall|m: int| 0 <= m < sorted@.len() ==> (#[trigger] sorted@[m]).1 < labels@.len(),
            out@.len() == k,
            forall|m: int| 0 <= m < k ==> item_view(#[trigger] out@[m]) == component_item(defs@[ss[m].1]),
        decreases sorted@.len() - k,
    {
        let d = &defs[sorted[k].1];
        proof {
            assert(entry_views(sorted@)[k as int] == (sorted@[k as int].0@, sorted@[k as int].1 as int));
            assert(sorted_required(defs@[sorted@[k as int].1 as int]).len() < u32::MAX);
        }
        let snippet = build_component_snippet(d.name.as_str(), d);
        out.push(CompletionItem {
            label: d.name.clone(),
            kind: Some(CompletionItemKind::Class),
            detail: Some(String::from_str("Supersigil")),
            insert_text: Some(snippet),
            insert_text_format: Some(InsertTextFormat::Snippet),
        });
        k = k + 1;
    }
    proof {
        assert(items_view(out@) =~= component_items(prefix@, defs@));
    }
    out
}

// ---------------------------------------------------------------------------
// Dispatch
// ---------------------------------------------------------------------------

/// The characters of the bytes `r` of `b`.
pub open spec fn range_text(b: Seq<u8>, r: (int, int)) -> Seq<char> {
    decode_utf8(b.subrange(r.0, r.1))
}

/// The items at the cursor: those of the provider for the completion
/// context there.
pub open spec fn completion_items(
    b: Seq<u8>,
    line: nat,
    ch: int,
    docs: Seq<DocumentSummary>,
    frags: Seq<FragmentSummary>,
    defs: Seq<ComponentDef>,
    doc_statuses: Option<Seq<Seq<char>>>,
) -> Seq<ItemView> {
    match completion_context(b, line, ch) {
        ContextSpec::RefDocId { prefix } => doc_items(range_text(b, prefix), docs),
        ContextSpec::RefFragment { doc_id, prefix } => fragment_items(
            range_text(b, doc_id),
            range_text(b, prefix),
            frags,
        ),
        ContextSpec::ComponentName { prefix } => component_items(range_text(b, prefix), defs),
        ContextSpec::AttributeStrategy { prefix, component } => value_items(
            strategy_candidates(component),
            range_text(b, prefix),
        ),
        ContextSpec::AttributeStatus { prefix, context } => value_items(
            status_candidates(context, doc_statuses),
            range_text(b, prefix),
        ),
        ContextSpec::NoContext => Seq::empty(),
    }
}

/// Compute the completion items at a cursor position: detect the context
/// and ask its provider.  `docs` are the project's documents, `frags` its
/// referenceable components, `defs` the component definitions, and
/// `doc_statuses` the statuses of the current document's type, if known.
pub fn complete(
    content: &str,
    line: u32,
    character: u32,
    docs: &[DocumentSummary],
    frags: &[FragmentSummary],
    defs: &[ComponentDef],
    doc_statuses: Option<&[String]>,
) -> (r: Vec<CompletionItem>)
    requires
        cursor_ok(content.spec_bytes(), line as nat, character as int),
        defs_fit(defs@),
    ensures
        items_view(r@) == completion_items(
            content.spec_bytes(),
            line as nat,
            character as int,
            docs@,
            frags@,
            defs@,
            statuses_view(doc_statuses),
        ),
{
    let ctx = detect_context(content, line, character);
    let ghost b = content.spec_bytes();
    let ghost t = completion_context(b, line as nat, character as int);
    match ctx {
        CompletionContext::RefDocId { prefix } => {
            proof {
                assert(decode_utf8(encode_utf8(prefix@)) == prefix@);
            }
            complete_document_ids(prefix.as_str(), docs)
        },
        CompletionContext::RefFragment { doc_id, prefix } => {
            proof {
                assert(decode_utf8(encode_utf8(prefix@)) == prefix@);
                assert(decode_utf8(encode_utf8(doc_id@)) == doc_id@);
            }
            complete_fragment_ids(doc_id.as_str(), prefix.as_str(), frags)
        },
        CompletionContext::ComponentName { prefix } => {
            proof {
                assert(decode_utf8(encode_utf8(prefix@)) == prefix@);
            }
            complete_component_names(prefix.as_str(), defs)
        },
        CompletionContext::AttributeStrategy { prefix, component } => {
            proof {
                assert(decode_utf8(encode_utf8(prefix@)) == prefix@);
            }
            let c = match &component {
                Some(c) => Some(c.as_str()),
                None => None,
            };
            complete_strategy(prefix.as_str(), c)
        },
        CompletionContext::AttributeStatus { prefix, context } => {
            proof {
                assert(decode_utf8(encode_utf8(prefix@)) == prefix@);
            }
            complete_status(prefix.as_str(), &context, doc_statuses)
        },
        CompletionContext::NoContext => Vec::new(),
    }
}

// ---------------------------------------------------------------------------
// Laws
// ---------------------------------------------------------------------------

/// The labels of `items` are in `str` order.
pub open spec fn labels_sorted(items: Seq<ItemView>) -> bool {
    forall|k: int, j: int| 0 <= k < j < items.len() ==> crate::sorting::str_le(
        #[trigger] items[k].label,
        #[trigger] items[j].label,
    )
}

/// Every label of `items` starts with `prefix`.
pub open spec fn labels_prefixed(items: Seq<ItemView>, prefix: Seq<char>) -> bool {
    forall|k: int| 0 <= k < items.len() ==> str_starts_with(#[trigger] items[k].label, prefix)
}

proof fn lemma_sorted_selection_sorted(labels: Seq<Seq<char>>, sel: Seq<bool>)
    ensures
        forall|k: int, j: int| 0 <= k < j < sorted_selection(labels, sel).len() ==> crate::sorting::str_le(
            #[trigger] sorted_selection(labels, sel)[k].0,
            #[trigger] sorted_selection(labels, sel)[j].0,
        ),
{
    crate::sorting::lemma_entry_order_total();
    crate::sorting::lemma_str_order_total();
    selected_entries(labels, sel).lemma_sort_by_ensures(entry_order());
    let ss = sorted_selection(labels, sel);
    assert forall|k: int, j: int| 0 <= k < j < ss.len() implies crate::sorting::str_le(
        #[trigger] ss[k].0,
        #[trigger] ss[j].0,
    ) by {
        assert(entry_order()(ss[k], ss[j]));
        if ss[k].0 == ss[j].0 {
            assert(crate::sorting::str_order()(ss[k].0, ss[k].0));
        }
    }
}

/// Completion items come sorted by label, and each label starts with the
/// typed prefix: for attribute values, document IDs, fragment IDs and
/// component names alike.
pub proof fn law_completion_items_sorted_and_prefixed(
    cands: Seq<Seq<char>>,
    prefix: Seq<char>,
    docs: Seq<DocumentSummary>,
    doc_id: Seq<char>,
    frags: Seq<FragmentSummary>,
    defs: Seq<ComponentDef>,
)
    ensures
        labels_sorted(value_items(cands, prefix)),
        labels_prefixed(value_items(cands, prefix), prefix),
        labels_sorted(doc_items(prefix, docs)),
        labels_prefixed(doc_items(prefix, docs), prefix),
        labels_sorted(fragment_items(doc_id, prefix, frags)),
        labels_prefixed(fragment_items(doc_id, prefix, frags), prefix),
        labels_sorted(component_items(prefix, defs)),
        labels_prefixed(component_items(prefix, defs), prefix),
{
    let vs = prefix_selection(cands, prefix);
    lemma_sorted_selection_sorted(cands, vs);
    assert forall|k: int| 0 <= k < value_items(cands, prefix).len() implies str_starts_with(
        #[trigger] value_items(cands, prefix)[k].label,
        prefix,
    ) by {
        lemma_sorted_selection_index(cands, vs, k);
    }
    let dl = doc_ids(docs);
    let ds = prefix_selection(dl, prefix);
    lemma_sorted_selection_sorted(dl, ds);
    assert forall|k: int| 0 <= k < sorted_selection(dl, ds).len() implies (#[trigger] doc_items(prefix, docs)[k]).label
        == sorted_selection(dl, ds)[k].0 && str_starts_with(doc_items(prefix, docs)[k].label, prefix) by {
        lemma_sorted_selection_index(dl, ds, k);
    }
    let fl = fragment_ids(frags);
    let fs = fragment_selection(frags, doc_id, prefix);
    lemma_sorted_selection_sorted(fl, fs);
    assert forall|k: int| 0 <= k < sorted_selection(fl, fs).len() implies (#[trigger] fragment_items(
        doc_id,
        prefix,
        frags,
    )[k]).label == sorted_selection(fl, fs)[k].0 && str_starts_with(fragment_items(doc_id, prefix, frags)[k].label, prefix) by {
        lemma_sorted_selection_index(fl, fs, k);
    }
    let cl = def_names(defs);
    let cs = prefix_selection(cl, prefix);
    lemma_sorted_selection_sorted(cl, cs);
    assert forall|k: int| 0 <= k < sorted_selection(cl, cs).len() implies (#[trigger] component_items(prefix, defs)[k]).label
        == sorted_selection(cl, cs)[k].0 && str_starts_with(component_items(prefix, defs)[k].label, prefix) by {
        lemma_sorted_selection_index(cl, cs, k);
    }
}

} // verus!
