//! Custom LSP requests, notifications and commands of the server, with the
//! payload types the library defines.

use vstd::prelude::*;
use crate::completion_items::{selected_entries, sorted_selection};
use crate::sorting::{entry_order, entry_views, str_views};

verus! {

/// The command name for the supersigil verify command.
pub const VERIFY_COMMAND: &'static str = "supersigil.verify";

/// The command returning the full document list of the loaded graph (for
/// clients that cannot send custom requests).
pub const DOCUMENT_LIST_COMMAND: &'static str = "supersigil.documentList";

/// The command returning the component tree of one document with its
/// verification status.
pub const DOCUMENT_COMPONENTS_COMMAND: &'static str = "supersigil.documentComponents";

/// The command returning the graph explorer shell payload.
pub const EXPLORER_SNAPSHOT_COMMAND: &'static str = "supersigil.explorerSnapshot";

/// The command returning the detail-panel payload of one explorer document.
pub const EXPLORER_DOCUMENT_COMMAND: &'static str = "supersigil.explorerDocument";

/// The interactive create-document command, used when the target project
/// is ambiguous.
pub const CREATE_DOCUMENT_COMMAND: &'static str = "supersigil.createDocument";

/// Parameters for the interactive create-document command.
#[derive(Debug, Clone, PartialEq, Eq)]
pub struct CreateDocumentParams {
    /// Feature prefix used to resolve the destination path.
    pub feature: String,
    /// Full document reference to create.
    pub target_ref: String,
    /// Long-form document type used for scaffolding.
    pub full_type: String,
}

/// Request type for `supersigil/explorerSnapshot`.
#[derive(Debug)]
pub struct ExplorerSnapshotRequest;

impl ExplorerSnapshotRequest {
    pub const METHOD: &'static str = "supersigil/explorerSnapshot";
}

/// Request type for `supersigil/explorerDocument`.
#[derive(Debug)]
pub struct ExplorerDocumentRequest;

impl ExplorerDocumentRequest {
    pub const METHOD: &'static str = "supersigil/explorerDocument";
}

/// Notification type for `supersigil/explorerChanged`.
#[derive(Debug)]
pub struct ExplorerChangedNotification;

impl ExplorerChangedNotification {
    pub const METHOD: &'static str = "supersigil/explorerChanged";
}

/// Request type for `supersigil/graphData`.
#[derive(Debug)]
pub struct GraphDataRequest;

impl GraphDataRequest {
    pub const METHOD: &'static str = "supersigil/graphData";
}

/// Request type for per-document component trees.
#[derive(Debug)]
pub struct DocumentComponentsRequest;

impl DocumentComponentsRequest {
    pub const METHOD: &'static str = "supersigil/documentComponents";
}

/// Request type for `supersigil/documentList`.
#[derive(Debug)]
pub struct DocumentListRequest;

impl DocumentListRequest {
    pub const METHOD: &'static str = "supersigil/documentList";
}

/// Notification `supersigil/documentsChanged`, sent after re-indexing.
#[derive(Debug)]
pub struct DocumentsChanged;

impl DocumentsChanged {
    pub const METHOD: &'static str = "supersigil/documentsChanged";
}

/// The flat document list of the Spec Explorer tree view.
#[derive(Debug)]
pub struct DocumentListResult {
    pub documents: Vec<DocumentEntry>,
}

/// One document of the Spec Explorer tree view.
#[derive(Debug, Clone, PartialEq, Eq)]
pub struct DocumentEntry {
    pub id: String,
    pub doc_type: String,
    pub status: Option<String>,
    pub path: String,
    pub project: Option<String>,
}

/// A document of the graph as the document list reads it: its ID, its
/// declared type and status, its absolute path, and its project.
#[derive(Debug, Clone, PartialEq, Eq)]
pub struct DocumentRecord {
    pub id: String,
    pub doc_type: Option<String>,
    pub status: Option<String>,
    pub path: String,
    pub project: Option<String>,
}

/// What `Path::strip_prefix` makes of `path` relative to `base`, as text:
/// the rest of the path when `base` is a prefix of it component by
/// component.
pub uninterp spec fn path_strip_prefix(path: Seq<char>, base: Seq<char>) -> Option<Seq<char>>;

/// `path` relative to `base`, through `std::path::Path::strip_prefix`; the
/// contract claims only that the result is a function of the two texts.
#[verifier::external_body]
pub(crate) fn strip_path_prefix(path: &str, base: &str) -> (r: Option<String>)
    ensures
        match path_strip_prefix(path@, base@) {
            Some(p) => r matches Some(s) && s@ == p,
            None => r is None,
        },
{
    match std::path::Path::new(path).strip_prefix(base) {
        Ok(rest) => Some(rest.to_string_lossy().into_owned()),
        Err(_) => None,
    }
}

/// The list entry of a document: its path relative to `root` (the absolute
/// path when it is not under `root`) and an empty type when none is
/// declared.
pub open spec fn entry_of(d: DocumentRecord, root: Seq<char>) -> (Seq<char>, Seq<char>, Option<Seq<char>>, Seq<char>, Option<Seq<char>>) {
    (
        d.id@,
        match d.doc_type {
            Some(t) => t@,
            None => Seq::empty(),
        },
        match d.status {
            Some(s) => Some(s@),
            None => None,
        },
        match path_strip_prefix(d.path@, root) {
            Some(p) => p,
            None => d.path@,
        },
        match d.project {
            Some(p) => Some(p@),
            None => None,
        },
    )
}

/// The view of an entry.
pub open spec fn entry_view(e: DocumentEntry) -> (Seq<char>, Seq<char>, Option<Seq<char>>, Seq<char>, Option<Seq<char>>) {
    (
        e.id@,
        e.doc_type@,
        match e.status {
            Some(s) => Some(s@),
            None => None,
        },
        e.path@,
        match e.project {
            Some(p) => Some(p@),
            None => None,
        },
    )
}

/// The IDs of the records.
pub open spec fn record_ids(docs: Seq<DocumentRecord>) -> Seq<Seq<char>> {
    docs.map_values(|d: DocumentRecord| d.id@)
}

/// The entries of all documents, sorted by ID (stably).
pub open spec fn document_entries(docs: Seq<DocumentRecord>, root: Seq<char>) -> Seq<
    (Seq<char>, Seq<char>, Option<Seq<char>>, Seq<char>, Option<Seq<char>>),
> {
    sorted_selection(record_ids(docs), Seq::new(docs.len(), |i: int| true)).map_values(
        |e: (Seq<char>, int)| entry_of(docs[e.1], root),
    )
}

/// Copy an optional string.
fn clone_opt(o: &Option<String>) -> (r: Option<String>)
    ensures
        match *o {
            Some(s) => r matches Some(t) && t@ == s@,
            None => r is None,
        },
{
    match o {
        Some(s) => Some(s.clone()),
        None => None,
    }
}

/// Build the flat document list: one entry per document, paths relative
/// to `project_root`, sorted by ID.
pub fn build_document_entries(docs: &[DocumentRecord], project_root: &str) -> (r: Vec<DocumentEntry>)
    ensures
        r@.map_values(|e: DocumentEntry| entry_view(e)) == document_entries(docs@, project_root@),
{
    let mut labels: Vec<&str> = Vec::new();
    let mut sel: Vec<bool> = Vec::new();
    let mut i: usize = 0;
    while i < docs.len()
        invariant
            0 <= i <= docs@.len(),
            str_views(labels@) == record_ids(docs@).take(i as int),
            sel@.len() == i,
            forall|k: int| 0 <= k < i ==> #[trigger] sel@[k],
        decreases docs@.len() - i,
    {
        let ghost before = labels@;
        labels.push(docs[i].id.as_str());
        sel.push(true);
        proof {
            assert(str_views(labels@) =~= str_views(before).push(docs@[i as int].id@));
            assert(record_ids(docs@).take(i + 1) =~= record_ids(docs@).take(i as int).push(docs@[i as int].id@));
        }
        i = i + 1;
    }
    proof {
        assert(record_ids(docs@).take(docs@.len() as int) =~= record_ids(docs@));
        assert(sel@ =~= Seq::new(docs@.len(), |i: int| true));
    }
    let sorted = crate::completion_items::sort_selected_entries(&labels, &sel);
    let ghost ss = sorted_selection(record_ids(docs@), Seq::new(docs@.len(), |i: int| true));
    let mut out: Vec<DocumentEntry> = Vec::new();
    let mut k: usize = 0;
    while k < sorted.len()
        invariant
            0 <= k <= sorted@.len(),
            labels@.len() == docs@.len(),
            entry_views(sorted@) == ss,
            forall|m: int| 0 <= m < sorted@.len() ==> (#[trigger] sorted@[m]).1 < labels@.len(),
            out@.len() == k,
            forall|m: int| 0 <= m < k ==> entry_view(#[trigger] out@[m]) == entry_of(docs@[ss[m].1], project_root@),
        decreases sorted@.len() - k,
    {
        let d = &docs[sorted[k].1];
        proof {
            assert(entry_views(sorted@)[k as int] == (sorted@[k as int].0@, sorted@[k as int].1 as int));
        }
        let path = match strip_path_prefix(d.path.as_str(), project_root) {
            Some(p) => p,
            None => d.path.clone(),
        };
        let doc_type = match &d.doc_type {
            Some(t) => t.clone(),
            None => String::new(),
        };
        out.push(DocumentEntry {
            id: d.id.clone(),
            doc_type,
            status: clone_opt(&d.status),
            path,
            project: clone_opt(&d.project),
        });
        k = k + 1;
    }
    proof {
        assert(out@.map_values(|e: DocumentEntry| entry_view(e)) =~= document_entries(docs@, project_root@));
    }
    out
}

} // verus!
