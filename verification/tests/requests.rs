use supersigil_lsp::requests::{
    ExplorerChangedNotification, ExplorerDocumentRequest, ExplorerSnapshotRequest,
    GraphDataRequest,
};

#[test]
fn request_methods_match_spec() {
    assert_eq!(ExplorerSnapshotRequest::METHOD, "supersigil/explorerSnapshot");
    assert_eq!(ExplorerDocumentRequest::METHOD, "supersigil/explorerDocument");
    assert_eq!(ExplorerChangedNotification::METHOD, "supersigil/explorerChanged");
}

#[test]
fn request_method_is_supersigil_graph_data() {
    assert_eq!(GraphDataRequest::METHOD, "supersigil/graphData");
}
