# supersigil-lsp

The language server of Supersigil, whose spec documents are Markdown files
with structured components in `supersigil-xml` fences.

- `src/` is the library, verified with Verus: locating refs, component
  names, IDs, fences and frontmatter in a document; converting between byte
  offsets and LSP UTF-16 positions; completion, hover, outline, code lens,
  rename and reference targets; turning parse, graph and verification
  errors into diagnostics; the quick fixes the server offers for them; and
  the server's bookkeeping decisions: where a file's parse goes, how open
  buffers are laid over the files on disk after a watch event, and which
  documents the Spec Explorer is told changed.
  Each public function states in its contract what it returns.
- `app/` is the server around it: the protocol loop, the open buffers,
  reading files, the document graph and the verifier, and the conversions
  between the library's values and the protocol's.
- `tests/` runs the library on concrete documents.
