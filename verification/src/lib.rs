//! Text analysis behind the Supersigil language server: locating refs,
//! component tags, fences and frontmatter in spec documents, and mapping
//! between byte offsets and LSP UTF-16 positions.

pub mod code_actions;
pub mod code_lens;
pub mod completion;
pub mod completion_items;
pub mod create_document;
pub mod component_defs;
pub mod config;
pub mod definition;
pub mod diagnostics;
pub mod document_symbols;
pub mod explorer;
pub mod fence;
pub mod hover;
pub mod navigation;
pub mod numerals;
pub mod frontmatter;
pub mod position;
pub mod references;
pub mod requests;
pub mod sorting;
pub mod rename;
pub mod rename_edits;
pub mod reload;
pub mod report;
pub mod text;
pub mod tokens;
pub mod unicode;
pub mod urls;

pub use fence::is_in_supersigil_fence;
