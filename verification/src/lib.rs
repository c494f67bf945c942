//! Language-server integration for a Markdown editor: a verified JSON-RPC
//! codec, a process-backed client core, an embedded Markdown analyzer, a
//! backend registry with one poll surface, and the editor-side data the
//! rest of the application works with.

pub mod analyzer;
pub mod backend;
pub mod client;
pub mod codec;
pub mod config;
pub mod cursor;
pub mod diagnostics;
pub mod dialog;
pub mod doc;
pub mod document_type;
pub mod events;
pub mod file_browser;
pub mod file_type;
pub mod history;
pub mod ids;
pub mod json;
pub mod line_analyzer;
pub mod manager;
pub mod navigation;
pub mod query_dialog;
pub mod renderer;
pub mod search_dialog;
pub mod slug;
pub mod text;
