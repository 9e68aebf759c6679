//! Verified core of a canvas-based code editor: the line buffer, the
//! reversible edit history, cursor and selection handling, and the
//! language-server plumbing that keeps a mirror of each open document.

pub mod chars;
pub mod lines;
pub mod buffer;
pub mod edit;
pub mod history;
pub mod wrapping;
pub mod editor;
pub mod decimal;
pub mod types;
pub mod text_model;
pub mod textutil;
pub mod lsp_config;
pub mod laws;
pub mod protocol;
pub mod width;
pub mod workspace;
pub mod focus;
pub mod tabs;
pub mod keys;
pub mod completion;
pub mod hover;
pub mod search;
pub mod paths;
pub mod probe;
