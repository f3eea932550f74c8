//! Verified core logic of the Steer coding agent: chat scrolling state,
//! viewport layout, conversation branch visibility, inline attachments,
//! and the workspace edit engine.

pub mod chat_list_state;
pub mod text;
pub mod ops;
pub mod error;
pub mod edit;
pub mod edit_laws;
pub mod viewport;
pub mod height_cache;
pub mod chat_store;
pub mod branch;
pub mod tui;
pub mod attachments;
pub mod environment;
pub mod read_file;
pub mod search;
pub mod astgrep;
pub mod remote;
pub mod media;
pub mod headless;
pub mod flatten;
pub mod restore;
pub mod rebuild;
pub mod blocks;
pub mod slash;
pub mod row_widget;
