//! A small text editor.
//!
//! The state of the editor is `state::Editor`, and `state::EditorView` is what contracts say about
//! it. A key that was read (`keys::decode_key`) is processed by `Editor::run`, which returns what
//! is to be done outside. `Editor::refresh_screen` draws the screen.
//!
//! What holds of the editor as a whole is stated in `laws` and in the modules whose names end with
//! `_laws`.
pub mod ansi_escape;
pub mod command;
pub mod config;
pub mod cursor;
pub mod document;
pub mod draw;
pub mod edit;
pub mod exchange;
pub mod exchange_laws;
pub mod execute;
pub mod file;
pub mod find;
pub mod highlight_laws;
pub mod json;
pub mod key_laws;
pub mod keys;
pub mod laws;
pub mod motion;
pub mod prompt;
pub mod prompt_laws;
pub mod remote;
pub mod row;
pub mod row_laws;
pub mod rows;
pub mod screen_laws;
pub mod search;
pub mod search_laws;
pub mod session;
pub mod session_laws;
pub mod size;
pub mod state;
pub mod step;
pub mod syntax;
pub mod text;
pub mod text_laws;
