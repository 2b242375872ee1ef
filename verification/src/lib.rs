//! The editing core of a small text editor: piece-table documents, line
//! indexing, encodings, searching, and the layout and input rules of its window.

pub mod app;
pub mod app_laws;
pub mod canvas;
pub mod command_laws;
pub mod commands;
pub mod date_time;
pub mod dialog;
pub mod document;
pub mod draw;
pub mod draw_laws;
pub mod edit_laws;
pub mod encoding;
pub mod error;
pub mod file_laws;
pub mod frame;
pub mod glyphs;
pub mod gui;
pub mod input;
pub mod jobs;
pub mod keys;
pub mod line_index;
pub mod measure_laws;
pub mod menu;
pub mod menu_laws;
pub mod mouse;
pub mod picture;
pub mod picture_laws;
pub mod piece_table;
pub mod pointer;
pub mod pointer_laws;
pub mod print;
pub mod reindex;
pub mod ruler;
pub mod save_laws;
pub mod scan;
pub mod scroll;
pub mod search;
pub mod search_laws;
pub mod session_laws;
pub mod settings;
pub mod sketch;
pub mod sorting;
pub mod text;
pub mod text_units;
pub mod ui;
pub mod undo_laws;
pub mod view_laws;
pub mod web;
pub mod window_laws;
pub mod windows;
pub mod wrap;

pub use app::BlitzApp;
pub use document::Document;
pub use error::{io_path, BlitzError, Result};
pub use line_index::{detect_line_ending, normalize_line_endings, LineEnding, LineIndex};
