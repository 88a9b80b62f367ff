//! Verified core of a desktop front end for the `handlr` MIME-association CLI:
//! undo/redo command pairs, the handler tree model, output shaping and config handling.

pub mod app_state;
pub mod config;
pub mod handlr;
pub mod model;
pub mod row_actions;
pub mod sort;
pub mod tester;
pub mod text;
pub mod tree_view;
pub mod undo;
