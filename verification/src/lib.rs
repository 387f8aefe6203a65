//! The logic of a terminal disk usage visualizer: the scanned tree and its
//! sizes, the renderers that turn it into styled rows, the embedded text
//! editor, the permission inspector and the state machine behind the
//! interactive screens. Every function here is verified.

pub mod binary64;
pub mod bytes;
pub mod cli;
pub mod config;
pub mod display;
pub mod editor;
pub mod figures;
pub mod keys;
pub mod layout;
pub mod lists;
pub mod order;
pub mod paths;
pub mod plain;
pub mod shares;
pub mod splash;
pub mod stamp;
pub mod style;
pub mod tallies;
pub mod text;
pub mod tui;
pub mod walker;
