//! Pane layout logic for a terminal workspace multiplexer: tiled and
//! floating layers, arrangements, popup geometry, fuzzy matching and
//! workspace path claims.

pub mod copy_search;
pub mod creation;
pub mod fuzzy;
pub mod geometry;
pub mod pane_borders;
pub mod pane_frame;
pub mod panes;
pub mod popup_size;
pub mod preview_ansi;
pub mod layout;
pub mod layout_api;
pub mod layout_apply;
pub mod pinned_path;
pub mod style;
pub mod tab;
pub mod text;
