//! Verified core of a Lineage II geodata editor.
//!
//! The crate holds everything that decides or computes: the editable geodata
//! document and its file formats, selection and routing over the cell grid,
//! overlay scheduling, the editor's session state, remembered settings,
//! release selection, and the reader of Unreal packages. Drawing, windows,
//! files and the network are left to the program around it.

#![allow(unused_imports)]

pub mod area_laws;
pub mod chunks;
pub mod editor;
pub mod editor_laws;
pub mod error;
pub mod heap;
pub mod icons;
pub mod input;
pub mod l2j;
pub mod line;
pub mod media_laws;
pub mod navigation;
pub mod overlay;
pub mod overlay_cache;
pub mod overlay_cells;
pub mod overlay_drawing_laws;
pub mod overlay_laws;
pub mod panel;
pub mod path;
pub mod path_laws;
pub mod picking;
pub mod project;
pub mod project_laws;
pub mod route;
pub mod route_laws;
pub mod route_walks;
pub mod scene;
pub mod selection;
pub mod selection_laws;
pub mod session;
pub mod session_laws;
pub mod settings_laws;
pub mod status;
pub mod text;
pub mod ui;
pub mod unreal;
pub mod update;
pub mod update_laws;
pub mod upload;
