//! Procedurally generated siege engine skeletons.
//!
//! A small template, drawn in ASCII or given as numbers, is parsed into a grid of
//! tiles with a ring of edge tiles around it. Its 3x3 patterns feed a wave
//! function collapse solver; a border rule pins the corners of every output to
//! the template's own corners and keeps border patterns out of its inside. The
//! solver's choice of pattern per cell is then turned back into tiles, wildcards
//! are filled from their neighbours, and the ring is stripped.
pub mod border;
pub mod catalog;
pub mod editor;
pub mod engine;
pub mod generator;
pub mod grid;
pub mod template;
pub mod text;
pub mod tile;

pub use border::{coord_is_edge, ForceBorderForbid, Pin};
pub use editor::{editor_step, Action, NewBeam, Status};
pub use engine::Engine;
pub use generator::Generator;
pub use template::TemplateError;
pub use tile::{Material, Tile};
