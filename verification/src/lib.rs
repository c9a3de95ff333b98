//! A terminal mind-map editor's document model and key-driven state machine,
//! with Mermaid `.mmd` reading and writing.
pub mod text;
pub mod model;
pub mod cursor;
pub mod editor;
pub mod mermaid;
pub mod markdown;
pub mod geometry;
pub mod edges;
pub mod laws;
pub mod round_trip;
pub mod files;
