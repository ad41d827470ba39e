//! Per-frame visibility selection: which entities a camera sees, split into
//! an unordered opaque set and a back-to-front ordered transparent list.
mod bitset;
pub mod camera;
pub mod entity;
pub mod laws;
pub mod order;
pub mod system;

pub use bitset::{bits_of, MAX_INDEX};
pub use entity::Entity;
