//! An in-memory mirror of a hierarchical key/value store (the Windows
//! registry): an arena-based tree of named nodes with typed values, a
//! path index for O(1) lookup by full path, a typed-value decoder with
//! lossy UTF-16 truncation semantics, and JSON / text projections.

pub mod arena;
pub mod assoc;
pub mod data;
pub mod index;
pub mod item;
pub mod path;
pub mod projector;
pub mod registry_tree;
pub mod strip;
pub mod text;
pub mod tree;
pub mod utf16;
