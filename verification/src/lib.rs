//! A directory-tree file renamer core: traversal bookkeeping, candidate
//! selection by case-insensitive extension, deterministic ordering, and
//! per-file rename outcome accounting. All filesystem and terminal work is
//! left to the surrounding binary; this crate holds the decisions.

pub mod text;
pub mod fspath;
pub mod order;
pub mod collect;
pub mod execute;
pub mod config;
