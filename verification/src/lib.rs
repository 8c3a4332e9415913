//! Recursively rewrites the keys of a tree-structured value (objects nested
//! in objects and arrays, plus scalar leaves) into a target naming
//! convention, with optional per-key manual overrides.
//!
//! The whole system is one pure function over [`TreeValue`] plus its
//! configuration: a [`CaseConvention`], a [`RenameTable`] of manual renames,
//! and a [`RenameBehavior`] saying which side of the table matches a key.
//! Output trees are structurally congruent to their input — same nesting,
//! same array lengths and order, same leaf values — with only object key
//! strings rewritten; sibling keys that resolve to the same output key merge
//! with last-write-wins. The `laws` module states and proves these
//! guarantees.

pub mod convention;
pub mod converter;
pub mod laws;
pub mod omap;
pub mod rename;
pub mod value;

pub use convention::CaseConvention;
pub use converter::CaseChanger;
pub use rename::{RenameBehavior, RenameTable};
pub use value::TreeValue;
