//! A typed, hierarchical configuration store.
//!
//! Configuration values form a tree: a [`domain::Table`] maps string keys to
//! [`domain::Node`] values, and a node may itself hold a nested table. Values
//! are addressed by dot-separated paths, tables from different sources are
//! combined by a deep merge, and typed accessors project the variant a caller
//! expects.

pub mod assoc;
pub mod domain;
pub mod env;
pub mod error;
pub mod reader;
