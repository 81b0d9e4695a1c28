//! The environment facade over one configuration table.

pub mod standard;
