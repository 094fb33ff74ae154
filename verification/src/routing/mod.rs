//! Routing decisions.

pub mod path_table;
