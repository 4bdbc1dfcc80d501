//! Address spaces.

pub mod bytes;
pub mod memory_set;
pub mod page_table;
pub mod store;
