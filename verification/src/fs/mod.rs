//! Open files and the names by which a process knows them.

pub mod file;
pub mod name_table;
