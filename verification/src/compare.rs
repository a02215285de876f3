//! Comparing two databases table by table.

pub mod report;
pub mod rows;
pub mod schema_diff;
pub mod tables;
