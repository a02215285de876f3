//! Terminal data: waypoints and procedures.

pub mod leg_fixes;
pub mod leg_rows;
pub mod legs;
pub mod procedures;
pub mod tpoints;
