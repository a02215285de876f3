//! Conversion of navigation data into the databases of flight simulators, and comparison of such
//! databases.
//!
//! The library decides and computes; files, databases and floating-point numbers are handled by the
//! program around it, which hands in plain values and takes plain values back. A real number is
//! carried as a checked literal or as the bit pattern of a double-precision value.

pub mod airports;
pub mod compare;
pub mod config;
pub mod db;
pub mod decode;
pub mod double;
pub mod enroute;
pub mod keyed;
pub mod magnetic;
pub mod matchers;
pub mod names;
pub mod numeric;
pub mod parsers;
pub mod records;
pub mod ref_tables;
pub mod regions;
pub mod sorting;
pub mod steps;
pub mod tables;
pub mod terminal;
pub mod text;
