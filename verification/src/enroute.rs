//! Enroute data: airways, waypoints and radio navigation aids.

pub mod airway_assembly;
pub mod airway_points;
pub mod airway_rows;
pub mod airway_table;
pub mod airways;
pub mod epoints;
pub mod gs;
pub mod ndbs;
pub mod route_merge;
pub mod vhfs;
