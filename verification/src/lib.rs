//! The combinatorial core of an interactive force-directed graph layout:
//! a graph store, an all-pairs hop-distance table, and the controller that
//! keeps the per-vertex arrays in step with the graph while a pointer
//! creates, merges, deletes and drags vertices.
//!
//! Everything here works on integers and booleans. Positions, forces and
//! colours are carried as opaque per-vertex values; the arithmetic on them
//! belongs to the caller.

pub mod distance;
pub mod force_plot;
pub mod graph;
pub mod mouse;
