//! Core model of a 2D rail-building sandbox: an undirected multigraph of
//! track nodes and edges, the interactive editor state machine that grows
//! and prunes it, snap-to-node attraction, train placement along edges,
//! and a per-tick building resource simulation.
//!
//! Geometry is integer-valued: positions are pairs of `i64` world units and
//! every distance is the floor of the Euclidean distance. Rendering, input
//! and windowing are external collaborators; this crate only exchanges
//! plain values and events with them.

pub mod building;
pub mod editor;
pub mod graph;
pub mod marks;
pub mod num;
pub mod tools;
pub mod train;
