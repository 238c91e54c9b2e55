//! The discrete side of a force-directed graph layout.
//!
//! A layout engine moves the vertices of a graph under attraction,
//! repulsion and gravity while a temperature cools. Its coordinates are
//! floating-point numbers and stay with the engine. This library holds
//! what the engine builds on and what can be proved once and for all:
//!
//! - [`graph`]: the topology, in which every edge joins two existing
//!   vertices;
//! - [`text`] and [`loader`]: the reading of a graph from the lines of
//!   its description, with every fault reported as a value;
//! - [`schedule`]: the count of ticks against the iteration cap, the tick
//!   at which the run first cooled below its minimum, and the one
//!   announcement of how the run ended.

pub mod graph;
pub mod loader;
pub mod schedule;
pub mod text;
