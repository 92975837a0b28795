//! Eulerian trails on undirected graphs.
//!
//! The crate models a finite undirected multigraph with labelled vertices,
//! decides whether the graph passes the Eulerian-trail feasibility test
//! (the graph contains a cycle and has exactly zero or two odd-degree
//! vertices), and constructs a trail with the first-available variant of
//! Fleury's algorithm: starting from the lower-degree odd vertex (or the
//! first vertex when all degrees are even), it repeatedly consumes the
//! first remaining edge at the current vertex and records the pair of
//! vertex labels it walked over.
//!
//! The modules: `graph` holds the mutable multigraph and its queries;
//! `analyzer` classifies degree parity and gives the feasibility answer;
//! `connectivity` decides true connectivity of the non-isolated vertices,
//! which the feasibility policy deliberately approximates by cyclicity;
//! `fleury` builds the trail; `laws` states and proves the properties
//! that tie them together.

pub mod analyzer;
pub mod connectivity;
pub mod fleury;
pub mod graph;
pub mod laws;

pub use graph::Graph;
pub use graph::GraphError;
