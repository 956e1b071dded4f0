//! Graph storage in two interchangeable representations, and the collection
//! of the geometry that a renderer paints for a graph.

pub mod graph;
pub mod gui;
pub mod edge_list;
pub mod matrix;
