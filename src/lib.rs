//! Incremental, budgeted A* path search over an implicitly given graph,
//! with the small client-side data types around it.

pub mod addr;
pub mod astar;
pub mod character;
pub mod frontier;
pub mod model;
pub mod path;
pub mod visited;
