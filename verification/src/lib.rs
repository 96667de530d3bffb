//! A spatial graph of nodes addressed by integer 3-D coordinates, with
//! shortest-route queries that respect a capability mask and a cost table.

pub mod cost;
pub mod graph;
pub mod laws;
pub mod neighbours;
pub mod node;
pub mod position;
pub mod route;
pub mod search;

pub use graph::Graph;
pub use node::{Node, NodeView, DISTANCE_MULTIPLIER};
pub use position::NodePosition;
pub use search::AstarError;
