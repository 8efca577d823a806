//! A fixed-capacity dataflow engine: nodes run one synchronous tick at a time
//! and read only what their sources published on the tick before.
mod count;
mod graph;
mod node;
mod processor;

pub use graph::{edge_in_bounds, node_tick, NodeHandle, StaticGraph};
pub use node::{all_default, is_default, is_empty_node, Node};
pub use processor::{input_value, input_values, Processor};
