//! A dialogue-graph engine: nodes of prompt text joined by labelled links,
//! loaded from and saved to a YAML document, and walked one step at a time.

pub mod error;
pub mod exporter;
pub mod importer;
pub mod link;
pub mod node;
pub mod tree;
pub mod yaml;

pub use link::Link;
pub use node::Node;
pub use tree::{CTree, TreeError};
