//! A depth-bounded minimax search engine over an abstract decision graph,
//! with per-vertex memoization that is reused when the search is re-rooted.
pub mod binary_tree;
pub mod cached_iter;
pub mod children_iter;
pub mod children_iterator;
pub mod minmax;
pub mod node;
pub mod vertex;
pub mod vertex_cached;

pub use binary_tree::BinaryVertex;
pub use minmax::{MinMax, NodeData, NodeKind, Score};
pub use node::Node;
pub use vertex::Vertex;
pub use vertex_cached::VertexCached;
