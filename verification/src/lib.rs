//! A generic in-memory tree of owned nodes with two whole-tree traversal
//! protocols: pre-order top-down visitation (`bubble_down`) and post-order
//! bottom-up visitation (`bubble_up`).
//!
//! Every node holds a payload (`props`) and an ordered sequence of owned
//! child nodes. A traversal invokes a stateful [`Visitor`](node::Visitor)
//! once per node, handing it the node's position among its parent's
//! children (`None` for the root) together with mutable access to the
//! node's payload and read access to its children.

pub mod laws;
pub mod node;
pub mod visitors;

pub use node::NodeModel;
pub use node::RusxNode;
pub use node::Visitor;
pub use visitors::AddOneVisitor;
pub use visitors::NoOpVisitor;
pub use visitors::RecordVisitor;
pub use visitors::SumChildrenVisitor;
