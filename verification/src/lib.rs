//! A minimal runtime for nodes of a line-oriented, JSON-encoded
//! message-passing protocol: the wire message model, a verified codec for it,
//! a handler registry with a dispatch step, and the built-in handlers.

pub mod codec;
pub mod json;
pub mod node;
pub mod wire;

pub use node::Handler;
pub use node::Node;
pub use node::NodeState;
pub use wire::Body;
pub use wire::Message;
pub use wire::Payload;
