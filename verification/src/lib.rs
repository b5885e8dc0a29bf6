//! Nodes that talk to each other in messages, one JSON object per line, and
//! the protocols they run: echo, unique ids, and the broadcast of values by
//! gossip.
//!
//! The library decides; it reads and writes nothing. A runtime hands a node
//! every input, one at a time, and puts on the wire what the node hands
//! back. Each protocol is stated over a mathematical model, and the gossip
//! protocol is proved to bring every value to every node.

pub mod cluster;
pub mod echo;
pub mod gossip;
pub mod gossip_node;
pub mod message;
pub mod names;
pub mod node;
pub mod serial;
pub mod topology;
pub mod unique_ids;
pub mod values;
