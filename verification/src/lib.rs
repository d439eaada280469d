//! Runtime of a peer-to-peer code-collaboration node.
//!
//! The library holds the verified core of the node: the peer routing table
//! (which providers host which resources), the address book (how to reach
//! peers, with reachability scoring), the wire codec and per-connection
//! transport buffers, the event-driven service state machine that ties them
//! together, and the client runtime that owns the command and shutdown
//! channels. Socket I/O, signing and store files live at the edge, outside
//! this crate; the service receives plain events and emits plain actions.

pub mod ids;
pub mod clock;
pub mod routing;
pub mod address;
pub mod wire;
pub mod transport;
pub mod service;
pub mod client;
pub mod issue;
