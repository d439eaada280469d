//! Identifiers and small value types shared by every component.
//!
//! A peer is identified by its public key and a resource (a repository) by a
//! stable identifier; both are carried here as plain integers, the shape the
//! protocol core needs to key its tables. The key and identifier formats
//! themselves are outside the core's scope.

use vstd::prelude::*;

verus! {

/// A peer identity: the value of the node's public key.
#[derive(PartialEq, Eq, Structural, Clone, Copy, Debug, Hash)]
pub struct NodeId(pub u64);

/// A stable identifier of a resource (a repository) that peers can host.
#[derive(PartialEq, Eq, Structural, Clone, Copy, Debug, Hash)]
pub struct ResourceId(pub u64);

/// A network address a peer can be dialed at: an IPv4 host and a port.
#[derive(PartialEq, Eq, Structural, Clone, Copy, Debug, Hash)]
pub struct HostAddr {
    pub ip: u32,
    pub port: u16,
}

/// The value of a signature over a frame's payload. Producing and checking
/// signatures is a capability of the edge; the core only carries the value.
#[derive(PartialEq, Eq, Structural, Clone, Copy, Debug)]
pub struct Signature(pub u64);

} // verus!
