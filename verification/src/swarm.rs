use vstd::prelude::*;

pub mod discovery;
pub mod node;

pub use discovery::PeerDiscovery;
pub use node::SwarmNodeManager;

verus! {

/// What a machine of the swarm can offer.
#[derive(Debug, Clone, Copy, PartialEq, Eq, Structural)]
pub struct NodeCapabilities {
    pub gpu_memory_gb: Option<u32>,
    pub cpu_cores: u32,
    pub available: bool,
}

/// A machine of the swarm.
#[derive(Debug, Clone)]
pub struct SwarmNode {
    pub peer_id: String,
    pub address: String,
    pub capabilities: NodeCapabilities,
}

/// Why the swarm could not be used.
#[derive(Debug, Clone, Copy, PartialEq, Eq, Structural)]
pub enum SwarmError {
    /// The network could not be reached.
    Unreachable,
}

} // verus!
