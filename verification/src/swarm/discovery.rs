use crate::swarm::SwarmError;
use vstd::prelude::*;

verus! {

/// Finds the machines of the swarm in the local network. It finds none yet.
pub struct PeerDiscovery {}

impl PeerDiscovery {
    /// A discovery that has not begun.
    pub fn new() -> (r: Result<Self, SwarmError>)
        ensures
            r is Ok,
    {
        Ok(PeerDiscovery {})
    }

    /// Begins to look for machines. Nothing is looked for yet.
    pub fn start_discovery(&mut self) -> (r: Result<(), SwarmError>)
        ensures
            r is Ok,
    {
        Ok(())
    }
}

} // verus!
