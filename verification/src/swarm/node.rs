use crate::swarm::{NodeCapabilities, SwarmError, SwarmNode};
use crate::vault::{fresh_id, is_uuid_text};
use vstd::prelude::*;

verus! {

/// The first position at or after `k` that holds the machine `id`; the
/// length if there is none.
pub open spec fn peer_position(peers: Seq<SwarmNode>, id: Seq<char>, k: int) -> int
    decreases peers.len() - k + 1,
{
    if k < 0 || k >= peers.len() {
        peers.len() as int
    } else if peers[k].peer_id@ == id {
        k
    } else {
        peer_position(peers, id, k + 1)
    }
}

/// What the machine `id` offers, if it is among `peers`.
pub open spec fn capabilities_of(peers: Seq<SwarmNode>, id: Seq<char>) -> Option<NodeCapabilities> {
    let i = peer_position(peers, id, 0);
    if i < peers.len() {
        Some(peers[i].capabilities)
    } else {
        None
    }
}

/// This machine's place in the swarm, and the machines it is connected to.
pub struct SwarmNodeManager {
    local_peer_id: String,
    connected_peers: Vec<SwarmNode>,
}

impl SwarmNodeManager {
    /// The id of this machine.
    pub closed spec fn local_id(&self) -> Seq<char> {
        self.local_peer_id@
    }

    /// The machines that this one is connected to.
    pub closed spec fn peers(&self) -> Seq<SwarmNode> {
        self.connected_peers@
    }

    /// A manager for this machine under an id drawn at random, a UUID in
    /// text, connected to no other.
    pub fn new() -> (r: Result<Self, SwarmError>)
        ensures
            r is Ok,
            is_uuid_text(r.unwrap().local_id()),
            r.unwrap().peers().len() == 0,
    {
        Ok(SwarmNodeManager { local_peer_id: fresh_id(), connected_peers: Vec::new() })
    }

    /// The id of this machine.
    pub fn local_peer_id(&self) -> (r: &String)
        ensures
            r@ == self.local_id(),
    {
        &self.local_peer_id
    }

    /// Joins the swarm. Nothing is joined yet.
    pub fn start(&mut self) -> (r: Result<(), SwarmError>)
        ensures
            r is Ok,
            final(self).local_id() == old(self).local_id(),
            final(self).peers() == old(self).peers(),
    {
        Ok(())
    }

    /// The machines found in the local network. None is found yet.
    pub fn discover_peers(&mut self) -> (r: Result<Vec<SwarmNode>, SwarmError>)
        ensures
            r is Ok,
            r.unwrap().len() == 0,
            final(self).local_id() == old(self).local_id(),
            final(self).peers() == old(self).peers(),
    {
        Ok(Vec::new())
    }

    /// What the connected machine `peer_id` offers.
    pub fn get_node_capabilities(&self, peer_id: &str) -> (r: Option<NodeCapabilities>)
        ensures
            r == capabilities_of(self.peers(), peer_id@),
    {
        let key = peer_id.to_owned();
        let mut i: usize = 0;
        while i < self.connected_peers.len()
            invariant
                i <= self.connected_peers.len(),
                key@ == peer_id@,
                peer_position(self.connected_peers@, key@, 0) == peer_position(
                    self.connected_peers@,
                    key@,
                    i as int,
                ),
            decreases self.connected_peers.len() - i,
        {
            if self.connected_peers[i].peer_id == key {
                return Some(self.connected_peers[i].capabilities);
            }
            i += 1;
        }
        None
    }
}

} // verus!
