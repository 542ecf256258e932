//! Value types shared by the whole tracker: info hashes, peer ids,
//! addresses and the peer record kept per swarm member.

use vstd::prelude::*;

verus! {

/// A torrent's 20-byte identifier, held as three machine words
/// (the first 8 bytes, the next 8, the last 4). Equality is bytewise.
#[derive(Clone, Copy, PartialEq, Eq, Structural, Debug, Hash)]
pub struct InfoHash {
    pub w0: u64,
    pub w1: u64,
    pub w2: u32,
}

/// A client instance's 20-byte identifier, unique within one swarm.
#[derive(Clone, Copy, PartialEq, Eq, Structural, Debug, Hash)]
pub struct PeerId {
    pub w0: u64,
    pub w1: u64,
    pub w2: u32,
}

/// An IP address as plain integers.
#[derive(Clone, Copy, PartialEq, Eq, Structural, Debug, Hash)]
pub enum IpAddress {
    V4(u32),
    V6(u128),
}

impl IpAddress {
    pub open spec fn is_v4(self) -> bool {
        matches!(self, IpAddress::V4(_))
    }
}

/// The event field of an announce.
#[derive(Clone, Copy, PartialEq, Eq, Structural, Debug, Hash)]
pub enum AnnounceEvent {
    NoEvent,
    Started,
    Completed,
    Stopped,
}

/// One swarm member: identity, endpoint, progress counters, the last
/// announced event and the time of the last update (whole seconds).
#[derive(Clone, Copy, PartialEq, Eq, Structural, Debug)]
pub struct Peer {
    pub peer_id: PeerId,
    pub ip: IpAddress,
    pub port: u16,
    pub updated: u64,
    pub uploaded: u64,
    pub downloaded: u64,
    pub left: u64,
    pub event: AnnounceEvent,
}

impl Peer {
    /// A peer that has nothing left to download seeds; any other leeches.
    pub open spec fn is_seeder(self) -> bool {
        self.left == 0
    }
}

} // verus!
