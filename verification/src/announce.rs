//! The announce service's request and response values, and the policies
//! that shape them: the peer-list cap, the clamping of `numwant`, and the
//! rule that the stored address is always the resolver's, never a field of
//! the request.

use vstd::prelude::*;
use crate::peer::{AnnounceEvent, InfoHash, IpAddress, Peer, PeerId};
use crate::stats::TrackerEvent;

verus! {

/// The most peers an announce response ever carries, and the default
/// when the request does not ask for a number.
pub const MAX_PEER_LIST_LEN: u32 = 74;

/// An announce, already decoded and with every field validated by the
/// transport codec. The client-supplied address field of the wire formats
/// is deliberately absent: the stored address is the resolver's.
#[derive(Clone, Copy, PartialEq, Eq, Structural, Debug)]
pub struct AnnounceRequest {
    pub info_hash: InfoHash,
    pub peer_id: PeerId,
    pub port: u16,
    pub uploaded: u64,
    pub downloaded: u64,
    pub left: u64,
    pub event: AnnounceEvent,
    pub numwant: Option<u32>,
}

/// What an admitted announce is answered with.
#[derive(PartialEq, Eq, Debug)]
pub struct AnnounceResponse {
    pub interval: u32,
    pub min_interval: u32,
    pub seeders: u32,
    pub leechers: u32,
    pub peers: Vec<Peer>,
}

/// How many peers the request is owed: the default, or its own wish
/// clamped to the cap.
pub open spec fn effective_numwant(numwant: Option<u32>) -> usize {
    match numwant {
        None => MAX_PEER_LIST_LEN as usize,
        Some(n) => if n > MAX_PEER_LIST_LEN {
            MAX_PEER_LIST_LEN as usize
        } else {
            n as usize
        },
    }
}

pub fn clamp_numwant(numwant: Option<u32>) -> (r: usize)
    ensures
        r == effective_numwant(numwant),
        r <= MAX_PEER_LIST_LEN,
{
    match numwant {
        None => MAX_PEER_LIST_LEN as usize,
        Some(n) => if n > MAX_PEER_LIST_LEN {
            MAX_PEER_LIST_LEN as usize
        } else {
            n as usize
        },
    }
}

/// The peer record an announce stores: the request's identity and counters,
/// the resolver's address, the current time.
pub open spec fn peer_from_announce(req: AnnounceRequest, ip: IpAddress, now: u64) -> Peer {
    Peer {
        peer_id: req.peer_id,
        ip,
        port: req.port,
        updated: now,
        uploaded: req.uploaded,
        downloaded: req.downloaded,
        left: req.left,
        event: req.event,
    }
}

pub fn build_peer(req: &AnnounceRequest, ip: IpAddress, now: u64) -> (r: Peer)
    ensures
        r == peer_from_announce(*req, ip, now),
{
    Peer {
        peer_id: req.peer_id,
        ip,
        port: req.port,
        updated: now,
        uploaded: req.uploaded,
        downloaded: req.downloaded,
        left: req.left,
        event: req.event,
    }
}

/// The statistics event an accepted announce produces.
pub open spec fn announce_event_of(ip: IpAddress, left: u64) -> TrackerEvent {
    match ip {
        IpAddress::V4(_) => if left == 0 {
            TrackerEvent::Announce4Seeder
        } else {
            TrackerEvent::Announce4Leecher
        },
        IpAddress::V6(_) => if left == 0 {
            TrackerEvent::Announce6Seeder
        } else {
            TrackerEvent::Announce6Leecher
        },
    }
}

pub fn event_for_announce(ip: &IpAddress, left: u64) -> (r: TrackerEvent)
    ensures
        r == announce_event_of(*ip, left),
{
    match ip {
        IpAddress::V4(_) => if left == 0 {
            TrackerEvent::Announce4Seeder
        } else {
            TrackerEvent::Announce4Leecher
        },
        IpAddress::V6(_) => if left == 0 {
            TrackerEvent::Announce6Seeder
        } else {
            TrackerEvent::Announce6Leecher
        },
    }
}

/// A count squeezed onto the 32-bit wire fields, saturating.
pub open spec fn sat_u32(n: int) -> u32 {
    if n > u32::MAX {
        u32::MAX
    } else {
        n as u32
    }
}

pub fn count_to_u32(n: usize) -> (r: u32)
    ensures
        r == sat_u32(n as int),
{
    if n > u32::MAX as usize {
        u32::MAX
    } else {
        n as u32
    }
}

} // verus!
