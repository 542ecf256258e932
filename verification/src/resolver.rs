//! The reverse-proxy address resolver. Behind a proxy the socket address
//! is untrusted and only the right-most trusted forwarded-for entry counts;
//! in direct mode it is the other way round. The transport parses headers
//! and sockets and hands in whatever addresses it found.

use vstd::prelude::*;
use crate::errors::TrackerError;
use crate::peer::IpAddress;

verus! {

/// What the transport knows about where a request came from.
#[derive(Clone, Copy, PartialEq, Eq, Structural, Debug)]
pub struct RemoteClientIp {
    /// The right-most trusted entry of the forwarded-for chain, if present
    /// and well-formed.
    pub right_most_x_forwarded_for: Option<IpAddress>,
    /// The peer address of the socket the request arrived on.
    pub connection_ip: Option<IpAddress>,
}

/// The address the tracker must attribute the request to.
pub open spec fn resolved_ip(on_reverse_proxy: bool, remote: RemoteClientIp) -> Result<
    IpAddress,
    TrackerError,
> {
    if on_reverse_proxy {
        match remote.right_most_x_forwarded_for {
            Some(ip) => Ok(ip),
            None => Err(TrackerError::MissingOrInvalidRemoteIp),
        }
    } else {
        match remote.connection_ip {
            Some(ip) => Ok(ip),
            None => Err(TrackerError::MissingOrInvalidRemoteIp),
        }
    }
}

/// Resolve the client address, never trusting the socket when proxied.
pub fn resolve(on_reverse_proxy: bool, remote: &RemoteClientIp) -> (r: Result<
    IpAddress,
    TrackerError,
>)
    ensures
        r == resolved_ip(on_reverse_proxy, *remote),
{
    if on_reverse_proxy {
        match remote.right_most_x_forwarded_for {
            Some(ip) => Ok(ip),
            None => Err(TrackerError::MissingOrInvalidRemoteIp),
        }
    } else {
        match remote.connection_ip {
            Some(ip) => Ok(ip),
            None => Err(TrackerError::MissingOrInvalidRemoteIp),
        }
    }
}

} // verus!
