//! The tracker's error taxonomy. Every rejection the core can produce is
//! one of these; the transports render them in their native failure shape.

use vstd::prelude::*;

verus! {

#[derive(Clone, Copy, PartialEq, Eq, Structural, Debug, Hash)]
pub enum TrackerError {
    // authentication
    MissingKey,
    UnknownKey,
    ExpiredKey,
    // authorization
    InfoHashNotWhitelisted,
    // request
    MissingOrInvalidRemoteIp,
    MalformedInfoHash,
    MalformedPeerId,
    InvalidPort,
    InvalidNumber,
    // protocol
    ConnectionIdInvalid,
    ProtocolMagicInvalid,
    ShortPacket,
    // admin
    InvalidToken,
}

impl TrackerError {
    /// The failure reason a client is shown. The connection-id text keeps
    /// the wire-compatible historical spelling, which the contract pins.
    pub fn message(&self) -> (r: &'static str)
        ensures
            (*self) is ConnectionIdInvalid <==> r@ == "Connection ID missmatch"@,
    {
        proof {
            reveal_strlit("Connection ID missmatch");
            reveal_strlit("missing authentication key");
            reveal_strlit("unknown authentication key");
            reveal_strlit("expired authentication key");
            reveal_strlit("info hash not whitelisted");
            reveal_strlit("missing or invalid remote ip");
            reveal_strlit("malformed info hash");
            reveal_strlit("malformed peer id");
            reveal_strlit("invalid port");
            reveal_strlit("invalid number");
            reveal_strlit("invalid protocol magic");
            reveal_strlit("short packet");
            reveal_strlit("invalid admin token");
            assert("Connection ID missmatch"@.len() == 23);
            assert("missing authentication key"@.len() == 26);
            assert("unknown authentication key"@.len() == 26);
            assert("expired authentication key"@.len() == 26);
            assert("info hash not whitelisted"@.len() == 25);
            assert("missing or invalid remote ip"@.len() == 28);
            assert("malformed info hash"@.len() == 19);
            assert("malformed peer id"@.len() == 17);
            assert("invalid port"@.len() == 12);
            assert("invalid number"@.len() == 14);
            assert("invalid protocol magic"@.len() == 22);
            assert("short packet"@.len() == 12);
            assert("invalid admin token"@.len() == 19);
        }
        match self {
            TrackerError::MissingKey => "missing authentication key",
            TrackerError::UnknownKey => "unknown authentication key",
            TrackerError::ExpiredKey => "expired authentication key",
            TrackerError::InfoHashNotWhitelisted => "info hash not whitelisted",
            TrackerError::MissingOrInvalidRemoteIp => "missing or invalid remote ip",
            TrackerError::MalformedInfoHash => "malformed info hash",
            TrackerError::MalformedPeerId => "malformed peer id",
            TrackerError::InvalidPort => "invalid port",
            TrackerError::InvalidNumber => "invalid number",
            TrackerError::ConnectionIdInvalid => "Connection ID missmatch",
            TrackerError::ProtocolMagicInvalid => "invalid protocol magic",
            TrackerError::ShortPacket => "short packet",
            TrackerError::InvalidToken => "invalid admin token",
        }
    }
}

} // verus!
