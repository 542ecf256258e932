//! The authorization gate: the tracker's mode combined with key validity
//! and the whitelist decides whether an announce (or scrape) is admitted.
//! The key is checked first, then the whitelist.

use vstd::prelude::*;
use crate::errors::TrackerError;
use crate::keys::KeyManager;
use crate::peer::InfoHash;
use crate::whitelist::Whitelist;

verus! {

/// The tracker's operating mode.
#[derive(Clone, Copy, PartialEq, Eq, Structural, Debug)]
pub enum Mode {
    Public,
    Listed,
    Private,
    PrivateListed,
}

impl Mode {
    /// Private modes demand a valid key.
    pub open spec fn requires_key(self) -> bool {
        self == Mode::Private || self == Mode::PrivateListed
    }

    /// Listed modes demand a whitelisted info hash.
    pub open spec fn requires_whitelist(self) -> bool {
        self == Mode::Listed || self == Mode::PrivateListed
    }

    pub fn needs_key(&self) -> (r: bool)
        ensures
            r == self.requires_key(),
    {
        matches!(self, Mode::Private | Mode::PrivateListed)
    }

    pub fn needs_whitelist(&self) -> (r: bool)
        ensures
            r == self.requires_whitelist(),
    {
        matches!(self, Mode::Listed | Mode::PrivateListed)
    }
}

/// The whitelist half of the decision.
pub open spec fn whitelist_decision(mode: Mode, wl: Whitelist, h: InfoHash) -> Result<
    (),
    TrackerError,
> {
    if mode.requires_whitelist() && !wl.listed(h) {
        Err(TrackerError::InfoHashNotWhitelisted)
    } else {
        Ok(())
    }
}

/// The key half of the decision.
pub open spec fn key_decision(mode: Mode, km: KeyManager, key: Option<Seq<u8>>, now: u64) -> Result<
    (),
    TrackerError,
> {
    if mode.requires_key() {
        match key {
            None => Err(TrackerError::MissingKey),
            Some(k) => if !km.key_known(k) {
                Err(TrackerError::UnknownKey)
            } else if now > km.expiry_of(k) {
                Err(TrackerError::ExpiredKey)
            } else {
                Ok(())
            },
        }
    } else {
        Ok(())
    }
}

/// The whole decision: key first, then whitelist.
pub open spec fn gate_decision(
    mode: Mode,
    km: KeyManager,
    wl: Whitelist,
    key: Option<Seq<u8>>,
    h: InfoHash,
    now: u64,
) -> Result<(), TrackerError> {
    match key_decision(mode, km, key, now) {
        Err(e) => Err(e),
        Ok(()) => whitelist_decision(mode, wl, h),
    }
}

/// The view of the optional key bytes a caller hands in.
pub open spec fn key_view(key: Option<&Vec<u8>>) -> Option<Seq<u8>> {
    match key {
        Some(v) => Some(v@),
        None => None,
    }
}

/// Decide admission of a request against `h` carrying `key` at `now`.
pub fn authorize(
    mode: Mode,
    km: &KeyManager,
    wl: &Whitelist,
    key: Option<&Vec<u8>>,
    h: InfoHash,
    now: u64,
) -> (r: Result<(), TrackerError>)
    requires
        km.wf(),
        wl.wf(),
    ensures
        r == gate_decision(mode, *km, *wl, key_view(key), h, now),
{
    if mode.needs_key() {
        match key {
            None => {
                return Err(TrackerError::MissingKey);
            },
            Some(k) => {
                match km.verify_key(k, now) {
                    Ok(()) => {},
                    Err(e) => {
                        return Err(e);
                    },
                }
            },
        }
    }
    if mode.needs_whitelist() {
        if !wl.contains(h) {
            return Err(TrackerError::InfoHashNotWhitelisted);
        }
    }
    Ok(())
}

} // verus!
