//! Statistics counters. Accepted requests produce events tagged by address
//! family and, for announces, by whether the announcer seeds; the counters
//! are advisory, so they saturate rather than wrap.

use vstd::prelude::*;
use crate::swarm::sat_inc;

verus! {

/// One observed request.
#[derive(Clone, Copy, PartialEq, Eq, Structural, Debug)]
pub enum TrackerEvent {
    Announce4Seeder,
    Announce4Leecher,
    Announce6Seeder,
    Announce6Leecher,
    Scrape4,
    Scrape6,
}

#[derive(Clone, Copy, PartialEq, Eq, Structural, Debug)]
pub struct Stats {
    pub announces4_seeder: u64,
    pub announces4_leecher: u64,
    pub announces6_seeder: u64,
    pub announces6_leecher: u64,
    pub scrapes4: u64,
    pub scrapes6: u64,
}

/// The counters after one more event.
pub open spec fn bumped(s: Stats, e: TrackerEvent) -> Stats {
    match e {
        TrackerEvent::Announce4Seeder => Stats {
            announces4_seeder: sat_inc(s.announces4_seeder),
            ..s
        },
        TrackerEvent::Announce4Leecher => Stats {
            announces4_leecher: sat_inc(s.announces4_leecher),
            ..s
        },
        TrackerEvent::Announce6Seeder => Stats {
            announces6_seeder: sat_inc(s.announces6_seeder),
            ..s
        },
        TrackerEvent::Announce6Leecher => Stats {
            announces6_leecher: sat_inc(s.announces6_leecher),
            ..s
        },
        TrackerEvent::Scrape4 => Stats { scrapes4: sat_inc(s.scrapes4), ..s },
        TrackerEvent::Scrape6 => Stats { scrapes6: sat_inc(s.scrapes6), ..s },
    }
}

impl Stats {
    pub fn new() -> (r: Stats)
        ensures
            r == (Stats {
                announces4_seeder: 0,
                announces4_leecher: 0,
                announces6_seeder: 0,
                announces6_leecher: 0,
                scrapes4: 0,
                scrapes6: 0,
            }),
    {
        Stats {
            announces4_seeder: 0,
            announces4_leecher: 0,
            announces6_seeder: 0,
            announces6_leecher: 0,
            scrapes4: 0,
            scrapes6: 0,
        }
    }

    /// Count one event.
    pub fn record(&mut self, e: TrackerEvent)
        ensures
            *final(self) == bumped(*old(self), e),
    {
        match e {
            TrackerEvent::Announce4Seeder => {
                self.announces4_seeder = if self.announces4_seeder < u64::MAX {
                    self.announces4_seeder + 1
                } else {
                    self.announces4_seeder
                };
            },
            TrackerEvent::Announce4Leecher => {
                self.announces4_leecher = if self.announces4_leecher < u64::MAX {
                    self.announces4_leecher + 1
                } else {
                    self.announces4_leecher
                };
            },
            TrackerEvent::Announce6Seeder => {
                self.announces6_seeder = if self.announces6_seeder < u64::MAX {
                    self.announces6_seeder + 1
                } else {
                    self.announces6_seeder
                };
            },
            TrackerEvent::Announce6Leecher => {
                self.announces6_leecher = if self.announces6_leecher < u64::MAX {
                    self.announces6_leecher + 1
                } else {
                    self.announces6_leecher
                };
            },
            TrackerEvent::Scrape4 => {
                self.scrapes4 = if self.scrapes4 < u64::MAX {
                    self.scrapes4 + 1
                } else {
                    self.scrapes4
                };
            },
            TrackerEvent::Scrape6 => {
                self.scrapes6 = if self.scrapes6 < u64::MAX {
                    self.scrapes6 + 1
                } else {
                    self.scrapes6
                };
            },
        }
    }
}

} // verus!
