//! What became of the messages of a feature.

use vstd::prelude::*;

verus! {

/// How many messages were decoded, refused, not routed, and dropped before decoding.
#[derive(Clone, Copy, Debug, Eq, PartialEq, Structural)]
pub struct ProcessingCounters {
    pub decoded: u64,
    pub errors: u64,
    pub unknown_streams: u64,
    /// High-bandwidth inputs coalesced before an expensive decode.
    pub dropped: u64,
}

impl Default for ProcessingCounters {
    fn default() -> (counters: Self)
        ensures
            counters == (ProcessingCounters {
                decoded: 0,
                errors: 0,
                unknown_streams: 0,
                dropped: 0,
            }),
    {
        ProcessingCounters { decoded: 0, errors: 0, unknown_streams: 0, dropped: 0 }
    }
}

/// The sum of two counts, up to the largest count.
pub open spec fn capped_sum(first: u64, second: u64) -> u64 {
    if first + second > u64::MAX {
        u64::MAX
    } else {
        (first + second) as u64
    }
}

impl ProcessingCounters {
    /// Both counts together.
    pub open spec fn merged(self, other: Self) -> Self {
        ProcessingCounters {
            decoded: capped_sum(self.decoded, other.decoded),
            errors: capped_sum(self.errors, other.errors),
            unknown_streams: capped_sum(self.unknown_streams, other.unknown_streams),
            dropped: capped_sum(self.dropped, other.dropped),
        }
    }

    pub fn merge(&mut self, other: Self)
        ensures
            *final(self) == old(self).merged(other),
    {
        self.decoded = self.decoded.saturating_add(other.decoded);
        self.errors = self.errors.saturating_add(other.errors);
        self.unknown_streams = self.unknown_streams.saturating_add(other.unknown_streams);
        self.dropped = self.dropped.saturating_add(other.dropped);
    }
}

} // verus!
