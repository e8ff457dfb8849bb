//! Counters the node keeps about the bundles it has handled.

use vstd::prelude::*;

verus! {

/// Counters of handled bundles. They start at zero when the node starts and
/// only ever grow.
#[derive(Debug)]
pub struct DtnStatistics {
    /// Bundles received.
    pub incoming: u64,
    /// Received bundles the node already had.
    pub dups: u64,
    /// Bundles sent.
    pub outgoing: u64,
    /// Bundles delivered to a local application.
    pub delivered: u64,
    /// Bundles that could not be decoded.
    pub broken: u64,
}

impl DtnStatistics {
    /// All counters at zero.
    pub fn new() -> (stats: DtnStatistics)
        ensures
            stats == (DtnStatistics { incoming: 0, dups: 0, outgoing: 0, delivered: 0, broken: 0 }),
    {
        DtnStatistics { incoming: 0, dups: 0, outgoing: 0, delivered: 0, broken: 0 }
    }
}

impl Default for DtnStatistics {
    fn default() -> (stats: Self)
        ensures
            stats == (DtnStatistics { incoming: 0, dups: 0, outgoing: 0, delivered: 0, broken: 0 }),
    {
        DtnStatistics::new()
    }
}

impl Clone for DtnStatistics {
    fn clone(&self) -> (copy: Self)
        ensures
            copy == *self,
    {
        DtnStatistics {
            incoming: self.incoming,
            dups: self.dups,
            outgoing: self.outgoing,
            delivered: self.delivered,
            broken: self.broken,
        }
    }
}

} // verus!
