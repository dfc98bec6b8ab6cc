use vstd::prelude::*;

verus! {

/// The moment at which an operation runs, as the hosting ledger reports it:
/// the close time of the ledger in seconds since the Unix epoch, and the
/// ledger's sequence number, which counts up by one from ledger to ledger.
#[derive(Clone, Copy, Debug, PartialEq, Eq, Structural)]
pub struct Ledger {
    pub timestamp: u64,
    pub sequence: u32,
}

impl Ledger {
    pub fn new(timestamp: u64, sequence: u32) -> (ledger: Ledger)
        ensures
            ledger.timestamp == timestamp,
            ledger.sequence == sequence,
    {
        Ledger { timestamp, sequence }
    }
}

impl Default for Ledger {
    /// A ledger at time zero and sequence zero.
    fn default() -> (ledger: Ledger)
        ensures
            ledger.timestamp == 0,
            ledger.sequence == 0,
    {
        Ledger { timestamp: 0, sequence: 0 }
    }
}

} // verus!
