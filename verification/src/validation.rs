use crate::ledger::Ledger;
use vstd::prelude::*;

verus! {

/// Whether a time lies between two others, both included.
pub open spec fn within(timestamp: u64, from: u64, to: u64) -> bool {
    from <= timestamp <= to
}

/// Whether the ledger's time lies in the window from `from` to `to`, both
/// included.
pub fn is_valid_date(ledger: &Ledger, from: &u64, to: &u64) -> (valid: bool)
    ensures
        valid == within(ledger.timestamp, *from, *to),
{
    *from <= ledger.timestamp && ledger.timestamp <= *to
}

} // verus!
