//! The business error raised by the ledger.

use vstd::prelude::*;

verus! {

/// The only business failure: some client's summed deposits minus
/// withdrawals is negative. It aborts the whole batch; no partial results
/// are returned for the other clients.
#[derive(Clone, Copy, Debug, PartialEq, Eq, Structural)]
pub enum Error {
    NoAvailableFundsToWithdraw { client: u16 },
}

} // verus!
