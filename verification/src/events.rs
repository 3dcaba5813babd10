use vstd::prelude::*;

verus! {

/// An accepted, immutable record of something that happened to a client's
/// account. Events are stored per client, so they carry no client id; the
/// dispute-family events carry the amount resolved from the transaction
/// ledger at decision time.
///
/// `amount` is a fixed-point value counted in ten-thousandths of a unit.
#[derive(Clone, Copy, Debug, PartialEq, Eq, Structural)]
pub enum Event {
    AmountDeposited { amount: u64 },
    AmountWithdrawn { amount: u64 },
    DisputeRaised { amount: u64 },
    DisputeResolved { amount: u64 },
    ChargebackIssued { amount: u64 },
}

} // verus!
