use vstd::prelude::*;

verus! {

/// A parsed request to change the state of the system: an intention,
/// not yet a fact.
///
/// `amount` is a fixed-point value counted in ten-thousandths of a unit.
/// Dispute, resolve and chargeback requests carry no amount of their own:
/// the amount is looked up in the transaction ledger when they are applied.
#[derive(Clone, Copy, Debug, PartialEq, Eq, Structural)]
pub enum Command {
    Deposit { client_id: u16, trx_id: u32, amount: u64 },
    Withdrawal { client_id: u16, trx_id: u32, amount: u64 },
    Dispute { client_id: u16, trx_id: u32 },
    Resolve { client_id: u16, trx_id: u32 },
    Chargeback { client_id: u16, trx_id: u32 },
}

impl Command {
    /// The client whose account the command addresses.
    pub open spec fn spec_client_id(self) -> u16 {
        match self {
            Command::Deposit { client_id, .. } => client_id,
            Command::Withdrawal { client_id, .. } => client_id,
            Command::Dispute { client_id, .. } => client_id,
            Command::Resolve { client_id, .. } => client_id,
            Command::Chargeback { client_id, .. } => client_id,
        }
    }
}

} // verus!
