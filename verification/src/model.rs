use vstd::prelude::*;

mod account;
mod transaction;

pub use account::{Account, AccountModel, AccountSummary, BALANCE_LIMIT};
pub use transaction::{Chargeback, Deposit, Dispute, Resolve, Transaction, Withdrawal};

verus! {

/// Identifies a client account: an opaque unsigned identifier, used as the
/// key of the account store.
#[derive(Clone, Copy, Debug, Hash, PartialEq, Eq, Structural)]
pub struct ClientId(pub u16);

impl From<u16> for ClientId {
    fn from(value: u16) -> (r: Self) {
        ClientId(value)
    }
}

impl vstd::std_specs::convert::FromSpecImpl<u16> for ClientId {
    open spec fn obeys_from_spec() -> bool {
        true
    }

    open spec fn from_spec(value: u16) -> ClientId {
        ClientId(value)
    }
}

/// Identifies a deposit or withdrawal: an opaque unsigned identifier, used
/// by dispute, resolve and chargeback events to refer back to the original
/// transaction.
#[derive(Clone, Copy, Debug, Hash, PartialEq, Eq, Structural)]
pub struct TransactionId(pub u32);

impl From<u32> for TransactionId {
    fn from(value: u32) -> (r: Self) {
        TransactionId(value)
    }
}

impl vstd::std_specs::convert::FromSpecImpl<u32> for TransactionId {
    open spec fn obeys_from_spec() -> bool {
        true
    }

    open spec fn from_spec(value: u32) -> TransactionId {
        TransactionId(value)
    }
}

/// An exact monetary amount, held as a signed count of fixed-point units
/// (ten-thousandths of the currency's major unit). Integer units keep the
/// arithmetic of the engine exact: there is no floating-point rounding
/// anywhere in the library. Negative values can be carried by events and
/// are rejected by the processor.
#[derive(Clone, Copy, Debug, Hash, PartialEq, Eq, Structural)]
pub struct Amount {
    pub units: i64,
}

impl View for Amount {
    type V = int;

    open spec fn view(&self) -> int {
        self.units as int
    }
}

impl Amount {
    /// The zero amount.
    pub fn zero() -> (a: Amount)
        ensures
            a@ == 0,
    {
        Amount { units: 0 }
    }

    /// Builds an amount from a count of fixed-point units.
    pub fn from_units(units: i64) -> (a: Amount)
        ensures
            a@ == units as int,
    {
        Amount { units }
    }
}

} // verus!
