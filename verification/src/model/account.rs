use vstd::prelude::*;

use crate::model::ClientId;
use crate::processor::ProcessingError;

verus! {

/// Upper bound on the magnitude of the `available` and `held` balance of an
/// account, kept at half of `i128::MAX` so that `available + held` always
/// fits the balance word. The processor refuses to step past this bound
/// (see `TransactionProcessor::handle`); it lies far beyond the range of
/// any realistic ledger, mirroring the finite range of an exact decimal
/// number type.
pub const BALANCE_LIMIT: i128 = 85_070_591_730_234_615_865_843_651_857_942_052_863;

/// Mutable per-client record: the funds usable for withdrawal, the funds
/// frozen pending dispute resolution, whether a chargeback has locked the
/// account, and the terminal error that froze it, if any.
#[derive(Clone, Copy, Debug)]
pub struct Account {
    pub available: i128,
    pub held: i128,
    pub locked: bool,
    pub error: Option<ProcessingError>,
}

/// The mathematical model of an `Account`: the same fields, with the
/// balances as unbounded integers.
#[verifier::ext_equal]
pub ghost struct AccountModel {
    pub available: int,
    pub held: int,
    pub locked: bool,
    pub error: Option<ProcessingError>,
}

impl View for Account {
    type V = AccountModel;

    open spec fn view(&self) -> AccountModel {
        AccountModel {
            available: self.available as int,
            held: self.held as int,
            locked: self.locked,
            error: self.error,
        }
    }
}

impl Default for Account {
    /// A fresh account: no funds, not locked, no error.
    fn default() -> (a: Account)
        ensures
            a@ == AccountModel::initial(),
    {
        Account { available: 0, held: 0, locked: false, error: None }
    }
}

impl AccountModel {
    /// The state of an account on first reference.
    pub open spec fn initial() -> AccountModel {
        AccountModel { available: 0, held: 0, locked: false, error: None }
    }

    /// The account's net worth: available plus held funds.
    pub open spec fn total(self) -> int {
        self.available + self.held
    }

    /// An account still processes events only while it is neither locked by
    /// a chargeback nor frozen by a terminal error.
    pub open spec fn active(self) -> bool {
        !self.locked && self.error is None
    }

    /// Both balances are within `BALANCE_LIMIT`.
    pub open spec fn in_limits(self) -> bool {
        &&& -(BALANCE_LIMIT as int) <= self.available <= BALANCE_LIMIT as int
        &&& -(BALANCE_LIMIT as int) <= self.held <= BALANCE_LIMIT as int
    }

    /// The same account, frozen by the given terminal error.
    pub open spec fn with_error(self, e: ProcessingError) -> AccountModel {
        AccountModel { error: Some(e), ..self }
    }
}

/// Read-only projection of an account, emitted once per non-errored client
/// at the end of a run.
#[derive(Clone, Copy, Debug, PartialEq, Eq, Structural)]
pub struct AccountSummary {
    pub client: ClientId,
    pub available: i128,
    pub held: i128,
    pub total: i128,
    pub locked: bool,
}

} // verus!
