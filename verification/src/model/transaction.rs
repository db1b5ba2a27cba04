use vstd::prelude::*;

use crate::model::{Amount, ClientId, TransactionId};

verus! {

/// One event of the input log: the closed set of five event kinds the
/// processor understands. Dispute, resolve and chargeback carry no amount;
/// the amount is recovered from the referenced transaction's history.
#[derive(Clone, Copy, Debug)]
pub enum Transaction {
    Deposit(Deposit),
    Withdrawal(Withdrawal),
    Dispute(Dispute),
    Resolve(Resolve),
    Chargeback(Chargeback),
}

/// Credits `amount` to the client's available funds.
#[derive(Clone, Copy, Debug)]
pub struct Deposit {
    pub client: ClientId,
    pub transaction_id: TransactionId,
    pub amount: Amount,
}

/// Debits `amount` from the client's available funds.
#[derive(Clone, Copy, Debug)]
pub struct Withdrawal {
    pub client: ClientId,
    pub transaction_id: TransactionId,
    pub amount: Amount,
}

/// Claims that the referenced transaction should be provisionally
/// reversed pending investigation.
#[derive(Clone, Copy, Debug)]
pub struct Dispute {
    pub client: ClientId,
    pub transaction_id: TransactionId,
}

/// Decides that a dispute was unfounded: held funds return to available.
#[derive(Clone, Copy, Debug)]
pub struct Resolve {
    pub client: ClientId,
    pub transaction_id: TransactionId,
}

/// Decides that a dispute was valid: the disputed funds are permanently
/// removed and the account is locked against further activity.
#[derive(Clone, Copy, Debug)]
pub struct Chargeback {
    pub client: ClientId,
    pub transaction_id: TransactionId,
}

impl Transaction {
    /// The client the event is addressed to.
    pub open spec fn spec_client_id(&self) -> ClientId {
        match self {
            Transaction::Deposit(t) => t.client,
            Transaction::Withdrawal(t) => t.client,
            Transaction::Dispute(t) => t.client,
            Transaction::Resolve(t) => t.client,
            Transaction::Chargeback(t) => t.client,
        }
    }

    /// The transaction identifier the event carries.
    pub open spec fn spec_tx_id(&self) -> TransactionId {
        match self {
            Transaction::Deposit(t) => t.transaction_id,
            Transaction::Withdrawal(t) => t.transaction_id,
            Transaction::Dispute(t) => t.transaction_id,
            Transaction::Resolve(t) => t.transaction_id,
            Transaction::Chargeback(t) => t.transaction_id,
        }
    }

    #[verifier::when_used_as_spec(spec_client_id)]
    pub fn client_id(&self) -> (r: ClientId)
        ensures
            r == self.spec_client_id(),
    {
        match self {
            Transaction::Deposit(t) => t.client,
            Transaction::Withdrawal(t) => t.client,
            Transaction::Dispute(t) => t.client,
            Transaction::Resolve(t) => t.client,
            Transaction::Chargeback(t) => t.client,
        }
    }

    #[verifier::when_used_as_spec(spec_tx_id)]
    pub fn tx_id(&self) -> (r: TransactionId)
        ensures
            r == self.spec_tx_id(),
    {
        match self {
            Transaction::Deposit(t) => t.transaction_id,
            Transaction::Withdrawal(t) => t.transaction_id,
            Transaction::Dispute(t) => t.transaction_id,
            Transaction::Resolve(t) => t.transaction_id,
            Transaction::Chargeback(t) => t.transaction_id,
        }
    }
}

} // verus!
