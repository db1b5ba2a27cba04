//! The general laws of the processing rules, stated and proved over the
//! mathematical transition function `ProcessorModel::step`. Together with
//! the contract of `TransactionProcessor::handle`, which is proved equal
//! to `step`, they hold of every run of the executable processor.

use vstd::prelude::*;

use crate::model::{AccountSummary, Amount, Chargeback, ClientId, Deposit, Dispute, Resolve, Transaction, TransactionId, Withdrawal};
use crate::processor::{ProcessingError, ProcessingErrorKind, ProcessorModel};

verus! {

/// The state after replaying a whole sequence of events, one at a time,
/// in order.
pub open spec fn replay(s: ProcessorModel, ts: Seq<Transaction>) -> ProcessorModel
    decreases ts.len(),
{
    if ts.len() == 0 {
        s
    } else {
        replay(s, ts.drop_last()).step(ts.last())
    }
}

/// An event that transfers funds for client `c`: a deposit or a
/// withdrawal addressed to `c`.
pub open spec fn is_transfer_for(t: Transaction, c: u16) -> bool {
    (t is Deposit || t is Withdrawal) && t.spec_client_id().0 == c
}

/// The net amount of a sequence of events: deposited amounts count
/// positively, withdrawn amounts negatively, the dispute family not at
/// all.
pub open spec fn net_of(ts: Seq<Transaction>) -> int
    decreases ts.len(),
{
    if ts.len() == 0 {
        0
    } else {
        net_of(ts.drop_last()) + (match ts.last() {
            Transaction::Deposit(d) => d.amount@,
            Transaction::Withdrawal(w) => -w.amount@,
            _ => 0,
        })
    }
}

/// An event addressed to another client leaves an account untouched.
pub proof fn lemma_step_frame(s: ProcessorModel, t: Transaction, c: u16)
    requires
        c != t.spec_client_id().0,
    ensures
        s.step(t).account(c) == s.account(c),
        s.step(t).accounts.contains_key(c) == s.accounts.contains_key(c),
{
}

/// A locked or errored account is frozen: whatever event arrives for it,
/// its state never changes again.
pub proof fn lemma_frozen_account_persists(s: ProcessorModel, t: Transaction, c: u16)
    requires
        !s.account(c).active(),
    ensures
        s.step(t).account(c) == s.account(c),
{
    assert(s.accounts.contains_key(c));
    if c != t.spec_client_id().0 {
        lemma_step_frame(s, t, c);
    }
}

/// Once an account is locked or errored, an event addressed to its client
/// is discarded as a whole: the entire processor state is unchanged.
pub proof fn lemma_frozen_event_is_no_op(s: ProcessorModel, t: Transaction)
    requires
        s.accounts.contains_key(t.spec_client_id().0),
        !s.account(t.spec_client_id().0).active(),
    ensures
        s.step(t) == s,
{
    assert(s.step(t) =~= s);
}

/// For any run of deposits and withdrawals on one client, starting from a
/// fresh processor: if the account ends the run without a terminal error,
/// its net worth equals the sum of the deposited amounts minus the
/// withdrawn amounts, exactly; no funds are held and the account is not
/// locked. (A rejected deposit or withdrawal would have recorded a
/// terminal error, so ending without one means every event was accepted.)
pub proof fn lemma_total_is_net_of_transfers(ts: Seq<Transaction>, c: u16)
    requires
        forall|i: int| 0 <= i < ts.len() ==> is_transfer_for(#[trigger] ts[i], c),
    ensures
        ({
            let f = replay(ProcessorModel::initial(), ts);
            f.account(c).error is None ==> {
                &&& f.account(c).total() == net_of(ts)
                &&& f.account(c).held == 0
                &&& !f.account(c).locked
            }
        }),
    decreases ts.len(),
{
    if ts.len() > 0 {
        let prefix = ts.drop_last();
        let t = ts.last();
        let f0 = replay(ProcessorModel::initial(), prefix);
        let f = f0.step(t);
        assert(forall|i: int| 0 <= i < prefix.len() ==> is_transfer_for(#[trigger] prefix[i], c));
        lemma_total_is_net_of_transfers(prefix, c);
        assert(is_transfer_for(t, c));
        if f.account(c).error is None {
            if f0.account(c).error is Some {
                lemma_frozen_account_persists(f0, t, c);
                assert(false);
            }
        }
    }
}

/// A deposit followed by a dispute of it moves exactly the deposited
/// amount from available to held, leaving the account's total unchanged,
/// and marks the transaction under dispute. (The available funds may not
/// be negative beforehand, else the freshly deposited amount would no
/// longer be covered.)
pub proof fn lemma_deposit_then_dispute(
    s: ProcessorModel,
    client: ClientId,
    tx: TransactionId,
    amount: Amount,
)
    requires
        s.account(client.0).active(),
        s.account(client.0).available >= 0,
        amount@ >= 0,
    ensures
        ({
            let s1 = s.step(Transaction::Deposit(Deposit { client, transaction_id: tx, amount }));
            let s2 = s1.step(Transaction::Dispute(Dispute { client, transaction_id: tx }));
            &&& s2.account(client.0).available == s1.account(client.0).available - amount@
            &&& s2.account(client.0).held == s1.account(client.0).held + amount@
            &&& s2.account(client.0).total() == s1.account(client.0).total()
            &&& s2.txs[tx.0].under_dispute
        }),
{
}

/// A dispute of a deposit whose amount exceeds the current available
/// funds is rejected with `NotSufficientFundsForDispute`: the balances
/// and the history are unchanged, and the rejection freezes the account.
pub proof fn lemma_dispute_insufficient_funds(s: ProcessorModel, client: ClientId, tx: TransactionId)
    requires
        s.account(client.0).active(),
        s.txs.contains_key(tx.0),
        !s.txs[tx.0].under_dispute,
        s.txs[tx.0].is_deposit,
        s.txs[tx.0].amount > s.account(client.0).available,
    ensures
        ({
            let s2 = s.step(Transaction::Dispute(Dispute { client, transaction_id: tx }));
            &&& s2.account(client.0).error == Some(
                ProcessingError {
                    client,
                    tx,
                    kind: ProcessingErrorKind::NotSufficientFundsForDispute,
                },
            )
            &&& s2.account(client.0).available == s.account(client.0).available
            &&& s2.account(client.0).held == s.account(client.0).held
            &&& s2.txs == s.txs
        }),
{
}

/// A dispute of a deposit followed by a resolve returns available and
/// held funds to their pre-dispute values exactly and clears the dispute
/// mark; a second resolve of the same transaction is rejected with
/// `ResolveWhenTxNotUnderDispute`. (Only disputes of deposits are
/// covered: resolving a disputed withdrawal reverses the withdrawal,
/// which raises the available funds above their pre-dispute value.)
pub proof fn lemma_dispute_then_resolve(s: ProcessorModel, client: ClientId, tx: TransactionId)
    requires
        s.account(client.0).active(),
        s.txs.contains_key(tx.0),
        !s.txs[tx.0].under_dispute,
        s.txs[tx.0].is_deposit,
        s.txs[tx.0].amount <= s.account(client.0).available,
    ensures
        ({
            let s1 = s.step(Transaction::Dispute(Dispute { client, transaction_id: tx }));
            let s2 = s1.step(Transaction::Resolve(Resolve { client, transaction_id: tx }));
            let s3 = s2.step(Transaction::Resolve(Resolve { client, transaction_id: tx }));
            &&& s2.account(client.0).available == s.account(client.0).available
            &&& s2.account(client.0).held == s.account(client.0).held
            &&& !s2.txs[tx.0].under_dispute
            &&& s3.account(client.0).error == Some(
                ProcessingError {
                    client,
                    tx,
                    kind: ProcessingErrorKind::ResolveWhenTxNotUnderDispute,
                },
            )
        }),
{
}

/// A dispute followed by a chargeback of a deposit removes the disputed
/// amount from held funds while leaving available funds as the dispute
/// left them: the account's total drops by exactly the charged-back
/// amount, and the account is locked. (`lemma_frozen_event_is_no_op`
/// says what locking means: every further event for that client is
/// discarded whole.)
pub proof fn lemma_dispute_then_chargeback_of_deposit(
    s: ProcessorModel,
    client: ClientId,
    tx: TransactionId,
)
    requires
        s.account(client.0).active(),
        s.txs.contains_key(tx.0),
        !s.txs[tx.0].under_dispute,
        s.txs[tx.0].is_deposit,
        s.txs[tx.0].amount <= s.account(client.0).available,
    ensures
        ({
            let a = s.txs[tx.0].amount;
            let s1 = s.step(Transaction::Dispute(Dispute { client, transaction_id: tx }));
            let s2 = s1.step(Transaction::Chargeback(Chargeback { client, transaction_id: tx }));
            &&& s2.account(client.0).held == s1.account(client.0).held - a
            &&& s2.account(client.0).available == s1.account(client.0).available
            &&& s2.account(client.0).total() == s.account(client.0).total() - a
            &&& s2.account(client.0).locked
            &&& !s2.account(client.0).active()
        }),
{
}

/// A withdrawal exceeding the available funds is rejected with
/// `NotSufficientFunds`: the balances and the history are unchanged, and
/// the rejection freezes the account.
pub proof fn lemma_withdrawal_insufficient_funds(
    s: ProcessorModel,
    client: ClientId,
    tx: TransactionId,
    amount: Amount,
)
    requires
        s.account(client.0).active(),
        amount@ >= 0,
        amount@ > s.account(client.0).available,
    ensures
        ({
            let s2 = s.step(
                Transaction::Withdrawal(Withdrawal { client, transaction_id: tx, amount }),
            );
            &&& s2.account(client.0).error == Some(
                ProcessingError { client, tx, kind: ProcessingErrorKind::NotSufficientFunds },
            )
            &&& s2.account(client.0).available == s.account(client.0).available
            &&& s2.account(client.0).held == s.account(client.0).held
            &&& s2.txs == s.txs
        }),
{
}

/// A negative-amount deposit or withdrawal is rejected with
/// `NegativeAmount` before any balance changes: the balances and the
/// history are unchanged, and the rejection freezes the account.
pub proof fn lemma_negative_amount_rejected(
    s: ProcessorModel,
    client: ClientId,
    tx: TransactionId,
    amount: Amount,
)
    requires
        s.account(client.0).active(),
        amount@ < 0,
    ensures
        ({
            let sd = s.step(Transaction::Deposit(Deposit { client, transaction_id: tx, amount }));
            &&& sd.account(client.0).error == Some(
                ProcessingError { client, tx, kind: ProcessingErrorKind::NegativeAmount },
            )
            &&& sd.account(client.0).available == s.account(client.0).available
            &&& sd.account(client.0).held == s.account(client.0).held
            &&& sd.txs == s.txs
        }),
        ({
            let sw = s.step(
                Transaction::Withdrawal(Withdrawal { client, transaction_id: tx, amount }),
            );
            &&& sw.account(client.0).error == Some(
                ProcessingError { client, tx, kind: ProcessingErrorKind::NegativeAmount },
            )
            &&& sw.account(client.0).available == s.account(client.0).available
            &&& sw.account(client.0).held == s.account(client.0).held
            &&& sw.txs == s.txs
        }),
{
}

/// The summary projection is a function of the processor's state alone:
/// taking it twice from the same, unchanged state yields the same rows,
/// in the same order.
pub proof fn lemma_summary_repeatable(
    s: ProcessorModel,
    rows1: Seq<AccountSummary>,
    rows2: Seq<AccountSummary>,
)
    requires
        rows1 == s.summary_rows(),
        rows2 == s.summary_rows(),
    ensures
        rows1 == rows2,
{
}

} // verus!
