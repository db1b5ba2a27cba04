use tp::model::{
    Account, AccountSummary, Amount, Chargeback, ClientId, Deposit, Dispute, Resolve, Transaction,
    TransactionId, Withdrawal,
};
use tp::processor::{ProcessingErrorKind, TransactionProcessor};

fn amt(units: i64) -> Amount {
    Amount { units }
}

fn deposit(client: ClientId, tx: TransactionId, amount: Amount) -> Transaction {
    Transaction::Deposit(Deposit { client, transaction_id: tx, amount })
}

fn withdraw(client: ClientId, tx: TransactionId, amount: Amount) -> Transaction {
    Transaction::Withdrawal(Withdrawal { client, transaction_id: tx, amount })
}

fn dispute(client: ClientId, tx: TransactionId) -> Transaction {
    Transaction::Dispute(Dispute { client, transaction_id: tx })
}

fn resolve(client: ClientId, tx: TransactionId) -> Transaction {
    Transaction::Resolve(Resolve { client, transaction_id: tx })
}

fn chargeback(client: ClientId, tx: TransactionId) -> Transaction {
    Transaction::Chargeback(Chargeback { client, transaction_id: tx })
}

fn check_error_kind(account: &Account, expected_error_kind: ProcessingErrorKind) {
    let error = account.error.as_ref().map(|e| &e.kind);

    assert_eq!(Some(&expected_error_kind), error);
}

#[test]
fn test_trying_to_revert_withdrawn_funds_locks_account() {
    let mut processor = TransactionProcessor::default();

    for tx in [
        deposit(1.into(), 1.into(), amt(15000)),
        deposit(1.into(), 2.into(), amt(15000)),
        withdraw(1.into(), 3.into(), amt(15000)),
        dispute(1.into(), 1.into()),
        chargeback(1.into(), 1.into()),
    ] {
        processor.handle(tx)
    }

    let rows = processor.summary();
    let summary = rows.first().unwrap();

    assert_eq!(summary.client, 1.into());
    assert!(summary.locked);
    assert_eq!(summary.total, 0);
}

#[test]
fn test_chargeback_locks_account() {
    let mut processor = TransactionProcessor::default();

    for tx in [
        deposit(1.into(), 2.into(), amt(15000)),
        dispute(1.into(), 2.into()),
        chargeback(1.into(), 2.into()),
    ] {
        processor.handle(tx)
    }

    assert!(processor.account(1.into()).unwrap().error.is_none());

    let rows = processor.summary();
    let summary = rows.first().unwrap();

    assert_eq!(summary.client, 1.into());
    assert!(summary.locked);
    assert_eq!(summary.total, 0);
}

#[test]
fn test_dispute_withdrawal() {
    let mut processor = TransactionProcessor::default();

    for tx in [
        deposit(1.into(), 2.into(), amt(155000)),
        withdraw(1.into(), 3.into(), amt(50000)),
        dispute(1.into(), 3.into()),
    ] {
        processor.handle(tx);
    }

    assert!(processor.account(1.into()).unwrap().error.is_none());

    let rows = processor.summary();
    let summary = rows.first().unwrap();

    assert_eq!(summary.client, 1.into());
    assert!(!summary.locked);
    assert_eq!(summary.available, 105000);
    assert_eq!(summary.held, 50000);
}

#[test]
fn test_resolve_fails_if_transaction_not_under_dispute() {
    let mut processor = TransactionProcessor::default();

    processor.handle(deposit(1.into(), 2.into(), amt(15000)));
    processor.handle(resolve(1.into(), 2.into()));

    check_error_kind(
        processor.account(1.into()).unwrap(),
        ProcessingErrorKind::ResolveWhenTxNotUnderDispute,
    );
}

#[test]
fn test_dispute_fails_if_not_sufficient_funds() {
    let mut processor = TransactionProcessor::default();

    for tx in [
        deposit(1.into(), 2.into(), amt(15000)),
        withdraw(1.into(), 3.into(), amt(5000)),
    ] {
        processor.handle(tx);
    }
    processor.handle(dispute(1.into(), 2.into()));

    check_error_kind(
        processor.account(1.into()).unwrap(),
        ProcessingErrorKind::NotSufficientFundsForDispute,
    );
}

#[test]
fn test_returns_error_on_transactions_with_negative_amounts() {
    let mut processor = TransactionProcessor::default();

    for tx in [
        deposit(1.into(), 2.into(), amt(-10000)),
        withdraw(1.into(), 3.into(), amt(-5000)),
    ] {
        processor.handle(tx);

        check_error_kind(
            processor.account(1.into()).unwrap(),
            ProcessingErrorKind::NegativeAmount,
        );
    }
}

#[test]
fn test_returns_error_on_withdrawal_with_with_insufficient_funds() {
    let mut processor = TransactionProcessor::default();
    let tx = withdraw(1.into(), 2.into(), amt(20000));

    processor.handle(tx);

    check_error_kind(
        processor.account(1.into()).unwrap(),
        ProcessingErrorKind::NotSufficientFunds,
    );
}

#[test]
fn test_dispute_fails_when_transaction_already_disputed() {
    let mut processor = TransactionProcessor::default();
    for tx in [
        deposit(1.into(), 2.into(), amt(20000)),
        dispute(1.into(), 2.into()),
    ] {
        processor.handle(tx);
    }

    processor.handle(dispute(1.into(), 2.into()));

    check_error_kind(
        processor.account(1.into()).unwrap(),
        ProcessingErrorKind::DisputeReferencesAlreadyDisputedTx,
    );
}

#[test]
fn test_summary_after_chargeback_scenario() {
    // client 1: deposit 1.5, deposit 1.5, withdraw 1.5, dispute the first
    // deposit, charge it back
    let mut processor = TransactionProcessor::default();

    for tx in [
        deposit(1.into(), 1.into(), amt(15000)),
        deposit(1.into(), 2.into(), amt(15000)),
        withdraw(1.into(), 3.into(), amt(15000)),
        dispute(1.into(), 1.into()),
        chargeback(1.into(), 1.into()),
    ] {
        processor.handle(tx);
    }

    let rows = processor.summary();
    assert_eq!(rows.len(), 1);
    let summary = &rows[0];

    assert_eq!(summary.client, 1.into());
    assert_eq!(summary.available, 0);
    assert_eq!(summary.held, 0);
    assert_eq!(summary.total, 0);
    assert!(summary.locked);
}

#[test]
fn test_summary_after_withdrawal_dispute_scenario() {
    // client 1: deposit 15.5, withdraw 5.0, dispute the withdrawal
    let mut processor = TransactionProcessor::default();

    for tx in [
        deposit(1.into(), 2.into(), amt(155000)),
        withdraw(1.into(), 3.into(), amt(50000)),
        dispute(1.into(), 3.into()),
    ] {
        processor.handle(tx);
    }

    let rows = processor.summary();
    assert_eq!(rows.len(), 1);
    let summary = &rows[0];

    assert_eq!(summary.available, 105000);
    assert_eq!(summary.held, 50000);
    assert_eq!(summary.total, 155000);
    assert!(!summary.locked);
}

#[test]
fn test_total_tracks_net_of_transfers() {
    let mut processor = TransactionProcessor::default();

    for tx in [
        deposit(1.into(), 1.into(), amt(10000)),
        deposit(1.into(), 2.into(), amt(25000)),
        withdraw(1.into(), 3.into(), amt(5000)),
    ] {
        processor.handle(tx);
    }

    let account = processor.account(1.into()).unwrap();
    assert!(account.error.is_none());
    assert_eq!(account.available + account.held, 30000);
    assert_eq!(account.held, 0);
}

#[test]
fn test_dispute_moves_amount_to_held() {
    let mut processor = TransactionProcessor::default();

    processor.handle(deposit(1.into(), 1.into(), amt(20000)));
    processor.handle(dispute(1.into(), 1.into()));

    let account = processor.account(1.into()).unwrap();
    assert!(account.error.is_none());
    assert_eq!(account.available, 0);
    assert_eq!(account.held, 20000);
}

#[test]
fn test_dispute_then_resolve_restores_balances() {
    let mut processor = TransactionProcessor::default();

    processor.handle(deposit(1.into(), 1.into(), amt(20000)));
    processor.handle(dispute(1.into(), 1.into()));
    processor.handle(resolve(1.into(), 1.into()));

    let account = processor.account(1.into()).unwrap();
    assert!(account.error.is_none());
    assert_eq!(account.available, 20000);
    assert_eq!(account.held, 0);

    processor.handle(resolve(1.into(), 1.into()));

    check_error_kind(
        processor.account(1.into()).unwrap(),
        ProcessingErrorKind::ResolveWhenTxNotUnderDispute,
    );
}

#[test]
fn test_chargeback_fails_if_transaction_not_under_dispute() {
    let mut processor = TransactionProcessor::default();

    processor.handle(deposit(1.into(), 2.into(), amt(15000)));
    processor.handle(chargeback(1.into(), 2.into()));

    check_error_kind(
        processor.account(1.into()).unwrap(),
        ProcessingErrorKind::ChargebackWhenTxNotUnderDispute,
    );
}

#[test]
fn test_dispute_family_ignores_unknown_transactions() {
    let mut processor = TransactionProcessor::default();

    processor.handle(deposit(1.into(), 1.into(), amt(10000)));
    processor.handle(dispute(1.into(), 9.into()));
    processor.handle(resolve(1.into(), 9.into()));
    processor.handle(chargeback(1.into(), 9.into()));

    let account = processor.account(1.into()).unwrap();
    assert!(account.error.is_none());
    assert_eq!(account.available, 10000);
    assert_eq!(account.held, 0);
    assert!(!account.locked);
}

#[test]
fn test_locked_account_discards_further_events() {
    let mut processor = TransactionProcessor::default();

    for tx in [
        deposit(1.into(), 1.into(), amt(20000)),
        dispute(1.into(), 1.into()),
        chargeback(1.into(), 1.into()),
    ] {
        processor.handle(tx);
    }

    processor.handle(deposit(1.into(), 2.into(), amt(50000)));
    processor.handle(withdraw(1.into(), 3.into(), amt(-50000)));

    let account = processor.account(1.into()).unwrap();
    assert!(account.locked);
    assert!(account.error.is_none());
    assert_eq!(account.available, 0);
    assert_eq!(account.held, 0);
}

#[test]
fn test_chargeback_of_withdrawal_reverses_it() {
    let mut processor = TransactionProcessor::default();

    for tx in [
        deposit(1.into(), 1.into(), amt(100000)),
        withdraw(1.into(), 2.into(), amt(40000)),
        dispute(1.into(), 2.into()),
        chargeback(1.into(), 2.into()),
    ] {
        processor.handle(tx);
    }

    let account = processor.account(1.into()).unwrap();
    assert!(account.error.is_none());
    assert_eq!(account.available, 100000);
    assert_eq!(account.held, 0);
    assert!(account.locked);
}

#[test]
fn test_reused_transaction_id_overwrites_history() {
    // last write wins: the second deposit under the same identifier is
    // the one a later dispute refers to
    let mut processor = TransactionProcessor::default();

    processor.handle(deposit(1.into(), 1.into(), amt(10000)));
    processor.handle(deposit(1.into(), 1.into(), amt(20000)));
    processor.handle(dispute(1.into(), 1.into()));

    let account = processor.account(1.into()).unwrap();
    assert!(account.error.is_none());
    assert_eq!(account.available, 10000);
    assert_eq!(account.held, 20000);
}

#[test]
fn test_summary_of_fresh_processor_is_empty() {
    let processor = TransactionProcessor::default();

    assert!(processor.summary().is_empty());
}

#[test]
fn test_summary_lists_clients_in_order_of_first_reference() {
    let mut processor = TransactionProcessor::default();

    processor.handle(deposit(2.into(), 1.into(), amt(10000)));
    processor.handle(deposit(1.into(), 2.into(), amt(20000)));
    processor.handle(deposit(2.into(), 3.into(), amt(5000)));

    let rows = processor.summary();
    assert_eq!(rows.len(), 2);
    assert_eq!(rows[0].client, 2.into());
    assert_eq!(rows[0].total, 15000);
    assert_eq!(rows[1].client, 1.into());
    assert_eq!(rows[1].total, 20000);
}

#[test]
fn test_summary_skips_errored_accounts() {
    let mut processor = TransactionProcessor::default();

    processor.handle(withdraw(1.into(), 1.into(), amt(10000)));
    processor.handle(deposit(2.into(), 2.into(), amt(30000)));

    assert!(processor.account(1.into()).unwrap().error.is_some());

    let rows = processor.summary();
    assert_eq!(rows.len(), 1);
    assert_eq!(rows[0].client, 2.into());
    assert_eq!(rows[0].available, 30000);
}

#[test]
fn test_summary_twice_yields_identical_rows() {
    let mut processor = TransactionProcessor::default();

    for tx in [
        deposit(1.into(), 1.into(), amt(15000)),
        deposit(2.into(), 2.into(), amt(25000)),
        withdraw(1.into(), 3.into(), amt(5000)),
        dispute(2.into(), 2.into()),
    ] {
        processor.handle(tx);
    }

    let first: Vec<AccountSummary> = processor.summary();
    let second: Vec<AccountSummary> = processor.summary();

    assert_eq!(first, second);
}

#[test]
fn test_can_handle_accepts_ordinary_events() {
    let mut processor = TransactionProcessor::default();

    let first = deposit(1.into(), 1.into(), amt(15000));
    assert!(processor.can_handle(&first));
    processor.handle(first);

    let second = withdraw(1.into(), 2.into(), amt(i64::MAX));
    assert!(processor.can_handle(&second));
}
