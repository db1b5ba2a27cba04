use vstd::prelude::*;

use std::collections::HashMap;

use crate::model::{
    Account, AccountModel, AccountSummary, Amount, Chargeback, ClientId, Deposit, Dispute, Resolve,
    Transaction, TransactionId, Withdrawal, BALANCE_LIMIT,
};

verus! {

broadcast use vstd::std_specs::hash::group_hash_axioms;

/// Why an event was rejected. A rejection is terminal for the affected
/// account: it is recorded there and freezes that account for the rest of
/// the run (the quarantine policy; other accounts continue normally).
#[derive(Clone, Copy, Debug, PartialEq, Eq, Structural)]
pub enum ProcessingErrorKind {
    /// A deposit or withdrawal carried a negative amount.
    NegativeAmount,
    /// A withdrawal asked for more than the available funds.
    NotSufficientFunds,
    /// A dispute referenced a transaction that is already under dispute.
    DisputeReferencesAlreadyDisputedTx,
    /// A dispute referenced a deposit whose amount exceeds the available
    /// funds: the deposited funds were already withdrawn and cannot be held.
    NotSufficientFundsForDispute,
    /// A resolve referenced a transaction that is not under dispute.
    ResolveWhenTxNotUnderDispute,
    /// A chargeback referenced a transaction that is not under dispute.
    ChargebackWhenTxNotUnderDispute,
}

/// A rejected event: the offending client and transaction identifiers,
/// kept for diagnostics, and the kind of rejection.
#[derive(Clone, Copy, Debug, PartialEq, Eq, Structural)]
pub struct ProcessingError {
    pub client: ClientId,
    pub tx: TransactionId,
    pub kind: ProcessingErrorKind,
}

/// History entry for one deposit or withdrawal, kept so that later
/// dispute-family events can recover its amount and direction.
#[derive(Clone, Copy, Debug)]
struct TransactionState {
    amount: Amount,
    is_under_dispute: bool,
    is_deposit: bool,
}

/// The mathematical model of a history entry.
#[verifier::ext_equal]
pub ghost struct TxModel {
    pub amount: int,
    pub under_dispute: bool,
    pub is_deposit: bool,
}

impl View for TransactionState {
    type V = TxModel;

    closed spec fn view(&self) -> TxModel {
        TxModel {
            amount: self.amount@,
            under_dispute: self.is_under_dispute,
            is_deposit: self.is_deposit,
        }
    }
}

/// The mathematical model of the whole processor: the account of each
/// known client, the clients in order of first reference, and the history
/// entry of each recorded transaction.
#[verifier::ext_equal]
pub ghost struct ProcessorModel {
    pub accounts: Map<u16, AccountModel>,
    pub order: Seq<u16>,
    pub txs: Map<u32, TxModel>,
}

impl ProcessorModel {
    /// The state before any event: no accounts, no history.
    pub open spec fn initial() -> ProcessorModel {
        ProcessorModel { accounts: Map::empty(), order: Seq::empty(), txs: Map::empty() }
    }

    /// The account of client `c`, created fresh if `c` was never referenced.
    pub open spec fn account(self, c: u16) -> AccountModel {
        if self.accounts.contains_key(c) {
            self.accounts[c]
        } else {
            AccountModel::initial()
        }
    }

    /// `order` lists each known client exactly once, in order of first
    /// reference.
    pub open spec fn ordered(self) -> bool {
        &&& self.order.no_duplicates()
        &&& forall|c: u16| #[trigger] self.accounts.contains_key(c) ==> self.order.contains(c)
        &&& forall|i: int| 0 <= i < self.order.len() ==> self.accounts.contains_key(#[trigger] self.order[i])
    }

    /// Every account's balances are within `BALANCE_LIMIT`.
    pub open spec fn in_limits(self) -> bool {
        forall|c: u16| #[trigger] self.accounts.contains_key(c) ==> self.accounts[c].in_limits()
    }

    /// The processor's invariant, established by `Default::default` and
    /// preserved by `handle`.
    pub open spec fn inv(self) -> bool {
        self.ordered() && self.in_limits()
    }

    /// The state once the account of client `c` exists (created on first
    /// reference, untouched otherwise).
    pub open spec fn touch(self, c: u16) -> ProcessorModel {
        ProcessorModel {
            accounts: self.accounts.insert(c, self.account(c)),
            order: if self.accounts.contains_key(c) {
                self.order
            } else {
                self.order.push(c)
            },
            txs: self.txs,
        }
    }

    /// The state with the account of client `c` replaced by `a`.
    pub open spec fn set_account(self, c: u16, a: AccountModel) -> ProcessorModel {
        ProcessorModel { accounts: self.accounts.insert(c, a), ..self }
    }

    /// The state with the account of client `c` frozen by the terminal
    /// error `e`.
    pub open spec fn set_error(self, c: u16, e: ProcessingError) -> ProcessorModel {
        self.set_account(c, self.account(c).with_error(e))
    }

    /// The state with the history entry of transaction `t` written (a
    /// reused identifier overwrites the prior entry: last write wins, as
    /// the input format does not guarantee uniqueness).
    pub open spec fn record(self, t: u32, m: TxModel) -> ProcessorModel {
        ProcessorModel { txs: self.txs.insert(t, m), ..self }
    }

    /// The history write an event performs once its balance changes
    /// succeeded: deposits and withdrawals append their entry, the
    /// dispute family never writes history.
    pub open spec fn record_of(self, t: Transaction) -> ProcessorModel {
        match t {
            Transaction::Deposit(d) => self.record(
                d.transaction_id.0,
                TxModel { amount: d.amount@, under_dispute: false, is_deposit: true },
            ),
            Transaction::Withdrawal(w) => self.record(
                w.transaction_id.0,
                TxModel { amount: w.amount@, under_dispute: false, is_deposit: false },
            ),
            _ => self,
        }
    }

    /// A deposit on an active account: rejected if the amount is negative,
    /// otherwise credited to the available funds and recorded in history.
    pub open spec fn step_deposit(self, d: Deposit) -> ProcessorModel {
        let c = d.client.0;
        let a = self.account(c);
        if d.amount@ < 0 {
            self.set_error(
                c,
                ProcessingError {
                    client: d.client,
                    tx: d.transaction_id,
                    kind: ProcessingErrorKind::NegativeAmount,
                },
            )
        } else {
            self.set_account(
                c,
                AccountModel { available: a.available + d.amount@, ..a },
            ).record_of(Transaction::Deposit(d))
        }
    }

    /// A withdrawal on an active account: rejected if the amount is
    /// negative or exceeds the available funds, otherwise debited from the
    /// available funds and recorded in history.
    pub open spec fn step_withdrawal(self, w: Withdrawal) -> ProcessorModel {
        let c = w.client.0;
        let a = self.account(c);
        if w.amount@ < 0 {
            self.set_error(
                c,
                ProcessingError {
                    client: w.client,
                    tx: w.transaction_id,
                    kind: ProcessingErrorKind::NegativeAmount,
                },
            )
        } else if w.amount@ > a.available {
            self.set_error(
                c,
                ProcessingError {
                    client: w.client,
                    tx: w.transaction_id,
                    kind: ProcessingErrorKind::NotSufficientFunds,
                },
            )
        } else {
            self.set_account(
                c,
                AccountModel { available: a.available - w.amount@, ..a },
            ).record_of(Transaction::Withdrawal(w))
        }
    }

    /// A dispute on an active account. An unknown transaction identifier
    /// is silently ignored (it may belong to no one). A transaction
    /// already under dispute is a rejection. Disputing a deposit moves its
    /// amount from available to held, but only if the available funds
    /// cover it; disputing a withdrawal claims its amount as held without
    /// touching available, since the funds already left the account.
    pub open spec fn step_dispute(self, d: Dispute) -> ProcessorModel {
        let c = d.client.0;
        let a = self.account(c);
        let t = d.transaction_id.0;
        if !self.txs.contains_key(t) {
            self
        } else {
            let entry = self.txs[t];
            if entry.under_dispute {
                self.set_error(
                    c,
                    ProcessingError {
                        client: d.client,
                        tx: d.transaction_id,
                        kind: ProcessingErrorKind::DisputeReferencesAlreadyDisputedTx,
                    },
                )
            } else if entry.is_deposit {
                if entry.amount > a.available {
                    self.set_error(
                        c,
                        ProcessingError {
                            client: d.client,
                            tx: d.transaction_id,
                            kind: ProcessingErrorKind::NotSufficientFundsForDispute,
                        },
                    )
                } else {
                    self.set_account(
                        c,
                        AccountModel {
                            available: a.available - entry.amount,
                            held: a.held + entry.amount,
                            ..a
                        },
                    ).record(t, TxModel { under_dispute: true, ..entry })
                }
            } else {
                self.set_account(
                    c,
                    AccountModel { held: a.held + entry.amount, ..a },
                ).record(t, TxModel { under_dispute: true, ..entry })
            }
        }
    }

    /// A resolve on an active account: the dispute was unfounded, the held
    /// amount returns to available. Unknown identifiers are ignored; a
    /// transaction not under dispute is a rejection.
    pub open spec fn step_resolve(self, r: Resolve) -> ProcessorModel {
        let c = r.client.0;
        let a = self.account(c);
        let t = r.transaction_id.0;
        if !self.txs.contains_key(t) {
            self
        } else {
            let entry = self.txs[t];
            if !entry.under_dispute {
                self.set_error(
                    c,
                    ProcessingError {
                        client: r.client,
                        tx: r.transaction_id,
                        kind: ProcessingErrorKind::ResolveWhenTxNotUnderDispute,
                    },
                )
            } else {
                self.set_account(
                    c,
                    AccountModel {
                        available: a.available + entry.amount,
                        held: a.held - entry.amount,
                        ..a
                    },
                ).record(t, TxModel { under_dispute: false, ..entry })
            }
        }
    }

    /// A chargeback on an active account: the dispute was valid. For a
    /// deposit the held funds leave the system; for a withdrawal the
    /// withdrawal is reversed, the held amount returning to available.
    /// Either way the account is locked. Unknown identifiers are ignored;
    /// a transaction not under dispute is a rejection.
    pub open spec fn step_chargeback(self, cb: Chargeback) -> ProcessorModel {
        let c = cb.client.0;
        let a = self.account(c);
        let t = cb.transaction_id.0;
        if !self.txs.contains_key(t) {
            self
        } else {
            let entry = self.txs[t];
            if !entry.under_dispute {
                self.set_error(
                    c,
                    ProcessingError {
                        client: cb.client,
                        tx: cb.transaction_id,
                        kind: ProcessingErrorKind::ChargebackWhenTxNotUnderDispute,
                    },
                )
            } else if entry.is_deposit {
                self.set_account(
                    c,
                    AccountModel { held: a.held - entry.amount, locked: true, ..a },
                ).record(t, TxModel { under_dispute: false, ..entry })
            } else {
                self.set_account(
                    c,
                    AccountModel {
                        available: a.available + entry.amount,
                        held: a.held - entry.amount,
                        locked: true,
                        ..a
                    },
                ).record(t, TxModel { under_dispute: false, ..entry })
            }
        }
    }

    /// The transition function of the processor: the state after one event.
    /// The event's account is created on first reference; a locked or
    /// errored account discards the event with no further effect; an
    /// active account dispatches on the event kind.
    pub open spec fn step(self, t: Transaction) -> ProcessorModel {
        let c = t.spec_client_id().0;
        let s = self.touch(c);
        if !s.account(c).active() {
            s
        } else {
            match t {
                Transaction::Deposit(d) => s.step_deposit(d),
                Transaction::Withdrawal(w) => s.step_withdrawal(w),
                Transaction::Dispute(d) => s.step_dispute(d),
                Transaction::Resolve(r) => s.step_resolve(r),
                Transaction::Chargeback(cb) => s.step_chargeback(cb),
            }
        }
    }

    /// The summary row of client `c`.
    pub open spec fn row(self, c: u16) -> AccountSummary {
        let a = self.account(c);
        AccountSummary {
            client: ClientId(c),
            available: a.available as i128,
            held: a.held as i128,
            total: (a.available + a.held) as i128,
            locked: a.locked,
        }
    }

    /// The summary rows of the first `n` known clients, in order of first
    /// reference, errored accounts left out.
    pub open spec fn rows_upto(self, n: int) -> Seq<AccountSummary>
        decreases n,
    {
        if n <= 0 {
            Seq::empty()
        } else if self.account(self.order[n - 1]).error is None {
            self.rows_upto(n - 1).push(self.row(self.order[n - 1]))
        } else {
            self.rows_upto(n - 1)
        }
    }

    /// The full summary: one row per known client without a terminal
    /// error, in order of first reference.
    pub open spec fn summary_rows(self) -> Seq<AccountSummary> {
        self.rows_upto(self.order.len() as int)
    }
}

/// The account store lifted to its model.
spec fn account_map_model(m: Map<u16, Account>) -> Map<u16, AccountModel> {
    m.map_values(|a: Account| a@)
}

/// The transaction history lifted to its model.
spec fn tx_map_model(m: Map<u32, TransactionState>) -> Map<u32, TxModel> {
    m.map_values(|t: TransactionState| t@)
}

/// Consumes one event at a time, owning the account store and the
/// transaction history. Rejections are quarantined: they freeze the
/// affected account and are recorded there, while other accounts continue
/// to process events (the alternative, failing the whole run on the first
/// rejection, is deliberately not taken).
pub struct TransactionProcessor {
    accounts: HashMap<u16, Account>,
    clients: Vec<u16>,
    transactions: HashMap<u32, TransactionState>,
}

impl View for TransactionProcessor {
    type V = ProcessorModel;

    closed spec fn view(&self) -> ProcessorModel {
        ProcessorModel {
            accounts: account_map_model(self.accounts@),
            order: self.clients@,
            txs: tx_map_model(self.transactions@),
        }
    }
}

proof fn lemma_account_map_model_insert(m: Map<u16, Account>, k: u16, v: Account)
    ensures
        account_map_model(m.insert(k, v)) =~= account_map_model(m).insert(k, v@),
{
}

proof fn lemma_tx_map_model_insert(m: Map<u32, TransactionState>, k: u32, v: TransactionState)
    ensures
        tx_map_model(m.insert(k, v)) =~= tx_map_model(m).insert(k, v@),
{
}

impl Default for TransactionProcessor {
    /// A processor that has seen no events.
    fn default() -> (p: TransactionProcessor)
        ensures
            p@ == ProcessorModel::initial(),
            p@.inv(),
    {
        let p = TransactionProcessor {
            accounts: HashMap::new(),
            clients: Vec::new(),
            transactions: HashMap::new(),
        };
        proof {
            assert(p@.accounts =~= Map::<u16, AccountModel>::empty());
            assert(p@.txs =~= Map::<u32, TxModel>::empty());
            assert(p@ =~= ProcessorModel::initial());
        }
        p
    }
}

/// A step keeps the client bookkeeping well formed: the clients in order
/// of first reference remain exactly the keys of the account store, each
/// listed once.
pub proof fn lemma_step_preserves_ordered(s: ProcessorModel, t: Transaction)
    requires
        s.ordered(),
    ensures
        s.step(t).ordered(),
{
    let c = t.spec_client_id().0;
    let r = s.step(t);
    let ord = r.order;
    assert(ord == (if s.accounts.contains_key(c) {
        s.order
    } else {
        s.order.push(c)
    }));
    assert(forall|k: u16| #[trigger] r.accounts.contains_key(k) ==> (s.accounts.contains_key(k)
        || k == c));
    assert(forall|k: u16| s.accounts.contains_key(k) ==> #[trigger] r.accounts.contains_key(k));
    assert(r.accounts.contains_key(c));
    if !s.accounts.contains_key(c) {
        assert(!s.order.contains(c));
        assert(ord.no_duplicates()) by {
            assert forall|i: int, j: int|
                0 <= i < ord.len() && 0 <= j < ord.len() && i != j implies ord[i] != ord[j] by {
                if i < s.order.len() && j < s.order.len() {
                    assert(ord[i] == s.order[i] && ord[j] == s.order[j]);
                } else if i < s.order.len() {
                    assert(ord[j] == c);
                    if ord[i] == c {
                        assert(s.order[i] == c);
                        assert(s.order.contains(c));
                    }
                } else {
                    assert(ord[i] == c);
                    if ord[j] == c {
                        assert(s.order[j] == c);
                        assert(s.order.contains(c));
                    }
                }
            }
        };
    }
    assert forall|k: u16| #[trigger] r.accounts.contains_key(k) implies ord.contains(k) by {
        if s.accounts.contains_key(k) {
            let i = choose|i: int| 0 <= i < s.order.len() && s.order[i] == k;
            assert(ord[i] == k);
        } else {
            assert(k == c && !s.accounts.contains_key(c));
            assert(ord[ord.len() - 1] == c);
        }
    }
    assert forall|i: int| 0 <= i < ord.len() implies r.accounts.contains_key(#[trigger] ord[i]) by {
        if i < s.order.len() {
            assert(ord[i] == s.order[i]);
            assert(s.accounts.contains_key(s.order[i]));
        } else {
            assert(ord[i] == c);
        }
    }
}

impl TransactionProcessor {
    /// Appends the history entry of a deposit or withdrawal; the dispute
    /// family leaves history untouched.
    fn add_transaction(&mut self, tx: Transaction)
        ensures
            final(self)@ == old(self)@.record_of(tx),
    {
        let tx_id = tx.tx_id().0;
        let state: TransactionState;
        match tx {
            Transaction::Deposit(deposit) => {
                state = TransactionState {
                    amount: deposit.amount,
                    is_under_dispute: false,
                    is_deposit: true,
                };
            }
            Transaction::Withdrawal(withdrawal) => {
                state = TransactionState {
                    amount: withdrawal.amount,
                    is_under_dispute: false,
                    is_deposit: false,
                };
            }
            Transaction::Dispute(_) | Transaction::Resolve(_) | Transaction::Chargeback(_) => {
                return;
            }
        }
        let ghost mt = self.transactions@;
        self.transactions.insert(tx_id, state);
        proof {
            lemma_tx_map_model_insert(mt, tx_id, state);
            assert(self@ =~= old(self)@.record_of(tx));
        }
    }

    /// Replays one event against the processor: the executable
    /// counterpart of `ProcessorModel::step`, to which it is proved
    /// equal. The bound on the stepped balances is the one demand made of
    /// the caller beyond the invariant; `can_handle` decides it.
    pub fn handle(&mut self, tx: Transaction)
        requires
            old(self)@.inv(),
            old(self)@.step(tx).in_limits(),
        ensures
            final(self)@ == old(self)@.step(tx),
            final(self)@.inv(),
    {
        let ghost s0 = old(self)@;
        proof {
            lemma_step_preserves_ordered(s0, tx);
        }
        let c = tx.client_id().0;
        let mut acct: Account;
        let existed: bool;
        match self.accounts.get(&c) {
            Some(a) => {
                acct = *a;
                existed = true;
            }
            None => {
                acct = Account::default();
                existed = false;
            }
        }
        proof {
            assert(existed == s0.accounts.contains_key(c));
            assert(acct@ == s0.account(c));
        }
        if !existed {
            self.clients.push(c);
        }

        // A locked or errored account discards the event with no further
        // effect.
        if acct.locked || acct.error.is_some() {
            let ghost ma = self.accounts@;
            self.accounts.insert(c, acct);
            proof {
                lemma_account_map_model_insert(ma, c, acct);
                assert(self@ =~= s0.step(tx));
            }
            return;
        }

        match &tx {
            Transaction::Deposit(deposit) => {
                if deposit.amount.units < 0 {
                    acct.error = Some(
                        ProcessingError {
                            client: deposit.client,
                            tx: deposit.transaction_id,
                            kind: ProcessingErrorKind::NegativeAmount,
                        },
                    );
                    let ghost ma = self.accounts@;
                    self.accounts.insert(c, acct);
                    proof {
                        lemma_account_map_model_insert(ma, c, acct);
                        assert(self@ =~= s0.step(tx));
                    }
                    return;
                }
                proof {
                    assert(s0.step(tx).accounts.contains_key(c));
                    assert(s0.step(tx).accounts[c].in_limits());
                    assert(s0.step(tx).accounts[c].available == acct@.available + deposit.amount@);
                }
                acct.available = acct.available + (deposit.amount.units as i128);
                let ghost ma = self.accounts@;
                self.accounts.insert(c, acct);
                self.add_transaction(tx);
                proof {
                    lemma_account_map_model_insert(ma, c, acct);
                    assert(self@ =~= s0.step(tx));
                }
            }
            Transaction::Withdrawal(withdrawal) => {
                if withdrawal.amount.units < 0 {
                    acct.error = Some(
                        ProcessingError {
                            client: withdrawal.client,
                            tx: withdrawal.transaction_id,
                            kind: ProcessingErrorKind::NegativeAmount,
                        },
                    );
                    let ghost ma = self.accounts@;
                    self.accounts.insert(c, acct);
                    proof {
                        lemma_account_map_model_insert(ma, c, acct);
                        assert(self@ =~= s0.step(tx));
                    }
                    return;
                }
                if (withdrawal.amount.units as i128) > acct.available {
                    acct.error = Some(
                        ProcessingError {
                            client: withdrawal.client,
                            tx: withdrawal.transaction_id,
                            kind: ProcessingErrorKind::NotSufficientFunds,
                        },
                    );
                    let ghost ma = self.accounts@;
                    self.accounts.insert(c, acct);
                    proof {
                        lemma_account_map_model_insert(ma, c, acct);
                        assert(self@ =~= s0.step(tx));
                    }
                    return;
                }
                proof {
                    assert(s0.step(tx).accounts.contains_key(c));
                    assert(s0.step(tx).accounts[c].in_limits());
                    assert(s0.step(tx).accounts[c].available == acct@.available
                        - withdrawal.amount@);
                }
                acct.available = acct.available - (withdrawal.amount.units as i128);
                let ghost ma = self.accounts@;
                self.accounts.insert(c, acct);
                self.add_transaction(tx);
                proof {
                    lemma_account_map_model_insert(ma, c, acct);
                    assert(self@ =~= s0.step(tx));
                }
            }
            Transaction::Dispute(dispute) => {
                let t_id = dispute.transaction_id.0;
                let mut st: TransactionState;
                match self.transactions.get(&t_id) {
                    None => {
                        let ghost ma = self.accounts@;
                        self.accounts.insert(c, acct);
                        proof {
                            lemma_account_map_model_insert(ma, c, acct);
                            assert(self@ =~= s0.step(tx));
                        }
                        return;
                    }
                    Some(st_ref) => {
                        st = *st_ref;
                    }
                }
                proof {
                    assert(st@ == s0.txs[t_id]);
                }
                if st.is_under_dispute {
                    acct.error = Some(
                        ProcessingError {
                            client: dispute.client,
                            tx: dispute.transaction_id,
                            kind: ProcessingErrorKind::DisputeReferencesAlreadyDisputedTx,
                        },
                    );
                    let ghost ma = self.accounts@;
                    self.accounts.insert(c, acct);
                    proof {
                        lemma_account_map_model_insert(ma, c, acct);
                        assert(self@ =~= s0.step(tx));
                    }
                    return;
                }
                if st.is_deposit {
                    if (st.amount.units as i128) > acct.available {
                        acct.error = Some(
                            ProcessingError {
                                client: dispute.client,
                                tx: dispute.transaction_id,
                                kind: ProcessingErrorKind::NotSufficientFundsForDispute,
                            },
                        );
                        let ghost ma = self.accounts@;
                        self.accounts.insert(c, acct);
                        proof {
                            lemma_account_map_model_insert(ma, c, acct);
                            assert(self@ =~= s0.step(tx));
                        }
                        return;
                    }
                    proof {
                        assert(s0.step(tx).accounts.contains_key(c));
                        assert(s0.step(tx).accounts[c].in_limits());
                        assert(s0.step(tx).accounts[c].available == acct@.available - st@.amount);
                        assert(s0.step(tx).accounts[c].held == acct@.held + st@.amount);
                    }
                    acct.available = acct.available - (st.amount.units as i128);
                    acct.held = acct.held + (st.amount.units as i128);
                } else {
                    proof {
                        assert(s0.step(tx).accounts.contains_key(c));
                        assert(s0.step(tx).accounts[c].in_limits());
                        assert(s0.step(tx).accounts[c].held == acct@.held + st@.amount);
                    }
                    acct.held = acct.held + (st.amount.units as i128);
                }
                st.is_under_dispute = true;
                let ghost mt = self.transactions@;
                self.transactions.insert(t_id, st);
                let ghost ma = self.accounts@;
                self.accounts.insert(c, acct);
                proof {
                    lemma_tx_map_model_insert(mt, t_id, st);
                    lemma_account_map_model_insert(ma, c, acct);
                    assert(self@ =~= s0.step(tx));
                }
            }
            Transaction::Resolve(resolve) => {
                let t_id = resolve.transaction_id.0;
                let mut st: TransactionState;
                match self.transactions.get(&t_id) {
                    None => {
                        let ghost ma = self.accounts@;
                        self.accounts.insert(c, acct);
                        proof {
                            lemma_account_map_model_insert(ma, c, acct);
                            assert(self@ =~= s0.step(tx));
                        }
                        return;
                    }
                    Some(st_ref) => {
                        st = *st_ref;
                    }
                }
                proof {
                    assert(st@ == s0.txs[t_id]);
                }
                if !st.is_under_dispute {
                    acct.error = Some(
                        ProcessingError {
                            client: resolve.client,
                            tx: resolve.transaction_id,
                            kind: ProcessingErrorKind::ResolveWhenTxNotUnderDispute,
                        },
                    );
                    let ghost ma = self.accounts@;
                    self.accounts.insert(c, acct);
                    proof {
                        lemma_account_map_model_insert(ma, c, acct);
                        assert(self@ =~= s0.step(tx));
                    }
                    return;
                }
                proof {
                    assert(s0.step(tx).accounts.contains_key(c));
                    assert(s0.step(tx).accounts[c].in_limits());
                    assert(s0.step(tx).accounts[c].available == acct@.available + st@.amount);
                    assert(s0.step(tx).accounts[c].held == acct@.held - st@.amount);
                }
                acct.available = acct.available + (st.amount.units as i128);
                acct.held = acct.held - (st.amount.units as i128);
                st.is_under_dispute = false;
                let ghost mt = self.transactions@;
                self.transactions.insert(t_id, st);
                let ghost ma = self.accounts@;
                self.accounts.insert(c, acct);
                proof {
                    lemma_tx_map_model_insert(mt, t_id, st);
                    lemma_account_map_model_insert(ma, c, acct);
                    assert(self@ =~= s0.step(tx));
                }
            }
            Transaction::Chargeback(chargeback) => {
                let t_id = chargeback.transaction_id.0;
                let mut st: TransactionState;
                match self.transactions.get(&t_id) {
                    None => {
                        let ghost ma = self.accounts@;
                        self.accounts.insert(c, acct);
                        proof {
                            lemma_account_map_model_insert(ma, c, acct);
                            assert(self@ =~= s0.step(tx));
                        }
                        return;
                    }
                    Some(st_ref) => {
                        st = *st_ref;
                    }
                }
                proof {
                    assert(st@ == s0.txs[t_id]);
                }
                if !st.is_under_dispute {
                    acct.error = Some(
                        ProcessingError {
                            client: chargeback.client,
                            tx: chargeback.transaction_id,
                            kind: ProcessingErrorKind::ChargebackWhenTxNotUnderDispute,
                        },
                    );
                    let ghost ma = self.accounts@;
                    self.accounts.insert(c, acct);
                    proof {
                        lemma_account_map_model_insert(ma, c, acct);
                        assert(self@ =~= s0.step(tx));
                    }
                    return;
                }
                if st.is_deposit {
                    proof {
                        assert(s0.step(tx).accounts.contains_key(c));
                        assert(s0.step(tx).accounts[c].in_limits());
                        assert(s0.step(tx).accounts[c].held == acct@.held - st@.amount);
                    }
                    acct.held = acct.held - (st.amount.units as i128);
                } else {
                    proof {
                        assert(s0.step(tx).accounts.contains_key(c));
                        assert(s0.step(tx).accounts[c].in_limits());
                        assert(s0.step(tx).accounts[c].available == acct@.available + st@.amount);
                        assert(s0.step(tx).accounts[c].held == acct@.held - st@.amount);
                    }
                    acct.available = acct.available + (st.amount.units as i128);
                    acct.held = acct.held - (st.amount.units as i128);
                }
                acct.locked = true;
                st.is_under_dispute = false;
                let ghost mt = self.transactions@;
                self.transactions.insert(t_id, st);
                let ghost ma = self.accounts@;
                self.accounts.insert(c, acct);
                proof {
                    lemma_tx_map_model_insert(mt, t_id, st);
                    lemma_account_map_model_insert(ma, c, acct);
                    assert(self@ =~= s0.step(tx));
                }
            }
        }
    }
}

/// A step keeps every balance within `BALANCE_LIMIT` exactly when it
/// keeps the balances of the event's own account within it: no other
/// account changes.
pub proof fn lemma_step_in_limits_at(s: ProcessorModel, t: Transaction)
    requires
        s.in_limits(),
    ensures
        s.step(t).in_limits() <==> s.step(t).account(t.spec_client_id().0).in_limits(),
{
    let c = t.spec_client_id().0;
    let r = s.step(t);
    assert(r.accounts.contains_key(c));
    if r.accounts[c].in_limits() {
        assert forall|k: u16| #[trigger] r.accounts.contains_key(k) implies r.accounts[
            k
        ].in_limits() by {
            if k != c {
                assert(r.accounts[k] == s.accounts[k]);
                assert(s.accounts.contains_key(k));
            }
        }
    }
}

impl TransactionProcessor {
    /// The current account of the given client, if that client was ever
    /// referenced by an event.
    pub fn account(&self, client: ClientId) -> (r: Option<&Account>)
        ensures
            (match r {
                Some(a) => self@.accounts.contains_key(client.0) && a@ == self@.accounts[client.0],
                None => !self@.accounts.contains_key(client.0),
            }),
    {
        self.accounts.get(&client.0)
    }

    /// Decides whether `handle` may process the event without pushing a
    /// balance of the event's account past `BALANCE_LIMIT`: the
    /// executable counterpart of the bound in `handle`'s precondition. An
    /// event the processor would reject, ignore or discard is always
    /// within limits.
    pub fn can_handle(&self, tx: &Transaction) -> (b: bool)
        requires
            self@.inv(),
        ensures
            b == self@.step(*tx).in_limits(),
    {
        let ghost s0 = self@;
        proof {
            lemma_step_in_limits_at(s0, *tx);
        }
        let c = tx.client_id().0;
        let acct: Account = match self.accounts.get(&c) {
            Some(a) => *a,
            None => Account::default(),
        };
        proof {
            assert(acct@ == s0.account(c));
            assert(acct@.in_limits());
        }
        if acct.locked || acct.error.is_some() {
            return true;
        }
        match tx {
            Transaction::Deposit(deposit) => {
                if deposit.amount.units < 0 {
                    true
                } else {
                    let na = acct.available + (deposit.amount.units as i128);
                    -BALANCE_LIMIT <= na && na <= BALANCE_LIMIT
                }
            }
            Transaction::Withdrawal(withdrawal) => {
                if withdrawal.amount.units < 0 {
                    true
                } else if (withdrawal.amount.units as i128) > acct.available {
                    true
                } else {
                    let na = acct.available - (withdrawal.amount.units as i128);
                    -BALANCE_LIMIT <= na && na <= BALANCE_LIMIT
                }
            }
            Transaction::Dispute(dispute) => {
                match self.transactions.get(&dispute.transaction_id.0) {
                    None => true,
                    Some(st) => {
                        if st.is_under_dispute {
                            true
                        } else if st.is_deposit {
                            if (st.amount.units as i128) > acct.available {
                                true
                            } else {
                                let na = acct.available - (st.amount.units as i128);
                                let nh = acct.held + (st.amount.units as i128);
                                -BALANCE_LIMIT <= na && na <= BALANCE_LIMIT && -BALANCE_LIMIT <= nh
                                    && nh <= BALANCE_LIMIT
                            }
                        } else {
                            let nh = acct.held + (st.amount.units as i128);
                            -BALANCE_LIMIT <= nh && nh <= BALANCE_LIMIT
                        }
                    }
                }
            }
            Transaction::Resolve(resolve) => {
                match self.transactions.get(&resolve.transaction_id.0) {
                    None => true,
                    Some(st) => {
                        if !st.is_under_dispute {
                            true
                        } else {
                            let na = acct.available + (st.amount.units as i128);
                            let nh = acct.held - (st.amount.units as i128);
                            -BALANCE_LIMIT <= na && na <= BALANCE_LIMIT && -BALANCE_LIMIT <= nh
                                && nh <= BALANCE_LIMIT
                        }
                    }
                }
            }
            Transaction::Chargeback(chargeback) => {
                match self.transactions.get(&chargeback.transaction_id.0) {
                    None => true,
                    Some(st) => {
                        if !st.is_under_dispute {
                            true
                        } else if st.is_deposit {
                            let nh = acct.held - (st.amount.units as i128);
                            -BALANCE_LIMIT <= nh && nh <= BALANCE_LIMIT
                        } else {
                            let na = acct.available + (st.amount.units as i128);
                            let nh = acct.held - (st.amount.units as i128);
                            -BALANCE_LIMIT <= na && na <= BALANCE_LIMIT && -BALANCE_LIMIT <= nh
                                && nh <= BALANCE_LIMIT
                        }
                    }
                }
            }
        }
    }

    /// The final balance summary: one row per known client, in order of
    /// first reference, skipping accounts frozen by a terminal error. The
    /// processor is not consumed, so the projection can be taken again;
    /// being a function of the processor's state alone, it returns the
    /// same rows.
    pub fn summary(&self) -> (rows: Vec<AccountSummary>)
        requires
            self@.inv(),
        ensures
            rows@ == self@.summary_rows(),
    {
        let mut rows: Vec<AccountSummary> = Vec::new();
        let mut i: usize = 0;
        while i < self.clients.len()
            invariant
                self@.inv(),
                i <= self.clients.len(),
                self.clients.len() == self@.order.len(),
                rows@ == self@.rows_upto(i as int),
            decreases self.clients.len() - i,
        {
            let c = self.clients[i];
            proof {
                assert(self@.order[i as int] == c);
                assert(self@.accounts.contains_key(c));
                assert(self@.accounts[c].in_limits());
            }
            let acct: Account = match self.accounts.get(&c) {
                Some(a) => *a,
                None => {
                    proof {
                        assert(false);
                    }
                    Account::default()
                }
            };
            if acct.error.is_none() {
                let total = acct.available + acct.held;
                rows.push(
                    AccountSummary {
                        client: ClientId(c),
                        available: acct.available,
                        held: acct.held,
                        total,
                        locked: acct.locked,
                    },
                );
            }
            i = i + 1;
            proof {
                assert(rows@ == self@.rows_upto(i as int));
            }
        }
        rows
    }
}

} // verus!
