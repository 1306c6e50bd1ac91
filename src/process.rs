//! The transaction state machine: accounts, the ledger of deposits and
//! withdrawals, and the rule that applies one transaction to both.
use std::collections::HashMap;

use vstd::prelude::*;

use crate::account::{
    Account,
    AccountError,
    chargeback_shift,
    dispute_shift,
    resolve_shift,
};
use crate::transaction::{Transaction, TransactionError, TransactionType};

verus! {

broadcast use vstd::std_specs::hash::group_hash_axioms;

/// All accounts, by client id, and every accepted deposit and withdrawal,
/// by transaction id.
pub struct State {
    pub transactions: HashMap<u32, Transaction>,
    pub accounts: HashMap<u16, Account>,
}

/// What a `State` holds, as maps.
pub ghost struct StateModel {
    pub accounts: Map<u16, Account>,
    pub transactions: Map<u32, Transaction>,
}

impl View for State {
    type V = StateModel;

    open spec fn view(&self) -> StateModel {
        StateModel { accounts: self.accounts@, transactions: self.transactions@ }
    }
}

/// Why a transaction was rejected. A rejected transaction changes nothing
/// but the lazy creation of its client's account.
#[derive(Debug, PartialEq, Eq, Clone, Copy, Structural)]
pub enum TransactionProcessingError {
    TransactionAlreadyProcessed,
    TransactionRequiresAmount,
    TransactionDoesNotExist,
    TransactionDisputed,
    TransactionNotDisputed,
    AccountLocked,
    /// Applying the transaction would take a balance past the range of `i64`.
    BalanceOutOfRange,
    TransactionProcessingAccountError { source: AccountError },
    TransactionProcessingTransactionError { source: TransactionError },
}

/// A ledger entry: a deposit or a withdrawal, with its amount.
pub open spec fn is_entry(t: Transaction) -> bool {
    &&& (t.kind is Deposit || t.kind is Withdrawal)
    &&& t.amount is Some
}

impl StateModel {
    /// Every account keeps its balance invariant; the ledger holds entries only.
    pub open spec fn wf(self) -> bool {
        &&& forall|c: u16| #[trigger] self.accounts.contains_key(c) ==> self.accounts[c].wf()
        &&& forall|id: u32| #[trigger]
            self.transactions.contains_key(id) ==> is_entry(self.transactions[id])
    }

    /// The account of `client`, zeroed if it was never seen.
    pub open spec fn account_of(self, client: u16) -> Account {
        if self.accounts.contains_key(client) {
            self.accounts[client]
        } else {
            Account::fresh(client)
        }
    }
}

impl State {
    pub open spec fn wf(&self) -> bool {
        self@.wf()
    }

    pub fn new() -> (r: Self)
        ensures
            r@.accounts.is_empty(),
            r@.transactions.is_empty(),
            r.wf(),
    {
        State { transactions: HashMap::new(), accounts: HashMap::new() }
    }
}

impl Default for State {
    fn default() -> (r: Self)
        ensures
            r@.accounts.is_empty(),
            r@.transactions.is_empty(),
            r.wf(),
    {
        Self::new()
    }
}

/// Change to (available, held) that `t` makes once accepted, given the ledger
/// before it.
pub open spec fn shift_of(ledger: Map<u32, Transaction>, t: Transaction) -> (int, int) {
    let e = ledger[t.tx];
    match t.kind {
        TransactionType::Deposit => (t.amount.unwrap() as int, 0),
        TransactionType::Withdrawal => (-(t.amount.unwrap() as int), 0),
        TransactionType::Dispute => dispute_shift(e.kind, e.amount.unwrap() as int),
        TransactionType::Resolve => resolve_shift(e.kind, e.amount.unwrap() as int),
        TransactionType::Chargeback => chargeback_shift(e.kind, e.amount.unwrap() as int),
    }
}

/// Whether `t` is accepted against account `acc` and `ledger`, and if not, why.
pub open spec fn outcome(acc: Account, ledger: Map<u32, Transaction>, t: Transaction) -> Result<
    (),
    TransactionProcessingError,
> {
    if acc.locked {
        Err(TransactionProcessingError::AccountLocked)
    } else if t.kind is Deposit || t.kind is Withdrawal {
        if t.amount is None {
            Err(
                TransactionProcessingError::TransactionProcessingTransactionError {
                    source: TransactionError::TransactionNeedsAmount,
                },
            )
        } else if ledger.contains_key(t.tx) {
            Err(TransactionProcessingError::TransactionAlreadyProcessed)
        } else if t.kind is Withdrawal && acc.available < t.amount.unwrap() {
            Err(
                TransactionProcessingError::TransactionProcessingAccountError {
                    source: AccountError::NotEnoughAvailable,
                },
            )
        } else if !acc.can_shift(shift_of(ledger, t)) {
            Err(TransactionProcessingError::BalanceOutOfRange)
        } else {
            Ok(())
        }
    } else if !ledger.contains_key(t.tx) {
        Err(TransactionProcessingError::TransactionDoesNotExist)
    } else if t.kind is Dispute && ledger[t.tx].disputed {
        Err(TransactionProcessingError::TransactionDisputed)
    } else if !(t.kind is Dispute) && !ledger[t.tx].disputed {
        Err(TransactionProcessingError::TransactionNotDisputed)
    } else if !acc.can_shift(shift_of(ledger, t)) {
        Err(TransactionProcessingError::BalanceOutOfRange)
    } else {
        Ok(())
    }
}

/// `e` with its disputed flag set to `disputed`.
pub open spec fn flagged(e: Transaction, disputed: bool) -> Transaction {
    Transaction { kind: e.kind, amount: e.amount, client: e.client, tx: e.tx, disputed }
}

/// The ledger once `t` is accepted: a deposit or withdrawal is recorded
/// undisputed; a dispute or resolve sets or clears the entry's flag.
pub open spec fn ledger_after(ledger: Map<u32, Transaction>, t: Transaction) -> Map<u32, Transaction> {
    match t.kind {
        TransactionType::Deposit => ledger.insert(t.tx, flagged(t, false)),
        TransactionType::Withdrawal => ledger.insert(t.tx, flagged(t, false)),
        TransactionType::Dispute => ledger.insert(t.tx, flagged(ledger[t.tx], true)),
        TransactionType::Resolve => ledger.insert(t.tx, flagged(ledger[t.tx], false)),
        TransactionType::Chargeback => ledger,
    }
}

/// The account once `t` is accepted: balances moved by the shift, and locked
/// by a chargeback.
pub open spec fn account_after(acc: Account, ledger: Map<u32, Transaction>, t: Transaction) -> Account {
    let (da, dh) = shift_of(ledger, t);
    Account {
        id: acc.id,
        available: (acc.available + da) as i64,
        held: (acc.held + dh) as i64,
        total: (acc.total + da + dh) as i64,
        locked: acc.locked || t.kind is Chargeback,
    }
}

/// One transition of the state machine: the next state, and the result
/// `process_one` returns. The client's account is created on first sight,
/// whether or not the transaction is accepted.
pub open spec fn step(s: StateModel, t: Transaction) -> (StateModel, Result<
    (),
    TransactionProcessingError,
>) {
    let acc = s.account_of(t.client);
    let r = outcome(acc, s.transactions, t);
    match r {
        Ok(_) => (
            StateModel {
                accounts: s.accounts.insert(t.client, account_after(acc, s.transactions, t)),
                transactions: ledger_after(s.transactions, t),
            },
            r,
        ),
        Err(_) => (
            StateModel { accounts: s.accounts.insert(t.client, acc), transactions: s.transactions },
            r,
        ),
    }
}

/// Every transition keeps every account's `total == available + held`, and
/// keeps the ledger to deposits and withdrawals with amounts, whether the
/// transaction is accepted or rejected.
pub proof fn lemma_step_keeps_wf(s: StateModel, t: Transaction)
    requires
        s.wf(),
    ensures
        step(s, t).0.wf(),
{
    let acc = s.account_of(t.client);
    let next = step(s, t).0;
    assert(acc.wf());
    if outcome(acc, s.transactions, t) is Ok {
        let acc2 = account_after(acc, s.transactions, t);
        assert(acc2.wf());
        assert forall|c: u16| #[trigger] next.accounts.contains_key(c) implies next.accounts[c].wf() by {
            if c != t.client {
                assert(s.accounts.contains_key(c));
            }
        }
        assert forall|id: u32| #[trigger] next.transactions.contains_key(id) implies is_entry(
            next.transactions[id],
        ) by {
            if id != t.tx {
                assert(s.transactions.contains_key(id));
            }
        }
    } else {
        assert forall|c: u16| #[trigger] next.accounts.contains_key(c) implies next.accounts[c].wf() by {
            if c != t.client {
                assert(s.accounts.contains_key(c));
            }
        }
    }
}

/// Records `t` under its id, unless that id is already recorded.
fn insert_if_not_exists(txns: &mut HashMap<u32, Transaction>, t: Transaction) -> (r: Result<
    (),
    TransactionProcessingError,
>)
    ensures
        old(txns)@.contains_key(t.tx) ==> r == Err::<(), TransactionProcessingError>(
            TransactionProcessingError::TransactionAlreadyProcessed,
        ) && final(txns)@ == old(txns)@,
        !old(txns)@.contains_key(t.tx) ==> r is Ok && final(txns)@ == old(txns)@.insert(t.tx, t),
{
    if txns.contains_key(&t.tx) {
        Err(TransactionProcessingError::TransactionAlreadyProcessed)
    } else {
        txns.insert(t.tx, t);
        Ok(())
    }
}

/// The entry recorded under `id`.
fn get_transaction(txns: &HashMap<u32, Transaction>, id: u32) -> (r: Result<
    Transaction,
    TransactionProcessingError,
>)
    ensures
        r == (if txns@.contains_key(id) {
            Ok(txns@[id])
        } else {
            Err(TransactionProcessingError::TransactionDoesNotExist)
        }),
{
    match txns.get(&id) {
        Some(t) => Ok(*t),
        None => Err(TransactionProcessingError::TransactionDoesNotExist),
    }
}

/// The entry recorded under `id`, which must be under dispute.
fn get_disputed_transaction(txns: &HashMap<u32, Transaction>, id: u32) -> (r: Result<
    Transaction,
    TransactionProcessingError,
>)
    ensures
        r == (if !txns@.contains_key(id) {
            Err(TransactionProcessingError::TransactionDoesNotExist)
        } else if !txns@[id].disputed {
            Err(TransactionProcessingError::TransactionNotDisputed)
        } else {
            Ok(txns@[id])
        }),
{
    let t = get_transaction(txns, id)?;
    if !t.disputed {
        Err(TransactionProcessingError::TransactionNotDisputed)
    } else {
        Ok(t)
    }
}

/// The entry recorded under `id`, which must not be under dispute.
fn get_undisputed_transaction(txns: &HashMap<u32, Transaction>, id: u32) -> (r: Result<
    Transaction,
    TransactionProcessingError,
>)
    ensures
        r == (if !txns@.contains_key(id) {
            Err(TransactionProcessingError::TransactionDoesNotExist)
        } else if txns@[id].disputed {
            Err(TransactionProcessingError::TransactionDisputed)
        } else {
            Ok(txns@[id])
        }),
{
    let t = get_transaction(txns, id)?;
    if t.disputed {
        Err(TransactionProcessingError::TransactionDisputed)
    } else {
        Ok(t)
    }
}

/// The amount of a ledger entry.
fn entry_amount(e: &Transaction) -> (r: u64)
    requires
        is_entry(*e),
    ensures
        r == e.amount.unwrap(),
{
    match e.amount {
        Some(a) => a,
        None => 0,
    }
}

/// Applies one transaction to the state, or rejects it with the reason.
///
/// The client's account is created on first sight. A rejected transaction
/// leaves every balance and the ledger as they were.
pub fn process_one(state: &mut State, transaction: Transaction) -> (r: Result<
    (),
    TransactionProcessingError,
>)
    requires
        old(state).wf(),
    ensures
        (final(state)@, r) == step(old(state)@, transaction),
        final(state).wf(),
{
    let ghost s0 = state@;
    let t = transaction;
    let client = t.client;
    let mut account = match state.accounts.get(&client) {
        Some(a) => *a,
        None => Account::new(client),
    };
    let ghost acc0 = account;
    assert(acc0 == s0.account_of(client));
    assert(acc0.wf());
    state.accounts.insert(client, account);
    if account.locked {
        return Err(TransactionProcessingError::AccountLocked);
    }
    match t.kind {
        TransactionType::Deposit | TransactionType::Withdrawal => {
            let amount = match t.amount() {
                Ok(a) => a,
                Err(e) => {
                    return Err(
                        TransactionProcessingError::TransactionProcessingTransactionError {
                            source: e,
                        },
                    );
                },
            };
            let entry = Transaction {
                kind: t.kind,
                amount: t.amount,
                client: t.client,
                tx: t.tx,
                disputed: false,
            };
            match insert_if_not_exists(&mut state.transactions, entry) {
                Ok(()) => {},
                Err(e) => {
                    return Err(e);
                },
            }
            if let TransactionType::Deposit = t.kind {
                if !account.fits_shift(amount as i128, 0) {
                    state.transactions.remove(&t.tx);
                    assert(state@.transactions =~= s0.transactions);
                    return Err(TransactionProcessingError::BalanceOutOfRange);
                }
                account.deposit(amount);
            } else {
                match account.withdraw(amount) {
                    Ok(()) => {},
                    Err(e) => {
                        state.transactions.remove(&t.tx);
                        assert(state@.transactions =~= s0.transactions);
                        return Err(
                            TransactionProcessingError::TransactionProcessingAccountError {
                                source: e,
                            },
                        );
                    },
                }
            }
        },
        TransactionType::Dispute => {
            let e = get_undisputed_transaction(&state.transactions, t.tx)?;
            let amount = entry_amount(&e);
            let a = amount as i128;
            let fits = if let TransactionType::Deposit = e.kind {
                account.fits_shift(-a, a)
            } else {
                account.fits_shift(a, -a)
            };
            if !fits {
                return Err(TransactionProcessingError::BalanceOutOfRange);
            }
            state.transactions.insert(
                t.tx,
                Transaction {
                    kind: e.kind,
                    amount: e.amount,
                    client: e.client,
                    tx: e.tx,
                    disputed: true,
                },
            );
            account.dispute(amount, e.kind);
        },
        TransactionType::Resolve => {
            let e = get_disputed_transaction(&state.transactions, t.tx)?;
            let amount = entry_amount(&e);
            let a = amount as i128;
            let fits = if let TransactionType::Deposit = e.kind {
                account.fits_shift(a, -a)
            } else {
                account.fits_shift(-a, a)
            };
            if !fits {
                return Err(TransactionProcessingError::BalanceOutOfRange);
            }
            state.transactions.insert(
                t.tx,
                Transaction {
                    kind: e.kind,
                    amount: e.amount,
                    client: e.client,
                    tx: e.tx,
                    disputed: false,
                },
            );
            account.resolve(amount, e.kind);
        },
        TransactionType::Chargeback => {
            let e = get_disputed_transaction(&state.transactions, t.tx)?;
            let amount = entry_amount(&e);
            let a = amount as i128;
            let fits = if let TransactionType::Deposit = e.kind {
                account.fits_shift(0, -a)
            } else {
                account.fits_shift(0, a)
            };
            if !fits {
                return Err(TransactionProcessingError::BalanceOutOfRange);
            }
            account.chargeback(amount, e.kind);
        },
    }
    state.accounts.insert(client, account);
    proof {
        assert(state@.accounts =~= step(s0, t).0.accounts);
        lemma_step_keeps_wf(s0, t);
    }
    Ok(())
}

/// A locked account rejects every transaction addressed to it with
/// `AccountLocked`, leaving the whole state as it was, and no transaction
/// changes a locked account.
pub proof fn lemma_locked_account_frozen(s: StateModel, t: Transaction, c: u16)
    requires
        s.accounts.contains_key(c),
        s.accounts[c].locked,
    ensures
        t.client == c ==> step(s, t) == (s, Err::<(), TransactionProcessingError>(
            TransactionProcessingError::AccountLocked,
        )),
        step(s, t).0.accounts.contains_key(c),
        step(s, t).0.accounts[c] == s.accounts[c],
{
    if t.client == c {
        assert(step(s, t).0.accounts =~= s.accounts);
    }
}

/// A deposit or withdrawal whose id is already recorded is rejected,
/// whatever the account holds, and changes no balance and no ledger entry.
pub proof fn lemma_duplicate_rejected(s: StateModel, t: Transaction)
    requires
        t.kind is Deposit || t.kind is Withdrawal,
        s.transactions.contains_key(t.tx),
    ensures
        step(s, t).1 is Err,
        step(s, t).0.transactions == s.transactions,
        step(s, t).0.accounts == s.accounts.insert(t.client, s.account_of(t.client)),
        !s.account_of(t.client).locked && t.amount is Some ==> step(s, t).1 == Err::<
            (),
            TransactionProcessingError,
        >(TransactionProcessingError::TransactionAlreadyProcessed),
{
}

/// Depositing, then disputing that deposit, then resolving it, leaves the
/// account's available and held funds as they were before the dispute.
pub proof fn lemma_dispute_resolve_restores(
    s: StateModel,
    deposit: Transaction,
    dispute: Transaction,
    resolve: Transaction,
)
    requires
        s.wf(),
        deposit.kind is Deposit,
        dispute.kind is Dispute,
        dispute.client == deposit.client,
        dispute.tx == deposit.tx,
        resolve.kind is Resolve,
        resolve.client == deposit.client,
        resolve.tx == deposit.tx,
        step(s, deposit).1 is Ok,
        step(step(s, deposit).0, dispute).1 is Ok,
    ensures
        step(step(step(s, deposit).0, dispute).0, resolve).1 is Ok,
        step(step(step(s, deposit).0, dispute).0, resolve).0.account_of(deposit.client).available
            == step(s, deposit).0.account_of(deposit.client).available,
        step(step(step(s, deposit).0, dispute).0, resolve).0.account_of(deposit.client).held
            == step(s, deposit).0.account_of(deposit.client).held,
{
    let s1 = step(s, deposit).0;
    let s2 = step(s1, dispute).0;
    let a1 = s1.account_of(deposit.client);
    let a2 = s2.account_of(deposit.client);
    let e = s1.transactions[deposit.tx];
    assert(e == flagged(deposit, false));
    assert(s2.transactions[deposit.tx] == flagged(e, true));
    assert(a2 == account_after(a1, s1.transactions, dispute));
    let a = e.amount.unwrap() as int;
    assert(shift_of(s1.transactions, dispute) == (-a, a));
    assert(shift_of(s2.transactions, resolve) == (a, -a));
    assert(a2.can_shift((a, -a)));
}

} // verus!
