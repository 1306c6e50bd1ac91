//! Per-client balance records and the primitives that move funds.
use vstd::prelude::*;

use crate::transaction::TransactionType;

verus! {

/// Balance record of one client. Amounts are counts of ten-thousandths.
///
/// `held` may go negative: disputing a withdrawal moves its amount from held
/// back to available.
#[derive(Debug, PartialEq, Eq, Clone, Copy, Structural)]
pub struct Account {
    pub id: u16,
    pub available: i64,
    pub held: i64,
    pub total: i64,
    pub locked: bool,
}

/// Why a primitive refused to move funds.
#[derive(Debug, PartialEq, Eq, Clone, Copy, Structural)]
pub enum AccountError {
    NotEnoughAvailable,
}

pub open spec fn in_i64(x: int) -> bool {
    i64::MIN <= x <= i64::MAX
}

/// Change to (available, held) made by disputing an entry of `kind`.
pub open spec fn dispute_shift(kind: TransactionType, amount: int) -> (int, int) {
    match kind {
        TransactionType::Deposit => (-amount, amount),
        _ => (amount, -amount),
    }
}

/// Change to (available, held) made by resolving a disputed entry of `kind`.
pub open spec fn resolve_shift(kind: TransactionType, amount: int) -> (int, int) {
    let (da, dh) = dispute_shift(kind, amount);
    (-da, -dh)
}

/// Change to (available, held) made by charging back a disputed entry of
/// `kind`: the resolve, then striking the funds from the books.
pub open spec fn chargeback_shift(kind: TransactionType, amount: int) -> (int, int) {
    match kind {
        TransactionType::Deposit => (0, -amount),
        _ => (0, amount),
    }
}

impl Account {
    /// The balance invariant.
    pub open spec fn wf(&self) -> bool {
        self.total == self.available + self.held
    }

    /// The zeroed, unlocked account of client `id`.
    pub open spec fn fresh(id: u16) -> Account {
        Account { id, available: 0, held: 0, total: 0, locked: false }
    }

    /// Moving `da` into available and `dh` into held keeps every balance in range.
    pub open spec fn can_shift(&self, shift: (int, int)) -> bool {
        &&& in_i64(self.available + shift.0)
        &&& in_i64(self.held + shift.1)
        &&& in_i64(self.total + shift.0 + shift.1)
    }

    /// `next` is this account with `shift` applied to available and held, and
    /// their sum to total; its id and lock are unchanged.
    pub open spec fn shifted(&self, next: Account, shift: (int, int)) -> bool {
        &&& next.id == self.id
        &&& next.available == self.available + shift.0
        &&& next.held == self.held + shift.1
        &&& next.total == self.total + shift.0 + shift.1
        &&& next.locked == self.locked
    }

    pub fn new(id: u16) -> (r: Self)
        ensures
            r == Account::fresh(id),
            r.wf(),
    {
        Account { id, available: 0, held: 0, total: 0, locked: false }
    }

    /// Whether `can_shift` holds, for shifts the size of a `u64` amount.
    pub fn fits_shift(&self, da: i128, dh: i128) -> (r: bool)
        requires
            -(u64::MAX as int) <= da <= u64::MAX,
            -(u64::MAX as int) <= dh <= u64::MAX,
        ensures
            r == self.can_shift((da as int, dh as int)),
    {
        let a = self.available as i128 + da;
        let h = self.held as i128 + dh;
        let t = self.total as i128 + da + dh;
        i64::MIN as i128 <= a && a <= i64::MAX as i128 && i64::MIN as i128 <= h && h
            <= i64::MAX as i128 && i64::MIN as i128 <= t && t <= i64::MAX as i128
    }

    pub fn deposit(&mut self, amount: u64)
        requires
            old(self).can_shift((amount as int, 0)),
        ensures
            old(self).shifted(*final(self), (amount as int, 0)),
            old(self).wf() ==> final(self).wf(),
    {
        self.available = (self.available as i128 + amount as i128) as i64;
        self.total = (self.total as i128 + amount as i128) as i64;
    }

    /// Takes `amount` out of available and total, unless available holds less.
    pub fn withdraw(&mut self, amount: u64) -> (r: Result<(), AccountError>)
        requires
            old(self).wf(),
        ensures
            r is Err <==> old(self).available < amount,
            r is Err ==> r == Err::<(), AccountError>(AccountError::NotEnoughAvailable),
            r is Err ==> *final(self) == *old(self),
            r is Ok ==> old(self).shifted(*final(self), (-(amount as int), 0)),
            final(self).wf(),
    {
        if self.available < 0 || (self.available as u64) < amount {
            Err(AccountError::NotEnoughAvailable)
        } else {
            self.force_withdraw(amount);
            Ok(())
        }
    }

    fn force_withdraw(&mut self, amount: u64)
        requires
            old(self).can_shift((-(amount as int), 0)),
        ensures
            old(self).shifted(*final(self), (-(amount as int), 0)),
    {
        self.available = (self.available as i128 - amount as i128) as i64;
        self.total = (self.total as i128 - amount as i128) as i64;
    }

    fn hold(&mut self, amount: u64)
        requires
            old(self).can_shift((-(amount as int), amount as int)),
        ensures
            old(self).shifted(*final(self), (-(amount as int), amount as int)),
    {
        self.available = (self.available as i128 - amount as i128) as i64;
        self.held = (self.held as i128 + amount as i128) as i64;
    }

    fn release(&mut self, amount: u64)
        requires
            old(self).can_shift((amount as int, -(amount as int))),
        ensures
            old(self).shifted(*final(self), (amount as int, -(amount as int))),
    {
        self.available = (self.available as i128 + amount as i128) as i64;
        self.held = (self.held as i128 - amount as i128) as i64;
    }

    /// Disputes an entry of `kind`: a deposit's amount is held, a withdrawal's
    /// is released back to available.
    pub fn dispute(&mut self, amount: u64, transaction_type: TransactionType)
        requires
            old(self).can_shift(dispute_shift(transaction_type, amount as int)),
        ensures
            old(self).shifted(*final(self), dispute_shift(transaction_type, amount as int)),
            old(self).wf() ==> final(self).wf(),
    {
        if let TransactionType::Deposit = transaction_type {
            self.hold(amount);
        } else {
            self.release(amount);
        }
    }

    /// Undoes the dispute of an entry of `kind`.
    pub fn resolve(&mut self, amount: u64, transaction_type: TransactionType)
        requires
            old(self).can_shift(resolve_shift(transaction_type, amount as int)),
        ensures
            old(self).shifted(*final(self), resolve_shift(transaction_type, amount as int)),
            old(self).wf() ==> final(self).wf(),
    {
        if let TransactionType::Deposit = transaction_type {
            self.release(amount);
        } else {
            self.hold(amount);
        }
    }

    /// Charges back a disputed deposit or withdrawal and locks the account.
    ///
    /// The net effect is the resolve followed by striking the funds: a
    /// deposit leaves held and total, a withdrawal comes back into them.
    pub fn chargeback(&mut self, amount: u64, transaction_type: TransactionType)
        requires
            transaction_type is Deposit || transaction_type is Withdrawal,
            old(self).can_shift(chargeback_shift(transaction_type, amount as int)),
        ensures
            final(self).id == old(self).id,
            final(self).available == old(self).available + chargeback_shift(
                transaction_type,
                amount as int,
            ).0,
            final(self).held == old(self).held + chargeback_shift(
                transaction_type,
                amount as int,
            ).1,
            final(self).total == old(self).total + chargeback_shift(
                transaction_type,
                amount as int,
            ).1,
            final(self).locked,
            old(self).wf() ==> final(self).wf(),
    {
        match transaction_type {
            TransactionType::Deposit => {
                self.held = (self.held as i128 - amount as i128) as i64;
                self.total = (self.total as i128 - amount as i128) as i64;
            },
            _ => {
                self.held = (self.held as i128 + amount as i128) as i64;
                self.total = (self.total as i128 + amount as i128) as i64;
            },
        }
        self.locked = true;
    }
}

} // verus!
