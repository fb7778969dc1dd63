//! The account processor: a sequential execution unit wrapping one ledger
//! account. It applies transaction records in arrival order until a
//! terminal `Collect` request yields the final snapshot and stops it.

use vstd::prelude::*;

use crate::model::{
    account_wf, deposit_fits, dispute_fits, held_covers, initial_account, resolve_fits,
    spec_chargeback, spec_deposit, spec_dispute, spec_resolve, spec_withdraw, Account,
    AccountState, Collect, Transaction, TransactionError, TransactionType,
};

verus! {

/// What applying one record to an account state yields: a deposit or
/// withdrawal without an amount is refused as `InvalidOperation`, and the
/// other kinds route to the matching account operation.
pub open spec fn spec_apply(s: AccountState, t: Transaction) -> (AccountState, Result<
    (),
    TransactionError,
>) {
    match t.transaction_type {
        TransactionType::Deposit => match t.amount {
            Some(v) => spec_deposit(s, v@, t.tx),
            None => (s, Err(TransactionError::InvalidOperation)),
        },
        TransactionType::Withdrawal => match t.amount {
            Some(v) => spec_withdraw(s, v@, t.tx),
            None => (s, Err(TransactionError::InvalidOperation)),
        },
        TransactionType::Dispute => spec_dispute(s, t.tx),
        TransactionType::Resolve => spec_resolve(s, t.tx),
        TransactionType::Chargeback => spec_chargeback(s, t.tx),
    }
}

/// Whether applying `t` to `s` stays within the representable range and
/// keeps `held` covering the disputed amount. When it does not, the
/// processor reports a fault and applies nothing.
pub open spec fn apply_fits(s: AccountState, t: Transaction) -> bool {
    match t.transaction_type {
        TransactionType::Deposit => match t.amount {
            Some(v) => deposit_fits(s, v@),
            None => true,
        },
        TransactionType::Withdrawal => true,
        TransactionType::Dispute => dispute_fits(s, t.tx),
        TransactionType::Resolve => resolve_fits(s, t.tx),
        TransactionType::Chargeback => held_covers(s, t.tx),
    }
}

/// A processor owning exactly one account. It has two phases: running, in
/// which `handle` applies records in call order, and stopped, after
/// `collect` has yielded the final snapshot. No transition leads back.
pub struct AccountHandler {
    account: Option<Account>,
}

impl AccountHandler {
    /// Whether the processor still accepts transactions.
    pub closed spec fn running(&self) -> bool {
        self.account is Some
    }

    /// The wrapped account's state.
    pub closed spec fn state(&self) -> AccountState {
        match self.account {
            Some(a) => a@,
            None => vstd::pervasive::arbitrary(),
        }
    }

    /// A running processor wraps a well-formed account.
    pub open spec fn wf(&self) -> bool {
        self.running() ==> account_wf(self.state())
    }

    /// Creates a processor around a fresh account for `client`.
    pub fn new(client: u16) -> (h: AccountHandler)
        ensures
            h.running(),
            h.wf(),
            h.state() == initial_account(client),
    {
        AccountHandler { account: Some(Account::new(client)) }
    }

    /// Whether the processor still accepts transactions.
    pub fn is_running(&self) -> (b: bool)
        ensures
            b == self.running(),
    {
        self.account.is_some()
    }

    /// The client the wrapped account belongs to.
    pub fn client(&self) -> (c: u16)
        requires
            self.running(),
        ensures
            c == self.state().client,
    {
        match self.account.as_ref() {
            Some(a) => a.client(),
            None => vstd::pervasive::unreached(),
        }
    }

    /// Applies one record to the wrapped account. `None` reports that the
    /// record would take the account out of range or found its held funds
    /// short of a disputed amount: nothing was applied, and the batch
    /// should stop rather than continue on an inconsistent account.
    pub fn handle(&mut self, t: &Transaction) -> (r: Option<Result<(), TransactionError>>)
        requires
            old(self).running(),
            old(self).wf(),
        ensures
            final(self).running(),
            final(self).wf(),
            final(self).state().client == old(self).state().client,
            apply_fits(old(self).state(), *t) ==> (final(self).state(), r) == {
                let (s2, res) = spec_apply(old(self).state(), *t);
                (s2, Some(res))
            },
            !apply_fits(old(self).state(), *t) ==> final(self).state() == old(self).state()
                && r is None,
    {
        match self.account.as_mut() {
            Some(acc) => match t.transaction_type {
                TransactionType::Deposit => match t.amount {
                    Some(v) => acc.checked_deposit(v, t.tx),
                    None => Some(Err(TransactionError::InvalidOperation)),
                },
                TransactionType::Withdrawal => match t.amount {
                    Some(v) => Some(acc.withdraw(v, t.tx)),
                    None => Some(Err(TransactionError::InvalidOperation)),
                },
                TransactionType::Dispute => acc.checked_dispute(t.tx),
                TransactionType::Resolve => acc.checked_resolve(t.tx),
                TransactionType::Chargeback => acc.checked_chargeback(t.tx),
            },
            None => vstd::pervasive::unreached(),
        }
    }

    /// Answers the terminal request: yields the account and stops the
    /// processor. A later request finds it stopped and yields nothing.
    pub fn collect(&mut self, _request: Collect) -> (snap: Option<Account>)
        ensures
            !final(self).running(),
            old(self).running() == (snap is Some),
            old(self).running() ==> (snap matches Some(a) && a@ == old(self).state()),
    {
        self.account.take()
    }
}

} // verus!
