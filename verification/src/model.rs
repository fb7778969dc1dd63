//! The per-account ledger: transaction records, errors, and the account
//! state machine with its transition rules.

use std::collections::{HashMap, HashSet};
use vstd::prelude::*;

use crate::amount::{
    lemma_round4_bounds, lemma_round4_capped, lemma_round4_exact, round4, Amount, MAX_UNITS,
};

verus! {

broadcast use vstd::std_specs::hash::group_hash_axioms;

/// The five kinds of transaction record.
#[derive(Clone, Copy, PartialEq, Eq, Structural, Debug)]
pub enum TransactionType {
    Deposit,
    Withdrawal,
    Dispute,
    Resolve,
    Chargeback,
}

/// One input record: a kind, the client account it concerns, a transaction
/// identifier, and (for deposits and withdrawals) an amount.
#[derive(Clone, Copy, Debug)]
pub struct Transaction {
    pub transaction_type: TransactionType,
    pub client: u16,
    pub tx: u32,
    pub amount: Option<Amount>,
}

/// A terminal request for an account's final snapshot; after answering it a
/// processor accepts no further work.
pub struct Collect;

/// The ways a single transaction can fail to apply. None of them aborts the
/// batch and none of them changes the account it was aimed at.
#[derive(Clone, Copy, PartialEq, Eq, Structural, Debug)]
pub enum TransactionError {
    InsufficientFunds,
    InvalidOperation,
    AccountLocked,
    TransactionAlreadyInDispute,
    TransactionNotInDispute,
    TransactionNotFound,
}

/// A history entry: a previously accepted deposit or withdrawal and its
/// exact amount.
#[derive(Clone, Copy)]
enum MoneyTransaction {
    Deposit(Amount),
    Withdraw(Amount),
}

/// The mathematical image of one history entry.
pub ghost struct MovementState {
    pub is_deposit: bool,
    pub amount: int,
}

impl View for MoneyTransaction {
    type V = MovementState;

    closed spec fn view(&self) -> MovementState {
        match *self {
            MoneyTransaction::Deposit(v) => MovementState { is_deposit: true, amount: v@ },
            MoneyTransaction::Withdraw(v) => MovementState { is_deposit: false, amount: v@ },
        }
    }
}

impl MoneyTransaction {
    /// The recorded amount, whichever kind the entry is.
    fn value(&self) -> (v: Amount)
        ensures
            v@ == self@.amount,
    {
        match *self {
            MoneyTransaction::Deposit(v) => v,
            MoneyTransaction::Withdraw(v) => v,
        }
    }
}

/// The mathematical image of an account: balances in base units, the lock
/// flag, the set of transactions under dispute, and the movement history.
#[verifier::ext_equal]
pub ghost struct AccountState {
    pub client: u16,
    pub available: int,
    pub held: int,
    pub total: int,
    pub locked: bool,
    pub disputed: Set<u32>,
    pub history: Map<u32, MovementState>,
}

/// The state a freshly created account starts in.
pub open spec fn initial_account(client: u16) -> AccountState {
    AccountState {
        client: client,
        available: 0,
        held: 0,
        total: 0,
        locked: false,
        disputed: Set::empty(),
        history: Map::empty(),
    }
}

/// Well-formedness of an account: balances are non-negative multiples of the
/// rounding grain within range, `total` sits within one grain of
/// `available + held`, every disputed transaction is on record, and recorded
/// amounts are in range. A transaction only enters the disputed set while
/// its history entry is a deposit, but a later record that reuses the
/// identifier may overwrite the entry: identifiers are assumed unique and
/// not re-validated.
pub open spec fn account_wf(s: AccountState) -> bool {
    &&& 0 <= s.available <= MAX_UNITS as int
    &&& s.available % 10_000 == 0
    &&& 0 <= s.held <= MAX_UNITS as int
    &&& s.held % 10_000 == 0
    &&& 0 <= s.total <= 2 * (MAX_UNITS as int)
    &&& s.total % 10_000 == 0
    &&& {
        let d = s.total - (s.available + s.held);
        d == 0 || d == 10_000 || d == -10_000
    }
    &&& forall|tx: u32| s.disputed.contains(tx) ==> s.history.dom().contains(tx)
    &&& forall|tx: u32|
        s.history.dom().contains(tx) ==> 0 <= s.history[tx].amount <= MAX_UNITS as int
}

/// Rounds the three money fields of `s` as every operation does on its way
/// out: `total` is recomputed from the unrounded components first, then all
/// three fields are rounded to four places.
pub open spec fn rounded_state(s: AccountState) -> AccountState {
    AccountState {
        available: round4(s.available),
        held: round4(s.held),
        total: round4(s.available + s.held),
        ..s
    }
}

/// What `deposit` does: refused on a locked account; otherwise the amount is
/// added to `available`, recorded in the history, and the fields are rounded.
pub open spec fn spec_deposit(s: AccountState, v: int, tx: u32) -> (AccountState, Result<
    (),
    TransactionError,
>) {
    if s.locked {
        (s, Err(TransactionError::AccountLocked))
    } else {
        let s1 = AccountState {
            available: s.available + v,
            history: s.history.insert(tx, MovementState { is_deposit: true, amount: v }),
            ..s
        };
        (rounded_state(s1), Ok(()))
    }
}

/// What `withdraw` does: refused on a locked account or when `available` is
/// short; otherwise the amount leaves `available` and is recorded.
pub open spec fn spec_withdraw(s: AccountState, v: int, tx: u32) -> (AccountState, Result<
    (),
    TransactionError,
>) {
    if s.locked {
        (s, Err(TransactionError::AccountLocked))
    } else if s.available < v {
        (s, Err(TransactionError::InsufficientFunds))
    } else {
        let s1 = AccountState {
            available: s.available - v,
            history: s.history.insert(tx, MovementState { is_deposit: false, amount: v }),
            ..s
        };
        (rounded_state(s1), Ok(()))
    }
}

/// What `dispute` does: after its guards pass, the recorded amount moves from
/// `available` to `held` and the transaction joins the disputed set.
pub open spec fn spec_dispute(s: AccountState, tx: u32) -> (AccountState, Result<
    (),
    TransactionError,
>) {
    if s.locked {
        (s, Err(TransactionError::AccountLocked))
    } else if s.disputed.contains(tx) {
        (s, Err(TransactionError::TransactionAlreadyInDispute))
    } else if !s.history.dom().contains(tx) {
        (s, Err(TransactionError::TransactionNotFound))
    } else if !s.history[tx].is_deposit {
        (s, Err(TransactionError::InvalidOperation))
    } else if s.available < s.history[tx].amount {
        (s, Err(TransactionError::InsufficientFunds))
    } else {
        let v = s.history[tx].amount;
        let s1 = AccountState {
            available: s.available - v,
            held: s.held + v,
            disputed: s.disputed.insert(tx),
            ..s
        };
        (rounded_state(s1), Ok(()))
    }
}

/// What `resolve` does: after its guards pass, the disputed amount moves back
/// from `held` to `available` and the dispute is closed.
pub open spec fn spec_resolve(s: AccountState, tx: u32) -> (AccountState, Result<
    (),
    TransactionError,
>) {
    if s.locked {
        (s, Err(TransactionError::AccountLocked))
    } else if !s.history.dom().contains(tx) {
        (s, Err(TransactionError::TransactionNotFound))
    } else if !s.disputed.contains(tx) {
        (s, Err(TransactionError::TransactionNotInDispute))
    } else {
        let v = s.history[tx].amount;
        let s1 = AccountState {
            available: s.available + v,
            held: s.held - v,
            disputed: s.disputed.remove(tx),
            ..s
        };
        (rounded_state(s1), Ok(()))
    }
}

/// What `chargeback` does: after its guards pass, the disputed amount leaves
/// `held` for good and the account is locked.
pub open spec fn spec_chargeback(s: AccountState, tx: u32) -> (AccountState, Result<
    (),
    TransactionError,
>) {
    if s.locked {
        (s, Err(TransactionError::AccountLocked))
    } else if !s.history.dom().contains(tx) {
        (s, Err(TransactionError::TransactionNotFound))
    } else if !s.disputed.contains(tx) {
        (s, Err(TransactionError::TransactionNotInDispute))
    } else {
        let v = s.history[tx].amount;
        let s1 = AccountState {
            held: s.held - v,
            locked: true,
            disputed: s.disputed.remove(tx),
            ..s
        };
        (rounded_state(s1), Ok(()))
    }
}

/// A deposit of `v` stays within the representable range.
pub open spec fn deposit_fits(s: AccountState, v: int) -> bool {
    !s.locked ==> s.available + v <= MAX_UNITS as int
}

/// All guards of `dispute` pass for `tx`.
pub open spec fn dispute_applies(s: AccountState, tx: u32) -> bool {
    &&& !s.locked
    &&& !s.disputed.contains(tx)
    &&& s.history.dom().contains(tx)
    &&& s.history[tx].is_deposit
    &&& s.available >= s.history[tx].amount
}

/// A dispute of `tx` keeps `held` within the representable range.
pub open spec fn dispute_fits(s: AccountState, tx: u32) -> bool {
    dispute_applies(s, tx) ==> s.held + s.history[tx].amount <= MAX_UNITS as int
}

/// All guards of `resolve` and `chargeback` pass for `tx`.
pub open spec fn settle_applies(s: AccountState, tx: u32) -> bool {
    &&& !s.locked
    &&& s.history.dom().contains(tx)
    &&& s.disputed.contains(tx)
}

/// Settling `tx` would not drive `held` negative. A state in which this
/// fails is internally inconsistent; applying a settlement there is refused
/// by the checked entry points rather than applied.
pub open spec fn held_covers(s: AccountState, tx: u32) -> bool {
    settle_applies(s, tx) ==> s.held >= s.history[tx].amount
}

/// Resolving `tx` is safe: `held` covers it and the refund stays in range.
pub open spec fn resolve_fits(s: AccountState, tx: u32) -> bool {
    settle_applies(s, tx) ==> s.held >= s.history[tx].amount && s.available + s.history[tx].amount
        <= MAX_UNITS as int
}

/// The per-client ledger record: balances, lock state, the set of
/// transactions under dispute, and the movement history.
pub struct Account {
    client: u16,
    available: Amount,
    held: Amount,
    total: Amount,
    locked: bool,
    disputed: HashSet<u32>,
    tx_history: HashMap<u32, MoneyTransaction>,
}

impl View for Account {
    type V = AccountState;

    closed spec fn view(&self) -> AccountState {
        AccountState {
            client: self.client,
            available: self.available@,
            held: self.held@,
            total: self.total@,
            locked: self.locked,
            disputed: self.disputed@,
            history: self.tx_history@.map_values(|m: MoneyTransaction| m@),
        }
    }
}

impl Account {
    /// Creates a new, empty, unlocked account for `client`.
    pub fn new(client: u16) -> (a: Account)
        ensures
            a@ == initial_account(client),
            account_wf(a@),
    {
        let a = Account {
            client,
            available: Amount::zero(),
            held: Amount::zero(),
            total: Amount::zero(),
            locked: false,
            disputed: HashSet::new(),
            tx_history: HashMap::new(),
        };
        proof {
            assert(a@.history =~= initial_account(client).history);
            assert(a@ =~= initial_account(client));
        }
        a
    }

    /// The client identifier this account belongs to.
    pub fn client(&self) -> (c: u16)
        ensures
            c == self@.client,
    {
        self.client
    }

    /// Funds the client may withdraw or have disputed.
    pub fn available(&self) -> (v: Amount)
        ensures
            v@ == self@.available,
    {
        self.available
    }

    /// Funds frozen by active disputes.
    pub fn held(&self) -> (v: Amount)
        ensures
            v@ == self@.held,
    {
        self.held
    }

    /// The account's total funds.
    pub fn total(&self) -> (v: Amount)
        ensures
            v@ == self@.total,
    {
        self.total
    }

    /// Whether a chargeback has locked the account.
    pub fn locked(&self) -> (l: bool)
        ensures
            l == self@.locked,
    {
        self.locked
    }

    /// Recomputes `total` from the unrounded components, then rounds all
    /// three money fields to four places.
    fn update_total_round(&mut self)
        requires
            0 <= old(self)@.available,
            0 <= old(self)@.held,
            old(self)@.available + old(self)@.held + 10_000 <= u128::MAX,
        ensures
            final(self)@ == rounded_state(old(self)@),
    {
        self.total = self.held.add(self.available).rounded4();
        self.available = self.available.rounded4();
        self.held = self.held.rounded4();
        proof {
            assert(self@ =~= rounded_state(old(self)@));
        }
    }

    /// Deposits `value` under transaction `tx`: fails only on a locked
    /// account, and otherwise adds the amount to `available` and records it.
    pub fn deposit(&mut self, value: Amount, tx: u32) -> (result: Result<(), TransactionError>)
        requires
            account_wf(old(self)@),
            deposit_fits(old(self)@, value@),
        ensures
            account_wf(final(self)@),
            (final(self)@, result) == spec_deposit(old(self)@, value@, tx),
    {
        if self.locked {
            return Err(TransactionError::AccountLocked);
        }
        self.available = self.available.add(value);
        self.tx_history.insert(tx, MoneyTransaction::Deposit(value));
        proof {
            assert(self@.history =~= old(self)@.history.insert(
                tx,
                MovementState { is_deposit: true, amount: value@ },
            ));
        }
        let ghost s1 = self@;
        self.update_total_round();
        proof {
            lemma_round4_bounds(s1.available);
            lemma_round4_exact(s1.held);
            lemma_round4_capped(s1.available, MAX_UNITS as int);
            lemma_round4_capped(s1.available + s1.held, 2 * (MAX_UNITS as int));
            lemma_round4_bounds(s1.available + s1.held);
            assert(self@ =~= spec_deposit(old(self)@, value@, tx).0);
            lemma_round4_split(s1.available, s1.held);
        }
        Ok(())
    }

    /// Withdraws `value` under transaction `tx`: fails on a locked account
    /// or when `available` is short of the amount.
    pub fn withdraw(&mut self, value: Amount, tx: u32) -> (result: Result<(), TransactionError>)
        requires
            account_wf(old(self)@),
        ensures
            account_wf(final(self)@),
            (final(self)@, result) == spec_withdraw(old(self)@, value@, tx),
    {
        if self.locked {
            return Err(TransactionError::AccountLocked);
        }
        if !self.available.ge(value) {
            return Err(TransactionError::InsufficientFunds);
        }
        self.available = self.available.sub(value);
        self.tx_history.insert(tx, MoneyTransaction::Withdraw(value));
        proof {
            assert(self@.history =~= old(self)@.history.insert(
                tx,
                MovementState { is_deposit: false, amount: value@ },
            ));
        }
        let ghost s1 = self@;
        self.update_total_round();
        proof {
            lemma_round4_bounds(s1.available);
            lemma_round4_exact(s1.held);
            lemma_round4_capped(s1.available, MAX_UNITS as int);
            lemma_round4_capped(s1.available + s1.held, 2 * (MAX_UNITS as int));
            lemma_round4_bounds(s1.available + s1.held);
            assert(self@ =~= spec_withdraw(old(self)@, value@, tx).0);
            lemma_round4_split(s1.available, s1.held);
        }
        Ok(())
    }

    /// Opens a dispute on `tx`: the recorded deposit amount moves from
    /// `available` to `held` and `tx` joins the disputed set.
    pub fn dispute(&mut self, tx: u32) -> (result: Result<(), TransactionError>)
        requires
            account_wf(old(self)@),
            dispute_fits(old(self)@, tx),
        ensures
            account_wf(final(self)@),
            (final(self)@, result) == spec_dispute(old(self)@, tx),
    {
        if self.locked {
            return Err(TransactionError::AccountLocked);
        }
        if self.disputed.contains(&tx) {
            return Err(TransactionError::TransactionAlreadyInDispute);
        }
        let value = match self.tx_history.get(&tx) {
            None => {
                return Err(TransactionError::TransactionNotFound);
            },
            Some(origin) => {
                match origin {
                    MoneyTransaction::Deposit(v) => *v,
                    MoneyTransaction::Withdraw(_) => {
                        return Err(TransactionError::InvalidOperation);
                    },
                }
            },
        };
        if !self.available.ge(value) {
            return Err(TransactionError::InsufficientFunds);
        }
        self.available = self.available.sub(value);
        self.held = self.held.add(value);
        self.disputed.insert(tx);
        proof {
            assert(self@.disputed =~= old(self)@.disputed.insert(tx));
            assert(self@.history =~= old(self)@.history);
        }
        let ghost s1 = self@;
        self.update_total_round();
        proof {
            lemma_round4_bounds(s1.available);
            lemma_round4_bounds(s1.held);
            lemma_round4_capped(s1.available, MAX_UNITS as int);
            lemma_round4_capped(s1.held, MAX_UNITS as int);
            lemma_round4_capped(s1.available + s1.held, 2 * (MAX_UNITS as int));
            lemma_round4_bounds(s1.available + s1.held);
            assert(self@ =~= spec_dispute(old(self)@, tx).0);
            lemma_round4_split(s1.available, s1.held);
        }
        Ok(())
    }

    /// Closes the dispute on `tx` in the client's favour: the disputed
    /// amount returns from `held` to `available`.
    pub fn resolve(&mut self, tx: u32) -> (result: Result<(), TransactionError>)
        requires
            account_wf(old(self)@),
            resolve_fits(old(self)@, tx),
        ensures
            account_wf(final(self)@),
            (final(self)@, result) == spec_resolve(old(self)@, tx),
    {
        if self.locked {
            return Err(TransactionError::AccountLocked);
        }
        let value = match self.tx_history.get(&tx) {
            None => {
                return Err(TransactionError::TransactionNotFound);
            },
            Some(origin) => origin.value(),
        };
        if !self.disputed.contains(&tx) {
            return Err(TransactionError::TransactionNotInDispute);
        }
        self.available = self.available.add(value);
        self.held = self.held.sub(value);
        self.disputed.remove(&tx);
        proof {
            assert(self@.disputed =~= old(self)@.disputed.remove(tx));
            assert(self@.history =~= old(self)@.history);
        }
        let ghost s1 = self@;
        self.update_total_round();
        proof {
            lemma_round4_bounds(s1.available);
            lemma_round4_bounds(s1.held);
            lemma_round4_capped(s1.available, MAX_UNITS as int);
            lemma_round4_capped(s1.held, MAX_UNITS as int);
            lemma_round4_capped(s1.available + s1.held, 2 * (MAX_UNITS as int));
            lemma_round4_bounds(s1.available + s1.held);
            assert(self@ =~= spec_resolve(old(self)@, tx).0);
            lemma_round4_split(s1.available, s1.held);
        }
        Ok(())
    }

    /// Upholds the dispute on `tx`: the disputed amount leaves the account
    /// for good and the account is locked against all further mutation.
    pub fn chargeback(&mut self, tx: u32) -> (result: Result<(), TransactionError>)
        requires
            account_wf(old(self)@),
            held_covers(old(self)@, tx),
        ensures
            account_wf(final(self)@),
            (final(self)@, result) == spec_chargeback(old(self)@, tx),
    {
        if self.locked {
            return Err(TransactionError::AccountLocked);
        }
        let value = match self.tx_history.get(&tx) {
            None => {
                return Err(TransactionError::TransactionNotFound);
            },
            Some(origin) => origin.value(),
        };
        if !self.disputed.contains(&tx) {
            return Err(TransactionError::TransactionNotInDispute);
        }
        self.held = self.held.sub(value);
        self.locked = true;
        self.disputed.remove(&tx);
        proof {
            assert(self@.disputed =~= old(self)@.disputed.remove(tx));
            assert(self@.history =~= old(self)@.history);
        }
        let ghost s1 = self@;
        self.update_total_round();
        proof {
            lemma_round4_exact(s1.available);
            lemma_round4_bounds(s1.held);
            lemma_round4_capped(s1.held, MAX_UNITS as int);
            lemma_round4_capped(s1.available + s1.held, 2 * (MAX_UNITS as int));
            lemma_round4_bounds(s1.available + s1.held);
            assert(self@ =~= spec_chargeback(old(self)@, tx).0);
            lemma_round4_split(s1.available, s1.held);
        }
        Ok(())
    }
    /// `deposit`, preceded by a run-time check that the sum stays in
    /// range: `None` reports the out-of-range deposit, applied nowhere,
    /// instead of a panic.
    pub fn checked_deposit(&mut self, value: Amount, tx: u32) -> (result: Option<
        Result<(), TransactionError>,
    >)
        requires
            account_wf(old(self)@),
        ensures
            account_wf(final(self)@),
            deposit_fits(old(self)@, value@) ==> (final(self)@, result) == {
                let (s2, r) = spec_deposit(old(self)@, value@, tx);
                (s2, Some(r))
            },
            !deposit_fits(old(self)@, value@) ==> final(self)@ == old(self)@ && result is None,
    {
        if !self.locked {
            if value.units > MAX_UNITS || self.available.units > MAX_UNITS - value.units {
                return None;
            }
        }
        Some(self.deposit(value, tx))
    }

    /// `dispute`, preceded by a run-time check that `held` stays in range:
    /// `None` reports the out-of-range dispute, applied nowhere, instead of
    /// a panic.
    pub fn checked_dispute(&mut self, tx: u32) -> (result: Option<Result<(), TransactionError>>)
        requires
            account_wf(old(self)@),
        ensures
            account_wf(final(self)@),
            dispute_fits(old(self)@, tx) ==> (final(self)@, result) == {
                let (s2, r) = spec_dispute(old(self)@, tx);
                (s2, Some(r))
            },
            !dispute_fits(old(self)@, tx) ==> final(self)@ == old(self)@ && result is None,
    {
        let fatal = if self.locked || self.disputed.contains(&tx) {
            false
        } else {
            match self.tx_history.get(&tx) {
                Some(MoneyTransaction::Deposit(v)) => {
                    proof {
                        assert(self@.history.dom().contains(tx));
                    }
                    self.available.ge(*v) && self.held.units > MAX_UNITS - v.units
                },
                _ => false,
            }
        };
        if fatal {
            return None;
        }
        Some(self.dispute(tx))
    }

    /// `resolve`, preceded by a run-time check that `held` covers the
    /// disputed amount and the refund stays in range: `None` reports the
    /// inconsistent state, applied nowhere, instead of a panic.
    pub fn checked_resolve(&mut self, tx: u32) -> (result: Option<Result<(), TransactionError>>)
        requires
            account_wf(old(self)@),
        ensures
            account_wf(final(self)@),
            resolve_fits(old(self)@, tx) ==> (final(self)@, result) == {
                let (s2, r) = spec_resolve(old(self)@, tx);
                (s2, Some(r))
            },
            !resolve_fits(old(self)@, tx) ==> final(self)@ == old(self)@ && result is None,
    {
        let fatal = if self.locked || !self.disputed.contains(&tx) {
            false
        } else {
            match self.tx_history.get(&tx) {
                Some(origin) => {
                    proof {
                        assert(self@.history.dom().contains(tx));
                    }
                    let v = origin.value();
                    !self.held.ge(v) || self.available.units > MAX_UNITS - v.units
                },
                None => false,
            }
        };
        if fatal {
            return None;
        }
        Some(self.resolve(tx))
    }

    /// `chargeback`, preceded by a run-time check that `held` covers the
    /// disputed amount: `None` reports the inconsistent state, applied
    /// nowhere, instead of a panic.
    pub fn checked_chargeback(&mut self, tx: u32) -> (result: Option<
        Result<(), TransactionError>,
    >)
        requires
            account_wf(old(self)@),
        ensures
            account_wf(final(self)@),
            held_covers(old(self)@, tx) ==> (final(self)@, result) == {
                let (s2, r) = spec_chargeback(old(self)@, tx);
                (s2, Some(r))
            },
            !held_covers(old(self)@, tx) ==> final(self)@ == old(self)@ && result is None,
    {
        let fatal = if self.locked || !self.disputed.contains(&tx) {
            false
        } else {
            match self.tx_history.get(&tx) {
                Some(origin) => !self.held.ge(origin.value()),
                None => false,
            }
        };
        if fatal {
            return None;
        }
        Some(self.chargeback(tx))
    }
}

/// Law: a well-formed account always keeps `total` within one rounding
/// grain of `available + held`.
pub proof fn lemma_total_within_grain(s: AccountState)
    requires
        account_wf(s),
    ensures
        s.available + s.held - 10_000 <= s.total <= s.available + s.held + 10_000,
{
}

/// Law: after a successful deposit or withdrawal whose rounding hits no
/// half-grain tie, `total` equals `available + held` exactly.
pub proof fn lemma_move_total_exact(s: AccountState, v: int, tx: u32)
    requires
        account_wf(s),
        0 <= v,
    ensures
        (s.available + v) % 10_000 != 5000 ==> {
            let (s2, r) = spec_deposit(s, v, tx);
            r == Ok::<(), TransactionError>(()) ==> s2.total == s2.available + s2.held
        },
        (s.available - v) % 10_000 != 5000 ==> {
            let (s2, r) = spec_withdraw(s, v, tx);
            r == Ok::<(), TransactionError>(()) ==> s2.total == s2.available + s2.held
        },
{
    if !s.locked {
        lemma_round4_split(s.available + v, s.held);
        if v <= s.available {
            lemma_round4_split(s.available - v, s.held);
        }
    }
}

/// Law: after a successful dispute, resolve or chargeback whose rounding
/// hits no half-grain tie, `total` equals `available + held` exactly.
#[verifier::rlimit(60)]
pub proof fn lemma_settle_total_exact(s: AccountState, tx: u32)
    requires
        account_wf(s),
    ensures
        s.history.dom().contains(tx) && (s.available - s.history[tx].amount) % 10_000 != 5000
            ==> {
            let (s2, r) = spec_dispute(s, tx);
            r == Ok::<(), TransactionError>(()) ==> s2.total == s2.available + s2.held
        },
        s.history.dom().contains(tx) && (s.available + s.history[tx].amount) % 10_000 != 5000
            ==> {
            let (s2, r) = spec_resolve(s, tx);
            r == Ok::<(), TransactionError>(()) ==> s2.total == s2.available + s2.held
        },
        s.history.dom().contains(tx) && (s.held - s.history[tx].amount) % 10_000 != 5000 ==> {
            let (s2, r) = spec_chargeback(s, tx);
            r == Ok::<(), TransactionError>(()) ==> s2.total == s2.available + s2.held
        },
{
    if s.history.dom().contains(tx) {
        let v = s.history[tx].amount;
        if 0 <= v <= s.available {
            lemma_round4_split(s.available - v, s.held + v);
        }
        if 0 <= v <= s.held {
            lemma_round4_split(s.available + v, s.held - v);
            lemma_round4_split(s.held - v, s.available);
        }
    }
}

/// Law: on a locked account every operation fails with `AccountLocked` and
/// changes nothing.
pub proof fn lemma_locked_rejects_all(s: AccountState, v: int, tx: u32)
    requires
        s.locked,
    ensures
        spec_deposit(s, v, tx) == (s, Err::<(), TransactionError>(TransactionError::AccountLocked)),
        spec_withdraw(s, v, tx) == (
            s,
            Err::<(), TransactionError>(TransactionError::AccountLocked),
        ),
        spec_dispute(s, tx) == (s, Err::<(), TransactionError>(TransactionError::AccountLocked)),
        spec_resolve(s, tx) == (s, Err::<(), TransactionError>(TransactionError::AccountLocked)),
        spec_chargeback(s, tx) == (
            s,
            Err::<(), TransactionError>(TransactionError::AccountLocked),
        ),
{
}

/// Law: a deposit followed at once by a chargeback of the same transaction,
/// with no dispute in between, fails with `TransactionNotInDispute` and
/// leaves the deposited state untouched.
pub proof fn lemma_chargeback_needs_dispute(s: AccountState, v: int, tx: u32)
    requires
        !s.locked,
        !s.disputed.contains(tx),
    ensures
        ({
            let (s1, r1) = spec_deposit(s, v, tx);
            r1 == Ok::<(), TransactionError>(()) && spec_chargeback(s1, tx) == (
                s1,
                Err::<(), TransactionError>(TransactionError::TransactionNotInDispute),
            )
        }),
{
}

/// Law: disputing the same transaction twice in a row fails the second
/// time with `TransactionAlreadyInDispute` and changes nothing.
pub proof fn lemma_dispute_twice(s: AccountState, tx: u32)
    ensures
        ({
            let (s1, r1) = spec_dispute(s, tx);
            r1 == Ok::<(), TransactionError>(()) ==> spec_dispute(s1, tx) == (
                s1,
                Err::<(), TransactionError>(TransactionError::TransactionAlreadyInDispute),
            )
        }),
{
}

/// Law: on an unlocked account, resolving or charging back a transaction
/// that is on record but not under dispute fails with
/// `TransactionNotInDispute`; one that is not on record fails with
/// `TransactionNotFound`, as does disputing it.
pub proof fn lemma_settle_needs_dispute(s: AccountState, tx: u32)
    requires
        !s.locked,
    ensures
        s.history.dom().contains(tx) && !s.disputed.contains(tx) ==> spec_resolve(s, tx) == (
            s,
            Err::<(), TransactionError>(TransactionError::TransactionNotInDispute),
        ) && spec_chargeback(s, tx) == (
            s,
            Err::<(), TransactionError>(TransactionError::TransactionNotInDispute),
        ),
        !s.history.dom().contains(tx) ==> spec_resolve(s, tx) == (
            s,
            Err::<(), TransactionError>(TransactionError::TransactionNotFound),
        ) && spec_chargeback(s, tx) == (
            s,
            Err::<(), TransactionError>(TransactionError::TransactionNotFound),
        ),
        !s.history.dom().contains(tx) && !s.disputed.contains(tx) ==> spec_dispute(s, tx) == (
            s,
            Err::<(), TransactionError>(TransactionError::TransactionNotFound),
        ),
{
}

/// Law: after a successful withdrawal, disputing its transaction fails
/// with `InvalidOperation`: only deposits may be disputed.
pub proof fn lemma_dispute_withdrawal_refused(s: AccountState, v: int, tx: u32)
    requires
        !s.disputed.contains(tx),
    ensures
        ({
            let (s1, r1) = spec_withdraw(s, v, tx);
            r1 == Ok::<(), TransactionError>(()) ==> spec_dispute(s1, tx) == (
                s1,
                Err::<(), TransactionError>(TransactionError::InvalidOperation),
            )
        }),
{
}

/// Rounding two non-negative parts separately lands within one grain of
/// rounding their sum, and exactly on it when neither part sits on a tie.
pub proof fn lemma_round4_split(a: int, h: int)
    requires
        0 <= a,
        0 <= h,
    ensures
        ({
            let d = round4(a + h) - (round4(a) + round4(h));
            d == 0 || d == 10_000 || d == -10_000
        }),
        h % 10_000 == 0 && a % 10_000 != 5000 ==> round4(a + h) == round4(a) + round4(h),
        (a + h) % 10_000 == 0 && a % 10_000 != 5000 ==> round4(a + h) == round4(a) + round4(h),
{
    let ra = a % 10_000;
    let rh = h % 10_000;
    let qa = a / 10_000;
    let qh = h / 10_000;
    vstd::arithmetic::div_mod::lemma_fundamental_div_mod(a, 10_000);
    vstd::arithmetic::div_mod::lemma_fundamental_div_mod(h, 10_000);
    vstd::arithmetic::div_mod::lemma_fundamental_div_mod(a + h, 10_000);
    if ra + rh < 10_000 {
        lemma_div_of_sum(a, h, qa + qh, ra + rh);
    } else {
        lemma_div_of_sum(a, h, qa + qh + 1, ra + rh - 10_000);
    }
}

/// When `a + h == q * 10_000 + r` with `0 <= r < 10_000`, division recovers
/// `q` and `r`.
proof fn lemma_div_of_sum(a: int, h: int, q: int, r: int)
    requires
        a + h == q * 10_000 + r,
        0 <= r < 10_000,
    ensures
        (a + h) / 10_000 == q,
        (a + h) % 10_000 == r,
{
    vstd::arithmetic::div_mod::lemma_fundamental_div_mod_converse(a + h, 10_000, q, r);
}

} // verus!
