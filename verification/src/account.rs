//! One client's account: the per-account transaction state machine.
//!
//! An account applies one record at a time, atomically: either the whole
//! transition for the record happens or the account is left unchanged. The
//! mathematical transition is [`apply_spec`]; the executable
//! [`Account::process_transaction`] is proved to implement it exactly and to
//! preserve the account invariant [`AccountView::inv`].

use vstd::prelude::*;
use vstd::std_specs::hash::spec_hash_map_len;

use std::collections::HashMap;
use std::collections::HashSet;

use crate::amount::MAX_AMOUNT_UNITS;
use crate::sums::lemma_sum_bounds;
use crate::sums::lemma_sum_congruent;
use crate::sums::lemma_sum_empty;
use crate::sums::lemma_sum_insert;
use crate::sums::lemma_sum_remove;
use crate::sums::sum_over;
use crate::transaction::is_primary;
use crate::transaction::Transaction;
use crate::transaction::TransactionType;

verus! {

broadcast use vstd::std_specs::hash::group_hash_axioms;

/// Why a record was rejected. Rejections are per-record and recoverable:
/// the record is dropped, the account is unchanged, and the run continues.
///
/// `UnknownReference` belongs to the taxonomy for callers that want to
/// surface a dispute, resolve or chargeback whose transaction identifier was
/// never recorded; this engine deliberately applies such records as
/// silent no-ops, so [`Account::process_transaction`] itself never
/// returns it.
#[derive(Clone, Copy, Debug, PartialEq, Eq, Structural)]
pub enum Rejection {
    AccountLocked,
    InsufficientFunds,
    NotDisputable,
    UnknownReference,
}

/// What the account history records of a deposit or withdrawal: its kind and
/// its amount in 1/10000 units.
#[derive(Clone, Copy, Debug, PartialEq, Eq, Structural)]
pub struct HistoryEntry {
    pub kind: TransactionType,
    pub amount: u64,
}

/// The mathematical state of an account.
#[verifier::ext_equal]
pub struct AccountView {
    pub client_id: u16,
    /// Spendable balance, in 1/10000 units; may go negative through a
    /// dispute or a chargeback, never through a withdrawal.
    pub available: int,
    /// Balance frozen by open disputes, in 1/10000 units.
    pub held: int,
    pub locked: bool,
    /// Every deposit and withdrawal ever applied, keyed by transaction id.
    pub history: Map<u32, HistoryEntry>,
    /// The transaction ids currently under dispute.
    pub disputed: Set<u32>,
}

/// The amount a history entry contributes to a sum: its recorded amount for
/// a recorded id, zero for an unknown one.
pub open spec fn entry_amount(history: Map<u32, HistoryEntry>) -> spec_fn(u32) -> int {
    |t: u32|
        if history.contains_key(t) {
            history[t].amount as int
        } else {
            0
        }
}

/// The amount a record carries, in 1/10000 units (zero when absent).
pub open spec fn tx_units(tx: Transaction) -> int {
    match tx.amount {
        Some(a) => a.units as int,
        None => 0,
    }
}

impl AccountView {
    /// A fresh zero-balance, unlocked account.
    pub open spec fn initial(client_id: u16) -> AccountView {
        AccountView {
            client_id,
            available: 0,
            held: 0,
            locked: false,
            history: Map::empty(),
            disputed: Set::empty(),
        }
    }

    /// The total balance: always derived, never stored.
    pub open spec fn total(self) -> int {
        self.available + self.held
    }

    /// The account invariant. The heart of it: every disputed id is a
    /// recorded deposit or withdrawal, and the held balance is exactly the
    /// sum of the disputed amounts, hence never negative. The remaining
    /// clauses bound the balances so that they provably fit in an `i128`:
    /// history is keyed by 32-bit ids and only grows by one entry per call,
    /// so its size stays below 2^64, and every recorded amount is capped.
    pub open spec fn inv(self) -> bool {
        &&& self.history.dom().finite()
        &&& self.history.dom().len() <= u64::MAX as int + 1
        &&& self.disputed.finite()
        &&& self.disputed.subset_of(self.history.dom())
        &&& forall|t: u32|
            #[trigger] self.history.contains_key(t) ==> self.history[t].amount <= MAX_AMOUNT_UNITS
                && is_primary(self.history[t].kind)
        &&& self.held == sum_over(self.disputed, entry_amount(self.history))
        &&& 0 <= self.held
        &&& self.total() <= self.history.dom().len() * (MAX_AMOUNT_UNITS as int)
        &&& -(MAX_AMOUNT_UNITS as int) <= self.total()
        &&& !self.locked ==> 0 <= self.total()
    }
}

/// The transition table: what applying one record does to an account, and
/// what the call reports. The state component of the result is the account
/// afterwards; a rejection or a no-op leaves it unchanged.
pub open spec fn apply_spec(a: AccountView, tx: Transaction) -> (AccountView, Result<
    (),
    Rejection,
>) {
    if a.locked {
        (a, Err(Rejection::AccountLocked))
    } else {
        match tx.kind {
            TransactionType::Deposit => {
                if a.history.contains_key(tx.transaction_id) {
                    (a, Ok(()))  // idempotent replay: ignored
                } else {
                    (
                        AccountView {
                            available: a.available + tx_units(tx),
                            history: a.history.insert(
                                tx.transaction_id,
                                HistoryEntry { kind: tx.kind, amount: tx.amount.unwrap().units },
                            ),
                            ..a
                        },
                        Ok(()),
                    )
                }
            },
            TransactionType::Withdrawal => {
                if a.history.contains_key(tx.transaction_id) {
                    (a, Ok(()))  // idempotent replay: ignored
                } else if a.available < tx_units(tx) {
                    (a, Err(Rejection::InsufficientFunds))
                } else {
                    (
                        AccountView {
                            available: a.available - tx_units(tx),
                            history: a.history.insert(
                                tx.transaction_id,
                                HistoryEntry { kind: tx.kind, amount: tx.amount.unwrap().units },
                            ),
                            ..a
                        },
                        Ok(()),
                    )
                }
            },
            TransactionType::Dispute => {
                if !a.history.contains_key(tx.transaction_id) {
                    (a, Ok(()))  // unknown reference: ignored
                } else if !is_primary(a.history[tx.transaction_id].kind) {
                    (a, Err(Rejection::NotDisputable))
                } else if a.disputed.contains(tx.transaction_id) {
                    (a, Ok(()))  // already under dispute: ignored
                } else {
                    let e = a.history[tx.transaction_id].amount as int;
                    (
                        AccountView {
                            available: a.available - e,
                            held: a.held + e,
                            disputed: a.disputed.insert(tx.transaction_id),
                            ..a
                        },
                        Ok(()),
                    )
                }
            },
            TransactionType::Resolve => {
                if !a.history.contains_key(tx.transaction_id) || !a.disputed.contains(
                    tx.transaction_id,
                ) {
                    (a, Ok(()))  // not under dispute: ignored
                } else {
                    let e = a.history[tx.transaction_id].amount as int;
                    (
                        AccountView {
                            available: a.available + e,
                            held: a.held - e,
                            disputed: a.disputed.remove(tx.transaction_id),
                            ..a
                        },
                        Ok(()),
                    )
                }
            },
            TransactionType::Chargeback => {
                if !a.history.contains_key(tx.transaction_id) || !a.disputed.contains(
                    tx.transaction_id,
                ) {
                    (a, Ok(()))  // not under dispute: ignored
                } else {
                    let e = a.history[tx.transaction_id].amount as int;
                    (
                        AccountView {
                            held: a.held - e,
                            disputed: a.disputed.remove(tx.transaction_id),
                            locked: true,
                            ..a
                        },
                        Ok(()),
                    )
                }
            },
        }
    }
}

/// One client's account with its balances, its recorded transaction history
/// and its open disputes.
pub struct Account {
    client_id: u16,
    available: i128,
    held: i128,
    locked: bool,
    transactions: HashMap<u32, HistoryEntry>,
    disputed_transactions: HashSet<u32>,
}

impl View for Account {
    type V = AccountView;

    closed spec fn view(&self) -> AccountView {
        AccountView {
            client_id: self.client_id,
            available: self.available as int,
            held: self.held as int,
            locked: self.locked,
            history: self.transactions@,
            disputed: self.disputed_transactions@,
        }
    }
}

/// The held balance of an account satisfying the invariant is at most the
/// size of its history times the per-amount cap.
pub proof fn lemma_held_bound(a: AccountView)
    requires
        a.inv(),
    ensures
        a.held <= a.history.dom().len() * (MAX_AMOUNT_UNITS as int),
        a.disputed.len() <= a.history.dom().len(),
{
    let f = entry_amount(a.history);
    assert forall|t: u32| a.disputed.contains(t) implies 0 <= #[trigger] f(t)
        <= MAX_AMOUNT_UNITS as int by {
        assert(a.history.contains_key(t));
    }
    lemma_sum_bounds(a.disputed, f, MAX_AMOUNT_UNITS as int);
    vstd::set_lib::lemma_len_subset(a.disputed, a.history.dom());
}

impl Account {
    /// The account invariant, on the executable representation.
    pub open spec fn wf(self) -> bool {
        self@.inv()
    }

    /// Creates a fresh zero-balance, unlocked account for `client_id`.
    pub fn new(client_id: u16) -> (a: Account)
        ensures
            a@ == AccountView::initial(client_id),
            a.wf(),
    {
        let a = Account {
            client_id,
            available: 0,
            held: 0,
            locked: false,
            transactions: HashMap::new(),
            disputed_transactions: HashSet::new(),
        };
        proof {
            lemma_sum_empty(entry_amount(a@.history));
            assert(a@.history.dom() =~= Set::<u32>::empty());
            assert(a@ =~= AccountView::initial(client_id));
        }
        a
    }

    /// Applies one record to this account, exactly as [`apply_spec`] says:
    /// atomically, and preserving the account invariant.
    pub fn process_transaction(&mut self, tx: Transaction) -> (r: Result<(), Rejection>)
        requires
            old(self).wf(),
            tx.valid(),
        ensures
            final(self).wf(),
            final(self)@ == apply_spec(old(self)@, tx).0,
            r == apply_spec(old(self)@, tx).1,
    {
        let ghost pre = self@;
        if self.locked {
            return Err(Rejection::AccountLocked);
        }
        match tx.kind {
            TransactionType::Deposit => {
                if self.transactions.contains_key(&tx.transaction_id) {
                    return Ok(());
                }
                let units: u64 = match tx.amount {
                    Some(a) => a.units,
                    None => 0,
                };
                proof {
                    lemma_held_bound(pre);
                    assert(spec_hash_map_len(&self.transactions) == pre.history.dom().len());
                }
                self.available = self.available + units as i128;
                self.transactions.insert(
                    tx.transaction_id,
                    HistoryEntry { kind: tx.kind, amount: units },
                );
                proof {
                    assert(self@.history.dom() =~= pre.history.dom().insert(tx.transaction_id));
                    lemma_sum_congruent(
                        pre.disputed,
                        entry_amount(pre.history),
                        entry_amount(self@.history),
                    );
                    assert(self@ =~= apply_spec(pre, tx).0);
                }
                Ok(())
            },
            TransactionType::Withdrawal => {
                if self.transactions.contains_key(&tx.transaction_id) {
                    return Ok(());
                }
                let units: u64 = match tx.amount {
                    Some(a) => a.units,
                    None => 0,
                };
                if self.available < units as i128 {
                    return Err(Rejection::InsufficientFunds);
                }
                proof {
                    lemma_held_bound(pre);
                    assert(spec_hash_map_len(&self.transactions) == pre.history.dom().len());
                }
                self.available = self.available - units as i128;
                self.transactions.insert(
                    tx.transaction_id,
                    HistoryEntry { kind: tx.kind, amount: units },
                );
                proof {
                    assert(self@.history.dom() =~= pre.history.dom().insert(tx.transaction_id));
                    lemma_sum_congruent(
                        pre.disputed,
                        entry_amount(pre.history),
                        entry_amount(self@.history),
                    );
                    assert(self@ =~= apply_spec(pre, tx).0);
                }
                Ok(())
            },
            TransactionType::Dispute => {
                let entry: HistoryEntry = match self.transactions.get(&tx.transaction_id) {
                    Some(e) => *e,
                    None => {
                        return Ok(());
                    },
                };
                let disputable = match entry.kind {
                    TransactionType::Deposit => true,
                    TransactionType::Withdrawal => true,
                    _ => false,
                };
                if !disputable {
                    return Err(Rejection::NotDisputable);
                }
                if self.disputed_transactions.contains(&tx.transaction_id) {
                    return Ok(());
                }
                proof {
                    lemma_held_bound(pre);
                }
                self.available = self.available - entry.amount as i128;
                self.held = self.held + entry.amount as i128;
                self.disputed_transactions.insert(tx.transaction_id);
                proof {
                    lemma_sum_insert(
                        pre.disputed,
                        entry_amount(pre.history),
                        tx.transaction_id,
                    );
                    assert(self@ =~= apply_spec(pre, tx).0);
                }
                Ok(())
            },
            TransactionType::Resolve => {
                let entry: HistoryEntry = match self.transactions.get(&tx.transaction_id) {
                    Some(e) => *e,
                    None => {
                        return Ok(());
                    },
                };
                if !self.disputed_transactions.contains(&tx.transaction_id) {
                    return Ok(());
                }
                proof {
                    lemma_held_bound(pre);
                    lemma_sum_remove(pre.disputed, entry_amount(pre.history), tx.transaction_id);
                    lemma_remaining_sum_bounds(pre, tx.transaction_id);
                }
                self.available = self.available + entry.amount as i128;
                self.held = self.held - entry.amount as i128;
                self.disputed_transactions.remove(&tx.transaction_id);
                proof {
                    assert(self@ =~= apply_spec(pre, tx).0);
                }
                Ok(())
            },
            TransactionType::Chargeback => {
                let entry: HistoryEntry = match self.transactions.get(&tx.transaction_id) {
                    Some(e) => *e,
                    None => {
                        return Ok(());
                    },
                };
                if !self.disputed_transactions.contains(&tx.transaction_id) {
                    return Ok(());
                }
                proof {
                    lemma_held_bound(pre);
                    lemma_sum_remove(pre.disputed, entry_amount(pre.history), tx.transaction_id);
                    lemma_remaining_sum_bounds(pre, tx.transaction_id);
                }
                self.held = self.held - entry.amount as i128;
                self.disputed_transactions.remove(&tx.transaction_id);
                self.locked = true;
                proof {
                    assert(self@ =~= apply_spec(pre, tx).0);
                }
                Ok(())
            },
        }
    }

    /// The total balance: the sum of available and held funds, derived at
    /// the moment it is asked for, exactly, with no rounding.
    pub fn get_total(&self) -> (t: i128)
        requires
            self.wf(),
        ensures
            t == self@.total(),
    {
        self.available + self.held
    }

    /// The spendable balance, in 1/10000 units.
    pub fn available(&self) -> (v: i128)
        ensures
            v == self@.available,
    {
        self.available
    }

    /// The balance frozen by open disputes, in 1/10000 units.
    pub fn held(&self) -> (v: i128)
        ensures
            v == self@.held,
    {
        self.held
    }

    /// Whether a chargeback has locked this account.
    pub fn locked(&self) -> (l: bool)
        ensures
            l == self@.locked,
    {
        self.locked
    }

    /// The client this account belongs to.
    pub fn client_id(&self) -> (c: u16)
        ensures
            c == self@.client_id,
    {
        self.client_id
    }
}

/// A set of 32-bit transaction ids can hold at most 2^32 elements: it is a
/// subset of the full, finite set of `u32` values.
pub proof fn lemma_u32_set_len(s: Set<u32>)
    ensures
        s.finite(),
        s.len() <= u32::MAX as int + 1,
{
    let full = Set::<u32>::range(0, u32::MAX).insert(u32::MAX);
    <u32 as vstd::set_lib::FiniteRange>::range_properties(0, u32::MAX);
    assert(!Set::<u32>::range(0, u32::MAX).contains(u32::MAX));
    assert(full.len() == u32::MAX as int + 1);
    assert(s.subset_of(full));
    vstd::set_lib::lemma_len_subset(s, full);
}

/// After removing one disputed id, the sum of the still-disputed amounts is
/// again within the bounds the invariant needs.
pub(crate) proof fn lemma_remaining_sum_bounds(a: AccountView, t: u32)
    requires
        a.inv(),
        a.disputed.contains(t),
    ensures
        0 <= sum_over(a.disputed.remove(t), entry_amount(a.history)),
{
    let rest = a.disputed.remove(t);
    let f = entry_amount(a.history);
    assert forall|x: u32| rest.contains(x) implies 0 <= #[trigger] f(x)
        <= MAX_AMOUNT_UNITS as int by {
        assert(a.history.contains_key(x));
    }
    lemma_sum_bounds(rest, f, MAX_AMOUNT_UNITS as int);
}

} // verus!
