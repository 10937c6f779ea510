//! The laws of the account state machine, proved once and for all over the
//! transition function [`apply_spec`].

use vstd::prelude::*;

use crate::account::apply_spec;
use crate::account::entry_amount;
use crate::account::lemma_held_bound;
use crate::account::lemma_remaining_sum_bounds;
use crate::account::lemma_u32_set_len;
use crate::account::AccountView;
use crate::account::Rejection;
use crate::sums::lemma_sum_congruent;
use crate::sums::lemma_sum_insert;
use crate::sums::lemma_sum_remove;
use crate::transaction::is_primary;
use crate::transaction::Transaction;
use crate::transaction::TransactionType;

verus! {

/// Applying any record to an account that satisfies the invariant yields an
/// account that satisfies it again; in particular the held balance is the
/// sum of the disputed amounts and stays non-negative at every point in
/// time, and the client identifier never changes.
pub proof fn lemma_apply_preserves_inv(a: AccountView, tx: Transaction)
    requires
        a.inv(),
        tx.valid(),
    ensures
        apply_spec(a, tx).0.inv(),
        apply_spec(a, tx).0.client_id == a.client_id,
{
    let post = apply_spec(a, tx).0;
    let id = tx.transaction_id;
    if !a.locked {
        match tx.kind {
            TransactionType::Deposit | TransactionType::Withdrawal => {
                if post != a {
                    lemma_u32_set_len(a.history.dom());
                    assert(post.history.dom() =~= a.history.dom().insert(id));
                    lemma_sum_congruent(
                        a.disputed,
                        entry_amount(a.history),
                        entry_amount(post.history),
                    );
                }
            },
            TransactionType::Dispute => {
                if a.history.contains_key(id) && is_primary(a.history[id].kind)
                    && !a.disputed.contains(id) {
                    lemma_sum_insert(a.disputed, entry_amount(a.history), id);
                }
            },
            TransactionType::Resolve | TransactionType::Chargeback => {
                if a.history.contains_key(id) && a.disputed.contains(id) {
                    lemma_held_bound(a);
                    lemma_sum_remove(a.disputed, entry_amount(a.history), id);
                    lemma_remaining_sum_bounds(a, id);
                }
            },
        }
    }
}

/// A withdrawal never drives the available balance negative: either the
/// record is applied and the new available balance is still non-negative,
/// or the account is left exactly as it was.
pub proof fn lemma_withdrawal_never_overdraws(a: AccountView, tx: Transaction)
    requires
        a.inv(),
        tx.valid(),
        tx.kind == TransactionType::Withdrawal,
    ensures
        apply_spec(a, tx).0.available >= 0 || apply_spec(a, tx).0 == a,
{
}

/// Applying the same deposit or withdrawal record twice yields the same
/// state as applying it once: the second application is a no-op.
pub proof fn lemma_primary_replay_idempotent(a: AccountView, tx: Transaction)
    requires
        a.inv(),
        tx.valid(),
        is_primary(tx.kind),
    ensures
        apply_spec(apply_spec(a, tx).0, tx).0 == apply_spec(a, tx).0,
{
    let a1 = apply_spec(a, tx).0;
    if !a.locked && !a.history.contains_key(tx.transaction_id) {
        assert(a1.locked == a.locked);
    }
}

/// Once an account is locked, no record changes any field of it: every
/// further record is rejected with `AccountLocked`.
pub proof fn lemma_locked_account_is_frozen(a: AccountView, tx: Transaction)
    requires
        a.locked,
    ensures
        apply_spec(a, tx).0 == a,
        apply_spec(a, tx).1 == Err::<(), Rejection>(Rejection::AccountLocked),
{
}

} // verus!
