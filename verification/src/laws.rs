//! The correctness laws of the replay engine, stated and proved over the
//! ledger's mathematical model.

use vstd::prelude::*;

use crate::client::{ClientAccount, TransactionExecutionError};
use crate::ledger::{
    lemma_client_index, spec_client_index, spec_client_step, spec_has_client, spec_ledger_step,
    spec_unique_ids, ClientView, DepositState,
};
use crate::transaction::{Deposit, Dispute, Resolve, Transaction, Withdrawal};

verus! {

/// The client slice a transaction acts on: the committed one, or the fresh
/// one that the ledger creates on first sight of the client id.
pub open spec fn spec_target_client(s: Seq<ClientView>, id: u16) -> ClientView {
    if spec_has_client(s, id) {
        s[spec_client_index(s, id)]
    } else {
        ClientView::initial(id)
    }
}

/// A successful per-client step never changes whose account it is.
proof fn lemma_client_step_id(cv: ClientView, t: Transaction)
    requires
        spec_client_step(cv, t) is Ok,
    ensures
        spec_client_step(cv, t)->Ok_0.account.id == cv.account.id,
{
}

/// Law: a successful step keeps client ids unique, touches no other
/// client's slice, and leaves the acting client present.
pub proof fn lemma_step_preserves_unique(s: Seq<ClientView>, t: Transaction, s2: Seq<ClientView>)
    requires
        spec_unique_ids(s),
        spec_ledger_step(s, t) == Ok::<Seq<ClientView>, TransactionExecutionError>(s2),
    ensures
        spec_unique_ids(s2),
        spec_has_client(s2, t.spec_client_id()),
        forall|k: int| 0 <= k < s.len() ==> s2[k].account.id == s[k].account.id,
{
    let id = t.spec_client_id();
    if spec_has_client(s, id) {
        let i = spec_client_index(s, id);
        assert(0 <= i < s.len() && s[i].account.id == id);
        lemma_client_step_id(s[i], t);
        assert(s2[i].account.id == id);
    } else {
        lemma_client_step_id(ClientView::initial(id), t);
        let n = s.len() as int;
        assert(s2[n].account.id == id);
        assert forall|i: int, j: int| 0 <= i < j < s2.len() implies s2[i].account.id
            != s2[j].account.id by {
            if j == n && s[i].account.id == id {
                assert(spec_has_client(s, id));
            }
        }
    }
}

/// Law: cross-client isolation. A transaction for one client neither
/// creates, removes, nor alters the slice of any other client, whatever
/// transaction ids the two clients may share.
pub proof fn lemma_client_isolation(
    s: Seq<ClientView>,
    t: Transaction,
    s2: Seq<ClientView>,
    other: u16,
)
    requires
        spec_unique_ids(s),
        other != t.spec_client_id(),
        spec_ledger_step(s, t) == Ok::<Seq<ClientView>, TransactionExecutionError>(s2),
    ensures
        spec_has_client(s2, other) <==> spec_has_client(s, other),
        spec_has_client(s, other) ==> s2[spec_client_index(s2, other)] == s[spec_client_index(
            s,
            other,
        )],
{
    let id = t.spec_client_id();
    lemma_step_preserves_unique(s, t, s2);
    if spec_has_client(s, other) {
        let o = spec_client_index(s, other);
        assert(0 <= o < s.len() && s[o].account.id == other);
        lemma_client_index(s2, o);
        if spec_has_client(s, id) {
            let i = spec_client_index(s, id);
            assert(0 <= i < s.len() && s[i].account.id == id);
            assert(i != o);
            assert(s2[o] == s[o]);
        } else {
            assert(s2[o] == s[o]);
        }
    } else {
        if spec_has_client(s2, other) {
            let o = spec_client_index(s2, other);
            assert(0 <= o < s2.len() && s2[o].account.id == other);
            if o < s.len() {
                assert(s[o].account.id == other);
                assert(spec_has_client(s, other));
            } else {
                assert(s2[o].account.id == id);
            }
        }
    }
}

/// Law: deposit, dispute, resolve restores the ledger to exactly the state
/// it had after the deposit alone — same available, held and locked, and
/// the deposit back in its undisputed state.
pub proof fn lemma_deposit_dispute_resolve_restores(
    s: Seq<ClientView>,
    d: Deposit,
    s1: Seq<ClientView>,
    s2: Seq<ClientView>,
)
    requires
        spec_unique_ids(s),
        spec_ledger_step(s, Transaction::Deposit(d)) == Ok::<
            Seq<ClientView>,
            TransactionExecutionError,
        >(s1),
        spec_ledger_step(s1, Transaction::Dispute(Dispute { tx: d.tx, client: d.client })) == Ok::<
            Seq<ClientView>,
            TransactionExecutionError,
        >(s2),
    ensures
        spec_ledger_step(s2, Transaction::Resolve(Resolve { tx: d.tx, client: d.client })) == Ok::<
            Seq<ClientView>,
            TransactionExecutionError,
        >(s1),
{
    let id = d.client;
    let dep = Transaction::Deposit(d);
    let disp = Transaction::Dispute(Dispute { tx: d.tx, client: id });
    lemma_step_preserves_unique(s, dep, s1);
    lemma_step_preserves_unique(s1, disp, s2);
    let cv0 = spec_target_client(s, id);
    let cv1 = spec_client_step(cv0, dep)->Ok_0;
    let i1 = if spec_has_client(s, id) {
        spec_client_index(s, id)
    } else {
        s.len() as int
    };
    assert(s1[i1] == cv1);
    assert(cv1.account.id == id);
    lemma_client_index(s1, i1);
    let cv2 = spec_client_step(cv1, disp)->Ok_0;
    assert(s2 == s1.update(i1, cv2));
    assert(s2[i1] == cv2);
    lemma_client_index(s2, i1);
    let res = Transaction::Resolve(Resolve { tx: d.tx, client: id });
    assert(cv2.deposits[d.tx] == (d.amount, DepositState::Disputed));
    let step3 = spec_client_step(cv2, res);
    assert(cv2.account.available@ + d.amount@ == cv1.account.available@);
    assert(step3 is Ok);
    let cv3 = step3->Ok_0;
    assert(cv3.account == cv1.account);
    assert(cv3.deposits =~= cv1.deposits);
    assert(cv3 =~= cv1);
    assert(s2.update(i1, cv3) =~= s1);
}

/// Law: deposit, dispute, chargeback returns the held balance to its
/// pre-dispute value, keeps the disputed amount out of available, locks the
/// account for good, and leaves the deposit terminally charged back.
pub proof fn lemma_deposit_dispute_charge_back(
    s: Seq<ClientView>,
    d: Deposit,
    s1: Seq<ClientView>,
    s2: Seq<ClientView>,
)
    requires
        spec_unique_ids(s),
        spec_ledger_step(s, Transaction::Deposit(d)) == Ok::<
            Seq<ClientView>,
            TransactionExecutionError,
        >(s1),
        spec_ledger_step(s1, Transaction::Dispute(Dispute { tx: d.tx, client: d.client })) == Ok::<
            Seq<ClientView>,
            TransactionExecutionError,
        >(s2),
    ensures
        ({
            let i = spec_client_index(s1, d.client);
            spec_ledger_step(s2, Transaction::ChargeBack(
                crate::transaction::ChargeBack { tx: d.tx, client: d.client },
            )) == Ok::<Seq<ClientView>, TransactionExecutionError>(
                s1.update(
                    i,
                    ClientView {
                        account: ClientAccount {
                            id: d.client,
                            locked: true,
                            available: s2[i].account.available,
                            held: s1[i].account.held,
                        },
                        deposits: s1[i].deposits.insert(
                            d.tx,
                            (d.amount, DepositState::ChargedBack),
                        ),
                    },
                ),
            )
        }),
{
    let id = d.client;
    let dep = Transaction::Deposit(d);
    let disp = Transaction::Dispute(Dispute { tx: d.tx, client: id });
    lemma_step_preserves_unique(s, dep, s1);
    lemma_step_preserves_unique(s1, disp, s2);
    let cv0 = spec_target_client(s, id);
    let cv1 = spec_client_step(cv0, dep)->Ok_0;
    let i1 = if spec_has_client(s, id) {
        spec_client_index(s, id)
    } else {
        s.len() as int
    };
    assert(s1[i1] == cv1);
    assert(cv1.account.id == id);
    lemma_client_index(s1, i1);
    let cv2 = spec_client_step(cv1, disp)->Ok_0;
    assert(s2[i1] == cv2);
    lemma_client_index(s2, i1);
    let cb = Transaction::ChargeBack(crate::transaction::ChargeBack { tx: d.tx, client: id });
    assert(cv2.deposits[d.tx] == (d.amount, DepositState::Disputed));
    let step3 = spec_client_step(cv2, cb);
    assert(step3 is Ok);
    let cv3 = step3->Ok_0;
    assert(cv3.account.held == cv1.account.held);
    assert(cv3.account.locked);
    let target = ClientView {
        account: ClientAccount {
            id: d.client,
            locked: true,
            available: s2[i1].account.available,
            held: s1[i1].account.held,
        },
        deposits: s1[i1].deposits.insert(d.tx, (d.amount, DepositState::ChargedBack)),
    };
    assert(cv3.deposits =~= target.deposits);
    assert(cv3 =~= target);
    assert(s2.update(i1, cv3) =~= s1.update(i1, target));
}

/// Law: the lock is permanent. No transaction whatever, applied to any
/// ledger state, unlocks an account that a chargeback has locked.
pub proof fn lemma_lock_is_permanent(
    s: Seq<ClientView>,
    t: Transaction,
    s2: Seq<ClientView>,
    i: int,
)
    requires
        spec_unique_ids(s),
        spec_ledger_step(s, t) == Ok::<Seq<ClientView>, TransactionExecutionError>(s2),
        0 <= i < s.len(),
        s[i].account.locked,
    ensures
        s2[i].account.locked,
{
    let id = t.spec_client_id();
    if spec_has_client(s, id) {
        let k = spec_client_index(s, id);
        assert(0 <= k < s.len() && s[k].account.id == id);
        if k == i {
            assert(spec_client_step(s[i], t)->Ok_0.account.locked);
        }
    }
}

/// Law: a charged-back deposit is terminal. Any further dispute, resolve or
/// chargeback against the same transaction id fails, naming the charged-back
/// state, and (by the ledger contract) changes nothing.
pub proof fn lemma_charged_back_terminal(s: Seq<ClientView>, t: Transaction)
    requires
        t is Dispute || t is Resolve || t is ChargeBack,
        spec_has_client(s, t.spec_client_id()),
        s[spec_client_index(s, t.spec_client_id())].deposits.contains_key(t.spec_tx()),
        s[spec_client_index(s, t.spec_client_id())].deposits[t.spec_tx()].1
            == DepositState::ChargedBack,
    ensures
        spec_ledger_step(s, t) == Err::<Seq<ClientView>, TransactionExecutionError>(
            TransactionExecutionError::InvalidDepositState {
                tx: t.spec_tx(),
                expected_state: if t is Dispute {
                    DepositState::Undisputed
                } else {
                    DepositState::Disputed
                },
                actual_state: DepositState::ChargedBack,
            },
        ),
{
}

/// Law: a locked account still accepts deposits. A deposit with a fresh
/// transaction id whose amount keeps available in range succeeds, locked or
/// not.
pub proof fn lemma_deposit_ignores_lock(s: Seq<ClientView>, d: Deposit)
    requires
        spec_unique_ids(s),
        !spec_target_client(s, d.client).deposits.contains_key(d.tx),
        spec_target_client(s, d.client).account.available@ + d.amount@ <= i64::MAX,
    ensures
        spec_ledger_step(s, Transaction::Deposit(d)) is Ok,
{
}

/// Law: disputing, resolving or charging back a transaction id never seen
/// as a deposit for that client fails with `DepositNotFound`, and (by the
/// ledger contract) changes nothing.
pub proof fn lemma_unknown_deposit_fails(s: Seq<ClientView>, t: Transaction)
    requires
        t is Dispute || t is Resolve || t is ChargeBack,
        !spec_target_client(s, t.spec_client_id()).deposits.contains_key(t.spec_tx()),
    ensures
        spec_ledger_step(s, t) == Err::<Seq<ClientView>, TransactionExecutionError>(
            TransactionExecutionError::DepositNotFound(t.spec_tx()),
        ),
{
}

/// Law: resolving or charging back a deposit that is not under dispute
/// fails, naming the expected and the actual state, and (by the ledger
/// contract) changes nothing.
pub proof fn lemma_resolve_undisputed_fails(s: Seq<ClientView>, t: Transaction)
    requires
        t is Resolve || t is ChargeBack,
        spec_target_client(s, t.spec_client_id()).deposits.contains_key(t.spec_tx()),
        spec_target_client(s, t.spec_client_id()).deposits[t.spec_tx()].1
            == DepositState::Undisputed,
    ensures
        spec_ledger_step(s, t) == Err::<Seq<ClientView>, TransactionExecutionError>(
            TransactionExecutionError::InvalidDepositState {
                tx: t.spec_tx(),
                expected_state: DepositState::Disputed,
                actual_state: DepositState::Undisputed,
            },
        ),
{
}

/// Law: withdrawing more than the available balance from an unlocked
/// account fails with `InsufficientFunds`, and (by the ledger contract)
/// leaves every balance unchanged. The one input left out is a withdrawal
/// so large that the subtraction leaves the representable range, which the
/// engine reports as `Underflow` instead.
pub proof fn lemma_insufficient_funds(s: Seq<ClientView>, w: Withdrawal)
    requires
        !spec_target_client(s, w.client).account.locked,
        spec_target_client(s, w.client).account.available@ < w.amount@,
        spec_target_client(s, w.client).account.available@ - w.amount@ >= i64::MIN,
    ensures
        spec_ledger_step(s, Transaction::Withdrawal(w)) == Err::<
            Seq<ClientView>,
            TransactionExecutionError,
        >(TransactionExecutionError::InsufficientFunds),
{
}

/// Law: withdrawing from a locked account fails with `AccountLocked`,
/// whatever the balances, and (by the ledger contract) changes nothing.
pub proof fn lemma_locked_rejects_withdrawal(s: Seq<ClientView>, w: Withdrawal)
    requires
        spec_has_client(s, w.client),
        s[spec_client_index(s, w.client)].account.locked,
    ensures
        spec_ledger_step(s, Transaction::Withdrawal(w)) == Err::<
            Seq<ClientView>,
            TransactionExecutionError,
        >(TransactionExecutionError::AccountLocked),
{
}

} // verus!
