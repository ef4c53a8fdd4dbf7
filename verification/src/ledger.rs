use vstd::prelude::*;

use crate::client::{ClientAccount, TransactionExecutionError};
use crate::currency::UCurrency;
use crate::transaction::Transaction;

verus! {

/// The dispute status of one recorded deposit: a three-state machine.
/// `Undisputed -> Disputed` by a dispute, `Disputed -> Undisputed` by a
/// resolve, `Disputed -> ChargedBack` by a chargeback; `ChargedBack` is
/// terminal.
#[derive(Debug, Clone, Copy, PartialEq, Eq, Structural)]
pub enum DepositState {
    Undisputed,
    Disputed,
    ChargedBack,
}

/// One recorded deposit of a client: the amount it carried and where it
/// stands in the dispute state machine.
#[derive(Debug, Clone, Copy, PartialEq, Eq, Structural)]
pub(crate) struct DepositEntry {
    pub tx: u32,
    pub amount: UCurrency,
    pub state: DepositState,
}

/// The mathematical model of one client's slice of the ledger: the account
/// and the deposit table, keyed by transaction id.
#[verifier::ext_equal]
pub struct ClientView {
    pub account: ClientAccount,
    pub deposits: Map<u32, (UCurrency, DepositState)>,
}

impl ClientView {
    /// The state a client starts in when first referenced: a fresh account
    /// and an empty deposit table.
    pub open spec fn initial(id: u16) -> ClientView {
        ClientView { account: ClientAccount::spec_new(id), deposits: Map::empty() }
    }
}

/// What a disputed deposit entry pins in the held balance: its amount if it
/// is currently disputed, nothing otherwise.
spec fn disputed_contrib(e: DepositEntry) -> int {
    if e.state is Disputed {
        e.amount@
    } else {
        0
    }
}

/// The sum of the amounts of all currently disputed entries.
spec fn sum_disputed(s: Seq<DepositEntry>) -> int
    decreases s.len(),
{
    if s.len() == 0 {
        0
    } else {
        sum_disputed(s.drop_last()) + disputed_contrib(s.last())
    }
}

spec fn unique_txs(s: Seq<DepositEntry>) -> bool {
    forall|i: int, j: int| 0 <= i < j < s.len() ==> s[i].tx != s[j].tx
}

spec fn has_tx(s: Seq<DepositEntry>, tx: u32) -> bool {
    exists|i: int| 0 <= i < s.len() && s[i].tx == tx
}

spec fn tx_index(s: Seq<DepositEntry>, tx: u32) -> int {
    choose|i: int| 0 <= i < s.len() && s[i].tx == tx
}

/// The deposit table as a map from transaction id to (amount, state).
spec fn deposits_map(s: Seq<DepositEntry>) -> Map<u32, (UCurrency, DepositState)> {
    Map::new(
        |tx: u32| has_tx(s, tx),
        |tx: u32| (s[tx_index(s, tx)].amount, s[tx_index(s, tx)].state),
    )
}

proof fn lemma_sum_push(s: Seq<DepositEntry>, e: DepositEntry)
    ensures
        sum_disputed(s.push(e)) == sum_disputed(s) + disputed_contrib(e),
{
    assert(s.push(e).drop_last() =~= s);
    assert(s.push(e).last() == e);
}

proof fn lemma_sum_update(s: Seq<DepositEntry>, i: int, e: DepositEntry)
    requires
        0 <= i < s.len(),
    ensures
        sum_disputed(s.update(i, e)) == sum_disputed(s) - disputed_contrib(s[i])
            + disputed_contrib(e),
    decreases s.len(),
{
    if i == s.len() - 1 {
        assert(s.update(i, e).drop_last() =~= s.drop_last());
        assert(s.update(i, e).last() == e);
    } else {
        lemma_sum_update(s.drop_last(), i, e);
        assert(s.update(i, e).drop_last() =~= s.drop_last().update(i, e));
        assert(s.update(i, e).last() == s.last());
    }
}

proof fn lemma_sum_nonneg(s: Seq<DepositEntry>)
    ensures
        sum_disputed(s) >= 0,
    decreases s.len(),
{
    if s.len() > 0 {
        lemma_sum_nonneg(s.drop_last());
    }
}

/// A disputed entry's amount never exceeds the sum of all disputed amounts.
proof fn lemma_disputed_le_sum(s: Seq<DepositEntry>, i: int)
    requires
        0 <= i < s.len(),
        s[i].state is Disputed,
    ensures
        s[i].amount@ <= sum_disputed(s),
    decreases s.len(),
{
    if i == s.len() - 1 {
        lemma_sum_nonneg(s.drop_last());
    } else {
        lemma_disputed_le_sum(s.drop_last(), i);
        assert(s.drop_last()[i] == s[i]);
    }
}

/// Looking a present transaction id up in the deposit table gives the
/// amount and state stored at its entry.
proof fn lemma_deposits_map_at(s: Seq<DepositEntry>, i: int)
    requires
        unique_txs(s),
        0 <= i < s.len(),
    ensures
        deposits_map(s).contains_key(s[i].tx),
        deposits_map(s)[s[i].tx] == (s[i].amount, s[i].state),
{
    let tx = s[i].tx;
    assert(has_tx(s, tx));
    let j = tx_index(s, tx);
    assert(0 <= j < s.len() && s[j].tx == tx);
    assert(j == i);
}

proof fn lemma_deposits_map_absent(s: Seq<DepositEntry>, tx: u32)
    requires
        forall|i: int| 0 <= i < s.len() ==> s[i].tx != tx,
    ensures
        !deposits_map(s).contains_key(tx),
{
}

/// Recording a fresh deposit extends the deposit table at its id.
proof fn lemma_deposits_map_push(s: Seq<DepositEntry>, e: DepositEntry)
    requires
        unique_txs(s),
        !has_tx(s, e.tx),
    ensures
        deposits_map(s.push(e)) == deposits_map(s).insert(e.tx, (e.amount, e.state)),
        unique_txs(s.push(e)),
{
    let s2 = s.push(e);
    let m1 = deposits_map(s2);
    let m2 = deposits_map(s).insert(e.tx, (e.amount, e.state));
    assert forall|i: int, j: int| 0 <= i < j < s2.len() implies s2[i].tx != s2[j].tx by {
        if j == s.len() {
            assert(s2[i] == s[i]);
            if s[i].tx == e.tx {
                assert(has_tx(s, e.tx));
            }
        }
    }
    assert forall|tx: u32| #[trigger] m1.contains_key(tx) implies m2.contains_key(tx) && m1[tx]
        == m2[tx] by {
        let i = tx_index(s2, tx);
        assert(0 <= i < s2.len() && s2[i].tx == tx);
        if i < s.len() {
            assert(s2[i] == s[i]);
            lemma_deposits_map_at(s, i);
            let j = tx_index(s2, tx);
            assert(unique_txs(s2));
            assert(j == i);
            assert(tx != e.tx);
        } else {
            assert(s2[i] == e);
        }
    }
    assert forall|tx: u32| #[trigger] m2.contains_key(tx) implies m1.contains_key(tx) by {
        if tx == e.tx {
            assert(s2[s.len() as int].tx == tx);
            assert(has_tx(s2, tx));
        } else {
            let i = tx_index(s, tx);
            assert(0 <= i < s.len() && s[i].tx == tx);
            assert(s2[i].tx == tx);
            assert(has_tx(s2, tx));
        }
    }
    assert(m1 =~= m2);
}

/// Rewriting one entry in place updates the deposit table at its id.
proof fn lemma_deposits_map_update(s: Seq<DepositEntry>, i: int, e: DepositEntry)
    requires
        unique_txs(s),
        0 <= i < s.len(),
        e.tx == s[i].tx,
    ensures
        deposits_map(s.update(i, e)) == deposits_map(s).insert(e.tx, (e.amount, e.state)),
        unique_txs(s.update(i, e)),
{
    let s2 = s.update(i, e);
    let m1 = deposits_map(s2);
    let m2 = deposits_map(s).insert(e.tx, (e.amount, e.state));
    assert forall|a: int, b: int| 0 <= a < b < s2.len() implies s2[a].tx != s2[b].tx by {
        assert(s[a].tx != s[b].tx);
    }
    assert forall|tx: u32| #[trigger] m1.contains_key(tx) implies m2.contains_key(tx) && m1[tx]
        == m2[tx] by {
        let a = tx_index(s2, tx);
        assert(0 <= a < s2.len() && s2[a].tx == tx);
        if a == i {
            assert(s2[a] == e);
        } else {
            assert(s2[a] == s[a]);
            lemma_deposits_map_at(s, a);
            assert(tx != e.tx);
        }
    }
    assert forall|tx: u32| #[trigger] m2.contains_key(tx) implies m1.contains_key(tx) by {
        if tx == e.tx {
            assert(s2[i].tx == tx);
            assert(has_tx(s2, tx));
        } else {
            let a = tx_index(s, tx);
            assert(0 <= a < s.len() && s[a].tx == tx);
            assert(a != i);
            assert(s2[a].tx == tx);
            assert(has_tx(s2, tx));
        }
    }
    assert(m1 =~= m2);
}

/// One client's committed state: the account and its recorded deposits.
#[derive(Debug, Clone, PartialEq)]
pub(crate) struct ClientAccountAndDeposits {
    pub account: ClientAccount,
    pub deposits: Vec<DepositEntry>,
}

impl ClientAccountAndDeposits {
    pub closed spec fn view(&self) -> ClientView {
        ClientView { account: self.account, deposits: deposits_map(self.deposits@) }
    }

    /// Well-formedness: deposit ids are unique, and the held balance is
    /// exactly the sum of the currently disputed amounts.
    pub closed spec fn wf(&self) -> bool {
        &&& unique_txs(self.deposits@)
        &&& self.account.held@ == sum_disputed(self.deposits@)
    }

    pub(crate) fn new(client: u16) -> (r: Self)
        ensures
            r@ == ClientView::initial(client),
            r.wf(),
            r.account.id == client,
    {
        let r = ClientAccountAndDeposits {
            account: ClientAccount::new(client),
            deposits: Vec::new(),
        };
        proof {
            assert(r@.deposits =~= Map::<u32, (UCurrency, DepositState)>::empty());
            assert(r@ =~= ClientView::initial(client));
        }
        r
    }
}

/// The index of the first deposit entry carrying `tx`, if any.
fn find_tx(deposits: &Vec<DepositEntry>, tx: u32) -> (r: Option<usize>)
    ensures
        match r {
            Some(i) => i < deposits@.len() && deposits@[i as int].tx == tx,
            None => forall|j: int| 0 <= j < deposits@.len() ==> deposits@[j].tx != tx,
        },
{
    let mut i: usize = 0;
    while i < deposits.len()
        invariant
            i <= deposits@.len(),
            forall|j: int| 0 <= j < i ==> deposits@[j].tx != tx,
        decreases deposits@.len() - i,
    {
        if deposits[i].tx == tx {
            return Some(i);
        }
        i = i + 1;
    }
    None
}

/// What one transaction does to one client's slice of the ledger, stated
/// over the mathematical model: a deposit records a fresh entry, a
/// withdrawal touches only the account, and a dispute, resolve or
/// chargeback looks the referenced deposit up and writes back its new state.
pub open spec fn spec_client_step(cv: ClientView, t: Transaction) -> Result<
    ClientView,
    TransactionExecutionError,
> {
    match t {
        Transaction::Deposit(d) => {
            if cv.deposits.contains_key(d.tx) {
                Err(TransactionExecutionError::DuplicateDeposit(d.tx))
            } else {
                match cv.account.spec_deposit(d.amount) {
                    Ok(acct) => Ok(
                        ClientView {
                            account: acct,
                            deposits: cv.deposits.insert(
                                d.tx,
                                (d.amount, DepositState::Undisputed),
                            ),
                        },
                    ),
                    Err(e) => Err(e),
                }
            }
        },
        Transaction::Withdrawal(w) => {
            match cv.account.spec_withdraw(w.amount) {
                Ok(acct) => Ok(ClientView { account: acct, ..cv }),
                Err(e) => Err(e),
            }
        },
        Transaction::Dispute(dp) => {
            if !cv.deposits.contains_key(dp.tx) {
                Err(TransactionExecutionError::DepositNotFound(dp.tx))
            } else {
                let entry = cv.deposits[dp.tx];
                match cv.account.spec_dispute(dp.tx, entry.0, entry.1) {
                    Ok(acct_state) => Ok(
                        ClientView {
                            account: acct_state.0,
                            deposits: cv.deposits.insert(dp.tx, (entry.0, acct_state.1)),
                        },
                    ),
                    Err(e) => Err(e),
                }
            }
        },
        Transaction::Resolve(rs) => {
            if !cv.deposits.contains_key(rs.tx) {
                Err(TransactionExecutionError::DepositNotFound(rs.tx))
            } else {
                let entry = cv.deposits[rs.tx];
                match cv.account.spec_resolve(rs.tx, entry.0, entry.1) {
                    Ok(acct_state) => Ok(
                        ClientView {
                            account: acct_state.0,
                            deposits: cv.deposits.insert(rs.tx, (entry.0, acct_state.1)),
                        },
                    ),
                    Err(e) => Err(e),
                }
            }
        },
        Transaction::ChargeBack(cb) => {
            if !cv.deposits.contains_key(cb.tx) {
                Err(TransactionExecutionError::DepositNotFound(cb.tx))
            } else {
                let entry = cv.deposits[cb.tx];
                match cv.account.spec_charge_back(cb.tx, entry.0, entry.1) {
                    Ok(acct_state) => Ok(
                        ClientView {
                            account: acct_state.0,
                            deposits: cv.deposits.insert(cb.tx, (entry.0, acct_state.1)),
                        },
                    ),
                    Err(e) => Err(e),
                }
            }
        },
    }
}

/// Whether some client in the model carries `id`.
pub open spec fn spec_has_client(s: Seq<ClientView>, id: u16) -> bool {
    exists|i: int| 0 <= i < s.len() && s[i].account.id == id
}

/// The index of the client carrying `id` (meaningful when ids are unique).
pub open spec fn spec_client_index(s: Seq<ClientView>, id: u16) -> int {
    choose|i: int| 0 <= i < s.len() && s[i].account.id == id
}

/// No two clients of the model share an id.
pub open spec fn spec_unique_ids(s: Seq<ClientView>) -> bool {
    forall|i: int, j: int| 0 <= i < j < s.len() ==> s[i].account.id != s[j].account.id
}

/// What one transaction does to the whole ledger: the owning client is
/// resolved by id, created on first sight, and the per-client step is
/// committed in place. A failing step leaves the model exactly as it was.
pub open spec fn spec_ledger_step(s: Seq<ClientView>, t: Transaction) -> Result<
    Seq<ClientView>,
    TransactionExecutionError,
> {
    let id = t.spec_client_id();
    if spec_has_client(s, id) {
        let i = spec_client_index(s, id);
        match spec_client_step(s[i], t) {
            Ok(cv) => Ok(s.update(i, cv)),
            Err(e) => Err(e),
        }
    } else {
        match spec_client_step(ClientView::initial(id), t) {
            Ok(cv) => Ok(s.push(cv)),
            Err(e) => Err(e),
        }
    }
}

/// The final balances, one per client, in the order the clients were created.
pub open spec fn spec_accounts(s: Seq<ClientView>) -> Seq<ClientAccount> {
    s.map_values(|cv: ClientView| cv.account)
}

/// An entry with the sought id pins down `spec_client_index` when ids are unique.
pub proof fn lemma_client_index(s: Seq<ClientView>, i: int)
    requires
        spec_unique_ids(s),
        0 <= i < s.len(),
    ensures
        spec_has_client(s, s[i].account.id),
        spec_client_index(s, s[i].account.id) == i,
{
    let id = s[i].account.id;
    assert(spec_has_client(s, id));
    let j = spec_client_index(s, id);
    assert(0 <= j < s.len() && s[j].account.id == id);
    assert(j == i);
}

/// Apply one transaction to one client's state: all checks strictly before
/// any mutation, so a failing transaction leaves the state untouched.
fn apply(entry: &mut ClientAccountAndDeposits, transaction: &Transaction) -> (r: Result<
    (),
    TransactionExecutionError,
>)
    requires
        old(entry).wf(),
        old(entry).account.id == transaction.spec_client_id(),
    ensures
        final(entry).wf(),
        final(entry).account.id == old(entry).account.id,
        match spec_client_step(old(entry)@, *transaction) {
            Ok(cv) => r is Ok && final(entry)@ == cv,
            Err(e) => r == Err::<(), TransactionExecutionError>(e) && *final(entry) == *old(
                entry,
            ),
        },
{
    match transaction {
        Transaction::Deposit(d) => {
            match find_tx(&entry.deposits, d.tx) {
                Some(_) => {
                    proof {
                        lemma_deposits_map_at(entry.deposits@, tx_index(entry.deposits@, d.tx));
                    }
                    Err(TransactionExecutionError::DuplicateDeposit(d.tx))
                },
                None => {
                    proof {
                        lemma_deposits_map_absent(entry.deposits@, d.tx);
                    }
                    match entry.account.deposit(*d) {
                        Ok(acct) => {
                            let ghost s0 = entry.deposits@;
                            let e = DepositEntry {
                                tx: d.tx,
                                amount: d.amount,
                                state: DepositState::Undisputed,
                            };
                            entry.account = acct;
                            entry.deposits.push(e);
                            proof {
                                lemma_sum_push(s0, e);
                                lemma_deposits_map_push(s0, e);
                                assert(final(entry)@ =~= spec_client_step(
                                    old(entry)@,
                                    *transaction,
                                )->Ok_0);
                            }
                            Ok(())
                        },
                        Err(e) => Err(e),
                    }
                },
            }
        },
        Transaction::Withdrawal(w) => {
            match entry.account.withdraw(*w) {
                Ok(acct) => {
                    entry.account = acct;
                    proof {
                        assert(final(entry)@ =~= spec_client_step(old(entry)@, *transaction)->Ok_0);
                    }
                    Ok(())
                },
                Err(e) => Err(e),
            }
        },
        Transaction::Dispute(dp) => {
            match find_tx(&entry.deposits, dp.tx) {
                None => {
                    proof {
                        lemma_deposits_map_absent(entry.deposits@, dp.tx);
                    }
                    Err(TransactionExecutionError::DepositNotFound(dp.tx))
                },
                Some(i) => {
                    proof {
                        lemma_deposits_map_at(entry.deposits@, i as int);
                    }
                    let amount = entry.deposits[i].amount;
                    let state = entry.deposits[i].state;
                    match entry.account.dispute(*dp, amount, state) {
                        Ok((acct, new_state)) => {
                            let ghost s0 = entry.deposits@;
                            let e = DepositEntry { tx: dp.tx, amount, state: new_state };
                            entry.account = acct;
                            entry.deposits[i] = e;
                            proof {
                                lemma_sum_update(s0, i as int, e);
                                lemma_deposits_map_update(s0, i as int, e);
                                assert(final(entry)@ =~= spec_client_step(
                                    old(entry)@,
                                    *transaction,
                                )->Ok_0);
                            }
                            Ok(())
                        },
                        Err(e) => Err(e),
                    }
                },
            }
        },
        Transaction::Resolve(rs) => {
            match find_tx(&entry.deposits, rs.tx) {
                None => {
                    proof {
                        lemma_deposits_map_absent(entry.deposits@, rs.tx);
                    }
                    Err(TransactionExecutionError::DepositNotFound(rs.tx))
                },
                Some(i) => {
                    proof {
                        lemma_deposits_map_at(entry.deposits@, i as int);
                        if entry.deposits@[i as int].state is Disputed {
                            lemma_disputed_le_sum(entry.deposits@, i as int);
                        }
                    }
                    let amount = entry.deposits[i].amount;
                    let state = entry.deposits[i].state;
                    match entry.account.resolve(*rs, amount, state) {
                        Ok((acct, new_state)) => {
                            let ghost s0 = entry.deposits@;
                            let e = DepositEntry { tx: rs.tx, amount, state: new_state };
                            entry.account = acct;
                            entry.deposits[i] = e;
                            proof {
                                lemma_sum_update(s0, i as int, e);
                                lemma_deposits_map_update(s0, i as int, e);
                                assert(final(entry)@ =~= spec_client_step(
                                    old(entry)@,
                                    *transaction,
                                )->Ok_0);
                            }
                            Ok(())
                        },
                        Err(e) => Err(e),
                    }
                },
            }
        },
        Transaction::ChargeBack(cb) => {
            match find_tx(&entry.deposits, cb.tx) {
                None => {
                    proof {
                        lemma_deposits_map_absent(entry.deposits@, cb.tx);
                    }
                    Err(TransactionExecutionError::DepositNotFound(cb.tx))
                },
                Some(i) => {
                    proof {
                        lemma_deposits_map_at(entry.deposits@, i as int);
                        if entry.deposits@[i as int].state is Disputed {
                            lemma_disputed_le_sum(entry.deposits@, i as int);
                        }
                    }
                    let amount = entry.deposits[i].amount;
                    let state = entry.deposits[i].state;
                    match entry.account.charge_back(*cb, amount, state) {
                        Ok((acct, new_state)) => {
                            let ghost s0 = entry.deposits@;
                            let e = DepositEntry { tx: cb.tx, amount, state: new_state };
                            entry.account = acct;
                            entry.deposits[i] = e;
                            proof {
                                lemma_sum_update(s0, i as int, e);
                                lemma_deposits_map_update(s0, i as int, e);
                                assert(final(entry)@ =~= spec_client_step(
                                    old(entry)@,
                                    *transaction,
                                )->Ok_0);
                            }
                            Ok(())
                        },
                        Err(e) => Err(e),
                    }
                },
            }
        },
    }
}

/// The whole replay state: every client account seen so far together with
/// its recorded deposits, keyed by client id, created lazily and never
/// destroyed.
#[derive(Debug, Clone, PartialEq)]
pub struct Ledger {
    clients: Vec<ClientAccountAndDeposits>,
}

impl Default for Ledger {
    /// An empty ledger: no client has been seen yet.
    fn default() -> (r: Self)
        ensures
            r@ == Seq::<ClientView>::empty(),
            r.wf(),
    {
        Ledger { clients: Vec::new() }
    }
}

impl Ledger {
    /// The mathematical model: one `ClientView` per client, in creation order.
    pub closed spec fn view(&self) -> Seq<ClientView> {
        self.clients@.map_values(|e: ClientAccountAndDeposits| e@)
    }

    /// Well-formedness: client ids are unique and every client's held
    /// balance matches its disputed deposits.
    pub closed spec fn wf(&self) -> bool {
        &&& forall|i: int, j: int|
            0 <= i < j < self.clients@.len() ==> self.clients@[i].account.id
                != self.clients@[j].account.id
        &&& forall|i: int| 0 <= i < self.clients@.len() ==> (#[trigger] self.clients@[i]).wf()
    }

    /// The index of the first entry owned by `id`, if any.
    fn find_client(&self, id: u16) -> (r: Option<usize>)
        ensures
            match r {
                Some(i) => i < self.clients@.len() && self.clients@[i as int].account.id == id,
                None => forall|j: int|
                    0 <= j < self.clients@.len() ==> self.clients@[j].account.id != id,
            },
    {
        let mut i: usize = 0;
        while i < self.clients.len()
            invariant
                i <= self.clients@.len(),
                forall|j: int| 0 <= j < i ==> self.clients@[j].account.id != id,
            decreases self.clients@.len() - i,
        {
            if self.clients[i].account.id == id {
                return Some(i);
            }
            i = i + 1;
        }
        None
    }

    /// Replay one transaction: resolve or lazily create the owning client,
    /// dispatch by kind, and commit the result. On failure the committed
    /// state is exactly what it was before the call.
    pub fn execute(&mut self, transaction: Transaction) -> (r: Result<
        (),
        TransactionExecutionError,
    >)
        requires
            old(self).wf(),
        ensures
            final(self).wf(),
            spec_unique_ids(final(self)@),
            match spec_ledger_step(old(self)@, transaction) {
                Ok(s) => r is Ok && final(self)@ == s,
                Err(e) => r == Err::<(), TransactionExecutionError>(e) && final(self)@ == old(
                    self,
                )@,
            },
    {
        let client_id = transaction.get_client_id();
        proof {
            assert(forall|i: int|
                0 <= i < old(self)@.len() ==> old(self)@[i].account == old(
                    self,
                ).clients@[i].account);
        }
        match self.find_client(client_id) {
            Some(i) => {
                proof {
                    lemma_client_index(old(self)@, i as int);
                }
                let r = apply(&mut self.clients[i], &transaction);
                proof {
                    assert(self@ =~= old(self)@.update(i as int, self.clients@[i as int]@));
                    if r is Err {
                        assert(self@ =~= old(self)@);
                    }
                }
                r
            },
            None => {
                proof {
                    assert(!spec_has_client(old(self)@, client_id));
                }
                let mut entry = ClientAccountAndDeposits::new(client_id);
                let r = apply(&mut entry, &transaction);
                match r {
                    Ok(()) => {
                        self.clients.push(entry);
                        proof {
                            assert(self@ =~= old(self)@.push(entry@));
                        }
                        Ok(())
                    },
                    Err(e) => Err(e),
                }
            },
        }
    }

    /// The final account of every client seen so far, in creation order.
    pub fn iter(&self) -> (r: Vec<ClientAccount>)
        ensures
            r@ == spec_accounts(self@),
    {
        let mut accounts: Vec<ClientAccount> = Vec::new();
        let mut i: usize = 0;
        while i < self.clients.len()
            invariant
                i <= self.clients@.len(),
                accounts@ =~= spec_accounts(self@).take(i as int),
            decreases self.clients@.len() - i,
        {
            accounts.push(self.clients[i].account);
            proof {
                assert(accounts@ =~= spec_accounts(self@).take(i + 1 as int));
            }
            i = i + 1;
        }
        proof {
            assert(spec_accounts(self@).take(i as int) =~= spec_accounts(self@));
        }
        accounts
    }

    /// The committed account of `client`, if that client has been seen.
    pub fn get_account(&self, client: u16) -> (r: Option<ClientAccount>)
        requires
            self.wf(),
        ensures
            r == if spec_has_client(self@, client) {
                Some(self@[spec_client_index(self@, client)].account)
            } else {
                None::<ClientAccount>
            },
    {
        match self.find_client(client) {
            Some(i) => {
                proof {
                    lemma_client_index(self@, i as int);
                }
                Some(self.clients[i].account)
            },
            None => None,
        }
    }

    /// The committed deposit record `tx` of `client`, if both exist.
    pub fn get_deposit(&self, client: u16, tx: u32) -> (r: Option<(UCurrency, DepositState)>)
        requires
            self.wf(),
        ensures
            r == if spec_has_client(self@, client) && self@[spec_client_index(
                self@,
                client,
            )].deposits.contains_key(tx) {
                Some(self@[spec_client_index(self@, client)].deposits[tx])
            } else {
                None::<(UCurrency, DepositState)>
            },
    {
        match self.find_client(client) {
            Some(i) => {
                proof {
                    lemma_client_index(self@, i as int);
                }
                let entry = &self.clients[i];
                match find_tx(&entry.deposits, tx) {
                    Some(j) => {
                        proof {
                            lemma_deposits_map_at(entry.deposits@, j as int);
                            let k = tx_index(entry.deposits@, tx);
                            assert(entry.deposits@[k].tx == tx);
                            assert(k == j);
                        }
                        Some((entry.deposits[j].amount, entry.deposits[j].state))
                    },
                    None => {
                        proof {
                            lemma_deposits_map_absent(entry.deposits@, tx);
                        }
                        None
                    },
                }
            },
            None => None,
        }
    }
}

} // verus!
