use frost_snake::{
    ClientAccount, DepositState, ICurrency, Ledger, Transaction, TransactionExecutionError,
    UCurrency,
};

fn ucur(units: u64) -> UCurrency {
    UCurrency::from_bits(units << 16)
}

fn icur(units: i64) -> ICurrency {
    ICurrency::from_bits(units << 16)
}

#[test]
fn ledger_can_deposit() {
    let mut ledger = Ledger::default();
    let deposit = Transaction::new_deposit(1, 1, ucur(1));
    assert_eq!(ledger.execute(deposit), Ok(()));
    assert_eq!(
        ledger.get_account(1),
        Some(ClientAccount {
            id: 1,
            held: ucur(0),
            available: icur(1),
            locked: false,
        })
    );
    assert_eq!(
        ledger.get_deposit(1, 1),
        Some((ucur(1), DepositState::Undisputed))
    );
}

#[test]
fn can_deposit_then_dispute() {
    let mut ledger = Ledger::default();
    let deposit = Transaction::new_deposit(1, 1, ucur(1));
    let dispute = Transaction::new_dispute(1, 1);
    ledger.execute(deposit).unwrap();
    ledger.execute(dispute).unwrap();
    assert_eq!(
        ledger.get_account(1),
        Some(ClientAccount {
            id: 1,
            held: ucur(1),
            available: icur(0),
            locked: false,
        })
    );
    assert_eq!(
        ledger.get_deposit(1, 1),
        Some((ucur(1), DepositState::Disputed))
    );
}

#[test]
fn can_deposit_then_dispute_and_resolve() {
    let deposit = Transaction::new_deposit(1, 1, ucur(1));
    let dispute = Transaction::new_dispute(1, 1);
    let resolve = Transaction::new_resolve(1, 1);

    // deposit -> dispute -> resolve should equal deposit alone
    let mut round_trip = Ledger::default();
    round_trip.execute(deposit.clone()).unwrap();
    round_trip.execute(dispute).unwrap();
    round_trip.execute(resolve).unwrap();

    let mut deposit_alone = Ledger::default();
    deposit_alone.execute(deposit).unwrap();

    assert_eq!(round_trip, deposit_alone);
}

#[test]
fn cant_charge_back_invalid_transaction_id() {
    let mut ledger = Ledger::default();
    assert_eq!(
        ledger.execute(Transaction::new_charge_back(1, 1)),
        Err(TransactionExecutionError::DepositNotFound(1))
    );
}

#[test]
fn cant_resolve_undisputed_transaction() {
    let mut ledger = Ledger::default();
    ledger
        .execute(Transaction::new_deposit(1, 1, ucur(1)))
        .unwrap();
    assert_eq!(
        ledger.execute(Transaction::new_resolve(1, 1)),
        Err(TransactionExecutionError::InvalidDepositState {
            tx: 1,
            expected_state: DepositState::Disputed,
            actual_state: DepositState::Undisputed,
        })
    );
}

#[test]
fn deposit_withdraw_charge_back_gives_negative_balance() {
    let mut ledger = Ledger::default();
    ledger
        .execute(Transaction::new_deposit(1, 1, ucur(1)))
        .unwrap();
    ledger
        .execute(Transaction::new_withdrawal(2, 1, ucur(1)))
        .unwrap();
    ledger.execute(Transaction::new_dispute(1, 1)).unwrap();
    assert_eq!(ledger.execute(Transaction::new_charge_back(1, 1)), Ok(()));
    assert_eq!(
        ledger.get_account(1),
        Some(ClientAccount {
            id: 1,
            held: ucur(0),
            available: icur(-1),
            locked: true,
        })
    );
    assert_eq!(
        ledger.get_deposit(1, 1),
        Some((ucur(1), DepositState::ChargedBack))
    );
}

#[test]
fn cant_dispute_withdrawal() {
    let mut ledger = Ledger::default();
    ledger
        .execute(Transaction::new_deposit(1, 1, ucur(1)))
        .unwrap();
    ledger
        .execute(Transaction::new_withdrawal(2, 1, ucur(1)))
        .unwrap();
    assert_eq!(
        ledger.execute(Transaction::new_dispute(2, 1)),
        Err(TransactionExecutionError::DepositNotFound(2))
    );
}

#[test]
fn cant_charge_back_multiple_times() {
    let mut ledger = Ledger::default();
    ledger
        .execute(Transaction::new_deposit(1, 1, ucur(1)))
        .unwrap();
    ledger.execute(Transaction::new_dispute(1, 1)).unwrap();
    ledger.execute(Transaction::new_charge_back(1, 1)).unwrap();
    assert_eq!(
        ledger.execute(Transaction::new_charge_back(1, 1)),
        Err(TransactionExecutionError::InvalidDepositState {
            tx: 1,
            expected_state: DepositState::Disputed,
            actual_state: DepositState::ChargedBack,
        })
    );
}

#[test]
fn cant_reuse_deposit_transaction_id() {
    let mut ledger = Ledger::default();
    ledger
        .execute(Transaction::new_deposit(1, 1, ucur(1)))
        .unwrap();
    assert_eq!(
        ledger.execute(Transaction::new_deposit(1, 1, ucur(2))),
        Err(TransactionExecutionError::DuplicateDeposit(1))
    );
    // The failed duplicate changed nothing.
    assert_eq!(
        ledger.get_deposit(1, 1),
        Some((ucur(1), DepositState::Undisputed))
    );
    assert_eq!(
        ledger.get_account(1),
        Some(ClientAccount {
            id: 1,
            held: ucur(0),
            available: icur(1),
            locked: false,
        })
    );
}

#[test]
fn cant_charge_back_undisputed_transaction() {
    let mut ledger = Ledger::default();
    ledger
        .execute(Transaction::new_deposit(1, 1, ucur(1)))
        .unwrap();
    assert_eq!(
        ledger.execute(Transaction::new_charge_back(1, 1)),
        Err(TransactionExecutionError::InvalidDepositState {
            tx: 1,
            expected_state: DepositState::Disputed,
            actual_state: DepositState::Undisputed,
        })
    );
}

#[test]
fn charge_back_locks_permanently_but_allows_new_deposits() {
    let mut ledger = Ledger::default();
    ledger
        .execute(Transaction::new_deposit(1, 1, ucur(10)))
        .unwrap();
    ledger.execute(Transaction::new_dispute(1, 1)).unwrap();
    ledger.execute(Transaction::new_charge_back(1, 1)).unwrap();

    // Held is back at its pre-dispute value and the account is locked.
    assert_eq!(
        ledger.get_account(1),
        Some(ClientAccount {
            id: 1,
            held: ucur(0),
            available: icur(0),
            locked: true,
        })
    );

    // A new deposit still succeeds on the locked account.
    assert_eq!(ledger.execute(Transaction::new_deposit(2, 1, ucur(3))), Ok(()));
    assert_eq!(
        ledger.get_account(1),
        Some(ClientAccount {
            id: 1,
            held: ucur(0),
            available: icur(3),
            locked: true,
        })
    );

    // Any further dispute, resolve or chargeback of the old tx fails,
    // naming the charged-back state.
    let expected = Err(TransactionExecutionError::InvalidDepositState {
        tx: 1,
        expected_state: DepositState::Disputed,
        actual_state: DepositState::ChargedBack,
    });
    assert_eq!(ledger.execute(Transaction::new_resolve(1, 1)), expected);
    assert_eq!(ledger.execute(Transaction::new_charge_back(1, 1)), expected);
    assert_eq!(
        ledger.execute(Transaction::new_dispute(1, 1)),
        Err(TransactionExecutionError::InvalidDepositState {
            tx: 1,
            expected_state: DepositState::Undisputed,
            actual_state: DepositState::ChargedBack,
        })
    );

    // The lock is permanent: withdrawals stay rejected.
    assert_eq!(
        ledger.execute(Transaction::new_withdrawal(3, 1, ucur(1))),
        Err(TransactionExecutionError::AccountLocked)
    );
}

#[test]
fn same_tx_id_for_two_clients_is_isolated() {
    let mut ledger = Ledger::default();
    ledger
        .execute(Transaction::new_deposit(7, 1, ucur(1)))
        .unwrap();
    ledger
        .execute(Transaction::new_deposit(7, 2, ucur(2)))
        .unwrap();
    // Disputing tx 7 for client 2 must not touch client 1.
    ledger.execute(Transaction::new_dispute(7, 2)).unwrap();
    assert_eq!(
        ledger.get_account(1),
        Some(ClientAccount {
            id: 1,
            held: ucur(0),
            available: icur(1),
            locked: false,
        })
    );
    assert_eq!(
        ledger.get_deposit(1, 7),
        Some((ucur(1), DepositState::Undisputed))
    );
    assert_eq!(
        ledger.get_account(2),
        Some(ClientAccount {
            id: 2,
            held: ucur(2),
            available: icur(0),
            locked: false,
        })
    );
    assert_eq!(
        ledger.get_deposit(2, 7),
        Some((ucur(2), DepositState::Disputed))
    );
}

#[test]
fn failed_insufficient_withdrawal_changes_nothing() {
    let mut ledger = Ledger::default();
    ledger
        .execute(Transaction::new_deposit(1, 1, ucur(1)))
        .unwrap();
    assert_eq!(
        ledger.execute(Transaction::new_withdrawal(2, 1, ucur(2))),
        Err(TransactionExecutionError::InsufficientFunds)
    );
    assert_eq!(
        ledger.get_account(1),
        Some(ClientAccount {
            id: 1,
            held: ucur(0),
            available: icur(1),
            locked: false,
        })
    );
}

#[test]
fn failed_transaction_leaves_no_trace_of_a_new_client() {
    let mut ledger = Ledger::default();
    assert_eq!(
        ledger.execute(Transaction::new_dispute(1, 9)),
        Err(TransactionExecutionError::DepositNotFound(1))
    );
    assert_eq!(ledger.get_account(9), None);
    assert_eq!(ledger.iter().len(), 0);
}

#[test]
fn iter_reports_every_client_in_creation_order() {
    let mut ledger = Ledger::default();
    ledger
        .execute(Transaction::new_deposit(1, 5, ucur(1)))
        .unwrap();
    ledger
        .execute(Transaction::new_deposit(2, 3, ucur(2)))
        .unwrap();
    let accounts = ledger.iter();
    assert_eq!(accounts.len(), 2);
    assert_eq!(accounts[0].id, 5);
    assert_eq!(accounts[1].id, 3);
}
