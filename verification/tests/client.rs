use frost_snake::{
    ChargeBack, ClientAccount, DepositState, Deposit, Dispute, ICurrency, Resolve,
    TransactionExecutionError, UCurrency, Withdrawal,
};

fn ucur(units: u64) -> UCurrency {
    UCurrency::from_bits(units << 16)
}

fn icur(units: i64) -> ICurrency {
    ICurrency::from_bits(units << 16)
}

#[test]
fn client_can_deposit() {
    let tx = 1;
    let client = 1;
    let amount = ucur(1);
    let deposit = Deposit { tx, client, amount };
    assert_eq!(
        ClientAccount::new(client).deposit(deposit),
        Ok(ClientAccount {
            id: client,
            held: ucur(0),
            available: icur(1),
            locked: false,
        })
    );
}

#[test]
fn can_withdraw() {
    let client = 1;
    assert_eq!(
        ClientAccount {
            available: icur(1),
            id: client,
            locked: false,
            held: ucur(0),
        }
        .withdraw(Withdrawal {
            tx: 1,
            client,
            amount: ucur(1)
        }),
        Ok(ClientAccount {
            id: client,
            locked: false,
            available: icur(0),
            held: ucur(0),
        })
    );
}

#[test]
fn can_dispute() {
    let client = 1;
    assert_eq!(
        ClientAccount::new(client).dispute(
            Dispute { tx: 1, client },
            ucur(1),
            DepositState::Undisputed
        ),
        Ok((
            ClientAccount {
                id: client,
                locked: false,
                available: icur(-1),
                held: ucur(1),
            },
            DepositState::Disputed
        ))
    );
}

#[test]
fn can_resolve() {
    let client = 1;
    assert_eq!(
        ClientAccount {
            id: client,
            held: ucur(1),
            available: icur(0),
            locked: false,
        }
        .resolve(Resolve { tx: 1, client }, ucur(1), DepositState::Disputed),
        Ok((
            ClientAccount {
                id: client,
                locked: false,
                available: icur(1),
                held: ucur(0),
            },
            DepositState::Undisputed
        ))
    );
}

#[test]
fn can_charge_back() {
    let client = 1;
    assert_eq!(
        ClientAccount {
            id: client,
            held: ucur(1),
            available: icur(0),
            locked: false,
        }
        .charge_back(ChargeBack { tx: 1, client }, ucur(1), DepositState::Disputed),
        Ok((
            ClientAccount {
                id: client,
                locked: true,
                available: icur(0),
                held: ucur(0),
            },
            DepositState::ChargedBack
        ))
    );
}

#[test]
fn total_is_correct() {
    let client = 1;
    let tx = 1;
    let amount = ucur(1);
    let mut acc = ClientAccount::new(client);
    assert_eq!(acc.total(), icur(0));
    acc = acc.deposit(Deposit { tx, client, amount }).unwrap();
    assert_eq!(acc.total(), icur(1));
    acc = acc
        .withdraw(Withdrawal {
            tx: 1,
            client,
            amount,
        })
        .unwrap();
    assert_eq!(acc.total(), icur(0));

    let (acc2, _) = acc
        .deposit(Deposit { tx, client, amount })
        .unwrap()
        .dispute(Dispute { tx, client }, amount, DepositState::Undisputed)
        .unwrap();
    assert_eq!(acc2.total(), icur(1));

    let (acc3, _) = acc2
        .charge_back(ChargeBack { tx, client }, amount, DepositState::Disputed)
        .unwrap();
    assert_eq!(acc3.total(), icur(0));
}

#[test]
fn total_mixes_available_and_held() {
    // available 2.5, held 1.25: total is exactly 3.75.
    let acc = ClientAccount {
        id: 9,
        locked: false,
        available: ICurrency::from_bits((2 << 16) + (1 << 15)),
        held: UCurrency::from_bits((1 << 16) + (1 << 14)),
    };
    assert_eq!(acc.total(), ICurrency::from_bits((3 << 16) + (3 << 14)));
}

#[test]
fn deposit_overflow_is_reported() {
    let client = 1;
    let acc = ClientAccount {
        id: client,
        locked: false,
        available: ICurrency::from_bits(i64::MAX),
        held: ucur(0),
    };
    assert_eq!(
        acc.deposit(Deposit {
            tx: 1,
            client,
            amount: UCurrency::from_bits(1)
        }),
        Err(TransactionExecutionError::Overflow)
    );
}

#[test]
fn withdrawal_underflow_is_reported() {
    let client = 1;
    let acc = ClientAccount {
        id: client,
        locked: false,
        available: ICurrency::from_bits(-1),
        held: ucur(0),
    };
    assert_eq!(
        acc.withdraw(Withdrawal {
            tx: 1,
            client,
            amount: UCurrency::from_bits(u64::MAX)
        }),
        Err(TransactionExecutionError::Underflow)
    );
}

#[test]
fn withdrawal_of_more_than_available_is_insufficient_funds() {
    let client = 1;
    let acc = ClientAccount {
        id: client,
        locked: false,
        available: icur(1),
        held: ucur(0),
    };
    assert_eq!(
        acc.withdraw(Withdrawal {
            tx: 2,
            client,
            amount: ucur(2)
        }),
        Err(TransactionExecutionError::InsufficientFunds)
    );
}

#[test]
fn locked_account_rejects_any_withdrawal() {
    let client = 1;
    let acc = ClientAccount {
        id: client,
        locked: true,
        available: icur(100),
        held: ucur(0),
    };
    assert_eq!(
        acc.withdraw(Withdrawal {
            tx: 2,
            client,
            amount: ucur(1)
        }),
        Err(TransactionExecutionError::AccountLocked)
    );
}
