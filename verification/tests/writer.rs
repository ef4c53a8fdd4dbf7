use frost_snake::{Ledger, Transaction, UCurrency};

fn ucur(units: u64) -> UCurrency {
    UCurrency::from_bits(units << 16)
}

#[test]
fn outputs_correctly() {
    let mut l = Ledger::default();
    l.execute(Transaction::new_deposit(1, 1, ucur(1))).unwrap();
    let buf = frost_snake::write_csv(&l).unwrap();
    assert_eq!(
        String::from_utf8_lossy(&buf),
        "client,available,held,total,locked\n1,1.0000,0.0000,1.0000,false\n"
    );

    let mut l = Ledger::default();
    l.execute(Transaction::new_deposit(2, 2, ucur(10))).unwrap();
    l.execute(Transaction::new_dispute(2, 2)).unwrap();
    l.execute(Transaction::new_charge_back(2, 2)).unwrap();
    let buf = frost_snake::write_csv(&l).unwrap();
    assert_eq!(
        String::from_utf8_lossy(&buf),
        "client,available,held,total,locked\n2,0.0000,0.0000,0.0000,true\n"
    );

    let mut l = Ledger::default();
    l.execute(Transaction::new_deposit(3, 3, ucur(10))).unwrap();
    l.execute(Transaction::new_dispute(3, 3)).unwrap();
    let buf = frost_snake::write_csv(&l).unwrap();
    assert_eq!(
        String::from_utf8_lossy(&buf),
        "client,available,held,total,locked\n3,0.0000,10.0000,10.0000,false\n"
    );
}

#[test]
fn renders_fractional_amounts_and_multi_digit_ids() {
    let mut l = Ledger::default();
    // 2.5 = 2 + 1/2, exactly representable.
    l.execute(Transaction::new_deposit(1, 123, UCurrency::from_bits((2 << 16) + (1 << 15))))
        .unwrap();
    let buf = frost_snake::write_csv(&l).unwrap();
    assert_eq!(
        String::from_utf8_lossy(&buf),
        "client,available,held,total,locked\n123,2.5000,0.0000,2.5000,false\n"
    );
}

#[test]
fn empty_ledger_renders_only_the_header() {
    let l = Ledger::default();
    let buf = frost_snake::write_csv(&l).unwrap();
    assert_eq!(
        String::from_utf8_lossy(&buf),
        "client,available,held,total,locked\n"
    );
}

#[test]
fn negative_balance_renders_with_sign() {
    let mut l = Ledger::default();
    l.execute(Transaction::new_deposit(1, 1, ucur(1))).unwrap();
    l.execute(Transaction::new_withdrawal(2, 1, ucur(1))).unwrap();
    l.execute(Transaction::new_dispute(1, 1)).unwrap();
    l.execute(Transaction::new_charge_back(1, 1)).unwrap();
    let buf = frost_snake::write_csv(&l).unwrap();
    assert_eq!(
        String::from_utf8_lossy(&buf),
        "client,available,held,total,locked\n1,-1.0000,0.0000,-1.0000,true\n"
    );
}
