use frost_snake::{execute, Error, Header, ParserError};

fn row(fields: &[&str]) -> Vec<Vec<u8>> {
    fields.iter().map(|f| f.as_bytes().to_vec()).collect()
}

fn headers() -> Vec<Vec<u8>> {
    row(&["type", "client", "tx", "amount"])
}

fn records(rows: &[&[&str]]) -> Vec<Option<Vec<Vec<u8>>>> {
    rows.iter().map(|r| Some(row(r))).collect()
}

#[test]
fn single_deposit_run() {
    let out = execute(&headers(), &records(&[&["deposit", "1", "1", "1.0"]])).unwrap();
    assert_eq!(
        String::from_utf8_lossy(&out),
        "client,available,held,total,locked\n1,1.0000,0.0000,1.0000,false\n"
    );
}

#[test]
fn deposit_dispute_charge_back_run() {
    let out = execute(
        &headers(),
        &records(&[
            &["deposit", "2", "2", "10"],
            &["dispute", "2", "2", ""],
            &["chargeback", "2", "2", ""],
        ]),
    )
    .unwrap();
    assert_eq!(
        String::from_utf8_lossy(&out),
        "client,available,held,total,locked\n2,0.0000,0.0000,0.0000,true\n"
    );
}

#[test]
fn unresolved_dispute_run() {
    let out = execute(
        &headers(),
        &records(&[&["deposit", "3", "3", "10"], &["dispute", "3", "3", ""]]),
    )
    .unwrap();
    assert_eq!(
        String::from_utf8_lossy(&out),
        "client,available,held,total,locked\n3,0.0000,10.0000,10.0000,false\n"
    );
}

#[test]
fn rejected_withdrawal_is_skipped() {
    // Withdrawing 2 after depositing 1 fails with insufficient funds; the
    // stream continues and the final state equals the post-deposit state.
    let out = execute(
        &headers(),
        &records(&[
            &["deposit", "1", "1", "1"],
            &["withdrawal", "1", "2", "2"],
        ]),
    )
    .unwrap();
    assert_eq!(
        String::from_utf8_lossy(&out),
        "client,available,held,total,locked\n1,1.0000,0.0000,1.0000,false\n"
    );
}

#[test]
fn unparsable_and_unreadable_records_are_skipped() {
    let mut recs = records(&[
        &["deposit", "1", "1", "1.0"],
        &["transfer", "1", "2", "1.0"],
        &["deposit", "1", "oops", "1.0"],
    ]);
    recs.push(None);
    recs.push(Some(row(&["deposit", "1", "2", "2.0"])));
    let out = execute(&headers(), &recs).unwrap();
    assert_eq!(
        String::from_utf8_lossy(&out),
        "client,available,held,total,locked\n1,3.0000,0.0000,3.0000,false\n"
    );
}

#[test]
fn missing_header_is_fatal() {
    assert_eq!(
        execute(
            &row(&["type", "client", "tx"]),
            &records(&[&["deposit", "1", "1", "1.0"]])
        ),
        Err(Error::ParserError(ParserError::MissingHeader(Header::Amount)))
    );
}

#[test]
fn overflowing_total_is_fatal() {
    // Each deposit fits the signed range on its own; holding the first and
    // then adding the second makes available + held exceed it.
    let big = "140737488355327";
    assert_eq!(
        execute(
            &headers(),
            &records(&[
                &["deposit", "1", "1", big],
                &["dispute", "1", "1", ""],
                &["deposit", "1", "2", big],
            ]),
        ),
        Err(Error::TotalOverflow)
    );
}

#[test]
fn headers_are_matched_by_position_not_order() {
    let out = execute(
        &row(&["amount", "tx", "client", "type"]),
        &records(&[&["1.0", "1", "1", "deposit"]]),
    )
    .unwrap();
    assert_eq!(
        String::from_utf8_lossy(&out),
        "client,available,held,total,locked\n1,1.0000,0.0000,1.0000,false\n"
    );
}
