use frost_snake::{
    extract_field_map, parse_transaction, FieldToIndexMap, Header, ParserError, Transaction,
    UCurrency,
};

fn record(fields: &[&str]) -> Vec<Vec<u8>> {
    fields.iter().map(|f| f.as_bytes().to_vec()).collect()
}

fn field_map() -> FieldToIndexMap {
    FieldToIndexMap {
        ty: 0,
        tx: 1,
        client: 2,
        amount: 3,
    }
}

#[test]
fn parsing_missing_amount_fails_with_missing_header() {
    assert!(matches!(
        parse_transaction(&record(&["deposit", "1", "1"]), field_map()),
        Err(ParserError::MissingHeader(Header::Amount))
    ));
}

#[test]
fn can_parse_deposit_transaction() {
    assert_eq!(
        parse_transaction(&record(&["deposit", "1", "1", "10.0001"]), field_map()).unwrap(),
        Transaction::new_deposit(1, 1, UCurrency::from_bits((10 << 16) + 7))
    );
}

#[test]
fn can_parse_withdrawal_transaction() {
    assert_eq!(
        parse_transaction(&record(&["withdrawal", "1", "1", "10.0001"]), field_map()).unwrap(),
        Transaction::new_withdrawal(1, 1, UCurrency::from_bits((10 << 16) + 7))
    );
}

#[test]
fn negative_withdrawal_fails() {
    assert!(matches!(
        parse_transaction(&record(&["withdrawal", "1", "1", "-1"]), field_map()),
        Err(ParserError::CurrencyParseError)
    ));
}

#[test]
fn negative_deposit_fails() {
    assert!(matches!(
        parse_transaction(&record(&["deposit", "1", "1", "-1"]), field_map()),
        Err(ParserError::CurrencyParseError)
    ));
}

#[test]
fn can_parse_dispute_transaction() {
    assert_eq!(
        parse_transaction(&record(&["dispute", "1", "1"]), field_map()).unwrap(),
        Transaction::new_dispute(1, 1)
    );
}

#[test]
fn can_parse_resolve_transaction() {
    assert_eq!(
        parse_transaction(&record(&["resolve", "1", "1"]), field_map()).unwrap(),
        Transaction::new_resolve(1, 1)
    );
}

#[test]
fn can_parse_charge_back_transaction() {
    assert_eq!(
        parse_transaction(&record(&["chargeback", "1", "1"]), field_map()).unwrap(),
        Transaction::new_charge_back(1, 1)
    );
}

#[test]
fn can_handle_whitespace() {
    assert_eq!(
        parse_transaction(
            &record(&[
                "   deposit ",
                " 1  ",
                "   1            ",
                "  1.0                "
            ]),
            field_map()
        )
        .unwrap(),
        Transaction::new_deposit(1, 1, UCurrency::from_bits(1 << 16))
    );
}

#[test]
fn can_extract_field_map() {
    assert_eq!(
        extract_field_map(&record(&["type", "tx", "client", "amount"])).unwrap(),
        FieldToIndexMap {
            ty: 0,
            tx: 1,
            client: 2,
            amount: 3,
        }
    );
    assert_eq!(
        extract_field_map(&record(&["tx", "client", "amount", "type"])).unwrap(),
        FieldToIndexMap {
            tx: 0,
            client: 1,
            amount: 2,
            ty: 3,
        }
    );
}

#[test]
fn extracting_missing_header_fields_fails() {
    assert!(matches!(
        extract_field_map(&record(&[""])),
        Err(ParserError::MissingHeader(_))
    ));
    assert!(matches!(
        extract_field_map(&record(&["type"])),
        Err(ParserError::MissingHeader(_))
    ));
    assert!(matches!(
        extract_field_map(&record(&["type", "tx", "client"])),
        Err(ParserError::MissingHeader(_))
    ));
}

#[test]
fn unknown_type_field_fails() {
    assert!(matches!(
        parse_transaction(&record(&["transfer", "1", "1", "1.0"]), field_map()),
        Err(ParserError::InvalidTypeField)
    ));
}

#[test]
fn non_numeric_tx_fails() {
    assert!(matches!(
        parse_transaction(&record(&["deposit", "x7", "1", "1.0"]), field_map()),
        Err(ParserError::IntParseError)
    ));
}

#[test]
fn out_of_range_client_fails() {
    assert!(matches!(
        parse_transaction(&record(&["deposit", "1", "70000", "1.0"]), field_map()),
        Err(ParserError::IntParseError)
    ));
}

#[test]
fn non_ascii_field_reports_first_bad_byte() {
    let mut rec = record(&["deposit", "1", "1", "1.0"]);
    rec[1] = vec![49, 0xC3, 0xA9];
    assert_eq!(
        parse_transaction(&rec, field_map()),
        Err(ParserError::InvalidAscii(1))
    );
}

#[test]
fn leading_plus_sign_is_accepted() {
    assert_eq!(
        parse_transaction(&record(&["dispute", "+12", "+3"]), field_map()).unwrap(),
        Transaction::new_dispute(12, 3)
    );
}

#[test]
fn duplicate_headers_map_to_the_last_occurrence() {
    assert_eq!(
        extract_field_map(&record(&["type", "tx", "client", "amount", "tx"])).unwrap(),
        FieldToIndexMap {
            ty: 0,
            tx: 4,
            client: 2,
            amount: 3,
        }
    );
}
