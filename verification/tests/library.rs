use payments_engine::amount::{Amount, DecimalValue};
use payments_engine::domain::{check_headers, Column, HeaderError, Row, RowError, TxKind};
use payments_engine::domain::{ClientId, TxId};
use payments_engine::tx_processor::{Rejection, TransactionError, TransactionsProcessor};

fn deposit(client: u16, tx: u32, text: &str) -> Row {
    Row::from_fields("deposit", client, tx, Some(text)).unwrap()
}

fn reference(kind: &str, client: u16, tx: u32) -> Row {
    Row::from_fields(kind, client, tx, None).unwrap()
}

fn balances(processor: TransactionsProcessor) -> Vec<(u16, i128, i128, i128, bool)> {
    processor
        .get_output()
        .iter()
        .map(|a| {
            (a.client_id.0, a.available.units(), a.held.units(), a.total.units(), a.locked)
        })
        .collect()
}

fn headers(names: &[&str]) -> Vec<String> {
    names.iter().map(|n| n.to_string()).collect()
}

#[test]
fn decimal_text_is_read_exactly() {
    assert_eq!(
        deposit(1, 2, "1.2345"),
        Row::Deposit {
            client_id: ClientId(1),
            tx_id: TxId(2),
            amount: DecimalValue { mantissa: 12345, scale: 4 },
        }
    );
    assert_eq!(
        deposit(1, 2, "-0.5"),
        Row::Deposit {
            client_id: ClientId(1),
            tx_id: TxId(2),
            amount: DecimalValue { mantissa: -5, scale: 1 },
        }
    );
}

#[test]
fn row_errors_name_their_cause() {
    assert_eq!(Row::from_fields("refund", 1, 1, Some("1")), Err(RowError::UnknownKind));
    assert_eq!(Row::from_fields("Deposit", 1, 1, Some("1")), Err(RowError::UnknownKind));
    assert_eq!(Row::from_fields("withdrawal", 1, 1, None), Err(RowError::MissingAmount));
    assert_eq!(Row::from_fields("deposit", 1, 1, Some("nope")), Err(RowError::InvalidAmountText));
    assert_eq!(
        Row::from_fields("dispute", 3, 4, Some("nope")),
        Ok(Row::Dispute { client_id: ClientId(3), tx_id: TxId(4) })
    );
    assert_eq!(
        Row::new(TxKind::Deposit, ClientId(1), TxId(1), None),
        Err(RowError::MissingAmount)
    );
}

#[test]
fn row_ids_name_client_and_transaction() {
    assert_eq!(reference("chargeback", 9, 8).ids(), (ClientId(9), TxId(8)));
    assert_eq!(deposit(5, 6, "1").ids(), (ClientId(5), TxId(6)));
}

#[test]
fn kinds_are_read_by_their_exact_names() {
    assert_eq!(TxKind::from_name("deposit"), Some(TxKind::Deposit));
    assert_eq!(TxKind::from_name("withdrawal"), Some(TxKind::Withdrawal));
    assert_eq!(TxKind::from_name("dispute"), Some(TxKind::Dispute));
    assert_eq!(TxKind::from_name("resolve"), Some(TxKind::Resolve));
    assert_eq!(TxKind::from_name("chargeback"), Some(TxKind::Chargeback));
    assert_eq!(TxKind::from_name("deposits"), None);
}

#[test]
fn headers_must_name_each_column_once() {
    assert_eq!(check_headers(&headers(&[])), Ok(()));
    assert_eq!(check_headers(&headers(&["amount", "tx", "client", "type", "note"])), Ok(()));
    assert_eq!(
        check_headers(&headers(&["kind", "client", "tx", "amount"])),
        Err(HeaderError { column: Column::Type })
    );
    assert_eq!(
        check_headers(&headers(&["type", "client", "client", "amount"])),
        Err(HeaderError { column: Column::Client })
    );
    assert_eq!(
        check_headers(&headers(&["type", "client", "amount"])),
        Err(HeaderError { column: Column::Tx })
    );
    assert_eq!(
        check_headers(&headers(&["type", "client", "tx", "amount", "amount"])),
        Err(HeaderError { column: Column::Amount })
    );
    assert_eq!(Column::Amount.name(), "amount");
}

#[test]
fn amounts_are_exact_ten_thousandths() {
    let a = Amount::from_funding(DecimalValue { mantissa: 12345, scale: 4 }).unwrap();
    assert_eq!(a.units(), 12345);
    let b = Amount::from_funding(DecimalValue { mantissa: 3, scale: 0 }).unwrap();
    assert_eq!(b.units(), 30000);
    let c = Amount::from_funding(DecimalValue { mantissa: 1200000, scale: 6 }).unwrap();
    assert_eq!(c.units(), 12000);
    assert!(Amount::from_funding(DecimalValue { mantissa: 1, scale: 5 }).is_none());
    assert!(Amount::from_funding(DecimalValue { mantissa: -1, scale: 0 }).is_none());
    assert_eq!(Amount::from_funding(DecimalValue { mantissa: 0, scale: 28 }).unwrap().units(), 0);
    assert_eq!(a.checked_add(b).unwrap().units(), 42345);
    assert_eq!(a.checked_sub(b).unwrap().units(), -17655);
    assert!(a.checked_sub(b).unwrap().is_negative());
    assert!(b.at_least(&a));
    assert_eq!(Amount::zero().units(), 0);
}

#[test]
fn amounts_stay_within_decimal_range() {
    let max = 79_228_162_514_264_337_593_543_950_335_i128;
    assert!(Amount::from_units(max).is_some());
    assert!(Amount::from_units(max * 10_000).is_some());
    assert!(Amount::from_units(max * 10_000 + 1).is_none());
    assert!(Amount::from_units(max + 1).is_none());
    assert!(Amount::from_units(-max * 10).is_some());
    assert!(Amount::from_units(-(max + 1) * 10).is_none());
    let big = Amount::from_units(max * 10_000).unwrap();
    let tiny = Amount::from_units(1).unwrap();
    assert!(big.checked_add(tiny).is_none());
    assert!(big.checked_sub(tiny).is_none());
    assert_eq!(big.to_decimal_parts(), (max, 0));
}

#[test]
fn amounts_report_their_least_scale() {
    let parts = |units: i128| Amount::from_units(units).unwrap().to_decimal_parts();
    assert_eq!(parts(0), (0, 0));
    assert_eq!(parts(3), (3, 4));
    assert_eq!(parts(120), (12, 3));
    assert_eq!(parts(-25000), (-25, 1));
    assert_eq!(parts(70000), (7, 0));
}

#[test]
fn dispute_then_resolve_restores_the_balances() {
    let mut processor = TransactionsProcessor::new();
    processor.process_row(deposit(1, 1, "10")).unwrap();
    processor.process_row(deposit(1, 2, "2.5")).unwrap();
    processor.process_row(reference("dispute", 1, 1)).unwrap();
    processor.process_row(reference("resolve", 1, 1)).unwrap();
    assert_eq!(balances(processor), [(1, 125000, 0, 125000, false)]);
}

#[test]
fn disputes_keep_the_total() {
    let mut processor = TransactionsProcessor::new();
    processor.process_row(deposit(1, 1, "10")).unwrap();
    processor.process_row(deposit(1, 2, "2.5")).unwrap();
    processor.process_row(reference("dispute", 1, 2)).unwrap();
    assert_eq!(balances(processor), [(1, 100000, 25000, 125000, false)]);
}

#[test]
fn chargeback_removes_the_held_amount_and_freezes() {
    let mut processor = TransactionsProcessor::new();
    processor.process_row(deposit(1, 1, "10")).unwrap();
    processor.process_row(deposit(1, 2, "2.5")).unwrap();
    processor.process_row(reference("dispute", 1, 2)).unwrap();
    processor.process_row(reference("chargeback", 1, 2)).unwrap();
    assert_eq!(
        processor.process_row(deposit(1, 3, "1")),
        Err(TransactionError { client_id: ClientId(1), tx_id: TxId(3), cause: Rejection::AccountLocked })
    );
    assert_eq!(balances(processor), [(1, 100000, 0, 100000, true)]);
}

#[test]
fn rows_touch_only_their_own_client() {
    let mut processor = TransactionsProcessor::new();
    processor.process_row(deposit(2, 1, "4")).unwrap();
    processor.process_row(deposit(1, 2, "1")).unwrap();
    processor.process_row(reference("dispute", 1, 1)).unwrap();
    processor.process_row(reference("dispute", 3, 1)).unwrap();
    assert_eq!(balances(processor), [(1, 10000, 0, 10000, false), (2, 40000, 0, 40000, false)]);
}

#[test]
fn rejected_rows_change_nothing() {
    let mut processor = TransactionsProcessor::new();
    processor.process_row(deposit(1, 1, "1")).unwrap();
    let withdrawal = Row::from_fields("withdrawal", 1, 2, Some("1.0001")).unwrap();
    assert_eq!(
        processor.process_row(withdrawal),
        Err(TransactionError {
            client_id: ClientId(1),
            tx_id: TxId(2),
            cause: Rejection::InsufficientFunds,
        })
    );
    // The rejected withdrawal was not recorded: disputing it changes nothing.
    processor.process_row(reference("dispute", 1, 2)).unwrap();
    assert_eq!(
        processor.process_row(deposit(1, 3, "0.00001")).unwrap_err().cause,
        Rejection::InvalidAmount
    );
    assert_eq!(balances(processor), [(1, 10000, 0, 10000, false)]);
}

#[test]
fn held_funds_cannot_be_withdrawn() {
    let mut processor = TransactionsProcessor::new();
    processor.process_row(deposit(1, 1, "10")).unwrap();
    processor.process_row(reference("dispute", 1, 1)).unwrap();
    let withdrawal = Row::from_fields("withdrawal", 1, 2, Some("5")).unwrap();
    assert_eq!(processor.process_row(withdrawal).unwrap_err().cause, Rejection::InsufficientFunds);
    assert_eq!(balances(processor), [(1, 0, 100000, 100000, false)]);
}
