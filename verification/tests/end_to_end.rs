use payments_engine::amount::Amount;
use payments_engine::domain::{check_headers, Row};
use payments_engine::tx_processor::{Rejection, TransactionError, TransactionsProcessor};
use rust_decimal::Decimal;

const INPUT_HEADER: &str = "type,client,tx,amount\n";
const OUTPUT_HEADER: &str = "client,available,held,total,locked\n";

/// What running the engine on an input gives: the account report and the
/// rejected transactions.
struct Outcome {
    stdout: String,
    rejections: Vec<TransactionError>,
}

/// A fatal input error and the line of the record that caused it.
#[derive(Debug)]
struct Failure {
    line: u64,
    message: String,
}

fn decimal(amount: &Amount) -> Decimal {
    let (mantissa, scale) = amount.to_decimal_parts();
    Decimal::from_i128_with_scale(mantissa, scale)
}

/// Reads transaction CSV, applies every row to the accounts and writes the
/// account report; malformed input fails without any report.
fn run(input: &str) -> Result<Outcome, Failure> {
    let mut reader = csv::ReaderBuilder::new()
        .trim(csv::Trim::All)
        .from_reader(input.as_bytes());
    let headers: Vec<String> = reader
        .headers()
        .map_err(|e| Failure { line: 1, message: e.to_string() })?
        .iter()
        .map(String::from)
        .collect();
    check_headers(&headers).map_err(|e| Failure {
        line: 1,
        message: format!("CSV must contain exactly one '{}' column", e.column.name()),
    })?;
    let position = |name: &str| headers.iter().position(|h| h == name);
    let mut processor = TransactionsProcessor::new();
    let mut rejections = Vec::new();
    for record in reader.records() {
        let record = record.map_err(|e| Failure {
            line: e.position().map_or(0, |p| p.line()),
            message: e.to_string(),
        })?;
        let line = record.position().map_or(0, |p| p.line());
        let fail = |message: String| Failure { line, message };
        let field = |name: &str| position(name).and_then(|i| record.get(i)).unwrap_or("");
        let client: u16 = field("client").parse().map_err(|e| fail(format!("client: {e}")))?;
        let tx: u32 = field("tx").parse().map_err(|e| fail(format!("tx: {e}")))?;
        let amount = Some(field("amount")).filter(|text| !text.is_empty());
        let row = Row::from_fields(field("type"), client, tx, amount)
            .map_err(|e| fail(format!("deserializing transaction failed: {e:?}")))?;
        if let Err(error) = processor.process_row(row) {
            rejections.push(error);
        }
    }
    let mut stdout = String::from(OUTPUT_HEADER);
    for account in processor.get_output() {
        stdout.push_str(&format!(
            "{},{},{},{},{}\n",
            account.client_id.0,
            decimal(&account.available),
            decimal(&account.held),
            decimal(&account.total),
            account.locked
        ));
    }
    Ok(Outcome { stdout, rejections })
}

type Account = (u16, Decimal, Decimal, Decimal, bool);

fn parse_accounts(text: &str) -> Vec<Account> {
    let mut reader = csv::Reader::from_reader(text.as_bytes());
    assert_eq!(
        reader.headers().unwrap().iter().collect::<Vec<_>>(),
        ["client", "available", "held", "total", "locked"]
    );
    let mut accounts: Vec<Account> = reader
        .records()
        .map(|record| {
            let record = record.unwrap();
            (
                record[0].parse().unwrap(),
                Decimal::from_str_exact(&record[1]).unwrap(),
                Decimal::from_str_exact(&record[2]).unwrap(),
                Decimal::from_str_exact(&record[3]).unwrap(),
                record[4].parse().unwrap(),
            )
        })
        .collect();
    accounts.sort_by_key(|account| account.0);
    for account in &accounts {
        assert_eq!(account.3, account.1 + account.2);
    }
    accounts
}

fn assert_accounts(actual: &str, expected: &str) {
    assert_eq!(parse_accounts(actual), parse_accounts(expected));
}

fn causes(outcome: &Outcome) -> Vec<Rejection> {
    outcome.rejections.iter().map(|e| e.cause).collect()
}

#[test]
fn dispute_resolve_and_chargeback_have_distinct_outcomes() {
    for (operations, expected) in [
        ("dispute,1,1,\n", "1,0,10,10,false\n"),
        ("dispute,1,1,\nresolve,1,1,\n", "1,10,0,10,false\n"),
        ("dispute,1,1,\nchargeback,1,1,\n", "1,0,0,0,true\n"),
        (
            "dispute,1,1,\nresolve,1,1,\nchargeback,1,1,\n",
            "1,10,0,10,false\n",
        ),
        ("resolve,1,1,\nchargeback,1,1,\n", "1,10,0,10,false\n"),
    ] {
        let outcome = run(&format!("{INPUT_HEADER}deposit,1,1,10\n{operations}")).unwrap();
        assert_accounts(&outcome.stdout, &format!("{OUTPUT_HEADER}{expected}"));
        assert!(outcome.rejections.is_empty());
    }
}

#[test]
fn exact_withdrawals_and_four_decimal_arithmetic_are_preserved() {
    let outcome = run(
        " type , client , tx , amount \n deposit , 65535 , 4294967295 , 1.2345 \n\
         withdrawal,65535,1,1.2345\ndeposit,2,2,0.0001\ndeposit,2,3,0.0002\n",
    )
    .unwrap();
    assert_accounts(
        &outcome.stdout,
        &format!("{OUTPUT_HEADER}65535,0,0,0,false\n2,0.0003,0,0.0003,false\n"),
    );
    assert!(outcome.rejections.is_empty());
}

#[test]
fn every_operation_on_a_locked_account_is_rejected() {
    let prefix = format!(
        "{INPUT_HEADER}deposit,1,1,10\ndeposit,1,2,20\ndeposit,1,3,30\n\
         dispute,1,1,\ndispute,1,2,\nchargeback,1,1,\n"
    );
    for operation in [
        "deposit,1,4,5\n",
        "withdrawal,1,4,5\n",
        "dispute,1,3,\n",
        "resolve,1,2,\n",
        "chargeback,1,2,\n",
        "chargeback,1,1,\n",
    ] {
        let outcome = run(&format!("{prefix}{operation}")).unwrap();
        assert_accounts(&outcome.stdout, &format!("{OUTPUT_HEADER}1,30,20,50,true\n"));
        assert_eq!(causes(&outcome), [Rejection::AccountLocked]);
        assert_eq!(outcome.rejections[0].client_id.0, 1);
    }
}

#[test]
fn large_decimal_input_is_never_converted_through_floating_point() {
    let outcome = run(&format!(
        "{INPUT_HEADER}deposit,1,1,12345678901234567890.1234\nwithdrawal,1,2,0.0001\n"
    ))
    .unwrap();
    assert_eq!(
        outcome.stdout,
        format!("{OUTPUT_HEADER}1,12345678901234567890.1233,0,12345678901234567890.1233,false\n")
    );
    assert!(outcome.rejections.is_empty());
}

#[test]
fn unknown_and_cross_client_references_are_ignored() {
    let outcome = run(&format!(
        "{INPUT_HEADER}deposit,1,1,10\ndeposit,2,2,20\n\
         dispute,2,1,\nresolve,2,1,\nchargeback,2,1,\n\
         dispute,1,99,\nresolve,1,99,\nchargeback,1,99,\n\
         dispute,3,1,\nresolve,3,1,\nchargeback,3,1,\n"
    ))
    .unwrap();
    assert_accounts(
        &outcome.stdout,
        &format!("{OUTPUT_HEADER}1,10,0,10,false\n2,20,0,20,false\n"),
    );
    assert!(outcome.rejections.is_empty());
}

#[test]
fn invalid_amounts_are_reported_and_later_rows_are_processed() {
    let outcome = run(&format!(
        "{INPUT_HEADER}deposit,1,1,-1\nwithdrawal,1,2,-1\n\
         deposit,1,3,0.00001\ndeposit,1,4,2\n"
    ))
    .unwrap();
    assert_accounts(&outcome.stdout, &format!("{OUTPUT_HEADER}1,2,0,2,false\n"));
    assert_eq!(outcome.rejections.len(), 3);
    assert!(causes(&outcome).contains(&Rejection::InvalidAmount));
}

#[test]
fn malformed_csv_fails_without_emitting_partial_accounts() {
    for invalid in [
        "unknown,1,2,1",
        "deposit,1,2,",
        "deposit,1,2,nope",
        "deposit,65536,2,1",
        "deposit,1,4294967296,1",
        "dispute,1,1",
    ] {
        let result = run(&format!("{INPUT_HEADER}deposit,1,1,10\n{invalid}\n"));
        let Err(failure) = result else {
            panic!("{invalid} should be fatal");
        };
        assert_eq!(failure.line, 3, "{}", failure.message);
    }
}

#[test]
fn empty_input_and_header_only_input_still_emit_the_output_schema() {
    for input in ["", INPUT_HEADER] {
        let outcome = run(input).unwrap();
        assert_eq!(outcome.stdout, OUTPUT_HEADER);
        assert!(outcome.rejections.is_empty());
    }
}

#[test]
fn larger_input_accumulates_exactly() {
    let mut input = String::from(INPUT_HEADER);
    for tx in 1..=10_000 {
        input.push_str(&format!("deposit,1,{tx},0.0001\n"));
    }
    let outcome = run(&input).unwrap();
    assert_accounts(&outcome.stdout, &format!("{OUTPUT_HEADER}1,1,0,1,false\n"));
    assert!(outcome.rejections.is_empty());
}

#[test]
fn insufficient_funds_are_rejected_and_reported_with_the_row() {
    let outcome = run(&format!(
        "{INPUT_HEADER}deposit,42,1,1.5\nwithdrawal,42,4,2\nwithdrawal,42,5,1.5\n"
    ))
    .unwrap();
    assert_accounts(&outcome.stdout, &format!("{OUTPUT_HEADER}42,0,0,0,false\n"));
    assert_eq!(outcome.rejections.len(), 1);
    assert_eq!(outcome.rejections[0].client_id.0, 42);
    assert_eq!(outcome.rejections[0].tx_id.0, 4);
    assert_eq!(outcome.rejections[0].cause, Rejection::InsufficientFunds);
}

#[test]
fn spent_deposits_can_be_disputed_into_negative_balances() {
    let outcome = run(&format!(
        "{INPUT_HEADER}deposit,1,1,10\nwithdrawal,1,2,7\ndispute,1,1,\nchargeback,1,1,\n"
    ))
    .unwrap();
    assert_accounts(&outcome.stdout, &format!("{OUTPUT_HEADER}1,-7,0,-7,true\n"));
    assert!(outcome.rejections.is_empty());
}

#[test]
fn withdrawals_can_be_disputed_like_deposits() {
    let outcome = run(&format!(
        "{INPUT_HEADER}deposit,1,1,10\nwithdrawal,1,2,4\ndispute,1,2,\n"
    ))
    .unwrap();
    assert_accounts(&outcome.stdout, &format!("{OUTPUT_HEADER}1,2,4,6,false\n"));
}

#[test]
fn resolved_transactions_cannot_be_disputed_again() {
    let outcome = run(&format!(
        "{INPUT_HEADER}deposit,1,1,10\ndispute,1,1,\nresolve,1,1,\ndispute,1,1,\nchargeback,1,1,\n"
    ))
    .unwrap();
    assert_accounts(&outcome.stdout, &format!("{OUTPUT_HEADER}1,10,0,10,false\n"));
    assert!(outcome.rejections.is_empty());
}

#[test]
fn rejected_funding_leaves_an_empty_account_for_a_new_client() {
    let outcome = run(&format!("{INPUT_HEADER}withdrawal,7,1,1\n")).unwrap();
    assert_accounts(&outcome.stdout, &format!("{OUTPUT_HEADER}7,0,0,0,false\n"));
    assert_eq!(causes(&outcome), [Rejection::InsufficientFunds]);
}

#[test]
fn zero_and_negative_zero_amounts_are_accepted() {
    let outcome = run(&format!(
        "{INPUT_HEADER}deposit,1,1,0\nwithdrawal,1,2,-0.0000\ndeposit,1,3,1.00000\ndispute,1,1,\n"
    ))
    .unwrap();
    assert_accounts(&outcome.stdout, &format!("{OUTPUT_HEADER}1,1,0,1,false\n"));
    assert!(outcome.rejections.is_empty());
}

#[test]
fn balances_beyond_the_decimal_limit_are_rejected_atomically() {
    let outcome = run(&format!(
        "{INPUT_HEADER}deposit,1,1,79228162514264337593543950335\n\
         deposit,1,2,0.0001\nwithdrawal,1,3,0.0001\ndeposit,1,4,1\n"
    ))
    .unwrap();
    assert_accounts(
        &outcome.stdout,
        &format!(
            "{OUTPUT_HEADER}1,79228162514264337593543950335,0,79228162514264337593543950335,false\n"
        ),
    );
    assert_eq!(
        causes(&outcome),
        [Rejection::Unrepresentable, Rejection::Unrepresentable, Rejection::Unrepresentable]
    );
}

/// One pseudo-random history of deposits and withdrawals in ten-thousandths,
/// checked against integer arithmetic.
fn check_funding_history(mut seed: u64, rows: u32) {
    let mut input = String::from(INPUT_HEADER);
    let mut balances = std::collections::BTreeMap::<u16, i128>::new();
    let mut rejected = 0_usize;
    for tx in 1_u32..=rows {
        seed ^= seed << 13;
        seed ^= seed >> 7;
        seed ^= seed << 17;
        let client = [0_u16, 1, u16::MAX][(seed % 3) as usize];
        let withdrawal = seed & 8 != 0;
        let negative_zero = seed & 16 != 0;
        let units = if seed % 10 < 3 {
            0
        } else {
            ((seed >> 8) % 2_000_000_000_001) as i64 - 1_000_000_000_000
        };
        let kind = if withdrawal { "withdrawal" } else { "deposit" };
        let amount = Decimal::new(units, 4);
        let sign = if units == 0 && negative_zero { "-" } else { "" };
        input.push_str(&format!(" {kind} , {client} , {tx} , {sign}{amount} \n"));
        let balance = balances.entry(client).or_default();
        if units < 0 || (withdrawal && *balance < i128::from(units)) {
            rejected += 1;
        } else if withdrawal {
            *balance -= i128::from(units);
        } else {
            *balance += i128::from(units);
        }
    }
    let outcome = run(&input).unwrap();
    assert_eq!(outcome.rejections.len(), rejected);
    let mut expected = String::from(OUTPUT_HEADER);
    for (client, units) in balances {
        let balance = Decimal::from_i128_with_scale(units, 4);
        expected.push_str(&format!("{client},{balance},0,{balance},false\n"));
    }
    assert_accounts(&outcome.stdout, &expected);
}

#[test]
fn funding_histories_match_integer_balances() {
    for case in 0_u64..256 {
        check_funding_history(0x2545_f491_4f6c_dd1d ^ case.wrapping_mul(0x9e37_79b9_7f4a_7c15), (case % 65) as u32);
    }
}

#[test]
fn columns_are_matched_by_header_instead_of_position() {
    let outcome = run("tx,amount,type,client\n1,1.2345,deposit,1\n").unwrap();
    assert_accounts(
        &outcome.stdout,
        "client,available,held,total,locked\n1,1.2345,0,1.2345,false\n",
    );
}

#[test]
fn invalid_headers_are_rejected_even_without_data_rows() {
    for input in [
        "type,client,tx\n",
        "type,client,tx,amount,amount\n",
        "kind,client,tx,amount\n",
        "type,client,client,amount\n",
    ] {
        let result = run(input);
        assert!(result.is_err());
    }
}
