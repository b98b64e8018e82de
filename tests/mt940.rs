use std::str::FromStr;
use ypbank_system::mt940_format::{parse_mt940_date, Mt940Statement};
use ypbank_system::{Amount, Balance, BalanceType, Date, DebitCredit, Error, Statement, Transaction};

fn dec(s: &str) -> Amount {
    let d = rust_decimal::Decimal::from_str(s).unwrap();
    Amount { mantissa: d.mantissa(), scale: d.scale() }
}

#[test]
fn test_parse_mt940_date() {
    let date = parse_mt940_date("250218").unwrap();
    assert_eq!(date.year, 2025);
    assert_eq!(date.month, 2);
    assert_eq!(date.day, 18);
}

#[test]
fn test_debit_credit() {
    assert_eq!("D".parse::<DebitCredit>().ok(), Some(DebitCredit::Debit));
    assert_eq!("C".parse::<DebitCredit>().ok(), Some(DebitCredit::Credit));
    assert!("X".parse::<DebitCredit>().is_err());
}

#[test]
fn two_digit_year_pivot() {
    assert_eq!(parse_mt940_date("490101").unwrap().year, 2049);
    assert_eq!(parse_mt940_date("500101").unwrap().year, 1950);
    assert_eq!(parse_mt940_date("000229").unwrap(), Date { year: 2000, month: 2, day: 29 });
}

#[test]
fn bad_dates_are_rejected() {
    assert_eq!(parse_mt940_date("250230"), Err(Error::InvalidDate("250230".to_string())));
    assert_eq!(parse_mt940_date("25021"), Err(Error::InvalidDate("25021".to_string())));
    assert_eq!(parse_mt940_date("25a218"), Err(Error::InvalidDate("25a218".to_string())));
}

#[test]
fn debit_credit_names() {
    assert_eq!(DebitCredit::from_str("dbit"), Some(DebitCredit::Debit));
    assert_eq!(DebitCredit::from_str("Credit"), Some(DebitCredit::Credit));
    assert_eq!(DebitCredit::from_str("x"), None);
    assert_eq!(DebitCredit::Debit.to_string(), "D");
    assert_eq!(DebitCredit::Credit.to_iso_format(), "CRDT");
}

const DOC: &str = "{1:F01BANKXXXXAXXX0000000000}{2:I940BANKXXXXAXXXXN}{4:\r\n\
:20:STMT-1\r\n\
:25:40702810000000000001\r\n\
:28C:00001/001\r\n\
:60F:C250218RUB2732398848,02\r\n\
:61:2502180218D12,01NTRFGSLNVSHSUTKWDR//GI2504900007841\r\n\
:86:Payment for\r\n\
  services rendered\r\n\
under contract 7\r\n\
:61:2502190219C500,00NTRF\r\n\
:62F:C250219RUB2732399336,01\r\n\
-}\r\n";

#[test]
fn parses_a_statement() {
    let s = Mt940Statement::from_text(DOC).unwrap().statement;
    assert_eq!(s.statement_id, "STMT-1");
    assert_eq!(s.account, "40702810000000000001");
    assert_eq!(s.sequence_number.as_deref(), Some("00001/001"));
    assert_eq!(s.currency, "RUB");
    let o = s.opening_balance.clone().unwrap();
    assert_eq!(o.balance_type, BalanceType::Opening);
    assert_eq!(o.amount, dec("2732398848.02"));
    assert_eq!(o.debit_credit, DebitCredit::Credit);
    assert_eq!(o.date, Date { year: 2025, month: 2, day: 18 });
    assert_eq!(s.closing_balance.clone().unwrap().amount, dec("2732399336.01"));
    assert_eq!(s.transactions.len(), 2);
    let t = &s.transactions[0];
    assert_eq!(t.reference, "GI2504900007841");
    assert_eq!(t.amount, dec("12.01"));
    assert_eq!(t.debit_credit, DebitCredit::Debit);
    assert_eq!(t.currency, "RUB");
    assert_eq!(t.value_date, Some(Date { year: 2025, month: 2, day: 18 }));
    assert_eq!(t.description, "Payment for services rendered under contract 7");
    let u = &s.transactions[1];
    assert_eq!(u.date, Date { year: 2025, month: 2, day: 19 });
    assert_eq!(u.debit_credit, DebitCredit::Credit);
    assert_eq!(u.amount, dec("500.00"));
    assert_eq!(u.reference, "NTRF");
    assert_eq!(u.description, "");
}

#[test]
fn continuation_lines_join_the_description() {
    let doc = ":20:A\n:25:B\n:61:250218C1,00NTRF//R1\n:86:first\nsecond\n  third  \n";
    let s = Mt940Statement::from_text(doc).unwrap().statement;
    assert_eq!(s.transactions[0].description, "first second third");
}

#[test]
fn missing_reference_is_made_up() {
    let doc = ":20:A\n:25:B\n:61:250218C1,5NTRF//\n";
    let s = Mt940Statement::from_text(doc).unwrap().statement;
    assert_eq!(s.transactions[0].reference, "2025-02-18-1.5");
}

#[test]
fn missing_fields_are_errors() {
    assert_eq!(
        Mt940Statement::from_text(":25:B\n"),
        Err(Error::MissingField("statement reference :20:".to_string()))
    );
    assert_eq!(
        Mt940Statement::from_text(":20:A\n:25:  \n"),
        Err(Error::MissingField("account identification :25:".to_string()))
    );
}

#[test]
fn malformed_lines_are_errors() {
    assert_eq!(
        Mt940Statement::from_text(":20:A\n:25:B\n:60F:C2502\n"),
        Err(Error::ParseError("Balance line too short: :60F:C2502".to_string()))
    );
    assert_eq!(
        Mt940Statement::from_text(":20:A\n:25:B\n:60F:X250218RUB1,00\n"),
        Err(Error::ParseError("Invalid D/C indicator in: :60F:X250218RUB1,00".to_string()))
    );
    assert_eq!(
        Mt940Statement::from_text(":20:A\n:25:B\n:62F:C250218RUB1,0,0\n"),
        Err(Error::InvalidAmount("1.0.0".to_string()))
    );
    assert_eq!(
        Mt940Statement::from_text(":20:A\n:25:B\n:61:2502\n"),
        Err(Error::ParseError("Transaction line too short: :61:2502".to_string()))
    );
    assert_eq!(
        Mt940Statement::from_text(":20:A\n:25:B\n:61:250218\n"),
        Err(Error::Mt940ParseError { line: 0, message: "Missing D/C indicator".to_string() })
    );
    assert_eq!(
        Mt940Statement::from_text(":20:A\n:25:B\n:61:250218X1,00NTRF\n"),
        Err(Error::ParseError("Invalid D/C: X".to_string()))
    );
    assert_eq!(
        Mt940Statement::from_text(":20:A\n:25:B\n:61:2513180218D1,00NTRF\n"),
        Err(Error::InvalidDate("251318".to_string()))
    );
}

fn sample() -> Statement {
    let mut s = Statement::new("S1".to_string(), "ACC".to_string(), "EUR".to_string());
    s.sequence_number = Some("7".to_string());
    s.opening_balance = Some(Balance {
        balance_type: BalanceType::Opening,
        amount: dec("100.50"),
        currency: "EUR".to_string(),
        debit_credit: DebitCredit::Credit,
        date: Date { year: 2024, month: 3, day: 1 },
    });
    s.closing_balance = Some(Balance {
        balance_type: BalanceType::Closing,
        amount: dec("90.25"),
        currency: "EUR".to_string(),
        debit_credit: DebitCredit::Credit,
        date: Date { year: 2024, month: 3, day: 2 },
    });
    s.add_transaction(Transaction {
        reference: "REF1".to_string(),
        date: Date { year: 2024, month: 3, day: 2 },
        value_date: Some(Date { year: 2024, month: 3, day: 2 }),
        amount: dec("10.25"),
        currency: "EUR".to_string(),
        debit_credit: DebitCredit::Debit,
        account: None,
        counterparty_account: None,
        counterparty_name: None,
        bank_identifier: None,
        description: "Fee".to_string(),
        additional_info: None,
    });
    s
}

#[test]
fn serializes_a_statement() {
    let text = Mt940Statement { statement: sample() }.to_text();
    assert_eq!(
        text,
        "{1:F01BANKXXXXAXXX0000000000}{2:I940BANKXXXXAXXXXN}{4:\n\
:20:S1\n:25:ACC\n:28C:7\n:60F:C240301EUR100,50\n\
:61:2403020302D10,25NTRF//REF1\n:86:Fee\n:62F:C240302EUR90,25\n-}\n"
    );
}

#[test]
fn line_round_trip() {
    let s = sample();
    let text = Mt940Statement { statement: s.clone() }.to_text();
    let back = Mt940Statement::from_text(&text).unwrap().statement;
    assert_eq!(back, s);
}

#[test]
fn a_last_description_without_closing_balance_runs_into_the_trailer() {
    let mut s = sample();
    s.closing_balance = None;
    let text = Mt940Statement { statement: s }.to_text();
    let back = Mt940Statement::from_text(&text).unwrap().statement;
    assert_eq!(back.transactions[0].description, "Fee -}");
}

#[test]
fn transactions_take_the_statement_currency() {
    let doc = ":20:A\n:25:B\n:61:250218C1,00NTRF//R1\n:60F:C250218EUR5,00\n";
    let s = Mt940Statement::from_text(doc).unwrap().statement;
    assert_eq!(s.currency, "EUR");
    assert_eq!(s.transactions[0].currency, "EUR");
}

#[test]
fn a_description_before_any_entry_belongs_to_none() {
    let doc = ":20:A\n:25:B\n:86:stray\n:61:250218C1,00NTRF//R1\n";
    let s = Mt940Statement::from_text(doc).unwrap().statement;
    assert_eq!(s.transactions[0].description, "");
}
