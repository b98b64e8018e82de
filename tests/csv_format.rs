use std::str::FromStr;
use ypbank_system::csv_format::{CsvRecord, CsvStatement};
use ypbank_system::{Amount, Date, DebitCredit, Error, Statement, Transaction};

fn dec(s: &str) -> Amount {
    let d = rust_decimal::Decimal::from_str(s).unwrap();
    Amount { mantissa: d.mantissa(), scale: d.scale() }
}

#[test]
fn csv_format_test_parse_date() {
    let date = CsvStatement::parse_date("20.02.2024").unwrap();
    assert_eq!(date.year, 2024);
    assert_eq!(date.month, 2);
    assert_eq!(date.day, 20);
}

#[test]
fn test_parse_amount() {
    let amount = CsvStatement::parse_amount("1 540,00").unwrap();
    assert_eq!(amount.to_string(), "1540.00");
}

#[test]
fn test_extract_bic() {
    let bic = CsvStatement::extract_bic("БИК 044525545 АО ЮниКредит Банк, г.Москва");
    assert_eq!(bic, "044525545");
}

#[test]
fn date_patterns_in_order() {
    assert_eq!(CsvStatement::parse_date(" 2024-02-20 ").unwrap(), Date { year: 2024, month: 2, day: 20 });
    assert_eq!(CsvStatement::parse_date("03/04/2024").unwrap(), Date { year: 2024, month: 4, day: 3 });
    assert_eq!(CsvStatement::parse_date("02/20/2024").unwrap(), Date { year: 2024, month: 2, day: 20 });
    assert_eq!(CsvStatement::parse_date("2024"), Err(Error::InvalidDate("2024".to_string())));
}

#[test]
fn amount_errors_keep_the_cell() {
    assert_eq!(CsvStatement::parse_amount("12,3,4"), Err(Error::InvalidAmount("12,3,4".to_string())));
}

#[test]
fn bank_cells() {
    assert_eq!(CsvStatement::extract_bic("Bank BIC DEUTDEFF Frankfurt"), "DEUTDEFF");
    assert_eq!(CsvStatement::extract_bic("  SABRRUMM  "), "SABRRUMM");
    assert_eq!(CsvStatement::extract_bic("БИК 044525545 АО Bank"), "044525545");
}

#[test]
fn account_and_name_cells() {
    assert_eq!(CsvStatement::extract_account("40702810440000030888\n7735602068\nООО РОМАШКА"), "40702810440000030888");
    assert_eq!(
        CsvStatement::extract_counterparty_name("Pay", "40702810440000030888\n7735602068\nООО РОМАШКА", ""),
        Some("ООО РОМАШКА".to_string())
    );
    assert_eq!(CsvStatement::extract_counterparty_name("First\nSecond", "A", "B"), Some("First".to_string()));
    assert_eq!(CsvStatement::extract_counterparty_name("", "A", "B"), None);
}

fn record(date: &str, da: &str, ca: &str, dam: &str, cam: &str) -> CsvRecord {
    CsvRecord {
        date: date.to_string(),
        debit_account: da.to_string(),
        credit_account: ca.to_string(),
        debit_amount: dam.to_string(),
        credit_amount: cam.to_string(),
        reference: " 17 ".to_string(),
        description: "Rent\nMarch".to_string(),
        bank: "BIC ABCDRUMM x".to_string(),
    }
}

#[test]
fn rows_become_transactions() {
    let rows = vec![
        record("", "X", "Y", "1", ""),
        record("01.03.2024", "OWN\n1\nMe", "OTHER", "1 000,50", ""),
        record("02.03.2024", "PAYER", "OWN", "", "5"),
        record("03.03.2024", "A", "B", "", ""),
    ];
    let s = CsvStatement::from_records_with_id(&rows, "ID".to_string()).unwrap().statement;
    assert_eq!(s.statement_id, "ID");
    assert_eq!(s.account, "OWN");
    assert_eq!(s.currency, "RUB");
    assert_eq!(s.transactions.len(), 2);
    let t = &s.transactions[0];
    assert_eq!(t.debit_credit, DebitCredit::Debit);
    assert_eq!(t.amount, dec("1000.50"));
    assert_eq!(t.counterparty_account.as_deref(), Some("OTHER"));
    assert_eq!(t.counterparty_name.as_deref(), Some("Me"));
    assert_eq!(t.reference, "17");
    assert_eq!(t.bank_identifier.as_deref(), Some("ABCDRUMM"));
    assert_eq!(t.description, "Rent\nMarch");
    let u = &s.transactions[1];
    assert_eq!(u.debit_credit, DebitCredit::Credit);
    assert_eq!(u.counterparty_account.as_deref(), Some("PAYER"));
    assert_eq!(u.counterparty_name.as_deref(), Some("Rent"));
}

#[test]
fn no_account_gives_unknown() {
    let s = CsvStatement::from_records_with_id(&[], "ID".to_string()).unwrap().statement;
    assert_eq!(s.account, "UNKNOWN");
    assert!(CsvStatement::from_records(&[]).unwrap().statement.statement_id.starts_with("CSV-"));
}

#[test]
fn bad_row_is_an_error() {
    let rows = vec![record("31.02.2024", "A", "B", "1", "")];
    assert_eq!(
        CsvStatement::from_records_with_id(&rows, "ID".to_string()),
        Err(Error::InvalidDate("31.02.2024".to_string()))
    );
}

#[test]
fn tabular_round_trip() {
    let mut s = Statement::new("X".to_string(), "OWN".to_string(), "USD".to_string());
    s.add_transaction(Transaction {
        reference: "R1".to_string(),
        date: Date { year: 2024, month: 3, day: 5 },
        value_date: None,
        amount: dec("12.30"),
        currency: "USD".to_string(),
        debit_credit: DebitCredit::Credit,
        account: None,
        counterparty_account: Some("THEIRS".to_string()),
        counterparty_name: None,
        bank_identifier: None,
        description: "Refund".to_string(),
        additional_info: None,
    });
    let rows = CsvStatement { statement: s }.to_records();
    assert_eq!(rows[0].date, "05.03.2024");
    assert_eq!(rows[0].debit_account, "THEIRS");
    assert_eq!(rows[0].credit_account, "OWN");
    assert_eq!(rows[0].debit_amount, "");
    assert_eq!(rows[0].credit_amount, "12.30");
    let back = CsvStatement::from_records_with_id(&rows, "Y".to_string()).unwrap().statement;
    assert_eq!(back.account, "OWN");
    let t = &back.transactions[0];
    assert_eq!(t.amount, dec("12.30"));
    assert_eq!(t.date, Date { year: 2024, month: 3, day: 5 });
    assert_eq!(t.reference, "R1");
    assert_eq!(t.description, "Refund");
    assert_eq!(t.debit_credit, DebitCredit::Credit);
    assert_eq!(t.counterparty_account.as_deref(), Some("THEIRS"));
    assert_eq!(t.currency, "RUB");
}
