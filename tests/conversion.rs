use std::str::FromStr;
use ypbank_system::camt053_format::Camt053Statement;
use ypbank_system::mt940_format::Mt940Statement;
use ypbank_system::{Amount, Date, DebitCredit, Statement, Transaction};

fn dec(s: &str) -> Amount {
    let d = rust_decimal::Decimal::from_str(s).unwrap();
    Amount { mantissa: d.mantissa(), scale: d.scale() }
}

#[test]
fn test_mt940_to_camt053() {
    let mut statement = Statement::new("TEST001".into(), "ACC123".into(), "USD".into());
    statement.transactions.push(Transaction {
        reference: "REF001".into(),
        date: Date::new(2024, 1, 15).unwrap(),
        value_date: Some(Date::new(2024, 1, 15).unwrap()),
        amount: dec("100.50"),
        currency: "USD".into(),
        debit_credit: DebitCredit::Credit,
        account: None,
        counterparty_account: Some("ACC456".into()),
        counterparty_name: Some("Test Company".into()),
        bank_identifier: Some("TESTUS33".into()),
        description: "Test transaction".into(),
        additional_info: None,
    });

    let mt940 = Mt940Statement { statement };
    let camt053: Camt053Statement = mt940.into();

    assert_eq!(camt053.statement.statement_id, "TEST001");
    assert_eq!(camt053.statement.transactions.len(), 1);
}

#[test]
fn test_camt053_to_mt940() {
    let mut statement = Statement::new("TEST002".into(), "ACC789".into(), "EUR".into());
    statement.transactions.push(Transaction {
        reference: "REF002".into(),
        date: Date::new(2024, 2, 20).unwrap(),
        value_date: Some(Date::new(2024, 2, 20).unwrap()),
        amount: dec("250.75"),
        currency: "EUR".into(),
        debit_credit: DebitCredit::Debit,
        account: None,
        counterparty_account: Some("ACC999".into()),
        counterparty_name: Some("Another Company".into()),
        bank_identifier: Some("TESTDE33".into()),
        description: "Another test".into(),
        additional_info: Some("Extra info".into()),
    });

    let camt053 = Camt053Statement { statement };
    let mt940: Mt940Statement = camt053.into();

    assert_eq!(mt940.statement.statement_id, "TEST002");
    assert_eq!(mt940.statement.transactions.len(), 1);
    assert!(mt940.statement.transactions[0].description.contains("Extra info"));
}

#[test]
fn folding_order_and_labels() {
    let mut statement = Statement::new("S".into(), "A".into(), "EUR".into());
    statement.transactions.push(Transaction {
        reference: "R".into(),
        date: Date { year: 2024, month: 2, day: 20 },
        value_date: None,
        amount: dec("1"),
        currency: "EUR".into(),
        debit_credit: DebitCredit::Debit,
        account: None,
        counterparty_account: None,
        counterparty_name: Some("Shop".into()),
        bank_identifier: None,
        description: "".into(),
        additional_info: Some("Note".into()),
    });
    let m = Mt940Statement::from_camt053(Camt053Statement { statement });
    assert_eq!(m.statement.transactions[0].description, "Note | Counterparty: Shop");
}

#[test]
fn creation_date_is_kept_or_filled() {
    let mut statement = Statement::new("S".into(), "A".into(), "EUR".into());
    let c = Camt053Statement::from_mt940_on(Mt940Statement { statement: statement.clone() }, Date { year: 2024, month: 1, day: 2 });
    assert_eq!(c.statement.creation_date, Some(Date { year: 2024, month: 1, day: 2 }));
    statement.creation_date = Some(Date { year: 2020, month: 5, day: 6 });
    let c = Camt053Statement::from_mt940_on(Mt940Statement { statement }, Date { year: 2024, month: 1, day: 2 });
    assert_eq!(c.statement.creation_date, Some(Date { year: 2020, month: 5, day: 6 }));
}

#[test]
fn folded_statement_in_line_form_converts_to_itself() {
    let mut statement = Statement::new("S".into(), "A".into(), "EUR".into());
    statement.transactions.push(Transaction {
        reference: "R".into(),
        date: Date { year: 2024, month: 2, day: 20 },
        value_date: None,
        amount: dec("1"),
        currency: "EUR".into(),
        debit_credit: DebitCredit::Credit,
        account: None,
        counterparty_account: None,
        counterparty_name: Some("Shop".into()),
        bank_identifier: None,
        description: "Goods".into(),
        additional_info: Some("Note".into()),
    });
    let once = Mt940Statement::from_camt053(Camt053Statement { statement });
    let text = once.to_text();
    let line = Mt940Statement::from_text(&text).unwrap();
    let twice = Mt940Statement::from_camt053(Camt053Statement { statement: line.statement.clone() });
    assert_eq!(once.statement.transactions[0].description, "Goods | Note | Counterparty: Shop");
    assert_eq!(twice.statement, line.statement);
}

#[test]
fn converting_twice_changes_nothing_further() {
    let mut statement = Statement::new("S".into(), "A".into(), "EUR".into());
    statement.transactions.push(Transaction {
        reference: "R".into(),
        date: Date { year: 2024, month: 2, day: 20 },
        value_date: None,
        amount: dec("1"),
        currency: "EUR".into(),
        debit_credit: DebitCredit::Credit,
        account: None,
        counterparty_account: None,
        counterparty_name: Some("Shop".into()),
        bank_identifier: None,
        description: "d".into(),
        additional_info: Some("X".into()),
    });
    let once = Mt940Statement::from_camt053(Camt053Statement { statement });
    assert_eq!(once.statement.transactions[0].description, "d | X | Counterparty: Shop");
    assert_eq!(once.statement.transactions[0].additional_info, None);
    assert_eq!(once.statement.transactions[0].counterparty_name, None);
    let twice = Mt940Statement::from_camt053(Camt053Statement { statement: once.statement.clone() });
    assert_eq!(twice.statement, once.statement);
}
