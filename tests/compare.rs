use std::str::FromStr;
use ypbank_system::compare::{compare_statements, normalize_string};
use ypbank_system::{Amount, Balance, BalanceType, Date, DebitCredit, Statement, Transaction};

fn dec(s: &str) -> Amount {
    let d = rust_decimal::Decimal::from_str(s).unwrap();
    Amount { mantissa: d.mantissa(), scale: d.scale() }
}

fn tx(amount: &str, description: &str) -> Transaction {
    Transaction {
        reference: "R".into(),
        date: Date { year: 2024, month: 2, day: 20 },
        value_date: None,
        amount: dec(amount),
        currency: "EUR".into(),
        debit_credit: DebitCredit::Debit,
        account: None,
        counterparty_account: None,
        counterparty_name: None,
        bank_identifier: None,
        description: description.into(),
        additional_info: None,
    }
}

fn statement(amounts: &[&str]) -> Statement {
    let mut s = Statement::new("S".into(), "A".into(), "EUR".into());
    for a in amounts {
        s.add_transaction(tx(a, "Rent, March!"));
    }
    s
}

#[test]
fn one_amount_differs() {
    let a = statement(&["10.00", "20.00", "30.00"]);
    let b = statement(&["10.00", "25.50", "30.00"]);
    assert_eq!(
        compare_statements(&a, &b),
        "Differences found:\n  - Transaction 2 amount differs: 20.00 vs 25.50\n"
    );
}

#[test]
fn equal_numbers_with_other_scales_are_the_same() {
    let a = statement(&["1.5"]);
    let b = statement(&["1.50"]);
    assert_eq!(
        compare_statements(&a, &b),
        "The transaction records in 'file1' and 'file2' are identical."
    );
}

#[test]
fn counts_types_descriptions_and_balances() {
    let mut a = statement(&["1"]);
    let mut b = statement(&["1", "2"]);
    b.transactions[0].debit_credit = DebitCredit::Credit;
    b.transactions[0].description = "rent   march".into();
    b.transactions[0].date = Date { year: 2024, month: 2, day: 21 };
    a.opening_balance = Some(Balance {
        balance_type: BalanceType::Opening,
        amount: dec("5"),
        currency: "EUR".into(),
        debit_credit: DebitCredit::Credit,
        date: Date { year: 2024, month: 2, day: 1 },
    });
    b.opening_balance = Some(Balance { amount: dec("6"), ..a.opening_balance.clone().unwrap() });
    assert_eq!(
        compare_statements(&a, &b),
        "Differences found:\n  - Number of transactions differs: 1 vs 2\n  - Transaction 1 date differs: 2024-02-20 vs 2024-02-21\n  - Transaction 1 type differs: Debit vs Credit\n  - Opening balance differs: 5 vs 6\n"
    );
    b.transactions[0].description = "Rent, April".into();
    assert!(compare_statements(&a, &b).contains("  - Transaction 1 description differs:\n  File 1: Rent, March!\n  File 2: Rent, April\n"));
}

#[test]
fn normalizing_descriptions() {
    assert_eq!(normalize_string("  Rent,  MARCH!\tpaid "), "rent march paid");
    assert_eq!(normalize_string(""), "");
}
