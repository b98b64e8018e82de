use std::str::FromStr;
use ypbank_system::camt053_format::{
    parse_camt_date, AccountIdXml, AgentXml, FinancialInstitutionIdXml, RelatedAgentsXml, AccountInfoXml, AmountXml, BalanceTypeXml, BalanceXml,
    BankToCustomerStatementXml, Camt053Statement, CodeOrProprietaryXml, DateXml, Document,
    EntryDetailsXml, EntryXml, GroupHeaderXml, OtherAccountIdXml, PartyXml, RelatedPartiesXml,
    RemittanceInformationXml, StatementXml, TransactionDetailsXml, balance_type_from_code,
};
use ypbank_system::{Amount, BalanceType, Date, DebitCredit, Error};

fn dec(s: &str) -> Amount {
    let d = rust_decimal::Decimal::from_str(s).unwrap();
    Amount { mantissa: d.mantissa(), scale: d.scale() }
}

fn today() -> Date {
    Date { year: 2030, month: 1, day: 1 }
}

#[test]
fn camt053_format_test_parse_date() {
    let date = parse_camt_date("2023-04-20T23:24:31").unwrap();
    assert_eq!(date.year, 2023);
    assert_eq!(date.month, 4);
    assert_eq!(date.day, 20);
}

#[test]
fn date_only_and_bad_dates() {
    assert_eq!(parse_camt_date("2023-04-20").unwrap(), Date { year: 2023, month: 4, day: 20 });
    assert_eq!(parse_camt_date("20.04.2023"), Err(Error::InvalidDate("20.04.2023".to_string())));
}

#[test]
fn balance_codes() {
    assert_eq!(balance_type_from_code("OPAV"), BalanceType::Opening);
    assert_eq!(balance_type_from_code("OPBD"), BalanceType::Opening);
    assert_eq!(balance_type_from_code("CLBD"), BalanceType::Closing);
    assert_eq!(balance_type_from_code("CLAV"), BalanceType::Closing);
    assert_eq!(balance_type_from_code("PRCD"), BalanceType::Intermediate);
    assert_eq!(balance_type_from_code("ZZZZ"), BalanceType::Intermediate);
}

fn amount(value: &str, ccy: Option<&str>) -> AmountXml {
    AmountXml { value: value.to_string(), ccy: ccy.map(|c| c.to_string()), ccy_alt: None }
}

fn balance(code: &str, value: &str) -> BalanceXml {
    BalanceXml {
        tp: BalanceTypeXml { cd_or_prtry: CodeOrProprietaryXml { cd: code.to_string() } },
        amt: amount(value, None),
        cdt_dbt_ind: "CRDT".to_string(),
        dt: DateXml { dt: None, dt_tm: Some("2024-05-01T10:00:00".to_string()) },
    }
}

fn entry() -> EntryXml {
    EntryXml {
        ntry_ref: None,
        amt: amount("42.10", None),
        cdt_dbt_ind: "DBIT".to_string(),
        sts: "BOOK".to_string(),
        bookg_dt: Some(DateXml { dt: Some("2024-05-02".to_string()), dt_tm: None }),
        val_dt: None,
        bk_tx_cd: None,
        ntry_dtls: Some(EntryDetailsXml {
            tx_dtls: Some(TransactionDetailsXml {
                rltd_pties: Some(RelatedPartiesXml {
                    dbtr: Some(PartyXml { nm: Some("Payer".to_string()) }),
                    dbtr_acct: None,
                    cdtr: Some(PartyXml { nm: Some("Payee".to_string()) }),
                    cdtr_acct: None,
                }),
                rltd_agts: Some(RelatedAgentsXml {
                    dbtr_agt: None,
                    cdtr_agt: Some(AgentXml { fin_instn_id: FinancialInstitutionIdXml { bic: Some("DEUTDEFF".to_string()) } }),
                }),
                rmt_inf: Some(RemittanceInformationXml { ustrd: Some("Invoice 9".to_string()) }),
                addtl_tx_inf: Some("extra".to_string()),
            }),
        }),
    }
}

fn document(bal: Vec<BalanceXml>, ntry: Vec<EntryXml>) -> Document {
    Document {
        bk_to_cstmr_stmt: BankToCustomerStatementXml {
            grp_hdr: GroupHeaderXml { msg_id: "M".to_string(), cre_dt_tm: "2024-05-03T00:00:00".to_string() },
            stmt: StatementXml {
                id: "ST-9".to_string(),
                elctrnic_seq_nb: Some(12),
                cre_dt_tm: Some("2024-05-03T08:00:00".to_string()),
                fr_to_dt: None,
                acct: AccountInfoXml {
                    id: AccountIdXml { iban: None, othr: Some(OtherAccountIdXml { id: "OTHER-1".to_string() }) },
                    ccy: "EUR".to_string(),
                    nm: Some("Holder".to_string()),
                },
                bal,
                ntry,
            },
        },
    }
}

#[test]
fn projects_a_document() {
    let doc = document(vec![balance("OPAV", "10.00"), balance("PRCD", "11.00"), balance("CLBD", "12.00")], vec![entry()]);
    let s = Camt053Statement::from_document_on(&doc, today()).unwrap().statement;
    assert_eq!(s.statement_id, "ST-9");
    assert_eq!(s.account, "OTHER-1");
    assert_eq!(s.sequence_number.as_deref(), Some("12"));
    assert_eq!(s.account_holder.as_deref(), Some("Holder"));
    assert_eq!(s.creation_date, Some(Date { year: 2024, month: 5, day: 3 }));
    let o = s.opening_balance.clone().unwrap();
    assert_eq!(o.amount, dec("10.00"));
    assert_eq!(o.currency, "EUR");
    assert_eq!(o.date, Date { year: 2024, month: 5, day: 1 });
    assert_eq!(s.closing_balance.clone().unwrap().amount, dec("12.00"));
    let t = &s.transactions[0];
    assert_eq!(t.reference, "2024-05-02-42.10");
    assert_eq!(t.bank_identifier.as_deref(), Some("DEUTDEFF"));
    assert_eq!(t.currency, "EUR");
    assert_eq!(t.debit_credit, DebitCredit::Debit);
    assert_eq!(t.date, Date { year: 2024, month: 5, day: 2 });
    assert_eq!(t.counterparty_name.as_deref(), Some("Payee"));
    assert_eq!(t.description, "Invoice 9");
    assert_eq!(t.additional_info.as_deref(), Some("extra"));
}

#[test]
fn missing_booking_date_takes_today() {
    let mut e = entry();
    e.bookg_dt = None;
    let s = Camt053Statement::from_document_on(&document(vec![], vec![e]), today()).unwrap().statement;
    assert_eq!(s.transactions[0].date, today());
}

#[test]
fn document_errors() {
    let mut b = balance("OPBD", "1.00");
    b.dt = DateXml { dt: None, dt_tm: None };
    assert_eq!(
        Camt053Statement::from_document_on(&document(vec![b], vec![]), today()),
        Err(Error::MissingField("balance date".to_string()))
    );
    let mut e = entry();
    e.amt.value = "ten".to_string();
    assert_eq!(
        Camt053Statement::from_document_on(&document(vec![], vec![e]), today()),
        Err(Error::InvalidAmount("ten".to_string()))
    );
    let mut e = entry();
    e.cdt_dbt_ind = "XX".to_string();
    assert_eq!(
        Camt053Statement::from_document_on(&document(vec![], vec![e]), today()),
        Err(Error::ParseError("Invalid D/C indicator: XX".to_string()))
    );
}

#[test]
fn structured_round_trip() {
    let doc = document(vec![balance("OPBD", "10.00"), balance("CLBD", "12.00")], vec![entry()]);
    let s = Camt053Statement::from_document_on(&doc, today()).unwrap();
    let again = Camt053Statement::from_document_on(&s.to_document_on(today()), today()).unwrap();
    assert_eq!(again.statement, s.statement);
}

#[test]
fn builds_a_document() {
    let doc = document(vec![balance("OPBD", "10.00")], vec![entry()]);
    let s = Camt053Statement::from_document_on(&doc, today()).unwrap();
    let d = s.to_document_on(today());
    let st = &d.bk_to_cstmr_stmt.stmt;
    assert_eq!(st.acct.id.iban.as_deref(), Some("OTHER-1"));
    assert_eq!(st.elctrnic_seq_nb, Some(12));
    assert_eq!(st.bal.len(), 1);
    assert_eq!(st.bal[0].tp.cd_or_prtry.cd, "OPBD");
    assert_eq!(st.bal[0].dt.dt.as_deref(), Some("2024-05-01"));
    let e = &st.ntry[0];
    assert_eq!(e.amt.value, "42.10");
    assert_eq!(e.cdt_dbt_ind, "DBIT");
    let p = e.ntry_dtls.as_ref().unwrap().tx_dtls.as_ref().unwrap().rltd_pties.as_ref().unwrap();
    assert!(p.dbtr.is_none());
    assert_eq!(p.cdtr.as_ref().unwrap().nm.as_deref(), Some("Payee"));
    assert_eq!(d.bk_to_cstmr_stmt.grp_hdr.cre_dt_tm, "2024-05-03T00:00:00");
    let g = e.ntry_dtls.as_ref().unwrap().tx_dtls.as_ref().unwrap().rltd_agts.as_ref().unwrap();
    assert!(g.dbtr_agt.is_none());
    assert_eq!(g.cdtr_agt.as_ref().unwrap().fin_instn_id.bic.as_deref(), Some("DEUTDEFF"));
}
