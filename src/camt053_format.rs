//! The ISO 20022 bank-to-customer statement (CAMT.053): the document tree
//! and its projection to and from the canonical model.
//!
//! The tree holds the elements that the projection reads or writes, under
//! the schema's own nesting; reading and writing the XML text happens at
//! the edge of the library.

use vstd::prelude::*;
use crate::error::{Error, ErrorView};
use crate::text::{
    chars_of, is_digit, is_text, nat_text, push_nat_text, push_str, text_of, text_with, upper_of,
};
use crate::mt940_format::{made_up_reference, made_up_reference_chars};
use crate::types::{
    Amount, Balance, BalanceType, BalanceView, Date, DebitCredit, Statement, StatementView,
    Transaction, TransactionView, date_of_triple, date_parsed, datetime_parsed, dc_of_name,
    decimal_parse, copy_opt_text, copy_text, opt_text, parse_date_with, parse_datetime_date_with,
    parse_decimal, today, amount_text, date_text, dc_iso, render_amount, render_date,
};

verus! {

/// `Document`, the root.
pub struct Document {
    pub bk_to_cstmr_stmt: BankToCustomerStatementXml,
}

/// `BkToCstmrStmt`.
pub struct BankToCustomerStatementXml {
    pub grp_hdr: GroupHeaderXml,
    pub stmt: StatementXml,
}

/// `GrpHdr`.
pub struct GroupHeaderXml {
    pub msg_id: String,
    pub cre_dt_tm: String,
}

/// `Stmt`.
pub struct StatementXml {
    pub id: String,
    pub elctrnic_seq_nb: Option<u32>,
    pub cre_dt_tm: Option<String>,
    pub fr_to_dt: Option<FromToDateXml>,
    pub acct: AccountInfoXml,
    pub bal: Vec<BalanceXml>,
    pub ntry: Vec<EntryXml>,
}

/// `FrToDt`.
pub struct FromToDateXml {
    pub fr_dt_tm: Option<String>,
    pub to_dt_tm: Option<String>,
}

/// `Acct` of the statement.
pub struct AccountInfoXml {
    pub id: AccountIdXml,
    pub ccy: String,
    pub nm: Option<String>,
}

/// `Id` of an account: an IBAN or another identification.
pub struct AccountIdXml {
    pub iban: Option<String>,
    pub othr: Option<OtherAccountIdXml>,
}

/// `Othr`.
pub struct OtherAccountIdXml {
    pub id: String,
}

/// `Bal`.
pub struct BalanceXml {
    pub tp: BalanceTypeXml,
    pub amt: AmountXml,
    pub cdt_dbt_ind: String,
    pub dt: DateXml,
}

/// `Tp` of a balance.
pub struct BalanceTypeXml {
    pub cd_or_prtry: CodeOrProprietaryXml,
}

/// `CdOrPrtry`.
pub struct CodeOrProprietaryXml {
    pub cd: String,
}

/// `Amt`: the amount's text and its currency, as an attribute or an element.
pub struct AmountXml {
    pub value: String,
    pub ccy: Option<String>,
    pub ccy_alt: Option<String>,
}

/// A date (`Dt`) or a date-time (`DtTm`).
pub struct DateXml {
    pub dt: Option<String>,
    pub dt_tm: Option<String>,
}

/// `Ntry`.
pub struct EntryXml {
    pub ntry_ref: Option<String>,
    pub amt: AmountXml,
    pub cdt_dbt_ind: String,
    pub sts: String,
    pub bookg_dt: Option<DateXml>,
    pub val_dt: Option<DateXml>,
    pub bk_tx_cd: Option<BankTransactionCodeXml>,
    pub ntry_dtls: Option<EntryDetailsXml>,
}

/// `BkTxCd`.
pub struct BankTransactionCodeXml {
    pub prtry: Option<ProprietaryCodeXml>,
}

/// `Prtry`.
pub struct ProprietaryCodeXml {
    pub cd: String,
}

/// `NtryDtls`.
pub struct EntryDetailsXml {
    pub tx_dtls: Option<TransactionDetailsXml>,
}

/// `TxDtls`.
pub struct TransactionDetailsXml {
    pub rltd_pties: Option<RelatedPartiesXml>,
    pub rltd_agts: Option<RelatedAgentsXml>,
    pub rmt_inf: Option<RemittanceInformationXml>,
    pub addtl_tx_inf: Option<String>,
}

/// `RltdPties`.
pub struct RelatedPartiesXml {
    pub dbtr: Option<PartyXml>,
    pub dbtr_acct: Option<AccountXml>,
    pub cdtr: Option<PartyXml>,
    pub cdtr_acct: Option<AccountXml>,
}

/// A party: `Dbtr` or `Cdtr`.
pub struct PartyXml {
    pub nm: Option<String>,
}

/// An account of a party: `DbtrAcct` or `CdtrAcct`.
pub struct AccountXml {
    pub id: AccountIdXml,
}

/// `RltdAgts`.
pub struct RelatedAgentsXml {
    pub dbtr_agt: Option<AgentXml>,
    pub cdtr_agt: Option<AgentXml>,
}

/// An agent: `DbtrAgt` or `CdtrAgt`.
pub struct AgentXml {
    pub fin_instn_id: FinancialInstitutionIdXml,
}

/// `FinInstnId`.
pub struct FinancialInstitutionIdXml {
    pub bic: Option<String>,
}

/// `RmtInf`.
pub struct RemittanceInformationXml {
    pub ustrd: Option<String>,
}

/// The currency of an amount: the attribute, else the element.
pub open spec fn amount_currency(a: AmountXml) -> Option<Seq<char>> {
    match opt_text(a.ccy) {
        Some(c) => Some(c),
        None => opt_text(a.ccy_alt),
    }
}

impl AmountXml {
    /// The currency of the amount: the attribute, else the element.
    pub fn ccy(&self) -> (r: Option<String>)
        ensures
            opt_text(r) == amount_currency(*self),
    {
        match &self.ccy {
            Some(c) => Some(copy_text(c)),
            None => copy_opt_text(&self.ccy_alt),
        }
    }
}

/// The date pattern of a date-only element.
pub open spec fn date_pattern() -> Seq<char> {
    "%Y-%m-%d"@
}

/// The date-time pattern of a date-time element.
pub open spec fn datetime_pattern() -> Seq<char> {
    "%Y-%m-%dT%H:%M:%S"@
}

/// The date of a date-only text.
pub open spec fn date_only(s: Seq<char>) -> Option<Date> {
    date_of_triple(date_parsed(s, date_pattern()))
}

/// The date of a text that holds a date-time, else a date.
pub open spec fn camt_date(s: Seq<char>) -> Option<Date> {
    match datetime_parsed(s, datetime_pattern()) {
        Some(t) => date_of_triple(Some(t)),
        None => date_only(s),
    }
}

/// Decodes a date-only text.
pub fn parse_date_only(s: &str) -> (r: Result<Date, Error>)
    ensures
        date_only(s@) matches Some(d) ==> r == Ok::<Date, Error>(d),
        date_only(s@) is None ==> (r matches Err(e) && e@ == ErrorView::InvalidDate(s@)),
        r matches Ok(d) ==> d.wf(),
{
    match parse_date_with(s, "%Y-%m-%d") {
        Some(d) => Ok(d),
        None => Err(Error::InvalidDate(text_of(chars_of(s).as_slice()))),
    }
}

/// Decodes a text that holds a date-time (its date is kept), else a date.
pub fn parse_camt_date(s: &str) -> (r: Result<Date, Error>)
    ensures
        camt_date(s@) matches Some(d) ==> r == Ok::<Date, Error>(d),
        camt_date(s@) is None ==> (r matches Err(e) && e@ == ErrorView::InvalidDate(s@)),
        r matches Ok(d) ==> d.wf(),
{
    match parse_datetime_date_with(s, "%Y-%m-%dT%H:%M:%S") {
        Some(d) => Ok(d),
        None => parse_date_only(s),
    }
}

/// The balance type that a balance code stands for; an unknown code gives
/// an intermediate balance.
pub open spec fn balance_type_of_code(code: Seq<char>) -> BalanceType {
    if code == "OPBD"@ || code == "OPAV"@ {
        BalanceType::Opening
    } else if code == "CLBD"@ || code == "CLAV"@ {
        BalanceType::Closing
    } else {
        BalanceType::Intermediate
    }
}

/// The balance type of a balance code.
pub fn balance_type_from_code(code: &str) -> (r: BalanceType)
    ensures
        r == balance_type_of_code(code@),
{
    if is_text(code, "OPBD") || is_text(code, "OPAV") {
        BalanceType::Opening
    } else if is_text(code, "CLBD") || is_text(code, "CLAV") {
        BalanceType::Closing
    } else {
        BalanceType::Intermediate
    }
}

/// The decimal that an amount text stands for.
pub open spec fn amount_of_text(s: Seq<char>) -> Option<Amount> {
    match decimal_parse(s) {
        Some(v) => Some(Amount { mantissa: v.0 as i128, scale: v.1 as u32 }),
        None => None,
    }
}

/// The balance that a `Bal` element holds.
pub open spec fn balance_of_xml(b: BalanceXml, currency: Seq<char>) -> Result<BalanceView, ErrorView> {
    match amount_of_text(b.amt.value@) {
        None => Err(ErrorView::InvalidAmount(b.amt.value@)),
        Some(amount) => match dc_of_name(upper_of(b.cdt_dbt_ind@)) {
            None => Err(ErrorView::ParseError("Invalid D/C indicator: "@ + b.cdt_dbt_ind@)),
            Some(dc) => {
                let date: Result<Date, ErrorView> = match b.dt.dt {
                    Some(d) => match date_only(d@) {
                        Some(x) => Ok(x),
                        None => Err(ErrorView::InvalidDate(d@)),
                    },
                    None => match b.dt.dt_tm {
                        Some(d) => match camt_date(d@) {
                            Some(x) => Ok(x),
                            None => Err(ErrorView::InvalidDate(d@)),
                        },
                        None => Err(ErrorView::MissingField("balance date"@)),
                    },
                };
                match date {
                    Err(e) => Err(e),
                    Ok(date) => Ok(
                        BalanceView {
                            balance_type: balance_type_of_code(b.tp.cd_or_prtry.cd@),
                            amount,
                            currency: match amount_currency(b.amt) {
                                Some(c) => c,
                                None => currency,
                            },
                            debit_credit: dc,
                            date,
                        },
                    ),
                }
            },
        },
    }
}

/// Decodes a `Bal` element.
pub fn parse_balance(b: &BalanceXml, currency: &str) -> (r: Result<Balance, Error>)
    ensures
        r matches Ok(x) ==> balance_of_xml(*b, currency@) == Ok::<BalanceView, ErrorView>(x@)
            && x@.wf(),
        r matches Err(e) ==> balance_of_xml(*b, currency@) == Err::<BalanceView, ErrorView>(e@),
{
    let amount = match parse_decimal(b.amt.value.as_str()) {
        Some(a) => a,
        None => {
            return Err(Error::InvalidAmount(copy_text(&b.amt.value)));
        },
    };
    let dc = match DebitCredit::from_str(b.cdt_dbt_ind.as_str()) {
        Some(dc) => dc,
        None => {
            return Err(
                Error::ParseError(
                    text_with(
                        "Invalid D/C indicator: ",
                        chars_of(b.cdt_dbt_ind.as_str()).as_slice(),
                    ),
                ),
            );
        },
    };
    let date = match &b.dt.dt {
        Some(d) => match parse_date_only(d.as_str()) {
            Ok(x) => x,
            Err(e) => {
                return Err(e);
            },
        },
        None => match &b.dt.dt_tm {
            Some(d) => match parse_camt_date(d.as_str()) {
                Ok(x) => x,
                Err(e) => {
                    return Err(e);
                },
            },
            None => {
                return Err(Error::MissingField(text_of(chars_of("balance date").as_slice())));
            },
        },
    };
    let currency = match b.amt.ccy() {
        Some(c) => c,
        None => text_of(chars_of(currency).as_slice()),
    };
    Ok(
        Balance {
            balance_type: balance_type_from_code(b.tp.cd_or_prtry.cd.as_str()),
            amount,
            currency,
            debit_credit: dc,
            date,
        },
    )
}

/// The identifier of an account: the IBAN, else the other identification.
pub open spec fn account_id_of(id: AccountIdXml) -> Option<Seq<char>> {
    match id.iban {
        Some(x) => Some(x@),
        None => match id.othr {
            Some(o) => Some(o.id@),
            None => None,
        },
    }
}

/// The identifier of an account.
fn account_id(id: &AccountIdXml) -> (r: Option<String>)
    ensures
        opt_text(r) == account_id_of(*id),
{
    match &id.iban {
        Some(x) => Some(copy_text(x)),
        None => match &id.othr {
            Some(o) => Some(copy_text(&o.id)),
            None => None,
        },
    }
}

/// What an entry's details give: description, counterparty name and
/// account, bank identifier and additional information. Where both the
/// debtor and the creditor side are present, the creditor side wins.
pub struct EntryDetails {
    pub description: Seq<char>,
    pub counterparty_name: Option<Seq<char>>,
    pub counterparty_account: Option<Seq<char>>,
    pub bank_identifier: Option<Seq<char>>,
    pub additional_info: Option<Seq<char>>,
}

/// The details of an entry's `TxDtls`.
pub open spec fn details_of(td: TransactionDetailsXml) -> EntryDetails {
    EntryDetails {
        description: match td.rmt_inf {
            Some(r) => match r.ustrd {
                Some(u) => u@,
                None => Seq::empty(),
            },
            None => Seq::empty(),
        },
        counterparty_name: match td.rltd_pties {
            Some(p) => match p.cdtr {
                Some(c) => opt_text(c.nm),
                None => match p.dbtr {
                    Some(d) => opt_text(d.nm),
                    None => None,
                },
            },
            None => None,
        },
        counterparty_account: match td.rltd_pties {
            Some(p) => match p.cdtr_acct {
                Some(a) => account_id_of(a.id),
                None => match p.dbtr_acct {
                    Some(a) => account_id_of(a.id),
                    None => None,
                },
            },
            None => None,
        },
        bank_identifier: match td.rltd_agts {
            Some(g) => match g.cdtr_agt {
                Some(a) => opt_text(a.fin_instn_id.bic),
                None => match g.dbtr_agt {
                    Some(a) => opt_text(a.fin_instn_id.bic),
                    None => None,
                },
            },
            None => None,
        },
        additional_info: opt_text(td.addtl_tx_inf),
    }
}

/// The details of an entry; nothing when it has no `TxDtls`.
pub open spec fn entry_details(e: EntryXml) -> EntryDetails {
    match e.ntry_dtls {
        Some(nd) => match nd.tx_dtls {
            Some(td) => details_of(td),
            None => EntryDetails {
                description: Seq::empty(),
                counterparty_name: None,
                counterparty_account: None,
                bank_identifier: None,
                additional_info: None,
            },
        },
        None => EntryDetails {
            description: Seq::empty(),
            counterparty_name: None,
            counterparty_account: None,
            bank_identifier: None,
            additional_info: None,
        },
    }
}

/// The description of an entry: the remittance text, else the proprietary
/// bank transaction code.
pub open spec fn entry_description(e: EntryXml) -> Seq<char> {
    let d = entry_details(e).description;
    if d.len() == 0 {
        match e.bk_tx_cd {
            Some(b) => match b.prtry {
                Some(p) => p.cd@,
                None => d,
            },
            None => d,
        }
    } else {
        d
    }
}

/// The date of a date element; `absent` when it holds neither form.
pub open spec fn date_of_xml(dt: DateXml, absent: Option<Date>) -> Result<Option<Date>, ErrorView> {
    match dt.dt {
        Some(d) => match date_only(d@) {
            Some(x) => Ok(Some(x)),
            None => Err(ErrorView::InvalidDate(d@)),
        },
        None => match dt.dt_tm {
            Some(t) => match camt_date(t@) {
                Some(x) => Ok(Some(x)),
                None => Err(ErrorView::InvalidDate(t@)),
            },
            None => Ok(absent),
        },
    }
}

/// The date of an optional date element; `absent` when there is none.
pub open spec fn opt_date_of_xml(o: Option<DateXml>, absent: Option<Date>) -> Result<
    Option<Date>,
    ErrorView,
> {
    match o {
        Some(dt) => date_of_xml(dt, absent),
        None => Ok(absent),
    }
}

/// The transaction that an `Ntry` element holds; `currency` stands in for
/// an amount without one, `today` for a missing booking date, and a
/// reference made of date and amount for a missing `NtryRef`.
pub open spec fn entry_of_xml(e: EntryXml, currency: Seq<char>, today: Date) -> Result<
    TransactionView,
    ErrorView,
> {
    match amount_of_text(e.amt.value@) {
        None => Err(ErrorView::InvalidAmount(e.amt.value@)),
        Some(amount) => match dc_of_name(upper_of(e.cdt_dbt_ind@)) {
            None => Err(ErrorView::ParseError("Invalid D/C indicator: "@ + e.cdt_dbt_ind@)),
            Some(dc) => match opt_date_of_xml(e.bookg_dt, Some(today)) {
                Err(x) => Err(x),
                Ok(date) => match opt_date_of_xml(e.val_dt, None) {
                    Err(x) => Err(x),
                    Ok(value_date) => {
                        let det = entry_details(e);
                        Ok(
                            TransactionView {
                                reference: match e.ntry_ref {
                                    Some(r) => r@,
                                    None => made_up_reference(date.unwrap(), amount),
                                },
                                date: date.unwrap(),
                                value_date,
                                amount,
                                currency: match e.amt.ccy {
                                    Some(c) => c@,
                                    None => currency,
                                },
                                debit_credit: dc,
                                account: None,
                                counterparty_account: det.counterparty_account,
                                counterparty_name: det.counterparty_name,
                                bank_identifier: det.bank_identifier,
                                description: entry_description(e),
                                additional_info: det.additional_info,
                            },
                        )
                    },
                },
            },
        },
    }
}

/// Decodes a date element; `absent` when it holds neither form.
fn parse_date_xml(dt: &DateXml, absent: Option<Date>) -> (r: Result<Option<Date>, Error>)
    requires
        absent matches Some(d) ==> d.wf(),
    ensures
        r matches Ok(x) ==> date_of_xml(*dt, absent) == Ok::<Option<Date>, ErrorView>(x) && (
        x matches Some(d) ==> d.wf()),
        r matches Err(e) ==> date_of_xml(*dt, absent) == Err::<Option<Date>, ErrorView>(e@),
{
    match &dt.dt {
        Some(d) => match parse_date_only(d.as_str()) {
            Ok(x) => Ok(Some(x)),
            Err(e) => Err(e),
        },
        None => match &dt.dt_tm {
            Some(t) => match parse_camt_date(t.as_str()) {
                Ok(x) => Ok(Some(x)),
                Err(e) => Err(e),
            },
            None => Ok(absent),
        },
    }
}

/// Decodes an optional date element; `absent` when there is none.
fn parse_opt_date_xml(o: &Option<DateXml>, absent: Option<Date>) -> (r: Result<Option<Date>, Error>)
    requires
        absent matches Some(d) ==> d.wf(),
    ensures
        r matches Ok(x) ==> opt_date_of_xml(*o, absent) == Ok::<Option<Date>, ErrorView>(x) && (
        x matches Some(d) ==> d.wf()),
        r matches Err(e) ==> opt_date_of_xml(*o, absent) == Err::<Option<Date>, ErrorView>(e@),
{
    match o {
        Some(dt) => parse_date_xml(dt, absent),
        None => Ok(absent),
    }
}

/// Reads the details of a `TxDtls` element.
fn read_details(td: &TransactionDetailsXml) -> (r: (
    String,
    Option<String>,
    Option<String>,
    Option<String>,
    Option<String>,
))
    ensures
        r.0@ == details_of(*td).description,
        opt_text(r.1) == details_of(*td).counterparty_name,
        opt_text(r.2) == details_of(*td).counterparty_account,
        opt_text(r.3) == details_of(*td).bank_identifier,
        opt_text(r.4) == details_of(*td).additional_info,
{
    let description = match &td.rmt_inf {
        Some(rm) => match &rm.ustrd {
            Some(u) => copy_text(u),
            None => String::new(),
        },
        None => String::new(),
    };
    let mut name: Option<String> = None;
    let mut account: Option<String> = None;
    match &td.rltd_pties {
        Some(p) => {
            match &p.dbtr {
                Some(d) => {
                    name = copy_opt_text(&d.nm);
                },
                None => {},
            }
            match &p.cdtr {
                Some(c) => {
                    name = copy_opt_text(&c.nm);
                },
                None => {},
            }
            match &p.dbtr_acct {
                Some(a) => {
                    account = account_id(&a.id);
                },
                None => {},
            }
            match &p.cdtr_acct {
                Some(a) => {
                    account = account_id(&a.id);
                },
                None => {},
            }
        },
        None => {},
    }
    let mut bank: Option<String> = None;
    match &td.rltd_agts {
        Some(g) => {
            match &g.dbtr_agt {
                Some(a) => {
                    bank = copy_opt_text(&a.fin_instn_id.bic);
                },
                None => {},
            }
            match &g.cdtr_agt {
                Some(a) => {
                    bank = copy_opt_text(&a.fin_instn_id.bic);
                },
                None => {},
            }
        },
        None => {},
    }
    (description, name, account, bank, copy_opt_text(&td.addtl_tx_inf))
}

/// Decodes an `Ntry` element; `currency` stands in for an amount without
/// one, and `today` for a missing booking date.
pub fn parse_entry(e: &EntryXml, currency: &str, today: Date) -> (r: Result<Transaction, Error>)
    requires
        today.wf(),
    ensures
        r matches Ok(t) ==> entry_of_xml(*e, currency@, today) == Ok::<TransactionView, ErrorView>(
            t@,
        ) && t@.wf(),
        r matches Err(x) ==> entry_of_xml(*e, currency@, today) == Err::<
            TransactionView,
            ErrorView,
        >(x@),
{
    let amount = match parse_decimal(e.amt.value.as_str()) {
        Some(a) => a,
        None => {
            return Err(Error::InvalidAmount(copy_text(&e.amt.value)));
        },
    };
    let dc = match DebitCredit::from_str(e.cdt_dbt_ind.as_str()) {
        Some(dc) => dc,
        None => {
            return Err(
                Error::ParseError(
                    text_with(
                        "Invalid D/C indicator: ",
                        chars_of(e.cdt_dbt_ind.as_str()).as_slice(),
                    ),
                ),
            );
        },
    };
    let date = match parse_opt_date_xml(&e.bookg_dt, Some(today)) {
        Ok(Some(d)) => d,
        Ok(None) => today,
        Err(x) => {
            return Err(x);
        },
    };
    let value_date = match parse_opt_date_xml(&e.val_dt, None) {
        Ok(v) => v,
        Err(x) => {
            return Err(x);
        },
    };
    let (mut description, name, account, bank, info) = match &e.ntry_dtls {
        Some(nd) => match &nd.tx_dtls {
            Some(td) => read_details(td),
            None => (String::new(), None, None, None, None),
        },
        None => (String::new(), None, None, None, None),
    };
    if description.as_str().unicode_len() == 0 {
        match &e.bk_tx_cd {
            Some(b) => match &b.prtry {
                Some(p) => {
                    description = copy_text(&p.cd);
                },
                None => {},
            },
            None => {},
        }
    }
    let reference = match &e.ntry_ref {
        Some(x) => copy_text(x),
        None => text_of(made_up_reference_chars(date, amount).as_slice()),
    };
    let tx_currency = match &e.amt.ccy {
        Some(c) => copy_text(c),
        None => text_of(chars_of(currency).as_slice()),
    };
    Ok(
        Transaction {
            reference,
            date,
            value_date,
            amount,
            currency: tx_currency,
            debit_credit: dc,
            account: None,
            counterparty_account: account,
            counterparty_name: name,
            bank_identifier: bank,
            description,
            additional_info: info,
        },
    )
}

/// The opening and closing balances that a sequence of `Bal` elements
/// gives; a later balance of a type replaces an earlier one, and other
/// types are left out.
pub open spec fn balances_of(bals: Seq<BalanceXml>, currency: Seq<char>) -> Result<
    (Option<BalanceView>, Option<BalanceView>),
    ErrorView,
>
    decreases bals.len(),
{
    if bals.len() == 0 {
        Ok((None, None))
    } else {
        match balances_of(bals.drop_last(), currency) {
            Err(e) => Err(e),
            Ok(oc) => match balance_of_xml(bals.last(), currency) {
                Err(e) => Err(e),
                Ok(b) => if b.balance_type == BalanceType::Opening {
                    Ok((Some(b), oc.1))
                } else if b.balance_type == BalanceType::Closing {
                    Ok((oc.0, Some(b)))
                } else {
                    Ok(oc)
                },
            },
        }
    }
}

/// The transactions of a sequence of `Ntry` elements, in order.
pub open spec fn entries_of(entries: Seq<EntryXml>, currency: Seq<char>, today: Date) -> Result<
    Seq<TransactionView>,
    ErrorView,
>
    decreases entries.len(),
{
    if entries.len() == 0 {
        Ok(Seq::empty())
    } else {
        match entries_of(entries.drop_last(), currency, today) {
            Err(e) => Err(e),
            Ok(ts) => match entry_of_xml(entries.last(), currency, today) {
                Err(e) => Err(e),
                Ok(t) => Ok(ts.push(t)),
            },
        }
    }
}

/// The date of an optional date-time text; a text that is no date gives
/// no date.
pub open spec fn opt_camt_date(o: Option<String>) -> Option<Date> {
    match o {
        Some(t) => camt_date(t@),
        None => None,
    }
}

/// The statement that a document holds; `today` stands in for a missing
/// booking date.
pub open spec fn statement_of_document(doc: Document, today: Date) -> Result<
    StatementView,
    ErrorView,
> {
    let st = doc.bk_to_cstmr_stmt.stmt;
    match balances_of(st.bal@, st.acct.ccy@) {
        Err(e) => Err(e),
        Ok(oc) => match entries_of(st.ntry@, st.acct.ccy@, today) {
            Err(e) => Err(e),
            Ok(ts) => Ok(
                StatementView {
                    statement_id: st.id@,
                    account: match account_id_of(st.acct.id) {
                        Some(a) => a,
                        None => "UNKNOWN"@,
                    },
                    sequence_number: match st.elctrnic_seq_nb {
                        Some(n) => Some(nat_text(n as nat)),
                        None => None,
                    },
                    account_holder: opt_text(st.acct.nm),
                    opening_balance: oc.0,
                    closing_balance: oc.1,
                    transactions: ts,
                    currency: st.acct.ccy@,
                    creation_date: opt_camt_date(st.cre_dt_tm),
                    from_date: match st.fr_to_dt {
                        Some(f) => opt_camt_date(f.fr_dt_tm),
                        None => None,
                    },
                    to_date: match st.fr_to_dt {
                        Some(f) => opt_camt_date(f.to_dt_tm),
                        None => None,
                    },
                },
            ),
        },
    }
}

/// Decodes an optional date-time text; a text that is no date gives no date.
fn read_opt_camt_date(o: &Option<String>) -> (r: Option<Date>)
    ensures
        r == opt_camt_date(*o),
        r matches Some(d) ==> d.wf(),
{
    match o {
        Some(t) => match parse_camt_date(t.as_str()) {
            Ok(d) => Some(d),
            Err(_) => None,
        },
        None => None,
    }
}

/// A statement in the ISO 20022 XML format.
#[derive(Debug, Clone, PartialEq)]
pub struct Camt053Statement {
    pub statement: Statement,
}

impl Camt053Statement {
    /// Projects a document onto the canonical model; `today` stands in for
    /// a missing booking date.
    pub fn from_document_on(doc: &Document, today: Date) -> (r: Result<Camt053Statement, Error>)
        requires
            today.wf(),
        ensures
            r matches Ok(c) ==> statement_of_document(*doc, today) == Ok::<
                StatementView,
                ErrorView,
            >(c.statement@) && c.statement@.wf(),
            r matches Err(e) ==> statement_of_document(*doc, today) == Err::<
                StatementView,
                ErrorView,
            >(e@),
    {
        let st = &doc.bk_to_cstmr_stmt.stmt;
        assert(*st == doc.bk_to_cstmr_stmt.stmt);
        let mut opening: Option<Balance> = None;
        let mut closing: Option<Balance> = None;
        let mut i: usize = 0;
        while i < st.bal.len()
            invariant
                i <= st.bal@.len(),
                *st == doc.bk_to_cstmr_stmt.stmt,
                balances_of(st.bal@.take(i as int), st.acct.ccy@) == Ok::<
                    (Option<BalanceView>, Option<BalanceView>),
                    ErrorView,
                >((crate::types::opt_balance(opening), crate::types::opt_balance(closing))),
                opening matches Some(b) ==> b@.wf(),
                closing matches Some(b) ==> b@.wf(),
            decreases st.bal@.len() - i,
        {
            assert(st.bal@.take(i as int + 1).drop_last() == st.bal@.take(i as int));
            assert(st.bal@.take(i as int + 1).last() == st.bal@[i as int]);
            let b = match parse_balance(&st.bal[i], st.acct.ccy.as_str()) {
                Ok(b) => b,
                Err(e) => {
                    assert(balances_of(st.bal@.take(i as int + 1), st.acct.ccy@) == Err::<
                        (Option<BalanceView>, Option<BalanceView>),
                        ErrorView,
                    >(e@));
                    proof {
                        lemma_balances_stop(st.bal@, st.acct.ccy@, i as int + 1);
                    }
                    return Err(e);
                },
            };
            match b.balance_type {
                BalanceType::Opening => {
                    opening = Some(b);
                },
                BalanceType::Closing => {
                    closing = Some(b);
                },
                _ => {},
            }
            i = i + 1;
        }
        assert(st.bal@.take(st.bal@.len() as int) == st.bal@);
        let mut transactions: Vec<Transaction> = Vec::new();
        assert(crate::types::transaction_views(transactions@) =~= Seq::<TransactionView>::empty());
        let mut k: usize = 0;
        while k < st.ntry.len()
            invariant
                k <= st.ntry@.len(),
                *st == doc.bk_to_cstmr_stmt.stmt,
                balances_of(st.bal@, st.acct.ccy@) == Ok::<
                    (Option<BalanceView>, Option<BalanceView>),
                    ErrorView,
                >((crate::types::opt_balance(opening), crate::types::opt_balance(closing))),
                today.wf(),
                entries_of(st.ntry@.take(k as int), st.acct.ccy@, today) == Ok::<
                    Seq<TransactionView>,
                    ErrorView,
                >(crate::types::transaction_views(transactions@)),
                forall|j: int|
                    0 <= j < transactions@.len() ==> (#[trigger] transactions@[j])@.wf(),
            decreases st.ntry@.len() - k,
        {
            assert(st.ntry@.take(k as int + 1).drop_last() == st.ntry@.take(k as int));
            assert(st.ntry@.take(k as int + 1).last() == st.ntry@[k as int]);
            let t = match parse_entry(&st.ntry[k], st.acct.ccy.as_str(), today) {
                Ok(t) => t,
                Err(e) => {
                    assert(entries_of(st.ntry@.take(k as int + 1), st.acct.ccy@, today) == Err::<
                        Seq<TransactionView>,
                        ErrorView,
                    >(e@));
                    proof {
                        lemma_entries_stop(st.ntry@, st.acct.ccy@, today, k as int + 1);
                    }
                    return Err(e);
                },
            };
            let ghost before = transactions@;
            transactions.push(t);
            assert(crate::types::transaction_views(transactions@) == crate::types::transaction_views(
                before,
            ).push(t@));
            k = k + 1;
        }
        assert(st.ntry@.take(st.ntry@.len() as int) == st.ntry@);
        let account = match account_id(&st.acct.id) {
            Some(a) => a,
            None => text_of(chars_of("UNKNOWN").as_slice()),
        };
        let mut statement = Statement::new(copy_text(&st.id), account, copy_text(&st.acct.ccy));
        statement.sequence_number = match st.elctrnic_seq_nb {
            Some(n) => {
                let mut v: Vec<char> = Vec::new();
                push_nat_text(n as u128, &mut v);
                Some(text_of(v.as_slice()))
            },
            None => None,
        };
        statement.account_holder = copy_opt_text(&st.acct.nm);
        statement.creation_date = read_opt_camt_date(&st.cre_dt_tm);
        match &st.fr_to_dt {
            Some(f) => {
                statement.from_date = read_opt_camt_date(&f.fr_dt_tm);
                statement.to_date = read_opt_camt_date(&f.to_dt_tm);
            },
            None => {},
        }
        statement.opening_balance = opening;
        statement.closing_balance = closing;
        statement.transactions = transactions;
        Ok(Camt053Statement { statement })
    }

    /// Projects a document onto the canonical model; today's date stands in
    /// for a missing booking date.
    pub fn from_document(doc: &Document) -> (r: Result<Camt053Statement, Error>)
        ensures
            r matches Ok(c) ==> c.statement@.wf(),
            exists|today: Date|
                today.wf() && (r matches Ok(c) ==> statement_of_document(*doc, today) == Ok::<
                    StatementView,
                    ErrorView,
                >(c.statement@)) && (r matches Err(e) ==> statement_of_document(*doc, today)
                    == Err::<StatementView, ErrorView>(e@)),
    {
        let now = today();
        Camt053Statement::from_document_on(doc, now)
    }
}

/// Once decoding the balances fails on a prefix, it fails the same way on
/// the whole sequence.
proof fn lemma_balances_stop(bals: Seq<BalanceXml>, currency: Seq<char>, k: int)
    requires
        0 <= k <= bals.len(),
        balances_of(bals.take(k), currency) is Err,
    ensures
        balances_of(bals, currency) == balances_of(bals.take(k), currency),
    decreases bals.len() - k,
{
    if k < bals.len() {
        assert(bals.take(k + 1).drop_last() == bals.take(k));
        lemma_balances_stop(bals, currency, k + 1);
    } else {
        assert(bals.take(k) == bals);
    }
}

/// Once decoding the entries fails on a prefix, it fails the same way on
/// the whole sequence.
proof fn lemma_entries_stop(entries: Seq<EntryXml>, currency: Seq<char>, today: Date, k: int)
    requires
        0 <= k <= entries.len(),
        entries_of(entries.take(k), currency, today) is Err,
    ensures
        entries_of(entries, currency, today) == entries_of(entries.take(k), currency, today),
    decreases entries.len() - k,
{
    if k < entries.len() {
        assert(entries.take(k + 1).drop_last() == entries.take(k));
        lemma_entries_stop(entries, currency, today, k + 1);
    } else {
        assert(entries.take(k) == entries);
    }
}

/// The numeric value of a sequence of decimal digits.
pub open spec fn digits_value(s: Seq<char>) -> nat
    decreases s.len(),
{
    if s.len() == 0 {
        0
    } else {
        digits_value(s.drop_last()) * 10 + ((s.last() as int) - ('0' as int)) as nat
    }
}

/// A text without its leading `+`, if it has one.
pub open spec fn unsigned_part(s: Seq<char>) -> Seq<char> {
    if s.len() > 0 && s[0] == '+' {
        s.skip(1)
    } else {
        s
    }
}

/// Whether every character of `d` is a decimal digit.
pub open spec fn digits_only_seq(d: Seq<char>) -> bool {
    forall|k: int| 0 <= k < d.len() ==> is_digit(#[trigger] d[k])
}

/// The number that a text reads as an unsigned 32-bit integer: an optional
/// `+` and at least one digit, of a value that fits.
pub open spec fn u32_of_text(s: Seq<char>) -> Option<u32> {
    let d = unsigned_part(s);
    if d.len() > 0 && digits_only_seq(d) && digits_value(d) <= u32::MAX {
        Some(digits_value(d) as u32)
    } else {
        None
    }
}

/// Reads a text as an unsigned 32-bit integer.
pub fn parse_u32(s: &str) -> (r: Option<u32>)
    ensures
        r == u32_of_text(s@),
{
    let v = chars_of(s);
    let start: usize = if v.len() > 0 && v[0] == '+' {
        1
    } else {
        0
    };
    let ghost d = v@.skip(start as int);
    assert(d == unsigned_part(s@));
    if start >= v.len() {
        return None;
    }
    let mut value: u64 = 0;
    let mut i: usize = start;
    while i < v.len()
        invariant
            start <= i <= v@.len(),
            d == v@.skip(start as int),
            d == unsigned_part(s@),
            d.len() > 0,
            v@ == s@,
            forall|k: int| 0 <= k < i - start ==> is_digit(#[trigger] d[k]),
            value as nat == digits_value(d.take(i - start)),
            value <= u32::MAX,
        decreases v@.len() - i,
    {
        assert(d.take(i - start + 1).drop_last() == d.take(i - start));
        assert(d[i - start] == v@[i as int]);
        if !('0' <= v[i] && v[i] <= '9') {
            assert(!is_digit(d[i - start]));
            return None;
        }
        value = value * 10 + ((v[i] as u32) - ('0' as u32)) as u64;
        if value > 4294967295 {
            proof {
                if forall|j: int| 0 <= j < d.len() ==> is_digit(#[trigger] d[j]) {
                    lemma_digits_value_grows(d, i - start + 1);
                }
            }
            return None;
        }
        i = i + 1;
    }
    assert(d.take(d.len() as int) == d);
    Some(value as u32)
}

/// Appending digits does not make the value smaller.
proof fn lemma_digits_value_grows(s: Seq<char>, k: int)
    requires
        0 <= k <= s.len(),
        forall|j: int| 0 <= j < s.len() ==> is_digit(#[trigger] s[j]),
    ensures
        digits_value(s.take(k)) <= digits_value(s),
    decreases s.len() - k,
{
    if k < s.len() {
        lemma_digits_value_grows(s, k + 1);
        assert(s.take(k + 1).drop_last() == s.take(k));
    } else {
        assert(s.take(k) == s);
    }
}

/// A date-time text at midnight of a date.
pub open spec fn datetime_text(d: Date) -> Seq<char> {
    date_text(d) + "T00:00:00"@
}

/// `a` is the amount element of an amount in a currency.
pub open spec fn amount_xml_is(a: AmountXml, amount: Amount, currency: Seq<char>) -> bool {
    &&& a.value@ == amount_text(amount)
    &&& opt_text(a.ccy) == Some(currency)
    &&& a.ccy_alt is None
}

/// `x` is the date-only element of a date.
pub open spec fn date_xml_is(x: DateXml, d: Date) -> bool {
    opt_text(x.dt) == Some(date_text(d)) && x.dt_tm is None
}

/// `x` is the `Bal` element of a balance under a code.
pub open spec fn balance_xml_is(x: BalanceXml, b: BalanceView, code: Seq<char>) -> bool {
    &&& x.tp.cd_or_prtry.cd@ == code
    &&& amount_xml_is(x.amt, b.amount, b.currency)
    &&& x.cdt_dbt_ind@ == dc_iso(b.debit_credit)
    &&& date_xml_is(x.dt, b.date)
}

/// `x` is the `Id` of an account given by its IBAN.
pub open spec fn iban_is(x: AccountIdXml, account: Seq<char>) -> bool {
    opt_text(x.iban) == Some(account) && x.othr is None
}

/// `x` is an optional party of the given name.
pub open spec fn party_is(x: Option<PartyXml>, name: Option<Seq<char>>) -> bool {
    match name {
        Some(n) => x matches Some(p) && opt_text(p.nm) == Some(n),
        None => x is None,
    }
}

/// `x` is an optional party account of the given identifier.
pub open spec fn party_account_is(x: Option<AccountXml>, account: Option<Seq<char>>) -> bool {
    match account {
        Some(a) => x matches Some(p) && iban_is(p.id, a),
        None => x is None,
    }
}

/// `x` holds the counterparty of an entry: on the debtor side for a credit,
/// on the creditor side for a debit.
pub open spec fn parties_xml_is(x: RelatedPartiesXml, t: TransactionView) -> bool {
    if t.debit_credit == DebitCredit::Credit {
        &&& party_is(x.dbtr, t.counterparty_name)
        &&& party_account_is(x.dbtr_acct, t.counterparty_account)
        &&& x.cdtr is None
        &&& x.cdtr_acct is None
    } else {
        &&& party_is(x.cdtr, t.counterparty_name)
        &&& party_account_is(x.cdtr_acct, t.counterparty_account)
        &&& x.dbtr is None
        &&& x.dbtr_acct is None
    }
}

/// `x` names the counterparty's bank: the debtor's agent for a credit, the
/// creditor's agent for a debit.
pub open spec fn agents_xml_is(x: RelatedAgentsXml, bic: Seq<char>, dc: DebitCredit) -> bool {
    if dc == DebitCredit::Credit {
        &&& x.dbtr_agt matches Some(a) && opt_text(a.fin_instn_id.bic) == Some(bic)
        &&& x.cdtr_agt is None
    } else {
        &&& x.cdtr_agt matches Some(a) && opt_text(a.fin_instn_id.bic) == Some(bic)
        &&& x.dbtr_agt is None
    }
}

/// `x` is the `TxDtls` element of an entry.
pub open spec fn details_xml_is(x: TransactionDetailsXml, t: TransactionView) -> bool {
    &&& (if t.counterparty_name is Some || t.counterparty_account is Some {
        x.rltd_pties matches Some(p) && parties_xml_is(p, t)
    } else {
        x.rltd_pties is None
    })
    &&& (match t.bank_identifier {
        Some(b) => x.rltd_agts matches Some(g) && agents_xml_is(g, b, t.debit_credit),
        None => x.rltd_agts is None,
    })
    &&& (if t.description.len() > 0 {
        x.rmt_inf matches Some(r) && opt_text(r.ustrd) == Some(t.description)
    } else {
        x.rmt_inf is None
    })
    &&& opt_text(x.addtl_tx_inf) == t.additional_info
}

/// `x` is the `Ntry` element of an entry.
pub open spec fn entry_xml_is(x: EntryXml, t: TransactionView) -> bool {
    &&& opt_text(x.ntry_ref) == Some(t.reference)
    &&& amount_xml_is(x.amt, t.amount, t.currency)
    &&& x.cdt_dbt_ind@ == dc_iso(t.debit_credit)
    &&& x.sts@ == "BOOK"@
    &&& (x.bookg_dt matches Some(b) && date_xml_is(b, t.date))
    &&& (match t.value_date {
        Some(v) => x.val_dt matches Some(b) && date_xml_is(b, v),
        None => x.val_dt is None,
    })
    &&& (x.bk_tx_cd matches Some(c) && c.prtry matches Some(p) && p.cd@ == t.description)
    &&& (x.ntry_dtls matches Some(nd) && nd.tx_dtls matches Some(td) && details_xml_is(td, t))
}

/// `x` is an optional date-time text of an optional date.
pub open spec fn opt_datetime_is(x: Option<String>, d: Option<Date>) -> bool {
    match d {
        Some(v) => opt_text(x) == Some(datetime_text(v)),
        None => x is None,
    }
}

/// `doc` is the document of a statement; `today` stands in for a missing
/// creation date in the group header.
pub open spec fn document_is(doc: Document, s: StatementView, today: Date) -> bool {
    let h = doc.bk_to_cstmr_stmt.grp_hdr;
    let st = doc.bk_to_cstmr_stmt.stmt;
    &&& h.msg_id@ == s.statement_id
    &&& h.cre_dt_tm@ == datetime_text(
        match s.creation_date {
            Some(d) => d,
            None => today,
        },
    )
    &&& st.id@ == s.statement_id
    &&& st.elctrnic_seq_nb == match s.sequence_number {
        Some(n) => u32_of_text(n),
        None => None,
    }
    &&& opt_datetime_is(st.cre_dt_tm, s.creation_date)
    &&& (if s.from_date is Some || s.to_date is Some {
        st.fr_to_dt matches Some(f) && opt_datetime_is(f.fr_dt_tm, s.from_date)
            && opt_datetime_is(f.to_dt_tm, s.to_date)
    } else {
        st.fr_to_dt is None
    })
    &&& iban_is(st.acct.id, s.account)
    &&& st.acct.ccy@ == s.currency
    &&& opt_text(st.acct.nm) == s.account_holder
    &&& st.bal@.len() == (if s.opening_balance is Some {
        1int
    } else {
        0
    }) + (if s.closing_balance is Some {
        1int
    } else {
        0
    })
    &&& (s.opening_balance matches Some(b) ==> balance_xml_is(st.bal@[0], b, "OPBD"@))
    &&& (s.closing_balance matches Some(b) ==> balance_xml_is(st.bal@.last(), b, "CLBD"@))
    &&& st.ntry@.len() == s.transactions.len()
    &&& forall|i: int|
        0 <= i < s.transactions.len() ==> entry_xml_is(#[trigger] st.ntry@[i], s.transactions[i])
}

/// A copy of a text as an owned string.
fn owned(s: &str) -> (r: String)
    ensures
        r@ == s@,
{
    text_of(chars_of(s).as_slice())
}

/// The amount element of an amount in a currency.
fn amount_xml(amount: Amount, currency: &String) -> (r: AmountXml)
    requires
        amount.wf(),
    ensures
        amount_xml_is(r, amount, currency@),
{
    AmountXml { value: render_amount(amount), ccy: Some(copy_text(currency)), ccy_alt: None }
}

/// The date-only element of a date.
fn date_xml(d: Date) -> (r: DateXml)
    requires
        d.wf(),
    ensures
        date_xml_is(r, d),
{
    DateXml { dt: Some(render_date(d)), dt_tm: None }
}

/// The date-time text at midnight of a date.
fn datetime_string(d: Date) -> (r: String)
    requires
        d.wf(),
    ensures
        r@ == datetime_text(d),
{
    let mut v = chars_of(render_date(d).as_str());
    push_str("T00:00:00", &mut v);
    text_of(v.as_slice())
}

/// The optional date-time text of an optional date.
fn opt_datetime(d: Option<Date>) -> (r: Option<String>)
    requires
        d matches Some(x) ==> x.wf(),
    ensures
        opt_datetime_is(r, d),
{
    match d {
        Some(x) => Some(datetime_string(x)),
        None => None,
    }
}

/// The `Bal` element of a balance under a code.
fn balance_xml(b: &Balance, code: &str) -> (r: BalanceXml)
    requires
        b@.wf(),
    ensures
        balance_xml_is(r, b@, code@),
{
    BalanceXml {
        tp: BalanceTypeXml { cd_or_prtry: CodeOrProprietaryXml { cd: owned(code) } },
        amt: amount_xml(b.amount, &b.currency),
        cdt_dbt_ind: owned(b.debit_credit.to_iso_format()),
        dt: date_xml(b.date),
    }
}

/// An optional party of the given name.
fn party_xml(name: &Option<String>) -> (r: Option<PartyXml>)
    ensures
        party_is(r, opt_text(*name)),
{
    match name {
        Some(n) => Some(PartyXml { nm: Some(copy_text(n)) }),
        None => None,
    }
}

/// An optional party account of the given identifier.
fn party_account_xml(account: &Option<String>) -> (r: Option<AccountXml>)
    ensures
        party_account_is(r, opt_text(*account)),
{
    match account {
        Some(a) => Some(AccountXml { id: AccountIdXml { iban: Some(copy_text(a)), othr: None } }),
        None => None,
    }
}

/// The `TxDtls` element of an entry.
fn details_xml(t: &Transaction) -> (r: TransactionDetailsXml)
    ensures
        details_xml_is(r, t@),
{
    let rltd_pties = if t.counterparty_name.is_some() || t.counterparty_account.is_some() {
        if t.debit_credit == DebitCredit::Credit {
            Some(
                RelatedPartiesXml {
                    dbtr: party_xml(&t.counterparty_name),
                    dbtr_acct: party_account_xml(&t.counterparty_account),
                    cdtr: None,
                    cdtr_acct: None,
                },
            )
        } else {
            Some(
                RelatedPartiesXml {
                    dbtr: None,
                    dbtr_acct: None,
                    cdtr: party_xml(&t.counterparty_name),
                    cdtr_acct: party_account_xml(&t.counterparty_account),
                },
            )
        }
    } else {
        None
    };
    let rmt_inf = if t.description.as_str().unicode_len() > 0 {
        Some(RemittanceInformationXml { ustrd: Some(copy_text(&t.description)) })
    } else {
        None
    };
    let rltd_agts = match &t.bank_identifier {
        Some(b) => {
            let agent = AgentXml { fin_instn_id: FinancialInstitutionIdXml { bic: Some(copy_text(b)) } };
            if t.debit_credit == DebitCredit::Credit {
                Some(RelatedAgentsXml { dbtr_agt: Some(agent), cdtr_agt: None })
            } else {
                Some(RelatedAgentsXml { dbtr_agt: None, cdtr_agt: Some(agent) })
            }
        },
        None => None,
    };
    TransactionDetailsXml {
        rltd_pties,
        rltd_agts,
        rmt_inf,
        addtl_tx_inf: copy_opt_text(&t.additional_info),
    }
}

/// The `Ntry` element of an entry.
fn entry_xml(t: &Transaction) -> (r: EntryXml)
    requires
        t@.wf(),
    ensures
        entry_xml_is(r, t@),
{
    EntryXml {
        ntry_ref: Some(copy_text(&t.reference)),
        amt: amount_xml(t.amount, &t.currency),
        cdt_dbt_ind: owned(t.debit_credit.to_iso_format()),
        sts: owned("BOOK"),
        bookg_dt: Some(date_xml(t.date)),
        val_dt: match t.value_date {
            Some(v) => Some(date_xml(v)),
            None => None,
        },
        bk_tx_cd: Some(
            BankTransactionCodeXml { prtry: Some(ProprietaryCodeXml { cd: copy_text(&t.description) }) },
        ),
        ntry_dtls: Some(EntryDetailsXml { tx_dtls: Some(details_xml(t)) }),
    }
}

impl Camt053Statement {
    /// The document of the statement; `today` stands in for a missing
    /// creation date in the group header.
    pub fn to_document_on(&self, today: Date) -> (r: Document)
        requires
            self.statement@.wf(),
            today.wf(),
        ensures
            document_is(r, self.statement@, today),
    {
        let s = &self.statement;
        let mut bal: Vec<BalanceXml> = Vec::new();
        match &s.opening_balance {
            Some(b) => {
                bal.push(balance_xml(b, "OPBD"));
            },
            None => {},
        }
        match &s.closing_balance {
            Some(b) => {
                bal.push(balance_xml(b, "CLBD"));
            },
            None => {},
        }
        let mut ntry: Vec<EntryXml> = Vec::new();
        let mut i: usize = 0;
        while i < s.transactions.len()
            invariant
                i <= s.transactions@.len(),
                s@.wf(),
                *s == self.statement,
                ntry@.len() == i,
                forall|j: int| 0 <= j < i ==> entry_xml_is(#[trigger] ntry@[j], s@.transactions[j]),
            decreases s.transactions@.len() - i,
        {
            assert(s@.transactions[i as int] == s.transactions@[i as int]@);
            ntry.push(entry_xml(&s.transactions[i]));
            i = i + 1;
        }
        let header_date = match s.creation_date {
            Some(d) => d,
            None => today,
        };
        let fr_to_dt = if s.from_date.is_some() || s.to_date.is_some() {
            Some(FromToDateXml { fr_dt_tm: opt_datetime(s.from_date), to_dt_tm: opt_datetime(s.to_date) })
        } else {
            None
        };
        let seq_nb = match &s.sequence_number {
            Some(n) => parse_u32(n.as_str()),
            None => None,
        };
        Document {
            bk_to_cstmr_stmt: BankToCustomerStatementXml {
                grp_hdr: GroupHeaderXml {
                    msg_id: copy_text(&s.statement_id),
                    cre_dt_tm: datetime_string(header_date),
                },
                stmt: StatementXml {
                    id: copy_text(&s.statement_id),
                    elctrnic_seq_nb: seq_nb,
                    cre_dt_tm: opt_datetime(s.creation_date),
                    fr_to_dt,
                    acct: AccountInfoXml {
                        id: AccountIdXml { iban: Some(copy_text(&s.account)), othr: None },
                        ccy: copy_text(&s.currency),
                        nm: copy_opt_text(&s.account_holder),
                    },
                    bal,
                    ntry,
                },
            },
        }
    }

    /// The document of the statement; today's date stands in for a missing
    /// creation date in the group header.
    pub fn to_document(&self) -> (r: Document)
        requires
            self.statement@.wf(),
        ensures
            exists|today: Date| today.wf() && document_is(r, self.statement@, today),
    {
        let now = today();
        self.to_document_on(now)
    }
}

/// Any balance code other than the opening and closing ones gives an
/// intermediate balance, and the code never decides whether a balance
/// decodes: two `Bal` elements that differ in their code alone decode alike
/// but for the type.
pub proof fn lemma_balance_code_fallback(b: BalanceXml, other: BalanceXml, currency: Seq<char>)
    requires
        other.amt == b.amt,
        other.cdt_dbt_ind == b.cdt_dbt_ind,
        other.dt == b.dt,
    ensures
        ({
            let c = other.tp.cd_or_prtry.cd@;
            c != "OPBD"@ && c != "OPAV"@ && c != "CLBD"@ && c != "CLAV"@ ==> balance_type_of_code(c)
                == BalanceType::Intermediate
        }),
        balance_of_xml(b, currency) is Ok <==> balance_of_xml(other, currency) is Ok,
        balance_of_xml(b, currency) is Err ==> balance_of_xml(b, currency) == balance_of_xml(
            other,
            currency,
        ),
        balance_of_xml(b, currency) matches Ok(x) ==> balance_of_xml(other, currency) == Ok::<
            BalanceView,
            ErrorView,
        >(
            BalanceView { balance_type: balance_type_of_code(other.tp.cd_or_prtry.cd@), ..x },
        ),
{
}

/// What the XML format carries of a statement: a sequence number in its
/// plain decimal form, balances of the type that their element names, and
/// transactions without an account of their own.
pub open spec fn carried_by_xml(s: StatementView) -> bool {
    &&& (s.sequence_number matches Some(n) ==> (u32_of_text(n) matches Some(v) && nat_text(v as nat)
        == n))
    &&& (s.opening_balance matches Some(b) ==> b.balance_type == BalanceType::Opening)
    &&& (s.closing_balance matches Some(b) ==> b.balance_type == BalanceType::Closing)
    &&& forall|i: int|
        0 <= i < s.transactions.len() ==> (#[trigger] s.transactions[i]).account is None
}

/// The decimal parser reads an amount back from its text.
pub open spec fn amount_reads_back(a: Amount) -> bool {
    amount_of_text(amount_text(a)) == Some(a)
}

/// The date parser reads a date back from its `YYYY-MM-DD` text.
pub open spec fn date_reads_back(d: Date) -> bool {
    date_only(date_text(d)) == Some(d)
}

/// The date-time parser reads a date back from its midnight text.
pub open spec fn datetime_reads_back(d: Date) -> bool {
    camt_date(datetime_text(d)) == Some(d)
}

/// Upper-casing leaves the ISO names of the indicators as they are.
pub open spec fn iso_names_stay() -> bool {
    upper_of("DBIT"@) == "DBIT"@ && upper_of("CRDT"@) == "CRDT"@
}

/// The outside parsers read back every amount and date that the document
/// of `s` writes.
pub open spec fn xml_texts_read_back(s: StatementView) -> bool {
    &&& iso_names_stay()
    &&& (s.opening_balance matches Some(b) ==> amount_reads_back(b.amount) && date_reads_back(b.date))
    &&& (s.closing_balance matches Some(b) ==> amount_reads_back(b.amount) && date_reads_back(b.date))
    &&& (s.creation_date matches Some(d) ==> datetime_reads_back(d))
    &&& (s.from_date matches Some(d) ==> datetime_reads_back(d))
    &&& (s.to_date matches Some(d) ==> datetime_reads_back(d))
    &&& forall|i: int|
        0 <= i < s.transactions.len() ==> amount_reads_back((#[trigger] s.transactions[i]).amount)
            && date_reads_back(s.transactions[i].date) && (s.transactions[i].value_date matches Some(
            v,
        ) ==> date_reads_back(v))
}

proof fn lemma_iso_name_read_back(dc: DebitCredit)
    requires
        iso_names_stay(),
    ensures
        dc_of_name(upper_of(dc_iso(dc))) == Some(dc),
{
    reveal_strlit("DBIT");
    reveal_strlit("CRDT");
    reveal_strlit("D");
    reveal_strlit("DEBIT");
    reveal_strlit("C");
    reveal_strlit("CREDIT");
    assert("DBIT"@.len() != "D"@.len());
    assert("DBIT"@.len() != "DEBIT"@.len());
    assert("CRDT"@.len() != "D"@.len());
    assert("CRDT"@.len() != "DEBIT"@.len());
    assert("CRDT"@[0] != "DBIT"@[0]);
    assert("CRDT"@.len() != "C"@.len());
}

proof fn lemma_balance_read_back(x: BalanceXml, b: BalanceView, code: Seq<char>, currency: Seq<char>)
    requires
        balance_xml_is(x, b, code),
        iso_names_stay(),
        amount_reads_back(b.amount),
        date_reads_back(b.date),
        balance_type_of_code(code) == b.balance_type,
    ensures
        balance_of_xml(x, currency) == Ok::<BalanceView, ErrorView>(b),
{
    lemma_iso_name_read_back(b.debit_credit);
}

proof fn lemma_entry_read_back(x: EntryXml, t: TransactionView, currency: Seq<char>, today: Date)
    requires
        entry_xml_is(x, t),
        iso_names_stay(),
        amount_reads_back(t.amount),
        date_reads_back(t.date),
        t.value_date matches Some(v) ==> date_reads_back(v),
        t.account is None,
    ensures
        entry_of_xml(x, currency, today) == Ok::<TransactionView, ErrorView>(t),
{
    lemma_iso_name_read_back(t.debit_credit);
    let det = entry_details(x);
    let td = x.ntry_dtls->Some_0.tx_dtls->Some_0;
    assert(det == details_of(td));
    assert(det.counterparty_name == t.counterparty_name);
    assert(det.counterparty_account == t.counterparty_account);
    assert(entry_description(x) == t.description);
    let r = entry_of_xml(x, currency, today)->Ok_0;
    assert(r == t);
}

proof fn lemma_entries_read_back(
    xs: Seq<EntryXml>,
    ts: Seq<TransactionView>,
    currency: Seq<char>,
    today: Date,
)
    requires
        xs.len() == ts.len(),
        forall|i: int| 0 <= i < ts.len() ==> entry_xml_is(#[trigger] xs[i], ts[i]),
        iso_names_stay(),
        forall|i: int|
            0 <= i < ts.len() ==> amount_reads_back((#[trigger] ts[i]).amount) && date_reads_back(
                ts[i].date,
            ) && (ts[i].value_date matches Some(v) ==> date_reads_back(v)) && ts[i].account is None,
    ensures
        entries_of(xs, currency, today) == Ok::<Seq<TransactionView>, ErrorView>(ts),
    decreases xs.len(),
{
    if xs.len() > 0 {
        let n = xs.len() - 1;
        lemma_entries_read_back(xs.drop_last(), ts.drop_last(), currency, today);
        assert(ts[n] == ts.last());
        lemma_entry_read_back(xs.last(), ts.last(), currency, today);
        assert(ts.drop_last().push(ts.last()) =~= ts);
    } else {
        assert(ts =~= Seq::<TransactionView>::empty());
    }
}

/// The XML round trip: the document of a statement projects back onto the
/// same statement, for the fields that the format carries, provided the
/// outside parsers read back the amounts and dates that the document
/// writes.
pub proof fn lemma_xml_round_trip(doc: Document, s: StatementView, today: Date, later: Date)
    requires
        s.wf(),
        carried_by_xml(s),
        xml_texts_read_back(s),
        document_is(doc, s, today),
    ensures
        statement_of_document(doc, later) == Ok::<StatementView, ErrorView>(s),
{
    let st = doc.bk_to_cstmr_stmt.stmt;
    let bals = st.bal@;
    reveal_strlit("OPBD");
    reveal_strlit("OPAV");
    reveal_strlit("CLBD");
    reveal_strlit("CLAV");
    assert(balance_type_of_code("OPBD"@) == BalanceType::Opening);
    assert("CLBD"@[0] != "OPBD"@[0] && "CLBD"@[0] != "OPAV"@[0]);
    assert(balance_type_of_code("CLBD"@) == BalanceType::Closing);
    match s.opening_balance {
        Some(o) => {
            lemma_balance_read_back(bals[0], o, "OPBD"@, st.acct.ccy@);
        },
        None => {},
    }
    match s.closing_balance {
        Some(c) => {
            lemma_balance_read_back(bals.last(), c, "CLBD"@, st.acct.ccy@);
        },
        None => {},
    }
    if bals.len() == 2 {
        assert(bals.drop_last().drop_last() =~= Seq::<BalanceXml>::empty());
        assert(bals.drop_last().last() == bals[0]);
    } else if bals.len() == 1 {
        assert(bals.drop_last() =~= Seq::<BalanceXml>::empty());
        assert(bals.last() == bals[0]);
    }
    if bals.len() == 2 {
        assert(balances_of(bals.drop_last().drop_last(), st.acct.ccy@) == Ok::<
            (Option<BalanceView>, Option<BalanceView>),
            ErrorView,
        >((None, None)));
        assert(balances_of(bals.drop_last(), st.acct.ccy@) == Ok::<
            (Option<BalanceView>, Option<BalanceView>),
            ErrorView,
        >((s.opening_balance, None)));
    } else if bals.len() == 1 {
        assert(balances_of(bals.drop_last(), st.acct.ccy@) == Ok::<
            (Option<BalanceView>, Option<BalanceView>),
            ErrorView,
        >((None, None)));
    }
    assert(balances_of(bals, st.acct.ccy@) == Ok::<(Option<BalanceView>, Option<BalanceView>), ErrorView>(
        (s.opening_balance, s.closing_balance),
    ));
    lemma_entries_read_back(st.ntry@, s.transactions, st.acct.ccy@, later);
    let r = statement_of_document(doc, later)->Ok_0;
    assert(r.sequence_number == s.sequence_number);
    assert(r == s);
}

} // verus!
