//! The delimited table: rows of the canonical model and back.
//!
//! A row is a [`CsvRecord`] of texts; splitting the text into rows and
//! cells happens at the edge of the library.

use vstd::prelude::*;
use crate::error::{Error, ErrorView};
use crate::text::{
    is_digit, lemma_nat_text_digits, lemma_padded_number, lemma_trim_plain,
    pad_zeros,    nat_text, push_nat_text,    chars_of, char_is_space, is_space, line_views, lines_of, push_str, replace_char,
    replace_chars, skip_space, slice_chars, split_lines, text_of, trim, trim_chars,
};
use crate::types::{
    Amount, Date, DebitCredit, Statement, StatementView, Transaction, TransactionView,
    copy_text, date_of_triple, date_parsed, decimal_parse, opt_text,
    parse_date_with, parse_decimal, amount_text, dmy_text, format_date_with,
    render_amount, unix_time, abs, year_text, pow10,
};

verus! {

/// One row of the table.
#[derive(Debug, Clone, PartialEq)]
pub struct CsvRecord {
    pub date: String,
    pub debit_account: String,
    pub credit_account: String,
    pub debit_amount: String,
    pub credit_amount: String,
    pub reference: String,
    pub description: String,
    pub bank: String,
}

/// A statement in the table format.
#[derive(Debug, Clone, PartialEq)]
pub struct CsvStatement {
    pub statement: Statement,
}

/// The date that a cell holds: its trimmed text under the first of
/// `dd.mm.yyyy`, `yyyy-mm-dd`, `dd/mm/yyyy` and `mm/dd/yyyy` that fits.
pub open spec fn csv_date(s: Seq<char>) -> Option<Date> {
    let t = trim(s);
    match date_of_triple(date_parsed(t, "%d.%m.%Y"@)) {
        Some(d) => Some(d),
        None => match date_of_triple(date_parsed(t, "%Y-%m-%d"@)) {
            Some(d) => Some(d),
            None => match date_of_triple(date_parsed(t, "%d/%m/%Y"@)) {
                Some(d) => Some(d),
                None => date_of_triple(date_parsed(t, "%m/%d/%Y"@)),
            },
        },
    }
}

/// `s` without its ASCII spaces.
pub open spec fn remove_spaces(s: Seq<char>) -> Seq<char>
    decreases s.len(),
{
    if s.len() == 0 {
        Seq::empty()
    } else {
        remove_spaces(s.drop_last()) + if s.last() == ' ' {
            Seq::empty()
        } else {
            seq![s.last()]
        }
    }
}

/// The text of an amount cell as a decimal reads it: trimmed, without
/// spaces, with a decimal point for a comma.
pub open spec fn cleaned_amount(s: Seq<char>) -> Seq<char> {
    replace_char(remove_spaces(trim(s)), ',', '.')
}

/// The decimal of an amount cell.
pub open spec fn csv_amount(s: Seq<char>) -> Option<Amount> {
    match decimal_parse(cleaned_amount(s)) {
        Some(v) => Some(Amount { mantissa: v.0 as i128, scale: v.1 as u32 }),
        None => None,
    }
}

/// Index of the first line feed of `s`, or its length.
pub open spec fn first_newline(s: Seq<char>, i: int) -> int
    decreases s.len() - i,
{
    if i >= s.len() {
        s.len() as int
    } else if s[i] == '\n' {
        i
    } else {
        first_newline(s, i + 1)
    }
}

/// The first line of a cell, trimmed.
pub open spec fn first_line(s: Seq<char>) -> Seq<char> {
    trim(s.take(first_newline(s, 0)))
}

/// The first index at or after `i` where `p` occurs in `s`, or -1.
pub open spec fn find_from(s: Seq<char>, p: Seq<char>, i: int) -> int
    decreases s.len() + 1 - i,
{
    if i < 0 || i + p.len() > s.len() {
        -1
    } else if s.subrange(i, i + p.len()) == p {
        i
    } else {
        find_from(s, p, i + 1)
    }
}

/// The index of the first white space of `s` at or after `i`, or its length.
pub open spec fn token_end(s: Seq<char>, i: int) -> int
    decreases s.len() - i,
{
    if i >= s.len() {
        s.len() as int
    } else if is_space(s[i]) {
        i
    } else {
        token_end(s, i + 1)
    }
}

/// The first word of `s`, or nothing.
pub open spec fn first_token(s: Seq<char>) -> Seq<char> {
    let b = skip_space(s, 0);
    if b >= s.len() {
        Seq::empty()
    } else {
        s.subrange(b, token_end(s, b))
    }
}

/// The word after a marker in `s`, if the marker occurs.
pub open spec fn word_after(s: Seq<char>, marker: Seq<char>) -> Option<Seq<char>> {
    let k = find_from(s, marker, 0);
    if k >= 0 {
        Some(first_token(s.skip(k + marker.len())))
    } else {
        None
    }
}

/// The bank identifier in a bank cell: the word after `БИК ` or else after
/// `BIC `; without either marker, the trimmed cell.
pub open spec fn bic_of_field(s: Seq<char>) -> Seq<char> {
    match word_after(s, "БИК "@) {
        Some(w) => w,
        None => match word_after(s, "BIC "@) {
            Some(w) => w,
            None => trim(s),
        },
    }
}

/// The counterparty name of a row: the third line of the two account cells
/// taken together, when it is not blank; else the first line of a
/// non-empty description.
pub open spec fn counterparty_name_of(
    description: Seq<char>,
    debit_account: Seq<char>,
    credit_account: Seq<char>,
) -> Option<Seq<char>> {
    let ls = lines_of(debit_account) + lines_of(credit_account);
    if ls.len() >= 3 && trim(ls[2]).len() > 0 {
        Some(trim(ls[2]))
    } else if description.len() > 0 {
        Some(first_line(description))
    } else {
        None
    }
}

/// Index of the first line feed of `s`, or its length.
fn find_newline(s: &[char]) -> (r: usize)
    ensures
        r as int == first_newline(s@, 0),
        r <= s@.len(),
{
    let mut i: usize = 0;
    while i < s.len() && s[i] != '\n'
        invariant
            i <= s@.len(),
            first_newline(s@, 0) == first_newline(s@, i as int),
        decreases s@.len() - i,
    {
        i = i + 1;
    }
    i
}

/// The first index where `p` occurs in `s`, if any.
fn find_text(s: &[char], p: &[char]) -> (r: Option<usize>)
    ensures
        r matches Some(k) ==> k as int == find_from(s@, p@, 0),
        r is None <==> find_from(s@, p@, 0) < 0,
        r matches Some(k) ==> k + p@.len() <= s@.len(),
{
    if p.len() > s.len() {
        return None;
    }
    let mut i: usize = 0;
    while i <= s.len() - p.len()
        invariant
            p@.len() <= s@.len(),
            i <= s@.len() - p@.len() + 1,
            find_from(s@, p@, 0) == find_from(s@, p@, i as int),
        decreases s@.len() - p@.len() + 1 - i,
    {
        let piece = slice_chars(s, i, i + p.len());
        if crate::text::same_chars(piece.as_slice(), p) {
            return Some(i);
        }
        if i == s.len() - p.len() {
            assert(find_from(s@, p@, i as int + 1) == -1);
            return None;
        }
        i = i + 1;
    }
    None
}

/// The first word of `s`.
fn first_word(s: &[char]) -> (r: Vec<char>)
    ensures
        r@ == first_token(s@),
{
    let mut b: usize = 0;
    while b < s.len() && char_is_space(s[b])
        invariant
            b <= s@.len(),
            skip_space(s@, 0) == skip_space(s@, b as int),
        decreases s@.len() - b,
    {
        b = b + 1;
    }
    if b >= s.len() {
        return Vec::new();
    }
    let mut e: usize = b;
    while e < s.len() && !char_is_space(s[e])
        invariant
            b <= e <= s@.len(),
            token_end(s@, b as int) == token_end(s@, e as int),
        decreases s@.len() - e,
    {
        e = e + 1;
    }
    slice_chars(s, b, e)
}

impl CsvStatement {
    /// Decodes a date cell under the four patterns, in order.
    pub fn parse_date(s: &str) -> (r: Result<Date, Error>)
        ensures
            csv_date(s@) matches Some(d) ==> r == Ok::<Date, Error>(d),
            csv_date(s@) is None ==> (r matches Err(e) && e@ == ErrorView::InvalidDate(s@)),
            r matches Ok(d) ==> d.wf(),
    {
        let t = text_of(trim_chars(chars_of(s).as_slice()).as_slice());
        match parse_date_with(t.as_str(), "%d.%m.%Y") {
            Some(d) => {
                return Ok(d);
            },
            None => {},
        }
        match parse_date_with(t.as_str(), "%Y-%m-%d") {
            Some(d) => {
                return Ok(d);
            },
            None => {},
        }
        match parse_date_with(t.as_str(), "%d/%m/%Y") {
            Some(d) => {
                return Ok(d);
            },
            None => {},
        }
        match parse_date_with(t.as_str(), "%m/%d/%Y") {
            Some(d) => Ok(d),
            None => Err(Error::InvalidDate(text_of(chars_of(s).as_slice()))),
        }
    }

    /// Decodes an amount cell: spaces go, a comma is the decimal point.
    pub fn parse_amount(s: &str) -> (r: Result<Amount, Error>)
        ensures
            csv_amount(s@) matches Some(a) ==> r == Ok::<Amount, Error>(a),
            csv_amount(s@) is None ==> (r matches Err(e) && e@ == ErrorView::InvalidAmount(s@)),
            r matches Ok(a) ==> a.wf(),
    {
        let t = trim_chars(chars_of(s).as_slice());
        let mut kept: Vec<char> = Vec::new();
        let mut i: usize = 0;
        while i < t.len()
            invariant
                i <= t@.len(),
                kept@ == remove_spaces(t@.take(i as int)),
            decreases t@.len() - i,
        {
            assert(t@.take(i as int + 1).drop_last() == t@.take(i as int));
            if t[i] != ' ' {
                kept.push(t[i]);
            }
            i = i + 1;
        }
        assert(t@.take(t@.len() as int) == t@);
        let cleaned = text_of(replace_chars(kept.as_slice(), ',', '.').as_slice());
        match parse_decimal(cleaned.as_str()) {
            Some(a) => Ok(a),
            None => Err(Error::InvalidAmount(text_of(chars_of(s).as_slice()))),
        }
    }

    /// The account of an account cell: its first line, trimmed.
    pub fn extract_account(field: &str) -> (r: String)
        ensures
            r@ == first_line(field@),
    {
        let v = chars_of(field);
        let k = find_newline(v.as_slice());
        text_of(trim_chars(slice_chars(v.as_slice(), 0, k).as_slice()).as_slice())
    }

    /// The bank identifier of a bank cell.
    pub fn extract_bic(field: &str) -> (r: String)
        ensures
            r@ == bic_of_field(field@),
    {
        let v = chars_of(field);
        let n = v.len();
        let local = chars_of("БИК ");
        match find_text(v.as_slice(), local.as_slice()) {
            Some(k) => {
                let w = first_word(slice_chars(v.as_slice(), k + local.len(), n).as_slice());
                assert(v@.subrange((k + local.len()) as int, n as int) == field@.skip(
                    (k + local.len()) as int,
                ));
                return text_of(w.as_slice());
            },
            None => {},
        }
        let latin = chars_of("BIC ");
        match find_text(v.as_slice(), latin.as_slice()) {
            Some(k) => {
                let w = first_word(slice_chars(v.as_slice(), k + latin.len(), n).as_slice());
                assert(v@.subrange((k + latin.len()) as int, n as int) == field@.skip(
                    (k + latin.len()) as int,
                ));
                text_of(w.as_slice())
            },
            None => text_of(trim_chars(v.as_slice()).as_slice()),
        }
    }

    /// The counterparty name of a row.
    pub fn extract_counterparty_name(
        description: &str,
        debit_account: &str,
        credit_account: &str,
    ) -> (r: Option<String>)
        ensures
            opt_text(r) == counterparty_name_of(description@, debit_account@, credit_account@),
    {
        let d = split_lines(chars_of(debit_account).as_slice());
        let c = split_lines(chars_of(credit_account).as_slice());
        let ghost ls = lines_of(debit_account@) + lines_of(credit_account@);
        let third: Option<Vec<char>> = if d.len() >= 3 {
            assert(ls[2] == line_views(d@)[2]);
            Some(trim_chars(d[2].as_slice()))
        } else if c.len() >= 3 - d.len() {
            let j: usize = 2 - d.len();
            assert(ls[2] == line_views(c@)[j as int]);
            Some(trim_chars(c[j].as_slice()))
        } else {
            None
        };
        match third {
            Some(n) => {
                if n.len() > 0 {
                    return Some(text_of(n.as_slice()));
                }
            },
            None => {},
        }
        if description.unicode_len() > 0 {
            Some(CsvStatement::extract_account(description))
        } else {
            None
        }
    }
}

/// What the rows read so far give: the statement's own account (empty
/// until a row names it) and the transactions.
pub type RowsState = (Seq<char>, Seq<TransactionView>);

/// The transaction of a row.
pub open spec fn row_transaction(
    r: CsvRecord,
    date: Date,
    amount: Amount,
    dc: DebitCredit,
    counterparty: Option<Seq<char>>,
) -> TransactionView {
    TransactionView {
        reference: trim(r.reference@),
        date,
        value_date: Some(date),
        amount,
        currency: "RUB"@,
        debit_credit: dc,
        account: None,
        counterparty_account: counterparty,
        counterparty_name: counterparty_name_of(
            r.description@,
            r.debit_account@,
            r.credit_account@,
        ),
        bank_identifier: if r.bank@.len() > 0 {
            Some(bic_of_field(r.bank@))
        } else {
            None
        },
        description: trim(r.description@),
        additional_info: None,
    }
}

/// The effect of one row. A row with a blank date, or with neither amount,
/// is passed over. The debit amount, when present, makes a debit whose
/// counterparty is the credit account; else the credit amount makes a
/// credit whose counterparty is the debit account. The first own account
/// that a row names is kept.
pub open spec fn row_step(st: RowsState, r: CsvRecord) -> Result<RowsState, ErrorView> {
    if trim(r.date@).len() == 0 {
        Ok(st)
    } else {
        match csv_date(r.date@) {
            None => Err(ErrorView::InvalidDate(r.date@)),
            Some(date) => if r.debit_amount@.len() > 0 {
                match csv_amount(r.debit_amount@) {
                    None => Err(ErrorView::InvalidAmount(r.debit_amount@)),
                    Some(a) => {
                        let cp = if r.credit_account@.len() > 0 {
                            Some(first_line(r.credit_account@))
                        } else {
                            None
                        };
                        let own = if r.debit_account@.len() > 0 && st.0.len() == 0 {
                            first_line(r.debit_account@)
                        } else {
                            st.0
                        };
                        Ok((own, st.1.push(row_transaction(r, date, a, DebitCredit::Debit, cp))))
                    },
                }
            } else if r.credit_amount@.len() > 0 {
                match csv_amount(r.credit_amount@) {
                    None => Err(ErrorView::InvalidAmount(r.credit_amount@)),
                    Some(a) => {
                        let cp = if r.debit_account@.len() > 0 {
                            Some(first_line(r.debit_account@))
                        } else {
                            None
                        };
                        let own = if r.credit_account@.len() > 0 && st.0.len() == 0 {
                            first_line(r.credit_account@)
                        } else {
                            st.0
                        };
                        Ok((own, st.1.push(row_transaction(r, date, a, DebitCredit::Credit, cp))))
                    },
                }
            } else {
                Ok(st)
            },
        }
    }
}

/// The rows read in order; the first failing row decides the error.
pub open spec fn rows_of(records: Seq<CsvRecord>) -> Result<RowsState, ErrorView>
    decreases records.len(),
{
    if records.len() == 0 {
        Ok((Seq::empty(), Seq::empty()))
    } else {
        match rows_of(records.drop_last()) {
            Err(e) => Err(e),
            Ok(st) => row_step(st, records.last()),
        }
    }
}

/// The statement of a table under a given identifier: currency `RUB`, and
/// account `UNKNOWN` when no row names one.
pub open spec fn statement_of_rows(records: Seq<CsvRecord>, statement_id: Seq<char>) -> Result<
    StatementView,
    ErrorView,
> {
    match rows_of(records) {
        Err(e) => Err(e),
        Ok(st) => Ok(
            StatementView {
                statement_id,
                account: if st.0.len() == 0 {
                    "UNKNOWN"@
                } else {
                    st.0
                },
                sequence_number: None,
                account_holder: None,
                opening_balance: None,
                closing_balance: None,
                transactions: st.1,
                currency: "RUB"@,
                creation_date: None,
                from_date: None,
                to_date: None,
            },
        ),
    }
}

/// Once reading fails on a prefix of the rows, it fails the same way on
/// all of them.
proof fn lemma_rows_stop(records: Seq<CsvRecord>, k: int)
    requires
        0 <= k <= records.len(),
        rows_of(records.take(k)) is Err,
    ensures
        rows_of(records) == rows_of(records.take(k)),
    decreases records.len() - k,
{
    if k < records.len() {
        assert(records.take(k + 1).drop_last() == records.take(k));
        lemma_rows_stop(records, k + 1);
    } else {
        assert(records.take(k) == records);
    }
}

/// The decimal text of a signed integer.
pub open spec fn int_text(i: int) -> Seq<char> {
    if i < 0 {
        "-"@ + nat_text(abs(i))
    } else {
        nat_text(i as nat)
    }
}

/// `s` is the row of a transaction of a statement whose own account is
/// `account`: the own account and the amount go to the side that the
/// indicator names, the counterparty account to the other side.
pub open spec fn record_is(x: CsvRecord, t: TransactionView, account: Seq<char>) -> bool {
    let cp = match t.counterparty_account {
        Some(c) => c,
        None => Seq::empty(),
    };
    &&& x.date@ == dmy_text(t.date)
    &&& (if t.debit_credit == DebitCredit::Debit {
        &&& x.debit_account@ == account
        &&& x.credit_account@ == cp
        &&& x.debit_amount@ == amount_text(t.amount)
        &&& x.credit_amount@ == Seq::<char>::empty()
    } else {
        &&& x.debit_account@ == cp
        &&& x.credit_account@ == account
        &&& x.debit_amount@ == Seq::<char>::empty()
        &&& x.credit_amount@ == amount_text(t.amount)
    })
    &&& x.reference@ == t.reference
    &&& x.description@ == t.description
    &&& x.bank@ == match t.bank_identifier {
        Some(b) => b,
        None => Seq::empty(),
    }
}

/// A copy of an optional text, or an empty text.
fn text_or_empty(o: &Option<String>) -> (r: String)
    ensures
        r@ == match opt_text(*o) {
            Some(c) => c,
            None => Seq::empty(),
        },
{
    match o {
        Some(c) => copy_text(c),
        None => String::new(),
    }
}

/// The row of a transaction.
fn record_of(t: &Transaction, account: &String) -> (r: CsvRecord)
    requires
        t@.wf(),
    ensures
        record_is(r, t@, account@),
{
    let amount = render_amount(t.amount);
    let (debit_account, credit_account, debit_amount, credit_amount) = match t.debit_credit {
        DebitCredit::Debit => (
            copy_text(account),
            text_or_empty(&t.counterparty_account),
            amount,
            String::new(),
        ),
        DebitCredit::Credit => (
            text_or_empty(&t.counterparty_account),
            copy_text(account),
            String::new(),
            amount,
        ),
    };
    CsvRecord {
        date: format_date_with(t.date, "%d.%m.%Y"),
        debit_account,
        credit_account,
        debit_amount,
        credit_amount,
        reference: copy_text(&t.reference),
        description: copy_text(&t.description),
        bank: text_or_empty(&t.bank_identifier),
    }
}

impl CsvStatement {
    /// Reads the rows of a table into a statement with the given identifier.
    pub fn from_records_with_id(records: &[CsvRecord], statement_id: String) -> (r: Result<
        CsvStatement,
        Error,
    >)
        ensures
            r matches Ok(c) ==> statement_of_rows(records@, statement_id@) == Ok::<
                StatementView,
                ErrorView,
            >(c.statement@) && c.statement@.wf(),
            r matches Err(e) ==> statement_of_rows(records@, statement_id@) == Err::<
                StatementView,
                ErrorView,
            >(e@),
    {
        let mut account: Vec<char> = Vec::new();
        let mut transactions: Vec<Transaction> = Vec::new();
        assert(crate::types::transaction_views(transactions@) =~= Seq::<TransactionView>::empty());
        let mut i: usize = 0;
        while i < records.len()
            invariant
                i <= records@.len(),
                rows_of(records@.take(i as int)) == Ok::<RowsState, ErrorView>(
                    (account@, crate::types::transaction_views(transactions@)),
                ),
                forall|j: int|
                    0 <= j < transactions@.len() ==> (#[trigger] transactions@[j])@.wf(),
            decreases records@.len() - i,
        {
            assert(records@.take(i as int + 1).drop_last() == records@.take(i as int));
            assert(records@.take(i as int + 1).last() == records@[i as int]);
            let r = &records[i];
            match read_row(r, &mut account, &mut transactions) {
                Ok(()) => {},
                Err(e) => {
                    proof {
                        lemma_rows_stop(records@, i as int + 1);
                    }
                    return Err(e);
                },
            }
            i = i + 1;
        }
        assert(records@.take(records@.len() as int) == records@);
        let own = if account.len() == 0 {
            text_of(chars_of("UNKNOWN").as_slice())
        } else {
            text_of(account.as_slice())
        };
        let mut statement = Statement::new(statement_id, own, text_of(chars_of("RUB").as_slice()));
        statement.transactions = transactions;
        Ok(CsvStatement { statement })
    }

    /// Reads the rows of a table into a statement whose identifier is made
    /// from the time now: `CSV-` and the seconds since the Unix epoch.
    pub fn from_records(records: &[CsvRecord]) -> (r: Result<CsvStatement, Error>)
        ensures
            r matches Ok(c) ==> c.statement@.wf(),
            exists|t: int|
                (r matches Ok(c) ==> statement_of_rows(records@, "CSV-"@ + #[trigger] int_text(t)) == Ok::<
                    StatementView,
                    ErrorView,
                >(c.statement@)) && (r matches Err(e) ==> statement_of_rows(
                    records@,
                    "CSV-"@ + int_text(t),
                ) == Err::<StatementView, ErrorView>(e@)),
    {
        let t = unix_time();
        let mut id = chars_of("CSV-");
        if t < 0 {
            push_str("-", &mut id);
            let m: u128 = if t == i64::MIN {
                9223372036854775808
            } else {
                (-t) as u128
            };
            push_nat_text(m, &mut id);
        } else {
            push_nat_text(t as u128, &mut id);
        }
        assert(id@ == "CSV-"@ + int_text(t as int));
        CsvStatement::from_records_with_id(records, text_of(id.as_slice()))
    }

    /// The rows of the statement, one per transaction, in order.
    pub fn to_records(&self) -> (r: Vec<CsvRecord>)
        requires
            self.statement@.wf(),
        ensures
            r@.len() == self.statement@.transactions.len(),
            forall|i: int|
                0 <= i < r@.len() ==> record_is(
                    #[trigger] r@[i],
                    self.statement@.transactions[i],
                    self.statement@.account,
                ),
    {
        let s = &self.statement;
        let mut out: Vec<CsvRecord> = Vec::new();
        let mut i: usize = 0;
        while i < s.transactions.len()
            invariant
                i <= s.transactions@.len(),
                *s == self.statement,
                s@.wf(),
                out@.len() == i,
                forall|j: int|
                    0 <= j < i ==> record_is(#[trigger] out@[j], s@.transactions[j], s@.account),
            decreases s.transactions@.len() - i,
        {
            assert(s@.transactions[i as int] == s.transactions@[i as int]@);
            out.push(record_of(&s.transactions[i], &s.account));
            i = i + 1;
        }
        out
    }
}

/// Reads one row into the own account and the transactions.
fn read_row(r: &CsvRecord, account: &mut Vec<char>, transactions: &mut Vec<Transaction>) -> (res:
    Result<(), Error>)
    requires
        forall|j: int|
            0 <= j < old(transactions)@.len() ==> (#[trigger] old(transactions)@[j])@.wf(),
    ensures
        res is Ok ==> row_step(
            (old(account)@, crate::types::transaction_views(old(transactions)@)),
            *r,
        ) == Ok::<RowsState, ErrorView>(
            (final(account)@, crate::types::transaction_views(final(transactions)@)),
        ),
        res matches Err(e) ==> row_step(
            (old(account)@, crate::types::transaction_views(old(transactions)@)),
            *r,
        ) == Err::<RowsState, ErrorView>(e@),
        forall|j: int|
            0 <= j < final(transactions)@.len() ==> (#[trigger] final(transactions)@[j])@.wf(),
{
    let trimmed_date = trim_chars(chars_of(r.date.as_str()).as_slice());
    if trimmed_date.len() == 0 {
        return Ok(());
    }
    let date = match CsvStatement::parse_date(r.date.as_str()) {
        Ok(d) => d,
        Err(e) => {
            return Err(e);
        },
    };
    let (amount, dc, counterparty) = if r.debit_amount.as_str().unicode_len() > 0 {
        let a = match CsvStatement::parse_amount(r.debit_amount.as_str()) {
            Ok(a) => a,
            Err(e) => {
                return Err(e);
            },
        };
        let cp = if r.credit_account.as_str().unicode_len() > 0 {
            Some(CsvStatement::extract_account(r.credit_account.as_str()))
        } else {
            None
        };
        if r.debit_account.as_str().unicode_len() > 0 && account.len() == 0 {
            *account = chars_of(CsvStatement::extract_account(r.debit_account.as_str()).as_str());
        }
        (a, DebitCredit::Debit, cp)
    } else if r.credit_amount.as_str().unicode_len() > 0 {
        let a = match CsvStatement::parse_amount(r.credit_amount.as_str()) {
            Ok(a) => a,
            Err(e) => {
                return Err(e);
            },
        };
        let cp = if r.debit_account.as_str().unicode_len() > 0 {
            Some(CsvStatement::extract_account(r.debit_account.as_str()))
        } else {
            None
        };
        if r.credit_account.as_str().unicode_len() > 0 && account.len() == 0 {
            *account = chars_of(CsvStatement::extract_account(r.credit_account.as_str()).as_str());
        }
        (a, DebitCredit::Credit, cp)
    } else {
        return Ok(());
    };
    let name = CsvStatement::extract_counterparty_name(
        r.description.as_str(),
        r.debit_account.as_str(),
        r.credit_account.as_str(),
    );
    let bank = if r.bank.as_str().unicode_len() > 0 {
        Some(CsvStatement::extract_bic(r.bank.as_str()))
    } else {
        None
    };
    let t = Transaction {
        reference: text_of(trim_chars(chars_of(r.reference.as_str()).as_slice()).as_slice()),
        date,
        value_date: Some(date),
        amount,
        currency: text_of(chars_of("RUB").as_slice()),
        debit_credit: dc,
        account: None,
        counterparty_account: counterparty,
        counterparty_name: name,
        bank_identifier: bank,
        description: text_of(trim_chars(chars_of(r.description.as_str()).as_slice()).as_slice()),
        additional_info: None,
    };
    let ghost tv = t@;
    let ghost before = transactions@;
    transactions.push(t);
    assert(crate::types::transaction_views(transactions@) == crate::types::transaction_views(
        before,
    ).push(tv));
    Ok(())
}

/// The last character of a year's text is a digit, and so is the first
/// of a date's `DD.MM.YYYY` text.
proof fn lemma_dmy_plain(d: Date)
    ensures
        dmy_text(d).len() > 0,
        is_digit(dmy_text(d)[0]),
        is_digit(dmy_text(d).last()),
{
    let y = d.year as int;
    lemma_padded_number(d.day as nat, 2);
    lemma_padded_number(d.month as nat, 2);
    let p = if 0 <= y <= 9999 {
        pad_zeros(nat_text(y as nat), 4)
    } else {
        pad_zeros(nat_text(abs(y)), 4)
    };
    lemma_padded_number(if 0 <= y <= 9999 {
        y as nat
    } else {
        abs(y)
    }, 4);
    assert(year_text(y).last() == p.last());
    let day = pad_zeros(nat_text(d.day as nat), 2);
    assert(dmy_text(d)[0] == day[0]);
    assert(dmy_text(d).last() == year_text(y).last());
}

/// The text of an amount holds digits, at most a leading minus sign and a
/// decimal point; it begins with a digit or the sign and ends with a digit.
pub proof fn lemma_amount_chars(a: Amount)
    ensures
        amount_text(a).len() > 0,
        amount_text(a)[0] == '-' || is_digit(amount_text(a)[0]),
        is_digit(amount_text(a).last()),
        forall|i: int|
            0 <= i < amount_text(a).len() ==> is_digit(#[trigger] amount_text(a)[i]) || amount_text(
                a,
            )[i] == '-' || amount_text(a)[i] == '.',
{
    reveal_strlit("-");
    let m: int = abs(a.mantissa as int) as int;
    let p = pow10(a.scale as nat);
    let sign = if a.mantissa < 0 {
        "-"@
    } else {
        Seq::<char>::empty()
    };
    assert(p > 0) by {
        lemma_pow10_positive(a.scale as nat);
    }
    let whole = nat_text((m / p) as nat);
    lemma_nat_text_digits((m / p) as nat);
    let frac = pad_zeros(nat_text((m % p) as nat), a.scale as nat);
    lemma_padded_number((m % p) as nat, a.scale as nat);
    let t = amount_text(a);
    if a.scale == 0 {
        assert(t == sign + whole);
        assert forall|i: int| 0 <= i < t.len() implies is_digit(#[trigger] t[i]) || t[i] == '-'
            || t[i] == '.' by {
            if i >= sign.len() {
                assert(t[i] == whole[i - sign.len()]);
            }
        }
        assert(t.last() == whole.last());
    } else {
        let head = sign + whole + seq!['.'];
        assert(t == head + frac);
        assert forall|i: int| 0 <= i < t.len() implies is_digit(#[trigger] t[i]) || t[i] == '-'
            || t[i] == '.' by {
            if i >= head.len() {
                assert(t[i] == frac[i - head.len()]);
            } else if i >= sign.len() && i < sign.len() + whole.len() {
                assert(t[i] == whole[i - sign.len()]);
            }
        }
        assert(t.last() == frac.last());
    }
    if a.mantissa >= 0 {
        assert(t[0] == whole[0]);
    }
}

proof fn lemma_pow10_positive(n: nat)
    ensures
        pow10(n) > 0,
    decreases n,
{
    if n > 0 {
        lemma_pow10_positive((n - 1) as nat);
    }
}

/// A text without ASCII spaces keeps all its characters.
proof fn lemma_no_spaces(s: Seq<char>)
    requires
        forall|i: int| 0 <= i < s.len() ==> #[trigger] s[i] != ' ',
    ensures
        remove_spaces(s) == s,
    decreases s.len(),
{
    if s.len() > 0 {
        lemma_no_spaces(s.drop_last());
        assert(s.drop_last().push(s.last()) =~= s);
    }
}

/// An amount cell holding the text of an amount reads as that text.
proof fn lemma_amount_cell(a: Amount)
    ensures
        cleaned_amount(amount_text(a)) == amount_text(a),
{
    let t = amount_text(a);
    lemma_amount_chars(a);
    lemma_trim_plain(t);
    lemma_no_spaces(t);
    assert(replace_char(t, ',', '.') =~= t);
}

/// What the table format carries of a statement: a one-line own account,
/// and transactions whose reference and description are their own trim
/// and whose counterparty account, when present, is a non-empty single
/// line.
pub open spec fn carried_by_table(s: StatementView) -> bool {
    &&& s.account.len() > 0
    &&& first_line(s.account) == s.account
    &&& forall|i: int|
        0 <= i < s.transactions.len() ==> {
            let t = #[trigger] s.transactions[i];
            &&& trim(t.reference) == t.reference
            &&& trim(t.description) == t.description
            &&& (t.counterparty_account matches Some(c) ==> c.len() > 0 && first_line(c) == c)
        }
}

/// The outside parsers read back the date and the amount that a row writes.
pub open spec fn row_reads_back(t: TransactionView) -> bool {
    &&& date_of_triple(date_parsed(dmy_text(t.date), "%d.%m.%Y"@)) == Some(t.date)
    &&& decimal_parse(amount_text(t.amount)) == Some(
        (t.amount.mantissa as int, t.amount.scale as int),
    )
}

/// The transaction that reading back the row of `t` gives.
pub open spec fn read_back(r: CsvRecord, t: TransactionView) -> TransactionView {
    row_transaction(r, t.date, t.amount, t.debit_credit, t.counterparty_account)
}

proof fn lemma_row_read_back(st: RowsState, r: CsvRecord, t: TransactionView, account: Seq<char>)
    requires
        record_is(r, t, account),
        row_reads_back(t),
        account.len() > 0,
        first_line(account) == account,
        t.counterparty_account matches Some(c) ==> c.len() > 0 && first_line(c) == c,
        st.0.len() == 0 || st.0 == account,
    ensures
        row_step(st, r) == Ok::<RowsState, ErrorView>((account, st.1.push(read_back(r, t)))),
{
    lemma_dmy_plain(t.date);
    lemma_trim_plain(dmy_text(t.date));
    lemma_amount_cell(t.amount);
    lemma_amount_chars(t.amount);
    assert(csv_date(r.date@) == Some(t.date));
    assert(csv_amount(amount_text(t.amount)) == Some(t.amount));
    match t.counterparty_account {
        Some(c) => {},
        None => {},
    }
}

proof fn lemma_rows_read_back(records: Seq<CsvRecord>, ts: Seq<TransactionView>, account: Seq<char>)
    requires
        records.len() == ts.len(),
        account.len() > 0,
        first_line(account) == account,
        forall|i: int|
            0 <= i < ts.len() ==> record_is(#[trigger] records[i], ts[i], account) && row_reads_back(
                ts[i],
            ) && (ts[i].counterparty_account matches Some(c) ==> c.len() > 0 && first_line(c) == c),
    ensures
        rows_of(records) == Ok::<RowsState, ErrorView>(
            (
                if ts.len() > 0 {
                    account
                } else {
                    Seq::empty()
                },
                Seq::new(ts.len(), |i: int| read_back(records[i], ts[i])),
            ),
        ),
    decreases records.len(),
{
    if records.len() > 0 {
        let n = records.len() - 1;
        lemma_rows_read_back(records.drop_last(), ts.drop_last(), account);
        let prev = rows_of(records.drop_last())->Ok_0;
        assert(records.last() == records[n]);
        lemma_row_read_back(prev, records[n], ts[n], account);
        assert(Seq::new(ts.drop_last().len(), |i: int| read_back(records.drop_last()[i], ts.drop_last()[i])).push(
            read_back(records[n], ts[n]),
        ) =~= Seq::new(ts.len(), |i: int| read_back(records[i], ts[i])));
    } else {
        assert(Seq::new(ts.len(), |i: int| read_back(records[i], ts[i])) =~= Seq::<TransactionView>::empty());
    }
}

/// The table round trip: reading back the rows of a statement gives its
/// own account and, transaction by transaction, its amount, date,
/// reference, description, indicator and counterparty account, provided
/// the outside parsers read back the dates and amounts that the rows
/// write. Currency and identifier are not carried.
pub proof fn lemma_table_round_trip(records: Seq<CsvRecord>, s: StatementView, id: Seq<char>)
    requires
        s.wf(),
        carried_by_table(s),
        forall|i: int| 0 <= i < s.transactions.len() ==> row_reads_back(#[trigger] s.transactions[i]),
        records.len() == s.transactions.len(),
        forall|i: int|
            0 <= i < records.len() ==> record_is(#[trigger] records[i], s.transactions[i], s.account),
    ensures
        statement_of_rows(records, id) matches Ok(r) && r.transactions.len() == s.transactions.len()
            && (s.transactions.len() > 0 ==> r.account == s.account) && forall|i: int|
            0 <= i < s.transactions.len() ==> {
                let a = #[trigger] r.transactions[i];
                let t = s.transactions[i];
                &&& a.amount == t.amount
                &&& a.date == t.date
                &&& a.reference == t.reference
                &&& a.description == t.description
                &&& a.debit_credit == t.debit_credit
                &&& a.counterparty_account == t.counterparty_account
            },
{
    assert forall|i: int|
        0 <= i < s.transactions.len() implies record_is(
        #[trigger] records[i],
        s.transactions[i],
        s.account,
    ) && row_reads_back(s.transactions[i]) && (s.transactions[i].counterparty_account matches Some(
        c,
    ) ==> c.len() > 0 && first_line(c) == c) by {
        let t = s.transactions[i];
    }
    lemma_rows_read_back(records, s.transactions, s.account);
}

} // verus!
