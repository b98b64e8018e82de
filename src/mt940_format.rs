//! The tagged line format (MT940): decoding and encoding of statements.

use vstd::prelude::*;
use crate::error::{Error, ErrorView};
use crate::text::{
    is_ascii_letter, line_views, lines_of, split_lines,    nat_text, pad_zeros, push_nat_text,    char_is_alpha, chars_of, has_prefix, is_alpha, is_digit, push_all, push_padded, push_str,
    replace_char, replace_chars, slice_chars, starts_with, text_of, text_with, trim, trim_chars,
    upper_of,
};
use crate::types::{
    opt_balance,
    Amount, Balance, BalanceType, BalanceView, Date, DebitCredit, Statement, StatementView,
    Transaction, TransactionView, abs, amount_text, date_text, dc_letter, dc_of_name,
    decimal_parse, parse_decimal, render_amount, render_date, valid_ymd, copy_text,
};

verus! {

/// The numeric value of the two digits at `s[i]` and `s[i + 1]`.
pub open spec fn two_digit_value(s: Seq<char>, i: int) -> int {
    ((s[i] as int) - ('0' as int)) * 10 + ((s[i + 1] as int) - ('0' as int))
}

/// Whether `s[from..to]` holds decimal digits only.
pub open spec fn all_digits(s: Seq<char>, from: int, to: int) -> bool {
    forall|k: int| from <= k < to ==> is_digit(#[trigger] s[k])
}

/// The century rule for two-digit years: below 50 is this century, the rest
/// the last.
pub open spec fn pivot_year(yy: int) -> int {
    if yy < 50 {
        2000 + yy
    } else {
        1900 + yy
    }
}

/// The date that a `YYMMDD` text stands for, if any.
pub open spec fn mt940_date(s: Seq<char>) -> Option<Date> {
    if s.len() == 6 && all_digits(s, 0, 6) {
        let y = pivot_year(two_digit_value(s, 0));
        let m = two_digit_value(s, 2);
        let d = two_digit_value(s, 4);
        if valid_ymd(y, m, d) {
            Some(Date { year: y as i32, month: m as u32, day: d as u32 })
        } else {
            None
        }
    } else {
        None
    }
}

/// The date that an `MMDD` text stands for in year `year`, if any.
pub open spec fn mt940_entry_date(s: Seq<char>, year: int) -> Option<Date> {
    if s.len() == 4 && all_digits(s, 0, 4) {
        let m = two_digit_value(s, 0);
        let d = two_digit_value(s, 2);
        if valid_ymd(year, m, d) {
            Some(Date { year: year as i32, month: m as u32, day: d as u32 })
        } else {
            None
        }
    } else {
        None
    }
}

/// The value of the digit `c`.
fn digit_value(c: char) -> (r: u32)
    requires
        is_digit(c),
    ensures
        r as int == (c as int) - ('0' as int),
        r < 10,
{
    (c as u32) - ('0' as u32)
}

/// Whether every character of `s[from..to]` is a decimal digit.
fn digits_only(s: &[char], from: usize, to: usize) -> (r: bool)
    requires
        from <= to <= s@.len(),
    ensures
        r == all_digits(s@, from as int, to as int),
{
    let mut k: usize = from;
    while k < to
        invariant
            from <= k <= to <= s@.len(),
            all_digits(s@, from as int, k as int),
        decreases to - k,
    {
        if !('0' <= s[k] && s[k] <= '9') {
            return false;
        }
        k = k + 1;
    }
    true
}

/// Decodes a `YYMMDD` date; a year below 50 falls in 2000..2049, the others
/// in 1950..1999.
pub fn parse_mt940_date(s: &str) -> (r: Result<Date, Error>)
    ensures
        mt940_date(s@) matches Some(d) ==> r == Ok::<Date, Error>(d),
        mt940_date(s@) is None ==> (r matches Err(e) && e@ == ErrorView::InvalidDate(s@)),
{
    let v = chars_of(s);
    parse_yymmdd(v.as_slice())
}

/// Decodes the characters of a `YYMMDD` date.
fn parse_yymmdd(s: &[char]) -> (r: Result<Date, Error>)
    ensures
        mt940_date(s@) matches Some(d) ==> r == Ok::<Date, Error>(d),
        mt940_date(s@) is None ==> (r matches Err(e) && e@ == ErrorView::InvalidDate(s@)),
{
    if s.len() != 6 || !digits_only(s, 0, 6) {
        return Err(Error::InvalidDate(text_of(s)));
    }
    let yy = digit_value(s[0]) * 10 + digit_value(s[1]);
    let month = digit_value(s[2]) * 10 + digit_value(s[3]);
    let day = digit_value(s[4]) * 10 + digit_value(s[5]);
    let year: i32 = if yy < 50 {
        2000 + yy as i32
    } else {
        1900 + yy as i32
    };
    match Date::new(year, month, day) {
        Some(d) => Ok(d),
        None => Err(Error::InvalidDate(text_of(s))),
    }
}

/// Decodes an `MMDD` date in the given year.
fn parse_mt940_entry_date(s: &[char], year: i32) -> (r: Result<Date, Error>)
    ensures
        mt940_entry_date(s@, year as int) matches Some(d) ==> r == Ok::<Date, Error>(d),
        mt940_entry_date(s@, year as int) is None ==> (r matches Err(e) && e@
            == ErrorView::InvalidDate(s@)),
{
    if s.len() != 4 || !digits_only(s, 0, 4) {
        return Err(Error::InvalidDate(text_of(s)));
    }
    let month = digit_value(s[0]) * 10 + digit_value(s[1]);
    let day = digit_value(s[2]) * 10 + digit_value(s[3]);
    match Date::new(year, month, day) {
        Some(d) => Ok(d),
        None => Err(Error::InvalidDate(text_of(s))),
    }
}

/// The balance that a `:60x:` or `:62x:` line encodes: after the five
/// characters of the tag, the D/C letter, a `YYMMDD` date, a three-letter
/// currency and the amount with a decimal comma.
pub open spec fn balance_of_line(line: Seq<char>, balance_type: BalanceType) -> Result<
    BalanceView,
    ErrorView,
> {
    if line.len() < 5 {
        Err(ErrorView::ParseError("Invalid balance line: "@ + line))
    } else {
        let c = line.skip(5);
        if c.len() < 11 {
            Err(ErrorView::ParseError("Balance line too short: "@ + line))
        } else {
            match dc_of_name(upper_of(c.take(1))) {
                None => Err(ErrorView::ParseError("Invalid D/C indicator in: "@ + line)),
                Some(dc) => match mt940_date(c.subrange(1, 7)) {
                    None => Err(ErrorView::InvalidDate(c.subrange(1, 7))),
                    Some(date) => {
                        let a = replace_char(c.skip(10), ',', '.');
                        match decimal_parse(a) {
                            None => Err(ErrorView::InvalidAmount(a)),
                            Some(v) => Ok(
                                BalanceView {
                                    balance_type,
                                    amount: Amount { mantissa: v.0 as i128, scale: v.1 as u32 },
                                    currency: c.subrange(7, 10),
                                    debit_credit: dc,
                                    date,
                                },
                            ),
                        }
                    },
                },
            }
        }
    }
}

/// Decodes the balance of a `:60x:` or `:62x:` line.
pub fn parse_balance(line: &[char], balance_type: BalanceType) -> (r: Result<Balance, Error>)
    ensures
        r matches Ok(b) ==> balance_of_line(line@, balance_type) == Ok::<BalanceView, ErrorView>(b@)
            && b.amount.wf() && b.date.wf(),
        r matches Err(e) ==> balance_of_line(line@, balance_type) == Err::<BalanceView, ErrorView>(
            e@,
        ),
{
    if line.len() < 5 {
        return Err(Error::ParseError(text_with("Invalid balance line: ", line)));
    }
    let c = slice_chars(line, 5, line.len());
    if c.len() < 11 {
        return Err(Error::ParseError(text_with("Balance line too short: ", line)));
    }
    let dc_text = text_of(slice_chars(c.as_slice(), 0, 1).as_slice());
    let dc = match DebitCredit::from_str(dc_text.as_str()) {
        Some(dc) => dc,
        None => {
            return Err(Error::ParseError(text_with("Invalid D/C indicator in: ", line)));
        },
    };
    let date_chars = slice_chars(c.as_slice(), 1, 7);
    let date = match parse_yymmdd(date_chars.as_slice()) {
        Ok(d) => d,
        Err(e) => {
            return Err(e);
        },
    };
    let currency = text_of(slice_chars(c.as_slice(), 7, 10).as_slice());
    let amount_chars = replace_chars(slice_chars(c.as_slice(), 10, c.len()).as_slice(), ',', '.');
    let amount_text = text_of(amount_chars.as_slice());
    let amount = match parse_decimal(amount_text.as_str()) {
        Some(a) => a,
        None => {
            return Err(Error::InvalidAmount(amount_text));
        },
    };
    Ok(Balance { balance_type, amount, currency, debit_credit: dc, date })
}

/// The index of the first alphabetic character of `s` at or after `i`, or
/// the length of `s`.
pub open spec fn first_alpha(s: Seq<char>, i: int) -> int
    decreases s.len() - i,
{
    if i >= s.len() {
        s.len() as int
    } else if is_alpha(s[i]) {
        i
    } else {
        first_alpha(s, i + 1)
    }
}

/// Where the last piece of `s` begins when `s` is split at `//`, the
/// separators taken from left to right; `start` is where the current piece
/// began and `i` how far the scan has come.
pub open spec fn segment_start(s: Seq<char>, i: int, start: int) -> int
    decreases s.len() - i,
{
    if i + 2 > s.len() {
        start
    } else if s[i] == '/' && s[i + 1] == '/' {
        segment_start(s, i + 2, i + 2)
    } else {
        segment_start(s, i + 1, start)
    }
}

/// The last piece of `s` when it is split at `//`.
pub open spec fn last_segment(s: Seq<char>) -> Seq<char> {
    s.skip(segment_start(s, 0, 0))
}

/// The reference made up for an entry that carries none: `date-amount`.
pub open spec fn made_up_reference(date: Date, amount: Amount) -> Seq<char> {
    date_text(date) + "-"@ + amount_text(amount)
}

/// The entry that a `:61:` line encodes: after the four characters of the
/// tag, a `YYMMDD` value date, an optional `MMDD` entry date (present when
/// more than ten characters follow the tag and the third after the value
/// date is a digit), the D/C letter, the amount up to the first alphabetic
/// character, and a reference after the last `//`.
pub open spec fn transaction_of_line(line: Seq<char>, currency: Seq<char>) -> Result<
    TransactionView,
    ErrorView,
> {
    if line.len() < 4 || line.len() - 4 < 6 {
        Err(ErrorView::ParseError("Transaction line too short: "@ + line))
    } else {
        let c = line.skip(4);
        match mt940_date(c.take(6)) {
            None => Err(ErrorView::InvalidDate(c.take(6))),
            Some(value_date) => {
                let has_entry = c.len() > 10 && is_digit(c[8]);
                let pos: int = if has_entry {
                    10
                } else {
                    6
                };
                let entry = if has_entry {
                    mt940_entry_date(c.subrange(6, 10), value_date.year as int)
                } else {
                    Some(value_date)
                };
                match entry {
                    None => Err(ErrorView::InvalidDate(c.subrange(6, 10))),
                    Some(date) => if pos >= c.len() {
                        Err(
                            ErrorView::Mt940ParseError {
                                line: 0,
                                message: "Missing D/C indicator"@,
                            },
                        )
                    } else {
                        match dc_of_name(upper_of(seq![c[pos]])) {
                            None => Err(ErrorView::ParseError("Invalid D/C: "@ + seq![c[pos]])),
                            Some(dc) => {
                                let rest = c.skip(pos + 1);
                                let e = first_alpha(rest, 0);
                                let a = replace_char(rest.take(e), ',', '.');
                                match decimal_parse(a) {
                                    None => Err(ErrorView::InvalidAmount(a)),
                                    Some(v) => {
                                        let amount = Amount {
                                            mantissa: v.0 as i128,
                                            scale: v.1 as u32,
                                        };
                                        let found = trim(last_segment(rest.skip(e)));
                                        Ok(
                                            TransactionView {
                                                reference: if found.len() == 0 {
                                                    made_up_reference(date, amount)
                                                } else {
                                                    found
                                                },
                                                date,
                                                value_date: Some(value_date),
                                                amount,
                                                currency,
                                                debit_credit: dc,
                                                account: None,
                                                counterparty_account: None,
                                                counterparty_name: None,
                                                bank_identifier: None,
                                                description: Seq::empty(),
                                                additional_info: None,
                                            },
                                        )
                                    },
                                }
                            },
                        }
                    },
                }
            },
        }
    }
}

/// The index of the first alphabetic character of `s`, or its length.
fn find_alpha(s: &[char]) -> (r: usize)
    ensures
        r as int == first_alpha(s@, 0),
        r <= s@.len(),
{
    let mut i: usize = 0;
    while i < s.len() && !char_is_alpha(s[i])
        invariant
            i <= s@.len(),
            first_alpha(s@, 0) == first_alpha(s@, i as int),
        decreases s@.len() - i,
    {
        i = i + 1;
    }
    i
}

/// Where the last `//`-separated piece of `s` begins.
fn find_last_segment(s: &[char]) -> (r: usize)
    ensures
        r as int == segment_start(s@, 0, 0),
        r <= s@.len(),
{
    let mut i: usize = 0;
    let mut start: usize = 0;
    while s.len() >= 2 && i <= s.len() - 2
        invariant
            start <= i <= s@.len(),
            segment_start(s@, 0, 0) == segment_start(s@, i as int, start as int),
        decreases s@.len() - i,
    {
        if s[i] == '/' && s[i + 1] == '/' {
            i = i + 2;
            start = i;
        } else {
            i = i + 1;
        }
    }
    start
}

/// The characters `date-amount`.
pub(crate) fn made_up_reference_chars(date: Date, amount: Amount) -> (r: Vec<char>)
    requires
        date.wf(),
        amount.wf(),
    ensures
        r@ == made_up_reference(date, amount),
{
    let d = render_date(date);
    let mut r = chars_of(d.as_str());
    push_str("-", &mut r);
    let a = render_amount(amount);
    push_str(a.as_str(), &mut r);
    r
}

/// Decodes the entry of a `:61:` line; it takes the given currency.
pub fn parse_transaction_line(line: &[char], currency: &[char]) -> (r: Result<Transaction, Error>)
    ensures
        r matches Ok(t) ==> transaction_of_line(line@, currency@) == Ok::<
            TransactionView,
            ErrorView,
        >(t@) && t.amount.wf() && t.date.wf(),
        r matches Err(e) ==> transaction_of_line(line@, currency@) == Err::<
            TransactionView,
            ErrorView,
        >(e@),
{
    if line.len() < 4 || line.len() - 4 < 6 {
        return Err(Error::ParseError(text_with("Transaction line too short: ", line)));
    }
    let c = slice_chars(line, 4, line.len());
    let value_date_chars = slice_chars(c.as_slice(), 0, 6);
    let value_date = match parse_yymmdd(value_date_chars.as_slice()) {
        Ok(d) => d,
        Err(e) => {
            return Err(e);
        },
    };
    let has_entry = c.len() > 10 && '0' <= c[8] && c[8] <= '9';
    let mut pos: usize = 6;
    let date = if has_entry {
        let entry_chars = slice_chars(c.as_slice(), 6, 10);
        pos = 10;
        match parse_mt940_entry_date(entry_chars.as_slice(), value_date.year) {
            Ok(d) => d,
            Err(e) => {
                return Err(e);
            },
        }
    } else {
        value_date
    };
    if pos >= c.len() {
        return Err(
            Error::Mt940ParseError {
                line: 0,
                message: text_of(chars_of("Missing D/C indicator").as_slice()),
            },
        );
    }
    let dc_char = c[pos];
    let mut dc_chars: Vec<char> = Vec::new();
    dc_chars.push(dc_char);
    let dc_text = text_of(dc_chars.as_slice());
    let dc = match DebitCredit::from_str(dc_text.as_str()) {
        Some(dc) => dc,
        None => {
            return Err(Error::ParseError(text_with("Invalid D/C: ", dc_chars.as_slice())));
        },
    };
    let rest = slice_chars(c.as_slice(), pos + 1, c.len());
    let e = find_alpha(rest.as_slice());
    let amount_chars = replace_chars(slice_chars(rest.as_slice(), 0, e).as_slice(), ',', '.');
    let amount_text = text_of(amount_chars.as_slice());
    let amount = match parse_decimal(amount_text.as_str()) {
        Some(a) => a,
        None => {
            return Err(Error::InvalidAmount(amount_text));
        },
    };
    let tail = slice_chars(rest.as_slice(), e, rest.len());
    let seg = find_last_segment(tail.as_slice());
    let found = trim_chars(slice_chars(tail.as_slice(), seg, tail.len()).as_slice());
    let reference = if found.len() == 0 {
        made_up_reference_chars(date, amount)
    } else {
        found
    };
    Ok(
        Transaction {
            reference: text_of(reference.as_slice()),
            date,
            value_date: Some(value_date),
            amount,
            currency: text_of(currency),
            debit_credit: dc,
            account: None,
            counterparty_account: None,
            counterparty_name: None,
            bank_identifier: None,
            description: text_of(Vec::<char>::new().as_slice()),
            additional_info: None,
        },
    )
}

/// What the scan over the lines has gathered so far.
pub struct ScanState {
    pub statement_id: Seq<char>,
    pub account: Seq<char>,
    pub sequence_number: Option<Seq<char>>,
    pub currency: Seq<char>,
    pub opening: Option<BalanceView>,
    pub closing: Option<BalanceView>,
    pub transactions: Seq<TransactionView>,
    /// The entry whose `:61:` line was the last one seen.
    pub current: Option<TransactionView>,
    /// The text of the last `:86:` field with its continuation lines.
    pub description: Seq<char>,
    /// Whether untagged lines continue the last `:86:` field.
    pub in_description: bool,
}

/// The state before the first line.
pub open spec fn initial_scan() -> ScanState {
    ScanState {
        statement_id: Seq::empty(),
        account: Seq::empty(),
        sequence_number: None,
        currency: Seq::empty(),
        opening: None,
        closing: None,
        transactions: Seq::empty(),
        current: None,
        description: Seq::empty(),
        in_description: false,
    }
}

/// Closes the entry in progress, if any: it takes the trimmed description
/// and goes after the entries already closed.
pub open spec fn flush(st: ScanState) -> ScanState {
    match st.current {
        Some(t) => ScanState {
            transactions: st.transactions.push(
                TransactionView { description: trim(st.description), ..t },
            ),
            current: None,
            description: Seq::empty(),
            ..st
        },
        None => st,
    }
}

/// The effect of one line on the scan.
pub open spec fn scan_line(st0: ScanState, line: Seq<char>) -> Result<ScanState, ErrorView> {
    if st0.in_description && !starts_with(line, ":"@) {
        Ok(ScanState { description: st0.description + " "@ + trim(line), ..st0 })
    } else {
        let st = ScanState { in_description: false, ..st0 };
        if starts_with(line, ":20:"@) {
            Ok(ScanState { statement_id: trim(line.skip(4)), ..st })
        } else if starts_with(line, ":25:"@) {
            Ok(ScanState { account: trim(line.skip(4)), ..st })
        } else if starts_with(line, ":28C:"@) {
            Ok(ScanState { sequence_number: Some(trim(line.skip(5))), ..st })
        } else if starts_with(line, ":60"@) {
            match balance_of_line(line, BalanceType::Opening) {
                Err(e) => Err(e),
                Ok(b) => Ok(
                    ScanState {
                        opening: Some(b),
                        currency: if st.currency.len() == 0 {
                            b.currency
                        } else {
                            st.currency
                        },
                        ..st
                    },
                ),
            }
        } else if starts_with(line, ":61:"@) {
            match transaction_of_line(line, st.currency) {
                Err(e) => Err(e),
                Ok(t) => Ok(ScanState { current: Some(t), description: Seq::empty(), ..flush(st) }),
            }
        } else if starts_with(line, ":86:"@) {
            Ok(ScanState { description: trim(line.skip(4)), in_description: true, ..st })
        } else if starts_with(line, ":62"@) {
            match balance_of_line(line, BalanceType::Closing) {
                Err(e) => Err(e),
                Ok(b) => Ok(ScanState { closing: Some(b), ..st }),
            }
        } else {
            Ok(st)
        }
    }
}

/// The scan over a sequence of lines; it stops at the first failing line.
pub open spec fn scan(lines: Seq<Seq<char>>) -> Result<ScanState, ErrorView>
    decreases lines.len(),
{
    if lines.len() == 0 {
        Ok(initial_scan())
    } else {
        match scan(lines.drop_last()) {
            Err(e) => Err(e),
            Ok(st) => scan_line(st, lines.last()),
        }
    }
}

/// Transactions that all take the given currency.
pub open spec fn with_currency(ts: Seq<TransactionView>, c: Seq<char>) -> Seq<TransactionView> {
    ts.map_values(|t: TransactionView| TransactionView { currency: c, ..t })
}

/// The amounts and dates gathered by a scan are valid.
pub open spec fn scan_wf(st: ScanState) -> bool {
    &&& (st.opening matches Some(b) ==> b.wf())
    &&& (st.closing matches Some(b) ==> b.wf())
    &&& (st.current matches Some(t) ==> t.wf())
    &&& forall|i: int| 0 <= i < st.transactions.len() ==> (#[trigger] st.transactions[i]).wf()
}

/// The statement that a finished scan gathered: `:20:` and `:25:` must have
/// given a non-empty identifier and account, and every transaction takes the
/// statement's currency.
pub open spec fn statement_of_scan(st: ScanState) -> Result<StatementView, ErrorView> {
    let f = flush(st);
    if f.statement_id.len() == 0 {
        Err(ErrorView::MissingField("statement reference :20:"@))
    } else if f.account.len() == 0 {
        Err(ErrorView::MissingField("account identification :25:"@))
    } else {
        Ok(
            StatementView {
                statement_id: f.statement_id,
                account: f.account,
                sequence_number: f.sequence_number,
                account_holder: None,
                opening_balance: f.opening,
                closing_balance: f.closing,
                transactions: with_currency(f.transactions, f.currency),
                currency: f.currency,
                creation_date: None,
                from_date: None,
                to_date: None,
            },
        )
    }
}

/// The statement that a sequence of lines encodes.
pub open spec fn mt940_of_lines(lines: Seq<Seq<char>>) -> Result<StatementView, ErrorView> {
    match scan(lines) {
        Err(e) => Err(e),
        Ok(st) => statement_of_scan(st),
    }
}

/// The view of an optional character vector.
pub open spec fn opt_chars(o: Option<Vec<char>>) -> Option<Seq<char>> {
    match o {
        Some(v) => Some(v@),
        None => None,
    }
}

/// The view of an optional transaction.
pub open spec fn opt_transaction(o: Option<Transaction>) -> Option<TransactionView> {
    match o {
        Some(t) => Some(t@),
        None => None,
    }
}


/// What the scan has gathered, as executable values.
struct Scanner {
    statement_id: Vec<char>,
    account: Vec<char>,
    sequence_number: Option<Vec<char>>,
    currency: Vec<char>,
    opening: Option<Balance>,
    closing: Option<Balance>,
    transactions: Vec<Transaction>,
    current: Option<Transaction>,
    description: Vec<char>,
    in_description: bool,
}

impl View for Scanner {
    type V = ScanState;

    closed spec fn view(&self) -> ScanState {
        ScanState {
            statement_id: self.statement_id@,
            account: self.account@,
            sequence_number: opt_chars(self.sequence_number),
            currency: self.currency@,
            opening: opt_balance(self.opening),
            closing: opt_balance(self.closing),
            transactions: crate::types::transaction_views(self.transactions@),
            current: opt_transaction(self.current),
            description: self.description@,
            in_description: self.in_description,
        }
    }
}

impl Scanner {
    fn new() -> (r: Scanner)
        ensures
            r@ == initial_scan(),
    {
        let r = Scanner {
            statement_id: Vec::new(),
            account: Vec::new(),
            sequence_number: None,
            currency: Vec::new(),
            opening: None,
            closing: None,
            transactions: Vec::new(),
            current: None,
            description: Vec::new(),
            in_description: false,
        };
        assert(r@.transactions =~= Seq::<TransactionView>::empty());
        r
    }

    fn flush(&mut self)
        ensures
            final(self)@ == flush(old(self)@),
            scan_wf(old(self)@) ==> scan_wf(final(self)@),
    {
        match self.current.take() {
            Some(t) => {
                let mut t = t;
                t.description = text_of(trim_chars(self.description.as_slice()).as_slice());
                let ghost tv = t@;
                self.transactions.push(t);
                self.description = Vec::new();
                assert(self@.transactions =~= old(self)@.transactions.push(tv));
                assert(self@.description =~= Seq::<char>::empty());
            },
            None => {},
        }
    }

    fn scan_line(&mut self, line: &[char]) -> (r: Result<(), Error>)
        requires
            scan_wf(old(self)@),
        ensures
            scan_wf(final(self)@),
            r is Ok ==> scan_line(old(self)@, line@) == Ok::<ScanState, ErrorView>(final(self)@),
            r matches Err(e) ==> scan_line(old(self)@, line@) == Err::<ScanState, ErrorView>(e@),
    {
        if self.in_description && !has_prefix(line, ":") {
            push_str(" ", &mut self.description);
            let t = trim_chars(line);
            push_all(t.as_slice(), &mut self.description);
            return Ok(());
        }
        self.in_description = false;
        proof {
            reveal_strlit(":20:");
            reveal_strlit(":25:");
            reveal_strlit(":28C:");
            reveal_strlit(":86:");
        }
        if has_prefix(line, ":20:") {
            self.statement_id = trim_chars(slice_chars(line, 4, line.len()).as_slice());
        } else if has_prefix(line, ":25:") {
            self.account = trim_chars(slice_chars(line, 4, line.len()).as_slice());
        } else if has_prefix(line, ":28C:") {
            self.sequence_number = Some(trim_chars(slice_chars(line, 5, line.len()).as_slice()));
        } else if has_prefix(line, ":60") {
            let b = match parse_balance(line, BalanceType::Opening) {
                Ok(b) => b,
                Err(e) => {
                    return Err(e);
                },
            };
            if self.currency.len() == 0 {
                self.currency = chars_of(b.currency.as_str());
            }
            self.opening = Some(b);
        } else if has_prefix(line, ":61:") {
            let t = match parse_transaction_line(line, self.currency.as_slice()) {
                Ok(t) => t,
                Err(e) => {
                    return Err(e);
                },
            };
            self.flush();
            self.description = Vec::new();
            self.current = Some(t);
        } else if has_prefix(line, ":86:") {
            self.description = trim_chars(slice_chars(line, 4, line.len()).as_slice());
            self.in_description = true;
        } else if has_prefix(line, ":62") {
            let b = match parse_balance(line, BalanceType::Closing) {
                Ok(b) => b,
                Err(e) => {
                    return Err(e);
                },
            };
            self.closing = Some(b);
        }
        Ok(())
    }
}

/// Decodes a statement from its lines.
pub fn parse_mt940_lines(lines: &[Vec<char>]) -> (r: Result<Statement, Error>)
    ensures
        r matches Ok(s) ==> mt940_of_lines(line_views(lines@)) == Ok::<StatementView, ErrorView>(
            s@,
        ) && s@.wf(),
        r matches Err(e) ==> mt940_of_lines(line_views(lines@)) == Err::<StatementView, ErrorView>(
            e@,
        ),
{
    let mut sc = Scanner::new();
    let mut i: usize = 0;
    while i < lines.len()
        invariant
            i <= lines@.len(),
            scan(line_views(lines@).take(i as int)) == Ok::<ScanState, ErrorView>(sc@),
            scan_wf(sc@),
        decreases lines@.len() - i,
    {
        let ghost before = sc@;
        let r = sc.scan_line(lines[i].as_slice());
        assert(line_views(lines@).take(i as int + 1).drop_last() == line_views(lines@).take(
            i as int,
        ));
        match r {
            Ok(()) => {},
            Err(e) => {
                assert(scan(line_views(lines@).take(i as int + 1)) == Err::<ScanState, ErrorView>(
                    e@,
                ));
                proof {
                    lemma_scan_stops(line_views(lines@), i as int + 1);
                }
                return Err(e);
            },
        }
        i = i + 1;
    }
    assert(line_views(lines@).take(lines@.len() as int) == line_views(lines@));
    sc.flush();
    if sc.statement_id.len() == 0 {
        return Err(Error::MissingField(text_of(chars_of("statement reference :20:").as_slice())));
    }
    if sc.account.len() == 0 {
        return Err(
            Error::MissingField(text_of(chars_of("account identification :25:").as_slice())),
        );
    }
    let sequence_number = match sc.sequence_number {
        Some(v) => Some(text_of(v.as_slice())),
        None => None,
    };
    let mut statement = Statement::new(
        text_of(sc.statement_id.as_slice()),
        text_of(sc.account.as_slice()),
        text_of(sc.currency.as_slice()),
    );
    statement.sequence_number = sequence_number;
    statement.opening_balance = sc.opening;
    statement.closing_balance = sc.closing;
    let ghost gathered = sc@.transactions;
    let mut rest = sc.transactions;
    let n = rest.len();
    let mut out: Vec<Transaction> = Vec::new();
    let mut k: usize = 0;
    assert(gathered.skip(0) =~= gathered);
    while k < n
        invariant
            n == gathered.len(),
            k <= n,
            rest@.len() == n - k,
            crate::types::transaction_views(rest@) == gathered.skip(k as int),
            out@.len() == k,
            forall|j: int| 0 <= j < gathered.len() ==> (#[trigger] gathered[j]).wf(),
            forall|j: int|
                0 <= j < k ==> (#[trigger] out@[j])@ == (TransactionView {
                    currency: statement.currency@,
                    ..gathered[j]
                }),
        decreases n - k,
    {
        let ghost before = rest@;
        let mut t = rest.remove(0);
        assert(crate::types::transaction_views(before)[0] == gathered.skip(k as int)[0]);
        assert(t@ == gathered[k as int]);
        assert(crate::types::transaction_views(rest@) =~= gathered.skip(k as int + 1)) by {
            assert forall|j: int| 0 <= j < rest@.len() implies crate::types::transaction_views(rest@)[j]
                == gathered.skip(k as int + 1)[j] by {
                assert(rest@[j] == before[j + 1]);
                assert(crate::types::transaction_views(before)[j + 1] == gathered.skip(k as int)[j + 1]);
            }
        }
        t.currency = copy_text(&statement.currency);
        out.push(t);
        k = k + 1;
    }
    assert(crate::types::transaction_views(out@) =~= with_currency(gathered, statement.currency@));
    statement.transactions = out;
    Ok(statement)
}

/// Once the scan fails on a prefix of the lines, it fails the same way on
/// every longer prefix.
proof fn lemma_scan_stops(lines: Seq<Seq<char>>, k: int)
    requires
        0 <= k <= lines.len(),
        scan(lines.take(k)) is Err,
    ensures
        scan(lines) == scan(lines.take(k)),
    decreases lines.len() - k,
{
    if k < lines.len() {
        assert(lines.take(k + 1).drop_last() == lines.take(k));
        lemma_scan_stops(lines, k + 1);
    } else {
        assert(lines.take(k) == lines);
    }
}

/// A statement in the tagged line format.
#[derive(Debug, Clone, PartialEq)]
pub struct Mt940Statement {
    pub statement: Statement,
}

impl Mt940Statement {
    /// Decodes a statement from the whole text of a document.
    pub fn from_text(text: &str) -> (r: Result<Mt940Statement, Error>)
        ensures
            r matches Ok(m) ==> mt940_of_lines(lines_of(text@)) == Ok::<StatementView, ErrorView>(
                m.statement@,
            ) && m.statement@.wf(),
            r matches Err(e) ==> mt940_of_lines(lines_of(text@)) == Err::<
                StatementView,
                ErrorView,
            >(e@),
    {
        let chars = chars_of(text);
        let lines = split_lines(chars.as_slice());
        match parse_mt940_lines(lines.as_slice()) {
            Ok(statement) => Ok(Mt940Statement { statement }),
            Err(e) => Err(e),
        }
    }

    /// Encodes the statement as a document.
    pub fn to_text(&self) -> (r: String)
        requires
            self.statement@.wf(),
        ensures
            r@ == mt940_text(self.statement@),
    {
        serialize_mt940(&self.statement)
    }
}

/// The two last digits of a year as `{:02}` writes `year % 100`.
pub open spec fn short_year_text(y: int) -> Seq<char> {
    let r = abs(y) % 100;
    if y < 0 && r != 0 {
        "-"@ + nat_text(r as nat)
    } else {
        pad_zeros(nat_text(r as nat), 2)
    }
}

/// A date written `YYMMDD`.
pub open spec fn mt940_date_text(d: Date) -> Seq<char> {
    short_year_text(d.year as int) + pad_zeros(nat_text(d.month as nat), 2) + pad_zeros(
        nat_text(d.day as nat),
        2,
    )
}

/// An amount with a decimal comma.
pub open spec fn comma_amount(a: Amount) -> Seq<char> {
    replace_char(amount_text(a), '.', ',')
}

/// The text of the line of a balance: `tag`, `F` when the balance has the
/// type that the tag stands for and `M` otherwise, then D/C, date, currency
/// and amount.
pub open spec fn balance_text(tag: Seq<char>, final_type: BalanceType, b: BalanceView) -> Seq<char> {
    tag + (if b.balance_type == final_type {
        "F"@
    } else {
        "M"@
    }) + ":"@ + dc_letter(b.debit_credit) + mt940_date_text(b.date) + b.currency + comma_amount(
        b.amount,
    )
}

/// The line of a balance.
pub open spec fn balance_line(tag: Seq<char>, final_type: BalanceType, b: BalanceView) -> Seq<char> {
    balance_text(tag, final_type, b) + "\n"@
}

/// The text of the `:61:` line of an entry; the entry date is the month and
/// day of the booking date.
pub open spec fn entry_text(t: TransactionView) -> Seq<char> {
    let vd = match t.value_date {
        Some(d) => d,
        None => t.date,
    };
    ":61:"@ + mt940_date_text(vd) + pad_zeros(nat_text(t.date.month as nat), 2) + pad_zeros(
        nat_text(t.date.day as nat),
        2,
    ) + dc_letter(t.debit_credit) + comma_amount(t.amount) + "NTRF//"@ + t.reference
}

/// The `:61:` line of an entry.
pub open spec fn entry_line(t: TransactionView) -> Seq<char> {
    entry_text(t) + "\n"@
}

/// The `:86:` line of an entry, when it has a description.
pub open spec fn description_line(t: TransactionView) -> Seq<char> {
    if t.description.len() == 0 {
        Seq::empty()
    } else {
        ":86:"@ + t.description + "\n"@
    }
}

/// The lines of an entry.
pub open spec fn transaction_lines(t: TransactionView) -> Seq<char> {
    entry_line(t) + description_line(t)
}

/// The lines of a sequence of entries, in order.
pub open spec fn transactions_text(ts: Seq<TransactionView>) -> Seq<char>
    decreases ts.len(),
{
    if ts.len() == 0 {
        Seq::empty()
    } else {
        transactions_text(ts.drop_last()) + transaction_lines(ts.last())
    }
}

/// The first line of every document.
pub open spec fn header_text() -> Seq<char> {
    "{1:F01BANKXXXXAXXX0000000000}{2:I940BANKXXXXAXXXXN}{4:\n"@
}

/// The document that encodes a statement.
pub open spec fn mt940_text(s: StatementView) -> Seq<char> {
    header_text() + ":20:"@ + s.statement_id + "\n"@ + ":25:"@ + s.account + "\n"@ + (
    match s.sequence_number {
        Some(n) => ":28C:"@ + n + "\n"@,
        None => Seq::empty(),
    }) + (match s.opening_balance {
        Some(b) => balance_line(":60"@, BalanceType::Opening, b),
        None => Seq::empty(),
    }) + transactions_text(s.transactions) + (match s.closing_balance {
        Some(b) => balance_line(":62"@, BalanceType::Closing, b),
        None => Seq::empty(),
    }) + "-}\n"@
}

/// Appends the `YYMMDD` text of a date.
fn push_mt940_date(d: Date, out: &mut Vec<char>)
    requires
        d.wf(),
    ensures
        final(out)@ == old(out)@ + mt940_date_text(d),
{
    let y = d.year;
    let r: i32 = if y < 0 {
        -(y % 100)
    } else {
        y % 100
    };
    assert(r as int == abs(y as int) % 100);
    if y < 0 && r != 0 {
        push_str("-", out);
        push_nat_text(r as u128, out);
    } else {
        push_padded(r as u128, 2, out);
    }
    push_padded(d.month as u128, 2, out);
    push_padded(d.day as u128, 2, out);
}

/// Appends an amount with a decimal comma.
fn push_comma_amount(a: Amount, out: &mut Vec<char>)
    requires
        a.wf(),
    ensures
        final(out)@ == old(out)@ + comma_amount(a),
{
    let text = render_amount(a);
    let v = replace_chars(chars_of(text.as_str()).as_slice(), '.', ',');
    push_all(v.as_slice(), out);
}

/// The characters of the line of a balance.
fn balance_line_chars(tag: &str, final_type: BalanceType, b: &Balance) -> (r: Vec<char>)
    requires
        b@.wf(),
    ensures
        r@ == balance_line(tag@, final_type, b@),
{
    let mut l = chars_of(tag);
    if b.balance_type == final_type {
        push_str("F", &mut l);
    } else {
        push_str("M", &mut l);
    }
    push_str(":", &mut l);
    push_str(b.debit_credit.to_string(), &mut l);
    push_mt940_date(b.date, &mut l);
    push_str(b.currency.as_str(), &mut l);
    push_comma_amount(b.amount, &mut l);
    push_str("\n", &mut l);
    l
}

/// Appends the line of a balance.
fn push_balance_line(tag: &str, final_type: BalanceType, b: &Balance, out: &mut Vec<char>)
    requires
        b@.wf(),
    ensures
        final(out)@ == old(out)@ + balance_line(tag@, final_type, b@),
{
    let l = balance_line_chars(tag, final_type, b);
    push_all(l.as_slice(), out);
}

/// The characters of the `:61:` line of an entry.
fn entry_line_chars(t: &Transaction) -> (r: Vec<char>)
    requires
        t@.wf(),
    ensures
        r@ == entry_line(t@),
{
    let mut l = chars_of(":61:");
    match t.value_date {
        Some(d) => push_mt940_date(d, &mut l),
        None => push_mt940_date(t.date, &mut l),
    }
    push_padded(t.date.month as u128, 2, &mut l);
    push_padded(t.date.day as u128, 2, &mut l);
    push_str(t.debit_credit.to_string(), &mut l);
    push_comma_amount(t.amount, &mut l);
    push_str("NTRF//", &mut l);
    push_str(t.reference.as_str(), &mut l);
    push_str("\n", &mut l);
    l
}

/// Appends the `:61:` line of an entry.
fn push_entry_line(t: &Transaction, out: &mut Vec<char>)
    requires
        t@.wf(),
    ensures
        final(out)@ == old(out)@ + entry_line(t@),
{
    let l = entry_line_chars(t);
    push_all(l.as_slice(), out);
}

/// Appends the `:86:` line of an entry, if it has a description.
fn push_description_line(t: &Transaction, out: &mut Vec<char>)
    ensures
        final(out)@ == old(out)@ + description_line(t@),
{
    if t.description.as_str().unicode_len() > 0 {
        push_str(":86:", out);
        push_str(t.description.as_str(), out);
        push_str("\n", out);
    } else {
        assert(old(out)@ + description_line(t@) == old(out)@);
    }
}

/// Appends the lines of an entry.
fn push_transaction_lines(t: &Transaction, out: &mut Vec<char>)
    requires
        t@.wf(),
    ensures
        final(out)@ == old(out)@ + transaction_lines(t@),
{
    push_entry_line(t, out);
    push_description_line(t, out);
}

/// The characters of the lines of the entries of a statement.
fn transactions_chars(s: &Statement) -> (r: Vec<char>)
    requires
        s@.wf(),
    ensures
        r@ == transactions_text(s@.transactions),
{
    let mut out: Vec<char> = Vec::new();
    let mut i: usize = 0;
    while i < s.transactions.len()
        invariant
            i <= s.transactions@.len(),
            s@.wf(),
            out@ == transactions_text(s@.transactions.take(i as int)),
        decreases s.transactions@.len() - i,
    {
        assert(s@.transactions.take(i as int + 1).drop_last() == s@.transactions.take(i as int));
        assert(s@.transactions[i as int] == s.transactions@[i as int]@);
        push_transaction_lines(&s.transactions[i], &mut out);
        i = i + 1;
    }
    assert(s@.transactions.take(s.transactions@.len() as int) == s@.transactions);
    out
}

/// The characters of the optional `:28C:` line.
fn sequence_chars(n: &Option<String>) -> (r: Vec<char>)
    ensures
        r@ == match crate::types::opt_text(*n) {
            Some(x) => ":28C:"@ + x + "\n"@,
            None => Seq::empty(),
        },
{
    match n {
        Some(x) => {
            let mut l = chars_of(":28C:");
            push_str(x.as_str(), &mut l);
            push_str("\n", &mut l);
            l
        },
        None => Vec::new(),
    }
}

/// The characters of the optional line of a balance.
fn balance_chars(tag: &str, final_type: BalanceType, b: &Option<Balance>) -> (r: Vec<char>)
    requires
        b matches Some(x) ==> x@.wf(),
    ensures
        r@ == match opt_balance(*b) {
            Some(x) => balance_line(tag@, final_type, x),
            None => Seq::empty(),
        },
{
    let mut l: Vec<char> = Vec::new();
    match b {
        Some(x) => {
            push_balance_line(tag, final_type, x, &mut l);
            assert(l@ =~= balance_line(tag@, final_type, x@));
        },
        None => {},
    }
    l
}

/// Encodes a statement in the tagged line format.
pub fn serialize_mt940(s: &Statement) -> (r: String)
    requires
        s@.wf(),
    ensures
        r@ == mt940_text(s@),
{
    let mut out = chars_of("{1:F01BANKXXXXAXXX0000000000}{2:I940BANKXXXXAXXXXN}{4:\n");
    push_str(":20:", &mut out);
    push_str(s.statement_id.as_str(), &mut out);
    push_str("\n", &mut out);
    push_str(":25:", &mut out);
    push_str(s.account.as_str(), &mut out);
    push_str("\n", &mut out);
    let seq = sequence_chars(&s.sequence_number);
    push_all(seq.as_slice(), &mut out);
    let opening = balance_chars(":60", BalanceType::Opening, &s.opening_balance);
    push_all(opening.as_slice(), &mut out);
    let body = transactions_chars(s);
    push_all(body.as_slice(), &mut out);
    let closing = balance_chars(":62", BalanceType::Closing, &s.closing_balance);
    push_all(closing.as_slice(), &mut out);
    push_str("-}\n", &mut out);
    text_of(out.as_slice())
}

/// Two-digit years pivot at 50: a `YYMMDD` date whose year digits are below
/// 50 falls in 2000..=2049, any other in 1950..=1999.
pub proof fn lemma_year_pivot(s: Seq<char>)
    requires
        mt940_date(s) is Some,
    ensures
        two_digit_value(s, 0) < 50 ==> mt940_date(s)->Some_0.year == 2000 + two_digit_value(s, 0),
        two_digit_value(s, 0) >= 50 ==> mt940_date(s)->Some_0.year == 1900 + two_digit_value(s, 0),
        1950 <= mt940_date(s)->Some_0.year <= 2049,
{
    assert(0 <= two_digit_value(s, 0) <= 99) by {
        assert(is_digit(s[0]) && is_digit(s[1]));
    }
}

/// A `:86:` line starts a description.
proof fn lemma_description_start(st: ScanState, a: Seq<char>)
    ensures
        scan_line(st, ":86:"@ + a) == Ok::<ScanState, ErrorView>(
            ScanState { description: trim(a), in_description: true, ..st },
        ),
{
    reveal_strlit(":86:");
    reveal_strlit(":20:");
    reveal_strlit(":25:");
    reveal_strlit(":28C:");
    reveal_strlit(":60");
    reveal_strlit(":61:");
    reveal_strlit(":62");
    reveal_strlit(":");
    let l = ":86:"@ + a;
    assert(l[0] == ':' && l[1] == '8' && l[2] == '6' && l[3] == ':');
    assert(starts_with(l, ":"@)) by {
        assert(l.subrange(0, 1) =~= ":"@);
    }
    assert(!starts_with(l, ":20:"@)) by {
        assert(l.subrange(0, 4)[1] != ":20:"@[1]);
    }
    assert(!starts_with(l, ":25:"@)) by {
        assert(l.subrange(0, 4)[1] != ":25:"@[1]);
    }
    assert(!starts_with(l, ":28C:"@)) by {
        if l.len() >= 5 {
            assert(l.subrange(0, 5)[1] != ":28C:"@[1]);
        }
    }
    assert(!starts_with(l, ":60"@)) by {
        assert(l.subrange(0, 3)[1] != ":60"@[1]);
    }
    assert(!starts_with(l, ":61:"@)) by {
        assert(l.subrange(0, 4)[1] != ":61:"@[1]);
    }
    assert(starts_with(l, ":86:"@)) by {
        assert(l.subrange(0, 4) =~= ":86:"@);
    }
    assert(l.skip(4) =~= a);
}

/// The untagged lines that continue a `:86:` field, each trimmed and put
/// after a space.
pub open spec fn continuation_text(ls: Seq<Seq<char>>) -> Seq<char>
    decreases ls.len(),
{
    if ls.len() == 0 {
        Seq::empty()
    } else {
        continuation_text(ls.drop_last()) + " "@ + trim(ls.last())
    }
}

/// A `:86:` line followed by any number of untagged lines gives one
/// description: the fragments, each trimmed, joined by single spaces; the
/// entry in progress and the entries before it stay as they were.
pub proof fn lemma_continuation(
    before: Seq<Seq<char>>,
    st: ScanState,
    a: Seq<char>,
    ls: Seq<Seq<char>>,
)
    requires
        scan(before) == Ok::<ScanState, ErrorView>(st),
        forall|i: int| 0 <= i < ls.len() ==> !starts_with(#[trigger] ls[i], ":"@),
    ensures
        scan(before.push(":86:"@ + a) + ls) == Ok::<ScanState, ErrorView>(
            ScanState {
                description: trim(a) + continuation_text(ls),
                in_description: true,
                ..st
            },
        ),
    decreases ls.len(),
{
    if ls.len() == 0 {
        assert(before.push(":86:"@ + a) + ls =~= before.push(":86:"@ + a));
        assert(before.push(":86:"@ + a).drop_last() =~= before);
        lemma_description_start(st, a);
        assert(trim(a) + continuation_text(ls) =~= trim(a));
    } else {
        let pre = ls.drop_last();
        assert forall|i: int| 0 <= i < pre.len() implies !starts_with(#[trigger] pre[i], ":"@) by {
            assert(pre[i] == ls[i]);
        }
        lemma_continuation(before, st, a, pre);
        let whole = before.push(":86:"@ + a) + ls;
        assert(whole.drop_last() =~= before.push(":86:"@ + a) + pre);
        assert(whole.last() == ls[ls.len() - 1]);
        assert(trim(a) + continuation_text(ls) =~= trim(a) + continuation_text(pre) + " "@ + trim(
            ls.last(),
        ));
    }
}

/// Two zero-padded digits of a number below 100 read back as the number.
pub(crate) proof fn lemma_two_digits(n: nat)
    requires
        n < 100,
    ensures
        pad_zeros(nat_text(n), 2).len() == 2,
        all_digits(pad_zeros(nat_text(n), 2), 0, 2),
        two_digit_value(pad_zeros(nat_text(n), 2), 0) == n,
{
    let t = nat_text(n);
    if n < 10 {
        assert(t =~= seq![crate::text::digit_char(n)]);
        assert(pad_zeros(t, 2) =~= seq!['0', crate::text::digit_char(n)]);
    } else {
        assert(nat_text(n / 10) =~= seq![crate::text::digit_char(n / 10)]);
        assert(t =~= seq![crate::text::digit_char(n / 10), crate::text::digit_char(n % 10)]);
        assert(pad_zeros(t, 2) =~= t);
    }
}

/// The `YYMMDD` text of a date from 1950 to 2049 reads back as the date.
pub proof fn lemma_date_round_trip(d: Date)
    requires
        d.wf(),
        1950 <= d.year <= 2049,
    ensures
        mt940_date(mt940_date_text(d)) == Some(d),
{
    let y = d.year as int;
    let r = (abs(y) % 100) as nat;
    lemma_two_digits(r);
    lemma_two_digits(d.month as nat);
    lemma_two_digits(d.day as nat);
    let a = pad_zeros(nat_text(r), 2);
    let b = pad_zeros(nat_text(d.month as nat), 2);
    let c = pad_zeros(nat_text(d.day as nat), 2);
    let s = mt940_date_text(d);
    assert(s == a + b + c);
    assert(s[0] == a[0] && s[1] == a[1]);
    assert(s[2] == b[0] && s[3] == b[1]);
    assert(s[4] == c[0] && s[5] == c[1]);
    assert(all_digits(s, 0, 6)) by {
        assert forall|k: int| 0 <= k < 6 implies is_digit(#[trigger] s[k]) by {
            if k < 2 {
                assert(s[k] == a[k]);
            } else if k < 4 {
                assert(s[k] == b[k - 2]);
            } else {
                assert(s[k] == c[k - 4]);
            }
        }
    }
    assert(two_digit_value(s, 0) == r);
    assert(two_digit_value(s, 2) == d.month);
    assert(two_digit_value(s, 4) == d.day);
}

/// Upper-casing leaves the letters of the indicators as they are.
pub open spec fn letters_stay() -> bool {
    upper_of("D"@) == "D"@ && upper_of("C"@) == "C"@
}

/// Among ASCII characters, the alphabetic ones are the letters.
pub open spec fn ascii_alphabetic_known() -> bool {
    forall|c: char| #![trigger is_alpha(c)] (c as u32) < 0x80 ==> (is_alpha(c) <==> is_ascii_letter(c))
}

/// The decimal parser reads an amount back from its text.
pub open spec fn amount_reads_back(a: Amount) -> bool {
    decimal_parse(amount_text(a)) == Some((a.mantissa as int, a.scale as int))
}

pub(crate) proof fn lemma_letter_read_back(dc: DebitCredit)
    requires
        letters_stay(),
    ensures
        dc_of_name(upper_of(dc_letter(dc))) == Some(dc),
{
    reveal_strlit("D");
    reveal_strlit("C");
    reveal_strlit("DBIT");
    reveal_strlit("DEBIT");
    assert("C"@[0] != "D"@[0]);
    assert("C"@.len() != "DBIT"@.len());
    assert("C"@.len() != "DEBIT"@.len());
}

/// The text of an amount with a decimal comma reads as the amount's text
/// once the comma is a point again, and holds no letter.
pub(crate) proof fn lemma_comma_amount(a: Amount)
    ensures
        replace_char(comma_amount(a), ',', '.') == amount_text(a),
        comma_amount(a).len() > 0,
        forall|i: int|
            0 <= i < comma_amount(a).len() ==> #[trigger] comma_amount(a)[i] == ',' || comma_amount(
                a,
            )[i] == '-' || is_digit(comma_amount(a)[i]),
{
    crate::csv_format::lemma_amount_chars(a);
    assert(replace_char(comma_amount(a), ',', '.') =~= amount_text(a));
}

/// The first alphabetic character at or after `i` is at `k` when none
/// comes between.
proof fn lemma_first_alpha_at(s: Seq<char>, i: int, k: int)
    requires
        0 <= i <= k < s.len(),
        is_alpha(s[k]),
        forall|j: int| i <= j < k ==> !is_alpha(#[trigger] s[j]),
    ensures
        first_alpha(s, i) == k,
    decreases k - i,
{
    if i < k {
        lemma_first_alpha_at(s, i + 1, k);
    }
}

/// The scan for `//` separators finds none at or after `i` when `s` holds
/// none there.
proof fn lemma_no_separator(s: Seq<char>, i: int, start: int)
    requires
        0 <= i,
        forall|j: int| i <= j && j + 1 < s.len() ==> !(#[trigger] s[j] == '/' && s[j + 1] == '/'),
    ensures
        segment_start(s, i, start) == start,
    decreases s.len() - i,
{
    if i + 2 <= s.len() {
        lemma_no_separator(s, i + 1, start);
    }
}

/// Whether `s` holds `//` anywhere.
pub open spec fn has_separator(s: Seq<char>) -> bool {
    exists|j: int| 0 <= j && j + 1 < s.len() && #[trigger] s[j] == '/' && s[j + 1] == '/'
}

/// A balance line reads back as its balance, for a date from 1950 to 2049
/// and a three-letter currency, provided the outside parsers read back the
/// indicator letter and the amount.
pub proof fn lemma_balance_line_round_trip(tag: Seq<char>, final_type: BalanceType, b: BalanceView)
    requires
        tag.len() == 3,
        b.wf(),
        1950 <= b.date.year <= 2049,
        b.currency.len() == 3,
        letters_stay(),
        amount_reads_back(b.amount),
    ensures
        balance_of_line(balance_text(tag, final_type, b), b.balance_type) == Ok::<
            BalanceView,
            ErrorView,
        >(b),
{
    reveal_strlit("F");
    reveal_strlit("M");
    reveal_strlit(":");
    reveal_strlit("D");
    reveal_strlit("C");
    reveal_strlit("\n");
    let x = if b.balance_type == final_type {
        "F"@
    } else {
        "M"@
    };
    let dc = dc_letter(b.debit_credit);
    let dt = mt940_date_text(b.date);
    let am = comma_amount(b.amount);
    lemma_date_round_trip(b.date);
    lemma_two_digits((abs(b.date.year as int) % 100) as nat);
    lemma_two_digits(b.date.month as nat);
    lemma_two_digits(b.date.day as nat);
    assert(dt.len() == 6);
    lemma_comma_amount(b.amount);
    lemma_letter_read_back(b.debit_credit);
    let line = balance_text(tag, final_type, b);
    assert(line =~= tag + x + ":"@ + dc + dt + b.currency + am);
    let c = line.skip(5);
    assert(c =~= dc + dt + b.currency + am);
    assert(c.take(1) =~= dc);
    assert(c.subrange(1, 7) =~= dt);
    assert(c.subrange(7, 10) =~= b.currency);
    assert(c.skip(10) =~= am);
}

/// A `:61:` line reads back as its transaction, for a value date and a
/// booking date of one year from 1950 to 2049 and a reference that is
/// its own trim, not empty and without `//`, provided the outside parsers
/// read back the indicator letter and the amount and tell ASCII letters.
#[verifier::rlimit(60)]
pub proof fn lemma_entry_line_round_trip(t: TransactionView, currency: Seq<char>)
    requires
        t.wf(),
        t.value_date matches Some(v) && v.year == t.date.year,
        1950 <= t.date.year <= 2049,
        t.reference.len() > 0,
        trim(t.reference) == t.reference,
        !has_separator(t.reference),
        letters_stay(),
        ascii_alphabetic_known(),
        amount_reads_back(t.amount),
    ensures
        transaction_of_line(entry_text(t), currency) == Ok::<TransactionView, ErrorView>(
            TransactionView {
                currency,
                account: None,
                counterparty_account: None,
                counterparty_name: None,
                bank_identifier: None,
                description: Seq::empty(),
                additional_info: None,
                ..t
            },
        ),
{
    reveal_strlit(":61:");
    reveal_strlit("NTRF//");
    reveal_strlit("D");
    reveal_strlit("C");
    reveal_strlit("\n");
    let v = t.value_date->Some_0;
    let vd = mt940_date_text(v);
    lemma_date_round_trip(v);
    lemma_two_digits((abs(v.year as int) % 100) as nat);
    lemma_two_digits(v.month as nat);
    lemma_two_digits(v.day as nat);
    lemma_two_digits(t.date.month as nat);
    lemma_two_digits(t.date.day as nat);
    let md = pad_zeros(nat_text(t.date.month as nat), 2) + pad_zeros(nat_text(t.date.day as nat), 2);
    let dc = dc_letter(t.debit_credit);
    let am = comma_amount(t.amount);
    lemma_comma_amount(t.amount);
    lemma_letter_read_back(t.debit_credit);
    let tail = "NTRF//"@ + t.reference;
    let line = entry_text(t);
    assert(line =~= ":61:"@ + vd + md + dc + am + tail);
    let c = line.skip(4);
    assert(c =~= vd + md + dc + am + tail);
    assert(c.take(6) =~= vd);
    assert(c.subrange(6, 10) =~= md);
    assert(c[8] == md[2]);
    assert(mt940_entry_date(md, v.year as int) == Some(t.date)) by {
        assert(md[0] == pad_zeros(nat_text(t.date.month as nat), 2)[0]);
        assert(md[1] == pad_zeros(nat_text(t.date.month as nat), 2)[1]);
        assert(md[2] == pad_zeros(nat_text(t.date.day as nat), 2)[0]);
        assert(md[3] == pad_zeros(nat_text(t.date.day as nat), 2)[1]);
        assert(two_digit_value(md, 0) == t.date.month);
        assert(two_digit_value(md, 2) == t.date.day);
        assert(all_digits(md, 0, 4));
    }
    assert(seq![c[10]] =~= dc);
    let rest = c.skip(11);
    assert(rest =~= am + "NTRF//"@ + t.reference);
    lemma_amount_and_reference(t.amount, t.reference);
    assert(line.len() >= 10);
    assert(mt940_date(c.take(6)) == Some(v));
    assert(c.len() > 10 && is_digit(c[8]));
    assert(dc_of_name(upper_of(seq![c[10]])) == Some(t.debit_credit));
    assert(first_alpha(rest, 0) == am.len());
    assert(replace_char(rest.take(am.len() as int), ',', '.') == amount_text(t.amount));
    let r = transaction_of_line(line, currency);
    assert(r is Ok);
    let x = r->Ok_0;
    assert(x.amount == t.amount);
    assert(x.date == t.date);
    assert(x.reference == t.reference);
}

/// After the D/C letter of a `:61:` line come the amount, up to the first
/// letter, and the reference after the last `//`.
proof fn lemma_amount_and_reference(a: Amount, reference: Seq<char>)
    requires
        reference.len() > 0,
        trim(reference) == reference,
        !has_separator(reference),
        ascii_alphabetic_known(),
    ensures
        ({
            let am = comma_amount(a);
            let rest = am + "NTRF//"@ + reference;
            let e = first_alpha(rest, 0);
            &&& e == am.len()
            &&& rest.take(e) == am
            &&& trim(last_segment(rest.skip(e))) == reference
        }),
{
    reveal_strlit("NTRF//");
    let am = comma_amount(a);
    lemma_comma_amount(a);
    let tail = "NTRF//"@ + reference;
    let rest = am + tail;
    assert forall|j: int| 0 <= j < am.len() implies !is_alpha(#[trigger] rest[j]) by {
        assert(rest[j] == am[j]);
        assert((rest[j] as u32) < 0x80);
    }
    assert(rest[am.len() as int] == 'N');
    assert(is_alpha(rest[am.len() as int])) by {
        assert(('N' as u32) < 0x80);
    }
    lemma_first_alpha_at(rest, 0, am.len() as int);
    assert(rest.take(am.len() as int) =~= am);
    assert(rest.skip(am.len() as int) =~= tail);
    assert(segment_start(tail, 0, 0) == 6) by {
        assert(tail[0] == 'N' && tail[1] == 'T' && tail[2] == 'R' && tail[3] == 'F');
        assert(tail[4] == '/' && tail[5] == '/');
        assert(segment_start(tail, 4, 0) == segment_start(tail, 6, 6));
        assert(segment_start(tail, 3, 0) == segment_start(tail, 4, 0));
        assert(segment_start(tail, 2, 0) == segment_start(tail, 3, 0));
        assert(segment_start(tail, 1, 0) == segment_start(tail, 2, 0));
        assert(segment_start(tail, 0, 0) == segment_start(tail, 1, 0));
        assert forall|j: int| 6 <= j && j + 1 < tail.len() implies !(#[trigger] tail[j] == '/'
            && tail[j + 1] == '/') by {
            assert(tail[j] == reference[j - 6]);
            assert(tail[j + 1] == reference[j - 5]);
        }
        lemma_no_separator(tail, 6, 6);
    }
    assert(last_segment(tail) =~= reference);
    assert(am + "NTRF//"@ + reference =~= rest);
}

} // verus!
