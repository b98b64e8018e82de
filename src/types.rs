//! The canonical statement model shared by every codec.

use vstd::prelude::*;
use crate::text::{is_text, nat_text, pad_zeros, text_with, to_upper, upper_of};

verus! {

/// The smallest year that a calendar date may carry.
pub const MIN_YEAR: i32 = -262143;

/// The largest year that a calendar date may carry.
pub const MAX_YEAR: i32 = 262142;

/// Leap years of the proleptic Gregorian calendar.
pub open spec fn is_leap_year(y: int) -> bool {
    y % 4 == 0 && (y % 100 != 0 || y % 400 == 0)
}

/// The number of days of month `m` in year `y`.
pub open spec fn days_in_month(y: int, m: int) -> int {
    if m == 2 {
        if is_leap_year(y) { 29 } else { 28 }
    } else if m == 4 || m == 6 || m == 9 || m == 11 {
        30
    } else {
        31
    }
}

/// Whether year, month and day name a day of the calendar.
pub open spec fn valid_ymd(y: int, m: int, d: int) -> bool {
    &&& MIN_YEAR <= y <= MAX_YEAR
    &&& 1 <= m <= 12
    &&& 1 <= d <= days_in_month(y, m)
}

/// Relies on `chrono::NaiveDate::from_ymd_opt`: it gives a date exactly when
/// the year lies in its range and the month and day exist in that year.
#[verifier::external_body]
fn ymd_exists(year: i32, month: u32, day: u32) -> (r: bool)
    ensures
        r == valid_ymd(year as int, month as int, day as int),
{
    chrono::NaiveDate::from_ymd_opt(year, month, day).is_some()
}

/// A calendar date.
#[derive(Debug, Clone, Copy, PartialEq, Eq, Structural)]
pub struct Date {
    pub year: i32,
    pub month: u32,
    pub day: u32,
}

impl Date {
    /// The date is a day of the calendar.
    pub open spec fn wf(self) -> bool {
        valid_ymd(self.year as int, self.month as int, self.day as int)
    }

    /// Whether the date is a day of the calendar.
    pub fn is_valid(&self) -> (r: bool)
        ensures
            r == self.wf(),
    {
        ymd_exists(self.year, self.month, self.day)
    }

    /// The date of the given year, month and day, if that day exists.
    pub fn new(year: i32, month: u32, day: u32) -> (r: Option<Date>)
        ensures
            r is Some <==> valid_ymd(year as int, month as int, day as int),
            r matches Some(d) ==> d.year == year && d.month == month && d.day == day,
    {
        if ymd_exists(year, month, day) {
            Some(Date { year, month, day })
        } else {
            None
        }
    }
}

/// The largest magnitude of a decimal mantissa: 96 bits.
pub const MAX_MANTISSA: i128 = 79228162514264337593543950335;

/// The largest number of fractional digits of a decimal.
pub const MAX_SCALE: u32 = 28;

/// An exact decimal number: `mantissa / 10^scale`.
#[derive(Debug, Clone, Copy, PartialEq, Eq, Structural)]
pub struct Amount {
    pub mantissa: i128,
    pub scale: u32,
}


/// `10^n`.
pub open spec fn pow10(n: nat) -> int
    decreases n,
{
    if n == 0 {
        1
    } else {
        10 * pow10((n - 1) as nat)
    }
}

/// The absolute value of `x`.
pub open spec fn abs(x: int) -> nat {
    if x < 0 {
        (-x) as nat
    } else {
        x as nat
    }
}

/// The decimal text of an amount: a minus sign when it is negative, the
/// whole part, and when the scale is positive a point and exactly `scale`
/// fractional digits.
pub open spec fn amount_text(a: Amount) -> Seq<char> {
    let m: int = abs(a.mantissa as int) as int;
    let p = pow10(a.scale as nat);
    let sign = if a.mantissa < 0 { "-"@ } else { Seq::<char>::empty() };
    let whole = nat_text((m / p) as nat);
    if a.scale == 0 {
        sign + whole
    } else {
        sign + whole + seq!['.'] + pad_zeros(nat_text((m % p) as nat), a.scale as nat)
    }
}

/// Whether two amounts are the same number.
pub open spec fn same_value(a: Amount, b: Amount) -> bool {
    a.mantissa * pow10(b.scale as nat) == b.mantissa * pow10(a.scale as nat)
}

/// The mantissa and scale of the decimal that a text parses to, if any.
pub uninterp spec fn decimal_parse(s: Seq<char>) -> Option<(int, int)>;

/// Relies on `rust_decimal::Decimal::from_str`: a text parses to at most one
/// decimal, whose mantissa fits in 96 bits and whose scale is at most 28.
#[verifier::external_body]
pub(crate) fn parse_decimal(s: &str) -> (r: Option<Amount>)
    ensures
        r is Some <==> decimal_parse(s@) is Some,
        r matches Some(a) ==> a.wf() && decimal_parse(s@) == Some(
            (a.mantissa as int, a.scale as int),
        ),
{
    match <rust_decimal::Decimal as core::str::FromStr>::from_str(s) {
        Ok(d) => Some(Amount { mantissa: d.mantissa(), scale: d.scale() }),
        Err(_) => None,
    }
}

impl Amount {
    /// The mantissa fits in 96 bits and the scale is at most 28.
    pub open spec fn wf(self) -> bool {
        &&& -MAX_MANTISSA <= self.mantissa <= MAX_MANTISSA
        &&& self.scale <= MAX_SCALE
    }

    /// Whether the mantissa fits in 96 bits and the scale is at most 28.
    pub fn is_valid(&self) -> (r: bool)
        ensures
            r == self.wf(),
    {
        -MAX_MANTISSA <= self.mantissa && self.mantissa <= MAX_MANTISSA && self.scale <= MAX_SCALE
    }

    /// The decimal text of the amount.
    pub fn to_string(&self) -> (r: String)
        requires
            self.wf(),
        ensures
            r@ == amount_text(*self),
    {
        render_amount(*self)
    }
}

/// Relies on `rust_decimal::Decimal::from_i128_with_scale` and the decimal's
/// `Display`: the digits of the mantissa with the point placed by the scale.
#[verifier::external_body]
pub(crate) fn render_amount(a: Amount) -> (r: String)
    requires
        a.wf(),
    ensures
        r@ == amount_text(a),
{
    rust_decimal::Decimal::from_i128_with_scale(a.mantissa, a.scale).to_string()
}

/// Relies on `rust_decimal::Decimal`'s `==`: equality of the numbers, whatever
/// their scales.
#[verifier::external_body]
pub(crate) fn amounts_equal(a: Amount, b: Amount) -> (r: bool)
    requires
        a.wf(),
        b.wf(),
    ensures
        r == same_value(a, b),
{
    rust_decimal::Decimal::from_i128_with_scale(a.mantissa, a.scale)
        == rust_decimal::Decimal::from_i128_with_scale(b.mantissa, b.scale)
}

/// The year as `chrono` writes it: four digits within 0..=9999, else a sign
/// and at least four digits.
pub open spec fn year_text(y: int) -> Seq<char> {
    if 0 <= y <= 9999 {
        pad_zeros(nat_text(y as nat), 4)
    } else if y < 0 {
        "-"@ + pad_zeros(nat_text(abs(y)), 4)
    } else {
        "+"@ + pad_zeros(nat_text(y as nat), 4)
    }
}

/// A date written `YYYY-MM-DD`.
pub open spec fn date_text(d: Date) -> Seq<char> {
    year_text(d.year as int) + "-"@ + pad_zeros(nat_text(d.month as nat), 2) + "-"@ + pad_zeros(
        nat_text(d.day as nat),
        2,
    )
}

/// Relies on `chrono::NaiveDate`'s `Display`: the year, month and day as
/// `date_text` writes them.
#[verifier::external_body]
pub(crate) fn render_date(d: Date) -> (r: String)
    requires
        d.wf(),
    ensures
        r@ == date_text(d),
{
    chrono::NaiveDate::from_ymd_opt(d.year, d.month, d.day).unwrap().to_string()
}

/// The year, month and day that a text parses to under a `chrono` date
/// pattern, if any.
pub uninterp spec fn date_parsed(s: Seq<char>, pattern: Seq<char>) -> Option<(int, int, int)>;

/// The date of the date-time that a text parses to under a `chrono`
/// date-time pattern, if any.
pub uninterp spec fn datetime_parsed(s: Seq<char>, pattern: Seq<char>) -> Option<(int, int, int)>;

/// The date of a year-month-day triple.
pub open spec fn date_of_triple(t: Option<(int, int, int)>) -> Option<Date> {
    match t {
        Some(v) => Some(Date { year: v.0 as i32, month: v.1 as u32, day: v.2 as u32 }),
        None => None,
    }
}

/// Relies on `chrono::NaiveDate::parse_from_str`: the result depends on the
/// text and the pattern alone, and is a valid date.
#[verifier::external_body]
pub(crate) fn parse_date_with(s: &str, pattern: &str) -> (r: Option<Date>)
    ensures
        r == date_of_triple(date_parsed(s@, pattern@)),
        r matches Some(d) ==> d.wf(),
{
    match chrono::NaiveDate::parse_from_str(s, pattern) {
        Ok(d) => Some(Date {
            year: chrono::Datelike::year(&d),
            month: chrono::Datelike::month(&d),
            day: chrono::Datelike::day(&d),
        }),
        Err(_) => None,
    }
}

/// Relies on `chrono::NaiveDateTime::parse_from_str` and the date part of
/// its result: the result depends on the text and the pattern alone, and is
/// a valid date.
#[verifier::external_body]
pub(crate) fn parse_datetime_date_with(s: &str, pattern: &str) -> (r: Option<Date>)
    ensures
        r == date_of_triple(datetime_parsed(s@, pattern@)),
        r matches Some(d) ==> d.wf(),
{
    match chrono::NaiveDateTime::parse_from_str(s, pattern) {
        Ok(t) => Some(Date {
            year: chrono::Datelike::year(&t),
            month: chrono::Datelike::month(&t),
            day: chrono::Datelike::day(&t),
        }),
        Err(_) => None,
    }
}

/// A date written `DD.MM.YYYY`.
pub open spec fn dmy_text(d: Date) -> Seq<char> {
    pad_zeros(nat_text(d.day as nat), 2) + "."@ + pad_zeros(nat_text(d.month as nat), 2) + "."@
        + year_text(d.year as int)
}

/// Relies on `chrono::NaiveDate::format` with the pattern `%d.%m.%Y`, the
/// one pattern it is given here: two-digit day and month, and the year as
/// `%Y` writes it (four digits within 0..=9999, else a sign and at least
/// four digits).
#[verifier::external_body]
pub(crate) fn format_date_with(d: Date, pattern: &str) -> (r: String)
    requires
        d.wf(),
        pattern@ == "%d.%m.%Y"@,
    ensures
        r@ == dmy_text(d),
{
    chrono::NaiveDate::from_ymd_opt(d.year, d.month, d.day).unwrap().format(pattern).to_string()
}

/// Relies on `chrono::Utc::now` and `DateTime::timestamp`: the seconds since
/// the Unix epoch, some number.
#[verifier::external_body]
pub(crate) fn unix_time() -> (r: i64) {
    chrono::Utc::now().timestamp()
}

/// Relies on `chrono::Utc::now`: today's date in UTC, some valid date.
#[verifier::external_body]
pub(crate) fn today() -> (r: Date)
    ensures
        r.wf(),
{
    let d = chrono::Utc::now().date_naive();
    Date {
        year: chrono::Datelike::year(&d),
        month: chrono::Datelike::month(&d),
        day: chrono::Datelike::day(&d),
    }
}

/// Whether a movement of money goes out of (debit) or into (credit) the account.
#[derive(Debug, Clone, Copy, PartialEq, Eq, Structural)]
pub enum DebitCredit {
    /// Outgoing.
    Debit,
    /// Incoming.
    Credit,
}

/// The indicator that an upper-case name stands for, if any.
pub open spec fn dc_of_name(s: Seq<char>) -> Option<DebitCredit> {
    if s == "D"@ || s == "DBIT"@ || s == "DEBIT"@ {
        Some(DebitCredit::Debit)
    } else if s == "C"@ || s == "CRDT"@ || s == "CREDIT"@ {
        Some(DebitCredit::Credit)
    } else {
        None
    }
}

/// The one-letter rendering of an indicator.
pub open spec fn dc_letter(dc: DebitCredit) -> Seq<char> {
    match dc {
        DebitCredit::Debit => "D"@,
        DebitCredit::Credit => "C"@,
    }
}

/// The ISO 20022 rendering of an indicator.
pub open spec fn dc_iso(dc: DebitCredit) -> Seq<char> {
    match dc {
        DebitCredit::Debit => "DBIT"@,
        DebitCredit::Credit => "CRDT"@,
    }
}

impl DebitCredit {
    /// The indicator named by an upper-case text: `D`, `DBIT`, `DEBIT`,
    /// `C`, `CRDT` or `CREDIT`.
    pub fn from_upper(name: &str) -> (r: Option<DebitCredit>)
        ensures
            r == dc_of_name(name@),
    {
        if is_text(name, "D") || is_text(name, "DBIT") || is_text(name, "DEBIT") {
            Some(DebitCredit::Debit)
        } else if is_text(name, "C") || is_text(name, "CRDT") || is_text(name, "CREDIT") {
            Some(DebitCredit::Credit)
        } else {
            None
        }
    }

    /// The indicator named by `s`, whatever its case.
    pub fn from_str(s: &str) -> (r: Option<DebitCredit>)
        ensures
            r == dc_of_name(upper_of(s@)),
    {
        let up = to_upper(s);
        DebitCredit::from_upper(up.as_str())
    }

    /// `D` or `C`.
    pub fn to_string(&self) -> (r: &'static str)
        ensures
            r@ == dc_letter(*self),
    {
        match self {
            DebitCredit::Debit => "D",
            DebitCredit::Credit => "C",
        }
    }

    /// `DBIT` or `CRDT`.
    pub fn to_iso_format(&self) -> (r: &'static str)
        ensures
            r@ == dc_iso(*self),
    {
        match self {
            DebitCredit::Debit => "DBIT",
            DebitCredit::Credit => "CRDT",
        }
    }
}

impl core::str::FromStr for DebitCredit {
    type Err = String;

    fn from_str(s: &str) -> Result<DebitCredit, String> {
        match DebitCredit::from_str(s) {
            Some(dc) => Ok(dc),
            None => Err(text_with("Invalid debit/credit indicator: ", crate::text::chars_of(s).as_slice())),
        }
    }
}

/// The role of a balance within a statement.
#[derive(Debug, Clone, Copy, PartialEq, Eq, Structural)]
pub enum BalanceType {
    Opening,
    Closing,
    Intermediate,
    ForwardAvailable,
}

/// A balance of the account on a date.
#[derive(Debug, Clone, PartialEq)]
pub struct Balance {
    pub balance_type: BalanceType,
    pub amount: Amount,
    pub currency: String,
    pub debit_credit: DebitCredit,
    pub date: Date,
}

/// One entry of the ledger.
#[derive(Debug, Clone, PartialEq)]
pub struct Transaction {
    /// Reference of the entry; never empty once parsed.
    pub reference: String,
    /// Booking date.
    pub date: Date,
    /// Settlement date.
    pub value_date: Option<Date>,
    /// Magnitude of the movement; the direction is `debit_credit`.
    pub amount: Amount,
    pub currency: String,
    pub debit_credit: DebitCredit,
    pub account: Option<String>,
    pub counterparty_account: Option<String>,
    pub counterparty_name: Option<String>,
    /// BIC of the counterparty's bank.
    pub bank_identifier: Option<String>,
    pub description: String,
    pub additional_info: Option<String>,
}

/// One account statement for a period.
#[derive(Debug, Clone, PartialEq)]
pub struct Statement {
    pub statement_id: String,
    pub account: String,
    pub sequence_number: Option<String>,
    pub account_holder: Option<String>,
    pub opening_balance: Option<Balance>,
    pub closing_balance: Option<Balance>,
    /// Entries in document order.
    pub transactions: Vec<Transaction>,
    pub currency: String,
    pub creation_date: Option<Date>,
    pub from_date: Option<Date>,
    pub to_date: Option<Date>,
}

impl Statement {
    /// A statement with the given identity and no other content.
    pub fn new(statement_id: String, account: String, currency: String) -> (r: Statement)
        ensures
            r.statement_id == statement_id,
            r.account == account,
            r.currency == currency,
            r.sequence_number is None,
            r.account_holder is None,
            r.opening_balance is None,
            r.closing_balance is None,
            r.transactions@.len() == 0,
            r.creation_date is None,
            r.from_date is None,
            r.to_date is None,
    {
        Statement {
            statement_id,
            account,
            sequence_number: None,
            account_holder: None,
            opening_balance: None,
            closing_balance: None,
            transactions: Vec::new(),
            currency,
            creation_date: None,
            from_date: None,
            to_date: None,
        }
    }

    /// Whether every amount and every date of the statement is valid.
    pub fn is_valid(&self) -> (r: bool)
        ensures
            r == self@.wf(),
    {
        let ob = match &self.opening_balance {
            Some(b) => b.amount.is_valid() && b.date.is_valid(),
            None => true,
        };
        let cb = match &self.closing_balance {
            Some(b) => b.amount.is_valid() && b.date.is_valid(),
            None => true,
        };
        let dates = opt_date_valid(self.creation_date) && opt_date_valid(self.from_date)
            && opt_date_valid(self.to_date);
        if !(ob && cb && dates) {
            return false;
        }
        let mut i: usize = 0;
        while i < self.transactions.len()
            invariant
                i <= self.transactions@.len(),
                forall|j: int| 0 <= j < i ==> (#[trigger] self@.transactions[j]).wf(),
            decreases self.transactions@.len() - i,
        {
            let t = &self.transactions[i];
            assert(self@.transactions[i as int] == t@);
            if !(t.amount.is_valid() && t.date.is_valid() && opt_date_valid(t.value_date)) {
                return false;
            }
            i = i + 1;
        }
        true
    }

    /// Appends `transaction` after the statement's entries.
    pub fn add_transaction(&mut self, transaction: Transaction)
        ensures
            final(self).transactions@ == old(self).transactions@.push(transaction),
            final(self).statement_id == old(self).statement_id,
            final(self).account == old(self).account,
            final(self).sequence_number == old(self).sequence_number,
            final(self).account_holder == old(self).account_holder,
            final(self).opening_balance == old(self).opening_balance,
            final(self).closing_balance == old(self).closing_balance,
            final(self).currency == old(self).currency,
            final(self).creation_date == old(self).creation_date,
            final(self).from_date == old(self).from_date,
            final(self).to_date == old(self).to_date,
    {
        self.transactions.push(transaction);
    }
}

/// The text of an optional string.
pub open spec fn opt_text(o: Option<String>) -> Option<Seq<char>> {
    match o {
        Some(s) => Some(s@),
        None => None,
    }
}

/// A balance, with its texts as character sequences.
pub struct BalanceView {
    pub balance_type: BalanceType,
    pub amount: Amount,
    pub currency: Seq<char>,
    pub debit_credit: DebitCredit,
    pub date: Date,
}

impl View for Balance {
    type V = BalanceView;

    open spec fn view(&self) -> BalanceView {
        BalanceView {
            balance_type: self.balance_type,
            amount: self.amount,
            currency: self.currency@,
            debit_credit: self.debit_credit,
            date: self.date,
        }
    }
}

impl BalanceView {
    /// The amount and the date are valid.
    pub open spec fn wf(self) -> bool {
        self.amount.wf() && self.date.wf()
    }
}

impl TransactionView {
    /// The amount and the dates are valid.
    pub open spec fn wf(self) -> bool {
        &&& self.amount.wf()
        &&& self.date.wf()
        &&& (self.value_date matches Some(d) ==> d.wf())
    }
}

impl StatementView {
    /// Every amount and every date is valid.
    pub open spec fn wf(self) -> bool {
        &&& (self.opening_balance matches Some(b) ==> b.wf())
        &&& (self.closing_balance matches Some(b) ==> b.wf())
        &&& (forall|i: int| 0 <= i < self.transactions.len() ==> (#[trigger] self.transactions[i]).wf())
        &&& (self.creation_date matches Some(d) ==> d.wf())
        &&& (self.from_date matches Some(d) ==> d.wf())
        &&& (self.to_date matches Some(d) ==> d.wf())
    }
}

/// Whether an optional date is absent or valid.
fn opt_date_valid(d: Option<Date>) -> (r: bool)
    ensures
        r == (d matches Some(x) ==> x.wf()),
{
    match d {
        Some(x) => x.is_valid(),
        None => true,
    }
}

/// The view of an optional balance.
pub open spec fn opt_balance(o: Option<Balance>) -> Option<BalanceView> {
    match o {
        Some(b) => Some(b@),
        None => None,
    }
}

/// A transaction, with its texts as character sequences.
pub struct TransactionView {
    pub reference: Seq<char>,
    pub date: Date,
    pub value_date: Option<Date>,
    pub amount: Amount,
    pub currency: Seq<char>,
    pub debit_credit: DebitCredit,
    pub account: Option<Seq<char>>,
    pub counterparty_account: Option<Seq<char>>,
    pub counterparty_name: Option<Seq<char>>,
    pub bank_identifier: Option<Seq<char>>,
    pub description: Seq<char>,
    pub additional_info: Option<Seq<char>>,
}

impl View for Transaction {
    type V = TransactionView;

    open spec fn view(&self) -> TransactionView {
        TransactionView {
            reference: self.reference@,
            date: self.date,
            value_date: self.value_date,
            amount: self.amount,
            currency: self.currency@,
            debit_credit: self.debit_credit,
            account: opt_text(self.account),
            counterparty_account: opt_text(self.counterparty_account),
            counterparty_name: opt_text(self.counterparty_name),
            bank_identifier: opt_text(self.bank_identifier),
            description: self.description@,
            additional_info: opt_text(self.additional_info),
        }
    }
}

/// The views of a sequence of transactions.
pub open spec fn transaction_views(s: Seq<Transaction>) -> Seq<TransactionView> {
    s.map_values(|t: Transaction| t@)
}

/// A statement, with its texts as character sequences.
pub struct StatementView {
    pub statement_id: Seq<char>,
    pub account: Seq<char>,
    pub sequence_number: Option<Seq<char>>,
    pub account_holder: Option<Seq<char>>,
    pub opening_balance: Option<BalanceView>,
    pub closing_balance: Option<BalanceView>,
    pub transactions: Seq<TransactionView>,
    pub currency: Seq<char>,
    pub creation_date: Option<Date>,
    pub from_date: Option<Date>,
    pub to_date: Option<Date>,
}

impl View for Statement {
    type V = StatementView;

    open spec fn view(&self) -> StatementView {
        StatementView {
            statement_id: self.statement_id@,
            account: self.account@,
            sequence_number: opt_text(self.sequence_number),
            account_holder: opt_text(self.account_holder),
            opening_balance: opt_balance(self.opening_balance),
            closing_balance: opt_balance(self.closing_balance),
            transactions: transaction_views(self.transactions@),
            currency: self.currency@,
            creation_date: self.creation_date,
            from_date: self.from_date,
            to_date: self.to_date,
        }
    }
}

/// A copy of a text.
pub fn copy_text(s: &String) -> (r: String)
    ensures
        r@ == s@,
{
    s.clone()
}

/// A copy of an optional text.
pub fn copy_opt_text(o: &Option<String>) -> (r: Option<String>)
    ensures
        opt_text(r) == opt_text(*o),
{
    match o {
        Some(s) => Some(s.clone()),
        None => None,
    }
}

} // verus!
