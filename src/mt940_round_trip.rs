//! The round trip of the line format: a statement that the format can
//! carry is decoded from its document exactly as it was.

use vstd::prelude::*;
use crate::error::ErrorView;
use crate::mt940_format::{
    amount_reads_back, ascii_alphabetic_known, balance_line, balance_of_line, balance_text,
    description_line, entry_line, entry_text, flush, transaction_of_line, has_separator, header_text, initial_scan,
    lemma_balance_line_round_trip, lemma_entry_line_round_trip, letters_stay, mt940_of_lines,
    mt940_text, scan, scan_line, statement_of_scan, transactions_text, ScanState,
};
use crate::text::{
    is_digit, lemma_no_newline_concat, lemma_split_line, lemma_trimmed_ends, lines_of,
    nat_text, no_newline, pad_zeros, plain_line, split_state, starts_with, trim,
};
use crate::mt940_format::{comma_amount, lemma_comma_amount, lemma_two_digits, mt940_date_text};
use crate::types::{abs, dc_letter, Date, DebitCredit};
use crate::types::{BalanceType, BalanceView, StatementView, TransactionView};

verus! {

/// The first line of every document, without its line feed.
pub open spec fn header_line() -> Seq<char> {
    "{1:F01BANKXXXXAXXX0000000000}{2:I940BANKXXXXAXXXXN}{4:"@
}

/// The lines that the entries of a statement take, in order.
pub open spec fn entry_lines(ts: Seq<TransactionView>) -> Seq<Seq<char>>
    decreases ts.len(),
{
    if ts.len() == 0 {
        Seq::empty()
    } else {
        entry_lines(ts.drop_last()) + seq![entry_text(ts.last())] + if ts.last().description.len()
            == 0 {
            Seq::<Seq<char>>::empty()
        } else {
            seq![":86:"@ + ts.last().description]
        }
    }
}

/// The lines of the document of a statement, without their line feeds.
pub open spec fn document_lines(s: StatementView) -> Seq<Seq<char>> {
    seq![header_line(), ":20:"@ + s.statement_id, ":25:"@ + s.account] + (match s.sequence_number {
        Some(n) => seq![":28C:"@ + n],
        None => Seq::empty(),
    }) + (match s.opening_balance {
        Some(b) => seq![balance_text(":60"@, BalanceType::Opening, b)],
        None => Seq::empty(),
    }) + entry_lines(s.transactions) + (match s.closing_balance {
        Some(b) => seq![balance_text(":62"@, BalanceType::Closing, b)],
        None => Seq::empty(),
    }) + seq!["-}"@]
}

/// A text that holds no line feed and is its own trim.
pub open spec fn one_line(t: Seq<char>) -> bool {
    &&& forall|i: int| 0 <= i < t.len() ==> #[trigger] t[i] != '\n'
    &&& trim(t) == t
}

/// A balance that the line format carries under the given type.
pub open spec fn line_balance(b: BalanceView, balance_type: BalanceType) -> bool {
    &&& b.balance_type == balance_type
    &&& 1950 <= b.date.year <= 2049
    &&& b.currency.len() == 3
    &&& forall|i: int| 0 <= i < b.currency.len() ==> #[trigger] b.currency[i] != '\n'
}

/// A transaction that the line format carries in a statement of the given
/// currency.
pub open spec fn line_transaction(t: TransactionView, currency: Seq<char>) -> bool {
    &&& t.value_date matches Some(v) && v.year == t.date.year
    &&& 1950 <= t.date.year <= 2049
    &&& t.currency == currency
    &&& t.reference.len() > 0
    &&& one_line(t.reference)
    &&& !has_separator(t.reference)
    &&& one_line(t.description)
    &&& t.account is None
    &&& t.counterparty_account is None
    &&& t.counterparty_name is None
    &&& t.bank_identifier is None
    &&& t.additional_info is None
}

/// What the line format carries of a statement: one-line identifier,
/// account and sequence number, an opening balance that gives the
/// statement's currency, dates from 1950 to 2049, no account holder or
/// statement dates, and transactions as `line_transaction` says. When the
/// last transaction has a description, a closing balance must follow it:
/// the `:86:` field would otherwise run on into the trailer line.
pub open spec fn carried_by_line(s: StatementView) -> bool {
    &&& s.statement_id.len() > 0
    &&& one_line(s.statement_id)
    &&& s.account.len() > 0
    &&& one_line(s.account)
    &&& (s.sequence_number matches Some(n) ==> one_line(n))
    &&& s.account_holder is None
    &&& s.creation_date is None
    &&& s.from_date is None
    &&& s.to_date is None
    &&& s.opening_balance matches Some(b) && line_balance(b, BalanceType::Opening) && b.currency
        == s.currency
    &&& (s.closing_balance matches Some(b) ==> line_balance(b, BalanceType::Closing))
    &&& forall|i: int|
        0 <= i < s.transactions.len() ==> line_transaction(#[trigger] s.transactions[i], s.currency)
    &&& (s.closing_balance is None && s.transactions.len() > 0 ==> s.transactions.last().description.len()
        == 0)
}

/// The outside parsers read back the indicator letters, tell ASCII
/// letters, and read back every amount of the statement.
pub open spec fn line_texts_read_back(s: StatementView) -> bool {
    &&& letters_stay()
    &&& ascii_alphabetic_known()
    &&& (s.opening_balance matches Some(b) ==> amount_reads_back(b.amount))
    &&& (s.closing_balance matches Some(b) ==> amount_reads_back(b.amount))
    &&& forall|i: int|
        0 <= i < s.transactions.len() ==> amount_reads_back(#[trigger] s.transactions[i].amount)
}

/// A line that differs from a tag at some position inside the tag does not
/// begin with it.
proof fn lemma_not_prefix(l: Seq<char>, p: Seq<char>, k: int)
    requires
        0 <= k < p.len(),
        k < l.len() ==> l[k] != p[k],
    ensures
        !starts_with(l, p),
{
    if starts_with(l, p) {
        assert(l.subrange(0, p.len() as int)[k] == l[k]);
    }
}

/// A line made of a tag and a rest begins with the tag, and the rest
/// follows it.
proof fn lemma_prefix(p: Seq<char>, rest: Seq<char>)
    ensures
        starts_with(p + rest, p),
        (p + rest).skip(p.len() as int) == rest,
{
    assert((p + rest).subrange(0, p.len() as int) =~= p);
    assert((p + rest).skip(p.len() as int) =~= rest);
}

/// The `YYMMDD` text of a date from 1950 to 2049 has no line feed.
proof fn lemma_date_text_nn(d: Date)
    requires
        1950 <= d.year <= 2049,
        1 <= d.month <= 12,
        1 <= d.day <= 31,
    ensures
        no_newline(mt940_date_text(d)),
{
    let r = (abs(d.year as int) % 100) as nat;
    lemma_two_digits(r);
    lemma_two_digits(d.month as nat);
    lemma_two_digits(d.day as nat);
    let a = pad_zeros(nat_text(r), 2);
    let b = pad_zeros(nat_text(d.month as nat), 2);
    let c = pad_zeros(nat_text(d.day as nat), 2);
    assert(no_newline(a)) by {
        assert forall|i: int| 0 <= i < a.len() implies #[trigger] a[i] != '\n' by {
            assert(is_digit(a[i]));
        }
    }
    assert(no_newline(b)) by {
        assert forall|i: int| 0 <= i < b.len() implies #[trigger] b[i] != '\n' by {
            assert(is_digit(b[i]));
        }
    }
    assert(no_newline(c)) by {
        assert forall|i: int| 0 <= i < c.len() implies #[trigger] c[i] != '\n' by {
            assert(is_digit(c[i]));
        }
    }
    lemma_no_newline_concat(a, b);
    lemma_no_newline_concat(a + b, c);
}

/// The pieces of the month and day of a date have no line feed.
proof fn lemma_month_day_nn(d: Date)
    requires
        1 <= d.month <= 12,
        1 <= d.day <= 31,
    ensures
        no_newline(pad_zeros(nat_text(d.month as nat), 2)),
        no_newline(pad_zeros(nat_text(d.day as nat), 2)),
{
    lemma_two_digits(d.month as nat);
    lemma_two_digits(d.day as nat);
    let b = pad_zeros(nat_text(d.month as nat), 2);
    let c = pad_zeros(nat_text(d.day as nat), 2);
    assert forall|i: int| 0 <= i < b.len() implies #[trigger] b[i] != '\n' by {
        assert(is_digit(b[i]));
    }
    assert forall|i: int| 0 <= i < c.len() implies #[trigger] c[i] != '\n' by {
        assert(is_digit(c[i]));
    }
}

/// The amount of a line has no line feed and ends with a digit.
proof fn lemma_amount_nn(a: crate::types::Amount)
    ensures
        no_newline(comma_amount(a)),
        comma_amount(a).len() > 0,
        is_digit(comma_amount(a).last()),
{
    lemma_comma_amount(a);
    let t = comma_amount(a);
    assert forall|i: int| 0 <= i < t.len() implies #[trigger] t[i] != '\n' by {
        assert(t[i] == ',' || t[i] == '-' || is_digit(t[i]));
    }
    crate::csv_format::lemma_amount_chars(a);
    assert(t.last() == crate::types::amount_text(a).last());
}

/// The letter of an indicator has no line feed.
proof fn lemma_letter_nn(dc: DebitCredit)
    ensures
        no_newline(dc_letter(dc)),
{
    reveal_strlit("D");
    reveal_strlit("C");
    assert forall|i: int| 0 <= i < dc_letter(dc).len() implies #[trigger] dc_letter(dc)[i] != '\n' by {}
}

/// A short tag has no line feed.
proof fn lemma_tags_nn()
    ensures
        no_newline(":20:"@),
        no_newline(":25:"@),
        no_newline(":28C:"@),
        no_newline(":60"@),
        no_newline(":62"@),
        no_newline(":61:"@),
        no_newline(":86:"@),
        no_newline(":"@),
        no_newline("F"@),
        no_newline("M"@),
        no_newline("NTRF//"@),
        no_newline("-}"@),
        no_newline(header_line()),
        header_line().last() != '\r',
        header_line().len() > 0,
        header_line()[0] == '{',
{
    reveal_strlit(":20:");
    reveal_strlit(":25:");
    reveal_strlit(":28C:");
    reveal_strlit(":60");
    reveal_strlit(":62");
    reveal_strlit(":61:");
    reveal_strlit(":86:");
    reveal_strlit(":");
    reveal_strlit("F");
    reveal_strlit("M");
    reveal_strlit("NTRF//");
    reveal_strlit("-}");
    reveal_strlit("{1:F01BANKXXXXAXXX0000000000}{2:I940BANKXXXXAXXXXN}{4:");
    assert forall|i: int| 0 <= i < ":20:"@.len() implies #[trigger] ":20:"@[i] != '\n' by {}
    assert forall|i: int| 0 <= i < ":25:"@.len() implies #[trigger] ":25:"@[i] != '\n' by {}
    assert forall|i: int| 0 <= i < ":28C:"@.len() implies #[trigger] ":28C:"@[i] != '\n' by {}
    assert forall|i: int| 0 <= i < ":60"@.len() implies #[trigger] ":60"@[i] != '\n' by {}
    assert forall|i: int| 0 <= i < ":62"@.len() implies #[trigger] ":62"@[i] != '\n' by {}
    assert forall|i: int| 0 <= i < ":61:"@.len() implies #[trigger] ":61:"@[i] != '\n' by {}
    assert forall|i: int| 0 <= i < ":86:"@.len() implies #[trigger] ":86:"@[i] != '\n' by {}
    assert forall|i: int| 0 <= i < ":"@.len() implies #[trigger] ":"@[i] != '\n' by {}
    assert forall|i: int| 0 <= i < "F"@.len() implies #[trigger] "F"@[i] != '\n' by {}
    assert forall|i: int| 0 <= i < "M"@.len() implies #[trigger] "M"@[i] != '\n' by {}
    assert forall|i: int| 0 <= i < "NTRF//"@.len() implies #[trigger] "NTRF//"@[i] != '\n' by {}
    assert forall|i: int| 0 <= i < "-}"@.len() implies #[trigger] "-}"@[i] != '\n' by {}
    assert forall|i: int| 0 <= i < header_line().len() implies #[trigger] header_line()[i] != '\n' by {}
}

/// The text of a balance line is a plain line.
proof fn lemma_balance_text_plain(tag: Seq<char>, final_type: BalanceType, b: BalanceView, t: BalanceType)
    requires
        no_newline(tag),
        line_balance(b, t),
        b.wf(),
    ensures
        plain_line(balance_text(tag, final_type, b)),
{
    lemma_tags_nn();
    lemma_letter_nn(b.debit_credit);
    lemma_date_text_nn(b.date);
    lemma_amount_nn(b.amount);
    let x = if b.balance_type == final_type {
        "F"@
    } else {
        "M"@
    };
    let w1 = tag + x;
    lemma_no_newline_concat(tag, x);
    let w2 = w1 + ":"@;
    lemma_no_newline_concat(w1, ":"@);
    let w3 = w2 + dc_letter(b.debit_credit);
    lemma_no_newline_concat(w2, dc_letter(b.debit_credit));
    let w4 = w3 + mt940_date_text(b.date);
    lemma_no_newline_concat(w3, mt940_date_text(b.date));
    let w5 = w4 + b.currency;
    lemma_no_newline_concat(w4, b.currency);
    lemma_no_newline_concat(w5, comma_amount(b.amount));
    let l = balance_text(tag, final_type, b);
    assert(l == w5 + comma_amount(b.amount));
    assert(l.last() == comma_amount(b.amount).last());
}

/// The text of an entry line is a plain line.
proof fn lemma_entry_text_plain(t: TransactionView, currency: Seq<char>)
    requires
        line_transaction(t, currency),
        t.wf(),
    ensures
        plain_line(entry_text(t)),
{
    lemma_tags_nn();
    let v = t.value_date->Some_0;
    lemma_letter_nn(t.debit_credit);
    lemma_date_text_nn(v);
    lemma_month_day_nn(t.date);
    lemma_amount_nn(t.amount);
    let m = pad_zeros(nat_text(t.date.month as nat), 2);
    let d = pad_zeros(nat_text(t.date.day as nat), 2);
    let w1 = ":61:"@ + mt940_date_text(v);
    lemma_no_newline_concat(":61:"@, mt940_date_text(v));
    let w2 = w1 + m;
    lemma_no_newline_concat(w1, m);
    let w3 = w2 + d;
    lemma_no_newline_concat(w2, d);
    let w4 = w3 + dc_letter(t.debit_credit);
    lemma_no_newline_concat(w3, dc_letter(t.debit_credit));
    let w5 = w4 + comma_amount(t.amount);
    lemma_no_newline_concat(w4, comma_amount(t.amount));
    let w6 = w5 + "NTRF//"@;
    lemma_no_newline_concat(w5, "NTRF//"@);
    lemma_no_newline_concat(w6, t.reference);
    let l = entry_text(t);
    assert(l == w6 + t.reference);
    lemma_trimmed_ends(t.reference);
    assert(l.last() == t.reference.last());
}

/// A tag followed by a one-line text is a plain line.
proof fn lemma_tagged_plain(tag: Seq<char>, text: Seq<char>)
    requires
        no_newline(tag),
        tag.len() > 0,
        tag.last() == ':',
        one_line(text),
    ensures
        plain_line(tag + text),
{
    lemma_no_newline_concat(tag, text);
    if text.len() > 0 {
        lemma_trimmed_ends(text);
        assert((tag + text).last() == text.last());
    } else {
        assert(tag + text =~= tag);
    }
}

/// The lines of the entries follow the lines before them.
proof fn lemma_entries_split(p: Seq<char>, ts: Seq<TransactionView>, currency: Seq<char>)
    requires
        split_state(p).1 == Seq::<char>::empty(),
        forall|i: int|
            0 <= i < ts.len() ==> line_transaction(#[trigger] ts[i], currency) && ts[i].wf(),
    ensures
        split_state(p + transactions_text(ts)) == (
            split_state(p).0 + entry_lines(ts),
            Seq::<char>::empty(),
        ),
    decreases ts.len(),
{
    reveal_strlit(":86:");
    reveal_strlit("\n");
    if ts.len() == 0 {
        assert(p + transactions_text(ts) =~= p);
        assert(split_state(p).0 + entry_lines(ts) =~= split_state(p).0);
    } else {
        let pre = ts.drop_last();
        let t = ts.last();
        assert(t == ts[ts.len() - 1]);
        lemma_entries_split(p, pre, currency);
        let q = p + transactions_text(pre);
        lemma_entry_text_plain(t, currency);
        assert(q + entry_line(t) =~= q + (entry_text(t) + "\n"@));
        lemma_split_line(q, entry_text(t));
        let q2 = q + entry_line(t);
        if t.description.len() == 0 {
            assert(description_line(t) =~= Seq::<char>::empty());
            assert(p + transactions_text(ts) =~= q2);
            assert(split_state(p).0 + entry_lines(ts) =~= split_state(p).0 + entry_lines(pre).push(
                entry_text(t),
            ));
        } else {
            lemma_tags_nn();
            lemma_tagged_plain(":86:"@, t.description);
            assert(description_line(t) == (":86:"@ + t.description) + "\n"@);
            lemma_split_line(q2, ":86:"@ + t.description);
            assert(p + transactions_text(ts) =~= q2 + ((":86:"@ + t.description) + "\n"@));
            assert(split_state(p).0 + entry_lines(ts) =~= split_state(p).0 + entry_lines(pre).push(
                entry_text(t),
            ).push(":86:"@ + t.description));
        }
    }
}

/// The lines of the document of a statement that the format carries.
pub proof fn lemma_document_lines(s: StatementView)
    requires
        s.wf(),
        carried_by_line(s),
    ensures
        lines_of(mt940_text(s)) == document_lines(s),
{
    reveal_strlit("{1:F01BANKXXXXAXXX0000000000}{2:I940BANKXXXXAXXXXN}{4:\n");
    reveal_strlit("{1:F01BANKXXXXAXXX0000000000}{2:I940BANKXXXXAXXXXN}{4:");
    reveal_strlit("\n");
    reveal_strlit("-}\n");
    reveal_strlit("-}");
    reveal_strlit(":20:");
    reveal_strlit(":25:");
    reveal_strlit(":28C:");
    lemma_tags_nn();
    let e = Seq::<char>::empty();
    let w0 = header_text();
    assert(w0 =~= e + (header_line() + "\n"@));
    assert(split_state(e) == (Seq::<Seq<char>>::empty(), e));
    lemma_split_line(e, header_line());
    let w1 = w0 + ":20:"@ + s.statement_id + "\n"@;
    assert(w1 =~= w0 + ((":20:"@ + s.statement_id) + "\n"@));
    lemma_tagged_plain(":20:"@, s.statement_id);
    lemma_split_line(w0, ":20:"@ + s.statement_id);
    let w2 = w1 + ":25:"@ + s.account + "\n"@;
    assert(w2 =~= w1 + ((":25:"@ + s.account) + "\n"@));
    lemma_tagged_plain(":25:"@, s.account);
    lemma_split_line(w1, ":25:"@ + s.account);
    let seq_part = match s.sequence_number {
        Some(n) => ":28C:"@ + n + "\n"@,
        None => Seq::empty(),
    };
    let w3 = w2 + seq_part;
    match s.sequence_number {
        Some(n) => {
            lemma_tagged_plain(":28C:"@, n);
            lemma_split_line(w2, ":28C:"@ + n);
        },
        None => {
            assert(w3 =~= w2);
        },
    }
    let b = s.opening_balance->Some_0;
    let w4 = w3 + balance_line(":60"@, BalanceType::Opening, b);
    lemma_balance_text_plain(":60"@, BalanceType::Opening, b, BalanceType::Opening);
    lemma_split_line(w3, balance_text(":60"@, BalanceType::Opening, b));
    assert forall|i: int|
        0 <= i < s.transactions.len() implies line_transaction(
        #[trigger] s.transactions[i],
        s.currency,
    ) && s.transactions[i].wf() by {}
    lemma_entries_split(w4, s.transactions, s.currency);
    let w5 = w4 + transactions_text(s.transactions);
    let close_part = match s.closing_balance {
        Some(c) => balance_line(":62"@, BalanceType::Closing, c),
        None => Seq::empty(),
    };
    let w6 = w5 + close_part;
    match s.closing_balance {
        Some(c) => {
            lemma_balance_text_plain(":62"@, BalanceType::Closing, c, BalanceType::Closing);
            lemma_split_line(w5, balance_text(":62"@, BalanceType::Closing, c));
        },
        None => {
            assert(w6 =~= w5);
        },
    }
    let w7 = w6 + "-}\n"@;
    assert(w7 =~= w6 + ("-}"@ + "\n"@));
    assert(plain_line("-}"@));
    lemma_split_line(w6, "-}"@);
    assert(w7 == mt940_text(s));
    assert(split_state(w7).0 =~= document_lines(s));
}

/// The scan of one more line.
proof fn lemma_scan_push(ls: Seq<Seq<char>>, l: Seq<char>)
    ensures
        scan(ls.push(l)) == match scan(ls) {
            Err(e) => Err(e),
            Ok(st) => scan_line(st, l),
        },
{
    assert(ls.push(l).drop_last() =~= ls);
}

/// A transaction as its `:61:` line gives it, before its description.
pub open spec fn as_entry(t: TransactionView) -> TransactionView {
    TransactionView { description: Seq::empty(), ..t }
}

/// The scan state after the lines of the entries `ts`, from a state with
/// no entry.
pub open spec fn entries_state(st: ScanState, ts: Seq<TransactionView>) -> ScanState {
    if ts.len() == 0 {
        st
    } else {
        ScanState {
            transactions: ts.drop_last(),
            current: Some(as_entry(ts.last())),
            description: ts.last().description,
            in_description: ts.last().description.len() > 0,
            ..st
        }
    }
}

/// The facts about the tags that the dispatch of the scan needs.
proof fn lemma_tag_chars()
    ensures
        ":20:"@.len() == 4 && ":20:"@[0] == ':' && ":20:"@[1] == '2' && ":20:"@[2] == '0',
        ":25:"@.len() == 4 && ":25:"@[0] == ':' && ":25:"@[1] == '2' && ":25:"@[2] == '5',
        ":28C:"@.len() == 5 && ":28C:"@[0] == ':' && ":28C:"@[1] == '2' && ":28C:"@[2] == '8',
        ":60"@.len() == 3 && ":60"@[0] == ':' && ":60"@[1] == '6' && ":60"@[2] == '0',
        ":61:"@.len() == 4 && ":61:"@[0] == ':' && ":61:"@[1] == '6' && ":61:"@[2] == '1',
        ":86:"@.len() == 4 && ":86:"@[0] == ':' && ":86:"@[1] == '8' && ":86:"@[2] == '6',
        ":62"@.len() == 3 && ":62"@[0] == ':' && ":62"@[1] == '6' && ":62"@[2] == '2',
        ":"@.len() == 1 && ":"@[0] == ':',
        "-}"@.len() == 2 && "-}"@[0] == '-',
{
    reveal_strlit(":20:");
    reveal_strlit(":25:");
    reveal_strlit(":28C:");
    reveal_strlit(":60");
    reveal_strlit(":61:");
    reveal_strlit(":86:");
    reveal_strlit(":62");
    reveal_strlit(":");
    reveal_strlit("-}");
}

/// A line that does not begin with `:` leaves a scan outside a description
/// as it is.
proof fn lemma_untagged_line(st: ScanState, l: Seq<char>)
    requires
        !st.in_description,
        l.len() > 0,
        l[0] != ':',
    ensures
        scan_line(st, l) == Ok::<ScanState, ErrorView>(st),
{
    lemma_tag_chars();
    lemma_not_prefix(l, ":20:"@, 0);
    lemma_not_prefix(l, ":25:"@, 0);
    lemma_not_prefix(l, ":28C:"@, 0);
    lemma_not_prefix(l, ":60"@, 0);
    lemma_not_prefix(l, ":61:"@, 0);
    lemma_not_prefix(l, ":86:"@, 0);
    lemma_not_prefix(l, ":62"@, 0);
    assert(ScanState { in_description: false, ..st } == st);
}

/// The scan of an entry line.
proof fn lemma_entry_line_scan(s0: ScanState, t: TransactionView)
    requires
        line_transaction(t, s0.currency),
        t.wf(),
        amount_reads_back(t.amount),
        letters_stay(),
        ascii_alphabetic_known(),
    ensures
        scan_line(s0, entry_text(t)) == Ok::<ScanState, ErrorView>(
            ScanState {
                current: Some(as_entry(t)),
                description: Seq::empty(),
                ..flush(ScanState { in_description: false, ..s0 })
            },
        ),
{
    lemma_entry_line_tags(t);
    lemma_entry_line_value(t, s0.currency);
}

/// An entry line begins with `:61:` and with none of the tags tested before.
proof fn lemma_entry_line_tags(t: TransactionView)
    ensures
        starts_with(entry_text(t), ":"@),
        starts_with(entry_text(t), ":61:"@),
        !starts_with(entry_text(t), ":20:"@),
        !starts_with(entry_text(t), ":25:"@),
        !starts_with(entry_text(t), ":28C:"@),
        !starts_with(entry_text(t), ":60"@),
{
    lemma_tag_chars();
    let e = entry_text(t);
    assert(e =~= ":61:"@ + e.skip(4));
    lemma_prefix(":61:"@, e.skip(4));
    lemma_not_prefix(e, ":20:"@, 1);
    lemma_not_prefix(e, ":25:"@, 1);
    lemma_not_prefix(e, ":28C:"@, 1);
    lemma_not_prefix(e, ":60"@, 2);
    assert(e =~= ":"@ + e.skip(1));
    lemma_prefix(":"@, e.skip(1));
}

/// An entry line decodes to the entry without its description.
proof fn lemma_entry_line_value(t: TransactionView, currency: Seq<char>)
    requires
        line_transaction(t, currency),
        t.wf(),
        amount_reads_back(t.amount),
        letters_stay(),
        ascii_alphabetic_known(),
    ensures
        transaction_of_line(entry_text(t), currency) == Ok::<TransactionView, ErrorView>(as_entry(t)),
{
    lemma_entry_line_round_trip(t, currency);
    assert(TransactionView {
        currency,
        account: None,
        counterparty_account: None,
        counterparty_name: None,
        bank_identifier: None,
        description: Seq::empty(),
        additional_info: None,
        ..t
    } == as_entry(t));
}

/// The scan of a `:86:` line outside a description.
proof fn lemma_description_line_scan(s1: ScanState, d: Seq<char>)
    requires
        !s1.in_description,
        trim(d) == d,
    ensures
        scan_line(s1, ":86:"@ + d) == Ok::<ScanState, ErrorView>(
            ScanState { description: d, in_description: true, ..s1 },
        ),
{
    lemma_tag_chars();
    let l = ":86:"@ + d;
    lemma_prefix(":86:"@, d);
    lemma_not_prefix(l, ":20:"@, 1);
    lemma_not_prefix(l, ":25:"@, 1);
    lemma_not_prefix(l, ":28C:"@, 1);
    lemma_not_prefix(l, ":60"@, 1);
    lemma_not_prefix(l, ":61:"@, 1);
    assert(l =~= ":"@ + l.skip(1));
    lemma_prefix(":"@, l.skip(1));
}

/// Closing the entry in progress puts the entries scanned so far in order.
proof fn lemma_flush_entries(st: ScanState, pre: Seq<TransactionView>)
    requires
        st.transactions == Seq::<TransactionView>::empty(),
        st.current is None,
        st.description == Seq::<char>::empty(),
        !st.in_description,
        pre.len() > 0 ==> trim(pre.last().description) == pre.last().description,
    ensures
        flush((ScanState { in_description: false, ..entries_state(st, pre) })) == (ScanState {
            transactions: pre,
            ..st
        }),
{
    if pre.len() > 0 {
        let u = pre.last();
        assert(TransactionView { description: u.description, ..as_entry(u) } == u);
        assert(pre.drop_last().push(u) =~= pre);
    } else {
        assert(pre =~= Seq::<TransactionView>::empty());
    }
}

/// The scan of the lines of the entries.
#[verifier::rlimit(40)]
proof fn lemma_entries_scan(a: Seq<Seq<char>>, st: ScanState, ts: Seq<TransactionView>)
    requires
        scan(a) == Ok::<ScanState, ErrorView>(st),
        st.transactions == Seq::<TransactionView>::empty(),
        st.current is None,
        st.description == Seq::<char>::empty(),
        !st.in_description,
        letters_stay(),
        ascii_alphabetic_known(),
        forall|i: int|
            0 <= i < ts.len() ==> line_transaction(#[trigger] ts[i], st.currency) && ts[i].wf()
                && amount_reads_back(ts[i].amount),
    ensures
        scan(a + entry_lines(ts)) == Ok::<ScanState, ErrorView>(entries_state(st, ts)),
    decreases ts.len(),
{
    if ts.len() == 0 {
        assert(a + entry_lines(ts) =~= a);
    } else {
        let pre = ts.drop_last();
        let t = ts.last();
        assert(t == ts[ts.len() - 1]);
        assert(pre.len() > 0 ==> pre.last() == ts[pre.len() - 1]);
        assert forall|i: int| 0 <= i < pre.len() implies line_transaction(
            #[trigger] pre[i],
            st.currency,
        ) && pre[i].wf() && amount_reads_back(pre[i].amount) by {
            assert(pre[i] == ts[i]);
        }
        lemma_entries_scan(a, st, pre);
        let s0 = entries_state(st, pre);
        let e = entry_text(t);
        let b = a + entry_lines(pre);
        lemma_scan_push(b, e);
        lemma_entry_line_scan(s0, t);
        lemma_flush_entries(st, pre);
        let s1 = ScanState { current: Some(as_entry(t)), transactions: pre, ..st };
        assert(scan(b.push(e)) == Ok::<ScanState, ErrorView>(s1));
        if t.description.len() == 0 {
            assert(a + entry_lines(ts) =~= b.push(e));
            assert(s1 == entries_state(st, ts));
        } else {
            let d = ":86:"@ + t.description;
            lemma_scan_push(b.push(e), d);
            assert(a + entry_lines(ts) =~= b.push(e).push(d));
            lemma_description_line_scan(s1, t.description);
            assert(ScanState { description: t.description, in_description: true, ..s1 }
                == entries_state(st, ts));
        }
    }
}

/// A balance line begins with its tag and with `:`, and reads back as its
/// balance.
proof fn lemma_balance_line_facts(tag: Seq<char>, final_type: BalanceType, b: BalanceView)
    requires
        tag.len() == 3,
        tag[0] == ':',
        b.balance_type == final_type,
        b.wf(),
        1950 <= b.date.year <= 2049,
        b.currency.len() == 3,
        letters_stay(),
        amount_reads_back(b.amount),
    ensures
        starts_with(balance_text(tag, final_type, b), tag),
        starts_with(balance_text(tag, final_type, b), ":"@),
        balance_text(tag, final_type, b)[1] == tag[1],
        balance_text(tag, final_type, b)[2] == tag[2],
        balance_of_line(balance_text(tag, final_type, b), final_type) == Ok::<BalanceView, ErrorView>(
            b,
        ),
{
    lemma_tag_chars();
    lemma_balance_line_round_trip(tag, final_type, b);
    let l = balance_text(tag, final_type, b);
    assert(l =~= tag + l.skip(3));
    lemma_prefix(tag, l.skip(3));
    assert(l =~= ":"@ + l.skip(1));
    lemma_prefix(":"@, l.skip(1));
}

/// The scan of the opening balance line.
proof fn lemma_opening_line_scan(st: ScanState, b: BalanceView)
    requires
        b.balance_type == BalanceType::Opening,
        b.wf(),
        1950 <= b.date.year <= 2049,
        b.currency.len() == 3,
        letters_stay(),
        amount_reads_back(b.amount),
    ensures
        scan_line(st, balance_text(":60"@, BalanceType::Opening, b)) == Ok::<ScanState, ErrorView>(
            ScanState {
                opening: Some(b),
                currency: if st.currency.len() == 0 {
                    b.currency
                } else {
                    st.currency
                },
                in_description: false,
                ..st
            },
        ),
{
    lemma_tag_chars();
    lemma_balance_line_facts(":60"@, BalanceType::Opening, b);
    let l = balance_text(":60"@, BalanceType::Opening, b);
    lemma_not_prefix(l, ":20:"@, 1);
    lemma_not_prefix(l, ":25:"@, 1);
    lemma_not_prefix(l, ":28C:"@, 1);
}

/// The scan of the closing balance line.
proof fn lemma_closing_line_scan(st: ScanState, b: BalanceView)
    requires
        b.balance_type == BalanceType::Closing,
        b.wf(),
        1950 <= b.date.year <= 2049,
        b.currency.len() == 3,
        letters_stay(),
        amount_reads_back(b.amount),
    ensures
        scan_line(st, balance_text(":62"@, BalanceType::Closing, b)) == Ok::<ScanState, ErrorView>(
            ScanState { closing: Some(b), in_description: false, ..st },
        ),
{
    lemma_tag_chars();
    lemma_balance_line_facts(":62"@, BalanceType::Closing, b);
    let l = balance_text(":62"@, BalanceType::Closing, b);
    lemma_not_prefix(l, ":20:"@, 1);
    lemma_not_prefix(l, ":25:"@, 1);
    lemma_not_prefix(l, ":28C:"@, 1);
    lemma_not_prefix(l, ":60"@, 2);
    lemma_not_prefix(l, ":61:"@, 2);
    lemma_not_prefix(l, ":86:"@, 1);
}

/// The scan of a tagged one-line field `tag` + `text` for the three header
/// tags.
proof fn lemma_header_field_scan(st: ScanState, tag: Seq<char>, text: Seq<char>)
    requires
        tag == ":20:"@ || tag == ":25:"@ || tag == ":28C:"@,
        !st.in_description,
    ensures
        tag == ":20:"@ ==> scan_line(st, tag + text) == Ok::<ScanState, ErrorView>(
            ScanState { statement_id: trim(text), ..st },
        ),
        tag == ":25:"@ ==> scan_line(st, tag + text) == Ok::<ScanState, ErrorView>(
            ScanState { account: trim(text), ..st },
        ),
        tag == ":28C:"@ ==> scan_line(st, tag + text) == Ok::<ScanState, ErrorView>(
            ScanState { sequence_number: Some(trim(text)), ..st },
        ),
{
    lemma_tag_chars();
    let l = tag + text;
    lemma_prefix(tag, text);
    assert(ScanState { in_description: false, ..st } == st);
    if tag == ":25:"@ {
        lemma_not_prefix(l, ":20:"@, 2);
    }
    if tag == ":28C:"@ {
        lemma_not_prefix(l, ":20:"@, 2);
        lemma_not_prefix(l, ":25:"@, 2);
    }
}

/// The lines before the entries: header, identifier, account, sequence
/// number and opening balance.
pub open spec fn head_lines(s: StatementView) -> Seq<Seq<char>> {
    seq![header_line(), ":20:"@ + s.statement_id, ":25:"@ + s.account] + (match s.sequence_number {
        Some(n) => seq![":28C:"@ + n],
        None => Seq::<Seq<char>>::empty(),
    }).push(balance_text(":60"@, BalanceType::Opening, s.opening_balance->Some_0))
}

/// The scan state after the lines before the entries.
pub open spec fn head_state(s: StatementView) -> ScanState {
    ScanState {
        statement_id: s.statement_id,
        account: s.account,
        sequence_number: s.sequence_number,
        opening: s.opening_balance,
        currency: s.currency,
        ..initial_scan()
    }
}

/// The scan of the lines before the entries.
#[verifier::rlimit(90)]
proof fn lemma_head_scan(s: StatementView)
    requires
        s.wf(),
        carried_by_line(s),
        line_texts_read_back(s),
    ensures
        scan(head_lines(s)) == Ok::<ScanState, ErrorView>(head_state(s)),
{
    lemma_tags_nn();
    lemma_tag_chars();
    let st0 = initial_scan();
    let h0 = seq![header_line()];
    lemma_scan_push(Seq::empty(), header_line());
    assert(Seq::<Seq<char>>::empty().push(header_line()) =~= h0);
    lemma_untagged_line(st0, header_line());
    let l1 = ":20:"@ + s.statement_id;
    lemma_scan_push(h0, l1);
    lemma_header_field_scan(st0, ":20:"@, s.statement_id);
    let st1 = ScanState { statement_id: s.statement_id, ..st0 };
    let h1 = h0.push(l1);
    let l2 = ":25:"@ + s.account;
    lemma_scan_push(h1, l2);
    lemma_header_field_scan(st1, ":25:"@, s.account);
    let st2 = ScanState { account: s.account, ..st1 };
    let h2 = h1.push(l2);
    assert(scan(h2) == Ok::<ScanState, ErrorView>(st2));
    let seq_lines = match s.sequence_number {
        Some(n) => seq![":28C:"@ + n],
        None => Seq::<Seq<char>>::empty(),
    };
    let st3 = ScanState { sequence_number: s.sequence_number, ..st2 };
    let h3 = h2 + seq_lines;
    match s.sequence_number {
        Some(n) => {
            lemma_scan_push(h2, ":28C:"@ + n);
            lemma_header_field_scan(st2, ":28C:"@, n);
            assert(h3 =~= h2.push(":28C:"@ + n));
        },
        None => {
            assert(h3 =~= h2);
        },
    }
    assert(scan(h3) == Ok::<ScanState, ErrorView>(st3));
    let b = s.opening_balance->Some_0;
    let lo = balance_text(":60"@, BalanceType::Opening, b);
    lemma_scan_push(h3, lo);
    lemma_opening_line_scan(st3, b);
    let st4 = ScanState { opening: Some(b), currency: b.currency, ..st3 };
    let h4 = h3.push(lo);
    assert(scan(h4) == Ok::<ScanState, ErrorView>(st4));
    assert(h4 =~= head_lines(s));
    assert(st4 == head_state(s));
}

/// The line round trip: a statement that the line format carries is
/// decoded from its document exactly as it was, provided the outside
/// parsers read back the indicator letters and the amounts and tell ASCII
/// letters.
#[verifier::rlimit(40)]
pub proof fn lemma_line_round_trip(s: StatementView)
    requires
        s.wf(),
        carried_by_line(s),
        line_texts_read_back(s),
    ensures
        mt940_of_lines(lines_of(mt940_text(s))) == Ok::<StatementView, ErrorView>(s),
{
    lemma_document_lines(s);
    lemma_tags_nn();
    lemma_tag_chars();
    lemma_head_scan(s);
    let h4 = head_lines(s);
    let st4 = head_state(s);
    assert forall|i: int|
        0 <= i < s.transactions.len() implies line_transaction(
        #[trigger] s.transactions[i],
        st4.currency,
    ) && s.transactions[i].wf() && amount_reads_back(s.transactions[i].amount) by {}
    lemma_entries_scan(h4, st4, s.transactions);
    lemma_tail_scan(s, h4 + entry_lines(s.transactions));
    assert(document_lines(s) =~= h4 + entry_lines(s.transactions) + (match s.closing_balance {
        Some(c) => seq![balance_text(":62"@, BalanceType::Closing, c)],
        None => Seq::<Seq<char>>::empty(),
    }) + seq!["-}"@]);
}

/// The scan of the lines after the entries, and the statement it gives.
#[verifier::rlimit(40)]
proof fn lemma_tail_scan(s: StatementView, h: Seq<Seq<char>>)
    requires
        s.wf(),
        carried_by_line(s),
        line_texts_read_back(s),
        scan(h) == Ok::<ScanState, ErrorView>(entries_state(head_state(s), s.transactions)),
    ensures
        mt940_of_lines(h + (match s.closing_balance {
            Some(c) => seq![balance_text(":62"@, BalanceType::Closing, c)],
            None => Seq::<Seq<char>>::empty(),
        }) + seq!["-}"@]) == Ok::<StatementView, ErrorView>(s),
{
    lemma_tags_nn();
    lemma_tag_chars();
    let st5 = entries_state(head_state(s), s.transactions);
    let h5 = h;
    let close_lines = match s.closing_balance {
        Some(c) => seq![balance_text(":62"@, BalanceType::Closing, c)],
        None => Seq::<Seq<char>>::empty(),
    };
    let st6 = match s.closing_balance {
        Some(c) => ScanState { closing: Some(c), in_description: false, ..st5 },
        None => st5,
    };
    let h6 = h5 + close_lines;
    match s.closing_balance {
        Some(c) => {
            let lc = balance_text(":62"@, BalanceType::Closing, c);
            lemma_scan_push(h5, lc);
            lemma_closing_line_scan(st5, c);
            assert(h6 =~= h5.push(lc));
        },
        None => {
            assert(h6 =~= h5);
        },
    }
    assert(scan(h6) == Ok::<ScanState, ErrorView>(st6));
    assert(!st6.in_description);
    lemma_scan_push(h6, "-}"@);
    lemma_untagged_line(st6, "-}"@);
    let h7 = h6.push("-}"@);
    assert(h6 + seq!["-}"@] =~= h7);
    assert(scan(h7) == Ok::<ScanState, ErrorView>(st6));
    lemma_final_statement(s, st6);
}


/// The statement of the scan state after the whole document.
proof fn lemma_final_statement(s: StatementView, st6: ScanState)
    requires
        s.wf(),
        carried_by_line(s),
        st6 == (match s.closing_balance {
            Some(c) => ScanState {
                closing: Some(c),
                in_description: false,
                ..entries_state(head_state(s), s.transactions)
            },
            None => entries_state(head_state(s), s.transactions),
        }),
    ensures
        statement_of_scan(st6) == Ok::<StatementView, ErrorView>(s),
{
    let f = flush(st6);
    let ts = s.transactions;
    if ts.len() > 0 {
        let u = ts.last();
        assert(u == ts[ts.len() - 1]);
        assert(TransactionView { description: trim(u.description), ..as_entry(u) } == u);
        assert(ts.drop_last().push(u) =~= ts);
    } else {
        assert(ts =~= Seq::<TransactionView>::empty());
    }
    assert(f.transactions == ts);
    assert(crate::mt940_format::with_currency(ts, s.currency) =~= ts) by {
        assert forall|i: int| 0 <= i < ts.len() implies line_transaction(
            #[trigger] ts[i],
            s.currency,
        ) by {}
    }
}

} // verus!
