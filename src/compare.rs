//! Comparison of two statements, as a report of their differences.

use vstd::prelude::*;
use crate::text::{
    char_is_alnum, char_is_space, chars_of, is_alnum, is_space, lower_of, nat_text, push_all,
    push_nat_text, push_str, same_chars, text_of, to_lower, trim, trim_chars,
};
use crate::types::{
    Amount, BalanceView, Date, DebitCredit, Statement, StatementView, TransactionView, amount_text,
    amounts_equal, date_text, render_amount, render_date, same_value,
};

verus! {

/// The characters of `s` that are alphanumeric or white space.
pub open spec fn text_chars(s: Seq<char>) -> Seq<char>
    decreases s.len(),
{
    if s.len() == 0 {
        Seq::empty()
    } else {
        text_chars(s.drop_last()) + if is_alnum(s.last()) || is_space(s.last()) {
            seq![s.last()]
        } else {
            Seq::empty()
        }
    }
}

/// The words of `s` joined by single spaces, with whether white space
/// follows the last word.
pub open spec fn collapse(s: Seq<char>) -> (Seq<char>, bool)
    decreases s.len(),
{
    if s.len() == 0 {
        (Seq::empty(), false)
    } else {
        let (out, pending) = collapse(s.drop_last());
        let c = s.last();
        if is_space(c) {
            (out, true)
        } else if pending && out.len() > 0 {
            (out + seq![' ', c], false)
        } else {
            (out.push(c), false)
        }
    }
}

/// A description reduced for comparison: trimmed, lower case, without
/// punctuation, its words joined by single spaces.
pub open spec fn normalized(s: Seq<char>) -> Seq<char> {
    collapse(text_chars(lower_of(trim(s)))).0
}

/// Reduces a description for comparison.
pub fn normalize_string(s: &str) -> (r: String)
    ensures
        r@ == normalized(s@),
{
    let t = text_of(trim_chars(chars_of(s).as_slice()).as_slice());
    let low = chars_of(to_lower(t.as_str()).as_str());
    let mut kept: Vec<char> = Vec::new();
    let mut i: usize = 0;
    while i < low.len()
        invariant
            i <= low@.len(),
            kept@ == text_chars(low@.take(i as int)),
        decreases low@.len() - i,
    {
        assert(low@.take(i as int + 1).drop_last() == low@.take(i as int));
        let c = low[i];
        if char_is_alnum(c) || char_is_space(c) {
            kept.push(c);
        }
        i = i + 1;
    }
    assert(low@.take(low@.len() as int) == low@);
    let mut out: Vec<char> = Vec::new();
    let mut pending = false;
    let mut k: usize = 0;
    while k < kept.len()
        invariant
            k <= kept@.len(),
            collapse(kept@.take(k as int)) == (out@, pending),
        decreases kept@.len() - k,
    {
        assert(kept@.take(k as int + 1).drop_last() == kept@.take(k as int));
        let c = kept[k];
        if char_is_space(c) {
            pending = true;
        } else {
            if pending && out.len() > 0 {
                out.push(' ');
            }
            out.push(c);
            pending = false;
        }
        k = k + 1;
    }
    assert(kept@.take(kept@.len() as int) == kept@);
    text_of(out.as_slice())
}

/// How the indicator is named in a report.
pub open spec fn dc_name(dc: DebitCredit) -> Seq<char> {
    match dc {
        DebitCredit::Debit => "Debit"@,
        DebitCredit::Credit => "Credit"@,
    }
}

/// `prefix a vs b`.
pub open spec fn versus(prefix: Seq<char>, a: Seq<char>, b: Seq<char>) -> Seq<char> {
    prefix + a + " vs "@ + b
}

/// `Transaction k what`, the start of a line about one transaction.
pub open spec fn about(k: nat, what: Seq<char>) -> Seq<char> {
    "Transaction "@ + nat_text(k) + what
}

/// The differences between the `k`-th transactions (counted from 1) of two
/// statements: date, amount as a number, indicator, and description when
/// both are non-empty and differ once reduced.
pub open spec fn transaction_diffs(t1: TransactionView, t2: TransactionView, k: nat) -> Seq<
    Seq<char>,
> {
    let n1 = normalized(t1.description);
    let n2 = normalized(t2.description);
    (if t1.date != t2.date {
        seq![versus(about(k, " date differs: "@), date_text(t1.date), date_text(t2.date))]
    } else {
        Seq::empty()
    }) + (if !same_value(t1.amount, t2.amount) {
        seq![versus(about(k, " amount differs: "@), amount_text(t1.amount), amount_text(t2.amount))]
    } else {
        Seq::empty()
    }) + (if t1.debit_credit != t2.debit_credit {
        seq![versus(about(k, " type differs: "@), dc_name(t1.debit_credit), dc_name(t2.debit_credit))]
    } else {
        Seq::empty()
    }) + (if n1 != n2 && n1.len() > 0 && n2.len() > 0 {
        seq![
            about(k, " description differs:\n  File 1: "@) + t1.description + "\n  File 2: "@
                + t2.description,
        ]
    } else {
        Seq::empty()
    })
}

/// The differences between the first `m` transactions of two statements.
pub open spec fn transactions_diffs(ts1: Seq<TransactionView>, ts2: Seq<TransactionView>, m: nat) -> Seq<
    Seq<char>,
>
    decreases m,
{
    if m == 0 {
        Seq::empty()
    } else {
        transactions_diffs(ts1, ts2, (m - 1) as nat) + transaction_diffs(
            ts1[m - 1],
            ts2[m - 1],
            m,
        )
    }
}

/// The difference between two optional balances, when both are present and
/// their amounts differ.
pub open spec fn balance_diff(
    what: Seq<char>,
    b1: Option<BalanceView>,
    b2: Option<BalanceView>,
) -> Seq<Seq<char>> {
    match (b1, b2) {
        (Some(x), Some(y)) => if !same_value(x.amount, y.amount) {
            seq![versus(what, amount_text(x.amount), amount_text(y.amount))]
        } else {
            Seq::empty()
        },
        _ => Seq::empty(),
    }
}

/// All differences between two statements, in report order.
pub open spec fn statement_diffs(s1: StatementView, s2: StatementView) -> Seq<Seq<char>> {
    let n1 = s1.transactions.len();
    let n2 = s2.transactions.len();
    let m = if n1 < n2 {
        n1
    } else {
        n2
    };
    (if n1 != n2 {
        seq![versus("Number of transactions differs: "@, nat_text(n1), nat_text(n2))]
    } else {
        Seq::empty()
    }) + transactions_diffs(s1.transactions, s2.transactions, m) + balance_diff(
        "Opening balance differs: "@,
        s1.opening_balance,
        s2.opening_balance,
    ) + balance_diff("Closing balance differs: "@, s1.closing_balance, s2.closing_balance)
}

/// The lines of a report, each as a bullet.
pub open spec fn bullets(ls: Seq<Seq<char>>) -> Seq<char>
    decreases ls.len(),
{
    if ls.len() == 0 {
        Seq::empty()
    } else {
        bullets(ls.drop_last()) + "  - "@ + ls.last() + "\n"@
    }
}

/// The report on two statements.
pub open spec fn comparison_report(s1: StatementView, s2: StatementView) -> Seq<char> {
    let d = statement_diffs(s1, s2);
    if d.len() == 0 {
        "The transaction records in 'file1' and 'file2' are identical."@
    } else {
        "Differences found:\n"@ + bullets(d)
    }
}

/// Appends `prefix a vs b` as a new line of the list.
fn push_versus(prefix: &str, a: &[char], b: &[char], lines: &mut Vec<Vec<char>>)
    ensures
        final(lines)@.len() == old(lines)@.len() + 1,
        forall|j: int| 0 <= j < old(lines)@.len() ==> final(lines)@[j] == old(lines)@[j],
        final(lines)@.last()@ == versus(prefix@, a@, b@),
{
    let mut l = chars_of(prefix);
    push_all(a, &mut l);
    push_str(" vs ", &mut l);
    push_all(b, &mut l);
    lines.push(l);
}

/// The views of a list of lines.
pub open spec fn views(ls: Seq<Vec<char>>) -> Seq<Seq<char>> {
    ls.map_values(|l: Vec<char>| l@)
}

/// The characters of `Transaction k what`.
fn about_chars(k: usize, what: &str) -> (r: Vec<char>)
    ensures
        r@ == about(k as nat, what@),
{
    let mut l = chars_of("Transaction ");
    push_nat_text(k as u128, &mut l);
    push_str(what, &mut l);
    l
}

/// The characters of the text of an amount.
fn amount_chars(a: Amount) -> (r: Vec<char>)
    requires
        a.wf(),
    ensures
        r@ == amount_text(a),
{
    chars_of(render_amount(a).as_str())
}

/// The characters of the text of a date.
fn date_chars(d: Date) -> (r: Vec<char>)
    requires
        d.wf(),
    ensures
        r@ == date_text(d),
{
    chars_of(render_date(d).as_str())
}

/// The characters of the name of an indicator.
fn dc_chars(dc: DebitCredit) -> (r: Vec<char>)
    ensures
        r@ == dc_name(dc),
{
    match dc {
        DebitCredit::Debit => chars_of("Debit"),
        DebitCredit::Credit => chars_of("Credit"),
    }
}

/// Appends the differences between two transactions.
fn push_transaction_diffs(
    t1: &crate::types::Transaction,
    t2: &crate::types::Transaction,
    k: usize,
    lines: &mut Vec<Vec<char>>,
)
    requires
        t1@.wf(),
        t2@.wf(),
    ensures
        views(final(lines)@) == views(old(lines)@) + transaction_diffs(t1@, t2@, k as nat),
{
    let ghost l0 = views(lines@);
    if t1.date != t2.date {
        let mut l = about_chars(k, " date differs: ");
        push_all(date_chars(t1.date).as_slice(), &mut l);
        push_str(" vs ", &mut l);
        push_all(date_chars(t2.date).as_slice(), &mut l);
        lines.push(l);
    }
    let ghost l1 = views(lines@);
    assert(l1 == l0 + (if t1@.date != t2@.date {
        seq![versus(about(k as nat, " date differs: "@), date_text(t1@.date), date_text(t2@.date))]
    } else {
        Seq::<Seq<char>>::empty()
    }));
    if !amounts_equal(t1.amount, t2.amount) {
        let mut l = about_chars(k, " amount differs: ");
        push_all(amount_chars(t1.amount).as_slice(), &mut l);
        push_str(" vs ", &mut l);
        push_all(amount_chars(t2.amount).as_slice(), &mut l);
        lines.push(l);
    }
    let ghost l2 = views(lines@);
    assert(l2 == l1 + (if !same_value(t1@.amount, t2@.amount) {
        seq![versus(about(k as nat, " amount differs: "@), amount_text(t1@.amount), amount_text(t2@.amount))]
    } else {
        Seq::<Seq<char>>::empty()
    }));
    if t1.debit_credit != t2.debit_credit {
        let mut l = about_chars(k, " type differs: ");
        push_all(dc_chars(t1.debit_credit).as_slice(), &mut l);
        push_str(" vs ", &mut l);
        push_all(dc_chars(t2.debit_credit).as_slice(), &mut l);
        lines.push(l);
    }
    let ghost l3 = views(lines@);
    assert(l3 == l2 + (if t1@.debit_credit != t2@.debit_credit {
        seq![versus(about(k as nat, " type differs: "@), dc_name(t1@.debit_credit), dc_name(t2@.debit_credit))]
    } else {
        Seq::<Seq<char>>::empty()
    }));
    let n1 = normalize_string(t1.description.as_str());
    let n2 = normalize_string(t2.description.as_str());
    let v1 = chars_of(n1.as_str());
    let v2 = chars_of(n2.as_str());
    if !same_chars(v1.as_slice(), v2.as_slice()) && v1.len() > 0 && v2.len() > 0 {
        let mut l = about_chars(k, " description differs:\n  File 1: ");
        push_str(t1.description.as_str(), &mut l);
        push_str("\n  File 2: ", &mut l);
        push_str(t2.description.as_str(), &mut l);
        lines.push(l);
    }
    let ghost l4 = views(lines@);
    assert(l4 == l3 + (if normalized(t1@.description) != normalized(t2@.description)
        && normalized(t1@.description).len() > 0 && normalized(t2@.description).len() > 0 {
        seq![
            about(k as nat, " description differs:\n  File 1: "@) + t1@.description
                + "\n  File 2: "@ + t2@.description,
        ]
    } else {
        Seq::<Seq<char>>::empty()
    }));
}

/// Appends the difference between two optional balances.
fn push_balance_diff(
    what: &str,
    b1: &Option<crate::types::Balance>,
    b2: &Option<crate::types::Balance>,
    lines: &mut Vec<Vec<char>>,
)
    requires
        b1 matches Some(x) ==> x@.wf(),
        b2 matches Some(x) ==> x@.wf(),
    ensures
        views(final(lines)@) == views(old(lines)@) + balance_diff(
            what@,
            crate::types::opt_balance(*b1),
            crate::types::opt_balance(*b2),
        ),
{
    match (b1, b2) {
        (Some(x), Some(y)) => {
            if !amounts_equal(x.amount, y.amount) {
                let ghost before = views(lines@);
                push_versus(
                    what,
                    amount_chars(x.amount).as_slice(),
                    amount_chars(y.amount).as_slice(),
                    lines,
                );
                assert(views(lines@) =~= before.push(lines@.last()@));
            }
        },
        _ => {},
    }
}

/// Compares two statements: the number of transactions, then pair by pair
/// the first transactions' dates, amounts, indicators and descriptions,
/// then the opening and closing balances.
pub fn compare_statements(stmt1: &Statement, stmt2: &Statement) -> (r: String)
    requires
        stmt1@.wf(),
        stmt2@.wf(),
    ensures
        r@ == comparison_report(stmt1@, stmt2@),
{
    let mut lines: Vec<Vec<char>> = Vec::new();
    let n1 = stmt1.transactions.len();
    let n2 = stmt2.transactions.len();
    if n1 != n2 {
        let mut a: Vec<char> = Vec::new();
        push_nat_text(n1 as u128, &mut a);
        let mut b: Vec<char> = Vec::new();
        push_nat_text(n2 as u128, &mut b);
        push_versus("Number of transactions differs: ", a.as_slice(), b.as_slice(), &mut lines);
    }
    let ghost head = views(lines@);
    assert(head =~= (if n1 != n2 {
        seq![versus("Number of transactions differs: "@, nat_text(n1 as nat), nat_text(n2 as nat))]
    } else {
        Seq::<Seq<char>>::empty()
    }));
    let m = if n1 < n2 {
        n1
    } else {
        n2
    };
    let mut i: usize = 0;
    while i < m
        invariant
            i <= m,
            m <= stmt1@.transactions.len(),
            m <= stmt2@.transactions.len(),
            stmt1@.wf(),
            stmt2@.wf(),
            views(lines@) == head + transactions_diffs(
                stmt1@.transactions,
                stmt2@.transactions,
                i as nat,
            ),
        decreases m - i,
    {
        assert(stmt1@.transactions[i as int] == stmt1.transactions@[i as int]@);
        assert(stmt2@.transactions[i as int] == stmt2.transactions@[i as int]@);
        push_transaction_diffs(&stmt1.transactions[i], &stmt2.transactions[i], i + 1, &mut lines);
        i = i + 1;
    }
    push_balance_diff(
        "Opening balance differs: ",
        &stmt1.opening_balance,
        &stmt2.opening_balance,
        &mut lines,
    );
    push_balance_diff(
        "Closing balance differs: ",
        &stmt1.closing_balance,
        &stmt2.closing_balance,
        &mut lines,
    );
    assert(views(lines@) == statement_diffs(stmt1@, stmt2@));
    if lines.len() == 0 {
        return text_of(chars_of("The transaction records in 'file1' and 'file2' are identical.").as_slice());
    }
    let mut out = chars_of("Differences found:\n");
    let mut k: usize = 0;
    while k < lines.len()
        invariant
            k <= lines@.len(),
            out@ == "Differences found:\n"@ + bullets(views(lines@).take(k as int)),
        decreases lines@.len() - k,
    {
        assert(views(lines@).take(k as int + 1).drop_last() == views(lines@).take(k as int));
        push_str("  - ", &mut out);
        push_all(lines[k].as_slice(), &mut out);
        push_str("\n", &mut out);
        k = k + 1;
    }
    assert(views(lines@).take(lines@.len() as int) == views(lines@));
    text_of(out.as_slice())
}

/// The line that reports a differing amount of the transaction at `k`
/// (counted from 0).
pub open spec fn amount_line(k: int, a1: Amount, a2: Amount) -> Seq<char> {
    versus(about((k + 1) as nat, " amount differs: "@), amount_text(a1), amount_text(a2))
}

proof fn lemma_same_transaction(t: TransactionView, k: nat)
    ensures
        transaction_diffs(t, t, k) == Seq::<Seq<char>>::empty(),
{
    assert(same_value(t.amount, t.amount));
    assert(transaction_diffs(t, t, k) =~= Seq::<Seq<char>>::empty());
}

proof fn lemma_amount_only(t: TransactionView, a2: Amount, k: nat)
    requires
        !same_value(t.amount, a2),
    ensures
        transaction_diffs(t, TransactionView { amount: a2, ..t }, k) == seq![
            versus(about(k, " amount differs: "@), amount_text(t.amount), amount_text(a2)),
        ],
{
    let u = TransactionView { amount: a2, ..t };
    assert(transaction_diffs(t, u, k) =~= seq![
        versus(about(k, " amount differs: "@), amount_text(t.amount), amount_text(a2)),
    ]);
}

proof fn lemma_diffs_one_amount(
    ts1: Seq<TransactionView>,
    ts2: Seq<TransactionView>,
    k: int,
    a2: Amount,
    m: nat,
)
    requires
        ts1.len() == ts2.len(),
        0 <= k < ts1.len(),
        m <= ts1.len(),
        ts2 == ts1.update(k, TransactionView { amount: a2, ..ts1[k] }),
        !same_value(ts1[k].amount, a2),
    ensures
        transactions_diffs(ts1, ts2, m) == if m <= k {
            Seq::<Seq<char>>::empty()
        } else {
            seq![amount_line(k, ts1[k].amount, a2)]
        },
    decreases m,
{
    if m > 0 {
        lemma_diffs_one_amount(ts1, ts2, k, a2, (m - 1) as nat);
        let j = m - 1;
        if j == k {
            lemma_amount_only(ts1[k], a2, m);
        } else {
            assert(ts2[j] == ts1[j]);
            lemma_same_transaction(ts1[j], m);
        }
        assert(transactions_diffs(ts1, ts2, m) =~= (if m <= k {
            Seq::<Seq<char>>::empty()
        } else {
            seq![amount_line(k, ts1[k].amount, a2)]
        }));
    }
}

/// Two statements that differ only in the amount, as a number, of one
/// transaction give a report of exactly one line: that the amount of that
/// transaction, counted from 1, differs, with both amounts.
pub proof fn lemma_one_amount_differs(s1: StatementView, k: int, a2: Amount)
    requires
        0 <= k < s1.transactions.len(),
        !same_value(s1.transactions[k].amount, a2),
    ensures
        ({
            let s2 = StatementView {
                transactions: s1.transactions.update(
                    k,
                    TransactionView { amount: a2, ..s1.transactions[k] },
                ),
                ..s1
            };
            &&& statement_diffs(s1, s2) == seq![amount_line(k, s1.transactions[k].amount, a2)]
            &&& comparison_report(s1, s2) == "Differences found:\n"@ + "  - "@ + amount_line(
                k,
                s1.transactions[k].amount,
                a2,
            ) + "\n"@
        }),
{
    let s2 = StatementView {
        transactions: s1.transactions.update(k, TransactionView { amount: a2, ..s1.transactions[k] }),
        ..s1
    };
    let n = s1.transactions.len();
    lemma_diffs_one_amount(s1.transactions, s2.transactions, k, a2, n as nat);
    match s1.opening_balance {
        Some(b) => {
            assert(same_value(b.amount, b.amount));
        },
        None => {},
    }
    match s1.closing_balance {
        Some(b) => {
            assert(same_value(b.amount, b.amount));
        },
        None => {},
    }
    let line = amount_line(k, s1.transactions[k].amount, a2);
    assert(statement_diffs(s1, s2) =~= seq![line]);
    assert(seq![line].drop_last() =~= Seq::<Seq<char>>::empty());
    assert(bullets(seq![line]) == bullets(Seq::<Seq<char>>::empty()) + "  - "@ + line + "\n"@);
    assert(bullets(Seq::<Seq<char>>::empty()) == Seq::<char>::empty());
    assert(Seq::<char>::empty() + "  - "@ =~= "  - "@);
    assert(bullets(seq![line]) =~= "  - "@ + line + "\n"@);
}

} // verus!
