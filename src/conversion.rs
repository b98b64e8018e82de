//! Conversion rules between the line format and the XML format.

use vstd::prelude::*;
use crate::camt053_format::Camt053Statement;
use crate::mt940_format::Mt940Statement;
use crate::text::{chars_of, push_str, text_of};
use crate::types::{Date, StatementView, Transaction, TransactionView, today, transaction_views};

verus! {

/// The statement with `today` as creation date when it has none.
pub open spec fn with_creation_date(s: StatementView, today: Date) -> StatementView {
    StatementView {
        creation_date: match s.creation_date {
            Some(d) => Some(d),
            None => Some(today),
        },
        ..s
    }
}

/// `a`, then ` | ` when `a` is not empty, then `b`.
pub open spec fn piped(a: Seq<char>, b: Seq<char>) -> Seq<char> {
    if a.len() > 0 {
        a + " | "@ + b
    } else {
        a + b
    }
}

/// The description of a transaction once the additional information and
/// then the counterparty name, where present, are folded into it.
pub open spec fn folded_description(t: TransactionView) -> Seq<char> {
    let d = match t.additional_info {
        Some(a) => piped(t.description, a),
        None => t.description,
    };
    match t.counterparty_name {
        Some(n) => piped(d, "Counterparty: "@ + n),
        None => d,
    }
}

/// A transaction with its extra information folded into its description.
pub open spec fn folded(t: TransactionView) -> TransactionView {
    TransactionView { description: folded_description(t), ..t }
}

/// A transaction without the fields that the line format does not carry
/// beside its description.
pub open spec fn line_form(t: TransactionView) -> TransactionView {
    TransactionView { additional_info: None, counterparty_name: None, ..t }
}

/// The line form of an XML statement: each transaction's extra information
/// folded into its description and no longer kept apart.
pub open spec fn converted_to_line(s: StatementView) -> StatementView {
    StatementView {
        transactions: s.transactions.map_values(|t: TransactionView| line_form(folded(t))),
        ..s
    }
}

/// Appends `" | "` when `out` is not empty.
fn push_separator(out: &mut Vec<char>)
    ensures
        final(out)@ == if old(out)@.len() > 0 {
            old(out)@ + " | "@
        } else {
            old(out)@
        },
{
    if out.len() > 0 {
        push_str(" | ", out);
    }
}

/// Folds the extra information of a transaction into its description and
/// clears the fields it came from.
fn fold_transaction(t: &mut Transaction)
    ensures
        final(t)@ == line_form(folded(old(t)@)),
{
    let mut d = chars_of(t.description.as_str());
    match &t.additional_info {
        Some(a) => {
            push_separator(&mut d);
            push_str(a.as_str(), &mut d);
        },
        None => {},
    }
    match &t.counterparty_name {
        Some(n) => {
            push_separator(&mut d);
            let ghost before = d@;
            push_str("Counterparty: ", &mut d);
            push_str(n.as_str(), &mut d);
            assert(d@ == before + ("Counterparty: "@ + n@));
        },
        None => {},
    }
    t.description = text_of(d.as_slice());
    t.additional_info = None;
    t.counterparty_name = None;
}

impl Camt053Statement {
    /// The XML form of a line-format statement: the same statement, with
    /// `today` as creation date when it has none.
    pub fn from_mt940_on(m: Mt940Statement, today: Date) -> (r: Camt053Statement)
        ensures
            r.statement@ == with_creation_date(m.statement@, today),
    {
        let mut statement = m.statement;
        if statement.creation_date.is_none() {
            statement.creation_date = Some(today);
        }
        Camt053Statement { statement }
    }

    /// The XML form of a line-format statement, with today's date as
    /// creation date when it has none.
    pub fn from_mt940(m: Mt940Statement) -> (r: Camt053Statement)
        ensures
            exists|d: Date| d.wf() && r.statement@ == with_creation_date(m.statement@, d),
    {
        let now = today();
        Camt053Statement::from_mt940_on(m, now)
    }
}

impl Mt940Statement {
    /// The line form of an XML statement: the additional information and the
    /// counterparty name of each transaction are folded into its description,
    /// and no longer kept apart.
    pub fn from_camt053(c: Camt053Statement) -> (r: Mt940Statement)
        ensures
            r.statement@ == converted_to_line(c.statement@),
    {
        let mut statement = c.statement;
        let ghost start = statement.transactions@;
        let mut rest = statement.transactions;
        statement.transactions = Vec::new();
        let mut out: Vec<Transaction> = Vec::new();
        let n = rest.len();
        let mut i: usize = 0;
        while i < n
            invariant
                n == start.len(),
                i <= n,
                rest@ == start.skip(i as int),
                out@.len() == i,
                forall|j: int| 0 <= j < i ==> (#[trigger] out@[j])@ == line_form(folded(start[j]@)),
            decreases n - i,
        {
            let mut t = rest.remove(0);
            assert(t == start[i as int]);
            assert(rest@ =~= start.skip(i as int + 1));
            fold_transaction(&mut t);
            out.push(t);
            i = i + 1;
        }
        statement.transactions = out;
        let r = Mt940Statement { statement };
        assert(transaction_views(r.statement.transactions@) =~= transaction_views(start).map_values(
            |t: TransactionView| line_form(folded(t)),
        ));
        r
    }
}

impl From<Mt940Statement> for Camt053Statement {
    /// See [`Camt053Statement::from_mt940`].
    fn from(m: Mt940Statement) -> Camt053Statement {
        Camt053Statement::from_mt940(m)
    }
}

impl vstd::std_specs::convert::FromSpecImpl<Mt940Statement> for Camt053Statement {
    open spec fn obeys_from_spec() -> bool {
        false
    }

    open spec fn from_spec(v: Mt940Statement) -> Camt053Statement {
        arbitrary()
    }
}

impl From<Camt053Statement> for Mt940Statement {
    /// See [`Mt940Statement::from_camt053`].
    fn from(c: Camt053Statement) -> Mt940Statement {
        Mt940Statement::from_camt053(c)
    }
}

impl vstd::std_specs::convert::FromSpecImpl<Camt053Statement> for Mt940Statement {
    open spec fn obeys_from_spec() -> bool {
        false
    }

    open spec fn from_spec(v: Camt053Statement) -> Mt940Statement {
        arbitrary()
    }
}

/// Converting to the line form settles: converting the converted
/// statement a second time changes nothing.
pub proof fn lemma_conversion_idempotent(s: StatementView)
    ensures
        converted_to_line(converted_to_line(s)) == converted_to_line(s),
{
    let once = converted_to_line(s);
    assert(converted_to_line(once).transactions =~= once.transactions);
}

} // verus!
