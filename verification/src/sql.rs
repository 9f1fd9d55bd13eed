//! Statements as SQL text. Table names, column names and timestamps are
//! untrusted text: every one of them passes through [`quote`].

use vstd::prelude::*;
use crate::store::{Statement, StatementView};
use crate::text::push_char;

verus! {

/// `text` with every occurrence of `mark` written twice.
pub open spec fn doubled(text: Seq<char>, mark: char) -> Seq<char>
    decreases text.len(),
{
    if text.len() == 0 {
        Seq::empty()
    } else if text.last() == mark {
        doubled(text.drop_last(), mark).push(mark).push(mark)
    } else {
        doubled(text.drop_last(), mark).push(text.last())
    }
}

/// `text` between two `mark`s, with every `mark` inside it written twice.
pub open spec fn quoted(text: Seq<char>, mark: char) -> Seq<char> {
    seq![mark] + doubled(text, mark) + seq![mark]
}

/// `text` as it was before every `mark` in it was written twice; `None` when
/// a `mark` stands alone.
pub open spec fn undoubled(text: Seq<char>, mark: char) -> Option<Seq<char>>
    decreases text.len(),
{
    if text.len() == 0 {
        Some(Seq::empty())
    } else if text.last() != mark {
        match undoubled(text.drop_last(), mark) {
            Some(front) => Some(front.push(text.last())),
            None => None,
        }
    } else if text.len() >= 2 && text[text.len() - 2] == mark {
        match undoubled(text.drop_last().drop_last(), mark) {
            Some(front) => Some(front.push(mark)),
            None => None,
        }
    } else {
        None
    }
}

/// Quoting loses nothing and lets nothing out: between the outer marks no
/// mark stands alone, and the text is recovered by reading every pair of
/// marks as one.
pub proof fn law_quoted_reads_back(text: Seq<char>, mark: char)
    ensures
        undoubled(doubled(text, mark), mark) == Some(text),
        quoted(text, mark).len() >= 2,
        quoted(text, mark).first() == mark,
        quoted(text, mark).last() == mark,
        quoted(text, mark).subrange(1, quoted(text, mark).len() - 1) == doubled(text, mark),
    decreases text.len(),
{
    let inner = doubled(text, mark);
    assert(quoted(text, mark).subrange(1, quoted(text, mark).len() - 1) =~= inner);
    if text.len() > 0 {
        let front = text.drop_last();
        law_quoted_reads_back(front, mark);
        if text.last() == mark {
            assert(inner.drop_last().drop_last() =~= doubled(front, mark));
            assert(front.push(mark) =~= text);
        } else {
            assert(inner.drop_last() =~= doubled(front, mark));
            assert(front.push(text.last()) =~= text);
        }
    }
}

/// Quotes `text` for use inside a statement: the result begins and ends with
/// `mark`, and every `mark` in `text` is written twice. With `'"'` this gives
/// an identifier, with `'\''` a string literal.
pub fn quote(text: &str, mark: char) -> (out: String)
    ensures
        out@ == quoted(text@, mark),
{
    let mut out = String::new();
    push_char(&mut out, mark);
    for c in it: text.chars()
        invariant
            it.seq() == text@,
            out@ == seq![mark] + doubled(text@.take(it.index()), mark),
    {
        let ghost seen = text@.take(it.index());
        let ghost next = text@.take(it.index() + 1);
        assert(next.drop_last() =~= seen);
        assert(next.last() == c);
        if c == mark {
            push_char(&mut out, mark);
            push_char(&mut out, mark);
            assert(out@ =~= seq![mark] + doubled(next, mark));
        } else {
            push_char(&mut out, c);
            assert(out@ =~= seq![mark] + doubled(next, mark));
        }
    }
    assert(text@.take(text@.len() as int) =~= text@);
    push_char(&mut out, mark);
    out
}

/// The SQL text of a statement. The value of a cell is not part of the text:
/// its place is marked by `?`, and [`Statement::parameter`] gives the value.
pub open spec fn sql_of(statement: StatementView) -> Seq<char> {
    match statement {
        StatementView::CreateTable { table } => "CREATE TABLE "@ + quoted(table, '"')
            + " (index TIMESTAMPTZ PRIMARY KEY NOT NULL);"@,
        StatementView::InsertRow { table, timestamp } => "INSERT OR IGNORE INTO "@ + quoted(
            table,
            '"',
        ) + "(index) VALUES(timezone('Asia/Tokyo',TIMESTAMP "@ + quoted(timestamp, '\'') + "));"@,
        StatementView::AddColumn { table, column } => "ALTER TABLE "@ + quoted(table, '"')
            + " ADD COLUMN "@ + quoted(column, '"') + " INT32;"@,
        StatementView::SetCell { table, column, timestamp, value } => "UPDATE "@ + quoted(
            table,
            '"',
        ) + " SET "@ + quoted(column, '"')
            + " = ? WHERE \"index\"=timezone('Asia/Tokyo',TIMESTAMP "@ + quoted(timestamp, '\'')
            + ");"@,
    }
}

impl Statement {
    /// The statement as SQL text, with names and timestamps quoted.
    pub fn sql(&self) -> (text: String)
        ensures
            text@ == sql_of(self@),
    {
        match self {
            Statement::CreateTable { table } => {
                let mut text = "CREATE TABLE ".to_owned();
                text.append(quote(table.as_str(), '"').as_str());
                text.append(" (index TIMESTAMPTZ PRIMARY KEY NOT NULL);");
                text
            },
            Statement::InsertRow { table, timestamp } => {
                let mut text = "INSERT OR IGNORE INTO ".to_owned();
                text.append(quote(table.as_str(), '"').as_str());
                text.append("(index) VALUES(timezone('Asia/Tokyo',TIMESTAMP ");
                text.append(quote(timestamp.as_str(), '\'').as_str());
                text.append("));");
                text
            },
            Statement::AddColumn { table, column } => {
                let mut text = "ALTER TABLE ".to_owned();
                text.append(quote(table.as_str(), '"').as_str());
                text.append(" ADD COLUMN ");
                text.append(quote(column.as_str(), '"').as_str());
                text.append(" INT32;");
                text
            },
            Statement::SetCell { table, column, timestamp, value } => {
                let mut text = "UPDATE ".to_owned();
                text.append(quote(table.as_str(), '"').as_str());
                text.append(" SET ");
                text.append(quote(column.as_str(), '"').as_str());
                text.append(" = ? WHERE \"index\"=timezone('Asia/Tokyo',TIMESTAMP ");
                text.append(quote(timestamp.as_str(), '\'').as_str());
                text.append(");");
                text
            },
        }
    }

    /// The value that takes the place of `?` in the statement's text.
    pub fn parameter(&self) -> (value: Option<i64>)
        ensures
            value == match self@ {
                StatementView::SetCell { value, .. } => Some(value),
                _ => None,
            },
    {
        match self {
            Statement::SetCell { value, .. } => Some(*value),
            _ => None,
        }
    }
}

} // verus!
