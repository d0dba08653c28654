use crate::key::KeyRange;
use crate::protocol::Request;
use vstd::prelude::*;

verus! {

/// A statement for a relational engine, with the values of its numbered
/// parameters in their order.
#[derive(Debug, PartialEq, Eq)]
pub struct Statement {
    pub text: &'static str,
    pub params: Vec<Vec<u8>>,
}

/// The statement that creates the table of records where there is none.
/// Its key column is the primary key, so a key has one row at most.
pub open spec fn schema_text() -> Seq<char> {
    "CREATE TABLE IF NOT EXISTS kvstore (key BLOB PRIMARY KEY, value BLOB)"@
}

/// The text of the statement that looks up a value.
pub open spec fn read_text() -> Seq<char> {
    "SELECT value FROM kvstore WHERE key = ?1"@
}

/// The text of the statement that stores a value, in place of the row
/// that the key had.
pub open spec fn write_text() -> Seq<char> {
    "INSERT OR REPLACE INTO kvstore (key, value) VALUES (?1, ?2)"@
}

/// The text of the statement that removes a record.
pub open spec fn remove_text() -> Seq<char> {
    "DELETE FROM kvstore WHERE key = ?1"@
}

/// The text of the statement that lists a range, with one parameter for
/// each bound that is there: the start first.
pub open spec fn list_text(start: bool, end: bool) -> Seq<char> {
    if start && end {
        "SELECT key, value FROM kvstore WHERE key >= ?1 AND key < ?2 ORDER BY key"@
    } else if start {
        "SELECT key, value FROM kvstore WHERE key >= ?1 ORDER BY key"@
    } else if end {
        "SELECT key, value FROM kvstore WHERE key < ?1 ORDER BY key"@
    } else {
        "SELECT key, value FROM kvstore ORDER BY key"@
    }
}

/// Whether `statement` is how `request` is put to a relational engine.
pub open spec fn states(request: Request, statement: Statement) -> bool {
    match request {
        Request::Read { key } => statement.text@ == read_text() && statement.params@ == seq![key],
        Request::Write { key, value } => statement.text@ == write_text() && statement.params@ == seq![key, value],
        Request::Remove { key } => statement.text@ == remove_text() && statement.params@ == seq![key],
        Request::List { range } => {
            &&& statement.text@ == list_text(range.start is Some, range.end is Some)
            &&& statement.params@ == match (range.start, range.end) {
                (Some(start), Some(end)) => seq![start, end],
                (Some(start), None) => seq![start],
                (None, Some(end)) => seq![end],
                (None, None) => Seq::<Vec<u8>>::empty(),
            }
        },
        _ => false,
    }
}

/// The statement that creates the table of records where there is none.
pub fn schema() -> (r: &'static str)
    ensures
        r@ == schema_text(),
{
    "CREATE TABLE IF NOT EXISTS kvstore (key BLOB PRIMARY KEY, value BLOB)"
}

/// How `request` is put to a relational engine. A flush, a sync and a
/// release are no statements: the engine commits each statement by itself.
pub fn statement_for(request: Request) -> (r: Option<Statement>)
    ensures
        match r {
            Some(statement) => states(request, statement),
            None => request is Flush || request is Sync || request is Release,
        },
{
    match request {
        Request::Read { key } => {
            let mut params: Vec<Vec<u8>> = Vec::new();
            params.push(key);
            assert(params@ =~= seq![key]);
            Some(Statement { text: "SELECT value FROM kvstore WHERE key = ?1", params })
        },
        Request::Write { key, value } => {
            let mut params: Vec<Vec<u8>> = Vec::new();
            params.push(key);
            params.push(value);
            assert(params@ =~= seq![key, value]);
            Some(Statement { text: "INSERT OR REPLACE INTO kvstore (key, value) VALUES (?1, ?2)", params })
        },
        Request::Remove { key } => {
            let mut params: Vec<Vec<u8>> = Vec::new();
            params.push(key);
            assert(params@ =~= seq![key]);
            Some(Statement { text: "DELETE FROM kvstore WHERE key = ?1", params })
        },
        Request::List { range } => {
            let KeyRange { start, end } = range;
            let mut params: Vec<Vec<u8>> = Vec::new();
            let text: &'static str = match (start, end) {
                (Some(start), Some(end)) => {
                    params.push(start);
                    params.push(end);
                    assert(params@ =~= seq![start, end]);
                    "SELECT key, value FROM kvstore WHERE key >= ?1 AND key < ?2 ORDER BY key"
                },
                (Some(start), None) => {
                    params.push(start);
                    assert(params@ =~= seq![start]);
                    "SELECT key, value FROM kvstore WHERE key >= ?1 ORDER BY key"
                },
                (None, Some(end)) => {
                    params.push(end);
                    assert(params@ =~= seq![end]);
                    "SELECT key, value FROM kvstore WHERE key < ?1 ORDER BY key"
                },
                (None, None) => "SELECT key, value FROM kvstore ORDER BY key",
            };
            Some(Statement { text, params })
        },
        Request::Flush => None,
        Request::Sync => None,
        Request::Release => None,
    }
}

} // verus!
