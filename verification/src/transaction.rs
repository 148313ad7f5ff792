//! Statements that take effect together or not at all.

use rusqlite::types::Value;
use rusqlite::{params_from_iter, Connection, Error as SqliteFailure, Transaction};
use vstd::prelude::*;

use crate::error;
use crate::error::{Error, Failure};
use crate::sql;
use crate::sql::{bind, sqlite_error, ParameterModel, SqlParameter};

verus! {

/// `rusqlite::Transaction`, a transaction that is open on a connection.
#[verifier::external_type_specification]
#[verifier::external_body]
pub struct ExTransaction<'conn>(Transaction<'conn>);

/// A statement that was run, and the number of rows that it was reported to change;
/// `None` stands for a failure.
#[verifier::ext_equal]
pub struct StatementModel {
    pub sql: Seq<char>,
    pub parameters: Seq<ParameterModel>,
    pub changed: Option<usize>,
}

/// The connection that a transaction is open on, and the statements that were run in it, in
/// order.
#[verifier::ext_equal]
pub struct Progress {
    pub connection: Connection,
    pub statements: Seq<StatementModel>,
}

/// How far a transaction has got.
pub uninterp spec fn progress_of(transaction: Transaction<'_>) -> Progress;

/// Whether a connection that was told to begin a transaction reported `begun`. That depends
/// on what else uses the database.
pub uninterp spec fn may_begin(connection: Connection, begun: bool) -> bool;

/// Whether a transaction that had got so far, and was then told to commit, reported
/// `committed`.
pub uninterp spec fn may_commit(progress: Progress, committed: bool) -> bool;

/// Whether a transaction that had got so far, and was then given up, reported `undone`.
pub uninterp spec fn may_roll_back(progress: Progress, undone: bool) -> bool;

/// Calls `rusqlite::Connection::transaction`. A transaction that begins has run no statement
/// yet. It only lends the connection out, which is the same one afterwards.
#[verifier::external_body]
fn begin_transaction(connection: &mut Connection) -> (transaction: Result<
    Transaction<'_>,
    SqliteFailure,
>)
    ensures
        may_begin(*old(connection), transaction is Ok),
        transaction matches Ok(transaction) ==> progress_of(transaction) == (Progress {
            connection: *old(connection),
            statements: Seq::empty(),
        }),
        *final(connection) == *old(connection),
{
    connection.transaction()
}

/// Calls `rusqlite::Connection::execute` on the connection of a transaction. The statement
/// is the last one that ran in it; the number of rows that it changes depends on what the
/// database holds.
#[verifier::external_body]
fn execute_inside(transaction: &mut Transaction<'_>, sql: &str, values: &Vec<Value>) -> (changed:
    Result<usize, SqliteFailure>)
    ensures
        progress_of(*final(transaction)) == (Progress {
            connection: progress_of(*old(transaction)).connection,
            statements: progress_of(*old(transaction)).statements.push(
                StatementModel {
                    sql: sql@,
                    parameters: sql::values_held(values@),
                    changed: match changed {
                        Ok(count) => Some(count),
                        Err(_) => None,
                    },
                },
            ),
        }),
{
    transaction.execute(sql, params_from_iter(values))
}

/// Calls `rusqlite::Transaction::commit`. A transaction that cannot be committed is rolled
/// back as it is dropped, with a report that nobody sees.
#[verifier::external_body]
fn commit_transaction(transaction: Transaction<'_>) -> (committed: Result<(), SqliteFailure>)
    ensures
        may_commit(progress_of(transaction), committed is Ok),
        committed is Err ==> exists|undone: bool|
            #[trigger] may_roll_back(progress_of(transaction), undone),
{
    transaction.commit()
}

/// Calls `rusqlite::Transaction::finish`, which rolls back what was not committed.
#[verifier::external_body]
fn finish_transaction(transaction: Transaction<'_>) -> (undone: Result<(), SqliteFailure>)
    ensures
        may_roll_back(progress_of(transaction), undone is Ok),
{
    transaction.finish()
}

/// Begins a transaction.
pub fn begin(connection: &mut Connection) -> (transaction: Result<Transaction<'_>, Error>)
    ensures
        may_begin(*old(connection), transaction is Ok),
        match transaction {
            Ok(transaction) => progress_of(transaction) == (Progress {
                connection: *old(connection),
                statements: Seq::empty(),
            }),
            Err(error) => error@ == Failure::Sqlite,
        },
        *final(connection) == *old(connection),
{
    match begin_transaction(connection) {
        Ok(transaction) => Ok(transaction),
        Err(failure) => Err(sqlite_error(failure)),
    }
}

/// Runs a statement in a transaction, and gives the number of rows changed.
pub fn run(transaction: &mut Transaction<'_>, sql: &str, parameters: &Vec<SqlParameter>) -> (
    changed: Result<usize, Error>)
    ensures
        progress_of(*final(transaction)) == (Progress {
            connection: progress_of(*old(transaction)).connection,
            statements: progress_of(*old(transaction)).statements.push(
                StatementModel {
                    sql: sql@,
                    parameters: error::views(parameters@),
                    changed: match changed {
                        Ok(count) => Some(count),
                        Err(_) => None,
                    },
                },
            ),
        }),
        changed matches Err(error) ==> error@ == Failure::Sqlite,
{
    match execute_inside(transaction, sql, &bind(parameters)) {
        Ok(changed) => Ok(changed),
        Err(failure) => Err(sqlite_error(failure)),
    }
}

/// Commits a transaction. One that cannot be committed is rolled back.
pub fn commit(transaction: Transaction<'_>) -> (committed: Result<(), Error>)
    ensures
        may_commit(progress_of(transaction), committed is Ok),
        committed matches Err(error) ==> error@ == Failure::Sqlite && exists|undone: bool|
            #[trigger] may_roll_back(progress_of(transaction), undone),
{
    match commit_transaction(transaction) {
        Ok(()) => Ok(()),
        Err(failure) => Err(sqlite_error(failure)),
    }
}

/// Gives a transaction up: what ran in it is rolled back.
pub fn roll_back(transaction: Transaction<'_>) -> (undone: Result<(), Error>)
    ensures
        may_roll_back(progress_of(transaction), undone is Ok),
        undone matches Err(error) ==> error@ == Failure::Sqlite,
{
    match finish_transaction(transaction) {
        Ok(()) => Ok(()),
        Err(failure) => Err(sqlite_error(failure)),
    }
}

} // verus!
