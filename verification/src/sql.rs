//! Values, rows, and replies of SQLite queries.

use rusqlite::types::{Value, ValueRef};
use rusqlite::{params_from_iter, Connection, Error as SqliteFailure, Row, Rows, Statement};
use vstd::prelude::*;

use crate::bytes::copy_bytes;
use crate::error;
use crate::error::{Error, Failure};
use crate::message;
use crate::message::Message;
use crate::reals;
use crate::reals::{round_natural, Double};
use crate::text_codec;
use crate::text_codec::decode_utf8;

verus! {

/// An open SQLite connection, as `rusqlite` holds it.
#[verifier::external_type_specification]
#[verifier::external_body]
pub struct ExConnection(rusqlite::Connection);

/// A value bound to a statement, as `rusqlite` holds it.
#[verifier::external_type_specification]
#[verifier::external_body]
pub struct ExValue(rusqlite::types::Value);

/// A failure of `rusqlite`.
#[verifier::external_type_specification]
#[verifier::external_body]
pub struct ExSqliteError(SqliteFailure);

/// A statement that `rusqlite` has prepared.
#[verifier::external_type_specification]
#[verifier::external_body]
pub struct ExStatement<'conn>(rusqlite::Statement<'conn>);

/// The rows of an answer, which `rusqlite` steps through.
#[verifier::external_type_specification]
#[verifier::external_body]
pub struct ExRows<'stmt>(rusqlite::Rows<'stmt>);

/// One row of an answer, as `rusqlite` holds it.
#[verifier::external_type_specification]
#[verifier::external_body]
pub struct ExRow<'stmt>(rusqlite::Row<'stmt>);

/// One value of a row.
#[derive(Clone, Debug, PartialEq, Eq)]
pub enum SqlValue {
    /// `NULL`.
    Null,
    /// A signed integer.
    Integer(i64),
    /// A floating-point number, and how it is written in decimal digits.
    Real { value: Double, text: String },
    /// A text, which SQLite does not hold to be valid UTF-8.
    Text(Vec<u8>),
    /// A byte string.
    Blob(Vec<u8>),
}

/// The model of a [`SqlValue`].
pub enum SqlModel {
    Null,
    Integer(i64),
    Real { value: Double, text: Seq<char> },
    Text(Seq<u8>),
    Blob(Seq<u8>),
}

impl View for SqlValue {
    type V = SqlModel;

    open spec fn view(&self) -> SqlModel {
        match *self {
            SqlValue::Null => SqlModel::Null,
            SqlValue::Integer(value) => SqlModel::Integer(value),
            SqlValue::Real { value, text } => SqlModel::Real { value, text: text@ },
            SqlValue::Text(bytes) => SqlModel::Text(bytes@),
            SqlValue::Blob(bytes) => SqlModel::Blob(bytes@),
        }
    }
}

/// One row of a reply.
pub struct SqlRow {
    pub values: Vec<SqlValue>,
}

impl View for SqlRow {
    type V = Seq<SqlModel>;

    open spec fn view(&self) -> Seq<SqlModel> {
        error::views(self.values@)
    }
}

/// The rows that a query gave, and what ended it early, if anything did.
pub struct Reply {
    pub rows: Vec<SqlRow>,
    pub failure: Option<String>,
}

/// The model of a [`Reply`].
pub struct ReplyModel {
    pub rows: Seq<Seq<SqlModel>>,
    pub failed: bool,
}

impl View for Reply {
    type V = ReplyModel;

    open spec fn view(&self) -> ReplyModel {
        ReplyModel { rows: error::views(self.rows@), failed: self.failure is Some }
    }
}

/// A value to bind to a statement.
pub enum SqlParameter {
    Null,
    Integer(i64),
    Text(String),
    Blob(Vec<u8>),
}

/// The model of a [`SqlParameter`].
pub enum ParameterModel {
    Null,
    Integer(i64),
    Text(Seq<char>),
    Blob(Seq<u8>),
}

impl View for SqlParameter {
    type V = ParameterModel;

    open spec fn view(&self) -> ParameterModel {
        match *self {
            SqlParameter::Null => ParameterModel::Null,
            SqlParameter::Integer(value) => ParameterModel::Integer(value),
            SqlParameter::Text(text) => ParameterModel::Text(text@),
            SqlParameter::Blob(bytes) => ParameterModel::Blob(bytes@),
        }
    }
}

/// What a value of `rusqlite` holds.
pub uninterp spec fn value_held(value: Value) -> ParameterModel;

impl SqlParameter {
    /// Makes the `rusqlite::types::Value` of a parameter, one variant for one. The contract
    /// names what the value holds.
    #[verifier::external_body]
    fn bound(&self) -> (value: Value)
        ensures
            value_held(value) == self@,
    {
        match self {
            SqlParameter::Null => Value::Null,
            SqlParameter::Integer(value) => Value::Integer(*value),
            SqlParameter::Text(text) => Value::Text(text.clone()),
            SqlParameter::Blob(bytes) => Value::Blob(bytes.clone()),
        }
    }
}

/// What values of `rusqlite` hold.
pub open spec fn values_held(values: Seq<Value>) -> Seq<ParameterModel> {
    Seq::new(values.len(), |i: int| value_held(values[i]))
}

/// The values of `rusqlite` that parameters stand for.
pub fn bind(parameters: &Vec<SqlParameter>) -> (values: Vec<Value>)
    ensures
        values_held(values@) == error::views(parameters@),
{
    let mut values: Vec<Value> = Vec::new();
    while values.len() < parameters.len()
        invariant
            values@.len() <= parameters@.len(),
            forall|i: int|
                0 <= i < values@.len() ==> value_held(#[trigger] values@[i]) == parameters@[i]@,
        decreases parameters@.len() - values@.len(),
    {
        values.push(parameters[values.len()].bound());
    }
    assert(values_held(values@) =~= error::views(parameters@));
    values
}

/// A question, and the connection whose database it is put to.
pub struct Question {
    pub connection: Connection,
    pub sql: Seq<char>,
}

/// The question that a statement was prepared for.
pub uninterp spec fn question_of(statement: Statement<'_>) -> Question;

/// Whether the database of a connection refused to prepare `sql`. That depends on what it
/// holds.
pub uninterp spec fn may_not_prepare(connection: Connection, sql: Seq<char>) -> bool;

/// The rows that have been read of the answer to a question, with `parameters` bound.
#[verifier::ext_equal]
pub struct Reading {
    pub connection: Connection,
    pub sql: Seq<char>,
    pub parameters: Seq<ParameterModel>,
    pub rows: Seq<Seq<SqlModel>>,
}

/// How far an answer has been read.
pub uninterp spec fn reading_of(rows: Rows<'_>) -> Reading;

/// What comes after the rows that have been read.
pub enum Rest {
    /// Nothing is known of it.
    Open,
    /// There is no other row.
    End,
    /// A failure.
    Failure,
}

/// Whether a database gave these rows, and then the rest. What a database answers depends on
/// what it holds at the time, so two answers to one question may differ.
pub uninterp spec fn may_read(reading: Reading, rest: Rest) -> bool;

/// The values in a row; a floating-point number comes with the decimal digits that it is
/// displayed with.
pub uninterp spec fn row_values(row: Row<'_>) -> Seq<SqlModel>;

/// Whether the database of a connection gave `reply` when it was asked `sql` with
/// `parameters` bound, and its rows were read until there were `most` of them, or to the end.
#[verifier::opaque]
pub open spec fn may_give(
    connection: Connection,
    sql: Seq<char>,
    parameters: Seq<ParameterModel>,
    most: usize,
    reply: ReplyModel,
) -> bool {
    let reading = Reading { connection, sql, parameters, rows: reply.rows };
    &&& reply.rows.len() <= most
    &&& if reply.failed {
        may_read(reading, Rest::Failure) || (reply.rows.len() == 0 && may_not_prepare(
            connection,
            sql,
        ))
    } else if reply.rows.len() == most {
        may_read(reading, Rest::Open)
    } else {
        may_read(reading, Rest::End)
    }
}

/// Whether the database of a connection gave `reply` when it was asked `sql` with
/// `parameters` bound, and all rows were read, as far as they can be counted.
pub open spec fn may_answer(
    connection: Connection,
    sql: Seq<char>,
    parameters: Seq<ParameterModel>,
    reply: ReplyModel,
) -> bool {
    may_give(connection, sql, parameters, usize::MAX, reply)
}

/// How many rows to read to see whether there are more than `limit`, as far as they can be
/// counted.
pub open spec fn rows_within(limit: u64) -> usize {
    if limit < usize::MAX {
        (limit + 1) as usize
    } else {
        usize::MAX
    }
}

/// Whether the database of a connection gave `reply` when it was asked `sql` with
/// `parameters` bound, and the rows were read as far as shows whether there are more than
/// `limit`.
pub open spec fn may_answer_within(
    connection: Connection,
    sql: Seq<char>,
    parameters: Seq<ParameterModel>,
    limit: u64,
    reply: ReplyModel,
) -> bool {
    may_give(connection, sql, parameters, rows_within(limit), reply)
}

/// Whether the database of a connection reported `changed` when it was told to run
/// `sql` with `parameters` bound; `None` stands for a failure.
pub uninterp spec fn may_change(
    connection: Connection,
    sql: Seq<char>,
    parameters: Seq<ParameterModel>,
    changed: Option<usize>,
) -> bool;

/// Calls `rusqlite::Connection::prepare`. The contract names what the statement asks, and
/// that the database refused it otherwise.
#[verifier::external_body]
fn prepare<'a>(connection: &'a Connection, sql: &str) -> (statement: Result<
    Statement<'a>,
    SqliteFailure,
>)
    ensures
        match statement {
            Ok(statement) => question_of(statement) == (Question {
                connection: *connection,
                sql: sql@,
            }),
            Err(_) => may_not_prepare(*connection, sql@),
        },
{
    connection.prepare(sql)
}

/// Calls `rusqlite::Statement::query`, which binds the parameters. Of the answer no row has
/// been read yet.
#[verifier::external_body]
fn start<'a>(statement: &'a mut Statement<'_>, values: &Vec<Value>) -> (rows: Result<
    Rows<'a>,
    SqliteFailure,
>)
    ensures
        ({
            let question = question_of(*old(statement));
            let reading = Reading {
                connection: question.connection,
                sql: question.sql,
                parameters: values_held(values@),
                rows: Seq::empty(),
            };
            match rows {
                Ok(rows) => reading_of(rows) == reading && may_read(reading, Rest::Open),
                Err(_) => may_read(reading, Rest::Failure),
            }
        }),
{
    statement.query(params_from_iter(values))
}

/// Calls `rusqlite::Rows::next`. A row that comes is the last one that has been read; where
/// none comes, the answer has ended or failed.
#[verifier::external_body]
fn step<'a, 'stmt>(rows: &'a mut Rows<'stmt>) -> (row: Result<
    Option<&'a Row<'stmt>>,
    SqliteFailure,
>)
    ensures
        ({
            let before = reading_of(*old(rows));
            match row {
                Ok(Some(row)) => {
                    &&& reading_of(*final(rows)) == (Reading {
                        rows: before.rows.push(row_values(*row)),
                        ..before
                    })
                    &&& may_read(reading_of(*final(rows)), Rest::Open)
                },
                Ok(None) => may_read(before, Rest::End),
                Err(_) => may_read(before, Rest::Failure),
            }
        }),
{
    rows.next()
}

/// Calls `rusqlite::Statement::column_count` on the statement of a row.
#[verifier::external_body]
fn column_count(row: &Row<'_>) -> (count: usize)
    ensures
        count == row_values(*row).len(),
{
    row.as_ref().column_count()
}

/// Calls `rusqlite::Row::get_ref`, which finds every column that there is, and converts the
/// value one for one. A floating-point number also gives the text that its `Display` writes.
#[verifier::external_body]
fn value_at(row: &Row<'_>, column: usize) -> (value: Result<SqlValue, SqliteFailure>)
    requires
        column < row_values(*row).len(),
    ensures
        value matches Ok(value) && value@ == row_values(*row)[column as int],
{
    Ok(match row.get_ref(column)? {
        ValueRef::Null => SqlValue::Null,
        ValueRef::Integer(value) => SqlValue::Integer(value),
        ValueRef::Real(value) => SqlValue::Real {
            value: Double { bits: value.to_bits() },
            text: value.to_string(),
        },
        ValueRef::Text(text) => SqlValue::Text(text.to_vec()),
        ValueRef::Blob(blob) => SqlValue::Blob(blob.to_vec()),
    })
}

/// Runs `rusqlite::Connection::execute`, which returns the number of rows that
/// changed. What that number is depends on what the database holds.
#[verifier::external_body]
fn execute_statement(connection: &Connection, sql: &str, values: &Vec<Value>) -> (changed:
    Result<usize, SqliteFailure>)
    ensures
        may_change(
            *connection,
            sql@,
            values_held(values@),
            match changed {
                Ok(count) => Some(count),
                Err(_) => None,
            },
        ),
{
    connection.execute(sql, params_from_iter(values))
}

/// The wording of a `rusqlite` failure, of which nothing is promised.
#[verifier::external_body]
fn failure_text(failure: &SqliteFailure) -> (text: String) {
    failure.to_string()
}

/// Whether opening an empty database in memory reported `opened`. That depends on the machine.
pub uninterp spec fn may_open(opened: bool) -> bool;

/// Opens an empty database in memory with `rusqlite::Connection::open_in_memory`. The contract
/// names the report.
#[verifier::external_body]
fn open_in_memory() -> (connection: Result<Connection, SqliteFailure>)
    ensures
        may_open(connection is Ok),
{
    Connection::open_in_memory()
}

/// Whether the main database of a connection is one that was read from `data`.
pub uninterp spec fn holds_image(connection: Connection, data: Seq<u8>) -> bool;

/// Whether a connection refused to hold the serialized database `data`. That depends on the
/// machine.
pub uninterp spec fn may_refuse(data: Seq<u8>) -> bool;

/// Replaces the main database of a connection by a serialized one, for reading
/// only, with `rusqlite::Connection::deserialize_read_exact`. The contract names
/// that the connection then holds that database, or refused it; what it answers is not
/// stated.
#[verifier::external_body]
fn deserialize(connection: &mut Connection, data: &[u8]) -> (result: Result<(), SqliteFailure>)
    ensures
        match result {
            Ok(()) => holds_image(*final(connection), data@),
            Err(_) => may_refuse(data@),
        },
{
    connection.deserialize_read_exact(rusqlite::MAIN_DB, data, data.len(), true)
}

/// An error for a `rusqlite` failure.
pub fn sqlite_error(failure: SqliteFailure) -> (error: Error)
    ensures
        error@ == Failure::Sqlite,
{
    Error::Sqlite { reason: failure_text(&failure) }
}

fn read_values(row: &Row<'_>) -> (values: Result<SqlRow, SqliteFailure>)
    ensures
        values matches Ok(values) && values@ == row_values(*row),
{
    let count: usize = column_count(row);
    let mut values: Vec<SqlValue> = Vec::new();
    while values.len() < count
        invariant
            count == row_values(*row).len(),
            values@.len() <= count,
            forall|i: int|
                0 <= i < values@.len() ==> (#[trigger] values@[i])@ == row_values(*row)[i],
        decreases count - values@.len(),
    {
        values.push(value_at(row, values.len())?);
    }
    assert(error::views(values@) =~= row_values(*row));
    Ok(SqlRow { values })
}

fn failed_reply(rows: Vec<SqlRow>, failure: SqliteFailure) -> (reply: Reply)
    ensures
        reply@ == (ReplyModel { rows: error::views(rows@), failed: true }),
{
    Reply { rows, failure: Some(failure_text(&failure)) }
}

fn read_rows(
    connection: &Connection,
    sql: &str,
    parameters: &Vec<SqlParameter>,
    most: usize,
) -> (reply: Reply)
    ensures
        may_give(*connection, sql@, error::views(parameters@), most, reply@),
{
    proof {
        reveal(may_give);
    }
    let values = bind(parameters);
    let mut rows: Vec<SqlRow> = Vec::new();
    assert(error::views(rows@) =~= Seq::<Seq<SqlModel>>::empty());
    let mut statement = match prepare(connection, sql) {
        Ok(statement) => statement,
        Err(failure) => return failed_reply(rows, failure),
    };
    let mut cursor = match start(&mut statement, &values) {
        Ok(cursor) => cursor,
        Err(failure) => return failed_reply(rows, failure),
    };
    while rows.len() < most
        invariant
            rows@.len() <= most,
            reading_of(cursor) == (Reading {
                connection: *connection,
                sql: sql@,
                parameters: error::views(parameters@),
                rows: error::views(rows@),
            }),
            may_read(reading_of(cursor), Rest::Open),
        decreases most - rows@.len(),
    {
        proof {
            reveal(may_give);
        }
        let row = match step(&mut cursor) {
            Ok(Some(row)) => read_values(row),
            Ok(None) => return Reply { rows, failure: None },
            Err(failure) => return failed_reply(rows, failure),
        };
        match row {
            Ok(row) => {
                proof {
                    error::views_push(rows@, row);
                }
                rows.push(row);
            },
            Err(failure) => return failed_reply(rows, failure),
        }
    }
    Reply { rows, failure: None }
}

/// Runs a query and collects its rows.
pub fn query(connection: &Connection, sql: &str, parameters: &Vec<SqlParameter>) -> (reply: Reply)
    ensures
        may_answer(*connection, sql@, error::views(parameters@), reply@),
{
    read_rows(connection, sql, parameters, usize::MAX)
}

/// Runs a query and collects its rows, but no more than one above a limit.
pub fn query_within(
    connection: &Connection,
    sql: &str,
    parameters: &Vec<SqlParameter>,
    limit: u64,
) -> (reply: Reply)
    ensures
        may_answer_within(*connection, sql@, error::views(parameters@), limit, reply@),
{
    let most: usize = if limit < usize::MAX as u64 {
        limit as usize + 1
    } else {
        usize::MAX
    };
    read_rows(connection, sql, parameters, most)
}

/// Runs a query with nothing bound and collects its rows, but no more than one above a limit.
pub fn query_all_within(connection: &Connection, sql: &str, limit: u64) -> (reply: Reply)
    ensures
        may_answer_within(*connection, sql@, Seq::empty(), limit, reply@),
{
    let parameters: Vec<SqlParameter> = Vec::new();
    assert(error::views(parameters@) =~= Seq::<ParameterModel>::empty());
    query_within(connection, sql, &parameters, limit)
}

/// Runs a query with one integer bound and collects its rows, but no more than one above a
/// limit.
pub fn query_by_id_within(connection: &Connection, sql: &str, id: i64, limit: u64) -> (reply: Reply)
    ensures
        may_answer_within(*connection, sql@, seq![ParameterModel::Integer(id)], limit, reply@),
{
    let mut parameters: Vec<SqlParameter> = Vec::new();
    parameters.push(SqlParameter::Integer(id));
    assert(error::views(parameters@) =~= seq![ParameterModel::Integer(id)]);
    query_within(connection, sql, &parameters, limit)
}

/// Runs a query with one integer bound.
pub fn query_by_id(connection: &Connection, sql: &str, id: i64) -> (reply: Reply)
    ensures
        may_answer(*connection, sql@, seq![ParameterModel::Integer(id)], reply@),
{
    let mut parameters: Vec<SqlParameter> = Vec::new();
    parameters.push(SqlParameter::Integer(id));
    assert(error::views(parameters@) =~= seq![ParameterModel::Integer(id)]);
    query(connection, sql, &parameters)
}

/// Runs a query with nothing bound.
pub fn query_all(connection: &Connection, sql: &str) -> (reply: Reply)
    ensures
        may_answer(*connection, sql@, Seq::empty(), reply@),
{
    let parameters: Vec<SqlParameter> = Vec::new();
    assert(error::views(parameters@) =~= Seq::<ParameterModel>::empty());
    query(connection, sql, &parameters)
}

/// Runs a statement that returns no rows, and gives the number of rows changed.
pub fn execute(connection: &Connection, sql: &str, parameters: &Vec<SqlParameter>) -> (changed:
    Result<usize, Error>)
    ensures
        may_change(
            *connection,
            sql@,
            error::views(parameters@),
            match changed {
                Ok(count) => Some(count),
                Err(_) => None,
            },
        ),
        changed matches Err(error) ==> error@ == Failure::Sqlite,
{
    match execute_statement(connection, sql, &bind(parameters)) {
        Ok(changed) => Ok(changed),
        Err(failure) => Err(sqlite_error(failure)),
    }
}

/// Opens a serialized database for reading.
pub fn open_serialized(data: &[u8]) -> (connection: Result<Connection, Error>)
    ensures
        match connection {
            Ok(connection) => holds_image(connection, data@),
            Err(error) => error@ == Failure::Sqlite && (may_open(false) || may_refuse(data@)),
        },
{
    let mut connection = match open_in_memory() {
        Ok(connection) => connection,
        Err(failure) => return Err(sqlite_error(failure)),
    };
    match deserialize(&mut connection, data) {
        Ok(()) => Ok(connection),
        Err(failure) => Err(sqlite_error(failure)),
    }
}

/// A type that one row of a reply gives a value of.
pub trait FromRow: View + Sized {
    /// The value that a row stands for.
    spec fn row_model(row: Seq<SqlModel>) -> Result<Self::V, Failure>;

    /// Reads the value that a row stands for.
    fn read_row(row: &SqlRow) -> (value: Result<Self, Error>)
        ensures
            error::outcome(value) == Self::row_model(row@),
    ;
}

/// What the rows of a reply from `at` on stand for, after the values `found`.
pub open spec fn collected_from<T: FromRow>(reply: ReplyModel, at: int, found: Seq<T::V>) -> Result<
    Seq<T::V>,
    Failure,
>
    decreases reply.rows.len() - at,
{
    if at >= reply.rows.len() {
        if reply.failed {
            Err(Failure::Sqlite)
        } else {
            Ok(found)
        }
    } else {
        match T::row_model(reply.rows[at]) {
            Err(failure) => Err(failure),
            Ok(value) => collected_from::<T>(reply, at + 1, found.push(value)),
        }
    }
}

/// What the rows of a reply stand for, in order, up to the first that is invalid.
pub open spec fn collected<T: FromRow>(reply: ReplyModel) -> Result<Seq<T::V>, Failure> {
    collected_from::<T>(reply, 0, Seq::empty())
}

/// Reads every row of a reply.
pub fn collect<T: FromRow>(reply: &Reply) -> (values: Result<Vec<T>, Error>)
    ensures
        error::listed(values) == collected::<T>(reply@),
{
    let mut found: Vec<T> = Vec::new();
    let mut at: usize = 0;
    assert(error::views(found@) =~= Seq::<T::V>::empty());
    while at < reply.rows.len()
        invariant
            at <= reply.rows@.len(),
            collected::<T>(reply@) == collected_from::<T>(reply@, at as int, error::views(found@)),
        decreases reply.rows@.len() - at,
    {
        assert(reply@.rows[at as int] == reply.rows@[at as int]@);
        match T::read_row(&reply.rows[at]) {
            Ok(value) => {
                proof {
                    assert(error::views(found@.push(value)) =~= error::views(found@).push(value@));
                }
                found.push(value);
            },
            Err(error) => return Err(error),
        }
        at = at + 1;
    }
    match reply.failure() {
        Some(error) => Err(error),
        None => Ok(found),
    }
}

/// The first row of a reply, if there is one: what a query for one row gives.
pub open spec fn first_row(reply: ReplyModel) -> Result<Option<Seq<SqlModel>>, Failure> {
    if reply.rows.len() > 0 {
        Ok(Some(reply.rows[0]))
    } else if reply.failed {
        Err(Failure::Sqlite)
    } else {
        Ok(None)
    }
}

/// The first row of a reply that has to have one.
pub open spec fn only_row(reply: ReplyModel) -> Result<Seq<SqlModel>, Failure> {
    if reply.rows.len() > 0 {
        Ok(reply.rows[0])
    } else {
        Err(Failure::Sqlite)
    }
}

impl Reply {
    /// How the number in a column of a row is written in decimal digits.
    pub fn number_text(&self, row: usize, column: usize) -> (text: String)
        ensures
            text@ == reply_text(self@, row as int, column as int),
    {
        if row < self.rows.len() {
            assert(self@.rows[row as int] == self.rows@[row as int]@);
            self.rows[row].number_text(column)
        } else {
            let text = Message::new("");
            proof {
                reveal_strlit("");
            }
            assert(text@ =~= Seq::<char>::empty());
            text.build()
        }
    }

    /// The failure that ended the query.
    pub fn failure(&self) -> (failure: Option<Error>)
        ensures
            failure is Some == self@.failed,
            failure matches Some(error) ==> error@ == Failure::Sqlite,
    {
        match &self.failure {
            Some(reason) => Some(Error::Sqlite { reason: reason.clone() }),
            None => None,
        }
    }

    /// The first row, if there is one.
    pub fn first_row(&self) -> (row: Result<Option<&SqlRow>, Error>)
        ensures
            match row {
                Ok(Some(row)) => self.rows@.len() > 0 && *row == self.rows@[0] && first_row(self@)
                    == Ok::<Option<Seq<SqlModel>>, Failure>(Some(row@)),
                Ok(None) => first_row(self@) == Ok::<Option<Seq<SqlModel>>, Failure>(None),
                Err(error) => first_row(self@) == Err::<Option<Seq<SqlModel>>, Failure>(error@),
            },
    {
        if self.rows.len() > 0 {
            return Ok(Some(&self.rows[0]));
        }
        match self.failure() {
            Some(error) => Err(error),
            None => Ok(None),
        }
    }

    /// The first row, which has to be there.
    pub fn only_row(&self) -> (row: Result<&SqlRow, Error>)
        ensures
            match row {
                Ok(row) => self.rows@.len() > 0 && *row == self.rows@[0] && only_row(self@) == Ok::<
                    Seq<SqlModel>,
                    Failure,
                >(row@),
                Err(error) => only_row(self@) == Err::<Seq<SqlModel>, Failure>(error@),
            },
    {
        if self.rows.len() > 0 {
            return Ok(&self.rows[0]);
        }
        match self.failure() {
            Some(error) => Err(error),
            None => Err(Error::Sqlite { reason: Message::new("Query returned no rows").build() }),
        }
    }
}

/// The integer in a column.
pub open spec fn integer_at(row: Seq<SqlModel>, column: int) -> Result<i64, Failure> {
    if column < row.len() {
        match row[column] {
            SqlModel::Integer(value) => Ok(value),
            _ => Err(Failure::Sqlite),
        }
    } else {
        Err(Failure::Sqlite)
    }
}

/// The integer in a column, or its absence.
pub open spec fn optional_integer_at(row: Seq<SqlModel>, column: int) -> Result<
    Option<i64>,
    Failure,
> {
    if column < row.len() {
        match row[column] {
            SqlModel::Integer(value) => Ok(Some(value)),
            SqlModel::Null => Ok(None),
            _ => Err(Failure::Sqlite),
        }
    } else {
        Err(Failure::Sqlite)
    }
}

/// The number in a column; an integer stands for the nearest one.
pub open spec fn real_at(row: Seq<SqlModel>, column: int) -> Result<Double, Failure> {
    if column < row.len() {
        match row[column] {
            SqlModel::Real { value, .. } => Ok(value),
            SqlModel::Integer(value) => Ok(Double { bits: reals::integer_bits(value as int) }),
            _ => Err(Failure::Sqlite),
        }
    } else {
        Err(Failure::Sqlite)
    }
}

/// How the number in a column is written in decimal digits; an integer stands for the nearest
/// one.
pub open spec fn real_text_at(row: Seq<SqlModel>, column: int) -> Seq<char> {
    if column < row.len() {
        match row[column] {
            SqlModel::Real { text, .. } => text,
            SqlModel::Integer(value) => if value < 0 {
                "-"@ + message::decimal(reals::nearest_natural((-value) as u64) as nat)
            } else {
                message::decimal(reals::nearest_natural(value as u64) as nat)
            },
            _ => Seq::empty(),
        }
    } else {
        Seq::empty()
    }
}

/// How the number in a column of a row is written in decimal digits.
pub open spec fn reply_text(reply: ReplyModel, row: int, column: int) -> Seq<char> {
    if row < reply.rows.len() {
        real_text_at(reply.rows[row], column)
    } else {
        Seq::empty()
    }
}

/// The number in a column, or its absence.
pub open spec fn optional_real_at(row: Seq<SqlModel>, column: int) -> Result<
    Option<Double>,
    Failure,
> {
    if column < row.len() && row[column] is Null {
        Ok(None)
    } else {
        match real_at(row, column) {
            Ok(value) => Ok(Some(value)),
            Err(failure) => Err(failure),
        }
    }
}

/// The text in a column, which has to be valid UTF-8.
pub open spec fn text_at(row: Seq<SqlModel>, column: int) -> Result<Seq<char>, Failure> {
    if column < row.len() {
        match row[column] {
            SqlModel::Text(bytes) => match text_codec::utf8_text(bytes) {
                Some(text) => Ok(text),
                None => Err(Failure::Sqlite),
            },
            _ => Err(Failure::Sqlite),
        }
    } else {
        Err(Failure::Sqlite)
    }
}

/// The text in a column, or its absence.
pub open spec fn optional_text_at(row: Seq<SqlModel>, column: int) -> Result<
    Option<Seq<char>>,
    Failure,
> {
    if column < row.len() && row[column] is Null {
        Ok(None)
    } else {
        match text_at(row, column) {
            Ok(text) => Ok(Some(text)),
            Err(failure) => Err(failure),
        }
    }
}

/// The bytes in a column, whether it holds a text or a byte string.
pub open spec fn bytes_at(row: Seq<SqlModel>, column: int) -> Result<Seq<u8>, Failure> {
    if column < row.len() {
        match row[column] {
            SqlModel::Text(bytes) => Ok(bytes),
            SqlModel::Blob(bytes) => Ok(bytes),
            _ => Err(Failure::Sqlite),
        }
    } else {
        Err(Failure::Sqlite)
    }
}

/// The bytes in a column, or their absence.
pub open spec fn optional_bytes_at(row: Seq<SqlModel>, column: int) -> Result<
    Option<Seq<u8>>,
    Failure,
> {
    if column < row.len() && row[column] is Null {
        Ok(None)
    } else {
        match bytes_at(row, column) {
            Ok(bytes) => Ok(Some(bytes)),
            Err(failure) => Err(failure),
        }
    }
}

/// The byte string in a column.
pub open spec fn blob_at(row: Seq<SqlModel>, column: int) -> Result<Seq<u8>, Failure> {
    if column < row.len() {
        match row[column] {
            SqlModel::Blob(bytes) => Ok(bytes),
            _ => Err(Failure::Sqlite),
        }
    } else {
        Err(Failure::Sqlite)
    }
}

/// The UTF-8 text in a column, whether it holds a text or a byte string.
pub open spec fn loose_text_at(row: Seq<SqlModel>, column: int) -> Result<Seq<char>, Failure> {
    match bytes_at(row, column) {
        Ok(bytes) => match text_codec::utf8_text(bytes) {
            Some(text) => Ok(text),
            None => Err(Failure::Sqlite),
        },
        Err(failure) => Err(failure),
    }
}

/// The UTF-8 text in a column, or its absence.
pub open spec fn optional_loose_text_at(row: Seq<SqlModel>, column: int) -> Result<
    Option<Seq<char>>,
    Failure,
> {
    if column < row.len() && row[column] is Null {
        Ok(None)
    } else {
        match loose_text_at(row, column) {
            Ok(text) => Ok(Some(text)),
            Err(failure) => Err(failure),
        }
    }
}

fn invalid_column(column: usize) -> (error: Error)
    ensures
        error@ == Failure::Sqlite,
{
    Error::Sqlite {
        reason: Message::new("Invalid column type at index: ").number(column as u64).build(),
    }
}

fn invalid_text(column: usize) -> (error: Error)
    ensures
        error@ == Failure::Sqlite,
{
    Error::Sqlite {
        reason: Message::new("invalid UTF-8 at index ").number(column as u64).build(),
    }
}

impl SqlRow {
    fn is_null(&self, column: usize) -> (null: bool)
        ensures
            null == (column < self@.len() && self@[column as int] is Null),
    {
        if column < self.values.len() {
            match &self.values[column] {
                SqlValue::Null => true,
                _ => false,
            }
        } else {
            false
        }
    }

    pub fn integer(&self, column: usize) -> (value: Result<i64, Error>)
        ensures
            error::plain(value) == integer_at(self@, column as int),
    {
        if column < self.values.len() {
            assert(self@[column as int] == self.values@[column as int]@);
            match &self.values[column] {
                SqlValue::Integer(value) => return Ok(*value),
                _ => {},
            }
        }
        Err(invalid_column(column))
    }

    pub fn optional_integer(&self, column: usize) -> (value: Result<Option<i64>, Error>)
        ensures
            error::plain(value) == optional_integer_at(self@, column as int),
    {
        if self.is_null(column) {
            return Ok(None);
        }
        match self.integer(column) {
            Ok(value) => Ok(Some(value)),
            Err(error) => Err(error),
        }
    }

    pub fn number(&self, column: usize) -> (value: Result<Double, Error>)
        ensures
            error::plain(value) == real_at(self@, column as int),
    {
        if column < self.values.len() {
            assert(self@[column as int] == self.values@[column as int]@);
            match &self.values[column] {
                SqlValue::Real { value, .. } => return Ok(*value),
                SqlValue::Integer(value) => return Ok(Double::from_i64(*value)),
                _ => {},
            }
        }
        Err(invalid_column(column))
    }

    /// How a number is written in decimal digits.
    pub fn number_text(&self, column: usize) -> (text: String)
        ensures
            text@ == real_text_at(self@, column as int),
    {
        if column < self.values.len() {
            assert(self@[column as int] == self.values@[column as int]@);
            match &self.values[column] {
                SqlValue::Real { text, .. } => return text.clone(),
                SqlValue::Integer(value) => {
                    let value: i64 = *value;
                    if value < 0 {
                        let magnitude: u64 = if value == i64::MIN {
                            0x8000_0000_0000_0000
                        } else {
                            (-value) as u64
                        };
                        return Message::new("-").number(round_natural(magnitude)).build();
                    }
                    let text = Message::new("").number(round_natural(value as u64));
                    proof {
                        reveal_strlit("");
                    }
                    assert(text@ =~= real_text_at(self@, column as int));
                    return text.build();
                },
                _ => {},
            }
        }
        let text = Message::new("");
        proof {
            reveal_strlit("");
        }
        assert(text@ =~= Seq::<char>::empty());
        text.build()
    }

    pub fn optional_number(&self, column: usize) -> (value: Result<Option<Double>, Error>)
        ensures
            error::plain(value) == optional_real_at(self@, column as int),
    {
        if self.is_null(column) {
            return Ok(None);
        }
        match self.number(column) {
            Ok(value) => Ok(Some(value)),
            Err(error) => Err(error),
        }
    }

    pub fn text(&self, column: usize) -> (value: Result<String, Error>)
        ensures
            error::outcome(value) == text_at(self@, column as int),
    {
        if column < self.values.len() {
            assert(self@[column as int] == self.values@[column as int]@);
            match &self.values[column] {
                SqlValue::Text(bytes) => {
                    return match decode_utf8(bytes.as_slice()) {
                        Some(text) => Ok(text),
                        None => Err(invalid_text(column)),
                    };
                },
                _ => {},
            }
        }
        Err(invalid_column(column))
    }

    pub fn optional_text(&self, column: usize) -> (value: Result<Option<String>, Error>)
        ensures
            match value {
                Ok(text) => optional_text_at(self@, column as int) == Ok::<
                    Option<Seq<char>>,
                    Failure,
                >(error::optional_text(text)),
                Err(error) => optional_text_at(self@, column as int) == Err::<
                    Option<Seq<char>>,
                    Failure,
                >(error@),
            },
    {
        if self.is_null(column) {
            return Ok(None);
        }
        match self.text(column) {
            Ok(value) => Ok(Some(value)),
            Err(error) => Err(error),
        }
    }

    pub fn bytes(&self, column: usize) -> (value: Result<Vec<u8>, Error>)
        ensures
            error::outcome(value) == bytes_at(self@, column as int),
    {
        if column < self.values.len() {
            assert(self@[column as int] == self.values@[column as int]@);
            match &self.values[column] {
                SqlValue::Text(bytes) => return Ok(copy_all(bytes)),
                SqlValue::Blob(bytes) => return Ok(copy_all(bytes)),
                _ => {},
            }
        }
        Err(invalid_column(column))
    }

    pub fn optional_bytes(&self, column: usize) -> (value: Result<Option<Vec<u8>>, Error>)
        ensures
            match value {
                Ok(bytes) => optional_bytes_at(self@, column as int) == Ok::<
                    Option<Seq<u8>>,
                    Failure,
                >(error::optional_bytes(bytes)),
                Err(error) => optional_bytes_at(self@, column as int) == Err::<
                    Option<Seq<u8>>,
                    Failure,
                >(error@),
            },
    {
        if self.is_null(column) {
            return Ok(None);
        }
        match self.bytes(column) {
            Ok(value) => Ok(Some(value)),
            Err(error) => Err(error),
        }
    }

    pub fn blob(&self, column: usize) -> (value: Result<Vec<u8>, Error>)
        ensures
            error::outcome(value) == blob_at(self@, column as int),
    {
        if column < self.values.len() {
            assert(self@[column as int] == self.values@[column as int]@);
            match &self.values[column] {
                SqlValue::Blob(bytes) => return Ok(copy_all(bytes)),
                _ => {},
            }
        }
        Err(invalid_column(column))
    }

    pub fn loose_text(&self, column: usize) -> (value: Result<String, Error>)
        ensures
            error::outcome(value) == loose_text_at(self@, column as int),
    {
        match self.bytes(column) {
            Ok(bytes) => match decode_utf8(bytes.as_slice()) {
                Some(text) => Ok(text),
                None => Err(invalid_text(column)),
            },
            Err(error) => Err(error),
        }
    }

    pub fn optional_loose_text(&self, column: usize) -> (value: Result<Option<String>, Error>)
        ensures
            match value {
                Ok(text) => optional_loose_text_at(self@, column as int) == Ok::<
                    Option<Seq<char>>,
                    Failure,
                >(error::optional_text(text)),
                Err(error) => optional_loose_text_at(self@, column as int) == Err::<
                    Option<Seq<char>>,
                    Failure,
                >(error@),
            },
    {
        if self.is_null(column) {
            return Ok(None);
        }
        match self.loose_text(column) {
            Ok(value) => Ok(Some(value)),
            Err(error) => Err(error),
        }
    }
}

/// Copies a byte string.
pub fn copy_all(bytes: &Vec<u8>) -> (copy: Vec<u8>)
    ensures
        copy@ == bytes@,
{
    proof {
        assert(bytes@.subrange(0, bytes@.len() as int) =~= bytes@);
    }
    copy_bytes(bytes.as_slice(), 0, bytes.len())
}

} // verus!
