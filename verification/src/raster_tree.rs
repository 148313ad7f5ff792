//! What a raster layer is cloned into: tables that rows can be added to, and a layer tree.

use std::collections::{BTreeMap, BTreeSet};

use rusqlite::Connection;
use vstd::prelude::*;

use crate::database;
use crate::database::quote_identifier;
use crate::error;
use crate::error::{Error, Failure};
use crate::limits::Limits;
use crate::message;
use crate::message::Message;
use crate::sql;
use crate::sql::{collect, query_all, query_by_id, FromRow, Reply, SqlModel, SqlRow};
use crate::text_codec::same_text;

verus! {

fn unwritable(reason: Message) -> (error: Error)
    ensures
        error@ == (Failure::InvalidWrite { reason: reason@ }),
{
    Error::InvalidWrite { reason: reason.build() }
}

/// The failure for a value above its limit.
pub open spec fn above(resource: Seq<char>, value: u64, limit: u64) -> Failure {
    Failure::LimitExceeded { resource, value, limit }
}

/// The integers in the first columns of a row.
pub open spec fn integers_of(row: Seq<SqlModel>, count: nat) -> Result<Seq<i64>, Failure> {
    if forall|i: int| 0 <= i < count ==> #[trigger] sql::integer_at(row, i) is Ok {
        Ok(Seq::new(count, |i: int| sql::integer_at(row, i)->Ok_0))
    } else {
        Err(Failure::Sqlite)
    }
}

/// Reads the integers in the first columns of a row.
pub fn read_integers(row: &SqlRow, count: usize) -> (list: Result<Vec<i64>, Error>)
    ensures
        error::outcome(list) == integers_of(row@, count as nat),
        list matches Ok(list) ==> list@.len() == count,
{
    let mut list: Vec<i64> = Vec::new();
    while list.len() < count
        invariant
            list@.len() <= count,
            forall|i: int|
                0 <= i < list@.len() ==> #[trigger] sql::integer_at(row@, i) == Ok::<i64, Failure>(
                    list@[i],
                ),
        decreases count - list@.len(),
    {
        let ghost at = list@.len() as int;
        match row.integer(list.len()) {
            Ok(value) => list.push(value),
            Err(error) => {
                assert(!(sql::integer_at(row@, at) is Ok));
                return Err(error);
            },
        }
    }
    assert(list@ =~= integers_of(row@, count as nat)->Ok_0);
    Ok(list)
}

/// The question that counts the rows of a table with an ID.
pub open spec fn count_question(table: Seq<char>) -> Seq<char> {
    "SELECT count(*) FROM "@ + database::quoted_name(table) + " WHERE MainId = ?1"@
}

/// The number that a reply gives.
pub open spec fn number_in(reply: sql::ReplyModel) -> Result<i64, Failure> {
    match sql::only_row(reply) {
        Err(failure) => Err(failure),
        Ok(row) => sql::integer_at(row, 0),
    }
}

fn read_number(reply: &Reply) -> (number: Result<i64, Error>)
    ensures
        error::plain(number) == number_in(reply@),
{
    reply.only_row()?.integer(0)
}

/// Whether asking for a row, once its ID is known to be unique, can have this outcome.
pub open spec fn counted_row_read(
    connection: Connection,
    table: Seq<char>,
    count: Result<i64, Failure>,
    id: i64,
    question: Seq<char>,
    outcome: Result<Seq<SqlModel>, Failure>,
) -> bool {
    match count {
        Err(failure) => outcome == Err::<Seq<SqlModel>, Failure>(failure),
        Ok(count) => if count != 1 {
            outcome == Err::<Seq<SqlModel>, Failure>(
                Failure::InvalidWrite {
                    reason: table + ".MainId "@ + message::decimal_signed(id as int) + " resolves to "@
                        + message::decimal_signed(count as int) + " rows"@,
                 },
            )
        } else {
            exists|reply: sql::ReplyModel|
                #[trigger] sql::may_answer(
                    connection,
                    question,
                    seq![sql::ParameterModel::Integer(id)],
                    reply,
                ) && outcome == sql::only_row(reply)
        },
    }
}

/// Whether asking for the one row of a table with an ID can have this outcome.
pub open spec fn unique_row_read(
    connection: Connection,
    table: Seq<char>,
    id: i64,
    question: Seq<char>,
    outcome: Result<Seq<SqlModel>, Failure>,
) -> bool {
    exists|reply: sql::ReplyModel|
        #[trigger] sql::may_answer(
            connection,
            count_question(table),
            seq![sql::ParameterModel::Integer(id)],
            reply,
        ) && counted_row_read(connection, table, number_in(reply), id, question, outcome)
}

/// What a reply gives as its first row.
pub open spec fn row_given(reply: Result<Reply, Error>) -> Result<Seq<SqlModel>, Failure> {
    match reply {
        Ok(reply) => sql::only_row(reply@),
        Err(error) => Err(error@),
    }
}

/// Asks for the one row of a table with an ID.
pub fn unique_row(connection: &Connection, table: &str, id: i64, question: &str) -> (reply: Result<
    Reply,
    Error,
>)
    ensures
        unique_row_read(*connection, table@, id, question@, row_given(reply)),
        reply matches Ok(reply) ==> reply.rows@.len() > 0,
{
    let counted = Message::new("SELECT count(*) FROM ").text(
        quote_identifier(table).as_str(),
    ).text(" WHERE MainId = ?1").build();
    let reply = query_by_id(connection, counted.as_str(), id);
    assert(sql::may_answer(
        *connection,
        count_question(table@),
        seq![sql::ParameterModel::Integer(id)],
        reply@,
    ));
    let number = read_number(&reply);
    let ghost count = error::plain(number);
    let number: i64 = match number {
        Ok(number) => number,
        Err(error) => {
            assert(counted_row_read(*connection, table@, count, id, question@, Err(error@)));
            return Err(error);
        },
    };
    if number != 1 {
        let error = unwritable(
            Message::new(table).text(".MainId ").integer(id).text(" resolves to ").integer(
                number,
            ).text(" rows"),
        );
        assert(counted_row_read(*connection, table@, count, id, question@, Err(error@)));
        return Err(error);
    }
    let reply = query_by_id(connection, question, id);
    assert(sql::may_answer(*connection, question@, seq![sql::ParameterModel::Integer(id)], reply@));
    assert(counted_row_read(*connection, table@, count, id, question@, sql::only_row(reply@)));
    match reply.only_row() {
        Ok(_) => {},
        Err(error) => return Err(error),
    }
    Ok(reply)
}

/// One column of a table that rows are cloned in.
#[derive(Clone, Debug, PartialEq, Eq)]
pub struct CloneColumn {
    pub name: String,
    pub primary_key: i64,
    pub hidden: i64,
}

/// The model of a [`CloneColumn`].
#[verifier::ext_equal]
pub struct CloneColumnModel {
    pub name: Seq<char>,
    pub primary_key: i64,
    pub hidden: i64,
}

impl View for CloneColumn {
    type V = CloneColumnModel;

    open spec fn view(&self) -> CloneColumnModel {
        CloneColumnModel {
            name: self.name@,
            primary_key: self.primary_key,
            hidden: self.hidden,
        }
    }
}

impl FromRow for CloneColumn {
    open spec fn row_model(row: Seq<SqlModel>) -> Result<CloneColumnModel, Failure> {
        match (sql::text_at(row, 1), sql::integer_at(row, 5), sql::integer_at(row, 6)) {
            (Ok(name), Ok(primary_key), Ok(hidden)) => Ok(
                CloneColumnModel { name, primary_key, hidden },
            ),
            _ => Err(Failure::Sqlite),
        }
    }

    fn read_row(row: &SqlRow) -> (value: Result<CloneColumn, Error>) {
        Ok(
            CloneColumn {
                name: row.text(1)?,
                primary_key: row.integer(5)?,
                hidden: row.integer(6)?,
            },
        )
    }
}

/// Whether a column can be cloned: the row key is generated anew, and no other column is
/// part of a key.
pub open spec fn column_cloneable(column: CloneColumnModel) -> bool {
    if column.name == "_PW_ID"@ {
        column.primary_key != 0 && column.hidden == 0
    } else {
        column.primary_key == 0
    }
}

/// The names of the columns among the first `count` whose values a clone takes.
pub open spec fn kept_columns(columns: Seq<CloneColumnModel>, count: int) -> Seq<Seq<char>>
    decreases count,
{
    if count <= 0 {
        Seq::empty()
    } else if columns[count - 1].name != "_PW_ID"@ && columns[count - 1].hidden == 0 {
        kept_columns(columns, count - 1).push(columns[count - 1].name)
    } else {
        kept_columns(columns, count - 1)
    }
}

/// Whether one of the first `count` columns is the row key.
pub open spec fn keyed(columns: Seq<CloneColumnModel>, count: int) -> bool {
    exists|i: int| 0 <= i < count && (#[trigger] columns[i]).name == "_PW_ID"@
}

/// What is said of a table that has no cloneable columns, or of the first of its columns from
/// `at` on that cannot be cloned.
pub open spec fn columns_complaint(
    table: Seq<char>,
    columns: Seq<CloneColumnModel>,
    at: int,
) -> Seq<char>
    decreases columns.len() - at,
{
    if at >= columns.len() {
        if columns.len() == 0 {
            "raster clone requires table "@ + table
        } else {
            table + " has no safely cloneable row layout"@
        }
    } else if column_cloneable(columns[at]) {
        columns_complaint(table, columns, at + 1)
    } else if columns[at].name == "_PW_ID"@ {
        table + "._PW_ID is not a regeneratable primary key"@
    } else {
        "raster clone cannot regenerate unexpected "@ + table + " primary-key column "@
            + message::quoted_text(columns[at].name)
    }
}

/// The names of the columns whose values a clone takes.
pub open spec fn cloned_columns(table: Seq<char>, columns: Seq<CloneColumnModel>) -> Result<
    Seq<Seq<char>>,
    Failure,
> {
    let count = columns.len() as int;
    if (forall|i: int| 0 <= i < count ==> column_cloneable(#[trigger] columns[i])) && keyed(
        columns,
        count,
    ) && kept_columns(columns, count).len() > 0 {
        Ok(kept_columns(columns, count))
    } else {
        Err(Failure::InvalidWrite { reason: columns_complaint(table, columns, 0) })
    }
}

/// The texts of a list.
pub open spec fn texts(list: Seq<String>) -> Seq<Seq<char>> {
    Seq::new(list.len(), |i: int| list[i]@)
}

/// A list of texts, or why there is none.
pub open spec fn text_list(result: Result<Vec<String>, Error>) -> Result<Seq<Seq<char>>, Failure> {
    match result {
        Ok(list) => Ok(texts(list@)),
        Err(error) => Err(error@),
    }
}

/// Chooses the columns whose values a clone takes.
pub fn choose_columns(columns: &[CloneColumn], table: &str) -> (names: Result<Vec<String>, Error>)
    ensures
        text_list(names) == cloned_columns(table@, error::views(columns@)),
{
    let ghost models = error::views(columns@);
    let mut names: Vec<String> = Vec::new();
    let mut key: bool = false;
    let mut at: usize = 0;
    assert(texts(names@) =~= Seq::<Seq<char>>::empty());
    while at < columns.len()
        invariant
            at <= columns@.len(),
            models == error::views(columns@),
            texts(names@) == kept_columns(models, at as int),
            key == keyed(models, at as int),
            columns_complaint(table@, models, 0) == columns_complaint(table@, models, at as int),
            forall|i: int| 0 <= i < at ==> column_cloneable(#[trigger] models[i]),
        decreases columns@.len() - at,
    {
        let column = &columns[at];
        assert(models[at as int] == column@);
        if same_text(column.name.as_str(), "_PW_ID") {
            if column.primary_key == 0 || column.hidden != 0 {
                assert(!column_cloneable(models[at as int]));
                return Err(
                    unwritable(
                        Message::new(table).text("._PW_ID is not a regeneratable primary key"),
                    ),
                );
            }
            key = true;
            assert(keyed(models, at + 1)) by {
                assert(models[at as int].name == "_PW_ID"@);
            }
        } else {
            if column.primary_key != 0 {
                assert(!column_cloneable(models[at as int]));
                return Err(
                    unwritable(
                        Message::new("raster clone cannot regenerate unexpected ").text(
                            table,
                        ).text(" primary-key column ").quoted(column.name.as_str()),
                    ),
                );
            }
            if column.hidden == 0 {
                let ghost before = names@;
                names.push(column.name.clone());
                assert(texts(names@) =~= texts(before).push(column.name@));
            }
            assert(keyed(models, at + 1) == keyed(models, at as int)) by {
                if keyed(models, at + 1) {
                    let i = choose|i: int|
                        0 <= i < at + 1 && (#[trigger] models[i]).name == "_PW_ID"@;
                    assert(i < at);
                }
                if keyed(models, at as int) {
                    let i = choose|i: int|
                        0 <= i < at && (#[trigger] models[i]).name == "_PW_ID"@;
                    assert(models[i].name == "_PW_ID"@);
                }
            }
        }
        at = at + 1;
    }
    assert(texts(names@).len() == names@.len());
    if !key || names.len() == 0 {
        return Err(
            unwritable(
                if columns.len() == 0 {
                    Message::new("raster clone requires table ").text(table)
                } else {
                    Message::new(table).text(" has no safely cloneable row layout")
                },
            ),
        );
    }
    Ok(names)
}

/// The question that describes the columns of a table.
pub open spec fn table_question(table: Seq<char>) -> Seq<char> {
    "PRAGMA table_xinfo("@ + database::quoted_name(table) + ")"@
}

/// The columns whose values a clone takes, from a reply that describes them.
pub open spec fn columns_in(table: Seq<char>, reply: sql::ReplyModel) -> Result<
    Seq<Seq<char>>,
    Failure,
> {
    match sql::collected::<CloneColumn>(reply) {
        Err(failure) => Err(failure),
        Ok(columns) => cloned_columns(table, columns),
    }
}

/// Whether reading the columns whose values a clone takes can have this outcome.
pub open spec fn columns_read(
    connection: Connection,
    table: Seq<char>,
    outcome: Result<Seq<Seq<char>>, Failure>,
) -> bool {
    exists|reply: sql::ReplyModel|
        #[trigger] sql::may_answer(
            connection,
            table_question(table),
            Seq::empty(),
            reply,
        ) && outcome
            == columns_in(table, reply)
}

/// Reads the columns whose values a clone takes.
pub fn cloneable_table_columns(connection: &Connection, table: &str) -> (names: Result<
    Vec<String>,
    Error,
>)
    ensures
        columns_read(*connection, table@, text_list(names)),
{
    let question = Message::new("PRAGMA table_xinfo(").text(
        quote_identifier(table).as_str(),
    ).text(")").build();
    let reply = query_all(connection, question.as_str());
    assert(sql::may_answer(*connection, table_question(table@), Seq::empty(), reply@));
    let columns: Result<Vec<CloneColumn>, Error> = collect(&reply);
    match columns {
        Err(error) => Err(error),
        Ok(columns) => choose_columns(columns.as_slice(), table),
    }
}

/// Whether a table with these columns has the ones that a clone needs.
pub open spec fn has_all(columns: Seq<Seq<char>>, needed: Seq<Seq<char>>) -> bool {
    forall|i: int| 0 <= i < needed.len() ==> columns.contains(#[trigger] needed[i])
}

/// What is said of the first of the columns from `at` on that a table does not have.
pub open spec fn missing_complaint(
    table: Seq<char>,
    columns: Seq<Seq<char>>,
    needed: Seq<Seq<char>>,
    at: int,
) -> Seq<char>
    decreases needed.len() - at,
{
    if at < needed.len() && columns.contains(needed[at]) {
        missing_complaint(table, columns, needed, at + 1)
    } else {
        "raster clone requires "@ + table + "."@ + needed[at]
    }
}

/// What becomes of a table with these columns.
pub open spec fn table_checked(
    table: Seq<char>,
    columns: Result<Seq<Seq<char>>, Failure>,
    needed: Seq<Seq<char>>,
) -> Result<
    (),
    Failure,
> {
    match columns {
        Err(failure) => Err(failure),
        Ok(columns) => if has_all(columns, needed) {
            Ok(())
        } else {
            Err(Failure::InvalidWrite { reason: missing_complaint(table, columns, needed, 0) })
        },
    }
}

/// Whether checking the columns that a clone needs can have this outcome.
pub open spec fn table_check(
    connection: Connection,
    table: Seq<char>,
    needed: Seq<Seq<char>>,
    outcome: Result<(), Failure>,
) -> bool {
    exists|columns: Result<Seq<Seq<char>>, Failure>|
        #[trigger] columns_read(
            connection,
            table,
            columns,
        ) && outcome == table_checked(table, columns, needed)
}

fn holds_name(names: &Vec<String>, name: &str) -> (found: bool)
    ensures
        found == texts(names@).contains(name@),
{
    let ghost list = texts(names@);
    let mut at: usize = 0;
    while at < names.len()
        invariant
            at <= names@.len(),
            list == texts(names@),
            forall|i: int| 0 <= i < at ==> #[trigger] list[i] != name@,
        decreases names@.len() - at,
    {
        assert(list[at as int] == names@[at as int]@);
        if same_text(names[at].as_str(), name) {
            return true;
        }
        at = at + 1;
    }
    false
}

/// Checks that a table has the columns that a clone needs.
pub fn require_raster_clone_columns(connection: &Connection, table: &str, needed: &[&str]) -> (
result: Result<(), Error>)
    ensures
        table_check(*connection, table@, database::names(needed@), error::plain(result)),
{
    let names = cloneable_table_columns(connection, table);
    let ghost columns = text_list(names);
    let ghost wanted = database::names(needed@);
    assert(columns_read(*connection, table@, columns));
    let names = match names {
        Ok(names) => names,
        Err(error) => {
            assert(table_checked(table@, columns, wanted) == Err::<(), Failure>(error@));
            return Err(error);
        },
    };
    let mut at: usize = 0;
    while at < needed.len()
        invariant
            at <= needed@.len(),
            wanted == database::names(needed@),
            columns == Ok::<Seq<Seq<char>>, Failure>(texts(names@)),
            columns_read(*connection, table@, columns),
            forall|i: int| 0 <= i < at ==> texts(names@).contains(#[trigger] wanted[i]),
            missing_complaint(table@, texts(names@), wanted, 0) == missing_complaint(
                table@,
                texts(names@),
                wanted,
                at as int,
            ),
        decreases needed@.len() - at,
    {
        assert(wanted[at as int] == needed@[at as int]@);
        if !holds_name(&names, needed[at]) {
            assert(!has_all(texts(names@), wanted));
            return Err(
                unwritable(
                    Message::new("raster clone requires ").text(table).text(".").text(needed[at]),
                ),
            );
        }
        at = at + 1;
    }
    assert(has_all(texts(names@), wanted));
    assert(table_checked(table@, columns, wanted) == Ok::<(), Failure>(()));
    Ok(())
}

/// The links of one layer of a tree: its first child and its next sibling, where zero
/// stands for none.
#[derive(Clone, Copy, Debug, PartialEq, Eq)]
pub struct TreeRow {
    pub id: i64,
    pub child: i64,
    pub next: i64,
}

impl View for TreeRow {
    type V = TreeRow;

    open spec fn view(&self) -> TreeRow {
        *self
    }
}

impl FromRow for TreeRow {
    open spec fn row_model(row: Seq<SqlModel>) -> Result<TreeRow, Failure> {
        match (sql::integer_at(row, 0), sql::integer_at(row, 1), sql::integer_at(row, 2)) {
            (Ok(id), Ok(child), Ok(next)) => Ok(TreeRow { id, child, next }),
            _ => Err(Failure::Sqlite),
        }
    }

    fn read_row(row: &SqlRow) -> (value: Result<TreeRow, Error>) {
        Ok(TreeRow { id: row.integer(0)?, child: row.integer(1)?, next: row.integer(2)? })
    }
}

/// The rows among the first `count`, by their IDs.
pub open spec fn rows_by_id(rows: Seq<TreeRow>, count: int) -> Map<i64, TreeRow>
    decreases count,
{
    if count <= 0 {
        Map::empty()
    } else {
        rows_by_id(rows, count - 1).insert(rows[count - 1].id, rows[count - 1])
    }
}

/// Whether IDs are positive and no two rows have one ID.
pub open spec fn ids_valid(rows: Seq<TreeRow>) -> bool {
    &&& forall|i: int| 0 <= i < rows.len() ==> (#[trigger] rows[i]).id > 0
    &&& forall|i: int, j: int|
        0 <= i < j < rows.len() ==> (#[trigger] rows[i]).id != (#[trigger] rows[j]).id
}

proof fn rows_found(rows: Seq<TreeRow>, count: int)
    requires
        0 <= count <= rows.len(),
    ensures
        rows_by_id(rows, count).dom().finite(),
        forall|id: i64| #[trigger]
            rows_by_id(rows, count).contains_key(id) ==> exists|i: int|
                0 <= i < count && (#[trigger] rows[i]).id == id,
        forall|i: int| 0 <= i < count ==> rows_by_id(rows, count).contains_key(
            (#[trigger] rows[i]).id,
        ),
    decreases count,
{
    if count > 0 {
        rows_found(rows, count - 1);
        assert forall|id: i64| #[trigger] rows_by_id(rows, count).contains_key(id) implies exists|
            i: int,
        |
            0 <= i < count && (#[trigger] rows[i]).id == id by {
            if id == rows[count - 1].id {
                assert(rows[count - 1].id == id);
            } else {
                assert(rows_by_id(rows, count - 1).contains_key(id));
                let i = choose|i: int| 0 <= i < count - 1 && (#[trigger] rows[i]).id == id;
                assert(rows[i].id == id);
            }
        }
    }
}

/// The layers that are still to be reached.
pub open spec fn unreached_layers(links: Map<i64, TreeRow>, visited: Set<i64>) -> nat {
    links.dom().difference(visited).len()
}

/// What waits after a layer was reached: its next sibling, and on top its first child.
pub open spec fn pushed(rest: Seq<(i64, u64)>, row: TreeRow, depth: u64) -> Seq<(i64, u64)> {
    let after_next = if row.next != 0 {
        rest.push((row.next, depth))
    } else {
        rest
    };
    if row.child != 0 {
        after_next.push((row.child, (depth + 1) as u64))
    } else {
        after_next
    }
}

/// Where a descent ends that still has the layers in `stack` to reach: the layers reached,
/// and the depth of the wanted one.
pub open spec fn descended(
    links: Map<i64, TreeRow>,
    wanted: i64,
    limit: u64,
    stack: Seq<(i64, u64)>,
    visited: Set<i64>,
    depth: Option<u64>,
) -> Result<(Set<i64>, Option<u64>), Failure>
    decreases unreached_layers(links, visited),
    when links.dom().finite()
    via descent_ends
{
    if stack.len() == 0 {
        Ok((visited, depth))
    } else {
        let (id, level) = stack.last();
        if level > limit {
            Err(above("raster layer tree depth"@, level, limit))
        } else if visited.contains(id) {
            Err(
                Failure::InvalidWrite {
                    reason: "raster canvas tree reaches layer "@ + message::decimal_signed(id as int)
                        + " more than once"@,
                },
            )
        } else if !links.contains_key(id) {
            Err(
                Failure::InvalidWrite {
                    reason: "raster canvas tree refers to missing layer "@ + message::decimal_signed(id as int),
                },
            )
        } else if links[id].child != 0 && level == u64::MAX {
            Err(Failure::OffsetOverflow)
        } else {
            descended(
                links,
                wanted,
                limit,
                pushed(stack.drop_last(), links[id], level),
                visited.insert(id),
                if id == wanted {
                    Some(level)
                } else {
                    depth
                },
            )
        }
    }
}

#[via_fn]
proof fn descent_ends(
    links: Map<i64, TreeRow>,
    wanted: i64,
    limit: u64,
    stack: Seq<(i64, u64)>,
    visited: Set<i64>,
    depth: Option<u64>,
) {
    if stack.len() > 0 {
        let (id, _) = stack.last();
        if !visited.contains(id) && links.contains_key(id) {
            one_layer_fewer(links, visited, id);
        }
    }
}

pub(crate) proof fn one_layer_fewer(links: Map<i64, TreeRow>, visited: Set<i64>, id: i64)
    requires
        links.dom().finite(),
        links.contains_key(id),
        !visited.contains(id),
    ensures
        unreached_layers(links, visited.insert(id)) < unreached_layers(links, visited),
{
    assert(links.dom().difference(visited.insert(id)) =~= links.dom().difference(visited).remove(
        id,
    ));
}

/// The depth of a folder in the tree of a canvas, all of whose layers have to be reached
/// exactly once.
pub open spec fn folder_depth(rows: Seq<TreeRow>, root: i64, folder: i64, limits: Limits) -> Result<
    u64,
    Failure,
> {
    let links = rows_by_id(rows, rows.len() as int);
    if rows.len() > limits.max_layers {
        Err(above("raster canvas layers"@, rows.len() as u64, limits.max_layers))
    } else if !ids_valid(rows) {
        Err(
            Failure::InvalidWrite {
                reason: "raster canvas tree contains an invalid or duplicate layer ID"@,
            },
        )
    } else if !links.contains_key(root) {
        Err(
            Failure::InvalidWrite { reason: "CanvasRootFolder is absent from the raster canvas"@ },
        )
    } else {
        match descended(
            links,
            folder,
            limits.max_layer_tree_depth,
            seq![(root, 0u64)],
            Set::empty(),
            None,
        ) {
            Err(failure) => Err(failure),
            Ok((visited, depth)) => if visited.len() != links.dom().len() {
                Err(
                    Failure::InvalidWrite {
                        reason: "raster canvas tree contains unreachable layers or parent"@,
                    },
                )
            } else {
                match depth {
                    Some(depth) => Ok(depth),
                    None => Err(
                        Failure::InvalidWrite {
                            reason: "raster clone parent has no resolved tree depth"@,
                        },
                    ),
                }
            },
        }
    }
}

proof fn descent_stays_inside(
    links: Map<i64, TreeRow>,
    wanted: i64,
    limit: u64,
    stack: Seq<(i64, u64)>,
    visited: Set<i64>,
    depth: Option<u64>,
)
    requires
        links.dom().finite(),
        visited.subset_of(links.dom()),
        depth is Some == visited.contains(wanted),
        depth matches Some(level) ==> level <= limit,
        descended(links, wanted, limit, stack, visited, depth) is Ok,
    ensures
        ({
            let (after, found) = descended(links, wanted, limit, stack, visited, depth)->Ok_0;
            &&& after.subset_of(links.dom())
            &&& found is Some == after.contains(wanted)
            &&& found matches Some(level) ==> level <= limit
        }),
    decreases unreached_layers(links, visited),
{
    if stack.len() > 0 {
        let (id, level) = stack.last();
        one_layer_fewer(links, visited, id);
        descent_stays_inside(
            links,
            wanted,
            limit,
            pushed(stack.drop_last(), links[id], level),
            visited.insert(id),
            if id == wanted {
                Some(level)
            } else {
                depth
            },
        );
    }
}

/// In a tree that a folder has a depth in, the descent from the root has reached every
/// layer, the folder among them, and none of them twice; no layer lies too deep.
pub proof fn accepted_tree_holds_every_layer(
    rows: Seq<TreeRow>,
    root: i64,
    folder: i64,
    limits: Limits,
)
    requires
        folder_depth(rows, root, folder, limits) is Ok,
    ensures
        folder_depth(rows, root, folder, limits)->Ok_0 <= limits.max_layer_tree_depth,
        descended(
            rows_by_id(rows, rows.len() as int),
            folder,
            limits.max_layer_tree_depth,
            seq![(root, 0u64)],
            Set::empty(),
            None,
        )->Ok_0.0 == rows_by_id(rows, rows.len() as int).dom(),
        exists|i: int| 0 <= i < rows.len() && (#[trigger] rows[i]).id == folder,
{
    let links = rows_by_id(rows, rows.len() as int);
    rows_found(rows, rows.len() as int);
    descent_stays_inside(
        links,
        folder,
        limits.max_layer_tree_depth,
        seq![(root, 0u64)],
        Set::empty(),
        None,
    );
    let visited = descended(
        links,
        folder,
        limits.max_layer_tree_depth,
        seq![(root, 0u64)],
        Set::empty(),
        None,
    )->Ok_0.0;
    vstd::set_lib::lemma_subset_equality(visited, links.dom());
    assert(links.contains_key(folder));
}

fn index_rows(rows: &[TreeRow]) -> (links: Option<BTreeMap<i64, TreeRow>>)
    ensures
        match links {
            Some(links) => ids_valid(rows@) && links@ == rows_by_id(rows@, rows@.len() as int),
            None => !ids_valid(rows@),
        },
{
    let mut links: BTreeMap<i64, TreeRow> = BTreeMap::new();
    let mut at: usize = 0;
    while at < rows.len()
        invariant
            at <= rows@.len(),
            links@ == rows_by_id(rows@, at as int),
            forall|i: int| 0 <= i < at ==> (#[trigger] rows@[i]).id > 0,
            forall|i: int, j: int|
                0 <= i < j < at ==> (#[trigger] rows@[i]).id != (#[trigger] rows@[j]).id,
        decreases rows@.len() - at,
    {
        let row: TreeRow = rows[at];
        proof {
            rows_found(rows@, at as int);
        }
        if row.id <= 0 {
            assert(rows@[at as int].id <= 0);
            return None;
        }
        if links.contains_key(&row.id) {
            proof {
                let i = choose|i: int| 0 <= i < at && (#[trigger] rows@[i]).id == row.id;
                assert(rows@[i].id == rows@[at as int].id);
            }
            return None;
        }
        proof {
            assert forall|i: int, j: int| 0 <= i < j < at + 1 implies (#[trigger] rows@[i]).id != (
            #[trigger] rows@[j]).id by {
                if j == at {
                    assert(rows_by_id(rows@, at as int).contains_key(rows@[i].id));
                }
            }
        }
        links.insert(row.id, row);
        at = at + 1;
    }
    Some(links)
}

/// Finds the depth of a folder in the tree of a canvas.
#[verifier::spinoff_prover]
#[verifier::rlimit(30)]
pub fn find_folder_depth(rows: &[TreeRow], root: i64, folder: i64, limits: Limits) -> (depth: Result<
    u64,
    Error,
>)
    ensures
        error::plain(depth) == folder_depth(rows@, root, folder, limits),
{
    assert(rows.len() == rows@.len());
    if rows.len() as u64 > limits.max_layers() {
        return Err(
            Error::limit("raster canvas layers", rows.len() as u64, limits.max_layers()),
        );
    }
    let links = match index_rows(rows) {
        Some(links) => links,
        None => {
            return Err(
                unwritable(
                    Message::new("raster canvas tree contains an invalid or duplicate layer ID"),
                ),
            );
        },
    };
    if !links.contains_key(&root) {
        return Err(
            unwritable(Message::new("CanvasRootFolder is absent from the raster canvas")),
        );
    }
    let limit: u64 = limits.max_layer_tree_depth();
    let mut visited: BTreeSet<i64> = BTreeSet::new();
    let mut stack: Vec<(i64, u64)> = Vec::new();
    stack.push((root, 0));
    let mut depth: Option<u64> = None;
    proof {
        rows_found(rows@, rows@.len() as int);
        assert(stack@ =~= seq![(root, 0u64)]);
    }
    let ghost whole = descended(links@, folder, limit, seq![(root, 0u64)], Set::empty(), None);
    loop
        invariant
            links@ == rows_by_id(rows@, rows@.len() as int),
            links@.dom().finite(),
            limit == limits.max_layer_tree_depth,
            whole == descended(
                links@,
                folder,
                limit,
                seq![(root, 0u64)],
                Set::empty(),
                None,
            ),
            whole == descended(links@, folder, limit, stack@, visited@, depth),
            rows@.len() <= limits.max_layers,
            ids_valid(rows@),
            links@.contains_key(root),
        ensures
            whole == Ok::<(Set<i64>, Option<u64>), Failure>((visited@, depth)),
        decreases unreached_layers(links@, visited@),
    {
        let ghost before = stack@;
        let (id, level): (i64, u64) = match stack.pop() {
            Some(top) => top,
            None => break ,
        };
        assert(stack@ =~= before.drop_last());
        if level > limit {
            return Err(Error::limit("raster layer tree depth", level, limit));
        }
        if visited.contains(&id) {
            return Err(
                unwritable(
                    Message::new("raster canvas tree reaches layer ").integer(id).text(
                        " more than once",
                    ),
                ),
            );
        }
        let row: TreeRow = match links.get(&id) {
            Some(row) => *row,
            None => {
                return Err(
                    unwritable(
                        Message::new("raster canvas tree refers to missing layer ").integer(id),
                    ),
                );
            },
        };
        if row.child != 0 && level == u64::MAX {
            return Err(Error::OffsetOverflow);
        }
        proof {
            one_layer_fewer(links@, visited@, id);
        }
        visited.insert(id);
        if id == folder {
            depth = Some(level);
        }
        if row.next != 0 {
            stack.push((row.next, level));
        }
        if row.child != 0 {
            stack.push((row.child, level + 1));
        }
        assert(stack@ =~= pushed(before.drop_last(), row, level));
    }
    if visited.len() != links.len() {
        return Err(
            unwritable(Message::new("raster canvas tree contains unreachable layers or parent")),
        );
    }
    match depth {
        Some(depth) => Ok(depth),
        None => Err(
            unwritable(Message::new("raster clone parent has no resolved tree depth")),
        ),
    }
}

} // verus!
