//! The embedded SQLite database: its schema and its index of external objects.

use rusqlite::Connection;
use vstd::prelude::*;
use vstd::utf8;

use crate::bytes::{copy_bytes, same_bytes};
use crate::columns;
use crate::container;
use crate::container::{ChunkHeader, ChunkKind, ChunkModel, ClipFile};
use crate::error;
use crate::error::{Error, Failure};
use crate::external;
use crate::external::{ExternalObject, ExternalObjectModel};
use crate::message;
use crate::message::Message;
use crate::scan;
use crate::sql;
use crate::sql::{collect, open_serialized, query, query_all, FromRow, Reply, SqlModel, SqlParameter, SqlRow};
use crate::text_codec;
use crate::text_codec::{bytes_precede, characters, same_text};

verus! {

/// Metadata for one SQLite column.
#[derive(Clone, Debug, PartialEq, Eq)]
pub struct ColumnSchema {
    pub ordinal: u32,
    pub name: String,
    pub declared_type: String,
    pub not_null: bool,
    pub default_value: Option<String>,
    pub primary_key_position: u32,
    pub hidden: u32,
}

/// The model of a [`ColumnSchema`].
pub struct ColumnModel {
    pub ordinal: u32,
    pub name: Seq<char>,
    pub declared_type: Seq<char>,
    pub not_null: bool,
    pub default_value: Option<Seq<char>>,
    pub primary_key_position: u32,
    pub hidden: u32,
}

impl View for ColumnSchema {
    type V = ColumnModel;

    open spec fn view(&self) -> ColumnModel {
        ColumnModel {
            ordinal: self.ordinal,
            name: self.name@,
            declared_type: self.declared_type@,
            not_null: self.not_null,
            default_value: error::optional_text(self.default_value),
            primary_key_position: self.primary_key_position,
            hidden: self.hidden,
        }
    }
}

impl ColumnSchema {
    fn duplicate(&self) -> (column: ColumnSchema)
        ensures
            column@ == self@,
    {
        ColumnSchema {
            ordinal: self.ordinal,
            name: self.name.clone(),
            declared_type: self.declared_type.clone(),
            not_null: self.not_null,
            default_value: match &self.default_value {
                Some(value) => Some(value.clone()),
                None => None,
            },
            primary_key_position: self.primary_key_position,
            hidden: self.hidden,
        }
    }

    /// Zero-based ordinal within the table.
    #[must_use]
    pub fn ordinal(&self) -> (ordinal: u32)
        ensures
            ordinal == self@.ordinal,
    {
        self.ordinal
    }

    /// Column name.
    #[must_use]
    pub fn name(&self) -> (name: &str)
        ensures
            name@ == self@.name,
    {
        self.name.as_str()
    }

    /// Declared SQLite type, which may be empty.
    #[must_use]
    pub fn declared_type(&self) -> (name: &str)
        ensures
            name@ == self@.declared_type,
    {
        self.declared_type.as_str()
    }

    /// Whether SQLite declares the column as `NOT NULL`.
    #[must_use]
    pub fn is_not_null(&self) -> (not_null: bool)
        ensures
            not_null == self@.not_null,
    {
        self.not_null
    }

    /// SQL expression used as the default value.
    #[must_use]
    pub fn default_value(&self) -> (value: Option<&str>)
        ensures
            value is Some == self@.default_value is Some,
            value matches Some(text) ==> self@.default_value == Some(text@),
    {
        match &self.default_value {
            Some(text) => Some(text.as_str()),
            None => None,
        }
    }

    /// One-based primary-key position, or zero when not in the key.
    #[must_use]
    pub fn primary_key_position(&self) -> (position: u32)
        ensures
            position == self@.primary_key_position,
    {
        self.primary_key_position
    }

    /// SQLite `table_xinfo` hidden/generated-column value.
    #[must_use]
    pub fn hidden(&self) -> (hidden: u32)
        ensures
            hidden == self@.hidden,
    {
        self.hidden
    }
}

/// Runtime schema information for one table.
#[derive(Clone, Debug, PartialEq, Eq)]
pub struct TableSchema {
    pub name: String,
    pub columns: Vec<ColumnSchema>,
}

/// The model of a [`TableSchema`].
pub struct TableModel {
    pub name: Seq<char>,
    pub columns: Seq<ColumnModel>,
}

impl View for TableSchema {
    type V = TableModel;

    open spec fn view(&self) -> TableModel {
        TableModel { name: self.name@, columns: error::views(self.columns@) }
    }
}

impl TableSchema {
    fn duplicate(&self) -> (table: TableSchema)
        ensures
            table@ == self@,
    {
        let mut columns: Vec<ColumnSchema> = Vec::new();
        while columns.len() < self.columns.len()
            invariant
                columns@.len() <= self.columns@.len(),
                forall|i: int|
                    0 <= i < columns@.len() ==> (#[trigger] columns@[i])@ == self.columns@[i]@,
            decreases self.columns@.len() - columns@.len(),
        {
            columns.push(self.columns[columns.len()].duplicate());
        }
        assert(error::views(columns@) =~= error::views(self.columns@));
        TableSchema { name: self.name.clone(), columns }
    }
}

/// The position of the first column of that name at or after `at`, or the number
/// of columns.
pub open spec fn column_position(columns: Seq<ColumnModel>, name: Seq<char>, at: int) -> int
    decreases columns.len() - at,
{
    if at >= columns.len() {
        columns.len() as int
    } else if columns[at].name == name {
        at
    } else {
        column_position(columns, name, at + 1)
    }
}

/// The first column of that name.
pub open spec fn column_of(table: TableModel, name: Seq<char>) -> Option<ColumnModel> {
    let position = column_position(table.columns, name, 0);
    if position < table.columns.len() {
        Some(table.columns[position])
    } else {
        None
    }
}

impl TableSchema {
    /// Table name.
    #[must_use]
    pub fn name(&self) -> (name: &str)
        ensures
            name@ == self@.name,
    {
        self.name.as_str()
    }

    /// Columns in SQLite ordinal order.
    #[must_use]
    pub fn columns(&self) -> (columns: &[ColumnSchema])
        ensures
            error::views(columns@) == self@.columns,
    {
        self.columns.as_slice()
    }

    /// Looks up a column by its exact name.
    #[must_use]
    pub fn column(&self, name: &str) -> (column: Option<&ColumnSchema>)
        ensures
            match column {
                Some(column) => column_of(self@, name@) == Some(column@),
                None => column_of(self@, name@) is None,
            },
    {
        let mut at: usize = 0;
        while at < self.columns.len()
            invariant
                at <= self.columns@.len(),
                column_position(self@.columns, name@, 0) == column_position(
                    self@.columns,
                    name@,
                    at as int,
                ),
            decreases self.columns@.len() - at,
        {
            assert(self@.columns[at as int] == self.columns@[at as int]@);
            if same_text(self.columns[at].name.as_str(), name) {
                return Some(&self.columns[at]);
            }
            at = at + 1;
        }
        None
    }
}

/// Runtime schema of the embedded database.
#[derive(Debug, PartialEq, Eq)]
pub struct DatabaseSchema {
    tables: Vec<TableSchema>,
}

impl View for DatabaseSchema {
    type V = Seq<TableModel>;

    closed spec fn view(&self) -> Seq<TableModel> {
        error::views(self.tables@)
    }
}

impl Clone for DatabaseSchema {
    fn clone(&self) -> (schema: DatabaseSchema)
        ensures
            schema@ == self@,
    {
        proof {
            use_type_invariant(self);
        }
        let mut tables: Vec<TableSchema> = Vec::new();
        while tables.len() < self.tables.len()
            invariant
                tables@.len() <= self.tables@.len(),
                forall|i: int|
                    0 <= i < tables@.len() ==> (#[trigger] tables@[i])@ == self.tables@[i]@,
            decreases self.tables@.len() - tables@.len(),
        {
            tables.push(self.tables[tables.len()].duplicate());
        }
        assert(error::views(tables@) =~= error::views(self.tables@));
        DatabaseSchema { tables }
    }
}

impl DatabaseSchema {
    #[verifier::type_invariant]
    spec fn is_in_order(self) -> bool {
        tables_in_order(self@)
    }
}

/// Whether a name comes before another, by their UTF-8 bytes.
pub open spec fn name_precedes(left: Seq<char>, right: Seq<char>) -> bool {
    text_codec::precedes(utf8::encode_utf8(left), utf8::encode_utf8(right))
}

/// Whether tables stand in the order of their names, no name twice.
pub open spec fn tables_in_order(tables: Seq<TableModel>) -> bool {
    forall|i: int, j: int|
        0 <= i < j < tables.len() ==> name_precedes(
            #[trigger] tables[i].name,
            #[trigger] tables[j].name,
        )
}

/// The first position at or after `at` whose name does not come before `name`.
pub open spec fn place_of(tables: Seq<TableModel>, name: Seq<char>, at: int) -> int
    decreases tables.len() - at,
{
    if at >= tables.len() || !name_precedes(tables[at].name, name) {
        at
    } else {
        place_of(tables, name, at + 1)
    }
}

/// The tables with one more, in its place; it replaces one of the same name.
pub open spec fn tables_with(tables: Seq<TableModel>, table: TableModel) -> Seq<TableModel> {
    let place = place_of(tables, table.name, 0);
    if place < tables.len() && tables[place].name == table.name {
        tables.update(place, table)
    } else {
        tables.insert(place, table)
    }
}

proof fn place_bounds(tables: Seq<TableModel>, name: Seq<char>, at: int)
    requires
        0 <= at <= tables.len(),
    ensures
        at <= place_of(tables, name, at) <= tables.len(),
        forall|i: int|
            at <= i < place_of(tables, name, at) ==> name_precedes(#[trigger] tables[i].name, name),
        place_of(tables, name, at) < tables.len() ==> !name_precedes(
            tables[place_of(tables, name, at)].name,
            name,
        ),
    decreases tables.len() - at,
{
    if at < tables.len() && name_precedes(tables[at].name, name) {
        place_bounds(tables, name, at + 1);
    }
}

proof fn name_order(a: Seq<char>, b: Seq<char>, c: Seq<char>)
    ensures
        a == b || name_precedes(a, b) || name_precedes(b, a),
        name_precedes(a, b) && name_precedes(b, c) ==> name_precedes(a, c),
        !name_precedes(a, a),
{
    text_codec::precedes_is_an_order(
        utf8::encode_utf8(a),
        utf8::encode_utf8(b),
        utf8::encode_utf8(c),
    );
    utf8::encode_utf8_decode_utf8(a);
    utf8::encode_utf8_decode_utf8(b);
}

/// Adding a table keeps the tables in the order of their names, no name twice.
pub proof fn added_table_keeps_order(tables: Seq<TableModel>, table: TableModel)
    requires
        tables_in_order(tables),
    ensures
        tables_in_order(tables_with(tables, table)),
{
    let place = place_of(tables, table.name, 0);
    let result = tables_with(tables, table);
    place_bounds(tables, table.name, 0);
    let replaced = place < tables.len() && tables[place].name == table.name;
    let shift = if replaced {
        0int
    } else {
        1int
    };
    assert forall|i: int, j: int| 0 <= i < j < result.len() implies name_precedes(
        #[trigger] result[i].name,
        #[trigger] result[j].name,
    ) by {
        let left = if i < place {
            tables[i].name
        } else if i == place {
            table.name
        } else {
            tables[i - shift].name
        };
        let right = if j < place {
            tables[j].name
        } else if j == place {
            table.name
        } else {
            tables[j - shift].name
        };
        assert(left == result[i].name);
        assert(right == result[j].name);
        if place < tables.len() {
            let next = tables[place].name;
            name_order(table.name, next, right);
            name_order(left, table.name, right);
        }
    }
}

/// The position of the first table of that name at or after `at`, or the number of
/// tables.
pub open spec fn table_position(tables: Seq<TableModel>, name: Seq<char>, at: int) -> int
    decreases tables.len() - at,
{
    if at >= tables.len() {
        tables.len() as int
    } else if tables[at].name == name {
        at
    } else {
        table_position(tables, name, at + 1)
    }
}

/// The table of that name.
pub open spec fn table_of(schema: Seq<TableModel>, name: Seq<char>) -> Option<TableModel> {
    let position = table_position(schema, name, 0);
    if position < schema.len() {
        Some(schema[position])
    } else {
        None
    }
}

proof fn position_bounds(tables: Seq<TableModel>, name: Seq<char>, at: int)
    requires
        0 <= at <= tables.len(),
    ensures
        at <= table_position(tables, name, at) <= tables.len(),
        table_position(tables, name, at) < tables.len() ==> tables[table_position(
            tables,
            name,
            at,
        )].name == name,
        forall|i: int|
            at <= i < table_position(tables, name, at) ==> #[trigger] tables[i].name != name,
    decreases tables.len() - at,
{
    if at < tables.len() && tables[at].name != name {
        position_bounds(tables, name, at + 1);
    }
}

/// A table that was added is found under its name, and every other name finds what
/// it found before.
#[verifier::spinoff_prover]
#[verifier::rlimit(40)]
pub proof fn added_table_is_found(tables: Seq<TableModel>, table: TableModel, name: Seq<char>)
    requires
        tables_in_order(tables),
    ensures
        table_of(tables_with(tables, table), name) == if name == table.name {
            Some(table)
        } else {
            table_of(tables, name)
        },
{
    let result = tables_with(tables, table);
    let place = place_of(tables, table.name, 0);
    place_bounds(tables, table.name, 0);
    position_bounds(tables, name, 0);
    position_bounds(result, name, 0);
    added_table_keeps_order(tables, table);
    let before = table_position(tables, name, 0);
    let after = table_position(result, name, 0);
    let replaced = place < tables.len() && tables[place].name == table.name;
    let shift = if replaced {
        0int
    } else {
        1int
    };
    assert(result[place] == table);
    assert forall|i: int| 0 <= i < result.len() && i != place implies result[i] == tables[if i
        < place {
        i
    } else {
        i - shift
    }] by {}
    assert forall|i: int| 0 <= i < tables.len() && !(replaced && i == place) implies result[if i
        < place {
        i
    } else {
        i + shift
    }] == tables[i] by {}
    if name == table.name {
        assert(after <= place);
        if after < place {
            name_order(tables[after].name, table.name, name);
        }
    } else if after < result.len() {
        let source = if after < place {
            after
        } else {
            after - shift
        };
        assert(tables[source].name == name);
        assert(before <= source);
        if before < source {
            name_order(tables[before].name, tables[source].name, name);
        }
    } else if before < tables.len() {
        let target = if before < place {
            before
        } else {
            before + shift
        };
        assert(result[target].name == name);
    }
}

/// Why a table or column that is needed cannot be used, if it cannot.
pub open spec fn missing(schema: Seq<TableModel>, table: Seq<char>, column: Seq<char>) -> Option<
    Failure,
> {
    match table_of(schema, table) {
        None => Some(Failure::MissingTable { table }),
        Some(found) => if column_of(found, column) is None {
            Some(Failure::MissingColumn { table, column })
        } else {
            None
        },
    }
}

/// Whether the table and column both exist.
pub open spec fn column_exists(
    schema: Seq<TableModel>,
    table: Seq<char>,
    column: Seq<char>,
) -> bool {
    missing(schema, table, column) is None
}

/// A column, or `NULL` where it is not there.
pub open spec fn column_or_null(
    schema: Seq<TableModel>,
    table: Seq<char>,
    column: Seq<char>,
) -> Seq<char> {
    if column_exists(schema, table, column) {
        column
    } else {
        "NULL"@
    }
}

/// The first of the needed columns of a table, from `at` on, that is missing.
pub open spec fn first_missing(
    schema: Seq<TableModel>,
    table: Seq<char>,
    columns: Seq<Seq<char>>,
    at: int,
) -> Option<Failure>
    decreases columns.len() - at,
{
    if at >= columns.len() {
        None
    } else {
        match missing(schema, table, columns[at]) {
            Some(failure) => Some(failure),
            None => first_missing(schema, table, columns, at + 1),
        }
    }
}

/// The texts of a list of names.
pub open spec fn names(list: Seq<&str>) -> Seq<Seq<char>> {
    Seq::new(list.len(), |i: int| list[i]@)
}

impl DatabaseSchema {
    /// A schema without tables.
    pub fn empty() -> (schema: DatabaseSchema)
        ensures
            schema@ == Seq::<TableModel>::empty(),
    {
        let tables: Vec<TableSchema> = Vec::new();
        assert(error::views(tables@) =~= Seq::<TableModel>::empty());
        DatabaseSchema { tables }
    }

    /// The schema with one more table, which replaces one of the same name.
    pub fn with_table(self, table: TableSchema) -> (schema: DatabaseSchema)
        ensures
            schema@ == tables_with(self@, table@),
    {
        proof {
            use_type_invariant(&self);
            added_table_keeps_order(self@, table@);
        }
        let ghost before = self@;
        let ghost model = table@;
        let mut tables = self.tables;
        let mut place: usize = 0;
        while place < tables.len() && bytes_precede(
            tables[place].name.as_str().as_bytes(),
            table.name.as_str().as_bytes(),
        )
            invariant
                place <= tables@.len(),
                before == error::views(tables@),
                place_of(before, table@.name, 0) == place_of(before, table@.name, place as int),
            decreases tables@.len() - place,
        {
            assert(before[place as int] == tables@[place as int]@);
            place = place + 1;
        }
        if place < tables.len() {
            assert(before[place as int] == tables@[place as int]@);
        }
        if place < tables.len() && same_text(tables[place].name.as_str(), table.name.as_str()) {
            tables.set(place, table);
            assert(error::views(tables@) =~= before.update(place as int, model));
        } else {
            tables.insert(place, table);
            assert(error::views(tables@) =~= before.insert(place as int, model));
        }
        DatabaseSchema { tables }
    }

    /// Tables ordered lexicographically by name.
    pub fn tables(&self) -> (tables: &[TableSchema])
        ensures
            error::views(tables@) == self@,
            tables_in_order(self@),
    {
        proof {
            use_type_invariant(self);
        }
        self.tables.as_slice()
    }

    /// Looks up a table by exact name.
    #[must_use]
    pub fn table(&self, name: &str) -> (table: Option<&TableSchema>)
        ensures
            match table {
                Some(table) => table_of(self@, name@) == Some(table@),
                None => table_of(self@, name@) is None,
            },
    {
        let mut at: usize = 0;
        while at < self.tables.len()
            invariant
                at <= self.tables@.len(),
                table_position(self@, name@, 0) == table_position(self@, name@, at as int),
            decreases self.tables@.len() - at,
        {
            assert(self@[at as int] == self.tables@[at as int]@);
            if same_text(self.tables[at].name.as_str(), name) {
                return Some(&self.tables[at]);
            }
            at = at + 1;
        }
        None
    }

    /// Returns whether the table and column both exist.
    #[must_use]
    pub fn has_column(&self, table: &str, column: &str) -> (found: bool)
        ensures
            found == column_exists(self@, table@, column@),
    {
        match self.table(table) {
            Some(schema) => schema.column(column).is_some(),
            None => false,
        }
    }

    /// A column, or `NULL` where it is not there.
    pub fn column_or_null<'a>(&self, table: &str, column: &'a str) -> (name: &'a str)
        ensures
            name@ == column_or_null(self@, table@, column@),
    {
        if self.has_column(table, column) {
            column
        } else {
            "NULL"
        }
    }

    /// The column, or the error that says what is missing.
    pub fn require_column(&self, table: &str, column: &str) -> (found: Result<&ColumnSchema, Error>)
        ensures
            match found {
                Ok(found) => missing(self@, table@, column@) is None && column_of(
                    table_of(self@, table@).unwrap(),
                    column@,
                ) == Some(found@),
                Err(error) => missing(self@, table@, column@) == Some(error@),
            },
    {
        match self.table(table) {
            Some(schema) => match schema.column(column) {
                Some(found) => Ok(found),
                None => Err(
                    Error::MissingColumn { table: table.to_owned(), column: column.to_owned() },
                ),
            },
            None => Err(Error::MissingTable { table: table.to_owned() }),
        }
    }

    /// The first of these columns that is missing.
    pub fn first_missing_column(&self, table: &str, columns: &[&str]) -> (found: Option<Error>)
        ensures
            error::optional(found) == first_missing(self@, table@, names(columns@), 0),
    {
        let mut at: usize = 0;
        while at < columns.len()
            invariant
                at <= columns@.len(),
                first_missing(self@, table@, names(columns@), 0) == first_missing(
                    self@,
                    table@,
                    names(columns@),
                    at as int,
                ),
            decreases columns@.len() - at,
        {
            assert(names(columns@)[at as int] == columns@[at as int]@);
            match self.require_column(table, columns[at]) {
                Ok(_) => {},
                Err(error) => return Some(error),
            }
            at = at + 1;
        }
        None
    }
}

/// One row of `pragma_table_xinfo`.
pub struct RawColumn {
    pub ordinal: i64,
    pub name: String,
    pub declared_type: String,
    pub not_null: i64,
    pub default_value: Option<String>,
    pub primary_key_position: i64,
    pub hidden: i64,
}

/// The model of a [`RawColumn`].
pub struct RawColumnModel {
    pub ordinal: i64,
    pub name: Seq<char>,
    pub declared_type: Seq<char>,
    pub not_null: i64,
    pub default_value: Option<Seq<char>>,
    pub primary_key_position: i64,
    pub hidden: i64,
}

impl View for RawColumn {
    type V = RawColumnModel;

    open spec fn view(&self) -> RawColumnModel {
        RawColumnModel {
            ordinal: self.ordinal,
            name: self.name@,
            declared_type: self.declared_type@,
            not_null: self.not_null,
            default_value: error::optional_text(self.default_value),
            primary_key_position: self.primary_key_position,
            hidden: self.hidden,
        }
    }
}

impl FromRow for RawColumn {
    open spec fn row_model(row: Seq<SqlModel>) -> Result<RawColumnModel, Failure> {
        match (
            sql::integer_at(row, 0),
            sql::text_at(row, 1),
            sql::text_at(row, 2),
            sql::integer_at(row, 3),
            sql::optional_text_at(row, 4),
            sql::integer_at(row, 5),
            sql::integer_at(row, 6),
        ) {
            (
                Ok(ordinal),
                Ok(name),
                Ok(declared_type),
                Ok(not_null),
                Ok(default_value),
                Ok(primary_key_position),
                Ok(hidden),
            ) => Ok(
                RawColumnModel {
                    ordinal,
                    name,
                    declared_type,
                    not_null,
                    default_value,
                    primary_key_position,
                    hidden,
                },
            ),
            _ => Err(Failure::Sqlite),
        }
    }

    fn read_row(row: &SqlRow) -> (value: Result<RawColumn, Error>) {
        Ok(
            RawColumn {
                ordinal: row.integer(0)?,
                name: row.text(1)?,
                declared_type: row.text(2)?,
                not_null: row.integer(3)?,
                default_value: row.optional_text(4)?,
                primary_key_position: row.integer(5)?,
                hidden: row.integer(6)?,
            },
        )
    }
}

/// Whether a number fits in 32 bits.
pub open spec fn sqlite_u32_of(field: Seq<char>, value: i64) -> Result<u32, Failure> {
    if 0 <= value <= u32::MAX {
        Ok(value as u32)
    } else {
        Err(
            Failure::InvalidDatabase {
                reason: field + " is outside the u32 range: "@ + message::decimal_signed(value as int),
            },
        )
    }
}

fn sqlite_u32(field: &str, value: i64) -> (number: Result<u32, Error>)
    ensures
        error::plain(number) == sqlite_u32_of(field@, value),
{
    if value < 0 || value > u32::MAX as i64 {
        return Err(
            Error::InvalidDatabase {
                reason: Message::new(field).text(" is outside the u32 range: ").integer(
                    value,
                ).build(),
            },
        );
    }
    Ok(value as u32)
}

/// The column that a row of `pragma_table_xinfo` describes.
pub open spec fn column_schema_of(raw: RawColumnModel) -> Result<ColumnModel, Failure> {
    match (
        sqlite_u32_of("column ordinal"@, raw.ordinal),
        sqlite_u32_of("primary-key position"@, raw.primary_key_position),
        sqlite_u32_of("hidden-column value"@, raw.hidden),
    ) {
        (Ok(ordinal), Ok(primary_key_position), Ok(hidden)) => Ok(
            ColumnModel {
                ordinal,
                name: raw.name,
                declared_type: raw.declared_type,
                not_null: raw.not_null != 0,
                default_value: raw.default_value,
                primary_key_position,
                hidden,
            },
        ),
        (Err(failure), _, _) => Err(failure),
        (Ok(_), Err(failure), _) => Err(failure),
        (Ok(_), Ok(_), Err(failure)) => Err(failure),
    }
}

fn column_schema(raw: RawColumn) -> (column: Result<ColumnSchema, Error>)
    ensures
        error::outcome(column) == column_schema_of(raw@),
{
    Ok(
        ColumnSchema {
            ordinal: sqlite_u32("column ordinal", raw.ordinal)?,
            name: raw.name,
            declared_type: raw.declared_type,
            not_null: raw.not_null != 0,
            default_value: raw.default_value,
            primary_key_position: sqlite_u32("primary-key position", raw.primary_key_position)?,
            hidden: sqlite_u32("hidden-column value", raw.hidden)?,
        },
    )
}

/// What is wrong with the first invalid one of the rows from `at` on.
pub open spec fn column_fault(raw: Seq<RawColumnModel>, at: int) -> Failure
    decreases raw.len() - at,
{
    if 0 <= at < raw.len() && column_schema_of(raw[at]) is Ok {
        column_fault(raw, at + 1)
    } else {
        column_schema_of(raw[at])->Err_0
    }
}

/// The columns that rows of `pragma_table_xinfo` describe, if all are valid.
pub open spec fn columns_of(raw: Seq<RawColumnModel>) -> Result<Seq<ColumnModel>, Failure> {
    if forall|i: int| 0 <= i < raw.len() ==> column_schema_of(#[trigger] raw[i]) is Ok {
        Ok(Seq::new(raw.len(), |i: int| column_schema_of(raw[i])->Ok_0))
    } else {
        Err(column_fault(raw, 0))
    }
}

/// The schema of a table of that name, from the reply that describes its columns.
pub open spec fn table_schema_of(name: Seq<char>, reply: sql::ReplyModel) -> Result<
    TableModel,
    Failure,
> {
    match sql::collected::<RawColumn>(reply) {
        Err(failure) => Err(failure),
        Ok(raw) => match columns_of(raw) {
            Err(failure) => Err(failure),
            Ok(columns) => Ok(TableModel { name, columns }),
        },
    }
}

/// The schema of a table of that name, from the reply that describes its columns.
pub fn table_schema(name: String, reply: &Reply) -> (table: Result<TableSchema, Error>)
    ensures
        error::outcome(table) == table_schema_of(name@, reply@),
{
    let mut raw: Vec<RawColumn> = collect(reply)?;
    let ghost models = error::views(raw@);
    let ghost count = raw@.len();
    let mut columns: Vec<ColumnSchema> = Vec::new();
    while raw.len() > 0
        invariant
            columns@.len() + raw@.len() == count,
            count == models.len(),
            forall|i: int| 0 <= i < raw@.len() ==> #[trigger] raw@[i]@
                == models[columns@.len() + i],
            forall|i: int|
                0 <= i < columns@.len() ==> column_schema_of(#[trigger] models[i]) == Ok::<
                    ColumnModel,
                    Failure,
                >(columns@[i]@),
            sql::collected::<RawColumn>(reply@) == Ok::<Seq<RawColumnModel>, Failure>(models),
            column_fault(models, 0) == column_fault(models, columns@.len() as int),
        decreases raw@.len(),
    {
        assert(raw@[0]@ == models[columns@.len() as int]);
        let next = raw.remove(0);
        match column_schema(next) {
            Ok(column) => columns.push(column),
            Err(error) => {
                assert(column_schema_of(models[columns@.len() as int]) is Err);
                return Err(error);
            },
        }
    }
    let table = TableSchema { name, columns };
    assert(table@.columns =~= columns_of(models)->Ok_0);
    Ok(table)
}

impl FromRow for String {
    open spec fn row_model(row: Seq<SqlModel>) -> Result<Seq<char>, Failure> {
        sql::text_at(row, 0)
    }

    fn read_row(row: &SqlRow) -> (value: Result<String, Error>) {
        row.text(0)
    }
}

/// Tables for the names from `at` on, in a schema that has the ones before.
pub open spec fn tables_from(
    names: Seq<Seq<char>>,
    replies: Seq<sql::ReplyModel>,
    at: int,
    found: Seq<TableModel>,
) -> Result<Seq<TableModel>, Failure>
    decreases names.len() - at,
{
    if at >= names.len() {
        Ok(found)
    } else {
        match table_schema_of(names[at], replies[at]) {
            Err(failure) => Err(failure),
            Ok(table) => tables_from(names, replies, at + 1, tables_with(found, table)),
        }
    }
}

/// The schema that a list of table names and one reply for each of them give.
pub open spec fn schema_of(names: sql::ReplyModel, replies: Seq<sql::ReplyModel>) -> Result<
    Seq<TableModel>,
    Failure,
> {
    match sql::collected::<String>(names) {
        Err(failure) => Err(failure),
        Ok(names) => tables_from(names, replies, 0, Seq::empty()),
    }
}

/// In tables that are in order, each is the one found under its name.
pub proof fn listed_table_is_found(tables: Seq<TableModel>, at: int)
    requires
        tables_in_order(tables),
        0 <= at < tables.len(),
    ensures
        table_of(tables, tables[at].name) == Some(tables[at]),
{
    let name = tables[at].name;
    position_bounds(tables, name, 0);
    let position = table_position(tables, name, 0);
    assert(position <= at);
    if position < at {
        name_order(tables[position].name, tables[at].name, name);
    }
}

/// A name finds a table exactly when one of the tables has it.
pub proof fn only_listed_tables_are_found(tables: Seq<TableModel>, name: Seq<char>)
    ensures
        table_of(tables, name) is Some <==> exists|i: int|
            0 <= i < tables.len() && (#[trigger] tables[i]).name == name,
{
    position_bounds(tables, name, 0);
    let position = table_position(tables, name, 0);
    if position < tables.len() {
        assert(tables[position].name == name);
    }
}

proof fn tables_stay_in_order(
    names: Seq<Seq<char>>,
    replies: Seq<sql::ReplyModel>,
    at: int,
    found: Seq<TableModel>,
)
    requires
        0 <= at <= names.len(),
        tables_in_order(found),
        forall|name: Seq<char>|
            #[trigger] table_of(found, name) is Some <==> names.take(at).contains(name),
        tables_from(names, replies, at, found) is Ok,
    ensures
        ({
            let tables = tables_from(names, replies, at, found)->Ok_0;
            &&& tables_in_order(tables)
            &&& forall|name: Seq<char>|
                #[trigger] table_of(tables, name) is Some <==> names.contains(name)
        }),
    decreases names.len() - at,
{
    if at < names.len() {
        let table = table_schema_of(names[at], replies[at])->Ok_0;
        let next = tables_with(found, table);
        let before = names.take(at);
        let now = names.take(at + 1);
        assert(now =~= before.push(names[at]));
        added_table_keeps_order(found, table);
        assert forall|name: Seq<char>|
            #[trigger] table_of(next, name) is Some <==> now.contains(name) by {
            added_table_is_found(found, table, name);
            assert(table_of(found, name) is Some <==> before.contains(name));
            if before.contains(name) {
                let i = choose|i: int| 0 <= i < before.len() && before[i] == name;
                assert(now[i] == name);
            }
            assert(now[at] == names[at]);
            if now.contains(name) && name != names[at] {
                let i = choose|i: int| 0 <= i < now.len() && now[i] == name;
                assert(before[i] == name);
            }
        }
        tables_stay_in_order(names, replies, at + 1, next);
    } else {
        assert(names.take(at) =~= names);
    }
}

/// A schema that was read lists its tables strictly in the order of their names. Each of them
/// is found under its name, and the names under which a table is found are the listed ones.
pub proof fn read_schema_is_in_order(names: sql::ReplyModel, replies: Seq<sql::ReplyModel>)
    requires
        schema_of(names, replies) is Ok,
    ensures
        ({
            let schema = schema_of(names, replies)->Ok_0;
            let listed = sql::collected::<String>(names)->Ok_0;
            &&& tables_in_order(schema)
            &&& forall|i: int|
                0 <= i < schema.len() ==> table_of(schema, (#[trigger] schema[i]).name) == Some(
                    schema[i],
                )
            &&& forall|name: Seq<char>|
                #[trigger] table_of(schema, name) is Some <==> listed.contains(name)
        }),
{
    let schema = schema_of(names, replies)->Ok_0;
    let listed = sql::collected::<String>(names)->Ok_0;
    assert(listed.take(0).len() == 0);
    tables_stay_in_order(listed, replies, 0, Seq::empty());
    assert forall|i: int| 0 <= i < schema.len() implies table_of(
        schema,
        (#[trigger] schema[i]).name,
    ) == Some(schema[i]) by {
        listed_table_is_found(schema, i);
    }
}

/// The question that lists the tables.
pub open spec fn tables_question() -> Seq<char> {
    "SELECT name FROM sqlite_schema WHERE type = 'table' AND name NOT LIKE 'sqlite_%' ORDER BY name"@
}

/// What is asked for the columns of a table, in order.
pub open spec fn column_items() -> Seq<Seq<char>> {
    seq![
        "cid"@,
        "name"@,
        "type"@,
        "\"notnull\""@,
        "dflt_value"@,
        "pk"@,
        "hidden"@,
    ]
}

/// The question that describes the columns of one table.
pub open spec fn columns_question() -> Seq<char> {
    columns::asked(column_items(), " FROM pragma_table_xinfo(?1) ORDER BY cid"@)
}

/// Whether a database answered the questions about its tables so.
pub open spec fn schema_answered(
    connection: Connection,
    names: sql::ReplyModel,
    replies: Seq<sql::ReplyModel>,
) -> bool {
    &&& sql::may_answer(connection, tables_question(), Seq::empty(), names)
    &&& sql::collected::<String>(names) matches Ok(list) ==> forall|i: int|
        0 <= i < replies.len() && i < list.len() ==> sql::may_answer(
            connection,
            columns_question(),
            seq![sql::ParameterModel::Text(list[i])],
            #[trigger] replies[i],
        )
}

/// Whether reading the schema of a database can have this outcome.
pub open spec fn schema_read(
    connection: Connection,
    outcome: Result<Seq<TableModel>, Failure>,
) -> bool {
    exists|names: sql::ReplyModel, replies: Seq<sql::ReplyModel>|
        #[trigger] schema_answered(connection, names, replies) && outcome == schema_of(
            names,
            replies,
        )
}

/// Whether opening a serialized database, and reading its schema, can have this outcome.
pub open spec fn image_opened(
    data: Seq<u8>,
    outcome: Result<(Connection, Seq<TableModel>), Failure>,
) -> bool {
    match outcome {
        Ok((connection, schema)) => sql::holds_image(connection, data) && schema_read(
            connection,
            Ok(schema),
        ),
        Err(failure) => (failure == Failure::Sqlite && (sql::may_open(false) || sql::may_refuse(
            data,
        ))) || exists|connection: Connection|
            #[trigger] sql::holds_image(connection, data) && schema_read(
                connection,
                Err(failure),
            ),
    }
}

/// What opening a database gives.
pub open spec fn database_given(database: Result<Database, Error>) -> Result<
    (Connection, Seq<TableModel>),
    Failure,
> {
    match database {
        Ok(database) => Ok((database.connection, database.schema@)),
        Err(error) => Err(error@),
    }
}

fn read_schema(connection: &Connection) -> (schema: Result<DatabaseSchema, Error>)
    ensures
        exists|names: sql::ReplyModel, replies: Seq<sql::ReplyModel>|
            #[trigger] schema_answered(*connection, names, replies) && error::outcome(schema) == schema_of(
                names,
                replies,
            ),
{
    let reply = query_all(
        connection,
        "SELECT name FROM sqlite_schema WHERE type = 'table' AND name NOT LIKE 'sqlite_%' ORDER BY name",
    );
    let ghost mut replies: Seq<sql::ReplyModel> = Seq::empty();
    let names: Vec<String> = match collect::<String>(&reply) {
        Ok(names) => names,
        Err(error) => {
            assert(schema_answered(*connection, reply@, replies));
            return Err(error);
        },
    };
    let mut schema = DatabaseSchema::empty();
    let ghost list = error::views(names@);
    let mut at: usize = 0;
    while at < names.len()
        invariant
            at <= names@.len(),
            list == error::views(names@),
            sql::collected::<String>(reply@) == Ok::<Seq<Seq<char>>, Failure>(list),
            replies.len() == at,
            schema_answered(*connection, reply@, replies),
            forall|more: Seq<sql::ReplyModel>|
                at <= more.len() && #[trigger] more.subrange(0, at as int) == replies
                    ==> schema_of(reply@, more) == tables_from(list, more, at as int, schema@),
        decreases names@.len() - at,
    {
        let mut parameters: Vec<SqlParameter> = Vec::new();
        parameters.push(SqlParameter::Text(names[at].clone()));
        let asked: [&str; 7] = ["cid", "name", "type", "\"notnull\"", "dflt_value", "pk", "hidden"];
        assert(self::names(asked@) =~= column_items());
        let columns = query(
            connection,
            columns::ask(&asked, " FROM pragma_table_xinfo(?1) ORDER BY cid").as_str(),
            &parameters,
        );
        let ghost before = replies;
        proof {
            assert(error::views(parameters@) =~= seq![
                sql::ParameterModel::Text(list[at as int]),
            ]);
            replies = replies.push(columns@);
            assert(replies.subrange(0, at as int) =~= before);
            assert forall|i: int| 0 <= i < replies.len() && i < list.len() implies sql::may_answer(
                *connection,
                columns_question(),
                seq![sql::ParameterModel::Text(list[i])],
                #[trigger] replies[i],
            ) by {
                if i < at {
                    assert(replies[i] == before[i]);
                }
            }
            assert(schema_answered(*connection, reply@, replies));
            assert forall|more: Seq<sql::ReplyModel>|
                at + 1 <= more.len() && #[trigger] more.subrange(0, at + 1)
                    == replies implies schema_of(reply@, more) == tables_from(
                list,
                more,
                at as int,
                schema@,
            ) && more[at as int] == columns@ by {
                assert(more.subrange(0, at + 1)[at as int] == columns@);
                assert(more.subrange(0, at as int) =~= more.subrange(0, at + 1).subrange(
                    0,
                    at as int,
                ));
                assert(more.subrange(0, at as int) == before);
            }
        }
        match table_schema(names[at].clone(), &columns) {
            Ok(table) => {
                schema = schema.with_table(table);
            },
            Err(error) => {
                assert(replies.subrange(0, at + 1) =~= replies);
                assert(schema_of(reply@, replies) == tables_from(
                    list,
                    replies,
                    at as int,
                    schema@,
                ));
                return Err(error);
            },
        }
        at = at + 1;
    }
    assert(replies.subrange(0, at as int) =~= replies);
    Ok(schema)
}

/// One row from the SQLite `ExternalChunk` index.
#[derive(Clone, Debug, PartialEq, Eq)]
pub struct ExternalChunkRecord {
    pub identifier: Vec<u8>,
    pub offset: u64,
}

/// The model of an [`ExternalChunkRecord`].
pub struct ExternalRecordModel {
    pub identifier: Seq<u8>,
    pub offset: u64,
}

impl View for ExternalChunkRecord {
    type V = ExternalRecordModel;

    open spec fn view(&self) -> ExternalRecordModel {
        ExternalRecordModel { identifier: self.identifier@, offset: self.offset }
    }
}

impl ExternalChunkRecord {
    /// External identifier bytes.
    #[must_use]
    pub fn identifier(&self) -> (identifier: &[u8])
        ensures
            identifier@ == self@.identifier,
    {
        self.identifier.as_slice()
    }

    /// Absolute `CHNKExta` chunk-header offset.
    #[must_use]
    pub fn offset(&self) -> (offset: u64)
        ensures
            offset == self@.offset,
    {
        self.offset
    }
}

impl FromRow for ExternalChunkRecord {
    open spec fn row_model(row: Seq<SqlModel>) -> Result<ExternalRecordModel, Failure> {
        match (sql::bytes_at(row, 0), sql::integer_at(row, 1)) {
            (Ok(identifier), Ok(offset)) => if offset < 0 {
                Err(
                    Failure::InvalidDatabase {
                        reason: "ExternalChunk contains a negative offset"@,
                    },
                )
            } else {
                Ok(ExternalRecordModel { identifier, offset: offset as u64 })
            },
            _ => Err(Failure::Sqlite),
        }
    }

    fn read_row(row: &SqlRow) -> (value: Result<ExternalChunkRecord, Error>) {
        let identifier = row.bytes(0)?;
        let offset: i64 = row.integer(1)?;
        if offset < 0 {
            return Err(
                Error::InvalidDatabase {
                    reason: Message::new("ExternalChunk contains a negative offset").build(),
                },
            );
        }
        Ok(ExternalChunkRecord { identifier, offset: offset as u64 })
    }
}

/// A table and column declared to contain external-object identifiers.
#[derive(Clone, Debug, PartialEq, Eq)]
pub struct ExternalReferenceColumn {
    pub table: String,
    pub column: String,
}

/// The model of an [`ExternalReferenceColumn`].
pub struct ReferenceColumnModel {
    pub table: Seq<char>,
    pub column: Seq<char>,
}

impl View for ExternalReferenceColumn {
    type V = ReferenceColumnModel;

    open spec fn view(&self) -> ReferenceColumnModel {
        ReferenceColumnModel { table: self.table@, column: self.column@ }
    }
}

impl ExternalReferenceColumn {
    /// Declared table name.
    #[must_use]
    pub fn table(&self) -> (table: &str)
        ensures
            table@ == self@.table,
    {
        self.table.as_str()
    }

    /// Declared column name.
    #[must_use]
    pub fn column(&self) -> (column: &str)
        ensures
            column@ == self@.column,
    {
        self.column.as_str()
    }
}

impl FromRow for ExternalReferenceColumn {
    open spec fn row_model(row: Seq<SqlModel>) -> Result<ReferenceColumnModel, Failure> {
        match (sql::text_at(row, 0), sql::text_at(row, 1)) {
            (Ok(table), Ok(column)) => Ok(ReferenceColumnModel { table, column }),
            _ => Err(Failure::Sqlite),
        }
    }

    fn read_row(row: &SqlRow) -> (value: Result<ExternalReferenceColumn, Error>) {
        Ok(ExternalReferenceColumn { table: row.text(0)?, column: row.text(1)? })
    }
}

/// A text with every quotation mark doubled.
pub open spec fn doubled_quotes(text: Seq<char>) -> Seq<char>
    decreases text.len(),
{
    if text.len() == 0 {
        Seq::empty()
    } else if text.last() == '"' {
        doubled_quotes(text.drop_last()).push('"').push('"')
    } else {
        doubled_quotes(text.drop_last()).push(text.last())
    }
}

/// A name as SQL writes it between quotation marks.
pub open spec fn quoted_name(name: Seq<char>) -> Seq<char> {
    seq!['"'] + doubled_quotes(name) + seq!['"']
}

/// A name as SQL writes it between quotation marks.
pub fn quote_identifier(identifier: &str) -> (quoted: String)
    ensures
        quoted@ == quoted_name(identifier@),
{
    let mut quoted = String::new();
    quoted.push('"');
    let characters = characters(identifier);
    let length: usize = characters.len();
    let mut at: usize = 0;
    assert(identifier@.take(0) =~= Seq::<char>::empty());
    assert(quoted@ =~= seq!['"'] + doubled_quotes(identifier@.take(0)));
    while at < length
        invariant
            length == identifier@.len(),
            characters@ == identifier@,
            at <= length,
            quoted@ == seq!['"'] + doubled_quotes(identifier@.take(at as int)),
        decreases length - at,
    {
        let character = characters[at];
        assert(identifier@.take(at + 1).drop_last() =~= identifier@.take(at as int));
        let ghost before = quoted@;
        quoted.push(character);
        if character == '"' {
            quoted.push('"');
        }
        at = at + 1;
        assert(quoted@ =~= seq!['"'] + doubled_quotes(identifier@.take(at as int)));
    }
    assert(identifier@.take(at as int) =~= identifier@);
    quoted.push('"');
    assert(quoted@ =~= quoted_name(identifier@));
    quoted
}

/// What a quick check that gave this reply says of the database.
pub open spec fn quick_check_of(reply: sql::ReplyModel) -> Result<(), Failure> {
    match sql::only_row(reply) {
        Err(failure) => Err(failure),
        Ok(row) => match sql::text_at(row, 0) {
            Err(failure) => Err(failure),
            Ok(text) => if text == "ok"@ {
                Ok(())
            } else {
                Err(Failure::InvalidDatabase { reason: text })
            },
        },
    }
}

/// What a quick check that gave this reply says of the database.
pub fn quick_check_result(reply: &Reply) -> (result: Result<(), Error>)
    ensures
        error::plain(result) == quick_check_of(reply@),
{
    let text: String = reply.only_row()?.text(0)?;
    if same_text(text.as_str(), "ok") {
        Ok(())
    } else {
        Err(Error::InvalidDatabase { reason: text })
    }
}

/// The number of rows that a count gave.
pub open spec fn row_count_of(table: Seq<char>, reply: sql::ReplyModel) -> Result<u64, Failure> {
    match sql::only_row(reply) {
        Err(failure) => Err(failure),
        Ok(row) => match sql::integer_at(row, 0) {
            Err(failure) => Err(failure),
            Ok(count) => if count < 0 {
                Err(
                    Failure::InvalidDatabase {
                        reason: "negative row count for table "@ + message::quoted_text(table),
                    },
                )
            } else {
                Ok(count as u64)
            },
        },
    }
}

/// The number of rows that a count of a table gave.
pub fn row_count_result(table: &str, reply: &Reply) -> (count: Result<u64, Error>)
    ensures
        error::plain(count) == row_count_of(table@, reply@),
{
    let count: i64 = reply.only_row()?.integer(0)?;
    if count < 0 {
        return Err(
            Error::InvalidDatabase {
                reason: Message::new("negative row count for table ").quoted(table).build(),
            },
        );
    }
    Ok(count as u64)
}

/// The index row that a lookup gave, if there is one.
pub open spec fn record_of(reply: sql::ReplyModel) -> Result<Option<ExternalRecordModel>, Failure> {
    match sql::first_row(reply) {
        Err(failure) => Err(failure),
        Ok(None) => Ok(None),
        Ok(Some(row)) => match ExternalChunkRecord::row_model(row) {
            Err(failure) => Err(failure),
            Ok(record) => Ok(Some(record)),
        },
    }
}

/// The index row that a lookup gave, if there is one.
pub fn record_result(reply: &Reply) -> (record: Result<Option<ExternalChunkRecord>, Error>)
    ensures
        error::optional_outcome(record) == record_of(reply@),
{
    match reply.first_row()? {
        Some(row) => Ok(Some(ExternalChunkRecord::read_row(row)?)),
        None => Ok(None),
    }
}

/// Read-only access to the embedded SQLite database.
pub struct Database {
    pub connection: Connection,
    pub schema: DatabaseSchema,
}

/// The columns of the external index, which every use of it needs.
pub open spec fn index_columns() -> Seq<Seq<char>> {
    seq!["ExternalID"@, "Offset"@]
}

/// What is asked for the index of external objects, in order.
pub open spec fn index_items() -> Seq<Seq<char>> {
    seq![
        "ExternalID"@,
        "Offset"@,
    ]
}

/// What is asked for the columns that hold identifiers, in order.
pub open spec fn reference_items() -> Seq<Seq<char>> {
    seq![
        "TableName"@,
        "ColumnName"@,
    ]
}

impl Database {
    /// Reads the schema of the database behind a connection.
    pub fn from_connection(connection: Connection) -> (database: Result<Database, Error>)
        ensures
            match database {
                Ok(database) => schema_read(connection, Ok(database.schema@))
                    && database.connection == connection,
                Err(error) => schema_read(connection, Err(error@)),
            },
    {
        let schema = read_schema(&connection)?;
        Ok(Database { connection, schema })
    }

    /// Runtime schema discovered from this specific file.
    #[must_use]
    pub fn schema(&self) -> (schema: &DatabaseSchema)
        ensures
            *schema == self.schema,
    {
        &self.schema
    }

    /// Underlying read-only rusqlite connection for advanced queries.
    #[must_use]
    pub fn connection(&self) -> (connection: &Connection)
        ensures
            *connection == self.connection,
    {
        &self.connection
    }

    /// Runs SQLite's bounded quick integrity check.
    pub fn quick_check(&self) -> (result: Result<(), Error>)
        ensures
            exists|reply: sql::ReplyModel|
                #[trigger] sql::may_answer(
                    self.connection,
                    "PRAGMA quick_check(1)"@,
                    Seq::empty(),
                    reply,
                )
                    && error::plain(result) == quick_check_of(reply),
    {
        let reply = query_all(&self.connection, "PRAGMA quick_check(1)");
        quick_check_result(&reply)
    }

    /// Counts rows in a table after validating its name against the schema.
    pub fn row_count(&self, table: &str) -> (count: Result<u64, Error>)
        ensures
            table_of(self.schema@, table@) is None ==> error::plain(count) == Err::<u64, Failure>(
                Failure::MissingTable { table: table@ },
            ),
            table_of(self.schema@, table@) is Some ==> exists|reply: sql::ReplyModel|
                #[trigger] sql::may_answer(
                    self.connection,
                    "SELECT count(*) FROM "@ + quoted_name(table@),
                    Seq::empty(),
                    reply,
                ) && error::plain(count) == row_count_of(table@, reply),
    {
        if self.schema.table(table).is_none() {
            return Err(Error::MissingTable { table: table.to_owned() });
        }
        let question = Message::new("SELECT count(*) FROM ").text(
            quote_identifier(table).as_str(),
        ).build();
        let reply = query_all(&self.connection, question.as_str());
        row_count_result(table, &reply)
    }

    fn missing_index_column(&self) -> (found: Option<Error>)
        ensures
            error::optional(found) == first_missing(
                self.schema@,
                "ExternalChunk"@,
                index_columns(),
                0,
            ),
    {
        let columns: [&str; 2] = ["ExternalID", "Offset"];
        assert(names(columns@) =~= index_columns());
        self.schema.first_missing_column("ExternalChunk", &columns)
    }

    /// Reads the external identifier-to-offset index.
    pub fn external_chunks(&self) -> (records: Result<Vec<ExternalChunkRecord>, Error>)
        ensures
            match first_missing(self.schema@, "ExternalChunk"@, index_columns(), 0) {
                Some(failure) => error::listed(records) == Err::<Seq<ExternalRecordModel>, Failure>(
                    failure,
                ),
                None => exists|reply: sql::ReplyModel|
                    #[trigger] sql::may_answer(
                        self.connection,
                        columns::asked(index_items(), " FROM ExternalChunk ORDER BY Offset"@),
                        Seq::empty(),
                        reply,
                    ) && error::listed(records) == sql::collected::<ExternalChunkRecord>(reply),
            },
    {
        if let Some(error) = self.missing_index_column() {
            return Err(error);
        }
        let asked: [&str; 2] = ["ExternalID", "Offset"];
        assert(names(asked@) =~= index_items());
        let reply = query_all(
            &self.connection,
            columns::ask(&asked, " FROM ExternalChunk ORDER BY Offset").as_str(),
        );
        collect(&reply)
    }

    /// Looks up one external-object index row by its opaque identifier.
    pub fn external_chunk(&self, identifier: &[u8]) -> (record: Result<
        Option<ExternalChunkRecord>,
        Error,
    >)
        ensures
            match first_missing(self.schema@, "ExternalChunk"@, index_columns(), 0) {
                Some(failure) => error::optional_outcome(record) == Err::<
                    Option<ExternalRecordModel>,
                    Failure,
                >(failure),
                None => exists|reply: sql::ReplyModel|
                    #[trigger] sql::may_answer(
                        self.connection,
                        lookup_question(),
                        seq![sql::ParameterModel::Blob(identifier@)],
                        reply,
                    ) && error::optional_outcome(record) == record_of(reply),
            },
    {
        if let Some(error) = self.missing_index_column() {
            return Err(error);
        }
        let mut parameters: Vec<SqlParameter> = Vec::new();
        parameters.push(SqlParameter::Blob(copy_bytes(identifier, 0, identifier.len())));
        proof {
            assert(identifier@.subrange(0, identifier@.len() as int) =~= identifier@);
            assert(error::views(parameters@) =~= seq![sql::ParameterModel::Blob(identifier@)]);
        }
        let asked: [&str; 2] = ["ExternalID", "Offset"];
        assert(names(asked@) =~= index_items());
        let reply = query(
            &self.connection,
            columns::ask(
                &asked,
                " FROM ExternalChunk WHERE CAST(ExternalID AS BLOB) = ?1 LIMIT 1",
            ).as_str(),
            &parameters,
        );
        assert(sql::may_answer(
            self.connection,
            lookup_question(),
            seq![sql::ParameterModel::Blob(identifier@)],
            reply@,
        ));
        record_result(&reply)
    }

    /// Reads declarations of columns that may reference external objects.
    pub fn external_reference_columns(&self) -> (columns: Result<
        Vec<ExternalReferenceColumn>,
        Error,
    >)
        ensures
            match first_missing(
                self.schema@,
                "ExternalTableAndColumnName"@,
                seq!["TableName"@, "ColumnName"@],
                0,
            ) {
                Some(failure) => error::listed(columns) == Err::<Seq<ReferenceColumnModel>, Failure>(
                    failure,
                ),
                None => exists|reply: sql::ReplyModel|
                    #[trigger] sql::may_answer(
                        self.connection,
                        columns::asked(
                            reference_items(),
                            " FROM ExternalTableAndColumnName ORDER BY rowid"@,
                        ),
                        Seq::empty(),
                        reply,
                    ) && error::listed(columns) == sql::collected::<ExternalReferenceColumn>(reply),
            },
    {
        let needed: [&str; 2] = ["TableName", "ColumnName"];
        assert(names(needed@) =~= seq!["TableName"@, "ColumnName"@]);
        if let Some(error) = self.schema.first_missing_column(
            "ExternalTableAndColumnName",
            &needed,
        ) {
            return Err(error);
        }
        let asked: [&str; 2] = ["TableName", "ColumnName"];
        assert(names(asked@) =~= reference_items());
        let reply = query_all(
            &self.connection,
            columns::ask(&asked, " FROM ExternalTableAndColumnName ORDER BY rowid").as_str(),
        );
        collect(&reply)
    }
}

/// A database whose rows can be changed.
pub struct EditableDatabase {
    pub connection: Connection,
    pub schema: DatabaseSchema,
}

impl EditableDatabase {
    /// Makes a database editable.
    pub fn new(database: Database) -> (editable: EditableDatabase)
        ensures
            editable.connection == database.connection,
            editable.schema == database.schema,
    {
        EditableDatabase { connection: database.connection, schema: database.schema }
    }

    /// Runtime schema discovered from this specific file.
    #[must_use]
    pub fn schema(&self) -> (schema: &DatabaseSchema)
        ensures
            *schema == self.schema,
    {
        &self.schema
    }

    /// Underlying rusqlite connection for advanced queries.
    #[must_use]
    pub fn connection(&self) -> (connection: &Connection)
        ensures
            *connection == self.connection,
    {
        &self.connection
    }
}

/// The question that looks up one external object.
pub open spec fn lookup_question() -> Seq<char> {
    columns::asked(
        index_items(),
        " FROM ExternalChunk WHERE CAST(ExternalID AS BLOB) = ?1 LIMIT 1"@,
    )
}

/// The first SQLite chunk at or after `at`.
pub open spec fn sqlite_chunk_from(
    data: Seq<u8>,
    max_chunks: u64,
    at: int,
    seen: u64,
) -> Result<ChunkModel, Failure>
    decreases data.len() - at,
    when 0 <= at
{
    match scan::scan_step(
        data,
        max_chunks,
        scan::ScanModel { next_offset: Some(at as u64), chunks_seen: seen },
    ).0 {
        None => Err(Failure::InvalidChunkSequence { reason: "missing SQLite chunk"@ }),
        Some(Err(failure)) => Err(failure),
        Some(Ok(chunk)) => if chunk.tag == container::sqlite_tag() {
            Ok(chunk)
        } else if chunk.payload_offset + chunk.payload_size <= at {
            Err(Failure::OffsetOverflow)
        } else {
            sqlite_chunk_from(
                data,
                max_chunks,
                chunk.payload_offset + chunk.payload_size,
                (seen + 1) as u64,
            )
        },
    }
}

/// The serialized database of a file, checked against the header and the limits.
pub open spec fn database_payload_of(file: ClipFile) -> Result<Seq<u8>, Failure> {
    let limit = file.limits.max_database_size;
    match sqlite_chunk_from(
        file.data@,
        file.limits.max_top_level_chunks,
        file.root_header.first_chunk_offset as int,
        0,
    ) {
        Err(failure) => Err(failure),
        Ok(chunk) => if chunk.offset != file.file_header.database_offset {
            Err(
                Failure::InvalidChunkSequence {
                    reason: "SQLite offset does not match CHNKHead"@,
                },
            )
        } else if chunk.payload_size > limit {
            Err(
                Failure::LimitExceeded {
                    resource: "SQLite payload size"@,
                    value: chunk.payload_size,
                    limit,
                },
            )
        } else if chunk.payload_size > usize::MAX {
            Err(
                Failure::LimitExceeded {
                    resource: "SQLite payload size"@,
                    value: chunk.payload_size,
                    limit: usize::MAX as u64,
                },
            )
        } else {
            Ok(
                container::available_bytes(
                    file.data@,
                    chunk.payload_offset as int,
                    chunk.payload_size as int,
                ),
            )
        },
    }
}

/// The object behind an index row, checked against the identifier that was asked for.
pub open spec fn resolved_object(
    file: ClipFile,
    record: Option<ExternalRecordModel>,
    identifier: Seq<u8>,
) -> Result<Option<ExternalObjectModel>, Failure> {
    match record {
        None => Ok(None),
        Some(record) => match container::chunk_at(file.data@, record.offset as int) {
            Err(failure) => Err(failure),
            Ok(chunk) => if chunk.tag != container::external_tag() {
                Err(
                    Failure::InvalidDatabase {
                        reason: "external index offset "@ + message::decimal(record.offset as nat)
                            + " does not point to CHNKExta"@,
                    },
                )
            } else {
                match external::external_object_of(file, chunk) {
                    Err(failure) => Err(failure),
                    Ok(object) => if object.header.identifier != identifier {
                        Err(
                            Failure::InvalidDatabase {
                                reason: "external identifier does not match the chunk at offset "@
                                    + message::decimal(record.offset as nat),
                            },
                        )
                    } else {
                        Ok(Some(object))
                    },
                }
            },
        },
    }
}

/// The external chunks among the first `count` chunks, in order.
pub open spec fn external_among(chunks: Seq<ChunkModel>, count: int) -> Seq<ChunkModel>
    decreases count,
{
    if count <= 0 {
        Seq::empty()
    } else if chunks[count - 1].tag == container::external_tag() {
        external_among(chunks, count - 1).push(chunks[count - 1])
    } else {
        external_among(chunks, count - 1)
    }
}

/// The position of the first chunk at that offset at or after `at`, or the number of
/// chunks.
pub open spec fn chunk_position(chunks: Seq<ChunkModel>, offset: u64, at: int) -> int
    decreases chunks.len() - at,
{
    if at >= chunks.len() {
        chunks.len() as int
    } else if chunks[at].offset == offset {
        at
    } else {
        chunk_position(chunks, offset, at + 1)
    }
}

/// Whether one of the first `count` records has that offset.
pub open spec fn offset_among(records: Seq<ExternalRecordModel>, count: int, offset: u64) -> bool {
    exists|i: int| 0 <= i < count && #[trigger] records[i].offset == offset
}

/// Whether one index row agrees with the external chunks of the file.
pub open spec fn record_check(
    file: ClipFile,
    chunks: Seq<ChunkModel>,
    records: Seq<ExternalRecordModel>,
    at: int,
) -> Result<(), Failure> {
    let record = records[at];
    let position = chunk_position(chunks, record.offset, 0);
    if position >= chunks.len() {
        Err(
            Failure::InvalidDatabase {
                reason: "ExternalChunk offset "@ + message::decimal(record.offset as nat)
                    + " does not point to CHNKExta"@,
            },
        )
    } else if offset_among(records, at, record.offset) {
        Err(
            Failure::InvalidDatabase {
                reason: "ExternalChunk has more than one row for offset "@ + message::decimal(
                    record.offset as nat,
                ),
            },
        )
    } else {
        match scan::external_header_of(
            file.data@,
            chunks[position],
            file.limits.max_identifier_size,
        ) {
            Err(failure) => Err(failure),
            Ok(header) => if header.identifier != record.identifier {
                Err(
                    Failure::InvalidDatabase {
                        reason: "external identifier at offset "@ + message::decimal(
                            record.offset as nat,
                        )
                            + " does not match SQLite"@,
                    },
                )
            } else {
                Ok(())
            },
        }
    }
}

/// Whether the index rows from `at` on agree with the external chunks of the file.
pub open spec fn records_check(
    file: ClipFile,
    chunks: Seq<ChunkModel>,
    records: Seq<ExternalRecordModel>,
    at: int,
) -> Result<(), Failure>
    decreases records.len() - at,
{
    if at >= records.len() {
        Ok(())
    } else {
        match record_check(file, chunks, records, at) {
            Err(failure) => Err(failure),
            Ok(()) => records_check(file, chunks, records, at + 1),
        }
    }
}

/// Whether index rows and external chunks agree one for one.
pub open spec fn external_index_check(file: ClipFile, records: Seq<ExternalRecordModel>) -> Result<
    (),
    Failure,
> {
    match scan::file_chunks(file) {
        Err(failure) => Err(failure),
        Ok(chunks) => {
            let external = external_among(chunks, chunks.len() as int);
            if records.len() != external.len() {
                Err(
                    Failure::InvalidDatabase {
                        reason: "ExternalChunk has "@ + message::decimal(records.len())
                            + " rows, but the container has "@ + message::decimal(external.len())
                            + " CHNKExta chunks"@,
                    },
                )
            } else {
                records_check(file, external, records, 0)
            }
        },
    }
}

proof fn chunk_position_bounds(chunks: Seq<ChunkModel>, offset: u64, at: int)
    requires
        0 <= at <= chunks.len(),
    ensures
        at <= chunk_position(chunks, offset, at) <= chunks.len(),
        chunk_position(chunks, offset, at) < chunks.len() ==> chunks[chunk_position(
            chunks,
            offset,
            at,
        )].offset == offset,
    decreases chunks.len() - at,
{
    if at < chunks.len() && chunks[at].offset != offset {
        chunk_position_bounds(chunks, offset, at + 1);
    }
}

proof fn accepted_records(
    file: ClipFile,
    chunks: Seq<ChunkModel>,
    records: Seq<ExternalRecordModel>,
    at: int,
)
    requires
        0 <= at <= records.len(),
        records_check(file, chunks, records, at) is Ok,
    ensures
        forall|i: int| at <= i < records.len() ==> #[trigger] record_check(
            file,
            chunks,
            records,
            i,
        ) is Ok,
    decreases records.len() - at,
{
    if at < records.len() {
        accepted_records(file, chunks, records, at + 1);
    }
}

/// Whether an index row has the offset and the identifier of an external chunk.
pub open spec fn names_chunk(
    file: ClipFile,
    record: ExternalRecordModel,
    chunk: ChunkModel,
) -> bool {
    &&& chunk.offset == record.offset
    &&& scan::external_header_of(file.data@, chunk, file.limits.max_identifier_size) matches Ok(
        header,
    )
    &&& header.identifier == record.identifier
}

/// Whether an index row has the offset and the identifier of one of these chunks.
pub open spec fn names_one_of(
    file: ClipFile,
    record: ExternalRecordModel,
    chunks: Seq<ChunkModel>,
) -> bool {
    exists|k: int| 0 <= k < chunks.len() && #[trigger] names_chunk(file, record, chunks[k])
}

/// In an index that is accepted, every row names the identifier of the external chunk
/// it points to, and every external chunk has exactly one row.
pub proof fn accepted_index_is_one_for_one(
    file: ClipFile,
    records: Seq<ExternalRecordModel>,
    chunks: Seq<ChunkModel>,
)
    requires
        scan::file_chunks(file) == Ok::<Seq<ChunkModel>, Failure>(chunks),
        external_index_check(file, records) is Ok,
    ensures
        ({
            let external = external_among(chunks, chunks.len() as int);
            &&& forall|i: int|
                0 <= i < records.len() ==> names_one_of(file, #[trigger] records[i], external)
            &&& forall|k: int|
                0 <= k < external.len() ==> exists|i: int|
                    0 <= i < records.len() && (#[trigger] records[i]).offset == (
                    #[trigger] external[k]).offset
            &&& forall|i: int, j: int|
                0 <= i < j < records.len() ==> (#[trigger] records[i]).offset != (
                #[trigger] records[j]).offset
        }),
{
    let external = external_among(chunks, chunks.len() as int);
    accepted_records(file, external, records, 0);
    assert forall|i: int| 0 <= i < records.len() implies names_one_of(
        file,
        #[trigger] records[i],
        external,
    ) by {
        assert(record_check(file, external, records, i) is Ok);
        let k = chunk_position(external, records[i].offset, 0);
        chunk_position_bounds(external, records[i].offset, 0);
        assert(names_chunk(file, records[i], external[k]));
    }
    assert forall|i: int, j: int| 0 <= i < j < records.len() implies (#[trigger] records[i]).offset
        != (#[trigger] records[j]).offset by {
        assert(record_check(file, external, records, j) is Ok);
    }
    let offsets = Seq::new(records.len(), |i: int| records[i].offset);
    let places = Seq::new(external.len(), |k: int| external[k].offset);
    assert(offsets.no_duplicates());
    offsets.unique_seq_to_set();
    places.lemma_cardinality_of_set();
    vstd::seq_lib::seq_to_set_is_finite(places);
    vstd::seq_lib::seq_to_set_is_finite(offsets);
    assert(offsets.to_set().subset_of(places.to_set())) by {
        assert forall|offset: u64| offsets.to_set().contains(offset) implies places.to_set().contains(
            offset,
        ) by {
            let i = choose|i: int| 0 <= i < offsets.len() && offsets[i] == offset;
            assert(names_one_of(file, records[i], external));
            let k = choose|k: int|
                0 <= k < external.len() && #[trigger] names_chunk(file, records[i], external[k]);
            assert(places[k] == offset);
        }
    }
    vstd::set_lib::lemma_len_subset(offsets.to_set(), places.to_set());
    vstd::set_lib::lemma_subset_equality(offsets.to_set(), places.to_set());
    assert forall|k: int| 0 <= k < external.len() implies exists|i: int|
        0 <= i < records.len()
            && (#[trigger] records[i]).offset == (#[trigger] external[k]).offset by {
        assert(places[k] == external[k].offset);
        assert(places.to_set().contains(external[k].offset));
        let i = choose|i: int| 0 <= i < offsets.len() && offsets[i] == external[k].offset;
        assert(records[i].offset == external[k].offset);
    }
}

/// Whether resolving an identifier to its chunk can have this outcome.
pub open spec fn object_read(
    connection: Connection,
    file: ClipFile,
    schema: Seq<TableModel>,
    identifier: Seq<u8>,
    outcome: Result<Option<ExternalObjectModel>, Failure>,
) -> bool {
    match first_missing(schema, "ExternalChunk"@, index_columns(), 0) {
        Some(failure) => outcome == Err::<Option<ExternalObjectModel>, Failure>(failure),
        None => exists|reply: sql::ReplyModel|
            #[trigger] sql::may_answer(
                connection,
                lookup_question(),
                seq![sql::ParameterModel::Blob(identifier)],
                reply,
            ) && outcome == match record_of(reply) {
                Err(failure) => Err::<Option<ExternalObjectModel>, Failure>(failure),
                Ok(record) => resolved_object(file, record, identifier),
            },
    }
}

impl ClipFile {
    /// Resolves an index row to its validated chunk.
    ///
    /// `None` stands for an identifier that the index does not hold.
    pub fn resolve_record(
        &self,
        record: Option<&ExternalChunkRecord>,
        identifier: &[u8],
    ) -> (object: Result<Option<ExternalObject>, Error>)
        ensures
            error::optional_outcome(object) == resolved_object(
                *self,
                match record {
                    Some(record) => Some(record@),
                    None => None,
                },
                identifier@,
            ),
    {
        let record = match record {
            Some(record) => record,
            None => return Ok(None),
        };
        let chunk = self.chunk_at_offset(record.offset)?;
        match chunk.kind() {
            ChunkKind::External => {},
            _ => {
                return Err(
                    Error::InvalidDatabase {
                        reason: Message::new("external index offset ").number(record.offset).text(
                            " does not point to CHNKExta",
                        ).build(),
                    },
                );
            },
        }
        let object = self.inspect_external_chunk(&chunk)?;
        if !same_bytes(object.header().identifier(), identifier) {
            return Err(
                Error::InvalidDatabase {
                    reason: Message::new(
                        "external identifier does not match the chunk at offset ",
                    ).number(record.offset).build(),
                },
            );
        }
        Ok(Some(object))
    }

    /// Resolves one SQLite external-object identifier to its validated chunk.
    ///
    /// `None` means the identifier is not present in `ExternalChunk`.
    pub fn resolve_external_object(&self, database: &Database, identifier: &[u8]) -> (object: Result<
        Option<ExternalObject>,
        Error,
    >)
        ensures
            object_read(
                database.connection,
                *self,
                database.schema@,
                identifier@,
                error::optional_outcome(object),
            ),
    {
        let record = database.external_chunk(identifier)?;
        match &record {
            Some(record) => self.resolve_record(Some(record), identifier),
            None => self.resolve_record(None, identifier),
        }
    }

    /// The serialized database of the file.
    pub fn database_payload(&self) -> (payload: Result<Vec<u8>, Error>)
        ensures
            error::outcome(payload) == database_payload_of(*self),
    {
        let limit: u64 = self.limits.max_database_size();
        let mut scan = self.chunks();
        let ghost whole = sqlite_chunk_from(
            self.data@,
            self.limits.max_top_level_chunks,
            self.root_header.first_chunk_offset as int,
            0,
        );
        let chunk: ChunkHeader;
        loop
            invariant_except_break
                scan.data@ == self.data@,
                scan.max_chunks == self.limits.max_top_level_chunks,
                scan.next_offset matches Some(at) && whole == sqlite_chunk_from(
                    self.data@,
                    scan.max_chunks,
                    at as int,
                    scan.chunks_seen,
                ),
            invariant
                whole == sqlite_chunk_from(
                    self.data@,
                    self.limits.max_top_level_chunks,
                    self.root_header.first_chunk_offset as int,
                    0,
                ),
            ensures
                whole == Ok::<ChunkModel, Failure>(chunk@),
            decreases self.data@.len() - scan.next_offset.unwrap(),
        {
            match scan.next() {
                None => {
                    return Err(Error::InvalidChunkSequence { reason: "missing SQLite chunk" });
                },
                Some(Err(error)) => return Err(error),
                Some(Ok(found)) => {
                    match found.kind() {
                        ChunkKind::Sqlite => {
                            chunk = found;
                            break ;
                        },
                        _ => {},
                    }
                },
            }
        }
        if chunk.offset != self.file_header.database_offset {
            return Err(
                Error::InvalidChunkSequence { reason: "SQLite offset does not match CHNKHead" },
            );
        }
        if chunk.payload_size > limit {
            return Err(Error::limit("SQLite payload size", chunk.payload_size, limit));
        }
        if chunk.payload_size > usize::MAX as u64 {
            return Err(Error::limit("SQLite payload size", chunk.payload_size, usize::MAX as u64));
        }
        Ok(
            container::read_available(
                self.data.as_slice(),
                chunk.payload_offset,
                chunk.payload_size,
            ),
        )
    }

    /// Opens the embedded SQLite payload as a read-only in-memory database.
    pub fn open_database(&self) -> (database: Result<Database, Error>)
        ensures
            match database_payload_of(*self) {
                Err(failure) => database matches Err(error) && error@ == failure,
                Ok(payload) => image_opened(payload, database_given(database)),
            },
    {
        let payload = self.database_payload()?;
        let connection = open_serialized(payload.as_slice())?;
        assert(sql::holds_image(connection, payload@));
        Database::from_connection(connection)
    }

    /// Verifies that index rows match the external chunks of the container.
    pub fn check_external_index(&self, records: &[ExternalChunkRecord]) -> (result: Result<
        (),
        Error,
    >)
        ensures
            error::plain(result) == external_index_check(*self, error::views(records@)),
    {
        let all = self.chunk_headers()?;
        let ghost models = error::views(all@);
        let mut chunks: Vec<ChunkHeader> = Vec::new();
        let mut next: usize = 0;
        assert(error::views(chunks@) =~= external_among(models, 0));
        while next < all.len()
            invariant
                next <= all@.len(),
                models == error::views(all@),
                error::views(chunks@) == external_among(models, next as int),
            decreases all@.len() - next,
        {
            assert(models[next as int] == all@[next as int]@);
            match all[next].kind() {
                ChunkKind::External => {
                    proof {
                        error::views_push(chunks@, all@[next as int]);
                    }
                    chunks.push(all[next]);
                },
                _ => {},
            }
            next = next + 1;
        }
        let ghost external = error::views(chunks@);
        let ghost rows = error::views(records@);
        if records.len() != chunks.len() {
            return Err(
                Error::InvalidDatabase {
                    reason: Message::new("ExternalChunk has ").number(records.len() as u64).text(
                        " rows, but the container has ",
                    ).number(chunks.len() as u64).text(" CHNKExta chunks").build(),
                },
            );
        }
        let mut at: usize = 0;
        while at < records.len()
            invariant
                at <= records@.len(),
                external == error::views(chunks@),
                rows == error::views(records@),
                records_check(*self, external, rows, 0) == records_check(
                    *self,
                    external,
                    rows,
                    at as int,
                ),
                external_index_check(*self, rows) == records_check(*self, external, rows, 0),
            decreases records@.len() - at,
        {
            let record = &records[at];
            assert(rows[at as int] == record@);
            let mut position: usize = 0;
            while position < chunks.len() && chunks[position].offset != record.offset
                invariant
                    position <= chunks@.len(),
                    external == error::views(chunks@),
                    chunk_position(external, record@.offset, 0) == chunk_position(
                        external,
                        record@.offset,
                        position as int,
                    ),
                decreases chunks@.len() - position,
            {
                assert(external[position as int] == chunks@[position as int]@);
                position = position + 1;
            }
            if position >= chunks.len() {
                return Err(
                    Error::InvalidDatabase {
                        reason: Message::new("ExternalChunk offset ").number(record.offset).text(
                            " does not point to CHNKExta",
                        ).build(),
                    },
                );
            }
            assert(external[position as int] == chunks@[position as int]@);
            let mut earlier: usize = 0;
            while earlier < at
                invariant
                    earlier <= at,
                    at < records@.len(),
                    rows == error::views(records@),
                    rows[at as int] == record@,
                    !offset_among(rows, earlier as int, record@.offset),
                    chunk_position(external, record@.offset, 0) == position,
                    position < external.len(),
                    external_index_check(*self, rows) == records_check(
                        *self,
                        external,
                        rows,
                        at as int,
                    ),
                decreases at - earlier,
            {
                assert(rows[earlier as int] == records@[earlier as int]@);
                if records[earlier].offset == record.offset {
                    assert(rows[earlier as int].offset == record@.offset);
                    assert(offset_among(rows, at as int, record@.offset));
                    return Err(
                        Error::InvalidDatabase {
                            reason: Message::new(
                                "ExternalChunk has more than one row for offset ",
                            ).number(record.offset).build(),
                        },
                    );
                }
                earlier = earlier + 1;
            }
            let header = self.external_chunk_header(&chunks[position])?;
            if !same_bytes(header.identifier(), record.identifier()) {
                return Err(
                    Error::InvalidDatabase {
                        reason: Message::new("external identifier at offset ").number(
                            record.offset,
                        ).text(" does not match SQLite").build(),
                    },
                );
            }
            at = at + 1;
        }
        Ok(())
    }

    /// Verifies that SQLite's external-object index matches the container.
    ///
    /// Every `ExternalChunk` row must point to a `CHNKExta` header with the
    /// same identifier, and every external chunk must have exactly one row.
    pub fn validate_external_index(&self, database: &Database) -> (result: Result<(), Error>)
        ensures
            match first_missing(database.schema@, "ExternalChunk"@, index_columns(), 0) {
                Some(failure) => error::plain(result) == Err::<(), Failure>(failure),
                None => exists|reply: sql::ReplyModel|
                    #[trigger] sql::may_answer(
                        database.connection,
                        columns::asked(index_items(), " FROM ExternalChunk ORDER BY Offset"@),
                        Seq::empty(),
                        reply,
                    ) && error::plain(result) == match sql::collected::<ExternalChunkRecord>(
                        reply,
                    ) {
                        Err(failure) => Err::<(), Failure>(failure),
                        Ok(records) => external_index_check(*self, records),
                    },
            },
    {
        let records = database.external_chunks()?;
        self.check_external_index(records.as_slice())
    }
}

/// Whether counting the rows of a table that exists can have this outcome.
pub open spec fn rows_counted(
    connection: Connection,
    table: Seq<char>,
    outcome: Result<u64, Failure>,
) -> bool {
    exists|reply: sql::ReplyModel|
        #[trigger] sql::may_answer(
            connection,
            "SELECT count(*) FROM "@ + quoted_name(table),
            Seq::empty(),
            reply,
        ) && outcome == row_count_of(table, reply)
}

} // verus!
