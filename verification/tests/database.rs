use clipfile::database::quote_identifier;
use clipfile::sql::{query_all, SqlValue};
use clipfile::{Database, Error};
use rusqlite::Connection;

fn database() -> Database {
    let connection = Connection::open_in_memory().unwrap();
    connection
        .execute_batch(
            "CREATE TABLE Canvas (MainId INTEGER, CanvasWidth REAL); \
             INSERT INTO Canvas VALUES (1, 640.0); \
             CREATE TABLE ExternalChunk (ExternalID BLOB, Offset INTEGER); \
             INSERT INTO ExternalChunk VALUES (x'616263', 80); \
             CREATE TABLE ExternalTableAndColumnName \
                (TableName TEXT, ColumnName TEXT); \
             INSERT INTO ExternalTableAndColumnName \
                VALUES ('Offscreen', 'BlockData');",
        )
        .unwrap();
    Database::from_connection(connection).unwrap()
}

#[test]
fn discovers_schema_by_name() {
    let database = database();
    assert!(database.schema().has_column("Canvas", "CanvasWidth"));
    assert!(!database.schema().has_column("Canvas", "CanvasHeight"));
    assert_eq!(database.row_count("Canvas").unwrap(), 1);
    assert!(matches!(
        database.row_count("Missing"),
        Err(Error::MissingTable { .. })
    ));
}

#[test]
fn reads_external_indexes() {
    let database = database();
    let chunks = database.external_chunks().unwrap();
    assert_eq!(chunks.len(), 1);
    assert_eq!(chunks[0].identifier(), b"abc");
    assert_eq!(chunks[0].offset(), 80);
    let references = database.external_reference_columns().unwrap();
    assert_eq!(references[0].table(), "Offscreen");
    assert_eq!(references[0].column(), "BlockData");
    database.quick_check().unwrap();
}

#[test]
fn tables_are_listed_by_name_with_their_columns() {
    let database = database();
    let names = database
        .schema()
        .tables()
        .iter()
        .map(|table| table.name().to_owned())
        .collect::<Vec<_>>();
    assert_eq!(names, ["Canvas", "ExternalChunk", "ExternalTableAndColumnName"]);
    let canvas = database.schema().table("Canvas").unwrap();
    assert_eq!(canvas.columns().len(), 2);
    let width = canvas.column("CanvasWidth").unwrap();
    assert_eq!(width.declared_type(), "REAL");
    assert_eq!(width.ordinal(), 1);
    assert_eq!(width.primary_key_position(), 0);
    assert!(!width.is_not_null());
    assert!(matches!(
        database.schema().require_column("Canvas", "Missing"),
        Err(Error::MissingColumn { .. })
    ));
}

#[test]
fn external_rows_are_found_by_identifier() {
    let database = database();
    assert_eq!(database.external_chunk(b"abc").unwrap().unwrap().offset(), 80);
    assert!(database.external_chunk(b"abd").unwrap().is_none());
}

#[test]
fn names_are_quoted_for_statements() {
    assert_eq!(quote_identifier("Layer"), "\"Layer\"");
    assert_eq!(quote_identifier("a\"b"), "\"a\"\"b\"");
}

#[test]
fn values_come_back_as_they_are_stored() {
    let connection = Connection::open_in_memory().unwrap();
    let reply = query_all(&connection, "SELECT NULL, -5, 0.5, 'a', x'00FF'");
    assert!(reply.failure().is_none());
    assert_eq!(reply.rows.len(), 1);
    let row = &reply.rows[0];
    assert!(matches!(row.values[0], SqlValue::Null));
    assert_eq!(row.integer(1).unwrap(), -5);
    assert_eq!(f64::from_bits(row.number(2).unwrap().bits()), 0.5);
    assert_eq!(row.text(3).unwrap(), "a");
    assert_eq!(row.blob(4).unwrap(), [0, 255]);
    assert!(matches!(row.integer(3), Err(Error::Sqlite { .. })));
    assert!(matches!(row.integer(9), Err(Error::Sqlite { .. })));
    let broken = query_all(&connection, "SELECT * FROM Nothing");
    assert!(matches!(broken.failure(), Some(Error::Sqlite { .. })));
}
