use clipfile::text::{
    add_text_object_from_template, allocate_identifier, remove_text_object,
    replace_text_object_text,
};
use clipfile::text_arrays::{
    append_array_item, encode_array, replace_text_attribute_identifier,
    same_character_encoding_widths, split_array, text_attribute_identifier,
};
use clipfile::{ClipFile, Database, EditableDatabase, Error, Limits, TextObjectData};
use rusqlite::{Connection, MAIN_DB};

fn array(items: &[&[u8]]) -> Vec<u8> {
    let mut bytes = Vec::new();
    for item in items {
        bytes.extend_from_slice(&(item.len() as u32).to_le_bytes());
        bytes.extend_from_slice(item);
    }
    bytes
}

fn attributes(identifier: u32, marker: u32) -> Vec<u8> {
    let mut bytes = Vec::new();
    for (kind, value) in [(32_u32, marker), (50, identifier)] {
        bytes.extend_from_slice(&kind.to_le_bytes());
        bytes.extend_from_slice(&4_u32.to_le_bytes());
        bytes.extend_from_slice(&value.to_le_bytes());
    }
    bytes
}

fn text_database(extra_string: &[u8], extra_attributes: &[u8]) -> Database {
    text_database_with_first_attributes(extra_string, extra_attributes, b"a1")
}

fn text_database_with_first_attributes(
    extra_string: &[u8],
    extra_attributes: &[u8],
    first_attributes: &[u8],
) -> Database {
    let connection = Connection::open_in_memory().unwrap();
    connection
        .execute_batch(
            "CREATE TABLE Layer (
                MainId INTEGER,
                LayerType INTEGER,
                TextLayerType INTEGER,
                TextLayerString BLOB,
                TextLayerAttributes BLOB,
                TextLayerStringArray BLOB,
                TextLayerAttributesArray BLOB,
                TextLayerAddAttributesV01 BLOB,
                TextLayerAttributesVersion INTEGER,
                TextLayerVersion INTEGER
             );",
        )
        .unwrap();
    connection
        .execute(
            "INSERT INTO Layer VALUES (1, 0, 7, ?1, ?2, ?3, ?4, ?5, 8, 9)",
            (
                b"first".as_slice(),
                first_attributes,
                extra_string,
                extra_attributes,
                b"additional".as_slice(),),
        )
        .unwrap();
    connection
        .execute("INSERT INTO Layer (MainId, LayerType) VALUES (2, 1)", [])
        .unwrap();
    Database::from_connection(connection).unwrap()
}

fn push_u64(bytes: &mut Vec<u8>, value: u64) {
    bytes.extend_from_slice(&value.to_be_bytes());
}

fn push_chunk(bytes: &mut Vec<u8>, tag: &[u8; 8], payload: &[u8]) -> u64 {
    let offset = bytes.len() as u64;
    bytes.extend_from_slice(tag);
    push_u64(bytes, payload.len() as u64);
    bytes.extend_from_slice(payload);
    offset
}

fn container(connection: &mut Connection) -> Vec<u8> {
    let database = connection.serialize(MAIN_DB).unwrap().to_vec();
    let database_offset = 24 + 16 + 40;
    let mut header = Vec::new();
    push_u64(&mut header, 256);
    push_u64(&mut header, database_offset);
    push_u64(&mut header, 16);
    header.extend_from_slice(&[0x42; 16]);

    let mut bytes = Vec::from(b"CSFCHUNK".as_slice());
    push_u64(&mut bytes, 0);
    push_u64(&mut bytes, 24);
    push_chunk(&mut bytes, b"CHNKHead", &header);
    assert_eq!(
        push_chunk(&mut bytes, b"CHNKSQLi", &database),
        database_offset
    );
    push_chunk(&mut bytes, b"CHNKFoot", b"");
    let file_size = bytes.len() as u64;
    bytes[8..16].copy_from_slice(&file_size.to_be_bytes());
    bytes
}

fn writable_text_sample() -> Vec<u8> {
    let mut connection = Connection::open_in_memory().unwrap();
    connection
        .execute_batch(
            "CREATE TABLE Layer (
                MainId INTEGER, LayerType INTEGER, TextLayerType INTEGER,
                TextLayerString BLOB, TextLayerAttributes BLOB,
                TextLayerStringArray BLOB, TextLayerAttributesArray BLOB,
                TextLayerAddAttributesV01 BLOB
             );
             CREATE TABLE ExternalChunk (ExternalID BLOB, Offset INTEGER);",
        )
        .unwrap();
    let primary_attributes = attributes(1000, 7);
    let additional_attributes = array(&[&primary_attributes]);
    connection
        .execute(
            "INSERT INTO Layer VALUES (1, 0, 0, ?1, ?2, NULL, NULL, ?3)",
            (
                b"first".as_slice(),
                primary_attributes,
                additional_attributes,
            ),
        )
        .unwrap();
    container(&mut connection)
}

fn editable(clip: &ClipFile) -> EditableDatabase {
    let data = clip.database_payload().unwrap();
    let mut connection = Connection::open_in_memory().unwrap();
    connection
        .deserialize_read_exact(MAIN_DB, data.as_slice(), data.len(), false)
        .unwrap();
    EditableDatabase::new(Database::from_connection(connection).unwrap())
}

#[test]
fn reads_utf8_text_and_length_prefixed_arrays() {
    let strings = array(&[b"second"]);
    let attributes = array(&[b"a2"]);
    let database = text_database(&strings, &attributes);
    let text = database.text_layer(1, Limits::default()).unwrap().unwrap();
    assert_eq!(text.layer_id(), 1);
    assert_eq!(text.layer_type(), 0);
    assert_eq!(text.text_layer_type(), 7);
    assert_eq!(text.attributes_version(), Some(8));
    assert_eq!(text.version(), Some(9));
    assert_eq!(text.additional_attributes(), Some(b"additional".as_slice()));
    assert_eq!(text.objects().len(), 2);
    assert_eq!(text.objects()[0].text(), "first");
    assert_eq!(text.objects()[0].attributes(), b"a1");
    assert_eq!(text.objects()[1].text(), "second");
    assert_eq!(text.objects()[1].attributes(), b"a2");
    assert!(database.text_layer(2, Limits::default()).unwrap().is_none());
    assert!(
        database
            .text_layer(999, Limits::default())
            .unwrap()
            .is_none()
    );
}

#[test]
fn rejects_malformed_text_and_enforces_limits() {
    let attributes = array(&[b"a2"]);
    let malformed = [4, 0, 0, 0, b'x'];
    let database = text_database(&malformed, &attributes);
    assert!(matches!(
        database.text_layer(1, Limits::default()),
        Err(Error::InvalidDocument { .. })
    ));

    let strings = array(&[b"second"]);
    let database = text_database(&strings, &attributes);
    assert!(matches!(
        database.text_layer(1, Limits::default().with_max_text_objects(1)),
        Err(Error::LimitExceeded { .. })
    ));
    assert!(matches!(
        database.text_layer(1, Limits::default().with_max_text_bytes(1)),
        Err(Error::LimitExceeded { .. })
    ));

    let connection = Connection::open_in_memory().unwrap();
    connection
        .execute_batch(
            "CREATE TABLE Layer (
                MainId INTEGER,
                LayerType INTEGER,
                TextLayerType INTEGER,
                TextLayerString BLOB,
                TextLayerAttributes BLOB
             );
             INSERT INTO Layer VALUES (1, 0, 0, x'FF', x'00');",
        )
        .unwrap();
    let invalid_utf8 = Database::from_connection(connection).unwrap();
    assert!(matches!(
        invalid_utf8.text_layer(1, Limits::default()),
        Err(Error::InvalidDocument { .. })
    ));

    let connection = Connection::open_in_memory().unwrap();
    connection
        .execute_batch("CREATE TABLE Layer (MainId INTEGER); INSERT INTO Layer VALUES (1);")
        .unwrap();
    let legacy = Database::from_connection(connection).unwrap();
    assert!(legacy.text_layer(1, Limits::default()).unwrap().is_none());
}

#[test]
fn replaces_one_text_object_and_preserves_opaque_attributes() {
    let strings = array(&[b"second"]);
    let attributes = array(&[b"a2"]);
    let database = text_database(&strings, &attributes);

    assert_eq!(
        replace_text_object_text(
            database.connection(),
            database.schema(),
            1,
            1,
            "update",
            Limits::default(),
        )
        .unwrap(),
        "second"
    );
    let text = database.text_layer(1, Limits::default()).unwrap().unwrap();
    assert_eq!(text.objects()[0].text(), "first");
    assert_eq!(text.objects()[0].attributes(), b"a1");
    assert_eq!(text.objects()[1].text(), "update");
    assert_eq!(text.objects()[1].attributes(), b"a2");
    assert_eq!(text.additional_attributes(), Some(b"additional".as_slice()));

    assert!(matches!(
        replace_text_object_text(
            database.connection(),
            database.schema(),
            1,
            2,
            "missing",
            Limits::default(),
        ),
        Err(Error::InvalidWrite { .. })
    ));

    database
        .connection()
        .execute(
            "UPDATE Layer SET TextLayerString = ?1 WHERE MainId = 1",
            ("éé".as_bytes(),),
        )
        .unwrap();
    assert!(matches!(
        replace_text_object_text(
            database.connection(),
            database.schema(),
            1,
            0,
            "a€",
            Limits::default(),
        ),
        Err(Error::InvalidWrite { .. })
    ));
    assert_eq!(
        database
            .text_layer(1, Limits::default())
            .unwrap()
            .unwrap()
            .objects()[0]
            .text(),
        "éé"
    );

    let limited = text_database(&strings, &attributes);
    assert!(matches!(
        replace_text_object_text(
            limited.connection(),
            limited.schema(),
            1,
            1,
            "update",
            Limits::default().with_max_text_bytes(32),
        ),
        Err(Error::LimitExceeded {
            resource: "text layer bytes",
            value: 33,
            limit: 32,
        })
    ));
    assert_eq!(
        limited
            .text_layer(1, Limits::default())
            .unwrap()
            .unwrap()
            .objects()[1]
            .text(),
        "second"
    );
}

#[test]
fn writes_text_through_clip_writer_and_reads_it_back() {
    let clip = ClipFile::open(writable_text_sample()).unwrap();
    let mut writer = editable(&clip);
    assert_eq!(
        writer
            .replace_text_object_text(1, 0, "other", Limits::default())
            .unwrap(),
        "first"
    );
    let added = writer
        .add_text_object_from_template(1, 0, "there", Limits::default())
        .unwrap();
    assert_eq!(added.object_index(), 1);
    assert_eq!(added.identifier(), 1001);
    let removed = writer
        .remove_text_object(1, 0, Limits::default())
        .unwrap();
    assert_eq!(removed.text(), "other");
    assert_eq!(
        text_attribute_identifier(removed.attributes()).unwrap().0,
        1000
    );
    let output = container(&mut writer.connection);
    let rewritten = ClipFile::open(output).unwrap();
    let database = rewritten.open_database().unwrap();
    let text = database.text_layer(1, Limits::default()).unwrap().unwrap();
    assert_eq!(text.objects().len(), 1);
    assert_eq!(text.objects()[0].text(), "there");
    assert_eq!(
        text_attribute_identifier(text.objects()[0].attributes())
            .unwrap()
            .0,
        1001
    );
    let additional = split_array(
        text.additional_attributes().unwrap(),
        "TextLayerAddAttributesV01",
        Limits::default().max_text_objects(),
    )
    .unwrap();
    assert_eq!(additional.len(), 1);
    assert_eq!(text_attribute_identifier(&additional[0]).unwrap().0, 1001);
}

#[test]
fn adds_text_objects_from_primary_and_array_templates_atomically() {
    let strings = array(&[b"second"]);
    let first_attributes = attributes(10, 1);
    let second_attributes = attributes(20, 2);
    let attribute_array = array(&[&second_attributes]);
    let database =
        text_database_with_first_attributes(&strings, &attribute_array, &first_attributes);
    let additional_array = array(&[&first_attributes, &second_attributes]);
    database
        .connection()
        .execute(
            "UPDATE Layer SET TextLayerAddAttributesV01 = ?1 WHERE MainId = 1",
            (additional_array,),
        )
        .unwrap();

    let first = add_text_object_from_template(
        database.connection(),
        database.schema(),
        1,
        0,
        "other",
        Limits::default(),
    )
    .unwrap();
    assert_eq!(first.object_index(), 2);
    assert_eq!(first.identifier(), 21);
    let second = add_text_object_from_template(
        database.connection(),
        database.schema(),
        1,
        1,
        "mirror",
        Limits::default(),
    )
    .unwrap();
    assert_eq!(second.object_index(), 3);
    assert_eq!(second.identifier(), 22);
    let text = database.text_layer(1, Limits::default()).unwrap().unwrap();
    assert_eq!(text.objects().len(), 4);
    assert_eq!(text.objects()[2].text(), "other");
    assert_eq!(
        text_attribute_identifier(text.objects()[2].attributes())
            .unwrap()
            .0,
        21
    );
    assert_eq!(text.objects()[3].text(), "mirror");
    assert_eq!(
        text_attribute_identifier(text.objects()[3].attributes())
            .unwrap()
            .0,
        22
    );
    let mut expected_first = first_attributes.clone();
    replace_text_attribute_identifier(&mut expected_first, 21).unwrap();
    assert_eq!(text.objects()[2].attributes(), expected_first);
    let mut expected_second = second_attributes.clone();
    replace_text_attribute_identifier(&mut expected_second, 22).unwrap();
    assert_eq!(text.objects()[3].attributes(), expected_second);
    let additional = split_array(
        text.additional_attributes().unwrap(),
        "TextLayerAddAttributesV01",
        Limits::default().max_text_objects(),
    )
    .unwrap();
    assert_eq!(additional.len(), 4);
    assert_eq!(text_attribute_identifier(&additional[0]).unwrap().0, 10);
    assert_eq!(text_attribute_identifier(&additional[1]).unwrap().0, 20);
    assert_eq!(text_attribute_identifier(&additional[2]).unwrap().0, 21);
    assert_eq!(text_attribute_identifier(&additional[3]).unwrap().0, 22);

    let before: (Vec<u8>, Vec<u8>, Vec<u8>) = database
        .connection()
        .query_row(
            "SELECT TextLayerStringArray, TextLayerAttributesArray, \
             TextLayerAddAttributesV01 \
             FROM Layer WHERE MainId = 1",
            [],
            |row| Ok((row.get(0)?, row.get(1)?, row.get(2)?)),
        )
        .unwrap();
    assert!(matches!(
        add_text_object_from_template(
            database.connection(),
            database.schema(),
            1,
            0,
            "a€",
            Limits::default(),
        ),
        Err(Error::InvalidWrite { .. })
    ));
    let after: (Vec<u8>, Vec<u8>, Vec<u8>) = database
        .connection()
        .query_row(
            "SELECT TextLayerStringArray, TextLayerAttributesArray, \
             TextLayerAddAttributesV01 \
             FROM Layer WHERE MainId = 1",
            [],
            |row| Ok((row.get(0)?, row.get(1)?, row.get(2)?)),
        )
        .unwrap();
    assert_eq!(after, before);
    assert!(matches!(
        add_text_object_from_template(
            database.connection(),
            database.schema(),
            1,
            0,
            "other",
            Limits::default().with_max_text_objects(4),
        ),
        Err(Error::LimitExceeded { .. })
    ));

    let mismatched_database =
        text_database_with_first_attributes(&strings, &attribute_array, &first_attributes);
    let mismatched_additional = array(&[&attributes(99, 1), &second_attributes]);
    mismatched_database
        .connection()
        .execute(
            "UPDATE Layer SET TextLayerAddAttributesV01 = ?1 WHERE MainId = 1",
            (mismatched_additional,),
        )
        .unwrap();
    let before: (Vec<u8>, Vec<u8>, Vec<u8>) = mismatched_database
        .connection()
        .query_row(
            "SELECT TextLayerStringArray, TextLayerAttributesArray, \
             TextLayerAddAttributesV01 FROM Layer WHERE MainId = 1",
            [],
            |row| Ok((row.get(0)?, row.get(1)?, row.get(2)?)),
        )
        .unwrap();
    assert!(matches!(
        add_text_object_from_template(
            mismatched_database.connection(),
            mismatched_database.schema(),
            1,
            0,
            "other",
            Limits::default(),
        ),
        Err(Error::InvalidWrite { .. })
    ));
    let after: (Vec<u8>, Vec<u8>, Vec<u8>) = mismatched_database
        .connection()
        .query_row(
            "SELECT TextLayerStringArray, TextLayerAttributesArray, \
             TextLayerAddAttributesV01 FROM Layer WHERE MainId = 1",
            [],
            |row| Ok((row.get(0)?, row.get(1)?, row.get(2)?)),
        )
        .unwrap();
    assert_eq!(after, before);
}

#[test]
fn removes_primary_or_array_text_objects_atomically() {
    fn database_with_three_objects() -> Database {
        let first_attributes = attributes(10, 1);
        let second_attributes = attributes(20, 2);
        let third_attributes = attributes(30, 3);
        let strings = array(&[b"second", b"third"]);
        let attribute_array = array(&[&second_attributes, &third_attributes]);
        let database =
            text_database_with_first_attributes(&strings, &attribute_array, &first_attributes);
        let additional = array(&[&first_attributes, &second_attributes, &third_attributes]);
        database
            .connection()
            .execute(
                "UPDATE Layer SET TextLayerAddAttributesV01 = ?1 WHERE MainId = 1",
                (additional,),
            )
            .unwrap();
        database
    }

    let database = database_with_three_objects();
    let removed = remove_text_object(
        database.connection(),
        database.schema(),
        1,
        1,
        Limits::default(),
    )
    .unwrap();
    assert_eq!(removed.text(), "second");
    assert_eq!(
        text_attribute_identifier(removed.attributes()).unwrap().0,
        20
    );
    let text = database.text_layer(1, Limits::default()).unwrap().unwrap();
    assert_eq!(
        text.objects()
            .iter()
            .map(TextObjectData::text)
            .collect::<Vec<_>>(),
        ["first", "third"]
    );
    assert_eq!(
        text_attribute_identifier(text.objects()[0].attributes())
            .unwrap()
            .0,
        10
    );
    assert_eq!(
        text_attribute_identifier(text.objects()[1].attributes())
            .unwrap()
            .0,
        30
    );

    let database = database_with_three_objects();
    let removed = remove_text_object(
        database.connection(),
        database.schema(),
        1,
        0,
        Limits::default(),
    )
    .unwrap();
    assert_eq!(removed.text(), "first");
    assert_eq!(
        text_attribute_identifier(removed.attributes()).unwrap().0,
        10
    );
    let text = database.text_layer(1, Limits::default()).unwrap().unwrap();
    assert_eq!(
        text.objects()
            .iter()
            .map(TextObjectData::text)
            .collect::<Vec<_>>(),
        ["second", "third"]
    );
    assert_eq!(
        text_attribute_identifier(text.objects()[0].attributes())
            .unwrap()
            .0,
        20
    );
    let additional = split_array(
        text.additional_attributes().unwrap(),
        "TextLayerAddAttributesV01",
        Limits::default().max_text_objects(),
    )
    .unwrap();
    assert_eq!(additional.len(), 2);
    assert_eq!(text_attribute_identifier(&additional[0]).unwrap().0, 20);
    assert_eq!(text_attribute_identifier(&additional[1]).unwrap().0, 30);

    let before = database.text_layer(1, Limits::default()).unwrap().unwrap();
    assert!(matches!(
        remove_text_object(
            database.connection(),
            database.schema(),
            1,
            2,
            Limits::default(),
        ),
        Err(Error::InvalidWrite { .. })
    ));
    assert_eq!(
        database.text_layer(1, Limits::default()).unwrap().unwrap(),
        before
    );
}

#[test]
fn refuses_to_remove_the_only_text_object_or_mismatched_arrays() {
    let bytes = writable_text_sample();
    let clip = ClipFile::open(bytes).unwrap();
    let writer = editable(&clip);
    assert!(matches!(
        writer.remove_text_object(1, 0, Limits::default()),
        Err(Error::InvalidWrite { .. })
    ));

    let first_attributes = attributes(10, 1);
    let second_attributes = attributes(20, 2);
    let strings = array(&[b"second"]);
    let attribute_array = array(&[&second_attributes]);
    let database =
        text_database_with_first_attributes(&strings, &attribute_array, &first_attributes);
    let malformed = array(&[&first_attributes]);
    database
        .connection()
        .execute(
            "UPDATE Layer SET TextLayerAddAttributesV01 = ?1 WHERE MainId = 1",
            (malformed,),
        )
        .unwrap();
    let before: (Vec<u8>, Vec<u8>, Vec<u8>) = database
        .connection()
        .query_row(
            "SELECT TextLayerStringArray, TextLayerAttributesArray, \
             TextLayerAddAttributesV01 FROM Layer WHERE MainId = 1",
            [],
            |row| Ok((row.get(0)?, row.get(1)?, row.get(2)?)),
        )
        .unwrap();
    assert!(matches!(
        remove_text_object(
            database.connection(),
            database.schema(),
            1,
            1,
            Limits::default(),
        ),
        Err(Error::InvalidWrite { .. })
    ));
    let after: (Vec<u8>, Vec<u8>, Vec<u8>) = database
        .connection()
        .query_row(
            "SELECT TextLayerStringArray, TextLayerAttributesArray, \
             TextLayerAddAttributesV01 FROM Layer WHERE MainId = 1",
            [],
            |row| Ok((row.get(0)?, row.get(1)?, row.get(2)?)),
        )
        .unwrap();
    assert_eq!(after, before);
}

#[test]
fn arrays_read_back_what_was_written() {
    let items = vec![b"one".to_vec(), Vec::new(), vec![0; 300]];
    let data = encode_array(&items).unwrap();
    assert_eq!(data, array(&[b"one", b"", &[0; 300]]));
    assert_eq!(split_array(&data, "field", 10).unwrap(), items);
    assert!(matches!(
        split_array(&data, "field", 2),
        Err(Error::LimitExceeded { .. })
    ));
    let longer = append_array_item(Some(&data), b"two").unwrap();
    assert_eq!(split_array(&longer, "field", 10).unwrap()[3], b"two");
    assert_eq!(append_array_item(None, b"x").unwrap(), [1, 0, 0, 0, b'x']);
    assert!(split_array(&data[..data.len() - 1], "field", 10).is_err());
}

#[test]
fn only_texts_of_the_same_widths_take_each_others_place() {
    assert!(same_character_encoding_widths("abc", "xyz"));
    assert!(same_character_encoding_widths("a\u{e9}", "b\u{e8}"));
    assert!(!same_character_encoding_widths("ab", "abc"));
    assert!(!same_character_encoding_widths("\u{e9}\u{e9}", "a\u{20ac}"));
}

#[test]
fn identifiers_are_replaced_in_place() {
    let mut data = attributes(10, 1);
    assert_eq!(text_attribute_identifier(&data).unwrap().0, 10);
    assert_eq!(replace_text_attribute_identifier(&mut data, 77).unwrap(), 10);
    assert_eq!(data, attributes(77, 1));
    assert!(text_attribute_identifier(&data[..13]).is_err());
}

#[test]
fn fresh_identifiers_are_not_in_use() {
    assert_eq!(allocate_identifier(&vec![10, 11, 20]).unwrap(), 21);
}

#[test]
fn a_removal_that_fails_leaves_the_layer_as_it_was() {
    let first = attributes(10, 1);
    let second = attributes(20, 2);
    let database = text_database_with_first_attributes(
        &array(&[b"second"]),
        &array(&[&second]),
        &first,
    );
    let additional = array(&[&first, &second]);
    database
        .connection()
        .execute("UPDATE Layer SET TextLayerAddAttributesV01 = ?1 WHERE MainId = 1", (additional,))
        .unwrap();
    let before = database.text_layer(1, Limits::default()).unwrap();
    let connection = database.connection();
    let schema = database.schema();
    let error = remove_text_object(connection, schema, 1, 2, Limits::default()).unwrap_err();
    assert_eq!(
        error.message(),
        "cannot write CLIP container: text layer 1 has 2 objects, so object index 2 is invalid"
    );
    assert_eq!(database.text_layer(1, Limits::default()).unwrap(), before);
    connection
        .execute_batch(
            "CREATE TRIGGER keep BEFORE UPDATE ON Layer \
             BEGIN SELECT RAISE(ABORT, 'kept'); END;",
        )
        .unwrap();
    assert!(matches!(
        remove_text_object(connection, schema, 1, 0, Limits::default()),
        Err(Error::Sqlite { .. })
    ));
    assert_eq!(database.text_layer(1, Limits::default()).unwrap(), before);
    connection.execute_batch("DROP TRIGGER keep").unwrap();
    let removed = remove_text_object(connection, schema, 1, 0, Limits::default()).unwrap();
    let objects = before.unwrap().objects().to_vec();
    assert_eq!(removed, objects[0]);
    let after = database.text_layer(1, Limits::default()).unwrap().unwrap();
    assert_eq!(after.objects(), &objects[1..]);
    assert_eq!(split_array(after.additional_attributes().unwrap(), "records", 9).unwrap(), [second]);
}

#[test]
fn missing_columns_are_named() {
    let connection = Connection::open_in_memory().unwrap();
    connection
        .execute_batch("CREATE TABLE Layer (MainId INTEGER, TextLayerType INTEGER)")
        .unwrap();
    let database = Database::from_connection(connection).unwrap();
    let error =
        remove_text_object(database.connection(), database.schema(), 1, 0, Limits::default())
            .unwrap_err();
    assert_eq!(
        error.message(),
        "cannot write CLIP container: Layer.TextLayerString is required to remove a text object"
    );
}

#[test]
fn refused_edits_are_described() {
    let first_attributes = attributes(10, 1);
    let second_attributes = attributes(20, 2);
    let strings = array(&[b"second"]);
    let attribute_array = array(&[&second_attributes]);
    let database =
        text_database_with_first_attributes(&strings, &attribute_array, &first_attributes);
    let removed = |layer: i64, index: usize| {
        remove_text_object(
            database.connection(),
            database.schema(),
            layer,
            index,
            Limits::default(),
        )
        .unwrap_err()
        .message()
    };
    let store = |records: &[&[u8]]| {
        database
            .connection()
            .execute(
                "UPDATE Layer SET TextLayerAddAttributesV01 = ?1 WHERE MainId = 1",
                (array(records),),
            )
            .unwrap();
    };
    store(&[&first_attributes]);
    assert_eq!(
        removed(1, 1),
        "cannot write CLIP container: text layer 1 has 2 text objects but 1 additional attribute records"
    );
    assert_eq!(
        removed(1, 9),
        "cannot write CLIP container: text layer 1 has 2 objects, so object index 9 is invalid"
    );
    store(&[&first_attributes, &first_attributes]);
    assert_eq!(
        removed(1, 1),
        "cannot write CLIP container: text object 1 has identifier 20 but its additional attribute record uses 10"
    );
    assert_eq!(
        removed(77, 0),
        "cannot write CLIP container: expected one text layer with ID 77, found 0"
    );
    let replaced = replace_text_object_text(
        database.connection(),
        database.schema(),
        1,
        4,
        "text",
        Limits::default(),
    );
    assert_eq!(
        replaced.unwrap_err().message(),
        "cannot write CLIP container: text layer 1 has 2 objects, so index 4 is invalid"
    );
    let added = add_text_object_from_template(
        database.connection(),
        database.schema(),
        1,
        3,
        "text",
        Limits::default(),
    );
    assert_eq!(
        added.unwrap_err().message(),
        "cannot write CLIP container: text layer 1 has 2 objects, so template index 3 is invalid"
    );
    assert_eq!(
        text_attribute_identifier(&[50, 0, 0, 0, 2, 0, 0, 0, 1, 2]).unwrap_err().message(),
        "cannot write CLIP container: text object identifier parameter has 2 bytes instead of 4"
    );
}
