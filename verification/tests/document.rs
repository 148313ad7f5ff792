use clipfile::{ClipFile, Error, Limits};
use rusqlite::Connection;

const IDENTIFIER: &[u8] = b"extrnlid0123456789ABCDEF0123456789ABCDEF";
const EXTERNAL_OFFSET: i64 = 24 + 16 + 40;

fn push_u64(bytes: &mut Vec<u8>, value: u64) {
    bytes.extend_from_slice(&value.to_be_bytes());
}

fn push_chunk(bytes: &mut Vec<u8>, tag: &[u8; 8], payload: &[u8]) -> u64 {
    let offset = bytes.len() as u64;
    bytes.extend_from_slice(tag);
    push_u64(bytes, payload.len() as u64);
    bytes.extend_from_slice(payload);
    offset
}

fn file_with(database: &[u8]) -> Vec<u8> {
    let mut bytes = Vec::from(b"CSFCHUNK".as_slice());
    push_u64(&mut bytes, 0);
    push_u64(&mut bytes, 24);
    let mut header = Vec::new();
    push_u64(&mut header, 256);
    push_u64(&mut header, 0);
    push_u64(&mut header, 16);
    header.extend_from_slice(&[0x42; 16]);
    push_chunk(&mut bytes, b"CHNKHead", &header);
    let mut external = Vec::new();
    push_u64(&mut external, IDENTIFIER.len() as u64);
    external.extend_from_slice(IDENTIFIER);
    push_u64(&mut external, 3);
    external.extend_from_slice(b"abc");
    push_chunk(&mut bytes, b"CHNKExta", &external);
    let database_offset = push_chunk(&mut bytes, b"CHNKSQLi", database);
    push_chunk(&mut bytes, b"CHNKFoot", b"");
    let file_size = bytes.len() as u64;
    bytes[8..16].copy_from_slice(&file_size.to_be_bytes());
    bytes[48..56].copy_from_slice(&database_offset.to_be_bytes());
    bytes
}

fn file_with_index(rows: &[(&[u8], i64)]) -> Vec<u8> {
    let mut connection = Connection::open_in_memory().unwrap();
    connection
        .execute_batch(
            "CREATE TABLE Project (
                ProjectInternalVersion TEXT, ProjectName TEXT, ProjectCanvas INTEGER
             );
             INSERT INTO Project VALUES ('1.1.0', 'whole', 10);
             CREATE TABLE Canvas (
                MainId INTEGER, CanvasUnit INTEGER, CanvasWidth REAL, CanvasHeight REAL,
                CanvasResolution REAL, CanvasRootFolder INTEGER, CanvasCurrentLayer INTEGER
             );
             INSERT INTO Canvas VALUES (10, 0, 640, 480, 72, 1, 2);
             CREATE TABLE Layer (
                MainId INTEGER, CanvasId INTEGER, LayerName TEXT, LayerType INTEGER,
                LayerOpacity INTEGER, LayerComposite INTEGER, LayerLock INTEGER,
                LayerClip INTEGER, LayerMasking INTEGER, LayerFolder INTEGER,
                LayerVisibility INTEGER, LayerNextIndex INTEGER,
                LayerFirstChildIndex INTEGER, LayerRenderMipmap INTEGER,
                LayerLayerMaskMipmap INTEGER
             );
             INSERT INTO Layer VALUES (1,10,'',256,256,0,0,0,0,1,1,0,2,0,0);
             INSERT INTO Layer VALUES (2,10,'paint',1,256,0,0,1,0,0,1,0,0,20,0);
             CREATE TABLE ExternalChunk (ExternalID BLOB, Offset INTEGER);",
        )
        .unwrap();
    for (identifier, offset) in rows {
        connection
            .execute("INSERT INTO ExternalChunk VALUES (?1, ?2)", (identifier, offset))
            .unwrap();
    }
    file_with(&connection.serialize(rusqlite::MAIN_DB).unwrap())
}

#[test]
fn a_document_is_read_out_of_its_file() {
    let clip = ClipFile::open(file_with_index(&[(IDENTIFIER, EXTERNAL_OFFSET)])).unwrap();
    let document = clip.read_document().unwrap();
    assert_eq!(document.project().internal_version(), "1.1.0");
    assert_eq!(document.layer_trees().len(), 1);
    assert_eq!(document.layer_trees()[0].root_children(), &[2]);
    let paint = document.layer(2).unwrap();
    assert!(paint.is_clipped());
    assert!(!paint.kind().is_correction());
}

#[test]
fn a_file_without_a_database_image_has_no_document() {
    let clip = ClipFile::open(file_with(b"db!")).unwrap();
    assert!(clip.read_document().is_err());
}

#[test]
fn databases_have_to_fit_the_limit() {
    let bytes = file_with_index(&[(IDENTIFIER, EXTERNAL_OFFSET)]);
    let limits = Limits::default().with_max_database_size(16);
    let clip = ClipFile::open_with_limits(bytes, limits).unwrap();
    assert!(matches!(clip.read_document(), Err(Error::LimitExceeded { .. })));
}

#[test]
fn the_external_index_names_every_object_once() {
    let clip = ClipFile::open(file_with_index(&[(IDENTIFIER, EXTERNAL_OFFSET)])).unwrap();
    let database = clip.open_database().unwrap();
    assert!(clip.validate_external_index(&database).is_ok());

    let other: &[u8] = b"extrnlidFFFFFFFFFFFFFFFFFFFFFFFFFFFFFFFF";
    let broken: [&[(&[u8], i64)]; 4] = [
        &[],
        &[(IDENTIFIER, EXTERNAL_OFFSET + 1)],
        &[(other, EXTERNAL_OFFSET)],
        &[(IDENTIFIER, EXTERNAL_OFFSET), (IDENTIFIER, EXTERNAL_OFFSET)],
    ];
    for rows in broken {
        let clip = ClipFile::open(file_with_index(rows)).unwrap();
        let database = clip.open_database().unwrap();
        assert!(matches!(
            clip.validate_external_index(&database),
            Err(Error::InvalidDatabase { .. })
        ));
    }
}

#[test]
fn one_limit_changes_at_a_time() {
    let base = Limits::default();
    let limits = base.with_max_identifier_size(1);
    assert_eq!(limits.max_identifier_size(), 1);
    assert_eq!(limits.with_max_identifier_size(base.max_identifier_size()), base);
    let limits = base.with_max_blocks_per_external(2);
    assert_eq!(limits.max_blocks_per_external(), 2);
    assert_eq!(limits.with_max_blocks_per_external(base.max_blocks_per_external()), base);
    let limits = base.with_max_decompressed_block_size(3);
    assert_eq!(limits.max_decompressed_block_size(), 3);
    let limits = base.with_max_raster_bytes(4);
    assert_eq!(limits.max_raster_bytes(), 4);
    let limits = base.with_max_vector_data_bytes(5);
    assert_eq!(limits.max_vector_data_bytes(), 5);
    let limits = base.with_max_vector_objects(6);
    assert_eq!(limits.max_vector_objects(), 6);
    let limits = base.with_max_canvas_dimension(7);
    assert_eq!(limits.max_canvas_dimension(), 7);
    let limits = base.with_max_animation_bytes(8);
    assert_eq!(limits.max_animation_bytes(), 8);
    let limits = base.with_max_time_lapse_blob_bytes(9);
    assert_eq!(limits.max_time_lapse_blob_bytes(), 9);
    let limits = base.with_max_correction_items(10);
    assert_eq!(limits.max_correction_items(), 10);
    let limits = base.with_max_ruler_data_bytes(11);
    assert_eq!(limits.max_ruler_data_bytes(), 11);
    let limits = base.with_max_write_external_body_size(12);
    assert_eq!(limits.max_write_external_body_size(), 12);
}

#[test]
fn reachable_and_unreachable_layers_are_all_layers_of_the_canvas() {
    let clip = ClipFile::open(file_with_index(&[(IDENTIFIER, EXTERNAL_OFFSET)])).unwrap();
    let document = clip.read_document().unwrap();
    for tree in document.layer_trees() {
        let on_canvas = document
            .layers()
            .iter()
            .filter(|layer| layer.canvas_id() == tree.canvas_id())
            .count();
        assert_eq!(tree.reachable_layer_count() + tree.unreachable_layer_ids().len(), on_canvas);
    }
}

#[test]
fn schema_tables_are_in_order_and_found_by_their_names() {
    let clip = ClipFile::open(file_with_index(&[(IDENTIFIER, EXTERNAL_OFFSET)])).unwrap();
    let database = clip.open_database().unwrap();
    let schema = database.schema().clone();
    let names = schema.tables().iter().map(|table| table.name()).collect::<Vec<_>>();
    assert_eq!(names, ["Canvas", "ExternalChunk", "Layer", "Project"]);
    for table in schema.tables() {
        assert_eq!(schema.table(table.name()), Some(table));
    }
    assert_eq!(schema.table("layer"), None);
}
