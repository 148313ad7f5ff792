use std::io::Write;

use clipfile::frames::TimeLapseFrameScanner;
use clipfile::{ClipFile, Database, Error, Limits};
use flate2::{write::ZlibEncoder, Compression};
use rusqlite::Connection;

const IDENTIFIER: &[u8] = b"extrnlid0123456789ABCDEF0123456789ABCDEF";

fn push_u64(bytes: &mut Vec<u8>, value: u64) {
    bytes.extend_from_slice(&value.to_be_bytes());
}

fn push_chunk(bytes: &mut Vec<u8>, tag: &[u8; 8], payload: &[u8]) -> u64 {
    let offset = bytes.len() as u64;
    bytes.extend_from_slice(tag);
    push_u64(bytes, payload.len() as u64);
    bytes.extend_from_slice(payload);
    offset
}

fn sample(body: &[u8]) -> (Vec<u8>, u64) {
    let mut bytes = Vec::from(b"CSFCHUNK".as_slice());
    push_u64(&mut bytes, 0);
    push_u64(&mut bytes, 24);
    let mut header = Vec::new();
    push_u64(&mut header, 256);
    let database_offset_position = header.len();
    push_u64(&mut header, 0);
    push_u64(&mut header, 16);
    header.extend_from_slice(&[0x42; 16]);
    push_chunk(&mut bytes, b"CHNKHead", &header);

    let mut external = Vec::new();
    push_u64(&mut external, IDENTIFIER.len() as u64);
    external.extend_from_slice(IDENTIFIER);
    push_u64(&mut external, body.len() as u64);
    external.extend_from_slice(body);
    let external_offset = push_chunk(&mut bytes, b"CHNKExta", &external);
    let database_offset = push_chunk(&mut bytes, b"CHNKSQLi", b"db!");
    push_chunk(&mut bytes, b"CHNKFoot", b"");
    let file_size = bytes.len() as u64;
    bytes[8..16].copy_from_slice(&file_size.to_be_bytes());
    let database_field = 24 + 16 + database_offset_position;
    bytes[database_field..database_field + 8].copy_from_slice(&database_offset.to_be_bytes());
    (bytes, external_offset)
}

fn database(
    offset: u64,
    raw_size: usize,
    stored_size: usize,
    encoder_sequence: i64,
) -> Database {
    let connection = Connection::open_in_memory().unwrap();
    connection
        .execute_batch(
            "CREATE TABLE TimeLapseManager (
                MainId INTEGER, CanvasId INTEGER, RecordFirstIndex INTEGER
             );
             INSERT INTO TimeLapseManager VALUES (1, 1, 2);
             CREATE TABLE TimeLapseRecord (
                MainId INTEGER, CanvasId INTEGER, NextIndex INTEGER,
                EncoderName TEXT, EncoderSequence INTEGER, BlobFirstIndex INTEGER
             );
             CREATE TABLE TimeLapseBlob (
                MainId INTEGER, CanvasId INTEGER, NextIndex INTEGER,
                BlobOffset INTEGER, BlobSize INTEGER, BlobSizeCompressed INTEGER,
                BlobType INTEGER, BlobData BLOB
             );
             CREATE TABLE ExternalChunk (ExternalID BLOB, Offset INTEGER);",
        )
        .unwrap();
    connection
        .execute(
            "INSERT INTO TimeLapseRecord VALUES (2, 1, 0, 'WEBP', ?1, 4)",
            [encoder_sequence],
        )
        .unwrap();
    connection
        .execute(
            "INSERT INTO TimeLapseBlob VALUES (4, 1, 0, 0, ?1, ?2, 2, ?3)",
            (raw_size as i64, stored_size as i64, IDENTIFIER,),
        )
        .unwrap();
    connection
        .execute(
            "INSERT INTO ExternalChunk VALUES (?1, ?2)",
            (IDENTIFIER, offset as i64,),
        )
        .unwrap();
    Database::from_connection(connection).unwrap()
}

fn push_le_u32(bytes: &mut Vec<u8>, value: u32) {
    bytes.extend_from_slice(&value.to_le_bytes());
}

fn vp8x(width: u32, height: u32) -> Vec<u8> {
    let mut bytes = Vec::from(b"RIFF".as_slice());
    push_le_u32(&mut bytes, 22);
    bytes.extend_from_slice(b"WEBPVP8X");
    push_le_u32(&mut bytes, 10);
    bytes.extend_from_slice(&[0; 4]);
    for value in [width - 1, height - 1] {
        bytes.push(value as u8);
        bytes.push((value >> 8) as u8);
        bytes.push((value >> 16) as u8);
    }
    assert_eq!(bytes.len(), 30);
    bytes
}

fn frame(kind: &[u8; 4], sequence: u32, parameter_a: u32, parameter_b: u32) -> Vec<u8> {
    let webp = vp8x(64, 32);
    let mut bytes = Vec::new();
    bytes.extend_from_slice(kind);
    push_le_u32(&mut bytes, webp.len() as u32 + 16);
    push_le_u32(&mut bytes, 0);
    push_le_u32(&mut bytes, sequence);
    push_le_u32(&mut bytes, 0);
    push_le_u32(&mut bytes, parameter_a);
    push_le_u32(&mut bytes, parameter_b);
    bytes.extend_from_slice(&webp);
    bytes
}

fn encoded_body(raw: &[u8]) -> Vec<u8> {
    let mut encoder = ZlibEncoder::new(Vec::new(), Compression::fast());
    encoder.write_all(raw).unwrap();
    let compressed = encoder.finish().unwrap();
    let mut body = Vec::new();
    body.extend_from_slice(&(compressed.len() as u32).to_be_bytes());
    body.extend_from_slice(&compressed);
    body
}

#[test]
fn reads_metadata_and_streams_a_blob() {
    let raw = b"GMIK\0\0\0\0\0\0\0\0\x01\0\0\0\0\0\0\0\0\0\0\0\0\0\0\0RIFF";
    let mut encoder = ZlibEncoder::new(Vec::new(), Compression::fast());
    encoder.write_all(raw).unwrap();
    let compressed = encoder.finish().unwrap();
    let mut body = Vec::new();
    body.extend_from_slice(&(compressed.len() as u32).to_be_bytes());
    body.extend_from_slice(&compressed);
    let (bytes, offset) = sample(&body);
    let database = database(offset, raw.len(), body.len(), 3);
    let time_lapse = database.time_lapse(Limits::default()).unwrap().unwrap();
    let manager = &time_lapse.managers()[0];
    let record = &manager.records()[0];
    let blob = &record.blobs()[0];
    assert_eq!(record.encoder_name(), "WEBP");
    assert_eq!(record.decoded_size(), raw.len() as u64);

    let clip = ClipFile::open(bytes).unwrap();
    assert_eq!(
        clip.read_time_lapse_blob(&database, blob, Limits::default())
            .unwrap(),
        raw
    );
    let mut copied = Vec::new();
    assert_eq!(
        clip.copy_time_lapse_blob(&database, blob, Limits::default(), &mut copied)
            .unwrap(),
        raw.len() as u64
    );
    assert_eq!(copied, raw);
}

#[test]
fn rejects_limits_and_broken_chains() {
    let connection = Connection::open_in_memory().unwrap();
    connection
        .execute_batch(
            "CREATE TABLE TimeLapseManager (
                MainId INTEGER, CanvasId INTEGER, RecordFirstIndex INTEGER
             );
             INSERT INTO TimeLapseManager VALUES (1, 1, 2);
             CREATE TABLE TimeLapseRecord (
                MainId INTEGER, CanvasId INTEGER, NextIndex INTEGER,
                EncoderName TEXT, EncoderSequence INTEGER, BlobFirstIndex INTEGER
             );
             INSERT INTO TimeLapseRecord VALUES (2, 1, 2, 'WEBP', 3, 0);
             CREATE TABLE TimeLapseBlob (
                MainId INTEGER, CanvasId INTEGER, NextIndex INTEGER,
                BlobOffset INTEGER, BlobSize INTEGER, BlobSizeCompressed INTEGER,
                BlobType INTEGER, BlobData BLOB
             );",
        )
        .unwrap();
    let database = Database::from_connection(connection).unwrap();
    assert!(matches!(
        database.time_lapse(Limits::default()),
        Err(Error::InvalidTimeLapse { .. })
    ));
    assert!(matches!(
        database.time_lapse(Limits::default().with_max_time_lapse_items(0)),
        Err(Error::LimitExceeded { .. })
    ));
}

#[test]
fn indexes_internal_webp_frames_across_the_decoded_stream() {
    let mut raw = frame(b"GMIK", 1, 0, 0);
    raw.extend_from_slice(&frame(b"GMID", 2, 7, 9));
    let body = encoded_body(&raw);
    let (bytes, offset) = sample(&body);
    let database = database(offset, raw.len(), body.len(), 2);
    let time_lapse = database.time_lapse(Limits::default()).unwrap().unwrap();
    let record = &time_lapse.managers()[0].records()[0];
    let clip = ClipFile::open(bytes).unwrap();
    let frames = clip
        .read_time_lapse_frame_index(&database, record, Limits::default())
        .unwrap();

    assert_eq!(frames.len(), 2);
    assert!(frames[0].kind().is_gmik());
    assert!(frames[1].kind().is_gmid());
    assert!(frames[0].kind().is_key_frame());
    assert!(frames[1].kind().is_delta_frame());
    assert_eq!(frames[0].record_offset(), 0);
    assert_eq!(frames[0].encoded_offset(), 28);
    assert_eq!(frames[0].encoded_size(), 30);
    assert_eq!(frames[1].record_offset(), 58);
    assert_eq!(frames[1].sequence(), 2);
    assert_eq!(frames[1].parameter_a(), 7);
    assert_eq!(frames[1].parameter_b(), 9);
    assert_eq!(frames[0].delta_origin(), None);
    assert_eq!(frames[1].delta_origin(), Some((7, 9)));
    assert_eq!(frames[1].webp_chunk_kind(), *b"VP8X");
    assert_eq!(frames[1].webp_dimensions(), Some((64, 32)));
}

#[test]
fn rejects_malformed_or_oversized_frame_indexes() {
    let mut raw = frame(b"GMIK", 1, 0, 0);
    raw.extend_from_slice(&frame(b"GMID", 2, 0, 0));
    let body = encoded_body(&raw);
    let (bytes, offset) = sample(&body);
    let valid_database = database(offset, raw.len(), body.len(), 2);
    let time_lapse = valid_database
        .time_lapse(Limits::default())
        .unwrap()
        .unwrap();
    let record = &time_lapse.managers()[0].records()[0];
    let clip = ClipFile::open(bytes).unwrap();
    assert!(matches!(
        clip.read_time_lapse_frame_index(
            &valid_database,
            record,
            Limits::default().with_max_time_lapse_items(1)
        ),
        Err(Error::LimitExceeded { .. })
    ));

    raw[4..8].copy_from_slice(&0_u32.to_le_bytes());
    let body = encoded_body(&raw);
    let (bytes, offset) = sample(&body);
    let database = database(offset, raw.len(), body.len(), 2);
    let time_lapse = database.time_lapse(Limits::default()).unwrap().unwrap();
    let record = &time_lapse.managers()[0].records()[0];
    let clip = ClipFile::open(bytes).unwrap();
    assert!(matches!(
        clip.read_time_lapse_frame_index(&database, record, Limits::default()),
        Err(Error::InvalidTimeLapse { .. })
    ));
}

#[test]
fn frames_are_found_however_the_stream_is_cut() {
    let mut raw = frame(b"GMIK", 1, 0, 0);
    raw.extend_from_slice(&frame(b"GMID", 2, 7, 9));
    let mut whole = TimeLapseFrameScanner::new(Limits::default());
    whole.feed(&raw).unwrap();
    let expected = whole.finish(2, raw.len() as u64, 2).unwrap();
    for size in [1, 7, 28, 59] {
        let mut scanner = TimeLapseFrameScanner::new(Limits::default());
        for piece in raw.chunks(size) {
            scanner.feed(piece).unwrap();
        }
        assert_eq!(scanner.finish(2, raw.len() as u64, 2).unwrap(), expected);
    }
}

#[test]
fn frame_sequences_have_to_rise_to_the_recorded_end() {
    let mut raw = frame(b"GMIK", 2, 0, 0);
    raw.extend_from_slice(&frame(b"GMID", 1, 0, 0));
    let mut scanner = TimeLapseFrameScanner::new(Limits::default());
    let fed = scanner.feed(&raw);
    assert!(fed.is_err() || scanner.finish(2, raw.len() as u64, 1).is_err());
    let mut scanner = TimeLapseFrameScanner::new(Limits::default());
    scanner.feed(&frame(b"GMIK", 1, 0, 0)).unwrap();
    assert!(matches!(
        scanner.finish(2, 58, 2),
        Err(Error::InvalidTimeLapse { .. })
    ));
}

#[test]
fn blobs_have_to_decode_to_their_size() {
    let raw = vec![3_u8; 100];
    let body = encoded_body(&raw);
    let (bytes, offset) = sample(&body);
    let database = database(offset, raw.len() + 1, body.len(), 1);
    let time_lapse = database.time_lapse(Limits::default()).unwrap().unwrap();
    let record = &time_lapse.managers()[0].records()[0];
    assert_eq!(record.decoded_size(), 101);
    let clip = ClipFile::open(bytes).unwrap();
    assert!(matches!(
        clip.read_time_lapse_blob(&database, &record.blobs()[0], Limits::default()),
        Err(Error::InvalidTimeLapse { .. })
    ));
}

#[test]
fn broken_frames_are_described() {
    let scanned = |raw: &[u8]| {
        let mut scanner = TimeLapseFrameScanner::new(Limits::default());
        match scanner.feed(raw) {
            Ok(()) => scanner.finish(2, raw.len() as u64, 1).err().unwrap().message(),
            Err(error) => error.message(),
        }
    };
    let valid = frame(b"GMIK", 1, 0, 0);
    let mut wrong_size = valid.clone();
    wrong_size[4..8].copy_from_slice(&0_u32.to_le_bytes());
    let mut no_webp = valid.clone();
    no_webp[36..40].copy_from_slice(b"WAVE");
    let mut twice = valid.clone();
    twice.extend_from_slice(&frame(b"GMID", 2, 0, 0));
    for (raw, reason) in [
        (
            wrong_size,
            "time-lapse record size does not match its WebP payload",
        ),
        (no_webp, "time-lapse RIFF record does not contain WEBP"),
        (
            frame(b"GMIK", 3, 0, 0),
            "time-lapse frame sequence is 3 instead of 1",
        ),
        (
            valid[1..].to_vec(),
            "time-lapse frame header is 27 bytes instead of 28",
        ),
        (vec![0; 32], "time-lapse frame header has no RIFF marker"),
        (
            valid[..40].to_vec(),
            "record 2 ends inside a time-lapse frame",
        ),
        (
            twice,
            "record 2 contains 2 frames instead of its encoder sequence 1",
        ),
    ] {
        assert_eq!(scanned(&raw), format!("invalid time-lapse data: {reason}"));
    }
}

#[test]
fn broken_chains_of_blobs_are_described() {
    let raw = vec![3_u8; 100];
    let body = encoded_body(&raw);
    let (bytes, offset) = sample(&body);
    let clip = ClipFile::open(bytes).unwrap();
    let longer = database(offset, raw.len() + 1, body.len(), 1);
    let time_lapse = longer.time_lapse(Limits::default()).unwrap().unwrap();
    let blob = &time_lapse.managers()[0].records()[0].blobs()[0];
    let error = clip
        .read_time_lapse_blob(&longer, blob, Limits::default())
        .err()
        .unwrap();
    assert_eq!(
        error.message(),
        format!(
            "invalid time-lapse data: blob {} decoded to 100 bytes instead of 101",
            blob.id()
        )
    );
    longer
        .connection()
        .execute("UPDATE TimeLapseManager SET RecordFirstIndex = 77", [])
        .unwrap();
    assert_eq!(
        longer.time_lapse(Limits::default()).err().unwrap().message(),
        "invalid time-lapse data: record 77 is missing"
    );
}
