use std::io::Write;

use clipfile::animation::{decompress_mixer, image_cel_keys};
use clipfile::animation_reader::order_cels;
use clipfile::camera::{parse_camera_2d_track_values, parse_track_value_map};
use clipfile::mixer::{parse_animation_curves, parse_secondary_animation_curves};
use clipfile::reals::{Double, Single};
use clipfile::track_rows::{normalize_uuid, validate_track_chain, TrackSource};
use clipfile::{
    AnimationTrackKind, AnimationTrackValue, AnimationTrackValueEntry, Camera2DPoint, CelKeyframe,
    CelTrack, ClipFile, Database, Error, Limits,
};
use flate2::{write::ZlibEncoder, Compression};
use rusqlite::Connection;

fn double(value: f64) -> Double {
    Double::from_bits(value.to_bits())
}

fn single(value: f32) -> Single {
    Single::from_bits(value.to_bits())
}

fn point(x: f64, y: f64) -> Camera2DPoint {
    Camera2DPoint {
        x: double(x),
        y: double(y),
    }
}

fn cel_at_frame(track: &CelTrack, display_frame: f64, frame_rate: f64) -> Option<&str> {
    track.cel_at_moment(double(display_frame * 60.0 / frame_rate + 1e-5))
}

fn parse_image_cel_curve(bytes: &[u8], limits: Limits) -> Result<Option<Vec<CelKeyframe>>, Error> {
    image_cel_keys(&parse_animation_curves(bytes, limits)?, 1)
}

const IDENTIFIER: &[u8] = b"extrnlid0123456789ABCDEF0123456789ABCDEF";
const LAYER_UUID: [u8; 16] = [0x11; 16];

fn push_u32(bytes: &mut Vec<u8>, value: u32) {
    bytes.extend_from_slice(&value.to_le_bytes());
}

fn push_be_u32(bytes: &mut Vec<u8>, value: u32) {
    bytes.extend_from_slice(&value.to_be_bytes());
}

fn push_utf16be(bytes: &mut Vec<u8>, value: &str) {
    let encoded = value.encode_utf16().collect::<Vec<_>>();
    push_be_u32(bytes, encoded.len() as u32);
    for unit in encoded {
        bytes.extend_from_slice(&unit.to_be_bytes());
    }
}

fn push_value_record(bytes: &mut Vec<u8>, name: &str, text: &str, kind: u32, payload: &[u8]) {
    let start = bytes.len();
    push_be_u32(bytes, 0);
    push_utf16be(bytes, name);
    push_utf16be(bytes, text);
    push_be_u32(bytes, kind);
    bytes.extend_from_slice(payload);
    let size = u32::try_from(bytes.len() - start).unwrap();
    bytes[start..start + 4].copy_from_slice(&size.to_be_bytes());
}

fn track_value_map() -> Vec<u8> {
    let mut bytes = Vec::new();
    push_be_u32(&mut bytes, 8);
    push_be_u32(&mut bytes, 1);
    push_value_record(&mut bytes, "ImageCelName", "A", 2, &0_u32.to_be_bytes());
    bytes
}

fn axis_binc() -> Vec<u8> {
    let strings = [
        "FCurve",
        "Type",
        "ImagePosition",
        "Axis",
        "X",
        "Frame",
        "Single[]",
        "Value",
        "ReviseConstant",
        "Byte[]",
    ];
    let mut bytes = Vec::from(b"cmt 0100binc".as_slice());
    bytes.extend_from_slice(&[0; 4]);
    push_u32(&mut bytes, strings.len() as u32);
    for value in strings {
        bytes.push(value.len() as u8);
        bytes.extend_from_slice(value.as_bytes());
    }
    for value in [0, 0, 2, 1, 2, 3, 4, 3] {
        push_u32(&mut bytes, value);
    }
    for (field, value) in [(5, 94.0_f32), (7, 447.0)] {
        push_u32(&mut bytes, field);
        push_u32(&mut bytes, 6);
        push_u32(&mut bytes, 1);
        push_u32(&mut bytes, value.to_bits());
        push_u32(&mut bytes, 0);
        push_u32(&mut bytes, 0);
    }
    push_u32(&mut bytes, 8);
    push_u32(&mut bytes, 9);
    push_u32(&mut bytes, 1);
    bytes.push(1);
    push_u32(&mut bytes, 0);
    push_u32(&mut bytes, 0);
    bytes
}

fn secondary_axis_binc() -> Vec<u8> {
    let strings = [
        "FCurve",
        "Type",
        "ImagePosition",
        "Axis",
        "X",
        "Int32[]",
        "Name",
        "End",
        "Frame",
        "Double[]",
        "Value",
        "ReviseConstant",
        "Byte[]",
    ];
    let mut bytes = Vec::from(b"cmt 0110binc".as_slice());
    bytes.extend_from_slice(&[0; 4]);
    push_u32(&mut bytes, strings.len() as u32);
    for value in strings {
        bytes.push(value.len() as u8);
        bytes.extend_from_slice(value.as_bytes());
    }
    for value in [0, 0, 2, 1, 2, 3, 4, 3] {
        push_u32(&mut bytes, value);
    }
    for (field, value) in [(8, 94.0_f64), (10, 447.0)] {
        for prefix in [5, 1, 2] {
            push_u32(&mut bytes, prefix);
        }
        push_u32(&mut bytes, field);
        push_u32(&mut bytes, 9);
        push_u32(&mut bytes, 1);
        bytes.extend_from_slice(&value.to_le_bytes());
        push_u32(&mut bytes, 0);
        push_u32(&mut bytes, 0);
    }
    for prefix in [5, 1, 2] {
        push_u32(&mut bytes, prefix);
    }
    push_u32(&mut bytes, 11);
    push_u32(&mut bytes, 12);
    push_u32(&mut bytes, 1);
    bytes.push(1);
    push_u32(&mut bytes, 0);
    push_u32(&mut bytes, 0);
    bytes
}

fn camera_transform() -> Vec<u8> {
    let mut bytes = Vec::new();
    for value in [120_u32, 16, 4, 0, 0, 0, 2, 2, 720, 540] {
        push_be_u32(&mut bytes, value);
    }
    for value in [1.0_f64, 1.0, 0.0, 447.0, 327.0, 360.0, 270.0] {
        bytes.extend_from_slice(&value.to_be_bytes());
    }
    for value in [3_u32, 1, 0, 1, 0, 0] {
        push_be_u32(&mut bytes, value);
    }
    for (x, y) in [
        (87.0_f64, 57.0_f64),
        (807.0, 57.0),
        (87.0, 597.0),
        (807.0, 597.0),
    ] {
        bytes.extend_from_slice(&x.to_be_bytes());
        bytes.extend_from_slice(&y.to_be_bytes());
    }
    bytes
}

fn binc() -> Vec<u8> {
    let strings = [
        "FCurve",
        "Type",
        "ImageCelName",
        "Frame",
        "Single[]",
        "Value",
        "Tag",
        "String[]",
        "A",
        "B",
        "Interp",
        "LeftSlope",
        "RightSlope",
        "ReviseConstant",
        "Byte[]",
        "Linear",
    ];
    let mut bytes = Vec::from(b"cmt 0100binc".as_slice());
    bytes.extend_from_slice(&[0; 4]);
    push_u32(&mut bytes, strings.len() as u32);
    for value in strings {
        bytes.push(value.len() as u8);
        bytes.extend_from_slice(value.as_bytes());
    }
    for value in [0, 0, 1, 1, 2] {
        push_u32(&mut bytes, value);
    }
    push_u32(&mut bytes, 7);

    for (field, kind, values) in [(3, 4, [0.0_f32, 60.0]), (5, 4, [0.0_f32, 1.0])] {
        push_u32(&mut bytes, field);
        push_u32(&mut bytes, kind);
        push_u32(&mut bytes, values.len() as u32);
        for value in values {
            push_u32(&mut bytes, value.to_bits());
        }
        push_u32(&mut bytes, 0);
        push_u32(&mut bytes, 0);
    }
    push_u32(&mut bytes, 6);
    push_u32(&mut bytes, 7);
    push_u32(&mut bytes, 2);
    push_u32(&mut bytes, 8);
    push_u32(&mut bytes, 9);
    push_u32(&mut bytes, 0);
    push_u32(&mut bytes, 0);
    push_u32(&mut bytes, 10);
    push_u32(&mut bytes, 7);
    push_u32(&mut bytes, 2);
    push_u32(&mut bytes, 15);
    push_u32(&mut bytes, 15);
    push_u32(&mut bytes, 0);
    push_u32(&mut bytes, 0);
    for field in [11, 12] {
        push_u32(&mut bytes, field);
        push_u32(&mut bytes, 4);
        push_u32(&mut bytes, 2);
        push_u32(&mut bytes, 0.0_f32.to_bits());
        push_u32(&mut bytes, 0.0_f32.to_bits());
        push_u32(&mut bytes, 0);
        push_u32(&mut bytes, 0);
    }
    push_u32(&mut bytes, 13);
    push_u32(&mut bytes, 14);
    push_u32(&mut bytes, 2);
    bytes.extend_from_slice(&[1, 0]);
    push_u32(&mut bytes, 0);
    push_u32(&mut bytes, 0);
    bytes
}

fn secondary_binc() -> Vec<u8> {
    let strings = [
        "FCurve",
        "Type",
        "ImageCelName",
        "Int32[]",
        "Name",
        "End",
        "Frame",
        "Double[]",
        "Value",
        "Tag",
        "String[]",
        "A",
        "B",
        "Interp",
        "Linear",
        "LeftSlope",
        "RightSlope",
        "ReviseConstant",
        "Byte[]",
        "Version",
        "Version-Information",
        "2.1.0",
    ];
    let mut bytes = Vec::from(b"cmt 0110binc".as_slice());
    bytes.extend_from_slice(&[0; 4]);
    push_u32(&mut bytes, strings.len() as u32);
    for value in strings {
        bytes.push(value.len() as u8);
        bytes.extend_from_slice(value.as_bytes());
    }

    for value in [0, 0, 1, 1, 2, 7, 3, 99, 100] {
        push_u32(&mut bytes, value);
    }
    for value in [0, 0, 1, 1, 2] {
        push_u32(&mut bytes, value);
    }
    push_u32(&mut bytes, 7);

    let prefix = [3, 4, 5];
    for (field, values) in [(6, [0.0_f64, 60.0]), (8, [0.0_f64, 1.0])] {
        for value in prefix {
            push_u32(&mut bytes, value);
        }
        push_u32(&mut bytes, field);
        push_u32(&mut bytes, 7);
        push_u32(&mut bytes, values.len() as u32);
        for value in values {
            bytes.extend_from_slice(&value.to_le_bytes());
        }
        push_u32(&mut bytes, 0);
        push_u32(&mut bytes, 0);
    }
    let string_prefix = [3, 19, 4];
    for (field, values) in [(9, [11, 12]), (13, [14, 14])] {
        for value in string_prefix {
            push_u32(&mut bytes, value);
        }
        push_u32(&mut bytes, field);
        push_u32(&mut bytes, 10);
        push_u32(&mut bytes, values.len() as u32);
        for value in values {
            push_u32(&mut bytes, value);
        }
        push_u32(&mut bytes, 0);
        push_u32(&mut bytes, 0);
    }
    for field in [15, 16] {
        for value in prefix {
            push_u32(&mut bytes, value);
        }
        push_u32(&mut bytes, field);
        push_u32(&mut bytes, 7);
        push_u32(&mut bytes, 2);
        bytes.extend_from_slice(&0.0_f64.to_le_bytes());
        bytes.extend_from_slice(&0.0_f64.to_le_bytes());
        push_u32(&mut bytes, 0);
        push_u32(&mut bytes, 0);
    }
    let byte_prefix = [3, 20, 21];
    for value in byte_prefix {
        push_u32(&mut bytes, value);
    }
    push_u32(&mut bytes, 17);
    push_u32(&mut bytes, 18);
    push_u32(&mut bytes, 2);
    bytes.extend_from_slice(&[1, 0]);
    push_u32(&mut bytes, 0);
    push_u32(&mut bytes, 0);
    bytes
}

fn push_u64(bytes: &mut Vec<u8>, value: u64) {
    bytes.extend_from_slice(&value.to_be_bytes());
}

fn push_chunk(bytes: &mut Vec<u8>, tag: &[u8; 8], payload: &[u8]) -> u64 {
    let offset = bytes.len() as u64;
    bytes.extend_from_slice(tag);
    push_u64(bytes, payload.len() as u64);
    bytes.extend_from_slice(payload);
    offset
}

fn sample(body: &[u8]) -> (Vec<u8>, u64) {
    let mut bytes = Vec::from(b"CSFCHUNK".as_slice());
    push_u64(&mut bytes, 0);
    push_u64(&mut bytes, 24);
    let mut header = Vec::new();
    push_u64(&mut header, 256);
    let database_offset_position = header.len();
    push_u64(&mut header, 0);
    push_u64(&mut header, 16);
    header.extend_from_slice(&[0x42; 16]);
    push_chunk(&mut bytes, b"CHNKHead", &header);

    let mut external = Vec::new();
    push_u64(&mut external, IDENTIFIER.len() as u64);
    external.extend_from_slice(IDENTIFIER);
    push_u64(&mut external, body.len() as u64);
    external.extend_from_slice(body);
    let external_offset = push_chunk(&mut bytes, b"CHNKExta", &external);
    let database_offset = push_chunk(&mut bytes, b"CHNKSQLi", b"db!");
    push_chunk(&mut bytes, b"CHNKFoot", b"");
    let file_size = bytes.len() as u64;
    bytes[8..16].copy_from_slice(&file_size.to_be_bytes());
    let database_field = 24 + 16 + database_offset_position;
    bytes[database_field..database_field + 8].copy_from_slice(&database_offset.to_be_bytes());
    (bytes, external_offset)
}

fn animation_database(external_offset: u64) -> Database {
    let connection = Connection::open_in_memory().unwrap();
    connection
        .execute_batch(
            "CREATE TABLE TimeLine (
                MainId INTEGER, BankId INTEGER, NextTimeLine INTEGER,
                FirstTrack INTEGER, TimeLineName TEXT, FrameRate REAL,
                StartFrame REAL, EndFrame REAL, CurrentFrame REAL
             );
             INSERT INTO TimeLine VALUES (1, 2, NULL, 1, NULL, 24, 0, 24, 0);
             CREATE TABLE AnimationCutBank (
                MainId INTEGER, FirstTimeLine INTEGER, Enable INTEGER
             );
             INSERT INTO AnimationCutBank VALUES (1, 1, 1);
             CREATE TABLE Track (
                MainId INTEGER, BankId INTEGER, TrackKind INTEGER,
                TrackActionMixer BLOB, LayerUuidWithTrack BLOB,
                TrackActionMixer2 BLOB, TrackValueMap BLOB,
                TrackNextIndex INTEGER
             );
             CREATE TABLE Layer (MainId INTEGER, LayerUuid TEXT);
             INSERT INTO Layer VALUES (5, '11111111-1111-1111-1111-111111111111');
             CREATE TABLE ExternalChunk (ExternalID BLOB, Offset INTEGER);",
        )
        .unwrap();
    connection
        .execute(
            "INSERT INTO Track VALUES (1, 2, 2000, ?1, ?2, ?1, ?3, 0)",
            (IDENTIFIER, LAYER_UUID, track_value_map(),),
        )
        .unwrap();
    connection
        .execute(
            "INSERT INTO ExternalChunk VALUES (?1, ?2)",
            (IDENTIFIER, external_offset as i64,),
        )
        .unwrap();
    Database::from_connection(connection).unwrap()
}

#[test]
fn loads_timeline_track_and_cel_curve() {
    let mut encoder = ZlibEncoder::new(Vec::new(), Compression::fast());
    encoder.write_all(&binc()).unwrap();
    let compressed = encoder.finish().unwrap();
    let mut body = Vec::new();
    body.extend_from_slice(&(compressed.len() as u32).to_le_bytes());
    body.extend_from_slice(&compressed);
    let (bytes, offset) = sample(&body);
    let database = animation_database(offset);
    let timelines = database.timelines(Limits::default()).unwrap();
    assert_eq!(timelines.len(), 1);
    assert_eq!(timelines[0].frame_rate(), double(24.0));

    let clip = ClipFile::open(bytes).unwrap();
    let animation = clip
        .read_animation(&database, Limits::default())
        .unwrap()
        .unwrap();
    assert_eq!(animation.timeline().id(), 1);
    assert_eq!(animation.tracks().len(), 1);
    assert_eq!(animation.animation_tracks().len(), 1);
    let raw_track = &animation.animation_tracks()[0];
    assert!(raw_track.kind().is_image_cel());
    assert_eq!(raw_track.layer_id(), Some(5));
    assert_eq!(raw_track.next_track_id(), None);
    assert_eq!(raw_track.curves().len(), 1);
    assert_eq!(raw_track.curves()[0].kind(), "ImageCelName");
    assert_eq!(raw_track.curves()[0].keyframes().len(), 2);
    assert!(raw_track.secondary_action_mixer_present());
    assert!(raw_track.value_map_present());
    assert_eq!(raw_track.values().len(), 1);
    assert_eq!(raw_track.values()[0].name(), "ImageCelName");
    assert_eq!(
        raw_track.values()[0].value(),
        &AnimationTrackValue::IndexedText {
            text: "A".to_owned(),
            numeric_value: 0,
        }
    );
    assert_eq!(raw_track.curves()[0].keyframes()[0].tag(), Some("A"));
    assert_eq!(
        raw_track.curves()[0].keyframes()[0].interpolation(),
        Some("Linear")
    );
    assert_eq!(raw_track.curves()[0].keyframes()[0].left_slope(), Some(single(0.0)));
    assert_eq!(
        raw_track.curves()[0].keyframes()[0].revise_constant(),
        Some(1)
    );
    let track = animation.track_for_layer(5).unwrap();
    assert_eq!(track.keyframes().len(), 2);
    assert_eq!(cel_at_frame(track, 0.0, 24.0), Some("A"));
    assert_eq!(cel_at_frame(track, 23.0, 24.0), Some("A"));
    assert_eq!(cel_at_frame(track, 24.0, 24.0), Some("B"));
}

#[test]
fn rejects_invalid_mixers_and_enforces_limits() {
    assert!(matches!(
        parse_image_cel_curve(b"not binc", Limits::default()),
        Err(Error::InvalidAnimation { .. })
    ));

    let connection = Connection::open_in_memory().unwrap();
    connection
        .execute_batch(
            "CREATE TABLE TimeLine (
                MainId INTEGER, BankId INTEGER, FrameRate REAL,
                StartFrame REAL, EndFrame REAL
             );
             INSERT INTO TimeLine VALUES (1, 2, 24, 0, 10);",
        )
        .unwrap();
    let database = Database::from_connection(connection).unwrap();
    assert!(matches!(
        database.timelines(Limits::default().with_max_animation_items(0)),
        Err(Error::LimitExceeded { .. })
    ));
}

#[test]
fn parses_secondary_double_precision_curves() {
    let curves =
        parse_secondary_animation_curves(&secondary_binc(), Limits::default()).unwrap();
    assert_eq!(curves.len(), 1);
    assert_eq!(curves[0].kind(), "ImageCelName");
    assert_eq!(curves[0].keyframes().len(), 2);
    assert_eq!(curves[0].keyframes()[1].time_60hz(), double(60.0));
    assert_eq!(curves[0].keyframes()[1].value(), double(1.0));
    assert_eq!(curves[0].keyframes()[0].tag(), Some("A"));
    assert_eq!(curves[0].keyframes()[0].interpolation(), Some("Linear"));
    assert_eq!(curves[0].keyframes()[0].left_slope(), Some(double(0.0)));
    assert_eq!(curves[0].keyframes()[0].revise_constant(), Some(1));
}

#[test]
fn parses_axis_qualified_camera_curves() {
    let primary = parse_animation_curves(&axis_binc(), Limits::default()).unwrap();
    assert_eq!(primary.len(), 1);
    assert_eq!(primary[0].kind(), "ImagePosition");
    assert_eq!(primary[0].axis(), Some("X"));
    assert_eq!(primary[0].keyframes()[0].time_60hz(), single(94.0));
    assert_eq!(primary[0].keyframes()[0].value(), single(447.0));

    let secondary =
        parse_secondary_animation_curves(&secondary_axis_binc(), Limits::default()).unwrap();
    assert_eq!(secondary.len(), 1);
    assert_eq!(secondary[0].kind(), "ImagePosition");
    assert_eq!(secondary[0].axis(), Some("X"));
    assert_eq!(secondary[0].keyframes()[0].time_60hz(), double(94.0));
    assert_eq!(secondary[0].keyframes()[0].value(), double(447.0));
}

#[test]
fn reads_and_validates_camera_layer_snapshot() {
    let connection = Connection::open_in_memory().unwrap();
    connection
        .execute_batch(
            "CREATE TABLE Layer (
                MainId INTEGER, CanvasId INTEGER, LayerType INTEGER,
                LayerFolder INTEGER, TimeLineLayerKeyFrameEnabled INTEGER,
                Camera2DResizableImageInfo BLOB,
                Camera2DOriginalFrameCenterX REAL,
                Camera2DOriginalFrameCenterY REAL
             );",
        )
        .unwrap();
    connection
        .execute(
            "INSERT INTO Layer VALUES (7, 1, 512, 1, 1, ?1, 432, 324)",
            (camera_transform(),),
        )
        .unwrap();
    let database = Database::from_connection(connection).unwrap();
    let camera = database
        .camera_2d_layer(7, Limits::default())
        .unwrap()
        .unwrap();
    assert_eq!(camera.layer_id(), 7);
    assert_eq!(camera.canvas_id(), 1);
    assert!(camera.keyframes_enabled());
    assert_eq!(
        camera.original_frame_center(),
        point(432.0, 324.0)
    );
    assert_eq!(camera.transform().width(), 720);
    assert_eq!(camera.transform().height(), 540);
    assert_eq!(camera.transform().header_size(), 120);
    assert_eq!(camera.transform().point_record_size(), 16);
    assert_eq!(
        camera.transform().position(),
        point(447.0, 327.0)
    );
    assert_eq!(camera.transform().corners().len(), 4);
    assert_eq!(camera.transform().raw(), camera_transform());
    assert!(matches!(
        database.camera_2d_layer(7, Limits::default().with_max_animation_items(3)),
        Err(Error::LimitExceeded { .. })
    ));
}

#[test]
fn parses_typed_and_unknown_track_values() {
    let mut bytes = Vec::new();
    push_be_u32(&mut bytes, 8);
    push_be_u32(&mut bytes, 4);
    push_value_record(
        &mut bytes,
        "PlayTime",
        "",
        0,
        &2.5_f64.to_bits().to_be_bytes(),
    );
    push_value_record(&mut bytes, "ImageCelName", "A", 2, &7_u32.to_be_bytes());
    let mut vector = Vec::new();
    vector.extend_from_slice(&447.0_f64.to_be_bytes());
    vector.extend_from_slice(&327.0_f64.to_be_bytes());
    push_value_record(&mut bytes, "ImagePosition", "", 3, &vector);
    push_value_record(&mut bytes, "FutureValue", "opaque", 99, &[1, 2, 3]);

    let entries = parse_track_value_map(&bytes, Limits::default()).unwrap();
    assert_eq!(entries.len(), 4);
    assert_eq!(entries[0].value(), &AnimationTrackValue::Float(double(2.5)));
    assert_eq!(
        entries[1].value(),
        &AnimationTrackValue::IndexedText {
            text: "A".to_owned(),
            numeric_value: 7,
        }
    );
    assert_eq!(
        entries[2].value(),
        &AnimationTrackValue::Vector2 { x: double(447.0), y: double(327.0) }
    );
    assert_eq!(
        entries[3].value(),
        &AnimationTrackValue::Unknown {
            kind: 99,
            text: "opaque".to_owned(),
            payload: vec![1, 2, 3],
        }
    );
}

#[test]
fn validates_typed_camera_track_values() {
    let entry = |name: &str, value: AnimationTrackValue| AnimationTrackValueEntry {
        name: name.to_owned(),
        value,
    };
    let values = [
        entry(
            "ImageCenter",
            AnimationTrackValue::Vector2 { x: double(360.0), y: double(270.0) },
        ),
        entry(
            "ImagePosition",
            AnimationTrackValue::Vector2 { x: double(447.0), y: double(327.0) },
        ),
        entry("ImageRotation", AnimationTrackValue::Float(double(0.0))),
        entry("ImageScale", AnimationTrackValue::Float(double(100.0))),
        entry("Opacity", AnimationTrackValue::Float(double(100.0))),
    ];
    let camera = parse_camera_2d_track_values(&values).unwrap();
    assert_eq!(
        camera.image_position(),
        point(447.0, 327.0)
    );
    assert_eq!(camera.rotation(), double(0.0));
    assert_eq!(camera.scale(), double(100.0));
    assert_eq!(camera.opacity(), double(100.0));
}

#[test]
fn rejects_malformed_track_value_maps() {
    assert!(matches!(
        parse_track_value_map(&[0; 8], Limits::default()),
        Err(Error::InvalidAnimation { .. })
    ));

    let mut truncated = track_value_map();
    truncated.pop();
    assert!(matches!(
        parse_track_value_map(&truncated, Limits::default()),
        Err(Error::InvalidAnimation { .. })
    ));

    assert!(matches!(
        parse_track_value_map(
            &track_value_map(),
            Limits::default().with_max_animation_items(0)
        ),
        Err(Error::LimitExceeded { .. })
    ));
}

#[test]
fn validates_the_timeline_track_chain() {
    let source = |id, next_track_id| TrackSource {
        id,
        kind: 1000,
        next_track_id,
        external_identifier: None,
        secondary_external_identifier: None,
        value_map: None,
        layer_uuid: None,
    };
    let valid = [source(1, Some(2)), source(2, None)];
    validate_track_chain(&valid, 1).unwrap();

    let cycle = [source(1, Some(2)), source(2, Some(1))];
    assert!(matches!(
        validate_track_chain(&cycle, 1),
        Err(Error::InvalidAnimation { .. })
    ));
    assert!(matches!(
        validate_track_chain(&valid, 2),
        Err(Error::InvalidAnimation { .. })
    ));
}

#[test]
fn classifies_verified_track_kinds() {
    assert!(AnimationTrackKind::new(1000).is_folder());
    assert!(AnimationTrackKind::new(2000).is_image_cel());
    assert!(AnimationTrackKind::new(2001).is_static_image());
    assert!(AnimationTrackKind::new(2003).is_paper());
    assert!(AnimationTrackKind::new(2005).is_camera_2d());
    assert!(AnimationTrackKind::new(4000).is_play_time());
    assert!(AnimationTrackKind::new(4001).is_audio());
    assert!(!AnimationTrackKind::new(9999).is_static_image());
}

#[test]
fn cel_keys_are_those_of_the_first_cel_curve() {
    let keys = parse_image_cel_curve(&binc(), Limits::default()).unwrap().unwrap();
    assert_eq!(keys.len(), 2);
    assert_eq!(keys[1].tag(), "B");
    assert_eq!(keys[1].time_60hz(), single(60.0));
    assert_eq!(keys[1].value(), single(1.0));
    assert!(parse_image_cel_curve(&axis_binc(), Limits::default()).unwrap().is_none());
}

#[test]
fn no_cel_is_active_before_the_first_key() {
    let track = CelTrack {
        id: 1,
        layer_id: 5,
        keyframes: parse_image_cel_curve(&binc(), Limits::default()).unwrap().unwrap(),
    };
    assert_eq!(cel_at_frame(&track, -1.0, 24.0), None);
    assert_eq!(cel_at_frame(&track, 1000.0, 24.0), Some("B"));
}

#[test]
fn uuids_are_the_same_as_bytes_and_as_text() {
    let bytes = [
        0x01, 0x23, 0x45, 0x67, 0x89, 0xab, 0xcd, 0xef, 0xfe, 0xdc, 0xba, 0x98, 0x76, 0x54, 0x32,
        0x10,
    ];
    let expected = 0x0123_4567_89ab_cdef_fedc_ba98_7654_3210;
    assert_eq!(normalize_uuid(&bytes).unwrap(), expected);
    assert_eq!(normalize_uuid(b"01234567-89ab-cdef-fedc-ba9876543210").unwrap(), expected);
    assert_eq!(normalize_uuid(b"{0123456789ABCDEFFEDCBA9876543210}").unwrap(), expected);
    assert!(normalize_uuid(b"0123").is_err());
    assert!(normalize_uuid(&[0xff; 40]).is_err());
}

#[test]
fn cel_tracks_are_ordered_by_layer_once_each() {
    let track = |id, layer_id| CelTrack { id, layer_id, keyframes: Vec::new() };
    let ordered = order_cels(vec![track(1, 9), track(2, 3), track(3, 7)]).unwrap();
    assert_eq!(
        ordered.iter().map(|track| (track.id(), track.layer_id())).collect::<Vec<_>>(),
        [(2, 3), (3, 7), (1, 9)]
    );
    assert!(matches!(
        order_cels(vec![track(1, 9), track(2, 3), track(3, 9)]),
        Err(Error::InvalidAnimation { .. })
    ));
}

#[test]
fn mixers_have_to_fit_the_limit() {
    let stream = clipfile::zlib::compress(&[7; 100]).unwrap();
    assert_eq!(decompress_mixer(&stream, 100).unwrap(), [7; 100]);
    assert!(matches!(
        decompress_mixer(&stream, 99),
        Err(Error::LimitExceeded {
            resource: "decompressed animation mixer bytes",
            value: 100,
            limit: 99,
        })
    ));
}

#[test]
fn track_chains_leave_no_track_out() {
    let source = |id, next_track_id| TrackSource {
        id,
        kind: 1000,
        next_track_id,
        external_identifier: None,
        secondary_external_identifier: None,
        value_map: None,
        layer_uuid: None,
    };
    assert!(validate_track_chain(&[source(1, None), source(2, None)], 1).is_err());
    assert!(validate_track_chain(&[source(1, Some(3)), source(2, None)], 1).is_err());
    assert!(validate_track_chain(&[source(1, None), source(1, None)], 1).is_err());
}

#[test]
fn camera_values_have_to_be_there_once() {
    let entry = |name: &str| AnimationTrackValueEntry {
        name: name.to_owned(),
        value: AnimationTrackValue::Float(double(1.0)),
    };
    assert!(matches!(
        parse_camera_2d_track_values(&[entry("Opacity"), entry("Opacity")]),
        Err(Error::InvalidAnimation { .. })
    ));
}

#[test]
fn numbers_keep_their_order_and_value() {
    for value in [0.0_f32, -0.0, 1.5, -2.25, f32::MIN_POSITIVE, 1e-45, f32::MAX] {
        assert_eq!(f64::from_bits(single(value).widen().bits()), f64::from(value));
    }
    for (left, right) in [(-1.0, 1.0), (0.0, -0.0), (1.0, 2.0), (-3.0, -2.0)] {
        assert!(double(left).at_most(double(right)));
    }
    assert!(!double(2.0).at_most(double(1.0)));
    assert!(!double(f64::NAN).is_finite());
    assert!(!double(f64::INFINITY).is_finite());
    for number in [0, 1, -1, i64::MAX, i64::MIN, 9_007_199_254_740_993] {
        assert_eq!(f64::from_bits(Double::from_i64(number).bits()), number as f64);
    }
}

#[test]
fn timelines_above_the_limit_are_refused() {
    let database = animation_database(0);
    database
        .connection()
        .execute_batch("INSERT INTO TimeLine VALUES (2, 2, NULL, 1, NULL, 24, 0, 24, 0)")
        .unwrap();
    assert_eq!(database.timelines(Limits::default()).unwrap().len(), 2);
    assert_eq!(
        database.timelines(Limits::default().with_max_animation_items(2)).unwrap().len(),
        2
    );
    assert!(matches!(
        database.timelines(Limits::default().with_max_animation_items(1)),
        Err(Error::LimitExceeded { value: 2, limit: 1, .. })
    ));
}

#[test]
fn broken_timelines_are_described() {
    for (rate, text) in [("-24", "-24"), ("0.0", "0"), ("-0.5", "-0.5")] {
        let database = animation_database(0);
        database
            .connection()
            .execute_batch(&format!("UPDATE TimeLine SET FrameRate = {rate}"))
            .unwrap();
        assert_eq!(
            database.timelines(Limits::default()).err().unwrap().message(),
            format!("invalid animation data: timeline 1 has invalid frame rate {text}")
        );
    }
    let source = |id, next_track_id| TrackSource {
        id,
        kind: 1000,
        next_track_id,
        external_identifier: None,
        secondary_external_identifier: None,
        value_map: None,
        layer_uuid: None,
    };
    for (sources, reason) in [
        (
            vec![source(1, Some(2)), source(2, Some(1))],
            "timeline track chain is cyclic at track 1",
        ),
        (vec![source(1, Some(7))], "timeline track 7 is missing"),
        (
            vec![source(1, None), source(2, None)],
            "timeline track chain contains unreachable tracks",
        ),
        (
            vec![source(1, None), source(1, None)],
            "timeline contains duplicate track IDs",
        ),
    ] {
        assert_eq!(
            validate_track_chain(&sources, 1).err().unwrap().message(),
            format!("invalid animation data: {reason}")
        );
    }
}
