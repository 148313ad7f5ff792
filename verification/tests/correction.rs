use clipfile::correction::parse_correction;
use clipfile::reals::Double;
use clipfile::{
    Correction, CorrectionCurvePoint, CorrectionGradientStop, CorrectionLevel, Database, Error, Limits,
};
use rusqlite::Connection;

fn number(value: Double) -> f64 {
    f64::from_bits(value.bits())
}

fn wrap(kind: i32, body: &[u8]) -> Vec<u8> {
    let mut bytes = Vec::with_capacity(body.len() + 8);
    bytes.extend_from_slice(&kind.to_be_bytes());
    bytes.extend_from_slice(&(body.len() as i32).to_be_bytes());
    bytes.extend_from_slice(body);
    bytes
}

fn database(payload: &[u8]) -> Database {
    let connection = Connection::open_in_memory().unwrap();
    connection
        .execute_batch(
            "CREATE TABLE Layer (
                MainId INTEGER,
                LayerType INTEGER,
                SpecialRenderType INTEGER,
                FilterLayerV132 INTEGER,
                FilterLayerInfo BLOB
             );",
        )
        .unwrap();
    connection
        .execute(
            "INSERT INTO Layer VALUES (1, 4098, 13, NULL, ?1)",
            (payload,),
        )
        .unwrap();
    Database::from_connection(connection).unwrap()
}

#[test]
fn parses_fixed_and_unknown_corrections() {
    let mut body = Vec::new();
    body.extend_from_slice(&(-12_i32).to_be_bytes());
    body.extend_from_slice(&34_i32.to_be_bytes());
    let parsed = parse_correction(&wrap(1, &body), Limits::default()).unwrap();
    assert_eq!(
        parsed,
        Correction::BrightnessContrast {
            brightness: -12,
            contrast: 34
        }
    );

    let parsed = parse_correction(&wrap(77, &[1, 2, 3]), Limits::default()).unwrap();
    assert!(matches!(
        parsed,
        Correction::Unknown {
            kind: 77,
            payload
        } if payload == [1, 2, 3]
    ));
}

#[test]
fn parses_levels_without_discarding_low_bytes() {
    let mut body = Vec::new();
    for channel in 0..4_u16 {
        for value in 0..5_u16 {
            body.extend_from_slice(&(channel * 0x1000 + value * 0x101).to_be_bytes());
        }
    }
    let parsed = parse_correction(&wrap(2, &body), Limits::default()).unwrap();
    let Correction::Levels { channels } = parsed else {
        panic!("expected levels");
    };
    assert_eq!(channels[2].input_mid_raw(), 0x2101);
    assert_eq!(channels[2].input_mid_8bit(), 0x21);
}

#[test]
fn parses_gradient_map_stops_and_points() {
    let mut body = Vec::new();
    body.extend_from_slice(&60_i32.to_be_bytes());
    body.extend_from_slice(&16_i32.to_be_bytes());
    body.extend_from_slice(&28_i32.to_be_bytes());
    body.extend_from_slice(&1_i32.to_be_bytes());
    body.extend_from_slice(&16_i32.to_be_bytes());
    body.extend_from_slice(&0x1200_0000_u32.to_be_bytes());
    body.extend_from_slice(&0x3400_0000_u32.to_be_bytes());
    body.extend_from_slice(&0x5600_0000_u32.to_be_bytes());
    body.extend_from_slice(&0x7800_0000_u32.to_be_bytes());
    body.extend_from_slice(&1_i32.to_be_bytes());
    body.extend_from_slice(&16_384_i32.to_be_bytes());
    body.extend_from_slice(&1_i32.to_be_bytes());
    body.extend_from_slice(&0.25_f64.to_be_bytes());
    body.extend_from_slice(&0.75_f64.to_be_bytes());

    let parsed = parse_correction(&wrap(9, &body), Limits::default()).unwrap();
    let Correction::GradientMap { stops } = parsed else {
        panic!("expected gradient map");
    };
    assert_eq!(stops[0].rgb_8bit(), [0x12, 0x34, 0x56]);
    assert_eq!(stops[0].opacity_8bit(), 0x78);
    assert_eq!(number(stops[0].position_percent()), 50.0);
    assert_eq!(number(stops[0].curve_points()[0].input()), 0.25);
}

#[test]
fn reads_layer_metadata_and_enforces_limits() {
    let payload = wrap(8, &127_i32.to_be_bytes());
    let database = database(&payload);
    let layer = database
        .correction_layer(1, Limits::default())
        .unwrap()
        .unwrap();
    assert!(layer.has_correction_layer_bit());
    assert_eq!(layer.special_render_type(), Some(13));
    assert!(matches!(
        layer.correction(),
        Correction::Threshold { level: 127 }
    ));
    assert!(matches!(
        database.correction_layer(1, Limits::default().with_max_correction_bytes(4)),
        Err(Error::LimitExceeded {
            resource: "correction-layer bytes",
            ..
        })
    ));
}

#[test]
fn rejects_malformed_sizes_and_nonfinite_gradient_points() {
    let mut malformed = wrap(1, &[0; 8]);
    malformed[7] = 7;
    assert!(matches!(
        parse_correction(&malformed, Limits::default()),
        Err(Error::InvalidCorrection { .. })
    ));

    let mut body = Vec::new();
    body.extend_from_slice(&60_i32.to_be_bytes());
    body.extend_from_slice(&16_i32.to_be_bytes());
    body.extend_from_slice(&28_i32.to_be_bytes());
    body.extend_from_slice(&1_i32.to_be_bytes());
    body.extend_from_slice(&16_i32.to_be_bytes());
    body.extend_from_slice(&[0; 24]);
    body.extend_from_slice(&1_i32.to_be_bytes());
    body.extend_from_slice(&f64::NAN.to_be_bytes());
    body.extend_from_slice(&0_f64.to_be_bytes());
    assert!(matches!(
        parse_correction(&wrap(9, &body), Limits::default()),
        Err(Error::InvalidCorrection { .. })
    ));
}

#[test]
fn corrections_keep_their_stored_kind() {
    for (kind, size) in [(1, 8), (4, 12), (5, 40), (6, 0), (7, 4), (8, 4), (99, 3)] {
        let correction = parse_correction(&wrap(kind, &vec![0; size]), Limits::default()).unwrap();
        assert_eq!(correction.kind(), kind);
    }
}

#[test]
fn truncated_corrections_are_refused() {
    assert!(matches!(
        parse_correction(&[0, 0, 0], Limits::default()),
        Err(Error::InvalidCorrection { .. })
    ));
    assert!(matches!(
        parse_correction(&wrap(2, &[0; 39]), Limits::default()),
        Err(Error::InvalidCorrection { .. })
    ));
}

#[test]
fn high_bytes_and_raw_words_agree() {
    let level = CorrectionLevel {
        input_left: 0x0102,
        input_mid: 0x0304,
        input_right: 0x0506,
        output_left: 0x0708,
        output_right: 0xfffe,
    };
    assert_eq!(level.input_left_raw(), 0x0102);
    assert_eq!(level.input_right_raw(), 0x0506);
    assert_eq!(level.output_left_raw(), 0x0708);
    assert_eq!(level.output_right_raw(), 0xfffe);
    assert_eq!(level.input_left_8bit(), 1);
    assert_eq!(level.input_mid_8bit(), 3);
    assert_eq!(level.input_right_8bit(), 5);
    assert_eq!(level.output_left_8bit(), 7);
    assert_eq!(level.output_right_8bit(), 255);

    let point = CorrectionCurvePoint { input: 0x80ff, output: 0x00ff };
    assert_eq!((point.input_raw(), point.output_raw()), (0x80ff, 0x00ff));
    assert_eq!((point.input_8bit(), point.output_8bit()), (0x80, 0));

    let stop = CorrectionGradientStop {
        red: 1,
        green: 2,
        blue: 3,
        opacity: 4,
        current_color: 0,
        position: -8192,
        curve_points: Vec::new(),
    };
    assert_eq!((stop.red_raw(), stop.green_raw(), stop.blue_raw()), (1, 2, 3));
    assert_eq!(stop.opacity_raw(), 4);
    assert_eq!(stop.position_raw(), -8192);
    assert_eq!(number(stop.position_percent()), -25.0);
}

#[test]
fn broken_corrections_are_described() {
    for (bytes, reason) in [
        (vec![0, 0, 0], "payload is truncated"),
        (
            [1_i32.to_be_bytes(), 9_i32.to_be_bytes(), [0; 4]].concat(),
            "declared section size 9 does not match 4 remaining bytes",
        ),
    ] {
        let error = parse_correction(&bytes, Limits::default()).err().unwrap();
        assert_eq!(
            error.message(),
            format!("invalid correction-layer data: {reason}")
        );
    }
}
