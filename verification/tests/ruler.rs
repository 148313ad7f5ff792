use clipfile::reals::Double;
use clipfile::ruler::parse_curve_data;
use clipfile::{Database, Error, Limits, Ruler, RulerKind, RulerLayerData, RulerPoint};
use rusqlite::Connection;

fn point(x: f64, y: f64) -> RulerPoint {
    RulerPoint {
        x: Double::from_bits(x.to_bits()),
        y: Double::from_bits(y.to_bits()),
    }
}

fn base_database() -> Connection {
    let connection = Connection::open_in_memory().unwrap();
    connection
        .execute_batch(
            "CREATE TABLE Layer (
                MainId INTEGER, CanvasId INTEGER, RulerVectorIndex INTEGER,
                SpecialRulerManager INTEGER, RulerRange INTEGER
             );
             CREATE TABLE VectorObjectList (
                MainId INTEGER, CanvasId INTEGER, LayerId INTEGER, VectorData BLOB
             );
             CREATE TABLE SpecialRulerManager (
                MainId INTEGER, CanvasId INTEGER, LayerId INTEGER,
                FirstParallel INTEGER, FirstCurveParallel INTEGER,
                FirstMultiCurve INTEGER, FirstEmit INTEGER,
                FirstCurveEmit INTEGER, FirstConcentricCircle INTEGER,
                FirstGuide INTEGER, FirstPerspective INTEGER,
                FirstSymmetry INTEGER
             );
             CREATE TABLE RulerGuide (
                MainId INTEGER, CanvasId INTEGER, LayerId INTEGER,
                NextIndex INTEGER, Snap INTEGER, IsHorz INTEGER,
                CenterX REAL, CenterY REAL
             );",
        )
        .unwrap();
    connection
}

#[test]
fn validates_a_vector_ruler_reference() {
    let connection = base_database();
    connection
        .execute("INSERT INTO Layer VALUES (1, 2, 3, NULL, 1)", [])
        .unwrap();
    connection
        .execute("INSERT INTO VectorObjectList VALUES (3, 2, 1, X'00')", [])
        .unwrap();
    let database = Database::from_connection(connection).unwrap();
    let ruler = database.ruler_layer(1, Limits::default()).unwrap().unwrap();
    assert_eq!(ruler.vector_object_id(), Some(3));
    assert_eq!(ruler.scope(), Some(1));
    assert!(ruler.rulers().is_empty());
}

#[test]
fn reads_and_orders_a_guide_chain() {
    let connection = base_database();
    connection
        .execute("INSERT INTO Layer VALUES (1, 2, NULL, 7, 0)", [])
        .unwrap();
    connection
        .execute(
            "INSERT INTO SpecialRulerManager VALUES (
                7, 2, 1, 0, 0, 0, 0, 0, 0, 10, 0, 0
             )",
            [],
        )
        .unwrap();
    connection
        .execute(
            "INSERT INTO RulerGuide VALUES (10, 2, 1, 11, 1, 1, 2.0, 3.0)",
            [],
        )
        .unwrap();
    connection
        .execute(
            "INSERT INTO RulerGuide VALUES (11, 2, 1, 0, 0, 0, 4.0, 5.0)",
            [],
        )
        .unwrap();
    let database = Database::from_connection(connection).unwrap();
    let ruler = database.ruler_layer(1, Limits::default()).unwrap().unwrap();
    assert_eq!(
        ruler.rulers().iter().map(Ruler::id).collect::<Vec<_>>(),
        [10, 11]
    );
    assert!(matches!(
        ruler.rulers()[0],
        Ruler::Guide {
            horizontal: 1,
            center,
            ..
        } if center == point(2.0, 3.0)
    ));
}

#[test]
fn discovers_ruler_layers_without_exposing_sql() {
    let connection = base_database();
    connection
        .execute("INSERT INTO Layer VALUES (3, 2, NULL, NULL, NULL)", [])
        .unwrap();
    connection
        .execute("INSERT INTO Layer VALUES (1, 2, 4, NULL, 1)", [])
        .unwrap();
    connection
        .execute("INSERT INTO VectorObjectList VALUES (4, 2, 1, X'00')", [])
        .unwrap();
    connection
        .execute("INSERT INTO Layer VALUES (2, 2, NULL, 7, NULL)", [])
        .unwrap();
    connection
        .execute(
            "INSERT INTO SpecialRulerManager VALUES (
                7, 2, 2, 0, 0, 0, 0, 0, 0, 0, 0, 0
             )",
            [],
        )
        .unwrap();
    let database = Database::from_connection(connection).unwrap();

    let layers = database.ruler_layers(Limits::default()).unwrap();
    assert_eq!(
        layers
            .iter()
            .map(RulerLayerData::layer_id)
            .collect::<Vec<_>>(),
        [1, 2]
    );
    assert_eq!(layers[0].vector_object_id(), Some(4));
    assert_eq!(layers[1].manager_id(), Some(7));
    assert!(matches!(
        database.ruler_layers(Limits::default().with_max_layers(1)),
        Err(Error::LimitExceeded {
            resource: "ruler layers",
            value: 2,
            limit: 1,
        })
    ));
}

#[test]
fn ruler_layer_discovery_tolerates_absent_optional_schema() {
    let connection = Connection::open_in_memory().unwrap();
    connection
        .execute_batch("CREATE TABLE Layer (MainId INTEGER, CanvasId INTEGER)")
        .unwrap();
    let database = Database::from_connection(connection).unwrap();
    assert!(database.ruler_layers(Limits::default()).unwrap().is_empty());
}

#[test]
fn parses_curve_points_and_preserves_header_words() {
    let mut bytes = Vec::new();
    bytes.extend_from_slice(&24_i32.to_be_bytes());
    bytes.extend_from_slice(&1_i32.to_be_bytes());
    for value in [20_i32, 1, 0, 1] {
        bytes.extend_from_slice(&value.to_be_bytes());
    }
    bytes.extend_from_slice(&2.5_f64.to_be_bytes());
    bytes.extend_from_slice(&3.5_f64.to_be_bytes());
    bytes.extend_from_slice(&7_i32.to_be_bytes());
    let curve = parse_curve_data(&bytes, Limits::default()).unwrap();
    assert_eq!(curve.metadata(), [20, 1, 0, 1]);
    assert_eq!(curve.points()[0].position(), point(2.5, 3.5));
    assert_eq!(curve.points()[0].thickness(), 7);
    assert_eq!(curve.raw(), bytes);
}

#[test]
fn rejects_cycles_unreachable_rows_and_limits() {
    let connection = base_database();
    connection
        .execute("INSERT INTO Layer VALUES (1, 2, NULL, 7, 0)", [])
        .unwrap();
    connection
        .execute(
            "INSERT INTO SpecialRulerManager VALUES (
                7, 2, 1, 0, 0, 0, 0, 0, 0, 10, 0, 0
             )",
            [],
        )
        .unwrap();
    connection
        .execute(
            "INSERT INTO RulerGuide VALUES (10, 2, 1, 10, 1, 1, 2.0, 3.0)",
            [],
        )
        .unwrap();
    let database = Database::from_connection(connection).unwrap();
    assert!(matches!(
        database.ruler_layer(1, Limits::default()),
        Err(Error::InvalidRuler { .. })
    ));
    assert!(matches!(
        database.ruler_layer(1, Limits::default().with_max_ruler_items(0)),
        Err(Error::LimitExceeded {
            resource: "rulers",
            ..
        })
    ));
}

#[test]
fn chains_have_to_hold_every_row() {
    let connection = base_database();
    connection
        .execute_batch(
            "INSERT INTO Layer VALUES (1, 2, NULL, 7, 0);
             INSERT INTO SpecialRulerManager VALUES (7, 2, 1, 0, 0, 0, 0, 0, 0, 10, 0, 0);
             INSERT INTO RulerGuide VALUES (10, 2, 1, 0, 1, 1, 2.0, 3.0);",
        )
        .unwrap();
    let database = Database::from_connection(connection).unwrap();
    let layer = database.ruler_layer(1, Limits::default()).unwrap().unwrap();
    assert_eq!(layer.rulers().len(), 1);
    assert_eq!(layer.rulers()[0].kind(), RulerKind::Guide);
    database
        .connection()
        .execute("INSERT INTO RulerGuide VALUES (11, 2, 1, 0, 0, 0, 4.0, 5.0)", [])
        .unwrap();
    assert!(matches!(
        database.ruler_layer(1, Limits::default()),
        Err(Error::InvalidRuler { .. })
    ));
}

#[test]
fn broken_curves_are_refused() {
    assert!(matches!(
        parse_curve_data(&[0; 10], Limits::default()),
        Err(Error::InvalidRuler { .. })
    ));
    let mut bytes = Vec::new();
    for value in [24_i32, 1, 20, 1, 0, 1] {
        bytes.extend_from_slice(&value.to_be_bytes());
    }
    bytes.extend_from_slice(&f64::INFINITY.to_be_bytes());
    bytes.extend_from_slice(&0_f64.to_be_bytes());
    bytes.extend_from_slice(&7_i32.to_be_bytes());
    assert!(matches!(
        parse_curve_data(&bytes, Limits::default()),
        Err(Error::Sqlite { .. })
    ));
}

#[test]
fn broken_rulers_are_described() {
    for (statement, reason) in [
        (
            "UPDATE RulerGuide SET NextIndex = 10",
            "RulerGuide linked list contains a cycle at 10",
        ),
        (
            "INSERT INTO RulerGuide VALUES (11, 2, 1, 0, 0, 0, 4.0, 5.0)",
            "RulerGuide has 1 rows unreachable from 10 for layer 1",
        ),
        (
            "UPDATE RulerGuide SET LayerId = 6",
            "RulerGuide row 10 belongs to layer 6, canvas 2",
        ),
        (
            "UPDATE RulerGuide SET NextIndex = 12",
            "RulerGuide row 12 does not exist",
        ),
        (
            "UPDATE SpecialRulerManager SET FirstSymmetry = -3",
            "FirstSymmetry value -3 is negative",
        ),
        (
            "UPDATE SpecialRulerManager SET CanvasId = 5",
            "ruler manager 7 belongs to layer 1, canvas 5",
        ),
        (
            "UPDATE Layer SET CanvasId = 0",
            "ruler layer has a non-positive CanvasId",
        ),
    ] {
        let connection = base_database();
        connection
            .execute_batch(
                "INSERT INTO Layer VALUES (1, 2, NULL, 7, 0);
                 INSERT INTO SpecialRulerManager VALUES (7, 2, 1, 0, 0, 0, 0, 0, 0, 10, 0, 0);
                 INSERT INTO RulerGuide VALUES (10, 2, 1, 0, 1, 1, 2.0, 3.0);",
            )
            .unwrap();
        connection.execute_batch(statement).unwrap();
        let database = Database::from_connection(connection).unwrap();
        let error = database.ruler_layer(1, Limits::default()).err().unwrap();
        assert_eq!(error.message(), format!("invalid ruler data: {reason}"));
    }
}

#[test]
fn broken_curves_are_described() {
    let curve = |words: &[i32]| {
        let mut bytes = Vec::new();
        for word in words {
            bytes.extend_from_slice(&word.to_be_bytes());
        }
        parse_curve_data(&bytes, Limits::default()).err().unwrap().message()
    };
    for (words, reason) in [
        (&[][..], "ruler payload is truncated"),
        (&[-1, 0][..], "curve header size is negative"),
        (&[20, 0][..], "curve header size 20 is below 24"),
        (&[24][..], "ruler payload is truncated"),
        (&[24, -1][..], "curve point count is negative"),
        (&[24, 1, 20][..], "ruler payload is truncated"),
        (&[24, 1, 20, 1, 0, 1, 5][..], "curve point data has 4 bytes instead of 20"),
    ] {
        assert_eq!(curve(words), format!("invalid ruler data: {reason}"));
    }
}
