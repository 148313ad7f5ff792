use clipfile::reals::Double;
use clipfile::{BlendMode, Database, Document, Error, Limits};
use rusqlite::Connection;

fn number(value: Double) -> f64 {
    f64::from_bits(value.bits())
}

fn database() -> Database {
    let connection = Connection::open_in_memory().unwrap();
    connection
        .execute_batch(
            "CREATE TABLE Project (
                ProjectInternalVersion TEXT, ProjectName TEXT, ProjectCanvas INTEGER
             );
             INSERT INTO Project VALUES ('1.1.0', 'test', 10);
             CREATE TABLE Canvas (
                MainId INTEGER, CanvasUnit INTEGER, CanvasWidth REAL, CanvasHeight REAL,
                CanvasResolution REAL, CanvasRootFolder INTEGER, CanvasCurrentLayer INTEGER
             );
             INSERT INTO Canvas VALUES (10, 0, 640, 480, 72, 1, 4);
             CREATE TABLE Layer (
                MainId INTEGER, CanvasId INTEGER, LayerName TEXT, LayerType INTEGER,
                LayerOpacity INTEGER, LayerComposite INTEGER, LayerLock INTEGER,
                LayerClip INTEGER, LayerMasking INTEGER, LayerFolder INTEGER,
                LayerVisibility INTEGER, LayerNextIndex INTEGER,
                LayerFirstChildIndex INTEGER, LayerRenderMipmap INTEGER,
                LayerLayerMaskMipmap INTEGER
             );
             INSERT INTO Layer VALUES (1,10,'',256,256,0,0,0,0,1,1,0,2,0,0);
             INSERT INTO Layer VALUES (2,10,'paint',1,128,2,0,0,0,0,1,3,0,20,0);
             INSERT INTO Layer VALUES (3,10,'folder',0,256,0,0,0,0,17,1,0,4,0,0);
             INSERT INTO Layer VALUES (4,10,'child',1,256,0,0,0,0,0,0,0,0,21,22);
             INSERT INTO Layer VALUES (5,10,'stale',1,256,0,0,0,0,0,1,0,0,0,0);
             CREATE TABLE CanvasPreview (
                MainId INTEGER, CanvasId INTEGER, ImageType INTEGER,
                ImageWidth INTEGER, ImageHeight INTEGER, ImageData BLOB
             );
             INSERT INTO CanvasPreview VALUES (
                30, 10, 1, 640, 480,
                X'89504E470D0A1A0A0000000D4948445200000280000001E0'
             );",
        )
        .unwrap();
    Database::from_connection(connection).unwrap()
}

#[test]
fn builds_layer_tree_and_preserves_unreachable_rows() {
    let document = Document::load(&database(), Limits::default()).unwrap();
    assert_eq!(document.project().internal_version(), "1.1.0");
    assert_eq!(number(document.canvases()[0].width()), 640.0);
    let tree = document.layer_tree(10).unwrap();
    assert_eq!(tree.root_children(), &[2, 3]);
    assert_eq!(tree.children_of(3), Some(&[4][..]));
    assert_eq!(tree.reachable_layer_count(), 4);
    assert_eq!(tree.unreachable_layer_ids(), &[5]);
    let paint = document.layer(2).unwrap();
    assert_eq!(paint.blend_mode(), BlendMode::multiply());
    assert_eq!(number(paint.opacity_fraction()), 0.5);
}

#[test]
fn detects_sibling_cycles() {
    let database = database();
    database
        .connection()
        .execute("UPDATE Layer SET LayerNextIndex = 4 WHERE MainId = 4", [])
        .unwrap();
    assert!(matches!(
        Document::load(&database, Limits::default()),
        Err(Error::InvalidDocument { .. })
    ));
}

#[test]
fn reads_and_validates_canvas_preview_png() {
    let preview = database()
        .canvas_preview(10, Limits::default())
        .unwrap()
        .unwrap();
    assert_eq!(preview.id(), 30);
    assert_eq!(preview.canvas_id(), 10);
    assert_eq!(preview.image_type(), 1);
    assert_eq!((preview.width(), preview.height()), (640, 480));
    assert!(preview.is_png());
    assert_eq!(preview.data().len(), 24);
    assert!(
        database()
            .canvas_preview(999, Limits::default())
            .unwrap()
            .is_none()
    );
}

#[test]
fn rejects_invalid_or_oversized_canvas_preview() {
    assert!(matches!(
        database().canvas_preview(10, Limits::default().with_max_preview_bytes(8)),
        Err(Error::LimitExceeded {
            resource: "canvas preview bytes",
            ..
        })
    ));
    let database = database();
    database
        .connection()
        .execute(
            "UPDATE CanvasPreview SET ImageWidth = 320 WHERE CanvasId = 10",
            [],
        )
        .unwrap();
    assert!(matches!(
        database.canvas_preview(10, Limits::default()),
        Err(Error::InvalidDocument { .. })
    ));
}

#[test]
fn enforces_layer_limit() {
    assert!(matches!(
        Document::load(&database(), Limits::default().with_max_layers(4)),
        Err(Error::LimitExceeded {
            resource: "layer count",
            ..
        })
    ));
}

#[test]
fn every_layer_is_reached_once_or_left_out() {
    let document = Document::load(&database(), Limits::default()).unwrap();
    let tree = document.layer_tree(10).unwrap();
    assert_eq!(
        tree.reachable_layer_count() + tree.unreachable_layer_ids().len(),
        document.layers().len()
    );
    assert_eq!(tree.children_of(5), None);
    assert_eq!(tree.children_of(2), Some(&[][..]));
}

#[test]
fn opacity_fractions_are_exact() {
    let database = database();
    for (opacity, fraction) in [(0, 0.0), (1, 0.00390625), (256, 1.0), (255, 0.99609375)] {
        database
            .connection()
            .execute("UPDATE Layer SET LayerOpacity = ?1 WHERE MainId = 2", [opacity])
            .unwrap();
        let document = Document::load(&database, Limits::default()).unwrap();
        assert_eq!(number(document.layer(2).unwrap().opacity_fraction()), fraction);
    }
}

#[test]
fn layer_flags_are_read_from_their_bits() {
    let document = Document::load(&database(), Limits::default()).unwrap();
    let folder = document.layer(3).unwrap();
    assert!(folder.is_folder());
    assert!(folder.is_folder_closed());
    assert!(folder.is_visible());
    let child = document.layer(4).unwrap();
    assert!(!child.is_visible());
    assert_eq!(child.mask_mipmap_id(), Some(22));
    assert!(document.layer(1).unwrap().kind().is_root_folder());
    assert!(document.layer(2).unwrap().kind().is_pixel());
    assert!(document.layer(99).is_none());
    assert_eq!(document.canvas(10).unwrap().current_layer_id(), Some(4));
}

#[test]
fn missing_roots_and_deep_trees_are_refused() {
    let database = database();
    assert!(matches!(
        Document::load(&database, Limits::default().with_max_layer_tree_depth(1)),
        Err(Error::LimitExceeded { .. })
    ));
    database
        .connection()
        .execute("UPDATE Canvas SET CanvasRootFolder = 77", [])
        .unwrap();
    assert!(matches!(
        Document::load(&database, Limits::default()),
        Err(Error::InvalidDocument { .. })
    ));
}

#[test]
fn unusable_canvases_and_layers_are_described() {
    for (statement, reason) in [
        (
            "UPDATE Canvas SET CanvasWidth = -2.5",
            "Canvas width -2.5 is outside the supported range 0..=9",
        ),
        (
            "UPDATE Canvas SET CanvasHeight = 480",
            "Canvas width 640 is outside the supported range 0..=9",
        ),
        (
            "UPDATE Canvas SET CanvasWidth = 1, CanvasHeight = 1e300",
            "Canvas height 1",
        ),
        (
            "UPDATE Canvas SET CanvasWidth = 1, CanvasHeight = 1, CanvasResolution = -72",
            "Canvas 10 has invalid resolution -72",
        ),
        (
            "UPDATE Canvas SET CanvasWidth = 1, CanvasHeight = 1;
             UPDATE Layer SET LayerOpacity = 300 WHERE MainId = 4",
            "Layer 4 has opacity 300, expected 0..=256",
        ),
    ] {
        let database = database();
        database.connection().execute_batch(statement).unwrap();
        let error = Document::load(&database, Limits::default().with_max_canvas_dimension(9))
            .err()
            .unwrap();
        let expected = format!("invalid CLIP document model: {reason}");
        assert!(error.message().starts_with(&expected), "{}", error.message());
    }
}
