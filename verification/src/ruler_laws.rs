//! What is read of rulers, told by the names of their columns and by the bytes of their curves.

use vstd::prelude::*;

use crate::bytes;
use crate::columns::{
    answer, asked, gives_bytes, gives_integer, gives_number, gives_optional_integer,
    optional_cell,
};
use crate::database;
use crate::error::Failure;
use crate::layout;
use crate::layout::{holds, laid_out, signed32, word64};
use crate::limits::Limits;
use crate::reals::Double;
use crate::ruler;
use crate::ruler::{CurveModel, RulerCurvePoint, RulerKind, RulerModel, RulerPoint};
use crate::sql;
use crate::sql::{ReplyModel, SqlModel};

verus! {

/// Whether two cells hold the coordinates of a finite point.
pub open spec fn gives_point(x: SqlModel, y: SqlModel, point: RulerPoint) -> bool {
    &&& gives_number(x, point.x)
    &&& gives_number(y, point.y)
    &&& point.x.finite()
    &&& point.y.finite()
}

/// Whether a cell holds a finite number.
pub open spec fn gives_finite(cell: SqlModel, value: Double) -> bool {
    gives_number(cell, value) && value.finite()
}

/// Whether a cell holds the data of a curve.
pub open spec fn gives_curve(cell: SqlModel, curve: CurveModel, limits: Limits) -> bool {
    exists|data: Seq<u8>| #[trigger]
        gives_bytes(cell, data) && ruler::curve_data_of(data, limits) == Ok::<CurveModel, Failure>(
            curve,
        )
}

/// Whether the columns of a ruler row hold a ruler.
pub open spec fn ruler_stored(
    stored: Map<Seq<char>, SqlModel>,
    id: i64,
    ruler: RulerModel,
    limits: Limits,
) -> bool {
    match ruler {
        RulerModel::Parallel { id: own, snap, rotation, center } => {
            &&& own == id
            &&& gives_integer(stored["Snap"@], snap)
            &&& gives_finite(stored["Rotate"@], rotation)
            &&& gives_point(stored["CenterX"@], stored["CenterY"@], center)
        },
        RulerModel::CurveParallel { id: own, snap, curve_kind, curve } => {
            &&& own == id
            &&& gives_integer(stored["Snap"@], snap)
            &&& gives_optional_integer(stored["CurveKind"@], curve_kind)
            &&& gives_curve(stored["PointData"@], curve, limits)
        },
        RulerModel::MultiCurve { id: own, snap, curve_kind, offset_angle, center, curve } => {
            &&& own == id
            &&& gives_integer(stored["Snap"@], snap)
            &&& gives_optional_integer(stored["CurveKind"@], curve_kind)
            &&& gives_finite(stored["OffsetAngle"@], offset_angle)
            &&& gives_point(stored["CenterX"@], stored["CenterY"@], center)
            &&& gives_curve(stored["PointData"@], curve, limits)
        },
        RulerModel::Emit { id: own, snap, center } => {
            &&& own == id
            &&& gives_integer(stored["Snap"@], snap)
            &&& gives_point(stored["CenterX"@], stored["CenterY"@], center)
        },
        RulerModel::CurveEmit { id: own, snap, curve_kind, curve } => {
            &&& own == id
            &&& gives_integer(stored["Snap"@], snap)
            &&& gives_optional_integer(stored["CurveKind"@], curve_kind)
            &&& gives_curve(stored["PointData"@], curve, limits)
        },
        RulerModel::ConcentricCircle { id: own, snap, radius, rotation, center } => {
            &&& own == id
            &&& gives_integer(stored["Snap"@], snap)
            &&& gives_point(stored["RadiusX"@], stored["RadiusY"@], radius)
            &&& gives_finite(stored["Rotate"@], rotation)
            &&& gives_point(stored["CenterX"@], stored["CenterY"@], center)
        },
        RulerModel::Guide { id: own, snap, horizontal, center } => {
            &&& own == id
            &&& gives_integer(stored["Snap"@], snap)
            &&& gives_integer(stored["IsHorz"@], horizontal)
            &&& gives_point(stored["CenterX"@], stored["CenterY"@], center)
        },
        RulerModel::Perspective {
            id: own,
            flags,
            perspective_type,
            eye_level_handle,
            move_handle,
            grid_origin,
            grid_flags,
            grid_size,
            camera_near,
            vanish_points,
        } => {
            &&& own == id
            &&& gives_integer(stored["Flag"@], flags)
            &&& gives_integer(stored["PerspectiveType"@], perspective_type)
            &&& gives_point(
                stored["EyeLevelHandleX"@],
                stored["EyeLevelHandleY"@],
                eye_level_handle,
            )
            &&& gives_point(stored["MoveHandleX"@], stored["MoveHandleY"@], move_handle)
            &&& gives_point(stored["GridOriginX"@], stored["GridOriginY"@], grid_origin)
            &&& gives_integer(stored["GridFlag"@], grid_flags)
            &&& gives_finite(stored["GridSize"@], grid_size)
            &&& gives_finite(stored["CameraNear"@], camera_near)
            &&& stored["FirstVanishIndex"@] matches SqlModel::Integer(first) && first > 0
            &&& vanish_points.len() == 0
        },
        RulerModel::Symmetry { id: own, snap, line_count, line_symmetry, rotation, center } => {
            &&& own == id
            &&& gives_integer(stored["Snap"@], snap)
            &&& gives_integer(stored["LineNumber"@], line_count)
            &&& gives_integer(stored["LineSymmetry"@], line_symmetry)
            &&& gives_finite(stored["Rotate"@], rotation)
            &&& gives_point(stored["CenterX"@], stored["CenterY"@], center)
        },
    }
}

/// The kind of a ruler.
pub open spec fn of_kind(ruler: RulerModel, kind: RulerKind) -> bool {
    match kind {
        RulerKind::Parallel => ruler is Parallel,
        RulerKind::CurveParallel => ruler is CurveParallel,
        RulerKind::MultiCurve => ruler is MultiCurve,
        RulerKind::Emit => ruler is Emit,
        RulerKind::CurveEmit => ruler is CurveEmit,
        RulerKind::ConcentricCircle => ruler is ConcentricCircle,
        RulerKind::Guide => ruler is Guide,
        RulerKind::Perspective => ruler is Perspective,
        RulerKind::Symmetry => ruler is Symmetry,
    }
}

/// A row of a ruler table is read to a ruler just when that is of the kind of the table and the
/// columns hold it. The vanishing points of a perspective are in rows of their own.
#[verifier::spinoff_prover]
#[verifier::rlimit(60)]
pub proof fn rulers_are_read_by_column(
    kind: RulerKind,
    id: i64,
    stored: Map<Seq<char>, SqlModel>,
    limits: Limits,
    ruler: RulerModel,
)
    ensures
        ruler::ruler_of(kind, id, answer(ruler::kind_columns(kind), stored), limits) == Ok::<
            RulerModel,
            Failure,
        >(ruler) <==> of_kind(ruler, kind) && ruler_stored(stored, id, ruler, limits),
{
    let columns = ruler::kind_columns(kind);
    let row = answer(columns, stored);
    let read = ruler::ruler_of(kind, id, row, limits);
    assert forall|i: int| 0 <= i < columns.len() implies #[trigger] row[i]
        == stored[columns[i]] by {}
    assert(row[0] == stored[columns[0]]);
    assert(row[1] == stored[columns[1]]);
    assert(row[2] == stored[columns[2]]);
    if columns.len() > 3 {
        assert(row[3] == stored[columns[3]]);
    }
    if columns.len() > 4 {
        assert(row[4] == stored[columns[4]]);
        assert(row[5] == stored[columns[5]]);
    }
    if columns.len() > 6 {
        assert(row[6] == stored[columns[6]]);
        assert(row[7] == stored[columns[7]]);
        assert(row[8] == stored[columns[8]]);
        assert(row[9] == stored[columns[9]]);
        assert(row[10] == stored[columns[10]]);
        assert(row[11] == stored[columns[11]]);
    }
    match kind {
        RulerKind::CurveParallel => {
            curve_cell(row, 2, limits);
        },
        RulerKind::MultiCurve => {
            curve_cell(row, 5, limits);
        },
        RulerKind::CurveEmit => {
            curve_cell(row, 2, limits);
        },
        RulerKind::Perspective => {
            if let RulerModel::Perspective { vanish_points, .. } = ruler {
                if vanish_points.len() == 0 {
                    assert(vanish_points =~= Seq::empty());
                }
            }
        },
        _ => {},
    }
}

proof fn curve_cell(row: Seq<SqlModel>, at: int, limits: Limits)
    requires
        0 <= at < row.len(),
    ensures
        forall|curve: CurveModel| #[trigger]
            gives_curve(row[at], curve, limits) <==> (sql::bytes_at(row, at) is Ok
                && ruler::curve_data_of(sql::bytes_at(row, at)->Ok_0, limits) == Ok::<
                CurveModel,
                Failure,
            >(curve)),
{
    assert forall|curve: CurveModel| #[trigger]
        gives_curve(row[at], curve, limits) <==> (sql::bytes_at(row, at) is Ok
            && ruler::curve_data_of(sql::bytes_at(row, at)->Ok_0, limits) == Ok::<
            CurveModel,
            Failure,
        >(curve)) by {
        if sql::bytes_at(row, at) is Ok {
            assert(gives_bytes(row[at], sql::bytes_at(row, at)->Ok_0));
        }
    }
}

/// Every kind of ruler has a table of its own, and a manager names the first ruler of each kind
/// in a column of its own.
pub proof fn ruler_tables_and_columns(index: int)
    requires
        0 <= index < 9,
    ensures
        ({
            let (kind, table, column) = seq![
                (RulerKind::Parallel, "RulerParallel"@, "FirstParallel"@),
                (RulerKind::CurveParallel, "RulerCurveParallel"@, "FirstCurveParallel"@),
                (RulerKind::MultiCurve, "RulerMultiCurve"@, "FirstMultiCurve"@),
                (RulerKind::Emit, "RulerEmit"@, "FirstEmit"@),
                (RulerKind::CurveEmit, "RulerCurveEmit"@, "FirstCurveEmit"@),
                (
                    RulerKind::ConcentricCircle,
                    "RulerConcentricCircle"@,
                    "FirstConcentricCircle"@,
                ),
                (RulerKind::Guide, "RulerGuide"@, "FirstGuide"@),
                (RulerKind::Perspective, "RulerPerspective"@, "FirstPerspective"@),
                (RulerKind::Symmetry, "RulerSymmetry"@, "FirstSymmetry"@),
            ][index];
            &&& ruler::kind_at(index) == kind
            &&& ruler::kind_table(kind) == table
            &&& ruler::first_column(index) == column
            &&& ruler::manager_items()[index + 2] == column
        }),
{
}

/// A manager row names the first rulers by kind: the ruler that it names first of a kind is the
/// one in the column of that kind, and zero or nothing stands for none.
pub proof fn first_rulers_are_read_by_column(
    stored: Map<Seq<char>, SqlModel>,
    index: int,
    count: int,
)
    requires
        0 <= index < count <= 9,
        ruler::first_rulers_of(answer(ruler::manager_items(), stored), count) is Ok,
    ensures
        ({
            let first = ruler::first_rulers_of(
                answer(ruler::manager_items(), stored),
                count,
            )->Ok_0;
            let cell = stored[ruler::manager_items()[index + 2]];
            &&& first.len() == count
            &&& match first[index] {
                Some(id) => id > 0 && cell == SqlModel::Integer(id),
                None => cell == SqlModel::Null || cell == SqlModel::Integer(0),
            }
        }),
    decreases count,
{
    let row = answer(ruler::manager_items(), stored);
    assert(row[count + 1] == stored[ruler::manager_items()[count + 1]]);
    if index < count - 1 {
        first_rulers_are_read_by_column(stored, index, count - 1);
    } else if count > 1 {
        first_rulers_are_read_by_column(stored, 0, count - 1);
    }
}

/// What a layer says of its rulers is in the columns of those names, where it has them.
pub proof fn ruler_owners_are_read_by_column(
    schema: Seq<database::TableModel>,
    stored: Map<Seq<char>, SqlModel>,
    rows: Seq<Seq<SqlModel>>,
)
    requires
        stored["NULL"@] == SqlModel::Null,
        rows.len() > 0,
        rows[0] == answer(ruler::owner_items(schema), stored),
    ensures
        ruler::owner_question(schema) == asked(
            ruler::owner_items(schema),
            " FROM Layer WHERE MainId = ?1 LIMIT 1"@,
        ),
        ruler::ruler_owner_of(ReplyModel { rows, failed: false }) matches Ok(Some(owner)) ==> {
            let vector = optional_cell(schema, "Layer"@, "RulerVectorIndex"@, stored);
            let manager = optional_cell(schema, "Layer"@, "SpecialRulerManager"@, stored);
            &&& gives_integer(stored["CanvasId"@], owner.canvas_id)
            &&& owner.canvas_id > 0
            &&& match owner.vector_object_id {
                Some(id) => id > 0 && vector == SqlModel::Integer(id),
                None => vector == SqlModel::Null || vector == SqlModel::Integer(0),
            }
            &&& match owner.manager_id {
                Some(id) => id > 0 && manager == SqlModel::Integer(id),
                None => manager == SqlModel::Null || manager == SqlModel::Integer(0),
            }
            &&& gives_optional_integer(
                optional_cell(schema, "Layer"@, "RulerRange"@, stored),
                owner.scope,
            )
        },
{
    let row = rows[0];
    assert(row[0] == stored["CanvasId"@]);
    assert(row[1] == optional_cell(schema, "Layer"@, "RulerVectorIndex"@, stored));
    assert(row[2] == optional_cell(schema, "Layer"@, "SpecialRulerManager"@, stored));
    assert(row[3] == optional_cell(schema, "Layer"@, "RulerRange"@, stored));
}

/// A vanishing point that is read is the one that its columns hold, with as many guide bytes as
/// its guides take.
pub proof fn vanishing_points_are_read_by_column(
    id: i64,
    stored: Map<Seq<char>, SqlModel>,
    limits: Limits,
)
    ensures
        ruler::vanish_question() == asked(
            ruler::vanish_items(),
            " FROM RulerVanishPoint WHERE MainId = ?1 LIMIT 1"@,
        ),
        ruler::vanish_point_of(id, answer(ruler::vanish_items(), stored), limits) matches Ok(
            point,
        ) ==> {
            &&& point.id == id
            &&& gives_integer(stored["Flag"@], point.flags)
            &&& gives_point(stored["VanishPointX"@], stored["VanishPointY"@], point.position)
            &&& gives_finite(stored["ParallelAngle"@], point.parallel_angle)
            &&& stored["GuideNumber"@] matches SqlModel::Integer(count) && count
                == point.guide_count
            &&& stored["GuideDataSize"@] matches SqlModel::Integer(size) && size
                == point.guide_record_size
            &&& (gives_bytes(stored["Guide"@], point.guide_data) || stored["Guide"@]
                == SqlModel::Null && point.guide_data.len() == 0)
            &&& point.guide_data.len() == point.guide_count * point.guide_record_size
        },
{
    let row = answer(ruler::vanish_items(), stored);
    assert(row[0] == stored["Flag"@]);
    assert(row[1] == stored["VanishPointX"@]);
    assert(row[2] == stored["VanishPointY"@]);
    assert(row[3] == stored["ParallelAngle"@]);
    assert(row[4] == stored["GuideNumber"@]);
    assert(row[5] == stored["GuideDataSize"@]);
    assert(row[6] == stored["Guide"@]);
}

/// A point of a curve ruler: its position, then its thickness.
pub open spec fn curve_point_bytes(point: RulerCurvePoint) -> Seq<u8> {
    word64(point.position.x.bits) + word64(point.position.y.bits) + signed32(point.thickness)
}

/// Points of a curve ruler, one after the other.
pub open spec fn curve_points_bytes(points: Seq<RulerCurvePoint>) -> Seq<u8> {
    laid_out(Seq::new(points.len(), |i: int| curve_point_bytes(points[i])))
}

/// A curve ruler: the size of its header, the number of its points, four numbers, whatever else
/// its header holds, and its points.
pub open spec fn curve_bytes(
    metadata: Seq<i32>,
    other: Seq<u8>,
    points: Seq<RulerCurvePoint>,
) -> Seq<
    u8,
> {
    laid_out(
        seq![
            signed32((24 + other.len()) as i32),
            signed32(points.len() as i32),
            signed32(metadata[0]),
            signed32(metadata[1]),
            signed32(metadata[2]),
            signed32(metadata[3]),
        ],
    ) + other + curve_points_bytes(points)
}

proof fn curve_points_stand(points: Seq<RulerCurvePoint>)
    ensures
        curve_points_bytes(points).len() == 20 * points.len(),
        forall|i: int|
            0 <= i < points.len() ==> holds(
                curve_points_bytes(points),
                20 * i,
                curve_point_bytes(#[trigger] points[i]),
            ),
{
    let parts = Seq::new(points.len(), |i: int| curve_point_bytes(points[i]));
    layout::equal_parts(parts, 20);
    assert forall|i: int| 0 <= i < points.len() implies holds(
        curve_points_bytes(points),
        20 * i,
        curve_point_bytes(#[trigger] points[i]),
    ) by {
        assert(holds(laid_out(parts), 20 * i, parts[i]));
    }
}

proof fn curve_point_reads_back(data: Seq<u8>, at: int, point: RulerCurvePoint)
    requires
        holds(data, at, curve_point_bytes(point)),
    ensures
        ruler::curve_point_at(data, at) == point,
{
    reveal(ruler::curve_point_at);
    let x = word64(point.position.x.bits);
    let y = word64(point.position.y.bits);
    let thickness = signed32(point.thickness);
    let part = curve_point_bytes(point);
    layout::three_parts(x, y, thickness);
    layout::part_of_part(data, at, part, 0, x);
    layout::part_of_part(data, at, part, 8, y);
    layout::part_of_part(data, at, part, 16, thickness);
    layout::held_numbers_read_back(data, at);
    layout::held_numbers_read_back(data, at + 8);
    layout::held_numbers_read_back(data, at + 16);
}

/// A curve ruler that is written reads back as it was: its four numbers and its points, each
/// with its position and thickness.
pub proof fn curves_read_back(
    metadata: Seq<i32>,
    other: Seq<u8>,
    points: Seq<RulerCurvePoint>,
    limits: Limits,
)
    requires
        metadata.len() == 4,
        24 + other.len() <= i32::MAX,
        points.len() <= i32::MAX,
        points.len() <= limits.max_ruler_items,
        curve_bytes(metadata, other, points).len() <= limits.max_ruler_data_bytes,
        forall|i: int|
            0 <= i < points.len() ==> (#[trigger] points[i]).position.x.finite()
                && points[i].position.y.finite(),
    ensures
        ruler::curve_data_of(curve_bytes(metadata, other, points), limits) == Ok::<
            CurveModel,
            Failure,
        >(
            CurveModel {
                header_size: (24 + other.len()) as u32,
                metadata,
                points,
                raw: curve_bytes(metadata, other, points),
            },
        ),
{
    let data = curve_bytes(metadata, other, points);
    let words = seq![
        signed32((24 + other.len()) as i32),
        signed32(points.len() as i32),
        signed32(metadata[0]),
        signed32(metadata[1]),
        signed32(metadata[2]),
        signed32(metadata[3]),
    ];
    let head = laid_out(words);
    let size = 24 + other.len() as int;
    layout::equal_parts(words, 4);
    layout::three_parts(head, other, curve_points_bytes(points));
    curve_points_stand(points);
    assert forall|i: int| 0 <= i < 6 implies holds(data, 4 * i, #[trigger] words[i]) by {
        assert(holds(head, 4 * i, words[i]));
        layout::part_of_part(data, 0, head, 4 * i, words[i]);
    }
    assert(holds(data, 4 * 0int, words[0]));
    assert(holds(data, 4 * 1int, words[1]));
    assert(holds(data, 4 * 2int, words[2]));
    assert(holds(data, 4 * 3int, words[3]));
    assert(holds(data, 4 * 4int, words[4]));
    assert(holds(data, 4 * 5int, words[5]));
    layout::held_numbers_read_back(data, 0);
    layout::held_numbers_read_back(data, 4);
    layout::held_numbers_read_back(data, 8);
    layout::held_numbers_read_back(data, 12);
    layout::held_numbers_read_back(data, 16);
    layout::held_numbers_read_back(data, 20);
    assert forall|i: int| 0 <= i < points.len() implies #[trigger] ruler::curve_point_at(
        data,
        size + 20 * i,
    ) == points[i] by {
        layout::part_of_part(
            data,
            size,
            curve_points_bytes(points),
            20 * i,
            curve_point_bytes(points[i]),
        );
        curve_point_reads_back(data, size + 20 * i, points[i]);
    }
    let read_words = Seq::new(4, |i: int| bytes::be32_signed(data, 8 + 4 * i) as i32);
    assert(read_words =~= metadata);
    let read_points = Seq::new(
        points.len(),
        |i: int| ruler::curve_point_at(data, size + 20 * i),
    );
    assert(read_points =~= points);
}

} // verus!
