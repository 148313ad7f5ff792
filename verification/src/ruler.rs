//! Rulers: the ones that layers own, and the rows and curves that describe them.

use rusqlite::Connection;
use vstd::prelude::*;

use crate::bytes;
use crate::bytes::{copy_bytes, read_be32_signed, read_be64};
use crate::columns;
use crate::database;
use crate::database::{Database, DatabaseSchema};
use crate::error;
use crate::error::{Error, Failure};
use crate::limits::Limits;
use crate::message;
use crate::message::Message;
use crate::reals::Double;
use crate::sql;
use crate::sql::{query_all_within, query_by_id, Reply, SqlModel, SqlRow};

verus! {

fn ruler_error(reason: Message) -> (error: Error)
    ensures
        error@ == (Failure::InvalidRuler { reason: reason@ }),
{
    Error::InvalidRuler { reason: reason.build() }
}

/// Known special-ruler table kind.
#[derive(Clone, Copy, Debug, PartialEq, Eq, PartialOrd, Ord, Hash)]
#[non_exhaustive]
pub enum RulerKind {
    /// Parallel line.
    Parallel,
    /// Parallel curve.
    CurveParallel,
    /// Multiple curve.
    MultiCurve,
    /// Radial line (`RulerEmit`).
    Emit,
    /// Radial curve (`RulerCurveEmit`).
    CurveEmit,
    /// Concentric circle.
    ConcentricCircle,
    /// Horizontal or vertical guide.
    Guide,
    /// Perspective ruler.
    Perspective,
    /// Symmetry ruler.
    Symmetry,
}

/// One finite two-dimensional ruler coordinate.
#[derive(Clone, Copy, Debug, PartialEq)]
pub struct RulerPoint {
    pub x: Double,
    pub y: Double,
}

impl RulerPoint {
    /// X coordinate.
    #[must_use]
    pub fn x(self) -> (value: Double)
        ensures
            value == self.x,
    {
        self.x
    }

    /// Y coordinate.
    #[must_use]
    pub fn y(self) -> (value: Double)
        ensures
            value == self.y,
    {
        self.y
    }
}

/// One point from a curve ruler's big-endian `PointData`.
#[derive(Clone, Copy, Debug, PartialEq)]
pub struct RulerCurvePoint {
    pub position: RulerPoint,
    pub thickness: i32,
}

impl RulerCurvePoint {
    /// Stored point position.
    #[must_use]
    pub fn position(self) -> (value: RulerPoint)
        ensures
            value == self.position,
    {
        self.position
    }

    /// Raw point thickness.
    #[must_use]
    pub fn thickness(self) -> (value: i32)
        ensures
            value == self.thickness,
    {
        self.thickness
    }
}

/// Validated curve-ruler point payload with unknown header words preserved.
#[derive(Clone, Debug, PartialEq)]
pub struct RulerCurveData {
    pub header_size: u32,
    pub metadata: [i32; 4],
    pub points: Vec<RulerCurvePoint>,
    pub raw: Vec<u8>,
}

/// The model of a [`RulerCurveData`].
#[verifier::ext_equal]
pub struct CurveModel {
    pub header_size: u32,
    pub metadata: Seq<i32>,
    pub points: Seq<RulerCurvePoint>,
    pub raw: Seq<u8>,
}

impl View for RulerCurveData {
    type V = CurveModel;

    open spec fn view(&self) -> CurveModel {
        CurveModel {
            header_size: self.header_size,
            metadata: self.metadata@,
            points: self.points@,
            raw: self.raw@,
        }
    }
}

impl RulerCurveData {
    /// Declared header size.
    #[must_use]
    pub fn header_size(&self) -> (value: u32)
        ensures
            value == self.header_size,
    {
        self.header_size
    }

    /// Four observed but not semantically named header words.
    #[must_use]
    pub fn metadata(&self) -> (value: [i32; 4])
        ensures
            value == self.metadata,
    {
        self.metadata
    }

    /// Ordered curve points.
    #[must_use]
    pub fn points(&self) -> (list: &[RulerCurvePoint])
        ensures
            list@ == self.points@,
    {
        self.points.as_slice()
    }

    /// Original bounded `PointData` bytes.
    #[must_use]
    pub fn raw(&self) -> (list: &[u8])
        ensures
            list@ == self.raw@,
    {
        self.raw.as_slice()
    }
}

/// One validated perspective-ruler vanishing-point row.
#[derive(Clone, Debug, PartialEq)]
pub struct RulerVanishPoint {
    pub id: i64,
    pub flags: i64,
    pub position: RulerPoint,
    pub parallel_angle: Double,
    pub guide_count: u64,
    pub guide_record_size: u64,
    pub guide_data: Vec<u8>,
}

/// The model of a [`RulerVanishPoint`].
#[verifier::ext_equal]
pub struct VanishPointModel {
    pub id: i64,
    pub flags: i64,
    pub position: RulerPoint,
    pub parallel_angle: Double,
    pub guide_count: u64,
    pub guide_record_size: u64,
    pub guide_data: Seq<u8>,
}

impl View for RulerVanishPoint {
    type V = VanishPointModel;

    open spec fn view(&self) -> VanishPointModel {
        VanishPointModel {
            id: self.id,
            flags: self.flags,
            position: self.position,
            parallel_angle: self.parallel_angle,
            guide_count: self.guide_count,
            guide_record_size: self.guide_record_size,
            guide_data: self.guide_data@,
        }
    }
}

impl RulerVanishPoint {
    /// SQLite `MainId`.
    #[must_use]
    pub fn id(&self) -> (value: i64)
        ensures
            value == self.id,
    {
        self.id
    }

    /// Raw `Flag`.
    #[must_use]
    pub fn flags(&self) -> (value: i64)
        ensures
            value == self.flags,
    {
        self.flags
    }

    /// Vanishing-point coordinate.
    #[must_use]
    pub fn position(&self) -> (value: RulerPoint)
        ensures
            value == self.position,
    {
        self.position
    }

    /// Stored parallel angle.
    #[must_use]
    pub fn parallel_angle(&self) -> (value: Double)
        ensures
            value == self.parallel_angle,
    {
        self.parallel_angle
    }

    /// Declared guide record count.
    #[must_use]
    pub fn guide_count(&self) -> (value: u64)
        ensures
            value == self.guide_count,
    {
        self.guide_count
    }

    /// Declared bytes per guide record.
    #[must_use]
    pub fn guide_record_size(&self) -> (value: u64)
        ensures
            value == self.guide_record_size,
    {
        self.guide_record_size
    }

    /// Original bounded guide records.
    #[must_use]
    pub fn guide_data(&self) -> (list: &[u8])
        ensures
            list@ == self.guide_data@,
    {
        self.guide_data.as_slice()
    }
}

/// One typed special-ruler row.
#[derive(Clone, Debug, PartialEq)]
#[non_exhaustive]
#[allow(inconsistent_fields)]
pub enum Ruler {
    /// `RulerParallel`.
    Parallel {
        /// SQLite `MainId`.
        id: i64,
        /// Raw snap flag.
        snap: i64,
        /// Rotation in stored units.
        rotation: Double,
        /// Stored center.
        center: RulerPoint,
    },
    /// `RulerCurveParallel`.
    CurveParallel {
        /// SQLite `MainId`.
        id: i64,
        /// Raw snap flag.
        snap: i64,
        /// Optional raw curve kind.
        curve_kind: Option<i64>,
        /// Validated point payload.
        curve: RulerCurveData,
    },
    /// `RulerMultiCurve`.
    MultiCurve {
        /// SQLite `MainId`.
        id: i64,
        /// Raw snap flag.
        snap: i64,
        /// Optional raw curve kind.
        curve_kind: Option<i64>,
        /// Stored offset angle.
        offset_angle: Double,
        /// Stored center.
        center: RulerPoint,
        /// Validated point payload.
        curve: RulerCurveData,
    },
    /// `RulerEmit`.
    Emit {
        /// SQLite `MainId`.
        id: i64,
        /// Raw snap flag.
        snap: i64,
        /// Stored center.
        center: RulerPoint,
    },
    /// `RulerCurveEmit`.
    CurveEmit {
        /// SQLite `MainId`.
        id: i64,
        /// Raw snap flag.
        snap: i64,
        /// Optional raw curve kind.
        curve_kind: Option<i64>,
        /// Validated point payload.
        curve: RulerCurveData,
    },
    /// `RulerConcentricCircle`.
    ConcentricCircle {
        /// SQLite `MainId`.
        id: i64,
        /// Raw snap flag.
        snap: i64,
        /// Stored radii.
        radius: RulerPoint,
        /// Stored rotation.
        rotation: Double,
        /// Stored center.
        center: RulerPoint,
    },
    /// `RulerGuide`.
    Guide {
        /// SQLite `MainId`.
        id: i64,
        /// Raw snap flag.
        snap: i64,
        /// Raw horizontal flag.
        horizontal: i64,
        /// Stored center.
        center: RulerPoint,
    },
    /// `RulerPerspective` with its validated vanishing-point chain.
    Perspective {
        /// SQLite `MainId`.
        id: i64,
        /// Raw ruler flags.
        flags: i64,
        /// Raw perspective type.
        perspective_type: i64,
        /// Eye-level handle.
        eye_level_handle: RulerPoint,
        /// Move handle.
        move_handle: RulerPoint,
        /// Grid origin.
        grid_origin: RulerPoint,
        /// Raw grid flags.
        grid_flags: i64,
        /// Stored grid size.
        grid_size: Double,
        /// Stored near-camera value.
        camera_near: Double,
        /// Ordered vanishing-point rows.
        vanish_points: Vec<RulerVanishPoint>,
    },
    /// `RulerSymmetry`.
    Symmetry {
        /// SQLite `MainId`.
        id: i64,
        /// Raw snap flag.
        snap: i64,
        /// Stored line count.
        line_count: i64,
        /// Raw line-symmetry flag.
        line_symmetry: i64,
        /// Stored rotation.
        rotation: Double,
        /// Stored center.
        center: RulerPoint,
    },
}

/// The model of a [`Ruler`].
#[verifier::ext_equal]
#[allow(inconsistent_fields)]
pub enum RulerModel {
    Parallel { id: i64, snap: i64, rotation: Double, center: RulerPoint },
    CurveParallel { id: i64, snap: i64, curve_kind: Option<i64>, curve: CurveModel },
    MultiCurve { id: i64, snap: i64, curve_kind: Option<i64>, offset_angle: Double, center: RulerPoint, curve: CurveModel },
    Emit { id: i64, snap: i64, center: RulerPoint },
    CurveEmit { id: i64, snap: i64, curve_kind: Option<i64>, curve: CurveModel },
    ConcentricCircle { id: i64, snap: i64, radius: RulerPoint, rotation: Double, center: RulerPoint },
    Guide { id: i64, snap: i64, horizontal: i64, center: RulerPoint },
    Perspective { id: i64, flags: i64, perspective_type: i64, eye_level_handle: RulerPoint, move_handle: RulerPoint, grid_origin: RulerPoint, grid_flags: i64, grid_size: Double, camera_near: Double, vanish_points: Seq<VanishPointModel> },
    Symmetry { id: i64, snap: i64, line_count: i64, line_symmetry: i64, rotation: Double, center: RulerPoint },
}

impl View for Ruler {
    type V = RulerModel;

    open spec fn view(&self) -> RulerModel {
        match *self {
            Ruler::Parallel { id, snap, rotation, center } => RulerModel::Parallel { id, snap, rotation, center },
            Ruler::CurveParallel { id, snap, curve_kind, curve } => RulerModel::CurveParallel { id, snap, curve_kind, curve: curve@ },
            Ruler::MultiCurve { id, snap, curve_kind, offset_angle, center, curve } => RulerModel::MultiCurve { id, snap, curve_kind, offset_angle, center, curve: curve@ },
            Ruler::Emit { id, snap, center } => RulerModel::Emit { id, snap, center },
            Ruler::CurveEmit { id, snap, curve_kind, curve } => RulerModel::CurveEmit { id, snap, curve_kind, curve: curve@ },
            Ruler::ConcentricCircle { id, snap, radius, rotation, center } => RulerModel::ConcentricCircle { id, snap, radius, rotation, center },
            Ruler::Guide { id, snap, horizontal, center } => RulerModel::Guide { id, snap, horizontal, center },
            Ruler::Perspective { id, flags, perspective_type, eye_level_handle, move_handle, grid_origin, grid_flags, grid_size, camera_near, vanish_points } => RulerModel::Perspective { id, flags, perspective_type, eye_level_handle, move_handle, grid_origin, grid_flags, grid_size, camera_near, vanish_points: error::views(vanish_points@) },
            Ruler::Symmetry { id, snap, line_count, line_symmetry, rotation, center } => RulerModel::Symmetry { id, snap, line_count, line_symmetry, rotation, center },
        }
    }
}

impl RulerModel {
    /// The row that a ruler was read from.
    pub open spec fn id(self) -> i64 {
        match self {
            RulerModel::Parallel { id, .. } => id,
            RulerModel::CurveParallel { id, .. } => id,
            RulerModel::MultiCurve { id, .. } => id,
            RulerModel::Emit { id, .. } => id,
            RulerModel::CurveEmit { id, .. } => id,
            RulerModel::ConcentricCircle { id, .. } => id,
            RulerModel::Guide { id, .. } => id,
            RulerModel::Perspective { id, .. } => id,
            RulerModel::Symmetry { id, .. } => id,
        }
    }

    /// The table that a ruler was read from.
    pub open spec fn kind(self) -> RulerKind {
        match self {
            RulerModel::Parallel { .. } => RulerKind::Parallel,
            RulerModel::CurveParallel { .. } => RulerKind::CurveParallel,
            RulerModel::MultiCurve { .. } => RulerKind::MultiCurve,
            RulerModel::Emit { .. } => RulerKind::Emit,
            RulerModel::CurveEmit { .. } => RulerKind::CurveEmit,
            RulerModel::ConcentricCircle { .. } => RulerKind::ConcentricCircle,
            RulerModel::Guide { .. } => RulerKind::Guide,
            RulerModel::Perspective { .. } => RulerKind::Perspective,
            RulerModel::Symmetry { .. } => RulerKind::Symmetry,
        }
    }
}

impl Ruler {
    /// SQLite `MainId`.
    #[must_use]
    pub fn id(&self) -> (id: i64)
        ensures
            id == self@.id(),
    {
        match self {
            Ruler::Parallel { id, .. } => *id,
            Ruler::CurveParallel { id, .. } => *id,
            Ruler::MultiCurve { id, .. } => *id,
            Ruler::Emit { id, .. } => *id,
            Ruler::CurveEmit { id, .. } => *id,
            Ruler::ConcentricCircle { id, .. } => *id,
            Ruler::Guide { id, .. } => *id,
            Ruler::Perspective { id, .. } => *id,
            Ruler::Symmetry { id, .. } => *id,
        }
    }

    /// Source table kind.
    #[must_use]
    pub fn kind(&self) -> (kind: RulerKind)
        ensures
            kind == self@.kind(),
    {
        match self {
            Ruler::Parallel { .. } => RulerKind::Parallel,
            Ruler::CurveParallel { .. } => RulerKind::CurveParallel,
            Ruler::MultiCurve { .. } => RulerKind::MultiCurve,
            Ruler::Emit { .. } => RulerKind::Emit,
            Ruler::CurveEmit { .. } => RulerKind::CurveEmit,
            Ruler::ConcentricCircle { .. } => RulerKind::ConcentricCircle,
            Ruler::Guide { .. } => RulerKind::Guide,
            Ruler::Perspective { .. } => RulerKind::Perspective,
            Ruler::Symmetry { .. } => RulerKind::Symmetry,
        }
    }
}

/// Ruler references and typed special-ruler rows owned by one layer.
#[derive(Clone, Debug, PartialEq)]
pub struct RulerLayerData {
    pub layer_id: i64,
    pub canvas_id: i64,
    pub scope: Option<i64>,
    pub vector_object_id: Option<i64>,
    pub manager_id: Option<i64>,
    pub rulers: Vec<Ruler>,
}

/// The model of a [`RulerLayerData`].
#[verifier::ext_equal]
pub struct RulerLayerModel {
    pub layer_id: i64,
    pub canvas_id: i64,
    pub scope: Option<i64>,
    pub vector_object_id: Option<i64>,
    pub manager_id: Option<i64>,
    pub rulers: Seq<RulerModel>,
}

impl View for RulerLayerData {
    type V = RulerLayerModel;

    open spec fn view(&self) -> RulerLayerModel {
        RulerLayerModel {
            layer_id: self.layer_id,
            canvas_id: self.canvas_id,
            scope: self.scope,
            vector_object_id: self.vector_object_id,
            manager_id: self.manager_id,
            rulers: error::views(self.rulers@),
        }
    }
}

impl RulerLayerData {
    /// Owning `Layer.MainId`.
    #[must_use]
    pub fn layer_id(&self) -> (value: i64)
        ensures
            value == self.layer_id,
    {
        self.layer_id
    }

    /// Owning canvas ID.
    #[must_use]
    pub fn canvas_id(&self) -> (value: i64)
        ensures
            value == self.canvas_id,
    {
        self.canvas_id
    }

    /// Raw optional `Layer.RulerRange` value.
    #[must_use]
    pub fn scope(&self) -> (value: Option<i64>)
        ensures
            value == self.scope,
    {
        self.scope
    }

    /// Referenced `VectorObjectList.MainId` for a vector ruler.
    #[must_use]
    pub fn vector_object_id(&self) -> (value: Option<i64>)
        ensures
            value == self.vector_object_id,
    {
        self.vector_object_id
    }

    /// Referenced `SpecialRulerManager.MainId`.
    #[must_use]
    pub fn manager_id(&self) -> (value: Option<i64>)
        ensures
            value == self.manager_id,
    {
        self.manager_id
    }

    /// Typed special rulers in manager-column and linked-list order.
    #[must_use]
    pub fn rulers(&self) -> (list: &[Ruler])
        ensures
            list@ == self.rulers@,
    {
        self.rulers.as_slice()
    }
}

/// A point, where both coordinates have to be finite.
pub open spec fn point_of(x: Double, y: Double) -> Result<RulerPoint, Failure> {
    if x.finite() && y.finite() {
        Ok(RulerPoint { x, y })
    } else {
        Err(Failure::Sqlite)
    }
}

fn point(x: Double, y: Double) -> (result: Result<RulerPoint, Error>)
    ensures
        error::plain(result) == point_of(x, y),
{
    if x.is_finite() && y.is_finite() {
        Ok(RulerPoint { x, y })
    } else {
        Err(Error::Sqlite { reason: Message::new("non-finite ruler point").build() })
    }
}

/// The point in two columns.
pub open spec fn point_at(row: Seq<SqlModel>, column: int) -> Result<RulerPoint, Failure> {
    match (sql::real_at(row, column), sql::real_at(row, column + 1)) {
        (Ok(x), Ok(y)) => point_of(x, y),
        _ => Err(Failure::Sqlite),
    }
}

fn read_point(row: &SqlRow, column: usize) -> (result: Result<RulerPoint, Error>)
    requires
        column < 100,
    ensures
        error::plain(result) == point_at(row@, column as int),
{
    let x = row.number(column)?;
    let y = row.number(column + 1)?;
    point(x, y)
}

fn finite(value: Double, name: &str) -> (result: Result<Double, Error>)
    ensures
        error::plain(result) == finite_of(value, name@),
{
    if value.is_finite() {
        Ok(value)
    } else {
        Err(ruler_error(Message::new(name).text(" is not finite")))
    }
}

/// A number that has to be finite.
pub open spec fn finite_of(value: Double, name: Seq<char>) -> Result<Double, Failure> {
    if value.finite() {
        Ok(value)
    } else {
        Err(Failure::InvalidRuler { reason: name + " is not finite"@ })
    }
}

/// A reference in which zero stands for none and nothing is negative.
pub open spec fn positive_reference(value: Option<i64>, name: Seq<char>) -> Result<
    Option<i64>,
    Failure,
> {
    match value {
        None => Ok(None),
        Some(id) => if id == 0 {
            Ok(None)
        } else if id > 0 {
            Ok(Some(id))
        } else {
            Err(
                Failure::InvalidRuler {
                    reason: name + " value "@ + message::decimal_signed(id as int) + " is negative"@,
                },
            )
        },
    }
}

fn optional_positive(value: Option<i64>, name: &str) -> (reference: Result<Option<i64>, Error>)
    ensures
        error::plain(reference) == positive_reference(value, name@),
{
    match value {
        None => Ok(None),
        Some(id) => if id == 0 {
            Ok(None)
        } else if id > 0 {
            Ok(Some(id))
        } else {
            Err(
                ruler_error(
                    Message::new(name).text(" value ").integer(id).text(" is negative"),
                ),
            )
        },
    }
}

/// The curve point that starts at an offset.
#[verifier::opaque]
pub open spec fn curve_point_at(data: Seq<u8>, at: int) -> RulerCurvePoint {
    RulerCurvePoint {
        position: RulerPoint {
            x: Double { bits: bytes::be64(data, at) as u64 },
            y: Double { bits: bytes::be64(data, at + 8) as u64 },
        },
        thickness: bytes::be32_signed(data, at + 16) as i32,
    }
}

/// The validated payload of a curve ruler.
pub open spec fn curve_data_of(data: Seq<u8>, limits: Limits) -> Result<CurveModel, Failure> {
    let header_size = bytes::be32_signed(data, 0);
    let point_count = bytes::be32_signed(data, 4);
    if data.len() > limits.max_ruler_data_bytes {
        Err(
            Failure::LimitExceeded {
                resource: "ruler data bytes"@,
                value: data.len() as u64,
                limit: limits.max_ruler_data_bytes,
            },
        )
    } else if data.len() < 4 {
        Err(Failure::InvalidRuler { reason: "ruler payload is truncated"@ })
    } else if header_size < 0 {
        Err(Failure::InvalidRuler { reason: "curve header size is negative"@ })
    } else if header_size < 24 {
        Err(
            Failure::InvalidRuler {
                reason: "curve header size "@ + message::decimal_signed(header_size)
                    + " is below 24"@,
            },
        )
    } else if data.len() < 8 {
        Err(Failure::InvalidRuler { reason: "ruler payload is truncated"@ })
    } else if point_count < 0 {
        Err(Failure::InvalidRuler { reason: "curve point count is negative"@ })
    } else if point_count > limits.max_ruler_items {
        Err(
            Failure::LimitExceeded {
                resource: "ruler curve points"@,
                value: point_count as u64,
                limit: limits.max_ruler_items,
            },
        )
    } else if data.len() < header_size {
        Err(Failure::InvalidRuler { reason: "ruler payload is truncated"@ })
    } else if header_size + 20 * point_count != data.len() {
        Err(
            Failure::InvalidRuler {
                reason: "curve point data has "@ + message::decimal(
                    (data.len() - header_size) as nat,
                ) + " bytes instead of "@ + message::decimal((20 * point_count) as nat),
            },
        )
    } else if exists|i: int|
        0 <= i < point_count && !point_is_finite(
            #[trigger] curve_point_at(data, header_size + 20 * i),
        ) {
        Err(Failure::Sqlite)
    } else {
        Ok(
            CurveModel {
                header_size: header_size as u32,
                metadata: Seq::new(4, |i: int| bytes::be32_signed(data, 8 + 4 * i) as i32),
                points: Seq::new(
                    point_count as nat,
                    |i: int| curve_point_at(data, header_size + 20 * i),
                ),
                raw: data,
            },
        )
    }
}

/// Whether both coordinates of a curve point are finite.
pub open spec fn point_is_finite(point: RulerCurvePoint) -> bool {
    point.position.x.finite() && point.position.y.finite()
}

fn read_curve_point(data: &[u8], at: usize) -> (point: RulerCurvePoint)
    requires
        at + 20 <= data@.len(),
    ensures
        point == curve_point_at(data@, at as int),
{
    proof {
        reveal(curve_point_at);
    }
    assert(data.len() == data@.len());
    let x = Double { bits: read_be64(data, at) };
    let y = Double { bits: read_be64(data, at + 8) };
    let thickness: i32 = read_be32_signed(data, at + 16);
    RulerCurvePoint { position: RulerPoint { x, y }, thickness }
}

/// Parses the payload of a curve ruler.
#[verifier::spinoff_prover]
pub fn parse_curve_data(data: &[u8], limits: Limits) -> (curve: Result<RulerCurveData, Error>)
    ensures
        error::outcome(curve) == curve_data_of(data@, limits),
{
    assert(data.len() == data@.len());
    let length: u64 = data.len() as u64;
    if length > limits.max_ruler_data_bytes() {
        return Err(Error::limit("ruler data bytes", length, limits.max_ruler_data_bytes()));
    }
    if length < 4 {
        return Err(ruler_error(Message::new("ruler payload is truncated")));
    }
    let header: i32 = read_be32_signed(data, 0);
    if header < 0 {
        return Err(ruler_error(Message::new("curve header size is negative")));
    }
    if header < 24 {
        return Err(
            ruler_error(
                Message::new("curve header size ").integer(header as i64).text(" is below 24"),
            ),
        );
    }
    if length < 8 {
        return Err(ruler_error(Message::new("ruler payload is truncated")));
    }
    let count: i32 = read_be32_signed(data, 4);
    if count < 0 {
        return Err(ruler_error(Message::new("curve point count is negative")));
    }
    if count as u64 > limits.max_ruler_items() {
        return Err(Error::limit("ruler curve points", count as u64, limits.max_ruler_items()));
    }
    let header_size: u64 = header as u64;
    let point_count: u64 = count as u64;
    if header_size + 20 * point_count != length {
        if length < header_size {
            return Err(ruler_error(Message::new("ruler payload is truncated")));
        }
        return Err(
            ruler_error(
                Message::new("curve point data has ").number(length - header_size).text(
                    " bytes instead of ",
                ).number(20 * point_count),
            ),
        );
    }
    let metadata: [i32; 4] = [
        read_be32_signed(data, 8),
        read_be32_signed(data, 12),
        read_be32_signed(data, 16),
        read_be32_signed(data, 20),
    ];
    let mut points: Vec<RulerCurvePoint> = Vec::new();
    let mut next: u64 = 0;
    while next < point_count
        invariant
            next <= point_count,
            points@.len() == next,
            data@.len() == data.len(),
            point_count <= i32::MAX,
            24 <= header_size <= i32::MAX,
            header_size + 20 * point_count == data@.len(),
            header_size == bytes::be32_signed(data@, 0),
            point_count == bytes::be32_signed(data@, 4),
            data@.len() <= limits.max_ruler_data_bytes,
            point_count <= limits.max_ruler_items,
            forall|i: int|
                0 <= i < next ==> #[trigger] points@[i] == curve_point_at(
                    data@,
                    header_size + 20 * i,
                ) && point_is_finite(curve_point_at(data@, header_size + 20 * i)),
        decreases point_count - next,
    {
        let at: usize = (header_size + 20 * next) as usize;
        let found = read_curve_point(data, at);
        if !found.position.x.is_finite() || !found.position.y.is_finite() {
            assert(!point_is_finite(curve_point_at(data@, header_size + 20 * (next as int))));
            return Err(Error::Sqlite { reason: Message::new("non-finite ruler point").build() });
        }
        assert(found == curve_point_at(data@, header_size + 20 * (next as int)));
        points.push(found);
        assert(points@[next as int] == found);
        next = next + 1;
    }
    let raw = copy_bytes(data, 0, data.len());
    let curve = RulerCurveData { header_size: header as u32, metadata, points, raw };
    proof {
        assert(data@.subrange(0, data@.len() as int) =~= data@);
        let expected = curve_data_of(data@, limits);
        assert forall|i: int| 0 <= i < point_count implies point_is_finite(
            #[trigger] curve_point_at(data@, header_size + 20 * i),
        ) by {
            assert(points@[i] == curve_point_at(data@, header_size + 20 * i));
        }
        assert(expected is Ok);
        assert(curve@.metadata =~= expected->Ok_0.metadata);
        assert(curve@.points =~= expected->Ok_0.points);
    }
    Ok(curve)
}

/// A reply that may not hold a second row.
pub open spec fn lone_row(reply: sql::ReplyModel, table: Seq<char>, id: i64) -> Result<
    (),
    Failure,
> {
    if reply.rows.len() > 1 {
        Err(
            Failure::InvalidRuler {
                reason: table + " MainId "@ + message::decimal_signed(id as int) + " is not unique"@,
            },
        )
    } else if reply.failed {
        Err(Failure::Sqlite)
    } else {
        Ok(())
    }
}

fn require_lone_row(reply: &Reply, table: &str, id: i64) -> (result: Result<(), Error>)
    ensures
        error::plain(result) == lone_row(reply@, table@, id),
{
    if reply.rows.len() > 1 {
        return Err(
            ruler_error(Message::new(table).text(" MainId ").integer(id).text(" is not unique")),
        );
    }
    match reply.failure() {
        Some(error) => Err(error),
        None => Ok(()),
    }
}

/// What a row is worth that says which layer and canvas it belongs to.
pub open spec fn owned<T>(
    reply: sql::ReplyModel,
    owner: Seq<SqlModel>,
    table: Seq<char>,
    what: Seq<char>,
    id: i64,
    layer_id: i64,
    canvas_id: i64,
    value: Result<T, Failure>,
) -> Result<T, Failure> {
    match (sql::integer_at(owner, 0), sql::integer_at(owner, 1)) {
        (Ok(layer), Ok(canvas)) => match value {
            Err(failure) => Err(failure),
            Ok(value) => match lone_row(reply, table, id) {
                Err(failure) => Err(failure),
                Ok(()) => if layer != layer_id || canvas != canvas_id {
                    Err(
                        Failure::InvalidRuler {
                            reason: foreign_complaint(what, id, layer, canvas),
                        },
                    )
                } else {
                    Ok(value)
                },
            },
        },
        _ => Err(Failure::Sqlite),
    }
}

/// What is said of a row of another layer or canvas.
pub open spec fn foreign_complaint(what: Seq<char>, id: i64, layer: i64, canvas: i64) -> Seq<char> {
    what + " "@ + message::decimal_signed(id as int) + " belongs to layer "@ + message::decimal_signed(layer as int) + ", canvas "@ + message::decimal_signed(canvas as int)
}

fn foreign_row(what: &str, id: i64, layer: i64, canvas: i64) -> (error: Error)
    ensures
        error@ == (Failure::InvalidRuler {
            reason: foreign_complaint(what@, id, layer, canvas),
        }),
{
    ruler_error(
        Message::new(what).text(" ").integer(id).text(" belongs to layer ").integer(
            layer,
        ).text(", canvas ").integer(canvas),
    )
}

/// Whether the vector object that a layer names as its ruler belongs to it.
pub open spec fn vector_ruler_of(
    reply: sql::ReplyModel,
    object_id: i64,
    layer_id: i64,
    canvas_id: i64,
) -> Result<(), Failure> {
    match sql::first_row(reply) {
        Err(failure) => Err(failure),
        Ok(None) => Err(
            Failure::InvalidRuler {
                reason: "RulerVectorIndex references missing VectorObjectList row "@
                    + message::decimal_signed(object_id as int),
            },
        ),
        Ok(Some(row)) => owned(
            reply,
            row,
            "VectorObjectList"@,
            "vector ruler"@,
            object_id,
            layer_id,
            canvas_id,
            Ok(()),
        ),
    }
}

/// Checks that the vector object that a layer names as its ruler belongs to it.
pub fn check_vector_ruler(reply: &Reply, object_id: i64, layer_id: i64, canvas_id: i64) -> (result:
    Result<(), Error>)
    ensures
        error::plain(result) == vector_ruler_of(reply@, object_id, layer_id, canvas_id),
{
    let row = match reply.first_row()? {
        Some(row) => row,
        None => {
            return Err(
                ruler_error(
                    Message::new(
                        "RulerVectorIndex references missing VectorObjectList row ",
                    ).integer(object_id),
                ),
            );
        },
    };
    let layer: i64 = row.integer(0)?;
    let canvas: i64 = row.integer(1)?;
    require_lone_row(reply, "VectorObjectList", object_id)?;
    if layer != layer_id || canvas != canvas_id {
        return Err(foreign_row("vector ruler", object_id, layer, canvas));
    }
    Ok(())
}

/// The references in nine columns from the third on.
pub open spec fn first_rulers_of(row: Seq<SqlModel>, at: int) -> Result<Seq<Option<i64>>, Failure>
    decreases at,
{
    if at <= 0 {
        Ok(Seq::empty())
    } else {
        match first_rulers_of(row, at - 1) {
            Err(failure) => Err(failure),
            Ok(before) => match sql::optional_integer_at(row, at + 1) {
                Err(failure) => Err(failure),
                Ok(value) => match positive_reference(value, first_column(at - 1)) {
                    Err(failure) => Err(failure),
                    Ok(first) => Ok(before.push(first)),
                },
            },
        }
    }
}

/// The column of a manager row that names the first ruler of a kind.
pub open spec fn first_column(index: int) -> Seq<char> {
    if index == 0 {
        "FirstParallel"@
    } else if index == 1 {
        "FirstCurveParallel"@
    } else if index == 2 {
        "FirstMultiCurve"@
    } else if index == 3 {
        "FirstEmit"@
    } else if index == 4 {
        "FirstCurveEmit"@
    } else if index == 5 {
        "FirstConcentricCircle"@
    } else if index == 6 {
        "FirstGuide"@
    } else if index == 7 {
        "FirstPerspective"@
    } else {
        "FirstSymmetry"@
    }
}

fn manager_column(index: usize) -> (name: &'static str)
    ensures
        name@ == first_column(index as int),
{
    match index {
        0 => "FirstParallel",
        1 => "FirstCurveParallel",
        2 => "FirstMultiCurve",
        3 => "FirstEmit",
        4 => "FirstCurveEmit",
        5 => "FirstConcentricCircle",
        6 => "FirstGuide",
        7 => "FirstPerspective",
        _ => "FirstSymmetry",
    }
}

/// The first ruler of each kind that a manager row names.
pub open spec fn manager_of(
    reply: sql::ReplyModel,
    manager_id: i64,
    layer_id: i64,
    canvas_id: i64,
) -> Result<Seq<Option<i64>>, Failure> {
    match sql::first_row(reply) {
        Err(failure) => Err(failure),
        Ok(None) => Err(
            Failure::InvalidRuler {
                reason: "SpecialRulerManager row "@ + message::decimal_signed(manager_id as int)
                    + " does not exist"@,
            },
        ),
        Ok(Some(row)) => owned(
            reply,
            row,
            "SpecialRulerManager"@,
            "ruler manager"@,
            manager_id,
            layer_id,
            canvas_id,
            first_rulers_of(row, 9),
        ),
    }
}

proof fn first_rulers_fail_early(row: Seq<SqlModel>, at: int, later: int)
    requires
        at <= later,
        first_rulers_of(row, at) is Err,
    ensures
        first_rulers_of(row, later) == first_rulers_of(row, at),
    decreases later - at,
{
    if at < later {
        first_rulers_fail_early(row, at, later - 1);
    }
}

/// The first ruler of each kind that a manager row names.
pub fn manager_from_reply(reply: &Reply, manager_id: i64, layer_id: i64, canvas_id: i64) -> (first:
    Result<Vec<Option<i64>>, Error>)
    ensures
        error::outcome(first) == manager_of(reply@, manager_id, layer_id, canvas_id),
{
    let row = match reply.first_row()? {
        Some(row) => row,
        None => {
            return Err(
                ruler_error(
                    Message::new("SpecialRulerManager row ").integer(manager_id).text(
                        " does not exist",
                    ),
                ),
            );
        },
    };
    let layer: i64 = row.integer(0)?;
    let canvas: i64 = row.integer(1)?;
    let mut first: Vec<Option<i64>> = Vec::new();
    while first.len() < 9
        invariant
            first@.len() <= 9,
            first_rulers_of(row@, first@.len() as int) == Ok::<Seq<Option<i64>>, Failure>(first@),
            sql::first_row(reply@) == Ok::<Option<Seq<SqlModel>>, Failure>(Some(row@)),
            sql::integer_at(row@, 0) is Ok,
            sql::integer_at(row@, 1) is Ok,
        decreases 9 - first@.len(),
    {
        let ghost step: int = first@.len() + 1int;
        let value = match row.optional_integer(first.len() + 2) {
            Ok(value) => value,
            Err(error) => {
                proof {
                    first_rulers_fail_early(row@, step, 9);
                }
                return Err(error);
            },
        };
        match optional_positive(value, manager_column(first.len())) {
            Ok(id) => first.push(id),
            Err(error) => {
                proof {
                    first_rulers_fail_early(row@, step, 9);
                }
                return Err(error);
            },
        }
    }
    require_lone_row(reply, "SpecialRulerManager", manager_id)?;
    if layer != layer_id || canvas != canvas_id {
        return Err(foreign_row("ruler manager", manager_id, layer, canvas));
    }
    Ok(first)
}

/// The row after one row of a linked list.
pub open spec fn next_row_of(
    reply: sql::ReplyModel,
    table: Seq<char>,
    id: i64,
    layer_id: i64,
    canvas_id: i64,
) -> Result<Option<i64>, Failure> {
    match sql::first_row(reply) {
        Err(failure) => Err(failure),
        Ok(None) => Err(
            Failure::InvalidRuler {
                reason: table + " row "@ + message::decimal_signed(id as int) + " does not exist"@,
            },
        ),
        Ok(Some(row)) => owned(
            reply,
            row,
            table,
            table + " row"@,
            id,
            layer_id,
            canvas_id,
            match sql::optional_integer_at(row, 2) {
                Err(failure) => Err(failure),
                Ok(value) => positive_reference(value, "NextIndex"@),
            },
        ),
    }
}

/// The row after one row of a linked list.
pub fn next_row_from_reply(reply: &Reply, table: &str, id: i64, layer_id: i64, canvas_id: i64) -> (
next: Result<Option<i64>, Error>)
    ensures
        error::plain(next) == next_row_of(reply@, table@, id, layer_id, canvas_id),
{
    let row = match reply.first_row()? {
        Some(row) => row,
        None => {
            return Err(
                ruler_error(Message::new(table).text(" row ").integer(id).text(" does not exist")),
            );
        },
    };
    let layer: i64 = row.integer(0)?;
    let canvas: i64 = row.integer(1)?;
    let value = row.optional_integer(2)?;
    let next = optional_positive(value, "NextIndex")?;
    require_lone_row(reply, table, id)?;
    if layer != layer_id || canvas != canvas_id {
        let what = Message::new(table).text(" row").build();
        return Err(foreign_row(what.as_str(), id, layer, canvas));
    }
    Ok(next)
}

/// A linked list that was followed, if all rows of its layer are on it.
pub open spec fn counted_chain(
    reply: sql::ReplyModel,
    table: Seq<char>,
    first_id: i64,
    layer_id: i64,
    ids: Seq<i64>,
) -> Result<Seq<i64>, Failure> {
    match sql::only_row(reply) {
        Err(failure) => Err(failure),
        Ok(row) => match sql::integer_at(row, 0) {
            Err(failure) => Err(failure),
            Ok(count) => if count < 0 {
                Err(Failure::InvalidRuler { reason: "negative ruler row count"@ })
            } else if count != ids.len() {
                Err(
                    Failure::InvalidRuler {
                        reason: table + " has "@ + message::decimal(
                            if count > ids.len() {
                                (count - ids.len()) as nat
                            } else {
                                0
                            },
                        ) + " rows unreachable from "@ + message::decimal_signed(first_id as int) + " for layer "@
                            + message::decimal_signed(layer_id as int),
                    },
                )
            } else {
                Ok(ids)
            },
        },
    }
}

/// Checks that all rows of a layer are on a linked list that was followed.
pub fn check_chain_count(
    reply: &Reply,
    table: &str,
    first_id: i64,
    layer_id: i64,
    ids: Vec<i64>,
) -> (chain: Result<Vec<i64>, Error>)
    ensures
        error::outcome(chain) == counted_chain(reply@, table@, first_id, layer_id, ids@),
{
    let count: i64 = reply.only_row()?.integer(0)?;
    if count < 0 {
        return Err(ruler_error(Message::new("negative ruler row count")));
    }
    if count as u64 != ids.len() as u64 {
        return Err(
            ruler_error(
                Message::new(table).text(" has ").number(
                    (count as u64).saturating_sub(ids.len() as u64),
                ).text(" rows unreachable from ").integer(first_id).text(" for layer ").integer(
                    layer_id,
                ),
            ),
        );
    }
    Ok(ids)
}

/// The question that asks for one row of a linked list.
pub open spec fn chain_question(table: Seq<char>) -> Seq<char> {
    "SELECT LayerId, CanvasId, NextIndex FROM "@ + table + " WHERE MainId = ?1"@
}

/// The question that counts the rows of a layer.
pub open spec fn chain_count_question(table: Seq<char>) -> Seq<char> {
    "SELECT count(*) FROM "@ + table + " WHERE LayerId = ?1"@
}

/// The rows of one layer and canvas that a linked list may hold.
pub struct ChainScope {
    pub table: Seq<char>,
    pub layer_id: i64,
    pub canvas_id: i64,
    pub limit: u64,
}

/// Whether following a linked list from `current` on, after the rows `ids`, can have
/// this outcome.
pub open spec fn chain_followed(
    connection: Connection,
    scope: ChainScope,
    current: Option<i64>,
    ids: Seq<i64>,
    outcome: Result<Seq<i64>, Failure>,
) -> bool
    decreases scope.limit - ids.len(),
{
    match current {
        None => exists|reply: sql::ReplyModel|
            #[trigger] sql::may_answer(
                connection,
                chain_count_question(scope.table),
                seq![sql::ParameterModel::Integer(scope.layer_id)],
                reply,
            ) && outcome == counted_chain(reply, scope.table, ids[0], scope.layer_id, ids),
        Some(id) => if ids.contains(id) {
            outcome == Err::<Seq<i64>, Failure>(
                Failure::InvalidRuler {
                    reason: scope.table + " linked list contains a cycle at "@
                        + message::decimal_signed(id as int),
                },
            )
        } else if ids.len() >= scope.limit {
            outcome == Err::<Seq<i64>, Failure>(
                Failure::LimitExceeded {
                    resource: "rulers"@,
                    value: error::one_more(ids.len()),
                    limit: scope.limit,
                },
            )
        } else {
            exists|reply: sql::ReplyModel|
                #[trigger] sql::may_answer(
                    connection,
                    chain_question(scope.table),
                    seq![sql::ParameterModel::Integer(id)],
                    reply,
                ) && match next_row_of(reply, scope.table, id, scope.layer_id, scope.canvas_id) {
                    Err(failure) => outcome == Err::<Seq<i64>, Failure>(failure),
                    Ok(next) => chain_followed(connection, scope, next, ids.push(id), outcome),
                }
        },
    }
}

/// The columns that a linked list needs.
pub open spec fn chain_columns() -> Seq<Seq<char>> {
    seq!["MainId"@, "LayerId"@, "CanvasId"@, "NextIndex"@]
}

/// Whether reading a linked list can have this outcome.
pub open spec fn chain_read(
    connection: Connection,
    schema: Seq<database::TableModel>,
    scope: ChainScope,
    first: i64,
    outcome: Result<Seq<i64>, Failure>,
) -> bool {
    match database::first_missing(schema, scope.table, chain_columns(), 0) {
        Some(failure) => outcome == Err::<Seq<i64>, Failure>(failure),
        None => chain_followed(connection, scope, Some(first), Seq::empty(), outcome),
    }
}

fn has_id(ids: &[i64], id: i64) -> (found: bool)
    ensures
        found == ids@.contains(id),
{
    let mut at: usize = 0;
    while at < ids.len()
        invariant
            at <= ids@.len(),
            forall|i: int| 0 <= i < at ==> ids@[i] != id,
        decreases ids@.len() - at,
    {
        if ids[at] == id {
            assert(ids@[at as int] == id);
            return true;
        }
        at = at + 1;
    }
    false
}

fn read_chain_ids(
    database: &Database,
    table: &str,
    first_id: i64,
    layer_id: i64,
    canvas_id: i64,
    limits: Limits,
) -> (ids: Result<Vec<i64>, Error>)
    ensures
        chain_read(
            database.connection,
            database.schema@,
            ChainScope { table: table@, layer_id, canvas_id, limit: limits.max_ruler_items },
            first_id,
            error::outcome(ids),
        ),
{
    let columns: [&str; 4] = ["MainId", "LayerId", "CanvasId", "NextIndex"];
    assert(database::names(columns@) =~= chain_columns());
    if let Some(error) = database.schema.first_missing_column(table, &columns) {
        return Err(error);
    }
    let ghost scope = ChainScope {
        table: table@,
        layer_id,
        canvas_id,
        limit: limits.max_ruler_items,
    };
    let question = Message::new("SELECT LayerId, CanvasId, NextIndex FROM ").text(table).text(
        " WHERE MainId = ?1",
    ).build();
    let mut ids: Vec<i64> = Vec::new();
    let mut current: Option<i64> = Some(first_id);
    loop
        invariant
            scope == (ChainScope {
                table: table@,
                layer_id,
                canvas_id,
                limit: limits.max_ruler_items,
            }),
            question@ == chain_question(table@),
            ids@.len() <= scope.limit,
            if ids@.len() > 0 {
                ids@[0] == first_id
            } else {
                current == Some(first_id)
            },
            database::first_missing(database.schema@, table@, chain_columns(), 0) is None,
            forall|outcome: Result<Seq<i64>, Failure>| #[trigger]
                chain_followed(database.connection, scope, current, ids@, outcome) ==> chain_followed(
                    database.connection,
                    scope,
                    Some(first_id),
                    Seq::empty(),
                    outcome,
                ),
        ensures
            current is None,
            ids@.len() > 0,
            ids@[0] == first_id,
        decreases scope.limit - ids@.len(),
    {
        let id: i64 = match current {
            Some(id) => id,
            None => break ,
        };
        let ghost before = ids@;
        if has_id(ids.as_slice(), id) {
            let error = ruler_error(
                Message::new(table).text(" linked list contains a cycle at ").integer(id),
            );
            assert(chain_followed(database.connection, scope, current, before, Err(error@)));
            return Err(error);
        }
        let length: u64 = ids.len() as u64;
        if length >= limits.max_ruler_items() {
            let error = Error::limit("rulers", length.saturating_add(1), limits.max_ruler_items());
            assert(chain_followed(database.connection, scope, current, before, Err(error@)));
            return Err(error);
        }
        let reply = query_by_id(&database.connection, question.as_str(), id);
        assert(sql::may_answer(
            database.connection,
            chain_question(scope.table),
            seq![sql::ParameterModel::Integer(id)],
            reply@,
        ));
        let next = match next_row_from_reply(&reply, table, id, layer_id, canvas_id) {
            Ok(next) => next,
            Err(error) => {
                assert(chain_followed(database.connection, scope, current, before, Err(error@)));
                return Err(error);
            },
        };
        ids.push(id);
        proof {
            assert forall|outcome: Result<Seq<i64>, Failure>| #[trigger]
                chain_followed(database.connection, scope, next, ids@, outcome) implies chain_followed(
                database.connection,
                scope,
                Some(first_id),
                Seq::empty(),
                outcome,
            ) by {
                assert(ids@ =~= before.push(id));
                assert(chain_followed(database.connection, scope, current, before, outcome));
            }
        }
        current = next;
    }
    let question = Message::new("SELECT count(*) FROM ").text(table).text(
        " WHERE LayerId = ?1",
    ).build();
    let reply = query_by_id(&database.connection, question.as_str(), layer_id);
    assert(sql::may_answer(
        database.connection,
        chain_count_question(scope.table),
        seq![sql::ParameterModel::Integer(scope.layer_id)],
        reply@,
    ));
    let ghost before = ids@;
    let chain = check_chain_count(&reply, table, first_id, layer_id, ids);
    assert(chain_followed(database.connection, scope, None, before, error::outcome(chain)));
    chain
}

/// A linked list that was read has no row twice, starts at its first row, and is no
/// longer than allowed.
pub proof fn read_chain_is_sound(
    connection: Connection,
    scope: ChainScope,
    current: Option<i64>,
    ids: Seq<i64>,
    outcome: Result<Seq<i64>, Failure>,
)
    requires
        ids.no_duplicates(),
        ids.len() <= scope.limit,
        chain_followed(connection, scope, current, ids, outcome),
    ensures
        outcome matches Ok(list) ==> {
            &&& list.no_duplicates()
            &&& list.len() <= scope.limit
            &&& ids.is_prefix_of(list)
            &&& current matches Some(id) ==> list.len() > ids.len() && list[ids.len() as int] == id
        },
    decreases scope.limit - ids.len(),
{
    if let Some(id) = current {
        if !ids.contains(id) && ids.len() < scope.limit {
            let reply = choose|reply: sql::ReplyModel|
                #[trigger] sql::may_answer(
                    connection,
                    chain_question(scope.table),
                    seq![sql::ParameterModel::Integer(id)],
                    reply,
                ) && match next_row_of(reply, scope.table, id, scope.layer_id, scope.canvas_id) {
                    Err(failure) => outcome == Err::<Seq<i64>, Failure>(failure),
                    Ok(next) => chain_followed(connection, scope, next, ids.push(id), outcome),
                };
            if let Ok(next) = next_row_of(reply, scope.table, id, scope.layer_id, scope.canvas_id) {
                read_chain_is_sound(connection, scope, next, ids.push(id), outcome);
                if let Ok(list) = outcome {
                    assert(ids.push(id).is_prefix_of(list));
                    assert(list[ids.len() as int] == ids.push(id)[ids.len() as int]);
                    assert(ids.is_prefix_of(list)) by {
                        assert(ids =~= list.subrange(0, ids.len() as int)) by {
                            assert(ids.push(id) == list.subrange(0, ids.len() + 1int));
                            assert forall|i: int| 0 <= i < ids.len() implies ids[i] == list[i] by {
                                assert(ids.push(id)[i] == list.subrange(0, ids.len() + 1int)[i]);
                            }
                        }
                    }
                }
            }
        }
    }
}

/// The table that holds the rulers of a kind.
pub open spec fn kind_table(kind: RulerKind) -> Seq<char> {
    match kind {
        RulerKind::Parallel => "RulerParallel"@,
        RulerKind::CurveParallel => "RulerCurveParallel"@,
        RulerKind::MultiCurve => "RulerMultiCurve"@,
        RulerKind::Emit => "RulerEmit"@,
        RulerKind::CurveEmit => "RulerCurveEmit"@,
        RulerKind::ConcentricCircle => "RulerConcentricCircle"@,
        RulerKind::Guide => "RulerGuide"@,
        RulerKind::Perspective => "RulerPerspective"@,
        RulerKind::Symmetry => "RulerSymmetry"@,
    }
}

/// The columns that a ruler of a kind is read from.
pub open spec fn kind_columns(kind: RulerKind) -> Seq<Seq<char>> {
    match kind {
        RulerKind::Parallel => seq!["Snap"@, "Rotate"@, "CenterX"@, "CenterY"@],
        RulerKind::CurveParallel => seq!["Snap"@, "CurveKind"@, "PointData"@],
        RulerKind::MultiCurve => seq!["Snap"@, "CurveKind"@, "OffsetAngle"@, "CenterX"@, "CenterY"@, "PointData"@],
        RulerKind::Emit => seq!["Snap"@, "CenterX"@, "CenterY"@],
        RulerKind::CurveEmit => seq!["Snap"@, "CurveKind"@, "PointData"@],
        RulerKind::ConcentricCircle => seq!["Snap"@, "RadiusX"@, "RadiusY"@, "Rotate"@, "CenterX"@, "CenterY"@],
        RulerKind::Guide => seq!["Snap"@, "IsHorz"@, "CenterX"@, "CenterY"@],
        RulerKind::Perspective => seq!["Flag"@, "PerspectiveType"@, "EyeLevelHandleX"@, "EyeLevelHandleY"@, "MoveHandleX"@, "MoveHandleY"@, "GridOriginX"@, "GridOriginY"@, "GridFlag"@, "GridSize"@, "CameraNear"@, "FirstVanishIndex"@],
        RulerKind::Symmetry => seq!["Snap"@, "LineNumber"@, "LineSymmetry"@, "Rotate"@, "CenterX"@, "CenterY"@],
    }
}

/// The question that asks for a ruler of a kind.
pub open spec fn kind_question(kind: RulerKind) -> Seq<char> {
    match kind {
        RulerKind::Parallel => columns::asked(
            kind_columns(kind),
            " FROM RulerParallel WHERE MainId = ?1 LIMIT 1"@,
        ),
        RulerKind::CurveParallel => columns::asked(
            kind_columns(kind),
            " FROM RulerCurveParallel WHERE MainId = ?1 LIMIT 1"@,
        ),
        RulerKind::MultiCurve => columns::asked(
            kind_columns(kind),
            " FROM RulerMultiCurve WHERE MainId = ?1 LIMIT 1"@,
        ),
        RulerKind::Emit => columns::asked(
            kind_columns(kind),
            " FROM RulerEmit WHERE MainId = ?1 LIMIT 1"@,
        ),
        RulerKind::CurveEmit => columns::asked(
            kind_columns(kind),
            " FROM RulerCurveEmit WHERE MainId = ?1 LIMIT 1"@,
        ),
        RulerKind::ConcentricCircle => columns::asked(
            kind_columns(kind),
            " FROM RulerConcentricCircle WHERE MainId = ?1 LIMIT 1"@,
        ),
        RulerKind::Guide => columns::asked(
            kind_columns(kind),
            " FROM RulerGuide WHERE MainId = ?1 LIMIT 1"@,
        ),
        RulerKind::Perspective => columns::asked(
            kind_columns(kind),
            " FROM RulerPerspective WHERE MainId = ?1 LIMIT 1"@,
        ),
        RulerKind::Symmetry => columns::asked(
            kind_columns(kind),
            " FROM RulerSymmetry WHERE MainId = ?1 LIMIT 1"@,
        ),
    }
}

/// The kinds in the order in which a manager row names them.
pub open spec fn kind_at(index: int) -> RulerKind {
    if index == 0 {
        RulerKind::Parallel
    } else if index == 1 {
        RulerKind::CurveParallel
    } else if index == 2 {
        RulerKind::MultiCurve
    } else if index == 3 {
        RulerKind::Emit
    } else if index == 4 {
        RulerKind::CurveEmit
    } else if index == 5 {
        RulerKind::ConcentricCircle
    } else if index == 6 {
        RulerKind::Guide
    } else if index == 7 {
        RulerKind::Perspective
    } else {
        RulerKind::Symmetry
    }
}

fn table_name(kind: RulerKind) -> (name: &'static str)
    ensures
        name@ == kind_table(kind),
{
    match kind {
        RulerKind::Parallel => "RulerParallel",
        RulerKind::CurveParallel => "RulerCurveParallel",
        RulerKind::MultiCurve => "RulerMultiCurve",
        RulerKind::Emit => "RulerEmit",
        RulerKind::CurveEmit => "RulerCurveEmit",
        RulerKind::ConcentricCircle => "RulerConcentricCircle",
        RulerKind::Guide => "RulerGuide",
        RulerKind::Perspective => "RulerPerspective",
        RulerKind::Symmetry => "RulerSymmetry",
    }
}

fn numbered_kind(index: usize) -> (kind: RulerKind)
    ensures
        kind == kind_at(index as int),
{
    match index {
        0 => RulerKind::Parallel,
        1 => RulerKind::CurveParallel,
        2 => RulerKind::MultiCurve,
        3 => RulerKind::Emit,
        4 => RulerKind::CurveEmit,
        5 => RulerKind::ConcentricCircle,
        6 => RulerKind::Guide,
        7 => RulerKind::Perspective,
        _ => RulerKind::Symmetry,
    }
}

/// Whether asking for one row by its ID can have this outcome.
pub open spec fn row_read(
    connection: Connection,
    schema: Seq<database::TableModel>,
    table: Seq<char>,
    columns: Seq<Seq<char>>,
    question: Seq<char>,
    id: i64,
    outcome: Result<Seq<SqlModel>, Failure>,
) -> bool {
    match database::first_missing(schema, table, columns, 0) {
        Some(failure) => outcome == Err::<Seq<SqlModel>, Failure>(failure),
        None => exists|reply: sql::ReplyModel|
            #[trigger] sql::may_answer(
                connection,
                question,
                seq![sql::ParameterModel::Integer(id)],
                reply,
            )
                && outcome == sql::only_row(reply),
    }
}

fn query_values(
    database: &Database,
    table: &str,
    columns: &[&str],
    question: &str,
    id: i64,
) -> (row: Result<SqlRow, Error>)
    ensures
        row_read(
            database.connection,
            database.schema@,
            table@,
            database::names(columns@),
            question@,
            id,
            error::outcome(row),
        ),
{
    if let Some(error) = database.schema.first_missing_column(table, columns) {
        return Err(error);
    }
    let mut reply = query_by_id(&database.connection, question, id);
    assert(
        sql::may_answer(
            database.connection,
            question@,
            seq![sql::ParameterModel::Integer(id)],
            reply@,
        )
    );
    match reply.only_row() {
        Ok(_) => {},
        Err(error) => return Err(error),
    }
    Ok(reply.rows.remove(0))
}

fn query_kind(database: &Database, kind: RulerKind, id: i64) -> (row: Result<SqlRow, Error>)
    ensures
        row_read(
            database.connection,
            database.schema@,
            kind_table(kind),
            kind_columns(kind),
            kind_question(kind),
            id,
            error::outcome(row),
        ),
{
    match kind {
        RulerKind::Parallel => {
            let columns: [&str; 4] = ["Snap", "Rotate", "CenterX", "CenterY"];
            assert(database::names(columns@) =~= kind_columns(kind));
            query_values(
                database,
                "RulerParallel",
                &columns,
                columns::ask(&columns, " FROM RulerParallel WHERE MainId = ?1 LIMIT 1").as_str(),
                id,
            )
        },
        RulerKind::CurveParallel => {
            let columns: [&str; 3] = ["Snap", "CurveKind", "PointData"];
            assert(database::names(columns@) =~= kind_columns(kind));
            query_values(
                database,
                "RulerCurveParallel",
                &columns,
                columns::ask(
                    &columns,
                    " FROM RulerCurveParallel WHERE MainId = ?1 LIMIT 1",
                ).as_str(),
                id,
            )
        },
        RulerKind::MultiCurve => {
            let columns: [&str; 6] = ["Snap", "CurveKind", "OffsetAngle", "CenterX", "CenterY", "PointData"];
            assert(database::names(columns@) =~= kind_columns(kind));
            query_values(
                database,
                "RulerMultiCurve",
                &columns,
                columns::ask(&columns, " FROM RulerMultiCurve WHERE MainId = ?1 LIMIT 1").as_str(),
                id,
            )
        },
        RulerKind::Emit => {
            let columns: [&str; 3] = ["Snap", "CenterX", "CenterY"];
            assert(database::names(columns@) =~= kind_columns(kind));
            query_values(
                database,
                "RulerEmit",
                &columns,
                columns::ask(&columns, " FROM RulerEmit WHERE MainId = ?1 LIMIT 1").as_str(),
                id,
            )
        },
        RulerKind::CurveEmit => {
            let columns: [&str; 3] = ["Snap", "CurveKind", "PointData"];
            assert(database::names(columns@) =~= kind_columns(kind));
            query_values(
                database,
                "RulerCurveEmit",
                &columns,
                columns::ask(&columns, " FROM RulerCurveEmit WHERE MainId = ?1 LIMIT 1").as_str(),
                id,
            )
        },
        RulerKind::ConcentricCircle => {
            let columns: [&str; 6] = ["Snap", "RadiusX", "RadiusY", "Rotate", "CenterX", "CenterY"];
            assert(database::names(columns@) =~= kind_columns(kind));
            query_values(
                database,
                "RulerConcentricCircle",
                &columns,
                columns::ask(
                    &columns,
                    " FROM RulerConcentricCircle WHERE MainId = ?1 LIMIT 1",
                ).as_str(),
                id,
            )
        },
        RulerKind::Guide => {
            let columns: [&str; 4] = ["Snap", "IsHorz", "CenterX", "CenterY"];
            assert(database::names(columns@) =~= kind_columns(kind));
            query_values(
                database,
                "RulerGuide",
                &columns,
                columns::ask(&columns, " FROM RulerGuide WHERE MainId = ?1 LIMIT 1").as_str(),
                id,
            )
        },
        RulerKind::Perspective => {
            let columns: [&str; 12] = ["Flag", "PerspectiveType", "EyeLevelHandleX", "EyeLevelHandleY", "MoveHandleX", "MoveHandleY", "GridOriginX", "GridOriginY", "GridFlag", "GridSize", "CameraNear", "FirstVanishIndex"];
            assert(database::names(columns@) =~= kind_columns(kind));
            query_values(
                database,
                "RulerPerspective",
                &columns,
                columns::ask(&columns, " FROM RulerPerspective WHERE MainId = ?1 LIMIT 1").as_str(),
                id,
            )
        },
        RulerKind::Symmetry => {
            let columns: [&str; 6] = ["Snap", "LineNumber", "LineSymmetry", "Rotate", "CenterX", "CenterY"];
            assert(database::names(columns@) =~= kind_columns(kind));
            query_values(
                database,
                "RulerSymmetry",
                &columns,
                columns::ask(&columns, " FROM RulerSymmetry WHERE MainId = ?1 LIMIT 1").as_str(),
                id,
            )
        },
    }
}

/// The curve in a column.
pub open spec fn curve_at(row: Seq<SqlModel>, column: int, limits: Limits) -> Result<
    CurveModel,
    Failure,
> {
    match sql::bytes_at(row, column) {
        Err(failure) => Err(failure),
        Ok(data) => curve_data_of(data, limits),
    }
}

/// The ruler of a kind that a row describes; a perspective ruler takes more rows.
pub open spec fn ruler_of(kind: RulerKind, id: i64, row: Seq<SqlModel>, limits: Limits) -> Result<
    RulerModel,
    Failure,
> {
    match kind {
        RulerKind::Parallel => match (
            sql::integer_at(row, 0),
            sql::real_at(row, 1),
            point_at(row, 2),
        ) {
            (Ok(snap), Ok(rotation), Ok(center)) => match finite_of(
                rotation,
                "parallel rotation"@,
            ) {
                Ok(rotation) => Ok(RulerModel::Parallel { id, snap, rotation, center }),
                Err(failure) => Err(failure),
            },
            _ => Err(Failure::Sqlite),
        },
        RulerKind::CurveParallel => match (
            sql::integer_at(row, 0),
            sql::optional_integer_at(row, 1),
            sql::bytes_at(row, 2),
        ) {
            (Ok(snap), Ok(curve_kind), Ok(data)) => match curve_data_of(data, limits) {
                Ok(curve) => Ok(RulerModel::CurveParallel { id, snap, curve_kind, curve }),
                Err(failure) => Err(failure),
            },
            _ => Err(Failure::Sqlite),
        },
        RulerKind::MultiCurve => match (
            sql::integer_at(row, 0),
            sql::optional_integer_at(row, 1),
            sql::real_at(row, 2),
            point_at(row, 3),
            sql::bytes_at(row, 5),
        ) {
            (Ok(snap), Ok(curve_kind), Ok(offset_angle), Ok(center), Ok(data)) => match (
                finite_of(offset_angle, "multiple-curve offset angle"@),
                curve_data_of(data, limits),
            ) {
                (Ok(offset_angle), Ok(curve)) => Ok(
                    RulerModel::MultiCurve { id, snap, curve_kind, offset_angle, center, curve },
                ),
                (Err(failure), _) => Err(failure),
                (Ok(_), Err(failure)) => Err(failure),
            },
            _ => Err(Failure::Sqlite),
        },
        RulerKind::Emit => match (sql::integer_at(row, 0), point_at(row, 1)) {
            (Ok(snap), Ok(center)) => Ok(RulerModel::Emit { id, snap, center }),
            _ => Err(Failure::Sqlite),
        },
        RulerKind::CurveEmit => match (
            sql::integer_at(row, 0),
            sql::optional_integer_at(row, 1),
            sql::bytes_at(row, 2),
        ) {
            (Ok(snap), Ok(curve_kind), Ok(data)) => match curve_data_of(data, limits) {
                Ok(curve) => Ok(RulerModel::CurveEmit { id, snap, curve_kind, curve }),
                Err(failure) => Err(failure),
            },
            _ => Err(Failure::Sqlite),
        },
        RulerKind::ConcentricCircle => match (
            sql::integer_at(row, 0),
            point_at(row, 1),
            sql::real_at(row, 3),
            point_at(row, 4),
        ) {
            (Ok(snap), Ok(radius), Ok(rotation), Ok(center)) => match finite_of(
                rotation,
                "concentric-circle rotation"@,
            ) {
                Ok(rotation) => Ok(
                    RulerModel::ConcentricCircle { id, snap, radius, rotation, center },
                ),
                Err(failure) => Err(failure),
            },
            _ => Err(Failure::Sqlite),
        },
        RulerKind::Guide => match (
            sql::integer_at(row, 0),
            sql::integer_at(row, 1),
            point_at(row, 2),
        ) {
            (Ok(snap), Ok(horizontal), Ok(center)) => Ok(
                RulerModel::Guide { id, snap, horizontal, center },
            ),
            _ => Err(Failure::Sqlite),
        },
        RulerKind::Symmetry => match (
            sql::integer_at(row, 0),
            sql::integer_at(row, 1),
            sql::integer_at(row, 2),
            sql::real_at(row, 3),
            point_at(row, 4),
        ) {
            (Ok(snap), Ok(line_count), Ok(line_symmetry), Ok(rotation), Ok(center)) => match finite_of(
                rotation,
                "symmetry rotation"@,
            ) {
                Ok(rotation) => Ok(
                    RulerModel::Symmetry {
                        id,
                        snap,
                        line_count,
                        line_symmetry,
                        rotation,
                        center,
                    },
                ),
                Err(failure) => Err(failure),
            },
            _ => Err(Failure::Sqlite),
        },
        RulerKind::Perspective => match perspective_of(id, row) {
            Ok(perspective) => perspective_ruler(id, perspective, Seq::empty()),
            Err(failure) => Err(failure),
        },
    }
}

/// The ruler of a kind that a row describes, without the vanishing points of a
/// perspective ruler.
pub fn ruler_from_row(kind: RulerKind, id: i64, row: &SqlRow, limits: Limits) -> (ruler: Result<
    Ruler,
    Error,
>)
    ensures
        error::outcome(ruler) == ruler_of(kind, id, row@, limits),
{
    match kind {
        RulerKind::Parallel => {
            let snap: i64 = row.integer(0)?;
            let rotation = row.number(1)?;
            let center = read_point(row, 2)?;
            let rotation = finite(rotation, "parallel rotation")?;
            Ok(Ruler::Parallel { id, snap, rotation, center })
        },
        RulerKind::CurveParallel => {
            let snap: i64 = row.integer(0)?;
            let curve_kind = row.optional_integer(1)?;
            let data = row.bytes(2)?;
            let curve = parse_curve_data(data.as_slice(), limits)?;
            Ok(Ruler::CurveParallel { id, snap, curve_kind, curve })
        },
        RulerKind::MultiCurve => {
            let snap: i64 = row.integer(0)?;
            let curve_kind = row.optional_integer(1)?;
            let offset_angle = row.number(2)?;
            let center = read_point(row, 3)?;
            let data = row.bytes(5)?;
            let offset_angle = finite(offset_angle, "multiple-curve offset angle")?;
            let curve = parse_curve_data(data.as_slice(), limits)?;
            Ok(Ruler::MultiCurve { id, snap, curve_kind, offset_angle, center, curve })
        },
        RulerKind::Emit => {
            let snap: i64 = row.integer(0)?;
            let center = read_point(row, 1)?;
            Ok(Ruler::Emit { id, snap, center })
        },
        RulerKind::CurveEmit => {
            let snap: i64 = row.integer(0)?;
            let curve_kind = row.optional_integer(1)?;
            let data = row.bytes(2)?;
            let curve = parse_curve_data(data.as_slice(), limits)?;
            Ok(Ruler::CurveEmit { id, snap, curve_kind, curve })
        },
        RulerKind::ConcentricCircle => {
            let snap: i64 = row.integer(0)?;
            let radius = read_point(row, 1)?;
            let rotation = row.number(3)?;
            let center = read_point(row, 4)?;
            let rotation = finite(rotation, "concentric-circle rotation")?;
            Ok(Ruler::ConcentricCircle { id, snap, radius, rotation, center })
        },
        RulerKind::Guide => {
            let snap: i64 = row.integer(0)?;
            let horizontal: i64 = row.integer(1)?;
            let center = read_point(row, 2)?;
            Ok(Ruler::Guide { id, snap, horizontal, center })
        },
        RulerKind::Symmetry => {
            let snap: i64 = row.integer(0)?;
            let line_count: i64 = row.integer(1)?;
            let line_symmetry: i64 = row.integer(2)?;
            let rotation = row.number(3)?;
            let center = read_point(row, 4)?;
            let rotation = finite(rotation, "symmetry rotation")?;
            Ok(Ruler::Symmetry { id, snap, line_count, line_symmetry, rotation, center })
        },
        RulerKind::Perspective => {
            let perspective = perspective_from_row(row, id)?;
            let none: Vec<RulerVanishPoint> = Vec::new();
            assert(error::views(none@) =~= Seq::<VanishPointModel>::empty());
            perspective.into_ruler(id, none)
        },
    }
}

/// What a row of `RulerPerspective` says.
#[derive(Clone, Copy, Debug, PartialEq)]
pub struct PerspectiveRow {
    pub flags: i64,
    pub perspective_type: i64,
    pub eye_level_handle: RulerPoint,
    pub move_handle: RulerPoint,
    pub grid_origin: RulerPoint,
    pub grid_flags: i64,
    pub grid_size: Double,
    pub camera_near: Double,
    pub first_vanish: i64,
}

/// The perspective that a row describes, which has to have a vanishing point.
pub open spec fn perspective_of(id: i64, row: Seq<SqlModel>) -> Result<PerspectiveRow, Failure> {
    match (
        sql::integer_at(row, 0),
        sql::integer_at(row, 1),
        point_at(row, 2),
        point_at(row, 4),
        point_at(row, 6),
        sql::integer_at(row, 8),
        sql::real_at(row, 9),
        sql::real_at(row, 10),
        sql::optional_integer_at(row, 11),
    ) {
        (
            Ok(flags),
            Ok(perspective_type),
            Ok(eye_level_handle),
            Ok(move_handle),
            Ok(grid_origin),
            Ok(grid_flags),
            Ok(grid_size),
            Ok(camera_near),
            Ok(first),
        ) => match positive_reference(first, "FirstVanishIndex"@) {
            Ok(Some(first_vanish)) => Ok(
                PerspectiveRow {
                    flags,
                    perspective_type,
                    eye_level_handle,
                    move_handle,
                    grid_origin,
                    grid_flags,
                    grid_size,
                    camera_near,
                    first_vanish,
                },
            ),
            Ok(None) => Err(
                Failure::InvalidRuler {
                    reason: "perspective ruler "@ + message::decimal_signed(id as int)
                        + " has no vanishing point"@,
                },
            ),
            Err(failure) => Err(failure),
        },
        _ => Err(Failure::Sqlite),
    }
}

/// The perspective that a row describes, which has to have a vanishing point.
pub fn perspective_from_row(row: &SqlRow, id: i64) -> (perspective: Result<PerspectiveRow, Error>)
    ensures
        error::plain(perspective) == perspective_of(id, row@),
{
    let flags: i64 = row.integer(0)?;
    let perspective_type: i64 = row.integer(1)?;
    let eye_level_handle = read_point(row, 2)?;
    let move_handle = read_point(row, 4)?;
    let grid_origin = read_point(row, 6)?;
    let grid_flags: i64 = row.integer(8)?;
    let grid_size = row.number(9)?;
    let camera_near = row.number(10)?;
    let first = row.optional_integer(11)?;
    let first_vanish: i64 = match optional_positive(first, "FirstVanishIndex")? {
        Some(id) => id,
        None => {
            return Err(
                ruler_error(
                    Message::new("perspective ruler ").integer(id).text(
                        " has no vanishing point",
                    ),
                ),
            );
        },
    };
    Ok(
        PerspectiveRow {
            flags,
            perspective_type,
            eye_level_handle,
            move_handle,
            grid_origin,
            grid_flags,
            grid_size,
            camera_near,
            first_vanish,
        },
    )
}

/// A perspective ruler with its vanishing points.
pub open spec fn perspective_ruler(
    id: i64,
    row: PerspectiveRow,
    vanish_points: Seq<VanishPointModel>,
) -> Result<RulerModel, Failure> {
    match (
        finite_of(row.grid_size, "perspective grid size"@),
        finite_of(row.camera_near, "perspective camera near"@),
    ) {
        (Ok(grid_size), Ok(camera_near)) => Ok(
            RulerModel::Perspective {
                id,
                flags: row.flags,
                perspective_type: row.perspective_type,
                eye_level_handle: row.eye_level_handle,
                move_handle: row.move_handle,
                grid_origin: row.grid_origin,
                grid_flags: row.grid_flags,
                grid_size,
                camera_near,
                vanish_points,
            },
        ),
        (Err(failure), _) => Err(failure),
        (Ok(_), Err(failure)) => Err(failure),
    }
}

impl PerspectiveRow {
    /// Makes a perspective ruler of a row and its vanishing points.
    pub fn into_ruler(self, id: i64, vanish_points: Vec<RulerVanishPoint>) -> (ruler: Result<
        Ruler,
        Error,
    >)
        ensures
            error::outcome(ruler) == perspective_ruler(id, self, error::views(vanish_points@)),
    {
        let grid_size = finite(self.grid_size, "perspective grid size")?;
        let camera_near = finite(self.camera_near, "perspective camera near")?;
        Ok(
            Ruler::Perspective {
                id,
                flags: self.flags,
                perspective_type: self.perspective_type,
                eye_level_handle: self.eye_level_handle,
                move_handle: self.move_handle,
                grid_origin: self.grid_origin,
                grid_flags: self.grid_flags,
                grid_size,
                camera_near,
                vanish_points,
            },
        )
    }
}

/// The vanishing point that a row describes.
pub open spec fn vanish_point_of(id: i64, row: Seq<SqlModel>, limits: Limits) -> Result<
    VanishPointModel,
    Failure,
> {
    match (
        sql::integer_at(row, 0),
        point_at(row, 1),
        sql::real_at(row, 3),
        sql::integer_at(row, 4),
        sql::integer_at(row, 5),
        sql::optional_bytes_at(row, 6),
    ) {
        (Ok(flags), Ok(position), Ok(angle), Ok(count), Ok(size), Ok(data)) => {
            let guide_data = match data {
                Some(data) => data,
                None => Seq::empty(),
            };
            if count < 0 {
                Err(Failure::InvalidRuler { reason: "negative guide count"@ })
            } else if size < 0 {
                Err(Failure::InvalidRuler { reason: "negative guide record size"@ })
            } else if count > limits.max_ruler_items {
                Err(
                    Failure::LimitExceeded {
                        resource: "ruler guides"@,
                        value: count as u64,
                        limit: limits.max_ruler_items,
                    },
                )
            } else if count * size > u64::MAX {
                Err(Failure::InvalidRuler { reason: "guide byte count overflow"@ })
            } else if count * size > limits.max_ruler_data_bytes {
                Err(
                    Failure::LimitExceeded {
                        resource: "ruler data bytes"@,
                        value: (count * size) as u64,
                        limit: limits.max_ruler_data_bytes,
                    },
                )
            } else if guide_data.len() != count * size {
                Err(
                    Failure::InvalidRuler {
                        reason: "vanishing point "@ + message::decimal_signed(id as int) + " has "@
                            + message::decimal(guide_data.len()) + " guide bytes instead of "@
                            + message::decimal((count * size) as nat),
                    },
                )
            } else if !angle.finite() {
                Err(Failure::InvalidRuler { reason: "vanishing-point angle"@ + " is not finite"@ })
            } else {
                Ok(
                    VanishPointModel {
                        id,
                        flags,
                        position,
                        parallel_angle: angle,
                        guide_count: count as u64,
                        guide_record_size: size as u64,
                        guide_data,
                    },
                )
            }
        },
        _ => Err(Failure::Sqlite),
    }
}

/// The vanishing point that a row describes.
pub fn vanish_point_from_row(id: i64, row: &SqlRow, limits: Limits) -> (point: Result<
    RulerVanishPoint,
    Error,
>)
    ensures
        error::outcome(point) == vanish_point_of(id, row@, limits),
{
    let flags: i64 = row.integer(0)?;
    let position = read_point(row, 1)?;
    let angle = row.number(3)?;
    let count: i64 = row.integer(4)?;
    let size: i64 = row.integer(5)?;
    let data = row.optional_bytes(6)?;
    if count < 0 {
        return Err(ruler_error(Message::new("negative guide count")));
    }
    if size < 0 {
        return Err(ruler_error(Message::new("negative guide record size")));
    }
    let guide_count: u64 = count as u64;
    let guide_record_size: u64 = size as u64;
    if guide_count > limits.max_ruler_items() {
        return Err(Error::limit("ruler guides", guide_count, limits.max_ruler_items()));
    }
    let expected: u64 = match guide_count.checked_mul(guide_record_size) {
        Some(expected) => expected,
        None => return Err(ruler_error(Message::new("guide byte count overflow"))),
    };
    if expected > limits.max_ruler_data_bytes() {
        return Err(Error::limit("ruler data bytes", expected, limits.max_ruler_data_bytes()));
    }
    let guide_data: Vec<u8> = match data {
        Some(data) => data,
        None => {
            let none: Vec<u8> = Vec::new();
            assert(none@ =~= Seq::<u8>::empty());
            none
        },
    };
    if guide_data.len() as u64 != expected {
        return Err(
            ruler_error(
                Message::new("vanishing point ").integer(id).text(" has ").number(
                    guide_data.len() as u64,
                ).text(" guide bytes instead of ").number(expected),
            ),
        );
    }
    let parallel_angle = finite(angle, "vanishing-point angle")?;
    Ok(
        RulerVanishPoint {
            id,
            flags,
            position,
            parallel_angle,
            guide_count,
            guide_record_size,
            guide_data,
        },
    )
}

/// The columns that a vanishing point is read from.
pub open spec fn vanish_columns() -> Seq<Seq<char>> {
    seq!["Flag"@, "VanishPointX"@, "VanishPointY"@, "ParallelAngle"@, "GuideNumber"@, "GuideDataSize"@, "Guide"@]
}

/// What is asked for a vanishing point, in order.
pub open spec fn vanish_items() -> Seq<Seq<char>> {
    seq![
        "Flag"@,
        "VanishPointX"@,
        "VanishPointY"@,
        "ParallelAngle"@,
        "GuideNumber"@,
        "GuideDataSize"@,
        "Guide"@,
    ]
}

/// The question that asks for a vanishing point.
pub open spec fn vanish_question() -> Seq<char> {
    columns::asked(vanish_items(), " FROM RulerVanishPoint WHERE MainId = ?1 LIMIT 1"@)
}

/// Whether reading a vanishing point can have this outcome.
pub open spec fn vanish_point_read(
    connection: Connection,
    schema: Seq<database::TableModel>,
    id: i64,
    limits: Limits,
    outcome: Result<VanishPointModel, Failure>,
) -> bool {
    exists|row: Result<Seq<SqlModel>, Failure>|
        #[trigger] row_read(
            connection,
            schema,
            "RulerVanishPoint"@,
            vanish_columns(),
            vanish_question(),
            id,
            row,
        ) && outcome == match row {
            Err(failure) => Err::<VanishPointModel, Failure>(failure),
            Ok(row) => vanish_point_of(id, row, limits),
        }
}

fn read_vanish_point(database: &Database, id: i64, limits: Limits) -> (point: Result<
    RulerVanishPoint,
    Error,
>)
    ensures
        vanish_point_read(database.connection, database.schema@, id, limits, error::outcome(point)),
{
    let columns: [&str; 7] = ["Flag", "VanishPointX", "VanishPointY", "ParallelAngle", "GuideNumber", "GuideDataSize", "Guide"];
    assert(database::names(columns@) =~= vanish_columns());
    let asked: [&str; 7] = ["Flag", "VanishPointX", "VanishPointY", "ParallelAngle", "GuideNumber", "GuideDataSize", "Guide"];
    assert(database::names(asked@) =~= vanish_items());
    let row = query_values(
        database,
        "RulerVanishPoint",
        &columns,
        columns::ask(&asked, " FROM RulerVanishPoint WHERE MainId = ?1 LIMIT 1").as_str(),
        id,
    );
    assert(row_read(
        database.connection,
        database.schema@,
        "RulerVanishPoint"@,
        vanish_columns(),
        vanish_question(),
        id,
        error::outcome(row),
    ));
    let row = row?;
    vanish_point_from_row(id, &row, limits)
}

/// Whether reading the vanishing points from `at` on, after the points `found`, can
/// have this outcome.
pub open spec fn vanish_points_read(
    connection: Connection,
    schema: Seq<database::TableModel>,
    ids: Seq<i64>,
    limits: Limits,
    at: int,
    found: Seq<VanishPointModel>,
    outcome: Result<Seq<VanishPointModel>, Failure>,
) -> bool
    decreases ids.len() - at,
{
    if at >= ids.len() {
        outcome == Ok::<Seq<VanishPointModel>, Failure>(found)
    } else {
        exists|point: Result<VanishPointModel, Failure>|
            #[trigger] vanish_point_read(
                connection,
                schema,
                ids[at],
                limits,
                point,
            ) && match point {
                Err(failure) => outcome == Err::<Seq<VanishPointModel>, Failure>(failure),
                Ok(point) => vanish_points_read(
                    connection,
                    schema,
                    ids,
                    limits,
                    at + 1,
                    found.push(point),
                    outcome,
                ),
            }
    }
}

fn read_vanish_points(database: &Database, ids: &[i64], limits: Limits) -> (points: Result<
    Vec<RulerVanishPoint>,
    Error,
>)
    ensures
        vanish_points_read(
            database.connection,
            database.schema@,
            ids@,
            limits,
            0,
            Seq::empty(),
            error::listed(points),
        ),
{
    let mut points: Vec<RulerVanishPoint> = Vec::new();
    let mut at: usize = 0;
    assert(error::views(points@) =~= Seq::<VanishPointModel>::empty());
    while at < ids.len()
        invariant
            at <= ids@.len(),
            forall|outcome: Result<Seq<VanishPointModel>, Failure>| #[trigger]
                vanish_points_read(
                    database.connection,
                    database.schema@,
                    ids@,
                    limits,
                    at as int,
                    error::views(points@),
                    outcome,
                ) ==> vanish_points_read(
                    database.connection,
                    database.schema@,
                    ids@,
                    limits,
                    0,
                    Seq::empty(),
                    outcome,
                ),
        decreases ids@.len() - at,
    {
        let ghost before = error::views(points@);
        let point = read_vanish_point(database, ids[at], limits);
        assert(vanish_point_read(
            database.connection,
            database.schema@,
            ids@[at as int],
            limits,
            error::outcome(point),
        ));
        match point {
            Err(error) => {
                assert(vanish_points_read(
                    database.connection,
                    database.schema@,
                    ids@,
                    limits,
                    at as int,
                    before,
                    Err(error@),
                ));
                return Err(error);
            },
            Ok(point) => {
                proof {
                    error::views_push(points@, point);
                    assert forall|outcome: Result<Seq<VanishPointModel>, Failure>| #[trigger]
                        vanish_points_read(
                            database.connection,
                            database.schema@,
                            ids@,
                            limits,
                            at + 1,
                            before.push(point@),
                            outcome,
                        ) implies vanish_points_read(
                        database.connection,
                        database.schema@,
                        ids@,
                        limits,
                        0,
                        Seq::empty(),
                        outcome,
                    ) by {
                        assert(vanish_points_read(
                            database.connection,
                            database.schema@,
                            ids@,
                            limits,
                            at as int,
                            before,
                            outcome,
                        ));
                    }
                }
                points.push(point);
            },
        }
        at = at + 1;
    }
    let ghost end = error::views(points@);
    assert(
        vanish_points_read(
            database.connection,
            database.schema@,
            ids@,
            limits,
            at as int,
            end,
            Ok(end),
        )
    );
    Ok(points)
}

/// Whether reading the vanishing points of a perspective ruler, and then the ruler,
/// can have this outcome.
pub open spec fn perspective_read(
    connection: Connection,
    schema: Seq<database::TableModel>,
    scope: ChainScope,
    id: i64,
    row: PerspectiveRow,
    limits: Limits,
    outcome: Result<RulerModel, Failure>,
) -> bool {
    exists|ids: Result<Seq<i64>, Failure>|
        #[trigger] chain_read(connection, schema, scope, row.first_vanish, ids) && match ids {
            Err(failure) => outcome == Err::<RulerModel, Failure>(failure),
            Ok(ids) => pointed_ruler_read(connection, schema, ids, id, row, limits, outcome),
        }
}

/// Whether reading these vanishing points, and then making the ruler, can have this
/// outcome.
pub open spec fn pointed_ruler_read(
    connection: Connection,
    schema: Seq<database::TableModel>,
    ids: Seq<i64>,
    id: i64,
    row: PerspectiveRow,
    limits: Limits,
    outcome: Result<RulerModel, Failure>,
) -> bool {
    exists|points: Result<Seq<VanishPointModel>, Failure>|
        #[trigger] vanish_points_read(
            connection,
            schema,
            ids,
            limits,
            0,
            Seq::empty(),
            points,
        ) && match points {
            Err(failure) => outcome == Err::<RulerModel, Failure>(failure),
            Ok(points) => outcome == perspective_ruler(id, row, points),
        }
}

/// The rows of a table that belong to one layer and canvas.
pub open spec fn chain_scope(
    table: Seq<char>,
    layer_id: i64,
    canvas_id: i64,
    limits: Limits,
) -> ChainScope {
    ChainScope { table, layer_id, canvas_id, limit: limits.max_ruler_items }
}

/// Whether reading a ruler can have this outcome.
pub open spec fn ruler_read(
    connection: Connection,
    schema: Seq<database::TableModel>,
    kind: RulerKind,
    id: i64,
    layer_id: i64,
    canvas_id: i64,
    limits: Limits,
    outcome: Result<RulerModel, Failure>,
) -> bool {
    exists|row: Result<Seq<SqlModel>, Failure>|
        #[trigger] row_read(
            connection,
            schema,
            kind_table(kind),
            kind_columns(kind),
            kind_question(kind),
            id,
            row,
        ) && match row {
            Err(failure) => outcome == Err::<RulerModel, Failure>(failure),
            Ok(row) => if kind == RulerKind::Perspective {
                match perspective_of(id, row) {
                    Err(failure) => outcome == Err::<RulerModel, Failure>(failure),
                    Ok(perspective) => perspective_read(
                        connection,
                        schema,
                        chain_scope("RulerVanishPoint"@, layer_id, canvas_id, limits),
                        id,
                        perspective,
                        limits,
                        outcome,
                    ),
                }
            } else {
                outcome == ruler_of(kind, id, row, limits)
            },
        }
}

fn read_perspective(
    database: &Database,
    id: i64,
    layer_id: i64,
    canvas_id: i64,
    row: PerspectiveRow,
    limits: Limits,
) -> (ruler: Result<Ruler, Error>)
    ensures
        perspective_read(
            database.connection,
            database.schema@,
            chain_scope("RulerVanishPoint"@, layer_id, canvas_id, limits),
            id,
            row,
            limits,
            error::outcome(ruler),
        ),
{
    let ids = read_chain_ids(
        database,
        "RulerVanishPoint",
        row.first_vanish,
        layer_id,
        canvas_id,
        limits,
    );
    assert(chain_read(
        database.connection,
        database.schema@,
        chain_scope("RulerVanishPoint"@, layer_id, canvas_id, limits),
        row.first_vanish,
        error::outcome(ids),
    ));
    let ids = ids?;
    let points = read_vanish_points(database, ids.as_slice(), limits);
    assert(vanish_points_read(
        database.connection,
        database.schema@,
        ids@,
        limits,
        0,
        Seq::empty(),
        error::listed(points),
    ));
    match points {
        Ok(points) => {
            let ruler = row.into_ruler(id, points);
            assert(pointed_ruler_read(
                database.connection,
                database.schema@,
                ids@,
                id,
                row,
                limits,
                error::outcome(ruler),
            ));
            ruler
        },
        Err(error) => {
            assert(
                pointed_ruler_read(
                    database.connection,
                    database.schema@,
                    ids@,
                    id,
                    row,
                    limits,
                    Err(error@),
                )
            );
            Err(error)
        },
    }
}

fn read_ruler(
    database: &Database,
    kind: RulerKind,
    id: i64,
    layer_id: i64,
    canvas_id: i64,
    limits: Limits,
) -> (ruler: Result<Ruler, Error>)
    ensures
        ruler_read(
            database.connection,
            database.schema@,
            kind,
            id,
            layer_id,
            canvas_id,
            limits,
            error::outcome(ruler),
        ),
{
    let row = query_kind(database, kind, id);
    assert(row_read(
        database.connection,
        database.schema@,
        kind_table(kind),
        kind_columns(kind),
        kind_question(kind),
        id,
        error::outcome(row),
    ));
    let row = row?;
    match kind {
        RulerKind::Perspective => {
            let perspective = perspective_from_row(&row, id)?;
            read_perspective(database, id, layer_id, canvas_id, perspective, limits)
        },
        _ => ruler_from_row(kind, id, &row, limits),
    }
}

/// The layer and canvas whose rulers are read, and the limits that hold.
pub struct RulerScope {
    pub layer_id: i64,
    pub canvas_id: i64,
    pub limits: Limits,
}

/// Whether reading the rulers of a list from `at` on, and then the lists of the later
/// kinds, after the rulers `found`, can have this outcome.
pub open spec fn listed_rulers_read(
    connection: Connection,
    schema: Seq<database::TableModel>,
    scope: RulerScope,
    first: Seq<Option<i64>>,
    index: int,
    ids: Seq<i64>,
    at: int,
    found: Seq<RulerModel>,
    outcome: Result<Seq<RulerModel>, Failure>,
) -> bool
    decreases 9 - index, 0int, ids.len() - at,
{
    if at >= ids.len() {
        if index >= 9 {
            false
        } else {
            rulers_read(connection, schema, scope, first, index + 1, found, outcome)
        }
    } else if found.len() >= scope.limits.max_ruler_items {
        outcome == Err::<Seq<RulerModel>, Failure>(
            Failure::LimitExceeded {
                resource: "rulers"@,
                value: error::one_more(found.len()),
                limit: scope.limits.max_ruler_items,
            },
        )
    } else {
        exists|ruler: Result<RulerModel, Failure>|
            #[trigger] ruler_read(
                connection,
                schema,
                kind_at(index),
                ids[at],
                scope.layer_id,
                scope.canvas_id,
                scope.limits,
                ruler,
            ) && match ruler {
                Err(failure) => outcome == Err::<Seq<RulerModel>, Failure>(failure),
                Ok(ruler) => listed_rulers_read(
                    connection,
                    schema,
                    scope,
                    first,
                    index,
                    ids,
                    at + 1,
                    found.push(ruler),
                    outcome,
                ),
            }
    }
}

/// Whether reading the rulers of the kinds from `index` on, after the rulers `found`,
/// can have this outcome.
pub open spec fn rulers_read(
    connection: Connection,
    schema: Seq<database::TableModel>,
    scope: RulerScope,
    first: Seq<Option<i64>>,
    index: int,
    found: Seq<RulerModel>,
    outcome: Result<Seq<RulerModel>, Failure>,
) -> bool
    decreases 9 - index, 1int, 0int,
{
    if index >= 9 {
        outcome == Ok::<Seq<RulerModel>, Failure>(found)
    } else {
        match first[index] {
            None => rulers_read(connection, schema, scope, first, index + 1, found, outcome),
            Some(id) => exists|ids: Result<Seq<i64>, Failure>|
                #[trigger] chain_read(
                    connection,
                    schema,
                    chain_scope(
                        kind_table(kind_at(index)),
                        scope.layer_id,
                        scope.canvas_id,
                        scope.limits,
                    ),
                    id,
                    ids,
                ) && match ids {
                    Err(failure) => outcome == Err::<Seq<RulerModel>, Failure>(failure),
                    Ok(ids) => listed_rulers_read(
                        connection,
                        schema,
                        scope,
                        first,
                        index,
                        ids,
                        0,
                        found,
                        outcome,
                    ),
                },
        }
    }
}

#[verifier::spinoff_prover]
#[verifier::rlimit(60)]
fn read_rulers(
    database: &Database,
    first: &Vec<Option<i64>>,
    layer_id: i64,
    canvas_id: i64,
    limits: Limits,
) -> (rulers: Result<Vec<Ruler>, Error>)
    requires
        first@.len() == 9,
    ensures
        rulers_read(
            database.connection,
            database.schema@,
            RulerScope { layer_id, canvas_id, limits },
            first@,
            0,
            Seq::empty(),
            error::listed(rulers),
        ),
{
    let ghost scope = RulerScope { layer_id, canvas_id, limits };
    let ghost schema = database.schema@;
    let mut rulers: Vec<Ruler> = Vec::new();
    let mut index: usize = 0;
    assert(error::views(rulers@) =~= Seq::<RulerModel>::empty());
    while index < 9
        invariant
            index <= 9,
            first@.len() == 9,
            scope == (RulerScope { layer_id, canvas_id, limits }),
            schema == database.schema@,
            forall|outcome: Result<Seq<RulerModel>, Failure>| #[trigger]
                rulers_read(
                    database.connection,
                    schema,
                    scope,
                    first@,
                    index as int,
                    error::views(rulers@),
                    outcome,
                ) ==> rulers_read(database.connection, schema, scope, first@, 0, Seq::empty(), outcome),
        decreases 9 - index,
    {
        let ghost start = error::views(rulers@);
        let kind = numbered_kind(index);
        if let Some(id) = first[index] {
            let ids = read_chain_ids(
                database,
                table_name(kind),
                id,
                layer_id,
                canvas_id,
                limits,
            );
            assert(chain_read(
                database.connection,
                schema,
                chain_scope(
                    kind_table(kind_at(index as int)),
                    scope.layer_id,
                    scope.canvas_id,
                    scope.limits,
                ),
                id,
                error::outcome(ids),
            ));
            let ids = match ids {
                Ok(ids) => ids,
                Err(error) => {
                    assert(
                        rulers_read(
                            database.connection,
                            schema,
                            scope,
                            first@,
                            index as int,
                            start,
                            Err(error@),
                        )
                    );
                    return Err(error);
                },
            };
            proof {
                assert forall|outcome: Result<Seq<RulerModel>, Failure>| #[trigger]
                    listed_rulers_read(
                        database.connection,
                        schema,
                        scope,
                        first@,
                        index as int,
                        ids@,
                        0,
                        start,
                        outcome,
                    ) implies rulers_read(database.connection, schema, scope, first@, 0, Seq::empty(), outcome) by {
                    assert(
                        rulers_read(
                            database.connection,
                            schema,
                            scope,
                            first@,
                            index as int,
                            start,
                            outcome,
                        )
                    );
                }
            }
            let mut at: usize = 0;
            while at < ids.len()
                invariant
                    index < 9,
                    kind == kind_at(index as int),
                    at <= ids@.len(),
                    scope == (RulerScope { layer_id, canvas_id, limits }),
                    schema == database.schema@,
                    forall|outcome: Result<Seq<RulerModel>, Failure>| #[trigger]
                        listed_rulers_read(
                            database.connection,
                            schema,
                            scope,
                            first@,
                            index as int,
                            ids@,
                            at as int,
                            error::views(rulers@),
                            outcome,
                        ) ==> rulers_read(database.connection, schema, scope, first@, 0, Seq::empty(), outcome),
                decreases ids@.len() - at,
            {
                let ghost before = error::views(rulers@);
                let length: u64 = rulers.len() as u64;
                if length >= limits.max_ruler_items() {
                    let error = Error::limit(
                        "rulers",
                        length.saturating_add(1),
                        limits.max_ruler_items(),
                    );
                    assert(listed_rulers_read(
                        database.connection,
                        schema,
                        scope,
                        first@,
                        index as int,
                        ids@,
                        at as int,
                        before,
                        Err(error@),
                    ));
                    return Err(error);
                }
                let ruler = read_ruler(database, kind, ids[at], layer_id, canvas_id, limits);
                assert(ruler_read(
                    database.connection,
                    schema,
                    kind_at(index as int),
                    ids@[at as int],
                    scope.layer_id,
                    scope.canvas_id,
                    scope.limits,
                    error::outcome(ruler),
                ));
                match ruler {
                    Err(error) => {
                        assert(listed_rulers_read(
                            database.connection,
                            schema,
                            scope,
                            first@,
                            index as int,
                            ids@,
                            at as int,
                            before,
                            Err(error@),
                        ));
                        return Err(error);
                    },
                    Ok(ruler) => {
                        proof {
                            error::views_push(rulers@, ruler);
                            assert forall|outcome: Result<Seq<RulerModel>, Failure>| #[trigger]
                                listed_rulers_read(
                                    database.connection,
                                    schema,
                                    scope,
                                    first@,
                                    index as int,
                                    ids@,
                                    at + 1,
                                    before.push(ruler@),
                                    outcome,
                                ) implies rulers_read(
                                database.connection,
                                schema,
                                scope,
                                first@,
                                0,
                                Seq::empty(),
                                outcome,
                            ) by {
                                assert(listed_rulers_read(
                                    database.connection,
                                    schema,
                                    scope,
                                    first@,
                                    index as int,
                                    ids@,
                                    at as int,
                                    before,
                                    outcome,
                                ));
                            }
                        }
                        rulers.push(ruler);
                    },
                }
                at = at + 1;
            }
            proof {
                let end = error::views(rulers@);
                assert forall|outcome: Result<Seq<RulerModel>, Failure>| #[trigger]
                    rulers_read(database.connection, schema, scope, first@, index + 1, end, outcome) implies rulers_read(
                    database.connection,
                    schema,
                    scope,
                    first@,
                    0,
                    Seq::empty(),
                    outcome,
                ) by {
                    assert(listed_rulers_read(
                        database.connection,
                        schema,
                        scope,
                        first@,
                        index as int,
                        ids@,
                        at as int,
                        end,
                        outcome,
                    ));
                }
            }
        } else {
            proof {
                assert forall|outcome: Result<Seq<RulerModel>, Failure>| #[trigger]
                    rulers_read(database.connection, schema, scope, first@, index + 1, start, outcome) implies rulers_read(
                    database.connection,
                    schema,
                    scope,
                    first@,
                    0,
                    Seq::empty(),
                    outcome,
                ) by {
                    assert(
                        rulers_read(
                            database.connection,
                            schema,
                            scope,
                            first@,
                            index as int,
                            start,
                            outcome,
                        )
                    );
                }
            }
        }
        index = index + 1;
    }
    let ghost end = error::views(rulers@);
    assert(rulers_read(database.connection, schema, scope, first@, 9, end, Ok(end)));
    Ok(rulers)
}

/// The columns that a manager row needs.
pub open spec fn manager_columns() -> Seq<Seq<char>> {
    seq!["MainId"@, "LayerId"@, "CanvasId"@, "FirstParallel"@, "FirstCurveParallel"@, "FirstMultiCurve"@, "FirstEmit"@, "FirstCurveEmit"@, "FirstConcentricCircle"@, "FirstGuide"@, "FirstPerspective"@, "FirstSymmetry"@]
}

/// What is asked for a manager, in order.
pub open spec fn manager_items() -> Seq<Seq<char>> {
    seq![
        "LayerId"@,
        "CanvasId"@,
        "FirstParallel"@,
        "FirstCurveParallel"@,
        "FirstMultiCurve"@,
        "FirstEmit"@,
        "FirstCurveEmit"@,
        "FirstConcentricCircle"@,
        "FirstGuide"@,
        "FirstPerspective"@,
        "FirstSymmetry"@,
    ]
}

/// The question that asks for a manager row.
pub open spec fn manager_question() -> Seq<char> {
    columns::asked(manager_items(), " FROM SpecialRulerManager WHERE MainId = ?1"@)
}

/// Whether reading a manager row can have this outcome.
pub open spec fn manager_read(
    connection: Connection,
    schema: Seq<database::TableModel>,
    manager_id: i64,
    layer_id: i64,
    canvas_id: i64,
    outcome: Result<Seq<Option<i64>>, Failure>,
) -> bool {
    match database::first_missing(schema, "SpecialRulerManager"@, manager_columns(), 0) {
        Some(failure) => outcome == Err::<Seq<Option<i64>>, Failure>(failure),
        None => exists|reply: sql::ReplyModel|
            #[trigger] sql::may_answer(
                connection,
                manager_question(),
                seq![sql::ParameterModel::Integer(manager_id)],
                reply,
            ) && outcome == manager_of(reply, manager_id, layer_id, canvas_id),
    }
}

fn read_manager(database: &Database, manager_id: i64, layer_id: i64, canvas_id: i64) -> (first:
    Result<Vec<Option<i64>>, Error>)
    ensures
        manager_read(
            database.connection,
            database.schema@,
            manager_id,
            layer_id,
            canvas_id,
            error::outcome(first),
        ),
        first matches Ok(first) ==> first@.len() == 9,
{
    let columns: [&str; 12] = ["MainId", "LayerId", "CanvasId", "FirstParallel", "FirstCurveParallel", "FirstMultiCurve", "FirstEmit", "FirstCurveEmit", "FirstConcentricCircle", "FirstGuide", "FirstPerspective", "FirstSymmetry"];
    assert(database::names(columns@) =~= manager_columns());
    if let Some(error) = database.schema.first_missing_column("SpecialRulerManager", &columns) {
        return Err(error);
    }
    let asked: [&str; 11] = ["LayerId", "CanvasId", "FirstParallel", "FirstCurveParallel", "FirstMultiCurve", "FirstEmit", "FirstCurveEmit", "FirstConcentricCircle", "FirstGuide", "FirstPerspective", "FirstSymmetry"];
    assert(database::names(asked@) =~= manager_items());
    let reply = query_by_id(
        &database.connection,
        columns::ask(&asked, " FROM SpecialRulerManager WHERE MainId = ?1").as_str(),
        manager_id,
    );
    assert(sql::may_answer(
        database.connection,
        manager_question(),
        seq![sql::ParameterModel::Integer(manager_id)],
        reply@,
    ));
    let first = manager_from_reply(&reply, manager_id, layer_id, canvas_id)?;
    proof {
        first_rulers_count(reply@.rows[0], 9);
    }
    Ok(first)
}

proof fn first_rulers_count(row: Seq<SqlModel>, at: int)
    requires
        0 <= at,
    ensures
        first_rulers_of(row, at) matches Ok(first) ==> first.len() == at,
    decreases at,
{
    if at > 0 {
        first_rulers_count(row, at - 1);
    }
}

/// Whether checking the vector object of a layer can have this outcome.
pub open spec fn vector_ruler_read(
    connection: Connection,
    schema: Seq<database::TableModel>,
    object_id: i64,
    layer_id: i64,
    canvas_id: i64,
    outcome: Result<(), Failure>,
) -> bool {
    match database::first_missing(
        schema,
        "VectorObjectList"@,
        seq!["MainId"@, "LayerId"@, "CanvasId"@],
        0,
    ) {
        Some(failure) => outcome == Err::<(), Failure>(failure),
        None => exists|reply: sql::ReplyModel|
            #[trigger] sql::may_answer(
                connection,
                "SELECT LayerId, CanvasId FROM VectorObjectList WHERE MainId = ?1"@,
                seq![sql::ParameterModel::Integer(object_id)],
                reply,
            ) && outcome == vector_ruler_of(reply, object_id, layer_id, canvas_id),
    }
}

fn validate_vector_ruler(database: &Database, object_id: i64, layer_id: i64, canvas_id: i64) -> (
result: Result<(), Error>)
    ensures
        vector_ruler_read(
            database.connection,
            database.schema@,
            object_id,
            layer_id,
            canvas_id,
            error::plain(result),
        ),
{
    let columns: [&str; 3] = ["MainId", "LayerId", "CanvasId"];
    assert(database::names(columns@) =~= seq!["MainId"@, "LayerId"@, "CanvasId"@]);
    if let Some(error) = database.schema.first_missing_column("VectorObjectList", &columns) {
        return Err(error);
    }
    let reply = query_by_id(
        &database.connection,
        "SELECT LayerId, CanvasId FROM VectorObjectList WHERE MainId = ?1",
        object_id,
    );
    check_vector_ruler(&reply, object_id, layer_id, canvas_id)
}

/// What a layer says of its rulers.
#[derive(Clone, Copy, Debug, PartialEq, Eq)]
pub struct RulerOwner {
    pub canvas_id: i64,
    pub vector_object_id: Option<i64>,
    pub manager_id: Option<i64>,
    pub scope: Option<i64>,
}

/// What a layer row says of its rulers, if it says anything.
pub open spec fn ruler_owner_of(reply: sql::ReplyModel) -> Result<Option<RulerOwner>, Failure> {
    match sql::first_row(reply) {
        Err(failure) => Err(failure),
        Ok(None) => Ok(None),
        Ok(Some(row)) => match (sql::integer_at(row, 0), sql::optional_integer_at(row, 1)) {
            (Ok(canvas_id), Ok(vector)) => match positive_reference(vector, "RulerVectorIndex"@) {
                Err(failure) => Err(failure),
                Ok(vector_object_id) => match sql::optional_integer_at(row, 2) {
                    Err(failure) => Err(failure),
                    Ok(manager) => match positive_reference(manager, "SpecialRulerManager"@) {
                        Err(failure) => Err(failure),
                        Ok(manager_id) => match sql::optional_integer_at(row, 3) {
                            Err(failure) => Err(failure),
                            Ok(scope) => if vector_object_id is None && manager_id is None && scope
                                is None {
                                Ok(None)
                            } else if canvas_id <= 0 {
                                Err(
                                    Failure::InvalidRuler {
                                        reason: "ruler layer has a non-positive CanvasId"@,
                                    },
                                )
                            } else {
                                Ok(
                                    Some(
                                        RulerOwner {
                                            canvas_id,
                                            vector_object_id,
                                            manager_id,
                                            scope,
                                        },
                                    ),
                                )
                            },
                        },
                    },
                },
            },
            _ => Err(Failure::Sqlite),
        },
    }
}

/// What a layer row says of its rulers, if it says anything.
pub fn ruler_owner_from_reply(reply: &Reply) -> (owner: Result<Option<RulerOwner>, Error>)
    ensures
        error::plain(owner) == ruler_owner_of(reply@),
{
    let row = match reply.first_row()? {
        Some(row) => row,
        None => return Ok(None),
    };
    let canvas_id: i64 = row.integer(0)?;
    let vector = row.optional_integer(1)?;
    let vector_object_id = optional_positive(vector, "RulerVectorIndex")?;
    let manager = row.optional_integer(2)?;
    let manager_id = optional_positive(manager, "SpecialRulerManager")?;
    let scope = row.optional_integer(3)?;
    if vector_object_id.is_none() && manager_id.is_none() && scope.is_none() {
        return Ok(None);
    }
    if canvas_id <= 0 {
        return Err(ruler_error(Message::new("ruler layer has a non-positive CanvasId")));
    }
    Ok(Some(RulerOwner { canvas_id, vector_object_id, manager_id, scope }))
}

/// What is asked for the rulers of a layer, in order.
pub open spec fn owner_items(schema: Seq<database::TableModel>) -> Seq<Seq<char>> {
    seq![
        "CanvasId"@,
        database::column_or_null(schema, "Layer"@, "RulerVectorIndex"@),
        database::column_or_null(schema, "Layer"@, "SpecialRulerManager"@),
        database::column_or_null(schema, "Layer"@, "RulerRange"@),
    ]
}

/// The question that asks what a layer says of its rulers.
pub open spec fn owner_question(schema: Seq<database::TableModel>) -> Seq<char> {
    columns::asked(owner_items(schema), " FROM Layer WHERE MainId = ?1 LIMIT 1"@)
}

/// Whether layers can own rulers at all.
pub open spec fn rulers_possible(schema: Seq<database::TableModel>) -> bool {
    database::column_exists(schema, "Layer"@, "RulerVectorIndex"@) || database::column_exists(
        schema,
        "Layer"@,
        "SpecialRulerManager"@,
    ) || database::column_exists(schema, "Layer"@, "RulerRange"@)
}

/// Whether reading what a layer that says so owns can have this outcome.
pub open spec fn owned_rulers_read(
    connection: Connection,
    schema: Seq<database::TableModel>,
    layer_id: i64,
    owner: RulerOwner,
    limits: Limits,
    outcome: Result<Option<RulerLayerModel>, Failure>,
) -> bool {
    exists|checked: Result<(), Failure>|
        #[trigger] vector_checked(connection, schema, layer_id, owner, checked) && match checked {
            Err(failure) => outcome == Err::<Option<RulerLayerModel>, Failure>(failure),
            Ok(()) => match owner.manager_id {
                None => outcome == ruler_layer_with(layer_id, owner, Ok(Seq::empty())),
                Some(manager_id) => managed_rulers_read(
                    connection,
                    schema,
                    layer_id,
                    owner,
                    manager_id,
                    limits,
                    outcome,
                ),
            },
        }
}

/// Whether checking the vector object of a layer, if it names one, can have this
/// outcome.
pub open spec fn vector_checked(
    connection: Connection,
    schema: Seq<database::TableModel>,
    layer_id: i64,
    owner: RulerOwner,
    checked: Result<(), Failure>,
) -> bool {
    match owner.vector_object_id {
        None => checked == Ok::<(), Failure>(()),
        Some(object_id) => vector_ruler_read(
            connection,
            schema,
            object_id,
            layer_id,
            owner.canvas_id,
            checked,
        ),
    }
}

/// Whether reading the rulers of a manager row can have this outcome.
pub open spec fn managed_rulers_read(
    connection: Connection,
    schema: Seq<database::TableModel>,
    layer_id: i64,
    owner: RulerOwner,
    manager_id: i64,
    limits: Limits,
    outcome: Result<Option<RulerLayerModel>, Failure>,
) -> bool {
    exists|first: Result<Seq<Option<i64>>, Failure>|
        #[trigger] manager_read(
            connection,
            schema,
            manager_id,
            layer_id,
            owner.canvas_id,
            first,
        ) && match first {
            Err(failure) => outcome == Err::<Option<RulerLayerModel>, Failure>(failure),
            Ok(first) => kinds_read(connection, schema, layer_id, owner, first, limits, outcome),
        }
}

/// Whether reading the rulers of all kinds can have this outcome.
pub open spec fn kinds_read(
    connection: Connection,
    schema: Seq<database::TableModel>,
    layer_id: i64,
    owner: RulerOwner,
    first: Seq<Option<i64>>,
    limits: Limits,
    outcome: Result<Option<RulerLayerModel>, Failure>,
) -> bool {
    exists|rulers: Result<Seq<RulerModel>, Failure>|
        #[trigger] rulers_read(
            connection,
            schema,
            RulerScope { layer_id, canvas_id: owner.canvas_id, limits },
            first,
            0,
            Seq::empty(),
            rulers,
        ) && outcome == ruler_layer_with(layer_id, owner, rulers)
}

/// What is known of a layer once its rulers are.
pub open spec fn ruler_layer_with(
    layer_id: i64,
    owner: RulerOwner,
    rulers: Result<Seq<RulerModel>, Failure>,
) -> Result<Option<RulerLayerModel>, Failure> {
    match rulers {
        Err(failure) => Err(failure),
        Ok(rulers) => Ok(
            Some(
                RulerLayerModel {
                    layer_id,
                    canvas_id: owner.canvas_id,
                    scope: owner.scope,
                    vector_object_id: owner.vector_object_id,
                    manager_id: owner.manager_id,
                    rulers,
                },
            ),
        ),
    }
}

/// Whether reading the rulers of a layer can have this outcome.
pub open spec fn ruler_layer_read(
    connection: Connection,
    schema: Seq<database::TableModel>,
    layer_id: i64,
    limits: Limits,
    outcome: Result<Option<RulerLayerModel>, Failure>,
) -> bool {
    if database::table_of(schema, "Layer"@) is None {
        outcome == Ok::<Option<RulerLayerModel>, Failure>(None)
    } else {
        match database::first_missing(schema, "Layer"@, seq!["MainId"@, "CanvasId"@], 0) {
            Some(failure) => outcome == Err::<Option<RulerLayerModel>, Failure>(failure),
            None => if !rulers_possible(schema) {
                outcome == Ok::<Option<RulerLayerModel>, Failure>(None)
            } else {
                exists|reply: sql::ReplyModel|
                    #[trigger] sql::may_answer(
                        connection,
                        owner_question(schema),
                        seq![sql::ParameterModel::Integer(layer_id)],
                        reply,
                    ) && match ruler_owner_of(reply) {
                        Err(failure) => outcome == Err::<Option<RulerLayerModel>, Failure>(failure),
                        Ok(None) => outcome == Ok::<Option<RulerLayerModel>, Failure>(None),
                        Ok(Some(owner)) => owned_rulers_read(
                            connection,
                            schema,
                            layer_id,
                            owner,
                            limits,
                            outcome,
                        ),
                    }
            },
        }
    }
}

fn read_managed_rulers(
    database: &Database,
    layer_id: i64,
    owner: RulerOwner,
    manager_id: i64,
    limits: Limits,
) -> (layer: Result<Option<RulerLayerData>, Error>)
    ensures
        managed_rulers_read(
            database.connection,
            database.schema@,
            layer_id,
            owner,
            manager_id,
            limits,
            error::optional_outcome(layer),
        ),
{
    let first = read_manager(database, manager_id, layer_id, owner.canvas_id);
    assert(manager_read(
        database.connection,
        database.schema@,
        manager_id,
        layer_id,
        owner.canvas_id,
        error::outcome(first),
    ));
    let first = first?;
    let rulers = read_rulers(database, &first, layer_id, owner.canvas_id, limits);
    let ghost listed = error::listed(rulers);
    assert(rulers_read(
        database.connection,
        database.schema@,
        RulerScope { layer_id, canvas_id: owner.canvas_id, limits },
        first@,
        0,
        Seq::empty(),
        listed,
    ));
    let layer: Result<Option<RulerLayerData>, Error> = match rulers {
        Ok(rulers) => Ok(
            Some(
                RulerLayerData {
                    layer_id,
                    canvas_id: owner.canvas_id,
                    scope: owner.scope,
                    vector_object_id: owner.vector_object_id,
                    manager_id: owner.manager_id,
                    rulers,
                },
            ),
        ),
        Err(error) => Err(error),
    };
    assert(error::optional_outcome(layer) == ruler_layer_with(layer_id, owner, listed));
    assert(kinds_read(
        database.connection,
        database.schema@,
        layer_id,
        owner,
        first@,
        limits,
        error::optional_outcome(layer),
    ));
    layer
}

fn read_owned_rulers(database: &Database, layer_id: i64, owner: RulerOwner, limits: Limits) -> (
layer: Result<Option<RulerLayerData>, Error>)
    ensures
        owned_rulers_read(
            database.connection,
            database.schema@,
            layer_id,
            owner,
            limits,
            error::optional_outcome(layer),
        ),
{
    let checked = match owner.vector_object_id {
        Some(object_id) => validate_vector_ruler(database, object_id, layer_id, owner.canvas_id),
        None => Ok(()),
    };
    assert(
        vector_checked(
            database.connection,
            database.schema@,
            layer_id,
            owner,
            error::plain(checked),
        )
    );
    checked?;
    match owner.manager_id {
        Some(manager_id) => read_managed_rulers(database, layer_id, owner, manager_id, limits),
        None => {
            let rulers: Vec<Ruler> = Vec::new();
            assert(error::views(rulers@) =~= Seq::<RulerModel>::empty());
            Ok(
                Some(
                    RulerLayerData {
                        layer_id,
                        canvas_id: owner.canvas_id,
                        scope: owner.scope,
                        vector_object_id: owner.vector_object_id,
                        manager_id: owner.manager_id,
                        rulers,
                    },
                ),
            )
        },
    }
}

/// Two conditions of which one has to hold; an empty one is left out.
pub open spec fn either(left: Seq<char>, right: Seq<char>) -> Seq<char> {
    if left.len() == 0 {
        right
    } else {
        left + " OR "@ + right
    }
}

fn either_condition(left: String, right: &str) -> (both: String)
    ensures
        both@ == either(left@, right@),
{
    if left.as_str().is_empty() {
        right.to_owned()
    } else {
        Message::new(left.as_str()).text(" OR ").text(right).build()
    }
}

/// The condition under which a layer owns rulers.
pub open spec fn ownership_condition(schema: Seq<database::TableModel>) -> Seq<char> {
    let none = Seq::<char>::empty();
    let first = if database::column_exists(schema, "Layer"@, "RulerVectorIndex"@) {
        either(none, "COALESCE(RulerVectorIndex, 0) <> 0"@)
    } else {
        none
    };
    let second = if database::column_exists(schema, "Layer"@, "SpecialRulerManager"@) {
        either(first, "COALESCE(SpecialRulerManager, 0) <> 0"@)
    } else {
        first
    };
    if database::column_exists(schema, "Layer"@, "RulerRange"@) {
        either(second, "RulerRange IS NOT NULL"@)
    } else {
        second
    }
}

fn ownership(schema: &DatabaseSchema) -> (condition: String)
    ensures
        condition@ == ownership_condition(schema@),
{
    let mut condition = String::new();
    assert(condition@ =~= Seq::<char>::empty());
    if schema.has_column("Layer", "RulerVectorIndex") {
        condition = either_condition(condition, "COALESCE(RulerVectorIndex, 0) <> 0");
    }
    if schema.has_column("Layer", "SpecialRulerManager") {
        condition = either_condition(condition, "COALESCE(SpecialRulerManager, 0) <> 0");
    }
    if schema.has_column("Layer", "RulerRange") {
        condition = either_condition(condition, "RulerRange IS NOT NULL");
    }
    condition
}

/// The question that lists the layers that own rulers.
pub open spec fn owners_question(schema: Seq<database::TableModel>) -> Seq<char> {
    "SELECT MainId FROM Layer WHERE "@ + ownership_condition(schema) + " ORDER BY MainId"@
}

/// The layers that a reply lists from `at` on, after the layers `found` before.
pub open spec fn owner_ids_from(
    reply: sql::ReplyModel,
    limit: u64,
    at: int,
    found: Seq<i64>,
) -> Result<Seq<i64>, Failure>
    decreases reply.rows.len() - at,
{
    if at >= reply.rows.len() {
        if reply.failed {
            Err(Failure::Sqlite)
        } else {
            Ok(found)
        }
    } else {
        match sql::integer_at(reply.rows[at], 0) {
            Err(failure) => Err(failure),
            Ok(id) => if found.len() > 0 && found.last() == id {
                Err(
                    Failure::InvalidRuler {
                        reason: "ruler layer MainId "@ + message::decimal_signed(id as int) + " is not unique"@,
                    },
                )
            } else if found.len() >= limit {
                Err(
                    Failure::LimitExceeded {
                        resource: "ruler layers"@,
                        value: error::one_more(found.len()),
                        limit,
                    },
                )
            } else {
                owner_ids_from(reply, limit, at + 1, found.push(id))
            },
        }
    }
}

/// The layers that a reply lists.
pub fn owner_ids_from_reply(reply: &Reply, limit: u64) -> (ids: Result<Vec<i64>, Error>)
    ensures
        error::outcome(ids) == owner_ids_from(reply@, limit, 0, Seq::empty()),
{
    let mut ids: Vec<i64> = Vec::new();
    let mut at: usize = 0;
    while at < reply.rows.len()
        invariant
            at <= reply.rows@.len(),
            owner_ids_from(reply@, limit, 0, Seq::empty()) == owner_ids_from(
                reply@,
                limit,
                at as int,
                ids@,
            ),
        decreases reply.rows@.len() - at,
    {
        assert(reply@.rows[at as int] == reply.rows@[at as int]@);
        let id: i64 = reply.rows[at].integer(0)?;
        if ids.len() > 0 && ids[ids.len() - 1] == id {
            return Err(
                ruler_error(
                    Message::new("ruler layer MainId ").integer(id).text(" is not unique"),
                ),
            );
        }
        let length: u64 = ids.len() as u64;
        if length >= limit {
            return Err(Error::limit("ruler layers", length.saturating_add(1), limit));
        }
        ids.push(id);
        at = at + 1;
    }
    match reply.failure() {
        Some(error) => Err(error),
        None => Ok(ids),
    }
}

/// Whether reading the rulers of these layers from `at` on, after the layers `found`,
/// can have this outcome.
pub open spec fn owners_read(
    connection: Connection,
    schema: Seq<database::TableModel>,
    ids: Seq<i64>,
    limits: Limits,
    at: int,
    found: Seq<RulerLayerModel>,
    outcome: Result<Seq<RulerLayerModel>, Failure>,
) -> bool
    decreases ids.len() - at,
{
    if at >= ids.len() {
        outcome == Ok::<Seq<RulerLayerModel>, Failure>(found)
    } else {
        exists|layer: Result<Option<RulerLayerModel>, Failure>|
            #[trigger] ruler_layer_read(connection, schema, ids[at], limits, layer) && match layer {
                Err(failure) => outcome == Err::<Seq<RulerLayerModel>, Failure>(failure),
                Ok(None) => outcome == Err::<Seq<RulerLayerModel>, Failure>(
                    Failure::InvalidRuler {
                        reason: "layer "@ + message::decimal_signed(ids[at] as int)
                            + " was selected as a ruler owner but has no ruler data"@,
                    },
                ),
                Ok(Some(layer)) => owners_read(
                    connection,
                    schema,
                    ids,
                    limits,
                    at + 1,
                    found.push(layer),
                    outcome,
                ),
            }
    }
}

fn read_owners(database: &Database, ids: &[i64], limits: Limits) -> (layers: Result<
    Vec<RulerLayerData>,
    Error,
>)
    ensures
        owners_read(
            database.connection,
            database.schema@,
            ids@,
            limits,
            0,
            Seq::empty(),
            error::listed(layers),
        ),
{
    let ghost schema = database.schema@;
    let mut layers: Vec<RulerLayerData> = Vec::new();
    let mut at: usize = 0;
    assert(error::views(layers@) =~= Seq::<RulerLayerModel>::empty());
    while at < ids.len()
        invariant
            at <= ids@.len(),
            schema == database.schema@,
            forall|outcome: Result<Seq<RulerLayerModel>, Failure>| #[trigger]
                owners_read(
                    database.connection,
                    schema,
                    ids@,
                    limits,
                    at as int,
                    error::views(layers@),
                    outcome,
                )
                    ==> owners_read(
                        database.connection,
                        schema,
                        ids@,
                        limits,
                        0,
                        Seq::empty(),
                        outcome,
                    ),
        decreases ids@.len() - at,
    {
        let ghost before = error::views(layers@);
        let layer = database.ruler_layer(ids[at], limits);
        assert(
            ruler_layer_read(
                database.connection,
                schema,
                ids@[at as int],
                limits,
                error::optional_outcome(layer),
            )
        );
        match layer {
            Err(error) => {
                assert(
                    owners_read(
                        database.connection,
                        schema,
                        ids@,
                        limits,
                        at as int,
                        before,
                        Err(error@),
                    )
                );
                return Err(error);
            },
            Ok(None) => {
                let error = ruler_error(
                    Message::new("layer ").integer(ids[at]).text(
                        " was selected as a ruler owner but has no ruler data",
                    ),
                );
                assert(
                    owners_read(
                        database.connection,
                        schema,
                        ids@,
                        limits,
                        at as int,
                        before,
                        Err(error@),
                    )
                );
                return Err(error);
            },
            Ok(Some(layer)) => {
                proof {
                    error::views_push(layers@, layer);
                    assert forall|outcome: Result<Seq<RulerLayerModel>, Failure>| #[trigger]
                        owners_read(
                            database.connection,
                            schema,
                            ids@,
                            limits,
                            at + 1,
                            before.push(layer@),
                            outcome,
                        ) implies owners_read(
                        database.connection,
                        schema,
                        ids@,
                        limits,
                        0,
                        Seq::empty(),
                        outcome,
                    ) by {
                        assert(
                            owners_read(
                                database.connection,
                                schema,
                                ids@,
                                limits,
                                at as int,
                                before,
                                outcome,
                            )
                        );
                    }
                }
                layers.push(layer);
            },
        }
        at = at + 1;
    }
    let ghost end = error::views(layers@);
    assert(owners_read(database.connection, schema, ids@, limits, at as int, end, Ok(end)));
    Ok(layers)
}

/// Whether reading the rulers of all layers can have this outcome.
pub open spec fn ruler_layers_read(
    connection: Connection,
    schema: Seq<database::TableModel>,
    limits: Limits,
    outcome: Result<Seq<RulerLayerModel>, Failure>,
) -> bool {
    if database::table_of(schema, "Layer"@) is None {
        outcome == Ok::<Seq<RulerLayerModel>, Failure>(Seq::empty())
    } else {
        match database::missing(schema, "Layer"@, "MainId"@) {
            Some(failure) => outcome == Err::<Seq<RulerLayerModel>, Failure>(failure),
            None => if !rulers_possible(schema) {
                outcome == Ok::<Seq<RulerLayerModel>, Failure>(Seq::empty())
            } else {
                exists|reply: sql::ReplyModel|
                    #[trigger] sql::may_answer_within(
                        connection,
                        owners_question(schema),
                        Seq::empty(),
                        limits.max_layers,
                        reply,
                    )
                        && match owner_ids_from(reply, limits.max_layers, 0, Seq::empty()) {
                        Err(failure) => outcome == Err::<Seq<RulerLayerModel>, Failure>(failure),
                        Ok(ids) => owners_read(
                            connection,
                            schema,
                            ids,
                            limits,
                            0,
                            Seq::empty(),
                            outcome,
                        ),
                    }
            },
        }
    }
}

fn any_ruler_column(schema: &DatabaseSchema) -> (found: bool)
    ensures
        found == rulers_possible(schema@),
{
    schema.has_column("Layer", "RulerVectorIndex") || schema.has_column(
        "Layer",
        "SpecialRulerManager",
    ) || schema.has_column("Layer", "RulerRange")
}

impl Database {
    /// Discovers and validates every layer that owns ruler data.
    ///
    /// Schema differences and the underlying `Layer` query are handled
    /// internally. The result is ordered by layer ID and includes vector,
    /// special-ruler-manager, and ruler-range ownership.
    pub fn ruler_layers(&self, limits: Limits) -> (layers: Result<Vec<RulerLayerData>, Error>)
        ensures
            ruler_layers_read(self.connection, self.schema@, limits, error::listed(layers)),
    {
        let none: Vec<RulerLayerData> = Vec::new();
        assert(error::views(none@) =~= Seq::<RulerLayerModel>::empty());
        if self.schema.table("Layer").is_none() {
            return Ok(none);
        }
        self.schema.require_column("Layer", "MainId")?;
        if !any_ruler_column(&self.schema) {
            return Ok(none);
        }
        let condition = ownership(&self.schema);
        let question = Message::new("SELECT MainId FROM Layer WHERE ").text(
            condition.as_str(),
        ).text(" ORDER BY MainId").build();
        let reply = query_all_within(
            &self.connection,
            question.as_str(),
            limits.max_layers(),
        );
        assert(sql::may_answer_within(
            self.connection,
            owners_question(self.schema@),
            Seq::empty(),
            limits.max_layers,
            reply@,
        ));
        let ids = owner_ids_from_reply(&reply, limits.max_layers())?;
        read_owners(self, ids.as_slice(), limits)
    }

    /// Reads and validates all ruler references owned by one layer.
    ///
    /// An unknown layer or a layer without ruler columns/references returns
    /// `None`.
    pub fn ruler_layer(&self, layer_id: i64, limits: Limits) -> (layer: Result<
        Option<RulerLayerData>,
        Error,
    >)
        ensures
            ruler_layer_read(
                self.connection,
                self.schema@,
                layer_id,
                limits,
                error::optional_outcome(layer),
            ),
    {
        if self.schema.table("Layer").is_none() {
            return Ok(None);
        }
        let columns: [&str; 2] = ["MainId", "CanvasId"];
        assert(database::names(columns@) =~= seq!["MainId"@, "CanvasId"@]);
        if let Some(error) = self.schema.first_missing_column("Layer", &columns) {
            return Err(error);
        }
        if !any_ruler_column(&self.schema) {
            return Ok(None);
        }
        let asked: [&str; 4] = [
            "CanvasId",
            self.schema.column_or_null("Layer", "RulerVectorIndex"),
            self.schema.column_or_null("Layer", "SpecialRulerManager"),
            self.schema.column_or_null("Layer", "RulerRange"),
        ];
        assert(database::names(asked@) =~= owner_items(self.schema@));
        let question = columns::ask(&asked, " FROM Layer WHERE MainId = ?1 LIMIT 1");
        let reply = query_by_id(&self.connection, question.as_str(), layer_id);
        assert(sql::may_answer(
            self.connection,
            owner_question(self.schema@),
            seq![sql::ParameterModel::Integer(layer_id)],
            reply@,
        ));
        match ruler_owner_from_reply(&reply)? {
            Some(owner) => read_owned_rulers(self, layer_id, owner, limits),
            None => Ok(None),
        }
    }
}

} // verus!
