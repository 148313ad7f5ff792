//! The document model: the project, its canvases, their previews, and their layers.

use std::collections::{BTreeMap, BTreeSet};

use rusqlite::Connection;
use vstd::prelude::*;

use crate::bytes;
use crate::bytes::{bytes_match, read_be32};
use crate::columns;
use crate::container::ClipFile;
use crate::database;
use crate::database::Database;
use crate::error;
use crate::error::{Error, Failure};
use crate::limits::Limits;
use crate::links;
use crate::links::{place, walk_tree, Link, LinkFault};
use crate::message;
use crate::message::Message;
use crate::reals;
use crate::reals::Double;
use crate::sql;
use crate::sql::{collect, query_all, query_by_id, FromRow, Reply, SqlModel, SqlRow};

verus! {

/// A reference, where zero stands for none.
pub open spec fn reference(value: Option<i64>) -> Option<i64> {
    match value {
        Some(0) => None,
        other => other,
    }
}

/// Reads a reference, where zero stands for none.
pub fn normalize_id(value: Option<i64>) -> (id: Option<i64>)
    ensures
        id == reference(value),
{
    match value {
        Some(0) => None,
        other => other,
    }
}

/// Document-level settings from the single `Project` row.
#[derive(Clone, Debug, PartialEq, Eq)]
pub struct Project {
    pub internal_version: String,
    pub name: Option<String>,
    pub primary_canvas_id: Option<i64>,
}

/// The model of a [`Project`].
#[verifier::ext_equal]
pub struct ProjectModel {
    pub internal_version: Seq<char>,
    pub name: Option<Seq<char>>,
    pub primary_canvas_id: Option<i64>,
}

impl View for Project {
    type V = ProjectModel;

    open spec fn view(&self) -> ProjectModel {
        ProjectModel {
            internal_version: self.internal_version@,
            name: error::optional_text(self.name),
            primary_canvas_id: self.primary_canvas_id,
        }
    }
}

impl Project {
    /// Internal document format version reported by CLIP STUDIO PAINT.
    #[must_use]
    pub fn internal_version(&self) -> (text: &str)
        ensures
            text@ == self.internal_version@,
    {
        self.internal_version.as_str()
    }

    /// Project name when stored in the file.
    #[must_use]
    pub fn name(&self) -> (text: Option<&str>)
        ensures
            text is Some == self.name is Some,
            text matches Some(text) ==> text@ == self.name.unwrap()@,
    {
        match &self.name {
            Some(text) => Some(text.as_str()),
            None => None,
        }
    }

    /// Primary canvas reference when present and nonzero.
    #[must_use]
    pub fn primary_canvas_id(&self) -> (value: Option<i64>)
        ensures
            value == self.primary_canvas_id,
    {
        self.primary_canvas_id
    }
}

impl FromRow for Project {
    open spec fn row_model(row: Seq<SqlModel>) -> Result<ProjectModel, Failure> {
        match (sql::text_at(row, 0), sql::optional_text_at(row, 1), sql::optional_integer_at(row, 2)) {
            (Ok(internal_version), Ok(name), Ok(canvas)) => Ok(
                ProjectModel { internal_version, name, primary_canvas_id: reference(canvas) },
            ),
            _ => Err(Failure::Sqlite),
        }
    }

    fn read_row(row: &SqlRow) -> (value: Result<Project, Error>) {
        Ok(
            Project {
                internal_version: row.text(0)?,
                name: row.optional_text(1)?,
                primary_canvas_id: normalize_id(row.optional_integer(2)?),
            },
        )
    }
}

/// One canvas and its root/current-layer references.
#[derive(Clone, Copy, Debug, PartialEq)]
pub struct Canvas {
    pub id: i64,
    pub unit: i64,
    pub width: Double,
    pub height: Double,
    pub resolution: Double,
    pub root_layer_id: i64,
    pub current_layer_id: Option<i64>,
}

impl View for Canvas {
    type V = Canvas;

    open spec fn view(&self) -> Canvas {
        *self
    }
}

impl Canvas {
    /// Stable SQLite `MainId` within the document.
    #[must_use]
    pub fn id(&self) -> (value: i64)
        ensures
            value == self.id,
    {
        self.id
    }

    /// Opaque `CanvasUnit` value. Zero is observed for pixels.
    #[must_use]
    pub fn unit(&self) -> (value: i64)
        ensures
            value == self.unit,
    {
        self.unit
    }

    /// Canvas width as stored by SQLite.
    #[must_use]
    pub fn width(&self) -> (value: Double)
        ensures
            value == self.width,
    {
        self.width
    }

    /// Canvas height as stored by SQLite.
    #[must_use]
    pub fn height(&self) -> (value: Double)
        ensures
            value == self.height,
    {
        self.height
    }

    /// Canvas resolution.
    #[must_use]
    pub fn resolution(&self) -> (value: Double)
        ensures
            value == self.resolution,
    {
        self.resolution
    }

    /// Special root-folder layer for this canvas.
    #[must_use]
    pub fn root_layer_id(&self) -> (value: i64)
        ensures
            value == self.root_layer_id,
    {
        self.root_layer_id
    }

    /// Current layer when present and nonzero.
    #[must_use]
    pub fn current_layer_id(&self) -> (value: Option<i64>)
        ensures
            value == self.current_layer_id,
    {
        self.current_layer_id
    }
}

impl FromRow for Canvas {
    open spec fn row_model(row: Seq<SqlModel>) -> Result<Canvas, Failure> {
        match (
            sql::integer_at(row, 0),
            sql::integer_at(row, 1),
            sql::real_at(row, 2),
            sql::real_at(row, 3),
            sql::real_at(row, 4),
            sql::integer_at(row, 5),
            sql::optional_integer_at(row, 6),
        ) {
            (
                Ok(id),
                Ok(unit),
                Ok(width),
                Ok(height),
                Ok(resolution),
                Ok(root_layer_id),
                Ok(current),
            ) => Ok(
                Canvas {
                    id,
                    unit,
                    width,
                    height,
                    resolution,
                    root_layer_id,
                    current_layer_id: reference(current),
                },
            ),
            _ => Err(Failure::Sqlite),
        }
    }

    fn read_row(row: &SqlRow) -> (value: Result<Canvas, Error>) {
        Ok(
            Canvas {
                id: row.integer(0)?,
                unit: row.integer(1)?,
                width: row.number(2)?,
                height: row.number(3)?,
                resolution: row.number(4)?,
                root_layer_id: row.integer(5)?,
                current_layer_id: normalize_id(row.optional_integer(6)?),
            },
        )
    }
}

/// Whether a length is positive and no more than a limit.
pub open spec fn canvas_dimension_allowed(value: Double, limit: u32) -> bool {
    value.finite() && value.order() > 0 && value.value() <= limit * vstd::arithmetic::power2::pow2(
        1074,
    )
}

fn canvas_dimension_fits(value: Double, limit: u32) -> (fits: bool)
    ensures
        fits == canvas_dimension_allowed(value, limit),
{
    if !value.is_finite() || !value.is_positive() {
        return false;
    }
    let bound = Double::from_u32(limit);
    proof {
        reals::order_is_numeric(value, bound);
    }
    value.at_most(bound)
}

/// What is said of a canvas whose size cannot be used.
pub open spec fn dimension_complaint(name: Seq<char>, value: Seq<char>, limit: u32) -> Seq<char> {
    "Canvas "@ + name + " "@ + value + " is outside the supported range 0..="@ + message::decimal(
        limit as nat,
    )
}

/// What is said of the first canvas from `at` on that cannot be used, if there is one.
pub open spec fn canvas_fault(
    canvases: Seq<Canvas>,
    reply: sql::ReplyModel,
    limit: u32,
    at: int,
) -> Option<Seq<char>>
    decreases canvases.len() - at,
{
    if at >= canvases.len() {
        None
    } else if !canvas_dimension_allowed(canvases[at].width, limit) {
        Some(dimension_complaint("width"@, sql::reply_text(reply, at, 2), limit))
    } else if !canvas_dimension_allowed(canvases[at].height, limit) {
        Some(dimension_complaint("height"@, sql::reply_text(reply, at, 3), limit))
    } else if !canvases[at].resolution.finite() || canvases[at].resolution.order() <= 0 {
        Some(
            "Canvas "@ + message::decimal_signed(canvases[at].id as int)
                + " has invalid resolution "@ + sql::reply_text(reply, at, 4),
        )
    } else {
        canvas_fault(canvases, reply, limit, at + 1)
    }
}

/// The canvases that a reply lists, if all of them can be used.
pub open spec fn canvases_of(
    reply: sql::ReplyModel,
    limits: Limits,
) -> Result<Seq<Canvas>, Failure> {
    match sql::collected::<Canvas>(reply) {
        Err(failure) => Err(failure),
        Ok(canvases) => match canvas_fault(canvases, reply, limits.max_canvas_dimension, 0) {
            None => Ok(canvases),
            Some(reason) => Err(Failure::InvalidDocument { reason }),
        },
    }
}

fn invalid_document(reason: Message) -> (error: Error)
    ensures
        error@ == (Failure::InvalidDocument { reason: reason@ }),
{
    Error::InvalidDocument { reason: reason.build() }
}

fn wrong_dimension(name: &str, value: &str, limit: u32) -> (error: Error)
    ensures
        error@ == (Failure::InvalidDocument { reason: dimension_complaint(name@, value@, limit) }),
{
    invalid_document(
        Message::new("Canvas ").text(name).text(" ").text(value).text(
            " is outside the supported range 0..=",
        ).number(limit as u64),
    )
}

fn wrong_resolution(id: i64, value: &str) -> (error: Error)
    ensures
        error@ == (Failure::InvalidDocument {
            reason: "Canvas "@ + message::decimal_signed(id as int) + " has invalid resolution "@
                + value@,
        }),
{
    invalid_document(
        Message::new("Canvas ").integer(id).text(" has invalid resolution ").text(value),
    )
}

/// The canvases that a reply lists.
pub fn canvases_from_reply(reply: &Reply, limits: Limits) -> (canvases: Result<Vec<Canvas>, Error>)
    ensures
        error::listed(canvases) == canvases_of(reply@, limits),
{
    let canvases: Vec<Canvas> = collect(reply)?;
    let limit: u32 = limits.max_canvas_dimension();
    let ghost models = error::views(canvases@);
    let mut at: usize = 0;
    while at < canvases.len()
        invariant
            at <= canvases@.len(),
            models == error::views(canvases@),
            limit == limits.max_canvas_dimension,
            sql::collected::<Canvas>(reply@) == Ok::<Seq<Canvas>, Failure>(models),
            canvas_fault(models, reply@, limit, 0) == canvas_fault(
                models,
                reply@,
                limit,
                at as int,
            ),
        decreases canvases@.len() - at,
    {
        let canvas: Canvas = canvases[at];
        assert(models[at as int] == canvas);
        if !canvas_dimension_fits(canvas.width, limit) {
            return Err(wrong_dimension("width", reply.number_text(at, 2).as_str(), limit));
        }
        if !canvas_dimension_fits(canvas.height, limit) {
            return Err(wrong_dimension("height", reply.number_text(at, 3).as_str(), limit));
        }
        if !canvas.resolution.is_finite() || !canvas.resolution.is_positive() {
            return Err(wrong_resolution(canvas.id, reply.number_text(at, 4).as_str()));
        }
        at = at + 1;
    }
    Ok(canvases)
}

/// Encoded preview image stored in the `CanvasPreview` table.
#[derive(Clone, Debug, PartialEq, Eq)]
pub struct CanvasPreview {
    pub id: i64,
    pub canvas_id: i64,
    pub image_type: i64,
    pub width: u32,
    pub height: u32,
    pub data: Vec<u8>,
}

/// The model of a [`CanvasPreview`].
#[verifier::ext_equal]
pub struct PreviewModel {
    pub id: i64,
    pub canvas_id: i64,
    pub image_type: i64,
    pub width: u32,
    pub height: u32,
    pub data: Seq<u8>,
}

impl View for CanvasPreview {
    type V = PreviewModel;

    open spec fn view(&self) -> PreviewModel {
        PreviewModel {
            id: self.id,
            canvas_id: self.canvas_id,
            image_type: self.image_type,
            width: self.width,
            height: self.height,
            data: self.data@,
        }
    }
}

/// The signature that every PNG file starts with.
pub open spec fn png_signature() -> Seq<u8> {
    seq![0x89u8, 0x50, 0x4e, 0x47, 0x0d, 0x0a, 0x1a, 0x0a]
}

/// Whether data starts with the PNG signature.
pub open spec fn starts_as_png(data: Seq<u8>) -> bool {
    bytes::has_bytes_at(data, 0, png_signature())
}

fn has_png_signature(data: &[u8]) -> (found: bool)
    ensures
        found == starts_as_png(data@),
{
    let signature: [u8; 8] = [0x89, 0x50, 0x4e, 0x47, 0x0d, 0x0a, 0x1a, 0x0a];
    assert(signature@ =~= png_signature());
    bytes_match(data, 0, &signature)
}

impl CanvasPreview {
    /// Stable SQLite `MainId` within the document.
    #[must_use]
    pub fn id(&self) -> (value: i64)
        ensures
            value == self.id,
    {
        self.id
    }

    /// Canvas to which this preview belongs.
    #[must_use]
    pub fn canvas_id(&self) -> (value: i64)
        ensures
            value == self.canvas_id,
    {
        self.canvas_id
    }

    /// Original, forward-compatible `ImageType` value.
    #[must_use]
    pub fn image_type(&self) -> (value: i64)
        ensures
            value == self.image_type,
    {
        self.image_type
    }

    /// Preview width declared by SQLite and cross-checked with the PNG header.
    #[must_use]
    pub fn width(&self) -> (value: u32)
        ensures
            value == self.width,
    {
        self.width
    }

    /// Preview height declared by SQLite and cross-checked with the PNG header.
    #[must_use]
    pub fn height(&self) -> (value: u32)
        ensures
            value == self.height,
    {
        self.height
    }

    /// Encoded image bytes. Observed CLIP files store PNG data.
    #[must_use]
    pub fn data(&self) -> (list: &[u8])
        ensures
            list@ == self.data@,
    {
        self.data.as_slice()
    }

    /// Whether the encoded bytes begin with the PNG signature.
    #[must_use]
    pub fn is_png(&self) -> (found: bool)
        ensures
            found == starts_as_png(self.data@),
    {
        has_png_signature(self.data.as_slice())
    }

    /// Takes ownership of the encoded image bytes.
    #[must_use]
    pub fn into_data(self) -> (data: Vec<u8>)
        ensures
            data@ == self.data@,
    {
        self.data
    }
}

/// A preview size that fits in 32 bits, is not zero, and respects the limit.
pub open spec fn preview_dimension_of(
    name: Seq<char>,
    value: i64,
    limit: u32,
) -> Result<u32, Failure> {
    if 0 < value <= limit {
        Ok(value as u32)
    } else {
        let subject = "CanvasPreview "@ + name + " "@ + message::decimal_signed(value as int);
        Err(
            Failure::InvalidDocument {
                reason: if value < 0 || value > u32::MAX {
                    subject + " is not a positive 32-bit value"@
                } else {
                    subject + " is outside the supported range 1..="@ + message::decimal(
                        limit as nat,
                    )
                },
            },
        )
    }
}

fn validate_preview_dimension(name: &str, value: i64, limit: u32) -> (number: Result<u32, Error>)
    ensures
        error::plain(number) == preview_dimension_of(name@, value, limit),
{
    if value < 0 || value > u32::MAX as i64 {
        return Err(
            invalid_document(
                Message::new("CanvasPreview ").text(name).text(" ").integer(value).text(
                    " is not a positive 32-bit value",
                ),
            ),
        );
    }
    if value == 0 || value as u32 > limit {
        return Err(
            invalid_document(
                Message::new("CanvasPreview ").text(name).text(" ").integer(value).text(
                    " is outside the supported range 1..=",
                ).number(limit as u64),
            ),
        );
    }
    Ok(value as u32)
}

/// Whether an image either is no PNG or has a PNG header of that size.
pub open spec fn png_agrees(data: Seq<u8>, width: u32, height: u32) -> bool {
    starts_as_png(data) ==> {
        &&& data.len() >= 24
        &&& bytes::be32(data, 8) == 13
        &&& bytes::has_bytes_at(data, 12, seq![0x49u8, 0x48, 0x44, 0x52])
        &&& bytes::be32(data, 16) == width
        &&& bytes::be32(data, 20) == height
    }
}

/// What is said of an image whose header does not agree.
pub open spec fn png_complaint(data: Seq<u8>, width: u32, height: u32) -> Seq<char> {
    if data.len() < 24 {
        "CanvasPreview PNG header is truncated"@
    } else if bytes::be32(data, 8) != 13 || !bytes::has_bytes_at(
        data,
        12,
        seq![0x49u8, 0x48, 0x44, 0x52],
    ) {
        "CanvasPreview PNG does not begin with IHDR"@
    } else {
        "CanvasPreview dimensions "@ + message::decimal(width as nat) + "x"@ + message::decimal(
            height as nat,
        ) + " do not match PNG IHDR "@ + message::decimal(bytes::be32(data, 16) as nat) + "x"@
            + message::decimal(bytes::be32(data, 20) as nat)
    }
}

fn validate_png_preview(data: &[u8], width: u32, height: u32) -> (result: Result<(), Error>)
    ensures
        error::plain(result) == if png_agrees(data@, width, height) {
            Ok::<(), Failure>(())
        } else {
            Err(Failure::InvalidDocument { reason: png_complaint(data@, width, height) })
        },
{
    if !has_png_signature(data) {
        return Ok(());
    }
    if data.len() < 24 {
        return Err(invalid_document(Message::new("CanvasPreview PNG header is truncated")));
    }
    let kind: [u8; 4] = [0x49, 0x48, 0x44, 0x52];
    assert(kind@ =~= seq![0x49u8, 0x48, 0x44, 0x52]);
    if read_be32(data, 8) != 13 || !bytes_match(data, 12, &kind) {
        return Err(invalid_document(Message::new("CanvasPreview PNG does not begin with IHDR")));
    }
    let png_width: u32 = read_be32(data, 16);
    let png_height: u32 = read_be32(data, 20);
    if png_width != width || png_height != height {
        return Err(
            invalid_document(
                Message::new("CanvasPreview dimensions ").number(width as u64).text("x").number(
                    height as u64,
                ).text(" do not match PNG IHDR ").number(png_width as u64).text("x").number(
                    png_height as u64,
                ),
            ),
        );
    }
    Ok(())
}

/// The preview that a reply holds, checked against the limits and its own header.
pub open spec fn preview_of(reply: sql::ReplyModel, limits: Limits) -> Result<
    Option<PreviewModel>,
    Failure,
> {
    match sql::first_row(reply) {
        Err(failure) => Err(failure),
        Ok(None) => Ok(None),
        Ok(Some(row)) => match (
            sql::integer_at(row, 0),
            sql::integer_at(row, 1),
            sql::integer_at(row, 2),
            sql::integer_at(row, 3),
            sql::integer_at(row, 4),
            sql::blob_at(row, 5),
        ) {
            (Ok(id), Ok(canvas_id), Ok(image_type), Ok(width), Ok(height), Ok(data)) => match (
                preview_dimension_of("width"@, width, limits.max_canvas_dimension),
                preview_dimension_of("height"@, height, limits.max_canvas_dimension),
            ) {
                (Ok(width), Ok(height)) => if data.len() > limits.max_preview_bytes {
                    Err(
                        Failure::LimitExceeded {
                            resource: "canvas preview bytes"@,
                            value: data.len() as u64,
                            limit: limits.max_preview_bytes,
                        },
                    )
                } else if !png_agrees(data, width, height) {
                    Err(Failure::InvalidDocument { reason: png_complaint(data, width, height) })
                } else {
                    Ok(Some(PreviewModel { id, canvas_id, image_type, width, height, data }))
                },
                (Err(failure), _) => Err(failure),
                (Ok(_), Err(failure)) => Err(failure),
            },
            _ => Err(Failure::Sqlite),
        },
    }
}

/// The preview that a reply holds, checked against the limits and its own header.
pub fn preview_from_reply(reply: &Reply, limits: Limits) -> (preview: Result<
    Option<CanvasPreview>,
    Error,
>)
    ensures
        error::optional_outcome(preview) == preview_of(reply@, limits),
{
    let row = match reply.first_row()? {
        Some(row) => row,
        None => return Ok(None),
    };
    let id: i64 = row.integer(0)?;
    let canvas_id: i64 = row.integer(1)?;
    let image_type: i64 = row.integer(2)?;
    let width: i64 = row.integer(3)?;
    let height: i64 = row.integer(4)?;
    let data = row.blob(5)?;
    let width: u32 = validate_preview_dimension("width", width, limits.max_canvas_dimension())?;
    let height: u32 = validate_preview_dimension("height", height, limits.max_canvas_dimension())?;
    let size: u64 = data.len() as u64;
    if size > limits.max_preview_bytes() {
        return Err(Error::limit("canvas preview bytes", size, limits.max_preview_bytes()));
    }
    validate_png_preview(data.as_slice(), width, height)?;
    Ok(Some(CanvasPreview { id, canvas_id, image_type, width, height, data }))
}

/// The columns that a preview is read from.
pub open spec fn preview_columns() -> Seq<Seq<char>> {
    seq!["MainId"@, "CanvasId"@, "ImageType"@, "ImageWidth"@, "ImageHeight"@, "ImageData"@]
}

/// What is asked for a preview, in order.
pub open spec fn preview_items() -> Seq<Seq<char>> {
    seq![
        "MainId"@,
        "CanvasId"@,
        "ImageType"@,
        "ImageWidth"@,
        "ImageHeight"@,
        "ImageData"@,
    ]
}

/// Whether reading the preview of a canvas can have this outcome.
pub open spec fn preview_read(
    connection: Connection,
    schema: Seq<database::TableModel>,
    canvas_id: i64,
    limits: Limits,
    outcome: Result<Option<PreviewModel>, Failure>,
) -> bool {
    match database::first_missing(schema, "CanvasPreview"@, preview_columns(), 0) {
        Some(failure) => outcome == Err::<Option<PreviewModel>, Failure>(failure),
        None => exists|reply: sql::ReplyModel|
            #[trigger] sql::may_answer(
                connection,
                columns::asked(
                    preview_items(),
                    " FROM CanvasPreview WHERE CanvasId = ?1 ORDER BY MainId LIMIT 1"@,
                ),
                seq![sql::ParameterModel::Integer(canvas_id)],
                reply,
            ) && outcome == preview_of(reply, limits),
    }
}

impl Database {
    /// Loads the encoded preview for one canvas under the configured size limit.
    pub fn canvas_preview(&self, canvas_id: i64, limits: Limits) -> (preview: Result<
        Option<CanvasPreview>,
        Error,
    >)
        ensures
            preview_read(
                self.connection,
                self.schema@,
                canvas_id,
                limits,
                error::optional_outcome(preview),
            ),
    {
        let columns: [&str; 6] = [
            "MainId",
            "CanvasId",
            "ImageType",
            "ImageWidth",
            "ImageHeight",
            "ImageData",
        ];
        assert(database::names(columns@) =~= preview_columns());
        if let Some(error) = self.schema.first_missing_column("CanvasPreview", &columns) {
            return Err(error);
        }
        let asked: [&str; 6] = ["MainId", "CanvasId", "ImageType", "ImageWidth", "ImageHeight", "ImageData"];
        assert(database::names(asked@) =~= preview_items());
        let reply = query_by_id(
            &self.connection,
            columns::ask(
                &asked,
                " FROM CanvasPreview WHERE CanvasId = ?1 ORDER BY MainId LIMIT 1",
            ).as_str(),
            canvas_id,
        );
        preview_from_reply(&reply, limits)
    }
}

/// Raw, forward-compatible `LayerType` flags.
#[derive(Clone, Copy, Debug, PartialEq, Eq, PartialOrd, Ord, Hash)]
pub struct LayerKind {
    pub raw: i64,
}

impl LayerKind {
    /// Original SQLite value.
    #[must_use]
    pub fn raw(self) -> (value: i64)
        ensures
            value == self.raw,
    {
        self.raw
    }

    /// Whether the observed pixel-layer bit is set.
    #[must_use]
    pub fn is_pixel(self) -> (set: bool)
        ensures
            set == (self.raw & 1 != 0),
    {
        self.raw & 1 != 0
    }

    /// Whether the observed root-folder bit is set.
    #[must_use]
    pub fn is_root_folder(self) -> (set: bool)
        ensures
            set == (self.raw & 256 != 0),
    {
        self.raw & 256 != 0
    }

    /// Whether the observed 2D-camera layer bit is set.
    #[must_use]
    pub fn is_camera_2d(self) -> (set: bool)
        ensures
            set == (self.raw & 512 != 0),
    {
        self.raw & 512 != 0
    }

    /// Whether the observed correction-layer bit is set.
    #[must_use]
    pub fn is_correction(self) -> (set: bool)
        ensures
            set == (self.raw & 4096 != 0),
    {
        self.raw & 4096 != 0
    }
}

/// Raw, forward-compatible `LayerComposite` value.
#[derive(Clone, Copy, Debug, PartialEq, Eq, PartialOrd, Ord, Hash)]
pub struct BlendMode {
    pub raw: i64,
}

impl BlendMode {
    /// Normal composition.
    #[must_use]
    pub fn normal() -> (mode: BlendMode)
        ensures
            mode.raw == 0,
    {
        BlendMode { raw: 0 }
    }

    /// Multiply composition.
    #[must_use]
    pub fn multiply() -> (mode: BlendMode)
        ensures
            mode.raw == 2,
    {
        BlendMode { raw: 2 }
    }

    /// Screen composition.
    #[must_use]
    pub fn screen() -> (mode: BlendMode)
        ensures
            mode.raw == 8,
    {
        BlendMode { raw: 8 }
    }

    /// Overlay composition.
    #[must_use]
    pub fn overlay() -> (mode: BlendMode)
        ensures
            mode.raw == 14,
    {
        BlendMode { raw: 14 }
    }


    /// Original SQLite value.
    #[must_use]
    pub fn raw(self) -> (value: i64)
        ensures
            value == self.raw,
    {
        self.raw
    }
}

/// Core, version-stable fields from one `Layer` row.
#[derive(Clone, Debug, PartialEq, Eq)]
pub struct Layer {
    pub id: i64,
    pub canvas_id: i64,
    pub name: Option<String>,
    pub kind: LayerKind,
    pub opacity: i64,
    pub blend_mode: BlendMode,
    pub lock_flags: i64,
    pub clip_flags: i64,
    pub masking_flags: i64,
    pub folder_flags: i64,
    pub visibility_flags: i64,
    pub next_sibling_id: Option<i64>,
    pub first_child_id: Option<i64>,
    pub render_mipmap_id: Option<i64>,
    pub mask_mipmap_id: Option<i64>,
}

/// The model of a [`Layer`].
#[verifier::ext_equal]
pub struct LayerModel {
    pub id: i64,
    pub canvas_id: i64,
    pub name: Option<Seq<char>>,
    pub kind: LayerKind,
    pub opacity: i64,
    pub blend_mode: BlendMode,
    pub lock_flags: i64,
    pub clip_flags: i64,
    pub masking_flags: i64,
    pub folder_flags: i64,
    pub visibility_flags: i64,
    pub next_sibling_id: Option<i64>,
    pub first_child_id: Option<i64>,
    pub render_mipmap_id: Option<i64>,
    pub mask_mipmap_id: Option<i64>,
}

impl View for Layer {
    type V = LayerModel;

    open spec fn view(&self) -> LayerModel {
        LayerModel {
            id: self.id,
            canvas_id: self.canvas_id,
            name: error::optional_text(self.name),
            kind: self.kind,
            opacity: self.opacity,
            blend_mode: self.blend_mode,
            lock_flags: self.lock_flags,
            clip_flags: self.clip_flags,
            masking_flags: self.masking_flags,
            folder_flags: self.folder_flags,
            visibility_flags: self.visibility_flags,
            next_sibling_id: self.next_sibling_id,
            first_child_id: self.first_child_id,
            render_mipmap_id: self.render_mipmap_id,
            mask_mipmap_id: self.mask_mipmap_id,
        }
    }
}

impl Layer {
    /// Stable SQLite `MainId` within the document.
    #[must_use]
    pub fn id(&self) -> (value: i64)
        ensures
            value == self.id,
    {
        self.id
    }

    /// Owning canvas ID.
    #[must_use]
    pub fn canvas_id(&self) -> (value: i64)
        ensures
            value == self.canvas_id,
    {
        self.canvas_id
    }

    /// Layer name when stored as text.
    #[must_use]
    pub fn name(&self) -> (text: Option<&str>)
        ensures
            text is Some == self.name is Some,
            text matches Some(text) ==> text@ == self.name.unwrap()@,
    {
        match &self.name {
            Some(text) => Some(text.as_str()),
            None => None,
        }
    }

    /// Raw layer-type flags with conservative helpers.
    #[must_use]
    pub fn kind(&self) -> (value: LayerKind)
        ensures
            value == self.kind,
    {
        self.kind
    }

    /// Raw opacity, observed in the inclusive range 0–256.
    #[must_use]
    pub fn opacity(&self) -> (value: i64)
        ensures
            value == self.opacity,
    {
        self.opacity
    }

    /// Opacity as a fraction, where one is fully opaque.
    #[must_use]
    pub fn opacity_fraction(&self) -> (fraction: Double)
        ensures
            fraction.bits == reals::halved_bits(reals::integer_bits(self.opacity as int), 8),
    {
        Double::from_i64(self.opacity).halved(8)
    }

    /// Raw blend-mode value with common constants.
    #[must_use]
    pub fn blend_mode(&self) -> (value: BlendMode)
        ensures
            value == self.blend_mode,
    {
        self.blend_mode
    }

    /// Original `LayerLock` flags.
    #[must_use]
    pub fn lock_flags(&self) -> (value: i64)
        ensures
            value == self.lock_flags,
    {
        self.lock_flags
    }

    /// Original `LayerClip` flags.
    #[must_use]
    pub fn clip_flags(&self) -> (value: i64)
        ensures
            value == self.clip_flags,
    {
        self.clip_flags
    }

    /// Original `LayerMasking` flags.
    #[must_use]
    pub fn masking_flags(&self) -> (value: i64)
        ensures
            value == self.masking_flags,
    {
        self.masking_flags
    }

    /// Original `LayerFolder` flags.
    #[must_use]
    pub fn folder_flags(&self) -> (value: i64)
        ensures
            value == self.folder_flags,
    {
        self.folder_flags
    }

    /// Original `LayerVisibility` flags.
    #[must_use]
    pub fn visibility_flags(&self) -> (value: i64)
        ensures
            value == self.visibility_flags,
    {
        self.visibility_flags
    }

    /// Next sibling in the on-disk linked list.
    #[must_use]
    pub fn next_sibling_id(&self) -> (value: Option<i64>)
        ensures
            value == self.next_sibling_id,
    {
        self.next_sibling_id
    }

    /// First child in the on-disk linked list.
    #[must_use]
    pub fn first_child_id(&self) -> (value: Option<i64>)
        ensures
            value == self.first_child_id,
    {
        self.first_child_id
    }

    /// Base render mipmap reference, if present and nonzero.
    #[must_use]
    pub fn render_mipmap_id(&self) -> (value: Option<i64>)
        ensures
            value == self.render_mipmap_id,
    {
        self.render_mipmap_id
    }

    /// Layer-mask mipmap reference, if present and nonzero.
    #[must_use]
    pub fn mask_mipmap_id(&self) -> (value: Option<i64>)
        ensures
            value == self.mask_mipmap_id,
    {
        self.mask_mipmap_id
    }

    /// Whether the observed visible bit is set.
    #[must_use]
    pub fn is_visible(&self) -> (set: bool)
        ensures
            set == (self.visibility_flags & 1 != 0),
    {
        self.visibility_flags & 1 != 0
    }

    /// Whether the observed folder bit is set.
    #[must_use]
    pub fn is_folder(&self) -> (set: bool)
        ensures
            set == (self.folder_flags & 1 != 0),
    {
        self.folder_flags & 1 != 0
    }

    /// Whether the observed closed-folder bit is set.
    #[must_use]
    pub fn is_folder_closed(&self) -> (set: bool)
        ensures
            set == (self.folder_flags & 16 != 0),
    {
        self.folder_flags & 16 != 0
    }

    /// Whether clipping to the layer below is enabled.
    #[must_use]
    pub fn is_clipped(&self) -> (set: bool)
        ensures
            set == (self.clip_flags != 0),
    {
        self.clip_flags != 0
    }
}

impl FromRow for Layer {
    open spec fn row_model(row: Seq<SqlModel>) -> Result<LayerModel, Failure> {
        if (forall|i: int| 0 <= i <= 10 && i != 2 ==> #[trigger] sql::integer_at(row, i) is Ok)
            && sql::optional_text_at(row, 2) is Ok && (forall|i: int|
            11 <= i <= 14 ==> #[trigger] sql::optional_integer_at(row, i) is Ok) {
            Ok(
                LayerModel {
                    id: sql::integer_at(row, 0)->Ok_0,
                    canvas_id: sql::integer_at(row, 1)->Ok_0,
                    name: sql::optional_text_at(row, 2)->Ok_0,
                    kind: LayerKind { raw: sql::integer_at(row, 3)->Ok_0 },
                    opacity: sql::integer_at(row, 4)->Ok_0,
                    blend_mode: BlendMode { raw: sql::integer_at(row, 5)->Ok_0 },
                    lock_flags: sql::integer_at(row, 6)->Ok_0,
                    clip_flags: sql::integer_at(row, 7)->Ok_0,
                    masking_flags: sql::integer_at(row, 8)->Ok_0,
                    folder_flags: sql::integer_at(row, 9)->Ok_0,
                    visibility_flags: sql::integer_at(row, 10)->Ok_0,
                    next_sibling_id: reference(sql::optional_integer_at(row, 11)->Ok_0),
                    first_child_id: reference(sql::optional_integer_at(row, 12)->Ok_0),
                    render_mipmap_id: reference(sql::optional_integer_at(row, 13)->Ok_0),
                    mask_mipmap_id: reference(sql::optional_integer_at(row, 14)->Ok_0),
                },
            )
        } else {
            Err(Failure::Sqlite)
        }
    }

    fn read_row(row: &SqlRow) -> (value: Result<Layer, Error>) {
        Ok(
            Layer {
                id: row.integer(0)?,
                canvas_id: row.integer(1)?,
                name: row.optional_text(2)?,
                kind: LayerKind { raw: row.integer(3)? },
                opacity: row.integer(4)?,
                blend_mode: BlendMode { raw: row.integer(5)? },
                lock_flags: row.integer(6)?,
                clip_flags: row.integer(7)?,
                masking_flags: row.integer(8)?,
                folder_flags: row.integer(9)?,
                visibility_flags: row.integer(10)?,
                next_sibling_id: normalize_id(row.optional_integer(11)?),
                first_child_id: normalize_id(row.optional_integer(12)?),
                render_mipmap_id: normalize_id(row.optional_integer(13)?),
                mask_mipmap_id: normalize_id(row.optional_integer(14)?),
            },
        )
    }
}

/// What is said of the first layer from `at` on that has no valid opacity, if there is one.
pub open spec fn opacity_fault(layers: Seq<LayerModel>, at: int) -> Option<Seq<char>>
    decreases layers.len() - at,
{
    if at >= layers.len() {
        None
    } else if !(0 <= layers[at].opacity <= 256) {
        Some(
            "Layer "@ + message::decimal_signed(layers[at].id as int) + " has opacity "@
                + message::decimal_signed(layers[at].opacity as int) + ", expected 0..=256"@,
        )
    } else {
        opacity_fault(layers, at + 1)
    }
}

/// The layers that a reply lists, if all of them have a valid opacity.
pub open spec fn layers_of(reply: sql::ReplyModel) -> Result<Seq<LayerModel>, Failure> {
    match sql::collected::<Layer>(reply) {
        Err(failure) => Err(failure),
        Ok(layers) => match opacity_fault(layers, 0) {
            None => Ok(layers),
            Some(reason) => Err(Failure::InvalidDocument { reason }),
        },
    }
}

/// The layers that a reply lists.
pub fn layers_from_reply(reply: &Reply) -> (layers: Result<Vec<Layer>, Error>)
    ensures
        error::listed(layers) == layers_of(reply@),
{
    let layers: Vec<Layer> = collect(reply)?;
    let ghost models = error::views(layers@);
    let mut at: usize = 0;
    while at < layers.len()
        invariant
            at <= layers@.len(),
            models == error::views(layers@),
            sql::collected::<Layer>(reply@) == Ok::<Seq<LayerModel>, Failure>(models),
            opacity_fault(models, 0) == opacity_fault(models, at as int),
        decreases layers@.len() - at,
    {
        assert(models[at as int] == layers@[at as int]@);
        let opacity: i64 = layers[at].opacity;
        if opacity < 0 || opacity > 256 {
            return Err(
                invalid_document(
                    Message::new("Layer ").integer(layers[at].id).text(" has opacity ").integer(
                        opacity,
                    ).text(", expected 0..=256"),
                ),
            );
        }
        at = at + 1;
    }
    Ok(layers)
}


/// The references between the first `count` layers that belong to a canvas.
pub open spec fn canvas_links(layers: Seq<LayerModel>, canvas_id: i64, count: int) -> Map<i64, Link>
    decreases count,
{
    if count <= 0 {
        Map::empty()
    } else {
        let layer = layers[count - 1];
        let before = canvas_links(layers, canvas_id, count - 1);
        if layer.canvas_id == canvas_id {
            before.insert(
                layer.id,
                Link { next: layer.next_sibling_id, first_child: layer.first_child_id },
            )
        } else {
            before
        }
    }
}

/// The layers among the first `count` that belong to a canvas but were not reached.
pub open spec fn left_out(
    layers: Seq<LayerModel>,
    canvas_id: i64,
    reached: Set<i64>,
    count: int,
) -> Seq<i64>
    decreases count,
{
    if count <= 0 {
        Seq::empty()
    } else {
        let layer = layers[count - 1];
        let before = left_out(layers, canvas_id, reached, count - 1);
        if layer.canvas_id == canvas_id && !reached.contains(layer.id) {
            links::placed(before, layer.id)
        } else {
            before
        }
    }
}

/// Validated layer hierarchy for one canvas.
#[derive(Clone, Debug, PartialEq, Eq)]
pub struct LayerTree {
    pub canvas_id: i64,
    pub root_layer_id: i64,
    pub children: BTreeMap<i64, Vec<i64>>,
    pub unreachable_layer_ids: Vec<i64>,
}

/// The model of a [`LayerTree`].
#[verifier::ext_equal]
pub struct LayerTreeModel {
    pub canvas_id: i64,
    pub root_layer_id: i64,
    pub children: Map<i64, Seq<i64>>,
    pub unreachable_layer_ids: Seq<i64>,
}

impl View for LayerTree {
    type V = LayerTreeModel;

    open spec fn view(&self) -> LayerTreeModel {
        LayerTreeModel {
            canvas_id: self.canvas_id,
            root_layer_id: self.root_layer_id,
            children: links::lists(self.children@),
            unreachable_layer_ids: self.unreachable_layer_ids@,
        }
    }
}

impl LayerTree {
    /// Owning canvas ID.
    #[must_use]
    pub fn canvas_id(&self) -> (value: i64)
        ensures
            value == self.canvas_id,
    {
        self.canvas_id
    }

    /// Special root layer.
    #[must_use]
    pub fn root_layer_id(&self) -> (value: i64)
        ensures
            value == self.root_layer_id,
    {
        self.root_layer_id
    }

    /// Ordered children for a reachable layer, or `None` for an unknown ID.
    #[must_use]
    pub fn children_of(&self, layer_id: i64) -> (children: Option<&[i64]>)
        ensures
            children is Some == self@.children.contains_key(layer_id),
            children matches Some(list) ==> list@ == self@.children[layer_id],
    {
        match self.children.get(&layer_id) {
            Some(list) => Some(list.as_slice()),
            None => None,
        }
    }

    /// Ordered top-level layers below the special root.
    #[must_use]
    pub fn root_children(&self) -> (children: &[i64])
        ensures
            children@ == if self@.children.contains_key(self.root_layer_id) {
                self@.children[self.root_layer_id]
            } else {
                Seq::empty()
            },
    {
        match self.children_of(self.root_layer_id) {
            Some(list) => list,
            None => &[],
        }
    }

    /// Number of layers reachable from the root, including the root itself.
    #[must_use]
    pub fn reachable_layer_count(&self) -> (count: usize)
        ensures
            count == self@.children.dom().len(),
    {
        assert(self@.children.dom() =~= self.children@.dom());
        self.children.len()
    }

    /// Rows belonging to the canvas but not reachable from its current root.
    #[must_use]
    pub fn unreachable_layer_ids(&self) -> (list: &[i64])
        ensures
            list@ == self.unreachable_layer_ids@,
    {
        self.unreachable_layer_ids.as_slice()
    }
}

/// The tree of a canvas, or why its layers form none.
pub open spec fn layer_tree_of(canvas: Canvas, layers: Seq<LayerModel>, depth_limit: u64) -> Result<
    LayerTreeModel,
    Failure,
> {
    let links = canvas_links(layers, canvas.id, layers.len() as int);
    if !links.contains_key(canvas.root_layer_id) {
        Err(
            Failure::InvalidDocument {
                reason: "Canvas "@ + message::decimal_signed(canvas.id as int) + " root layer "@
                    + message::decimal_signed(canvas.root_layer_id as int) + " is missing"@,
            },
        )
    } else if canvas.current_layer_id is Some && !links.contains_key(
        canvas.current_layer_id->Some_0,
    ) {
        Err(
            Failure::InvalidDocument {
                reason: "Canvas "@ + message::decimal_signed(canvas.id as int)
                    + " current layer "@ + message::decimal_signed(
                    canvas.current_layer_id->Some_0 as int,
                ) + " is missing"@,
            },
        )
    } else {
        match links::tree_of(links, canvas.root_layer_id, depth_limit, true) {
            Err(links::FaultModel::Depth(depth)) => Err(
                Failure::LimitExceeded {
                    resource: "layer tree depth"@,
                    value: depth,
                    limit: depth_limit,
                },
            ),
            Err(links::FaultModel::Missing { id, parent }) => Err(
                Failure::InvalidDocument {
                    reason: "Layer "@ + message::decimal_signed(parent as int)
                        + " refers to missing child Layer "@ + message::decimal_signed(id as int)
                        + " on Canvas "@ + message::decimal_signed(canvas.id as int),
                },
            ),
            Err(links::FaultModel::Cyclic { id, parent }) => Err(
                Failure::InvalidDocument {
                    reason: "sibling cycle below Layer "@ + message::decimal_signed(parent as int)
                        + " at Layer "@ + message::decimal_signed(id as int),
                },
            ),
            Err(links::FaultModel::Repeated { id, .. }) => Err(
                Failure::InvalidDocument {
                    reason: "Layer "@ + message::decimal_signed(id as int)
                        + " is reachable more than once or forms a cycle"@,
                },
            ),
            Ok(tree) => Ok(
                LayerTreeModel {
                    canvas_id: canvas.id,
                    root_layer_id: canvas.root_layer_id,
                    children: tree.children,
                    unreachable_layer_ids: left_out(
                        layers,
                        canvas.id,
                        tree.children.dom(),
                        layers.len() as int,
                    ),
                },
            ),
        }
    }
}

proof fn canvas_links_finite(layers: Seq<LayerModel>, canvas_id: i64, count: int)
    ensures
        canvas_links(layers, canvas_id, count).dom().finite(),
    decreases count,
{
    if count > 0 {
        canvas_links_finite(layers, canvas_id, count - 1);
    }
}

proof fn left_out_in_order(layers: Seq<LayerModel>, canvas_id: i64, reached: Set<i64>, count: int)
    requires
        0 <= count <= layers.len(),
    ensures
        links::increasing(left_out(layers, canvas_id, reached, count)),
        forall|id: i64| #[trigger]
            left_out(layers, canvas_id, reached, count).contains(id) <==> canvas_links(
                layers,
                canvas_id,
                count,
            ).contains_key(id) && !reached.contains(id),
    decreases count,
{
    if count > 0 {
        left_out_in_order(layers, canvas_id, reached, count - 1);
        links::placed_in_order(
            left_out(layers, canvas_id, reached, count - 1),
            layers[count - 1].id,
        );
    }
}

/// The layers of a canvas that has a tree: those in the tree form one, in which each
/// has its stored chain of children and each but the root exactly one parent; those
/// outside of it are listed in increasing order, and no other layer is.
pub proof fn layer_tree_splits_the_canvas(
    canvas: Canvas,
    layers: Seq<LayerModel>,
    depth_limit: u64,
)
    requires
        layer_tree_of(canvas, layers, depth_limit) is Ok,
    ensures
        ({
            let links = canvas_links(layers, canvas.id, layers.len() as int);
            let tree = layer_tree_of(canvas, layers, depth_limit)->Ok_0;
            let walked = links::tree_of(links, canvas.root_layer_id, depth_limit, true)->Ok_0;
            &&& walked.children == tree.children
            &&& links::is_tree(links, canvas.root_layer_id, walked)
            &&& links::increasing(tree.unreachable_layer_ids)
            &&& forall|id: i64| #[trigger]
                tree.unreachable_layer_ids.contains(id) <==> links.contains_key(id)
                    && !tree.children.contains_key(id)
        }),
{
    canvas_links_finite(layers, canvas.id, layers.len() as int);
    let links = canvas_links(layers, canvas.id, layers.len() as int);
    links::walked_tree_is_a_tree(links, canvas.root_layer_id, depth_limit, true);
    let tree = layer_tree_of(canvas, layers, depth_limit)->Ok_0;
    left_out_in_order(layers, canvas.id, tree.children.dom(), layers.len() as int);
}

/// How many of the first `count` layers belong to a canvas.
pub open spec fn layers_on(layers: Seq<LayerModel>, canvas_id: i64, count: int) -> nat
    decreases count,
{
    if count <= 0 {
        0
    } else {
        layers_on(layers, canvas_id, count - 1) + if layers[count - 1].canvas_id == canvas_id {
            1nat
        } else {
            0nat
        }
    }
}

/// Whether no two layers have one ID.
pub open spec fn unique_layers(layers: Seq<LayerModel>) -> bool {
    forall|i: int, j: int|
        0 <= i < j < layers.len() ==> (#[trigger] layers[i]).id != (#[trigger] layers[j]).id
}

proof fn linked_layers(layers: Seq<LayerModel>, canvas_id: i64, count: int)
    requires
        0 <= count <= layers.len(),
        unique_layers(layers),
    ensures
        ({
            let links = canvas_links(layers, canvas_id, count);
            &&& links.dom().finite()
            &&& links.dom().len() == layers_on(layers, canvas_id, count)
            &&& forall|id: i64| #[trigger] links.contains_key(id) ==> exists|i: int|
                0 <= i < count && (#[trigger] layers[i]).id == id && layers[i].canvas_id
                    == canvas_id
            &&& forall|i: int|
                0 <= i < count && (#[trigger] layers[i]).canvas_id == canvas_id
                    ==> links.contains_key(layers[i].id) && links[layers[i].id] == (Link {
                    next: layers[i].next_sibling_id,
                    first_child: layers[i].first_child_id,
                })
        }),
    decreases count,
{
    if count > 0 {
        linked_layers(layers, canvas_id, count - 1);
        let before = canvas_links(layers, canvas_id, count - 1);
        let now = canvas_links(layers, canvas_id, count);
        let layer = layers[count - 1];
        assert(!before.contains_key(layer.id)) by {
            if before.contains_key(layer.id) {
                let i = choose|i: int|
                    0 <= i < count - 1 && (#[trigger] layers[i]).id == layer.id
                        && layers[i].canvas_id == canvas_id;
                assert(layers[i].id != layers[count - 1].id);
            }
        }
        if layer.canvas_id == canvas_id {
            assert(now.dom() =~= before.dom().insert(layer.id));
        }
        assert forall|id: i64| #[trigger] now.contains_key(id) implies exists|i: int|
            0 <= i < count && (#[trigger] layers[i]).id == id && layers[i].canvas_id
                == canvas_id by {
            if before.contains_key(id) {
                let i = choose|i: int|
                    0 <= i < count - 1 && (#[trigger] layers[i]).id == id && layers[i].canvas_id
                        == canvas_id;
                assert(layers[i].id == id);
            } else {
                assert(layers[count - 1].id == id);
            }
        }
        assert forall|i: int|
            0 <= i < count && (#[trigger] layers[i]).canvas_id == canvas_id implies
            now.contains_key(layers[i].id) && now[layers[i].id] == (Link {
            next: layers[i].next_sibling_id,
            first_child: layers[i].first_child_id,
        }) by {
            if i < count - 1 {
                assert(layers[i].id != layers[count - 1].id);
            }
        }
    }
}

/// Whether a tree splits the layers of its canvas: those in the tree form one, in which each
/// has its stored chain of children and each but the root exactly one parent; those outside
/// of it are listed in increasing order, and no other layer is; and the two are as many as
/// the canvas has layers.
pub open spec fn splits_canvas(tree: LayerTreeModel, layers: Seq<LayerModel>) -> bool {
    let links = canvas_links(layers, tree.canvas_id, layers.len() as int);
    &&& exists|order: Seq<i64>|
        #[trigger] links::is_tree(
            links,
            tree.root_layer_id,
            links::TreeModel { children: tree.children, order },
        )
    &&& links::increasing(tree.unreachable_layer_ids)
    &&& forall|id: i64| #[trigger]
        tree.unreachable_layer_ids.contains(id) <==> is_on(layers, tree.canvas_id, id)
            && !tree.children.contains_key(id)
    &&& forall|id: i64| #[trigger]
        tree.children.contains_key(id) ==> is_on(layers, tree.canvas_id, id)
    &&& tree.children.dom().len() + tree.unreachable_layer_ids.len() == layers_on(
        layers,
        tree.canvas_id,
        layers.len() as int,
    )
}

/// Whether a layer with that ID belongs to a canvas.
pub open spec fn is_on(layers: Seq<LayerModel>, canvas_id: i64, id: i64) -> bool {
    exists|i: int|
        0 <= i < layers.len() && (#[trigger] layers[i]).id == id && layers[i].canvas_id == canvas_id
}

/// The tree of a canvas splits its layers, where all layers have their own ID: the number of
/// reachable layers and the number of unreachable ones add up to the layers of the canvas.
pub proof fn built_tree_splits_its_canvas(
    canvas: Canvas,
    layers: Seq<LayerModel>,
    depth_limit: u64,
)
    requires
        unique_layers(layers),
        layer_tree_of(canvas, layers, depth_limit) is Ok,
    ensures
        splits_canvas(layer_tree_of(canvas, layers, depth_limit)->Ok_0, layers),
{
    let tree = layer_tree_of(canvas, layers, depth_limit)->Ok_0;
    let links = canvas_links(layers, canvas.id, layers.len() as int);
    let walked = links::tree_of(links, canvas.root_layer_id, depth_limit, true)->Ok_0;
    layer_tree_splits_the_canvas(canvas, layers, depth_limit);
    linked_layers(layers, canvas.id, layers.len() as int);
    assert(walked == links::TreeModel { children: tree.children, order: walked.order });
    assert(links::is_tree(
        links,
        tree.root_layer_id,
        links::TreeModel { children: tree.children, order: walked.order },
    ));
    let reached = tree.children.dom();
    let others = tree.unreachable_layer_ids.to_set();
    tree.unreachable_layer_ids.unique_seq_to_set();
    assert(reached.subset_of(links.dom()));
    vstd::set_lib::lemma_len_subset(reached, links.dom());
    assert(others =~= links.dom().difference(reached));
    assert(links.dom() =~= reached.union(others));
    assert(reached.disjoint(others));
    vstd::set_lib::lemma_set_disjoint_lens(reached, others);
    assert forall|id: i64| #[trigger] links.contains_key(id) <==> is_on(layers, canvas.id, id) by {
        if is_on(layers, canvas.id, id) {
            let i = choose|i: int|
                0 <= i < layers.len() && (#[trigger] layers[i]).id == id && layers[i].canvas_id
                    == canvas.id;
            assert(links.contains_key(layers[i].id));
        }
    }
    assert forall|id: i64| #[trigger]
        tree.unreachable_layer_ids.contains(id) <==> is_on(layers, tree.canvas_id, id)
            && !tree.children.contains_key(id) by {
        assert(links.contains_key(id) <==> is_on(layers, canvas.id, id));
    }
    assert forall|id: i64| #[trigger] tree.children.contains_key(id) implies is_on(
        layers,
        tree.canvas_id,
        id,
    ) by {
        assert(links.contains_key(id));
    }
}

/// Builds the layer tree of a canvas.
pub fn build_tree(canvas: &Canvas, layers: &[Layer], depth_limit: u64) -> (tree: Result<
    LayerTree,
    Error,
>)
    ensures
        error::outcome(tree) == layer_tree_of(*canvas, error::views(layers@), depth_limit),
{
    let ghost models = error::views(layers@);
    let mut links: BTreeMap<i64, Link> = BTreeMap::new();
    let mut at: usize = 0;
    assert(links@ =~= canvas_links(models, canvas.id, 0));
    while at < layers.len()
        invariant
            at <= layers@.len(),
            models == error::views(layers@),
            links@ == canvas_links(models, canvas.id, at as int),
        decreases layers@.len() - at,
    {
        assert(models[at as int] == layers@[at as int]@);
        let layer = &layers[at];
        if layer.canvas_id == canvas.id {
            links.insert(
                layer.id,
                Link { next: layer.next_sibling_id, first_child: layer.first_child_id },
            );
        }
        at = at + 1;
    }
    if !links.contains_key(&canvas.root_layer_id) {
        return Err(
            invalid_document(
                Message::new("Canvas ").integer(canvas.id).text(" root layer ").integer(
                    canvas.root_layer_id,
                ).text(" is missing"),
            ),
        );
    }
    if let Some(current) = canvas.current_layer_id {
        if !links.contains_key(&current) {
            return Err(
                invalid_document(
                    Message::new("Canvas ").integer(canvas.id).text(" current layer ").integer(
                        current,
                    ).text(" is missing"),
                ),
            );
        }
    }
    let tree = match walk_tree(&links, canvas.root_layer_id, depth_limit, true) {
        Ok(tree) => tree,
        Err((LinkFault::Depth(depth), _)) => {
            return Err(Error::limit("layer tree depth", depth, depth_limit));
        },
        Err((LinkFault::Missing(id), parent)) => {
            return Err(
                invalid_document(
                    Message::new("Layer ").integer(parent).text(
                        " refers to missing child Layer ",
                    ).integer(id).text(" on Canvas ").integer(canvas.id),
                ),
            );
        },
        Err((LinkFault::Cyclic(id), parent)) => {
            return Err(
                invalid_document(
                    Message::new("sibling cycle below Layer ").integer(parent).text(
                        " at Layer ",
                    ).integer(id),
                ),
            );
        },
        Err((LinkFault::Repeated(id), _)) => {
            return Err(
                invalid_document(
                    Message::new("Layer ").integer(id).text(
                        " is reachable more than once or forms a cycle",
                    ),
                ),
            );
        },
    };
    let mut unreachable: Vec<i64> = Vec::new();
    let mut next: usize = 0;
    while next < layers.len()
        invariant
            next <= layers@.len(),
            models == error::views(layers@),
            tree.visited@ == tree@.children.dom(),
            unreachable@ == left_out(models, canvas.id, tree@.children.dom(), next as int),
        decreases layers@.len() - next,
    {
        assert(models[next as int] == layers@[next as int]@);
        let layer = &layers[next];
        if layer.canvas_id == canvas.id && !tree.visited.contains(&layer.id) {
            place(&mut unreachable, layer.id);
        }
        next = next + 1;
    }
    Ok(
        LayerTree {
            canvas_id: canvas.id,
            root_layer_id: canvas.root_layer_id,
            children: tree.children,
            unreachable_layer_ids: unreachable,
        },
    )
}

/// Whether one of the first `count` canvases has that ID.
pub open spec fn canvas_among(canvases: Seq<Canvas>, count: int, id: i64) -> bool {
    exists|i: int| 0 <= i < count && (#[trigger] canvases[i]).id == id
}

/// Whether the IDs of canvases and layers are positive and unique, and every layer
/// belongs to a canvas.
pub open spec fn ids_are_valid(canvases: Seq<Canvas>, layers: Seq<LayerModel>) -> bool {
    &&& forall|i: int| 0 <= i < canvases.len() ==> (#[trigger] canvases[i]).id > 0
    &&& forall|i: int, j: int|
        0 <= i < j < canvases.len() ==> (#[trigger] canvases[i]).id != (#[trigger] canvases[j]).id
    &&& forall|i: int|
        0 <= i < layers.len() ==> (#[trigger] layers[i]).id > 0 && canvas_among(
            canvases,
            canvases.len() as int,
            layers[i].canvas_id,
        )
    &&& forall|i: int, j: int|
        0 <= i < j < layers.len() ==> (#[trigger] layers[i]).id != (#[trigger] layers[j]).id
}

/// Whether one of the first `count` layers has that ID.
pub open spec fn layer_among(layers: Seq<LayerModel>, count: int, id: i64) -> bool {
    exists|i: int| 0 <= i < count && (#[trigger] layers[i]).id == id
}

/// What is said of the first layer from `at` on whose IDs are not valid, if there is one.
pub open spec fn layer_ids_fault(
    canvases: Seq<Canvas>,
    layers: Seq<LayerModel>,
    at: int,
) -> Option<Seq<char>>
    decreases layers.len() - at,
{
    if at >= layers.len() {
        None
    } else if layers[at].id <= 0 || layer_among(layers, at, layers[at].id) {
        Some(
            "invalid or duplicate Layer MainId "@ + message::decimal_signed(layers[at].id as int),
        )
    } else if !canvas_among(canvases, canvases.len() as int, layers[at].canvas_id) {
        Some(
            "Layer "@ + message::decimal_signed(layers[at].id as int)
                + " refers to missing Canvas "@ + message::decimal_signed(
                layers[at].canvas_id as int,
            ),
        )
    } else {
        layer_ids_fault(canvases, layers, at + 1)
    }
}

/// What is said of the first canvas from `at` on, or else the first layer, whose IDs are not
/// valid, if there is one.
pub open spec fn ids_fault(
    canvases: Seq<Canvas>,
    layers: Seq<LayerModel>,
    at: int,
) -> Option<Seq<char>>
    decreases canvases.len() - at,
{
    if at >= canvases.len() {
        layer_ids_fault(canvases, layers, 0)
    } else if canvases[at].id <= 0 || canvas_among(canvases, at, canvases[at].id) {
        Some(
            "invalid or duplicate Canvas MainId "@ + message::decimal_signed(
                canvases[at].id as int,
            ),
        )
    } else {
        ids_fault(canvases, layers, at + 1)
    }
}

fn validate_unique_ids(canvases: &[Canvas], layers: &[Layer]) -> (result: Result<(), Error>)
    ensures
        error::plain(result) == if ids_are_valid(canvases@, error::views(layers@)) {
            Ok::<(), Failure>(())
        } else {
            Err(
                Failure::InvalidDocument {
                    reason: ids_fault(canvases@, error::views(layers@), 0)->Some_0,
                },
            )
        },
{
    let ghost models = error::views(layers@);
    let mut canvas_ids: BTreeSet<i64> = BTreeSet::new();
    let mut at: usize = 0;
    while at < canvases.len()
        invariant
            at <= canvases@.len(),
            forall|id: i64| #[trigger] canvas_ids@.contains(id) <==> canvas_among(
                canvases@,
                at as int,
                id,
            ),
            forall|i: int| 0 <= i < at ==> (#[trigger] canvases@[i]).id > 0,
            forall|i: int, j: int|
                0 <= i < j < at ==> (#[trigger] canvases@[i]).id != (#[trigger] canvases@[j]).id,
            models == error::views(layers@),
            ids_fault(canvases@, models, 0) == ids_fault(canvases@, models, at as int),
        decreases canvases@.len() - at,
    {
        let id: i64 = canvases[at].id;
        let ghost before = canvas_ids@;
        assert(before.contains(id) <==> canvas_among(canvases@, at as int, id));
        if id <= 0 || !canvas_ids.insert(id) {
            proof {
                if id > 0 {
                    assert(before.contains(id));
                    let i = choose|i: int| 0 <= i < at && (#[trigger] canvases@[i]).id == id;
                    assert(canvases@[i].id == canvases@[at as int].id);
                }
            }
            return Err(
                invalid_document(
                    Message::new("invalid or duplicate Canvas MainId ").integer(id),
                ),
            );
        }
        proof {
            assert forall|i: int, j: int| 0 <= i < j < at + 1 implies (#[trigger] canvases@[i]).id
                != (#[trigger] canvases@[j]).id by {
                if j == at {
                    assert(!canvas_among(canvases@, at as int, id));
                }
            }
            assert forall|other: i64| #[trigger] canvas_ids@.contains(other) <==> canvas_among(
                canvases@,
                at + 1,
                other,
            ) by {
                if canvas_among(canvases@, at as int, other) {
                    let i = choose|i: int| 0 <= i < at && (#[trigger] canvases@[i]).id == other;
                    assert(canvases@[i].id == other);
                }
                if other == id {
                    assert(canvases@[at as int].id == other);
                }
                assert(before.contains(other) <==> canvas_among(canvases@, at as int, other));
            }
        }
        at = at + 1;
    }
    let mut layer_ids: BTreeSet<i64> = BTreeSet::new();
    let mut next: usize = 0;
    while next < layers.len()
        invariant
            next <= layers@.len(),
            models == error::views(layers@),
            forall|id: i64| #[trigger] canvas_ids@.contains(id) <==> canvas_among(
                canvases@,
                canvases@.len() as int,
                id,
            ),
            forall|id: i64| #[trigger] layer_ids@.contains(id) ==> exists|i: int|
                0 <= i < next && (#[trigger] models[i]).id == id,
            forall|i: int| 0 <= i < next ==> layer_ids@.contains((#[trigger] models[i]).id),
            forall|i: int|
                0 <= i < next ==> (#[trigger] models[i]).id > 0 && canvas_among(
                    canvases@,
                    canvases@.len() as int,
                    models[i].canvas_id,
                ),
            forall|i: int, j: int|
                0 <= i < j < next ==> (#[trigger] models[i]).id != (#[trigger] models[j]).id,
            ids_fault(canvases@, models, 0) == layer_ids_fault(canvases@, models, next as int),
        decreases layers@.len() - next,
    {
        assert(models[next as int] == layers@[next as int]@);
        let id: i64 = layers[next].id;
        let ghost before = layer_ids@;
        proof {
            if layer_among(models, next as int, id) {
                let i = choose|i: int| 0 <= i < next && (#[trigger] models[i]).id == id;
                assert(before.contains(models[i].id));
            }
            if before.contains(id) {
                assert(layer_among(models, next as int, id));
            }
        }
        if id <= 0 || !layer_ids.insert(id) {
            proof {
                if id > 0 {
                    assert(before.contains(id));
                    let i = choose|i: int| 0 <= i < next && (#[trigger] models[i]).id == id;
                    assert(models[i].id == models[next as int].id);
                }
            }
            return Err(
                invalid_document(Message::new("invalid or duplicate Layer MainId ").integer(id)),
            );
        }
        if !canvas_ids.contains(&layers[next].canvas_id) {
            assert(!canvas_among(
                canvases@,
                canvases@.len() as int,
                models[next as int].canvas_id,
            ));
            return Err(
                invalid_document(
                    Message::new("Layer ").integer(id).text(" refers to missing Canvas ").integer(
                        layers[next].canvas_id,
                    ),
                ),
            );
        }
        proof {
            assert forall|other: i64| #[trigger] layer_ids@.contains(other) implies exists|i: int|
                0 <= i < next + 1 && (#[trigger] models[i]).id == other by {
                if other == id {
                    assert(models[next as int].id == other);
                } else {
                    assert(before.contains(other));
                    let i = choose|i: int| 0 <= i < next && (#[trigger] models[i]).id == other;
                    assert(models[i].id == other);
                }
            }
            assert forall|i: int, j: int| 0 <= i < j < next + 1 implies (#[trigger] models[i]).id
                != (#[trigger] models[j]).id by {
                if j == next {
                    assert(before.contains(models[i].id));
                }
            }
        }
        next = next + 1;
    }
    assert(ids_are_valid(canvases@, models));
    Ok(())
}

/// Read-only high-level view of the project, canvases, layers, and trees.
#[derive(Clone, Debug, PartialEq)]
pub struct Document {
    pub project: Project,
    pub canvases: Vec<Canvas>,
    pub layers: Vec<Layer>,
    pub trees: Vec<LayerTree>,
}

/// The model of a [`Document`].
#[verifier::ext_equal]
pub struct DocumentModel {
    pub project: ProjectModel,
    pub canvases: Seq<Canvas>,
    pub layers: Seq<LayerModel>,
    pub trees: Seq<LayerTreeModel>,
}

impl View for Document {
    type V = DocumentModel;

    open spec fn view(&self) -> DocumentModel {
        DocumentModel {
            project: self.project@,
            canvases: self.canvases@,
            layers: error::views(self.layers@),
            trees: error::views(self.trees@),
        }
    }
}

/// The trees of the canvases from `at` on, after the trees `found` before.
pub open spec fn trees_from(
    canvases: Seq<Canvas>,
    layers: Seq<LayerModel>,
    depth_limit: u64,
    at: int,
    found: Seq<LayerTreeModel>,
) -> Result<Seq<LayerTreeModel>, Failure>
    decreases canvases.len() - at,
{
    if at >= canvases.len() {
        Ok(found)
    } else {
        match layer_tree_of(canvases[at], layers, depth_limit) {
            Err(failure) => Err(failure),
            Ok(tree) => trees_from(canvases, layers, depth_limit, at + 1, found.push(tree)),
        }
    }
}

/// The document that these rows make up, or what is inconsistent about them.
pub open spec fn document_of(
    project: ProjectModel,
    canvases: Seq<Canvas>,
    layers: Seq<LayerModel>,
    depth_limit: u64,
) -> Result<DocumentModel, Failure> {
    if !ids_are_valid(canvases, layers) {
        Err(Failure::InvalidDocument { reason: ids_fault(canvases, layers, 0)->Some_0 })
    } else {
        match trees_from(canvases, layers, depth_limit, 0, Seq::empty()) {
            Err(failure) => Err(failure),
            Ok(trees) => if project.primary_canvas_id is Some && !canvas_among(
                canvases,
                canvases.len() as int,
                project.primary_canvas_id->Some_0,
            ) {
                Err(
                    Failure::InvalidDocument {
                        reason: "ProjectCanvas "@ + message::decimal_signed(
                            project.primary_canvas_id->Some_0 as int,
                        ) + " does not refer to a Canvas row"@,
                    },
                )
            } else {
                Ok(DocumentModel { project, canvases, layers, trees })
            },
        }
    }
}

proof fn trees_split_their_canvases(
    canvases: Seq<Canvas>,
    layers: Seq<LayerModel>,
    depth_limit: u64,
    at: int,
    found: Seq<LayerTreeModel>,
)
    requires
        unique_layers(layers),
        0 <= at <= canvases.len(),
        found.len() == at,
        forall|i: int|
            0 <= i < at ==> (#[trigger] found[i]).canvas_id == canvases[i].id && splits_canvas(
                found[i],
                layers,
            ),
        trees_from(canvases, layers, depth_limit, at, found) is Ok,
    ensures
        ({
            let trees = trees_from(canvases, layers, depth_limit, at, found)->Ok_0;
            &&& trees.len() == canvases.len()
            &&& forall|i: int|
                0 <= i < trees.len() ==> (#[trigger] trees[i]).canvas_id == canvases[i].id
                    && splits_canvas(trees[i], layers)
        }),
    decreases canvases.len() - at,
{
    if at < canvases.len() {
        built_tree_splits_its_canvas(canvases[at], layers, depth_limit);
        let tree = layer_tree_of(canvases[at], layers, depth_limit)->Ok_0;
        trees_split_their_canvases(canvases, layers, depth_limit, at + 1, found.push(tree));
    }
}

/// A document that was made has one tree for each canvas, in the same order, no two of them for
/// one canvas, and each splits the layers of its canvas.
pub proof fn document_trees_split_their_canvases(
    project: ProjectModel,
    canvases: Seq<Canvas>,
    layers: Seq<LayerModel>,
    depth_limit: u64,
)
    requires
        document_of(project, canvases, layers, depth_limit) is Ok,
    ensures
        holds_its_trees(document_of(project, canvases, layers, depth_limit)->Ok_0),
{
    trees_split_their_canvases(canvases, layers, depth_limit, 0, Seq::empty());
}

/// Whether a document has one tree for each canvas, in the same order, no two of them for one
/// canvas, each of which splits the layers of its canvas.
pub open spec fn holds_its_trees(document: DocumentModel) -> bool {
    &&& document.trees.len() == document.canvases.len()
    &&& forall|i: int|
        0 <= i < document.trees.len() ==> (#[trigger] document.trees[i]).canvas_id
            == document.canvases[i].id && splits_canvas(document.trees[i], document.layers)
    &&& forall|i: int, j: int|
        0 <= i < j < document.trees.len() ==> (#[trigger] document.trees[i]).canvas_id != (
        #[trigger] document.trees[j]).canvas_id
}

/// What is asked for the project, in order.
pub open spec fn project_items(schema: Seq<database::TableModel>) -> Seq<Seq<char>> {
    seq![
        "ProjectInternalVersion"@,
        database::column_or_null(schema, "Project"@, "ProjectName"@),
        "ProjectCanvas"@,
    ]
}

/// The question that asks for the project.
pub open spec fn project_question(schema: Seq<database::TableModel>) -> Seq<char> {
    columns::asked(project_items(schema), " FROM Project ORDER BY rowid LIMIT 1"@)
}

/// Whether reading the project can have this outcome.
pub open spec fn project_read(
    connection: Connection,
    schema: Seq<database::TableModel>,
    outcome: Result<ProjectModel, Failure>,
) -> bool {
    match database::first_missing(
        schema,
        "Project"@,
        seq!["ProjectInternalVersion"@, "ProjectCanvas"@],
        0,
    ) {
        Some(failure) => outcome == Err::<ProjectModel, Failure>(failure),
        None => exists|reply: sql::ReplyModel|
            #[trigger] sql::may_answer(
                connection,
                project_question(schema),
                Seq::empty(),
                reply,
            ) && outcome == project_of(reply),
    }
}

/// The project that a reply holds.
pub open spec fn project_of(reply: sql::ReplyModel) -> Result<ProjectModel, Failure> {
    match sql::first_row(reply) {
        Err(failure) => Err(failure),
        Ok(None) => Err(Failure::InvalidDocument { reason: "Project table is empty"@ }),
        Ok(Some(row)) => Project::row_model(row),
    }
}

/// The project that a reply holds.
pub fn project_from_reply(reply: &Reply) -> (project: Result<Project, Error>)
    ensures
        error::outcome(project) == project_of(reply@),
{
    match reply.first_row()? {
        Some(row) => Project::read_row(row),
        None => Err(invalid_document(Message::new("Project table is empty"))),
    }
}

fn read_project(database: &Database) -> (project: Result<Project, Error>)
    ensures
        project_read(database.connection, database.schema@, error::outcome(project)),
{
    let columns: [&str; 2] = ["ProjectInternalVersion", "ProjectCanvas"];
    assert(database::names(columns@) =~= seq!["ProjectInternalVersion"@, "ProjectCanvas"@]);
    if let Some(error) = database.schema.first_missing_column("Project", &columns) {
        return Err(error);
    }
    let asked: [&str; 3] = [
        "ProjectInternalVersion",
        database.schema.column_or_null("Project", "ProjectName"),
        "ProjectCanvas",
    ];
    assert(database::names(asked@) =~= project_items(database.schema@));
    let reply = query_all(
        &database.connection,
        columns::ask(&asked, " FROM Project ORDER BY rowid LIMIT 1").as_str(),
    );
    assert(
        sql::may_answer(
            database.connection,
            project_question(database.schema@),
            Seq::empty(),
            reply@,
        )
    );
    project_from_reply(&reply)
}

/// The columns that canvases are read from.
pub open spec fn canvas_columns() -> Seq<Seq<char>> {
    seq![
        "MainId"@,
        "CanvasUnit"@,
        "CanvasWidth"@,
        "CanvasHeight"@,
        "CanvasResolution"@,
        "CanvasRootFolder"@,
        "CanvasCurrentLayer"@,
    ]
}

/// What is asked for canvases, in order.
pub open spec fn canvas_items() -> Seq<Seq<char>> {
    seq![
        "MainId"@,
        "CanvasUnit"@,
        "CanvasWidth"@,
        "CanvasHeight"@,
        "CanvasResolution"@,
        "CanvasRootFolder"@,
        "CanvasCurrentLayer"@,
    ]
}

/// Whether reading the canvases can have this outcome.
pub open spec fn canvases_read(
    connection: Connection,
    schema: Seq<database::TableModel>,
    limits: Limits,
    outcome: Result<Seq<Canvas>, Failure>,
) -> bool {
    match database::first_missing(schema, "Canvas"@, canvas_columns(), 0) {
        Some(failure) => outcome == Err::<Seq<Canvas>, Failure>(failure),
        None => exists|reply: sql::ReplyModel|
            #[trigger] sql::may_answer(
                connection,
                columns::asked(canvas_items(), " FROM Canvas ORDER BY rowid"@),
                Seq::empty(),
                reply,
            ) && outcome == canvases_of(reply, limits),
    }
}

fn read_canvases(database: &Database, limits: Limits) -> (canvases: Result<Vec<Canvas>, Error>)
    ensures
        canvases_read(database.connection, database.schema@, limits, error::listed(canvases)),
{
    let columns: [&str; 7] = [
        "MainId",
        "CanvasUnit",
        "CanvasWidth",
        "CanvasHeight",
        "CanvasResolution",
        "CanvasRootFolder",
        "CanvasCurrentLayer",
    ];
    assert(database::names(columns@) =~= canvas_columns());
    if let Some(error) = database.schema.first_missing_column("Canvas", &columns) {
        return Err(error);
    }
    let asked: [&str; 7] = ["MainId", "CanvasUnit", "CanvasWidth", "CanvasHeight", "CanvasResolution", "CanvasRootFolder", "CanvasCurrentLayer"];
    assert(database::names(asked@) =~= canvas_items());
    let reply = query_all(
        &database.connection,
        columns::ask(&asked, " FROM Canvas ORDER BY rowid").as_str(),
    );
    canvases_from_reply(&reply, limits)
}

/// The columns that layers are read from.
pub open spec fn layer_columns() -> Seq<Seq<char>> {
    seq![
        "MainId"@,
        "CanvasId"@,
        "LayerName"@,
        "LayerType"@,
        "LayerOpacity"@,
        "LayerComposite"@,
        "LayerLock"@,
        "LayerClip"@,
        "LayerMasking"@,
        "LayerFolder"@,
        "LayerVisibility"@,
        "LayerNextIndex"@,
        "LayerFirstChildIndex"@,
        "LayerRenderMipmap"@,
        "LayerLayerMaskMipmap"@,
    ]
}

/// Whether reading the layers can have this outcome.
pub open spec fn layers_read(
    connection: Connection,
    schema: Seq<database::TableModel>,
    limits: Limits,
    outcome: Result<Seq<LayerModel>, Failure>,
) -> bool {
    match database::first_missing(schema, "Layer"@, layer_columns(), 0) {
        Some(failure) => outcome == Err::<Seq<LayerModel>, Failure>(failure),
        None => exists|counted: Result<u64, Failure>|
            #[trigger] database::rows_counted(connection, "Layer"@, counted) && match counted {
                Err(failure) => outcome == Err::<Seq<LayerModel>, Failure>(failure),
                Ok(count) => if count > limits.max_layers {
                    outcome == Err::<Seq<LayerModel>, Failure>(
                        Failure::LimitExceeded {
                            resource: "layer count"@,
                            value: count,
                            limit: limits.max_layers,
                        },
                    )
                } else {
                    exists|reply: sql::ReplyModel|
                        #[trigger] sql::may_answer(
                            connection,
                            layers_question(),
                            Seq::empty(),
                            reply,
                        )
                            && outcome == layers_of(reply)
                },
            },
    }
}

/// What is asked for layers, in order.
pub open spec fn layer_items() -> Seq<Seq<char>> {
    seq![
        "MainId"@,
        "CanvasId"@,
        "LayerName"@,
        "LayerType"@,
        "LayerOpacity"@,
        "LayerComposite"@,
        "LayerLock"@,
        "LayerClip"@,
        "LayerMasking"@,
        "LayerFolder"@,
        "LayerVisibility"@,
        "LayerNextIndex"@,
        "LayerFirstChildIndex"@,
        "LayerRenderMipmap"@,
        "LayerLayerMaskMipmap"@,
    ]
}

/// The question that lists the layers.
pub open spec fn layers_question() -> Seq<char> {
    columns::asked(layer_items(), " FROM Layer ORDER BY rowid"@)
}

fn read_layers(database: &Database, limits: Limits) -> (layers: Result<Vec<Layer>, Error>)
    ensures
        layers_read(database.connection, database.schema@, limits, error::listed(layers)),
{
    let columns: [&str; 15] = [
        "MainId",
        "CanvasId",
        "LayerName",
        "LayerType",
        "LayerOpacity",
        "LayerComposite",
        "LayerLock",
        "LayerClip",
        "LayerMasking",
        "LayerFolder",
        "LayerVisibility",
        "LayerNextIndex",
        "LayerFirstChildIndex",
        "LayerRenderMipmap",
        "LayerLayerMaskMipmap",
    ];
    assert(database::names(columns@) =~= layer_columns());
    if let Some(error) = database.schema.first_missing_column("Layer", &columns) {
        return Err(error);
    }
    proof {
        assert(database::missing(database.schema@, "Layer"@, layer_columns()[0]) is None) by {
            reveal_with_fuel(database::first_missing, 2);
        }
    }
    let counted = database.row_count("Layer");
    assert(database::rows_counted(database.connection, "Layer"@, error::plain(counted)));
    let count: u64 = counted?;
    if count > limits.max_layers() {
        return Err(Error::limit("layer count", count, limits.max_layers()));
    }
    let asked: [&str; 15] = ["MainId", "CanvasId", "LayerName", "LayerType", "LayerOpacity", "LayerComposite", "LayerLock", "LayerClip", "LayerMasking", "LayerFolder", "LayerVisibility", "LayerNextIndex", "LayerFirstChildIndex", "LayerRenderMipmap", "LayerLayerMaskMipmap"];
    assert(database::names(asked@) =~= layer_items());
    let reply = query_all(
        &database.connection,
        columns::ask(&asked, " FROM Layer ORDER BY rowid").as_str(),
    );
    assert(sql::may_answer(database.connection, layers_question(), Seq::empty(), reply@));
    layers_from_reply(&reply)
}

/// Whether loading a document can have this outcome.
pub open spec fn document_read(
    connection: Connection,
    schema: Seq<database::TableModel>,
    limits: Limits,
    outcome: Result<DocumentModel, Failure>,
) -> bool {
    exists|project: Result<ProjectModel, Failure>|
        #[trigger] project_read(connection, schema, project) && match project {
            Err(failure) => outcome == Err::<DocumentModel, Failure>(failure),
            Ok(project) => exists|canvases: Result<Seq<Canvas>, Failure>|
                #[trigger] canvases_read(connection, schema, limits, canvases) && match canvases {
                    Err(failure) => outcome == Err::<DocumentModel, Failure>(failure),
                    Ok(canvases) => exists|layers: Result<Seq<LayerModel>, Failure>|
                        #[trigger] layers_read(connection, schema, limits, layers) && match layers {
                            Err(failure) => outcome == Err::<DocumentModel, Failure>(failure),
                            Ok(layers) => outcome == document_of(
                                project,
                                canvases,
                                layers,
                                limits.max_layer_tree_depth,
                            ),
                        },
                },
        }
}

/// Every tree of a document that was loaded splits the layers of its canvas.
pub proof fn loaded_trees_split_their_canvases(
    connection: Connection,
    schema: Seq<database::TableModel>,
    limits: Limits,
    document: DocumentModel,
)
    requires
        document_read(connection, schema, limits, Ok(document)),
    ensures
        holds_its_trees(document),
{
    let outcome = Ok::<DocumentModel, Failure>(document);
    let project = choose|project: Result<ProjectModel, Failure>|
        #[trigger] project_read(connection, schema, project) && match project {
            Err(failure) => outcome == Err::<DocumentModel, Failure>(failure),
            Ok(project) => exists|canvases: Result<Seq<Canvas>, Failure>|
                #[trigger] canvases_read(connection, schema, limits, canvases) && match canvases {
                    Err(failure) => outcome == Err::<DocumentModel, Failure>(failure),
                    Ok(canvases) => exists|layers: Result<Seq<LayerModel>, Failure>|
                        #[trigger] layers_read(connection, schema, limits, layers) && match layers {
                            Err(failure) => outcome == Err::<DocumentModel, Failure>(failure),
                            Ok(layers) => outcome == document_of(
                                project,
                                canvases,
                                layers,
                                limits.max_layer_tree_depth,
                            ),
                        },
                },
        };
    let project = project->Ok_0;
    let canvases = choose|canvases: Result<Seq<Canvas>, Failure>|
        #[trigger] canvases_read(connection, schema, limits, canvases) && match canvases {
            Err(failure) => outcome == Err::<DocumentModel, Failure>(failure),
            Ok(canvases) => exists|layers: Result<Seq<LayerModel>, Failure>|
                #[trigger] layers_read(connection, schema, limits, layers) && match layers {
                    Err(failure) => outcome == Err::<DocumentModel, Failure>(failure),
                    Ok(layers) => outcome == document_of(
                        project,
                        canvases,
                        layers,
                        limits.max_layer_tree_depth,
                    ),
                },
        };
    let canvases = canvases->Ok_0;
    let layers = choose|layers: Result<Seq<LayerModel>, Failure>|
        #[trigger] layers_read(connection, schema, limits, layers) && match layers {
            Err(failure) => outcome == Err::<DocumentModel, Failure>(failure),
            Ok(layers) => outcome == document_of(
                project,
                canvases,
                layers,
                limits.max_layer_tree_depth,
            ),
        };
    document_trees_split_their_canvases(
        project,
        canvases,
        layers->Ok_0,
        limits.max_layer_tree_depth,
    );
}

proof fn canvases_are_their_models(canvases: Seq<Canvas>)
    ensures
        error::views(canvases) == canvases,
{
    assert(error::views(canvases) =~= canvases);
}

impl Document {
    /// Builds the document that these rows make up.
    pub fn assemble(
        project: Project,
        canvases: Vec<Canvas>,
        layers: Vec<Layer>,
        depth_limit: u64,
    ) -> (document: Result<Document, Error>)
        ensures
            error::outcome(document) == document_of(
                project@,
                canvases@,
                error::views(layers@),
                depth_limit,
            ),
    {
        validate_unique_ids(canvases.as_slice(), layers.as_slice())?;
        let ghost models = error::views(layers@);
        let mut trees: Vec<LayerTree> = Vec::new();
        let mut at: usize = 0;
        assert(error::views(trees@) =~= Seq::<LayerTreeModel>::empty());
        while at < canvases.len()
            invariant
                at <= canvases@.len(),
                models == error::views(layers@),
                ids_are_valid(canvases@, models),
                trees_from(canvases@, models, depth_limit, 0, Seq::empty()) == trees_from(
                    canvases@,
                    models,
                    depth_limit,
                    at as int,
                    error::views(trees@),
                ),
            decreases canvases@.len() - at,
        {
            let tree = build_tree(&canvases[at], layers.as_slice(), depth_limit)?;
            proof {
                error::views_push(trees@, tree);
            }
            trees.push(tree);
            at = at + 1;
        }
        if let Some(primary) = project.primary_canvas_id {
            let mut next: usize = 0;
            while next < canvases.len() && canvases[next].id != primary
                invariant
                    next <= canvases@.len(),
                    !canvas_among(canvases@, next as int, primary),
                decreases canvases@.len() - next,
            {
                next = next + 1;
            }
            if next >= canvases.len() {
                return Err(
                    invalid_document(
                        Message::new("ProjectCanvas ").integer(primary).text(
                            " does not refer to a Canvas row",
                        ),
                    ),
                );
            }
            assert(canvas_among(canvases@, canvases@.len() as int, primary)) by {
                assert(canvases@[next as int].id == primary);
            }
        }
        Ok(Document { project, canvases, layers, trees })
    }

    /// Loads and validates the model using caller-provided safety limits.
    pub fn load(database: &Database, limits: Limits) -> (document: Result<Document, Error>)
        ensures
            document_read(database.connection, database.schema@, limits, error::outcome(document)),
    {
        let project = read_project(database);
        assert(project_read(database.connection, database.schema@, error::outcome(project)));
        let project = project?;
        let canvases = read_canvases(database, limits);
        assert(
            canvases_read(database.connection, database.schema@, limits, error::listed(canvases))
        );
        let canvases = canvases?;
        let layers = read_layers(database, limits);
        assert(layers_read(database.connection, database.schema@, limits, error::listed(layers)));
        let layers = layers?;
        proof {
            canvases_are_their_models(canvases@);
        }
        Document::assemble(project, canvases, layers, limits.max_layer_tree_depth())
    }

    /// Project settings.
    #[must_use]
    pub fn project(&self) -> (value: &Project)
        ensures
            *value == self.project,
    {
        &self.project
    }

    /// All canvas rows in SQLite order.
    #[must_use]
    pub fn canvases(&self) -> (list: &[Canvas])
        ensures
            list@ == self.canvases@,
    {
        self.canvases.as_slice()
    }

    /// All layer rows in SQLite order, including unreachable rows.
    #[must_use]
    pub fn layers(&self) -> (list: &[Layer])
        ensures
            list@ == self.layers@,
    {
        self.layers.as_slice()
    }

    /// Validated layer trees, one per canvas.
    #[must_use]
    pub fn layer_trees(&self) -> (list: &[LayerTree])
        ensures
            list@ == self.trees@,
    {
        self.trees.as_slice()
    }

    /// Looks up a layer by `MainId`.
    #[must_use]
    pub fn layer(&self, id: i64) -> (found: Option<&Layer>)
        ensures
            match found {
                Some(found) => exists|i: int|
                    0 <= i < self.layers@.len() && #[trigger] self.layers@[i] == *found && found.id
                        == id && forall|j: int|
                        0 <= j < i ==> (#[trigger] self.layers@[j]).id != id,
                None => forall|j: int|
                    0 <= j < self.layers@.len() ==> (#[trigger] self.layers@[j]).id != id,
            },
    {
        let mut at: usize = 0;
        while at < self.layers.len()
            invariant
                at <= self.layers@.len(),
                forall|j: int| 0 <= j < at ==> (#[trigger] self.layers@[j]).id != id,
            decreases self.layers@.len() - at,
        {
            if self.layers[at].id == id {
                assert(self.layers@[at as int] == self.layers[at as int]);
                return Some(&self.layers[at]);
            }
            at = at + 1;
        }
        None
    }

    /// Looks up a canvas by `MainId`.
    #[must_use]
    pub fn canvas(&self, id: i64) -> (found: Option<&Canvas>)
        ensures
            match found {
                Some(found) => exists|i: int|
                    0 <= i < self.canvases@.len() && #[trigger] self.canvases@[i] == *found
                        && found.id
                        == id && forall|j: int|
                        0 <= j < i ==> (#[trigger] self.canvases@[j]).id != id,
                None => forall|j: int|
                    0 <= j < self.canvases@.len() ==> (#[trigger] self.canvases@[j]).id != id,
            },
    {
        let mut at: usize = 0;
        while at < self.canvases.len()
            invariant
                at <= self.canvases@.len(),
                forall|j: int| 0 <= j < at ==> (#[trigger] self.canvases@[j]).id != id,
            decreases self.canvases@.len() - at,
        {
            if self.canvases[at].id == id {
                assert(self.canvases@[at as int] == self.canvases[at as int]);
                return Some(&self.canvases[at]);
            }
            at = at + 1;
        }
        None
    }

    /// Looks up a layer tree by canvas ID.
    #[must_use]
    pub fn layer_tree(&self, canvas_id: i64) -> (found: Option<&LayerTree>)
        ensures
            match found {
                Some(found) => exists|i: int|
                    0 <= i < self.trees@.len() && #[trigger] self.trees@[i] == *found
                        && found.canvas_id
                        == canvas_id && forall|j: int|
                        0 <= j < i ==> (#[trigger] self.trees@[j]).canvas_id != canvas_id,
                None => forall|j: int|
                    0 <= j < self.trees@.len() ==> (#[trigger] self.trees@[j]).canvas_id != canvas_id,
            },
    {
        let mut at: usize = 0;
        while at < self.trees.len()
            invariant
                at <= self.trees@.len(),
                forall|j: int| 0 <= j < at ==> (#[trigger] self.trees@[j]).canvas_id != canvas_id,
            decreases self.trees@.len() - at,
        {
            if self.trees[at].canvas_id == canvas_id {
                assert(self.trees@[at as int] == self.trees[at as int]);
                return Some(&self.trees[at]);
            }
            at = at + 1;
        }
        None
    }
}

impl ClipFile {
    /// Loads the embedded database and builds the high-level document model.
    pub fn read_document(&self) -> (document: Result<Document, Error>)
        ensures
            match database::database_payload_of(*self) {
                Err(failure) => error::outcome(document) == Err::<DocumentModel, Failure>(failure),
                Ok(payload) => exists|
                    opened: Result<(Connection, Seq<database::TableModel>), Failure>,
                |
                    #[trigger] database::image_opened(payload, opened) && match opened {
                        Err(failure) => error::outcome(document) == Err::<DocumentModel, Failure>(
                            failure,
                        ),
                        Ok((connection, schema)) => document_read(
                            connection,
                            schema,
                            self.limits,
                            error::outcome(document),
                        ),
                    },
            },
    {
        let database = self.open_database();
        let ghost opened = database::database_given(database);
        proof {
            if let Ok(payload) = database::database_payload_of(*self) {
                assert(database::image_opened(payload, opened));
            }
        }
        let database = database?;
        Document::load(&database, self.limits)
    }
}

} // verus!
