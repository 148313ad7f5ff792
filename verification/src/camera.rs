//! Track values and 2D cameras.

use rusqlite::Connection;
use vstd::prelude::*;

use crate::bytes;
use crate::bytes::{copy_bytes, read_be32, read_be64};
use crate::columns;
use crate::database;
use crate::database::Database;
use crate::error;
use crate::error::{Error, Failure};
use crate::limits::Limits;
use crate::message;
use crate::message::Message;
use crate::mixer;
use crate::reals::Double;
use crate::sql;
use crate::sql::{query_by_id, SqlModel, SqlRow};
use crate::text_codec;
use crate::text_codec::{decode_utf16be, same_text};

verus! {

fn animation_error(reason: Message) -> (error: Error)
    ensures
        error@ == (Failure::InvalidAnimation { reason: reason@ }),
{
    Error::InvalidAnimation { reason: reason.build() }
}

/// One typed current/default value stored in `TrackValueMap`.
#[derive(Clone, Debug, PartialEq)]
#[non_exhaustive]
#[allow(inconsistent_fields)]
pub enum AnimationTrackValue {
    /// Type `0`: an IEEE 754 double-precision value.
    Float(Double),
    /// Type `2`: a UTF-16 text value paired with its numeric curve value.
    IndexedText {
        /// Text value, such as an image-cel name.
        text: String,
        /// Numeric value paired with the text in the corresponding curve.
        numeric_value: u32,
    },
    /// Type `3`: two finite IEEE 754 double-precision components.
    Vector2 {
        /// Horizontal component.
        x: Double,
        /// Vertical component.
        y: Double,
    },
    /// A structurally valid value type that this crate does not yet interpret.
    Unknown {
        /// Raw type discriminator.
        kind: u32,
        /// UTF-16 text field stored before the type discriminator.
        text: String,
        /// Remaining big-endian payload bytes.
        payload: Vec<u8>,
    },
}

/// The model of an [`AnimationTrackValue`].
#[verifier::ext_equal]
#[allow(inconsistent_fields)]
pub enum TrackValueModel {
    Float(Double),
    IndexedText { text: Seq<char>, numeric_value: u32 },
    Vector2 { x: Double, y: Double },
    Unknown { kind: u32, text: Seq<char>, payload: Seq<u8> },
}

impl View for AnimationTrackValue {
    type V = TrackValueModel;

    open spec fn view(&self) -> TrackValueModel {
        match *self {
            AnimationTrackValue::Float(value) => TrackValueModel::Float(value),
            AnimationTrackValue::IndexedText { text, numeric_value } => TrackValueModel::IndexedText { text: text@, numeric_value },
            AnimationTrackValue::Vector2 { x, y } => TrackValueModel::Vector2 { x, y },
            AnimationTrackValue::Unknown { kind, text, payload } => TrackValueModel::Unknown { kind, text: text@, payload: payload@ },
        }
    }
}

/// One named entry decoded from a track's inline `TrackValueMap`.
#[derive(Clone, Debug, PartialEq)]
pub struct AnimationTrackValueEntry {
    pub name: String,
    pub value: AnimationTrackValue,
}

/// The model of an [`AnimationTrackValueEntry`].
#[verifier::ext_equal]
pub struct EntryModel {
    pub name: Seq<char>,
    pub value: TrackValueModel,
}

impl View for AnimationTrackValueEntry {
    type V = EntryModel;

    open spec fn view(&self) -> EntryModel {
        EntryModel {
            name: self.name@,
            value: self.value@,
        }
    }
}

impl AnimationTrackValueEntry {
    /// Parameter name, such as `ImageCelName`, `PlayTime`, or `AudioVolume`.
    #[must_use]
    pub fn name(&self) -> (text: &str)
        ensures
            text@ == self.name@,
    {
        self.name.as_str()
    }

    /// Typed current/default value for the parameter.
    #[must_use]
    pub fn value(&self) -> (value: &AnimationTrackValue)
        ensures
            *value == self.value,
    {
        &self.value
    }
}

/// One finite two-dimensional point or vector used by 2D-camera metadata.
#[derive(Clone, Copy, Debug, PartialEq)]
pub struct Camera2DPoint {
    pub x: Double,
    pub y: Double,
}

impl Camera2DPoint {
    /// Horizontal component.
    #[must_use]
    pub fn x(self) -> (value: Double)
        ensures
            value == self.x,
    {
        self.x
    }

    /// Vertical component.
    #[must_use]
    pub fn y(self) -> (value: Double)
        ensures
            value == self.y,
    {
        self.y
    }
}

/// Values evaluated at the saved timeline position in a 2D-camera track's
/// `TrackValueMap`.
#[derive(Clone, Copy, Debug, PartialEq)]
pub struct Camera2DTrackValues {
    pub image_center: Camera2DPoint,
    pub image_position: Camera2DPoint,
    pub rotation: Double,
    pub scale: Double,
    pub opacity: Double,
}

impl Camera2DTrackValues {
    /// Camera image center.
    #[must_use]
    pub fn image_center(self) -> (value: Camera2DPoint)
        ensures
            value == self.image_center,
    {
        self.image_center
    }

    /// Camera image position.
    #[must_use]
    pub fn image_position(self) -> (value: Camera2DPoint)
        ensures
            value == self.image_position,
    {
        self.image_position
    }

    /// Rotation in degrees.
    #[must_use]
    pub fn rotation(self) -> (value: Double)
        ensures
            value == self.rotation,
    {
        self.rotation
    }

    /// Scale as a percentage, where one hundred is the original size.
    #[must_use]
    pub fn scale(self) -> (value: Double)
        ensures
            value == self.scale,
    {
        self.scale
    }

    /// Opacity as a percentage, where one hundred is fully opaque.
    #[must_use]
    pub fn opacity(self) -> (value: Double)
        ensures
            value == self.opacity,
    {
        self.opacity
    }
}

/// Current 2D-camera transform snapshot from `Camera2DResizableImageInfo`.
#[derive(Clone, Debug, PartialEq)]
pub struct Camera2DTransform {
    pub header_size: u32,
    pub point_record_size: u32,
    pub width: u32,
    pub height: u32,
    pub scale: Camera2DPoint,
    pub rotation: Double,
    pub position: Camera2DPoint,
    pub image_center: Camera2DPoint,
    pub corners: Vec<Camera2DPoint>,
    pub prefix_words: [u32; 5],
    pub suffix_words: [u32; 6],
    pub raw: Vec<u8>,
}

/// The model of a [`Camera2DTransform`].
#[verifier::ext_equal]
pub struct TransformModel {
    pub header_size: u32,
    pub point_record_size: u32,
    pub width: u32,
    pub height: u32,
    pub scale: Camera2DPoint,
    pub rotation: Double,
    pub position: Camera2DPoint,
    pub image_center: Camera2DPoint,
    pub corners: Seq<Camera2DPoint>,
    pub prefix_words: Seq<u32>,
    pub suffix_words: Seq<u32>,
    pub raw: Seq<u8>,
}

impl View for Camera2DTransform {
    type V = TransformModel;

    open spec fn view(&self) -> TransformModel {
        TransformModel {
            header_size: self.header_size,
            point_record_size: self.point_record_size,
            width: self.width,
            height: self.height,
            scale: self.scale,
            rotation: self.rotation,
            position: self.position,
            image_center: self.image_center,
            corners: self.corners@,
            prefix_words: self.prefix_words@,
            suffix_words: self.suffix_words@,
            raw: self.raw@,
        }
    }
}

impl Camera2DTransform {
    /// Declared transform-header size.
    #[must_use]
    pub fn header_size(&self) -> (value: u32)
        ensures
            value == self.header_size,
    {
        self.header_size
    }

    /// Declared size of each transformed-corner record.
    #[must_use]
    pub fn point_record_size(&self) -> (value: u32)
        ensures
            value == self.point_record_size,
    {
        self.point_record_size
    }

    /// Width stored in the transform snapshot.
    #[must_use]
    pub fn width(&self) -> (value: u32)
        ensures
            value == self.width,
    {
        self.width
    }

    /// Height stored in the transform snapshot.
    #[must_use]
    pub fn height(&self) -> (value: u32)
        ensures
            value == self.height,
    {
        self.height
    }

    /// Horizontal and vertical scale factors, where one is the original size.
    #[must_use]
    pub fn scale(&self) -> (value: Camera2DPoint)
        ensures
            value == self.scale,
    {
        self.scale
    }

    /// Rotation in degrees.
    #[must_use]
    pub fn rotation(&self) -> (value: Double)
        ensures
            value == self.rotation,
    {
        self.rotation
    }

    /// Current image position.
    #[must_use]
    pub fn position(&self) -> (value: Camera2DPoint)
        ensures
            value == self.position,
    {
        self.position
    }

    /// Image center about which the transform is evaluated.
    #[must_use]
    pub fn image_center(&self) -> (value: Camera2DPoint)
        ensures
            value == self.image_center,
    {
        self.image_center
    }

    /// Transformed frame corners in their stored order.
    #[must_use]
    pub fn corners(&self) -> (list: &[Camera2DPoint])
        ensures
            list@ == self.corners@,
    {
        self.corners.as_slice()
    }

    /// Original transform payload for forward-compatible inspection.
    #[must_use]
    pub fn raw(&self) -> (list: &[u8])
        ensures
            list@ == self.raw@,
    {
        self.raw.as_slice()
    }

    /// Five not-yet-named header words before the dimensions.
    #[must_use]
    pub fn prefix_words(&self) -> (words: [u32; 5])
        ensures
            words == self.prefix_words,
    {
        self.prefix_words
    }

    /// Six not-yet-named header words after the center.
    #[must_use]
    pub fn suffix_words(&self) -> (words: [u32; 6])
        ensures
            words == self.suffix_words,
    {
        self.suffix_words
    }
}

/// Validated 2D-camera layer metadata.
#[derive(Clone, Debug, PartialEq)]
pub struct Camera2DLayerData {
    pub layer_id: i64,
    pub canvas_id: i64,
    pub keyframes_enabled: bool,
    pub original_frame_center: Camera2DPoint,
    pub transform: Camera2DTransform,
}

/// The model of a [`Camera2DLayerData`].
#[verifier::ext_equal]
pub struct CameraLayerModel {
    pub layer_id: i64,
    pub canvas_id: i64,
    pub keyframes_enabled: bool,
    pub original_frame_center: Camera2DPoint,
    pub transform: TransformModel,
}

impl View for Camera2DLayerData {
    type V = CameraLayerModel;

    open spec fn view(&self) -> CameraLayerModel {
        CameraLayerModel {
            layer_id: self.layer_id,
            canvas_id: self.canvas_id,
            keyframes_enabled: self.keyframes_enabled,
            original_frame_center: self.original_frame_center,
            transform: self.transform@,
        }
    }
}

impl Camera2DLayerData {
    /// Owning `Layer.MainId`.
    #[must_use]
    pub fn layer_id(&self) -> (value: i64)
        ensures
            value == self.layer_id,
    {
        self.layer_id
    }

    /// Owning canvas.
    #[must_use]
    pub fn canvas_id(&self) -> (value: i64)
        ensures
            value == self.canvas_id,
    {
        self.canvas_id
    }

    /// Whether timeline keyframe editing is enabled for the layer.
    #[must_use]
    pub fn keyframes_enabled(&self) -> (value: bool)
        ensures
            value == self.keyframes_enabled,
    {
        self.keyframes_enabled
    }

    /// Original frame center stored in the layer row.
    #[must_use]
    pub fn original_frame_center(&self) -> (value: Camera2DPoint)
        ensures
            value == self.original_frame_center,
    {
        self.original_frame_center
    }

    /// Current transform snapshot stored in the layer row.
    #[must_use]
    pub fn transform(&self) -> (value: &Camera2DTransform)
        ensures
            *value == self.transform,
    {
        &self.transform
    }
}

/// The number in the four bytes at a position, most significant first, which has to end
/// by `limit`.
pub open spec fn bounded_word_at(
    data: Seq<u8>,
    at: int,
    limit: int,
    complaint: Seq<char>,
) -> Result<u32, Failure> {
    if at + 4 > limit || at + 4 > data.len() {
        Err(mixer::past_end(at + 4, complaint))
    } else {
        Ok(bytes::be32(data, at) as u32)
    }
}

fn bounded_word(data: &[u8], at: usize, limit: usize, complaint: &str) -> (word: Result<
    u32,
    Error,
>)
    ensures
        error::plain(word) == bounded_word_at(data@, at as int, limit as int, complaint@),
        word is Ok ==> at + 4 <= limit && at + 4 <= data@.len(),
{
    assert(data.len() == data@.len());
    let end: usize = match at.checked_add(4) {
        Some(end) => end,
        None => return Err(Error::OffsetOverflow),
    };
    if end > limit || end > data.len() {
        return Err(animation_error(Message::new(complaint)));
    }
    Ok(read_be32(data, at))
}

/// The text at a position, which has to end by `limit`, and where it ends.
pub open spec fn wide_text_at(data: Seq<u8>, at: int, limit: int) -> Result<
    (Seq<char>, int),
    Failure,
> {
    match bounded_word_at(data, at, limit, "truncated TrackValueMap record"@) {
        Err(failure) => Err(failure),
        Ok(count) => {
            let end = at + 4 + 2 * count;
            if 2 * count > usize::MAX {
                Err(Failure::OffsetOverflow)
            } else if end > limit || end > data.len() {
                Err(mixer::past_end(end, "truncated UTF-16BE TrackValueMap string"@))
            } else {
                match text_codec::utf16_text(
                    text_codec::units_at(data, at + 4, count as nat),
                ) {
                    Some(text) => Ok((text, end)),
                    None => Err(
                        Failure::InvalidAnimation {
                            reason: "TrackValueMap string is invalid UTF-16BE"@,
                        },
                    ),
                }
            }
        },
    }
}

fn read_wide_text(data: &[u8], at: usize, limit: usize) -> (text: Result<(String, usize), Error>)
    ensures
        match text {
            Ok((text, end)) => wide_text_at(data@, at as int, limit as int) == Ok::<
                (Seq<char>, int),
                Failure,
            >((text@, end as int)) && end <= limit && end <= data@.len(),
            Err(error) => wide_text_at(data@, at as int, limit as int) == Err::<
                (Seq<char>, int),
                Failure,
            >(error@),
        },
{
    assert(data.len() == data@.len());
    let count: usize = bounded_word(data, at, limit, "truncated TrackValueMap record")? as usize;
    let size: usize = match count.checked_mul(2) {
        Some(size) => size,
        None => return Err(Error::OffsetOverflow),
    };
    let end: usize = match (at + 4).checked_add(size) {
        Some(end) => end,
        None => return Err(Error::OffsetOverflow),
    };
    if end > limit || end > data.len() {
        return Err(animation_error(Message::new("truncated UTF-16BE TrackValueMap string")));
    }
    match decode_utf16be(data, at + 4, count) {
        Some(text) => Ok((text, end)),
        None => Err(animation_error(Message::new("TrackValueMap string is invalid UTF-16BE"))),
    }
}

/// The number in the eight bytes at a position.
#[verifier::opaque]
pub open spec fn double_at(data: Seq<u8>, at: int) -> Double {
    Double { bits: bytes::be64(data, at) as u64 }
}

fn read_double(data: &[u8], at: usize) -> (number: Double)
    requires
        at + 8 <= data@.len(),
    ensures
        number == double_at(data@, at as int),
{
    proof {
        reveal(double_at);
    }
    Double { bits: read_be64(data, at) }
}

/// The value that a payload of a kind holds.
pub open spec fn track_value_of(kind: u32, text: Seq<char>, payload: Seq<u8>) -> Result<
    TrackValueModel,
    Failure,
> {
    if kind == 0 && payload.len() == 8 && text.len() == 0 {
        let value = double_at(payload, 0);
        if value.finite() {
            Ok(TrackValueModel::Float(value))
        } else {
            Err(
                Failure::InvalidAnimation {
                    reason: "TrackValueMap contains a non-finite floating-point value"@,
                },
            )
        }
    } else if kind == 2 && payload.len() == 4 {
        Ok(
            TrackValueModel::IndexedText {
                text,
                numeric_value: bytes::be32(payload, 0) as u32,
            },
        )
    } else if kind == 3 && payload.len() == 16 && text.len() == 0 {
        let x = double_at(payload, 0);
        let y = double_at(payload, 8);
        if x.finite() && y.finite() {
            Ok(TrackValueModel::Vector2 { x, y })
        } else {
            Err(
                Failure::InvalidAnimation {
                    reason: "TrackValueMap contains a non-finite two-dimensional value"@,
                },
            )
        }
    } else {
        Ok(TrackValueModel::Unknown { kind, text, payload })
    }
}

fn track_value(kind: u32, text: String, payload: Vec<u8>) -> (value: Result<
    AnimationTrackValue,
    Error,
>)
    ensures
        error::outcome(value) == track_value_of(kind, text@, payload@),
{
    let data: &[u8] = payload.as_slice();
    let empty: bool = text.as_str().is_empty();
    if kind == 0 && data.len() == 8 && empty {
        let value = read_double(data, 0);
        if !value.is_finite() {
            return Err(
                animation_error(
                    Message::new("TrackValueMap contains a non-finite floating-point value"),
                ),
            );
        }
        return Ok(AnimationTrackValue::Float(value));
    }
    if kind == 2 && data.len() == 4 {
        let numeric_value: u32 = read_be32(data, 0);
        return Ok(AnimationTrackValue::IndexedText { text, numeric_value });
    }
    if kind == 3 && data.len() == 16 && empty {
        let x = read_double(data, 0);
        let y = read_double(data, 8);
        if !x.is_finite() || !y.is_finite() {
            return Err(
                animation_error(
                    Message::new("TrackValueMap contains a non-finite two-dimensional value"),
                ),
            );
        }
        return Ok(AnimationTrackValue::Vector2 { x, y });
    }
    Ok(AnimationTrackValue::Unknown { kind, text, payload })
}

/// The entry at a position, and where it ends.
pub open spec fn entry_at(data: Seq<u8>, at: int) -> Result<(EntryModel, int), Failure> {
    match bounded_word_at(data, at, data.len() as int, "truncated big-endian animation integer"@) {
        Err(failure) => Err(failure),
        Ok(size) => {
            let end = at + size;
            if end > data.len() {
                Err(mixer::past_end(end, "TrackValueMap record exceeds the inline value map"@))
            } else {
                match wide_text_at(data, at + 4, end) {
                    Err(failure) => Err(failure),
                    Ok((name, after_name)) => match wide_text_at(data, after_name, end) {
                        Err(failure) => Err(failure),
                        Ok((text, after_text)) => match bounded_word_at(
                            data,
                            after_text,
                            end,
                            "truncated TrackValueMap record"@,
                        ) {
                            Err(failure) => Err(failure),
                            Ok(kind) => match track_value_of(
                                kind,
                                text,
                                data.subrange(after_text + 4, end),
                            ) {
                                Err(failure) => Err(failure),
                                Ok(value) => Ok((EntryModel { name, value }, end)),
                            },
                        },
                    },
                }
            }
        },
    }
}

fn read_entry(data: &[u8], at: usize) -> (entry: Result<(AnimationTrackValueEntry, usize), Error>)
    requires
        at <= data@.len(),
    ensures
        match entry {
            Ok((entry, end)) => entry_at(data@, at as int) == Ok::<(EntryModel, int), Failure>(
                (entry@, end as int),
            ) && end <= data@.len(),
            Err(error) => entry_at(data@, at as int) == Err::<(EntryModel, int), Failure>(error@),
        },
{
    assert(data.len() == data@.len());
    let size: usize = bounded_word(
        data,
        at,
        data.len(),
        "truncated big-endian animation integer",
    )? as usize;
    let end: usize = match at.checked_add(size) {
        Some(end) => end,
        None => return Err(Error::OffsetOverflow),
    };
    if end > data.len() {
        return Err(
            animation_error(Message::new("TrackValueMap record exceeds the inline value map")),
        );
    }
    let (name, after_name) = read_wide_text(data, at + 4, end)?;
    let (text, after_text) = read_wide_text(data, after_name, end)?;
    let kind: u32 = bounded_word(data, after_text, end, "truncated TrackValueMap record")?;
    let payload = copy_bytes(data, after_text + 4, end);
    let value = track_value(kind, text, payload)?;
    Ok((AnimationTrackValueEntry { name, value }, end))
}

/// The entries from `at` on, after the entries `found`; nothing may follow the last.
pub open spec fn entries_from(data: Seq<u8>, count: int, at: int, found: Seq<EntryModel>) -> Result<
    Seq<EntryModel>,
    Failure,
>
    decreases count - found.len(),
{
    if found.len() >= count {
        if at != data.len() {
            Err(
                Failure::InvalidAnimation {
                    reason: "TrackValueMap has trailing bytes after its records"@,
                },
            )
        } else {
            Ok(found)
        }
    } else {
        match entry_at(data, at) {
            Err(failure) => Err(failure),
            Ok((entry, end)) => entries_from(data, count, end, found.push(entry)),
        }
    }
}

/// The entries of a value map.
pub open spec fn value_map_of(data: Seq<u8>, limits: Limits) -> Result<Seq<EntryModel>, Failure> {
    let limit = limits.max_animation_items;
    if data.len() > limits.max_animation_bytes {
        Err(
            mixer::too_many(
                "animation track value map"@,
                data.len() as int,
                limits.max_animation_bytes,
            ),
        )
    } else {
        match bounded_word_at(
            data,
            0,
            data.len() as int,
            "truncated big-endian animation integer"@,
        ) {
            Err(failure) => Err(failure),
            Ok(header) => if header != 8 {
                Err(
                    Failure::InvalidAnimation {
                        reason: "TrackValueMap header size is "@ + message::decimal(header as nat)
                            + " instead of 8"@,
                    },
                )
            } else {
                match bounded_word_at(
                    data,
                    4,
                    data.len() as int,
                    "truncated big-endian animation integer"@,
                ) {
                    Err(failure) => Err(failure),
                    Ok(count) => if count > limit {
                        Err(mixer::too_many("animation track values"@, count as int, limit))
                    } else {
                        entries_from(data, count as int, 8, Seq::empty())
                    },
                }
            },
        }
    }
}

/// Reads the entries of a value map.
pub fn parse_track_value_map(data: &[u8], limits: Limits) -> (entries: Result<
    Vec<AnimationTrackValueEntry>,
    Error,
>)
    ensures
        error::listed(entries) == value_map_of(data@, limits),
{
    assert(data.len() == data@.len());
    let length: u64 = data.len() as u64;
    if length > limits.max_animation_bytes() {
        return Err(
            Error::limit("animation track value map", length, limits.max_animation_bytes()),
        );
    }
    let header: u32 = bounded_word(
        data,
        0,
        data.len(),
        "truncated big-endian animation integer",
    )?;
    if header != 8 {
        return Err(
            animation_error(
                Message::new("TrackValueMap header size is ").number(header as u64).text(
                    " instead of 8",
                ),
            ),
        );
    }
    let count: u32 = bounded_word(
        data,
        4,
        data.len(),
        "truncated big-endian animation integer",
    )?;
    if count as u64 > limits.max_animation_items() {
        return Err(
            Error::limit("animation track values", count as u64, limits.max_animation_items()),
        );
    }
    let mut entries: Vec<AnimationTrackValueEntry> = Vec::new();
    let mut at: usize = 8;
    assert(error::views(entries@) =~= Seq::<EntryModel>::empty());
    while entries.len() < count as usize
        invariant
            entries@.len() <= count,
            at <= data@.len(),
            value_map_of(data@, limits) == entries_from(
                data@,
                count as int,
                at as int,
                error::views(entries@),
            ),
        decreases count - entries@.len(),
    {
        let (entry, end) = read_entry(data, at)?;
        proof {
            error::views_push(entries@, entry);
        }
        entries.push(entry);
        at = end;
    }
    if at != data.len() {
        return Err(
            animation_error(Message::new("TrackValueMap has trailing bytes after its records")),
        );
    }
    Ok(entries)
}

/// Whether exactly one entry, the one at `i`, has that name.
pub open spec fn only_entry(entries: Seq<EntryModel>, name: Seq<char>, i: int) -> bool {
    &&& 0 <= i < entries.len()
    &&& entries[i].name == name
    &&& forall|j: int| 0 <= j < entries.len() && j != i ==> (#[trigger] entries[j]).name != name
}

/// The value of the only entry of that name, if there is exactly one.
pub open spec fn only_value(entries: Seq<EntryModel>, name: Seq<char>) -> Option<TrackValueModel> {
    if exists|i: int| only_entry(entries, name, i) {
        Some(entries[choose|i: int| only_entry(entries, name, i)].value)
    } else {
        None
    }
}

/// The value of the only entry of that name, or what is said where there is not exactly one.
pub open spec fn value_named(entries: Seq<EntryModel>, name: Seq<char>) -> Result<
    TrackValueModel,
    Failure,
> {
    match only_value(entries, name) {
        Some(value) => Ok(value),
        None => Err(
            Failure::InvalidAnimation {
                reason: (if exists|i: int|
                    0 <= i < entries.len() && (#[trigger] entries[i]).name == name {
                    "2D-camera track repeats "@
                } else {
                    "2D-camera track lacks "@
                }) + message::quoted_text(name),
            },
        ),
    }
}

fn find_only<'a>(entries: &'a [AnimationTrackValueEntry], name: &str) -> (value: Result<
    &'a AnimationTrackValue,
    Error,
>)
    ensures
        match value {
            Ok(value) => value_named(error::views(entries@), name@) == Ok::<
                TrackValueModel,
                Failure,
            >(value@),
            Err(error) => value_named(error::views(entries@), name@) == Err::<
                TrackValueModel,
                Failure,
            >(error@),
        },
{
    let ghost models = error::views(entries@);
    let mut found: Option<usize> = None;
    let mut at: usize = 0;
    while at < entries.len()
        invariant
            at <= entries@.len(),
            models == error::views(entries@),
            match found {
                Some(i) => i < at && models[i as int].name == name@ && forall|j: int|
                    0 <= j < at && j != i ==> (#[trigger] models[j]).name != name@,
                None => forall|j: int| 0 <= j < at ==> (#[trigger] models[j]).name != name@,
            },
        decreases entries@.len() - at,
    {
        assert(models[at as int] == entries@[at as int]@);
        if same_text(entries[at].name.as_str(), name) {
            if let Some(i) = found {
                proof {
                    assert forall|k: int| !only_entry(models, name@, k) by {
                        if only_entry(models, name@, k) {
                            assert(models[i as int].name == name@);
                            assert(models[at as int].name == name@);
                        }
                    }
                }
                return Err(
                    animation_error(Message::new("2D-camera track repeats ").quoted(name)),
                );
            }
            found = Some(at);
        }
        at = at + 1;
    }
    match found {
        Some(i) => {
            proof {
                assert(only_entry(models, name@, i as int));
                let k = choose|k: int| only_entry(models, name@, k);
                assert(models[k].name == name@);
                assert(models[i as int] == entries@[i as int]@);
            }
            Ok(&entries[i].value)
        },
        None => {
            proof {
                assert forall|k: int| !only_entry(models, name@, k) by {
                    if only_entry(models, name@, k) {
                        assert(models[k].name == name@);
                    }
                }
            }
            Err(animation_error(Message::new("2D-camera track lacks ").quoted(name)))
        },
    }
}

/// The point in the only entry of that name.
pub open spec fn point_named(entries: Seq<EntryModel>, name: Seq<char>) -> Result<
    Camera2DPoint,
    Failure,
> {
    match value_named(entries, name) {
        Err(failure) => Err(failure),
        Ok(TrackValueModel::Vector2 { x, y }) => Ok(Camera2DPoint { x, y }),
        Ok(_) => Err(
            Failure::InvalidAnimation {
                reason: "2D-camera value "@ + message::quoted_text(name)
                    + " is not a two-dimensional value"@,
            },
        ),
    }
}

/// The number in the only entry of that name.
pub open spec fn number_named(entries: Seq<EntryModel>, name: Seq<char>) -> Result<
    Double,
    Failure,
> {
    match value_named(entries, name) {
        Err(failure) => Err(failure),
        Ok(TrackValueModel::Float(value)) => Ok(value),
        Ok(_) => Err(
            Failure::InvalidAnimation {
                reason: "2D-camera value "@ + message::quoted_text(name) + " is not scalar"@,
            },
        ),
    }
}

fn find_point(entries: &[AnimationTrackValueEntry], name: &str) -> (point: Result<
    Camera2DPoint,
    Error,
>)
    ensures
        error::plain(point) == point_named(error::views(entries@), name@),
{
    match find_only(entries, name)? {
        AnimationTrackValue::Vector2 { x, y } => Ok(Camera2DPoint { x: *x, y: *y }),
        _ => Err(
            animation_error(
                Message::new("2D-camera value ").quoted(name).text(
                    " is not a two-dimensional value",
                ),
            ),
        ),
    }
}

fn find_number(entries: &[AnimationTrackValueEntry], name: &str) -> (number: Result<Double, Error>)
    ensures
        error::plain(number) == number_named(error::views(entries@), name@),
{
    match find_only(entries, name)? {
        AnimationTrackValue::Float(value) => Ok(*value),
        _ => Err(
            animation_error(Message::new("2D-camera value ").quoted(name).text(" is not scalar")),
        ),
    }
}

/// The camera values among the entries of a track.
pub open spec fn camera_values_of(
    entries: Seq<EntryModel>,
) -> Result<Camera2DTrackValues, Failure> {
    match (
        point_named(entries, "ImageCenter"@),
        point_named(entries, "ImagePosition"@),
        number_named(entries, "ImageRotation"@),
        number_named(entries, "ImageScale"@),
        number_named(entries, "Opacity"@),
    ) {
        (Ok(image_center), Ok(image_position), Ok(rotation), Ok(scale), Ok(opacity)) => Ok(
            Camera2DTrackValues { image_center, image_position, rotation, scale, opacity },
        ),
        (Err(failure), _, _, _, _) => Err(failure),
        (Ok(_), Err(failure), _, _, _) => Err(failure),
        (Ok(_), Ok(_), Err(failure), _, _) => Err(failure),
        (Ok(_), Ok(_), Ok(_), Err(failure), _) => Err(failure),
        (Ok(_), Ok(_), Ok(_), Ok(_), Err(failure)) => Err(failure),
    }
}

/// Finds the camera values among the entries of a track.
pub fn parse_camera_2d_track_values(entries: &[AnimationTrackValueEntry]) -> (values: Result<
    Camera2DTrackValues,
    Error,
>)
    ensures
        error::plain(values) == camera_values_of(error::views(entries@)),
{
    Ok(
        Camera2DTrackValues {
            image_center: find_point(entries, "ImageCenter")?,
            image_position: find_point(entries, "ImagePosition")?,
            rotation: find_number(entries, "ImageRotation")?,
            scale: find_number(entries, "ImageScale")?,
            opacity: find_number(entries, "Opacity")?,
        },
    )
}

/// The point at a position.
pub open spec fn camera_point_at(data: Seq<u8>, at: int) -> Camera2DPoint {
    Camera2DPoint { x: double_at(data, at), y: double_at(data, at + 8) }
}

/// Whether both coordinates of a point are finite.
pub open spec fn point_finite(point: Camera2DPoint) -> bool {
    point.x.finite() && point.y.finite()
}

fn read_camera_point(data: &[u8], at: usize, name: &str) -> (point: Result<Camera2DPoint, Error>)
    requires
        at + 16 <= data@.len(),
    ensures
        match point {
            Ok(point) => point == camera_point_at(data@, at as int) && point_finite(point),
            Err(error) => !point_finite(camera_point_at(data@, at as int)) && error@ == (
            Failure::InvalidAnimation { reason: "2D-camera "@ + name@ + " is not finite"@ }),
        },
{
    assert(data.len() == data@.len());
    let point = Camera2DPoint { x: read_double(data, at), y: read_double(data, at + 8) };
    if !point.x.is_finite() || !point.y.is_finite() {
        return Err(animation_error(Message::new("2D-camera ").text(name).text(" is not finite")));
    }
    Ok(point)
}

/// The words from a position on.
pub open spec fn words_at(data: Seq<u8>, at: int, count: nat) -> Seq<u32> {
    Seq::new(count, |i: int| bytes::be32(data, at + 4 * i) as u32)
}

/// The transform that a snapshot describes, once its sizes are known to fit.
pub open spec fn sized_transform_of(data: Seq<u8>, limit: u32) -> Result<TransformModel, Failure> {
    let header_size = bytes::be32(data, 0);
    let record_size = bytes::be32(data, 4);
    let count = bytes::be32(data, 8);
    let width = bytes::be32(data, 32);
    let height = bytes::be32(data, 36);
    if 0 < width <= limit && 0 < height <= limit && point_finite(camera_point_at(data, 40))
        && double_at(data, 56).finite() && point_finite(camera_point_at(data, 64)) && point_finite(
        camera_point_at(data, 80),
    ) && forall|i: int|
        0 <= i < count ==> point_finite(
            #[trigger] camera_point_at(data, header_size + record_size * i),
        ) {
        Ok(
            TransformModel {
                header_size: header_size as u32,
                point_record_size: record_size as u32,
                width: width as u32,
                height: height as u32,
                scale: camera_point_at(data, 40),
                rotation: double_at(data, 56),
                position: camera_point_at(data, 64),
                image_center: camera_point_at(data, 80),
                corners: Seq::new(
                    count as nat,
                    |i: int| camera_point_at(data, header_size + record_size * i),
                ),
                prefix_words: words_at(data, 12, 5),
                suffix_words: words_at(data, 96, 6),
                raw: data,
            },
        )
    } else {
        Err(Failure::InvalidAnimation { reason: transform_complaint(data, limit) })
    }
}

/// What is said of a snapshot whose sizes fit but whose values do not.
pub open spec fn transform_complaint(data: Seq<u8>, limit: u32) -> Seq<char> {
    let width = bytes::be32(data, 32);
    let height = bytes::be32(data, 36);
    if !(0 < width <= limit && 0 < height <= limit) {
        "2D-camera transform dimensions "@ + message::decimal(width as nat) + "x"@
            + message::decimal(height as nat) + " are invalid"@
    } else if !point_finite(camera_point_at(data, 40)) {
        "2D-camera "@ + "scale"@ + " is not finite"@
    } else if !point_finite(camera_point_at(data, 64)) {
        "2D-camera "@ + "position"@ + " is not finite"@
    } else if !point_finite(camera_point_at(data, 80)) {
        "2D-camera "@ + "image center"@ + " is not finite"@
    } else if !double_at(data, 56).finite() {
        "2D-camera transform rotation is not finite"@
    } else {
        "2D-camera "@ + "frame corner"@ + " is not finite"@
    }
}

/// The transform that a snapshot describes.
pub open spec fn transform_of(data: Seq<u8>, limits: Limits) -> Result<TransformModel, Failure> {
    let header_size = bytes::be32(data, 0);
    let record_size = bytes::be32(data, 4);
    let count = bytes::be32(data, 8);
    if data.len() > limits.max_animation_bytes {
        Err(
            mixer::too_many(
                "2D-camera transform snapshot"@,
                data.len() as int,
                limits.max_animation_bytes,
            ),
        )
    } else if data.len() < 12 {
        Err(Failure::InvalidAnimation { reason: "truncated big-endian animation integer"@ })
    } else if count > limits.max_animation_items {
        Err(
            mixer::too_many(
                "2D-camera transform points"@,
                count as int,
                limits.max_animation_items,
            ),
        )
    } else if header_size < 120 {
        Err(
            Failure::InvalidAnimation {
                reason: "2D-camera transform header size "@ + message::decimal(header_size as nat)
                    + " is below 120"@,
            },
        )
    } else if record_size < 16 {
        Err(
            Failure::InvalidAnimation {
                reason: "2D-camera point record size "@ + message::decimal(record_size as nat)
                    + " is below 16"@,
            },
        )
    } else if count * record_size > usize::MAX || header_size + count * record_size > usize::MAX {
        Err(Failure::OffsetOverflow)
    } else if data.len() != header_size + count * record_size {
        Err(
            Failure::InvalidAnimation {
                reason: "2D-camera transform has "@ + message::decimal(data.len())
                    + " bytes instead of "@ + message::decimal(
                    (header_size + count * record_size) as nat,
                ),
            },
        )
    } else {
        sized_transform_of(data, limits.max_canvas_dimension)
    }
}

#[verifier::spinoff_prover]
#[verifier::rlimit(40)]
fn parse_sized_transform(data: &[u8], limit: u32) -> (transform: Result<Camera2DTransform, Error>)
    requires
        data@.len() >= 120,
        bytes::be32(data@, 0) >= 120,
        bytes::be32(data@, 4) >= 16,
        data@.len() == bytes::be32(data@, 0) + bytes::be32(data@, 8) * bytes::be32(data@, 4),
    ensures
        error::outcome(transform) == sized_transform_of(data@, limit),
{
    assert(data.len() == data@.len());
    let header_size: u32 = read_be32(data, 0);
    let record_size: u32 = read_be32(data, 4);
    let count: u32 = read_be32(data, 8);
    let width: u32 = read_be32(data, 32);
    let height: u32 = read_be32(data, 36);
    if width == 0 || height == 0 || width > limit || height > limit {
        return Err(
            animation_error(
                Message::new("2D-camera transform dimensions ").number(width as u64).text(
                    "x",
                ).number(height as u64).text(" are invalid"),
            ),
        );
    }
    let scale = read_camera_point(data, 40, "scale")?;
    let rotation = read_double(data, 56);
    let position = read_camera_point(data, 64, "position")?;
    let image_center = read_camera_point(data, 80, "image center")?;
    if !rotation.is_finite() {
        return Err(animation_error(Message::new("2D-camera transform rotation is not finite")));
    }
    let prefix_words: [u32; 5] = [
        read_be32(data, 12),
        read_be32(data, 16),
        read_be32(data, 20),
        read_be32(data, 24),
        read_be32(data, 28),
    ];
    let suffix_words: [u32; 6] = [
        read_be32(data, 96),
        read_be32(data, 100),
        read_be32(data, 104),
        read_be32(data, 108),
        read_be32(data, 112),
        read_be32(data, 116),
    ];
    let mut corners: Vec<Camera2DPoint> = Vec::new();
    let mut at: usize = header_size as usize;
    assert(record_size * corners@.len() == 0) by (nonlinear_arith)
        requires
            corners@.len() == 0,
    ;
    while corners.len() < count as usize
        invariant
            corners@.len() <= count,
            data.len() == data@.len(),
            record_size >= 16,
            header_size == bytes::be32(data@, 0),
            record_size == bytes::be32(data@, 4),
            count == bytes::be32(data@, 8),
            at == header_size + record_size * corners@.len(),
            data@.len() == header_size + count * record_size,
            0 < bytes::be32(data@, 32) <= limit,
            0 < bytes::be32(data@, 36) <= limit,
            point_finite(camera_point_at(data@, 40)),
            double_at(data@, 56).finite(),
            point_finite(camera_point_at(data@, 64)),
            point_finite(camera_point_at(data@, 80)),
            forall|i: int|
                0 <= i < corners@.len() ==> #[trigger] corners@[i] == camera_point_at(
                    data@,
                    header_size + record_size * i,
                ),
            forall|i: int|
                0 <= i < corners@.len() ==> point_finite(
                    #[trigger] camera_point_at(data@, header_size + record_size * i),
                ),
        decreases count - corners@.len(),
    {
        let ghost k = corners@.len();
        assert(record_size * k + record_size <= count * record_size) by (nonlinear_arith)
            requires
                k + 1 <= count,
                record_size >= 0,
        ;
        assert(record_size * (k + 1) == record_size * k + record_size) by (nonlinear_arith);
        let point = match read_camera_point(data, at, "frame corner") {
            Ok(point) => point,
            Err(error) => {
                assert(!point_finite(
                    camera_point_at(data@, header_size + record_size * (k as int)),
                ));
                return Err(error);
            },
        };
        corners.push(point);
        assert(corners@[k as int] == camera_point_at(
            data@,
            header_size + record_size * (k as int),
        ));
        at = at + record_size as usize;
    }
    let raw = copy_bytes(data, 0, data.len());
    let transform = Camera2DTransform {
        header_size,
        point_record_size: record_size,
        width,
        height,
        scale,
        rotation,
        position,
        image_center,
        corners,
        prefix_words,
        suffix_words,
        raw,
    };
    proof {
        assert(raw@ =~= data@);
        assert(transform@.prefix_words =~= words_at(data@, 12, 5));
        assert(transform@.suffix_words =~= words_at(data@, 96, 6));
        assert(transform@.corners =~= Seq::new(
            count as nat,
            |i: int| camera_point_at(data@, header_size + record_size * i),
        ));
    }
    Ok(transform)
}

/// Reads the transform that a snapshot describes.
pub fn parse_camera_2d_transform(data: &[u8], limits: Limits) -> (transform: Result<
    Camera2DTransform,
    Error,
>)
    ensures
        error::outcome(transform) == transform_of(data@, limits),
{
    assert(data.len() == data@.len());
    let length: u64 = data.len() as u64;
    if length > limits.max_animation_bytes() {
        return Err(
            Error::limit("2D-camera transform snapshot", length, limits.max_animation_bytes()),
        );
    }
    if length < 12 {
        return Err(animation_error(Message::new("truncated big-endian animation integer")));
    }
    let header_size: u32 = read_be32(data, 0);
    let record_size: u32 = read_be32(data, 4);
    let count: u32 = read_be32(data, 8);
    if count as u64 > limits.max_animation_items() {
        return Err(
            Error::limit(
                "2D-camera transform points",
                count as u64,
                limits.max_animation_items(),
            ),
        );
    }
    if header_size < 120 {
        return Err(
            animation_error(
                Message::new("2D-camera transform header size ").number(header_size as u64).text(
                    " is below 120",
                ),
            ),
        );
    }
    if record_size < 16 {
        return Err(
            animation_error(
                Message::new("2D-camera point record size ").number(record_size as u64).text(
                    " is below 16",
                ),
            ),
        );
    }
    let records: usize = match (count as usize).checked_mul(record_size as usize) {
        Some(records) => records,
        None => return Err(Error::OffsetOverflow),
    };
    let expected: usize = match (header_size as usize).checked_add(records) {
        Some(expected) => expected,
        None => return Err(Error::OffsetOverflow),
    };
    if data.len() != expected {
        return Err(
            animation_error(
                Message::new("2D-camera transform has ").number(length).text(
                    " bytes instead of ",
                ).number(expected as u64),
            ),
        );
    }
    parse_sized_transform(data, limits.max_canvas_dimension())
}

/// What a layer row says of its camera.
pub open spec fn camera_layer_of(row: Seq<SqlModel>, limits: Limits) -> Result<
    Option<CameraLayerModel>,
    Failure,
> {
    match (
        sql::integer_at(row, 0),
        sql::integer_at(row, 1),
        sql::integer_at(row, 2),
        sql::integer_at(row, 3),
        sql::integer_at(row, 4),
        sql::optional_bytes_at(row, 5),
        sql::optional_real_at(row, 6),
        sql::optional_real_at(row, 7),
    ) {
        (
            Ok(layer_id),
            Ok(canvas_id),
            Ok(layer_type),
            Ok(folder_flags),
            Ok(keyframes),
            Ok(payload),
            Ok(x),
            Ok(y),
        ) => if layer_type & 512 == 0 {
            if payload is Some {
                Err(
                    Failure::InvalidAnimation {
                        reason: "layer "@ + message::decimal_signed(layer_id as int)
                            + " has 2D-camera data without the camera layer bit"@,
                    },
                )
            } else {
                Ok(None)
            }
        } else {
            match payload {
                Some(payload) if folder_flags != 0 && keyframes != 0 => if payload.len()
                    > limits.max_animation_bytes {
                    Err(
                        mixer::too_many(
                            "2D-camera transform snapshot"@,
                            payload.len() as int,
                            limits.max_animation_bytes,
                        ),
                    )
                } else {
                    match (x, y) {
                        (Some(x), Some(y)) if x.finite() && y.finite() => match transform_of(
                            payload,
                            limits,
                        ) {
                            Err(failure) => Err(failure),
                            Ok(transform) => Ok(
                                Some(
                                    CameraLayerModel {
                                        layer_id,
                                        canvas_id,
                                        keyframes_enabled: true,
                                        original_frame_center: Camera2DPoint { x, y },
                                        transform,
                                    },
                                ),
                            ),
                        },
                        _ => Err(
                            Failure::InvalidAnimation {
                                reason: if x is None {
                                    "2D-camera original center X is NULL"@
                                } else if y is None {
                                    "2D-camera original center Y is NULL"@
                                } else {
                                    "2D-camera original frame center is not finite"@
                                },
                            },
                        ),
                    }
                },
                _ => Err(
                    Failure::InvalidAnimation {
                        reason: "2D-camera layer "@ + message::decimal_signed(layer_id as int) + (
                        if folder_flags == 0 {
                            " is not a folder"@
                        } else if keyframes == 0 {
                            " does not have timeline keyframes enabled"@
                        } else {
                            " has no transform snapshot"@
                        }),
                    },
                ),
            }
        },
        _ => Err(Failure::Sqlite),
    }
}

/// Reads what a layer row says of its camera.
pub fn camera_layer_from_row(row: &SqlRow, limits: Limits) -> (layer: Result<
    Option<Camera2DLayerData>,
    Error,
>)
    ensures
        error::optional_outcome(layer) == camera_layer_of(row@, limits),
{
    let layer_id: i64 = row.integer(0)?;
    let canvas_id: i64 = row.integer(1)?;
    let layer_type: i64 = row.integer(2)?;
    let folder_flags: i64 = row.integer(3)?;
    let keyframes: i64 = row.integer(4)?;
    let payload = row.optional_bytes(5)?;
    let x = row.optional_number(6)?;
    let y = row.optional_number(7)?;
    if layer_type & 512 == 0 {
        if payload.is_some() {
            return Err(
                animation_error(
                    Message::new("layer ").integer(layer_id).text(
                        " has 2D-camera data without the camera layer bit",
                    ),
                ),
            );
        }
        return Ok(None);
    }
    if folder_flags == 0 {
        return Err(
            animation_error(
                Message::new("2D-camera layer ").integer(layer_id).text(" is not a folder"),
            ),
        );
    }
    if keyframes == 0 {
        return Err(
            animation_error(
                Message::new("2D-camera layer ").integer(layer_id).text(
                    " does not have timeline keyframes enabled",
                ),
            ),
        );
    }
    let payload = match payload {
        Some(payload) => payload,
        None => {
            return Err(
                animation_error(
                    Message::new("2D-camera layer ").integer(layer_id).text(
                        " has no transform snapshot",
                    ),
                ),
            );
        },
    };
    let length: u64 = payload.len() as u64;
    if length > limits.max_animation_bytes() {
        return Err(
            Error::limit("2D-camera transform snapshot", length, limits.max_animation_bytes()),
        );
    }
    let x = match x {
        Some(x) => x,
        None => {
            return Err(animation_error(Message::new("2D-camera original center X is NULL")));
        },
    };
    let y = match y {
        Some(y) => y,
        None => {
            return Err(animation_error(Message::new("2D-camera original center Y is NULL")));
        },
    };
    if !x.is_finite() || !y.is_finite() {
        return Err(animation_error(Message::new("2D-camera original frame center is not finite")));
    }
    let transform = parse_camera_2d_transform(payload.as_slice(), limits)?;
    Ok(
        Some(
            Camera2DLayerData {
                layer_id,
                canvas_id,
                keyframes_enabled: true,
                original_frame_center: Camera2DPoint { x, y },
                transform,
            },
        ),
    )
}

/// What a reply says of the camera of a layer.
pub open spec fn camera_layer_in(reply: sql::ReplyModel, limits: Limits) -> Result<
    Option<CameraLayerModel>,
    Failure,
> {
    match sql::first_row(reply) {
        Err(failure) => Err(failure),
        Ok(None) => Ok(None),
        Ok(Some(row)) => camera_layer_of(row, limits),
    }
}

/// The columns that a camera is read from.
pub open spec fn camera_columns() -> Seq<Seq<char>> {
    seq!["MainId"@, "CanvasId"@, "LayerType"@, "LayerFolder"@, "TimeLineLayerKeyFrameEnabled"@, "Camera2DResizableImageInfo"@, "Camera2DOriginalFrameCenterX"@, "Camera2DOriginalFrameCenterY"@]
}

/// What is asked for a camera layer, in order.
pub open spec fn camera_items() -> Seq<Seq<char>> {
    seq![
        "MainId"@,
        "CanvasId"@,
        "LayerType"@,
        "LayerFolder"@,
        "TimeLineLayerKeyFrameEnabled"@,
        "Camera2DResizableImageInfo"@,
        "Camera2DOriginalFrameCenterX"@,
        "Camera2DOriginalFrameCenterY"@,
    ]
}

/// The question that asks for a camera.
pub open spec fn camera_question() -> Seq<char> {
    columns::asked(camera_items(), " FROM Layer WHERE MainId = ?1 LIMIT 1"@)
}

/// Whether reading the camera of a layer can have this outcome.
pub open spec fn camera_layer_read(
    connection: Connection,
    schema: Seq<database::TableModel>,
    layer_id: i64,
    limits: Limits,
    outcome: Result<Option<CameraLayerModel>, Failure>,
) -> bool {
    if database::first_missing(schema, "Layer"@, camera_columns(), 0) is Some {
        outcome == Ok::<Option<CameraLayerModel>, Failure>(None)
    } else {
        exists|reply: sql::ReplyModel|
            #[trigger] sql::may_answer(
                connection,
                camera_question(),
                seq![sql::ParameterModel::Integer(layer_id)],
                reply,
            ) && outcome == camera_layer_in(reply, limits)
    }
}

impl Database {
    /// Reads and validates 2D-camera metadata for one layer.
    ///
    /// `None` means the layer is absent, is not a 2D-camera layer, or the
    /// current schema predates the camera-specific columns.
    pub fn camera_2d_layer(&self, layer_id: i64, limits: Limits) -> (layer: Result<
        Option<Camera2DLayerData>,
        Error,
    >)
        ensures
            camera_layer_read(
                self.connection,
                self.schema@,
                layer_id,
                limits,
                error::optional_outcome(layer),
            ),
    {
        let columns: [&str; 8] = ["MainId", "CanvasId", "LayerType", "LayerFolder", "TimeLineLayerKeyFrameEnabled", "Camera2DResizableImageInfo", "Camera2DOriginalFrameCenterX", "Camera2DOriginalFrameCenterY"];
        assert(database::names(columns@) =~= camera_columns());
        if self.schema.first_missing_column("Layer", &columns).is_some() {
            return Ok(None);
        }
        let asked: [&str; 8] = ["MainId", "CanvasId", "LayerType", "LayerFolder", "TimeLineLayerKeyFrameEnabled", "Camera2DResizableImageInfo", "Camera2DOriginalFrameCenterX", "Camera2DOriginalFrameCenterY"];
        assert(database::names(asked@) =~= camera_items());
        let reply = query_by_id(
            &self.connection,
            columns::ask(&asked, " FROM Layer WHERE MainId = ?1 LIMIT 1").as_str(),
            layer_id,
        );
        assert(sql::may_answer(
            self.connection,
            camera_question(),
            seq![sql::ParameterModel::Integer(layer_id)],
            reply@,
        ));
        match reply.first_row()? {
            Some(row) => camera_layer_from_row(row, limits),
            None => Ok(None),
        }
    }
}

} // verus!
