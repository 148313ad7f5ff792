//! Animations: a timeline, its tracks, and the cels that they select.


use rusqlite::Connection;
use vstd::prelude::*;

use crate::camera;
use crate::camera::{parse_track_value_map, AnimationTrackValueEntry, Camera2DTrackValues};
use crate::container::ClipFile;
use crate::database;
use crate::database::Database;
use crate::error;
use crate::error::{Error, Failure};
use crate::external;
use crate::external::{ByteOrder, ExternalBody, ExternalObject, ExternalObjectModel};
use crate::limits::Limits;
use crate::message;
use crate::message::Message;
use crate::mixer;
use crate::mixer::{
    parse_animation_curves, parse_secondary_animation_curves, AnimationCurve,
    SecondaryAnimationCurve,
};
use crate::reals::{Double, Single};
use crate::text_codec::same_text;
use crate::track_rows;
use crate::track_rows::{Timeline, TrackSource};
use crate::zlib;
use crate::zlib::decompress;

verus! {

fn animation_error(reason: Message) -> (error: Error)
    ensures
        error@ == (Failure::InvalidAnimation { reason: reason@ }),
{
    Error::InvalidAnimation { reason: reason.build() }
}

/// One cel-selection keyframe from an `ImageCelName` mixer curve.
#[derive(Clone, Debug, PartialEq)]
pub struct CelKeyframe {
    pub time_60hz: Single,
    pub value: Single,
    pub tag: String,
}

/// The model of a [`CelKeyframe`].
#[verifier::ext_equal]
pub struct CelKeyframeModel {
    pub time_60hz: Single,
    pub value: Single,
    pub tag: Seq<char>,
}

impl View for CelKeyframe {
    type V = CelKeyframeModel;

    open spec fn view(&self) -> CelKeyframeModel {
        CelKeyframeModel {
            time_60hz: self.time_60hz,
            value: self.value,
            tag: self.tag@,
        }
    }
}

impl CelKeyframe {
    /// Key time in the mixer's observed 60 Hz timebase.
    #[must_use]
    pub fn time_60hz(&self) -> (value: Single)
        ensures
            value == self.time_60hz,
    {
        self.time_60hz
    }

    /// Uninterpreted numeric value paired with the key.
    #[must_use]
    pub fn value(&self) -> (value: Single)
        ensures
            value == self.value,
    {
        self.value
    }

    /// Cel tag stored at this key.
    #[must_use]
    pub fn tag(&self) -> (text: &str)
        ensures
            text@ == self.tag@,
    {
        self.tag.as_str()
    }
}

/// Cel-selection curve associated with one animation-folder layer.
#[derive(Clone, Debug, PartialEq)]
pub struct CelTrack {
    pub id: i64,
    pub layer_id: i64,
    pub keyframes: Vec<CelKeyframe>,
}

/// The model of a [`CelTrack`].
#[verifier::ext_equal]
pub struct CelTrackModel {
    pub id: i64,
    pub layer_id: i64,
    pub keyframes: Seq<CelKeyframeModel>,
}

impl View for CelTrack {
    type V = CelTrackModel;

    open spec fn view(&self) -> CelTrackModel {
        CelTrackModel {
            id: self.id,
            layer_id: self.layer_id,
            keyframes: error::views(self.keyframes@),
        }
    }
}

/// How many keys, from the first on, come no later than a moment.
pub open spec fn keys_until(keys: Seq<CelKeyframeModel>, moment: Double, at: int) -> int
    decreases keys.len() - at,
{
    if at < keys.len()
        && (Double { bits: keys[at].time_60hz.widened() }).order() <= moment.order() {
        keys_until(keys, moment, at + 1)
    } else {
        at
    }
}

impl CelTrack {
    /// `Track.MainId`.
    #[must_use]
    pub fn id(&self) -> (value: i64)
        ensures
            value == self.id,
    {
        self.id
    }

    /// Layer matched through `LayerUuidWithTrack`.
    #[must_use]
    pub fn layer_id(&self) -> (value: i64)
        ensures
            value == self.layer_id,
    {
        self.layer_id
    }

    /// Sorted cel-selection keys.
    #[must_use]
    pub fn keyframes(&self) -> (list: &[CelKeyframe])
        ensures
            list@ == self.keyframes@,
    {
        self.keyframes.as_slice()
    }

    /// The cel tag that is active at a moment in the 60 Hz timebase: that of the last key
    /// that comes no later.
    #[must_use]
    pub fn cel_at_moment(&self, moment: Double) -> (tag: Option<&str>)
        ensures
            match tag {
                Some(tag) => keys_until(self@.keyframes, moment, 0) > 0 && tag@
                    == self@.keyframes[keys_until(self@.keyframes, moment, 0) - 1].tag,
                None => keys_until(self@.keyframes, moment, 0) == 0,
            },
    {
        let mut at: usize = 0;
        while at < self.keyframes.len() && self.keyframes[at].time_60hz.widen().at_most(moment)
            invariant
                at <= self.keyframes@.len(),
                keys_until(self@.keyframes, moment, 0) == keys_until(
                    self@.keyframes,
                    moment,
                    at as int,
                ),
            ensures
                keys_until(self@.keyframes, moment, 0) == at,
            decreases self.keyframes@.len() - at,
        {
            assert(self@.keyframes[at as int] == self.keyframes@[at as int]@);
            at = at + 1;
        }
        if at == 0 {
            return None;
        }
        assert(self@.keyframes[at - 1] == self.keyframes@[at - 1]@);
        Some(self.keyframes[at - 1].tag.as_str())
    }
}

/// Raw numeric kind stored in `Track.TrackKind`.
///
/// Only values with independently verified semantics have helper methods. All
/// other values remain available through [`Self::raw`].
#[derive(Clone, Copy, Debug, Eq, Hash, Ord, PartialEq, PartialOrd)]
pub struct AnimationTrackKind(pub i64);

impl AnimationTrackKind {
    /// Creates a track kind without assigning unverified semantics.
    #[must_use]
    pub fn new(raw: i64) -> (kind: Self)
        ensures
            kind.0 == raw,
    {
        Self(raw)
    }

    /// Returns the stored `TrackKind` value.
    #[must_use]
    pub fn raw(self) -> (raw: i64)
        ensures
            raw == self.0,
    {
        self.0
    }

    /// Whether this is the verified image-cel selection kind (`2000`).
    #[must_use]
    pub fn is_image_cel(self) -> (found: bool)
        ensures
            found == (self.0 == 2000),
    {
        self.0 == 2000
    }

    /// Whether this is the observed non-cel folder kind (`1000`).
    #[must_use]
    pub fn is_folder(self) -> (found: bool)
        ensures
            found == (self.0 == 1000),
    {
        self.0 == 1000
    }

    /// Whether this is the verified static-image-layer kind (`2001`).
    ///
    /// The observed tracks target raster or resizable-image leaf layers and
    /// contain no value curves.
    #[must_use]
    pub fn is_static_image(self) -> (found: bool)
        ensures
            found == (self.0 == 2001),
    {
        self.0 == 2001
    }

    /// Whether this is the verified paper-layer kind (`2003`).
    #[must_use]
    pub fn is_paper(self) -> (found: bool)
        ensures
            found == (self.0 == 2003),
    {
        self.0 == 2003
    }

    /// Whether this is the verified 2D-camera kind (`2005`).
    #[must_use]
    pub fn is_camera_2d(self) -> (found: bool)
        ensures
            found == (self.0 == 2005),
    {
        self.0 == 2005
    }

    /// Whether this is the verified play-time-control kind (`4000`).
    #[must_use]
    pub fn is_play_time(self) -> (found: bool)
        ensures
            found == (self.0 == 4000),
    {
        self.0 == 4000
    }

    /// Whether this is the verified audio-control kind (`4001`).
    #[must_use]
    pub fn is_audio(self) -> (found: bool)
        ensures
            found == (self.0 == 4001),
    {
        self.0 == 4001
    }
}

/// One timeline track, its primary curves, and its inline value map.
#[derive(Clone, Debug, PartialEq)]
pub struct AnimationTrack {
    pub id: i64,
    pub kind: AnimationTrackKind,
    pub layer_id: Option<i64>,
    pub next_track_id: Option<i64>,
    pub action_mixer_present: bool,
    pub secondary_action_mixer_present: bool,
    pub value_map_present: bool,
    pub values: Vec<AnimationTrackValueEntry>,
    pub curves: Vec<AnimationCurve>,
    pub secondary_curves: Vec<SecondaryAnimationCurve>,
    pub camera_2d_values: Option<Camera2DTrackValues>,
}

/// The model of an [`AnimationTrack`].
#[verifier::ext_equal]
pub struct TrackModel {
    pub id: i64,
    pub kind: AnimationTrackKind,
    pub layer_id: Option<i64>,
    pub next_track_id: Option<i64>,
    pub action_mixer_present: bool,
    pub secondary_action_mixer_present: bool,
    pub value_map_present: bool,
    pub values: Seq<camera::EntryModel>,
    pub curves: Seq<mixer::CurveModel>,
    pub secondary_curves: Seq<mixer::SecondaryCurveModel>,
    pub camera_2d_values: Option<Camera2DTrackValues>,
}

impl View for AnimationTrack {
    type V = TrackModel;

    open spec fn view(&self) -> TrackModel {
        TrackModel {
            id: self.id,
            kind: self.kind,
            layer_id: self.layer_id,
            next_track_id: self.next_track_id,
            action_mixer_present: self.action_mixer_present,
            secondary_action_mixer_present: self.secondary_action_mixer_present,
            value_map_present: self.value_map_present,
            values: error::views(self.values@),
            curves: error::views(self.curves@),
            secondary_curves: error::views(self.secondary_curves@),
            camera_2d_values: self.camera_2d_values,
        }
    }
}

impl AnimationTrack {
    /// `Track.MainId`.
    #[must_use]
    pub fn id(&self) -> (value: i64)
        ensures
            value == self.id,
    {
        self.id
    }

    /// Raw track kind with verified helpers for selected values.
    #[must_use]
    pub fn kind(&self) -> (value: AnimationTrackKind)
        ensures
            value == self.kind,
    {
        self.kind
    }

    /// Layer matched through `LayerUuidWithTrack`, when present.
    #[must_use]
    pub fn layer_id(&self) -> (value: Option<i64>)
        ensures
            value == self.layer_id,
    {
        self.layer_id
    }

    /// Next ID in the timeline's validated `TrackNextIndex` chain.
    #[must_use]
    pub fn next_track_id(&self) -> (value: Option<i64>)
        ensures
            value == self.next_track_id,
    {
        self.next_track_id
    }

    /// Whether `TrackActionMixer` was present.
    #[must_use]
    pub fn action_mixer_present(&self) -> (value: bool)
        ensures
            value == self.action_mixer_present,
    {
        self.action_mixer_present
    }

    /// Whether `TrackActionMixer2` contains an external-object identifier.
    #[must_use]
    pub fn secondary_action_mixer_present(&self) -> (value: bool)
        ensures
            value == self.secondary_action_mixer_present,
    {
        self.secondary_action_mixer_present
    }

    /// Whether the schema provided a non-NULL inline `TrackValueMap`.
    #[must_use]
    pub fn value_map_present(&self) -> (value: bool)
        ensures
            value == self.value_map_present,
    {
        self.value_map_present
    }

    /// Every validated entry from the inline `TrackValueMap`.
    #[must_use]
    pub fn values(&self) -> (list: &[AnimationTrackValueEntry])
        ensures
            list@ == self.values@,
    {
        self.values.as_slice()
    }

    /// Every validated `FCurve` in the primary action mixer.
    #[must_use]
    pub fn curves(&self) -> (list: &[AnimationCurve])
        ensures
            list@ == self.curves@,
    {
        self.curves.as_slice()
    }

    /// Every validated double-precision value `FCurve` in the secondary mixer.
    ///
    /// These records are sparse, so this can be empty even when
    /// [`Self::secondary_action_mixer_present`] returns `true`.
    #[must_use]
    pub fn secondary_curves(&self) -> (list: &[SecondaryAnimationCurve])
        ensures
            list@ == self.secondary_curves@,
    {
        self.secondary_curves.as_slice()
    }

    /// Values evaluated at the saved timeline position for a verified
    /// 2D-camera track.
    #[must_use]
    pub fn camera_2d_values(&self) -> (value: Option<Camera2DTrackValues>)
        ensures
            value == self.camera_2d_values,
    {
        self.camera_2d_values
    }
}

/// One selected timeline and its cel-selection tracks.
#[derive(Clone, Debug, PartialEq)]
pub struct Animation {
    pub timeline: Timeline,
    pub tracks: Vec<CelTrack>,
    pub animation_tracks: Vec<AnimationTrack>,
}

/// The model of an [`Animation`].
#[verifier::ext_equal]
pub struct AnimationModel {
    pub timeline: track_rows::TimelineModel,
    pub tracks: Seq<CelTrackModel>,
    pub animation_tracks: Seq<TrackModel>,
}

impl View for Animation {
    type V = AnimationModel;

    open spec fn view(&self) -> AnimationModel {
        AnimationModel {
            timeline: self.timeline@,
            tracks: error::views(self.tracks@),
            animation_tracks: error::views(self.animation_tracks@),
        }
    }
}

/// The position of the first cel track of a layer at or after `at`, or their number.
pub open spec fn cel_position(tracks: Seq<CelTrackModel>, layer_id: i64, at: int) -> int
    decreases tracks.len() - at,
{
    if at >= tracks.len() {
        tracks.len() as int
    } else if tracks[at].layer_id == layer_id {
        at
    } else {
        cel_position(tracks, layer_id, at + 1)
    }
}

/// Whether a track moves the 2D camera of a layer.
pub open spec fn moves_camera(track: TrackModel, layer_id: i64) -> bool {
    track.layer_id == Some(layer_id) && track.kind.0 == 2005
}

/// The position of the first track at or after `at` that moves the 2D camera of a layer,
/// or the number of tracks.
pub open spec fn camera_position(tracks: Seq<TrackModel>, layer_id: i64, at: int) -> int
    decreases tracks.len() - at,
{
    if at >= tracks.len() {
        tracks.len() as int
    } else if moves_camera(tracks[at], layer_id) {
        at
    } else {
        camera_position(tracks, layer_id, at + 1)
    }
}

impl Animation {
    /// Selected timeline.
    #[must_use]
    pub fn timeline(&self) -> (value: &Timeline)
        ensures
            *value == self.timeline,
    {
        &self.timeline
    }

    /// Cel-selection tracks ordered by layer ID.
    #[must_use]
    pub fn tracks(&self) -> (list: &[CelTrack])
        ensures
            list@ == self.tracks@,
    {
        self.tracks.as_slice()
    }

    /// All timeline tracks ordered by `Track.MainId`.
    /// 
    /// This includes tracks without a decoded `FCurve` and preserves unknown
    /// numeric track kinds.
    #[must_use]
    pub fn animation_tracks(&self) -> (list: &[AnimationTrack])
        ensures
            list@ == self.animation_tracks@,
    {
        self.animation_tracks.as_slice()
    }

    /// Finds the cel-selection track for a layer.
    #[must_use]
    pub fn track_for_layer(&self, layer_id: i64) -> (track: Option<&CelTrack>)
        ensures
            match track {
                Some(track) => cel_position(self@.tracks, layer_id, 0) < self@.tracks.len()
                    && self@.tracks[cel_position(self@.tracks, layer_id, 0)] == track@,
                None => cel_position(self@.tracks, layer_id, 0) == self@.tracks.len(),
            },
    {
        let mut at: usize = 0;
        while at < self.tracks.len()
            invariant
                at <= self.tracks@.len(),
                cel_position(self@.tracks, layer_id, 0) == cel_position(
                    self@.tracks,
                    layer_id,
                    at as int,
                ),
            decreases self.tracks@.len() - at,
        {
            assert(self@.tracks[at as int] == self.tracks@[at as int]@);
            if self.tracks[at].layer_id == layer_id {
                return Some(&self.tracks[at]);
            }
            at = at + 1;
        }
        None
    }

    /// Finds the verified 2D-camera track for a layer.
    #[must_use]
    pub fn camera_track_for_layer(&self, layer_id: i64) -> (track: Option<&AnimationTrack>)
        ensures
            match track {
                Some(track) => camera_position(self@.animation_tracks, layer_id, 0)
                    < self@.animation_tracks.len() && self@.animation_tracks[camera_position(
                    self@.animation_tracks,
                    layer_id,
                    0,
                )] == track@,
                None => camera_position(self@.animation_tracks, layer_id, 0)
                    == self@.animation_tracks.len(),
            },
    {
        let mut at: usize = 0;
        while at < self.animation_tracks.len()
            invariant
                at <= self.animation_tracks@.len(),
                camera_position(self@.animation_tracks, layer_id, 0) == camera_position(
                    self@.animation_tracks,
                    layer_id,
                    at as int,
                ),
            decreases self.animation_tracks@.len() - at,
        {
            let track = &self.animation_tracks[at];
            assert(self@.animation_tracks[at as int] == track@);
            let matches: bool = match track.layer_id {
                Some(id) => id == layer_id,
                None => false,
            };
            if matches && track.kind.is_camera_2d() {
                return Some(track);
            }
            at = at + 1;
        }
        None
    }
}

/// The track that a mixer belongs to, and what the mixer is called there.
pub struct MixerOrigin {
    pub name: Seq<char>,
    pub track_id: i64,
}

/// The mixer data that a stored object holds, and what becomes of a missing object.
pub open spec fn mixer_of(
    file: ClipFile,
    object: Option<ExternalObjectModel>,
    origin: MixerOrigin,
    limit: u64,
) -> Result<Seq<u8>, Failure> {
    match object {
        None => Err(
            Failure::InvalidAnimation {
                reason: "animation track "@ + message::decimal_signed(origin.track_id as int)
                    + " references missing "@ + origin.name + " data"@,
            },
        ),
        Some(object) => match object.body {
            ExternalBody::LengthPrefixedZlib(stream) => if stream.byte_order
                != ByteOrder::LittleEndian {
                Err(
                    Failure::InvalidAnimation {
                        reason: "animation track "@ + message::decimal_signed(
                            origin.track_id as int,
                        ) + " "@ + origin.name + " uses an unexpected length byte order"@,
                    },
                )
            } else {
                match external::limited_range_of(
                    file.data@,
                    stream.compressed_offset,
                    stream.compressed_size,
                    limit,
                ) {
                    Err(failure) => Err(failure),
                    Ok(compressed) => decompressed_mixer_of(compressed, limit),
                }
            },
            _ => Err(
                Failure::InvalidAnimation {
                    reason: "animation track "@ + message::decimal_signed(origin.track_id as int)
                        + " "@ + origin.name + " is not a length-prefixed zlib stream"@,
                },
            ),
        },
    }
}

/// The mixer data that a compressed stream holds.
pub open spec fn decompressed_mixer_of(compressed: Seq<u8>, limit: u64) -> Result<
    Seq<u8>,
    Failure,
> {
    match zlib::zlib_inflated(compressed, error::one_more(limit as nat)) {
        None => Err(Failure::Io),
        Some(data) => if data.len() > limit {
            Err(
                mixer::too_many(
                    "decompressed animation mixer bytes"@,
                    data.len() as int,
                    limit,
                ),
            )
        } else {
            Ok(data)
        },
    }
}

/// Decompresses the data of a mixer.
pub fn decompress_mixer(compressed: &[u8], limit: u64) -> (data: Result<Vec<u8>, Error>)
    ensures
        error::outcome(data) == decompressed_mixer_of(compressed@, limit),
{
    let data = decompress(compressed, limit.saturating_add(1))?;
    if data.len() as u64 > limit {
        return Err(
            Error::limit("decompressed animation mixer bytes", data.len() as u64, limit),
        );
    }
    Ok(data)
}

/// Whether reading the mixer that an identifier names can have this outcome.
pub open spec fn named_mixer_read(
    connection: Connection,
    file: ClipFile,
    schema: Seq<database::TableModel>,
    identifier: Seq<u8>,
    origin: MixerOrigin,
    limit: u64,
    outcome: Result<Seq<u8>, Failure>,
) -> bool {
    exists|object: Result<Option<ExternalObjectModel>, Failure>|
        #[trigger] database::object_read(connection, file, schema, identifier, object) && outcome
            == match object {
            Err(failure) => Err::<Seq<u8>, Failure>(failure),
            Ok(object) => mixer_of(file, object, origin, limit),
        }
}

/// Whether reading the mixer that a track names can have this outcome; `None` stands for a
/// track that names none.
pub open spec fn mixer_read(
    connection: Connection,
    file: ClipFile,
    schema: Seq<database::TableModel>,
    identifier: Option<Seq<u8>>,
    origin: MixerOrigin,
    limit: u64,
    outcome: Result<Option<Seq<u8>>, Failure>,
) -> bool {
    match identifier {
        None => outcome == Ok::<Option<Seq<u8>>, Failure>(None),
        Some(identifier) => match outcome {
            Ok(Some(data)) => named_mixer_read(
                connection,
                file,
                schema,
                identifier,
                origin,
                limit,
                Ok(data),
            ),
            Ok(None) => false,
            Err(failure) => named_mixer_read(
                connection,
                file,
                schema,
                identifier,
                origin,
                limit,
                Err(failure),
            ),
        },
    }
}

impl ClipFile {
    /// Reads the mixer data that a stored object holds.
    pub fn mixer_data(
        &self,
        object: Option<&ExternalObject>,
        name: &str,
        track_id: i64,
        limit: u64,
    ) -> (data: Result<Vec<u8>, Error>)
        ensures
            error::outcome(data) == mixer_of(
                *self,
                match object {
                    Some(object) => Some(object@),
                    None => None,
                },
                MixerOrigin { name: name@, track_id },
                limit,
            ),
    {
        let object = match object {
            Some(object) => object,
            None => {
                return Err(
                    animation_error(
                        Message::new("animation track ").integer(track_id).text(
                            " references missing ",
                        ).text(name).text(" data"),
                    ),
                );
            },
        };
        let stream = match object.body() {
            ExternalBody::LengthPrefixedZlib(stream) => stream,
            _ => {
                return Err(
                    animation_error(
                        Message::new("animation track ").integer(track_id).text(" ").text(
                            name,
                        ).text(" is not a length-prefixed zlib stream"),
                    ),
                );
            },
        };
        match stream.byte_order() {
            ByteOrder::LittleEndian => {},
            ByteOrder::BigEndian => {
                return Err(
                    animation_error(
                        Message::new("animation track ").integer(track_id).text(" ").text(
                            name,
                        ).text(" uses an unexpected length byte order"),
                    ),
                );
            },
        }
        let compressed = self.read_length_prefixed_zlib(stream, limit)?;
        decompress_mixer(compressed.as_slice(), limit)
    }

    fn read_named_mixer(
        &self,
        database: &Database,
        identifier: &[u8],
        name: &str,
        track_id: i64,
        limit: u64,
    ) -> (data: Result<Vec<u8>, Error>)
        ensures
            named_mixer_read(
                database.connection,
                *self,
                database.schema@,
                identifier@,
                MixerOrigin { name: name@, track_id },
                limit,
                error::outcome(data),
            ),
    {
        let object = self.resolve_external_object(database, identifier);
        assert(database::object_read(
            database.connection,
            *self,
            database.schema@,
            identifier@,
            error::optional_outcome(object),
        ));
        let object = object?;
        match &object {
            Some(object) => self.mixer_data(Some(object), name, track_id, limit),
            None => self.mixer_data(None, name, track_id, limit),
        }
    }

    pub(crate) fn read_mixer(
        &self,
        database: &Database,
        identifier: &Option<Vec<u8>>,
        name: &str,
        track_id: i64,
        limit: u64,
    ) -> (data: Result<Option<Vec<u8>>, Error>)
        ensures
            mixer_read(
                database.connection,
                *self,
                database.schema@,
                error::optional_bytes(*identifier),
                MixerOrigin { name: name@, track_id },
                limit,
                error::optional_outcome(data),
            ),
    {
        match identifier {
            None => Ok(None),
            Some(identifier) => match self.read_named_mixer(
                database,
                identifier.as_slice(),
                name,
                track_id,
                limit,
            ) {
                Ok(data) => Ok(Some(data)),
                Err(error) => Err(error),
            },
        }
    }
}

/// What the tracks read so far have taken of the limits.
#[derive(Clone, Copy, Debug, PartialEq, Eq)]
pub struct TrackTotals {
    /// Keys in curves.
    pub curve_keys: u64,
    /// Entries in value maps.
    pub value_items: u64,
    /// Bytes in value maps.
    pub value_bytes: u64,
}

/// A total with more added, which may be at most `limit`.
pub open spec fn total_with(total: u64, more: int, resource: Seq<char>, limit: u64) -> Result<
    u64,
    Failure,
> {
    if total + more > u64::MAX {
        Err(Failure::OffsetOverflow)
    } else if total + more > limit {
        Err(mixer::too_many(resource, total + more, limit))
    } else {
        Ok((total + more) as u64)
    }
}

fn add_total(total: u64, more: usize, resource: &'static str, limit: u64) -> (sum: Result<
    u64,
    Error,
>)
    ensures
        error::plain(sum) == total_with(total, more as int, resource@, limit),
{
    let sum: u64 = match total.checked_add(more as u64) {
        Some(sum) => sum,
        None => return Err(Error::OffsetOverflow),
    };
    if sum > limit {
        return Err(Error::limit(resource, sum, limit));
    }
    Ok(sum)
}

/// The keys in the curves from `at` on, on top of `total`.
pub open spec fn keys_with(
    total: u64,
    curves: Seq<mixer::CurveModel>,
    at: int,
    limit: u64,
) -> Result<
    u64,
    Failure,
>
    decreases curves.len() - at,
{
    if at >= curves.len() {
        Ok(total)
    } else {
        match total_with(
            total,
            curves[at].keyframes.len() as int,
            "animation curve keys"@,
            limit,
        ) {
            Err(failure) => Err(failure),
            Ok(sum) => keys_with(sum, curves, at + 1, limit),
        }
    }
}

/// The keys in the secondary curves from `at` on, on top of `total`.
pub open spec fn secondary_keys_with(
    total: u64,
    curves: Seq<mixer::SecondaryCurveModel>,
    at: int,
    limit: u64,
) -> Result<u64, Failure>
    decreases curves.len() - at,
{
    if at >= curves.len() {
        Ok(total)
    } else {
        match total_with(
            total,
            curves[at].keyframes.len() as int,
            "animation curve keys"@,
            limit,
        ) {
            Err(failure) => Err(failure),
            Ok(sum) => secondary_keys_with(sum, curves, at + 1, limit),
        }
    }
}

/// The curves in a mixer, and the keys in them on top of `total`.
pub open spec fn counted_curves(mixer: Option<Seq<u8>>, total: u64, limits: Limits) -> Result<
    (Seq<mixer::CurveModel>, u64),
    Failure,
> {
    match mixer {
        None => Ok((Seq::empty(), total)),
        Some(data) => match mixer::animation_curves_of(data, limits) {
            Err(failure) => Err(failure),
            Ok(curves) => match keys_with(total, curves, 0, limits.max_animation_items) {
                Err(failure) => Err(failure),
                Ok(sum) => Ok((curves, sum)),
            },
        },
    }
}

/// The curves in a secondary mixer, and the keys in them on top of `total`.
pub open spec fn counted_secondary_curves(
    mixer: Option<Seq<u8>>,
    total: u64,
    limits: Limits,
) -> Result<(Seq<mixer::SecondaryCurveModel>, u64), Failure> {
    match mixer {
        None => Ok((Seq::empty(), total)),
        Some(data) => match mixer::secondary_curves_of(data, limits) {
            Err(failure) => Err(failure),
            Ok(curves) => match secondary_keys_with(total, curves, 0, limits.max_animation_items) {
                Err(failure) => Err(failure),
                Ok(sum) => Ok((curves, sum)),
            },
        },
    }
}

/// Reads the curves in a mixer, and counts the keys in them on top of `total`.
pub fn count_curves(mixer: &Option<Vec<u8>>, total: u64, limits: Limits) -> (curves: Result<
    (Vec<AnimationCurve>, u64),
    Error,
>)
    ensures
        match curves {
            Ok((curves, sum)) => counted_curves(error::optional_bytes(*mixer), total, limits)
                == Ok::<(Seq<mixer::CurveModel>, u64), Failure>((error::views(curves@), sum)),
            Err(error) => counted_curves(error::optional_bytes(*mixer), total, limits) == Err::<
                (Seq<mixer::CurveModel>, u64),
                Failure,
            >(error@),
        },
{
    let data = match mixer {
        Some(data) => data,
        None => {
            let none: Vec<AnimationCurve> = Vec::new();
            assert(error::views(none@) =~= Seq::<mixer::CurveModel>::empty());
            return Ok((none, total));
        },
    };
    let curves = parse_animation_curves(data.as_slice(), limits)?;
    let ghost models = error::views(curves@);
    let mut sum: u64 = total;
    let mut at: usize = 0;
    while at < curves.len()
        invariant
            at <= curves@.len(),
            models == error::views(curves@),
            mixer::animation_curves_of(data@, limits)
                == Ok::<Seq<mixer::CurveModel>, Failure>(models),
            error::optional_bytes(*mixer) == Some(data@),
            keys_with(total, models, 0, limits.max_animation_items) == keys_with(
                sum,
                models,
                at as int,
                limits.max_animation_items,
            ),
        decreases curves@.len() - at,
    {
        assert(models[at as int] == curves@[at as int]@);
        assert(models[at as int].keyframes.len() == curves@[at as int].keyframes@.len());
        sum = add_total(
            sum,
            curves[at].keyframes.len(),
            "animation curve keys",
            limits.max_animation_items(),
        )?;
        at = at + 1;
    }
    Ok((curves, sum))
}

/// Reads the curves in a secondary mixer, and counts the keys in them on top of `total`.
pub fn count_secondary_curves(mixer: &Option<Vec<u8>>, total: u64, limits: Limits) -> (curves: Result<
    (Vec<SecondaryAnimationCurve>, u64),
    Error,
>)
    ensures
        match curves {
            Ok((curves, sum)) => counted_secondary_curves(
                error::optional_bytes(*mixer),
                total,
                limits,
            )
                == Ok::<(Seq<mixer::SecondaryCurveModel>, u64), Failure>(
                    (error::views(curves@), sum),
                ),
            Err(error) => counted_secondary_curves(
                error::optional_bytes(*mixer),
                total,
                limits,
            ) == Err::<
                (Seq<mixer::SecondaryCurveModel>, u64),
                Failure,
            >(error@),
        },
{
    let data = match mixer {
        Some(data) => data,
        None => {
            let none: Vec<SecondaryAnimationCurve> = Vec::new();
            assert(error::views(none@) =~= Seq::<mixer::SecondaryCurveModel>::empty());
            return Ok((none, total));
        },
    };
    let curves = parse_secondary_animation_curves(data.as_slice(), limits)?;
    let ghost models = error::views(curves@);
    let mut sum: u64 = total;
    let mut at: usize = 0;
    while at < curves.len()
        invariant
            at <= curves@.len(),
            models == error::views(curves@),
            mixer::secondary_curves_of(data@, limits)
                == Ok::<Seq<mixer::SecondaryCurveModel>, Failure>(models),
            error::optional_bytes(*mixer) == Some(data@),
            secondary_keys_with(total, models, 0, limits.max_animation_items) == secondary_keys_with(
                sum,
                models,
                at as int,
                limits.max_animation_items,
            ),
        decreases curves@.len() - at,
    {
        assert(models[at as int] == curves@[at as int]@);
        assert(models[at as int].keyframes.len() == curves@[at as int].keyframes@.len());
        sum = add_total(
            sum,
            curves[at].keyframes.len(),
            "animation curve keys",
            limits.max_animation_items(),
        )?;
        at = at + 1;
    }
    Ok((curves, sum))
}

/// The entries in a value map, and the totals with them.
pub open spec fn counted_values(
    value_map: Option<Seq<u8>>,
    totals: TrackTotals,
    limits: Limits,
) -> Result<
    (Seq<camera::EntryModel>, TrackTotals),
    Failure,
> {
    match value_map {
        None => Ok((Seq::empty(), totals)),
        Some(data) => match total_with(
            totals.value_bytes,
            data.len() as int,
            "animation track value maps"@,
            limits.max_animation_bytes,
        ) {
            Err(failure) => Err(failure),
            Ok(value_bytes) => match camera::value_map_of(data, limits) {
                Err(failure) => Err(failure),
                Ok(values) => match total_with(
                    totals.value_items,
                    values.len() as int,
                    "animation track values"@,
                    limits.max_animation_items,
                ) {
                    Err(failure) => Err(failure),
                    Ok(value_items) => Ok(
                        (
                            values,
                            TrackTotals {
                                curve_keys: totals.curve_keys,
                                value_items,
                                value_bytes,
                            },
                        ),
                    ),
                },
            },
        },
    }
}

/// Reads the entries in a value map, and adds them to the totals.
pub fn count_values(value_map: &Option<Vec<u8>>, totals: TrackTotals, limits: Limits) -> (values:
    Result<(Vec<AnimationTrackValueEntry>, TrackTotals), Error>)
    ensures
        match values {
            Ok((values, after)) => counted_values(
                error::optional_bytes(*value_map),
                totals,
                limits,
            ) == Ok::<(Seq<camera::EntryModel>, TrackTotals), Failure>(
                (error::views(values@), after),
            ),
            Err(error) => counted_values(error::optional_bytes(*value_map), totals, limits)
                == Err::<(Seq<camera::EntryModel>, TrackTotals), Failure>(error@),
        },
{
    let data = match value_map {
        Some(data) => data,
        None => {
            let none: Vec<AnimationTrackValueEntry> = Vec::new();
            assert(error::views(none@) =~= Seq::<camera::EntryModel>::empty());
            return Ok((none, totals));
        },
    };
    let value_bytes: u64 = add_total(
        totals.value_bytes,
        data.len(),
        "animation track value maps",
        limits.max_animation_bytes(),
    )?;
    let values = parse_track_value_map(data.as_slice(), limits)?;
    let value_items: u64 = add_total(
        totals.value_items,
        values.len(),
        "animation track values",
        limits.max_animation_items(),
    )?;
    Ok((values, TrackTotals { curve_keys: totals.curve_keys, value_items, value_bytes }))
}

/// The position of the first curve of a kind at or after `at`, or their number.
pub open spec fn curve_position(curves: Seq<mixer::CurveModel>, kind: Seq<char>, at: int) -> int
    decreases curves.len() - at,
{
    if at >= curves.len() {
        curves.len() as int
    } else if curves[at].kind == kind {
        at
    } else {
        curve_position(curves, kind, at + 1)
    }
}

/// The cel keys for the keys of a curve, all of which have to carry a tag.
pub open spec fn cel_keys_of(keys: Seq<mixer::KeyframeModel>, track_id: i64) -> Result<
    Seq<CelKeyframeModel>,
    Failure,
> {
    if forall|i: int| 0 <= i < keys.len() ==> (#[trigger] keys[i]).tag is Some {
        Ok(
            Seq::new(
                keys.len(),
                |i: int|
                    CelKeyframeModel {
                        time_60hz: keys[i].time_60hz,
                        value: keys[i].value,
                        tag: keys[i].tag.unwrap(),
                    },
            ),
        )
    } else {
        Err(
            Failure::InvalidAnimation {
                reason: "cel track "@ + message::decimal_signed(track_id as int)
                    + " ImageCelName key has no tag"@,
            },
        )
    }
}

/// The cel keys in the first curve that selects cels; `None` where there is none.
pub open spec fn image_cel_keys_of(curves: Seq<mixer::CurveModel>, track_id: i64) -> Result<
    Option<Seq<CelKeyframeModel>>,
    Failure,
> {
    let position = curve_position(curves, "ImageCelName"@, 0);
    if position >= curves.len() {
        Ok(None)
    } else {
        match cel_keys_of(curves[position].keyframes, track_id) {
            Err(failure) => Err(failure),
            Ok(keys) => Ok(Some(keys)),
        }
    }
}

fn read_cel_keys(curve: &AnimationCurve, track_id: i64) -> (keys: Result<
    Vec<CelKeyframe>,
    Error,
>)
    ensures
        error::listed(keys) == cel_keys_of(curve@.keyframes, track_id),
{
    let ghost models = curve@.keyframes;
    let mut keys: Vec<CelKeyframe> = Vec::new();
    while keys.len() < curve.keyframes.len()
        invariant
            models == curve@.keyframes,
            keys@.len() <= curve.keyframes@.len(),
            forall|i: int| 0 <= i < keys@.len() ==> (#[trigger] models[i]).tag is Some,
            forall|i: int|
                0 <= i < keys@.len() ==> (#[trigger] keys@[i])@ == (CelKeyframeModel {
                    time_60hz: models[i].time_60hz,
                    value: models[i].value,
                    tag: models[i].tag.unwrap(),
                }),
        decreases curve.keyframes@.len() - keys@.len(),
    {
        let key = &curve.keyframes[keys.len()];
        assert(models[keys@.len() as int] == key@);
        let tag = match &key.tag {
            Some(tag) => tag.clone(),
            None => {
                assert(models[keys@.len() as int].tag is None);
                return Err(
                    animation_error(
                        Message::new("cel track ").integer(track_id).text(
                            " ImageCelName key has no tag",
                        ),
                    ),
                );
            },
        };
        keys.push(CelKeyframe { time_60hz: key.time_60hz, value: key.value, tag });
    }
    proof {
        assert(error::views(keys@) =~= cel_keys_of(models, track_id)->Ok_0);
    }
    Ok(keys)
}

/// Reads the cel keys in the first curve that selects cels; `None` where there is none.
pub fn image_cel_keys(curves: &[AnimationCurve], track_id: i64) -> (keys: Result<
    Option<Vec<CelKeyframe>>,
    Error,
>)
    ensures
        match keys {
            Ok(Some(keys)) => image_cel_keys_of(error::views(curves@), track_id) == Ok::<
                Option<Seq<CelKeyframeModel>>,
                Failure,
            >(Some(error::views(keys@))),
            Ok(None) => image_cel_keys_of(error::views(curves@), track_id) == Ok::<
                Option<Seq<CelKeyframeModel>>,
                Failure,
            >(None),
            Err(error) => image_cel_keys_of(error::views(curves@), track_id) == Err::<
                Option<Seq<CelKeyframeModel>>,
                Failure,
            >(error@),
        },
{
    let ghost models = error::views(curves@);
    let mut at: usize = 0;
    while at < curves.len()
        invariant
            at <= curves@.len(),
            models == error::views(curves@),
            curve_position(models, "ImageCelName"@, 0) == curve_position(
                models,
                "ImageCelName"@,
                at as int,
            ),
        decreases curves@.len() - at,
    {
        assert(models[at as int] == curves@[at as int]@);
        if same_text(curves[at].kind.as_str(), "ImageCelName") {
            return match read_cel_keys(&curves[at], track_id) {
                Ok(keys) => Ok(Some(keys)),
                Err(error) => Err(error),
            };
        }
        at = at + 1;
    }
    Ok(None)
}

/// What one track row has been read to.
#[derive(Clone, Debug, PartialEq)]
pub struct TrackStep {
    pub track: AnimationTrack,
    pub cel: Option<CelTrack>,
    pub totals: TrackTotals,
}

/// The model of a [`TrackStep`].
#[verifier::ext_equal]
pub struct StepModel {
    pub track: TrackModel,
    pub cel: Option<CelTrackModel>,
    pub totals: TrackTotals,
}

impl View for TrackStep {
    type V = StepModel;

    open spec fn view(&self) -> StepModel {
        StepModel {
            track: self.track@,
            cel: error::optional(self.cel),
            totals: self.totals,
        }
    }
}

/// The parts that a track has been read to.
pub struct TrackParts {
    pub layer_id: Option<i64>,
    pub curves: Vec<AnimationCurve>,
    pub secondary_curves: Vec<SecondaryAnimationCurve>,
    pub values: Vec<AnimationTrackValueEntry>,
    pub totals: TrackTotals,
}

/// The model of [`TrackParts`].
#[verifier::ext_equal]
pub struct PartsModel {
    pub layer_id: Option<i64>,
    pub curves: Seq<mixer::CurveModel>,
    pub secondary_curves: Seq<mixer::SecondaryCurveModel>,
    pub values: Seq<camera::EntryModel>,
    pub totals: TrackTotals,
}

impl View for TrackParts {
    type V = PartsModel;

    open spec fn view(&self) -> PartsModel {
        PartsModel {
            layer_id: self.layer_id,
            curves: error::views(self.curves@),
            secondary_curves: error::views(self.secondary_curves@),
            values: error::views(self.values@),
            totals: self.totals,
        }
    }
}

/// The cel track of a track row; only tracks that select cels have one.
pub open spec fn cel_track_of(source: track_rows::SourceModel, parts: PartsModel) -> Result<
    Option<CelTrackModel>,
    Failure,
> {
    if source.kind != 2000 {
        Ok(None)
    } else {
        match parts.layer_id {
            None => Err(
                Failure::InvalidAnimation {
                    reason: "cel track "@ + message::decimal_signed(source.id as int)
                        + " has no layer UUID"@,
                },
            ),
            Some(layer_id) => match image_cel_keys_of(parts.curves, source.id) {
                Err(failure) => Err(failure),
                Ok(None) => Err(
                    Failure::InvalidAnimation {
                        reason: "cel track "@ + message::decimal_signed(source.id as int)
                            + " mixer has no ImageCelName curve"@,
                    },
                ),
                Ok(Some(keyframes)) => Ok(
                    Some(CelTrackModel { id: source.id, layer_id, keyframes }),
                ),
            },
        }
    }
}

/// The track that a row and its parts make.
pub open spec fn finished_track(
    source: track_rows::SourceModel,
    parts: PartsModel,
    camera_2d_values: Option<Camera2DTrackValues>,
) -> Result<StepModel, Failure> {
    match cel_track_of(source, parts) {
        Err(failure) => Err(failure),
        Ok(cel) => Ok(
            StepModel {
                track: TrackModel {
                    id: source.id,
                    kind: AnimationTrackKind(source.kind),
                    layer_id: parts.layer_id,
                    next_track_id: source.next_track_id,
                    action_mixer_present: source.external_identifier is Some,
                    secondary_action_mixer_present: source.secondary_external_identifier is Some,
                    value_map_present: source.value_map is Some,
                    values: parts.values,
                    curves: parts.curves,
                    secondary_curves: parts.secondary_curves,
                    camera_2d_values,
                },
                cel,
                totals: parts.totals,
            },
        ),
    }
}

/// Makes the track of a row and its parts.
pub fn finish_track(
    source: &TrackSource,
    parts: TrackParts,
    camera_2d_values: Option<Camera2DTrackValues>,
) -> (step: Result<TrackStep, Error>)
    ensures
        error::outcome(step) == finished_track(source@, parts@, camera_2d_values),
{
    let kind = AnimationTrackKind::new(source.kind);
    let cel: Option<CelTrack> = if kind.is_image_cel() {
        let layer_id: i64 = match parts.layer_id {
            Some(layer_id) => layer_id,
            None => {
                return Err(
                    animation_error(
                        Message::new("cel track ").integer(source.id).text(" has no layer UUID"),
                    ),
                );
            },
        };
        match image_cel_keys(parts.curves.as_slice(), source.id)? {
            Some(keyframes) => Some(CelTrack { id: source.id, layer_id, keyframes }),
            None => {
                return Err(
                    animation_error(
                        Message::new("cel track ").integer(source.id).text(
                            " mixer has no ImageCelName curve",
                        ),
                    ),
                );
            },
        }
    } else {
        None
    };
    Ok(
        TrackStep {
            track: AnimationTrack {
                id: source.id,
                kind,
                layer_id: parts.layer_id,
                next_track_id: source.next_track_id,
                action_mixer_present: source.external_identifier.is_some(),
                secondary_action_mixer_present: source.secondary_external_identifier.is_some(),
                value_map_present: source.value_map.is_some(),
                values: parts.values,
                curves: parts.curves,
                secondary_curves: parts.secondary_curves,
                camera_2d_values,
            },
            cel,
            totals: parts.totals,
        },
    )
}

} // verus!
