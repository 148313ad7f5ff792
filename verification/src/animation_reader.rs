//! Reading an animation: the timeline that is played, and all that its tracks name.

use std::collections::BTreeMap;

use rusqlite::Connection;
use vstd::prelude::*;

use crate::animation;
use crate::animation::{
    count_curves, count_secondary_curves, count_values, finish_track, Animation, AnimationTrack,
    CelTrack, TrackParts, TrackStep, TrackTotals,
};
use crate::camera;
use crate::camera::parse_camera_2d_track_values;
use crate::container::ClipFile;
use crate::database;
use crate::database::Database;
use crate::error;
use crate::error::{Error, Failure};
use crate::limits::Limits;
use crate::message;
use crate::message::Message;
use crate::mixer;
use crate::track_rows;
use crate::track_rows::{
    animation_track_sources, layer_uuid_ids, preferred_timeline_id, Timeline, TrackSource,
};

verus! {

fn animation_error(reason: Message) -> (error: Error)
    ensures
        error@ == (Failure::InvalidAnimation { reason: reason@ }),
{
    Error::InvalidAnimation { reason: reason.build() }
}

/// How many of the first `count` tracks are left in front of a layer, counted from the
/// back.
pub open spec fn cel_place(
    list: Seq<animation::CelTrackModel>,
    layer_id: i64,
    count: int,
) -> int
    decreases count,
{
    if count > 0 && list[count - 1].layer_id > layer_id {
        cel_place(list, layer_id, count - 1)
    } else {
        count
    }
}

/// Tracks by the order of their layers.
pub open spec fn ordered_cels(cels: Seq<animation::CelTrackModel>) -> Seq<
    animation::CelTrackModel,
>
    decreases cels.len(),
{
    if cels.len() == 0 {
        cels
    } else {
        let rest = ordered_cels(cels.drop_first());
        rest.insert(cel_place(rest, cels[0].layer_id, rest.len() as int), cels[0])
    }
}

/// Whether no two tracks select the cels of one layer.
pub open spec fn one_track_each(cels: Seq<animation::CelTrackModel>) -> bool {
    forall|i: int, j: int|
        0 <= i < j < cels.len() ==> (#[trigger] cels[i]).layer_id != (#[trigger] cels[j]).layer_id
}

/// Whether tracks stand in the order of their layers, no layer twice.
pub open spec fn in_layer_order(cels: Seq<animation::CelTrackModel>) -> bool {
    forall|i: int, j: int|
        0 <= i < j < cels.len() ==> (#[trigger] cels[i]).layer_id < (#[trigger] cels[j]).layer_id
}

proof fn place_parts(list: Seq<animation::CelTrackModel>, layer_id: i64, count: int)
    requires
        0 <= count <= list.len(),
    ensures
        0 <= cel_place(list, layer_id, count) <= count,
        cel_place(list, layer_id, count) > 0 ==> list[cel_place(list, layer_id, count) - 1].layer_id
            <= layer_id,
        forall|i: int|
            cel_place(
                list,
                layer_id,
                count,
            ) <= i < count ==> (#[trigger] list[i]).layer_id > layer_id,
    decreases count,
{
    if count > 0 && list[count - 1].layer_id > layer_id {
        place_parts(list, layer_id, count - 1);
    }
}

/// Ordering tracks that select the cels of different layers puts them in the order of
/// their layers, and neither adds nor loses one.
pub proof fn ordered_cels_are_in_layer_order(cels: Seq<animation::CelTrackModel>)
    requires
        one_track_each(cels),
    ensures
        in_layer_order(ordered_cels(cels)),
        ordered_cels(cels).to_multiset() == cels.to_multiset(),
        ordered_cels(cels).len() == cels.len(),
    decreases cels.len(),
{
    broadcast use vstd::seq_lib::group_to_multiset_ensures;

    if cels.len() > 0 {
        let first = cels[0];
        let others = cels.drop_first();
        assert(one_track_each(others)) by {
            assert forall|i: int, j: int| 0 <= i < j < others.len() implies (#[trigger]
            others[i]).layer_id != (#[trigger] others[j]).layer_id by {
                assert(others[i] == cels[i + 1] && others[j] == cels[j + 1]);
            }
        }
        ordered_cels_are_in_layer_order(others);
        let rest = ordered_cels(others);
        let place = cel_place(rest, first.layer_id, rest.len() as int);
        place_parts(rest, first.layer_id, rest.len() as int);
        let list = rest.insert(place, first);
        assert forall|i: int| 0 <= i < rest.len() implies (#[trigger] rest[i]).layer_id
            != first.layer_id by {
            assert(rest.contains(rest[i]));
            assert(rest.to_multiset().count(rest[i]) > 0);
            assert(others.contains(rest[i]));
            let k = choose|k: int| 0 <= k < others.len() && others[k] == rest[i];
            assert(cels[k + 1] == rest[i]);
        }
        assert forall|i: int, j: int| 0 <= i < j < list.len() implies (#[trigger]
        list[i]).layer_id < (#[trigger] list[j]).layer_id by {
            if i < place && j == place {
                if i < place - 1 {
                    assert(rest[i].layer_id < rest[place - 1].layer_id);
                }
            } else if i == place {
                assert(list[j] == rest[j - 1]);
            } else if i > place {
                assert(list[i] == rest[i - 1] && list[j] == rest[j - 1]);
            } else if j > place {
                assert(list[i] == rest[i] && list[j] == rest[j - 1]);
                assert(i < j - 1 || i == j - 1);
                if i == j - 1 {
                    assert(i >= place);
                }
            } else {
                assert(list[i] == rest[i] && list[j] == rest[j]);
            }
        }
        assert(list.remove(place) =~= rest);
        assert(list[place] == first);
        assert(list.to_multiset() =~= rest.to_multiset().insert(first)) by {
            assert(list.to_multiset().remove(first) =~= rest.to_multiset());
            assert(list.contains(list[place]));
            assert(list.to_multiset().count(first) > 0);
        }
        assert(cels.remove(0) =~= others);
        assert(cels.to_multiset() =~= others.to_multiset().insert(first)) by {
            assert(cels.to_multiset().remove(first) =~= others.to_multiset());
            assert(cels.contains(cels[0]));
            assert(cels.to_multiset().count(first) > 0);
        }
    }
}

/// The cel tracks of an animation, in the order of their layers.
pub open spec fn cels_of(cels: Seq<animation::CelTrackModel>) -> Result<
    Seq<animation::CelTrackModel>,
    Failure,
> {
    if one_track_each(cels) {
        Ok(ordered_cels(cels))
    } else {
        Err(
            Failure::InvalidAnimation { reason: "multiple cel tracks resolve to the same layer"@ },
        )
    }
}

fn place_in(list: &Vec<CelTrack>, layer_id: i64) -> (place: usize)
    ensures
        place == cel_place(error::views(list@), layer_id, list@.len() as int),
        place <= list@.len(),
{
    let ghost models = error::views(list@);
    let mut place: usize = list.len();
    while place > 0 && list[place - 1].layer_id > layer_id
        invariant
            place <= list@.len(),
            models == error::views(list@),
            cel_place(models, layer_id, list@.len() as int) == cel_place(
                models,
                layer_id,
                place as int,
            ),
        ensures
            place == cel_place(models, layer_id, list@.len() as int),
        decreases place,
    {
        assert(models[place - 1] == list@[place - 1]@);
        place = place - 1;
    }
    place
}

/// Puts cel tracks in the order of their layers, no layer twice.
#[verifier::spinoff_prover]
#[verifier::loop_isolation(false)]
pub fn order_cels(cels: Vec<CelTrack>) -> (list: Result<Vec<CelTrack>, Error>)
    ensures
        error::listed(list) == cels_of(error::views(cels@)),
{
    broadcast use vstd::seq_lib::group_to_multiset_ensures;

    let ghost models = error::views(cels@);
    let mut cels = cels;
    let mut list: Vec<CelTrack> = Vec::new();
    proof {
        assert(models.skip(cels@.len() as int) =~= Seq::<animation::CelTrackModel>::empty());
        assert(error::views(list@) =~= Seq::<animation::CelTrackModel>::empty());
    }
    loop
        invariant
            cels@.len() <= models.len(),
            error::views(cels@) == models.take(cels@.len() as int),
            error::views(list@) == ordered_cels(models.skip(cels@.len() as int)),
            one_track_each(models.skip(cels@.len() as int)),
        decreases cels@.len(),
    {
        let ghost before = cels@.len() as int;
        let ghost others = models.skip(before);
        let cel = match cels.pop() {
            Some(cel) => cel,
            None => {
                assert(models.skip(0) =~= models);
                return Ok(list);
            },
        };
        let ghost wider = models.skip(before - 1);
        proof {
            assert(error::views(cels@) =~= models.take(before - 1));
            assert(models.take(before)[before - 1] == cel@);
            assert(wider.drop_first() =~= others);
            assert(wider[0] == cel@);
            ordered_cels_are_in_layer_order(others);
        }
        let ghost rest = error::views(list@);
        let place: usize = place_in(&list, cel.layer_id);
        proof {
            place_parts(rest, cel.layer_id, rest.len() as int);
        }
        if place > 0 && list[place - 1].layer_id == cel.layer_id {
            proof {
                let twin = rest[place - 1];
                assert(twin == list@[place - 1]@);
                assert(rest.contains(twin));
                assert(rest.to_multiset().count(twin) > 0);
                assert(others.contains(twin));
                let k = choose|k: int| 0 <= k < others.len() && others[k] == twin;
                assert(models[before + k] == twin);
                assert(models[before - 1] == cel@);
                assert(!one_track_each(models));
            }
            return Err(
                animation_error(Message::new("multiple cel tracks resolve to the same layer")),
            );
        }
        proof {
            assert forall|k: int| 0 <= k < others.len() implies (#[trigger] others[k]).layer_id
                != cel.layer_id by {
                assert(others.contains(others[k]));
                assert(others.to_multiset().count(others[k]) > 0);
                assert(rest.contains(others[k]));
                let i = choose|i: int| 0 <= i < rest.len() && rest[i] == others[k];
                if i < place {
                    assert(rest[place - 1] == list@[place - 1]@);
                    if i < place - 1 {
                        assert(rest[i].layer_id < rest[place - 1].layer_id);
                    }
                }
            }
            assert forall|i: int, j: int| 0 <= i < j < wider.len() implies (#[trigger]
            wider[i]).layer_id != (#[trigger] wider[j]).layer_id by {
                assert(wider[j] == others[j - 1]);
                if i > 0 {
                    assert(wider[i] == others[i - 1]);
                }
            }
        }
        let ghost grown = list@.insert(place as int, cel);
        proof {
            assert(error::views(grown) =~= rest.insert(place as int, cel@));
        }
        list.insert(place, cel);
    }
}

/// The layer that a track names.
pub open spec fn layer_of(
    layers: Map<u128, i64>,
    uuid: Option<u128>,
    track_id: i64,
) -> Result<Option<i64>, Failure> {
    match uuid {
        None => Ok(None),
        Some(uuid) => if layers.contains_key(uuid) {
            Ok(Some(layers[uuid]))
        } else {
            Err(
                Failure::InvalidAnimation {
                    reason: "animation track "@ + message::decimal_signed(track_id as int)
                        + " has no matching layer UUID"@,
                },
            )
        },
    }
}

fn find_layer(layers: &BTreeMap<u128, i64>, source: &TrackSource) -> (layer: Result<
    Option<i64>,
    Error,
>)
    ensures
        error::plain(layer) == layer_of(layers@, source@.layer_uuid, source@.id),
{
    let uuid: u128 = match source.layer_uuid {
        Some(uuid) => uuid,
        None => return Ok(None),
    };
    match layers.get(&uuid) {
        Some(id) => Ok(Some(*id)),
        None => Err(
            animation_error(
                Message::new("animation track ").integer(source.id).text(
                    " has no matching layer UUID",
                ),
            ),
        ),
    }
}

/// The track of a 2D camera, where its layer has been read to `layer`.
pub open spec fn camera_track_of(
    source: track_rows::SourceModel,
    parts: animation::PartsModel,
    layer: Result<Option<camera::CameraLayerModel>, Failure>,
) -> Result<animation::StepModel, Failure> {
    match layer {
        Err(failure) => Err(failure),
        Ok(None) => Err(
            Failure::InvalidAnimation {
                reason: "2D-camera track "@ + message::decimal_signed(source.id as int)
                    + " does not resolve to camera-layer metadata"@,
            },
        ),
        Ok(Some(_)) => match camera::camera_values_of(parts.values) {
            Err(failure) => Err(failure),
            Ok(values) => animation::finished_track(source, parts, Some(values)),
        },
    }
}

/// Whether the track that a row and its parts make can have this outcome.
pub open spec fn parts_read(
    connection: Connection,
    schema: Seq<database::TableModel>,
    source: track_rows::SourceModel,
    parts: animation::PartsModel,
    limits: Limits,
    outcome: Result<animation::StepModel, Failure>,
) -> bool {
    if source.kind != 2005 {
        outcome == animation::finished_track(source, parts, None)
    } else {
        match parts.layer_id {
            None => outcome == Err::<animation::StepModel, Failure>(
                Failure::InvalidAnimation {
                    reason: "2D-camera track "@ + message::decimal_signed(source.id as int)
                        + " has no layer UUID"@,
                },
            ),
            Some(layer_id) => exists|layer: Result<Option<camera::CameraLayerModel>, Failure>|
                #[trigger] camera::camera_layer_read(
                    connection,
                    schema,
                    layer_id,
                    limits,
                    layer,
                ) && outcome
                    == camera_track_of(source, parts, layer),
        }
    }
}

fn read_parts(database: &Database, source: &TrackSource, parts: TrackParts, limits: Limits) -> (step:
    Result<TrackStep, Error>)
    ensures
        parts_read(
            database.connection,
            database.schema@,
            source@,
            parts@,
            limits,
            error::outcome(step),
        ),
{
    if source.kind != 2005 {
        return finish_track(source, parts, None);
    }
    let layer_id: i64 = match parts.layer_id {
        Some(layer_id) => layer_id,
        None => {
            return Err(
                animation_error(
                    Message::new("2D-camera track ").integer(source.id).text(" has no layer UUID"),
                ),
            );
        },
    };
    let layer = database.camera_2d_layer(layer_id, limits);
    assert(camera::camera_layer_read(
        database.connection,
        database.schema@,
        layer_id,
        limits,
        error::optional_outcome(layer),
    ));
    if layer?.is_none() {
        return Err(
            animation_error(
                Message::new("2D-camera track ").integer(source.id).text(
                    " does not resolve to camera-layer metadata",
                ),
            ),
        );
    }
    let values = parse_camera_2d_track_values(parts.values.as_slice())?;
    finish_track(source, parts, Some(values))
}

/// Whether a track whose secondary mixer has been read to `mixer` can have this outcome.
pub open spec fn track_after_mixers(
    connection: Connection,
    schema: Seq<database::TableModel>,
    source: track_rows::SourceModel,
    layer_id: Option<i64>,
    curves: Seq<mixer::CurveModel>,
    totals: TrackTotals,
    mixer: Result<Option<Seq<u8>>, Failure>,
    limits: Limits,
    outcome: Result<animation::StepModel, Failure>,
) -> bool {
    match mixer {
        Err(failure) => outcome == Err::<animation::StepModel, Failure>(failure),
        Ok(mixer) => match animation::counted_secondary_curves(mixer, totals.curve_keys, limits) {
            Err(failure) => outcome == Err::<animation::StepModel, Failure>(failure),
            Ok((secondary_curves, curve_keys)) => match animation::counted_values(
                source.value_map,
                TrackTotals {
                    curve_keys,
                    value_items: totals.value_items,
                    value_bytes: totals.value_bytes,
                },
                limits,
            ) {
                Err(failure) => outcome == Err::<animation::StepModel, Failure>(failure),
                Ok((values, totals)) => parts_read(
                    connection,
                    schema,
                    source,
                    animation::PartsModel { layer_id, curves, secondary_curves, values, totals },
                    limits,
                    outcome,
                ),
            },
        },
    }
}

/// Whether a track whose primary curves have been read can have this outcome.
pub open spec fn secondary_read(
    connection: Connection,
    file: ClipFile,
    schema: Seq<database::TableModel>,
    source: track_rows::SourceModel,
    layer_id: Option<i64>,
    curves: Seq<mixer::CurveModel>,
    totals: TrackTotals,
    limits: Limits,
    outcome: Result<animation::StepModel, Failure>,
) -> bool {
    exists|mixer: Result<Option<Seq<u8>>, Failure>|
        #[trigger] animation::mixer_read(
            connection,
            file,
            schema,
            source.secondary_external_identifier,
            animation::MixerOrigin { name: "secondary mixer"@, track_id: source.id },
            limits.max_animation_bytes,
            mixer,
        ) && track_after_mixers(connection, schema, source, layer_id, curves, totals, mixer, limits, outcome)
}

/// Whether a track whose primary mixer has been read to `mixer` can have this outcome.
pub open spec fn track_after_mixer(
    connection: Connection,
    file: ClipFile,
    schema: Seq<database::TableModel>,
    source: track_rows::SourceModel,
    layer_id: Option<i64>,
    totals: TrackTotals,
    mixer: Result<Option<Seq<u8>>, Failure>,
    limits: Limits,
    outcome: Result<animation::StepModel, Failure>,
) -> bool {
    match mixer {
        Err(failure) => outcome == Err::<animation::StepModel, Failure>(failure),
        Ok(mixer) => match animation::counted_curves(mixer, totals.curve_keys, limits) {
            Err(failure) => outcome == Err::<animation::StepModel, Failure>(failure),
            Ok((curves, curve_keys)) => secondary_read(
                connection,
                file,
                schema,
                source,
                layer_id,
                curves,
                TrackTotals {
                    curve_keys,
                    value_items: totals.value_items,
                    value_bytes: totals.value_bytes,
                },
                limits,
                outcome,
            ),
        },
    }
}

/// Whether reading a track can have this outcome, after tracks that took `totals` of the
/// limits.
pub open spec fn track_read(
    connection: Connection,
    file: ClipFile,
    schema: Seq<database::TableModel>,
    layers: Map<u128, i64>,
    source: track_rows::SourceModel,
    totals: TrackTotals,
    limits: Limits,
    outcome: Result<animation::StepModel, Failure>,
) -> bool {
    match layer_of(layers, source.layer_uuid, source.id) {
        Err(failure) => outcome == Err::<animation::StepModel, Failure>(failure),
        Ok(layer_id) => exists|mixer: Result<Option<Seq<u8>>, Failure>|
            #[trigger] animation::mixer_read(
                connection,
                file,
                schema,
                source.external_identifier,
                animation::MixerOrigin { name: "mixer"@, track_id: source.id },
                limits.max_animation_bytes,
                mixer,
            ) && track_after_mixer(
                connection,
                file,
                schema,
                source,
                layer_id,
                totals,
                mixer,
                limits,
                outcome,
            ),
    }
}

/// The tracks that the rows have been read to.
pub struct TrackLists {
    pub tracks: Vec<AnimationTrack>,
    pub cels: Vec<CelTrack>,
}

/// The model of [`TrackLists`].
#[verifier::ext_equal]
pub struct ListsModel {
    pub tracks: Seq<animation::TrackModel>,
    pub cels: Seq<animation::CelTrackModel>,
}

impl View for TrackLists {
    type V = ListsModel;

    open spec fn view(&self) -> ListsModel {
        ListsModel { tracks: error::views(self.tracks@), cels: error::views(self.cels@) }
    }
}

/// The lists with the track of one more row.
pub open spec fn lists_with(lists: ListsModel, step: animation::StepModel) -> ListsModel {
    ListsModel {
        tracks: lists.tracks.push(step.track),
        cels: match step.cel {
            Some(cel) => lists.cels.push(cel),
            None => lists.cels,
        },
    }
}

/// Whether reading the tracks from `at` on, after the ones in `lists`, can have this
/// outcome.
pub open spec fn tracks_read(
    connection: Connection,
    file: ClipFile,
    schema: Seq<database::TableModel>,
    layers: Map<u128, i64>,
    sources: Seq<track_rows::SourceModel>,
    limits: Limits,
    at: int,
    totals: TrackTotals,
    lists: ListsModel,
    outcome: Result<ListsModel, Failure>,
) -> bool
    decreases sources.len() - at,
{
    if at >= sources.len() {
        outcome == Ok::<ListsModel, Failure>(lists)
    } else {
        exists|step: Result<animation::StepModel, Failure>|
            #[trigger] track_read(
                connection,
                file,
                schema,
                layers,
                sources[at],
                totals,
                limits,
                step,
            )
                && match step {
                Err(failure) => outcome == Err::<ListsModel, Failure>(failure),
                Ok(step) => tracks_read(
                    connection,
                    file,
                    schema,
                    layers,
                    sources,
                    limits,
                    at + 1,
                    step.totals,
                    lists_with(lists, step),
                    outcome,
                ),
            }
    }
}

/// No tracks.
pub open spec fn no_tracks() -> ListsModel {
    ListsModel { tracks: Seq::empty(), cels: Seq::empty() }
}

/// Nothing taken of the limits.
pub open spec fn no_totals() -> TrackTotals {
    TrackTotals { curve_keys: 0, value_items: 0, value_bytes: 0 }
}

/// Whether reading all tracks can have this outcome.
pub open spec fn all_tracks_read(
    connection: Connection,
    file: ClipFile,
    schema: Seq<database::TableModel>,
    layers: Map<u128, i64>,
    sources: Seq<track_rows::SourceModel>,
    limits: Limits,
    outcome: Result<ListsModel, Failure>,
) -> bool {
    tracks_read(
        connection,
        file,
        schema,
        layers,
        sources,
        limits,
        0,
        no_totals(),
        no_tracks(),
        outcome,
    )
}

/// The position of the first timeline with an ID at or after `at`, or their number.
pub open spec fn timeline_position(
    timelines: Seq<track_rows::TimelineModel>,
    id: i64,
    at: int,
) -> int
    decreases timelines.len() - at,
{
    if at >= timelines.len() {
        timelines.len() as int
    } else if timelines[at].id == id {
        at
    } else {
        timeline_position(timelines, id, at + 1)
    }
}

/// The timeline that is played: the preferred one, or else the first.
pub open spec fn selected_timeline(
    timelines: Seq<track_rows::TimelineModel>,
    preferred: Option<i64>,
) -> Result<track_rows::TimelineModel, Failure> {
    match preferred {
        None => Ok(timelines[0]),
        Some(id) => {
            let position = timeline_position(timelines, id, 0);
            if position < timelines.len() {
                Ok(timelines[position])
            } else {
                Err(
                    Failure::InvalidAnimation {
                        reason: "AnimationCutBank references missing timeline "@
                            + message::decimal_signed(id as int),
                    },
                )
            }
        },
    }
}

/// Chooses the timeline that is played.
#[verifier::loop_isolation(false)]
pub fn select_timeline(timelines: Vec<Timeline>, preferred: Option<i64>) -> (timeline: Result<
    Timeline,
    Error,
>)
    requires
        timelines@.len() > 0,
    ensures
        error::outcome(timeline) == selected_timeline(error::views(timelines@), preferred),
{
    let ghost models = error::views(timelines@);
    let mut timelines = timelines;
    let id: i64 = match preferred {
        Some(id) => id,
        None => {
            assert(models[0] == timelines@[0]@);
            return Ok(timelines.remove(0));
        },
    };
    let mut at: usize = 0;
    while at < timelines.len()
        invariant
            at <= timelines@.len(),
            models == error::views(timelines@),
            selected_timeline(models, preferred) == selected_timeline(models, Some(id)),
            timeline_position(models, id, 0) == timeline_position(models, id, at as int),
        decreases timelines@.len() - at,
    {
        assert(models[at as int] == timelines@[at as int]@);
        if timelines[at].id == id {
            return Ok(timelines.remove(at));
        }
        at = at + 1;
    }
    Err(
        animation_error(Message::new("AnimationCutBank references missing timeline ").integer(id)),
    )
}

proof fn timeline_position_is_first(
    timelines: Seq<track_rows::TimelineModel>,
    id: i64,
    at: int,
)
    requires
        0 <= at <= timelines.len(),
    ensures
        ({
            let position = timeline_position(timelines, id, at);
            &&& at <= position <= timelines.len()
            &&& position < timelines.len() ==> timelines[position].id == id
            &&& forall|i: int| at <= i < position ==> (#[trigger] timelines[i]).id != id
        }),
    decreases timelines.len() - at,
{
    if at < timelines.len() && timelines[at].id != id {
        timeline_position_is_first(timelines, id, at + 1);
    }
}

/// The timeline that is played is one of those listed. Where one is preferred, the one that is
/// played has the preferred ID, it is the first that has it, and there is none to play just when
/// no timeline has it. Where none is preferred, it is the first of all.
pub proof fn selected_timeline_is_the_preferred_one(
    timelines: Seq<track_rows::TimelineModel>,
    preferred: Option<i64>,
)
    requires
        timelines.len() > 0,
    ensures
        match (selected_timeline(timelines, preferred), preferred) {
            (Ok(timeline), Some(id)) => timeline.id == id && exists|i: int|
                0 <= i < timelines.len() && #[trigger] timelines[i] == timeline && forall|j: int|
                    0 <= j < i ==> (#[trigger] timelines[j]).id != id,
            (Err(_), Some(id)) => forall|i: int|
                0 <= i < timelines.len() ==> (#[trigger] timelines[i]).id != id,
            (Ok(timeline), None) => timeline == timelines.first(),
            (Err(_), None) => false,
        },
{
    if let Some(id) = preferred {
        timeline_position_is_first(timelines, id, 0);
    }
}

/// The animation that a timeline and its tracks make.
pub open spec fn animation_of(
    timeline: track_rows::TimelineModel,
    lists: Result<ListsModel, Failure>,
) -> Result<Option<animation::AnimationModel>, Failure> {
    match lists {
        Err(failure) => Err(failure),
        Ok(lists) => match cels_of(lists.cels) {
            Err(failure) => Err(failure),
            Ok(tracks) => Ok(
                Some(
                    animation::AnimationModel {
                        timeline,
                        tracks,
                        animation_tracks: lists.tracks,
                    },
                ),
            ),
        },
    }
}

/// The cel tracks of an animation stand in the order of their layers, no layer twice, and
/// are those that its tracks have.
pub proof fn animation_cels_are_in_layer_order(
    timeline: track_rows::TimelineModel,
    lists: ListsModel,
)
    requires
        animation_of(timeline, Ok(lists)) is Ok,
    ensures
        animation_of(timeline, Ok(lists))->Ok_0 matches Some(animation) && in_layer_order(
            animation.tracks,
        ) && animation.tracks.to_multiset() == lists.cels.to_multiset()
            && animation.animation_tracks == lists.tracks,
{
    ordered_cels_are_in_layer_order(lists.cels);
}

/// Whether reading the tracks of a timeline, where the layers have been read, can have this
/// outcome.
pub open spec fn animation_after_layers(
    connection: Connection,
    file: ClipFile,
    schema: Seq<database::TableModel>,
    timeline: track_rows::TimelineModel,
    sources: Seq<track_rows::SourceModel>,
    layers: Result<Map<u128, i64>, Failure>,
    limits: Limits,
    outcome: Result<Option<animation::AnimationModel>, Failure>,
) -> bool {
    match layers {
        Err(failure) => outcome == Err::<Option<animation::AnimationModel>, Failure>(failure),
        Ok(layers) => exists|lists: Result<ListsModel, Failure>|
            #[trigger] all_tracks_read(
                connection,
                file,
                schema,
                layers,
                sources,
                limits,
                lists,
            ) && outcome == animation_of(timeline, lists),
    }
}

/// Whether reading the layers and the tracks of a timeline can have this outcome, where the
/// rows of the tracks have been read.
pub open spec fn animation_after_sources(
    connection: Connection,
    file: ClipFile,
    schema: Seq<database::TableModel>,
    timeline: track_rows::TimelineModel,
    sources: Result<Seq<track_rows::SourceModel>, Failure>,
    limits: Limits,
    outcome: Result<Option<animation::AnimationModel>, Failure>,
) -> bool {
    match sources {
        Err(failure) => outcome == Err::<Option<animation::AnimationModel>, Failure>(failure),
        Ok(sources) => exists|layers: Result<Map<u128, i64>, Failure>|
            #[trigger] track_rows::layers_read(connection, schema, limits, layers) && animation_after_layers(
                connection,
                file,
                schema,
                timeline,
                sources,
                layers,
                limits,
                outcome,
            ),
    }
}

/// Whether reading a timeline can have this outcome.
pub open spec fn timeline_read(
    connection: Connection,
    file: ClipFile,
    schema: Seq<database::TableModel>,
    timeline: Result<track_rows::TimelineModel, Failure>,
    limits: Limits,
    outcome: Result<Option<animation::AnimationModel>, Failure>,
) -> bool {
    match timeline {
        Err(failure) => outcome == Err::<Option<animation::AnimationModel>, Failure>(failure),
        Ok(timeline) => exists|sources: Result<Seq<track_rows::SourceModel>, Failure>|
            #[trigger] track_rows::sources_read(connection, schema, timeline, limits, sources)
                && animation_after_sources(
                    connection,
                    file,
                    schema,
                    timeline,
                    sources,
                    limits,
                    outcome,
                ),
    }
}

/// Whether reading the animation can have this outcome, where it has been read which
/// timeline is preferred.
pub open spec fn animation_after_preference(
    connection: Connection,
    file: ClipFile,
    schema: Seq<database::TableModel>,
    timelines: Seq<track_rows::TimelineModel>,
    preferred: Result<Option<i64>, Failure>,
    limits: Limits,
    outcome: Result<Option<animation::AnimationModel>, Failure>,
) -> bool {
    match preferred {
        Err(failure) => outcome == Err::<Option<animation::AnimationModel>, Failure>(failure),
        Ok(preferred) => timeline_read(
            connection,
            file,
            schema,
            selected_timeline(timelines, preferred),
            limits,
            outcome,
        ),
    }
}

/// Whether reading the animation can have this outcome, where the timelines have been read.
pub open spec fn animation_after_timelines(
    connection: Connection,
    file: ClipFile,
    schema: Seq<database::TableModel>,
    timelines: Result<Seq<track_rows::TimelineModel>, Failure>,
    limits: Limits,
    outcome: Result<Option<animation::AnimationModel>, Failure>,
) -> bool {
    match timelines {
        Err(failure) => outcome == Err::<Option<animation::AnimationModel>, Failure>(failure),
        Ok(timelines) => if timelines.len() == 0 {
            outcome == Ok::<Option<animation::AnimationModel>, Failure>(None)
        } else {
            exists|preferred: Result<Option<i64>, Failure>|
                #[trigger] track_rows::preferred_read(connection, schema, preferred)
                    && animation_after_preference(
                    connection,
                    file,
                    schema,
                    timelines,
                    preferred,
                    limits,
                    outcome,
                )
        },
    }
}

/// Whether reading the animation of a file can have this outcome.
pub open spec fn animation_read(
    connection: Connection,
    file: ClipFile,
    schema: Seq<database::TableModel>,
    limits: Limits,
    outcome: Result<Option<animation::AnimationModel>, Failure>,
) -> bool {
    exists|timelines: Result<Seq<track_rows::TimelineModel>, Failure>|
        #[trigger] track_rows::timelines_read(connection, schema, limits, timelines)
            && animation_after_timelines(connection, file, schema, timelines, limits, outcome)
}

impl ClipFile {
    fn read_secondary(
        &self,
        database: &Database,
        source: &TrackSource,
        parts: TrackParts,
        limits: Limits,
    ) -> (step: Result<TrackStep, Error>)
        ensures
            secondary_read(
                database.connection,
                *self,
                database.schema@,
                source@,
                parts@.layer_id,
                parts@.curves,
                parts@.totals,
                limits,
                error::outcome(step),
            ),
    {
        let mixer = self.read_mixer(
            database,
            &source.secondary_external_identifier,
            "secondary mixer",
            source.id,
            limits.max_animation_bytes(),
        );
        assert(animation::mixer_read(
            database.connection,
            *self,
            database.schema@,
            source@.secondary_external_identifier,
            animation::MixerOrigin { name: "secondary mixer"@, track_id: source@.id },
            limits.max_animation_bytes,
            error::optional_outcome(mixer),
        ));
        let mixer = mixer?;
        let totals = parts.totals;
        let (secondary_curves, curve_keys) = count_secondary_curves(
            &mixer,
            totals.curve_keys,
            limits,
        )?;
        let (values, totals) = count_values(
            &source.value_map,
            TrackTotals {
                curve_keys,
                value_items: totals.value_items,
                value_bytes: totals.value_bytes,
            },
            limits,
        )?;
        read_parts(
            database,
            source,
            TrackParts {
                layer_id: parts.layer_id,
                curves: parts.curves,
                secondary_curves,
                values,
                totals,
            },
            limits,
        )
    }

    fn read_track(
        &self,
        database: &Database,
        layers: &BTreeMap<u128, i64>,
        source: &TrackSource,
        totals: TrackTotals,
        limits: Limits,
    ) -> (step: Result<TrackStep, Error>)
        ensures
            track_read(
                database.connection,
                *self,
                database.schema@,
                layers@,
                source@,
                totals,
                limits,
                error::outcome(step),
            ),
    {
        let layer_id: Option<i64> = find_layer(layers, source)?;
        let mixer = self.read_mixer(
            database,
            &source.external_identifier,
            "mixer",
            source.id,
            limits.max_animation_bytes(),
        );
        assert(animation::mixer_read(
            database.connection,
            *self,
            database.schema@,
            source@.external_identifier,
            animation::MixerOrigin { name: "mixer"@, track_id: source@.id },
            limits.max_animation_bytes,
            error::optional_outcome(mixer),
        ));
        let mixer = mixer?;
        let (curves, curve_keys) = count_curves(&mixer, totals.curve_keys, limits)?;
        self.read_secondary(
            database,
            source,
            TrackParts {
                layer_id,
                curves,
                secondary_curves: Vec::new(),
                values: Vec::new(),
                totals: TrackTotals {
                    curve_keys,
                    value_items: totals.value_items,
                    value_bytes: totals.value_bytes,
                },
            },
            limits,
        )
    }

    #[verifier::spinoff_prover]
    fn read_tracks(
        &self,
        database: &Database,
        layers: &BTreeMap<u128, i64>,
        sources: &[TrackSource],
        limits: Limits,
    ) -> (lists: Result<TrackLists, Error>)
        ensures
            tracks_read(
                database.connection,
                *self,
                database.schema@,
                layers@,
                error::views(sources@),
                limits,
                0,
                no_totals(),
                no_tracks(),
                error::outcome(lists),
            ),
    {
        let ghost schema = database.schema@;
        let ghost models = error::views(sources@);
        let mut lists = TrackLists { tracks: Vec::new(), cels: Vec::new() };
        let mut totals = TrackTotals { curve_keys: 0, value_items: 0, value_bytes: 0 };
        assert(lists@ =~= no_tracks());
        let mut at: usize = 0;
        while at < sources.len()
            invariant
                at <= sources@.len(),
                schema == database.schema@,
                models == error::views(sources@),
                forall|outcome: Result<ListsModel, Failure>| #[trigger]
                    tracks_read(
                        database.connection,
                        *self,
                        schema,
                        layers@,
                        models,
                        limits,
                        at as int,
                        totals,
                        lists@,
                        outcome,
                    ) ==> tracks_read(
                        database.connection,
                        *self,
                        schema,
                        layers@,
                        models,
                        limits,
                        0,
                        no_totals(),
                        no_tracks(),
                        outcome,
                    ),
            decreases sources@.len() - at,
        {
            assert(models[at as int] == sources@[at as int]@);
            let step = self.read_track(database, layers, &sources[at], totals, limits);
            assert(track_read(
                database.connection,
                *self,
                schema,
                layers@,
                models[at as int],
                totals,
                limits,
                error::outcome(step),
            ));
            let step = match step {
                Ok(step) => step,
                Err(error) => {
                    assert(tracks_read(
                        database.connection,
                        *self,
                        schema,
                        layers@,
                        models,
                        limits,
                        at as int,
                        totals,
                        lists@,
                        Err(error@),
                    ));
                    return Err(error);
                },
            };
            let ghost before = lists@;
            let ghost old_totals = totals;
            let ghost model = step@;
            proof {
                error::views_push(lists.tracks@, step.track);
                if step.cel is Some {
                    error::views_push(lists.cels@, step.cel.unwrap());
                }
            }
            lists.tracks.push(step.track);
            if let Some(cel) = step.cel {
                lists.cels.push(cel);
            }
            totals = step.totals;
            at = at + 1;
            proof {
                assert(lists@ =~= lists_with(before, model));
                assert forall|outcome: Result<ListsModel, Failure>| #[trigger]
                    tracks_read(
                        database.connection,
                        *self,
                        schema,
                        layers@,
                        models,
                        limits,
                        at as int,
                        totals,
                        lists@,
                        outcome,
                    ) implies tracks_read(
                    database.connection,
                    *self,
                    schema,
                    layers@,
                    models,
                    limits,
                    0,
                    no_totals(),
                    no_tracks(),
                    outcome,
                ) by {
                    assert(tracks_read(
                        database.connection,
                        *self,
                        schema,
                        layers@,
                        models,
                        limits,
                        at - 1,
                        old_totals,
                        before,
                        outcome,
                    ));
                }
            }
        }
        assert(tracks_read(
            database.connection,
            *self,
            schema,
            layers@,
            models,
            limits,
            at as int,
            totals,
            lists@,
            Ok(lists@),
        ));
        Ok(lists)
    }

    fn read_timeline(&self, database: &Database, timeline: Timeline, limits: Limits) -> (animation:
        Result<Option<Animation>, Error>)
        ensures
            timeline_read(
                database.connection,
                *self,
                database.schema@,
                Ok(timeline@),
                limits,
                error::optional_outcome(animation),
            ),
    {
        let ghost schema = database.schema@;
        let sources = animation_track_sources(database, &timeline, limits);
        let ghost read_sources = error::listed(sources);
        assert(
            track_rows::sources_read(database.connection, schema, timeline@, limits, read_sources)
        );
        let sources = match sources {
            Ok(sources) => sources,
            Err(error) => {
                assert(animation_after_sources(
                    database.connection,
                    *self,
                    schema,
                    timeline@,
                    read_sources,
                    limits,
                    Err(error@),
                ));
                return Err(error);
            },
        };
        let layers = layer_uuid_ids(database, limits);
        let ghost read_layers = error::outcome(layers);
        assert(track_rows::layers_read(database.connection, schema, limits, read_layers));
        let layers = match layers {
            Ok(layers) => layers,
            Err(error) => {
                assert(animation_after_layers(
                    database.connection,
                    *self,
                    schema,
                    timeline@,
                    error::views(sources@),
                    read_layers,
                    limits,
                    Err(error@),
                ));
                assert(animation_after_sources(
                    database.connection,
                    *self,
                    schema,
                    timeline@,
                    read_sources,
                    limits,
                    Err(error@),
                ));
                return Err(error);
            },
        };
        let lists = self.read_tracks(database, &layers, sources.as_slice(), limits);
        let ghost read_lists = error::outcome(lists);
        let ghost model = timeline@;
        assert(all_tracks_read(
            database.connection,
            *self,
            schema,
            layers@,
            error::views(sources@),
            limits,
            read_lists,
        ));
        let animation = assemble(timeline, lists);
        proof {
            let outcome = error::optional_outcome(animation);
            assert(outcome == animation_of(model, read_lists));
            let read = read_layers->Ok_0;
            assert(read_layers is Ok);
            assert(all_tracks_read(
                database.connection,
                *self,
                schema,
                read,
                error::views(sources@),
                limits,
                read_lists,
            ));
            assert(animation_after_layers(
                database.connection,
                *self,
                schema,
                model,
                error::views(sources@),
                read_layers,
                limits,
                outcome,
            ));
            assert(
                animation_after_sources(
                    database.connection,
                    *self,
                    schema,
                    model,
                    read_sources,
                    limits,
                    outcome,
                )
            );
        }
        animation
    }

    /// Reads the enabled timeline and its image-cel selection curves.
    ///
    /// Files without a `TimeLine` table or rows return `None`.
    pub fn read_animation(&self, database: &Database, limits: Limits) -> (animation: Result<
        Option<Animation>,
        Error,
    >)
        ensures
            animation_read(
                database.connection,
                *self,
                database.schema@,
                limits,
                error::optional_outcome(animation),
            ),
    {
        let ghost schema = database.schema@;
        let timelines = database.timelines(limits);
        let ghost read_timelines = error::listed(timelines);
        assert(track_rows::timelines_read(database.connection, schema, limits, read_timelines));
        let timelines = timelines?;
        let ghost models = error::views(timelines@);
        if timelines.len() == 0 {
            return Ok(None);
        }
        let preferred = preferred_timeline_id(database);
        let ghost read_preferred = error::plain(preferred);
        assert(track_rows::preferred_read(database.connection, schema, read_preferred));
        let preferred: Option<i64> = match preferred {
            Ok(preferred) => preferred,
            Err(error) => {
                assert(animation_after_preference(
                    database.connection,
                    *self,
                    schema,
                    models,
                    read_preferred,
                    limits,
                    Err(error@),
                ));
                return Err(error);
            },
        };
        let animation = match select_timeline(timelines, preferred) {
            Ok(timeline) => self.read_timeline(database, timeline, limits),
            Err(error) => Err(error),
        };
        proof {
            let outcome = error::optional_outcome(animation);
            assert(timeline_read(
                database.connection,
                *self,
                schema,
                selected_timeline(models, preferred),
                limits,
                outcome,
            ));
            assert(animation_after_preference(
                database.connection,
                *self,
                schema,
                models,
                read_preferred,
                limits,
                outcome,
            ));
            assert(
                animation_after_timelines(
                    database.connection,
                    *self,
                    schema,
                    read_timelines,
                    limits,
                    outcome,
                )
            );
        }
        animation
    }
}

fn assemble(timeline: Timeline, lists: Result<TrackLists, Error>) -> (animation: Result<
    Option<Animation>,
    Error,
>)
    ensures
        error::optional_outcome(animation) == animation_of(timeline@, error::outcome(lists)),
{
    let lists = lists?;
    let tracks = order_cels(lists.cels)?;
    Ok(Some(Animation { timeline, tracks, animation_tracks: lists.tracks }))
}

} // verus!
