//! What an animation that was read says.

use rusqlite::Connection;
use vstd::prelude::*;

use crate::animation;
use crate::animation::{CelKeyframeModel, CelTrackModel, TrackModel, TrackTotals};
use crate::animation_reader;
use crate::animation_reader::ListsModel;
use crate::camera;
use crate::container::ClipFile;
use crate::database;
use crate::error::Failure;
use crate::limits::Limits;
use crate::mixer;
use crate::reals::Double;
use crate::sql::{ReplyModel, SqlModel};
use crate::track_rows;
use crate::track_rows::{SourceModel, TimelineModel};

verus! {

/// The timeline to play is the one that the first enabled bank names; zero, nothing or no such
/// bank stand for none. Where banks cannot be disabled, the first bank counts.
pub proof fn enabled_bank_names_the_timeline(
    schema: Seq<database::TableModel>,
    rows: Seq<Seq<SqlModel>>,
)
    ensures
        track_rows::preferred_question(schema) == if database::column_exists(
            schema,
            "AnimationCutBank"@,
            "Enable"@,
        ) {
            "SELECT FirstTimeLine FROM AnimationCutBank WHERE Enable != 0 ORDER BY MainId LIMIT 1"@
        } else {
            "SELECT FirstTimeLine FROM AnimationCutBank ORDER BY MainId LIMIT 1"@
        },
        track_rows::preferred_of(ReplyModel { rows, failed: false }) matches Ok(preferred) ==> {
            &&& preferred matches Some(id) ==> id != 0 && rows.len() > 0 && rows[0][0]
                == SqlModel::Integer(id)
            &&& preferred is None ==> rows.len() == 0 || rows[0][0] == SqlModel::Null
                || rows[0][0] == SqlModel::Integer(0)
        },
{
}

/// Whether the curves of a track are those in the mixer that an identifier names; one without
/// an identifier has none.
pub open spec fn curves_in_mixer(
    connection: Connection,
    file: ClipFile,
    schema: Seq<database::TableModel>,
    track_id: i64,
    identifier: Option<Seq<u8>>,
    limits: Limits,
    curves: Seq<mixer::CurveModel>,
) -> bool {
    exists|data: Option<Seq<u8>>|
        {
            &&& #[trigger] animation::mixer_read(
                connection,
                file,
                schema,
                identifier,
                animation::MixerOrigin { name: "mixer"@, track_id },
                limits.max_animation_bytes,
                Ok(data),
            )
            &&& match data {
                None => curves.len() == 0,
                Some(data) => mixer::animation_curves_of(data, limits) == Ok::<
                    Seq<mixer::CurveModel>,
                    Failure,
                >(curves),
            }
        }
}

/// Whether the secondary curves of a track are those in the mixer that an identifier names; one
/// without an identifier has none.
pub open spec fn secondary_curves_in_mixer(
    connection: Connection,
    file: ClipFile,
    schema: Seq<database::TableModel>,
    track_id: i64,
    identifier: Option<Seq<u8>>,
    limits: Limits,
    curves: Seq<mixer::SecondaryCurveModel>,
) -> bool {
    exists|data: Option<Seq<u8>>|
        {
            &&& #[trigger] animation::mixer_read(
                connection,
                file,
                schema,
                identifier,
                animation::MixerOrigin { name: "secondary mixer"@, track_id },
                limits.max_animation_bytes,
                Ok(data),
            )
            &&& match data {
                None => curves.len() == 0,
                Some(data) => mixer::secondary_curves_of(data, limits) == Ok::<
                    Seq<mixer::SecondaryCurveModel>,
                    Failure,
                >(curves),
            }
        }
}

/// Whether a track is the one that a track row describes: it has the ID, the kind and the next
/// track of the row, the layer with the UUID of the row, the curves in its two mixers, and the
/// values in its value map.
pub open spec fn track_from(
    connection: Connection,
    file: ClipFile,
    schema: Seq<database::TableModel>,
    layers: Map<u128, i64>,
    source: SourceModel,
    limits: Limits,
    track: TrackModel,
) -> bool {
    &&& track.id == source.id
    &&& track.kind.0 == source.kind
    &&& track.next_track_id == source.next_track_id
    &&& track.action_mixer_present == (source.external_identifier is Some)
    &&& track.secondary_action_mixer_present == (source.secondary_external_identifier is Some)
    &&& track.value_map_present == (source.value_map is Some)
    &&& match source.layer_uuid {
        None => track.layer_id is None,
        Some(uuid) => layers.contains_key(uuid) && track.layer_id == Some(layers[uuid]),
    }
    &&& curves_in_mixer(
        connection,
        file,
        schema,
        source.id,
        source.external_identifier,
        limits,
        track.curves,
    )
    &&& secondary_curves_in_mixer(
        connection,
        file,
        schema,
        source.id,
        source.secondary_external_identifier,
        limits,
        track.secondary_curves,
    )
    &&& match source.value_map {
        None => track.values.len() == 0,
        Some(data) => camera::value_map_of(data, limits) == Ok::<Seq<camera::EntryModel>, Failure>(
            track.values,
        ),
    }
    &&& track.camera_2d_values is Some <==> source.kind == 2005
    &&& track.camera_2d_values matches Some(values) ==> camera::camera_values_of(track.values)
        == Ok::<camera::Camera2DTrackValues, Failure>(values)
}

/// Whether a cel track is the one of a track: it has its ID and its layer, and a key for each key
/// of its first curve that selects cels, at the time and with the tag of that key.
pub open spec fn cels_from(track: TrackModel, cel: CelTrackModel) -> bool {
    &&& cel.id == track.id
    &&& track.layer_id == Some(cel.layer_id)
    &&& exists|i: int|
        {
            &&& 0 <= i < track.curves.len()
            &&& (#[trigger] track.curves[i]).kind == "ImageCelName"@
            &&& forall|j: int| 0 <= j < i ==> (#[trigger] track.curves[j]).kind != "ImageCelName"@
            &&& cel.keyframes.len() == track.curves[i].keyframes.len()
            &&& forall|k: int|
                0 <= k < cel.keyframes.len() ==> {
                    let key = track.curves[i].keyframes[k];
                    &&& (#[trigger] cel.keyframes[k]).time_60hz == key.time_60hz
                    &&& cel.keyframes[k].value == key.value
                    &&& Some(cel.keyframes[k].tag) == key.tag
                }
        }
}

proof fn first_curve_of_a_kind(curves: Seq<mixer::CurveModel>, kind: Seq<char>, at: int)
    requires
        0 <= at <= curves.len(),
    ensures
        ({
            let position = animation::curve_position(curves, kind, at);
            &&& at <= position <= curves.len()
            &&& position < curves.len() ==> curves[position].kind == kind
            &&& forall|j: int| at <= j < position ==> (#[trigger] curves[j]).kind != kind
        }),
    decreases curves.len() - at,
{
    if at < curves.len() && curves[at].kind != kind {
        first_curve_of_a_kind(curves, kind, at + 1);
    }
}

proof fn finished(
    source: SourceModel,
    parts: animation::PartsModel,
    values: Option<camera::Camera2DTrackValues>,
)
    requires
        animation::finished_track(source, parts, values) is Ok,
    ensures
        ({
            let step = animation::finished_track(source, parts, values)->Ok_0;
            &&& step.cel is Some <==> source.kind == 2000
            &&& step.cel matches Some(cel) ==> cels_from(step.track, cel)
        }),
{
    let step = animation::finished_track(source, parts, values)->Ok_0;
    if source.kind == 2000 {
        first_curve_of_a_kind(parts.curves, "ImageCelName"@, 0);
        let position = animation::curve_position(parts.curves, "ImageCelName"@, 0);
        assert(step.track.curves[position].kind == "ImageCelName"@);
    }
}

/// A track that is read is the one that its row describes. It selects cels just when it is of
/// the kind of image cels, and then its cel track is its own.
#[verifier::spinoff_prover]
pub proof fn read_track_is_from_its_row(
    connection: Connection,
    file: ClipFile,
    schema: Seq<database::TableModel>,
    layers: Map<u128, i64>,
    source: SourceModel,
    totals: TrackTotals,
    limits: Limits,
    step: animation::StepModel,
)
    requires
        animation_reader::track_read(
            connection,
            file,
            schema,
            layers,
            source,
            totals,
            limits,
            Ok(step),
        ),
    ensures
        track_from(connection, file, schema, layers, source, limits, step.track),
        step.cel is Some <==> source.kind == 2000,
        step.cel matches Some(cel) ==> cels_from(step.track, cel),
{
    let outcome = Ok::<animation::StepModel, Failure>(step);
    let layer_id = animation_reader::layer_of(layers, source.layer_uuid, source.id)->Ok_0;
    let first = choose|mixer: Result<Option<Seq<u8>>, Failure>|
        #[trigger] animation::mixer_read(
            connection,
            file,
            schema,
            source.external_identifier,
            animation::MixerOrigin { name: "mixer"@, track_id: source.id },
            limits.max_animation_bytes,
            mixer,
        ) && animation_reader::track_after_mixer(
            connection,
            file,
            schema,
            source,
            layer_id,
            totals,
            mixer,
            limits,
            outcome,
        );
    let data = first->Ok_0;
    assert(first == Ok::<Option<Seq<u8>>, Failure>(data));
    let (curves, keys) = animation::counted_curves(data, totals.curve_keys, limits)->Ok_0;
    let counted = TrackTotals {
        curve_keys: keys,
        value_items: totals.value_items,
        value_bytes: totals.value_bytes,
    };
    let second = choose|mixer: Result<Option<Seq<u8>>, Failure>|
        #[trigger] animation::mixer_read(
            connection,
            file,
            schema,
            source.secondary_external_identifier,
            animation::MixerOrigin { name: "secondary mixer"@, track_id: source.id },
            limits.max_animation_bytes,
            mixer,
        ) && animation_reader::track_after_mixers(
            connection,
            schema,
            source,
            layer_id,
            curves,
            counted,
            mixer,
            limits,
            outcome,
        );
    let other = second->Ok_0;
    assert(second == Ok::<Option<Seq<u8>>, Failure>(other));
    let (secondary_curves, more_keys) = animation::counted_secondary_curves(
        other,
        keys,
        limits,
    )->Ok_0;
    let (values, all) = animation::counted_values(
        source.value_map,
        TrackTotals {
            curve_keys: more_keys,
            value_items: totals.value_items,
            value_bytes: totals.value_bytes,
        },
        limits,
    )->Ok_0;
    let parts = animation::PartsModel {
        layer_id,
        curves,
        secondary_curves,
        values,
        totals: all,
    };
    if source.kind != 2005 {
        finished(source, parts, None);
    } else {
        let layer = choose|layer: Result<Option<camera::CameraLayerModel>, Failure>|
            #[trigger] camera::camera_layer_read(
                connection,
                schema,
                parts.layer_id->Some_0,
                limits,
                layer,
            ) && outcome == animation_reader::camera_track_of(source, parts, layer);
        finished(source, parts, Some(camera::camera_values_of(values)->Ok_0));
    }
}

/// Whether a cel track is the one of a track among these that is of the kind of image cels.
pub open spec fn has_track(tracks: Seq<TrackModel>, cel: CelTrackModel) -> bool {
    exists|i: int|
        0 <= i < tracks.len() && (#[trigger] tracks[i]).kind.0 == 2000 && cels_from(tracks[i], cel)
}

/// Whether a track has its cel track among these.
pub open spec fn has_cels(cels: Seq<CelTrackModel>, track: TrackModel) -> bool {
    exists|c: int| 0 <= c < cels.len() && cels_from(track, #[trigger] cels[c])
}

/// Whether tracks are those that track rows describe, one for each row in the order of the rows,
/// and cel tracks are those of the tracks that select cels.
pub open spec fn tracks_from(
    connection: Connection,
    file: ClipFile,
    schema: Seq<database::TableModel>,
    layers: Map<u128, i64>,
    sources: Seq<SourceModel>,
    limits: Limits,
    tracks: Seq<TrackModel>,
    cels: Seq<CelTrackModel>,
) -> bool {
    &&& tracks.len() == sources.len()
    &&& forall|i: int|
        0 <= i < tracks.len() ==> track_from(
            connection,
            file,
            schema,
            layers,
            sources[i],
            limits,
            #[trigger] tracks[i],
        )
    &&& forall|c: int| 0 <= c < cels.len() ==> has_track(tracks, #[trigger] cels[c])
    &&& forall|i: int|
        0 <= i < tracks.len() && (#[trigger] tracks[i]).kind.0 == 2000 ==> has_cels(
            cels,
            tracks[i],
        )
}

proof fn tracks_with_one_more(
    connection: Connection,
    file: ClipFile,
    schema: Seq<database::TableModel>,
    layers: Map<u128, i64>,
    sources: Seq<SourceModel>,
    source: SourceModel,
    limits: Limits,
    lists: ListsModel,
    step: animation::StepModel,
)
    requires
        tracks_from(
            connection,
            file,
            schema,
            layers,
            sources,
            limits,
            lists.tracks,
            lists.cels,
        ),
        track_from(connection, file, schema, layers, source, limits, step.track),
        step.cel is Some <==> source.kind == 2000,
        step.cel matches Some(cel) ==> cels_from(step.track, cel),
    ensures
        tracks_from(
            connection,
            file,
            schema,
            layers,
            sources.push(source),
            limits,
            animation_reader::lists_with(lists, step).tracks,
            animation_reader::lists_with(lists, step).cels,
        ),
{
    let more = animation_reader::lists_with(lists, step);
    let count = lists.tracks.len() as int;
    assert(more.tracks[count] == step.track);
    assert forall|i: int| 0 <= i < more.tracks.len() implies track_from(
        connection,
        file,
        schema,
        layers,
        sources.push(source)[i],
        limits,
        #[trigger] more.tracks[i],
    ) by {
        if i < count {
            assert(more.tracks[i] == lists.tracks[i]);
        }
    }
    assert forall|c: int| 0 <= c < more.cels.len() implies has_track(
        more.tracks,
        #[trigger] more.cels[c],
    ) by {
        if c < lists.cels.len() {
            assert(more.cels[c] == lists.cels[c]);
            assert(has_track(lists.tracks, lists.cels[c]));
            let i = choose|i: int|
                0 <= i < lists.tracks.len() && (#[trigger] lists.tracks[i]).kind.0 == 2000
                    && cels_from(lists.tracks[i], lists.cels[c]);
            assert(more.tracks[i] == lists.tracks[i]);
        } else {
            assert(more.cels[c] == step.cel->Some_0);
            assert(cels_from(more.tracks[count], more.cels[c]));
        }
    }
    assert forall|i: int| 0 <= i < more.tracks.len() && (#[trigger] more.tracks[i]).kind.0
        == 2000 implies has_cels(more.cels, more.tracks[i]) by {
        if i < count {
            assert(more.tracks[i] == lists.tracks[i]);
            assert(has_cels(lists.cels, lists.tracks[i]));
            let c = choose|c: int|
                0 <= c < lists.cels.len() && cels_from(lists.tracks[i], #[trigger] lists.cels[c]);
            assert(more.cels[c] == lists.cels[c]);
        } else {
            assert(more.cels[lists.cels.len() as int] == step.cel->Some_0);
        }
    }
}

proof fn read_tracks_in_turn(
    connection: Connection,
    file: ClipFile,
    schema: Seq<database::TableModel>,
    layers: Map<u128, i64>,
    sources: Seq<SourceModel>,
    limits: Limits,
    at: int,
    totals: TrackTotals,
    lists: ListsModel,
    done: ListsModel,
)
    requires
        0 <= at <= sources.len(),
        animation_reader::tracks_read(
            connection,
            file,
            schema,
            layers,
            sources,
            limits,
            at,
            totals,
            lists,
            Ok(done),
        ),
        tracks_from(
            connection,
            file,
            schema,
            layers,
            sources.take(at),
            limits,
            lists.tracks,
            lists.cels,
        ),
    ensures
        tracks_from(
            connection,
            file,
            schema,
            layers,
            sources,
            limits,
            done.tracks,
            done.cels,
        ),
    decreases sources.len() - at,
{
    if at < sources.len() {
        let outcome = Ok::<ListsModel, Failure>(done);
        let read = choose|step: Result<animation::StepModel, Failure>|
            #[trigger] animation_reader::track_read(
                connection,
                file,
                schema,
                layers,
                sources[at],
                totals,
                limits,
                step,
            ) && match step {
                Err(failure) => outcome == Err::<ListsModel, Failure>(failure),
                Ok(step) => animation_reader::tracks_read(
                    connection,
                    file,
                    schema,
                    layers,
                    sources,
                    limits,
                    at + 1,
                    step.totals,
                    animation_reader::lists_with(lists, step),
                    outcome,
                ),
            };
        let step = read->Ok_0;
        assert(read == Ok::<animation::StepModel, Failure>(step));
        read_track_is_from_its_row(
            connection,
            file,
            schema,
            layers,
            sources[at],
            totals,
            limits,
            step,
        );
        tracks_with_one_more(
            connection,
            file,
            schema,
            layers,
            sources.take(at),
            sources[at],
            limits,
            lists,
            step,
        );
        assert(sources.take(at).push(sources[at]) =~= sources.take(at + 1));
        read_tracks_in_turn(
            connection,
            file,
            schema,
            layers,
            sources,
            limits,
            at + 1,
            step.totals,
            animation_reader::lists_with(lists, step),
            done,
        );
    } else {
        assert(sources.take(at) =~= sources);
    }
}

/// Whether an animation plays the timeline of those listed that is preferred, or the first where
/// none is, and has the tracks and cel tracks that the rows of that timeline describe.
pub open spec fn plays(
    connection: Connection,
    file: ClipFile,
    schema: Seq<database::TableModel>,
    limits: Limits,
    timelines: Seq<TimelineModel>,
    preferred: Option<i64>,
    sources: Seq<SourceModel>,
    layers: Map<u128, i64>,
    animation: animation::AnimationModel,
) -> bool {
    &&& timelines.contains(animation.timeline)
    &&& match preferred {
        Some(id) => animation.timeline.id == id,
        None => animation.timeline == timelines.first(),
    }
    &&& track_rows::sources_read(connection, schema, animation.timeline, limits, Ok(sources))
    &&& track_rows::layers_read(connection, schema, limits, Ok(layers))
    &&& tracks_from(
        connection,
        file,
        schema,
        layers,
        sources,
        limits,
        animation.animation_tracks,
        animation.tracks,
    )
}

/// An animation that is read plays the enabled timeline, or else the first, and has the tracks
/// of that timeline: one for each of its rows in their order, with what the row names. Its cel
/// tracks are those of its tracks that select cels.
pub proof fn read_animation_plays_the_enabled_timeline(
    connection: Connection,
    file: ClipFile,
    schema: Seq<database::TableModel>,
    limits: Limits,
    animation: animation::AnimationModel,
)
    requires
        animation_reader::animation_read(connection, file, schema, limits, Ok(Some(animation))),
    ensures
        exists|timelines: Seq<TimelineModel>, preferred: Option<i64>|
            {
                &&& #[trigger] track_rows::timelines_read(connection, schema, limits, Ok(timelines))
                &&& #[trigger] track_rows::preferred_read(connection, schema, Ok(preferred))
                &&& exists|sources: Seq<SourceModel>, layers: Map<u128, i64>| #[trigger]
                    plays(
                        connection,
                        file,
                        schema,
                        limits,
                        timelines,
                        preferred,
                        sources,
                        layers,
                        animation,
                    )
            },
{
    let outcome = Ok::<Option<animation::AnimationModel>, Failure>(Some(animation));
    let listed = choose|timelines: Result<Seq<TimelineModel>, Failure>|
        #[trigger] track_rows::timelines_read(connection, schema, limits, timelines)
            && animation_reader::animation_after_timelines(
            connection,
            file,
            schema,
            timelines,
            limits,
            outcome,
        );
    let timelines = listed->Ok_0;
    assert(listed == Ok::<Seq<TimelineModel>, Failure>(timelines));
    let wanted = choose|preferred: Result<Option<i64>, Failure>|
        #[trigger] track_rows::preferred_read(connection, schema, preferred)
            && animation_reader::animation_after_preference(
            connection,
            file,
            schema,
            timelines,
            preferred,
            limits,
            outcome,
        );
    let preferred = wanted->Ok_0;
    assert(wanted == Ok::<Option<i64>, Failure>(preferred));
    animation_reader::selected_timeline_is_the_preferred_one(timelines, preferred);
    let timeline = animation_reader::selected_timeline(timelines, preferred)->Ok_0;
    let rows = choose|sources: Result<Seq<SourceModel>, Failure>|
        #[trigger] track_rows::sources_read(connection, schema, timeline, limits, sources)
            && animation_reader::animation_after_sources(
            connection,
            file,
            schema,
            timeline,
            sources,
            limits,
            outcome,
        );
    let sources = rows->Ok_0;
    assert(rows == Ok::<Seq<SourceModel>, Failure>(sources));
    let found = choose|layers: Result<Map<u128, i64>, Failure>|
        #[trigger] track_rows::layers_read(connection, schema, limits, layers)
            && animation_reader::animation_after_layers(
            connection,
            file,
            schema,
            timeline,
            sources,
            layers,
            limits,
            outcome,
        );
    let layers = found->Ok_0;
    assert(found == Ok::<Map<u128, i64>, Failure>(layers));
    let read = choose|lists: Result<ListsModel, Failure>|
        #[trigger] animation_reader::all_tracks_read(
            connection,
            file,
            schema,
            layers,
            sources,
            limits,
            lists,
        ) && outcome == animation_reader::animation_of(timeline, lists);
    let lists = read->Ok_0;
    assert(read == Ok::<ListsModel, Failure>(lists));
    assert(sources.take(0) =~= Seq::<SourceModel>::empty());
    read_tracks_in_turn(
        connection,
        file,
        schema,
        layers,
        sources,
        limits,
        0,
        animation_reader::no_totals(),
        animation_reader::no_tracks(),
        lists,
    );
    reordered_cels(lists.tracks, lists.cels, animation.tracks);
    assert(timelines.contains(timeline)) by {
        if preferred is None {
            assert(timelines[0] == timeline);
        }
    }
    assert(plays(
        connection,
        file,
        schema,
        limits,
        timelines,
        preferred,
        sources,
        layers,
        animation,
    ));
}

proof fn reordered_cels(
    tracks: Seq<TrackModel>,
    cels: Seq<CelTrackModel>,
    ordered: Seq<CelTrackModel>,
)
    requires
        animation_reader::cels_of(cels) == Ok::<Seq<CelTrackModel>, Failure>(ordered),
        forall|c: int| 0 <= c < cels.len() ==> has_track(tracks, #[trigger] cels[c]),
        forall|i: int|
            0 <= i < tracks.len() && (#[trigger] tracks[i]).kind.0 == 2000 ==> has_cels(
                cels,
                tracks[i],
            ),
    ensures
        forall|c: int| 0 <= c < ordered.len() ==> has_track(tracks, #[trigger] ordered[c]),
        forall|i: int|
            0 <= i < tracks.len() && (#[trigger] tracks[i]).kind.0 == 2000 ==> has_cels(
                ordered,
                tracks[i],
            ),
{
    broadcast use vstd::seq_lib::group_to_multiset_ensures;

    animation_reader::ordered_cels_are_in_layer_order(cels);
    assert forall|c: int| 0 <= c < ordered.len() implies has_track(
        tracks,
        #[trigger] ordered[c],
    ) by {
        assert(ordered.contains(ordered[c]));
        assert(ordered.to_multiset().count(ordered[c]) > 0);
        assert(cels.contains(ordered[c]));
        let k = choose|k: int| 0 <= k < cels.len() && cels[k] == ordered[c];
        assert(has_track(tracks, cels[k]));
    }
    assert forall|i: int| 0 <= i < tracks.len() && (#[trigger] tracks[i]).kind.0
        == 2000 implies has_cels(ordered, tracks[i]) by {
        let c = choose|c: int| 0 <= c < cels.len() && cels_from(tracks[i], #[trigger] cels[c]);
        assert(cels.contains(cels[c]));
        assert(cels.to_multiset().count(cels[c]) > 0);
        assert(ordered.contains(cels[c]));
        let k = choose|k: int| 0 <= k < ordered.len() && ordered[k] == cels[c];
        assert(cels_from(tracks[i], ordered[k]));
    }
}

/// The cel that is active at a moment is that of the last key that comes no later: all keys up
/// to it come no later, and the next one does not.
pub proof fn active_cel_is_of_the_last_key(keys: Seq<CelKeyframeModel>, moment: Double, at: int)
    requires
        0 <= at <= keys.len(),
    ensures
        ({
            let count = animation::keys_until(keys, moment, at);
            &&& at <= count <= keys.len()
            &&& forall|i: int|
                at <= i < count ==> (Double {
                    bits: (#[trigger] keys[i]).time_60hz.widened(),
                }).order() <= moment.order()
            &&& count < keys.len() ==> (Double { bits: keys[count].time_60hz.widened() }).order()
                > moment.order()
        }),
    decreases keys.len() - at,
{
    if at < keys.len() && (Double { bits: keys[at].time_60hz.widened() }).order()
        <= moment.order() {
        active_cel_is_of_the_last_key(keys, moment, at + 1);
    }
}

/// The cel track that is found for a layer belongs to it, and none is found just when no cel
/// track belongs to it.
pub proof fn cel_track_is_found_by_layer(tracks: Seq<CelTrackModel>, layer_id: i64, at: int)
    requires
        0 <= at <= tracks.len(),
    ensures
        ({
            let position = animation::cel_position(tracks, layer_id, at);
            &&& at <= position <= tracks.len()
            &&& position < tracks.len() ==> tracks[position].layer_id == layer_id
            &&& forall|i: int| at <= i < position ==> (#[trigger] tracks[i]).layer_id != layer_id
        }),
    decreases tracks.len() - at,
{
    if at < tracks.len() && tracks[at].layer_id != layer_id {
        cel_track_is_found_by_layer(tracks, layer_id, at + 1);
    }
}

/// The camera track that is found for a layer belongs to it and is of the kind of 2D cameras,
/// and none is found just when there is no such track.
pub proof fn camera_track_is_found_by_layer(tracks: Seq<TrackModel>, layer_id: i64, at: int)
    requires
        0 <= at <= tracks.len(),
    ensures
        ({
            let position = animation::camera_position(tracks, layer_id, at);
            &&& at <= position <= tracks.len()
            &&& position < tracks.len() ==> tracks[position].layer_id == Some(layer_id)
                && tracks[position].kind.0 == 2005
            &&& forall|i: int|
                at <= i < position ==> (#[trigger] tracks[i]).layer_id != Some(layer_id)
                    || tracks[i].kind.0 != 2005
        }),
    decreases tracks.len() - at,
{
    if at < tracks.len() && !animation::moves_camera(tracks[at], layer_id) {
        camera_track_is_found_by_layer(tracks, layer_id, at + 1);
    }
}

} // verus!
