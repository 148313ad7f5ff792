//! How the rows of a reply become the list that is read of it.

use vstd::prelude::*;

use crate::cmc;
use crate::cmc::{CmcNode, CmcNodeModel};
use crate::error::Failure;
use crate::limits::Limits;
use crate::sql;
use crate::sql::FromRow;
use crate::timelapse;
use crate::timelapse::{BlobModel, RecordRowModel};
use crate::track_rows;
use crate::track_rows::{SourceModel, TimelineModel};

verus! {

/// Whether a row is read to a timeline, whatever was used of the space for names before.
pub open spec fn is_timeline(
    row: Seq<sql::SqlModel>,
    limits: Limits,
    timeline: TimelineModel,
) -> bool {
    exists|used: u64|
        {
            &&& #[trigger] track_rows::timeline_of(row, used, limits) is Ok
            &&& track_rows::timeline_of(row, used, limits)->Ok_0.0 == timeline
        }
}

/// Whether a row is read to a record, whatever was used of the space for names before.
pub open spec fn is_record(
    row: Seq<sql::SqlModel>,
    limits: Limits,
    record: RecordRowModel,
) -> bool {
    exists|used: u64|
        {
            &&& #[trigger] timelapse::record_of(row, used, limits) is Ok
            &&& timelapse::record_of(row, used, limits)->Ok_0.0 == record
        }
}

proof fn timelines_in_turn(
    reply: sql::ReplyModel,
    limits: Limits,
    at: int,
    used: u64,
    found: Seq<TimelineModel>,
)
    requires
        0 <= at <= reply.rows.len(),
        found.len() == at,
        forall|i: int| 0 <= i < at ==> is_timeline(reply.rows[i], limits, #[trigger] found[i]),
        track_rows::timelines_from(reply, limits, at, used, found) is Ok,
    ensures
        !reply.failed,
        ({
            let list = track_rows::timelines_from(reply, limits, at, used, found)->Ok_0;
            &&& list.len() == reply.rows.len()
            &&& forall|i: int| 0 <= i < list.len() ==> is_timeline(
                reply.rows[i],
                limits,
                #[trigger] list[i],
            )
        }),
    decreases reply.rows.len() - at,
{
    if at < reply.rows.len() {
        let (item, total) = track_rows::timeline_of(reply.rows[at], used, limits)->Ok_0;
        let more = found.push(item);
        assert forall|i: int| 0 <= i < more.len() implies is_timeline(
            reply.rows[i],
            limits,
            #[trigger] more[i],
        ) by {
            if i < at {
                assert(more[i] == found[i]);
            }
        }
        timelines_in_turn(reply, limits, at + 1, total, more);
    }
}

/// Every row of a reply is read to a timeline, in order.
pub proof fn every_timeline_is_read_in_order(reply: sql::ReplyModel, limits: Limits)
    requires
        track_rows::timelines_from(reply, limits, 0, 0, Seq::empty()) is Ok,
    ensures
        !reply.failed,
        ({
            let list = track_rows::timelines_from(reply, limits, 0, 0, Seq::empty())->Ok_0;
            &&& list.len() == reply.rows.len()
            &&& forall|i: int| 0 <= i < list.len() ==> is_timeline(
                reply.rows[i],
                limits,
                #[trigger] list[i],
            )
        }),
{
    timelines_in_turn(reply, limits, 0, 0, Seq::empty());
}

proof fn tracks_in_turn(
    reply: sql::ReplyModel,
    limits: Limits,
    at: int,
    found: Seq<SourceModel>,
)
    requires
        0 <= at <= reply.rows.len(),
        found.len() == at,
        forall|i: int| 0 <= i < at ==> track_rows::source_of(
            reply.rows[i],
            limits,
        ) == Ok::<SourceModel, Failure>(#[trigger] found[i]),
        track_rows::sources_from(reply, limits, at, found) is Ok,
    ensures
        !reply.failed,
        ({
            let list = track_rows::sources_from(reply, limits, at, found)->Ok_0;
            &&& list.len() == reply.rows.len()
            &&& forall|i: int| 0 <= i < list.len() ==> track_rows::source_of(
                reply.rows[i],
                limits,
            ) == Ok::<SourceModel, Failure>(#[trigger] list[i])
        }),
    decreases reply.rows.len() - at,
{
    if at < reply.rows.len() {
        let more = found.push(track_rows::source_of(reply.rows[at], limits)->Ok_0);
        assert forall|i: int| 0 <= i < more.len() implies track_rows::source_of(
            reply.rows[i],
            limits,
        ) == Ok::<SourceModel, Failure>(#[trigger] more[i]) by {
            if i < at {
                assert(more[i] == found[i]);
            }
        }
        tracks_in_turn(reply, limits, at + 1, more);
    }
}

/// Every row of a reply is read to a track, in order.
pub proof fn every_track_is_read_in_order(reply: sql::ReplyModel, limits: Limits)
    requires
        track_rows::sources_from(reply, limits, 0, Seq::empty()) is Ok,
    ensures
        !reply.failed,
        ({
            let list = track_rows::sources_from(reply, limits, 0, Seq::empty())->Ok_0;
            &&& list.len() == reply.rows.len()
            &&& forall|i: int| 0 <= i < list.len() ==> track_rows::source_of(
                reply.rows[i],
                limits,
            ) == Ok::<SourceModel, Failure>(#[trigger] list[i])
        }),
{
    tracks_in_turn(reply, limits, 0, Seq::empty());
}

proof fn blobs_in_turn(
    reply: sql::ReplyModel,
    limits: Limits,
    at: int,
    found: Seq<BlobModel>,
)
    requires
        0 <= at <= reply.rows.len(),
        found.len() == at,
        forall|i: int| 0 <= i < at ==> timelapse::blob_of(
            reply.rows[i],
            limits,
        ) == Ok::<BlobModel, Failure>(#[trigger] found[i]),
        timelapse::blobs_from(reply, limits, at, found) is Ok,
    ensures
        !reply.failed,
        ({
            let list = timelapse::blobs_from(reply, limits, at, found)->Ok_0;
            &&& list.len() == reply.rows.len()
            &&& forall|i: int| 0 <= i < list.len() ==> timelapse::blob_of(
                reply.rows[i],
                limits,
            ) == Ok::<BlobModel, Failure>(#[trigger] list[i])
        }),
    decreases reply.rows.len() - at,
{
    if at < reply.rows.len() {
        let more = found.push(timelapse::blob_of(reply.rows[at], limits)->Ok_0);
        assert forall|i: int| 0 <= i < more.len() implies timelapse::blob_of(
            reply.rows[i],
            limits,
        ) == Ok::<BlobModel, Failure>(#[trigger] more[i]) by {
            if i < at {
                assert(more[i] == found[i]);
            }
        }
        blobs_in_turn(reply, limits, at + 1, more);
    }
}

/// Every row of a reply is read to a blob, in order.
pub proof fn every_blob_is_read_in_order(reply: sql::ReplyModel, limits: Limits)
    requires
        timelapse::blobs_from(reply, limits, 0, Seq::empty()) is Ok,
    ensures
        !reply.failed,
        ({
            let list = timelapse::blobs_from(reply, limits, 0, Seq::empty())->Ok_0;
            &&& list.len() == reply.rows.len()
            &&& forall|i: int| 0 <= i < list.len() ==> timelapse::blob_of(
                reply.rows[i],
                limits,
            ) == Ok::<BlobModel, Failure>(#[trigger] list[i])
        }),
{
    blobs_in_turn(reply, limits, 0, Seq::empty());
}

proof fn records_in_turn(
    reply: sql::ReplyModel,
    limits: Limits,
    at: int,
    used: u64,
    found: Seq<RecordRowModel>,
)
    requires
        0 <= at <= reply.rows.len(),
        found.len() == at,
        forall|i: int| 0 <= i < at ==> is_record(reply.rows[i], limits, #[trigger] found[i]),
        timelapse::records_from(reply, limits, at, used, found) is Ok,
    ensures
        !reply.failed,
        ({
            let list = timelapse::records_from(reply, limits, at, used, found)->Ok_0;
            &&& list.len() == reply.rows.len()
            &&& forall|i: int| 0 <= i < list.len() ==> is_record(
                reply.rows[i],
                limits,
                #[trigger] list[i],
            )
        }),
    decreases reply.rows.len() - at,
{
    if at < reply.rows.len() {
        let (item, total) = timelapse::record_of(reply.rows[at], used, limits)->Ok_0;
        let more = found.push(item);
        assert forall|i: int| 0 <= i < more.len() implies is_record(
            reply.rows[i],
            limits,
            #[trigger] more[i],
        ) by {
            if i < at {
                assert(more[i] == found[i]);
            }
        }
        records_in_turn(reply, limits, at + 1, total, more);
    }
}

/// Every row of a reply is read to a record, in order.
pub proof fn every_record_is_read_in_order(reply: sql::ReplyModel, limits: Limits)
    requires
        timelapse::records_from(reply, limits, 0, 0, Seq::empty()) is Ok,
    ensures
        !reply.failed,
        ({
            let list = timelapse::records_from(reply, limits, 0, 0, Seq::empty())->Ok_0;
            &&& list.len() == reply.rows.len()
            &&& forall|i: int| 0 <= i < list.len() ==> is_record(
                reply.rows[i],
                limits,
                #[trigger] list[i],
            )
        }),
{
    records_in_turn(reply, limits, 0, 0, Seq::empty());
}

proof fn nodes_in_turn(
    reply: sql::ReplyModel,
    at: int,
    found: Seq<CmcNodeModel>,
)
    requires
        0 <= at <= reply.rows.len(),
        found.len() == at,
        forall|i: int| 0 <= i < at ==> CmcNode::row_model(reply.rows[i])
            == Ok::<CmcNodeModel, Failure>(#[trigger] found[i]),
        cmc::nodes_from(reply, at, found) is Ok,
    ensures
        !reply.failed,
        ({
            let list = cmc::nodes_from(reply, at, found)->Ok_0;
            &&& list.len() == reply.rows.len()
            &&& forall|i: int| 0 <= i < list.len() ==> CmcNode::row_model(reply.rows[i])
                == Ok::<CmcNodeModel, Failure>(#[trigger] list[i])
        }),
    decreases reply.rows.len() - at,
{
    if at < reply.rows.len() {
        let more = found.push(CmcNode::row_model(reply.rows[at])->Ok_0);
        assert forall|i: int| 0 <= i < more.len() implies CmcNode::row_model(reply.rows[i])
            == Ok::<CmcNodeModel, Failure>(#[trigger] more[i]) by {
            if i < at {
                assert(more[i] == found[i]);
            }
        }
        nodes_in_turn(reply, at + 1, more);
    }
}

/// Every row of a reply is read to a node, in order.
pub proof fn every_node_is_read_in_order(reply: sql::ReplyModel)
    requires
        cmc::nodes_from(reply, 0, Seq::empty()) is Ok,
    ensures
        !reply.failed,
        ({
            let list = cmc::nodes_from(reply, 0, Seq::empty())->Ok_0;
            &&& list.len() == reply.rows.len()
            &&& forall|i: int| 0 <= i < list.len() ==> CmcNode::row_model(reply.rows[i])
                == Ok::<CmcNodeModel, Failure>(#[trigger] list[i])
        }),
{
    nodes_in_turn(reply, 0, Seq::empty());
}

proof fn layers_in_turn(
    reply: sql::ReplyModel,
    limits: Limits,
    at: int,
    found: Map<u128, i64>,
)
    requires
        0 <= at <= reply.rows.len(),
        names_layers(reply, found, at),
        track_rows::layers_from(reply, limits, at, found) is Ok,
    ensures
        !reply.failed,
        names_layers(
            reply,
            track_rows::layers_from(reply, limits, at, found)->Ok_0,
            reply.rows.len() as int,
        ),
    decreases reply.rows.len() - at,
{
    if at < reply.rows.len() {
        let uuid = track_rows::uuid_of(sql::bytes_at(reply.rows[at], 1)->Ok_0)->Ok_0;
        let id = sql::integer_at(reply.rows[at], 0)->Ok_0;
        let more = found.insert(uuid, id);
        assert(tells_layer(reply.rows[at], uuid, id));
        assert forall|i: int| 0 <= i < at + 1 implies row_is_named(
            #[trigger] reply.rows[i],
            more,
        ) by {
            if i < at {
                assert(row_is_named(reply.rows[i], found));
            }
        }
        assert forall|key: u128| #[trigger] more.contains_key(key) implies exists|i: int|
            0 <= i < at + 1 && tells_layer(#[trigger] reply.rows[i], key, more[key]) by {
            if key != uuid {
                let i = choose|i: int|
                    0 <= i < at && tells_layer(#[trigger] reply.rows[i], key, found[key]);
                assert(tells_layer(reply.rows[i], key, more[key]));
            }
        }
        layers_in_turn(reply, limits, at + 1, more);
    }
}

/// Whether a row has the ID of a layer in its first column and a form of its UUID in the second.
pub open spec fn tells_layer(row: Seq<sql::SqlModel>, uuid: u128, id: i64) -> bool {
    &&& sql::integer_at(row, 0) == Ok::<i64, Failure>(id)
    &&& sql::bytes_at(row, 1) is Ok
    &&& track_rows::uuid_of(sql::bytes_at(row, 1)->Ok_0) == Ok::<u128, Failure>(uuid)
}

/// Whether the layer of a row is found by its UUID.
pub open spec fn row_is_named(row: Seq<sql::SqlModel>, layers: Map<u128, i64>) -> bool {
    let uuid = track_rows::uuid_of(sql::bytes_at(row, 1)->Ok_0)->Ok_0;
    layers.contains_key(uuid) && tells_layer(row, uuid, layers[uuid])
}

/// Whether just the layers of the first `count` rows are found by their UUIDs.
pub open spec fn names_layers(
    reply: sql::ReplyModel,
    layers: Map<u128, i64>,
    count: int,
) -> bool {
    &&& forall|i: int| 0 <= i < count ==> row_is_named(#[trigger] reply.rows[i], layers)
    &&& forall|key: u128| #[trigger]
        layers.contains_key(key) ==> exists|i: int|
            0 <= i < count && tells_layer(#[trigger] reply.rows[i], key, layers[key])
}

/// Layers are found by their UUIDs: each row with its own, and no other layer by any.
pub proof fn layers_are_found_by_uuid(reply: sql::ReplyModel, limits: Limits)
    requires
        track_rows::layers_from(reply, limits, 0, Map::empty()) is Ok,
    ensures
        !reply.failed,
        names_layers(
            reply,
            track_rows::layers_from(reply, limits, 0, Map::empty())->Ok_0,
            reply.rows.len() as int,
        ),
{
    layers_in_turn(reply, limits, 0, Map::empty());
}

} // verus!
