//! What is read from rows, told by the names of their columns.

use vstd::prelude::*;

use crate::attributes;
use crate::camera;
use crate::cmc;
use crate::cmc::{CmcNode, CmcNodeModel, CmcProject, CmcProjectModel};
use crate::columns::{
    answer, asked, gives_bytes, gives_integer, gives_number, gives_optional_bytes,
    gives_optional_integer, gives_optional_number, gives_optional_text, gives_reference,
    gives_text, optional_cell,
};
use crate::correction;
use crate::database;
use crate::database::{ExternalChunkRecord, ExternalReferenceColumn};
use crate::error::Failure;
use crate::limits::Limits;
use crate::model;
use crate::model::{Canvas, Layer, LayerModel, PreviewModel, Project, ProjectModel};
use crate::raster;
use crate::sql;
use crate::sql::{FromRow, SqlModel};
use crate::text;
use crate::text::{TextRow, TextRowModel};
use crate::text_arrays;
use crate::text_codec;
use crate::timelapse;
use crate::timelapse::ManagerRow;
use crate::track_rows;

verus! {

/// Whether the columns of a layer row hold a layer.
pub open spec fn layer_stored(stored: Map<Seq<char>, SqlModel>, layer: LayerModel) -> bool {
    &&& gives_integer(stored["MainId"@], layer.id)
    &&& gives_integer(stored["CanvasId"@], layer.canvas_id)
    &&& gives_optional_text(stored["LayerName"@], layer.name)
    &&& gives_integer(stored["LayerType"@], layer.kind.raw)
    &&& gives_integer(stored["LayerOpacity"@], layer.opacity)
    &&& gives_integer(stored["LayerComposite"@], layer.blend_mode.raw)
    &&& gives_integer(stored["LayerLock"@], layer.lock_flags)
    &&& gives_integer(stored["LayerClip"@], layer.clip_flags)
    &&& gives_integer(stored["LayerMasking"@], layer.masking_flags)
    &&& gives_integer(stored["LayerFolder"@], layer.folder_flags)
    &&& gives_integer(stored["LayerVisibility"@], layer.visibility_flags)
    &&& gives_reference(stored["LayerNextIndex"@], layer.next_sibling_id)
    &&& gives_reference(stored["LayerFirstChildIndex"@], layer.first_child_id)
    &&& gives_reference(stored["LayerRenderMipmap"@], layer.render_mipmap_id)
    &&& gives_reference(stored["LayerLayerMaskMipmap"@], layer.mask_mipmap_id)
}

/// Layers are asked for by the names of their columns, and a row is read to a layer just when
/// its columns hold that layer.
pub proof fn layers_are_read_by_column(stored: Map<Seq<char>, SqlModel>, layer: LayerModel)
    ensures
        model::layers_question() == asked(model::layer_items(), " FROM Layer ORDER BY rowid"@),
        Layer::row_model(answer(model::layer_items(), stored)) == Ok::<LayerModel, Failure>(layer)
            <==> layer_stored(stored, layer),
{
    let row = answer(model::layer_items(), stored);
    assert(row[0] == stored["MainId"@]);
    assert(row[1] == stored["CanvasId"@]);
    assert(row[2] == stored["LayerName"@]);
    assert(row[3] == stored["LayerType"@]);
    assert(row[4] == stored["LayerOpacity"@]);
    assert(row[5] == stored["LayerComposite"@]);
    assert(row[6] == stored["LayerLock"@]);
    assert(row[7] == stored["LayerClip"@]);
    assert(row[8] == stored["LayerMasking"@]);
    assert(row[9] == stored["LayerFolder"@]);
    assert(row[10] == stored["LayerVisibility"@]);
    assert(row[11] == stored["LayerNextIndex"@]);
    assert(row[12] == stored["LayerFirstChildIndex"@]);
    assert(row[13] == stored["LayerRenderMipmap"@]);
    assert(row[14] == stored["LayerLayerMaskMipmap"@]);
    let read = Layer::row_model(row);
    if layer_stored(stored, layer) {
        assert forall|i: int| 0 <= i <= 10 && i != 2 implies #[trigger] sql::integer_at(row, i)
            is Ok by {
            assert(i == 0 || i == 1 || i == 3 || i == 4 || i == 5 || i == 6 || i == 7 || i == 8
                || i == 9 || i == 10);
        }
        assert forall|i: int| 11 <= i <= 14 implies #[trigger] sql::optional_integer_at(row, i)
            is Ok by {
            assert(i == 11 || i == 12 || i == 13 || i == 14);
        }
        assert(read->Ok_0 =~= layer);
    }
    if read == Ok::<LayerModel, Failure>(layer) {
        assert(sql::integer_at(row, 0) is Ok);
        assert(sql::integer_at(row, 1) is Ok);
        assert(sql::integer_at(row, 3) is Ok);
        assert(sql::integer_at(row, 4) is Ok);
        assert(sql::integer_at(row, 5) is Ok);
        assert(sql::integer_at(row, 6) is Ok);
        assert(sql::integer_at(row, 7) is Ok);
        assert(sql::integer_at(row, 8) is Ok);
        assert(sql::integer_at(row, 9) is Ok);
        assert(sql::integer_at(row, 10) is Ok);
        assert(sql::optional_integer_at(row, 11) is Ok);
        assert(sql::optional_integer_at(row, 12) is Ok);
        assert(sql::optional_integer_at(row, 13) is Ok);
        assert(sql::optional_integer_at(row, 14) is Ok);
    }
}

/// Canvases are asked for by the names of their columns, and a row is read to a canvas just when
/// its columns hold that canvas.
pub proof fn canvases_are_read_by_column(stored: Map<Seq<char>, SqlModel>, canvas: Canvas)
    ensures
        Canvas::row_model(answer(model::canvas_items(), stored)) == Ok::<Canvas, Failure>(canvas)
            <==> {
            &&& gives_integer(stored["MainId"@], canvas.id)
            &&& gives_integer(stored["CanvasUnit"@], canvas.unit)
            &&& gives_number(stored["CanvasWidth"@], canvas.width)
            &&& gives_number(stored["CanvasHeight"@], canvas.height)
            &&& gives_number(stored["CanvasResolution"@], canvas.resolution)
            &&& gives_integer(stored["CanvasRootFolder"@], canvas.root_layer_id)
            &&& gives_reference(stored["CanvasCurrentLayer"@], canvas.current_layer_id)
        },
{
    let row = answer(model::canvas_items(), stored);
    assert(row[0] == stored["MainId"@]);
    assert(row[1] == stored["CanvasUnit"@]);
    assert(row[2] == stored["CanvasWidth"@]);
    assert(row[3] == stored["CanvasHeight"@]);
    assert(row[4] == stored["CanvasResolution"@]);
    assert(row[5] == stored["CanvasRootFolder"@]);
    assert(row[6] == stored["CanvasCurrentLayer"@]);
}

/// The project is asked for by the names of its columns, and a row is read to a project just
/// when its columns hold that project; one without a column for names has none.
pub proof fn project_is_read_by_column(
    schema: Seq<database::TableModel>,
    stored: Map<Seq<char>, SqlModel>,
    project: ProjectModel,
)
    requires
        stored["NULL"@] == SqlModel::Null,
    ensures
        model::project_question(schema) == asked(
            model::project_items(schema),
            " FROM Project ORDER BY rowid LIMIT 1"@,
        ),
        Project::row_model(answer(model::project_items(schema), stored)) == Ok::<
            ProjectModel,
            Failure,
        >(project) <==> {
            &&& gives_text(stored["ProjectInternalVersion"@], project.internal_version)
            &&& gives_optional_text(
                optional_cell(schema, "Project"@, "ProjectName"@, stored),
                project.name,
            )
            &&& gives_reference(stored["ProjectCanvas"@], project.primary_canvas_id)
        },
{
    let row = answer(model::project_items(schema), stored);
    assert(row[0] == stored["ProjectInternalVersion"@]);
    assert(row[1] == optional_cell(schema, "Project"@, "ProjectName"@, stored));
    assert(row[2] == stored["ProjectCanvas"@]);
}

/// A preview that is read is the one that its columns hold.
pub proof fn previews_are_read_by_column(
    stored: Map<Seq<char>, SqlModel>,
    rows: Seq<Seq<SqlModel>>,
    limits: Limits,
    preview: PreviewModel,
)
    requires
        rows.len() > 0,
        rows[0] == answer(model::preview_items(), stored),
        model::preview_of(sql::ReplyModel { rows, failed: false }, limits) == Ok::<
            Option<PreviewModel>,
            Failure,
        >(Some(preview)),
    ensures
        gives_integer(stored["MainId"@], preview.id),
        gives_integer(stored["CanvasId"@], preview.canvas_id),
        gives_integer(stored["ImageType"@], preview.image_type),
        gives_integer(stored["ImageWidth"@], preview.width as i64),
        gives_integer(stored["ImageHeight"@], preview.height as i64),
        stored["ImageData"@] == SqlModel::Blob(preview.data),
        0 < preview.width <= limits.max_canvas_dimension,
        0 < preview.height <= limits.max_canvas_dimension,
        preview.data.len() <= limits.max_preview_bytes,
{
    let row = rows[0];
    assert(row[0] == stored["MainId"@]);
    assert(row[1] == stored["CanvasId"@]);
    assert(row[2] == stored["ImageType"@]);
    assert(row[3] == stored["ImageWidth"@]);
    assert(row[4] == stored["ImageHeight"@]);
    assert(row[5] == stored["ImageData"@]);
}

/// Whether a cell holds an ID, where zero stands for none and nothing is negative.
pub open spec fn gives_node(cell: SqlModel, id: Option<i64>) -> bool {
    match id {
        Some(id) => id > 0 && cell == SqlModel::Integer(id),
        None => cell == SqlModel::Integer(0),
    }
}

/// The nodes of a page-management file are asked for by the names of their columns, and a row
/// is read to a node just when its columns hold that node.
pub proof fn nodes_are_read_by_column(stored: Map<Seq<char>, SqlModel>, node: CmcNodeModel)
    ensures
        cmc::cmc_nodes_question() == asked(
            cmc::cmc_node_items(),
            " FROM CanvasNode ORDER BY MainId"@,
        ),
        CmcNode::row_model(answer(cmc::cmc_node_items(), stored)) == Ok::<CmcNodeModel, Failure>(
            node,
        ) <==> {
            &&& node.id > 0
            &&& gives_integer(stored["MainId"@], node.id)
            &&& gives_integer(stored["Type"@], node.kind)
            &&& gives_node(stored["NextIndex"@], node.next_id)
            &&& gives_node(stored["FirstChildIndex"@], node.first_child_id)
            &&& gives_node(stored["SelectedIndex"@], node.selected_id)
            &&& gives_integer(stored["CanvasIndex"@], node.canvas_index)
            &&& gives_integer(stored["PageFlag"@], node.page_flags)
            &&& gives_optional_text(stored["LinkPath"@], node.raw_link_path)
            &&& node.page_file_name == match node.raw_link_path {
                Some(link) => cmc::page_name(link),
                None => None,
            }
        },
{
    let row = answer(cmc::cmc_node_items(), stored);
    assert(row[0] == stored["MainId"@]);
    assert(row[1] == stored["Type"@]);
    assert(row[2] == stored["NextIndex"@]);
    assert(row[3] == stored["FirstChildIndex"@]);
    assert(row[4] == stored["SelectedIndex"@]);
    assert(row[5] == stored["CanvasIndex"@]);
    assert(row[6] == stored["PageFlag"@]);
    assert(row[7] == stored["LinkPath"@]);
}

/// The project of a page-management file is asked for by the names of its columns, and a row is
/// read to a project just when its columns hold that project.
pub proof fn page_project_is_read_by_column(
    stored: Map<Seq<char>, SqlModel>,
    project: CmcProjectModel,
)
    ensures
        cmc::cmc_project_question() == asked(cmc::cmc_project_items(), " FROM Project"@),
        CmcProject::row_model(answer(cmc::cmc_project_items(), stored)) == Ok::<
            CmcProjectModel,
            Failure,
        >(project) <==> {
            &&& gives_text(stored["ProjectInternalVersion"@], project.internal_version)
            &&& gives_integer(stored["ProjectRootCanvasNode"@], project.root_node_id)
            &&& gives_integer(stored["MaxCanvasFileIndex"@], project.max_canvas_file_index)
            &&& project.root_node_id > 0
            &&& project.max_canvas_file_index >= 0
        },
{
    let row = answer(cmc::cmc_project_items(), stored);
    assert(row[0] == stored["ProjectInternalVersion"@]);
    assert(row[1] == stored["ProjectRootCanvasNode"@]);
    assert(row[2] == stored["MaxCanvasFileIndex"@]);
}

/// Timelines are asked for by the names of their columns, in the order of their IDs. A timeline
/// that is read is the one that its columns hold; its frames come at a positive rate, and its
/// range does not end before it starts.
pub proof fn timelines_are_read_by_column(
    schema: Seq<database::TableModel>,
    stored: Map<Seq<char>, SqlModel>,
    used: u64,
    limits: Limits,
)
    requires
        stored["NULL"@] == SqlModel::Null,
    ensures
        track_rows::timelines_question(schema) == asked(
            track_rows::timeline_items(schema),
            " FROM TimeLine ORDER BY MainId"@,
        ),
        track_rows::timeline_of(
            answer(track_rows::timeline_items(schema), stored),
            used,
            limits,
        ) matches Ok((timeline, total)) ==> {
            let name = optional_cell(schema, "TimeLine"@, "TimeLineName"@, stored);
            &&& timeline.id > 0
            &&& gives_integer(stored["MainId"@], timeline.id)
            &&& gives_integer(stored["BankId"@], timeline.bank_id)
            &&& gives_optional_integer(
                optional_cell(schema, "TimeLine"@, "NextTimeLine"@, stored),
                timeline.next_timeline_id,
            )
            &&& gives_reference(
                optional_cell(schema, "TimeLine"@, "FirstTrack"@, stored),
                timeline.first_track_id,
            )
            &&& match timeline.name {
                Some(text) => exists|data: Seq<u8>| #[trigger]
                    gives_bytes(name, data) && text_codec::utf8_text(data) == Some(text),
                None => name == SqlModel::Null,
            }
            &&& gives_number(stored["FrameRate"@], timeline.frame_rate)
            &&& gives_number(stored["StartFrame"@], timeline.start_frame)
            &&& gives_number(stored["EndFrame"@], timeline.end_frame)
            &&& gives_optional_number(
                optional_cell(schema, "TimeLine"@, "CurrentFrame"@, stored),
                timeline.current_frame,
            )
            &&& timeline.frame_rate.finite() && timeline.frame_rate.order() > 0
            &&& timeline.start_frame.finite() && timeline.end_frame.finite()
            &&& timeline.start_frame.order() <= timeline.end_frame.order()
        },
{
    let items = track_rows::timeline_items(schema);
    let row = answer(items, stored);
    assert(row[0] == stored["MainId"@]);
    assert(row[1] == stored["BankId"@]);
    assert(row[2] == optional_cell(schema, "TimeLine"@, "NextTimeLine"@, stored));
    assert(row[3] == optional_cell(schema, "TimeLine"@, "FirstTrack"@, stored));
    assert(row[4] == optional_cell(schema, "TimeLine"@, "TimeLineName"@, stored));
    assert(row[5] == stored["FrameRate"@]);
    assert(row[6] == stored["StartFrame"@]);
    assert(row[7] == stored["EndFrame"@]);
    assert(row[8] == optional_cell(schema, "TimeLine"@, "CurrentFrame"@, stored));
    if let Ok((timeline, _)) = track_rows::timeline_of(row, used, limits) {
        if timeline.name is Some {
            let data = sql::optional_bytes_at(row, 4)->Ok_0->Some_0;
            assert(gives_bytes(row[4], data));
        }
    }
}

/// Tracks are asked for by the names of their columns, in the order of their IDs. A track that
/// is read is the one that its columns hold.
pub proof fn tracks_are_read_by_column(
    schema: Seq<database::TableModel>,
    stored: Map<Seq<char>, SqlModel>,
    limits: Limits,
)
    requires
        stored["NULL"@] == SqlModel::Null,
    ensures
        track_rows::tracks_question(schema) == asked(
            track_rows::track_items(schema),
            " FROM Track WHERE BankId = ?1 ORDER BY MainId"@,
        ),
        track_rows::source_of(answer(track_rows::track_items(schema), stored), limits) matches Ok(
            track,
        ) ==> {
            &&& gives_integer(stored["MainId"@], track.id)
            &&& gives_integer(stored["TrackKind"@], track.kind)
            &&& gives_optional_bytes(stored["TrackActionMixer"@], track.external_identifier)
            &&& gives_optional_bytes(
                optional_cell(schema, "Track"@, "TrackActionMixer2"@, stored),
                track.secondary_external_identifier,
            )
            &&& gives_optional_bytes(
                optional_cell(schema, "Track"@, "TrackValueMap"@, stored),
                track.value_map,
            )
            &&& gives_reference(
                optional_cell(schema, "Track"@, "TrackNextIndex"@, stored),
                track.next_track_id,
            )
            &&& match track.layer_uuid {
                Some(uuid) => exists|data: Seq<u8>| #[trigger]
                    gives_bytes(stored["LayerUuidWithTrack"@], data) && track_rows::uuid_of(data)
                        == Ok::<u128, Failure>(uuid),
                None => stored["LayerUuidWithTrack"@] == SqlModel::Null,
            }
        },
{
    let row = answer(track_rows::track_items(schema), stored);
    assert(row[0] == stored["MainId"@]);
    assert(row[1] == stored["TrackKind"@]);
    assert(row[2] == stored["TrackActionMixer"@]);
    assert(row[3] == stored["LayerUuidWithTrack"@]);
    assert(row[4] == optional_cell(schema, "Track"@, "TrackActionMixer2"@, stored));
    assert(row[5] == optional_cell(schema, "Track"@, "TrackValueMap"@, stored));
    assert(row[6] == optional_cell(schema, "Track"@, "TrackNextIndex"@, stored));
    if let Ok(track) = track_rows::source_of(row, limits) {
        if track.layer_uuid is Some {
            let data = sql::optional_bytes_at(row, 3)->Ok_0->Some_0;
            assert(gives_bytes(row[3], data));
        }
    }
}

/// Blobs of recordings are asked for by the names of their columns. A blob that is read is the
/// one that its columns hold.
pub proof fn blobs_are_read_by_column(stored: Map<Seq<char>, SqlModel>, limits: Limits)
    ensures
        timelapse::blobs_question() == asked(
            timelapse::blob_items(),
            " FROM TimeLapseBlob ORDER BY MainId"@,
        ),
        timelapse::blob_of(answer(timelapse::blob_items(), stored), limits) matches Ok(blob) ==> {
            &&& gives_integer(stored["MainId"@], blob.id)
            &&& gives_integer(stored["CanvasId"@], blob.canvas_id)
            &&& stored["NextIndex"@] is Integer
            &&& gives_reference(stored["NextIndex"@], blob.next_blob_id)
            &&& stored["BlobOffset"@] matches SqlModel::Integer(value) && value == blob.offset
            &&& stored["BlobSize"@] matches SqlModel::Integer(value) && value == blob.decoded_size
            &&& stored["BlobSizeCompressed"@] matches SqlModel::Integer(value) && value
                == blob.stored_size
            &&& gives_integer(stored["BlobType"@], blob.kind)
            &&& gives_bytes(stored["BlobData"@], blob.external_identifier)
        },
{
    let row = answer(timelapse::blob_items(), stored);
    assert(row[0] == stored["MainId"@]);
    assert(row[1] == stored["CanvasId"@]);
    assert(row[2] == stored["NextIndex"@]);
    assert(row[3] == stored["BlobOffset"@]);
    assert(row[4] == stored["BlobSize"@]);
    assert(row[5] == stored["BlobSizeCompressed"@]);
    assert(row[6] == stored["BlobType"@]);
    assert(row[7] == stored["BlobData"@]);
}

/// Records of recordings are asked for by the names of their columns. A record that is read is
/// the one that its columns hold.
pub proof fn records_are_read_by_column(
    stored: Map<Seq<char>, SqlModel>,
    used: u64,
    limits: Limits,
)
    ensures
        timelapse::records_question() == asked(
            timelapse::record_items(),
            " FROM TimeLapseRecord ORDER BY MainId"@,
        ),
        timelapse::record_of(answer(timelapse::record_items(), stored), used, limits) matches Ok(
            (record, total),
        ) ==> {
            &&& gives_integer(stored["MainId"@], record.id)
            &&& gives_integer(stored["CanvasId"@], record.canvas_id)
            &&& gives_reference(stored["NextIndex"@], record.next_record_id)
            &&& exists|data: Seq<u8>| #[trigger]
                gives_bytes(stored["EncoderName"@], data) && text_codec::utf8_text(data) == Some(
                    record.encoder_name,
                )
            &&& gives_integer(stored["EncoderSequence"@], record.encoder_sequence)
            &&& gives_reference(stored["BlobFirstIndex"@], record.first_blob_id)
        },
{
    let row = answer(timelapse::record_items(), stored);
    assert(row[0] == stored["MainId"@]);
    assert(row[1] == stored["CanvasId"@]);
    assert(row[2] == stored["NextIndex"@]);
    assert(row[3] == stored["EncoderName"@]);
    assert(row[4] == stored["EncoderSequence"@]);
    assert(row[5] == stored["BlobFirstIndex"@]);
    if timelapse::record_of(row, used, limits) is Ok {
        let data = sql::bytes_at(row, 3)->Ok_0;
        assert(gives_bytes(row[3], data));
    }
}

/// Managers of recordings are asked for by the names of their columns, and a row is read to a
/// manager just when its columns hold that manager.
pub proof fn recording_managers_are_read_by_column(
    stored: Map<Seq<char>, SqlModel>,
    manager: ManagerRow,
)
    ensures
        timelapse::managers_question() == asked(
            timelapse::manager_items(),
            " FROM TimeLapseManager ORDER BY MainId"@,
        ),
        ManagerRow::row_model(answer(timelapse::manager_items(), stored)) == Ok::<
            ManagerRow,
            Failure,
        >(manager) <==> {
            &&& gives_integer(stored["MainId"@], manager.id)
            &&& gives_integer(stored["CanvasId"@], manager.canvas_id)
            &&& stored["RecordFirstIndex"@] is Integer
            &&& gives_reference(stored["RecordFirstIndex"@], manager.first_record_id)
        },
{
    let row = answer(timelapse::manager_items(), stored);
    assert(row[0] == stored["MainId"@]);
    assert(row[1] == stored["CanvasId"@]);
    assert(row[2] == stored["RecordFirstIndex"@]);
}

/// A camera layer that is read is the one that its columns hold: a folder with the camera bit
/// and keyframes.
pub proof fn camera_layers_are_read_by_column(stored: Map<Seq<char>, SqlModel>, limits: Limits)
    ensures
        camera::camera_question() == asked(
            camera::camera_items(),
            " FROM Layer WHERE MainId = ?1 LIMIT 1"@,
        ),
        camera::camera_layer_of(answer(camera::camera_items(), stored), limits) matches Ok(
            Some(layer),
        ) ==> {
            &&& gives_integer(stored["MainId"@], layer.layer_id)
            &&& gives_integer(stored["CanvasId"@], layer.canvas_id)
            &&& stored["LayerType"@] matches SqlModel::Integer(kind) && kind & 512 != 0
            &&& stored["LayerFolder"@] matches SqlModel::Integer(flags) && flags != 0
            &&& stored["TimeLineLayerKeyFrameEnabled"@] matches SqlModel::Integer(enabled)
                && enabled != 0
            &&& layer.keyframes_enabled
            &&& gives_number(
                stored["Camera2DOriginalFrameCenterX"@],
                layer.original_frame_center.x,
            )
            &&& gives_number(
                stored["Camera2DOriginalFrameCenterY"@],
                layer.original_frame_center.y,
            )
            &&& exists|data: Seq<u8>| #[trigger]
                gives_bytes(stored["Camera2DResizableImageInfo"@], data) && camera::transform_of(
                    data,
                    limits,
                ) == Ok::<camera::TransformModel, Failure>(layer.transform)
        },
{
    let row = answer(camera::camera_items(), stored);
    assert(row[0] == stored["MainId"@]);
    assert(row[1] == stored["CanvasId"@]);
    assert(row[2] == stored["LayerType"@]);
    assert(row[3] == stored["LayerFolder"@]);
    assert(row[4] == stored["TimeLineLayerKeyFrameEnabled"@]);
    assert(row[5] == stored["Camera2DResizableImageInfo"@]);
    assert(row[6] == stored["Camera2DOriginalFrameCenterX"@]);
    assert(row[7] == stored["Camera2DOriginalFrameCenterY"@]);
    if let Ok(Some(_)) = camera::camera_layer_of(row, limits) {
        let data = sql::optional_bytes_at(row, 5)->Ok_0->Some_0;
        assert(gives_bytes(row[5], data));
    }
}

proof fn collected_in_turn<T: FromRow>(reply: sql::ReplyModel, at: int, found: Seq<T::V>)
    requires
        0 <= at <= reply.rows.len(),
        found.len() == at,
        sql::collected_from::<T>(reply, at, found) is Ok,
    ensures
        ({
            let list = sql::collected_from::<T>(reply, at, found)->Ok_0;
            &&& !reply.failed
            &&& list.len() == reply.rows.len()
            &&& forall|i: int| 0 <= i < at ==> #[trigger] list[i] == found[i]
            &&& forall|i: int|
                at <= i < reply.rows.len() ==> T::row_model(#[trigger] reply.rows[i]) == Ok::<
                    T::V,
                    Failure,
                >(list[i])
        }),
    decreases reply.rows.len() - at,
{
    if at < reply.rows.len() {
        let value = T::row_model(reply.rows[at])->Ok_0;
        let more = found.push(value);
        collected_in_turn::<T>(reply, at + 1, more);
        let list = sql::collected_from::<T>(reply, at, found)->Ok_0;
        assert(list[at] == more[at]);
        assert forall|i: int| 0 <= i < at implies #[trigger] list[i] == found[i] by {
            assert(list[i] == more[i]);
        }
    }
}

/// A list that is read from a whole reply has one item for each row, in the order of the rows.
pub proof fn every_row_is_read_in_order<T: FromRow>(reply: sql::ReplyModel)
    requires
        sql::collected::<T>(reply) is Ok,
    ensures
        !reply.failed,
        sql::collected::<T>(reply)->Ok_0.len() == reply.rows.len(),
        forall|i: int|
            0 <= i < reply.rows.len() ==> T::row_model(#[trigger] reply.rows[i]) == Ok::<
                T::V,
                Failure,
            >(sql::collected::<T>(reply)->Ok_0[i]),
{
    collected_in_turn::<T>(reply, 0, Seq::empty());
}

/// The row of a text layer is asked for by the names of its columns, and is read to what its
/// columns hold.
pub proof fn text_rows_are_read_by_column(stored: Map<Seq<char>, SqlModel>, row: TextRowModel)
    ensures
        text::edit_question() == asked(
            text::edit_items(),
            " FROM Layer WHERE MainId = ?1 LIMIT 1"@,
        ),
        TextRow::row_model(answer(text::edit_items(), stored)) == Ok::<TextRowModel, Failure>(row)
            <==> {
            &&& gives_optional_integer(stored["TextLayerType"@], row.kind)
            &&& gives_optional_bytes(stored["TextLayerString"@], row.first)
            &&& gives_optional_bytes(stored["TextLayerAttributes"@], row.first_attributes)
            &&& gives_optional_bytes(stored["TextLayerStringArray"@], row.string_array)
            &&& gives_optional_bytes(stored["TextLayerAttributesArray"@], row.attributes_array)
            &&& gives_optional_bytes(stored["TextLayerAddAttributesV01"@], row.additional)
        },
{
    let cells = answer(text::edit_items(), stored);
    assert(cells[0] == stored["TextLayerType"@]);
    assert(cells[1] == stored["TextLayerString"@]);
    assert(cells[2] == stored["TextLayerAttributes"@]);
    assert(cells[3] == stored["TextLayerStringArray"@]);
    assert(cells[4] == stored["TextLayerAttributesArray"@]);
    assert(cells[5] == stored["TextLayerAddAttributesV01"@]);
}

/// For a replacement, the row of a text layer is asked for by the names of its columns, and is
/// read to what its columns hold; a column that the table has not holds nothing.
pub proof fn replaceable_rows_are_read_by_column(
    schema: Seq<database::TableModel>,
    stored: Map<Seq<char>, SqlModel>,
    row: TextRowModel,
)
    requires
        stored["NULL"@] == SqlModel::Null,
    ensures
        text::replacement_question(schema) == asked(
            text::replacement_items(schema),
            " FROM Layer WHERE MainId = ?1 LIMIT 1"@,
        ),
        TextRow::row_model(answer(text::replacement_items(schema), stored)) == Ok::<
            TextRowModel,
            Failure,
        >(row) <==> {
            &&& gives_optional_integer(stored["TextLayerType"@], row.kind)
            &&& gives_optional_bytes(stored["TextLayerString"@], row.first)
            &&& gives_optional_bytes(stored["TextLayerAttributes"@], row.first_attributes)
            &&& gives_optional_bytes(
                optional_cell(schema, "Layer"@, "TextLayerStringArray"@, stored),
                row.string_array,
            )
            &&& gives_optional_bytes(
                optional_cell(schema, "Layer"@, "TextLayerAttributesArray"@, stored),
                row.attributes_array,
            )
            &&& gives_optional_bytes(
                optional_cell(schema, "Layer"@, "TextLayerAddAttributesV01"@, stored),
                row.additional,
            )
        },
{
    let cells = answer(text::replacement_items(schema), stored);
    assert(cells[0] == stored["TextLayerType"@]);
    assert(cells[1] == stored["TextLayerString"@]);
    assert(cells[2] == stored["TextLayerAttributes"@]);
    assert(cells[3] == optional_cell(schema, "Layer"@, "TextLayerStringArray"@, stored));
    assert(cells[4] == optional_cell(schema, "Layer"@, "TextLayerAttributesArray"@, stored));
    assert(cells[5] == optional_cell(schema, "Layer"@, "TextLayerAddAttributesV01"@, stored));
}

/// A text layer is asked for by the names of its columns. One that is read has as its first
/// object what the columns for the first string and its attributes hold, and as its others the
/// items of the two arrays, in order.
pub proof fn text_layers_are_read_by_column(
    schema: Seq<database::TableModel>,
    stored: Map<Seq<char>, SqlModel>,
    layer_id: i64,
    kind: i64,
    limits: Limits,
)
    requires
        stored["NULL"@] == SqlModel::Null,
    ensures
        text::text_question(schema) == asked(
            text::text_items(schema),
            " FROM Layer WHERE MainId = ?1 LIMIT 1"@,
        ),
        text::text_layer_of(
            layer_id,
            kind,
            answer(text::text_items(schema), stored),
            limits,
        ) matches Ok(layer) ==> {
            let strings = optional_cell(schema, "Layer"@, "TextLayerStringArray"@, stored);
            let attributes = optional_cell(schema, "Layer"@, "TextLayerAttributesArray"@, stored);
            &&& layer.layer_id == layer_id
            &&& layer.text_layer_type == kind
            &&& gives_integer(stored["LayerType"@], layer.layer_type)
            &&& gives_optional_integer(
                optional_cell(schema, "Layer"@, "TextLayerAttributesVersion"@, stored),
                layer.attributes_version,
            )
            &&& gives_optional_integer(
                optional_cell(schema, "Layer"@, "TextLayerVersion"@, stored),
                layer.version,
            )
            &&& gives_optional_bytes(
                optional_cell(schema, "Layer"@, "TextLayerAddAttributesV01"@, stored),
                layer.additional_attributes,
            )
            &&& layer.objects.len() > 0
            &&& exists|data: Seq<u8>| #[trigger]
                gives_bytes(stored["TextLayerString"@], data) && text_codec::utf8_text(data)
                    == Some(layer.objects[0].text)
            &&& gives_bytes(stored["TextLayerAttributes"@], layer.objects[0].attributes)
            &&& layer.objects.len() == 1 + array_items(
                strings,
                "TextLayerStringArray"@,
                limits,
            ).len()
            &&& forall|i: int|
                1 <= i < layer.objects.len() ==> text_codec::utf8_text(
                    array_items(strings, "TextLayerStringArray"@, limits)[i - 1],
                ) == Some((#[trigger] layer.objects[i]).text) && array_items(
                    attributes,
                    "TextLayerAttributesArray"@,
                    limits,
                )[i - 1] == layer.objects[i].attributes
        },
{
    let row = answer(text::text_items(schema), stored);
    assert(row[0] == stored["LayerType"@]);
    assert(row[1] == stored["TextLayerString"@]);
    assert(row[2] == stored["TextLayerAttributes"@]);
    assert(row[3] == optional_cell(schema, "Layer"@, "TextLayerStringArray"@, stored));
    assert(row[4] == optional_cell(schema, "Layer"@, "TextLayerAttributesArray"@, stored));
    assert(row[5] == optional_cell(schema, "Layer"@, "TextLayerAddAttributesV01"@, stored));
    assert(row[6] == optional_cell(schema, "Layer"@, "TextLayerAttributesVersion"@, stored));
    assert(row[7] == optional_cell(schema, "Layer"@, "TextLayerVersion"@, stored));
    if let Ok(layer) = text::text_layer_of(layer_id, kind, row, limits) {
        let first = sql::bytes_at(row, 1)->Ok_0;
        assert(gives_bytes(row[1], first));
        let strings = text::optional_items(
            sql::optional_bytes_at(row, 3)->Ok_0,
            "TextLayerStringArray"@,
            text::extra_limit(limits),
        )->Ok_0;
        assert(layer.objects.len() == 1 + strings.len());
        assert forall|i: int| 1 <= i < layer.objects.len() implies text_codec::utf8_text(
            strings[i - 1],
        ) == Some((#[trigger] layer.objects[i]).text) by {
            assert(text::led_by(first, strings)[i] == strings[i - 1]);
        }
        assert(layer.objects[0].text == text::stored_text(first)->Ok_0);
    }
}

/// The items of an array in a cell; none where there is no array.
pub open spec fn array_items(cell: SqlModel, field: Seq<char>, limits: Limits) -> Seq<Seq<u8>> {
    match cell {
        SqlModel::Text(data) => text_arrays::items_of(
            data,
            field,
            text::extra_limit(limits),
        )->Ok_0,
        SqlModel::Blob(data) => text_arrays::items_of(
            data,
            field,
            text::extra_limit(limits),
        )->Ok_0,
        _ => Seq::empty(),
    }
}

/// What a layer row says of its correction is in the columns of those names.
pub proof fn corrections_are_read_by_column(
    schema: Seq<database::TableModel>,
    stored: Map<Seq<char>, SqlModel>,
    rows: Seq<Seq<SqlModel>>,
    limits: Limits,
)
    requires
        stored["NULL"@] == SqlModel::Null,
        rows.len() > 0,
        rows[0] == answer(correction::correction_items(schema), stored),
    ensures
        correction::correction_question(schema) == asked(
            correction::correction_items(schema),
            " FROM Layer WHERE MainId = ?1 LIMIT 1"@,
        ),
        correction::correction_header_of(
            sql::ReplyModel { rows, failed: false },
            limits,
        ) matches Ok(Some(header)) ==> {
            &&& stored["length(FilterLayerInfo)"@] matches SqlModel::Integer(size) && size
                == header.size
            &&& gives_integer(stored["LayerType"@], header.layer_type)
            &&& gives_optional_integer(
                optional_cell(schema, "Layer"@, "SpecialRenderType"@, stored),
                header.special_render_type,
            )
            &&& gives_optional_integer(
                optional_cell(schema, "Layer"@, "FilterLayerV132"@, stored),
                header.format_v132,
            )
        },
        correction::correction_header_of(sql::ReplyModel { rows, failed: false }, limits) == Ok::<
            Option<correction::CorrectionHeader>,
            Failure,
        >(None) <==> stored["length(FilterLayerInfo)"@] == SqlModel::Null,
{
    let row = rows[0];
    assert(row[0] == stored["length(FilterLayerInfo)"@]);
    assert(row[1] == stored["LayerType"@]);
    assert(row[2] == optional_cell(schema, "Layer"@, "SpecialRenderType"@, stored));
    assert(row[3] == optional_cell(schema, "Layer"@, "FilterLayerV132"@, stored));
}

/// The raster of a mipmap is found through the level that is its base and the offscreen row of
/// that level, and is read to what the columns of that row hold.
pub proof fn raster_sources_are_read_by_column(
    stored: Map<Seq<char>, SqlModel>,
    mipmap_id: i64,
)
    ensures
        raster::source_question() == asked(
            raster::source_items(),
            " FROM Mipmap AS m JOIN MipmapInfo AS mi ON mi.MainId = m.BaseMipmapInfo JOIN Offscreen AS o ON o.MainId = mi.Offscreen WHERE m.MainId = ?1 LIMIT 1"@,
        ),
        raster::source_of(answer(raster::source_items(), stored), mipmap_id) matches Ok(source)
            ==> {
            &&& source.mipmap_id == mipmap_id
            &&& gives_integer(stored["o.MainId"@], source.offscreen_id)
            &&& gives_optional_integer(stored["o.LayerId"@], source.layer_id)
            &&& gives_optional_bytes(stored["o.BlockData"@], source.external_identifier)
            &&& exists|data: Seq<u8>| #[trigger]
                gives_bytes(stored["o.Attribute"@], data) && attributes::attributes_of(data)
                    == Ok::<attributes::AttributesModel, Failure>(source.attributes)
        },
{
    let row = answer(raster::source_items(), stored);
    assert(row[0] == stored["o.MainId"@]);
    assert(row[1] == stored["o.LayerId"@]);
    assert(row[2] == stored["o.Attribute"@]);
    assert(row[3] == stored["o.BlockData"@]);
    if raster::source_of(row, mipmap_id) is Ok {
        assert(gives_bytes(row[2], sql::bytes_at(row, 2)->Ok_0));
    }
}

/// The index of external objects is asked for by the names of its columns, and a row is read to
/// a record just when its columns hold that record.
pub proof fn index_is_read_by_column(
    stored: Map<Seq<char>, SqlModel>,
    record: database::ExternalRecordModel,
)
    ensures
        database::lookup_question() == asked(
            database::index_items(),
            " FROM ExternalChunk WHERE CAST(ExternalID AS BLOB) = ?1 LIMIT 1"@,
        ),
        ExternalChunkRecord::row_model(answer(database::index_items(), stored)) == Ok::<
            database::ExternalRecordModel,
            Failure,
        >(record) <==> {
            &&& gives_bytes(stored["ExternalID"@], record.identifier)
            &&& stored["Offset"@] matches SqlModel::Integer(offset) && offset == record.offset
        },
{
    let row = answer(database::index_items(), stored);
    assert(row[0] == stored["ExternalID"@]);
    assert(row[1] == stored["Offset"@]);
}

/// The columns that hold identifiers are asked for by name, and a row is read to what its columns
/// hold.
pub proof fn reference_columns_are_read_by_column(
    stored: Map<Seq<char>, SqlModel>,
    column: database::ReferenceColumnModel,
)
    ensures
        ExternalReferenceColumn::row_model(answer(database::reference_items(), stored)) == Ok::<
            database::ReferenceColumnModel,
            Failure,
        >(column) <==> {
            &&& gives_text(stored["TableName"@], column.table)
            &&& gives_text(stored["ColumnName"@], column.column)
        },
{
    let row = answer(database::reference_items(), stored);
    assert(row[0] == stored["TableName"@]);
    assert(row[1] == stored["ColumnName"@]);
}

/// The columns of a table are asked for by what SQLite calls their parts, and a row is read to a
/// column just when its parts hold that column.
pub proof fn table_columns_are_read_by_part(
    stored: Map<Seq<char>, SqlModel>,
    column: database::ColumnModel,
)
    ensures
        database::columns_question() == asked(
            database::column_items(),
            " FROM pragma_table_xinfo(?1) ORDER BY cid"@,
        ),
        ({
            let row = database::RawColumn::row_model(answer(database::column_items(), stored));
            &&& row is Ok && database::column_schema_of(row->Ok_0) == Ok::<
                database::ColumnModel,
                Failure,
            >(column) <==> {
                &&& stored["cid"@] matches SqlModel::Integer(value) && value == column.ordinal
                &&& gives_text(stored["name"@], column.name)
                &&& gives_text(stored["type"@], column.declared_type)
                &&& stored["\"notnull\""@] matches SqlModel::Integer(value) && (value != 0)
                    == column.not_null
                &&& gives_optional_text(stored["dflt_value"@], column.default_value)
                &&& stored["pk"@] matches SqlModel::Integer(value) && value
                    == column.primary_key_position
                &&& stored["hidden"@] matches SqlModel::Integer(value) && value == column.hidden
            }
        }),
{
    let row = answer(database::column_items(), stored);
    assert(row[0] == stored["cid"@]);
    assert(row[1] == stored["name"@]);
    assert(row[2] == stored["type"@]);
    assert(row[3] == stored["\"notnull\""@]);
    assert(row[4] == stored["dflt_value"@]);
    assert(row[5] == stored["pk"@]);
    assert(row[6] == stored["hidden"@]);
}

} // verus!
