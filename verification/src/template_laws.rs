//! What a template is read from, told by the names of the columns.

use vstd::prelude::*;

use crate::columns::{answer, asked, gives_integer, gives_number};
use crate::error::Failure;
use crate::raster_template;
use crate::raster_template::{ChainModel, CloneRequest, LevelInfo, OffscreenModel};
use crate::raster_tree;
use crate::raster_tree::TreeRow;
use crate::sql;
use crate::sql::{FromRow, SqlModel};

verus! {

/// Whether columns hold just these integers, in order.
pub open spec fn all_integers(
    columns: Seq<Seq<char>>,
    stored: Map<Seq<char>, SqlModel>,
    numbers: Seq<i64>,
) -> bool {
    raster_tree::integers_of(answer(columns, stored), columns.len()) == Ok::<Seq<i64>, Failure>(
        numbers,
    )
}

proof fn integers_in_turn(row: Seq<SqlModel>, count: nat, at: int)
    requires
        raster_tree::integers_of(row, count) is Ok,
        0 <= at < count,
    ensures
        raster_tree::integers_of(row, count)->Ok_0.len() == count,
        at < row.len(),
        row[at] == SqlModel::Integer(raster_tree::integers_of(row, count)->Ok_0[at]),
{
    assert(sql::integer_at(row, at) is Ok);
}

/// A layer is taken as a template just when it is a pixel layer, no folder, without children
/// and without a mask, and has a mipmap and a thumbnail.
pub proof fn templates_are_plain_leaves(stored: Map<Seq<char>, SqlModel>, layer: Seq<i64>)
    requires
        all_integers(raster_template::layer_items(), stored, layer),
    ensures
        raster_template::layer_question() == asked(
            raster_template::layer_items(),
            " FROM Layer WHERE MainId = ?1"@,
        ),
        raster_template::plain_leaf(layer) <==> {
            &&& stored["LayerType"@] == SqlModel::Integer(1)
            &&& stored["LayerFolder"@] == SqlModel::Integer(0)
            &&& stored["coalesce(LayerFirstChildIndex, 0)"@] == SqlModel::Integer(0)
            &&& stored["coalesce(LayerRenderMipmap, 0)"@] matches SqlModel::Integer(id) && id > 0
            &&& stored["coalesce(LayerLayerMaskMipmap, 0)"@] == SqlModel::Integer(0)
            &&& stored["coalesce(LayerRenderThumbnail, 0)"@] matches SqlModel::Integer(id) && id
                > 0
            &&& stored["coalesce(LayerLayerMaskThumbnail, 0)"@] == SqlModel::Integer(0)
        },
{
    let row = answer(raster_template::layer_items(), stored);
    integers_in_turn(row, 8, 1);
    integers_in_turn(row, 8, 2);
    integers_in_turn(row, 8, 3);
    integers_in_turn(row, 8, 4);
    integers_in_turn(row, 8, 5);
    integers_in_turn(row, 8, 6);
    integers_in_turn(row, 8, 7);
    assert(row[1] == stored["LayerType"@]);
    assert(row[2] == stored["LayerFolder"@]);
    assert(row[3] == stored["coalesce(LayerFirstChildIndex, 0)"@]);
    assert(row[4] == stored["coalesce(LayerRenderMipmap, 0)"@]);
    assert(row[5] == stored["coalesce(LayerLayerMaskMipmap, 0)"@]);
    assert(row[6] == stored["coalesce(LayerRenderThumbnail, 0)"@]);
    assert(row[7] == stored["coalesce(LayerLayerMaskThumbnail, 0)"@]);
}

/// A template that is read is what the rows of the layer, its new parent and its thumbnail hold
/// in the columns of those names; it has the levels of its mipmap.
pub proof fn templates_are_read_by_column(
    request: CloneRequest,
    layer_row: Map<Seq<char>, SqlModel>,
    parent_row: Map<Seq<char>, SqlModel>,
    thumbnail_row: Map<Seq<char>, SqlModel>,
    layer: Seq<i64>,
    parent: Seq<i64>,
    thumbnail: Seq<i64>,
    chain: ChainModel,
    offscreen: OffscreenModel,
)
    requires
        all_integers(raster_template::layer_items(), layer_row, layer),
        all_integers(raster_template::parent_items(), parent_row, parent),
        all_integers(raster_template::thumbnail_items(), thumbnail_row, thumbnail),
    ensures
        raster_template::parent_question() == asked(
            raster_template::parent_items(),
            " FROM Layer WHERE MainId = ?1"@,
        ),
        raster_template::thumbnail_question() == asked(
            raster_template::thumbnail_items(),
            " FROM LayerThumbnail WHERE MainId = ?1"@,
        ),
        ({
            let read = raster_template::template_of(
                request,
                layer,
                parent,
                chain,
                thumbnail,
                Ok(offscreen),
            );
            let template = read->Ok_0;
            &&& read is Ok
            &&& template.layer_id == request.layer_id
            &&& template.parent_layer_id == request.parent_layer_id
            &&& gives_integer(layer_row["CanvasId"@], template.canvas_id)
            &&& gives_integer(
                layer_row["coalesce(LayerRenderMipmap, 0)"@],
                template.mipmap_id,
            )
            &&& gives_integer(
                layer_row["coalesce(LayerRenderThumbnail, 0)"@],
                template.thumbnail_id,
            )
            &&& gives_integer(
                parent_row["coalesce(LayerFirstChildIndex, 0)"@],
                template.parent_first_child,
            )
            &&& gives_integer(
                thumbnail_row["ThumbnailOffscreen"@],
                template.thumbnail_offscreen_id,
            )
            &&& template.levels == chain.levels
            &&& chain.identifier matches Some(identifier) ==> template.base_identifier
                == identifier
        }),
        raster_template::thumbnail_valid(thumbnail, layer[0], request.layer_id) <==> {
            &&& thumbnail_row["CanvasId"@] == layer_row["CanvasId"@]
            &&& thumbnail_row["LayerId"@] == SqlModel::Integer(request.layer_id)
            &&& thumbnail_row["ThumbnailOffscreen"@] matches SqlModel::Integer(id) && id > 0
        },
        (parent[0] == layer[0] && parent[1] != 0) <==> {
            &&& parent_row["CanvasId"@] == layer_row["CanvasId"@]
            &&& parent_row["LayerFolder"@] != SqlModel::Integer(0)
        },
{
    let first = answer(raster_template::layer_items(), layer_row);
    integers_in_turn(first, 8, 0);
    integers_in_turn(first, 8, 4);
    integers_in_turn(first, 8, 6);
    assert(first[0] == layer_row["CanvasId"@]);
    assert(first[4] == layer_row["coalesce(LayerRenderMipmap, 0)"@]);
    assert(first[6] == layer_row["coalesce(LayerRenderThumbnail, 0)"@]);
    let second = answer(raster_template::parent_items(), parent_row);
    integers_in_turn(second, 3, 0);
    integers_in_turn(second, 3, 1);
    integers_in_turn(second, 3, 2);
    assert(second[0] == parent_row["CanvasId"@]);
    assert(second[1] == parent_row["LayerFolder"@]);
    assert(second[2] == parent_row["coalesce(LayerFirstChildIndex, 0)"@]);
    let third = answer(raster_template::thumbnail_items(), thumbnail_row);
    integers_in_turn(third, 3, 0);
    integers_in_turn(third, 3, 1);
    integers_in_turn(third, 3, 2);
    assert(third[0] == thumbnail_row["CanvasId"@]);
    assert(third[1] == thumbnail_row["LayerId"@]);
    assert(third[2] == thumbnail_row["ThumbnailOffscreen"@]);
}

/// The mipmap of a template is accepted just when it belongs to the layer and its canvas and has
/// at least one level, and no more than allowed; its levels start with its base.
pub proof fn mipmaps_are_read_by_column(
    stored: Map<Seq<char>, SqlModel>,
    mipmap: Seq<i64>,
    canvas_id: i64,
    layer_id: i64,
    limit: u64,
)
    requires
        all_integers(raster_template::mipmap_items(), stored, mipmap),
    ensures
        raster_template::mipmap_question() == asked(
            raster_template::mipmap_items(),
            " FROM Mipmap WHERE MainId = ?1"@,
        ),
        raster_template::mipmap_fault(mipmap, canvas_id, layer_id, limit) is None <==> {
            &&& stored["CanvasId"@] == SqlModel::Integer(canvas_id)
            &&& stored["LayerId"@] == SqlModel::Integer(layer_id)
            &&& stored["MipmapCount"@] matches SqlModel::Integer(count) && 0 < count <= limit
        },
        gives_integer(stored["MipmapCount"@], mipmap[2]),
        gives_integer(stored["BaseMipmapInfo"@], mipmap[3]),
{
    let row = answer(raster_template::mipmap_items(), stored);
    integers_in_turn(row, 4, 0);
    integers_in_turn(row, 4, 1);
    integers_in_turn(row, 4, 2);
    integers_in_turn(row, 4, 3);
    assert(row[0] == stored["CanvasId"@]);
    assert(row[1] == stored["LayerId"@]);
    assert(row[2] == stored["MipmapCount"@]);
    assert(row[3] == stored["BaseMipmapInfo"@]);
}

/// A level of a mipmap is read to what its columns hold.
pub proof fn levels_are_read_by_column(stored: Map<Seq<char>, SqlModel>, info: LevelInfo)
    ensures
        raster_template::info_question() == asked(
            raster_template::info_items(),
            " FROM MipmapInfo WHERE MainId = ?1"@,
        ),
        raster_template::info_of(answer(raster_template::info_items(), stored)) == Ok::<
            LevelInfo,
            Failure,
        >(info) <==> {
            &&& gives_integer(stored["CanvasId"@], info.canvas_id)
            &&& gives_integer(stored["LayerId"@], info.layer_id)
            &&& gives_number(stored["ThisScale"@], info.scale)
            &&& gives_integer(stored["Offscreen"@], info.offscreen_id)
            &&& gives_integer(stored["coalesce(NextIndex, 0)"@], info.next)
        },
{
    let row = answer(raster_template::info_items(), stored);
    assert(row[0] == stored["CanvasId"@]);
    assert(row[1] == stored["LayerId"@]);
    assert(row[2] == stored["ThisScale"@]);
    assert(row[3] == stored["Offscreen"@]);
    assert(row[4] == stored["coalesce(NextIndex, 0)"@]);
}

/// An offscreen row that is read belongs to the layer and its canvas, and is what its columns
/// hold; its identifier keeps the form that it is stored in.
pub proof fn offscreens_are_read_by_column(
    stored: Map<Seq<char>, SqlModel>,
    canvas_id: i64,
    layer_id: i64,
    is_thumbnail: bool,
)
    ensures
        raster_template::offscreen_question() == asked(
            raster_template::offscreen_items(),
            " FROM Offscreen WHERE MainId = ?1"@,
        ),
        raster_template::offscreen_of(
            answer(raster_template::offscreen_items(), stored),
            canvas_id,
            layer_id,
            is_thumbnail,
        ) matches Ok(offscreen) ==> {
            &&& stored["CanvasId"@] == SqlModel::Integer(canvas_id)
            &&& stored["LayerId"@] == SqlModel::Integer(layer_id)
            &&& stored["Attribute"@] == SqlModel::Blob(offscreen.attribute)
            &&& stored["BlockData"@] == match offscreen.reference {
                None => SqlModel::Null,
                Some(reference) => match reference.storage {
                    raster_template::BlockStorage::Text => SqlModel::Text(reference.identifier),
                    raster_template::BlockStorage::Blob => SqlModel::Blob(reference.identifier),
                },
            }
        },
{
    let row = answer(raster_template::offscreen_items(), stored);
    assert(row[0] == stored["CanvasId"@]);
    assert(row[1] == stored["LayerId"@]);
    assert(row[2] == stored["Attribute"@]);
    assert(row[3] == stored["BlockData"@]);
}

/// The layers of a canvas are read with their first children and next siblings.
pub proof fn tree_rows_are_read_by_column(stored: Map<Seq<char>, SqlModel>, row: TreeRow)
    ensures
        raster_template::tree_question() == asked(
            raster_template::tree_items(),
            " FROM Layer WHERE CanvasId = ?1"@,
        ),
        TreeRow::row_model(answer(raster_template::tree_items(), stored)) == Ok::<
            TreeRow,
            Failure,
        >(row) <==> {
            &&& gives_integer(stored["MainId"@], row.id)
            &&& gives_integer(stored["coalesce(LayerFirstChildIndex, 0)"@], row.child)
            &&& gives_integer(stored["coalesce(LayerNextIndex, 0)"@], row.next)
        },
{
    let cells = answer(raster_template::tree_items(), stored);
    assert(cells[0] == stored["MainId"@]);
    assert(cells[1] == stored["coalesce(LayerFirstChildIndex, 0)"@]);
    assert(cells[2] == stored["coalesce(LayerNextIndex, 0)"@]);
}

} // verus!
