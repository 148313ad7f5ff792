//! What a decoded raster shows, in terms of its blocks and of the pixels of its tiles.

use rusqlite::Connection;
use vstd::arithmetic::div_mod;
use vstd::prelude::*;

use crate::attributes::AttributesModel;
use crate::bitmap::{RasterDataState, RasterModel};
use crate::container::ClipFile;
use crate::database;
use crate::error;
use crate::error::Failure;
use crate::external::BlockModel;
use crate::limits::Limits;
use crate::pixels;
use crate::pixels::PixelFormat;
use crate::raster;
use crate::sql;
use crate::tile_codec;
use crate::tiles;
use crate::tiles::TileGrid;
use crate::zlib;

verus! {

proof fn quotient_and_rest(whole: int, divisor: int, quotient: int, rest: int)
    requires
        0 <= rest < divisor,
        whole == quotient * divisor + rest,
    ensures
        whole / divisor == quotient,
        whole % divisor == rest,
{
    div_mod::lemma_fundamental_div_mod_converse(whole, divisor, quotient, rest);
}

/// Where the channel of a pixel stands in a tile. Alpha comes first, for all pixels of the tile.
/// The colors of each pixel are stored as blue, green, red and a byte without meaning.
pub open spec fn stored_channel(format: PixelFormat, area: int, pixel: int, channel: int) -> int {
    if format == PixelFormat::Rgba8 && channel == 0 {
        area + 4 * pixel + 2
    } else if format == PixelFormat::Rgba8 && channel == 1 {
        area + 4 * pixel + 1
    } else if format == PixelFormat::Rgba8 && channel == 2 {
        area + 4 * pixel
    } else if format == PixelFormat::GrayAlpha8 && channel == 0 {
        area + pixel
    } else {
        pixel
    }
}

/// A tile gives each of its pixels to the bitmap at its column and row, counted from those of
/// the tile, which stands in its column and row of the grid. The channels of a pixel follow one
/// another in the bitmap: red, green, blue and alpha, or gray and alpha.
pub proof fn tile_pixels_have_their_place(
    grid: TileGrid,
    format: PixelFormat,
    index: u32,
    tile: Seq<u8>,
    bitmap: Seq<u8>,
    column: int,
    row: int,
    channel: int,
)
    requires
        tiles::grid_valid(grid),
        bitmap.len() == grid.width * grid.height * pixels::pixel_size(format),
        0 <= column < grid.tile_width,
        0 <= row < grid.tile_height,
        (index as int % grid.columns as int) * grid.tile_width + column < grid.width,
        (index as int / grid.columns as int) * grid.tile_height + row < grid.height,
        0 <= channel < pixels::pixel_size(format),
    ensures
        ({
            let x = (index as int % grid.columns as int) * grid.tile_width + column;
            let y = (index as int / grid.columns as int) * grid.tile_height + row;
            let at = (y * grid.width + x) * pixels::pixel_size(format) + channel;
            &&& 0 <= at < bitmap.len()
            &&& tiles::with_tile(grid, format, index, tile, bitmap)[at] == tile[stored_channel(
                format,
                grid.tile_width * grid.tile_height,
                row * grid.tile_width + column,
                channel,
            )]
        }),
{
    let size = pixels::pixel_size(format);
    let tile_column = index as int % grid.columns as int;
    let tile_row = index as int / grid.columns as int;
    let x = tile_column * grid.tile_width + column;
    let y = tile_row * grid.tile_height + row;
    let pixel = y * grid.width + x;
    let at = pixel * size + channel;
    assert(0 <= tile_column * grid.tile_width) by (nonlinear_arith)
        requires
            0 <= tile_column,
    ;
    assert(0 <= tile_row * grid.tile_height) by (nonlinear_arith)
        requires
            0 <= tile_row,
    ;
    assert(0 <= pixel < grid.width * grid.height) by (nonlinear_arith)
        requires
            0 <= x < grid.width,
            0 <= y < grid.height,
            pixel == y * grid.width + x,
    ;
    assert(0 <= at < grid.width * grid.height * size) by (nonlinear_arith)
        requires
            0 <= pixel < grid.width * grid.height,
            0 <= channel < size,
            at == pixel * size + channel,
    ;
    quotient_and_rest(at, size, pixel, channel);
    quotient_and_rest(pixel, grid.width as int, y, x);
}

/// Where a raster has its tiles.
pub open spec fn grid(attributes: AttributesModel) -> TileGrid {
    tile_codec::grid_of(attributes, attributes.bitmap_width, attributes.bitmap_height)
}

/// What a block has for a byte of the raster: the byte of its decompressed payload that stands
/// for it, or what was there before if it has no payload.
pub open spec fn block_byte(
    file: ClipFile,
    attributes: AttributesModel,
    block: BlockModel,
    blank: RasterModel,
    at: int,
) -> u8 {
    match block.payload {
        None => blank.pixels[at],
        Some(payload) => {
            let stream = file.data@.subrange(
                payload.offset as int,
                payload.offset + payload.compressed_size,
            );
            let limit = file.limits.max_decompressed_block_size;
            zlib::zlib_inflated(
                stream,
                error::one_more(limit as nat),
            )->Some_0[tiles::tile_place(
                grid(attributes),
                blank.format,
                block.index,
                at,
            )->Some_0]
        },
    }
}

/// Whether an image shows the first `count` blocks, and is blank where none of them is.
pub open spec fn shows(
    file: ClipFile,
    attributes: AttributesModel,
    blocks: Seq<BlockModel>,
    blank: RasterModel,
    image: RasterModel,
    count: int,
) -> bool {
    &&& image.width == blank.width
    &&& image.height == blank.height
    &&& image.format == blank.format
    &&& image.pixels.len() == blank.pixels.len()
    &&& forall|i: int, b: int|
        0 <= i < image.pixels.len() && 0 <= b < count && #[trigger] tiles::covers(
            grid(attributes),
            blank.format,
            blocks[b].index,
            i,
        ) ==> image.pixels[i] == block_byte(file, attributes, blocks[b], blank, i)
    &&& forall|i: int|
        0 <= i < image.pixels.len() && (forall|b: int|
            0 <= b < count ==> !#[trigger] tiles::covers(
                grid(attributes),
                blank.format,
                blocks[b].index,
                i,
            )) ==> #[trigger] image.pixels[i] == blank.pixels[i]
}

proof fn tiles_lie_apart(grid: TileGrid, format: PixelFormat, one: u32, other: u32, at: int)
    requires
        tiles::grid_valid(grid),
        tiles::covers(grid, format, one, at),
        tiles::covers(grid, format, other, at),
    ensures
        one == other,
{
    let x = tiles::column_of(grid, format, at);
    let y = tiles::row_of(grid, format, at);
    let columns = grid.columns as int;
    let width = grid.tile_width as int;
    let height = grid.tile_height as int;
    quotient_and_rest(x, width, one as int % columns, x - tiles::origin_x(grid, one));
    quotient_and_rest(x, width, other as int % columns, x - tiles::origin_x(grid, other));
    quotient_and_rest(y, height, one as int / columns, y - tiles::origin_y(grid, one));
    quotient_and_rest(y, height, other as int / columns, y - tiles::origin_y(grid, other));
    div_mod::lemma_fundamental_div_mod(one as int, columns);
    div_mod::lemma_fundamental_div_mod(other as int, columns);
}

proof fn one_block_more(
    file: ClipFile,
    attributes: AttributesModel,
    blocks: Seq<BlockModel>,
    blank: RasterModel,
    image: RasterModel,
    at: int,
)
    requires
        0 <= at < blocks.len(),
        tiles::grid_valid(grid(attributes)),
        blank.width == attributes.bitmap_width,
        blank.height == attributes.bitmap_height,
        shows(file, attributes, blocks, blank, image, at),
        forall|b: int| 0 <= b < at ==> (#[trigger] blocks[b]).index != blocks[at].index,
        raster::decoded_tile(
            file.data@,
            blocks[at],
            file.limits.max_decompressed_block_size,
        ) is Ok,
        raster::image_after(
            image,
            attributes,
            raster::decoded_tile(
                file.data@,
                blocks[at],
                file.limits.max_decompressed_block_size,
            )->Ok_0,
        ) is Ok,
    ensures
        shows(
            file,
            attributes,
            blocks,
            blank,
            raster::image_after(
                image,
                attributes,
                raster::decoded_tile(
                    file.data@,
                    blocks[at],
                    file.limits.max_decompressed_block_size,
                )->Ok_0,
            )->Ok_0,
            at + 1,
        ),
{
    let tile = raster::decoded_tile(
        file.data@,
        blocks[at],
        file.limits.max_decompressed_block_size,
    )->Ok_0;
    let next = raster::image_after(image, attributes, tile)->Ok_0;
    let place = grid(attributes);
    let format = blank.format;
    assert forall|i: int, b: int|
        0 <= i < next.pixels.len() && 0 <= b < at + 1 && #[trigger] tiles::covers(
            place,
            format,
            blocks[b].index,
            i,
        ) implies next.pixels[i] == block_byte(file, attributes, blocks[b], blank, i) by {
        if b == at {
            assert forall|c: int| 0 <= c < at implies !#[trigger] tiles::covers(
                place,
                format,
                blocks[c].index,
                i,
            ) by {
                if tiles::covers(place, format, blocks[c].index, i) {
                    tiles_lie_apart(place, format, blocks[c].index, blocks[at].index, i);
                }
            }
            assert(image.pixels[i] == blank.pixels[i]);
        } else {
            assert(image.pixels[i] == block_byte(file, attributes, blocks[b], blank, i));
            if tiles::covers(place, format, blocks[at].index, i) {
                tiles_lie_apart(place, format, blocks[b].index, blocks[at].index, i);
            }
        }
    }
    assert forall|i: int|
        0 <= i < next.pixels.len() && (forall|b: int|
            0 <= b < at + 1 ==> !#[trigger] tiles::covers(
                place,
                format,
                blocks[b].index,
                i,
            )) implies #[trigger] next.pixels[i] == blank.pixels[i] by {
        assert(!tiles::covers(place, format, blocks[at].index, i));
        assert(image.pixels[i] == blank.pixels[i]);
    }
}

proof fn blocks_are_shown(
    file: ClipFile,
    attributes: AttributesModel,
    blocks: Seq<BlockModel>,
    blank: RasterModel,
    at: int,
    seen: Seq<bool>,
    image: RasterModel,
)
    requires
        0 <= at <= blocks.len(),
        at < blocks.len() ==> tiles::grid_valid(grid(attributes)),
        blank.width == attributes.bitmap_width,
        blank.height == attributes.bitmap_height,
        shows(file, attributes, blocks, blank, image, at),
        forall|b: int|
            0 <= b < at ==> (#[trigger] blocks[b]).index < seen.len()
                && seen[blocks[b].index as int],
        raster::tiles_from(file, attributes, blocks, at, seen, image) is Ok,
    ensures
        shows(
            file,
            attributes,
            blocks,
            blank,
            raster::tiles_from(file, attributes, blocks, at, seen, image)->Ok_0,
            blocks.len() as int,
        ),
        forall|b: int, c: int|
            0 <= b < c < blocks.len() && at <= c ==> (#[trigger] blocks[b]).index != (
            #[trigger] blocks[c]).index,
        forall|b: int| at <= b < blocks.len() ==> (#[trigger] blocks[b]).index < seen.len(),
        raster::tiles_from(file, attributes, blocks, at, seen, image)->Ok_0.state == image.state,
    decreases blocks.len() - at,
{
    if at < blocks.len() {
        let tile = raster::decoded_tile(
            file.data@,
            blocks[at],
            file.limits.max_decompressed_block_size,
        )->Ok_0;
        let next = raster::image_after(image, attributes, tile)->Ok_0;
        one_block_more(file, attributes, blocks, blank, image, at);
        let marked = seen.update(blocks[at].index as int, true);
        blocks_are_shown(file, attributes, blocks, blank, at + 1, marked, next);
    }
}

/// A raster that is decoded has the size and format that its attributes tell. It shows each of
/// its blocks in its place, with the bytes that the payload of the block decompresses to. Where
/// a block has no payload it is blank: all zeros, or all ones if the attributes ask for a fill.
/// There is one block for each place of the grid.
pub proof fn decoded_raster_shows_its_blocks(
    file: ClipFile,
    attributes: AttributesModel,
    blocks: Seq<BlockModel>,
)
    requires
        raster::blank_image(attributes, file.limits) is Ok,
        raster::tiled_image(
            file,
            attributes,
            blocks,
            raster::blank_image(attributes, file.limits)->Ok_0,
        ) is Ok,
    ensures
        ({
            let blank = raster::blank_image(attributes, file.limits)->Ok_0;
            let image = raster::tiled_image(file, attributes, blocks, blank)->Ok_0;
            &&& image.width == attributes.bitmap_width
            &&& image.height == attributes.bitmap_height
            &&& image.state == RasterDataState::Present
            &&& image.pixels.len() == image.width * image.height * pixels::pixel_size(
                image.format,
            )
            &&& shows(file, attributes, blocks, blank, image, blocks.len() as int)
            &&& blocks.len() == attributes.block_grid_width * attributes.block_grid_height
            &&& forall|b: int| 0 <= b < blocks.len() ==> (#[trigger] blocks[b]).index < blocks.len()
            &&& forall|b: int, c: int|
                0 <= b < c < blocks.len() ==> (#[trigger] blocks[b]).index != (
                #[trigger] blocks[c]).index
        }),
{
    let blank = raster::blank_image(attributes, file.limits)->Ok_0;
    let seen = Seq::new(blocks.len(), |i: int| false);
    if blocks.len() > 0 && attributes.block_grid_width == 0 {
        assert(attributes.block_grid_width * attributes.block_grid_height == 0);
    }
    blocks_are_shown(file, attributes, blocks, blank, 0, seen, blank);
}

/// A blank raster has the size that its attributes tell, and in all bytes zero, or the highest
/// value if the attributes ask for a fill.
pub proof fn blank_raster_is_filled(attributes: AttributesModel, limits: Limits)
    requires
        raster::blank_image(attributes, limits) is Ok,
    ensures
        ({
            let image = raster::blank_image(attributes, limits)->Ok_0;
            &&& image.width == attributes.bitmap_width
            &&& image.height == attributes.bitmap_height
            &&& image.pixels.len() == image.width * image.height * pixels::pixel_size(
                image.format,
            )
            &&& image.pixels.len() <= limits.max_raster_bytes
            &&& attributes.default_fill == 0 ==> forall|i: int|
                0 <= i < image.pixels.len() ==> #[trigger] image.pixels[i] == 0
            &&& attributes.default_fill != 0 ==> forall|i: int|
                0 <= i < image.pixels.len() ==> #[trigger] image.pixels[i] == 255
        }),
{
    let size = attributes.bitmap_width * attributes.bitmap_height;
    assert(0 <= size) by (nonlinear_arith)
        requires
            size == attributes.bitmap_width * attributes.bitmap_height,
    ;
}

/// Whether a raster was read of the mipmap that a column of a layer names.
pub open spec fn named_by_column(
    connection: Connection,
    schema: Seq<database::TableModel>,
    question: Seq<char>,
    layer_id: i64,
    source: raster::SourceModel,
) -> bool {
    exists|reply: sql::ReplyModel|
        {
            &&& #[trigger] sql::may_answer(
                connection,
                question,
                seq![sql::ParameterModel::Integer(layer_id)],
                reply,
            )
            &&& reply.rows.len() > 0
            &&& reply.rows[0][0] == sql::SqlModel::Integer(source.mipmap_id)
            &&& source.mipmap_id != 0
            &&& raster::source_read(connection, schema, source.mipmap_id, Ok(Some(source)))
        }
}

proof fn source_is_named(
    connection: Connection,
    schema: Seq<database::TableModel>,
    column: Seq<char>,
    question: Seq<char>,
    layer_id: i64,
    source: raster::SourceModel,
)
    requires
        raster::layer_source_read(
            connection,
            schema,
            column,
            question,
            layer_id,
            Ok(Some(source)),
        ),
    ensures
        named_by_column(connection, schema, question, layer_id, source),
{
    let outcome = Ok::<Option<raster::SourceModel>, Failure>(Some(source));
    let reply = choose|reply: sql::ReplyModel|
        #[trigger] sql::may_answer(
            connection,
            question,
            seq![sql::ParameterModel::Integer(layer_id)],
            reply,
        ) && raster::named_source_read(connection, schema, raster::mipmap_in(reply), outcome);
    let id = raster::mipmap_in(reply)->Ok_0->Some_0;
    assert(raster::source_read(connection, schema, id, outcome));
    assert(source.mipmap_id == id);
    assert(reply.rows[0][0] == sql::SqlModel::Integer(id));
}

/// The raster of a layer is that of the mipmap which its column for rendering names, and the
/// raster of its mask that of the mipmap which its column for the mask names.
pub proof fn layer_rasters_are_named_by_their_columns(
    connection: Connection,
    schema: Seq<database::TableModel>,
    layer_id: i64,
    source: raster::SourceModel,
)
    ensures
        raster::render_source_read(connection, schema, layer_id, Ok(Some(source)))
            ==> named_by_column(
            connection,
            schema,
            "SELECT LayerRenderMipmap FROM Layer WHERE MainId = ?1 LIMIT 1"@,
            layer_id,
            source,
        ),
        raster::mask_source_read(connection, schema, layer_id, Ok(Some(source)))
            ==> named_by_column(
            connection,
            schema,
            "SELECT LayerLayerMaskMipmap FROM Layer WHERE MainId = ?1 LIMIT 1"@,
            layer_id,
            source,
        ),
{
    if raster::render_source_read(connection, schema, layer_id, Ok(Some(source))) {
        source_is_named(
            connection,
            schema,
            "LayerRenderMipmap"@,
            "SELECT LayerRenderMipmap FROM Layer WHERE MainId = ?1 LIMIT 1"@,
            layer_id,
            source,
        );
    }
    if raster::mask_source_read(connection, schema, layer_id, Ok(Some(source))) {
        source_is_named(
            connection,
            schema,
            "LayerLayerMaskMipmap"@,
            "SELECT LayerLayerMaskMipmap FROM Layer WHERE MainId = ?1 LIMIT 1"@,
            layer_id,
            source,
        );
    }
}

} // verus!
