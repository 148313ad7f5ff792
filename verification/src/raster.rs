//! Rasters: where their data stands, and how it decodes into bitmaps.

use rusqlite::Connection;
use vstd::prelude::*;

use crate::attributes;
use crate::attributes::{pixel_format, validate_dimensions, OffscreenAttributes};
use crate::bitmap;
use crate::bitmap::{bitmap_bytes, RasterDataState, RasterImage};
use crate::blocks;
use crate::bytes;
use crate::bytes::{copy_bytes, same_bytes};
use crate::columns;
use crate::container;
use crate::container::{ChunkKind, ClipFile};
use crate::database;
use crate::database::{Database, ExternalChunkRecord};
use crate::error;
use crate::error::{Error, Failure};
use crate::external;
use crate::external::{Block, BlockModel, ExternalBody};
use crate::limits::Limits;
use crate::message;
use crate::message::Message;
use crate::pixels::PixelFormat;
use crate::sql;
use crate::sql::{query_by_id, Reply, SqlModel, SqlRow};
use crate::tile_codec;
use crate::tile_codec::{copy_tile, DecodedTile};
use crate::tiles;
use crate::zlib;
use crate::zlib::decompress;

verus! {

fn invalid(reason: Message) -> (error: Error)
    ensures
        error@ == (Failure::InvalidRaster { reason: reason@ }),
{
    Error::InvalidRaster { reason: reason.build() }
}

/// SQLite references needed to read one base mipmap raster.
#[derive(Clone, Debug, PartialEq, Eq)]
pub struct RasterSource {
    pub mipmap_id: i64,
    pub offscreen_id: i64,
    pub layer_id: Option<i64>,
    pub external_identifier: Option<Vec<u8>>,
    pub attributes: OffscreenAttributes,
}

/// The model of a [`RasterSource`].
#[verifier::ext_equal]
pub struct SourceModel {
    pub mipmap_id: i64,
    pub offscreen_id: i64,
    pub layer_id: Option<i64>,
    pub external_identifier: Option<Seq<u8>>,
    pub attributes: attributes::AttributesModel,
}

impl View for RasterSource {
    type V = SourceModel;

    open spec fn view(&self) -> SourceModel {
        SourceModel {
            mipmap_id: self.mipmap_id,
            offscreen_id: self.offscreen_id,
            layer_id: self.layer_id,
            external_identifier: error::optional_bytes(self.external_identifier),
            attributes: self.attributes@,
        }
    }
}

impl RasterSource {
    /// `Mipmap.MainId` used to resolve this source.
    #[must_use]
    pub fn mipmap_id(&self) -> (value: i64)
        ensures
            value == self.mipmap_id,
    {
        self.mipmap_id
    }

    /// Resolved `Offscreen.MainId`.
    #[must_use]
    pub fn offscreen_id(&self) -> (value: i64)
        ensures
            value == self.offscreen_id,
    {
        self.offscreen_id
    }

    /// Owning layer ID, if the row contains one.
    #[must_use]
    pub fn layer_id(&self) -> (value: Option<i64>)
        ensures
            value == self.layer_id,
    {
        self.layer_id
    }

    /// External block-data identifier, if one is recorded.
    #[must_use]
    pub fn external_identifier(&self) -> (value: Option<&[u8]>)
        ensures
            value is Some == self.external_identifier is Some,
            value matches Some(value) ==> value@ == self.external_identifier.unwrap()@,
    {
        match &self.external_identifier {
            Some(value) => Some(value.as_slice()),
            None => None,
        }
    }

    /// Parsed offscreen attributes.
    #[must_use]
    pub fn attributes(&self) -> (value: &OffscreenAttributes)
        ensures
            *value == self.attributes,
    {
        &self.attributes
    }
}

/// The raster that an offscreen row describes.
pub open spec fn source_of(row: Seq<SqlModel>, mipmap_id: i64) -> Result<SourceModel, Failure> {
    match (
        sql::integer_at(row, 0),
        sql::optional_integer_at(row, 1),
        sql::bytes_at(row, 2),
        sql::optional_bytes_at(row, 3),
    ) {
        (Ok(offscreen_id), Ok(layer_id), Ok(data), Ok(external_identifier)) => {
            match attributes::attributes_of(data) {
                Err(failure) => Err(failure),
                Ok(attributes) => Ok(
                    SourceModel {
                        mipmap_id,
                        offscreen_id,
                        layer_id,
                        external_identifier,
                        attributes,
                    },
                ),
            }
        },
        _ => Err(Failure::Sqlite),
    }
}

/// Reads the raster that an offscreen row describes.
pub fn source_from_row(row: &SqlRow, mipmap_id: i64) -> (source: Result<RasterSource, Error>)
    ensures
        error::outcome(source) == source_of(row@, mipmap_id),
{
    let offscreen_id: i64 = row.integer(0)?;
    let layer_id: Option<i64> = row.optional_integer(1)?;
    let data = row.bytes(2)?;
    let external_identifier = row.optional_bytes(3)?;
    let attributes = OffscreenAttributes::parse(data.as_slice())?;
    Ok(RasterSource { mipmap_id, offscreen_id, layer_id, external_identifier, attributes })
}

/// The raster that a reply describes.
pub open spec fn source_in(reply: sql::ReplyModel, mipmap_id: i64) -> Result<
    Option<SourceModel>,
    Failure,
> {
    match sql::first_row(reply) {
        Err(failure) => Err(failure),
        Ok(None) => Ok(None),
        Ok(Some(row)) => match source_of(row, mipmap_id) {
            Err(failure) => Err(failure),
            Ok(source) => Ok(Some(source)),
        },
    }
}

/// The first column that a raster is read from that is missing.
pub open spec fn missing_source_column(schema: Seq<database::TableModel>) -> Option<Failure> {
    match database::first_missing(schema, "Mipmap"@, seq!["MainId"@, "BaseMipmapInfo"@], 0) {
        Some(failure) => Some(failure),
        None => match database::first_missing(
            schema,
            "MipmapInfo"@,
            seq!["MainId"@, "Offscreen"@],
            0,
        ) {
            Some(failure) => Some(failure),
            None => database::first_missing(
                schema,
                "Offscreen"@,
                seq!["MainId"@, "LayerId"@, "Attribute"@, "BlockData"@],
                0,
            ),
        },
    }
}

/// What is asked for the offscreen row of a mipmap, in order.
pub open spec fn source_items() -> Seq<Seq<char>> {
    seq![
        "o.MainId"@,
        "o.LayerId"@,
        "o.Attribute"@,
        "o.BlockData"@,
    ]
}

/// The question that asks for the offscreen row of a mipmap.
pub open spec fn source_question() -> Seq<char> {
    columns::asked(
        source_items(),
        " FROM Mipmap AS m JOIN MipmapInfo AS mi ON mi.MainId = m.BaseMipmapInfo JOIN Offscreen AS o ON o.MainId = mi.Offscreen WHERE m.MainId = ?1 LIMIT 1"@,
    )
}

/// Whether resolving a mipmap can have this outcome.
pub open spec fn source_read(
    connection: Connection,
    schema: Seq<database::TableModel>,
    mipmap_id: i64,
    outcome: Result<Option<SourceModel>, Failure>,
) -> bool {
    match missing_source_column(schema) {
        Some(failure) => outcome == Err::<Option<SourceModel>, Failure>(failure),
        None => exists|reply: sql::ReplyModel|
            #[trigger] sql::may_answer(
                connection,
                source_question(),
                seq![sql::ParameterModel::Integer(mipmap_id)],
                reply,
            ) && outcome == source_in(reply, mipmap_id),
    }
}

/// The mipmap that a reply names.
pub open spec fn mipmap_in(reply: sql::ReplyModel) -> Result<Option<i64>, Failure> {
    match sql::first_row(reply) {
        Err(failure) => Err(failure),
        Ok(None) => Ok(None),
        Ok(Some(row)) => match sql::optional_integer_at(row, 0) {
            Err(failure) => Err(failure),
            Ok(Some(id)) if id != 0 => Ok(Some(id)),
            Ok(_) => Ok(None),
        },
    }
}

/// Reads which mipmap a reply names.
pub fn mipmap_from_reply(reply: &Reply) -> (id: Result<Option<i64>, Error>)
    ensures
        error::plain(id) == mipmap_in(reply@),
{
    match reply.first_row()? {
        None => Ok(None),
        Some(row) => match row.optional_integer(0)? {
            Some(id) => if id != 0 {
                Ok(Some(id))
            } else {
                Ok(None)
            },
            None => Ok(None),
        },
    }
}

/// Whether resolving a mipmap that a layer names can have this outcome.
pub open spec fn named_source_read(
    connection: Connection,
    schema: Seq<database::TableModel>,
    mipmap: Result<Option<i64>, Failure>,
    outcome: Result<Option<SourceModel>, Failure>,
) -> bool {
    match mipmap {
        Err(failure) => outcome == Err::<Option<SourceModel>, Failure>(failure),
        Ok(None) => outcome == Ok::<Option<SourceModel>, Failure>(None),
        Ok(Some(id)) => source_read(connection, schema, id, outcome),
    }
}

/// Whether resolving the mipmap in a column of a layer can have this outcome.
pub open spec fn layer_source_read(
    connection: Connection,
    schema: Seq<database::TableModel>,
    column: Seq<char>,
    question: Seq<char>,
    layer_id: i64,
    outcome: Result<Option<SourceModel>, Failure>,
) -> bool {
    match database::first_missing(schema, "Layer"@, seq!["MainId"@, column], 0) {
        Some(failure) => outcome == Err::<Option<SourceModel>, Failure>(failure),
        None => exists|reply: sql::ReplyModel|
            #[trigger] sql::may_answer(
                connection,
                question,
                seq![sql::ParameterModel::Integer(layer_id)],
                reply,
            ) && named_source_read(connection, schema, mipmap_in(reply), outcome),
    }
}

impl Database {
    /// Resolves a mipmap through `MipmapInfo` to its base `Offscreen` row.
    pub fn raster_source(&self, mipmap_id: i64) -> (source: Result<Option<RasterSource>, Error>)
        ensures
            source_read(self.connection, self.schema@, mipmap_id, error::optional_outcome(source)),
    {
        let columns: [&str; 2] = ["MainId", "BaseMipmapInfo"];
        assert(database::names(columns@) =~= seq!["MainId"@, "BaseMipmapInfo"@]);
        if let Some(error) = self.schema.first_missing_column("Mipmap", &columns) {
            return Err(error);
        }
        let columns: [&str; 2] = ["MainId", "Offscreen"];
        assert(database::names(columns@) =~= seq!["MainId"@, "Offscreen"@]);
        if let Some(error) = self.schema.first_missing_column("MipmapInfo", &columns) {
            return Err(error);
        }
        let columns: [&str; 4] = ["MainId", "LayerId", "Attribute", "BlockData"];
        assert(database::names(columns@) =~= seq![
            "MainId"@,
            "LayerId"@,
            "Attribute"@,
            "BlockData"@,
        ]);
        if let Some(error) = self.schema.first_missing_column("Offscreen", &columns) {
            return Err(error);
        }
        let asked: [&str; 4] = ["o.MainId", "o.LayerId", "o.Attribute", "o.BlockData"];
        assert(database::names(asked@) =~= source_items());
        let reply = query_by_id(
            &self.connection,
            columns::ask(
                &asked,
                " FROM Mipmap AS m JOIN MipmapInfo AS mi ON mi.MainId = m.BaseMipmapInfo JOIN Offscreen AS o ON o.MainId = mi.Offscreen WHERE m.MainId = ?1 LIMIT 1",
            ).as_str(),
            mipmap_id,
        );
        assert(sql::may_answer(
            self.connection,
            source_question(),
            seq![sql::ParameterModel::Integer(mipmap_id)],
            reply@,
        ));
        match reply.first_row()? {
            None => Ok(None),
            Some(row) => match source_from_row(row, mipmap_id) {
                Ok(source) => Ok(Some(source)),
                Err(error) => Err(error),
            },
        }
    }

    fn column_source(&self, column: &str, question: &str, layer_id: i64) -> (source: Result<
        Option<RasterSource>,
        Error,
    >)
        ensures
            layer_source_read(
                self.connection,
                self.schema@,
                column@,
                question@,
                layer_id,
                error::optional_outcome(source),
            ),
    {
        let columns: [&str; 2] = ["MainId", column];
        assert(database::names(columns@) =~= seq!["MainId"@, column@]);
        if let Some(error) = self.schema.first_missing_column("Layer", &columns) {
            return Err(error);
        }
        let reply = query_by_id(&self.connection, question, layer_id);
        assert(sql::may_answer(
            self.connection,
            question@,
            seq![sql::ParameterModel::Integer(layer_id)],
            reply@,
        ));
        let source = match mipmap_from_reply(&reply) {
            Err(error) => Err(error),
            Ok(Some(id)) => self.raster_source(id),
            Ok(None) => Ok(None),
        };
        assert(named_source_read(
            self.connection,
            self.schema@,
            mipmap_in(reply@),
            error::optional_outcome(source),
        ));
        source
    }

    /// Resolves the render mipmap for one layer.
    pub fn layer_raster_source(&self, layer_id: i64) -> (source: Result<
        Option<RasterSource>,
        Error,
    >)
        ensures
            layer_source_read(
                self.connection,
                self.schema@,
                "LayerRenderMipmap"@,
                "SELECT LayerRenderMipmap FROM Layer WHERE MainId = ?1 LIMIT 1"@,
                layer_id,
                error::optional_outcome(source),
            ),            render_source_read(
                self.connection,
                self.schema@,
                layer_id,
                error::optional_outcome(source),
            ),
    {
        self.column_source(
            "LayerRenderMipmap",
            "SELECT LayerRenderMipmap FROM Layer WHERE MainId = ?1 LIMIT 1",
            layer_id,
        )
    }

    /// Resolves the layer-mask mipmap for one layer.
    pub fn layer_mask_raster_source(&self, layer_id: i64) -> (source: Result<
        Option<RasterSource>,
        Error,
    >)
        ensures
            layer_source_read(
                self.connection,
                self.schema@,
                "LayerLayerMaskMipmap"@,
                "SELECT LayerLayerMaskMipmap FROM Layer WHERE MainId = ?1 LIMIT 1"@,
                layer_id,
                error::optional_outcome(source),
            ),            mask_source_read(
                self.connection,
                self.schema@,
                layer_id,
                error::optional_outcome(source),
            ),
    {
        self.column_source(
            "LayerLayerMaskMipmap",
            "SELECT LayerLayerMaskMipmap FROM Layer WHERE MainId = ?1 LIMIT 1",
            layer_id,
        )
    }
}

/// Whether reading the raster that a layer shows can have this outcome.
pub open spec fn render_source_read(
    connection: Connection,
    schema: Seq<database::TableModel>,
    layer_id: i64,
    outcome: Result<Option<SourceModel>, Failure>,
) -> bool {
    layer_source_read(
        connection,
        schema,
        "LayerRenderMipmap"@,
        "SELECT LayerRenderMipmap FROM Layer WHERE MainId = ?1 LIMIT 1"@,
        layer_id,
        outcome,
    )
}

/// Whether reading the raster of the mask of a layer can have this outcome.
pub open spec fn mask_source_read(
    connection: Connection,
    schema: Seq<database::TableModel>,
    layer_id: i64,
    outcome: Result<Option<SourceModel>, Failure>,
) -> bool {
    layer_source_read(
        connection,
        schema,
        "LayerLayerMaskMipmap"@,
        "SELECT LayerLayerMaskMipmap FROM Layer WHERE MainId = ?1 LIMIT 1"@,
        layer_id,
        outcome,
    )
}

/// What a compressed range of a file decodes to, which has to have the expected size.
pub open spec fn decoded_range(
    data: Seq<u8>,
    offset: u64,
    compressed_size: u64,
    expected_size: u64,
    limit: u64,
) -> Result<Seq<u8>, Failure> {
    if offset + compressed_size > u64::MAX {
        Err(Failure::OffsetOverflow)
    } else if offset + compressed_size > data.len() {
        Err(Failure::InvalidRaster { reason: "compressed tile extends beyond the file"@ })
    } else if expected_size > usize::MAX {
        Err(Failure::OffsetOverflow)
    } else {
        match zlib::zlib_inflated(
            data.subrange(offset as int, offset + compressed_size),
            error::one_more(limit as nat),
        ) {
            None => Err(Failure::Io),
            Some(decoded) => if decoded.len() > limit {
                Err(
                    Failure::LimitExceeded {
                        resource: "decompressed block size"@,
                        value: decoded.len() as u64,
                        limit,
                    },
                )
            } else if decoded.len() != expected_size {
                Err(
                    Failure::InvalidRaster {
                        reason: "tile expands to "@ + message::decimal(decoded.len())
                            + " bytes, expected "@ + message::decimal(expected_size as nat),
                    },
                )
            } else {
                Ok(decoded)
            },
        }
    }
}

/// Decodes a compressed range of a file, which has to have the expected size.
pub fn decode_zlib_range(
    data: &[u8],
    offset: u64,
    compressed_size: u64,
    expected_size: u64,
    limit: u64,
) -> (decoded: Result<Vec<u8>, Error>)
    ensures
        error::outcome(decoded) == decoded_range(
            data@,
            offset,
            compressed_size,
            expected_size,
            limit,
        ),
{
    assert(data.len() == data@.len());
    let end: u64 = match offset.checked_add(compressed_size) {
        Some(end) => end,
        None => return Err(Error::OffsetOverflow),
    };
    if end > data.len() as u64 {
        return Err(invalid(Message::new("compressed tile extends beyond the file")));
    }
    if expected_size > usize::MAX as u64 {
        return Err(Error::OffsetOverflow);
    }
    let compressed = copy_bytes(data, offset as usize, end as usize);
    let decoded = decompress(compressed.as_slice(), limit.saturating_add(1))?;
    if decoded.len() as u64 > limit {
        return Err(Error::limit("decompressed block size", decoded.len() as u64, limit));
    }
    if decoded.len() as u64 != expected_size {
        return Err(
            invalid(
                Message::new("tile expands to ").number(decoded.len() as u64).text(
                    " bytes, expected ",
                ).number(expected_size),
            ),
        );
    }
    Ok(decoded)
}

/// The bytes that the parameters of a block announce.
pub open spec fn announced_size(parameters: Seq<u8>) -> int {
    bytes::be16(parameters, 0) * bytes::be32(parameters, 4) * bytes::be32(parameters, 8)
}

/// The tile that a block holds, if it is present.
pub open spec fn decoded_tile(data: Seq<u8>, block: BlockModel, limit: u64) -> Result<
    Option<tile_codec::TileModel>,
    Failure,
> {
    match block.payload {
        None => Ok(None),
        Some(payload) => {
            let expected = announced_size(block.parameters);
            if expected > u64::MAX {
                Err(Failure::OffsetOverflow)
            } else if expected > limit {
                Err(
                    Failure::LimitExceeded {
                        resource: "decompressed block size"@,
                        value: expected as u64,
                        limit,
                    },
                )
            } else {
                match decoded_range(
                    data,
                    payload.offset,
                    payload.compressed_size,
                    expected as u64,
                    limit,
                ) {
                    Err(failure) => Err(failure),
                    Ok(bytes) => Ok(
                        Some(
                            tile_codec::TileModel {
                                index: block.index,
                                parameters: block.parameters,
                                bytes,
                            },
                        ),
                    ),
                }
            }
        },
    }
}

/// The bitmap with the tiles of the blocks from `at` on; `seen` marks the tiles before.
pub open spec fn tiles_from(
    file: ClipFile,
    attributes: attributes::AttributesModel,
    blocks: Seq<BlockModel>,
    at: int,
    seen: Seq<bool>,
    image: bitmap::RasterModel,
) -> Result<bitmap::RasterModel, Failure>
    decreases blocks.len() - at,
{
    if at >= blocks.len() {
        Ok(image)
    } else {
        let index = blocks[at].index;
        if index >= seen.len() {
            Err(
                Failure::InvalidRaster {
                    reason: "tile index "@ + message::decimal(index as nat)
                        + " is outside the attribute grid"@,
                },
            )
        } else if seen[index as int] {
            Err(
                Failure::InvalidRaster {
                    reason: "duplicate tile index "@ + message::decimal(index as nat),
                },
            )
        } else {
            match decoded_tile(file.data@, blocks[at], file.limits.max_decompressed_block_size) {
                Err(failure) => Err(failure),
                Ok(tile) => match image_after(image, attributes, tile) {
                    Err(failure) => Err(failure),
                    Ok(next) => tiles_from(
                        file,
                        attributes,
                        blocks,
                        at + 1,
                        seen.update(index as int, true),
                        next,
                    ),
                },
            }
        }
    }
}

/// The bitmap after a tile, if it is present, was copied in.
pub open spec fn image_after(
    image: bitmap::RasterModel,
    attributes: attributes::AttributesModel,
    tile: Option<tile_codec::TileModel>,
) -> Result<bitmap::RasterModel, Failure> {
    match tile {
        None => Ok(image),
        Some(tile) => match tile_codec::copy_fault(image, attributes, tile) {
            Some(failure) => Err(failure),
            None => Ok(
                tile_codec::with_pixels(
                    image,
                    tiles::with_tile(
                        tile_codec::grid_of(attributes, image.width, image.height),
                        image.format,
                        tile.index,
                        tile.bytes,
                        image.pixels,
                    ),
                ),
            ),
        },
    }
}

/// The bitmap that attributes describe before any tile is copied in.
pub open spec fn blank_image(attributes: attributes::AttributesModel, limits: Limits) -> Result<
    bitmap::RasterModel,
    Failure,
> {
    match attributes::dimensions_fault(attributes, limits.max_canvas_dimension) {
        Some(failure) => Err(failure),
        None => match attributes::format_of(attributes.packing) {
            Err(failure) => Err(failure),
            Ok(format) => {
                let size = bitmap::bitmap_size(
                    attributes.bitmap_width,
                    attributes.bitmap_height,
                    format,
                );
                if size > u64::MAX {
                    Err(Failure::OffsetOverflow)
                } else if size > limits.max_raster_bytes {
                    Err(
                        Failure::LimitExceeded {
                            resource: "decoded raster bytes"@,
                            value: size as u64,
                            limit: limits.max_raster_bytes,
                        },
                    )
                } else if size > usize::MAX {
                    Err(Failure::OffsetOverflow)
                } else {
                    Ok(
                        bitmap::RasterModel {
                            width: attributes.bitmap_width,
                            height: attributes.bitmap_height,
                            format,
                            state: RasterDataState::MissingReference,
                            pixels: Seq::new(
                                size as nat,
                                |i: int|
                                    if attributes.default_fill == 0 {
                                        0u8
                                    } else {
                                        255u8
                                    },
                            ),
                        },
                    )
                }
            },
        },
    }
}

/// A bitmap in another state.
pub open spec fn in_state(
    image: bitmap::RasterModel,
    state: RasterDataState,
) -> bitmap::RasterModel {
    bitmap::RasterModel {
        width: image.width,
        height: image.height,
        format: image.format,
        state,
        pixels: image.pixels,
    }
}

/// The bitmap with the tiles of the blocks, which have to be one for each tile.
pub open spec fn tiled_image(
    file: ClipFile,
    attributes: attributes::AttributesModel,
    blocks: Seq<BlockModel>,
    image: bitmap::RasterModel,
) -> Result<bitmap::RasterModel, Failure> {
    if blocks.len() != attributes.block_grid_width * attributes.block_grid_height {
        Err(
            Failure::InvalidRaster {
                reason: "attribute grid requires "@ + message::decimal(
                    (attributes.block_grid_width * attributes.block_grid_height) as nat,
                ) + " blocks, external object contains "@ + message::decimal(blocks.len()),
            },
        )
    } else {
        match tiles_from(
            file,
            attributes,
            blocks,
            0,
            Seq::new(blocks.len(), |i: int| false),
            image,
        ) {
            Err(failure) => Err(failure),
            Ok(image) => Ok(in_state(image, RasterDataState::Present)),
        }
    }
}

/// The blocks of the external object that an index row points to.
pub open spec fn raster_blocks(file: ClipFile, offset: u64, identifier: Seq<u8>) -> Result<
    Seq<BlockModel>,
    Failure,
> {
    match container::chunk_at(file.data@, offset as int) {
        Err(failure) => Err(failure),
        Ok(chunk) => if chunk.tag != container::external_tag() {
            Err(
                Failure::InvalidRaster {
                    reason: "external index offset "@ + message::decimal(offset as nat)
                        + " is not CHNKExta"@,
                },
            )
        } else {
            match external::external_object_of(file, chunk) {
                Err(failure) => Err(failure),
                Ok(object) => if object.header.identifier != identifier {
                    Err(
                        Failure::InvalidRaster {
                            reason: "resolved external identifier does not match CHNKExta"@,
                        },
                    )
                } else if object.body != ExternalBody::BlockData {
                    Err(
                        Failure::UnsupportedRaster {
                            reason: "Offscreen.BlockData does not refer to block data"@,
                        },
                    )
                } else {
                    blocks::block_data_of(
                        file.data@,
                        object.header,
                        file.limits.max_blocks_per_external,
                    )
                },
            }
        },
    }
}

/// The bitmap of a raster whose index row is known; `None` where the index has none.
pub open spec fn indexed_image(
    file: ClipFile,
    attributes: attributes::AttributesModel,
    identifier: Seq<u8>,
    record: Option<database::ExternalRecordModel>,
    image: bitmap::RasterModel,
) -> Result<bitmap::RasterModel, Failure> {
    match record {
        None => Ok(in_state(image, RasterDataState::MissingExternalChunk)),
        Some(record) => match raster_blocks(file, record.offset, identifier) {
            Err(failure) => Err(failure),
            Ok(blocks) => tiled_image(file, attributes, blocks, image),
        },
    }
}

/// Whether looking an identifier up in the index can have this outcome.
pub open spec fn record_read(
    connection: Connection,
    schema: Seq<database::TableModel>,
    identifier: Seq<u8>,
    outcome: Result<Option<database::ExternalRecordModel>, Failure>,
) -> bool {
    match database::first_missing(schema, "ExternalChunk"@, database::index_columns(), 0) {
        Some(failure) => outcome == Err::<Option<database::ExternalRecordModel>, Failure>(failure),
        None => exists|reply: sql::ReplyModel|
            #[trigger] sql::may_answer(
                connection,
                database::lookup_question(),
                seq![sql::ParameterModel::Blob(identifier)],
                reply,
            ) && outcome == database::record_of(reply),
    }
}

/// The bitmap of a raster for which the index was looked up.
pub open spec fn looked_up_image(
    file: ClipFile,
    attributes: attributes::AttributesModel,
    identifier: Seq<u8>,
    record: Result<Option<database::ExternalRecordModel>, Failure>,
    image: bitmap::RasterModel,
) -> Result<bitmap::RasterModel, Failure> {
    match record {
        Err(failure) => Err(failure),
        Ok(record) => indexed_image(file, attributes, identifier, record, image),
    }
}

/// Whether decoding a raster can have this outcome.
pub open spec fn raster_decoded(
    connection: Connection,
    file: ClipFile,
    schema: Seq<database::TableModel>,
    source: SourceModel,
    outcome: Result<bitmap::RasterModel, Failure>,
) -> bool {
    match blank_image(source.attributes, file.limits) {
        Err(failure) => outcome == Err::<bitmap::RasterModel, Failure>(failure),
        Ok(image) => match source.external_identifier {
            None => outcome == Ok::<bitmap::RasterModel, Failure>(image),
            Some(identifier) => exists|record: Result<
                Option<database::ExternalRecordModel>,
                Failure,
            >|
                #[trigger] record_read(connection, schema, identifier, record) && outcome == looked_up_image(
                    file,
                    source.attributes,
                    identifier,
                    record,
                    image,
                ),
        },
    }
}

fn blank_raster(attributes: &OffscreenAttributes, limits: Limits) -> (image: Result<
    RasterImage,
    Error,
>)
    ensures
        error::outcome(image) == blank_image(attributes@, limits),
        image matches Ok(image) ==> bitmap::raster_whole(image@),
{
    validate_dimensions(attributes, limits.max_canvas_dimension())?;
    let format = pixel_format(attributes.packing)?;
    let size: u64 = match bitmap_bytes(attributes.bitmap_width, attributes.bitmap_height, format) {
        Some(size) => size,
        None => return Err(Error::OffsetOverflow),
    };
    if size > limits.max_raster_bytes() {
        return Err(Error::limit("decoded raster bytes", size, limits.max_raster_bytes()));
    }
    if size > usize::MAX as u64 {
        return Err(Error::OffsetOverflow);
    }
    let fill: u8 = if attributes.default_fill == 0 {
        0
    } else {
        255
    };
    let pixels: Vec<u8> = vec![fill; size as usize];
    let image = RasterImage {
        width: attributes.bitmap_width,
        height: attributes.bitmap_height,
        format,
        state: RasterDataState::MissingReference,
        pixels,
    };
    assert(image@.pixels =~= blank_image(attributes@, limits)->Ok_0.pixels);
    Ok(image)
}

/// A tile of the announced size that matches the attributes fits in memory.
proof fn matching_tile_fits(
    attributes: attributes::AttributesModel,
    format: PixelFormat,
    tile: tile_codec::TileModel,
    grid: tiles::TileGrid,
)
    requires
        attributes::format_of(attributes.packing) == Ok::<PixelFormat, Failure>(format),
        tile_codec::tile_matches(attributes, tile),
        tile.bytes.len() == announced_size(tile.parameters),
        grid.tile_width == attributes.packing[10],
        grid.tile_height == attributes.packing[11],
    ensures
        tiles::tile_size(format, tiles::tile_area(grid)) == tile.bytes.len(),
{
    let channels = bytes::be16(tile.parameters, 0);
    let width = bytes::be32(tile.parameters, 4);
    let height = bytes::be32(tile.parameters, 8);
    let area = tiles::tile_area(grid);
    assert(channels * width * height == channels * area) by (nonlinear_arith)
        requires
            area == width * height,
    ;
    if channels == 5 {
        assert(channels * area == 5 * area) by (nonlinear_arith)
            requires
                channels == 5,
        ;
    } else if channels == 2 {
        assert(channels * area == 2 * area) by (nonlinear_arith)
            requires
                channels == 2,
        ;
    } else {
        assert(channels * area == area) by (nonlinear_arith)
            requires
                channels == 1,
        ;
    }
}

impl ClipFile {
    /// Decompresses one present block under the configured size limit.
    pub fn decode_tile(&self, block: &Block) -> (tile: Result<Option<DecodedTile>, Error>)
        ensures
            error::optional_outcome(tile) == decoded_tile(
                self.data@,
                block@,
                self.limits.max_decompressed_block_size,
            ),
            tile matches Ok(Some(tile)) ==> tile@.bytes.len() == announced_size(tile@.parameters),
    {
        let payload = match block.payload {
            Some(payload) => payload,
            None => return Ok(None),
        };
        let parameters = block.parameters;
        let channels: u64 = parameters.channel_count() as u64;
        let width: u64 = parameters.width() as u64;
        let height: u64 = parameters.height() as u64;
        assert(channels * width <= 0xffff * 0xffff_ffff) by (nonlinear_arith)
            requires
                channels <= 0xffff,
                width <= 0xffff_ffff,
        ;
        let expected: u64 = match (channels * width).checked_mul(height) {
            Some(expected) => expected,
            None => return Err(Error::OffsetOverflow),
        };
        let limit: u64 = self.limits.max_decompressed_block_size();
        if expected > limit {
            return Err(Error::limit("decompressed block size", expected, limit));
        }
        let bytes = decode_zlib_range(
            self.data.as_slice(),
            payload.offset,
            payload.compressed_size,
            expected,
            limit,
        )?;
        Ok(Some(DecodedTile { index: block.index, parameters, bytes }))
    }

    #[verifier::spinoff_prover]
    #[verifier::rlimit(60)]
    #[verifier::loop_isolation(false)]
    fn copy_tiles(
        &self,
        attributes: &OffscreenAttributes,
        blocks: &[Block],
        image: RasterImage,
    ) -> (result: Result<RasterImage, Error>)
        requires
            bitmap::raster_whole(image@),
            attributes::format_of(attributes@.packing) == Ok::<PixelFormat, Failure>(
                image@.format,
            ),
            image@.width > 0,
            image@.height > 0,
            attributes@.packing[10] > 0,
            attributes@.packing[11] > 0,
            blocks@.len() > 0 ==> attributes@.block_grid_width > 0,
        ensures
            error::outcome(result) == tiles_from(
                *self,
                attributes@,
                error::views(blocks@),
                0,
                Seq::new(blocks@.len(), |i: int| false),
                image@,
            ),
    {
        let ghost models = error::views(blocks@);
        let mut seen: Vec<bool> = vec![false; blocks.len()];
        assert(seen@ =~= Seq::new(blocks@.len(), |i: int| false));
        let ghost whole = tiles_from(*self, attributes@, models, 0, seen@, image@);
        let mut image = image;
        let mut at: usize = 0;
        while at < blocks.len()
            invariant
                at <= blocks@.len(),
                models == error::views(blocks@),
                seen@.len() == blocks@.len(),
                bitmap::raster_whole(image@),
                attributes::format_of(attributes@.packing) == Ok::<PixelFormat, Failure>(
                    image@.format,
                ),
                image@.width > 0,
                image@.height > 0,
                attributes@.packing[10] > 0,
                attributes@.packing[11] > 0,
                blocks@.len() > 0 ==> attributes@.block_grid_width > 0,
                whole == tiles_from(*self, attributes@, models, at as int, seen@, image@),
            decreases blocks@.len() - at,
        {
            let block = &blocks[at];
            assert(models[at as int] == block@);
            let index: usize = block.index as usize;
            if index >= seen.len() {
                return Err(
                    invalid(
                        Message::new("tile index ").number(block.index as u64).text(
                            " is outside the attribute grid",
                        ),
                    ),
                );
            }
            if seen[index] {
                return Err(
                    invalid(Message::new("duplicate tile index ").number(block.index as u64)),
                );
            }
            seen.set(index, true);
            let tile = self.decode_tile(block)?;
            if let Some(tile) = &tile {
                proof {
                    if tile_codec::tile_matches(attributes@, tile@) {
                        matching_tile_fits(
                            attributes@,
                            image@.format,
                            tile@,
                            tile_codec::grid_of(attributes@, image@.width, image@.height),
                        );
                    }
                }
                copy_tile(&mut image, attributes, tile)?;
            }
            at = at + 1;
        }
        Ok(image)
    }

    #[verifier::spinoff_prover]
    #[verifier::rlimit(60)]
    fn read_raster_blocks(&self, offset: u64, identifier: &[u8]) -> (blocks: Result<
        Vec<Block>,
        Error,
    >)
        ensures
            error::listed(blocks) == raster_blocks(*self, offset, identifier@),
    {
        let chunk = self.chunk_at_offset(offset)?;
        match chunk.kind() {
            ChunkKind::External => {},
            _ => {
                return Err(
                    invalid(
                        Message::new("external index offset ").number(offset).text(
                            " is not CHNKExta",
                        ),
                    ),
                );
            },
        }
        let object = self.inspect_external_chunk(&chunk)?;
        if !same_bytes(object.header().identifier(), identifier) {
            return Err(
                invalid(
                    Message::new("resolved external identifier does not match CHNKExta"),
                ),
            );
        }
        match object.body() {
            ExternalBody::BlockData => {},
            _ => {
                return Err(
                    Error::UnsupportedRaster {
                        reason: Message::new(
                            "Offscreen.BlockData does not refer to block data",
                        ).build(),
                    },
                );
            },
        }
        let blocks = self.read_block_data(&object)?;
        Ok(blocks.blocks)
    }

    /// Assembles the bitmap of a raster whose index row is known.
    pub fn decode_indexed(
        &self,
        source: &RasterSource,
        identifier: &[u8],
        record: Option<&ExternalChunkRecord>,
    ) -> (image: Result<RasterImage, Error>)
        ensures
            error::outcome(image) == match blank_image(source@.attributes, self.limits) {
                Err(failure) => Err::<bitmap::RasterModel, Failure>(failure),
                Ok(image) => indexed_image(
                    *self,
                    source@.attributes,
                    identifier@,
                    match record {
                        Some(record) => Some(record@),
                        None => None,
                    },
                    image,
                ),
            },
    {
        let attributes = &source.attributes;
        let mut image = blank_raster(attributes, self.limits)?;
        let record = match record {
            Some(record) => record,
            None => {
                image.state = RasterDataState::MissingExternalChunk;
                return Ok(image);
            },
        };
        let blocks = self.read_raster_blocks(record.offset, identifier)?;
        assert(attributes@.block_grid_width * attributes@.block_grid_height <= 0xffff_ffff
            * 0xffff_ffff) by (nonlinear_arith)
            requires
                attributes@.block_grid_width <= 0xffff_ffff,
                attributes@.block_grid_height <= 0xffff_ffff,
        ;
        let expected: u64 = attributes.block_grid_width as u64
            * attributes.block_grid_height as u64;
        if blocks.len() as u64 != expected {
            return Err(
                invalid(
                    Message::new("attribute grid requires ").number(expected).text(
                        " blocks, external object contains ",
                    ).number(blocks.len() as u64),
                ),
            );
        }
        assert(blocks@.len() > 0 ==> attributes@.block_grid_width > 0) by (nonlinear_arith)
            requires
                blocks@.len() == attributes@.block_grid_width * attributes@.block_grid_height,
        ;
        let mut image = self.copy_tiles(attributes, blocks.as_slice(), image)?;
        image.state = RasterDataState::Present;
        Ok(image)
    }

    /// Decodes and assembles a raster source into row-major pixels.
    pub fn decode_raster(&self, database: &Database, source: &RasterSource) -> (image: Result<
        RasterImage,
        Error,
    >)
        ensures
            raster_decoded(
                database.connection,
                *self,
                database.schema@,
                source@,
                error::outcome(image),
            ),
    {
        let image = blank_raster(&source.attributes, self.limits)?;
        let identifier = match &source.external_identifier {
            Some(identifier) => identifier,
            None => return Ok(image),
        };
        let record = database.external_chunk(identifier.as_slice());
        let ghost read = error::optional_outcome(record);
        assert(record_read(database.connection, database.schema@, identifier@, read));
        let record = match record {
            Ok(record) => record,
            Err(error) => {
                assert(looked_up_image(*self, source@.attributes, identifier@, read, image@)
                    == Err::<bitmap::RasterModel, Failure>(error@));
                return Err(error);
            },
        };
        let result = match &record {
            Some(record) => self.decode_indexed(source, identifier.as_slice(), Some(record)),
            None => self.decode_indexed(source, identifier.as_slice(), None),
        };
        assert(error::outcome(result) == looked_up_image(
            *self,
            source@.attributes,
            identifier@,
            read,
            image@,
        ));
        result
    }
}

} // verus!
