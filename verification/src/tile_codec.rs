//! Encoding bitmaps into tiles, and copying decoded tiles into bitmaps.

use vstd::prelude::*;

use crate::attributes;
use crate::attributes::{pixel_format, validate_dimensions, OffscreenAttributes};
use crate::bitmap;
use crate::bitmap::{bitmap_bytes, RasterImage};
use crate::bytes;
use crate::error;
use crate::error::{Error, Failure};
use crate::external::BlockParameters;
use crate::message;
use crate::message::Message;
use crate::pixels;
use crate::pixels::PixelFormat;
use crate::tiles;
use crate::tiles::{fill_tile, place_tile, TileGrid};

verus! {

fn invalid(reason: Message) -> (error: Error)
    ensures
        error@ == (Failure::InvalidRaster { reason: reason@ }),
{
    Error::InvalidRaster { reason: reason.build() }
}

fn unwritable(reason: Message) -> (error: Error)
    ensures
        error@ == (Failure::InvalidWrite { reason: reason@ }),
{
    Error::InvalidWrite { reason: reason.build() }
}

/// One zlib-decoded tile in the format's native channel arrangement.
#[derive(Clone, Debug, Eq, PartialEq)]
pub struct DecodedTile {
    pub index: u32,
    pub parameters: BlockParameters,
    pub bytes: Vec<u8>,
}

/// The model of a [`DecodedTile`].
#[verifier::ext_equal]
pub struct TileModel {
    pub index: u32,
    pub parameters: Seq<u8>,
    pub bytes: Seq<u8>,
}

impl View for DecodedTile {
    type V = TileModel;

    open spec fn view(&self) -> TileModel {
        TileModel { index: self.index, parameters: self.parameters.raw@, bytes: self.bytes@ }
    }
}

impl DecodedTile {
    /// Tile-grid index.
    #[must_use]
    pub fn index(&self) -> (index: u32)
        ensures
            index == self.index,
    {
        self.index
    }

    /// Channel count and tile dimensions recorded by the block.
    #[must_use]
    pub fn parameters(&self) -> (parameters: BlockParameters)
        ensures
            parameters == self.parameters,
    {
        self.parameters
    }

    /// Native decoded bytes: planar alpha followed by the color buffer.
    #[must_use]
    pub fn bytes(&self) -> (bytes: &[u8])
        ensures
            bytes@ == self.bytes@,
    {
        self.bytes.as_slice()
    }

    /// Takes ownership of the native decoded bytes.
    #[must_use]
    pub fn into_bytes(self) -> (bytes: Vec<u8>)
        ensures
            bytes@ == self.bytes@,
    {
        self.bytes
    }
}

/// The tiles that attributes describe, on a bitmap of that size.
pub open spec fn grid_of(
    attributes: attributes::AttributesModel,
    width: u32,
    height: u32,
) -> TileGrid {
    TileGrid {
        columns: attributes.block_grid_width,
        tile_width: attributes.packing[10],
        tile_height: attributes.packing[11],
        width,
        height,
    }
}

fn tile_grid(attributes: &OffscreenAttributes, width: u32, height: u32) -> (grid: TileGrid)
    ensures
        grid == grid_of(attributes@, width, height),
{
    TileGrid {
        columns: attributes.block_grid_width,
        tile_width: attributes.packing.block_width(),
        tile_height: attributes.packing.block_height(),
        width,
        height,
    }
}

/// Whether a tile has the channels and the size that the attributes say.
pub open spec fn tile_matches(attributes: attributes::AttributesModel, tile: TileModel) -> bool {
    &&& bytes::be16(tile.parameters, 0) == attributes.packing[1] + attributes.packing[2]
    &&& bytes::be32(tile.parameters, 4) == attributes.packing[10]
    &&& bytes::be32(tile.parameters, 8) == attributes.packing[11]
}

/// What keeps a tile from being copied into a bitmap.
pub open spec fn copy_fault(
    image: bitmap::RasterModel,
    attributes: attributes::AttributesModel,
    tile: TileModel,
) -> Option<Failure> {
    let grid = grid_of(attributes, image.width, image.height);
    if !tile_matches(attributes, tile) {
        Some(
            Failure::InvalidRaster {
                reason: "tile "@ + message::decimal(tile.index as nat)
                    + " parameters do not match Offscreen.Attribute"@,
            },
        )
    } else if tiles::origin_x(grid, tile.index) > u32::MAX || tiles::origin_y(grid, tile.index)
        > u32::MAX {
        Some(Failure::OffsetOverflow)
    } else if !tiles::tile_complete(grid, image.format, tile.index, tile.bytes.len() as int) {
        Some(
            Failure::InvalidRaster {
                reason: "decoded tile is shorter than its channel layout"@,
            },
        )
    } else {
        None
    }
}

/// A bitmap with other pixels.
pub open spec fn with_pixels(image: bitmap::RasterModel, pixels: Seq<u8>) -> bitmap::RasterModel {
    bitmap::RasterModel {
        width: image.width,
        height: image.height,
        format: image.format,
        state: image.state,
        pixels,
    }
}

/// Whether a bitmap has the format and the tiles that attributes describe.
pub open spec fn suits(
    image: bitmap::RasterModel,
    attributes: attributes::AttributesModel,
) -> bool {
    let grid = grid_of(attributes, image.width, image.height);
    &&& bitmap::raster_whole(image)
    &&& attributes::format_of(attributes.packing) == Ok::<PixelFormat, Failure>(image.format)
    &&& tiles::grid_valid(grid)
}

/// Copies a decoded tile into a bitmap.
///
/// The bitmap is as it was when the tile cannot be copied.
#[verifier::spinoff_prover]
#[verifier::rlimit(30)]
pub fn copy_tile(image: &mut RasterImage, attributes: &OffscreenAttributes, tile: &DecodedTile) -> (
result: Result<(), Error>)
    requires
        suits(old(image)@, attributes@),
        tile_matches(attributes@, tile@) ==> tiles::tile_size(
            old(image)@.format,
            tiles::tile_area(grid_of(attributes@, old(image)@.width, old(image)@.height)),
        ) <= usize::MAX,
    ensures
        match result {
            Ok(()) => copy_fault(old(image)@, attributes@, tile@) is None && final(image)@
                == with_pixels(
                old(image)@,
                tiles::with_tile(
                    grid_of(attributes@, old(image)@.width, old(image)@.height),
                    old(image)@.format,
                    tile@.index,
                    tile@.bytes,
                    old(image)@.pixels,
                ),
            ),
            Err(error) => copy_fault(old(image)@, attributes@, tile@) == Some(error@)
                && final(image)@ == old(image)@,
        },
{
    let grid = tile_grid(attributes, image.width, image.height);
    let packing = attributes.packing;
    let parameters = tile.parameters;
    let channels: u64 = packing.alpha_channels() as u64 + packing.buffer_channels() as u64;
    if parameters.channel_count() as u64 != channels || parameters.width() != packing.block_width()
        || parameters.height() != packing.block_height() {
        return Err(
            invalid(
                Message::new("tile ").number(tile.index as u64).text(
                    " parameters do not match Offscreen.Attribute",
                ),
            ),
        );
    }
    let origin_x: u32 = match (tile.index % grid.columns).checked_mul(grid.tile_width) {
        Some(origin) => origin,
        None => return Err(Error::OffsetOverflow),
    };
    let origin_y: u32 = match (tile.index / grid.columns).checked_mul(grid.tile_height) {
        Some(origin) => origin,
        None => return Err(Error::OffsetOverflow),
    };
    let left: u32 = image.width.saturating_sub(origin_x);
    let columns: u32 = if left < grid.tile_width {
        left
    } else {
        grid.tile_width
    };
    let below: u32 = image.height.saturating_sub(origin_y);
    let rows: u32 = if below < grid.tile_height {
        below
    } else {
        grid.tile_height
    };
    if columns > 0 && rows > 0 {
        proof {
            let width = grid.tile_width;
            let height = grid.tile_height;
            assert(tiles::tile_area(grid) == width * height);
            assert(0 <= (rows - 1) * width && (rows - 1) * width + columns - 1 < width * height)
                by (nonlinear_arith)
                requires
                    1 <= rows <= height,
                    1 <= columns <= width,
            ;
        }
        let area: usize = grid.tile_width as usize * grid.tile_height as usize;
        let pixel: usize = (rows - 1) as usize * grid.tile_width as usize + (columns - 1) as usize;
        let last: usize = match image.format {
            PixelFormat::Rgba8 => area + 4 * pixel + 2,
            PixelFormat::Gray8 => pixel,
            PixelFormat::GrayAlpha8 => area + pixel,
        };
        if last >= tile.bytes.len() {
            return Err(
                invalid(Message::new("decoded tile is shorter than its channel layout")),
            );
        }
    }
    place_tile(grid, image.format, tile.index, tile.bytes.as_slice(), &mut image.pixels);
    Ok(())
}

/// What keeps pixels from being encoded into the tiles that attributes describe.
pub open spec fn encoder_fault(
    attributes: attributes::AttributesModel,
    format: PixelFormat,
    length: int,
    dimension_limit: u32,
    raster_limit: u64,
    tile_limit: u64,
) -> Option<Failure> {
    let size = bitmap::bitmap_size(attributes.bitmap_width, attributes.bitmap_height, format);
    let tile_bytes = attributes.packing[3] * attributes.packing[10] * attributes.packing[11];
    match attributes::dimensions_fault(attributes, dimension_limit) {
        Some(failure) => Some(failure),
        None => match attributes::format_of(attributes.packing) {
            Err(failure) => Some(failure),
            Ok(expected) => if format != expected {
                Some(
                    Failure::InvalidWrite {
                        reason: "replacement pixel format "@ + pixels::format_name(format)
                            + " does not match raster format "@ + pixels::format_name(expected),
                    },
                )
            } else if size > u64::MAX {
                Some(Failure::OffsetOverflow)
            } else if size > raster_limit {
                Some(
                    Failure::LimitExceeded {
                        resource: "replacement raster bytes"@,
                        value: size as u64,
                        limit: raster_limit,
                    },
                )
            } else if length != size {
                Some(
                    Failure::InvalidWrite {
                        reason: "replacement raster has "@ + message::decimal(length as nat)
                            + " bytes, expected "@ + message::decimal(size as nat),
                    },
                )
            } else if tile_bytes > u64::MAX {
                Some(Failure::OffsetOverflow)
            } else if tile_bytes > tile_limit {
                Some(
                    Failure::LimitExceeded {
                        resource: "replacement raster tile bytes"@,
                        value: tile_bytes as u64,
                        limit: tile_limit,
                    },
                )
            } else if attributes.block_grid_width * attributes.block_grid_height > u32::MAX
                || tile_bytes > usize::MAX {
                Some(Failure::OffsetOverflow)
            } else {
                None
            },
        },
    }
}

/// Pixels on their way into the tiles of a bitmap.
#[derive(Clone, Debug)]
pub struct RasterEncoder<'a> {
    pub attributes: &'a OffscreenAttributes,
    pub format: PixelFormat,
    pub pixels: &'a [u8],
    pub tile_bytes: usize,
    pub tile_count: u32,
}

/// The byte of a tile that nothing has been copied into. The spare byte of RGB pixels is
/// reserved padding, observed as zero in generated documents.
pub open spec fn default_byte(format: PixelFormat, area: int, default_fill: u32, at: int) -> u8 {
    if default_fill == 0 || (format == PixelFormat::Rgba8 && at >= area && (at - area) % 4 == 3) {
        0
    } else {
        255
    }
}

impl<'a> RasterEncoder<'a> {
    /// The tiles that the pixels go into.
    pub open spec fn grid(self) -> TileGrid {
        grid_of(self.attributes@, self.attributes@.bitmap_width, self.attributes@.bitmap_height)
    }

    /// Whether the pixels suit the tiles.
    pub open spec fn ready(self) -> bool {
        let grid = self.grid();
        &&& attributes::format_of(self.attributes@.packing) == Ok::<PixelFormat, Failure>(
            self.format,
        )
        &&& grid.tile_width > 0 && grid.tile_height > 0 && grid.width > 0 && grid.height > 0
        &&& self.pixels@.len() == tiles::grid_bytes(grid, self.format)
        &&& self.tile_bytes == tiles::tile_size(self.format, tiles::tile_area(grid))
        &&& self.tile_count == self.attributes@.block_grid_width
            * self.attributes@.block_grid_height
    }

    /// Takes pixels that are to replace a bitmap.
    #[verifier::spinoff_prover]
    pub fn new(
        attributes: &'a OffscreenAttributes,
        format: PixelFormat,
        pixels: &'a [u8],
        dimension_limit: u32,
        raster_limit: u64,
        tile_limit: u64,
    ) -> (encoder: Result<RasterEncoder<'a>, Error>)
        ensures
            match encoder {
                Ok(encoder) => encoder_fault(
                    attributes@,
                    format,
                    pixels@.len() as int,
                    dimension_limit,
                    raster_limit,
                    tile_limit,
                ) is None && encoder.ready() && encoder.attributes@ == attributes@
                    && encoder.format == format && encoder.pixels@ == pixels@,
                Err(error) => encoder_fault(
                    attributes@,
                    format,
                    pixels@.len() as int,
                    dimension_limit,
                    raster_limit,
                    tile_limit,
                ) == Some(error@),
            },
    {
        assert(pixels.len() == pixels@.len());
        validate_dimensions(attributes, dimension_limit)?;
        let expected_format = pixel_format(attributes.packing)?;
        if format != expected_format {
            return Err(
                unwritable(
                    Message::new("replacement pixel format ").text(format.name()).text(
                        " does not match raster format ",
                    ).text(expected_format.name()),
                ),
            );
        }
        let expected: u64 = match bitmap_bytes(
            attributes.bitmap_width,
            attributes.bitmap_height,
            format,
        ) {
            Some(expected) => expected,
            None => return Err(Error::OffsetOverflow),
        };
        if expected > raster_limit {
            return Err(Error::limit("replacement raster bytes", expected, raster_limit));
        }
        if pixels.len() as u64 != expected {
            return Err(
                unwritable(
                    Message::new("replacement raster has ").number(pixels.len() as u64).text(
                        " bytes, expected ",
                    ).number(expected),
                ),
            );
        }
        let channels: u64 = attributes.packing.total_channels() as u64;
        let width: u64 = attributes.packing.block_width() as u64;
        let height: u64 = attributes.packing.block_height() as u64;
        assert(channels * width <= 5 * 0xffff_ffff) by (nonlinear_arith)
            requires
                channels <= 5,
                width <= 0xffff_ffff,
        ;
        let tile_bytes: u64 = match (channels * width).checked_mul(height) {
            Some(tile_bytes) => tile_bytes,
            None => return Err(Error::OffsetOverflow),
        };
        if tile_bytes > tile_limit {
            return Err(Error::limit("replacement raster tile bytes", tile_bytes, tile_limit));
        }
        let tile_count: u32 = match attributes.block_grid_width.checked_mul(
            attributes.block_grid_height,
        ) {
            Some(tile_count) => tile_count,
            None => return Err(Error::OffsetOverflow),
        };
        if tile_bytes > usize::MAX as u64 {
            return Err(Error::OffsetOverflow);
        }
        proof {
            let area = width * height;
            assert(channels * width * height == channels * area) by (nonlinear_arith)
                requires
                    area == width * height,
            ;
            assert(channels == tiles::tile_size(format, 1));
            assert(channels * area == tiles::tile_size(format, area)) by {
                assert(5 * area == area * 5 && 2 * area == area * 2);
                if channels == 5 {
                    assert(channels * area == 5 * area) by (nonlinear_arith)
                        requires
                            channels == 5,
                    ;
                } else if channels == 2 {
                    assert(channels * area == 2 * area) by (nonlinear_arith)
                        requires
                            channels == 2,
                    ;
                } else {
                    assert(channels * area == area) by (nonlinear_arith)
                        requires
                            channels == 1,
                    ;
                }
            }
        }
        Ok(
            RasterEncoder {
                attributes,
                format,
                pixels,
                tile_bytes: tile_bytes as usize,
                tile_count,
            },
        )
    }

    /// How many tiles there are.
    #[must_use]
    pub fn tile_count(&self) -> (count: u32)
        ensures
            count == self.tile_count,
    {
        self.tile_count
    }

    /// The bytes of a tile that nothing has been copied into.
    pub open spec fn default_bytes(self) -> Seq<u8> {
        Seq::new(
            self.tile_bytes as nat,
            |i: int|
                default_byte(
                    self.format,
                    tiles::tile_area(self.grid()),
                    self.attributes@.default_fill,
                    i,
                ),
        )
    }

    /// A tile that nothing has been copied into.
    #[must_use]
    pub fn default_tile(&self) -> (tile: Vec<u8>)
        requires
            self.ready(),
        ensures
            tile@ == self.default_bytes(),
    {
        let ghost grid = self.grid();
        assert(tiles::tile_area(grid) >= 0) by (nonlinear_arith);
        let area: usize = self.attributes.packing.block_width() as usize
            * self.attributes.packing.block_height() as usize;
        let fill: u8 = if self.attributes.default_fill == 0 {
            0
        } else {
            255
        };
        let padded: bool = match self.format {
            PixelFormat::Rgba8 => true,
            _ => false,
        };
        let mut tile: Vec<u8> = Vec::new();
        while tile.len() < self.tile_bytes
            invariant
                tile@.len() <= self.tile_bytes,
                area == tiles::tile_area(self.grid()),
                fill == (if self.attributes@.default_fill == 0 {
                    0u8
                } else {
                    255u8
                }),
                padded == (self.format == PixelFormat::Rgba8),
                forall|i: int|
                    0 <= i < tile@.len() ==> #[trigger] tile@[i] == self.default_bytes()[i],
            decreases self.tile_bytes - tile@.len(),
        {
            let at: usize = tile.len();
            if padded && at >= area && (at - area) % 4 == 3 {
                tile.push(0);
            } else {
                tile.push(fill);
            }
        }
        assert(tile@ =~= self.default_bytes());
        tile
    }

    /// The bytes of a tile, where `original` holds the bytes it had.
    pub open spec fn encoded(self, index: u32, original: Option<Seq<u8>>) -> Result<
        Seq<u8>,
        Failure,
    > {
        let grid = self.grid();
        if index >= self.tile_count {
            Err(
                Failure::InvalidWrite {
                    reason: "replacement raster tile index "@ + message::decimal(index as nat)
                        + " is outside 0.."@ + message::decimal(self.tile_count as nat),
                },
            )
        } else {
            match original {
                Some(bytes) if bytes.len() != self.tile_bytes => Err(
                    Failure::InvalidWrite {
                        reason: "existing raster tile has "@ + message::decimal(bytes.len())
                            + " decoded bytes, expected "@ + message::decimal(
                                self.tile_bytes as nat,
                            ),
                    },
                ),
                _ => if tiles::origin_x(grid, index) > u32::MAX || tiles::origin_y(grid, index)
                    > u32::MAX {
                    Err(Failure::OffsetOverflow)
                } else {
                    Ok(
                        tiles::tile_with(
                            grid,
                            self.format,
                            index,
                            self.pixels@,
                            match original {
                                Some(bytes) => bytes,
                                None => self.default_bytes(),
                            },
                        ),
                    )
                },
            }
        }
    }

    /// Encodes one tile, on top of the bytes it had or of a default tile.
    pub fn encode_tile(&self, index: u32, original: Option<Vec<u8>>) -> (tile: Result<
        Vec<u8>,
        Error,
    >)
        requires
            self.ready(),
        ensures
            error::outcome(tile) == self.encoded(index, error::optional_bytes(original)),
    {
        if index >= self.tile_count {
            return Err(
                unwritable(
                    Message::new("replacement raster tile index ").number(index as u64).text(
                        " is outside 0..",
                    ).number(self.tile_count as u64),
                ),
            );
        }
        let mut tile = match original {
            Some(bytes) => {
                if bytes.len() != self.tile_bytes {
                    return Err(
                        unwritable(
                            Message::new("existing raster tile has ").number(
                                bytes.len() as u64,
                            ).text(" decoded bytes, expected ").number(self.tile_bytes as u64),
                        ),
                    );
                }
                bytes
            },
            None => self.default_tile(),
        };
        let grid = tile_grid(
            self.attributes,
            self.attributes.bitmap_width,
            self.attributes.bitmap_height,
        );
        assert(grid.columns > 0) by (nonlinear_arith)
            requires
                grid.columns * self.attributes@.block_grid_height > 0,
                grid.columns >= 0,
        ;
        if (index % grid.columns).checked_mul(grid.tile_width).is_none() {
            return Err(Error::OffsetOverflow);
        }
        if (index / grid.columns).checked_mul(grid.tile_height).is_none() {
            return Err(Error::OffsetOverflow);
        }
        fill_tile(grid, self.format, index, self.pixels, &mut tile);
        Ok(tile)
    }
}

/// A tile that was encoded, and copied into a bitmap of the same size and format, sets the
/// pixels that it covers to the ones that were encoded, and leaves the others.
pub proof fn encoded_tile_decodes(
    encoder: RasterEncoder<'_>,
    index: u32,
    original: Option<Seq<u8>>,
    target: Seq<u8>,
)
    requires
        encoder.ready(),
        encoder.encoded(index, original) is Ok,
        target.len() == encoder.pixels@.len(),
    ensures
        forall|i: int|
            0 <= i < target.len() ==> #[trigger] tiles::with_tile(
                encoder.grid(),
                encoder.format,
                index,
                encoder.encoded(index, original)->Ok_0,
                target,
            )[i] == if tiles::covers(encoder.grid(), encoder.format, index, i) {
                encoder.pixels@[i]
            } else {
                target[i]
            },
{
    let grid = encoder.grid();
    assert(grid.columns > 0) by (nonlinear_arith)
        requires
            grid.columns * encoder.attributes@.block_grid_height > 0,
            grid.columns >= 0,
    ;
    let base = match original {
        Some(bytes) => bytes,
        None => encoder.default_bytes(),
    };
    tiles::encoded_tile_gives_its_pixels_back(
        grid,
        encoder.format,
        index,
        encoder.pixels@,
        base,
        target,
    );
}

} // verus!
