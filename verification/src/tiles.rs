//! Tiles: where the bytes of a bitmap stand in them, and back.

use vstd::arithmetic::div_mod;
use vstd::prelude::*;

use crate::bitmap;
use crate::pixels;
use crate::pixels::PixelFormat;

verus! {

/// The tiles of a bitmap, and its size.
#[derive(Clone, Copy, Debug, PartialEq, Eq)]
pub struct TileGrid {
    pub columns: u32,
    pub tile_width: u32,
    pub tile_height: u32,
    pub width: u32,
    pub height: u32,
}

/// The leftmost column of pixels of a tile.
pub open spec fn origin_x(grid: TileGrid, index: u32) -> int {
    (index as int % grid.columns as int) * grid.tile_width
}

/// The topmost row of pixels of a tile.
pub open spec fn origin_y(grid: TileGrid, index: u32) -> int {
    (index as int / grid.columns as int) * grid.tile_height
}

/// The pixels of a tile.
pub open spec fn tile_area(grid: TileGrid) -> int {
    grid.tile_width * grid.tile_height
}

/// The bytes of a tile of that many pixels.
pub open spec fn tile_size(format: PixelFormat, area: int) -> int {
    match format {
        PixelFormat::Rgba8 => 5 * area,
        PixelFormat::Gray8 => area,
        PixelFormat::GrayAlpha8 => 2 * area,
    }
}

/// Where a tile of that many pixels holds a channel of a pixel: planar alpha, then the
/// color buffer, in which RGB pixels stand as blue, green, red, and a spare byte.
pub open spec fn tile_byte(format: PixelFormat, area: int, pixel: int, channel: int) -> int {
    match format {
        PixelFormat::Rgba8 => if channel == 3 {
            pixel
        } else {
            area + 4 * pixel + 2 - channel
        },
        PixelFormat::Gray8 => pixel,
        PixelFormat::GrayAlpha8 => if channel == 1 {
            pixel
        } else {
            area + pixel
        },
    }
}

/// The pixel and the channel that a byte of a tile holds; `None` for a spare byte.
pub open spec fn tile_pixel(format: PixelFormat, area: int, at: int) -> Option<(int, int)> {
    match format {
        PixelFormat::Rgba8 => if at < area {
            Some((at, 3))
        } else if (at - area) % 4 == 3 {
            None
        } else {
            Some(((at - area) / 4, 2 - (at - area) % 4))
        },
        PixelFormat::Gray8 => Some((at, 0)),
        PixelFormat::GrayAlpha8 => if at < area {
            Some((at, 1))
        } else {
            Some((at - area, 0))
        },
    }
}

/// The position in the bitmap of a byte of a tile; `None` where the bitmap has no such
/// byte.
pub open spec fn bitmap_place(grid: TileGrid, format: PixelFormat, index: u32, at: int) -> Option<
    int,
> {
    match tile_pixel(format, tile_area(grid), at) {
        None => None,
        Some((pixel, channel)) => {
            let x = origin_x(grid, index) + pixel % grid.tile_width as int;
            let y = origin_y(grid, index) + pixel / grid.tile_width as int;
            if x < grid.width && y < grid.height {
                Some((y * grid.width + x) * pixels::pixel_size(format) + channel)
            } else {
                None
            }
        },
    }
}

/// The column of the pixel that a byte of the bitmap belongs to.
pub open spec fn column_of(grid: TileGrid, format: PixelFormat, at: int) -> int {
    (at / pixels::pixel_size(format)) % grid.width as int
}

/// The row of the pixel that a byte of the bitmap belongs to.
pub open spec fn row_of(grid: TileGrid, format: PixelFormat, at: int) -> int {
    (at / pixels::pixel_size(format)) / grid.width as int
}

/// The position in a tile of a byte of the bitmap; `None` where the tile does not cover
/// it.
pub open spec fn tile_place(grid: TileGrid, format: PixelFormat, index: u32, at: int) -> Option<
    int,
> {
    let x = column_of(grid, format, at) - origin_x(grid, index);
    let y = row_of(grid, format, at) - origin_y(grid, index);
    if 0 <= x < grid.tile_width && 0 <= y < grid.tile_height {
        Some(
            tile_byte(
                format,
                tile_area(grid),
                y * grid.tile_width + x,
                at % pixels::pixel_size(format),
            ),
        )
    } else {
        None
    }
}

/// Whether a grid has tiles and pixels.
pub open spec fn grid_valid(grid: TileGrid) -> bool {
    grid.columns > 0 && grid.tile_width > 0 && grid.tile_height > 0 && grid.width > 0 && grid.height
        > 0
}

/// The bytes of a bitmap.
pub open spec fn grid_bytes(grid: TileGrid, format: PixelFormat) -> int {
    bitmap::bitmap_size(grid.width, grid.height, format)
}

proof fn split_position(whole: int, divisor: int)
    requires
        divisor > 0,
    ensures
        whole == (whole / divisor) * divisor + whole % divisor,
        0 <= whole % divisor < divisor,
        whole >= 0 ==> whole / divisor >= 0,
{
    div_mod::lemma_fundamental_div_mod(whole, divisor);
    assert((whole / divisor) * divisor == divisor * (whole / divisor)) by (nonlinear_arith);
    if whole >= 0 {
        div_mod::lemma_div_pos_is_pos(whole, divisor);
    }
}

proof fn joined_position(quotient: int, remainder: int, divisor: int)
    requires
        0 <= remainder < divisor,
    ensures
        (quotient * divisor + remainder) / divisor == quotient,
        (quotient * divisor + remainder) % divisor == remainder,
{
    div_mod::lemma_fundamental_div_mod_converse(
        quotient * divisor + remainder,
        divisor,
        quotient,
        remainder,
    );
}

proof fn below_product(quotient: int, remainder: int, divisor: int, count: int)
    requires
        0 <= remainder < divisor,
        0 <= quotient < count,
    ensures
        0 <= quotient * divisor + remainder < count * divisor,
{
    assert(
        quotient * divisor + remainder < count * divisor && 0 <= quotient * divisor
    ) by (nonlinear_arith)
        requires
            0 <= remainder < divisor,
            0 <= quotient,
            quotient + 1 <= count,
    ;
}

/// A byte of the bitmap that a tile covers stands in the tile, and that place of the tile
/// belongs to no other byte of the bitmap.
pub proof fn covered_byte_has_its_place(grid: TileGrid, format: PixelFormat, index: u32, at: int)
    requires
        grid_valid(grid),
        0 <= at < grid_bytes(grid, format),
        tile_place(grid, format, index, at) is Some,
    ensures
        ({
            let place = tile_place(grid, format, index, at)->Some_0;
            &&& 0 <= place < tile_size(format, tile_area(grid))
            &&& bitmap_place(grid, format, index, place) == Some(at)
        }),
{
    let size = pixels::pixel_size(format);
    let area = tile_area(grid);
    let pixel = at / size;
    let channel = at % size;
    let x = column_of(grid, format, at) - origin_x(grid, index);
    let y = row_of(grid, format, at) - origin_y(grid, index);
    let inner = y * grid.tile_width + x;
    split_position(at, size);
    split_position(pixel, grid.width as int);
    below_product(y, x, grid.tile_width as int, grid.tile_height as int);
    joined_position(y, x, grid.tile_width as int);
    assert(grid.tile_height * grid.tile_width == area) by (nonlinear_arith)
        requires
            area == grid.tile_width * grid.tile_height,
    ;
    assert(pixel < grid.height * grid.width) by (nonlinear_arith)
        requires
            at == pixel * size + channel,
            at < grid.width * grid.height * size,
            channel >= 0,
            size > 0,
    ;
    assert(pixel / (grid.width as int) < grid.height) by (nonlinear_arith)
        requires
            pixel == (pixel / grid.width as int) * grid.width + pixel % grid.width as int,
            pixel < grid.height * grid.width,
            pixel % grid.width as int >= 0,
            grid.width > 0,
    ;
    let place = tile_byte(format, area, inner, channel);
    assert(tile_pixel(format, area, place) == Some((inner, channel)));
}

/// A byte of a tile that has a place in the bitmap is the byte of the tile for that place.
pub proof fn tile_byte_has_its_place(grid: TileGrid, format: PixelFormat, index: u32, at: int)
    requires
        grid_valid(grid),
        0 <= at < tile_size(format, tile_area(grid)),
        bitmap_place(grid, format, index, at) is Some,
    ensures
        ({
            let place = bitmap_place(grid, format, index, at)->Some_0;
            &&& 0 <= place < grid_bytes(grid, format)
            &&& tile_place(grid, format, index, place) == Some(at)
        }),
{
    let size = pixels::pixel_size(format);
    let area = tile_area(grid);
    let (pixel, channel) = tile_pixel(format, area, at)->Some_0;
    assert(0 <= pixel < area && 0 <= channel < size);
    let ox = origin_x(grid, index);
    let oy = origin_y(grid, index);
    assert(ox >= 0 && oy >= 0) by {
        split_position(index as int, grid.columns as int);
        assert((index as int % grid.columns as int) * grid.tile_width >= 0) by (nonlinear_arith)
            requires
                index as int % grid.columns as int >= 0,
        ;
        assert((index as int / grid.columns as int) * grid.tile_height >= 0) by (nonlinear_arith)
            requires
                index as int / grid.columns as int >= 0,
        ;
    }
    split_position(pixel, grid.tile_width as int);
    let x = ox + pixel % grid.tile_width as int;
    let y = oy + pixel / grid.tile_width as int;
    assert(pixel / (grid.tile_width as int) < grid.tile_height) by (nonlinear_arith)
        requires
            pixel == (pixel / grid.tile_width as int) * grid.tile_width + pixel
                % grid.tile_width as int,
            pixel < grid.tile_width * grid.tile_height,
            pixel % grid.tile_width as int >= 0,
            grid.tile_width > 0,
    ;
    let outer = y * grid.width + x;
    let place = outer * size + channel;
    joined_position(y, x, grid.width as int);
    joined_position(outer, channel, size);
    below_product(y, x, grid.width as int, grid.height as int);
    below_product(outer, channel, size, grid.height * grid.width);
    assert(grid.height * grid.width * size == grid.width * grid.height * size) by (nonlinear_arith);
    assert(column_of(grid, format, place) == x && row_of(grid, format, place) == y);
    assert((y - oy) * grid.tile_width + (x - ox) == pixel);
}

/// The bytes of a bitmap with a tile copied in.
pub open spec fn with_tile(
    grid: TileGrid,
    format: PixelFormat,
    index: u32,
    tile: Seq<u8>,
    bitmap: Seq<u8>,
) -> Seq<u8> {
    Seq::new(
        bitmap.len(),
        |i: int|
            match tile_place(grid, format, index, i) {
                Some(place) => tile[place],
                None => bitmap[i],
            },
    )
}

/// The bytes of a tile with the part of a bitmap that it covers copied in.
pub open spec fn tile_with(
    grid: TileGrid,
    format: PixelFormat,
    index: u32,
    bitmap: Seq<u8>,
    tile: Seq<u8>,
) -> Seq<u8> {
    Seq::new(
        tile.len(),
        |i: int|
            match bitmap_place(grid, format, index, i) {
                Some(place) => bitmap[place],
                None => tile[i],
            },
    )
}

/// What a tile was given of a bitmap, it gives back: copied into any bitmap of that size,
/// the tile sets the bytes that it covers to what they were, and leaves the others.
pub proof fn encoded_tile_gives_its_pixels_back(
    grid: TileGrid,
    format: PixelFormat,
    index: u32,
    source: Seq<u8>,
    tile: Seq<u8>,
    target: Seq<u8>,
)
    requires
        grid_valid(grid),
        tile.len() == tile_size(format, tile_area(grid)),
        source.len() == grid_bytes(grid, format),
        target.len() == source.len(),
    ensures
        forall|i: int|
            0 <= i < source.len() ==> #[trigger] with_tile(
                grid,
                format,
                index,
                tile_with(grid, format, index, source, tile),
                target,
            )[i] == if tile_place(grid, format, index, i) is Some {
                source[i]
            } else {
                target[i]
            },
{
    let encoded = tile_with(grid, format, index, source, tile);
    assert forall|i: int| 0 <= i < source.len() implies #[trigger] with_tile(
        grid,
        format,
        index,
        encoded,
        target,
    )[i] == if tile_place(grid, format, index, i) is Some {
        source[i]
    } else {
        target[i]
    } by {
        if tile_place(grid, format, index, i) is Some {
            covered_byte_has_its_place(grid, format, index, i);
        }
    }
}

/// A tile changes nothing of a bitmap that it does not cover, and nothing of what it took
/// from a bitmap when that same bitmap is copied into it once more.
pub proof fn encoding_twice_is_encoding_once(
    grid: TileGrid,
    format: PixelFormat,
    index: u32,
    bitmap: Seq<u8>,
    tile: Seq<u8>,
)
    ensures
        tile_with(grid, format, index, bitmap, tile_with(grid, format, index, bitmap, tile))
            == tile_with(grid, format, index, bitmap, tile),
{
    assert(tile_with(grid, format, index, bitmap, tile_with(grid, format, index, bitmap, tile))
        =~= tile_with(grid, format, index, bitmap, tile));
}

/// A bitmap with the tiles below `count` copied in, each with what it takes of `source`.
pub open spec fn restored(
    grid: TileGrid,
    format: PixelFormat,
    source: Seq<u8>,
    tile: Seq<u8>,
    target: Seq<u8>,
    count: nat,
) -> Seq<u8>
    decreases count,
{
    if count == 0 {
        target
    } else {
        let index = (count - 1) as u32;
        with_tile(
            grid,
            format,
            index,
            tile_with(grid, format, index, source, tile),
            restored(grid, format, source, tile, target, (count - 1) as nat),
        )
    }
}

/// Whether a tile covers a byte of the bitmap.
pub open spec fn covers(grid: TileGrid, format: PixelFormat, index: u32, at: int) -> bool {
    tile_place(grid, format, index, at) is Some
}

proof fn restored_so_far(
    grid: TileGrid,
    format: PixelFormat,
    source: Seq<u8>,
    tile: Seq<u8>,
    target: Seq<u8>,
    count: nat,
)
    requires
        grid_valid(grid),
        tile.len() == tile_size(format, tile_area(grid)),
        source.len() == grid_bytes(grid, format),
        target.len() == source.len(),
        count <= 0x1_0000_0000,
    ensures
        restored(grid, format, source, tile, target, count).len() == source.len(),
        forall|i: int, index: u32|
            0 <= i < source.len() && index < count && #[trigger] covers(grid, format, index, i)
                ==> restored(grid, format, source, tile, target, count)[i] == source[i],
    decreases count,
{
    if count > 0 {
        let last = (count - 1) as u32;
        let before = restored(grid, format, source, tile, target, (count - 1) as nat);
        restored_so_far(grid, format, source, tile, target, (count - 1) as nat);
        encoded_tile_gives_its_pixels_back(grid, format, last, source, tile, before);
        assert forall|i: int, index: u32|
            0 <= i < source.len() && index < count && #[trigger] covers(
                grid,
                format,
                index,
                i,
            ) implies restored(grid, format, source, tile, target, count)[i] == source[i] by {
            if index < count - 1 {
                assert(before[i] == source[i]);
            }
        }
    }
}

/// Tiles that together cover a bitmap give all of it back: encoding every tile and copying
/// every tile into any bitmap of that size gives the encoded bitmap.
pub proof fn encoded_tiles_give_the_bitmap_back(
    grid: TileGrid,
    rows: u32,
    format: PixelFormat,
    source: Seq<u8>,
    tile: Seq<u8>,
    target: Seq<u8>,
)
    requires
        grid_valid(grid),
        tile.len() == tile_size(format, tile_area(grid)),
        source.len() == grid_bytes(grid, format),
        target.len() == source.len(),
        grid.columns * rows <= u32::MAX,
        grid.width <= grid.columns * grid.tile_width,
        grid.height <= rows * grid.tile_height,
    ensures
        restored(grid, format, source, tile, target, (grid.columns * rows) as nat) == source,
{
    let count = (grid.columns * rows) as nat;
    let result = restored(grid, format, source, tile, target, count);
    restored_so_far(grid, format, source, tile, target, count);
    assert forall|i: int| 0 <= i < source.len() implies result[i] == source[i] by {
        let size = pixels::pixel_size(format);
        let pixel = i / size;
        split_position(i, size);
        split_position(pixel, grid.width as int);
        let x = column_of(grid, format, i);
        let y = row_of(grid, format, i);
        assert(pixel < grid.height * grid.width) by (nonlinear_arith)
            requires
                i == pixel * size + i % size,
                i < grid.width * grid.height * size,
                i % size >= 0,
                size > 0,
        ;
        assert(y < grid.height) by (nonlinear_arith)
            requires
                pixel == y * grid.width + x,
                pixel < grid.height * grid.width,
                x >= 0,
                grid.width > 0,
        ;
        let column = x / grid.tile_width as int;
        let row = y / grid.tile_height as int;
        split_position(x, grid.tile_width as int);
        split_position(y, grid.tile_height as int);
        assert(column < grid.columns) by (nonlinear_arith)
            requires
                x == column * grid.tile_width + x % grid.tile_width as int,
                x < grid.columns * grid.tile_width,
                x % grid.tile_width as int >= 0,
                grid.tile_width > 0,
        ;
        assert(row < rows) by (nonlinear_arith)
            requires
                y == row * grid.tile_height + y % grid.tile_height as int,
                y < rows * grid.tile_height,
                y % grid.tile_height as int >= 0,
                grid.tile_height > 0,
        ;
        below_product(row, column, grid.columns as int, rows as int);
        joined_position(row, column, grid.columns as int);
        assert(rows * grid.columns == grid.columns * rows) by (nonlinear_arith);
        let index = (row * grid.columns + column) as u32;
        assert(origin_x(grid, index) == column * grid.tile_width);
        assert(origin_y(grid, index) == row * grid.tile_height);
        assert(covers(grid, format, index, i));
    }
    assert(result =~= source);
}

/// The pixel columns of a tile that lie in the bitmap.
pub open spec fn covered_columns(grid: TileGrid, index: u32) -> int {
    let left = grid.width - origin_x(grid, index);
    if left <= 0 {
        0
    } else if left < grid.tile_width {
        left
    } else {
        grid.tile_width as int
    }
}

/// The pixel rows of a tile that lie in the bitmap.
pub open spec fn covered_rows(grid: TileGrid, index: u32) -> int {
    let left = grid.height - origin_y(grid, index);
    if left <= 0 {
        0
    } else if left < grid.tile_height {
        left
    } else {
        grid.tile_height as int
    }
}

/// The last place that a pixel of a tile has in it.
pub open spec fn last_byte(format: PixelFormat, area: int, pixel: int) -> int {
    match format {
        PixelFormat::Rgba8 => area + 4 * pixel + 2,
        PixelFormat::Gray8 => pixel,
        PixelFormat::GrayAlpha8 => area + pixel,
    }
}

/// Whether that many bytes of a tile hold all that lies in the bitmap.
pub open spec fn tile_complete(
    grid: TileGrid,
    format: PixelFormat,
    index: u32,
    length: int,
) -> bool {
    let columns = covered_columns(grid, index);
    let rows = covered_rows(grid, index);
    columns == 0 || rows == 0 || last_byte(
        format,
        tile_area(grid),
        (rows - 1) * grid.tile_width + columns - 1,
    ) < length
}

proof fn complete_tile_holds(grid: TileGrid, format: PixelFormat, index: u32, length: int, at: int)
    requires
        grid_valid(grid),
        0 <= at < grid_bytes(grid, format),
        tile_complete(grid, format, index, length),
        tile_place(grid, format, index, at) is Some,
    ensures
        tile_place(grid, format, index, at)->Some_0 < length,
{
    let size = pixels::pixel_size(format);
    let pixel = at / size;
    split_position(at, size);
    split_position(pixel, grid.width as int);
    let x = column_of(grid, format, at) - origin_x(grid, index);
    let y = row_of(grid, format, at) - origin_y(grid, index);
    assert(pixel < grid.height * grid.width) by (nonlinear_arith)
        requires
            at == pixel * size + at % size,
            at < grid.width * grid.height * size,
            at % size >= 0,
            size > 0,
    ;
    assert(pixel / (grid.width as int) < grid.height) by (nonlinear_arith)
        requires
            pixel == (pixel / grid.width as int) * grid.width + pixel % grid.width as int,
            pixel < grid.height * grid.width,
            pixel % grid.width as int >= 0,
            grid.width > 0,
    ;
    let columns = covered_columns(grid, index);
    let rows = covered_rows(grid, index);
    assert(x <= columns - 1 && y <= rows - 1);
    assert(
        y * grid.tile_width + x <= (rows - 1) * grid.tile_width + columns - 1
    ) by (nonlinear_arith)
        requires
            x <= columns - 1,
            y <= rows - 1,
            grid.tile_width > 0,
    ;
    assert(0 <= y * grid.tile_width) by (nonlinear_arith)
        requires
            y >= 0,
    ;
    assert(tile_area(grid) >= 0) by (nonlinear_arith);
}

fn find_place(grid: TileGrid, format: PixelFormat, index: u32, at: usize) -> (place: Option<usize>)
    requires
        grid_valid(grid),
        grid_bytes(grid, format) <= usize::MAX,
        at < tile_size(format, tile_area(grid)) <= usize::MAX,
        origin_x(grid, index) <= u32::MAX,
        origin_y(grid, index) <= u32::MAX,
    ensures
        match place {
            Some(place) => bitmap_place(grid, format, index, at as int) == Some(place as int)
                && place < grid_bytes(grid, format),
            None => bitmap_place(grid, format, index, at as int) is None,
        },
{
    assert(tile_area(grid) >= 0) by (nonlinear_arith);
    assert(grid.tile_width * grid.tile_height == tile_area(grid));
    let area: usize = grid.tile_width as usize * grid.tile_height as usize;
    let (pixel, channel): (usize, usize) = match format {
        PixelFormat::Rgba8 => if at < area {
            (at, 3)
        } else {
            let part: usize = (at - area) % 4;
            if part == 3 {
                return None;
            }
            ((at - area) / 4, 2 - part)
        },
        PixelFormat::Gray8 => (at, 0),
        PixelFormat::GrayAlpha8 => if at < area {
            (at, 1)
        } else {
            (at - area, 0)
        },
    };
    assert(tile_pixel(format, area as int, at as int) == Some((pixel as int, channel as int)));
    proof {
        split_position(index as int, grid.columns as int);
        split_position(pixel as int, grid.tile_width as int);
        assert((index as int % grid.columns as int) * grid.tile_width >= 0) by (nonlinear_arith)
            requires
                index as int % grid.columns as int >= 0,
        ;
        assert((index as int / grid.columns as int) * grid.tile_height >= 0) by (nonlinear_arith)
            requires
                index as int / grid.columns as int >= 0,
        ;
        assert(pixel as int / (grid.tile_width as int) < grid.tile_height) by (nonlinear_arith)
            requires
                pixel == (pixel as int / grid.tile_width as int) * grid.tile_width + pixel as int
                    % grid.tile_width as int,
                pixel < grid.tile_width * grid.tile_height,
                pixel as int % grid.tile_width as int >= 0,
                grid.tile_width > 0,
        ;
    }
    let x: u64 = (index % grid.columns) as u64 * grid.tile_width as u64 + (pixel
        % grid.tile_width as usize) as u64;
    let y: u64 = (index / grid.columns) as u64 * grid.tile_height as u64 + (pixel
        / grid.tile_width as usize) as u64;
    if x >= grid.width as u64 || y >= grid.height as u64 {
        return None;
    }
    proof {
        tile_byte_has_its_place(grid, format, index, at as int);
        let size = pixels::pixel_size(format);
        below_product(y as int, x as int, grid.width as int, grid.height as int);
        assert(y * grid.width <= y * grid.width + x);
        assert((y * grid.width + x) * size <= (y * grid.width + x) * size + channel);
        assert(y * grid.width + x <= (y * grid.width + x) * size) by (nonlinear_arith)
            requires
                size >= 1,
                y * grid.width + x >= 0,
        ;
        assert(0 <= y * grid.width) by (nonlinear_arith);
    }
    let outer: usize = y as usize * grid.width as usize + x as usize;
    Some(outer * format.bytes_per_pixel() as usize + channel)
}

/// Copies a tile into the bytes of a bitmap.
pub fn place_tile(
    grid: TileGrid,
    format: PixelFormat,
    index: u32,
    tile: &[u8],
    bitmap: &mut Vec<u8>,
)
    requires
        grid_valid(grid),
        old(bitmap)@.len() == grid_bytes(grid, format),
        tile_size(format, tile_area(grid)) <= usize::MAX,
        origin_x(grid, index) <= u32::MAX,
        origin_y(grid, index) <= u32::MAX,
        tile_complete(grid, format, index, tile@.len() as int),
    ensures
        final(bitmap)@ == with_tile(grid, format, index, tile@, old(bitmap)@),
{
    assert(tile.len() == tile@.len());
    assert(bitmap.len() == bitmap@.len());
    let ghost before = bitmap@;
    let ghost size = tile_size(format, tile_area(grid));
    assert(tile_area(grid) >= 0) by (nonlinear_arith);
    let area: usize = grid.tile_width as usize * grid.tile_height as usize;
    let whole: usize = match format {
        PixelFormat::Rgba8 => 5 * area,
        PixelFormat::Gray8 => area,
        PixelFormat::GrayAlpha8 => 2 * area,
    };
    let end: usize = if tile.len() < whole {
        tile.len()
    } else {
        whole
    };
    let mut at: usize = 0;
    proof {
        assert forall|i: int| 0 <= i < before.len() implies (#[trigger] tile_place(
            grid,
            format,
            index,
            i,
        ) matches Some(place) ==> place >= 0) by {
            if tile_place(grid, format, index, i) is Some {
                covered_byte_has_its_place(grid, format, index, i);
            }
        }
    }
    while at < end
        invariant
            grid_valid(grid),
            bitmap@.len() == before.len(),
            before.len() == grid_bytes(grid, format),
            before.len() <= usize::MAX,
            size == tile_size(format, tile_area(grid)),
            size <= usize::MAX,
            origin_x(grid, index) <= u32::MAX,
            origin_y(grid, index) <= u32::MAX,
            at <= end <= size,
            end <= tile@.len(),
            forall|i: int|
                0 <= i < before.len() ==> #[trigger] bitmap@[i] == match tile_place(
                    grid,
                    format,
                    index,
                    i,
                ) {
                    Some(place) => if place < at {
                        tile@[place]
                    } else {
                        before[i]
                    },
                    None => before[i],
                },
        decreases end - at,
    {
        let ghost current = bitmap@;
        let place = find_place(grid, format, index, at);
        if let Some(place) = place {
            proof {
                tile_byte_has_its_place(grid, format, index, at as int);
            }
            bitmap.set(place, tile[at]);
        }
        proof {
            assert forall|i: int| 0 <= i < before.len() implies #[trigger] bitmap@[i]
                == match tile_place(grid, format, index, i) {
                Some(other) => if other < at + 1 {
                    tile@[other]
                } else {
                    before[i]
                },
                None => before[i],
            } by {
                assert(current[i] == match tile_place(grid, format, index, i) {
                    Some(other) => if other < at {
                        tile@[other]
                    } else {
                        before[i]
                    },
                    None => before[i],
                });
                if tile_place(grid, format, index, i) == Some(at as int) {
                    covered_byte_has_its_place(grid, format, index, i);
                }
            }
        }
        at = at + 1;
    }
    proof {
        let after = with_tile(grid, format, index, tile@, before);
        assert forall|i: int| 0 <= i < before.len() implies #[trigger] bitmap@[i] == after[i] by {
            if tile_place(grid, format, index, i) is Some {
                covered_byte_has_its_place(grid, format, index, i);
                complete_tile_holds(grid, format, index, tile@.len() as int, i);
            }
        }
        assert(bitmap@ =~= after);
    }
}

/// Copies the part of a bitmap that a tile covers into the bytes of the tile.
pub fn fill_tile(
    grid: TileGrid,
    format: PixelFormat,
    index: u32,
    bitmap: &[u8],
    tile: &mut Vec<u8>,
)
    requires
        grid_valid(grid),
        bitmap@.len() == grid_bytes(grid, format),
        old(tile)@.len() == tile_size(format, tile_area(grid)),
        origin_x(grid, index) <= u32::MAX,
        origin_y(grid, index) <= u32::MAX,
    ensures
        final(tile)@ == tile_with(grid, format, index, bitmap@, old(tile)@),
{
    assert(bitmap.len() == bitmap@.len());
    let ghost before = tile@;
    let ghost after = tile_with(grid, format, index, bitmap@, before);
    let mut at: usize = 0;
    while at < tile.len()
        invariant
            grid_valid(grid),
            bitmap@.len() == grid_bytes(grid, format),
            bitmap@.len() <= usize::MAX,
            tile@.len() == before.len(),
            before.len() == tile_size(format, tile_area(grid)),
            origin_x(grid, index) <= u32::MAX,
            origin_y(grid, index) <= u32::MAX,
            after == tile_with(grid, format, index, bitmap@, before),
            at <= tile@.len(),
            forall|i: int| 0 <= i < at ==> #[trigger] tile@[i] == after[i],
            forall|i: int| at <= i < before.len() ==> #[trigger] tile@[i] == before[i],
        decreases tile@.len() - at,
    {
        if let Some(place) = find_place(grid, format, index, at) {
            tile.set(at, bitmap[place]);
        }
        assert(tile@[at as int] == after[at as int]);
        at = at + 1;
    }
    assert(tile@ =~= after);
}

} // verus!
