//! What operations on pixels do to their channels, and how pixels stand in a bitmap.

use vstd::prelude::*;

use crate::layout;
use crate::layout::laid_out;
use crate::pictures;
use crate::pictures::PictureLayout;
use crate::pixels;
use crate::pixels::{Gray8Pixel, GrayAlpha8Pixel, PixelFormat, Rgba8Pixel};

verus! {

/// The lesser of two numbers.
pub open spec fn at_most(value: int, bound: int) -> int {
    if value < bound {
        value
    } else {
        bound
    }
}

/// The greater of two numbers.
pub open spec fn at_least(value: int, bound: int) -> int {
    if value > bound {
        value
    } else {
        bound
    }
}

/// Inverting a color pixel gives channels that add up to the full value with those before.
/// Raising and lowering change red, green and blue by the value. The checked forms do so only if
/// no channel leaves its range, and the others stop at the ends of the range. Alpha stays.
pub proof fn rgba8_operations_change_colors(pixel: Rgba8Pixel, value: u8)
    ensures
        pixel.inverted().r + pixel.r == 255,
        pixel.inverted().g + pixel.g == 255,
        pixel.inverted().b + pixel.b == 255,
        pixel.inverted().a == pixel.a,
        pixel.raised(value) is Some <==> pixel.r + value <= 255 && pixel.g + value <= 255 && pixel.b
            + value <= 255,
        pixel.raised(value) matches Some(next) ==> next.r == pixel.r + value && next.g == pixel.g
            + value && next.b == pixel.b + value && next.a == pixel.a,
        pixel.lowered(value) is Some <==> pixel.r >= value && pixel.g >= value && pixel.b >= value,
        pixel.lowered(value) matches Some(next) ==> next.r + value == pixel.r && next.g + value
            == pixel.g && next.b + value == pixel.b && next.a == pixel.a,
        pixel.raised_or_full(value).r == at_most(pixel.r + value, 255),
        pixel.raised_or_full(value).g == at_most(pixel.g + value, 255),
        pixel.raised_or_full(value).b == at_most(pixel.b + value, 255),
        pixel.raised_or_full(value).a == pixel.a,
        pixel.lowered_or_empty(value).r == at_least(pixel.r - value, 0),
        pixel.lowered_or_empty(value).g == at_least(pixel.g - value, 0),
        pixel.lowered_or_empty(value).b == at_least(pixel.b - value, 0),
        pixel.lowered_or_empty(value).a == pixel.a,
{
}

/// Inverting a gray pixel gives a value that adds up to the full value with the one before.
/// Raising and lowering change it by the value. The checked forms do so only if it stays in its
/// range, and the others stop at the ends of the range.
pub proof fn gray8_operations_change_the_value(pixel: Gray8Pixel, value: u8)
    ensures
        pixel.inverted().value + pixel.value == 255,
        pixel.raised(value) is Some <==> pixel.value + value <= 255,
        pixel.raised(value) matches Some(next) ==> next.value == pixel.value + value,
        pixel.lowered(value) is Some <==> pixel.value >= value,
        pixel.lowered(value) matches Some(next) ==> next.value + value == pixel.value,
        pixel.raised_or_full(value).value == at_most(pixel.value + value, 255),
        pixel.lowered_or_empty(value).value == at_least(pixel.value - value, 0),
{
}

/// The operations on a gray pixel with alpha change its value as those on one without alpha do.
/// Alpha stays.
pub proof fn gray_alpha8_operations_change_the_value(pixel: GrayAlpha8Pixel, value: u8)
    ensures
        pixel.inverted().value + pixel.value == 255,
        pixel.inverted().alpha == pixel.alpha,
        pixel.raised(value) is Some <==> pixel.value + value <= 255,
        pixel.raised(value) matches Some(next) ==> next.value == pixel.value + value && next.alpha
            == pixel.alpha,
        pixel.lowered(value) is Some <==> pixel.value >= value,
        pixel.lowered(value) matches Some(next) ==> next.value + value == pixel.value && next.alpha
            == pixel.alpha,
        pixel.raised_or_full(value).value == at_most(pixel.value + value, 255),
        pixel.raised_or_full(value).alpha == pixel.alpha,
        pixel.lowered_or_empty(value).value == at_least(pixel.value - value, 0),
        pixel.lowered_or_empty(value).alpha == pixel.alpha,
{
}

/// A bitmap of color pixels, written pixel by pixel as red, green, blue and alpha, reads back.
pub proof fn rgba8_bitmap_reads_back(written: Seq<Rgba8Pixel>)
    ensures
        ({
            let bytes = laid_out(
                Seq::new(
                    written.len(),
                    |i: int| seq![written[i].r, written[i].g, written[i].b, written[i].a],
                ),
            );
            &&& bytes.len() == written.len() * pixels::pixel_size(PixelFormat::Rgba8)
            &&& pixels::rgba8_of(bytes) == written
            &&& forall|i: int|
                0 <= i < written.len() ==> pixels::rgba8_bytes(#[trigger] written[i])
                    == bytes.subrange(4 * i, 4 * i + 4)
        }),
{
    let parts = Seq::new(
        written.len(),
        |i: int| seq![written[i].r, written[i].g, written[i].b, written[i].a],
    );
    layout::equal_parts(parts, 4);
    let bytes = laid_out(parts);
    assert forall|i: int| 0 <= i < written.len() implies pixels::rgba8_bytes(
        #[trigger] written[i],
    ) == bytes.subrange(4 * i, 4 * i + 4) && pixels::rgba8_at(bytes, i) == written[i] by {
        assert(layout::holds(bytes, 4 * i, parts[i]));
        layout::held_part(bytes, 4 * i, parts[i]);
        assert(bytes[4 * i] == parts[i][0]);
        assert(bytes[4 * i + 1] == parts[i][1]);
        assert(bytes[4 * i + 2] == parts[i][2]);
        assert(bytes[4 * i + 3] == parts[i][3]);
    }
    assert(pixels::rgba8_of(bytes) =~= written);
}

/// A bitmap of gray pixels, written pixel by pixel, reads back.
pub proof fn gray8_bitmap_reads_back(written: Seq<Gray8Pixel>)
    ensures
        ({
            let bytes = Seq::new(written.len(), |i: int| written[i].value);
            &&& bytes.len() == written.len() * pixels::pixel_size(PixelFormat::Gray8)
            &&& pixels::gray8_of(bytes) == written
            &&& forall|i: int|
                0 <= i < written.len() ==> pixels::gray8_bytes(#[trigger] written[i])
                    == bytes.subrange(i, i + 1)
        }),
{
    let bytes = Seq::new(written.len(), |i: int| written[i].value);
    assert(pixels::gray8_of(bytes) =~= written);
    assert forall|i: int| 0 <= i < written.len() implies pixels::gray8_bytes(
        #[trigger] written[i],
    ) == bytes.subrange(i, i + 1) by {
        assert(pixels::gray8_bytes(written[i]) =~= bytes.subrange(i, i + 1));
    }
}

/// A bitmap of gray pixels with alpha, written pixel by pixel as value and alpha, reads back.
pub proof fn gray_alpha8_bitmap_reads_back(written: Seq<GrayAlpha8Pixel>)
    ensures
        ({
            let bytes = laid_out(
                Seq::new(written.len(), |i: int| seq![written[i].value, written[i].alpha]),
            );
            &&& bytes.len() == written.len() * pixels::pixel_size(PixelFormat::GrayAlpha8)
            &&& pixels::gray_alpha8_of(bytes) == written
            &&& forall|i: int|
                0 <= i < written.len() ==> pixels::gray_alpha8_bytes(#[trigger] written[i])
                    == bytes.subrange(2 * i, 2 * i + 2)
        }),
{
    let parts = Seq::new(written.len(), |i: int| seq![written[i].value, written[i].alpha]);
    layout::equal_parts(parts, 2);
    let bytes = laid_out(parts);
    assert forall|i: int| 0 <= i < written.len() implies pixels::gray_alpha8_bytes(
        #[trigger] written[i],
    ) == bytes.subrange(2 * i, 2 * i + 2) && pixels::gray_alpha8_at(bytes, i) == written[i] by {
        assert(layout::holds(bytes, 2 * i, parts[i]));
        layout::held_part(bytes, 2 * i, parts[i]);
        assert(bytes[2 * i] == parts[i][0]);
        assert(bytes[2 * i + 1] == parts[i][1]);
    }
    assert(pixels::gray_alpha8_of(bytes) =~= written);
}

/// A picture without alpha becomes a bitmap of its colors, pixel by pixel, which are opaque. A
/// picture of the other kinds becomes a bitmap of the same channels and bytes.
pub proof fn pictures_keep_their_pixels(width: u32, height: u32, data: Seq<u8>)
    requires
        width > 0,
        height > 0,
        4 * width * height <= u64::MAX,
    ensures
        ({
            let count = (width * height) as int;
            let opaque = pictures::raster_from(PictureLayout::Rgb8, width, height, data);
            let color = pictures::raster_from(PictureLayout::Rgba8, width, height, data);
            let gray = pictures::raster_from(PictureLayout::Luma8, width, height, data);
            let both = pictures::raster_from(PictureLayout::LumaAlpha8, width, height, data);
            &&& data.len() == 3 * count ==> opaque is Ok && opaque->Ok_0.format
                == PixelFormat::Rgba8 && pixels::rgba8_of(opaque->Ok_0.pixels).len() == count
            &&& data.len() == 3 * count ==> forall|i: int|
                0 <= i < count ==> {
                    let pixel = #[trigger] pixels::rgba8_of(opaque->Ok_0.pixels)[i];
                    &&& pixel.r == data[3 * i]
                    &&& pixel.g == data[3 * i + 1]
                    &&& pixel.b == data[3 * i + 2]
                    &&& pixel.a == 255
                }
            &&& color is Ok <==> data.len() == 4 * count
            &&& color matches Ok(image) ==> image.format == PixelFormat::Rgba8 && image.pixels
                == data && image.width == width && image.height == height
            &&& gray is Ok <==> data.len() == count
            &&& gray matches Ok(image) ==> image.format == PixelFormat::Gray8 && image.pixels
                == data && image.width == width && image.height == height
            &&& both is Ok <==> data.len() == 2 * count
            &&& both matches Ok(image) ==> image.format == PixelFormat::GrayAlpha8 && image.pixels
                == data && image.width == width && image.height == height
        }),
{
    let count = (width * height) as int;
    assert(0 < count) by (nonlinear_arith)
        requires
            count == width * height,
            0 < width,
            0 < height,
    ;
    assert(4 * width * height == 4 * count) by (nonlinear_arith)
        requires
            count == width * height,
    ;
    assert(width * height * 4 == 4 * count);
    let bytes = pictures::with_opaque_alpha(data, count as nat);
    assert forall|i: int| 0 <= i < count implies {
        let pixel = #[trigger] pixels::rgba8_of(bytes)[i];
        &&& pixel.r == data[3 * i]
        &&& pixel.g == data[3 * i + 1]
        &&& pixel.b == data[3 * i + 2]
        &&& pixel.a == 255
    } by {
        assert((4 * i) / 4 == i && (4 * i) % 4 == 0);
        assert((4 * i + 1) / 4 == i && (4 * i + 1) % 4 == 1);
        assert((4 * i + 2) / 4 == i && (4 * i + 2) % 4 == 2);
        assert((4 * i + 3) % 4 == 3);
    }
}

} // verus!
