//! Bitmaps as pictures of the `image` crate, and back.

use image::{DynamicImage, GrayAlphaImage, GrayImage, RgbaImage};
use vstd::prelude::*;

use crate::bitmap;
use crate::bitmap::RasterImage;
use crate::error;
use crate::error::{Error, Failure};
use crate::message::Message;
use crate::pixels::PixelFormat;

verus! {

/// `image::DynamicImage`, a picture in one of several layouts.
#[verifier::external_type_specification]
#[verifier::external_body]
pub struct ExDynamicImage(DynamicImage);

/// The layouts of pictures that bitmaps can be made of.
#[derive(Clone, Copy, Debug, Eq, PartialEq, Structural)]
pub enum PictureLayout {
    /// Interleaved red, green, blue, alpha bytes.
    Rgba8,
    /// Interleaved red, green, blue bytes.
    Rgb8,
    /// One grayscale byte.
    Luma8,
    /// Interleaved grayscale and alpha bytes.
    LumaAlpha8,
    /// Any layout that is not made of bytes.
    Other,
}

/// The layout of a picture.
pub uninterp spec fn picture_layout(picture: DynamicImage) -> PictureLayout;

/// The width of a picture in pixels.
pub uninterp spec fn picture_width(picture: DynamicImage) -> u32;

/// The height of a picture in pixels.
pub uninterp spec fn picture_height(picture: DynamicImage) -> u32;

/// The bytes of a picture, row by row.
pub uninterp spec fn picture_bytes(picture: DynamicImage) -> Seq<u8>;

/// Calls `image::DynamicImage::color`, which says which variant the picture is. The
/// contract names the variant.
#[verifier::external_body]
fn layout_of(picture: &DynamicImage) -> (layout: PictureLayout)
    ensures
        layout == picture_layout(*picture),
{
    match picture.color() {
        image::ColorType::Rgba8 => PictureLayout::Rgba8,
        image::ColorType::Rgb8 => PictureLayout::Rgb8,
        image::ColorType::L8 => PictureLayout::Luma8,
        image::ColorType::La8 => PictureLayout::LumaAlpha8,
        _ => PictureLayout::Other,
    }
}

/// Calls `image::DynamicImage::width`. The contract names what it returns.
#[verifier::external_body]
fn width_of(picture: &DynamicImage) -> (width: u32)
    ensures
        width == picture_width(*picture),
{
    picture.width()
}

/// Calls `image::DynamicImage::height`. The contract names what it returns.
#[verifier::external_body]
fn height_of(picture: &DynamicImage) -> (height: u32)
    ensures
        height == picture_height(*picture),
{
    picture.height()
}

/// Calls `image::DynamicImage::into_bytes`, which gives the buffer of the picture away. The
/// contract names the buffer, of layouts that are made of bytes.
#[verifier::external_body]
fn into_bytes(picture: DynamicImage) -> (data: Vec<u8>)
    requires
        picture_layout(picture) != PictureLayout::Other,
    ensures
        data@ == picture_bytes(picture),
{
    picture.into_bytes()
}

/// The pixels of red, green, and blue bytes, with opaque alpha.
pub open spec fn with_opaque_alpha(data: Seq<u8>, count: nat) -> Seq<u8> {
    Seq::new(
        4 * count,
        |i: int|
            if i % 4 == 3 {
                255u8
            } else {
                data[3 * (i / 4) + i % 4]
            },
    )
}

/// Calls `image::DynamicImage::into_rgba8`, and takes the buffer of what it returns. The
/// contract says that the pixels of an RGB picture keep their three channels and get
/// opaque alpha.
#[verifier::external_body]
fn into_opaque_rgba(picture: DynamicImage) -> (data: Vec<u8>)
    requires
        picture_layout(picture) == PictureLayout::Rgb8,
    ensures
        data@ == with_opaque_alpha(
            picture_bytes(picture),
            (picture_width(picture) * picture_height(picture)) as nat,
        ),
{
    picture.into_rgba8().into_raw()
}

/// Whether a picture has this layout, this size, and these bytes.
pub open spec fn picture_is(
    picture: DynamicImage,
    layout: PictureLayout,
    width: u32,
    height: u32,
    data: Seq<u8>,
) -> bool {
    &&& picture_layout(picture) == layout
    &&& picture_width(picture) == width
    &&& picture_height(picture) == height
    &&& picture_bytes(picture) == data
}

/// Calls `image::ImageBuffer::from_raw` for RGBA bytes. The contract says that bytes for
/// every channel of every pixel make a picture that holds them.
#[verifier::external_body]
fn rgba_picture(width: u32, height: u32, data: Vec<u8>) -> (picture: Option<DynamicImage>)
    ensures
        data@.len() >= width * height * 4 ==> picture is Some,
        data@.len() < width * height * 4 ==> picture is None,
        picture matches Some(picture) ==> picture_is(
            picture,
            PictureLayout::Rgba8,
            width,
            height,
            data@,
        ),
{
    RgbaImage::from_raw(width, height, data).map(DynamicImage::ImageRgba8)
}

/// Calls `image::ImageBuffer::from_raw` for grayscale bytes. The contract says that a byte
/// for every pixel makes a picture that holds them.
#[verifier::external_body]
fn gray_picture(width: u32, height: u32, data: Vec<u8>) -> (picture: Option<DynamicImage>)
    ensures
        data@.len() >= width * height ==> picture is Some,
        data@.len() < width * height ==> picture is None,
        picture matches Some(picture) ==> picture_is(
            picture,
            PictureLayout::Luma8,
            width,
            height,
            data@,
        ),
{
    GrayImage::from_raw(width, height, data).map(DynamicImage::ImageLuma8)
}

/// Calls `image::ImageBuffer::from_raw` for grayscale and alpha bytes. The contract says
/// that two bytes for every pixel make a picture that holds them.
#[verifier::external_body]
fn gray_alpha_picture(width: u32, height: u32, data: Vec<u8>) -> (picture: Option<DynamicImage>)
    ensures
        data@.len() >= width * height * 2 ==> picture is Some,
        data@.len() < width * height * 2 ==> picture is None,
        picture matches Some(picture) ==> picture_is(
            picture,
            PictureLayout::LumaAlpha8,
            width,
            height,
            data@,
        ),
{
    GrayAlphaImage::from_raw(width, height, data).map(DynamicImage::ImageLumaA8)
}

/// The layout of the picture of a bitmap.
pub open spec fn layout_for(format: PixelFormat) -> PictureLayout {
    match format {
        PixelFormat::Rgba8 => PictureLayout::Rgba8,
        PixelFormat::Gray8 => PictureLayout::Luma8,
        PixelFormat::GrayAlpha8 => PictureLayout::LumaAlpha8,
    }
}

/// The bitmap that a picture with these properties makes.
pub open spec fn raster_from(
    layout: PictureLayout,
    width: u32,
    height: u32,
    data: Seq<u8>,
) -> Result<
    bitmap::RasterModel,
    Failure,
> {
    match layout {
        PictureLayout::Rgba8 => bitmap::raster_of(width, height, PixelFormat::Rgba8, data),
        PictureLayout::Rgb8 => bitmap::raster_of(
            width,
            height,
            PixelFormat::Rgba8,
            with_opaque_alpha(data, (width * height) as nat),
        ),
        PictureLayout::Luma8 => bitmap::raster_of(width, height, PixelFormat::Gray8, data),
        PictureLayout::LumaAlpha8 => bitmap::raster_of(
            width,
            height,
            PixelFormat::GrayAlpha8,
            data,
        ),
        PictureLayout::Other => Err(
            Failure::UnsupportedRaster {
                reason: "image-rs conversion supports only 8-bit RGB(A), grayscale, and grayscale-alpha images"@,
            },
        ),
    }
}

/// The picture of a bitmap makes the bitmap again, but for where its pixels came from.
pub proof fn converted_raster_comes_back(raster: bitmap::RasterModel)
    requires
        bitmap::raster_whole(raster),
        raster.width > 0,
        raster.height > 0,
        raster.pixels.len() <= u64::MAX,
    ensures
        raster_from(layout_for(raster.format), raster.width, raster.height, raster.pixels) == Ok::<
            bitmap::RasterModel,
            Failure,
        >(
            bitmap::RasterModel {
                width: raster.width,
                height: raster.height,
                format: raster.format,
                state: bitmap::RasterDataState::Constructed,
                pixels: raster.pixels,
            },
        ),
{
}

impl RasterImage {
    /// Converts this raster to an image-rs dynamic image without copying pixels.
    ///
    /// CLIP-specific metadata such as [`Self::data_state`] is not represented by
    /// [`image::DynamicImage`], so inspect it before consuming this value when
    /// it matters to the caller.
    #[must_use]
    pub fn into_dynamic_image(self) -> (picture: DynamicImage)
        requires
            bitmap::raster_whole(self@),
        ensures
            picture_is(
                picture,
                layout_for(self@.format),
                self@.width,
                self@.height,
                self@.pixels,
            ),
    {
        let picture = match self.format {
            PixelFormat::Rgba8 => rgba_picture(self.width, self.height, self.pixels),
            PixelFormat::Gray8 => gray_picture(self.width, self.height, self.pixels),
            PixelFormat::GrayAlpha8 => gray_alpha_picture(self.width, self.height, self.pixels),
        };
        picture.unwrap()
    }

    /// Converts a supported image-rs dynamic image into a semantic raster.
    ///
    /// Eight-bit RGBA, grayscale, and grayscale-alpha buffers are moved
    /// without copying. Eight-bit RGB is expanded with opaque alpha. Higher
    /// bit depths and floating-point variants are rejected rather than
    /// silently quantized.
    pub fn try_from_dynamic_image(image: DynamicImage) -> (raster: Result<RasterImage, Error>)
        ensures
            error::outcome(raster) == raster_from(
                picture_layout(image),
                picture_width(image),
                picture_height(image),
                picture_bytes(image),
            ),
    {
        let width: u32 = width_of(&image);
        let height: u32 = height_of(&image);
        match layout_of(&image) {
            PictureLayout::Rgba8 => RasterImage::from_pixels(
                width,
                height,
                PixelFormat::Rgba8,
                into_bytes(image),
            ),
            PictureLayout::Rgb8 => RasterImage::from_pixels(
                width,
                height,
                PixelFormat::Rgba8,
                into_opaque_rgba(image),
            ),
            PictureLayout::Luma8 => RasterImage::from_pixels(
                width,
                height,
                PixelFormat::Gray8,
                into_bytes(image),
            ),
            PictureLayout::LumaAlpha8 => RasterImage::from_pixels(
                width,
                height,
                PixelFormat::GrayAlpha8,
                into_bytes(image),
            ),
            PictureLayout::Other => Err(
                Error::UnsupportedRaster {
                    reason: Message::new(
                        "image-rs conversion supports only 8-bit RGB(A), grayscale, and grayscale-alpha images",
                    ).build(),
                },
            ),
        }
    }
}

} // verus!
