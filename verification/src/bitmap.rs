//! Bitmaps, and walks over their pixels whatever their format.

use vstd::prelude::*;

use crate::error;
use crate::error::{Error, Failure};
use crate::message;
use crate::message::Message;
use crate::pixels;
use crate::pixels::{
    Gray8Pixel, Gray8PixelMut, Gray8Pixels, Gray8PixelsMut, GrayAlpha8Pixel, GrayAlpha8PixelMut,
    GrayAlpha8Pixels, GrayAlpha8PixelsMut, PixelFormat, Rgba8Pixel, Rgba8PixelMut, Rgba8Pixels,
    Rgba8PixelsMut,
};

verus! {

/// One typed raster pixel from a format-independent walk.
#[derive(Clone, Copy, Debug, Eq, PartialEq, Structural)]
#[non_exhaustive]
pub enum RasterPixel {
    /// RGBA8 pixel.
    Rgba8(Rgba8Pixel),
    /// Single-channel Gray8 pixel.
    Gray8(Gray8Pixel),
    /// GrayAlpha8 pixel.
    GrayAlpha8(GrayAlpha8Pixel),
}

impl RasterPixel {
    /// The format that a pixel has.
    pub open spec fn format_of(self) -> PixelFormat {
        match self {
            RasterPixel::Rgba8(_) => PixelFormat::Rgba8,
            RasterPixel::Gray8(_) => PixelFormat::Gray8,
            RasterPixel::GrayAlpha8(_) => PixelFormat::GrayAlpha8,
        }
    }

    /// The pixel with its color mirrored.
    pub open spec fn inverted(self) -> RasterPixel {
        match self {
            RasterPixel::Rgba8(pixel) => RasterPixel::Rgba8(pixel.inverted()),
            RasterPixel::Gray8(pixel) => RasterPixel::Gray8(pixel.inverted()),
            RasterPixel::GrayAlpha8(pixel) => RasterPixel::GrayAlpha8(pixel.inverted()),
        }
    }

    /// The pixel with a value added to its color.
    pub open spec fn raised(self, value: u8) -> Option<RasterPixel> {
        match self {
            RasterPixel::Rgba8(pixel) => match pixel.raised(value) {
                Some(pixel) => Some(RasterPixel::Rgba8(pixel)),
                None => None,
            },
            RasterPixel::Gray8(pixel) => match pixel.raised(value) {
                Some(pixel) => Some(RasterPixel::Gray8(pixel)),
                None => None,
            },
            RasterPixel::GrayAlpha8(pixel) => match pixel.raised(value) {
                Some(pixel) => Some(RasterPixel::GrayAlpha8(pixel)),
                None => None,
            },
        }
    }

    /// The pixel with a value subtracted from its color.
    pub open spec fn lowered(self, value: u8) -> Option<RasterPixel> {
        match self {
            RasterPixel::Rgba8(pixel) => match pixel.lowered(value) {
                Some(pixel) => Some(RasterPixel::Rgba8(pixel)),
                None => None,
            },
            RasterPixel::Gray8(pixel) => match pixel.lowered(value) {
                Some(pixel) => Some(RasterPixel::Gray8(pixel)),
                None => None,
            },
            RasterPixel::GrayAlpha8(pixel) => match pixel.lowered(value) {
                Some(pixel) => Some(RasterPixel::GrayAlpha8(pixel)),
                None => None,
            },
        }
    }

    /// The pixel with a value added to its color, clamped.
    pub open spec fn raised_or_full(self, value: u8) -> RasterPixel {
        match self {
            RasterPixel::Rgba8(pixel) => RasterPixel::Rgba8(pixel.raised_or_full(value)),
            RasterPixel::Gray8(pixel) => RasterPixel::Gray8(pixel.raised_or_full(value)),
            RasterPixel::GrayAlpha8(pixel) => RasterPixel::GrayAlpha8(pixel.raised_or_full(value)),
        }
    }

    /// The pixel with a value subtracted from its color, clamped.
    pub open spec fn lowered_or_empty(self, value: u8) -> RasterPixel {
        match self {
            RasterPixel::Rgba8(pixel) => RasterPixel::Rgba8(pixel.lowered_or_empty(value)),
            RasterPixel::Gray8(pixel) => RasterPixel::Gray8(pixel.lowered_or_empty(value)),
            RasterPixel::GrayAlpha8(pixel) => RasterPixel::GrayAlpha8(
                pixel.lowered_or_empty(value),
            ),
        }
    }

    /// The bytes that hold the pixel.
    pub open spec fn bytes(self) -> Seq<u8> {
        match self {
            RasterPixel::Rgba8(pixel) => pixels::rgba8_bytes(pixel),
            RasterPixel::Gray8(pixel) => pixels::gray8_bytes(pixel),
            RasterPixel::GrayAlpha8(pixel) => pixels::gray_alpha8_bytes(pixel),
        }
    }

    /// Pixel format represented by this value.
    #[must_use]
    pub fn format(self) -> (format: PixelFormat)
        ensures
            format == self.format_of(),
    {
        match self {
            RasterPixel::Rgba8(_) => PixelFormat::Rgba8,
            RasterPixel::Gray8(_) => PixelFormat::Gray8,
            RasterPixel::GrayAlpha8(_) => PixelFormat::GrayAlpha8,
        }
    }
}

/// The pixel of a format at a position among row-major bytes.
pub open spec fn pixel_at(format: PixelFormat, bytes: Seq<u8>, i: int) -> RasterPixel {
    match format {
        PixelFormat::Rgba8 => RasterPixel::Rgba8(pixels::rgba8_at(bytes, i)),
        PixelFormat::Gray8 => RasterPixel::Gray8(pixels::gray8_at(bytes, i)),
        PixelFormat::GrayAlpha8 => RasterPixel::GrayAlpha8(pixels::gray_alpha8_at(bytes, i)),
    }
}

/// How many whole pixels of a format a number of bytes hold.
pub open spec fn pixel_count(format: PixelFormat, length: nat) -> nat {
    match format {
        PixelFormat::Rgba8 => length / 4,
        PixelFormat::Gray8 => length,
        PixelFormat::GrayAlpha8 => length / 2,
    }
}

/// The pixels of a format that row-major bytes hold.
pub open spec fn pixels_of(format: PixelFormat, bytes: Seq<u8>) -> Seq<RasterPixel> {
    Seq::new(pixel_count(format, bytes.len()), |i: int| pixel_at(format, bytes, i))
}

/// One pixel in place from a format-independent walk.
#[derive(Debug)]
#[non_exhaustive]
pub enum RasterPixelMut<'a> {
    /// RGBA8 pixel.
    Rgba8(Rgba8PixelMut<'a>),
    /// Single-channel Gray8 pixel.
    Gray8(Gray8PixelMut<'a>),
    /// GrayAlpha8 pixel.
    GrayAlpha8(GrayAlpha8PixelMut<'a>),
}

impl<'a> RasterPixelMut<'a> {
    /// The bytes of the pixel.
    pub open spec fn now(self) -> Seq<u8> {
        match self {
            RasterPixelMut::Rgba8(pixel) => pixel.bytes@,
            RasterPixelMut::Gray8(pixel) => pixel.bytes@,
            RasterPixelMut::GrayAlpha8(pixel) => pixel.bytes@,
        }
    }

    /// The format that the pixel has.
    pub open spec fn format_of(self) -> PixelFormat {
        match self {
            RasterPixelMut::Rgba8(_) => PixelFormat::Rgba8,
            RasterPixelMut::Gray8(_) => PixelFormat::Gray8,
            RasterPixelMut::GrayAlpha8(_) => PixelFormat::GrayAlpha8,
        }
    }

    /// Whether the bytes make one pixel.
    pub open spec fn whole(self) -> bool {
        self.now().len() == pixels::pixel_size(self.format_of())
    }

    /// The pixel as it stands.
    pub open spec fn pixel(self) -> RasterPixel {
        pixel_at(self.format_of(), self.now(), 0)
    }

    /// Pixel format represented by this proxy.
    #[must_use]
    pub fn format(&self) -> (format: PixelFormat)
        ensures
            format == self.format_of(),
    {
        match self {
            RasterPixelMut::Rgba8(_) => PixelFormat::Rgba8,
            RasterPixelMut::Gray8(_) => PixelFormat::Gray8,
            RasterPixelMut::GrayAlpha8(_) => PixelFormat::GrayAlpha8,
        }
    }

    /// The pixel as it stands.
    #[must_use]
    pub fn get(&self) -> (pixel: RasterPixel)
        requires
            self.whole(),
        ensures
            pixel == self.pixel(),
    {
        match self {
            RasterPixelMut::Rgba8(pixel) => RasterPixel::Rgba8(pixel.get()),
            RasterPixelMut::Gray8(pixel) => RasterPixel::Gray8(pixel.get()),
            RasterPixelMut::GrayAlpha8(pixel) => RasterPixel::GrayAlpha8(pixel.get()),
        }
    }

    /// Inverts color/value channels while preserving independent alpha.
    pub fn invert(&mut self)
        requires
            old(self).whole(),
        ensures
            final(self).format_of() == old(self).format_of(),
            final(self).whole(),
            final(self).now() == old(self).pixel().inverted().bytes(),
            match (*old(self), *final(self)) {
                (RasterPixelMut::Rgba8(before), RasterPixelMut::Rgba8(after)) =>
                    final(after.bytes)@ == final(before.bytes)@,
                (RasterPixelMut::Gray8(before), RasterPixelMut::Gray8(after)) =>
                    final(after.bytes)@ == final(before.bytes)@,
                (RasterPixelMut::GrayAlpha8(before), RasterPixelMut::GrayAlpha8(after)) =>
                    final(after.bytes)@ == final(before.bytes)@,
                _ => false,
            },
    {
        match self {
            RasterPixelMut::Rgba8(pixel) => pixel.invert(),
            RasterPixelMut::Gray8(pixel) => pixel.invert(),
            RasterPixelMut::GrayAlpha8(pixel) => pixel.invert(),
        }
    }

    /// Adds to color/value channels if every result is representable.
    ///
    /// Returns `false` and leaves the pixel unchanged if any channel would
    /// overflow. Independent alpha is always preserved.
    pub fn checked_add_assign(&mut self, value: u8) -> (done: bool)
        requires
            old(self).whole(),
        ensures
            final(self).format_of() == old(self).format_of(),
            final(self).whole(),
            match (*old(self), *final(self)) {
                (RasterPixelMut::Rgba8(before), RasterPixelMut::Rgba8(after)) =>
                    final(after.bytes)@ == final(before.bytes)@,
                (RasterPixelMut::Gray8(before), RasterPixelMut::Gray8(after)) =>
                    final(after.bytes)@ == final(before.bytes)@,
                (RasterPixelMut::GrayAlpha8(before), RasterPixelMut::GrayAlpha8(after)) =>
                    final(after.bytes)@ == final(before.bytes)@,
                _ => false,
            },
            match old(self).pixel().raised(value) {
                Some(pixel) => done && final(self).now() == pixel.bytes(),
                None => !done && final(self).now() == old(self).now(),
            },
    {
        match self {
            RasterPixelMut::Rgba8(pixel) => match pixel.get().checked_add_rgb(value) {
                Some(next) => pixel.set(next),
                None => return false,
            },
            RasterPixelMut::Gray8(pixel) => match pixel.get().checked_add(value) {
                Some(next) => pixel.set(next),
                None => return false,
            },
            RasterPixelMut::GrayAlpha8(pixel) => match pixel.get().checked_add_value(value) {
                Some(next) => pixel.set(next),
                None => return false,
            },
        }
        true
    }

    /// Subtracts from color/value channels if every result is representable.
    ///
    /// Returns `false` and leaves the pixel unchanged if any channel would
    /// underflow. Independent alpha is always preserved.
    pub fn checked_sub_assign(&mut self, value: u8) -> (done: bool)
        requires
            old(self).whole(),
        ensures
            final(self).format_of() == old(self).format_of(),
            final(self).whole(),
            match (*old(self), *final(self)) {
                (RasterPixelMut::Rgba8(before), RasterPixelMut::Rgba8(after)) =>
                    final(after.bytes)@ == final(before.bytes)@,
                (RasterPixelMut::Gray8(before), RasterPixelMut::Gray8(after)) =>
                    final(after.bytes)@ == final(before.bytes)@,
                (RasterPixelMut::GrayAlpha8(before), RasterPixelMut::GrayAlpha8(after)) =>
                    final(after.bytes)@ == final(before.bytes)@,
                _ => false,
            },
            match old(self).pixel().lowered(value) {
                Some(pixel) => done && final(self).now() == pixel.bytes(),
                None => !done && final(self).now() == old(self).now(),
            },
    {
        match self {
            RasterPixelMut::Rgba8(pixel) => match pixel.get().checked_sub_rgb(value) {
                Some(next) => pixel.set(next),
                None => return false,
            },
            RasterPixelMut::Gray8(pixel) => match pixel.get().checked_sub(value) {
                Some(next) => pixel.set(next),
                None => return false,
            },
            RasterPixelMut::GrayAlpha8(pixel) => match pixel.get().checked_sub_value(value) {
                Some(next) => pixel.set(next),
                None => return false,
            },
        }
        true
    }

    /// Adds to color/value channels and clamps every result to its range.
    ///
    /// Independent alpha is preserved.
    pub fn saturating_add_assign(&mut self, value: u8)
        requires
            old(self).whole(),
        ensures
            final(self).format_of() == old(self).format_of(),
            final(self).whole(),
            final(self).now() == old(self).pixel().raised_or_full(value).bytes(),
            match (*old(self), *final(self)) {
                (RasterPixelMut::Rgba8(before), RasterPixelMut::Rgba8(after)) =>
                    final(after.bytes)@ == final(before.bytes)@,
                (RasterPixelMut::Gray8(before), RasterPixelMut::Gray8(after)) =>
                    final(after.bytes)@ == final(before.bytes)@,
                (RasterPixelMut::GrayAlpha8(before), RasterPixelMut::GrayAlpha8(after)) =>
                    final(after.bytes)@ == final(before.bytes)@,
                _ => false,
            },
    {
        match self {
            RasterPixelMut::Rgba8(pixel) => {
                let next = pixel.get().saturating_add_rgb(value);
                pixel.set(next);
            },
            RasterPixelMut::Gray8(pixel) => {
                let next = pixel.get().saturating_add(value);
                pixel.set(next);
            },
            RasterPixelMut::GrayAlpha8(pixel) => {
                let next = pixel.get().saturating_add_value(value);
                pixel.set(next);
            },
        }
    }

    /// Subtracts from color/value channels and clamps every result to its range.
    ///
    /// Independent alpha is preserved.
    pub fn saturating_sub_assign(&mut self, value: u8)
        requires
            old(self).whole(),
        ensures
            final(self).format_of() == old(self).format_of(),
            final(self).whole(),
            final(self).now() == old(self).pixel().lowered_or_empty(value).bytes(),
            match (*old(self), *final(self)) {
                (RasterPixelMut::Rgba8(before), RasterPixelMut::Rgba8(after)) =>
                    final(after.bytes)@ == final(before.bytes)@,
                (RasterPixelMut::Gray8(before), RasterPixelMut::Gray8(after)) =>
                    final(after.bytes)@ == final(before.bytes)@,
                (RasterPixelMut::GrayAlpha8(before), RasterPixelMut::GrayAlpha8(after)) =>
                    final(after.bytes)@ == final(before.bytes)@,
                _ => false,
            },
    {
        match self {
            RasterPixelMut::Rgba8(pixel) => {
                let next = pixel.get().saturating_sub_rgb(value);
                pixel.set(next);
            },
            RasterPixelMut::Gray8(pixel) => {
                let next = pixel.get().saturating_sub(value);
                pixel.set(next);
            },
            RasterPixelMut::GrayAlpha8(pixel) => {
                let next = pixel.get().saturating_sub_value(value);
                pixel.set(next);
            },
        }
    }
}

/// Format-independent walk over raster pixels.
#[derive(Clone, Debug)]
pub enum RasterPixels<'a> {
    /// RGBA8 pixels.
    Rgba8(Rgba8Pixels<'a>),
    /// Single-channel Gray8 pixels.
    Gray8(Gray8Pixels<'a>),
    /// GrayAlpha8 pixels.
    GrayAlpha8(GrayAlpha8Pixels<'a>),
}

impl<'a> View for RasterPixels<'a> {
    type V = Seq<RasterPixel>;

    open spec fn view(&self) -> Seq<RasterPixel> {
        match *self {
            RasterPixels::Rgba8(walk) => pixels_of(PixelFormat::Rgba8, walk.bytes@),
            RasterPixels::Gray8(walk) => pixels_of(PixelFormat::Gray8, walk.bytes@),
            RasterPixels::GrayAlpha8(walk) => pixels_of(PixelFormat::GrayAlpha8, walk.bytes@),
        }
    }
}

proof fn rgba8_wrapped(bytes: Seq<u8>)
    ensures
        pixels_of(PixelFormat::Rgba8, bytes) == pixels::rgba8_of(bytes).map_values(
            |pixel: Rgba8Pixel| RasterPixel::Rgba8(pixel),
        ),
{
    assert(pixels_of(PixelFormat::Rgba8, bytes) =~= pixels::rgba8_of(bytes).map_values(
        |pixel: Rgba8Pixel| RasterPixel::Rgba8(pixel),
    ));
}

proof fn gray8_wrapped(bytes: Seq<u8>)
    ensures
        pixels_of(PixelFormat::Gray8, bytes) == pixels::gray8_of(bytes).map_values(
            |pixel: Gray8Pixel| RasterPixel::Gray8(pixel),
        ),
{
    assert(pixels_of(PixelFormat::Gray8, bytes) =~= pixels::gray8_of(bytes).map_values(
        |pixel: Gray8Pixel| RasterPixel::Gray8(pixel),
    ));
}

proof fn gray_alpha8_wrapped(bytes: Seq<u8>)
    ensures
        pixels_of(PixelFormat::GrayAlpha8, bytes) == pixels::gray_alpha8_of(bytes).map_values(
            |pixel: GrayAlpha8Pixel| RasterPixel::GrayAlpha8(pixel),
        ),
{
    assert(pixels_of(PixelFormat::GrayAlpha8, bytes) =~= pixels::gray_alpha8_of(bytes).map_values(
        |pixel: GrayAlpha8Pixel| RasterPixel::GrayAlpha8(pixel),
    ));
}

impl<'a> RasterPixels<'a> {
    /// Whether the walk covers whole pixels.
    pub open spec fn whole(self) -> bool {
        match self {
            RasterPixels::Rgba8(walk) => walk.whole(),
            RasterPixels::Gray8(walk) => walk.whole(),
            RasterPixels::GrayAlpha8(walk) => walk.whole(),
        }
    }

    /// How many pixels are left.
    #[must_use]
    pub fn len(&self) -> (count: usize)
        ensures
            count == self@.len(),
    {
        match self {
            RasterPixels::Rgba8(walk) => walk.len(),
            RasterPixels::Gray8(walk) => walk.len(),
            RasterPixels::GrayAlpha8(walk) => walk.len(),
        }
    }

    /// The first of the pixels that are left.
    pub fn next(&mut self) -> (pixel: Option<RasterPixel>)
        requires
            old(self).whole(),
        ensures
            final(self).whole(),
            match pixel {
                Some(pixel) => old(self)@ == seq![pixel] + final(self)@,
                None => old(self)@.len() == 0 && final(self)@.len() == 0,
            },
    {
        match self {
            RasterPixels::Rgba8(walk) => {
                let ghost before = walk@;
                proof {
                    rgba8_wrapped(walk.bytes@);
                }
                let found = walk.next();
                proof {
                    rgba8_wrapped(walk.bytes@);
                }
                match found {
                    Some(pixel) => {
                        proof {
                            let wrap = |pixel: Rgba8Pixel| RasterPixel::Rgba8(pixel);
                            assert(
                                before.map_values(wrap)
                                    =~= seq![wrap(pixel)] + walk@.map_values(wrap)
                            );
                        }
                        Some(RasterPixel::Rgba8(pixel))
                    },
                    None => None,
                }
            },
            RasterPixels::Gray8(walk) => {
                let ghost before = walk@;
                proof {
                    gray8_wrapped(walk.bytes@);
                }
                let found = walk.next();
                proof {
                    gray8_wrapped(walk.bytes@);
                }
                match found {
                    Some(pixel) => {
                        proof {
                            let wrap = |pixel: Gray8Pixel| RasterPixel::Gray8(pixel);
                            assert(
                                before.map_values(wrap)
                                    =~= seq![wrap(pixel)] + walk@.map_values(wrap)
                            );
                        }
                        Some(RasterPixel::Gray8(pixel))
                    },
                    None => None,
                }
            },
            RasterPixels::GrayAlpha8(walk) => {
                let ghost before = walk@;
                proof {
                    gray_alpha8_wrapped(walk.bytes@);
                }
                let found = walk.next();
                proof {
                    gray_alpha8_wrapped(walk.bytes@);
                }
                match found {
                    Some(pixel) => {
                        proof {
                            let wrap = |pixel: GrayAlpha8Pixel| RasterPixel::GrayAlpha8(pixel);
                            assert(
                                before.map_values(wrap)
                                    =~= seq![wrap(pixel)] + walk@.map_values(wrap)
                            );
                        }
                        Some(RasterPixel::GrayAlpha8(pixel))
                    },
                    None => None,
                }
            },
        }
    }

    /// The last of the pixels that are left.
    pub fn next_back(&mut self) -> (pixel: Option<RasterPixel>)
        requires
            old(self).whole(),
        ensures
            final(self).whole(),
            match pixel {
                Some(pixel) => old(self)@ == final(self)@.push(pixel),
                None => old(self)@.len() == 0 && final(self)@.len() == 0,
            },
    {
        match self {
            RasterPixels::Rgba8(walk) => {
                let ghost before = walk@;
                proof {
                    rgba8_wrapped(walk.bytes@);
                }
                let found = walk.next_back();
                proof {
                    rgba8_wrapped(walk.bytes@);
                }
                match found {
                    Some(pixel) => {
                        proof {
                            let wrap = |pixel: Rgba8Pixel| RasterPixel::Rgba8(pixel);
                            assert(
                                before.map_values(wrap) =~= walk@.map_values(wrap).push(wrap(pixel))
                            );
                        }
                        Some(RasterPixel::Rgba8(pixel))
                    },
                    None => None,
                }
            },
            RasterPixels::Gray8(walk) => {
                let ghost before = walk@;
                proof {
                    gray8_wrapped(walk.bytes@);
                }
                let found = walk.next_back();
                proof {
                    gray8_wrapped(walk.bytes@);
                }
                match found {
                    Some(pixel) => {
                        proof {
                            let wrap = |pixel: Gray8Pixel| RasterPixel::Gray8(pixel);
                            assert(
                                before.map_values(wrap) =~= walk@.map_values(wrap).push(wrap(pixel))
                            );
                        }
                        Some(RasterPixel::Gray8(pixel))
                    },
                    None => None,
                }
            },
            RasterPixels::GrayAlpha8(walk) => {
                let ghost before = walk@;
                proof {
                    gray_alpha8_wrapped(walk.bytes@);
                }
                let found = walk.next_back();
                proof {
                    gray_alpha8_wrapped(walk.bytes@);
                }
                match found {
                    Some(pixel) => {
                        proof {
                            let wrap = |pixel: GrayAlpha8Pixel| RasterPixel::GrayAlpha8(pixel);
                            assert(
                                before.map_values(wrap) =~= walk@.map_values(wrap).push(wrap(pixel))
                            );
                        }
                        Some(RasterPixel::GrayAlpha8(pixel))
                    },
                    None => None,
                }
            },
        }
    }

    /// All of the pixels that are left.
    #[must_use]
    pub fn collect(self) -> (pixels: Vec<RasterPixel>)
        requires
            self.whole(),
        ensures
            pixels@ == self@,
    {
        let ghost all = self@;
        let mut walk = self;
        let mut pixels: Vec<RasterPixel> = Vec::new();
        assert(all =~= pixels@ + walk@);
        loop
            invariant
                walk.whole(),
                all == pixels@ + walk@,
                all == self@,
            decreases walk@.len(),
        {
            let ghost before = walk@;
            match walk.next() {
                Some(pixel) => {
                    assert(pixels@ + before =~= pixels@.push(pixel) + walk@);
                    pixels.push(pixel);
                },
                None => {
                    assert(pixels@ =~= all);
                    return pixels;
                },
            }
        }
    }
}

/// Format-independent walk over raster pixels in place.
#[derive(Debug)]
pub enum RasterPixelsMut<'a> {
    /// RGBA8 pixels.
    Rgba8(Rgba8PixelsMut<'a>),
    /// Single-channel Gray8 pixels.
    Gray8(Gray8PixelsMut<'a>),
    /// GrayAlpha8 pixels.
    GrayAlpha8(GrayAlpha8PixelsMut<'a>),
}

impl<'a> RasterPixelsMut<'a> {
    /// The bytes that the walk has left.
    pub open spec fn now(self) -> Seq<u8> {
        match self {
            RasterPixelsMut::Rgba8(walk) => walk.rest.unwrap()@,
            RasterPixelsMut::Gray8(walk) => walk.rest.unwrap()@,
            RasterPixelsMut::GrayAlpha8(walk) => walk.rest.unwrap()@,
        }
    }

    /// The format of the pixels.
    pub open spec fn format_of(self) -> PixelFormat {
        match self {
            RasterPixelsMut::Rgba8(_) => PixelFormat::Rgba8,
            RasterPixelsMut::Gray8(_) => PixelFormat::Gray8,
            RasterPixelsMut::GrayAlpha8(_) => PixelFormat::GrayAlpha8,
        }
    }

    /// Whether the walk covers whole pixels.
    pub open spec fn whole(self) -> bool {
        match self {
            RasterPixelsMut::Rgba8(walk) => walk.whole(),
            RasterPixelsMut::Gray8(walk) => walk.whole(),
            RasterPixelsMut::GrayAlpha8(walk) => walk.whole(),
        }
    }

    /// How many pixels are left.
    #[must_use]
    pub fn len(&self) -> (count: usize)
        requires
            self.whole(),
        ensures
            count == pixels_of(self.format_of(), self.now()).len(),
    {
        match self {
            RasterPixelsMut::Rgba8(walk) => walk.len(),
            RasterPixelsMut::Gray8(walk) => walk.len(),
            RasterPixelsMut::GrayAlpha8(walk) => walk.len(),
        }
    }

    /// The first of the pixels that are left. What it and the walk are set to at last
    /// makes up what the walk covered before.
    pub fn next(&mut self) -> (pixel: Option<RasterPixelMut<'a>>)
        requires
            old(self).whole(),
        ensures
            final(self).whole(),
            final(self).format_of() == old(self).format_of(),
            match pixel {
                Some(pixel) => {
                    &&& pixel.whole()
                    &&& pixel.format_of() == old(self).format_of()
                    &&& old(self).now() == pixel.now() + final(self).now()
                    &&& match (*old(self), pixel, *final(self)) {
                        (
                            RasterPixelsMut::Rgba8(before),
                            RasterPixelMut::Rgba8(pixel),
                            RasterPixelsMut::Rgba8(after),
                        ) => final(before.rest.unwrap())@ == final(pixel.bytes)@ + final(after.rest.unwrap())@,
                        (
                            RasterPixelsMut::Gray8(before),
                            RasterPixelMut::Gray8(pixel),
                            RasterPixelsMut::Gray8(after),
                        ) => final(before.rest.unwrap())@ == final(pixel.bytes)@ + final(after.rest.unwrap())@,
                        (
                            RasterPixelsMut::GrayAlpha8(before),
                            RasterPixelMut::GrayAlpha8(pixel),
                            RasterPixelsMut::GrayAlpha8(after),
                        ) => final(before.rest.unwrap())@ == final(pixel.bytes)@ + final(after.rest.unwrap())@,
                        _ => false,
                    }
                },
                None => {
                    &&& old(self).now().len() == 0
                    &&& final(self).now() == old(self).now()
                    &&& match (*old(self), *final(self)) {
                        (RasterPixelsMut::Rgba8(before), RasterPixelsMut::Rgba8(after)) => final(
                            after.rest.unwrap()
                        )@ == final(before.rest.unwrap())@,
                        (RasterPixelsMut::Gray8(before), RasterPixelsMut::Gray8(after)) => final(
                            after.rest.unwrap()
                        )@ == final(before.rest.unwrap())@,
                        (RasterPixelsMut::GrayAlpha8(before), RasterPixelsMut::GrayAlpha8(after)) => final(after.rest.unwrap())@ == final(before.rest.unwrap())@,
                        _ => false,
                    }
                },
            },
    {
        match self {
            RasterPixelsMut::Rgba8(walk) => match walk.next() {
                Some(pixel) => Some(RasterPixelMut::Rgba8(pixel)),
                None => None,
            },
            RasterPixelsMut::Gray8(walk) => match walk.next() {
                Some(pixel) => Some(RasterPixelMut::Gray8(pixel)),
                None => None,
            },
            RasterPixelsMut::GrayAlpha8(walk) => match walk.next() {
                Some(pixel) => Some(RasterPixelMut::GrayAlpha8(pixel)),
                None => None,
            },
        }
    }

    /// The last of the pixels that are left. What it and the walk are set to at last
    /// makes up what the walk covered before.
    pub fn next_back(&mut self) -> (pixel: Option<RasterPixelMut<'a>>)
        requires
            old(self).whole(),
        ensures
            final(self).whole(),
            final(self).format_of() == old(self).format_of(),
            match pixel {
                Some(pixel) => {
                    &&& pixel.whole()
                    &&& pixel.format_of() == old(self).format_of()
                    &&& old(self).now() == final(self).now() + pixel.now()
                    &&& match (*old(self), pixel, *final(self)) {
                        (
                            RasterPixelsMut::Rgba8(before),
                            RasterPixelMut::Rgba8(pixel),
                            RasterPixelsMut::Rgba8(after),
                        ) => final(before.rest.unwrap())@ == final(after.rest.unwrap())@ + final(pixel.bytes)@,
                        (
                            RasterPixelsMut::Gray8(before),
                            RasterPixelMut::Gray8(pixel),
                            RasterPixelsMut::Gray8(after),
                        ) => final(before.rest.unwrap())@ == final(after.rest.unwrap())@ + final(pixel.bytes)@,
                        (
                            RasterPixelsMut::GrayAlpha8(before),
                            RasterPixelMut::GrayAlpha8(pixel),
                            RasterPixelsMut::GrayAlpha8(after),
                        ) => final(before.rest.unwrap())@ == final(after.rest.unwrap())@ + final(pixel.bytes)@,
                        _ => false,
                    }
                },
                None => {
                    &&& old(self).now().len() == 0
                    &&& final(self).now() == old(self).now()
                    &&& match (*old(self), *final(self)) {
                        (RasterPixelsMut::Rgba8(before), RasterPixelsMut::Rgba8(after)) => final(
                            after.rest.unwrap()
                        )@ == final(before.rest.unwrap())@,
                        (RasterPixelsMut::Gray8(before), RasterPixelsMut::Gray8(after)) => final(
                            after.rest.unwrap()
                        )@ == final(before.rest.unwrap())@,
                        (RasterPixelsMut::GrayAlpha8(before), RasterPixelsMut::GrayAlpha8(after)) => final(after.rest.unwrap())@ == final(before.rest.unwrap())@,
                        _ => false,
                    }
                },
            },
    {
        match self {
            RasterPixelsMut::Rgba8(walk) => match walk.next_back() {
                Some(pixel) => Some(RasterPixelMut::Rgba8(pixel)),
                None => None,
            },
            RasterPixelsMut::Gray8(walk) => match walk.next_back() {
                Some(pixel) => Some(RasterPixelMut::Gray8(pixel)),
                None => None,
            },
            RasterPixelsMut::GrayAlpha8(walk) => match walk.next_back() {
                Some(pixel) => Some(RasterPixelMut::GrayAlpha8(pixel)),
                None => None,
            },
        }
    }
}

/// Origin and external-data resolution state of raster pixels.
#[derive(Clone, Copy, Debug, Eq, PartialEq, Structural)]
#[non_exhaustive]
pub enum RasterDataState {
    /// Pixels were constructed by the caller rather than decoded from a file.
    Constructed,
    /// The offscreen row does not record a block-data identifier.
    MissingReference,
    /// An identifier is recorded but absent from `ExternalChunk`.
    MissingExternalChunk,
    /// The external block-data object was found and decoded.
    Present,
}

impl RasterDataState {
    /// Whether the raster consists only of the `Offscreen.Attribute`
    /// default fill because no external block-data object was resolved.
    #[must_use]
    pub fn is_default_filled(self) -> (filled: bool)
        ensures
            filled == (self is MissingReference || self is MissingExternalChunk),
    {
        matches!(self, RasterDataState::MissingReference | RasterDataState::MissingExternalChunk)
    }

    /// Whether an external block-data object was found and decoded.
    #[must_use]
    pub fn is_present(self) -> (present: bool)
        ensures
            present == (self is Present),
    {
        matches!(self, RasterDataState::Present)
    }

    /// Whether the pixels were constructed by the caller.
    #[must_use]
    pub fn is_constructed(self) -> (constructed: bool)
        ensures
            constructed == (self is Constructed),
    {
        matches!(self, RasterDataState::Constructed)
    }
}

/// A fully assembled raster bitmap.
#[derive(Clone, Debug, Eq, PartialEq)]
pub struct RasterImage {
    pub width: u32,
    pub height: u32,
    pub format: PixelFormat,
    pub state: RasterDataState,
    pub pixels: Vec<u8>,
}

/// The model of a [`RasterImage`].
#[verifier::ext_equal]
pub struct RasterModel {
    pub width: u32,
    pub height: u32,
    pub format: PixelFormat,
    pub state: RasterDataState,
    pub pixels: Seq<u8>,
}

impl View for RasterImage {
    type V = RasterModel;

    open spec fn view(&self) -> RasterModel {
        RasterModel {
            width: self.width,
            height: self.height,
            format: self.format,
            state: self.state,
            pixels: self.pixels@,
        }
    }
}

/// The bytes that the pixels of a bitmap take.
pub open spec fn bitmap_size(width: u32, height: u32, format: PixelFormat) -> int {
    width * height * pixels::pixel_size(format)
}

/// Whether a bitmap has a byte for every channel of every pixel, and no more.
pub open spec fn raster_whole(raster: RasterModel) -> bool {
    raster.pixels.len() == bitmap_size(raster.width, raster.height, raster.format)
}

/// The bitmap that a caller constructs.
pub open spec fn raster_of(width: u32, height: u32, format: PixelFormat, pixels: Seq<u8>) -> Result<
    RasterModel,
    Failure,
> {
    if width == 0 || height == 0 {
        Err(
            Failure::InvalidRaster { reason: "constructed raster dimensions must be non-zero"@ },
        )
    } else if bitmap_size(width, height, format) > u64::MAX {
        Err(Failure::OffsetOverflow)
    } else if pixels.len() != bitmap_size(width, height, format) {
        Err(
            Failure::InvalidRaster {
                reason: "constructed "@ + pixels::format_name(format) + " raster has "@
                    + message::decimal(pixels.len()) + " bytes, expected "@ + message::decimal(
                    bitmap_size(width, height, format) as nat,
                ),
            },
        )
    } else {
        Ok(RasterModel { width, height, format, state: RasterDataState::Constructed, pixels })
    }
}

/// The bytes that the pixels of a bitmap take, where a `u64` can hold their number.
pub fn bitmap_bytes(width: u32, height: u32, format: PixelFormat) -> (size: Option<u64>)
    ensures
        match size {
            Some(size) => size == bitmap_size(width, height, format),
            None => bitmap_size(width, height, format) > u64::MAX,
        },
{
    assert(width * height <= 0xffff_ffff * 0xffff_ffff) by (nonlinear_arith)
        requires
            width <= 0xffff_ffff,
            height <= 0xffff_ffff,
    ;
    let count: u64 = width as u64 * height as u64;
    count.checked_mul(format.bytes_per_pixel())
}

fn whole_chunks<'a>(bytes: &'a mut Vec<u8>, size: usize) -> (chunks: &'a mut [u8])
    requires
        size > 0,
    ensures
        ({
            let kept = old(bytes)@.len() - old(bytes)@.len() % (size as nat);
            &&& chunks@ == old(bytes)@.take(kept as int)
            &&& chunks@.len() % (size as nat) == 0
            &&& final(bytes)@ == final(chunks)@ + old(bytes)@.skip(kept as int)
        }),
{
    let length: usize = bytes.len();
    proof {
        vstd::arithmetic::div_mod::lemma_fundamental_div_mod(length as int, size as int);
        vstd::arithmetic::div_mod::lemma_mod_multiples_basic(
            length as int / size as int,
            size as int,
        );
        assert(length - length as int % size as int == (length as int / size as int) * size as int)
            by (nonlinear_arith)
            requires
                length == size * (length as int / size as int) + length as int % size as int,
        ;
    }
    let kept: usize = length - length % size;
    let (chunks, _) = bytes.as_mut_slice().split_at_mut(kept);
    chunks
}

impl RasterImage {
    /// Constructs a validated row-major raster image.
    ///
    /// The byte length must equal `width * height * format bytes-per-pixel`.
    /// Zero dimensions and arithmetic overflow are rejected.
    pub fn from_pixels(width: u32, height: u32, format: PixelFormat, pixels: Vec<u8>) -> (raster:
        Result<RasterImage, Error>)
        ensures
            error::outcome(raster) == raster_of(width, height, format, pixels@),
            raster matches Ok(raster) ==> raster_whole(raster@),
    {
        if width == 0 || height == 0 {
            return Err(
                Error::InvalidRaster {
                    reason: Message::new(
                        "constructed raster dimensions must be non-zero",
                    ).build(),
                },
            );
        }
        let expected: u64 = match bitmap_bytes(width, height, format) {
            Some(expected) => expected,
            None => return Err(Error::OffsetOverflow),
        };
        if pixels.len() as u64 != expected {
            return Err(
                Error::InvalidRaster {
                    reason: Message::new("constructed ").text(format.name()).text(
                        " raster has ",
                    ).number(
                        pixels.len() as u64,
                    ).text(" bytes, expected ").number(expected).build(),
                },
            );
        }
        Ok(RasterImage { width, height, format, state: RasterDataState::Constructed, pixels })
    }

    /// Width in pixels.
    #[must_use]
    pub fn width(&self) -> (width: u32)
        ensures
            width == self.width,
    {
        self.width
    }

    /// Height in pixels.
    #[must_use]
    pub fn height(&self) -> (height: u32)
        ensures
            height == self.height,
    {
        self.height
    }

    /// Pixel format of [`Self::pixels`].
    #[must_use]
    pub fn format(&self) -> (format: PixelFormat)
        ensures
            format == self.format,
    {
        self.format
    }

    /// State of the external-data resolution.
    #[must_use]
    pub fn data_state(&self) -> (state: RasterDataState)
        ensures
            state == self.state,
    {
        self.state
    }

    /// Contiguous row-major pixels.
    #[must_use]
    pub fn pixels(&self) -> (pixels: &[u8])
        ensures
            pixels@ == self.pixels@,
    {
        self.pixels.as_slice()
    }

    /// Number of row-major pixel bytes.
    #[must_use]
    pub fn byte_len(&self) -> (length: usize)
        ensures
            length == self.pixels@.len(),
    {
        self.pixels.len()
    }

    /// Walks over typed pixels without requiring a format-specific method.
    ///
    /// Match [`RasterPixel`] when format-specific channel fields are needed.
    #[must_use]
    pub fn pixel_iter(&self) -> (walk: RasterPixels<'_>)
        ensures
            walk@ == pixels_of(self.format, self.pixels@),
            walk.whole(),
    {
        match self.format {
            PixelFormat::Rgba8 => {
                let walk = Rgba8Pixels::over(self.pixels.as_slice());
                proof {
                    rgba8_wrapped(walk.bytes@);
                    rgba8_wrapped(self.pixels@);
                }
                RasterPixels::Rgba8(walk)
            },
            PixelFormat::Gray8 => {
                let walk = Gray8Pixels::over(self.pixels.as_slice());
                proof {
                    gray8_wrapped(walk.bytes@);
                    gray8_wrapped(self.pixels@);
                }
                RasterPixels::Gray8(walk)
            },
            PixelFormat::GrayAlpha8 => {
                let walk = GrayAlpha8Pixels::over(self.pixels.as_slice());
                proof {
                    gray_alpha8_wrapped(walk.bytes@);
                    gray_alpha8_wrapped(self.pixels@);
                }
                RasterPixels::GrayAlpha8(walk)
            },
        }
    }

    /// Walks over typed pixels in place without format-specific branching.
    ///
    /// Common operations such as [`RasterPixelMut::invert`],
    /// [`RasterPixelMut::checked_add_assign`], and
    /// [`RasterPixelMut::saturating_sub_assign`] work uniformly for every
    /// supported format while preserving independent alpha. Match
    /// [`RasterPixelMut`] or use the format-specific walks when direct
    /// channel fields are needed.
    pub fn pixel_iter_mut(&mut self) -> (walk: RasterPixelsMut<'_>)
        ensures
            walk.whole(),
            walk.format_of() == old(self).format,
            ({
                let length = old(self).pixels@.len();
                let kept = length - length % (pixels::pixel_size(old(self).format) as nat);
                &&& walk.now() == old(self).pixels@.take(kept as int)
                &&& match walk {
                    RasterPixelsMut::Rgba8(walk) => final(self).pixels@
                        == final(walk.rest.unwrap())@
                        + old(self).pixels@.skip(kept as int),
                    RasterPixelsMut::Gray8(walk) => final(self).pixels@
                        == final(walk.rest.unwrap())@
                        + old(self).pixels@.skip(kept as int),
                    RasterPixelsMut::GrayAlpha8(walk) => final(self).pixels@
                        == final(walk.rest.unwrap())@
                        + old(self).pixels@.skip(kept as int),
                }
            }),
            final(self).width == old(self).width,
            final(self).height == old(self).height,
            final(self).format == old(self).format,
            final(self).state == old(self).state,
    {
        match self.format {
            PixelFormat::Rgba8 => RasterPixelsMut::Rgba8(
                Rgba8PixelsMut { rest: Some(whole_chunks(&mut self.pixels, 4)) },
            ),
            PixelFormat::Gray8 => RasterPixelsMut::Gray8(
                Gray8PixelsMut { rest: Some(whole_chunks(&mut self.pixels, 1)) },
            ),
            PixelFormat::GrayAlpha8 => RasterPixelsMut::GrayAlpha8(
                GrayAlpha8PixelsMut { rest: Some(whole_chunks(&mut self.pixels, 2)) },
            ),
        }
    }

    /// Typed Rgba8 pixels, or `None` when this image has another format.
    #[must_use]
    pub fn rgba8_pixels(&self) -> (walk: Option<Rgba8Pixels<'_>>)
        ensures
            walk is Some == (self.format == PixelFormat::Rgba8),
            walk matches Some(walk) ==> walk@ == pixels::rgba8_of(self.pixels@) && walk.whole(),
    {
        match self.format {
            PixelFormat::Rgba8 => Some(Rgba8Pixels::over(self.pixels.as_slice())),
            _ => None,
        }
    }

    /// Typed Rgba8 pixels in place, or `None` for another format.
    ///
    /// Each pixel exposes `r`, `g`, `b`, and `a` fields, and what is set is set in
    /// the image.
    pub fn rgba8_pixels_mut(&mut self) -> (walk: Option<Rgba8PixelsMut<'_>>)
        ensures
            walk is Some == (old(self).format == PixelFormat::Rgba8),
            ({
                let length = old(self).pixels@.len();
                let kept = length - length % 4;
                match walk {
                    Some(walk) => {
                        &&& walk.whole()
                        &&& walk.rest.unwrap()@ == old(self).pixels@.take(kept as int)
                        &&& final(self).pixels@ == final(walk.rest.unwrap())@
                            + old(self).pixels@.skip(kept as int)
                    },
                    None => final(self).pixels@ == old(self).pixels@,
                }
            }),
            final(self).width == old(self).width,
            final(self).height == old(self).height,
            final(self).format == old(self).format,
            final(self).state == old(self).state,
    {
        match self.format {
            PixelFormat::Rgba8 => Some(
                Rgba8PixelsMut { rest: Some(whole_chunks(&mut self.pixels, 4)) },
            ),
            _ => None,
        }
    }

    /// Typed Gray8 pixels, or `None` when this image has another format.
    #[must_use]
    pub fn gray8_pixels(&self) -> (walk: Option<Gray8Pixels<'_>>)
        ensures
            walk is Some == (self.format == PixelFormat::Gray8),
            walk matches Some(walk) ==> walk@ == pixels::gray8_of(self.pixels@) && walk.whole(),
    {
        match self.format {
            PixelFormat::Gray8 => Some(Gray8Pixels::over(self.pixels.as_slice())),
            _ => None,
        }
    }

    /// Typed Gray8 pixels in place, or `None` for another format.
    ///
    /// Gray8 has one `value` channel and no independent alpha channel.
    pub fn gray8_pixels_mut(&mut self) -> (walk: Option<Gray8PixelsMut<'_>>)
        ensures
            walk is Some == (old(self).format == PixelFormat::Gray8),
            ({
                let length = old(self).pixels@.len();
                let kept = length - length % 1;
                match walk {
                    Some(walk) => {
                        &&& walk.whole()
                        &&& walk.rest.unwrap()@ == old(self).pixels@.take(kept as int)
                        &&& final(self).pixels@ == final(walk.rest.unwrap())@
                            + old(self).pixels@.skip(kept as int)
                    },
                    None => final(self).pixels@ == old(self).pixels@,
                }
            }),
            final(self).width == old(self).width,
            final(self).height == old(self).height,
            final(self).format == old(self).format,
            final(self).state == old(self).state,
    {
        match self.format {
            PixelFormat::Gray8 => Some(
                Gray8PixelsMut { rest: Some(whole_chunks(&mut self.pixels, 1)) },
            ),
            _ => None,
        }
    }

    /// Typed GrayAlpha8 pixels, or `None` when this image has another format.
    #[must_use]
    pub fn gray_alpha8_pixels(&self) -> (walk: Option<GrayAlpha8Pixels<'_>>)
        ensures
            walk is Some == (self.format == PixelFormat::GrayAlpha8),
            walk matches Some(walk) ==> walk@ == pixels::gray_alpha8_of(self.pixels@)
                && walk.whole(),
    {
        match self.format {
            PixelFormat::GrayAlpha8 => Some(GrayAlpha8Pixels::over(self.pixels.as_slice())),
            _ => None,
        }
    }

    /// Typed GrayAlpha8 pixels in place, or `None` for another format.
    ///
    /// Each pixel exposes independent `value` and `alpha` fields.
    pub fn gray_alpha8_pixels_mut(&mut self) -> (walk: Option<GrayAlpha8PixelsMut<'_>>)
        ensures
            walk is Some == (old(self).format == PixelFormat::GrayAlpha8),
            ({
                let length = old(self).pixels@.len();
                let kept = length - length % 2;
                match walk {
                    Some(walk) => {
                        &&& walk.whole()
                        &&& walk.rest.unwrap()@ == old(self).pixels@.take(kept as int)
                        &&& final(self).pixels@ == final(walk.rest.unwrap())@
                            + old(self).pixels@.skip(kept as int)
                    },
                    None => final(self).pixels@ == old(self).pixels@,
                }
            }),
            final(self).width == old(self).width,
            final(self).height == old(self).height,
            final(self).format == old(self).format,
            final(self).state == old(self).state,
    {
        match self.format {
            PixelFormat::GrayAlpha8 => Some(
                GrayAlpha8PixelsMut { rest: Some(whole_chunks(&mut self.pixels, 2)) },
            ),
            _ => None,
        }
    }

    /// Takes ownership of the row-major pixels.
    #[must_use]
    pub fn into_pixels(self) -> (pixels: Vec<u8>)
        ensures
            pixels@ == self.pixels@,
    {
        self.pixels
    }
}

} // verus!
