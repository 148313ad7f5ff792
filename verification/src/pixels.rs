//! Pixels, and walks over the pixels of a bitmap.

use vstd::prelude::*;

verus! {

/// Pixel layout of decoded raster bytes.
#[derive(Clone, Copy, Debug, Eq, PartialEq, Structural)]
#[non_exhaustive]
pub enum PixelFormat {
    /// Interleaved red, green, blue, alpha bytes.
    Rgba8,
    /// One eight-bit grayscale channel.
    Gray8,
    /// Interleaved eight-bit grayscale value and alpha bytes.
    GrayAlpha8,
}

/// The bytes that a pixel takes.
pub open spec fn pixel_size(format: PixelFormat) -> int {
    match format {
        PixelFormat::Rgba8 => 4,
        PixelFormat::Gray8 => 1,
        PixelFormat::GrayAlpha8 => 2,
    }
}

/// The name of a format.
pub open spec fn format_name(format: PixelFormat) -> Seq<char> {
    match format {
        PixelFormat::Rgba8 => "Rgba8"@,
        PixelFormat::Gray8 => "Gray8"@,
        PixelFormat::GrayAlpha8 => "GrayAlpha8"@,
    }
}

impl PixelFormat {
    /// The name of the format.
    #[must_use]
    pub fn name(self) -> (name: &'static str)
        ensures
            name@ == format_name(self),
    {
        match self {
            PixelFormat::Rgba8 => "Rgba8",
            PixelFormat::Gray8 => "Gray8",
            PixelFormat::GrayAlpha8 => "GrayAlpha8",
        }
    }

    /// The bytes that a pixel takes.
    #[must_use]
    pub fn bytes_per_pixel(self) -> (size: u64)
        ensures
            size == pixel_size(self),
    {
        match self {
            PixelFormat::Rgba8 => 4,
            PixelFormat::Gray8 => 1,
            PixelFormat::GrayAlpha8 => 2,
        }
    }
}

/// A channel with its value mirrored in the channel range.
pub open spec fn mirrored(channel: u8) -> u8 {
    (255 - channel) as u8
}

/// A channel with a value added, where the sum is in the channel range.
pub open spec fn raised(channel: u8, value: u8) -> Option<u8> {
    if channel + value <= 255 {
        Some((channel + value) as u8)
    } else {
        None
    }
}

/// A channel with a value subtracted, where the difference is in the channel range.
pub open spec fn lowered(channel: u8, value: u8) -> Option<u8> {
    if channel >= value {
        Some((channel - value) as u8)
    } else {
        None
    }
}

/// A channel with a value added, at most the largest in the channel range.
pub open spec fn raised_or_full(channel: u8, value: u8) -> u8 {
    match raised(channel, value) {
        Some(sum) => sum,
        None => 255,
    }
}

/// A channel with a value subtracted, at least the smallest in the channel range.
pub open spec fn lowered_or_empty(channel: u8, value: u8) -> u8 {
    match lowered(channel, value) {
        Some(difference) => difference,
        None => 0,
    }
}

/// One row-major RGBA8 pixel.
///
/// The public fields make format-aware editing possible without indexing a
/// raw byte chunk. Use [`Self::invert`] to invert color while preserving
/// alpha.
#[derive(Clone, Copy, Debug, Eq, PartialEq, Structural)]
pub struct Rgba8Pixel {
    /// Red channel.
    pub r: u8,
    /// Green channel.
    pub g: u8,
    /// Blue channel.
    pub b: u8,
    /// Alpha channel.
    pub a: u8,
}

impl Rgba8Pixel {
    /// Minimum value of each channel.
    pub const CHANNEL_MIN: u8 = 0;

    /// Maximum value of each channel.
    pub const CHANNEL_MAX: u8 = 255;

    /// Pixel with every channel at its minimum.
    #[must_use]
    pub fn min() -> (pixel: Rgba8Pixel)
        ensures
            pixel == (Rgba8Pixel { r: 0, g: 0, b: 0, a: 0 }),
    {
        Rgba8Pixel { r: 0, g: 0, b: 0, a: 0 }
    }

    /// Pixel with every channel at its maximum.
    #[must_use]
    pub fn max() -> (pixel: Rgba8Pixel)
        ensures
            pixel == (Rgba8Pixel { r: 255, g: 255, b: 255, a: 255 }),
    {
        Rgba8Pixel { r: 255, g: 255, b: 255, a: 255 }
    }

    /// The pixel with its color mirrored.
    pub open spec fn inverted(self) -> Rgba8Pixel {
        Rgba8Pixel { r: mirrored(self.r), g: mirrored(self.g), b: mirrored(self.b), a: self.a }
    }

    /// The pixel with a value added to its color.
    pub open spec fn raised(self, value: u8) -> Option<Rgba8Pixel> {
        match (raised(self.r, value), raised(self.g, value), raised(self.b, value)) {
            (Some(r), Some(g), Some(b)) => Some(Rgba8Pixel { r, g, b, a: self.a }),
            _ => None,
        }
    }

    /// The pixel with a value subtracted from its color.
    pub open spec fn lowered(self, value: u8) -> Option<Rgba8Pixel> {
        match (lowered(self.r, value), lowered(self.g, value), lowered(self.b, value)) {
            (Some(r), Some(g), Some(b)) => Some(Rgba8Pixel { r, g, b, a: self.a }),
            _ => None,
        }
    }

    /// The pixel with a value added to its color, clamped.
    pub open spec fn raised_or_full(self, value: u8) -> Rgba8Pixel {
        Rgba8Pixel { r: raised_or_full(self.r, value), g: raised_or_full(self.g, value), b: raised_or_full(self.b, value), a: self.a }
    }

    /// The pixel with a value subtracted from its color, clamped.
    pub open spec fn lowered_or_empty(self, value: u8) -> Rgba8Pixel {
        Rgba8Pixel { r: lowered_or_empty(self.r, value), g: lowered_or_empty(self.g, value), b: lowered_or_empty(self.b, value), a: self.a }
    }

    /// Inverts red, green, and blue while preserving alpha.
    pub fn invert(&mut self)
        ensures
            *final(self) == old(self).inverted(),
    {
        self.r = 255 - self.r;
        self.g = 255 - self.g;
        self.b = 255 - self.b;
    }

    /// Inverts red, green, and blue while preserving alpha.
    ///
    /// This explicit alias is equivalent to [`Self::invert`].
    pub fn invert_rgb(&mut self)
        ensures
            *final(self) == old(self).inverted(),
    {
        self.invert();
    }

    /// Adds one value to RGB, returning `None` if any channel would overflow.
    #[must_use]
    pub fn checked_add_rgb(self, value: u8) -> (pixel: Option<Rgba8Pixel>)
        ensures
            pixel == self.raised(value),
    {
        match (self.r.checked_add(value), self.g.checked_add(value), self.b.checked_add(value)) {
            (Some(r), Some(g), Some(b)) => Some(Rgba8Pixel { r, g, b, a: self.a }),
            _ => None,
        }
    }

    /// Subtracts one value from RGB, returning `None` if any channel would underflow.
    #[must_use]
    pub fn checked_sub_rgb(self, value: u8) -> (pixel: Option<Rgba8Pixel>)
        ensures
            pixel == self.lowered(value),
    {
        match (self.r.checked_sub(value), self.g.checked_sub(value), self.b.checked_sub(value)) {
            (Some(r), Some(g), Some(b)) => Some(Rgba8Pixel { r, g, b, a: self.a }),
            _ => None,
        }
    }

    /// Adds one value to RGB and clamps every result to the channel range.
    #[must_use]
    pub fn saturating_add_rgb(self, value: u8) -> (pixel: Rgba8Pixel)
        ensures
            pixel == self.raised_or_full(value),
    {
        Rgba8Pixel { r: self.r.saturating_add(value), g: self.g.saturating_add(value), b: self.b.saturating_add(value), a: self.a }
    }

    /// Subtracts one value from RGB and clamps every result to the channel range.
    #[must_use]
    pub fn saturating_sub_rgb(self, value: u8) -> (pixel: Rgba8Pixel)
        ensures
            pixel == self.lowered_or_empty(value),
    {
        Rgba8Pixel { r: self.r.saturating_sub(value), g: self.g.saturating_sub(value), b: self.b.saturating_sub(value), a: self.a }
    }
}

/// The pixel at a position among row-major bytes.
pub open spec fn rgba8_at(bytes: Seq<u8>, i: int) -> Rgba8Pixel {
    Rgba8Pixel { r: bytes[4 * i], g: bytes[4 * i + 1], b: bytes[4 * i + 2], a: bytes[4 * i + 3] }
}

/// The pixels that row-major bytes hold.
pub open spec fn rgba8_of(bytes: Seq<u8>) -> Seq<Rgba8Pixel> {
    Seq::new(bytes.len() / 4, |i: int| rgba8_at(bytes, i))
}

/// The bytes that hold a pixel.
pub open spec fn rgba8_bytes(pixel: Rgba8Pixel) -> Seq<u8> {
    seq![pixel.r, pixel.g, pixel.b, pixel.a]
}

proof fn rgba8_joined(front: Seq<u8>, back: Seq<u8>)
    requires
        front.len() % 4 == 0,
        back.len() % 4 == 0,
    ensures
        rgba8_of(front + back) == rgba8_of(front) + rgba8_of(back),
{
    let whole = front + back;
    assert(rgba8_of(whole).len() == rgba8_of(front).len() + rgba8_of(back).len());
    assert forall|i: int| 0 <= i < rgba8_of(whole).len() implies #[trigger] rgba8_of(whole)[i] == (
    rgba8_of(front) + rgba8_of(back))[i] by {
        if i < rgba8_of(front).len() {
            assert(rgba8_at(whole, i) == rgba8_at(front, i));
        } else {
            let k = i - rgba8_of(front).len();
            assert(4 * i == front.len() + 4 * k);
            assert(rgba8_at(whole, i) == rgba8_at(back, k));
        }
    }
    assert(rgba8_of(whole) =~= rgba8_of(front) + rgba8_of(back));
}

proof fn one_rgba8(bytes: Seq<u8>)
    requires
        bytes.len() == 4,
    ensures
        rgba8_of(bytes) == seq![rgba8_at(bytes, 0)],
{
    assert(rgba8_of(bytes) =~= seq![rgba8_at(bytes, 0)]);
}

fn read_rgba8(bytes: &[u8]) -> (pixel: Rgba8Pixel)
    requires
        bytes@.len() == 4,
    ensures
        pixel == rgba8_at(bytes@, 0),
{
    Rgba8Pixel { r: bytes[0], g: bytes[1], b: bytes[2], a: bytes[3] }
}

/// A walk over typed Rgba8 pixels.
#[derive(Clone, Debug)]
pub struct Rgba8Pixels<'a> {
    pub bytes: &'a [u8],
}

impl<'a> View for Rgba8Pixels<'a> {
    type V = Seq<Rgba8Pixel>;

    open spec fn view(&self) -> Seq<Rgba8Pixel> {
        rgba8_of(self.bytes@)
    }
}

impl<'a> Rgba8Pixels<'a> {
    pub(crate) fn over(bytes: &'a [u8]) -> (pixels: Rgba8Pixels<'a>)
        ensures
            pixels@ == rgba8_of(bytes@),
            pixels.whole(),
    {
        let ghost old_bytes = bytes@;
        let (bytes, rest) = bytes.split_at(bytes.len() - bytes.len() % 4);
        let pixels = Rgba8Pixels { bytes };
        assert(pixels@ =~= rgba8_of(bytes@ + rest@));
        assert(bytes@ + rest@ =~= old_bytes);
        pixels
    }

    /// Whether the walk covers whole pixels.
    pub open spec fn whole(self) -> bool {
        self.bytes@.len() % 4 == 0
    }

    /// How many pixels are left.
    #[must_use]
    pub fn len(&self) -> (count: usize)
        ensures
            count == self@.len(),
    {
        self.bytes.len() / 4
    }

    /// The first of the pixels that are left.
    pub fn next(&mut self) -> (pixel: Option<Rgba8Pixel>)
        requires
            old(self).whole(),
        ensures
            final(self).whole(),
            match pixel {
                Some(pixel) => old(self)@ == seq![pixel] + final(self)@,
                None => old(self)@.len() == 0 && final(self)@.len() == 0,
            },
    {
        if self.bytes.len() < 4 {
            return None;
        }
        let (first, rest) = self.bytes.split_at(4);
        proof {
            assert(self.bytes@ =~= first@ + rest@);
            rgba8_joined(first@, rest@);
            one_rgba8(first@);
        }
        self.bytes = rest;
        Some(read_rgba8(first))
    }

    /// The last of the pixels that are left.
    pub fn next_back(&mut self) -> (pixel: Option<Rgba8Pixel>)
        requires
            old(self).whole(),
        ensures
            final(self).whole(),
            match pixel {
                Some(pixel) => old(self)@ == final(self)@.push(pixel),
                None => old(self)@.len() == 0 && final(self)@.len() == 0,
            },
    {
        if self.bytes.len() < 4 {
            return None;
        }
        let (rest, last) = self.bytes.split_at(self.bytes.len() - 4);
        proof {
            assert(self.bytes@ =~= rest@ + last@);
            rgba8_joined(rest@, last@);
            one_rgba8(last@);
            assert(rgba8_of(rest@) + seq![rgba8_at(last@, 0)] =~= rgba8_of(rest@).push(
                rgba8_at(last@, 0),
            ));
        }
        self.bytes = rest;
        Some(read_rgba8(last))
    }

    /// All of the pixels that are left.
    #[must_use]
    pub fn collect(self) -> (pixels: Vec<Rgba8Pixel>)
        requires
            self.whole(),
        ensures
            pixels@ == self@,
    {
        let ghost all = self@;
        let mut walk = self;
        let mut pixels: Vec<Rgba8Pixel> = Vec::new();
        assert(all =~= pixels@ + walk@);
        loop
            invariant
                walk.whole(),
                all == pixels@ + walk@,
                all == self@,
            decreases walk@.len(),
        {
            let ghost before = walk@;
            match walk.next() {
                Some(pixel) => {
                    assert(pixels@ + before =~= pixels@.push(pixel) + walk@);
                    pixels.push(pixel);
                },
                None => {
                    assert(pixels@ =~= all);
                    return pixels;
                },
            }
        }
    }
}

/// One Rgba8 pixel in place: what is set here is set in the image.
#[derive(Debug)]
pub struct Rgba8PixelMut<'a> {
    pub bytes: &'a mut [u8],
}

impl<'a> Rgba8PixelMut<'a> {
    /// The bytes of the pixel.
    pub open spec fn now(self) -> Seq<u8> {
        self.bytes@
    }

    /// Whether the bytes make one pixel.
    pub open spec fn whole(self) -> bool {
        self.bytes@.len() == 4
    }

    /// The pixel as it stands.
    #[must_use]
    pub fn get(&self) -> (pixel: Rgba8Pixel)
        requires
            self.whole(),
        ensures
            pixel == rgba8_at(self.now(), 0),
    {
        Rgba8Pixel { r: self.bytes[0], g: self.bytes[1], b: self.bytes[2], a: self.bytes[3] }
    }

    /// Replaces the pixel.
    pub fn set(&mut self, pixel: Rgba8Pixel)
        requires
            old(self).whole(),
        ensures
            final(self).bytes@ == rgba8_bytes(pixel),
            final(final(self).bytes)@ == final(old(self).bytes)@,
    {
        self.bytes[0] = pixel.r;
        self.bytes[1] = pixel.g;
        self.bytes[2] = pixel.b;
        self.bytes[3] = pixel.a;
        assert(self.bytes@ =~= rgba8_bytes(pixel));
    }

    /// Inverts red, green, and blue while preserving alpha.
    pub fn invert(&mut self)
        requires
            old(self).whole(),
        ensures
            final(self).bytes@ == rgba8_bytes(rgba8_at(old(self).bytes@, 0).inverted()),
            final(final(self).bytes)@ == final(old(self).bytes)@,
    {
        let mut pixel = self.get();
        pixel.invert();
        self.set(pixel);
    }
}

/// A walk over typed Rgba8 pixels in place.
#[derive(Debug)]
pub struct Rgba8PixelsMut<'a> {
    pub rest: Option<&'a mut [u8]>,
}

impl<'a> View for Rgba8PixelsMut<'a> {
    type V = Seq<Rgba8Pixel>;

    open spec fn view(&self) -> Seq<Rgba8Pixel> {
        match self.rest {
            Some(bytes) => rgba8_of(bytes@),
            None => Seq::empty(),
        }
    }
}

impl<'a> Rgba8PixelsMut<'a> {
    /// Whether the walk covers whole pixels.
    pub open spec fn whole(self) -> bool {
        self.rest is Some && self.rest.unwrap()@.len() % 4 == 0
    }

    /// How many pixels are left.
    #[must_use]
    pub fn len(&self) -> (count: usize)
        ensures
            count == self@.len(),
    {
        match &self.rest {
            Some(bytes) => bytes.len() / 4,
            None => 0,
        }
    }

    /// The first of the pixels that are left. What it and the walk are set to at last
    /// makes up what the walk covered before.
    pub fn next(&mut self) -> (pixel: Option<Rgba8PixelMut<'a>>)
        requires
            old(self).whole(),
        ensures
            final(self).whole(),
            match pixel {
                Some(pixel) => {
                    &&& pixel.whole()
                    &&& old(self).rest.unwrap()@ == pixel.bytes@ + final(self).rest.unwrap()@
                    &&& old(self)@ == seq![rgba8_at(pixel.bytes@, 0)] + final(self)@
                    &&& final(old(self).rest.unwrap())@ == final(pixel.bytes)@
                        + final(final(self).rest.unwrap())@
                },
                None => {
                    &&& old(self)@.len() == 0
                    &&& final(self).rest.unwrap()@ == old(self).rest.unwrap()@
                    &&& final(final(self).rest.unwrap())@ == final(old(self).rest.unwrap())@
                },
            },
    {
        match self.rest.take() {
            None => None,
            Some(rest) => {
                if rest.len() < 4 {
                    self.rest = Some(rest);
                    return None;
                }
                let ghost before = rest@;
                let (bytes, rest) = rest.split_at_mut(4);
                proof {
                    assert(before =~= bytes@ + rest@);
                    rgba8_joined(bytes@, rest@);
                    one_rgba8(bytes@);
                }
                self.rest = Some(rest);
                Some(Rgba8PixelMut { bytes })
            },
        }
    }

    /// The last of the pixels that are left. What it and the walk are set to at last
    /// makes up what the walk covered before.
    pub fn next_back(&mut self) -> (pixel: Option<Rgba8PixelMut<'a>>)
        requires
            old(self).whole(),
        ensures
            final(self).whole(),
            match pixel {
                Some(pixel) => {
                    &&& pixel.whole()
                    &&& old(self).rest.unwrap()@ == final(self).rest.unwrap()@ + pixel.bytes@
                    &&& old(self)@ == final(self)@.push(rgba8_at(pixel.bytes@, 0))
                    &&& final(old(self).rest.unwrap())@ == final(final(self).rest.unwrap())@
                        + final(pixel.bytes)@
                },
                None => {
                    &&& old(self)@.len() == 0
                    &&& final(self).rest.unwrap()@ == old(self).rest.unwrap()@
                    &&& final(final(self).rest.unwrap())@ == final(old(self).rest.unwrap())@
                },
            },
    {
        match self.rest.take() {
            None => None,
            Some(rest) => {
                let length: usize = rest.len();
                if length < 4 {
                    self.rest = Some(rest);
                    return None;
                }
                let ghost before = rest@;
                let (rest, bytes) = rest.split_at_mut(length - 4);
                proof {
                    assert(before =~= rest@ + bytes@);
                    rgba8_joined(rest@, bytes@);
                    one_rgba8(bytes@);
                    assert(rgba8_of(rest@) + seq![rgba8_at(bytes@, 0)] =~= rgba8_of(rest@).push(
                        rgba8_at(bytes@, 0),
                    ));
                }
                self.rest = Some(rest);
                Some(Rgba8PixelMut { bytes })
            },
        }
    }
}

/// Inverting an Rgba8 pixel twice gives it back.
pub proof fn rgba8_inverts_back(pixel: Rgba8Pixel)
    ensures
        pixel.inverted().inverted() == pixel,
{
}

/// What a checked operation on an Rgba8 pixel returns is what the clamped one returns, and the
/// opposite operation takes it back.
pub proof fn rgba8_checked_operations_agree(pixel: Rgba8Pixel, value: u8)
    ensures
        pixel.raised(value) matches Some(sum) ==> pixel.raised_or_full(value) == sum && sum.lowered(
            value,
        ) == Some(pixel),
        pixel.lowered(value) matches Some(rest) ==> pixel.lowered_or_empty(value) == rest
            && rest.raised(value) == Some(pixel),
{
}

/// One row-major eight-bit grayscale pixel.
///
/// CLIP raster masks decoded as [`PixelFormat::Gray8`] contain one value
/// channel and no independent alpha channel.
#[derive(Clone, Copy, Debug, Eq, PartialEq, Structural)]
pub struct Gray8Pixel {
    /// Grayscale value.
    pub value: u8,
}

impl Gray8Pixel {
    /// Minimum value of the grayscale channel.
    pub const CHANNEL_MIN: u8 = 0;

    /// Maximum value of the grayscale channel.
    pub const CHANNEL_MAX: u8 = 255;

    /// Pixel with every channel at its minimum.
    #[must_use]
    pub fn min() -> (pixel: Gray8Pixel)
        ensures
            pixel == (Gray8Pixel { value: 0 }),
    {
        Gray8Pixel { value: 0 }
    }

    /// Pixel with every channel at its maximum.
    #[must_use]
    pub fn max() -> (pixel: Gray8Pixel)
        ensures
            pixel == (Gray8Pixel { value: 255 }),
    {
        Gray8Pixel { value: 255 }
    }

    /// The pixel with its color mirrored.
    pub open spec fn inverted(self) -> Gray8Pixel {
        Gray8Pixel { value: mirrored(self.value) }
    }

    /// The pixel with a value added to its color.
    pub open spec fn raised(self, value: u8) -> Option<Gray8Pixel> {
        match raised(self.value, value) {
            Some(value) => Some(Gray8Pixel { value }),
            None => None,
        }
    }

    /// The pixel with a value subtracted from its color.
    pub open spec fn lowered(self, value: u8) -> Option<Gray8Pixel> {
        match lowered(self.value, value) {
            Some(value) => Some(Gray8Pixel { value }),
            None => None,
        }
    }

    /// The pixel with a value added to its color, clamped.
    pub open spec fn raised_or_full(self, value: u8) -> Gray8Pixel {
        Gray8Pixel { value: raised_or_full(self.value, value) }
    }

    /// The pixel with a value subtracted from its color, clamped.
    pub open spec fn lowered_or_empty(self, value: u8) -> Gray8Pixel {
        Gray8Pixel { value: lowered_or_empty(self.value, value) }
    }

    /// Inverts the grayscale value.
    pub fn invert(&mut self)
        ensures
            *final(self) == old(self).inverted(),
    {
        self.value = 255 - self.value;
    }

    /// Adds a value, returning `None` if the channel would overflow.
    #[must_use]
    pub fn checked_add(self, value: u8) -> (pixel: Option<Gray8Pixel>)
        ensures
            pixel == self.raised(value),
    {
        match self.value.checked_add(value) {
            Some(value) => Some(Gray8Pixel { value }),
            None => None,
        }
    }

    /// Subtracts a value, returning `None` if the channel would underflow.
    #[must_use]
    pub fn checked_sub(self, value: u8) -> (pixel: Option<Gray8Pixel>)
        ensures
            pixel == self.lowered(value),
    {
        match self.value.checked_sub(value) {
            Some(value) => Some(Gray8Pixel { value }),
            None => None,
        }
    }

    /// Adds a value and clamps the result to the channel range.
    #[must_use]
    pub fn saturating_add(self, value: u8) -> (pixel: Gray8Pixel)
        ensures
            pixel == self.raised_or_full(value),
    {
        Gray8Pixel { value: self.value.saturating_add(value) }
    }

    /// Subtracts a value and clamps the result to the channel range.
    #[must_use]
    pub fn saturating_sub(self, value: u8) -> (pixel: Gray8Pixel)
        ensures
            pixel == self.lowered_or_empty(value),
    {
        Gray8Pixel { value: self.value.saturating_sub(value) }
    }
}

/// The pixel at a position among row-major bytes.
pub open spec fn gray8_at(bytes: Seq<u8>, i: int) -> Gray8Pixel {
    Gray8Pixel { value: bytes[i] }
}

/// The pixels that row-major bytes hold.
pub open spec fn gray8_of(bytes: Seq<u8>) -> Seq<Gray8Pixel> {
    Seq::new(bytes.len(), |i: int| gray8_at(bytes, i))
}

/// The bytes that hold a pixel.
pub open spec fn gray8_bytes(pixel: Gray8Pixel) -> Seq<u8> {
    seq![pixel.value]
}

proof fn gray8_joined(front: Seq<u8>, back: Seq<u8>)
    requires
        front.len() % 1 == 0,
        back.len() % 1 == 0,
    ensures
        gray8_of(front + back) == gray8_of(front) + gray8_of(back),
{
    let whole = front + back;
    assert(gray8_of(whole).len() == gray8_of(front).len() + gray8_of(back).len());
    assert forall|i: int| 0 <= i < gray8_of(whole).len() implies #[trigger] gray8_of(whole)[i] == (
    gray8_of(front) + gray8_of(back))[i] by {
        if i < gray8_of(front).len() {
            assert(gray8_at(whole, i) == gray8_at(front, i));
        } else {
            let k = i - gray8_of(front).len();
            assert(1 * i == front.len() + 1 * k);
            assert(gray8_at(whole, i) == gray8_at(back, k));
        }
    }
    assert(gray8_of(whole) =~= gray8_of(front) + gray8_of(back));
}

proof fn one_gray8(bytes: Seq<u8>)
    requires
        bytes.len() == 1,
    ensures
        gray8_of(bytes) == seq![gray8_at(bytes, 0)],
{
    assert(gray8_of(bytes) =~= seq![gray8_at(bytes, 0)]);
}

fn read_gray8(bytes: &[u8]) -> (pixel: Gray8Pixel)
    requires
        bytes@.len() == 1,
    ensures
        pixel == gray8_at(bytes@, 0),
{
    Gray8Pixel { value: bytes[0] }
}

/// A walk over typed Gray8 pixels.
#[derive(Clone, Debug)]
pub struct Gray8Pixels<'a> {
    pub bytes: &'a [u8],
}

impl<'a> View for Gray8Pixels<'a> {
    type V = Seq<Gray8Pixel>;

    open spec fn view(&self) -> Seq<Gray8Pixel> {
        gray8_of(self.bytes@)
    }
}

impl<'a> Gray8Pixels<'a> {
    pub(crate) fn over(bytes: &'a [u8]) -> (pixels: Gray8Pixels<'a>)
        ensures
            pixels@ == gray8_of(bytes@),
            pixels.whole(),
    {
        Gray8Pixels { bytes }
    }

    /// Whether the walk covers whole pixels.
    pub open spec fn whole(self) -> bool {
        self.bytes@.len() % 1 == 0
    }

    /// How many pixels are left.
    #[must_use]
    pub fn len(&self) -> (count: usize)
        ensures
            count == self@.len(),
    {
        self.bytes.len() / 1
    }

    /// The first of the pixels that are left.
    pub fn next(&mut self) -> (pixel: Option<Gray8Pixel>)
        requires
            old(self).whole(),
        ensures
            final(self).whole(),
            match pixel {
                Some(pixel) => old(self)@ == seq![pixel] + final(self)@,
                None => old(self)@.len() == 0 && final(self)@.len() == 0,
            },
    {
        if self.bytes.len() < 1 {
            return None;
        }
        let (first, rest) = self.bytes.split_at(1);
        proof {
            assert(self.bytes@ =~= first@ + rest@);
            gray8_joined(first@, rest@);
            one_gray8(first@);
        }
        self.bytes = rest;
        Some(read_gray8(first))
    }

    /// The last of the pixels that are left.
    pub fn next_back(&mut self) -> (pixel: Option<Gray8Pixel>)
        requires
            old(self).whole(),
        ensures
            final(self).whole(),
            match pixel {
                Some(pixel) => old(self)@ == final(self)@.push(pixel),
                None => old(self)@.len() == 0 && final(self)@.len() == 0,
            },
    {
        if self.bytes.len() < 1 {
            return None;
        }
        let (rest, last) = self.bytes.split_at(self.bytes.len() - 1);
        proof {
            assert(self.bytes@ =~= rest@ + last@);
            gray8_joined(rest@, last@);
            one_gray8(last@);
            assert(gray8_of(rest@) + seq![gray8_at(last@, 0)] =~= gray8_of(rest@).push(
                gray8_at(last@, 0),
            ));
        }
        self.bytes = rest;
        Some(read_gray8(last))
    }

    /// All of the pixels that are left.
    #[must_use]
    pub fn collect(self) -> (pixels: Vec<Gray8Pixel>)
        requires
            self.whole(),
        ensures
            pixels@ == self@,
    {
        let ghost all = self@;
        let mut walk = self;
        let mut pixels: Vec<Gray8Pixel> = Vec::new();
        assert(all =~= pixels@ + walk@);
        loop
            invariant
                walk.whole(),
                all == pixels@ + walk@,
                all == self@,
            decreases walk@.len(),
        {
            let ghost before = walk@;
            match walk.next() {
                Some(pixel) => {
                    assert(pixels@ + before =~= pixels@.push(pixel) + walk@);
                    pixels.push(pixel);
                },
                None => {
                    assert(pixels@ =~= all);
                    return pixels;
                },
            }
        }
    }
}

/// One Gray8 pixel in place: what is set here is set in the image.
#[derive(Debug)]
pub struct Gray8PixelMut<'a> {
    pub bytes: &'a mut [u8],
}

impl<'a> Gray8PixelMut<'a> {
    /// The bytes of the pixel.
    pub open spec fn now(self) -> Seq<u8> {
        self.bytes@
    }

    /// Whether the bytes make one pixel.
    pub open spec fn whole(self) -> bool {
        self.bytes@.len() == 1
    }

    /// The pixel as it stands.
    #[must_use]
    pub fn get(&self) -> (pixel: Gray8Pixel)
        requires
            self.whole(),
        ensures
            pixel == gray8_at(self.now(), 0),
    {
        Gray8Pixel { value: self.bytes[0] }
    }

    /// Replaces the pixel.
    pub fn set(&mut self, pixel: Gray8Pixel)
        requires
            old(self).whole(),
        ensures
            final(self).bytes@ == gray8_bytes(pixel),
            final(final(self).bytes)@ == final(old(self).bytes)@,
    {
        self.bytes[0] = pixel.value;
        assert(self.bytes@ =~= gray8_bytes(pixel));
    }

    /// Inverts the grayscale value.
    pub fn invert(&mut self)
        requires
            old(self).whole(),
        ensures
            final(self).bytes@ == gray8_bytes(gray8_at(old(self).bytes@, 0).inverted()),
            final(final(self).bytes)@ == final(old(self).bytes)@,
    {
        let mut pixel = self.get();
        pixel.invert();
        self.set(pixel);
    }
}

/// A walk over typed Gray8 pixels in place.
#[derive(Debug)]
pub struct Gray8PixelsMut<'a> {
    pub rest: Option<&'a mut [u8]>,
}

impl<'a> View for Gray8PixelsMut<'a> {
    type V = Seq<Gray8Pixel>;

    open spec fn view(&self) -> Seq<Gray8Pixel> {
        match self.rest {
            Some(bytes) => gray8_of(bytes@),
            None => Seq::empty(),
        }
    }
}

impl<'a> Gray8PixelsMut<'a> {
    /// Whether the walk covers whole pixels.
    pub open spec fn whole(self) -> bool {
        self.rest is Some && self.rest.unwrap()@.len() % 1 == 0
    }

    /// How many pixels are left.
    #[must_use]
    pub fn len(&self) -> (count: usize)
        ensures
            count == self@.len(),
    {
        match &self.rest {
            Some(bytes) => bytes.len() / 1,
            None => 0,
        }
    }

    /// The first of the pixels that are left. What it and the walk are set to at last
    /// makes up what the walk covered before.
    pub fn next(&mut self) -> (pixel: Option<Gray8PixelMut<'a>>)
        requires
            old(self).whole(),
        ensures
            final(self).whole(),
            match pixel {
                Some(pixel) => {
                    &&& pixel.whole()
                    &&& old(self).rest.unwrap()@ == pixel.bytes@ + final(self).rest.unwrap()@
                    &&& old(self)@ == seq![gray8_at(pixel.bytes@, 0)] + final(self)@
                    &&& final(old(self).rest.unwrap())@ == final(pixel.bytes)@
                        + final(final(self).rest.unwrap())@
                },
                None => {
                    &&& old(self)@.len() == 0
                    &&& final(self).rest.unwrap()@ == old(self).rest.unwrap()@
                    &&& final(final(self).rest.unwrap())@ == final(old(self).rest.unwrap())@
                },
            },
    {
        match self.rest.take() {
            None => None,
            Some(rest) => {
                if rest.len() < 1 {
                    self.rest = Some(rest);
                    return None;
                }
                let ghost before = rest@;
                let (bytes, rest) = rest.split_at_mut(1);
                proof {
                    assert(before =~= bytes@ + rest@);
                    gray8_joined(bytes@, rest@);
                    one_gray8(bytes@);
                }
                self.rest = Some(rest);
                Some(Gray8PixelMut { bytes })
            },
        }
    }

    /// The last of the pixels that are left. What it and the walk are set to at last
    /// makes up what the walk covered before.
    pub fn next_back(&mut self) -> (pixel: Option<Gray8PixelMut<'a>>)
        requires
            old(self).whole(),
        ensures
            final(self).whole(),
            match pixel {
                Some(pixel) => {
                    &&& pixel.whole()
                    &&& old(self).rest.unwrap()@ == final(self).rest.unwrap()@ + pixel.bytes@
                    &&& old(self)@ == final(self)@.push(gray8_at(pixel.bytes@, 0))
                    &&& final(old(self).rest.unwrap())@ == final(final(self).rest.unwrap())@
                        + final(pixel.bytes)@
                },
                None => {
                    &&& old(self)@.len() == 0
                    &&& final(self).rest.unwrap()@ == old(self).rest.unwrap()@
                    &&& final(final(self).rest.unwrap())@ == final(old(self).rest.unwrap())@
                },
            },
    {
        match self.rest.take() {
            None => None,
            Some(rest) => {
                let length: usize = rest.len();
                if length < 1 {
                    self.rest = Some(rest);
                    return None;
                }
                let ghost before = rest@;
                let (rest, bytes) = rest.split_at_mut(length - 1);
                proof {
                    assert(before =~= rest@ + bytes@);
                    gray8_joined(rest@, bytes@);
                    one_gray8(bytes@);
                    assert(gray8_of(rest@) + seq![gray8_at(bytes@, 0)] =~= gray8_of(rest@).push(
                        gray8_at(bytes@, 0),
                    ));
                }
                self.rest = Some(rest);
                Some(Gray8PixelMut { bytes })
            },
        }
    }
}

/// Inverting a Gray8 pixel twice gives it back.
pub proof fn gray8_inverts_back(pixel: Gray8Pixel)
    ensures
        pixel.inverted().inverted() == pixel,
{
}

/// What a checked operation on a Gray8 pixel returns is what the clamped one returns, and the
/// opposite operation takes it back.
pub proof fn gray8_checked_operations_agree(pixel: Gray8Pixel, value: u8)
    ensures
        pixel.raised(value) matches Some(sum) ==> pixel.raised_or_full(value) == sum && sum.lowered(
            value,
        ) == Some(pixel),
        pixel.lowered(value) matches Some(rest) ==> pixel.lowered_or_empty(value) == rest
            && rest.raised(value) == Some(pixel),
{
}

/// One row-major eight-bit grayscale pixel with independent alpha.
#[derive(Clone, Copy, Debug, Eq, PartialEq, Structural)]
pub struct GrayAlpha8Pixel {
    /// Grayscale value.
    pub value: u8,
    /// Alpha channel.
    pub alpha: u8,
}

impl GrayAlpha8Pixel {
    /// Minimum value of each channel.
    pub const CHANNEL_MIN: u8 = 0;

    /// Maximum value of each channel.
    pub const CHANNEL_MAX: u8 = 255;

    /// Pixel with every channel at its minimum.
    #[must_use]
    pub fn min() -> (pixel: GrayAlpha8Pixel)
        ensures
            pixel == (GrayAlpha8Pixel { value: 0, alpha: 0 }),
    {
        GrayAlpha8Pixel { value: 0, alpha: 0 }
    }

    /// Pixel with every channel at its maximum.
    #[must_use]
    pub fn max() -> (pixel: GrayAlpha8Pixel)
        ensures
            pixel == (GrayAlpha8Pixel { value: 255, alpha: 255 }),
    {
        GrayAlpha8Pixel { value: 255, alpha: 255 }
    }

    /// The pixel with its color mirrored.
    pub open spec fn inverted(self) -> GrayAlpha8Pixel {
        GrayAlpha8Pixel { value: mirrored(self.value), alpha: self.alpha }
    }

    /// The pixel with a value added to its color.
    pub open spec fn raised(self, value: u8) -> Option<GrayAlpha8Pixel> {
        match raised(self.value, value) {
            Some(value) => Some(GrayAlpha8Pixel { value, alpha: self.alpha }),
            None => None,
        }
    }

    /// The pixel with a value subtracted from its color.
    pub open spec fn lowered(self, value: u8) -> Option<GrayAlpha8Pixel> {
        match lowered(self.value, value) {
            Some(value) => Some(GrayAlpha8Pixel { value, alpha: self.alpha }),
            None => None,
        }
    }

    /// The pixel with a value added to its color, clamped.
    pub open spec fn raised_or_full(self, value: u8) -> GrayAlpha8Pixel {
        GrayAlpha8Pixel { value: raised_or_full(self.value, value), alpha: self.alpha }
    }

    /// The pixel with a value subtracted from its color, clamped.
    pub open spec fn lowered_or_empty(self, value: u8) -> GrayAlpha8Pixel {
        GrayAlpha8Pixel { value: lowered_or_empty(self.value, value), alpha: self.alpha }
    }

    /// Inverts the grayscale value while preserving alpha.
    pub fn invert(&mut self)
        ensures
            *final(self) == old(self).inverted(),
    {
        self.value = 255 - self.value;
    }

    /// Inverts the grayscale value while preserving alpha.
    ///
    /// This explicit alias is equivalent to [`Self::invert`].
    pub fn invert_value(&mut self)
        ensures
            *final(self) == old(self).inverted(),
    {
        self.invert();
    }

    /// Adds to the grayscale value, returning `None` on overflow.
    #[must_use]
    pub fn checked_add_value(self, value: u8) -> (pixel: Option<GrayAlpha8Pixel>)
        ensures
            pixel == self.raised(value),
    {
        match self.value.checked_add(value) {
            Some(value) => Some(GrayAlpha8Pixel { value, alpha: self.alpha }),
            None => None,
        }
    }

    /// Subtracts from the grayscale value, returning `None` on underflow.
    #[must_use]
    pub fn checked_sub_value(self, value: u8) -> (pixel: Option<GrayAlpha8Pixel>)
        ensures
            pixel == self.lowered(value),
    {
        match self.value.checked_sub(value) {
            Some(value) => Some(GrayAlpha8Pixel { value, alpha: self.alpha }),
            None => None,
        }
    }

    /// Adds to the grayscale value and clamps it to the channel range.
    #[must_use]
    pub fn saturating_add_value(self, value: u8) -> (pixel: GrayAlpha8Pixel)
        ensures
            pixel == self.raised_or_full(value),
    {
        GrayAlpha8Pixel { value: self.value.saturating_add(value), alpha: self.alpha }
    }

    /// Subtracts from the grayscale value and clamps it to the channel range.
    #[must_use]
    pub fn saturating_sub_value(self, value: u8) -> (pixel: GrayAlpha8Pixel)
        ensures
            pixel == self.lowered_or_empty(value),
    {
        GrayAlpha8Pixel { value: self.value.saturating_sub(value), alpha: self.alpha }
    }
}

/// The pixel at a position among row-major bytes.
pub open spec fn gray_alpha8_at(bytes: Seq<u8>, i: int) -> GrayAlpha8Pixel {
    GrayAlpha8Pixel { value: bytes[2 * i], alpha: bytes[2 * i + 1] }
}

/// The pixels that row-major bytes hold.
pub open spec fn gray_alpha8_of(bytes: Seq<u8>) -> Seq<GrayAlpha8Pixel> {
    Seq::new(bytes.len() / 2, |i: int| gray_alpha8_at(bytes, i))
}

/// The bytes that hold a pixel.
pub open spec fn gray_alpha8_bytes(pixel: GrayAlpha8Pixel) -> Seq<u8> {
    seq![pixel.value, pixel.alpha]
}

proof fn gray_alpha8_joined(front: Seq<u8>, back: Seq<u8>)
    requires
        front.len() % 2 == 0,
        back.len() % 2 == 0,
    ensures
        gray_alpha8_of(front + back) == gray_alpha8_of(front) + gray_alpha8_of(back),
{
    let whole = front + back;
    assert(gray_alpha8_of(whole).len() == gray_alpha8_of(front).len() + gray_alpha8_of(back).len());
    assert forall|i: int| 0 <= i < gray_alpha8_of(whole).len() implies #[trigger] gray_alpha8_of(whole)[i] == (
    gray_alpha8_of(front) + gray_alpha8_of(back))[i] by {
        if i < gray_alpha8_of(front).len() {
            assert(gray_alpha8_at(whole, i) == gray_alpha8_at(front, i));
        } else {
            let k = i - gray_alpha8_of(front).len();
            assert(2 * i == front.len() + 2 * k);
            assert(gray_alpha8_at(whole, i) == gray_alpha8_at(back, k));
        }
    }
    assert(gray_alpha8_of(whole) =~= gray_alpha8_of(front) + gray_alpha8_of(back));
}

proof fn one_gray_alpha8(bytes: Seq<u8>)
    requires
        bytes.len() == 2,
    ensures
        gray_alpha8_of(bytes) == seq![gray_alpha8_at(bytes, 0)],
{
    assert(gray_alpha8_of(bytes) =~= seq![gray_alpha8_at(bytes, 0)]);
}

fn read_gray_alpha8(bytes: &[u8]) -> (pixel: GrayAlpha8Pixel)
    requires
        bytes@.len() == 2,
    ensures
        pixel == gray_alpha8_at(bytes@, 0),
{
    GrayAlpha8Pixel { value: bytes[0], alpha: bytes[1] }
}

/// A walk over typed GrayAlpha8 pixels.
#[derive(Clone, Debug)]
pub struct GrayAlpha8Pixels<'a> {
    pub bytes: &'a [u8],
}

impl<'a> View for GrayAlpha8Pixels<'a> {
    type V = Seq<GrayAlpha8Pixel>;

    open spec fn view(&self) -> Seq<GrayAlpha8Pixel> {
        gray_alpha8_of(self.bytes@)
    }
}

impl<'a> GrayAlpha8Pixels<'a> {
    pub(crate) fn over(bytes: &'a [u8]) -> (pixels: GrayAlpha8Pixels<'a>)
        ensures
            pixels@ == gray_alpha8_of(bytes@),
            pixels.whole(),
    {
        let ghost old_bytes = bytes@;
        let (bytes, rest) = bytes.split_at(bytes.len() - bytes.len() % 2);
        let pixels = GrayAlpha8Pixels { bytes };
        assert(pixels@ =~= gray_alpha8_of(bytes@ + rest@));
        assert(bytes@ + rest@ =~= old_bytes);
        pixels
    }

    /// Whether the walk covers whole pixels.
    pub open spec fn whole(self) -> bool {
        self.bytes@.len() % 2 == 0
    }

    /// How many pixels are left.
    #[must_use]
    pub fn len(&self) -> (count: usize)
        ensures
            count == self@.len(),
    {
        self.bytes.len() / 2
    }

    /// The first of the pixels that are left.
    pub fn next(&mut self) -> (pixel: Option<GrayAlpha8Pixel>)
        requires
            old(self).whole(),
        ensures
            final(self).whole(),
            match pixel {
                Some(pixel) => old(self)@ == seq![pixel] + final(self)@,
                None => old(self)@.len() == 0 && final(self)@.len() == 0,
            },
    {
        if self.bytes.len() < 2 {
            return None;
        }
        let (first, rest) = self.bytes.split_at(2);
        proof {
            assert(self.bytes@ =~= first@ + rest@);
            gray_alpha8_joined(first@, rest@);
            one_gray_alpha8(first@);
        }
        self.bytes = rest;
        Some(read_gray_alpha8(first))
    }

    /// The last of the pixels that are left.
    pub fn next_back(&mut self) -> (pixel: Option<GrayAlpha8Pixel>)
        requires
            old(self).whole(),
        ensures
            final(self).whole(),
            match pixel {
                Some(pixel) => old(self)@ == final(self)@.push(pixel),
                None => old(self)@.len() == 0 && final(self)@.len() == 0,
            },
    {
        if self.bytes.len() < 2 {
            return None;
        }
        let (rest, last) = self.bytes.split_at(self.bytes.len() - 2);
        proof {
            assert(self.bytes@ =~= rest@ + last@);
            gray_alpha8_joined(rest@, last@);
            one_gray_alpha8(last@);
            assert(gray_alpha8_of(rest@) + seq![gray_alpha8_at(last@, 0)] =~= gray_alpha8_of(rest@).push(
                gray_alpha8_at(last@, 0),
            ));
        }
        self.bytes = rest;
        Some(read_gray_alpha8(last))
    }

    /// All of the pixels that are left.
    #[must_use]
    pub fn collect(self) -> (pixels: Vec<GrayAlpha8Pixel>)
        requires
            self.whole(),
        ensures
            pixels@ == self@,
    {
        let ghost all = self@;
        let mut walk = self;
        let mut pixels: Vec<GrayAlpha8Pixel> = Vec::new();
        assert(all =~= pixels@ + walk@);
        loop
            invariant
                walk.whole(),
                all == pixels@ + walk@,
                all == self@,
            decreases walk@.len(),
        {
            let ghost before = walk@;
            match walk.next() {
                Some(pixel) => {
                    assert(pixels@ + before =~= pixels@.push(pixel) + walk@);
                    pixels.push(pixel);
                },
                None => {
                    assert(pixels@ =~= all);
                    return pixels;
                },
            }
        }
    }
}

/// One GrayAlpha8 pixel in place: what is set here is set in the image.
#[derive(Debug)]
pub struct GrayAlpha8PixelMut<'a> {
    pub bytes: &'a mut [u8],
}

impl<'a> GrayAlpha8PixelMut<'a> {
    /// The bytes of the pixel.
    pub open spec fn now(self) -> Seq<u8> {
        self.bytes@
    }

    /// Whether the bytes make one pixel.
    pub open spec fn whole(self) -> bool {
        self.bytes@.len() == 2
    }

    /// The pixel as it stands.
    #[must_use]
    pub fn get(&self) -> (pixel: GrayAlpha8Pixel)
        requires
            self.whole(),
        ensures
            pixel == gray_alpha8_at(self.now(), 0),
    {
        GrayAlpha8Pixel { value: self.bytes[0], alpha: self.bytes[1] }
    }

    /// Replaces the pixel.
    pub fn set(&mut self, pixel: GrayAlpha8Pixel)
        requires
            old(self).whole(),
        ensures
            final(self).bytes@ == gray_alpha8_bytes(pixel),
            final(final(self).bytes)@ == final(old(self).bytes)@,
    {
        self.bytes[0] = pixel.value;
        self.bytes[1] = pixel.alpha;
        assert(self.bytes@ =~= gray_alpha8_bytes(pixel));
    }

    /// Inverts the grayscale value while preserving alpha.
    pub fn invert(&mut self)
        requires
            old(self).whole(),
        ensures
            final(self).bytes@ == gray_alpha8_bytes(gray_alpha8_at(old(self).bytes@, 0).inverted()),
            final(final(self).bytes)@ == final(old(self).bytes)@,
    {
        let mut pixel = self.get();
        pixel.invert();
        self.set(pixel);
    }
}

/// A walk over typed GrayAlpha8 pixels in place.
#[derive(Debug)]
pub struct GrayAlpha8PixelsMut<'a> {
    pub rest: Option<&'a mut [u8]>,
}

impl<'a> View for GrayAlpha8PixelsMut<'a> {
    type V = Seq<GrayAlpha8Pixel>;

    open spec fn view(&self) -> Seq<GrayAlpha8Pixel> {
        match self.rest {
            Some(bytes) => gray_alpha8_of(bytes@),
            None => Seq::empty(),
        }
    }
}

impl<'a> GrayAlpha8PixelsMut<'a> {
    /// Whether the walk covers whole pixels.
    pub open spec fn whole(self) -> bool {
        self.rest is Some && self.rest.unwrap()@.len() % 2 == 0
    }

    /// How many pixels are left.
    #[must_use]
    pub fn len(&self) -> (count: usize)
        ensures
            count == self@.len(),
    {
        match &self.rest {
            Some(bytes) => bytes.len() / 2,
            None => 0,
        }
    }

    /// The first of the pixels that are left. What it and the walk are set to at last
    /// makes up what the walk covered before.
    pub fn next(&mut self) -> (pixel: Option<GrayAlpha8PixelMut<'a>>)
        requires
            old(self).whole(),
        ensures
            final(self).whole(),
            match pixel {
                Some(pixel) => {
                    &&& pixel.whole()
                    &&& old(self).rest.unwrap()@ == pixel.bytes@ + final(self).rest.unwrap()@
                    &&& old(self)@ == seq![gray_alpha8_at(pixel.bytes@, 0)] + final(self)@
                    &&& final(old(self).rest.unwrap())@ == final(pixel.bytes)@
                        + final(final(self).rest.unwrap())@
                },
                None => {
                    &&& old(self)@.len() == 0
                    &&& final(self).rest.unwrap()@ == old(self).rest.unwrap()@
                    &&& final(final(self).rest.unwrap())@ == final(old(self).rest.unwrap())@
                },
            },
    {
        match self.rest.take() {
            None => None,
            Some(rest) => {
                if rest.len() < 2 {
                    self.rest = Some(rest);
                    return None;
                }
                let ghost before = rest@;
                let (bytes, rest) = rest.split_at_mut(2);
                proof {
                    assert(before =~= bytes@ + rest@);
                    gray_alpha8_joined(bytes@, rest@);
                    one_gray_alpha8(bytes@);
                }
                self.rest = Some(rest);
                Some(GrayAlpha8PixelMut { bytes })
            },
        }
    }

    /// The last of the pixels that are left. What it and the walk are set to at last
    /// makes up what the walk covered before.
    pub fn next_back(&mut self) -> (pixel: Option<GrayAlpha8PixelMut<'a>>)
        requires
            old(self).whole(),
        ensures
            final(self).whole(),
            match pixel {
                Some(pixel) => {
                    &&& pixel.whole()
                    &&& old(self).rest.unwrap()@ == final(self).rest.unwrap()@ + pixel.bytes@
                    &&& old(self)@ == final(self)@.push(gray_alpha8_at(pixel.bytes@, 0))
                    &&& final(old(self).rest.unwrap())@ == final(final(self).rest.unwrap())@
                        + final(pixel.bytes)@
                },
                None => {
                    &&& old(self)@.len() == 0
                    &&& final(self).rest.unwrap()@ == old(self).rest.unwrap()@
                    &&& final(final(self).rest.unwrap())@ == final(old(self).rest.unwrap())@
                },
            },
    {
        match self.rest.take() {
            None => None,
            Some(rest) => {
                let length: usize = rest.len();
                if length < 2 {
                    self.rest = Some(rest);
                    return None;
                }
                let ghost before = rest@;
                let (rest, bytes) = rest.split_at_mut(length - 2);
                proof {
                    assert(before =~= rest@ + bytes@);
                    gray_alpha8_joined(rest@, bytes@);
                    one_gray_alpha8(bytes@);
                    assert(gray_alpha8_of(rest@) + seq![gray_alpha8_at(bytes@, 0)] =~= gray_alpha8_of(rest@).push(
                        gray_alpha8_at(bytes@, 0),
                    ));
                }
                self.rest = Some(rest);
                Some(GrayAlpha8PixelMut { bytes })
            },
        }
    }
}

/// Inverting a GrayAlpha8 pixel twice gives it back.
pub proof fn gray_alpha8_inverts_back(pixel: GrayAlpha8Pixel)
    ensures
        pixel.inverted().inverted() == pixel,
{
}

/// What a checked operation on a GrayAlpha8 pixel returns is what the clamped one returns, and the
/// opposite operation takes it back.
pub proof fn gray_alpha8_checked_operations_agree(pixel: GrayAlpha8Pixel, value: u8)
    ensures
        pixel.raised(value) matches Some(sum) ==> pixel.raised_or_full(value) == sum && sum.lowered(
            value,
        ) == Some(pixel),
        pixel.lowered(value) matches Some(rest) ==> pixel.lowered_or_empty(value) == rest
            && rest.raised(value) == Some(pixel),
{
}


} // verus!
