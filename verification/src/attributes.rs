//! Offscreen attributes: the size of a bitmap, its tiles, and how its pixels are packed.

use vstd::prelude::*;

use crate::bytes;
use crate::bytes::{copy_bytes, push_be32, read_be32};
use crate::error;
use crate::error::{Error, Failure};
use crate::message;
use crate::message::Message;
use crate::pixels::PixelFormat;
use crate::text_codec;
use crate::text_codec::{decode_utf16be, same_text};

verus! {

/// The sixteen big-endian values in an `Offscreen.Attribute` packing record.
#[derive(Clone, Copy, Debug, Eq, PartialEq)]
pub struct PixelPacking {
    pub raw: [u32; 16],
}

impl View for PixelPacking {
    type V = Seq<u32>;

    open spec fn view(&self) -> Seq<u32> {
        self.raw@
    }
}

/// Color-buffer depth per channel when evenly divisible.
pub open spec fn channel_depth(packing: Seq<u32>) -> Option<u32> {
    if packing[2] == 0 || (packing[6] >> 5) % packing[2] != 0 {
        None
    } else {
        Some((packing[6] >> 5) / packing[2])
    }
}

impl PixelPacking {
    /// All values, including fields whose semantics are not yet understood.
    #[must_use]
    pub fn raw(&self) -> (raw: [u32; 16])
        ensures
            raw@ == self@,
    {
        self.raw
    }

    /// Number of leading planar alpha channels.
    #[must_use]
    pub fn alpha_channels(&self) -> (value: u32)
        ensures
            value == (self@[1]),
    {
        self.raw[1]
    }

    /// Number of interleaved color-buffer channels.
    #[must_use]
    pub fn buffer_channels(&self) -> (value: u32)
        ensures
            value == (self@[2]),
    {
        self.raw[2]
    }

    /// Total channel count recorded by the format.
    #[must_use]
    pub fn total_channels(&self) -> (value: u32)
        ensures
            value == (self@[3]),
    {
        self.raw[3]
    }

    /// Total interleaved color-buffer depth in bits per pixel.
    #[must_use]
    pub fn buffer_bit_depth(&self) -> (value: u32)
        ensures
            value == (self@[6] >> 5),
    {
        self.raw[6] >> 5
    }

    /// Alpha depth in bits after decoding the stored fixed-point value.
    #[must_use]
    pub fn alpha_bit_depth(&self) -> (value: u32)
        ensures
            value == (self@[8] >> 5),
    {
        self.raw[8] >> 5
    }

    /// Width of one tile in pixels.
    #[must_use]
    pub fn block_width(&self) -> (value: u32)
        ensures
            value == (self@[10]),
    {
        self.raw[10]
    }

    /// Height of one tile in pixels.
    #[must_use]
    pub fn block_height(&self) -> (value: u32)
        ensures
            value == (self@[11]),
    {
        self.raw[11]
    }

    /// Whether the format marks the buffer as monochrome/bit-packed.
    #[must_use]
    pub fn is_monochrome(&self) -> (value: bool)
        ensures
            value == (self@[14] != 0),
    {
        self.raw[14] != 0
    }

    /// Color-buffer depth per channel when evenly divisible.
    #[must_use]
    pub fn buffer_bits_per_channel(&self) -> (value: Option<u32>)
        ensures
            value == channel_depth(self@),
    {
        let channels: u32 = self.raw[2];
        let depth: u32 = self.buffer_bit_depth();
        if channels == 0 || depth % channels != 0 {
            None
        } else {
            Some(depth / channels)
        }
    }
}

/// Parsed metadata from an SQLite `Offscreen.Attribute` BLOB.
#[derive(Clone, Debug, PartialEq, Eq)]
pub struct OffscreenAttributes {
    pub bitmap_width: u32,
    pub bitmap_height: u32,
    pub block_grid_width: u32,
    pub block_grid_height: u32,
    pub packing: PixelPacking,
    pub default_fill: u32,
    pub initial_colors: Vec<u32>,
    pub block_sizes: Vec<u32>,
}

/// The model of an [`OffscreenAttributes`].
#[verifier::ext_equal]
pub struct AttributesModel {
    pub bitmap_width: u32,
    pub bitmap_height: u32,
    pub block_grid_width: u32,
    pub block_grid_height: u32,
    pub packing: Seq<u32>,
    pub default_fill: u32,
    pub initial_colors: Seq<u32>,
    pub block_sizes: Seq<u32>,
}

impl View for OffscreenAttributes {
    type V = AttributesModel;

    open spec fn view(&self) -> AttributesModel {
        AttributesModel {
            bitmap_width: self.bitmap_width,
            bitmap_height: self.bitmap_height,
            block_grid_width: self.block_grid_width,
            block_grid_height: self.block_grid_height,
            packing: self.packing@,
            default_fill: self.default_fill,
            initial_colors: self.initial_colors@,
            block_sizes: self.block_sizes@,
        }
    }
}

fn invalid(reason: Message) -> (error: Error)
    ensures
        error@ == (Failure::InvalidRaster { reason: reason@ }),
{
    Error::InvalidRaster { reason: reason.build() }
}

/// What is said of a section that ends elsewhere than announced.
pub open spec fn end_complaint(section: Seq<char>, end: int, expected: int) -> Seq<char> {
    section + " section ended at "@ + message::decimal(end as nat) + ", expected "@
        + message::decimal(expected as nat)
}

fn wrong_end(section: &str, end: usize, expected: usize) -> (error: Error)
    ensures
        error@ == (Failure::InvalidRaster {
            reason: end_complaint(section@, end as int, expected as int),
        }),
{
    invalid(
        Message::new(section).text(" section ended at ").number(end as u64).text(
            ", expected ",
        ).number(expected as u64),
    )
}

/// What it means that something ends past the end of the data.
pub open spec fn past_end(end: int, complaint: Seq<char>) -> Failure {
    if end > usize::MAX {
        Failure::OffsetOverflow
    } else {
        Failure::InvalidRaster { reason: complaint }
    }
}

/// The numbers from a position on.
pub open spec fn words_at(data: Seq<u8>, at: int, count: nat) -> Seq<u32> {
    Seq::new(count, |i: int| bytes::be32(data, at + 4 * i) as u32)
}

/// The numbers from a position on, where the data holds them all.
pub open spec fn words_of(data: Seq<u8>, at: int, count: nat) -> Result<Seq<u32>, Failure> {
    if at + 4 * count <= data.len() {
        Ok(words_at(data, at, count))
    } else {
        Err(
            past_end(
                at + 4 * ((data.len() - at) / 4) + 4,
                "unexpected end of Offscreen.Attribute"@,
            ),
        )
    }
}

fn read_words(data: &[u8], at: usize, count: usize) -> (words: Result<Vec<u32>, Error>)
    requires
        at <= data@.len(),
    ensures
        error::outcome(words) == words_of(data@, at as int, count as nat),
{
    assert(data.len() == data@.len());
    let mut words: Vec<u32> = Vec::new();
    let mut next: usize = at;
    assert(words@ =~= words_at(data@, at as int, 0));
    while words.len() < count
        invariant
            data.len() == data@.len(),
            at <= data@.len(),
            words@.len() <= count,
            next == at + 4 * words@.len(),
            next <= data@.len(),
            words@ == words_at(data@, at as int, words@.len()),
        decreases count - words@.len(),
    {
        let end: usize = match next.checked_add(4) {
            Some(end) => end,
            None => return Err(Error::OffsetOverflow),
        };
        if end > data.len() {
            return Err(invalid(Message::new("unexpected end of Offscreen.Attribute")));
        }
        let ghost before = words@;
        words.push(read_be32(data, next));
        next = end;
        assert(words@ =~= words_at(data@, at as int, words@.len()));
    }
    Ok(words)
}

/// Where a label that stands at a position ends.
pub open spec fn label_end(data: Seq<u8>, at: int, label: Seq<char>) -> Result<int, Failure> {
    if at + 4 > data.len() {
        Err(past_end(at + 4, "unexpected end of Offscreen.Attribute"@))
    } else {
        let count = bytes::be32(data, at);
        let end = at + 4 + 2 * count;
        if 2 * count > usize::MAX {
            Err(Failure::OffsetOverflow)
        } else if end > data.len() {
            Err(past_end(end, "attribute label extends beyond the BLOB"@))
        } else {
            match text_codec::utf16_text(text_codec::units_at(data, at + 4, count as nat)) {
                None => Err(
                    Failure::InvalidRaster { reason: "attribute label is not valid UTF-16BE"@ },
                ),
                Some(text) => if text != label {
                    Err(
                        Failure::InvalidRaster {
                            reason: "attribute label is "@ + message::quoted_text(text)
                                + ", expected "@ + message::quoted_text(label),
                        },
                    )
                } else {
                    Ok(end)
                },
            }
        }
    }
}

fn read_label(data: &[u8], at: usize, label: &str) -> (end: Result<usize, Error>)
    ensures
        match end {
            Ok(end) => label_end(data@, at as int, label@) == Ok::<int, Failure>(end as int) && at
                + 4 <= end <= data@.len(),
            Err(error) => label_end(data@, at as int, label@) == Err::<int, Failure>(error@),
        },
{
    assert(data.len() == data@.len());
    let start: usize = match at.checked_add(4) {
        Some(start) => start,
        None => return Err(Error::OffsetOverflow),
    };
    if start > data.len() {
        return Err(invalid(Message::new("unexpected end of Offscreen.Attribute")));
    }
    let count: usize = read_be32(data, at) as usize;
    let size: usize = match count.checked_mul(2) {
        Some(size) => size,
        None => return Err(Error::OffsetOverflow),
    };
    let end: usize = match start.checked_add(size) {
        Some(end) => end,
        None => return Err(Error::OffsetOverflow),
    };
    if end > data.len() {
        return Err(invalid(Message::new("attribute label extends beyond the BLOB")));
    }
    match decode_utf16be(data, start, count) {
        Some(text) => if same_text(text.as_str(), label) {
            Ok(end)
        } else {
            Err(
                invalid(
                    Message::new("attribute label is ").quoted(text.as_str()).text(
                        ", expected ",
                    ).quoted(label),
                ),
            )
        },
        None => Err(invalid(Message::new("attribute label is not valid UTF-16BE"))),
    }
}

/// The twenty numbers of the `Parameter` section from `at` to `end`.
pub open spec fn parameters_of(data: Seq<u8>, at: int, end: int) -> Result<Seq<u32>, Failure> {
    match label_end(data, at, "Parameter"@) {
        Err(failure) => Err(failure),
        Ok(start) => match words_of(data, start, 20) {
            Err(failure) => Err(failure),
            Ok(words) => if start + 80 != end {
                Err(
                    Failure::InvalidRaster {
                        reason: end_complaint("Parameter"@, start + 80, end),
                    },
                )
            } else {
                Ok(words)
            },
        },
    }
}

fn read_parameters(data: &[u8], at: usize, end: usize) -> (words: Result<Vec<u32>, Error>)
    ensures
        error::outcome(words) == parameters_of(data@, at as int, end as int),
        words matches Ok(words) ==> words@.len() == 20,
{
    assert(data.len() == data@.len());
    let start: usize = read_label(data, at, "Parameter")?;
    let words = read_words(data, start, 20)?;
    if start + 80 != end {
        return Err(wrong_end("Parameter", start + 80, end));
    }
    Ok(words)
}

/// The default fill and the colors of the `InitColor` section from `at` to `end`.
pub open spec fn colors_of(data: Seq<u8>, at: int, end: int) -> Result<(u32, Seq<u32>), Failure> {
    match label_end(data, at, "InitColor"@) {
        Err(failure) => Err(failure),
        Ok(start) => match words_of(data, start, 1) {
            Err(failure) => Err(failure),
            Ok(first) => if first[0] != 20 {
                Err(
                    Failure::InvalidRaster {
                        reason: "InitColor record size is "@ + message::decimal(first[0] as nat)
                            + ", expected 20"@,
                    },
                )
            } else {
                match words_of(data, start + 4, 4) {
                    Err(failure) => Err(failure),
                    Ok(words) => if words[3] != 4 {
                        Err(
                            Failure::InvalidRaster {
                                reason: "InitColor element size is "@ + message::decimal(words[3] as nat)
                                    + ", expected 4"@,
                            },
                        )
                    } else if start + 20 > end {
                        Err(
                            Failure::InvalidRaster {
                                reason: "attribute parser crossed a section boundary"@,
                            },
                        )
                    } else if start + 20 + 4 * words[2] > end {
                        Err(
                            Failure::InvalidRaster {
                                reason: "attribute array exceeds its section"@,
                            },
                        )
                    } else if start + 20 + 4 * words[2] != end {
                        Err(
                            Failure::InvalidRaster {
                                reason: end_complaint(
                                    "InitColor"@,
                                    start + 20 + 4 * words[2],
                                    end,
                                ),
                            },
                        )
                    } else {
                        Ok((words[0], words_at(data, start + 20, words[2] as nat)))
                    },
                }
            },
        },
    }
}

fn read_colors(data: &[u8], at: usize, end: usize) -> (colors: Result<(u32, Vec<u32>), Error>)
    requires
        end <= data@.len(),
    ensures
        match colors {
            Ok((fill, colors)) => colors_of(data@, at as int, end as int) == Ok::<
                (u32, Seq<u32>),
                Failure,
            >((fill, colors@)),
            Err(error) => colors_of(data@, at as int, end as int) == Err::<
                (u32, Seq<u32>),
                Failure,
            >(error@),
        },
{
    assert(data.len() == data@.len());
    let start: usize = read_label(data, at, "InitColor")?;
    let first = read_words(data, start, 1)?;
    if first[0] != 20 {
        return Err(
            invalid(
                Message::new("InitColor record size is ").number(first[0] as u64).text(
                    ", expected 20",
                ),
            ),
        );
    }
    let words = read_words(data, start + 4, 4)?;
    if words[3] != 4 {
        return Err(
            invalid(
                Message::new("InitColor element size is ").number(words[3] as u64).text(
                    ", expected 4",
                ),
            ),
        );
    }
    let values: usize = start + 20;
    let count: usize = words[2] as usize;
    if values > end {
        return Err(invalid(Message::new("attribute parser crossed a section boundary")));
    }
    if count > (end - values) / 4 {
        return Err(invalid(Message::new("attribute array exceeds its section")));
    }
    let colors = read_words(data, values, count)?;
    if values + 4 * count != end {
        return Err(wrong_end("InitColor", values + 4 * count, end));
    }
    Ok((words[0], colors))
}

/// Where the values of the `BlockSize` section that starts at `at` start, and how many
/// they are.
pub open spec fn sizes_head(data: Seq<u8>, at: int) -> Result<(int, u32), Failure> {
    match label_end(data, at, "BlockSize"@) {
        Err(failure) => Err(failure),
        Ok(start) => match words_of(data, start, 1) {
            Err(failure) => Err(failure),
            Ok(first) => if first[0] != 12 {
                Err(
                    Failure::InvalidRaster {
                        reason: "BlockSize record size is "@ + message::decimal(first[0] as nat)
                            + ", expected 12"@,
                    },
                )
            } else {
                match words_of(data, start + 4, 2) {
                    Err(failure) => Err(failure),
                    Ok(words) => if words[1] != 4 {
                        Err(
                            Failure::InvalidRaster {
                                reason: "BlockSize element size is "@ + message::decimal(words[1] as nat)
                                    + ", expected 4"@,
                            },
                        )
                    } else {
                        Ok((start + 12, words[0]))
                    },
                }
            },
        },
    }
}

/// What is said of block sizes that do not fill the data.
pub open spec fn sizes_complaint(data: Seq<u8>, end: int) -> Seq<char> {
    if end > data.len() {
        "attribute array exceeds its section"@
    } else {
        end_complaint("BlockSize"@, end, data.len() as int)
    }
}

fn read_sizes(data: &[u8], at: usize) -> (sizes: Result<Vec<u32>, Error>)
    ensures
        error::outcome(sizes) == match sizes_head(data@, at as int) {
            Err(failure) => Err::<Seq<u32>, Failure>(failure),
            Ok((values, count)) => if values + 4 * count != data@.len() {
                Err(
                    Failure::InvalidRaster {
                        reason: sizes_complaint(data@, values + 4 * count),
                    },
                )
            } else {
                Ok(words_at(data@, values, count as nat))
            },
        },
{
    assert(data.len() == data@.len());
    let start: usize = read_label(data, at, "BlockSize")?;
    let first = read_words(data, start, 1)?;
    if first[0] != 12 {
        return Err(
            invalid(
                Message::new("BlockSize record size is ").number(first[0] as u64).text(
                    ", expected 12",
                ),
            ),
        );
    }
    let words = read_words(data, start + 4, 2)?;
    if words[1] != 4 {
        return Err(
            invalid(
                Message::new("BlockSize element size is ").number(words[1] as u64).text(
                    ", expected 4",
                ),
            ),
        );
    }
    let values: usize = start + 12;
    let count: usize = words[0] as usize;
    if count > (data.len() - values) / 4 {
        return Err(invalid(Message::new("attribute array exceeds its section")));
    }
    let sizes = read_words(data, values, count)?;
    if values + 4 * count != data.len() {
        return Err(wrong_end("BlockSize", values + 4 * count, data.len()));
    }
    Ok(sizes)
}

/// Whether the header is right, and the sections that it announces fill the data.
pub open spec fn header_valid(data: Seq<u8>) -> bool {
    &&& data.len() >= 16
    &&& bytes::be32(data, 0) == 16
    &&& 16 + bytes::be32(data, 4) + bytes::be32(data, 8) + bytes::be32(data, 12) == data.len()
}

/// What is said of a header that is not valid.
pub open spec fn header_complaint(data: Seq<u8>) -> Seq<char> {
    if data.len() < 16 {
        "unexpected end of Offscreen.Attribute"@
    } else if bytes::be32(data, 0) != 16 {
        "attribute header size is "@ + message::decimal(bytes::be32(data, 0) as nat)
            + ", expected 16"@
    } else {
        "attribute sections total "@ + message::decimal(
            (16 + bytes::be32(data, 4) + bytes::be32(data, 8) + bytes::be32(data, 12)) as nat,
        ) + " bytes, BLOB contains "@ + message::decimal(data.len())
    }
}

/// The attributes that data holds, but for the block sizes, and where these start.
#[verifier::opaque]
pub open spec fn head_of(data: Seq<u8>) -> Result<(AttributesModel, int), Failure> {
    if !header_valid(data) {
        Err(Failure::InvalidRaster { reason: header_complaint(data) })
    } else {
        let colors_start = 16 + bytes::be32(data, 4);
        let sizes_start = colors_start + bytes::be32(data, 8);
        match parameters_of(data, 16, colors_start) {
            Err(failure) => Err(failure),
            Ok(words) => match colors_of(data, colors_start, sizes_start) {
                Err(failure) => Err(failure),
                Ok((default_fill, initial_colors)) => match sizes_head(data, sizes_start) {
                    Err(failure) => Err(failure),
                    Ok((values, count)) => if values + 4 * count != data.len() {
                        Err(
                            Failure::InvalidRaster {
                                reason: sizes_complaint(data, values + 4 * count),
                            },
                        )
                    } else if count != words[2] * words[3] {
                        Err(
                            Failure::InvalidRaster {
                                reason: "attribute grid requires "@ + message::decimal(
                                    (words[2] * words[3]) as nat,
                                ) + " BlockSize entries, found "@ + message::decimal(count as nat),
                            },
                        )
                    } else {
                        Ok(
                            (
                                AttributesModel {
                                    bitmap_width: words[0],
                                    bitmap_height: words[1],
                                    block_grid_width: words[2],
                                    block_grid_height: words[3],
                                    packing: words.skip(4),
                                    default_fill,
                                    initial_colors,
                                    block_sizes: Seq::empty(),
                                },
                                values,
                            ),
                        )
                    },
                },
            },
        }
    }
}

/// Attributes with other block sizes.
pub open spec fn with_sizes(attributes: AttributesModel, block_sizes: Seq<u32>) -> AttributesModel {
    AttributesModel {
        bitmap_width: attributes.bitmap_width,
        bitmap_height: attributes.bitmap_height,
        block_grid_width: attributes.block_grid_width,
        block_grid_height: attributes.block_grid_height,
        packing: attributes.packing,
        default_fill: attributes.default_fill,
        initial_colors: attributes.initial_colors,
        block_sizes,
    }
}

/// The attributes that data holds.
pub open spec fn attributes_of(data: Seq<u8>) -> Result<AttributesModel, Failure> {
    match head_of(data) {
        Err(failure) => Err(failure),
        Ok((head, values)) => Ok(
            with_sizes(head, words_at(data, values, ((data.len() - values) / 4) as nat)),
        ),
    }
}

impl OffscreenAttributes {
    /// Bitmap width in pixels.
    #[must_use]
    pub fn bitmap_width(&self) -> (value: u32)
        ensures
            value == self.bitmap_width,
    {
        self.bitmap_width
    }

    /// Bitmap height in pixels.
    #[must_use]
    pub fn bitmap_height(&self) -> (value: u32)
        ensures
            value == self.bitmap_height,
    {
        self.bitmap_height
    }

    /// Number of tile columns.
    #[must_use]
    pub fn block_grid_width(&self) -> (value: u32)
        ensures
            value == self.block_grid_width,
    {
        self.block_grid_width
    }

    /// Number of tile rows.
    #[must_use]
    pub fn block_grid_height(&self) -> (value: u32)
        ensures
            value == self.block_grid_height,
    {
        self.block_grid_height
    }

    /// Pixel packing metadata.
    #[must_use]
    pub fn packing(&self) -> (value: PixelPacking)
        ensures
            value == self.packing,
    {
        self.packing
    }

    /// Opaque default-fill value; observed values are zero and one.
    #[must_use]
    pub fn default_fill(&self) -> (value: u32)
        ensures
            value == self.default_fill,
    {
        self.default_fill
    }

    /// Additional initialization color values.
    #[must_use]
    pub fn initial_colors(&self) -> (list: &[u32])
        ensures
            list@ == self.initial_colors@,
    {
        self.initial_colors.as_slice()
    }

    /// Per-block size metadata from the attribute record.
    #[must_use]
    pub fn block_sizes(&self) -> (list: &[u32])
        ensures
            list@ == self.block_sizes@,
    {
        self.block_sizes.as_slice()
    }

    /// Parses the complete `Parameter`, `InitColor`, and `BlockSize` sections.
    #[verifier::spinoff_prover]
    #[verifier::rlimit(40)]
    pub fn parse(data: &[u8]) -> (attributes: Result<OffscreenAttributes, Error>)
        ensures
            error::outcome(attributes) == attributes_of(data@),
    {
        proof {
            reveal(head_of);
        }
        assert(data.len() == data@.len());
        if data.len() < 16 {
            return Err(invalid(Message::new("unexpected end of Offscreen.Attribute")));
        }
        let header_size: u32 = read_be32(data, 0);
        if header_size != 16 {
            return Err(
                invalid(
                    Message::new("attribute header size is ").number(header_size as u64).text(
                        ", expected 16",
                    ),
                ),
            );
        }
        let parameter_size: u32 = read_be32(data, 4);
        let color_size: u32 = read_be32(data, 8);
        let block_size: u32 = read_be32(data, 12);
        let total: u64 = 16 + parameter_size as u64 + color_size as u64 + block_size as u64;
        if total != data.len() as u64 {
            return Err(
                invalid(
                    Message::new("attribute sections total ").number(total).text(
                        " bytes, BLOB contains ",
                    ).number(data.len() as u64),
                ),
            );
        }
        let colors_start: usize = 16 + parameter_size as usize;
        let sizes_start: usize = colors_start + color_size as usize;
        let words = read_parameters(data, 16, colors_start)?;
        let (default_fill, initial_colors) = read_colors(data, colors_start, sizes_start)?;
        let block_sizes = read_sizes(data, sizes_start)?;
        assert(words[2] * words[3] <= 0xffff_ffff * 0xffff_ffff) by (nonlinear_arith)
            requires
                words[2] <= 0xffff_ffff,
                words[3] <= 0xffff_ffff,
        ;
        let grid_blocks: u64 = words[2] as u64 * words[3] as u64;
        if block_sizes.len() as u64 != grid_blocks {
            return Err(
                invalid(
                    Message::new("attribute grid requires ").number(grid_blocks).text(
                        " BlockSize entries, found ",
                    ).number(block_sizes.len() as u64),
                ),
            );
        }
        let raw: [u32; 16] = [
            words[4],
            words[5],
            words[6],
            words[7],
            words[8],
            words[9],
            words[10],
            words[11],
            words[12],
            words[13],
            words[14],
            words[15],
            words[16],
            words[17],
            words[18],
            words[19],
        ];
        assert(raw@ =~= words@.skip(4));
        Ok(
            OffscreenAttributes {
                bitmap_width: words[0],
                bitmap_height: words[1],
                block_grid_width: words[2],
                block_grid_height: words[3],
                packing: PixelPacking { raw },
                default_fill,
                initial_colors,
                block_sizes,
            },
        )
    }
}

/// What is said of packing values that describe channels of another depth.
pub open spec fn depth_complaint(packing: Seq<u32>) -> Seq<char> {
    let start = "only non-bit-packed 8-bit channels are supported (alpha="@ + message::decimal(
        packing[1] as nat,
    ) + " at "@ + message::decimal((packing[8] >> 5) as nat) + "-bit, buffer="@ + message::decimal(
        packing[2] as nat,
    ) + " at "@;
    let depth = match channel_depth(packing) {
        Some(depth) => start + "Some("@ + message::decimal(depth as nat) + ")"@,
        None => start + "None"@,
    };
    depth + "-bit/channel, monochrome="@ + (if packing[14] != 0 {
        "true"@
    } else {
        "false"@
    }) + ")"@
}

/// The pixel format that packing values describe.
pub open spec fn format_of(packing: Seq<u32>) -> Result<PixelFormat, Failure> {
    let alpha = packing[1];
    let buffer = packing[2];
    if alpha + buffer != packing[3] {
        Err(
            Failure::InvalidRaster {
                reason: "packing channel sum ("@ + message::decimal(alpha as nat) + " + "@
                    + message::decimal(buffer as nat) + ") does not match total "@
                    + message::decimal(packing[3] as nat),
            },
        )
    } else if (alpha != 0 && packing[8] >> 5 != 8) || (buffer != 0 && channel_depth(packing)
        != Some(8u32)) || packing[14] != 0 {
        Err(Failure::UnsupportedRaster { reason: depth_complaint(packing) })
    } else if alpha == 1 && buffer == 4 {
        Ok(PixelFormat::Rgba8)
    } else if (alpha == 1 && buffer == 0) || (alpha == 0 && buffer == 1) {
        Ok(PixelFormat::Gray8)
    } else if alpha == 1 && buffer == 1 {
        Ok(PixelFormat::GrayAlpha8)
    } else {
        Err(
            Failure::UnsupportedRaster {
                reason: "unsupported channel packing ("@ + message::decimal(alpha as nat) + ", "@
                    + message::decimal(buffer as nat) + ")"@,
            },
        )
    }
}

/// Tells the pixel format from packing values.
pub fn pixel_format(packing: PixelPacking) -> (format: Result<PixelFormat, Error>)
    ensures
        error::plain(format) == format_of(packing@),
{
    let alpha: u32 = packing.alpha_channels();
    let buffer: u32 = packing.buffer_channels();
    let matches: bool = match alpha.checked_add(buffer) {
        Some(sum) => sum == packing.total_channels(),
        None => false,
    };
    if !matches {
        return Err(
            invalid(
                Message::new("packing channel sum (").number(alpha as u64).text(" + ").number(
                    buffer as u64,
                ).text(") does not match total ").number(packing.total_channels() as u64),
            ),
        );
    }
    let buffer_fits: bool = buffer == 0 || match packing.buffer_bits_per_channel() {
        Some(depth) => depth == 8,
        None => false,
    };
    let alpha_fits: bool = alpha == 0 || packing.alpha_bit_depth() == 8;
    if !alpha_fits || !buffer_fits || packing.is_monochrome() {
        let message = Message::new(
            "only non-bit-packed 8-bit channels are supported (alpha=",
        ).number(alpha as u64).text(" at ").number(packing.alpha_bit_depth() as u64).text(
            "-bit, buffer=",
        ).number(buffer as u64).text(" at ");
        let message = match packing.buffer_bits_per_channel() {
            Some(depth) => message.text("Some(").number(depth as u64).text(")"),
            None => message.text("None"),
        };
        let message = message.text("-bit/channel, monochrome=").text(
            if packing.is_monochrome() {
                "true"
            } else {
                "false"
            },
        ).text(")");
        return Err(Error::UnsupportedRaster { reason: message.build() });
    }
    if alpha == 1 && buffer == 4 {
        Ok(PixelFormat::Rgba8)
    } else if (alpha == 1 && buffer == 0) || (alpha == 0 && buffer == 1) {
        Ok(PixelFormat::Gray8)
    } else if alpha == 1 && buffer == 1 {
        Ok(PixelFormat::GrayAlpha8)
    } else {
        Err(
            Error::UnsupportedRaster {
                reason: Message::new("unsupported channel packing (").number(alpha as u64).text(
                    ", ",
                ).number(buffer as u64).text(")").build(),
            },
        )
    }
}

/// What is wrong with a dimension.
pub open spec fn dimension_fault(resource: Seq<char>, value: u32, limit: u32) -> Option<Failure> {
    if value == 0 {
        Some(Failure::InvalidRaster { reason: resource + " is zero"@ })
    } else if value > limit {
        Some(Failure::LimitExceeded { resource, value: value as u64, limit: limit as u64 })
    } else {
        None
    }
}

/// What is wrong with the dimensions of a bitmap and its tiles.
pub open spec fn dimensions_fault(attributes: AttributesModel, limit: u32) -> Option<Failure> {
    match dimension_fault("raster width"@, attributes.bitmap_width, limit) {
        Some(failure) => Some(failure),
        None => match dimension_fault("raster height"@, attributes.bitmap_height, limit) {
            Some(failure) => Some(failure),
            None => match dimension_fault("tile width"@, attributes.packing[10], limit) {
                Some(failure) => Some(failure),
                None => dimension_fault("tile height"@, attributes.packing[11], limit),
            },
        },
    }
}

fn check_dimension(resource: &'static str, value: u32, limit: u32) -> (result: Result<(), Error>)
    ensures
        match result {
            Ok(()) => dimension_fault(resource@, value, limit) is None,
            Err(error) => dimension_fault(resource@, value, limit) == Some(error@),
        },
{
    if value == 0 {
        return Err(invalid(Message::new(resource).text(" is zero")));
    }
    if value > limit {
        return Err(Error::limit(resource, value as u64, limit as u64));
    }
    Ok(())
}

/// Checks the dimensions of a bitmap and its tiles.
pub fn validate_dimensions(attributes: &OffscreenAttributes, limit: u32) -> (result: Result<
    (),
    Error,
>)
    ensures
        match result {
            Ok(()) => dimensions_fault(attributes@, limit) is None,
            Err(error) => dimensions_fault(attributes@, limit) == Some(error@),
        },
{
    check_dimension("raster width", attributes.bitmap_width, limit)?;
    check_dimension("raster height", attributes.bitmap_height, limit)?;
    check_dimension("tile width", attributes.packing.block_width(), limit)?;
    check_dimension("tile height", attributes.packing.block_height(), limit)
}

/// The bytes of numbers.
pub open spec fn word_bytes(words: Seq<u32>) -> Seq<u8>
    decreases words.len(),
{
    if words.len() == 0 {
        Seq::empty()
    } else {
        word_bytes(words.drop_last()) + bytes::be32_bytes(words.last())
    }
}

/// Data whose last bytes are replaced by numbers.
pub open spec fn sizes_replaced(data: Seq<u8>, sizes: Seq<u32>) -> Seq<u8> {
    data.take(data.len() - 4 * sizes.len()) + word_bytes(sizes)
}

proof fn word_bytes_read(words: Seq<u32>)
    ensures
        word_bytes(words).len() == 4 * words.len(),
        words_at(word_bytes(words), 0, words.len()) == words,
    decreases words.len(),
{
    if words.len() > 0 {
        let front = words.drop_last();
        word_bytes_read(front);
        bytes::number_bytes_round_trip(words.last());
        let data = word_bytes(words);
        let read = words_at(data, 0, words.len());
        assert forall|i: int| 0 <= i < words.len() implies #[trigger] read[i] == words[i] by {
            if i < front.len() {
                assert(words_at(word_bytes(front), 0, front.len())[i] == front[i]);
            } else {
                let last = bytes::be32_bytes(words.last());
                assert(data[4 * i] == last[0] && data[4 * i + 1] == last[1] && data[4 * i + 2]
                    == last[2] && data[4 * i + 3] == last[3]);
            }
        }
        assert(read =~= words);
    } else {
        assert(words_at(word_bytes(words), 0, words.len()) =~= words);
    }
}

proof fn same_words(data: Seq<u8>, other: Seq<u8>, common: int, at: int, count: nat)
    requires
        data.len() == other.len(),
        0 <= at,
        at + 4 * count <= common <= data.len(),
        data.take(common) == other.take(common),
    ensures
        words_at(data, at, count) == words_at(other, at, count),
{
    assert forall|i: int| 0 <= i < common implies data[i] == other[i] by {
        assert(data.take(common)[i] == data[i]);
        assert(other.take(common)[i] == other[i]);
    }
    assert(words_at(data, at, count) =~= words_at(other, at, count));
}

proof fn same_label(data: Seq<u8>, other: Seq<u8>, common: int, at: int, label: Seq<char>)
    requires
        data.len() == other.len(),
        0 <= at,
        common <= data.len(),
        data.take(common) == other.take(common),
        label_end(data, at, label) is Ok,
        label_end(data, at, label)->Ok_0 <= common,
    ensures
        label_end(other, at, label) == label_end(data, at, label),
{
    assert forall|i: int| 0 <= i < common implies data[i] == other[i] by {
        assert(data.take(common)[i] == data[i]);
        assert(other.take(common)[i] == other[i]);
    }
    let count = bytes::be32(data, at);
    assert(text_codec::units_at(data, at + 4, count as nat) =~= text_codec::units_at(
        other,
        at + 4,
        count as nat,
    ));
}

/// Where the block sizes start, the data before them is one part of the whole.
#[verifier::spinoff_prover]
#[verifier::rlimit(40)]
proof fn head_depends_on_front(data: Seq<u8>, other: Seq<u8>)
    requires
        head_of(data) is Ok,
        data.len() == other.len(),
        data.take(head_of(data)->Ok_0.1) == other.take(head_of(data)->Ok_0.1),
    ensures
        head_of(other) == head_of(data),
        16 <= head_of(data)->Ok_0.1 <= data.len(),
        (data.len() - head_of(data)->Ok_0.1) % 4 == 0,
{
    reveal(head_of);
    let common = head_of(data)->Ok_0.1;
    let colors_start = 16 + bytes::be32(data, 4);
    let sizes_start = colors_start + bytes::be32(data, 8);
    let parameters = label_end(data, 16, "Parameter"@)->Ok_0;
    let colors = label_end(data, colors_start, "InitColor"@)->Ok_0;
    let sizes = label_end(data, sizes_start, "BlockSize"@)->Ok_0;
    assert(common == sizes + 12);
    assert forall|i: int| 0 <= i < common implies data[i] == other[i] by {
        assert(data.take(common)[i] == data[i]);
        assert(other.take(common)[i] == other[i]);
    }
    same_label(data, other, common, 16, "Parameter"@);
    same_words(data, other, common, parameters, 20);
    same_label(data, other, common, colors_start, "InitColor"@);
    same_words(data, other, common, colors, 1);
    same_words(data, other, common, colors + 4, 4);
    same_words(
        data,
        other,
        common,
        colors + 20,
        words_at(data, colors + 4, 4)[2] as nat,
    );
    same_label(data, other, common, sizes_start, "BlockSize"@);
    same_words(data, other, common, sizes, 1);
    same_words(data, other, common, sizes + 4, 2);
}

/// Replacing as many block sizes as there are changes nothing else: the data before them
/// stays, and the attributes read from the result differ in their block sizes alone.
pub proof fn replaced_sizes_read_back(data: Seq<u8>, sizes: Seq<u32>)
    requires
        attributes_of(data) is Ok,
        attributes_of(data)->Ok_0.block_sizes.len() == sizes.len(),
    ensures
        sizes_replaced(data, sizes).len() == data.len(),
        sizes_replaced(data, sizes).take(data.len() - 4 * sizes.len()) == data.take(
            data.len() - 4 * sizes.len(),
        ),
        attributes_of(sizes_replaced(data, sizes)) == Ok::<AttributesModel, Failure>(
            with_sizes(attributes_of(data)->Ok_0, sizes),
        ),
{
    let values = head_of(data)->Ok_0.1;
    let other = sizes_replaced(data, sizes);
    head_depends_on_front(data, data);
    word_bytes_read(sizes);
    assert(values == data.len() - 4 * sizes.len());
    assert(other.take(values) =~= data.take(values));
    head_depends_on_front(data, other);
    let read = words_at(other, values, sizes.len());
    assert forall|i: int| 0 <= i < sizes.len() implies #[trigger] read[i] == sizes[i] by {
        let part = word_bytes(sizes);
        assert(words_at(part, 0, sizes.len())[i] == sizes[i]);
        assert(other[values + 4 * i] == part[4 * i]);
        assert(other[values + 4 * i + 1] == part[4 * i + 1]);
        assert(other[values + 4 * i + 2] == part[4 * i + 2]);
        assert(other[values + 4 * i + 3] == part[4 * i + 3]);
    }
    assert(read =~= sizes);
}

/// Attribute data with its block sizes replaced.
pub open spec fn replaced_attributes(data: Seq<u8>, sizes: Seq<u32>) -> Result<Seq<u8>, Failure> {
    match attributes_of(data) {
        Err(failure) => Err(failure),
        Ok(attributes) => if attributes.block_sizes.len() != sizes.len() {
            Err(
                Failure::InvalidWrite {
                    reason: "replacement BlockSize count "@ + message::decimal(sizes.len())
                        + " does not match attribute count "@ + message::decimal(
                        attributes.block_sizes.len(),
                    ),
                },
            )
        } else {
            Ok(sizes_replaced(data, sizes))
        },
    }
}

/// Replaces the block sizes in attribute data.
pub fn replace_attribute_block_sizes(data: &[u8], sizes: &[u32]) -> (output: Result<
    Vec<u8>,
    Error,
>)
    ensures
        error::outcome(output) == replaced_attributes(data@, sizes@),
{
    assert(data.len() == data@.len());
    let attributes = OffscreenAttributes::parse(data)?;
    if attributes.block_sizes.len() != sizes.len() {
        return Err(
            Error::InvalidWrite {
                reason: Message::new("replacement BlockSize count ").number(
                    sizes.len() as u64,
                ).text(" does not match attribute count ").number(
                    attributes.block_sizes.len() as u64,
                ).build(),
            },
        );
    }
    proof {
        head_depends_on_front(data@, data@);
    }
    let start: usize = data.len() - 4 * sizes.len();
    let mut output = copy_bytes(data, 0, start);
    let mut at: usize = 0;
    let ghost front = output@;
    assert(sizes@.take(0) =~= Seq::<u32>::empty());
    assert(front =~= front + word_bytes(sizes@.take(0)));
    while at < sizes.len()
        invariant
            at <= sizes@.len(),
            output@ == front + word_bytes(sizes@.take(at as int)),
        decreases sizes@.len() - at,
    {
        push_be32(&mut output, sizes[at]);
        proof {
            let next = sizes@.take(at + 1);
            assert(next.drop_last() =~= sizes@.take(at as int));
            assert(output@ =~= front + word_bytes(next));
        }
        at = at + 1;
    }
    proof {
        assert(sizes@.take(at as int) =~= sizes@);
        assert(front =~= data@.take(start as int));
        replaced_sizes_read_back(data@, sizes@);
    }
    OffscreenAttributes::parse(output.as_slice())?;
    Ok(output)
}

} // verus!
