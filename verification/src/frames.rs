//! Frames of a time-lapse stream: 28-byte record headers, each followed by a WebP file.

use vstd::prelude::*;

use crate::bytes;
use crate::bytes::{read_le16, read_le32};
use crate::error;
use crate::error::{Error, Failure};
use crate::limits::Limits;
use crate::message;
use crate::message::Message;

verus! {

fn frame_error(reason: Message) -> (error: Error)
    ensures
        error@ == (Failure::InvalidTimeLapse { reason: reason@ }),
{
    Error::InvalidTimeLapse { reason: reason.build() }
}

/// Raw four-byte kind at the start of one time-lapse frame record.
#[derive(Clone, Copy, Debug, PartialEq, Eq, PartialOrd, Ord, Hash)]
pub struct TimeLapseFrameKind {
    pub raw: [u8; 4],
}

impl TimeLapseFrameKind {
    /// Creates a frame kind without assigning unverified semantics.
    #[must_use]
    pub fn new(raw: [u8; 4]) -> (kind: TimeLapseFrameKind)
        ensures
            kind.raw == raw,
    {
        TimeLapseFrameKind { raw }
    }

    /// Original four-byte record kind.
    #[must_use]
    pub fn raw(self) -> (raw: [u8; 4])
        ensures
            raw == self.raw,
    {
        self.raw
    }

    /// Whether the record kind is the observed `GMIK`.
    #[must_use]
    pub fn is_gmik(self) -> (found: bool)
        ensures
            found == (self.raw@ == seq![0x47u8, 0x4d, 0x49, 0x4b]),
    {
        let found: bool = self.raw[0] == 0x47 && self.raw[1] == 0x4d && self.raw[2] == 0x49
            && self.raw[3] == 0x4b;
        proof {
            if found {
                assert(self.raw@ =~= seq![0x47u8, 0x4d, 0x49, 0x4b]);
            }
        }
        found
    }

    /// Whether the record kind is the observed `GMID`.
    #[must_use]
    pub fn is_gmid(self) -> (found: bool)
        ensures
            found == (self.raw@ == seq![0x47u8, 0x4d, 0x49, 0x44]),
    {
        let found: bool = self.raw[0] == 0x47 && self.raw[1] == 0x4d && self.raw[2] == 0x49
            && self.raw[3] == 0x44;
        proof {
            if found {
                assert(self.raw@ =~= seq![0x47u8, 0x4d, 0x49, 0x44]);
            }
        }
        found
    }

    /// Whether this is a verified full-canvas key-frame record (`GMIK`).
    #[must_use]
    pub fn is_key_frame(self) -> (found: bool)
        ensures
            found == (self.raw@ == seq![0x47u8, 0x4d, 0x49, 0x4b]),
    {
        self.is_gmik()
    }

    /// Whether this is a verified positioned delta-patch record (`GMID`).
    #[must_use]
    pub fn is_delta_frame(self) -> (found: bool)
        ensures
            found == (self.raw@ == seq![0x47u8, 0x4d, 0x49, 0x44]),
    {
        self.is_gmid()
    }
}

/// One validated frame record in a decoded time-lapse stream.
#[derive(Clone, Copy, Debug, PartialEq, Eq)]
pub struct TimeLapseFrame {
    pub kind: TimeLapseFrameKind,
    pub record_offset: u64,
    pub encoded_offset: u64,
    pub encoded_size: u64,
    pub sequence: u32,
    pub reserved_before_sequence: u32,
    pub reserved_after_sequence: u32,
    pub parameter_a: u32,
    pub parameter_b: u32,
    pub webp_chunk_kind: [u8; 4],
    pub webp_dimensions: Option<(u32, u32)>,
}

/// The model of a [`TimeLapseFrame`].
#[verifier::ext_equal]
pub struct FrameModel {
    pub kind: Seq<u8>,
    pub record_offset: u64,
    pub encoded_offset: u64,
    pub encoded_size: u64,
    pub sequence: u32,
    pub reserved_before_sequence: u32,
    pub reserved_after_sequence: u32,
    pub parameter_a: u32,
    pub parameter_b: u32,
    pub webp_chunk_kind: Seq<u8>,
    pub webp_dimensions: Option<(u32, u32)>,
}

impl View for TimeLapseFrame {
    type V = FrameModel;

    open spec fn view(&self) -> FrameModel {
        FrameModel {
            kind: self.kind.raw@,
            record_offset: self.record_offset,
            encoded_offset: self.encoded_offset,
            encoded_size: self.encoded_size,
            sequence: self.sequence,
            reserved_before_sequence: self.reserved_before_sequence,
            reserved_after_sequence: self.reserved_after_sequence,
            parameter_a: self.parameter_a,
            parameter_b: self.parameter_b,
            webp_chunk_kind: self.webp_chunk_kind@,
            webp_dimensions: self.webp_dimensions,
        }
    }
}

impl TimeLapseFrame {
    /// Raw `GMIK`/`GMID` record kind.
    #[must_use]
    pub fn kind(&self) -> (value: TimeLapseFrameKind)
        ensures
            value == self.kind,
    {
        self.kind
    }

    /// Offset of the 28-byte record header in the reconstructed decoded stream.
    #[must_use]
    pub fn record_offset(&self) -> (value: u64)
        ensures
            value == self.record_offset,
    {
        self.record_offset
    }

    /// Offset of the embedded `RIFF`/`WEBP` bytes in the decoded stream.
    #[must_use]
    pub fn encoded_offset(&self) -> (value: u64)
        ensures
            value == self.encoded_offset,
    {
        self.encoded_offset
    }

    /// Complete embedded `RIFF` byte count.
    #[must_use]
    pub fn encoded_size(&self) -> (value: u64)
        ensures
            value == self.encoded_size,
    {
        self.encoded_size
    }

    /// One-based contiguous sequence value.
    #[must_use]
    pub fn sequence(&self) -> (value: u32)
        ensures
            value == self.sequence,
    {
        self.sequence
    }

    /// First currently uninterpreted header word, observed as zero.
    #[must_use]
    pub fn reserved_before_sequence(&self) -> (value: u32)
        ensures
            value == self.reserved_before_sequence,
    {
        self.reserved_before_sequence
    }

    /// Second currently uninterpreted header word, observed as zero.
    #[must_use]
    pub fn reserved_after_sequence(&self) -> (value: u32)
        ensures
            value == self.reserved_after_sequence,
    {
        self.reserved_after_sequence
    }

    /// First raw region parameter.
    ///
    /// For `GMID`, this is the verified horizontal patch origin. Its meaning
    /// remains unverified for `GMIK`; use [`Self::delta_origin`] when possible.
    #[must_use]
    pub fn parameter_a(&self) -> (value: u32)
        ensures
            value == self.parameter_a,
    {
        self.parameter_a
    }

    /// Second raw region parameter.
    ///
    /// For `GMID`, this is the verified vertical patch origin. Its meaning
    /// remains unverified for `GMIK`; use [`Self::delta_origin`] when possible.
    #[must_use]
    pub fn parameter_b(&self) -> (value: u32)
        ensures
            value == self.parameter_b,
    {
        self.parameter_b
    }

    /// Dimensions decoded from an observed `VP8 ` or `VP8X` first chunk.
    #[must_use]
    pub fn webp_dimensions(&self) -> (value: Option<(u32, u32)>)
        ensures
            value == self.webp_dimensions,
    {
        self.webp_dimensions
    }

    /// First WebP chunk kind following the `WEBP` form type.
    #[must_use]
    pub fn webp_chunk_kind(&self) -> (kind: [u8; 4])
        ensures
            kind == self.webp_chunk_kind,
    {
        self.webp_chunk_kind
    }

    /// Destination origin for a verified `GMID` delta patch.
    ///
    /// Returns `None` for full-canvas `GMIK` records because the two raw
    /// parameters have a different, still-unverified meaning there.
    #[must_use]
    pub fn delta_origin(&self) -> (origin: Option<(u32, u32)>)
        ensures
            origin == if self@.kind == seq![0x47u8, 0x4d, 0x49, 0x44] {
                Some((self.parameter_a, self.parameter_b))
            } else {
                None
            },
    {
        if self.kind.is_delta_frame() {
            Some((self.parameter_a, self.parameter_b))
        } else {
            None
        }
    }
}

/// The tag that a RIFF file starts with.
pub open spec fn riff_tag() -> Seq<u8> {
    seq![0x52u8, 0x49, 0x46, 0x46]
}

/// The form type of a WebP file.
pub open spec fn webp_tag() -> Seq<u8> {
    seq![0x57u8, 0x45, 0x42, 0x50]
}

/// The tag of an extended WebP header.
pub open spec fn extended_tag() -> Seq<u8> {
    seq![0x56u8, 0x50, 0x38, 0x58]
}

/// The tag of a lossy WebP frame.
pub open spec fn lossy_tag() -> Seq<u8> {
    seq![0x56u8, 0x50, 0x38, 0x20]
}

/// A 24-bit number, least significant byte first.
pub open spec fn le24(s: Seq<u8>, at: int) -> int {
    s[at] + 0x100 * s[at + 1] + 0x1_0000 * s[at + 2]
}

/// The size of the image that a 30-byte WebP header describes, where it does.
pub open spec fn webp_dimensions_of(riff: Seq<u8>, encoded_size: int) -> Result<
    Option<(u32, u32)>,
    Failure,
> {
    let tag = riff.subrange(12, 16);
    let chunk_size = bytes::le32(riff, 16);
    if 20 + chunk_size + chunk_size % 2 > encoded_size {
        Err(
            Failure::InvalidTimeLapse {
                reason: "time-lapse WebP first chunk exceeds its RIFF size"@,
            },
        )
    } else if tag == extended_tag() {
        if chunk_size < 10 {
            Err(
                Failure::InvalidTimeLapse {
                    reason: "time-lapse VP8X chunk is shorter than its header"@,
                },
            )
        } else {
            Ok(Some(((1 + le24(riff, 24)) as u32, (1 + le24(riff, 27)) as u32)))
        }
    } else if tag == lossy_tag() {
        if chunk_size < 10 {
            Err(
                Failure::InvalidTimeLapse {
                    reason: "time-lapse VP8 chunk is shorter than its frame header"@,
                },
            )
        } else if riff.subrange(23, 26) != seq![0x9du8, 0x01, 0x2a] {
            Err(
                Failure::InvalidTimeLapse { reason: "time-lapse VP8 frame lacks its start code"@ },
            )
        } else {
            Ok(
                Some(
                    (
                        (bytes::le16(riff, 26) % 0x4000) as u32,
                        (bytes::le16(riff, 28) % 0x4000) as u32,
                    ),
                ),
            )
        }
    } else {
        Ok(None)
    }
}

/// Whether image sizes are positive and within the limit.
pub open spec fn dimensions_allowed(dimensions: Option<(u32, u32)>, limit: u32) -> bool {
    dimensions matches Some(size) ==> 0 < size.0 <= limit && 0 < size.1 <= limit
}

/// What is said of a size that is not allowed.
pub open spec fn dimension_complaint(value: u32) -> Seq<char> {
    "time-lapse WebP dimension "@ + message::decimal(value as nat) + " exceeds its limit"@
}

/// The frame that a 28-byte record header and a 30-byte WebP header describe, when
/// the WebP file starts at `start` and comes after `count` frames.
pub open spec fn frame_of(
    limits: Limits,
    header: Seq<u8>,
    riff: Seq<u8>,
    start: int,
    count: nat,
) -> Result<FrameModel, Failure> {
    let encoded_size = bytes::le32(riff, 4) + 8;
    if riff.subrange(8, 12) != webp_tag() {
        Err(
            Failure::InvalidTimeLapse { reason: "time-lapse RIFF record does not contain WEBP"@ },
        )
    } else if encoded_size < 30 {
        Err(
            Failure::InvalidTimeLapse {
                reason: "time-lapse WebP is only "@ + message::decimal(encoded_size as nat)
                    + " bytes"@,
            },
        )
    } else if start + encoded_size > u64::MAX {
        Err(Failure::InvalidTimeLapse { reason: "time-lapse RIFF end overflow"@ })
    } else if bytes::le32(header, 4) != encoded_size + 16 {
        Err(
            Failure::InvalidTimeLapse {
                reason: "time-lapse record size does not match its WebP payload"@,
            },
        )
    } else if count >= u32::MAX {
        Err(Failure::InvalidTimeLapse { reason: "time-lapse frame sequence exceeds u32"@ })
    } else if bytes::le32(header, 12) != count + 1 {
        Err(
            Failure::InvalidTimeLapse {
                reason: "time-lapse frame sequence is "@ + message::decimal(
                    bytes::le32(header, 12) as nat,
                ) + " instead of "@ + message::decimal(count + 1),
            },
        )
    } else if count + 1 > limits.max_time_lapse_items {
        Err(
            Failure::LimitExceeded {
                resource: "time-lapse frames"@,
                value: (count + 1) as u64,
                limit: limits.max_time_lapse_items,
            },
        )
    } else {
        match webp_dimensions_of(riff, encoded_size) {
            Err(failure) => Err(failure),
            Ok(dimensions) => if !dimensions_allowed(dimensions, limits.max_canvas_dimension) {
                let (width, height) = dimensions->Some_0;
                Err(
                    Failure::InvalidTimeLapse {
                        reason: dimension_complaint(
                            if 0 < width <= limits.max_canvas_dimension {
                                height
                            } else {
                                width
                            },
                        ),
                    },
                )
            } else {
                Ok(
                    FrameModel {
                        kind: header.subrange(0, 4),
                        record_offset: (start - 28) as u64,
                        encoded_offset: start as u64,
                        encoded_size: encoded_size as u64,
                        sequence: bytes::le32(header, 12) as u32,
                        reserved_before_sequence: bytes::le32(header, 8) as u32,
                        reserved_after_sequence: bytes::le32(header, 16) as u32,
                        parameter_a: bytes::le32(header, 20) as u32,
                        parameter_b: bytes::le32(header, 24) as u32,
                        webp_chunk_kind: riff.subrange(12, 16),
                        webp_dimensions: dimensions,
                    },
                )
            },
        }
    }
}

fn tag_at(data: &[u8], at: usize, first: u8, second: u8, third: u8, fourth: u8) -> (found: bool)
    requires
        at + 4 <= data@.len(),
    ensures
        found == (data@.subrange(at as int, at + 4) == seq![first, second, third, fourth]),
{
    assert(data.len() == data@.len());
    let found: bool = data[at] == first && data[at + 1] == second && data[at + 2] == third && data[at
        + 3] == fourth;
    proof {
        let part = data@.subrange(at as int, at + 4);
        let tag = seq![first, second, third, fourth];
        if found {
            assert(part =~= tag);
        } else if part == tag {
            assert(part[0] == first && part[1] == second && part[2] == third && part[3] == fourth);
        }
    }
    found
}

fn read_le24(data: &[u8], at: usize) -> (value: u32)
    requires
        at + 3 <= data@.len(),
    ensures
        value == le24(data@, at as int),
{
    assert(data.len() == data@.len());
    data[at] as u32 + 0x100 * (data[at + 1] as u32) + 0x1_0000 * (data[at + 2] as u32)
}

/// Reads the size of the image that a 30-byte WebP header describes, where it does.
pub fn parse_webp_dimensions(riff: &[u8], encoded_size: u64) -> (dimensions: Result<
    Option<(u32, u32)>,
    Error,
>)
    requires
        riff@.len() == 30,
    ensures
        error::plain(dimensions) == webp_dimensions_of(riff@, encoded_size as int),
{
    let chunk_size: u64 = read_le32(riff, 16) as u64;
    if 20 + chunk_size + chunk_size % 2 > encoded_size {
        return Err(
            frame_error(Message::new("time-lapse WebP first chunk exceeds its RIFF size")),
        );
    }
    if tag_at(riff, 12, 0x56, 0x50, 0x38, 0x58) {
        if chunk_size < 10 {
            return Err(
                frame_error(Message::new("time-lapse VP8X chunk is shorter than its header")),
            );
        }
        return Ok(Some((1 + read_le24(riff, 24), 1 + read_le24(riff, 27))));
    }
    if tag_at(riff, 12, 0x56, 0x50, 0x38, 0x20) {
        if chunk_size < 10 {
            return Err(
                frame_error(Message::new("time-lapse VP8 chunk is shorter than its frame header")),
            );
        }
        if riff[23] != 0x9d || riff[24] != 0x01 || riff[25] != 0x2a {
            proof {
                let part = riff@.subrange(23, 26);
                if part == seq![0x9du8, 0x01, 0x2a] {
                    assert(part[0] == 0x9d && part[1] == 0x01 && part[2] == 0x2a);
                }
            }
            return Err(frame_error(Message::new("time-lapse VP8 frame lacks its start code")));
        }
        assert(riff@.subrange(23, 26) =~= seq![0x9du8, 0x01, 0x2a]);
        return Ok(
            Some(
                (
                    (read_le16(riff, 26) % 0x4000) as u32,
                    (read_le16(riff, 28) % 0x4000) as u32,
                ),
            ),
        );
    }
    Ok(None)
}

fn wrong_dimension(value: u32) -> (error: Error)
    ensures
        error@ == (Failure::InvalidTimeLapse { reason: dimension_complaint(value) }),
{
    frame_error(
        Message::new("time-lapse WebP dimension ").number(value as u64).text(
            " exceeds its limit",
        ),
    )
}

/// Reads the frame that a 28-byte record header and a 30-byte WebP header describe.
pub fn parse_frame(limits: Limits, header: &[u8], riff: &[u8], start: u64, count: usize) -> (frame:
    Result<TimeLapseFrame, Error>)
    requires
        header@.len() == 28,
        riff@.len() == 30,
        28 <= start,
    ensures
        error::outcome(frame) == frame_of(limits, header@, riff@, start as int, count as nat),
{
    if !tag_at(riff, 8, 0x57, 0x45, 0x42, 0x50) {
        return Err(frame_error(Message::new("time-lapse RIFF record does not contain WEBP")));
    }
    let encoded_size: u64 = read_le32(riff, 4) as u64 + 8;
    if encoded_size < 30 {
        return Err(
            frame_error(
                Message::new("time-lapse WebP is only ").number(encoded_size).text(" bytes"),
            ),
        );
    }
    if start.checked_add(encoded_size).is_none() {
        return Err(frame_error(Message::new("time-lapse RIFF end overflow")));
    }
    if read_le32(header, 4) as u64 != encoded_size + 16 {
        return Err(
            frame_error(Message::new("time-lapse record size does not match its WebP payload")),
        );
    }
    let sequence: u32 = read_le32(header, 12);
    let before: u64 = count as u64;
    if before >= u32::MAX as u64 {
        return Err(frame_error(Message::new("time-lapse frame sequence exceeds u32")));
    }
    if sequence as u64 != before + 1 {
        return Err(
            frame_error(
                Message::new("time-lapse frame sequence is ").number(sequence as u64).text(
                    " instead of ",
                ).number(before + 1),
            ),
        );
    }
    if before + 1 > limits.max_time_lapse_items() {
        return Err(
            Error::limit("time-lapse frames", before + 1, limits.max_time_lapse_items()),
        );
    }
    let dimensions = parse_webp_dimensions(riff, encoded_size)?;
    if let Some((width, height)) = dimensions {
        let limit: u32 = limits.max_canvas_dimension();
        if width == 0 || width > limit {
            return Err(wrong_dimension(width));
        }
        if height == 0 || height > limit {
            return Err(wrong_dimension(height));
        }
    }
    let frame = TimeLapseFrame {
        kind: TimeLapseFrameKind { raw: [header[0], header[1], header[2], header[3]] },
        record_offset: start - 28,
        encoded_offset: start,
        encoded_size,
        sequence,
        reserved_before_sequence: read_le32(header, 8),
        reserved_after_sequence: read_le32(header, 16),
        parameter_a: read_le32(header, 20),
        parameter_b: read_le32(header, 24),
        webp_chunk_kind: [riff[12], riff[13], riff[14], riff[15]],
        webp_dimensions: dimensions,
    };
    assert(frame@.kind =~= header@.subrange(0, 4));
    assert(frame@.webp_chunk_kind =~= riff@.subrange(12, 16));
    Ok(frame)
}

/// Where a scan over a time-lapse stream stands.
#[derive(Clone, Debug, PartialEq, Eq)]
pub enum FramePhase {
    /// In a record header.
    Header,
    /// In the header of the WebP file that starts at an offset.
    RiffHeader {
        /// Where the file starts.
        start: u64,
        /// The bytes of its header so far.
        riff: Vec<u8>,
    },
    /// In the rest of a WebP file that ends at an offset.
    RiffBody {
        /// Where the file ends.
        end: u64,
    },
}

/// The model of a [`FramePhase`].
#[verifier::ext_equal]
pub enum PhaseModel {
    Header,
    RiffHeader { start: u64, riff: Seq<u8> },
    RiffBody { end: u64 },
}

impl View for FramePhase {
    type V = PhaseModel;

    open spec fn view(&self) -> PhaseModel {
        match *self {
            FramePhase::Header => PhaseModel::Header,
            FramePhase::RiffHeader { start, riff } => PhaseModel::RiffHeader { start, riff: riff@ },
            FramePhase::RiffBody { end } => PhaseModel::RiffBody { end },
        }
    }
}

/// A scan over a time-lapse stream, of which only the current headers are kept.
pub struct TimeLapseFrameScanner {
    pub limits: Limits,
    pub offset: u64,
    pub phase: FramePhase,
    pub header: Vec<u8>,
    pub frames: Vec<TimeLapseFrame>,
}

/// The model of a [`TimeLapseFrameScanner`].
#[verifier::ext_equal]
pub struct ScannerModel {
    pub limits: Limits,
    pub offset: u64,
    pub phase: PhaseModel,
    pub header: Seq<u8>,
    pub frames: Seq<FrameModel>,
}

impl View for TimeLapseFrameScanner {
    type V = ScannerModel;

    open spec fn view(&self) -> ScannerModel {
        ScannerModel {
            limits: self.limits,
            offset: self.offset,
            phase: self.phase@,
            header: self.header@,
            frames: error::views(self.frames@),
        }
    }
}

/// A scan that has seen nothing.
pub open spec fn fresh_scanner(limits: Limits) -> ScannerModel {
    ScannerModel {
        limits,
        offset: 0,
        phase: PhaseModel::Header,
        header: Seq::empty(),
        frames: Seq::empty(),
    }
}

/// The scan after one more byte, or what is wrong with the stream.
pub open spec fn scanned_byte(scanner: ScannerModel, byte: u8) -> Result<ScannerModel, Failure> {
    let offset = scanner.offset + 1;
    if offset > u64::MAX {
        Err(Failure::InvalidTimeLapse { reason: "time-lapse stream offset overflow"@ })
    } else {
        match scanner.phase {
            PhaseModel::Header => {
                let header = scanner.header.push(byte);
                if header.len() >= 4 && header.skip(header.len() - 4) == riff_tag() {
                    if header.len() != 32 {
                        Err(
                            Failure::InvalidTimeLapse {
                                reason: "time-lapse frame header is "@ + message::decimal(
                                    (header.len() - 4) as nat,
                                ) + " bytes instead of 28"@,
                            },
                        )
                    } else {
                        Ok(
                            ScannerModel {
                                offset: offset as u64,
                                phase: PhaseModel::RiffHeader {
                                    start: (offset - 4) as u64,
                                    riff: riff_tag(),
                                },
                                header: header.take(28),
                                ..scanner
                            },
                        )
                    }
                } else if header.len() > 31 {
                    Err(
                        Failure::InvalidTimeLapse {
                            reason: "time-lapse frame header has no RIFF marker"@,
                        },
                    )
                } else {
                    Ok(ScannerModel { offset: offset as u64, header, ..scanner })
                }
            },
            PhaseModel::RiffHeader { start, riff } => {
                let riff = riff.push(byte);
                if riff.len() < 30 {
                    Ok(
                        ScannerModel {
                            offset: offset as u64,
                            phase: PhaseModel::RiffHeader { start, riff },
                            ..scanner
                        },
                    )
                } else {
                    match frame_of(
                        scanner.limits,
                        scanner.header,
                        riff,
                        start as int,
                        scanner.frames.len(),
                    ) {
                        Err(failure) => Err(failure),
                        Ok(frame) => Ok(
                            ScannerModel {
                                limits: scanner.limits,
                                offset: offset as u64,
                                phase: if start + frame.encoded_size == offset {
                                    PhaseModel::Header
                                } else {
                                    PhaseModel::RiffBody {
                                        end: (start + frame.encoded_size) as u64,
                                    }
                                },
                                header: Seq::empty(),
                                frames: scanner.frames.push(frame),
                            },
                        ),
                    }
                }
            },
            PhaseModel::RiffBody { end } => Ok(
                ScannerModel {
                    offset: offset as u64,
                    phase: if offset == end {
                        PhaseModel::Header
                    } else {
                        scanner.phase
                    },
                    ..scanner
                },
            ),
        }
    }
}

/// The scan after more bytes, or what is wrong with the stream.
pub open spec fn scanned(scanner: ScannerModel, data: Seq<u8>) -> Result<ScannerModel, Failure>
    decreases data.len(),
{
    if data.len() == 0 {
        Ok(scanner)
    } else {
        match scanned_byte(scanner, data[0]) {
            Err(failure) => Err(failure),
            Ok(next) => scanned(next, data.drop_first()),
        }
    }
}

/// Whether a scan stands where reading a stream can bring it.
pub open spec fn scanner_in_order(scanner: ScannerModel) -> bool {
    &&& match scanner.phase {
        PhaseModel::Header => scanner.header.len() <= 31 && frames_end(scanner.frames)
            + scanner.header.len() == scanner.offset,
        PhaseModel::RiffHeader { start, riff } => {
            &&& scanner.header.len() == 28
            &&& 4 <= riff.len() < 30
            &&& start == frames_end(scanner.frames) + 28
            &&& start + riff.len() == scanner.offset
        },
        PhaseModel::RiffBody { end } => {
            &&& scanner.header.len() == 0
            &&& scanner.offset < end
            &&& end == frames_end(scanner.frames)
        },
    }
    &&& frames_contiguous(scanner.frames)
    &&& scanner.frames.len() <= scanner.limits.max_time_lapse_items
}

/// Where the last of these frames ends.
pub open spec fn frames_end(frames: Seq<FrameModel>) -> int {
    if frames.len() == 0 {
        0
    } else {
        frames.last().encoded_offset + frames.last().encoded_size
    }
}

/// Whether a frame starts where another ends.
pub open spec fn follows(frames: Seq<FrameModel>, i: int) -> bool {
    &&& frames[i].record_offset == if i == 0 {
        0
    } else {
        frames[i - 1].encoded_offset + frames[i - 1].encoded_size
    }
    &&& frames[i].encoded_offset == frames[i].record_offset + 28
    &&& frames[i].encoded_size >= 30
    &&& frames[i].sequence == i + 1
}

/// Whether frames lie end to end from the start of the stream, numbered from one.
pub open spec fn frames_contiguous(frames: Seq<FrameModel>) -> bool {
    forall|i: int| 0 <= i < frames.len() ==> #[trigger] follows(frames, i)
}

proof fn byte_keeps_order(scanner: ScannerModel, byte: u8)
    requires
        scanner_in_order(scanner),
    ensures
        scanned_byte(scanner, byte) matches Ok(next) ==> scanner_in_order(next) && next.limits
            == scanner.limits && next.offset == scanner.offset + 1,
{
    if let Ok(next) = scanned_byte(scanner, byte) {
        if let PhaseModel::RiffHeader { start, riff } = scanner.phase {
            if riff.len() + 1 == 30 {
                let frame = frame_of(
                    scanner.limits,
                    scanner.header,
                    riff.push(byte),
                    start as int,
                    scanner.frames.len(),
                )->Ok_0;
                assert forall|i: int| 0 <= i < next.frames.len() implies #[trigger] follows(
                    next.frames,
                    i,
                ) by {
                    if i < scanner.frames.len() {
                        assert(follows(scanner.frames, i));
                    }
                }
            }
        }
    }
}

/// Scanning keeps the scan in order: the frames that it has found lie end to end from
/// the start of the stream, are numbered from one, and are no more than allowed.
pub proof fn scanning_keeps_order(scanner: ScannerModel, data: Seq<u8>)
    requires
        scanner_in_order(scanner),
    ensures
        scanned(scanner, data) matches Ok(next) ==> scanner_in_order(next) && next.limits
            == scanner.limits && next.offset == scanner.offset + data.len(),
    decreases data.len(),
{
    if data.len() > 0 {
        byte_keeps_order(scanner, data[0]);
        if let Ok(next) = scanned_byte(scanner, data[0]) {
            scanning_keeps_order(next, data.drop_first());
        }
    }
}

/// Scanning a stream in two pieces is scanning it whole.
pub proof fn scanning_in_pieces(scanner: ScannerModel, first: Seq<u8>, second: Seq<u8>)
    ensures
        scanned(scanner, first + second) == match scanned(scanner, first) {
            Err(failure) => Err(failure),
            Ok(next) => scanned(next, second),
        },
    decreases first.len(),
{
    if first.len() == 0 {
        assert(first + second =~= second);
    } else {
        assert((first + second).drop_first() =~= first.drop_first() + second);
        if let Ok(next) = scanned_byte(scanner, first[0]) {
            scanning_in_pieces(next, first.drop_first(), second);
        }
    }
}

/// The scan after bytes inside of a WebP file.
proof fn body_skipped(scanner: ScannerModel, data: Seq<u8>)
    requires
        scanner.phase matches PhaseModel::RiffBody { end }
            && 0 < data.len() <= end - scanner.offset,
    ensures
        scanned(scanner, data) == Ok::<ScannerModel, Failure>(
            ScannerModel {
                offset: (scanner.offset + data.len()) as u64,
                phase: if scanner.offset + data.len() == scanner.phase->RiffBody_end {
                    PhaseModel::Header
                } else {
                    scanner.phase
                },
                ..scanner
            },
        ),
    decreases data.len(),
{
    let next = scanned_byte(scanner, data[0])->Ok_0;
    if data.len() > 1 {
        body_skipped(next, data.drop_first());
    } else {
        assert(data.drop_first() =~= Seq::empty());
        assert(scanned(next, data.drop_first()) == Ok::<ScannerModel, Failure>(next));
    }
    assert(scanned(scanner, data) == scanned(next, data.drop_first()));
}

proof fn one_scanned(scanner: ScannerModel, data: Seq<u8>, at: int)
    requires
        0 <= at < data.len(),
    ensures
        scanned(scanner, data.skip(at)) == match scanned_byte(scanner, data[at]) {
            Err(failure) => Err(failure),
            Ok(next) => scanned(next, data.skip(at + 1)),
        },
{
    assert(data.skip(at).drop_first() =~= data.skip(at + 1));
}

impl TimeLapseFrameScanner {
    /// A scan that has seen nothing.
    pub fn new(limits: Limits) -> (scanner: TimeLapseFrameScanner)
        ensures
            scanner@ == fresh_scanner(limits),
            scanner_in_order(scanner@),
    {
        let scanner = TimeLapseFrameScanner {
            limits,
            offset: 0,
            phase: FramePhase::Header,
            header: Vec::new(),
            frames: Vec::new(),
        };
        assert(scanner@.frames =~= Seq::<FrameModel>::empty());
        assert(scanner@.header =~= Seq::<u8>::empty());
        scanner
    }

    /// Takes one byte, outside of the rest of a WebP file.
    fn feed_byte(&mut self, byte: u8) -> (result: Result<(), Error>)
        requires
            scanner_in_order(old(self)@),
            !(old(self)@.phase is RiffBody),
        ensures
            match result {
                Ok(()) => scanned_byte(old(self)@, byte) == Ok::<ScannerModel, Failure>(
                    final(self)@,
                ),
                Err(error) => scanned_byte(old(self)@, byte) == Err::<ScannerModel, Failure>(
                    error@,
                ),
            },
    {
        let ghost before = self@;
        let offset: u64 = match self.offset.checked_add(1) {
            Some(offset) => offset,
            None => return Err(frame_error(Message::new("time-lapse stream offset overflow"))),
        };
        match &mut self.phase {
            FramePhase::RiffHeader { start, riff } => {
                riff.push(byte);
                if riff.len() < 30 {
                    self.offset = offset;
                    return Ok(());
                }
                let start: u64 = *start;
                let frame = parse_frame(
                    self.limits,
                    self.header.as_slice(),
                    riff.as_slice(),
                    start,
                    self.frames.len(),
                )?;
                proof {
                    error::views_push(self.frames@, frame);
                }
                self.frames.push(frame);
                self.header = Vec::new();
                self.offset = offset;
                let end: u64 = start + frame.encoded_size;
                self.phase =
                if end == offset {
                    FramePhase::Header
                } else {
                    FramePhase::RiffBody { end }
                };
                assert(self.header@ =~= Seq::<u8>::empty());
                Ok(())
            },
            _ => {
                self.header.push(byte);
                let length: usize = self.header.len();
                let ghost header = self.header@;
                if length >= 4 && tag_at(
                    self.header.as_slice(),
                    length - 4,
                    0x52,
                    0x49,
                    0x46,
                    0x46,
                ) {
                    assert(header.skip(length - 4) =~= header.subrange(length - 4, length as int));
                    if length != 32 {
                        return Err(
                            frame_error(
                                Message::new("time-lapse frame header is ").number(
                                    (length - 4) as u64,
                                ).text(" bytes instead of 28"),
                            ),
                        );
                    }
                    self.header.truncate(28);
                    let mut riff: Vec<u8> = Vec::new();
                    riff.push(0x52);
                    riff.push(0x49);
                    riff.push(0x46);
                    riff.push(0x46);
                    assert(riff@ =~= riff_tag());
                    assert(self.header@ =~= header.take(28));
                    self.offset = offset;
                    self.phase = FramePhase::RiffHeader { start: offset - 4, riff };
                    return Ok(());
                }
                if length >= 4 {
                    assert(header.skip(length - 4) =~= header.subrange(length - 4, length as int));
                }
                if length > 31 {
                    return Err(
                        frame_error(Message::new("time-lapse frame header has no RIFF marker")),
                    );
                }
                self.offset = offset;
                Ok(())
            },
        }
    }

    /// Takes the next bytes of the stream.
    pub fn feed(&mut self, data: &[u8]) -> (result: Result<(), Error>)
        requires
            scanner_in_order(old(self)@),
        ensures
            match result {
                Ok(()) => scanned(old(self)@, data@) == Ok::<ScannerModel, Failure>(final(self)@)
                    && scanner_in_order(final(self)@),
                Err(error) => scanned(old(self)@, data@) == Err::<ScannerModel, Failure>(error@),
            },
    {
        let ghost before = self@;
        let mut at: usize = 0;
        assert(data@.skip(0) =~= data@);
        assert(data.len() == data@.len());
        while at < data.len()
            invariant
                at <= data@.len(),
                data.len() == data@.len(),
                scanner_in_order(self@),
                before == old(self)@,
                scanned(before, data@) == scanned(self@, data@.skip(at as int)),
            decreases data@.len() - at,
        {
            let ghost current = self@;
            let end: u64 = match self.phase {
                FramePhase::RiffBody { end } => end,
                _ => 0,
            };
            if end > 0 {
                let rest: u64 = (data.len() - at) as u64;
                let left: u64 = end - self.offset;
                let count: u64 = if left < rest {
                    left
                } else {
                    rest
                };
                proof {
                    let piece = data@.subrange(at as int, at + count);
                    assert(data@.skip(at as int) =~= piece + data@.skip(at + count));
                    scanning_in_pieces(current, piece, data@.skip(at + count));
                    body_skipped(current, piece);
                    scanning_keeps_order(current, piece);
                }
                self.offset = self.offset + count;
                if self.offset == end {
                    self.phase = FramePhase::Header;
                }
                at = at + count as usize;
            } else {
                proof {
                    one_scanned(current, data@, at as int);
                    byte_keeps_order(current, data@[at as int]);
                }
                self.feed_byte(data[at])?;
                at = at + 1;
            }
        }
        assert(data@.skip(at as int) =~= Seq::<u8>::empty());
        Ok(())
    }
}

/// The frames of a stream that was scanned to its end.
pub open spec fn finished(
    scanner: ScannerModel,
    record_id: i64,
    size: int,
    sequence: i64,
) -> Result<Seq<FrameModel>, Failure> {
    let record = "record "@ + message::decimal_signed(record_id as int);
    if !(scanner.phase is Header) || scanner.header.len() != 0 || scanner.offset != size {
        Err(Failure::InvalidTimeLapse { reason: record + " ends inside a time-lapse frame"@ })
    } else if sequence < 0 {
        Err(Failure::InvalidTimeLapse { reason: record + " has a negative encoder sequence"@ })
    } else if scanner.frames.len() != sequence {
        Err(
            Failure::InvalidTimeLapse {
                reason: record + " contains "@ + message::decimal(scanner.frames.len())
                    + " frames instead of its encoder sequence "@ + message::decimal_signed(
                    sequence as int,
                ),
            },
        )
    } else {
        Ok(scanner.frames)
    }
}

impl TimeLapseFrameScanner {
    /// The frames of a stream of a size, which has to end after a number of frames.
    pub fn finish(self, record_id: i64, size: u64, sequence: i64) -> (frames: Result<
        Vec<TimeLapseFrame>,
        Error,
    >)
        ensures
            error::listed(frames) == finished(self@, record_id, size as int, sequence),
    {
        let at_header: bool = match self.phase {
            FramePhase::Header => true,
            _ => false,
        };
        if !at_header || self.header.len() != 0 || self.offset != size {
            return Err(
                frame_error(
                    Message::new("record ").integer(record_id).text(
                        " ends inside a time-lapse frame",
                    ),
                ),
            );
        }
        if sequence < 0 {
            return Err(
                frame_error(
                    Message::new("record ").integer(record_id).text(
                        " has a negative encoder sequence",
                    ),
                ),
            );
        }
        if self.frames.len() as u64 != sequence as u64 {
            return Err(
                frame_error(
                    Message::new("record ").integer(record_id).text(" contains ").number(
                        self.frames.len() as u64,
                    ).text(" frames instead of its encoder sequence ").integer(sequence),
                ),
            );
        }
        Ok(self.frames)
    }
}

/// The frames of a stream that is accepted lie end to end, are numbered from one,
/// fill the stream, and are as many as its record says.
pub proof fn accepted_frames_fill_the_stream(
    limits: Limits,
    stream: Seq<u8>,
    record_id: i64,
    size: int,
    sequence: i64,
)
    requires
        scanned(fresh_scanner(limits), stream) is Ok,
        finished(scanned(fresh_scanner(limits), stream)->Ok_0, record_id, size, sequence) is Ok,
    ensures
        ({
            let frames = finished(
                scanned(fresh_scanner(limits), stream)->Ok_0,
                record_id,
                size,
                sequence,
            )->Ok_0;
            &&& frames_contiguous(frames)
            &&& frames_end(frames) == stream.len()
            &&& size == stream.len()
            &&& frames.len() == sequence
            &&& frames.len() <= limits.max_time_lapse_items
        }),
{
    scanning_keeps_order(fresh_scanner(limits), stream);
}

} // verus!
