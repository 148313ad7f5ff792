//! Frames of recordings as bytes, and what reading gives back of them.

use vstd::prelude::*;

use crate::bytes;
use crate::container_laws;
use crate::error::Failure;
use crate::frames;
use crate::frames::FrameModel;
use crate::layout;
use crate::layout::{holds, laid_out, word32_reversed};
use crate::limits::Limits;

verus! {

/// The header of a frame record: the kind of the frame, the size of what follows with a header
/// of sixteen bytes, and five numbers with the place of the frame in the sequence second among
/// them.
pub open spec fn record_header(frame: FrameModel) -> Seq<u8> {
    laid_out(
        seq![
            frame.kind,
            word32_reversed((frame.encoded_size + 16) as u32),
            word32_reversed(frame.reserved_before_sequence),
            word32_reversed(frame.sequence),
            word32_reversed(frame.reserved_after_sequence),
            word32_reversed(frame.parameter_a),
            word32_reversed(frame.parameter_b),
        ],
    )
}

/// The three bytes of a number, least significant first.
pub open spec fn three_bytes(value: u32) -> Seq<u8> {
    seq![(value % 0x100) as u8, (value / 0x100 % 0x100) as u8, (value / 0x1_0000 % 0x100) as u8]
}

/// The two bytes of a number, least significant first.
pub open spec fn two_bytes(value: u32) -> Seq<u8> {
    seq![(value % 0x100) as u8, (value / 0x100 % 0x100) as u8]
}

/// The ten bytes after the header of the first chunk of a WebP file: four bytes of flags, and
/// the width and the height less one, for an extended header; three bytes, the start code, and
/// the width and the height with the scale above them, for a lossy frame.
pub open spec fn picture_bytes(frame: FrameModel, other: Seq<u8>, scales: (u32, u32)) -> Seq<u8> {
    match frame.webp_dimensions {
        Some((width, height)) => if frame.webp_chunk_kind == frames::extended_tag() {
            other.take(4) + three_bytes((width - 1) as u32) + three_bytes((height - 1) as u32)
        } else {
            other.take(3) + seq![0x9du8, 0x01, 0x2a] + (two_bytes(
                (width + 0x4000 * scales.0) as u32,
            ) + two_bytes((height + 0x4000 * scales.1) as u32))
        },
        None => other,
    }
}

/// The first thirty bytes of a WebP file: the form and its size, the kind and the size of the
/// first chunk, and the ten bytes after them.
pub open spec fn webp_start(
    frame: FrameModel,
    chunk_size: u32,
    other: Seq<u8>,
    scales: (u32, u32),
) -> Seq<u8> {
    laid_out(
        seq![
            frames::riff_tag(),
            word32_reversed((frame.encoded_size - 8) as u32),
            frames::webp_tag(),
            frame.webp_chunk_kind,
            word32_reversed(chunk_size),
        ],
    ) + picture_bytes(frame, other, scales)
}

/// Whether a frame can be written with a first chunk of a size: the sizes fit, and it has the
/// dimensions of its picture just when its first chunk tells them.
pub open spec fn frame_writable(
    frame: FrameModel,
    chunk_size: u32,
    other: Seq<u8>,
    scales: (u32, u32),
    limits: Limits,
) -> bool {
    &&& frame.kind.len() == 4
    &&& frame.webp_chunk_kind.len() == 4
    &&& other.len() == 10
    &&& 30 <= frame.encoded_size <= u32::MAX - 16
    &&& frame.encoded_offset == frame.record_offset + 28
    &&& frame.encoded_offset + frame.encoded_size <= u64::MAX
    &&& 0 < frame.sequence <= limits.max_time_lapse_items
    &&& 20 + chunk_size + chunk_size % 2 <= frame.encoded_size
    &&& match frame.webp_dimensions {
        Some((width, height)) => {
            &&& chunk_size >= 10
            &&& 0 < width <= limits.max_canvas_dimension
            &&& 0 < height <= limits.max_canvas_dimension
            &&& scales.0 < 4 && scales.1 < 4
            &&& if frame.webp_chunk_kind == frames::extended_tag() {
                width <= 0x100_0000 && height <= 0x100_0000
            } else {
                frame.webp_chunk_kind == frames::lossy_tag() && width < 0x4000 && height < 0x4000
            }
        },
        None => frame.webp_chunk_kind != frames::extended_tag() && frame.webp_chunk_kind
            != frames::lossy_tag(),
    }
}

proof fn held_is_between(data: Seq<u8>, at: int, part: Seq<u8>)
    requires
        holds(data, at, part),
    ensures
        0 <= at,
        at + part.len() <= data.len(),
        data.subrange(at, at + part.len() as int) == part,
        forall|i: int| 0 <= i < part.len() ==> #[trigger] part[i] == data[at + i],
{
    reveal(holds);
    assert(data.subrange(at, at + part.len() as int) =~= part);
}

proof fn record_header_reads_back(frame: FrameModel)
    requires
        frame.kind.len() == 4,
        frame.encoded_size <= u32::MAX - 16,
    ensures
        ({
            let header = record_header(frame);
            &&& header.len() == 28
            &&& header.subrange(0, 4) == frame.kind
            &&& bytes::le32(header, 4) == frame.encoded_size + 16
            &&& bytes::le32(header, 8) == frame.reserved_before_sequence
            &&& bytes::le32(header, 12) == frame.sequence
            &&& bytes::le32(header, 16) == frame.reserved_after_sequence
            &&& bytes::le32(header, 20) == frame.parameter_a
            &&& bytes::le32(header, 24) == frame.parameter_b
        }),
{
    let parts = seq![
        frame.kind,
        word32_reversed((frame.encoded_size + 16) as u32),
        word32_reversed(frame.reserved_before_sequence),
        word32_reversed(frame.sequence),
        word32_reversed(frame.reserved_after_sequence),
        word32_reversed(frame.parameter_a),
        word32_reversed(frame.parameter_b),
    ];
    let header = laid_out(parts);
    layout::equal_parts(parts, 4);
    assert(holds(header, 4 * 0int, parts[0]));
    assert(holds(header, 4 * 1int, parts[1]));
    assert(holds(header, 4 * 2int, parts[2]));
    assert(holds(header, 4 * 3int, parts[3]));
    assert(holds(header, 4 * 4int, parts[4]));
    assert(holds(header, 4 * 5int, parts[5]));
    assert(holds(header, 4 * 6int, parts[6]));
    held_is_between(header, 0, parts[0]);
    layout::held_numbers_read_back(header, 4);
    layout::held_numbers_read_back(header, 8);
    layout::held_numbers_read_back(header, 12);
    layout::held_numbers_read_back(header, 16);
    layout::held_numbers_read_back(header, 20);
    layout::held_numbers_read_back(header, 24);
}

proof fn webp_start_reads_back(
    frame: FrameModel,
    chunk_size: u32,
    other: Seq<u8>,
    scales: (u32, u32),
    limits: Limits,
)
    requires
        frame_writable(frame, chunk_size, other, scales, limits),
    ensures
        ({
            let riff = webp_start(frame, chunk_size, other, scales);
            &&& riff.len() == 30
            &&& bytes::le32(riff, 4) == frame.encoded_size - 8
            &&& riff.subrange(8, 12) == frames::webp_tag()
            &&& riff.subrange(12, 16) == frame.webp_chunk_kind
            &&& bytes::le32(riff, 16) == chunk_size
            &&& forall|i: int|
                0 <= i < 10 ==> riff[20 + i] == #[trigger] picture_bytes(frame, other, scales)[i]
        }),
{
    let parts = seq![
        frames::riff_tag(),
        word32_reversed((frame.encoded_size - 8) as u32),
        frames::webp_tag(),
        frame.webp_chunk_kind,
        word32_reversed(chunk_size),
    ];
    let head = laid_out(parts);
    let picture = picture_bytes(frame, other, scales);
    let riff = webp_start(frame, chunk_size, other, scales);
    assert(picture.len() == 10);
    layout::equal_parts(parts, 4);
    layout::three_parts(head, picture, Seq::empty());
    assert(head + picture + Seq::<u8>::empty() =~= riff);
    assert forall|i: int| 0 <= i < 5 implies holds(riff, 4 * i, #[trigger] parts[i]) by {
        assert(holds(head, 4 * i, parts[i]));
        layout::part_of_part(riff, 0, head, 4 * i, parts[i]);
    }
    assert(holds(riff, 4 * 1int, parts[1]));
    assert(holds(riff, 4 * 2int, parts[2]));
    assert(holds(riff, 4 * 3int, parts[3]));
    assert(holds(riff, 4 * 4int, parts[4]));
    layout::held_numbers_read_back(riff, 4);
    layout::held_numbers_read_back(riff, 16);
    held_is_between(riff, 8, parts[2]);
    held_is_between(riff, 12, parts[3]);
    held_is_between(riff, 20, picture);
}

proof fn extended_picture_reads_back(riff: Seq<u8>, width: u32, height: u32)
    requires
        riff.len() == 30,
        0 < width <= 0x100_0000,
        0 < height <= 0x100_0000,
        riff[24] == three_bytes((width - 1) as u32)[0],
        riff[25] == three_bytes((width - 1) as u32)[1],
        riff[26] == three_bytes((width - 1) as u32)[2],
        riff[27] == three_bytes((height - 1) as u32)[0],
        riff[28] == three_bytes((height - 1) as u32)[1],
        riff[29] == three_bytes((height - 1) as u32)[2],
    ensures
        frames::le24(riff, 24) == width - 1,
        frames::le24(riff, 27) == height - 1,
{
}

proof fn lossy_picture_reads_back(
    riff: Seq<u8>,
    width: u32,
    height: u32,
    scales: (u32, u32),
)
    requires
        riff.len() == 30,
        width < 0x4000,
        height < 0x4000,
        scales.0 < 4,
        scales.1 < 4,
        riff[26] == two_bytes((width + 0x4000 * scales.0) as u32)[0],
        riff[27] == two_bytes((width + 0x4000 * scales.0) as u32)[1],
        riff[28] == two_bytes((height + 0x4000 * scales.1) as u32)[0],
        riff[29] == two_bytes((height + 0x4000 * scales.1) as u32)[1],
    ensures
        bytes::le16(riff, 26) % 0x4000 == width,
        bytes::le16(riff, 28) % 0x4000 == height,
{
    assert(bytes::le16(riff, 26) == width + 0x4000 * scales.0);
    assert(bytes::le16(riff, 28) == height + 0x4000 * scales.1);
}

#[verifier::spinoff_prover]
#[verifier::rlimit(80)]
proof fn dimensions_read_back(
    frame: FrameModel,
    chunk_size: u32,
    other: Seq<u8>,
    scales: (u32, u32),
    limits: Limits,
)
    requires
        frame_writable(frame, chunk_size, other, scales, limits),
    ensures
        frames::webp_dimensions_of(
            webp_start(frame, chunk_size, other, scales),
            frame.encoded_size as int,
        ) == Ok::<Option<(u32, u32)>, Failure>(frame.webp_dimensions),
{
    let riff = webp_start(frame, chunk_size, other, scales);
    let picture = picture_bytes(frame, other, scales);
    webp_start_reads_back(frame, chunk_size, other, scales, limits);
    assert(frames::extended_tag()[3] != frames::lossy_tag()[3]);
    assert(riff[20 + 3int] == picture[3]);
    assert(riff[20 + 4int] == picture[4]);
    assert(riff[20 + 5int] == picture[5]);
    assert(riff[20 + 6int] == picture[6]);
    assert(riff[20 + 7int] == picture[7]);
    assert(riff[20 + 8int] == picture[8]);
    assert(riff[20 + 9int] == picture[9]);
    if let Some((width, height)) = frame.webp_dimensions {
        if frame.webp_chunk_kind == frames::extended_tag() {
            let first = three_bytes((width - 1) as u32);
            let second = three_bytes((height - 1) as u32);
            assert(picture == other.take(4) + first + second);
            assert(picture[4] == first[0] && picture[5] == first[1] && picture[6] == first[2]);
            assert(picture[7] == second[0] && picture[8] == second[1] && picture[9] == second[2]);
            extended_picture_reads_back(riff, width, height);
        } else {
            let first = two_bytes((width + 0x4000 * scales.0) as u32);
            let second = two_bytes((height + 0x4000 * scales.1) as u32);
            assert(picture == other.take(3) + seq![0x9du8, 0x01, 0x2a] + (first + second));
            assert(picture[3] == 0x9d && picture[4] == 0x01 && picture[5] == 0x2a);
            assert(picture[6] == first[0] && picture[7] == first[1]);
            assert(picture[8] == second[0] && picture[9] == second[1]);
            assert(riff.subrange(23, 26) =~= seq![0x9du8, 0x01, 0x2a]);
            lossy_picture_reads_back(riff, width, height, scales);
        }
    }
}

/// A frame record that is written, with the start of its picture, reads back as the frame: its
/// kind, its place and size, its place in the sequence, its parameters, and the dimensions of
/// its picture.
pub proof fn frame_reads_back(
    frame: FrameModel,
    chunk_size: u32,
    other: Seq<u8>,
    scales: (u32, u32),
    limits: Limits,
)
    requires
        frame_writable(frame, chunk_size, other, scales, limits),
    ensures
        frames::frame_of(
            limits,
            record_header(frame),
            webp_start(frame, chunk_size, other, scales),
            frame.encoded_offset as int,
            (frame.sequence - 1) as nat,
        ) == Ok::<FrameModel, Failure>(frame),
{
    record_header_reads_back(frame);
    webp_start_reads_back(frame, chunk_size, other, scales, limits);
    dimensions_read_back(frame, chunk_size, other, scales, limits);
}

/// The tags in a frame record spell their names.
pub proof fn frame_tags_spell_their_names()
    ensures
        container_laws::spells(frames::riff_tag(), "RIFF"@),
        container_laws::spells(frames::webp_tag(), "WEBP"@),
        container_laws::spells(frames::extended_tag(), "VP8X"@),
        container_laws::spells(frames::lossy_tag(), "VP8 "@),
{
    reveal_strlit("RIFF");
    reveal_strlit("WEBP");
    reveal_strlit("VP8X");
    reveal_strlit("VP8 ");
    four_characters(frames::riff_tag(), "RIFF"@);
    four_characters(frames::webp_tag(), "WEBP"@);
    four_characters(frames::extended_tag(), "VP8X"@);
    four_characters(frames::lossy_tag(), "VP8 "@);
}

proof fn four_characters(data: Seq<u8>, text: Seq<char>)
    requires
        data.len() == 4,
        text.len() == 4,
        data[0] == text[0] as u32,
        data[1] == text[1] as u32,
        data[2] == text[2] as u32,
        data[3] == text[3] as u32,
    ensures
        container_laws::spells(data, text),
{
    assert forall|i: int| 0 <= i < 4 implies #[trigger] data[i] == text[i] as u32 by {
        assert(i == 0 || i == 1 || i == 2 || i == 3);
    }
}

} // verus!
