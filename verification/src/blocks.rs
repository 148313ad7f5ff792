//! Block data: parsing the tiles of an external body and rewriting one of them.

use vstd::prelude::*;

use crate::bytes;
use crate::bytes::{bytes_match, read_be32, read_le32};
use crate::container::{ClipFile, ExternalChunkHeader, ExternalHeaderModel};
use crate::error;
use crate::error::{Error, Failure};
use crate::external;
use crate::external::{
    Block, BlockData, BlockModel, BlockParameters, BlockPayload, ExternalBody, ExternalObject,
    PayloadModel,
};

verus! {

/// ASCII text in UTF-16BE.
pub open spec fn wide_text(text: Seq<char>) -> Seq<u8> {
    Seq::new(
        2 * text.len(),
        |i: int|
            if i % 2 == 0 {
                0u8
            } else {
                text[i / 2] as u8
            },
    )
}

fn wide_bytes(text: &str) -> (wide: Vec<u8>)
    requires
        text.is_ascii(),
    ensures
        wide@ == wide_text(text@),
{
    let mut wide: Vec<u8> = Vec::new();
    let length: usize = text.unicode_len();
    let mut index: usize = 0;
    while index < length
        invariant
            index <= length,
            length == text@.len(),
            text.is_ascii(),
            wide@ == wide_text(text@.take(index as int)),
        decreases length - index,
    {
        wide.push(0);
        wide.push(text.get_ascii(index));
        index += 1;
        proof {
            assert(wide@ =~= wide_text(text@.take(index as int)));
        }
    }
    assert(text@.take(length as int) =~= text@);
    wide
}

/// The label `BlockDataBeginChunk`.
pub open spec fn begin_marker() -> Seq<u8> {
    wide_text("BlockDataBeginChunk"@)
}

/// The label `BlockDataEndChunk`.
pub open spec fn end_marker() -> Seq<u8> {
    wide_text("BlockDataEndChunk"@)
}

/// The label `BlockStatus`.
pub open spec fn status_marker() -> Seq<u8> {
    wide_text("BlockStatus"@)
}

/// The label `BlockCheckSum`.
pub open spec fn checksum_marker() -> Seq<u8> {
    wide_text("BlockCheckSum"@)
}

pub fn begin_bytes() -> (marker: Vec<u8>)
    ensures
        marker@ == begin_marker(),
        marker@.len() == 38,
{
    proof {
        reveal_strlit("BlockDataBeginChunk");
    }
    wide_bytes("BlockDataBeginChunk")
}

pub fn end_bytes() -> (marker: Vec<u8>)
    ensures
        marker@ == end_marker(),
        marker@.len() == 34,
{
    proof {
        reveal_strlit("BlockDataEndChunk");
    }
    wide_bytes("BlockDataEndChunk")
}

pub fn status_bytes() -> (marker: Vec<u8>)
    ensures
        marker@ == status_marker(),
        marker@.len() == 22,
{
    proof {
        reveal_strlit("BlockStatus");
    }
    wide_bytes("BlockStatus")
}

pub fn checksum_bytes() -> (marker: Vec<u8>)
    ensures
        marker@ == checksum_marker(),
        marker@.len() == 26,
{
    proof {
        reveal_strlit("BlockCheckSum");
    }
    wide_bytes("BlockCheckSum")
}

proof fn lemma_marker_lengths()
    ensures
        begin_marker().len() == 38,
        end_marker().len() == 34,
        status_marker().len() == 22,
        checksum_marker().len() == 26,
{
    reveal_strlit("BlockDataBeginChunk");
    reveal_strlit("BlockDataEndChunk");
    reveal_strlit("BlockStatus");
    reveal_strlit("BlockCheckSum");
}

pub open spec fn block_failure(offset: int, reason: Seq<char>) -> Failure {
    Failure::InvalidBlockData { offset: offset as u64, reason }
}

fn block_error(offset: u64, reason: &'static str) -> (error: Error)
    ensures
        error@ == block_failure(offset as int, reason@),
{
    Error::InvalidBlockData { offset, reason }
}

/// Whether `size` bytes at `at` can be read before `end`, and if not, why.
pub open spec fn readable(data: Seq<u8>, at: int, size: int, end: int, reported: int) -> Result<
    (),
    Failure,
> {
    if at + size > end {
        Err(block_failure(reported, "unexpected end of block data"@))
    } else if at + size > data.len() {
        Err(Failure::Io)
    } else {
        Ok(())
    }
}

fn check_readable(data: &[u8], at: u64, size: u64, end: u64, reported: u64) -> (result: Result<
    (),
    Error,
>)
    requires
        size <= 64,
    ensures
        error::plain(result) == readable(
            data@,
            at as int,
            size as int,
            end as int,
            reported as int,
        ),
{
    if end < size || at > end - size {
        return Err(block_error(reported, "unexpected end of block data"));
    }
    if at + size > data.len() as u64 {
        return Err(Error::unexpected_end());
    }
    Ok(())
}

/// The number at `at`, most significant byte first.
pub open spec fn word_at(data: Seq<u8>, at: int, end: int) -> Result<u32, Failure> {
    match readable(data, at, 4, end, at) {
        Err(failure) => Err(failure),
        Ok(_) => Ok(bytes::be32(data, at) as u32),
    }
}

fn read_word(data: &[u8], at: u64, end: u64) -> (word: Result<u32, Error>)
    ensures
        error::plain(word) == word_at(data@, at as int, end as int),
{
    assert(data.len() == data@.len());
    match check_readable(data, at, 4, end, at) {
        Ok(()) => Ok(read_be32(data, at as usize)),
        Err(error) => Err(error),
    }
}

/// Whether `marker` stands at `at`.
pub open spec fn marker_at(
    data: Seq<u8>,
    at: int,
    end: int,
    marker: Seq<u8>,
    reported: int,
) -> Result<(), Failure> {
    match readable(data, at, marker.len() as int, end, reported) {
        Err(failure) => Err(failure),
        Ok(_) => if bytes::has_bytes_at(data, at, marker) {
            Ok(())
        } else {
            Err(block_failure(reported, "unexpected UTF-16BE marker"@))
        },
    }
}

fn expect_bytes(data: &[u8], at: u64, end: u64, marker: &[u8], reported: u64) -> (result: Result<
    (),
    Error,
>)
    requires
        marker@.len() <= 64,
    ensures
        error::plain(result) == marker_at(
            data@,
            at as int,
            end as int,
            marker@,
            reported as int,
        ),
{
    assert(data.len() == data@.len());
    match check_readable(data, at, marker.len() as u64, end, reported) {
        Ok(()) => {},
        Err(error) => return Err(error),
    }
    if !bytes_match(data, at as usize, marker) {
        return Err(block_error(reported, "unexpected UTF-16BE marker"));
    }
    Ok(())
}

/// The payload of the block at `start`, whose data-present flag stands at `at`,
/// and the offset after it.
pub open spec fn block_payload_at(data: Seq<u8>, at: int, end: int, start: int) -> Result<
    (Option<PayloadModel>, int),
    Failure,
> {
    match word_at(data, at, end) {
        Err(failure) => Err(failure),
        Ok(present) => if present == 0 {
            Ok((None, at + 4))
        } else if present != 1 {
            Err(block_failure(start, "invalid data-present flag"@))
        } else {
            match (word_at(data, at + 4, end), readable(data, at + 8, 4, end, at + 8)) {
                (Err(failure), _) => Err(failure),
                (_, Err(failure)) => Err(failure),
                (Ok(outer), Ok(_)) => {
                    let size = bytes::le32(data, at + 8);
                    let offset = at + 12;
                    if outer - 4 != size {
                        Err(block_failure(start, "compressed length fields disagree"@))
                    } else if offset + size > u64::MAX {
                        Err(Failure::OffsetOverflow)
                    } else if offset + size > end {
                        Err(block_failure(start, "compressed payload exceeds block"@))
                    } else if size >= 2 && offset + 2 > data.len() {
                        Err(Failure::Io)
                    } else if size == 1 && offset + 1 > data.len() {
                        Err(Failure::Io)
                    } else {
                        Ok(
                            (
                                Some(
                                    PayloadModel {
                                        offset: offset as u64,
                                        compressed_size: size as u64,
                                        prefix: if size >= 2 {
                                            Some(data.subrange(offset, offset + 2))
                                        } else {
                                            None
                                        },
                                    },
                                ),
                                offset + size,
                            ),
                        )
                    }
                },
            }
        },
    }
}

fn read_block_body(data: &[u8], at: u64, end: u64, start: u64) -> (result: Result<
    (Option<BlockPayload>, u64),
    Error,
>)
    ensures
        match result {
            Ok((payload, next)) => block_payload_at(data@, at as int, end as int, start as int)
                == Ok::<(Option<PayloadModel>, int), Failure>(
                (external::payload_model(payload), next as int),
            ),
            Err(error) => block_payload_at(data@, at as int, end as int, start as int) == Err::<
                (Option<PayloadModel>, int),
                Failure,
            >(error@),
        },
{
    assert(data.len() == data@.len());
    let present: u32 = match read_word(data, at, end) {
        Ok(word) => word,
        Err(error) => return Err(error),
    };
    if present == 0 {
        return Ok((None, at + 4));
    }
    if present != 1 {
        return Err(block_error(start, "invalid data-present flag"));
    }
    let outer_size: u32 = match read_word(data, at + 4, end) {
        Ok(word) => word,
        Err(error) => return Err(error),
    };
    match check_readable(data, at + 8, 4, end, at + 8) {
        Ok(()) => {},
        Err(error) => return Err(error),
    }
    let compressed_size: u32 = read_le32(data, (at + 8) as usize);
    let agreed: bool = match outer_size.checked_sub(4) {
        Some(size) => size == compressed_size,
        None => false,
    };
    if !agreed {
        return Err(block_error(start, "compressed length fields disagree"));
    }
    let offset: u64 = at + 12;
    let payload_end: u64 = match offset.checked_add(compressed_size as u64) {
        Some(end) => end,
        None => return Err(Error::OffsetOverflow),
    };
    if payload_end > end {
        return Err(block_error(start, "compressed payload exceeds block"));
    }
    let prefix: Option<[u8; 2]> = if compressed_size >= 2 {
        if data.len() as u64 - offset < 2 {
            return Err(Error::unexpected_end());
        }
        let first: usize = offset as usize;
        let pair: [u8; 2] = [data[first], data[first + 1]];
        proof {
            assert(pair@ =~= data@.subrange(offset as int, offset + 2));
        }
        Some(pair)
    } else {
        if compressed_size == 1 && data.len() as u64 - offset < 1 {
            return Err(Error::unexpected_end());
        }
        None
    };
    Ok(
        (Some(BlockPayload { offset, compressed_size: compressed_size as u64, prefix }), payload_end),
    )
}

/// The block of `size` bytes at `start`, its size field included.
pub open spec fn block_at(data: Seq<u8>, end: int, start: int, size: u32) -> Result<
    BlockModel,
    Failure,
> {
    let stop = start + size;
    if stop > u64::MAX {
        Err(Failure::OffsetOverflow)
    } else if stop > end {
        Err(block_failure(start, "block extends beyond external body"@))
    } else {
        match word_at(data, start + 4, stop) {
            Err(failure) => Err(failure),
            Ok(begin) => if begin != 19 {
                Err(block_failure(start, "invalid begin-label length"@))
            } else {
                match (
                    marker_at(data, start + 8, stop, begin_marker(), start),
                    word_at(data, start + 46, stop),
                    readable(data, start + 50, 12, stop, start + 50),
                    block_payload_at(data, start + 62, stop, start),
                ) {
                    (Err(failure), _, _, _) => Err(failure),
                    (_, Err(failure), _, _) => Err(failure),
                    (_, _, Err(failure), _) => Err(failure),
                    (_, _, _, Err(failure)) => Err(failure),
                    (Ok(_), Ok(index), Ok(_), Ok((payload, next))) => match word_at(
                        data,
                        next,
                        stop,
                    ) {
                        Err(failure) => Err(failure),
                        Ok(label) => if label != 17 {
                            Err(block_failure(start, "invalid end-label length"@))
                        } else {
                            match marker_at(data, next + 4, stop, end_marker(), start) {
                                Err(failure) => Err(failure),
                                Ok(_) => if next + 38 != stop {
                                    Err(
                                        block_failure(
                                            start,
                                            "declared block size does not match contents"@,
                                        ),
                                    )
                                } else {
                                    Ok(
                                        BlockModel {
                                            index,
                                            parameters: data.subrange(start + 50, start + 62),
                                            payload,
                                            status: 0,
                                            checksum: 0,
                                        },
                                    )
                                },
                            }
                        },
                    },
                }
            },
        }
    }
}

fn read_block(data: &[u8], end: u64, start: u64, size: u32) -> (block: Result<Block, Error>)
    requires
        start + 4 <= data@.len(),
    ensures
        error::outcome(block) == block_at(data@, end as int, start as int, size),
{
    assert(data.len() == data@.len());
    proof {
        lemma_marker_lengths();
    }
    let stop: u64 = match start.checked_add(size as u64) {
        Some(stop) => stop,
        None => return Err(Error::OffsetOverflow),
    };
    if stop > end {
        return Err(block_error(start, "block extends beyond external body"));
    }
    let begin_chars: u32 = match read_word(data, start + 4, stop) {
        Ok(word) => word,
        Err(error) => return Err(error),
    };
    if begin_chars != 19 {
        return Err(block_error(start, "invalid begin-label length"));
    }
    let begin = begin_bytes();
    match expect_bytes(data, start + 8, stop, begin.as_slice(), start) {
        Ok(()) => {},
        Err(error) => return Err(error),
    }
    let index: u32 = match read_word(data, start + 46, stop) {
        Ok(word) => word,
        Err(error) => return Err(error),
    };
    match check_readable(data, start + 50, 12, stop, start + 50) {
        Ok(()) => {},
        Err(error) => return Err(error),
    }
    let at: usize = (start + 50) as usize;
    let raw: [u8; 12] = [
        data[at],
        data[at + 1],
        data[at + 2],
        data[at + 3],
        data[at + 4],
        data[at + 5],
        data[at + 6],
        data[at + 7],
        data[at + 8],
        data[at + 9],
        data[at + 10],
        data[at + 11],
    ];
    proof {
        assert(raw@ =~= data@.subrange(start + 50, start + 62));
    }
    let (payload, next) = match read_block_body(data, start + 62, stop, start) {
        Ok(result) => result,
        Err(error) => return Err(error),
    };
    let end_chars: u32 = match read_word(data, next, stop) {
        Ok(word) => word,
        Err(error) => return Err(error),
    };
    if end_chars != 17 {
        return Err(block_error(start, "invalid end-label length"));
    }
    let end_label = end_bytes();
    match expect_bytes(data, next + 4, stop, end_label.as_slice(), start) {
        Ok(()) => {},
        Err(error) => return Err(error),
    }
    if next + 38 != stop {
        return Err(block_error(start, "declared block size does not match contents"));
    }
    Ok(
        Block {
            index,
            parameters: BlockParameters { raw },
            payload,
            status: 0,
            checksum: 0,
        },
    )
}

/// The `count` numbers of a trailer from `at` on, after the numbers `found`.
pub open spec fn words_from(
    data: Seq<u8>,
    end: int,
    at: int,
    count: nat,
    found: Seq<u32>,
) -> Result<
    Seq<u32>,
    Failure,
>
    decreases count,
{
    if count == 0 {
        Ok(found)
    } else {
        match word_at(data, at, end) {
            Err(failure) => Err(failure),
            Ok(word) => words_from(data, end, at + 4, (count - 1) as nat, found.push(word)),
        }
    }
}

/// The trailer array whose header stands at `at`, one number for each block.
pub open spec fn trailer_at(data: Seq<u8>, end: int, at: int, blocks: nat, reported: int) -> Result<
    Seq<u32>,
    Failure,
> {
    match word_at(data, at, end) {
        Err(failure) => Err(failure),
        Ok(header) => if header != 12 {
            Err(block_failure(reported, "invalid trailer header size"@))
        } else {
            match word_at(data, at + 4, end) {
                Err(failure) => Err(failure),
                Ok(count) => if count != blocks {
                    Err(block_failure(reported, "trailer count does not match block count"@))
                } else {
                    match word_at(data, at + 8, end) {
                        Err(failure) => Err(failure),
                        Ok(item) => if item != 4 {
                            Err(block_failure(reported, "invalid trailer item size"@))
                        } else {
                            words_from(data, end, at + 12, blocks, Seq::empty())
                        },
                    }
                },
            }
        },
    }
}

/// Reads the trailer array whose header stands at `at`, one number for each block; a failure
/// is reported at the offset `reported`.
pub fn read_trailer_values(
    data: &[u8],
    end: u64,
    at: u64,
    block_count: usize,
    reported: u64,
) -> (result: Result<Vec<u32>, Error>)
    requires
        at <= data@.len(),
    ensures
        error::outcome(result) == trailer_at(
            data@,
            end as int,
            at as int,
            block_count as nat,
            reported as int,
        ),
{
    assert(data.len() == data@.len());
    let header: u32 = match read_word(data, at, end) {
        Ok(word) => word,
        Err(error) => return Err(error),
    };
    if header != 12 {
        return Err(block_error(reported, "invalid trailer header size"));
    }
    let count: u32 = match read_word(data, at + 4, end) {
        Ok(word) => word,
        Err(error) => return Err(error),
    };
    if count as u64 != block_count as u64 {
        return Err(block_error(reported, "trailer count does not match block count"));
    }
    let item: u32 = match read_word(data, at + 8, end) {
        Ok(word) => word,
        Err(error) => return Err(error),
    };
    if item != 4 {
        return Err(block_error(reported, "invalid trailer item size"));
    }
    let mut values: Vec<u32> = Vec::new();
    let mut position: u64 = at + 12;
    let mut index: usize = 0;
    while index < block_count
        invariant
            index <= block_count,
            position <= data@.len(),
            data@.len() == data.len(),
            trailer_at(
                data@,
                end as int,
                at as int,
                block_count as nat,
                reported as int,
            ) == words_from(
                data@,
                end as int,
                position as int,
                (block_count - index) as nat,
                values@,
            ),
        decreases block_count - index,
    {
        match read_word(data, position, end) {
            Ok(word) => values.push(word),
            Err(error) => return Err(error),
        }
        position = position + 4;
        index += 1;
    }
    Ok(values)
}

/// Blocks with the status and checksum that the trailers give them.
pub open spec fn with_trailers(
    blocks: Seq<BlockModel>,
    statuses: Seq<u32>,
    checksums: Seq<u32>,
) -> Seq<BlockModel> {
    Seq::new(
        blocks.len(),
        |i: int| BlockModel { status: statuses[i], checksum: checksums[i], ..blocks[i] },
    )
}

/// The blocks of a body from `at` on, after what was read before.
pub open spec fn blocks_from(
    data: Seq<u8>,
    end: int,
    max_blocks: u64,
    at: int,
    blocks: Seq<BlockModel>,
    statuses: Option<Seq<u32>>,
    checksums: Option<Seq<u32>>,
) -> Result<Seq<BlockModel>, Failure>
    decreases
            if at < end {
                end - at
            } else {
                0
            },
{
    if at >= end {
        match (statuses, checksums) {
            (None, _) => Err(block_failure(end, "missing BlockStatus"@)),
            (_, None) => Err(block_failure(end, "missing BlockCheckSum"@)),
            (Some(statuses), Some(checksums)) => Ok(with_trailers(blocks, statuses, checksums)),
        }
    } else {
        match word_at(data, at, end) {
            Err(failure) => Err(failure),
            Ok(word) => if word == 11 {
                if statuses is Some {
                    Err(block_failure(at, "duplicate BlockStatus"@))
                } else {
                    match marker_at(data, at + 4, end, status_marker(), at) {
                        Err(failure) => Err(failure),
                        Ok(_) => match trailer_at(data, end, at + 26, blocks.len(), at) {
                            Err(failure) => Err(failure),
                            Ok(values) => blocks_from(
                                data,
                                end,
                                max_blocks,
                                at + 38 + 4 * blocks.len(),
                                blocks,
                                Some(values),
                                checksums,
                            ),
                        },
                    }
                }
            } else if word == 13 {
                if checksums is Some {
                    Err(block_failure(at, "duplicate BlockCheckSum"@))
                } else {
                    match marker_at(data, at + 4, end, checksum_marker(), at) {
                        Err(failure) => Err(failure),
                        Ok(_) => match trailer_at(data, end, at + 30, blocks.len(), at) {
                            Err(failure) => Err(failure),
                            Ok(values) => blocks_from(
                                data,
                                end,
                                max_blocks,
                                at + 42 + 4 * blocks.len(),
                                blocks,
                                statuses,
                                Some(values),
                            ),
                        },
                    }
                }
            } else if statuses is Some || checksums is Some {
                Err(block_failure(at, "block appears after trailer arrays"@))
            } else if blocks.len() + 1 > max_blocks {
                Err(
                    Failure::LimitExceeded {
                        resource: "blocks per external object"@,
                        value: if blocks.len() + 1 > u64::MAX {
                            u64::MAX
                        } else {
                            (blocks.len() + 1) as u64
                        },
                        limit: max_blocks,
                    },
                )
            } else {
                match block_at(data, end, at, word) {
                    Err(failure) => Err(failure),
                    Ok(block) => blocks_from(
                        data,
                        end,
                        max_blocks,
                        at + word,
                        blocks.push(block),
                        statuses,
                        checksums,
                    ),
                }
            },
        }
    }
}

/// The blocks of the body that `header` locates in the data.
pub open spec fn block_data_of(
    data: Seq<u8>,
    header: ExternalHeaderModel,
    max_blocks: u64,
) -> Result<
    Seq<BlockModel>,
    Failure,
> {
    if header.body_offset + header.body_size > u64::MAX {
        Err(Failure::OffsetOverflow)
    } else {
        blocks_from(
            data,
            header.body_offset + header.body_size,
            max_blocks,
            header.body_offset as int,
            Seq::empty(),
            None,
            None,
        )
    }
}

proof fn lemma_words_within(data: Seq<u8>, end: int, at: int, count: nat, found: Seq<u32>)
    requires
        words_from(data, end, at, count, found) is Ok,
    ensures
        words_from(data, end, at, count, found)->Ok_0.len() == found.len() + count,
        count > 0 ==> at + 4 * count <= end && at + 4 * count <= data.len(),
    decreases count,
{
    if count > 0 {
        lemma_words_within(
            data,
            end,
            at + 4,
            (count - 1) as nat,
            found.push(word_at(data, at, end)->Ok_0),
        );
    }
}

/// Indexes the block-data body that `header` locates in `data`.
pub fn parse_block_data(data: &[u8], header: &ExternalChunkHeader, max_blocks: u64) -> (result:
    Result<BlockData, Error>)
    ensures
        error::outcome(result) == block_data_of(data@, header@, max_blocks),
{
    assert(data.len() == data@.len());
    proof {
        lemma_marker_lengths();
    }
    let end: u64 = match header.body_offset.checked_add(header.body_size) {
        Some(end) => end,
        None => return Err(Error::OffsetOverflow),
    };
    let mut at: u64 = header.body_offset;
    let mut blocks: Vec<Block> = Vec::new();
    let mut statuses: Option<Vec<u32>> = None;
    let mut checksums: Option<Vec<u32>> = None;
    let ghost whole = block_data_of(data@, header@, max_blocks);
    proof {
        assert(error::views(blocks@) =~= Seq::empty());
    }
    while at < end
        invariant
            data@.len() == data.len(),
            end == header.body_offset + header.body_size,
            whole == block_data_of(data@, header@, max_blocks),
            whole == blocks_from(
                data@,
                end as int,
                max_blocks,
                at as int,
                error::views(blocks@),
                words_model(statuses),
                words_model(checksums),
            ),
            statuses matches Some(values) ==> values@.len() == blocks@.len(),
            checksums matches Some(values) ==> values@.len() == blocks@.len(),
        decreases end - at,
    {
        proof {
            lemma_marker_lengths();
        }
        let start: u64 = at;
        let word: u32 = match read_word(data, start, end) {
            Ok(word) => word,
            Err(error) => return Err(error),
        };
        if word == 11 {
            if statuses.is_some() {
                return Err(block_error(start, "duplicate BlockStatus"));
            }
            let marker = status_bytes();
            match expect_bytes(data, start + 4, end, marker.as_slice(), start) {
                Ok(()) => {},
                Err(error) => return Err(error),
            }
            let values = match read_trailer_values(data, end, start + 26, blocks.len(), start) {
                Ok(values) => values,
                Err(error) => return Err(error),
            };
            proof {
                lemma_words_within(
                    data@,
                    end as int,
                    start + 38,
                    blocks@.len(),
                    Seq::empty(),
                );
            }
            at = start + 38 + 4 * (blocks.len() as u64);
            statuses = Some(values);
        } else if word == 13 {
            if checksums.is_some() {
                return Err(block_error(start, "duplicate BlockCheckSum"));
            }
            let marker = checksum_bytes();
            match expect_bytes(data, start + 4, end, marker.as_slice(), start) {
                Ok(()) => {},
                Err(error) => return Err(error),
            }
            let values = match read_trailer_values(data, end, start + 30, blocks.len(), start) {
                Ok(values) => values,
                Err(error) => return Err(error),
            };
            proof {
                lemma_words_within(
                    data@,
                    end as int,
                    start + 42,
                    blocks@.len(),
                    Seq::empty(),
                );
            }
            at = start + 42 + 4 * (blocks.len() as u64);
            checksums = Some(values);
        } else {
            if statuses.is_some() || checksums.is_some() {
                return Err(block_error(start, "block appears after trailer arrays"));
            }
            let count: u64 = (blocks.len() as u64).saturating_add(1);
            if blocks.len() as u64 >= max_blocks {
                return Err(Error::limit("blocks per external object", count, max_blocks));
            }
            let block = match read_block(data, end, start, word) {
                Ok(block) => block,
                Err(error) => return Err(error),
            };
            proof {
                error::views_push(blocks@, block);
            }
            blocks.push(block);
            at = start + word as u64;
        }
    }
    let statuses = match statuses {
        Some(values) => values,
        None => return Err(block_error(end, "missing BlockStatus")),
    };
    let checksums = match checksums {
        Some(values) => values,
        None => return Err(block_error(end, "missing BlockCheckSum")),
    };
    let mut complete: Vec<Block> = Vec::new();
    let mut index: usize = 0;
    while index < blocks.len()
        invariant
            index <= blocks@.len(),
            statuses@.len() == blocks@.len(),
            checksums@.len() == blocks@.len(),
            complete@.len() == index,
            forall|i: int|
                0 <= i < index ==> (#[trigger] complete@[i])@ == (BlockModel {
                    status: statuses@[i],
                    checksum: checksums@[i],
                    ..blocks@[i]@
                }),
        decreases blocks@.len() - index,
    {
        let block = blocks[index];
        complete.push(Block { status: statuses[index], checksum: checksums[index], ..block });
        index += 1;
    }
    proof {
        assert(error::views(complete@) =~= with_trailers(
            error::views(blocks@),
            statuses@,
            checksums@,
        ));
    }
    Ok(BlockData { blocks: complete })
}

/// The model of numbers that may not have been read.
pub open spec fn words_model(words: Option<Vec<u32>>) -> Option<Seq<u32>> {
    match words {
        Some(words) => Some(words@),
        None => None,
    }
}

impl ClipFile {
    /// Indexes a block-data body without reading compressed tile contents.
    pub fn read_block_data(&self, object: &ExternalObject) -> (blocks: Result<BlockData, Error>)
        ensures
            error::outcome(blocks) == if object.body != ExternalBody::BlockData {
                Err::<Seq<BlockModel>, Failure>(
                    Failure::InvalidExternalChunk { reason: "external object is not block data"@ },
                )
            } else {
                block_data_of(
                    self.data@,
                    object.header@,
                    self.limits.max_blocks_per_external,
                )
            },
    {
        match object.body {
            ExternalBody::BlockData => {},
            _ => {
                return Err(
                    Error::InvalidExternalChunk { reason: "external object is not block data" },
                );
            },
        }
        parse_block_data(
            self.data.as_slice(),
            &object.header,
            self.limits.max_blocks_per_external(),
        )
    }
}

} // verus!
