//! Rewriting one block of a block-data body.

use vstd::prelude::*;

use crate::blocks;
use crate::blocks::parse_block_data;
use crate::bytes;
use crate::bytes::{copy_bytes, push_be32, push_bytes, push_le32};
use crate::container::{ExternalChunkHeader, ExternalHeaderModel};
use crate::error;
use crate::error::{Error, Failure};
use crate::external;
use crate::external::{Block, BlockData, BlockModel, PayloadModel};
use crate::message;
use crate::message::Message;
use crate::zlib;

verus! {

/// One block together with the bytes of its payload.
pub struct RecordModel {
    pub index: u32,
    pub parameters: Seq<u8>,
    pub payload: Option<Seq<u8>>,
    pub status: u32,
    pub checksum: u32,
}

/// The serialized data-present flag and payload of a block.
pub open spec fn payload_bytes(payload: Option<Seq<u8>>) -> Seq<u8> {
    match payload {
        None => bytes::be32_bytes(0),
        Some(stream) => bytes::be32_bytes(1) + bytes::be32_bytes((stream.len() + 4) as u32)
            + bytes::le32_bytes(stream.len() as u32) + stream,
    }
}

/// The serialized length of a block.
pub open spec fn block_size(record: RecordModel) -> int {
    match record.payload {
        None => 104,
        Some(stream) => 112 + stream.len() as int,
    }
}

/// The serialized form of a block.
pub open spec fn block_bytes(record: RecordModel) -> Seq<u8> {
    bytes::be32_bytes(block_size(record) as u32) + bytes::be32_bytes(19) + blocks::begin_marker()
        + bytes::be32_bytes(record.index) + record.parameters + payload_bytes(record.payload)
        + bytes::be32_bytes(17) + blocks::end_marker()
}

/// The serialized form of blocks, one after the other.
pub open spec fn blocks_bytes(records: Seq<RecordModel>) -> Seq<u8>
    decreases records.len(),
{
    if records.len() == 0 {
        Seq::empty()
    } else {
        blocks_bytes(records.drop_last()) + block_bytes(records.last())
    }
}

/// Numbers one after the other, most significant byte first.
pub open spec fn words_bytes(words: Seq<u32>) -> Seq<u8>
    decreases words.len(),
{
    if words.len() == 0 {
        Seq::empty()
    } else {
        words_bytes(words.drop_last()) + bytes::be32_bytes(words.last())
    }
}

/// A trailer array under its label.
pub open spec fn trailer_bytes(marker: Seq<u8>, words: Seq<u32>) -> Seq<u8> {
    bytes::be32_bytes((marker.len() / 2) as u32) + marker + bytes::be32_bytes(12)
        + bytes::be32_bytes(words.len() as u32) + bytes::be32_bytes(4) + words_bytes(words)
}

pub open spec fn statuses_of(records: Seq<RecordModel>) -> Seq<u32> {
    Seq::new(records.len(), |i: int| records[i].status)
}

pub open spec fn checksums_of(records: Seq<RecordModel>) -> Seq<u32> {
    Seq::new(records.len(), |i: int| records[i].checksum)
}

/// The serialized form of a whole body.
pub open spec fn body_bytes(records: Seq<RecordModel>) -> Seq<u8> {
    blocks_bytes(records) + trailer_bytes(blocks::status_marker(), statuses_of(records))
        + trailer_bytes(blocks::checksum_marker(), checksums_of(records))
}

/// The first block from `from` on with the given index.
pub open spec fn first_with_index(blocks: Seq<BlockModel>, index: u32, from: int) -> Option<int>
    decreases blocks.len() - from,
{
    if from >= blocks.len() {
        None
    } else if blocks[from].index == index {
        Some(from)
    } else {
        first_with_index(blocks, index, from + 1)
    }
}

fn find_block(data: &BlockData, index: u32, from: usize) -> (found: Option<usize>)
    requires
        from <= data.blocks@.len(),
    ensures
        match found {
            Some(position) => position < data.blocks@.len() && first_with_index(
                data@,
                index,
                from as int,
            ) == Some(position as int),
            None => first_with_index(data@, index, from as int) is None,
        },
{
    let mut position: usize = from;
    while position < data.blocks.len()
        invariant
            from <= position <= data.blocks@.len(),
            first_with_index(data@, index, from as int) == first_with_index(
                data@,
                index,
                position as int,
            ),
        decreases data.blocks@.len() - position,
    {
        if data.blocks[position].index == index {
            return Some(position);
        }
        position += 1;
    }
    None
}

/// The blocks of a body with the bytes of their payloads.
pub open spec fn records_of(body: Seq<u8>, blocks: Seq<BlockModel>) -> Seq<RecordModel> {
    Seq::new(
        blocks.len(),
        |i: int|
            RecordModel {
                index: blocks[i].index,
                parameters: blocks[i].parameters,
                payload: match blocks[i].payload {
                    None => None,
                    Some(payload) => Some(
                        body.subrange(
                            payload.offset as int,
                            payload.offset + payload.compressed_size,
                        ),
                    ),
                },
                status: blocks[i].status,
                checksum: blocks[i].checksum,
            },
    )
}

/// Records with the payload and checksum of the block `index` replaced.
pub open spec fn with_block(
    records: Seq<RecordModel>,
    index: u32,
    stream: Seq<u8>,
    checksum: u32,
) -> Seq<RecordModel> {
    Seq::new(
        records.len(),
        |i: int|
            if records[i].index == index {
                RecordModel { payload: Some(stream), checksum, ..records[i] }
            } else {
                records[i]
            },
    )
}

/// A rewritten block-data body and what changed in it.
#[derive(Clone, Debug, PartialEq, Eq)]
pub struct RebuiltBlockData {
    pub body: Vec<u8>,
    pub decoded_size: u64,
    pub original_compressed_size: Option<u64>,
    pub compressed_size: u64,
    pub original_checksum: u32,
}

/// The model of a [`RebuiltBlockData`].
pub struct RebuiltModel {
    pub body: Seq<u8>,
    pub decoded_size: u64,
    pub original_compressed_size: Option<u64>,
    pub compressed_size: u64,
    pub original_checksum: u32,
}

impl View for RebuiltBlockData {
    type V = RebuiltModel;

    open spec fn view(&self) -> RebuiltModel {
        RebuiltModel {
            body: self.body@,
            decoded_size: self.decoded_size,
            original_compressed_size: self.original_compressed_size,
            compressed_size: self.compressed_size,
            original_checksum: self.original_checksum,
        }
    }
}

/// The header of a body that stands alone.
pub open spec fn whole_body(size: int) -> ExternalHeaderModel {
    ExternalHeaderModel { identifier: Seq::empty(), body_offset: 0, body_size: size as u64 }
}

/// The decoded size that the parameters of a block ask for.
pub open spec fn decoded_size_of(block: BlockModel) -> int {
    bytes::be16(block.parameters, 0) * bytes::be32(block.parameters, 4) * bytes::be32(
        block.parameters,
        8,
    )
}

/// The outcome of replacing one block, once its new stream is known.
pub open spec fn replaced_block(
    body: Seq<u8>,
    blocks: Seq<BlockModel>,
    target: BlockModel,
    stream: Seq<u8>,
    checksum: u32,
    max_blocks: u64,
    body_limit: u64,
) -> Result<RebuiltModel, Failure> {
    let original = match target.payload {
        Some(payload) => Some(payload.compressed_size),
        None => None,
    };
    let removed = match original {
        Some(size) => size + 8,
        None => 0,
    };
    let size = body.len() - removed + stream.len() + 8;
    let output = body_bytes(with_block(records_of(body, blocks), target.index, stream, checksum));
    if removed > u64::MAX || removed > body.len() || size > u64::MAX || stream.len() + 8
        > u64::MAX {
        Err(Failure::OffsetOverflow)
    } else if size > body_limit {
        Err(
            Failure::LimitExceeded {
                resource: "replacement block-data body size"@,
                value: size as u64,
                limit: body_limit,
            },
        )
    } else if size > usize::MAX {
        Err(
            Failure::LimitExceeded {
                resource: "replacement block-data body size"@,
                value: size as u64,
                limit: usize::MAX as u64,
            },
        )
    } else if stream.len() > u32::MAX {
        Err(
            Failure::InvalidWrite {
                reason: "compressed replacement block exceeds the 32-bit on-disk size"@,
            },
        )
    } else if stream.len() + 4 > u32::MAX {
        Err(Failure::OffsetOverflow)
    } else if stream.len() + 112 > u32::MAX {
        Err(
            Failure::InvalidWrite { reason: "serialized block exceeds the 32-bit on-disk size"@ },
        )
    } else if output.len() != size {
        Err(
            Failure::InvalidWrite {
                reason: "serialized block-data body size calculation disagrees with output"@,
            },
        )
    } else {
        match blocks::block_data_of(output, whole_body(size), max_blocks) {
            Err(failure) => Err(failure),
            Ok(written) => match first_with_index(written, target.index, 0) {
                None => Err(
                    Failure::InvalidWrite {
                        reason: "serialized block-data body lost the replacement block"@,
                    },
                ),
                Some(position) => if written[position].checksum == checksum && (
                written[position].payload matches Some(payload) && (payload.prefix matches Some(
                    prefix,
                ) && external::zlib_header(prefix))) {
                    Ok(
                        RebuiltModel {
                            body: output,
                            decoded_size: decoded_size_of(target) as u64,
                            original_compressed_size: original,
                            compressed_size: stream.len() as u64,
                            original_checksum: target.checksum,
                        },
                    )
                } else {
                    Err(
                        Failure::InvalidWrite {
                            reason: "serialized replacement block failed validation"@,
                        },
                    )
                },
            },
        }
    }
}

/// The outcome of finding the block to replace and checking its new contents.
pub open spec fn replacement_target(
    body: Seq<u8>,
    index: u32,
    decoded_len: int,
    max_blocks: u64,
    decoded_limit: u64,
    body_limit: u64,
) -> Result<(Seq<BlockModel>, BlockModel), Failure> {
    if body.len() > body_limit {
        Err(
            Failure::LimitExceeded {
                resource: "source block-data body size"@,
                value: body.len() as u64,
                limit: body_limit,
            },
        )
    } else {
        match blocks::block_data_of(body, whole_body(body.len() as int), max_blocks) {
            Err(failure) => Err(failure),
            Ok(blocks) => match first_with_index(blocks, index, 0) {
                None => Err(
                    Failure::InvalidWrite {
                        reason: "block-data object has no block index "@ + message::decimal(index as nat),
                    },
                ),
                Some(position) => if first_with_index(blocks, index, position + 1) is Some {
                    Err(
                        Failure::InvalidWrite {
                            reason: "block-data object contains duplicate block index "@
                                + message::decimal(index as nat),
                        },
                    )
                } else {
                    let target = blocks[position];
                    let expected = decoded_size_of(target);
                    if expected > u64::MAX {
                        Err(Failure::OffsetOverflow)
                    } else if expected > decoded_limit {
                        Err(
                            Failure::LimitExceeded {
                                resource: "replacement decoded block size"@,
                                value: expected as u64,
                                limit: decoded_limit,
                            },
                        )
                    } else if decoded_len != expected {
                        Err(
                            Failure::InvalidWrite {
                                reason: "replacement for block "@ + message::decimal(index as nat) + " has "@
                                    + message::decimal(decoded_len as nat) + " decoded bytes, expected "@
                                    + message::decimal(expected as nat),
                            },
                        )
                    } else {
                        Ok((blocks, target))
                    }
                },
            },
        }
    }
}

/// The outcome of [`rebuild_block_data_body`].
pub open spec fn rebuilt_body(
    body: Seq<u8>,
    index: u32,
    decoded: Seq<u8>,
    checksum: u32,
    max_blocks: u64,
    decoded_limit: u64,
    body_limit: u64,
) -> Result<RebuiltModel, Failure> {
    match replacement_target(
        body,
        index,
        decoded.len() as int,
        max_blocks,
        decoded_limit,
        body_limit,
    ) {
        Err(failure) => Err(failure),
        Ok((blocks, target)) => match zlib::zlib_deflated(decoded) {
            None => Err(Failure::Io),
            Some(stream) => replaced_block(
                body,
                blocks,
                target,
                stream,
                checksum,
                max_blocks,
                body_limit,
            ),
        },
    }
}

/// Whether a parsed block lies inside the body and fits its 32-bit size fields.
pub open spec fn block_fits(block: BlockModel, end: int) -> bool {
    &&& block.parameters.len() == 12
    &&& match block.payload {
        None => true,
        Some(payload) => payload.offset + payload.compressed_size <= end && payload.compressed_size
            + 112 <= u32::MAX,
    }
}

pub(crate) proof fn lemma_blocks_fit(
    data: Seq<u8>,
    end: int,
    max_blocks: u64,
    at: int,
    found: Seq<BlockModel>,
    statuses: Option<Seq<u32>>,
    checksums: Option<Seq<u32>>,
)
    requires
        0 <= at,
        blocks::blocks_from(data, end, max_blocks, at, found, statuses, checksums) is Ok,
        forall|i: int| 0 <= i < found.len() ==> block_fits(#[trigger] found[i], end),
        statuses is Some ==> found.len() <= u32::MAX,
    ensures
        ({
            let all = blocks::blocks_from(
                data,
                end,
                max_blocks,
                at,
                found,
                statuses,
                checksums,
            )->Ok_0;
            &&& all.len() <= u32::MAX
            &&& forall|i: int| 0 <= i < all.len() ==> block_fits(#[trigger] all[i], end)
        }),
    decreases
            if at < end {
                end - at
            } else {
                0
            },
{
    reveal_strlit("BlockDataBeginChunk");
    reveal_strlit("BlockDataEndChunk");
    if at < end {
        let word = blocks::word_at(data, at, end)->Ok_0;
        if word == 11 {
            let values = blocks::trailer_at(data, end, at + 26, found.len(), at)->Ok_0;
            lemma_blocks_fit(
                data,
                end,
                max_blocks,
                at + 38 + 4 * found.len(),
                found,
                Some(values),
                checksums,
            );
        } else if word == 13 {
            let values = blocks::trailer_at(data, end, at + 30, found.len(), at)->Ok_0;
            lemma_blocks_fit(
                data,
                end,
                max_blocks,
                at + 42 + 4 * found.len(),
                found,
                statuses,
                Some(values),
            );
        } else {
            let block = blocks::block_at(data, end, at, word)->Ok_0;
            assert(block_fits(block, end));
            lemma_blocks_fit(
                data,
                end,
                max_blocks,
                at + word,
                found.push(block),
                statuses,
                checksums,
            );
        }
    }
}

pub(crate) proof fn lemma_block_bytes_len(record: RecordModel)
    requires
        record.parameters.len() == 12,
    ensures
        block_bytes(record).len() == block_size(record),
{
    reveal_strlit("BlockDataBeginChunk");
    reveal_strlit("BlockDataEndChunk");
}

/// Appends a trailer array under its label, if the sizes of both fit in their prefixes.
pub fn push_trailer_values(output: &mut Vec<u8>, marker: &[u8], values: &[u32]) -> (result: Result<
    (),
    Error,
>)
    ensures
        error::plain(result) == if marker@.len() / 2 > u32::MAX {
            Err::<(), Failure>(Failure::OffsetOverflow)
        } else if values@.len() > u32::MAX {
            Err(
                Failure::InvalidWrite {
                    reason: "block trailer count exceeds the 32-bit on-disk size"@,
                },
            )
        } else {
            Ok(())
        },
        final(output)@ == if result is Ok {
            old(output)@ + trailer_bytes(marker@, values@)
        } else {
            old(output)@
        },
{
    assert(marker.len() == marker@.len());
    if (marker.len() / 2) as u64 > u32::MAX as u64 {
        return Err(Error::OffsetOverflow);
    }
    if values.len() as u64 > u32::MAX as u64 {
        return Err(
            Error::InvalidWrite {
                reason: Message::new(
                    "block trailer count exceeds the 32-bit on-disk size",
                ).build(),
            },
        );
    }
    let ghost start = output@;
    push_be32(output, (marker.len() / 2) as u32);
    push_bytes(output, marker);
    push_be32(output, 12);
    push_be32(output, values.len() as u32);
    push_be32(output, 4);
    let ghost head = output@;
    let mut index: usize = 0;
    while index < values.len()
        invariant
            index <= values@.len(),
            output@ == head + words_bytes(values@.take(index as int)),
        decreases values@.len() - index,
    {
        push_be32(output, values[index]);
        index += 1;
        proof {
            let taken = values@.take(index as int);
            assert(taken.drop_last() =~= values@.take(index - 1));
            assert(output@ =~= head + words_bytes(taken));
        }
    }
    proof {
        assert(values@.take(values@.len() as int) =~= values@);
        assert(output@ =~= start + trailer_bytes(marker@, values@));
    }
    Ok(())
}

fn push_block(output: &mut Vec<u8>, block: &Block, stream: Option<&[u8]>)
    requires
        stream matches Some(stream) ==> stream@.len() + 112 <= u32::MAX,
    ensures
        final(output)@ == old(output)@ + block_bytes(
            RecordModel {
                index: block.index,
                parameters: block.parameters.raw@,
                payload: match stream {
                    Some(stream) => Some(stream@),
                    None => None,
                },
                status: block.status,
                checksum: block.checksum,
            },
        ),
{
    let ghost start = output@;
    let size: u32 = match stream {
        Some(stream) => stream.len() as u32 + 112,
        None => 104,
    };
    push_be32(output, size);
    push_be32(output, 19);
    let begin = blocks::begin_bytes();
    push_bytes(output, begin.as_slice());
    push_be32(output, block.index);
    push_bytes(output, block.parameters.raw.as_slice());
    let ghost head = output@;
    match stream {
        Some(stream) => {
            push_be32(output, 1);
            push_be32(output, stream.len() as u32 + 4);
            push_le32(output, stream.len() as u32);
            push_bytes(output, stream);
            proof {
                assert(output@ =~= head + payload_bytes(Some(stream@)));
            }
        },
        None => push_be32(output, 0),
    }
    push_be32(output, 17);
    let end = blocks::end_bytes();
    push_bytes(output, end.as_slice());
    proof {
        let record = RecordModel {
            index: block.index,
            parameters: block.parameters.raw@,
            payload: match stream {
                Some(stream) => Some(stream@),
                None => None,
            },
            status: block.status,
            checksum: block.checksum,
        };
        assert(output@ =~= start + block_bytes(record));
    }
}

/// Finds the one block with the index `index` and checks the size of its new
/// contents. The position of the block is returned with all blocks of the body.
fn find_replacement_target(
    body: &[u8],
    index: u32,
    decoded_len: u64,
    max_blocks: u64,
    decoded_limit: u64,
    body_limit: u64,
) -> (result: Result<(BlockData, usize), Error>)
    ensures
        match result {
            Ok((data, position)) => {
                &&& position < data.blocks@.len()
                &&& data.blocks@[position as int].index == index
                &&& replacement_target(
                    body@,
                    index,
                    decoded_len as int,
                    max_blocks,
                    decoded_limit,
                    body_limit,
                ) == Ok::<(Seq<BlockModel>, BlockModel), Failure>(
                    (data@, data@[position as int]),
                )
                &&& data@.len() <= u32::MAX
                &&& forall|i: int|
                    0 <= i < data@.len() ==> block_fits(#[trigger] data@[i], body@.len() as int)
            },
            Err(error) => replacement_target(
                body@,
                index,
                decoded_len as int,
                max_blocks,
                decoded_limit,
                body_limit,
            ) == Err::<(Seq<BlockModel>, BlockModel), Failure>(error@),
        },
{
    let body_size: u64 = body.len() as u64;
    if body_size > body_limit {
        return Err(Error::limit("source block-data body size", body_size, body_limit));
    }
    let header = ExternalChunkHeader { identifier: Vec::new(), body_offset: 0, body_size };
    proof {
        assert(header.identifier@ =~= Seq::empty());
        assert(header@ == whole_body(body@.len() as int));
    }
    let data = match parse_block_data(body, &header, max_blocks) {
        Ok(data) => data,
        Err(error) => return Err(error),
    };
    proof {
        lemma_blocks_fit(
            body@,
            body@.len() as int,
            max_blocks,
            0,
            Seq::empty(),
            None,
            None,
        );
    }
    let position: usize = match find_block(&data, index, 0) {
        Some(position) => position,
        None => {
            return Err(
                Error::InvalidWrite {
                    reason: Message::new("block-data object has no block index ").number(
                        index as u64,
                    ).build(),
                },
            );
        },
    };
    proof {
        lemma_first_with_index(data@, index, 0);
    }
    if find_block(&data, index, position + 1).is_some() {
        return Err(
            Error::InvalidWrite {
                reason: Message::new("block-data object contains duplicate block index ").number(
                    index as u64,
                ).build(),
            },
        );
    }
    let parameters = data.blocks[position].parameters;
    let channels: u64 = parameters.channel_count() as u64;
    let width: u64 = parameters.width() as u64;
    let height: u64 = parameters.height() as u64;
    proof {
        assert(channels * width <= 0xffff * 0xffff_ffff) by (nonlinear_arith)
            requires
                channels <= 0xffff,
                width <= 0xffff_ffff,
        ;
    }
    let expected_size: u64 = match (channels * width).checked_mul(height) {
        Some(size) => size,
        None => return Err(Error::OffsetOverflow),
    };
    if expected_size > decoded_limit {
        return Err(Error::limit("replacement decoded block size", expected_size, decoded_limit));
    }
    if decoded_len != expected_size {
        return Err(
            Error::InvalidWrite {
                reason: Message::new("replacement for block ").number(index as u64).text(
                    " has ",
                ).number(decoded_len).text(" decoded bytes, expected ").number(
                    expected_size,
                ).build(),
            },
        );
    }
    Ok((data, position))
}

pub(crate) proof fn lemma_first_with_index(blocks: Seq<BlockModel>, index: u32, from: int)
    requires
        0 <= from,
    ensures
        match first_with_index(blocks, index, from) {
            None =>
                forall|i: int| from <= i < blocks.len() ==> (#[trigger] blocks[i]).index != index,
            Some(position) => {
                &&& from <= position < blocks.len()
                &&& blocks[position].index == index
                &&& forall|i: int| from <= i < position ==> (#[trigger] blocks[i]).index != index
            },
        },
    decreases blocks.len() - from,
{
    if from < blocks.len() && blocks[from].index != index {
        lemma_first_with_index(blocks, index, from + 1);
    }
}

/// Serializes a body with the payload and checksum of one block replaced.
fn serialize_body(body: &[u8], data: &BlockData, index: u32, stream: &[u8], checksum: u32) -> (
    output: Result<Vec<u8>, Error>)
    requires
        stream@.len() + 112 <= u32::MAX,
        data@.len() <= u32::MAX,
        forall|i: int| 0 <= i < data@.len() ==> block_fits(#[trigger] data@[i], body@.len() as int),
    ensures
        output matches Ok(output) && output@ == body_bytes(
            with_block(records_of(body@, data@), index, stream@, checksum),
        ),
{
    assert(body.len() == body@.len());
    let ghost records = with_block(records_of(body@, data@), index, stream@, checksum);
    let mut output: Vec<u8> = Vec::new();
    let mut statuses: Vec<u32> = Vec::new();
    let mut checksums: Vec<u32> = Vec::new();
    let mut position: usize = 0;
    proof {
        assert(records.take(0) =~= Seq::empty());
    }
    while position < data.blocks.len()
        invariant
            position <= data.blocks@.len(),
            body@.len() == body.len(),
            stream@.len() + 112 <= u32::MAX,
            forall|i: int|
                0 <= i < data@.len() ==> block_fits(#[trigger] data@[i], body@.len() as int),
            records == with_block(records_of(body@, data@), index, stream@, checksum),
            output@ == blocks_bytes(records.take(position as int)),
            statuses@ == statuses_of(records.take(position as int)),
            checksums@ == checksums_of(records.take(position as int)),
        decreases data.blocks@.len() - position,
    {
        let block = data.blocks[position];
        let ghost before = output@;
        proof {
            assert(block_fits(data@[position as int], body@.len() as int));
            assert(data@[position as int] == block@);
        }
        if block.index == index {
            push_block(&mut output, &block, Some(stream));
            checksums.push(checksum);
        } else {
            match block.payload {
                Some(payload) => {
                    let start: usize = payload.offset as usize;
                    let end: usize = start + payload.compressed_size as usize;
                    let kept = copy_bytes(body, start, end);
                    push_block(&mut output, &block, Some(kept.as_slice()));
                },
                None => push_block(&mut output, &block, None),
            }
            checksums.push(block.checksum);
        }
        statuses.push(block.status);
        position += 1;
        proof {
            let taken = records.take(position as int);
            assert(taken.drop_last() =~= records.take(position - 1));
            let last = taken.last();
            assert(last == records[position - 1]);
            assert(output@ =~= before + block_bytes(last));
            assert(statuses@ =~= statuses_of(taken));
            assert(checksums@ =~= checksums_of(taken));
        }
    }
    proof {
        assert(records.take(records.len() as int) =~= records);
    }
    let status_label = blocks::status_bytes();
    push_trailer_values(&mut output, status_label.as_slice(), statuses.as_slice())?;
    let checksum_label = blocks::checksum_bytes();
    push_trailer_values(&mut output, checksum_label.as_slice(), checksums.as_slice())?;
    Ok(output)
}

/// Replaces the block at `position` by a new stream, and reads the result back.
#[verifier::rlimit(60)]
#[verifier::spinoff_prover]
pub fn replace_block(
    body: &[u8],
    data: &BlockData,
    position: usize,
    stream: &[u8],
    checksum: u32,
    max_blocks: u64,
    body_limit: u64,
) -> (result: Result<RebuiltBlockData, Error>)
    requires
        position < data.blocks@.len(),
        data@.len() <= u32::MAX,
        decoded_size_of(data@[position as int]) <= u64::MAX,
        forall|i: int| 0 <= i < data@.len() ==> block_fits(#[trigger] data@[i], body@.len() as int),
    ensures
        error::outcome(result) == replaced_block(
            body@,
            data@,
            data@[position as int],
            stream@,
            checksum,
            max_blocks,
            body_limit,
        ),
{
    assert(body.len() == body@.len());
    assert(stream.len() == stream@.len());
    let target = data.blocks[position];
    let index: u32 = target.index;
    let body_size: u64 = body.len() as u64;
    let compressed_size: u64 = stream.len() as u64;
    let original_compressed_size: Option<u64> = match target.payload {
        Some(payload) => Some(payload.compressed_size),
        None => None,
    };
    proof {
        assert(data@[position as int] == target@);
        assert(block_fits(data@[position as int], body@.len() as int));
    }
    let removed_size: u64 = match original_compressed_size {
        Some(size) => match size.checked_add(8) {
            Some(size) => size,
            None => return Err(Error::OffsetOverflow),
        },
        None => 0,
    };
    let added_size: u64 = match compressed_size.checked_add(8) {
        Some(size) => size,
        None => return Err(Error::OffsetOverflow),
    };
    let kept_size: u64 = match body_size.checked_sub(removed_size) {
        Some(size) => size,
        None => return Err(Error::OffsetOverflow),
    };
    let output_size: u64 = match kept_size.checked_add(added_size) {
        Some(size) => size,
        None => return Err(Error::OffsetOverflow),
    };
    if output_size > body_limit {
        return Err(Error::limit("replacement block-data body size", output_size, body_limit));
    }
    if output_size > usize::MAX as u64 {
        return Err(
            Error::limit("replacement block-data body size", output_size, usize::MAX as u64),
        );
    }
    if compressed_size > u32::MAX as u64 {
        return Err(
            Error::InvalidWrite {
                reason: Message::new(
                    "compressed replacement block exceeds the 32-bit on-disk size",
                ).build(),
            },
        );
    }
    if compressed_size + 4 > u32::MAX as u64 {
        return Err(Error::OffsetOverflow);
    }
    if compressed_size + 112 > u32::MAX as u64 {
        return Err(
            Error::InvalidWrite {
                reason: Message::new("serialized block exceeds the 32-bit on-disk size").build(),
            },
        );
    }
    let output = serialize_body(body, data, index, stream, checksum)?;
    if output.len() as u64 != output_size {
        return Err(
            Error::InvalidWrite {
                reason: Message::new(
                    "serialized block-data body size calculation disagrees with output",
                ).build(),
            },
        );
    }
    let header = ExternalChunkHeader {
        identifier: Vec::new(),
        body_offset: 0,
        body_size: output_size,
    };
    proof {
        assert(header.identifier@ =~= Seq::empty());
        assert(header@ == whole_body(output_size as int));
    }
    let written = match parse_block_data(output.as_slice(), &header, max_blocks) {
        Ok(written) => written,
        Err(error) => return Err(error),
    };
    let found: usize = match find_block(&written, index, 0) {
        Some(found) => found,
        None => {
            return Err(
                Error::InvalidWrite {
                    reason: Message::new(
                        "serialized block-data body lost the replacement block",
                    ).build(),
                },
            );
        },
    };
    let readable: bool = match written.blocks[found].payload {
        Some(payload) => payload.has_zlib_header(),
        None => false,
    };
    if written.blocks[found].checksum != checksum || !readable {
        return Err(
            Error::InvalidWrite {
                reason: Message::new("serialized replacement block failed validation").build(),
            },
        );
    }
    let parameters = target.parameters;
    proof {
        let channels = bytes::be16(target@.parameters, 0);
        let width = bytes::be32(target@.parameters, 4);
        assert(channels * width <= 0xffff * 0xffff_ffff) by (nonlinear_arith)
            requires
                0 <= channels <= 0xffff,
                0 <= width <= 0xffff_ffff,
        ;
    }
    let decoded_size: u64 = (parameters.channel_count() as u64 * parameters.width() as u64)
        * parameters.height() as u64;
    Ok(
        RebuiltBlockData {
            body: output,
            decoded_size,
            original_compressed_size,
            compressed_size,
            original_checksum: target.checksum,
        },
    )
}

/// Replaces the decoded contents of one block of a block-data body. Every other
/// block keeps its payload, status, and checksum.
pub fn rebuild_block_data_body(
    body: &[u8],
    block_index: u32,
    decoded: &[u8],
    replacement_checksum: u32,
    max_blocks: u64,
    decoded_limit: u64,
    body_limit: u64,
) -> (result: Result<RebuiltBlockData, Error>)
    ensures
        error::outcome(result) == rebuilt_body(
            body@,
            block_index,
            decoded@,
            replacement_checksum,
            max_blocks,
            decoded_limit,
            body_limit,
        ),
{
    assert(decoded.len() == decoded@.len());
    let (data, position) = match find_replacement_target(
        body,
        block_index,
        decoded.len() as u64,
        max_blocks,
        decoded_limit,
        body_limit,
    ) {
        Ok(found) => found,
        Err(error) => return Err(error),
    };
    let stream = match zlib::compress(decoded) {
        Ok(stream) => stream,
        Err(error) => return Err(error),
    };
    replace_block(
        body,
        &data,
        position,
        stream.as_slice(),
        replacement_checksum,
        max_blocks,
        body_limit,
    )
}

/// Whether the bytes `part` stand in `data` at `at`.
spec fn placed(data: Seq<u8>, at: int, part: Seq<u8>) -> bool {
    &&& 0 <= at
    &&& at + part.len() <= data.len()
    &&& forall|i: int| 0 <= i < part.len() ==> data[at + i] == #[trigger] part[i]
}

proof fn lemma_placed_split(data: Seq<u8>, at: int, left: Seq<u8>, right: Seq<u8>)
    requires
        placed(data, at, left + right),
    ensures
        placed(data, at, left),
        placed(data, at + left.len(), right),
{
    let both = left + right;
    assert forall|i: int| 0 <= i < left.len() implies data[at + i] == #[trigger] left[i] by {
        assert(both[i] == left[i]);
    }
    assert forall|i: int| 0 <= i < right.len() implies data[at + left.len() + i]
        == #[trigger] right[i] by {
        assert(both[left.len() + i] == right[i]);
    }
}

proof fn lemma_placed_word(data: Seq<u8>, at: int, value: u32, end: int)
    requires
        placed(data, at, bytes::be32_bytes(value)),
        at + 4 <= end,
    ensures
        bytes::be32(data, at) == value,
        blocks::word_at(data, at, end) == Ok::<u32, Failure>(value),
{
    let part = bytes::be32_bytes(value);
    assert(data[at + 0] == part[0] && data[at + 1] == part[1] && data[at + 2] == part[2] && data[at
        + 3] == part[3]);
}

proof fn lemma_placed_small_word(data: Seq<u8>, at: int, value: u32)
    requires
        placed(data, at, bytes::le32_bytes(value)),
    ensures
        bytes::le32(data, at) == value,
{
    let part = bytes::le32_bytes(value);
    assert(data[at + 0] == part[0] && data[at + 1] == part[1] && data[at + 2] == part[2] && data[at
        + 3] == part[3]);
}

proof fn lemma_placed_found(data: Seq<u8>, at: int, part: Seq<u8>)
    requires
        placed(data, at, part),
    ensures
        data.subrange(at, at + part.len()) == part,
        bytes::has_bytes_at(data, at, part),
{
    assert(data.subrange(at, at + part.len()) =~= part);
}

/// The block that a parse finds where `record` was written at `at`, before the
/// trailers give it a status and a checksum.
pub open spec fn written_block(record: RecordModel, at: int) -> BlockModel {
    BlockModel {
        index: record.index,
        parameters: record.parameters,
        payload: match record.payload {
            None => None,
            Some(stream) => Some(
                PayloadModel {
                    offset: (at + 74) as u64,
                    compressed_size: stream.len() as u64,
                    prefix: if stream.len() >= 2 {
                        Some(stream.take(2))
                    } else {
                        None
                    },
                },
            ),
        },
        status: 0,
        checksum: 0,
    }
}

/// Whether a record can be written: its parameters have their size, and its
/// length fits the 32-bit size field.
pub open spec fn writable(record: RecordModel) -> bool {
    record.parameters.len() == 12 && block_size(record) <= u32::MAX
}

proof fn lemma_payload_parses(
    data: Seq<u8>,
    at: int,
    end: int,
    start: int,
    payload: Option<Seq<u8>>,
)
    requires
        placed(data, at, payload_bytes(payload)),
        at + payload_bytes(payload).len() <= end <= u64::MAX,
        start + 62 == at,
        payload matches Some(stream) ==> stream.len() + 112 <= u32::MAX,
    ensures
        ({
            let record = RecordModel {
                index: 0,
                parameters: Seq::empty(),
                payload,
                status: 0,
                checksum: 0,
            };
            blocks::block_payload_at(data, at, end, start) == Ok::<
                (Option<PayloadModel>, int),
                Failure,
            >((written_block(record, start).payload, at + payload_bytes(payload).len()))
        }),
{
    match payload {
        None => {
            lemma_placed_word(data, at, 0, end);
        },
        Some(stream) => {
            let flag = bytes::be32_bytes(1);
            let outer = bytes::be32_bytes((stream.len() + 4) as u32);
            let inner = bytes::le32_bytes(stream.len() as u32);
            lemma_placed_split(data, at, flag + outer + inner, stream);
            lemma_placed_split(data, at, flag + outer, inner);
            lemma_placed_split(data, at, flag, outer);
            lemma_placed_word(data, at, 1, end);
            lemma_placed_word(data, at + 4, (stream.len() + 4) as u32, end);
            lemma_placed_small_word(data, at + 8, stream.len() as u32);
            if stream.len() >= 2 {
                assert(data[at + 12 + 0] == stream[0]);
                assert(data[at + 12 + 1] == stream[1]);
                assert(data.subrange(at + 12, at + 14) =~= stream.take(2));
            }
        },
    }
}

proof fn lemma_block_parses(data: Seq<u8>, at: int, end: int, record: RecordModel)
    requires
        placed(data, at, block_bytes(record)),
        writable(record),
        at + block_size(record) <= end <= u64::MAX,
    ensures
        blocks::word_at(data, at, end) == Ok::<u32, Failure>(block_size(record) as u32),
        blocks::block_at(data, end, at, block_size(record) as u32) == Ok::<BlockModel, Failure>(
            written_block(record, at),
        ),
{
    reveal_strlit("BlockDataBeginChunk");
    reveal_strlit("BlockDataEndChunk");
    lemma_block_bytes_len(record);
    let size = bytes::be32_bytes(block_size(record) as u32);
    let begin_chars = bytes::be32_bytes(19);
    let begin = blocks::begin_marker();
    let index = bytes::be32_bytes(record.index);
    let parameters = record.parameters;
    let payload = payload_bytes(record.payload);
    let end_chars = bytes::be32_bytes(17);
    let end_label = blocks::end_marker();
    let stop = at + block_size(record);
    lemma_placed_split(
        data,
        at,
        size + begin_chars + begin + index + parameters + payload + end_chars,
        end_label,
    );
    lemma_placed_split(
        data,
        at,
        size + begin_chars + begin + index + parameters + payload,
        end_chars,
    );
    lemma_placed_split(data, at, size + begin_chars + begin + index + parameters, payload);
    lemma_placed_split(data, at, size + begin_chars + begin + index, parameters);
    lemma_placed_split(data, at, size + begin_chars + begin, index);
    lemma_placed_split(data, at, size + begin_chars, begin);
    lemma_placed_split(data, at, size, begin_chars);
    lemma_placed_word(data, at, block_size(record) as u32, end);
    lemma_placed_word(data, at + 4, 19, stop);
    lemma_placed_found(data, at + 8, begin);
    lemma_placed_word(data, at + 46, record.index, stop);
    lemma_placed_found(data, at + 50, parameters);
    lemma_payload_parses(data, at + 62, stop, at, record.payload);
    lemma_placed_word(data, at + 62 + payload.len(), 17, stop);
    lemma_placed_found(data, at + 66 + payload.len(), end_label);
}

proof fn lemma_words_placed(data: Seq<u8>, at: int, words: Seq<u32>)
    requires
        placed(data, at, words_bytes(words)),
    ensures
        words_bytes(words).len() == 4 * words.len(),
        forall|k: int|
            0 <= k < words.len() ==> placed(
                data,
                at + 4 * k,
                bytes::be32_bytes(#[trigger] words[k]),
            ),
    decreases words.len(),
{
    if words.len() > 0 {
        let front = words.drop_last();
        lemma_placed_split(data, at, words_bytes(front), bytes::be32_bytes(words.last()));
        lemma_words_placed(data, at, front);
        assert forall|k: int| 0 <= k < words.len() implies placed(
            data,
            at + 4 * k,
            bytes::be32_bytes(#[trigger] words[k]),
        ) by {
            if k < front.len() {
                assert(front[k] == words[k]);
            }
        }
    }
}

proof fn lemma_words_parse(data: Seq<u8>, end: int, at: int, words: Seq<u32>, done: int)
    requires
        0 <= done <= words.len(),
        at + 4 * words.len() <= end,
        forall|k: int|
            0 <= k < words.len() ==> placed(
                data,
                at + 4 * k,
                bytes::be32_bytes(#[trigger] words[k]),
            ),
    ensures
        blocks::words_from(
            data,
            end,
            at + 4 * done,
            (words.len() - done) as nat,
            words.take(done),
        ) == Ok::<Seq<u32>, Failure>(words),
    decreases words.len() - done,
{
    if done < words.len() {
        assert(placed(data, at + 4 * done, bytes::be32_bytes(words[done])));
        lemma_placed_word(data, at + 4 * done, words[done], end);
        lemma_words_parse(data, end, at, words, done + 1);
        assert(words.take(done).push(words[done]) =~= words.take(done + 1));
    } else {
        assert(words.take(done) =~= words);
    }
}

proof fn lemma_trailer_parses(data: Seq<u8>, end: int, at: int, marker: Seq<u8>, words: Seq<u32>)
    requires
        placed(data, at, trailer_bytes(marker, words)),
        at + trailer_bytes(marker, words).len() <= end,
        marker.len() <= 64,
        words.len() <= u32::MAX,
    ensures
        trailer_bytes(marker, words).len() == 16 + marker.len() + 4 * words.len(),
        blocks::word_at(data, at, end) == Ok::<u32, Failure>((marker.len() / 2) as u32),
        blocks::marker_at(data, at + 4, end, marker, at) == Ok::<(), Failure>(()),
        blocks::trailer_at(data, end, at + 4 + marker.len(), words.len(), at) == Ok::<
            Seq<u32>,
            Failure,
        >(words),
{
    let chars = bytes::be32_bytes((marker.len() / 2) as u32);
    let header = bytes::be32_bytes(12);
    let count = bytes::be32_bytes(words.len() as u32);
    let item = bytes::be32_bytes(4);
    let m = marker.len() as int;
    lemma_placed_split(data, at, chars + marker + header + count + item, words_bytes(words));
    lemma_placed_split(data, at, chars + marker + header + count, item);
    lemma_placed_split(data, at, chars + marker + header, count);
    lemma_placed_split(data, at, chars + marker, header);
    lemma_placed_split(data, at, chars, marker);
    lemma_words_placed(data, at + 16 + m, words);
    lemma_placed_word(data, at, (marker.len() / 2) as u32, end);
    lemma_placed_found(data, at + 4, marker);
    lemma_trailer_read(data, end, at, marker, words, words.len(), at);
}

/// What reading a trailer gives that has these numbers.
spec fn trailer_read(words: Seq<u32>, blocks: nat, reported: int) -> Result<Seq<u32>, Failure> {
    if blocks == words.len() {
        Ok(words)
    } else {
        Err(blocks::block_failure(reported, "trailer count does not match block count"@))
    }
}

#[verifier::spinoff_prover]
proof fn lemma_trailer_read(
    data: Seq<u8>,
    end: int,
    at: int,
    marker: Seq<u8>,
    words: Seq<u32>,
    blocks: nat,
    reported: int,
)
    requires
        placed(data, at, trailer_bytes(marker, words)),
        at + trailer_bytes(marker, words).len() <= end,
        words.len() <= u32::MAX,
    ensures
        blocks::trailer_at(data, end, at + 4 + marker.len(), blocks, reported) == trailer_read(
            words,
            blocks,
            reported,
        ),
{
    let chars = bytes::be32_bytes((marker.len() / 2) as u32);
    let header = bytes::be32_bytes(12);
    let count = bytes::be32_bytes(words.len() as u32);
    let item = bytes::be32_bytes(4);
    let m = marker.len() as int;
    lemma_placed_split(data, at, chars + marker + header + count + item, words_bytes(words));
    lemma_placed_split(data, at, chars + marker + header + count, item);
    lemma_placed_split(data, at, chars + marker + header, count);
    lemma_placed_split(data, at, chars + marker, header);
    lemma_placed_split(data, at, chars, marker);
    lemma_words_placed(data, at + 16 + m, words);
    lemma_placed_word(data, at + 4 + m, 12, end);
    lemma_placed_word(data, at + 8 + m, words.len() as u32, end);
    lemma_placed_word(data, at + 12 + m, 4, end);
    lemma_words_parse(data, end, at + 16 + m, words, 0);
    assert(words.take(0) =~= Seq::empty());
}

/// A trailer that was written between other bytes reads back: right after its marker, with as
/// many blocks as it has numbers, it gives those numbers, and with any other number of blocks
/// it is refused.
pub proof fn written_trailer_reads_back(
    before: Seq<u8>,
    marker: Seq<u8>,
    words: Seq<u32>,
    after: Seq<u8>,
    end: int,
    blocks: nat,
    reported: int,
)
    requires
        words.len() <= u32::MAX,
        (before + trailer_bytes(marker, words)).len() <= end,
    ensures
        ({
            let data = before + trailer_bytes(marker, words) + after;
            let at = before.len() + 4 + marker.len();
            blocks::trailer_at(data, end, at as int, blocks, reported) == if blocks == words.len() {
                Ok(words)
            } else {
                Err::<Seq<u32>, Failure>(
                    blocks::block_failure(reported, "trailer count does not match block count"@),
                )
            }
        }),
{
    let part = trailer_bytes(marker, words);
    let data = before + part + after;
    assert forall|i: int| 0 <= i < part.len() implies data[before.len() + i]
        == #[trigger] part[i] by {
        assert(data[before.len() + i] == (before + part)[before.len() + i]);
    }
    lemma_trailer_read(data, end, before.len() as int, marker, words, blocks, reported);
}

/// Where the block `k` of a serialized body begins.
pub open spec fn block_start(records: Seq<RecordModel>, k: int) -> int {
    blocks_bytes(records.take(k)).len() as int
}

proof fn lemma_blocks_placed(data: Seq<u8>, records: Seq<RecordModel>)
    requires
        placed(data, 0, blocks_bytes(records)),
        forall|k: int| 0 <= k < records.len() ==> writable(#[trigger] records[k]),
    ensures
        forall|k: int|
            0 <= k < records.len() ==> placed(
                data,
                block_start(records, k),
                block_bytes(#[trigger] records[k]),
            ) && block_start(records, k + 1) == block_start(records, k) + block_size(records[k]),
    decreases records.len(),
{
    if records.len() > 0 {
        let front = records.drop_last();
        lemma_placed_split(data, 0, blocks_bytes(front), block_bytes(records.last()));
        assert forall|k: int| 0 <= k < front.len() implies writable(#[trigger] front[k]) by {
            assert(front[k] == records[k]);
        }
        lemma_blocks_placed(data, front);
        lemma_block_bytes_len(records.last());
        assert forall|k: int| 0 <= k < records.len() implies placed(
            data,
            block_start(records, k),
            block_bytes(#[trigger] records[k]),
        ) && block_start(records, k + 1) == block_start(records, k) + block_size(records[k]) by {
            assert(records.take(k) =~= front.take(k));
            if k < front.len() {
                assert(front[k] == records[k]);
                assert(records.take(k + 1) =~= front.take(k + 1));
            } else {
                assert(front.take(k) =~= front);
                assert(records.take(k + 1) =~= records);
            }
        }
    }
}

/// The blocks that a parse finds in a serialized body, without their trailers.
pub open spec fn written_blocks(records: Seq<RecordModel>) -> Seq<BlockModel> {
    Seq::new(records.len(), |k: int| written_block(records[k], block_start(records, k)))
}

proof fn lemma_block_step(
    data: Seq<u8>,
    end: int,
    max_blocks: u64,
    at: int,
    found: Seq<BlockModel>,
    record: RecordModel,
)
    requires
        placed(data, at, block_bytes(record)),
        writable(record),
        at + block_size(record) <= end <= u64::MAX,
        found.len() + 1 <= max_blocks,
    ensures
        blocks::blocks_from(data, end, max_blocks, at, found, None, None) == blocks::blocks_from(
            data,
            end,
            max_blocks,
            at + block_size(record),
            found.push(written_block(record, at)),
            None,
            None,
        ),
{
    lemma_block_parses(data, at, end, record);
}

proof fn lemma_trailers_step(
    data: Seq<u8>,
    end: int,
    max_blocks: u64,
    at: int,
    found: Seq<BlockModel>,
    statuses: Seq<u32>,
    checksums: Seq<u32>,
)
    requires
        placed(data, at, trailer_bytes(blocks::status_marker(), statuses)),
        placed(
            data,
            at + 38 + 4 * found.len(),
            trailer_bytes(blocks::checksum_marker(), checksums),
        ),
        end == at + 80 + 8 * found.len(),
        statuses.len() == found.len(),
        checksums.len() == found.len(),
        found.len() <= u32::MAX,
    ensures
        blocks::blocks_from(data, end, max_blocks, at, found, None, None) == Ok::<
            Seq<BlockModel>,
            Failure,
        >(blocks::with_trailers(found, statuses, checksums)),
{
    reveal_strlit("BlockStatus");
    reveal_strlit("BlockCheckSum");
    let n = found.len() as int;
    let next = at + 38 + 4 * n;
    lemma_trailer_len(blocks::status_marker(), statuses);
    lemma_trailer_len(blocks::checksum_marker(), checksums);
    lemma_trailer_parses(data, end, at, blocks::status_marker(), statuses);
    lemma_trailer_parses(data, end, next, blocks::checksum_marker(), checksums);
    let last = blocks::blocks_from(
        data,
        end,
        max_blocks,
        end,
        found,
        Some(statuses),
        Some(checksums),
    );
    assert(last == Ok::<Seq<BlockModel>, Failure>(
        blocks::with_trailers(found, statuses, checksums),
    ));
    assert(blocks::blocks_from(data, end, max_blocks, next, found, Some(statuses), None) == last);
}

proof fn lemma_words_len(words: Seq<u32>)
    ensures
        words_bytes(words).len() == 4 * words.len(),
    decreases words.len(),
{
    if words.len() > 0 {
        lemma_words_len(words.drop_last());
    }
}

proof fn lemma_trailer_len(marker: Seq<u8>, words: Seq<u32>)
    ensures
        trailer_bytes(marker, words).len() == 16 + marker.len() + 4 * words.len(),
{
    lemma_words_len(words);
}

proof fn lemma_body_placed(data: Seq<u8>, records: Seq<RecordModel>)
    requires
        data == body_bytes(records),
        forall|k: int| 0 <= k < records.len() ==> writable(#[trigger] records[k]),
    ensures
        placed(data, 0, blocks_bytes(records)),
        placed(
            data,
            block_start(records, records.len() as int),
            trailer_bytes(blocks::status_marker(), statuses_of(records)),
        ),
        placed(
            data,
            block_start(records, records.len() as int) + 38 + 4 * records.len(),
            trailer_bytes(blocks::checksum_marker(), checksums_of(records)),
        ),
        data.len() == block_start(records, records.len() as int) + 80 + 8 * records.len(),
{
    reveal_strlit("BlockStatus");
    reveal_strlit("BlockCheckSum");
    let first = blocks_bytes(records);
    let status = trailer_bytes(blocks::status_marker(), statuses_of(records));
    let checksum = trailer_bytes(blocks::checksum_marker(), checksums_of(records));
    assert(placed(data, 0, first + status + checksum));
    lemma_placed_split(data, 0, first + status, checksum);
    lemma_placed_split(data, 0, first, status);
    lemma_trailer_len(blocks::status_marker(), statuses_of(records));
    lemma_trailer_len(blocks::checksum_marker(), checksums_of(records));
    assert(records.take(records.len() as int) =~= records);
}

proof fn lemma_body_parses(data: Seq<u8>, records: Seq<RecordModel>, max_blocks: u64, done: int)
    requires
        placed(
            data,
            block_start(records, records.len() as int),
            trailer_bytes(blocks::status_marker(), statuses_of(records)),
        ),
        placed(
            data,
            block_start(records, records.len() as int) + 38 + 4 * records.len(),
            trailer_bytes(blocks::checksum_marker(), checksums_of(records)),
        ),
        data.len() == block_start(records, records.len() as int) + 80 + 8 * records.len(),
        data.len() <= u64::MAX,
        records.len() <= max_blocks,
        records.len() <= u32::MAX,
        0 <= done <= records.len(),
        forall|k: int|
            0 <= k < records.len() ==> writable(#[trigger] records[k]) && placed(
                data,
                block_start(records, k),
                block_bytes(records[k]),
            ) && block_start(records, k + 1) == block_start(records, k) + block_size(records[k]),
    ensures
        blocks::blocks_from(
            data,
            data.len() as int,
            max_blocks,
            block_start(records, done),
            written_blocks(records).take(done),
            None,
            None,
        ) == Ok::<Seq<BlockModel>, Failure>(
            blocks::with_trailers(
                written_blocks(records),
                statuses_of(records),
                checksums_of(records),
            ),
        ),
    decreases records.len() - done,
{
    let end = data.len() as int;
    let all = written_blocks(records);
    let at = block_start(records, done);
    if done < records.len() {
        let record = records[done];
        lemma_block_bytes_len(record);
        lemma_block_step(data, end, max_blocks, at, all.take(done), record);
        lemma_body_parses(data, records, max_blocks, done + 1);
        assert(all.take(done).push(all[done]) =~= all.take(done + 1));
    } else {
        assert(all.take(done) =~= all);
        lemma_trailers_step(
            data,
            end,
            max_blocks,
            at,
            all,
            statuses_of(records),
            checksums_of(records),
        );
    }
}

/// The blocks, trailers included, that a parse finds in a serialized body.
pub open spec fn parsed_blocks(records: Seq<RecordModel>) -> Seq<BlockModel> {
    blocks::with_trailers(
        written_blocks(records),
        statuses_of(records),
        checksums_of(records),
    )
}

/// What is written is what is read back: the parse of a serialized body finds
/// every record, with its index, parameters, payload location, status, and
/// checksum, in the order in which they were written.
pub proof fn serialized_body_reads_back(records: Seq<RecordModel>, max_blocks: u64)
    requires
        body_bytes(records).len() <= u64::MAX,
        records.len() <= max_blocks,
        records.len() <= u32::MAX,
        forall|k: int| 0 <= k < records.len() ==> writable(#[trigger] records[k]),
    ensures
        blocks::block_data_of(
            body_bytes(records),
            whole_body(body_bytes(records).len() as int),
            max_blocks,
        ) == Ok::<Seq<BlockModel>, Failure>(parsed_blocks(records)),
{
    let data = body_bytes(records);
    lemma_body_placed(data, records);
    lemma_blocks_placed(data, records);
    lemma_body_parses(data, records, max_blocks, 0);
    assert(records.take(0) =~= Seq::empty());
    assert(written_blocks(records).take(0) =~= Seq::empty());
}

/// The payload locations that a parse finds in a serialized body lead to the
/// bytes that were written.
pub proof fn serialized_payloads_read_back(records: Seq<RecordModel>)
    requires
        body_bytes(records).len() <= u64::MAX,
        forall|k: int| 0 <= k < records.len() ==> writable(#[trigger] records[k]),
    ensures
        records_of(body_bytes(records), parsed_blocks(records)) == records,
{
    let data = body_bytes(records);
    lemma_body_placed(data, records);
    let read = records_of(data, parsed_blocks(records));
    assert forall|k: int| 0 <= k < records.len() implies #[trigger] read[k] == records[k] by {
        lemma_placed_block(data, records, k);
        lemma_record_read(data, records, k);
    }
    assert(read =~= records);
}

proof fn lemma_placed_block(data: Seq<u8>, records: Seq<RecordModel>, k: int)
    requires
        0 <= k < records.len(),
        placed(data, 0, blocks_bytes(records)),
        forall|i: int| 0 <= i < records.len() ==> writable(#[trigger] records[i]),
    ensures
        placed(data, block_start(records, k), block_bytes(records[k])),
{
    lemma_blocks_placed(data, records);
    assert(writable(records[k]));
}

#[verifier::spinoff_prover]
#[verifier::rlimit(50)]
proof fn lemma_record_read(data: Seq<u8>, records: Seq<RecordModel>, k: int)
    requires
        0 <= k < records.len(),
        writable(records[k]),
        data.len() <= u64::MAX,
        placed(data, block_start(records, k), block_bytes(records[k])),
    ensures
        records_of(data, parsed_blocks(records))[k] == records[k],
{
    let record = records[k];
    let at = block_start(records, k);
    let parsed = parsed_blocks(records);
    lemma_block_bytes_len(record);
    if record.payload is Some {
        let stream = record.payload->Some_0;
        lemma_stream_placed(data, at, record, stream);
        assert(parsed[k].payload->Some_0.offset == at + 74);
    }
}

proof fn lemma_stream_placed(data: Seq<u8>, at: int, record: RecordModel, stream: Seq<u8>)
    requires
        placed(data, at, block_bytes(record)),
        writable(record),
        record.payload == Some(stream),
    ensures
        data.subrange(at + 74, at + 74 + stream.len()) == stream,
{
    reveal_strlit("BlockDataBeginChunk");
    let head = bytes::be32_bytes(block_size(record) as u32) + bytes::be32_bytes(19)
        + blocks::begin_marker() + bytes::be32_bytes(record.index) + record.parameters;
    let payload = payload_bytes(record.payload);
    let fields = bytes::be32_bytes(1) + bytes::be32_bytes((stream.len() + 4) as u32)
        + bytes::le32_bytes(stream.len() as u32);
    lemma_placed_split(data, at, head + payload + bytes::be32_bytes(17), blocks::end_marker());
    lemma_placed_split(data, at, head + payload, bytes::be32_bytes(17));
    lemma_placed_split(data, at, head, payload);
    lemma_placed_split(data, at + 62, fields, stream);
    lemma_placed_found(data, at + 74, stream);
}

} // verus!
