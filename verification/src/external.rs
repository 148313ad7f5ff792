//! External objects: classification of their bodies and tiled block data.

use vstd::prelude::*;

use crate::bytes;
use crate::bytes::{bytes_match, copy_bytes, push_bytes, read_be16, read_be32, read_le32};
use crate::container;
use crate::container::{ChunkHeader, ClipFile, ExternalChunkHeader, ExternalHeaderModel};
use crate::error;
use crate::error::{Error, Failure};
use crate::scan;

verus! {

/// Byte order used by a length prefix.
#[derive(Clone, Copy, Debug, PartialEq, Eq, Structural)]
pub enum ByteOrder {
    /// Most-significant byte first.
    BigEndian,
    /// Least-significant byte first.
    LittleEndian,
}

/// A recognized raw media payload.
#[derive(Clone, Copy, Debug, PartialEq, Eq, Structural)]
#[non_exhaustive]
pub enum MediaKind {
    /// A RIFF/WAVE audio stream.
    Wave,
    /// An MP3 stream, with or without an ID3 prefix.
    Mp3,
}

/// Location of a zlib stream preceded by its compressed size.
#[derive(Clone, Copy, Debug, PartialEq, Eq, Structural)]
pub struct LengthPrefixedZlib {
    pub byte_order: ByteOrder,
    pub compressed_offset: u64,
    pub compressed_size: u64,
}

impl LengthPrefixedZlib {
    /// Byte order used by the four-byte size prefix.
    #[must_use]
    pub fn byte_order(&self) -> (order: ByteOrder)
        ensures
            order == self.byte_order,
    {
        self.byte_order
    }

    /// Absolute offset of the zlib stream, after the size prefix.
    #[must_use]
    pub fn compressed_offset(&self) -> (offset: u64)
        ensures
            offset == self.compressed_offset,
    {
        self.compressed_offset
    }

    /// Compressed zlib stream length.
    #[must_use]
    pub fn compressed_size(&self) -> (size: u64)
        ensures
            size == self.compressed_size,
    {
        self.compressed_size
    }
}

/// Classification of an external object's body.
#[derive(Clone, Copy, Debug, PartialEq, Eq, Structural)]
#[non_exhaustive]
pub enum ExternalBody {
    /// A tiled `BlockDataBeginChunk` container.
    BlockData,
    /// A length-prefixed zlib stream.
    LengthPrefixedZlib(LengthPrefixedZlib),
    /// A raw media stream.
    Media(MediaKind),
    /// A body whose format is not currently recognized.
    Unknown,
}

/// A parsed external-object header and its body classification.
#[derive(Clone, Debug, PartialEq, Eq)]
pub struct ExternalObject {
    pub header: ExternalChunkHeader,
    pub body: ExternalBody,
}

/// The model of an [`ExternalObject`].
pub struct ExternalObjectModel {
    pub header: ExternalHeaderModel,
    pub body: ExternalBody,
}

impl View for ExternalObject {
    type V = ExternalObjectModel;

    open spec fn view(&self) -> ExternalObjectModel {
        ExternalObjectModel { header: self.header@, body: self.body }
    }
}

impl ExternalObject {
    /// Parsed `CHNKExta` prefix.
    #[must_use]
    pub fn header(&self) -> (header: &ExternalChunkHeader)
        ensures
            *header == self.header,
    {
        &self.header
    }

    /// Recognized external body format.
    #[must_use]
    pub fn body(&self) -> (body: ExternalBody)
        ensures
            body == self.body,
    {
        self.body
    }
}

/// The twelve-byte parameter record stored in every observed block.
#[derive(Clone, Copy, Debug, PartialEq, Eq)]
pub struct BlockParameters {
    pub raw: [u8; 12],
}

impl BlockParameters {
    /// The parameter record with these bytes.
    #[must_use]
    pub fn from_raw(raw: [u8; 12]) -> (parameters: BlockParameters)
        ensures
            parameters.raw == raw,
    {
        BlockParameters { raw }
    }

    /// Returns the uninterpreted bytes for forward-compatible access.
    #[must_use]
    pub fn raw(&self) -> (raw: [u8; 12])
        ensures
            raw == self.raw,
    {
        self.raw
    }

    /// Observed channel-count field.
    #[must_use]
    pub fn channel_count(&self) -> (count: u16)
        ensures
            count == bytes::be16(self.raw@, 0),
    {
        read_be16(self.raw.as_slice(), 0)
    }

    /// Observed reserved field.
    #[must_use]
    pub fn reserved(&self) -> (value: u16)
        ensures
            value == bytes::be16(self.raw@, 2),
    {
        read_be16(self.raw.as_slice(), 2)
    }

    /// Observed tile-width field.
    #[must_use]
    pub fn width(&self) -> (width: u32)
        ensures
            width == bytes::be32(self.raw@, 4),
    {
        read_be32(self.raw.as_slice(), 4)
    }

    /// Observed tile-height field.
    #[must_use]
    pub fn height(&self) -> (height: u32)
        ensures
            height == bytes::be32(self.raw@, 8),
    {
        read_be32(self.raw.as_slice(), 8)
    }
}

/// Location and metadata of one compressed block payload.
#[derive(Clone, Copy, Debug, PartialEq, Eq)]
pub struct BlockPayload {
    pub offset: u64,
    pub compressed_size: u64,
    pub prefix: Option<[u8; 2]>,
}

/// The model of a [`BlockPayload`].
pub struct PayloadModel {
    pub offset: u64,
    pub compressed_size: u64,
    pub prefix: Option<Seq<u8>>,
}

impl View for BlockPayload {
    type V = PayloadModel;

    open spec fn view(&self) -> PayloadModel {
        PayloadModel {
            offset: self.offset,
            compressed_size: self.compressed_size,
            prefix: match self.prefix {
                Some(prefix) => Some(prefix@),
                None => None,
            },
        }
    }
}

/// Whether two bytes are a zlib CMF/FLG pair.
pub open spec fn zlib_header(prefix: Seq<u8>) -> bool {
    prefix[0] % 16 == 8 && bytes::be16(prefix, 0) % 31 == 0
}

/// Whether two bytes are a zlib CMF/FLG pair.
#[must_use]
pub fn is_zlib_header(prefix: [u8; 2]) -> (found: bool)
    ensures
        found == zlib_header(prefix@),
{
    prefix[0] % 16 == 8 && read_be16(prefix.as_slice(), 0) % 31 == 0
}

impl BlockPayload {
    /// Absolute offset of the compressed bytes.
    #[must_use]
    pub fn offset(&self) -> (offset: u64)
        ensures
            offset == self.offset,
    {
        self.offset
    }

    /// Compressed payload size.
    #[must_use]
    pub fn compressed_size(&self) -> (size: u64)
        ensures
            size == self.compressed_size,
    {
        self.compressed_size
    }

    /// First two compressed bytes, when present.
    #[must_use]
    pub fn prefix(&self) -> (prefix: Option<[u8; 2]>)
        ensures
            prefix == self.prefix,
    {
        self.prefix
    }

    /// Returns whether the prefix is a valid zlib CMF/FLG pair.
    #[must_use]
    pub fn has_zlib_header(&self) -> (found: bool)
        ensures
            found == (self@.prefix matches Some(prefix) && zlib_header(prefix)),
    {
        match self.prefix {
            Some(prefix) => is_zlib_header(prefix),
            None => false,
        }
    }
}

/// Metadata for one tile block.
#[derive(Clone, Copy, Debug, PartialEq, Eq)]
pub struct Block {
    pub index: u32,
    pub parameters: BlockParameters,
    pub payload: Option<BlockPayload>,
    pub status: u32,
    pub checksum: u32,
}

/// The model of a [`Block`].
pub struct BlockModel {
    pub index: u32,
    pub parameters: Seq<u8>,
    pub payload: Option<PayloadModel>,
    pub status: u32,
    pub checksum: u32,
}

/// The model of a payload that may be absent.
pub open spec fn payload_model(payload: Option<BlockPayload>) -> Option<PayloadModel> {
    match payload {
        Some(payload) => Some(payload@),
        None => None,
    }
}

impl View for Block {
    type V = BlockModel;

    open spec fn view(&self) -> BlockModel {
        BlockModel {
            index: self.index,
            parameters: self.parameters.raw@,
            payload: payload_model(self.payload),
            status: self.status,
            checksum: self.checksum,
        }
    }
}

impl Block {
    /// Block index within the tile grid.
    #[must_use]
    pub fn index(&self) -> (index: u32)
        ensures
            index == self.index,
    {
        self.index
    }

    /// Raw and interpreted block parameters.
    #[must_use]
    pub fn parameters(&self) -> (parameters: BlockParameters)
        ensures
            parameters == self.parameters,
    {
        self.parameters
    }

    /// Compressed data location, or `None` for an empty block.
    #[must_use]
    pub fn payload(&self) -> (payload: Option<BlockPayload>)
        ensures
            payload == self.payload,
    {
        self.payload
    }

    /// Opaque value from the `BlockStatus` array.
    #[must_use]
    pub fn status(&self) -> (status: u32)
        ensures
            status == self.status,
    {
        self.status
    }

    /// Opaque value from the `BlockCheckSum` array.
    #[must_use]
    pub fn checksum(&self) -> (checksum: u32)
        ensures
            checksum == self.checksum,
    {
        self.checksum
    }
}

/// An indexed block-data body.
#[derive(Clone, Debug, PartialEq, Eq)]
pub struct BlockData {
    pub blocks: Vec<Block>,
}

impl View for BlockData {
    type V = Seq<BlockModel>;

    open spec fn view(&self) -> Seq<BlockModel> {
        error::views(self.blocks@)
    }
}

/// How many of the blocks hold compressed data.
pub open spec fn present_count(blocks: Seq<BlockModel>) -> nat
    decreases blocks.len(),
{
    if blocks.len() == 0 {
        0
    } else {
        present_count(blocks.drop_last()) + if blocks.last().payload is Some {
            1nat
        } else {
            0
        }
    }
}

impl BlockData {
    /// All blocks in on-disk order.
    #[must_use]
    pub fn blocks(&self) -> (blocks: &[Block])
        ensures
            blocks@ == self.blocks@,
    {
        self.blocks.as_slice()
    }

    /// Returns the common opaque `BlockStatus` value when every block agrees.
    ///
    /// The observed files store a single value across every block in one
    /// external object, but the value's semantic meaning remains unknown.
    /// Empty or mixed-status objects return `None`.
    #[must_use]
    pub fn uniform_status(&self) -> (status: Option<u32>)
        ensures
            match status {
                Some(status) => self@.len() > 0 && forall|i: int|
                    0 <= i < self@.len() ==> (#[trigger] self@[i]).status == status,
                None => self@.len() == 0 || exists|i: int, j: int|
                    0 <= i < self@.len() && 0 <= j < self@.len() && (#[trigger] self@[i]).status
                        != (#[trigger] self@[j]).status,
            },
    {
        if self.blocks.len() == 0 {
            return None;
        }
        let first: u32 = self.blocks[0].status;
        let mut index: usize = 0;
        while index < self.blocks.len()
            invariant
                index <= self.blocks@.len(),
                0 < self.blocks@.len(),
                first == self.blocks@[0].status,
                forall|i: int| 0 <= i < index ==> (#[trigger] self.blocks@[i]).status == first,
            decreases self.blocks@.len() - index,
        {
            if self.blocks[index].status != first {
                proof {
                    assert(self@[0].status != self@[index as int].status);
                }
                return None;
            }
            index += 1;
        }
        Some(first)
    }

    /// Number of blocks with compressed data.
    #[must_use]
    pub fn present_blocks(&self) -> (count: usize)
        ensures
            count == present_count(self@),
            count <= self.blocks@.len(),
    {
        let mut count: usize = 0;
        let mut index: usize = 0;
        while index < self.blocks.len()
            invariant
                index <= self.blocks@.len(),
                count <= index,
                count == present_count(self@.take(index as int)),
            decreases self.blocks@.len() - index,
        {
            proof {
                let taken = self@.take(index + 1);
                assert(taken.drop_last() =~= self@.take(index as int));
                assert(taken.last() == self.blocks@[index as int]@);
            }
            if self.blocks[index].payload.is_some() {
                count += 1;
            }
            index += 1;
        }
        assert(self@.take(self.blocks@.len() as int) =~= self@);
        count
    }

    /// Number of empty blocks.
    #[must_use]
    pub fn empty_blocks(&self) -> (count: usize)
        ensures
            count == self@.len() - present_count(self@),
    {
        self.blocks.len() - self.present_blocks()
    }
}

/// A byte range of the file, or the reason why it is not one.
pub open spec fn range_of(data: Seq<u8>, offset: u64, size: u64) -> Result<Seq<u8>, Failure> {
    if offset + size > data.len() {
        Err(
            Failure::ChunkOutOfBounds {
                offset,
                payload_size: size,
                file_size: data.len() as u64,
            },
        )
    } else {
        Ok(data.subrange(offset as int, offset + size))
    }
}

/// A byte range of the file within an allocation limit.
pub open spec fn limited_range_of(data: Seq<u8>, offset: u64, size: u64, limit: u64) -> Result<
    Seq<u8>,
    Failure,
> {
    if size > limit {
        Err(Failure::PayloadTooLarge { size, limit })
    } else {
        range_of(data, offset, size)
    }
}

fn read_range(data: &[u8], offset: u64, size: u64) -> (bytes: Result<Vec<u8>, Error>)
    ensures
        error::outcome(bytes) == range_of(data@, offset, size),
{
    let file_size: u64 = data.len() as u64;
    let in_range: bool = match offset.checked_add(size) {
        Some(end) => end <= file_size,
        None => false,
    };
    if !in_range {
        return Err(Error::ChunkOutOfBounds { offset, payload_size: size, file_size });
    }
    Ok(copy_bytes(data, offset as usize, (offset + size) as usize))
}

fn copy_range(data: &[u8], offset: u64, size: u64, writer: &mut Vec<u8>) -> (copied: Result<
    u64,
    Error,
>)
    ensures
        match range_of(data@, offset, size) {
            Ok(bytes) => final(writer)@ == old(writer)@ + bytes && error::plain(copied) == Ok::<
                u64,
                Failure,
            >(size),
            Err(failure) => final(writer)@ == old(writer)@ && error::plain(copied) == Err::<
                u64,
                Failure,
            >(failure),
        },
{
    match read_range(data, offset, size) {
        Ok(bytes) => {
            push_bytes(writer, bytes.as_slice());
            Ok(size)
        },
        Err(error) => Err(error),
    }
}

/// Whether a body begins like block data: with the label of a first block, or
/// with that of a `BlockStatus` array.
pub open spec fn block_data_prefix(prefix: Seq<u8>) -> bool {
    ||| bytes::has_bytes_at(prefix, 4, seq![0u8, 0, 0, 0x13, 0, 0x42, 0, 0x6c])
    ||| bytes::has_bytes_at(prefix, 0, seq![0u8, 0, 0, 0x0b, 0, 0x42, 0, 0x6c])
}

/// Whether a body begins like block data.
#[must_use]
pub fn looks_like_block_data(prefix: &[u8]) -> (found: bool)
    ensures
        found == block_data_prefix(prefix@),
{
    let block: [u8; 8] = [0, 0, 0, 0x13, 0, 0x42, 0, 0x6c];
    let status: [u8; 8] = [0, 0, 0, 0x0b, 0, 0x42, 0, 0x6c];
    proof {
        assert(block@ =~= seq![0u8, 0, 0, 0x13, 0, 0x42, 0, 0x6c]);
        assert(status@ =~= seq![0u8, 0, 0, 0x0b, 0, 0x42, 0, 0x6c]);
    }
    bytes_match(prefix, 4, block.as_slice()) || bytes_match(prefix, 0, status.as_slice())
}

/// What the first bytes of a body of `header` say about its format.
pub open spec fn body_kind(prefix: Seq<u8>, header: ExternalHeaderModel) -> Result<
    ExternalBody,
    Failure,
> {
    let size = header.body_size - 4;
    let zlib = header.body_size >= 6 && zlib_header(prefix.subrange(4, 6));
    let order = if bytes::be32(prefix, 0) == size {
        Some(ByteOrder::BigEndian)
    } else if bytes::le32(prefix, 0) == size {
        Some(ByteOrder::LittleEndian)
    } else {
        None
    };
    if block_data_prefix(prefix) {
        Ok(ExternalBody::BlockData)
    } else if zlib && order is Some {
        if header.body_offset + 4 > u64::MAX {
            Err(Failure::OffsetOverflow)
        } else {
            Ok(
                ExternalBody::LengthPrefixedZlib(
                    LengthPrefixedZlib {
                        byte_order: order->Some_0,
                        compressed_offset: (header.body_offset + 4) as u64,
                        compressed_size: size as u64,
                    },
                ),
            )
        }
    } else if bytes::has_bytes_at(prefix, 0, seq![0x52u8, 0x49, 0x46, 0x46])
        && bytes::has_bytes_at(prefix, 8, seq![0x57u8, 0x41, 0x56, 0x45]) {
        Ok(ExternalBody::Media(MediaKind::Wave))
    } else if bytes::has_bytes_at(prefix, 0, seq![0x49u8, 0x44, 0x33]) || (prefix.len() >= 2
        && prefix[0] == 0xff && prefix[1] / 0x20 == 7) {
        Ok(ExternalBody::Media(MediaKind::Mp3))
    } else {
        Ok(ExternalBody::Unknown)
    }
}

/// The format of the body of an external object.
pub open spec fn classified_body(data: Seq<u8>, header: ExternalHeaderModel) -> Result<
    ExternalBody,
    Failure,
> {
    let size = if header.body_size <= 16 {
        header.body_size as int
    } else {
        16
    };
    if size > 0 && header.body_offset + size > data.len() {
        Err(Failure::Io)
    } else {
        body_kind(container::available_bytes(data, header.body_offset as int, size), header)
    }
}

/// Classifies a body by its first bytes.
pub fn classify_prefix(prefix: &[u8], header: &ExternalChunkHeader) -> (body: Result<
    ExternalBody,
    Error,
>)
    requires
        prefix@.len() == if header.body_size <= 16 {
            header.body_size as int
        } else {
            16
        },
    ensures
        error::plain(body) == body_kind(prefix@, header@),
{
    if looks_like_block_data(prefix) {
        return Ok(ExternalBody::BlockData);
    }
    if header.body_size >= 6 {
        let compressed_size: u64 = header.body_size - 4;
        let pair: [u8; 2] = [prefix[4], prefix[5]];
        proof {
            assert(pair@ =~= prefix@.subrange(4, 6));
        }
        if is_zlib_header(pair) {
            let byte_order: Option<ByteOrder> = if read_be32(prefix, 0) as u64 == compressed_size {
                Some(ByteOrder::BigEndian)
            } else if read_le32(prefix, 0) as u64 == compressed_size {
                Some(ByteOrder::LittleEndian)
            } else {
                None
            };
            if let Some(byte_order) = byte_order {
                return match header.body_offset.checked_add(4) {
                    Some(compressed_offset) => Ok(
                        ExternalBody::LengthPrefixedZlib(
                            LengthPrefixedZlib { byte_order, compressed_offset, compressed_size },
                        ),
                    ),
                    None => Err(Error::OffsetOverflow),
                };
            }
        }
    }
    let riff: [u8; 4] = [0x52, 0x49, 0x46, 0x46];
    let wave: [u8; 4] = [0x57, 0x41, 0x56, 0x45];
    let id3: [u8; 3] = [0x49, 0x44, 0x33];
    proof {
        assert(riff@ =~= seq![0x52u8, 0x49, 0x46, 0x46]);
        assert(wave@ =~= seq![0x57u8, 0x41, 0x56, 0x45]);
        assert(id3@ =~= seq![0x49u8, 0x44, 0x33]);
    }
    if bytes_match(prefix, 0, riff.as_slice()) && bytes_match(prefix, 8, wave.as_slice()) {
        return Ok(ExternalBody::Media(MediaKind::Wave));
    }
    if bytes_match(prefix, 0, id3.as_slice()) || (prefix.len() >= 2 && prefix[0] == 0xff
        && prefix[1] / 0x20 == 7) {
        return Ok(ExternalBody::Media(MediaKind::Mp3));
    }
    Ok(ExternalBody::Unknown)
}

fn classify_body(data: &[u8], header: &ExternalChunkHeader) -> (body: Result<ExternalBody, Error>)
    ensures
        error::plain(body) == classified_body(data@, header@),
{
    let length: u64 = data.len() as u64;
    let size: u64 = if header.body_size <= 16 {
        header.body_size
    } else {
        16
    };
    if size > 0 && (length < size || header.body_offset > length - size) {
        return Err(Error::unexpected_end());
    }
    let prefix = container::read_available(data, header.body_offset, size);
    classify_prefix(prefix.as_slice(), header)
}

/// The header and body format of an external chunk.
pub open spec fn external_object_of(file: ClipFile, chunk: container::ChunkModel) -> Result<
    ExternalObjectModel,
    Failure,
> {
    match scan::external_header_of(file.data@, chunk, file.limits.max_identifier_size) {
        Err(failure) => Err(failure),
        Ok(header) => match classified_body(file.data@, header) {
            Err(failure) => Err(failure),
            Ok(body) => Ok(ExternalObjectModel { header, body }),
        },
    }
}

impl ClipFile {
    /// Parses an external prefix and classifies its body.
    pub fn inspect_external_chunk(&self, chunk: &ChunkHeader) -> (object: Result<
        ExternalObject,
        Error,
    >)
        ensures
            error::outcome(object) == external_object_of(*self, chunk@),
    {
        let header = match self.external_chunk_header(chunk) {
            Ok(header) => header,
            Err(error) => return Err(error),
        };
        match classify_body(self.data.as_slice(), &header) {
            Ok(body) => Ok(ExternalObject { header, body }),
            Err(error) => Err(error),
        }
    }

    /// Reads an external object's complete body after enforcing an allocation limit.
    pub fn read_external_body(&self, object: &ExternalObject, limit: u64) -> (body: Result<
        Vec<u8>,
        Error,
    >)
        ensures
            error::outcome(body) == limited_range_of(
                self.data@,
                object.header.body_offset,
                object.header.body_size,
                limit,
            ),
    {
        let size: u64 = object.header.body_size();
        if size > limit {
            return Err(Error::PayloadTooLarge { size, limit });
        }
        read_range(self.data.as_slice(), object.header.body_offset(), size)
    }

    /// Appends an external object's complete body to `writer`.
    pub fn copy_external_body(&self, object: &ExternalObject, writer: &mut Vec<u8>) -> (copied:
        Result<u64, Error>)
        ensures
            match range_of(self.data@, object.header.body_offset, object.header.body_size) {
                Ok(bytes) => final(writer)@ == old(writer)@ + bytes && error::plain(copied) == Ok::<
                    u64,
                    Failure,
                >(object.header.body_size),
                Err(failure) => final(writer)@ == old(writer)@ && error::plain(copied) == Err::<
                    u64,
                    Failure,
                >(failure),
            },
    {
        copy_range(
            self.data.as_slice(),
            object.header.body_offset(),
            object.header.body_size(),
            writer,
        )
    }

    /// Reads one compressed block payload after enforcing an allocation limit.
    pub fn read_block_payload(&self, payload: BlockPayload, limit: u64) -> (bytes: Result<
        Vec<u8>,
        Error,
    >)
        ensures
            error::outcome(bytes) == limited_range_of(
                self.data@,
                payload.offset,
                payload.compressed_size,
                limit,
            ),
    {
        if payload.compressed_size > limit {
            return Err(Error::PayloadTooLarge { size: payload.compressed_size, limit });
        }
        read_range(self.data.as_slice(), payload.offset, payload.compressed_size)
    }

    /// Appends one compressed block payload to `writer`.
    pub fn copy_block_payload(&self, payload: BlockPayload, writer: &mut Vec<u8>) -> (copied:
        Result<u64, Error>)
        ensures
            match range_of(self.data@, payload.offset, payload.compressed_size) {
                Ok(bytes) => final(writer)@ == old(writer)@ + bytes && error::plain(copied) == Ok::<
                    u64,
                    Failure,
                >(payload.compressed_size),
                Err(failure) => final(writer)@ == old(writer)@ && error::plain(copied) == Err::<
                    u64,
                    Failure,
                >(failure),
            },
    {
        copy_range(self.data.as_slice(), payload.offset, payload.compressed_size, writer)
    }

    /// Reads a classified length-prefixed zlib stream with a caller limit.
    pub fn read_length_prefixed_zlib(&self, stream: LengthPrefixedZlib, limit: u64) -> (bytes:
        Result<Vec<u8>, Error>)
        ensures
            error::outcome(bytes) == limited_range_of(
                self.data@,
                stream.compressed_offset,
                stream.compressed_size,
                limit,
            ),
    {
        if stream.compressed_size > limit {
            return Err(Error::PayloadTooLarge { size: stream.compressed_size, limit });
        }
        read_range(self.data.as_slice(), stream.compressed_offset, stream.compressed_size)
    }
}

} // verus!
