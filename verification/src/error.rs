//! Everything that can go wrong while reading, writing, or validating a file.

use vstd::prelude::*;

use crate::message;
use crate::message::Message;

verus! {

/// An error encountered while reading, writing, or validating a CLIP container.
#[derive(Debug)]
#[non_exhaustive]
#[allow(inconsistent_fields)]
pub enum Error {
    /// An underlying I/O or decompression operation failed.
    Io {
        /// What the operation reported.
        reason: String,
    },
    /// The root `CSFCHUNK` signature was not present.
    InvalidMagic([u8; 8]),
    /// The declared size does not match the length of the file.
    FileSizeMismatch {
        /// Size recorded in the root header.
        declared: u64,
        /// Actual length of the file.
        actual: u64,
    },
    /// The first chunk offset is outside the valid file range.
    InvalidFirstChunkOffset {
        /// Offset recorded in the root header.
        offset: u64,
        /// Actual length of the file.
        file_size: u64,
    },
    /// A chunk tag does not begin with the expected `CHNK` prefix.
    InvalidChunkTag {
        /// Offset of the invalid tag.
        offset: u64,
        /// Bytes read from the file.
        tag: [u8; 8],
    },
    /// A chunk payload extends beyond the declared file boundary.
    ChunkOutOfBounds {
        /// Offset of the chunk header.
        offset: u64,
        /// Declared payload size.
        payload_size: u64,
        /// Declared file size.
        file_size: u64,
    },
    /// Integer arithmetic overflowed while calculating an offset.
    OffsetOverflow,
    /// The first top-level chunk was not `CHNKHead`.
    MissingFileHeader,
    /// The `CHNKHead` payload has an invalid internal layout.
    InvalidFileHeader {
        /// Human-readable reason for the rejection.
        reason: &'static str,
    },
    /// A `CHNKExta` payload has an invalid internal layout.
    InvalidExternalChunk {
        /// Human-readable reason for the rejection.
        reason: &'static str,
    },
    /// A block-data body has an invalid internal layout.
    InvalidBlockData {
        /// Absolute offset at which the problem was found.
        offset: u64,
        /// Human-readable reason for the rejection.
        reason: &'static str,
    },
    /// A configurable parser safety limit was exceeded.
    LimitExceeded {
        /// Name of the limited resource.
        resource: &'static str,
        /// Value found in the input.
        value: u64,
        /// Configured maximum.
        limit: u64,
    },
    /// A method received a chunk of the wrong kind.
    UnexpectedChunk {
        /// Chunk required by the operation.
        expected: &'static str,
        /// Actual raw chunk tag.
        actual: [u8; 8],
    },
    /// A requested in-memory payload exceeds the caller-provided limit.
    PayloadTooLarge {
        /// Payload size in the file.
        size: u64,
        /// Maximum accepted size.
        limit: u64,
    },
    /// The top-level chunk sequence violates the currently known structure.
    InvalidChunkSequence {
        /// Human-readable reason for the rejection.
        reason: &'static str,
    },
    /// The embedded SQLite database is structurally inconsistent.
    InvalidDatabase {
        /// Human-readable details.
        reason: String,
    },
    /// A requested SQLite table does not exist in this file revision.
    MissingTable {
        /// Requested table name.
        table: String,
    },
    /// A requested SQLite column does not exist in this file revision.
    MissingColumn {
        /// Table containing the requested column.
        table: String,
        /// Requested column name.
        column: String,
    },
    /// An operation on the embedded SQLite database failed.
    Sqlite {
        /// What SQLite reported.
        reason: String,
    },
    /// The high-level document model is internally inconsistent.
    InvalidDocument {
        /// Human-readable details.
        reason: String,
    },
    /// A standalone `.cmc` page-management database is inconsistent.
    InvalidCmc {
        /// Human-readable details.
        reason: String,
    },
    /// Correction-layer metadata is structurally inconsistent.
    InvalidCorrection {
        /// Human-readable details.
        reason: String,
    },
    /// Ruler metadata or its linked lists are structurally inconsistent.
    InvalidRuler {
        /// Human-readable details.
        reason: String,
    },
    /// Raster metadata or decoded pixels are structurally inconsistent.
    InvalidRaster {
        /// Human-readable details.
        reason: String,
    },
    /// The raster uses a pixel layout that is recognized but not supported.
    UnsupportedRaster {
        /// Human-readable details.
        reason: String,
    },
    /// Animation metadata or mixer data is structurally inconsistent.
    InvalidAnimation {
        /// Human-readable details.
        reason: String,
    },
    /// Time-lapse metadata or payload data is structurally inconsistent.
    InvalidTimeLapse {
        /// Human-readable details.
        reason: String,
    },
    /// A requested CLIP rewrite would violate a validated invariant.
    InvalidWrite {
        /// Human-readable details.
        reason: String,
    },
}

/// An [`Error`], but for the wording of the details that SQLite or the system gave.
#[allow(inconsistent_fields)]
pub enum Failure {
    Io,
    InvalidMagic { magic: Seq<u8> },
    FileSizeMismatch { declared: u64, actual: u64 },
    InvalidFirstChunkOffset { offset: u64, file_size: u64 },
    InvalidChunkTag { offset: u64, tag: Seq<u8> },
    ChunkOutOfBounds { offset: u64, payload_size: u64, file_size: u64 },
    OffsetOverflow,
    MissingFileHeader,
    InvalidFileHeader { reason: Seq<char> },
    InvalidExternalChunk { reason: Seq<char> },
    InvalidBlockData { offset: u64, reason: Seq<char> },
    LimitExceeded { resource: Seq<char>, value: u64, limit: u64 },
    UnexpectedChunk { expected: Seq<char>, actual: Seq<u8> },
    PayloadTooLarge { size: u64, limit: u64 },
    InvalidChunkSequence { reason: Seq<char> },
    InvalidDatabase { reason: Seq<char> },
    MissingTable { table: Seq<char> },
    MissingColumn { table: Seq<char>, column: Seq<char> },
    Sqlite,
    InvalidDocument { reason: Seq<char> },
    InvalidCmc { reason: Seq<char> },
    InvalidCorrection { reason: Seq<char> },
    InvalidRuler { reason: Seq<char> },
    InvalidRaster { reason: Seq<char> },
    UnsupportedRaster { reason: Seq<char> },
    InvalidAnimation { reason: Seq<char> },
    InvalidTimeLapse { reason: Seq<char> },
    InvalidWrite { reason: Seq<char> },
}

impl View for Error {
    type V = Failure;

    open spec fn view(&self) -> Failure {
        match *self {
            Error::Io { .. } => Failure::Io,
            Error::InvalidMagic(magic) => Failure::InvalidMagic { magic: magic@ },
            Error::FileSizeMismatch { declared, actual } => Failure::FileSizeMismatch { declared, actual },
            Error::InvalidFirstChunkOffset { offset, file_size } => Failure::InvalidFirstChunkOffset { offset, file_size },
            Error::InvalidChunkTag { offset, tag } => Failure::InvalidChunkTag { offset, tag: tag@ },
            Error::ChunkOutOfBounds { offset, payload_size, file_size } => Failure::ChunkOutOfBounds { offset, payload_size, file_size },
            Error::OffsetOverflow => Failure::OffsetOverflow,
            Error::MissingFileHeader => Failure::MissingFileHeader,
            Error::InvalidFileHeader { reason } => Failure::InvalidFileHeader { reason: reason@ },
            Error::InvalidExternalChunk { reason } => Failure::InvalidExternalChunk { reason: reason@ },
            Error::InvalidBlockData { offset, reason } => Failure::InvalidBlockData { offset, reason: reason@ },
            Error::LimitExceeded { resource, value, limit } => Failure::LimitExceeded { resource: resource@, value, limit },
            Error::UnexpectedChunk { expected, actual } => Failure::UnexpectedChunk { expected: expected@, actual: actual@ },
            Error::PayloadTooLarge { size, limit } => Failure::PayloadTooLarge { size, limit },
            Error::InvalidChunkSequence { reason } => Failure::InvalidChunkSequence { reason: reason@ },
            Error::InvalidDatabase { reason } => Failure::InvalidDatabase { reason: reason@ },
            Error::MissingTable { table } => Failure::MissingTable { table: table@ },
            Error::MissingColumn { table, column } => Failure::MissingColumn { table: table@, column: column@ },
            Error::Sqlite { .. } => Failure::Sqlite,
            Error::InvalidDocument { reason } => Failure::InvalidDocument { reason: reason@ },
            Error::InvalidCmc { reason } => Failure::InvalidCmc { reason: reason@ },
            Error::InvalidCorrection { reason } => Failure::InvalidCorrection { reason: reason@ },
            Error::InvalidRuler { reason } => Failure::InvalidRuler { reason: reason@ },
            Error::InvalidRaster { reason } => Failure::InvalidRaster { reason: reason@ },
            Error::UnsupportedRaster { reason } => Failure::UnsupportedRaster { reason: reason@ },
            Error::InvalidAnimation { reason } => Failure::InvalidAnimation { reason: reason@ },
            Error::InvalidTimeLapse { reason } => Failure::InvalidTimeLapse { reason: reason@ },
            Error::InvalidWrite { reason } => Failure::InvalidWrite { reason: reason@ },
        }
    }
}

impl Error {
    /// The message that [`Error::message`] gives.
    pub open spec fn message_text(self) -> Seq<char> {
        match self {
            Error::Io { reason } => "I/O error: "@ + reason@,
            Error::InvalidMagic(magic) => "invalid CLIP magic: "@ + message::byte_list(magic@),
            Error::FileSizeMismatch { declared, actual } => "declared file size "@ + message::decimal(declared as nat) + " does not match actual size "@ + message::decimal(actual as nat),
            Error::InvalidFirstChunkOffset { offset, file_size } => "first chunk offset "@ + message::decimal(offset as nat) + " is invalid for a "@ + message::decimal(file_size as nat) + "-byte file"@,
            Error::InvalidChunkTag { offset, tag } => "invalid chunk tag "@ + message::byte_list(tag@) + " at offset "@ + message::decimal(offset as nat),
            Error::ChunkOutOfBounds { offset, payload_size, file_size } => "chunk at offset "@ + message::decimal(offset as nat) + " with "@ + message::decimal(payload_size as nat) + "-byte payload exceeds file size "@ + message::decimal(file_size as nat),
            Error::OffsetOverflow => "offset arithmetic overflow"@,
            Error::MissingFileHeader => "first chunk is not CHNKHead"@,
            Error::InvalidFileHeader { reason } => "invalid CHNKHead payload: "@ + reason@,
            Error::InvalidExternalChunk { reason } => "invalid CHNKExta payload: "@ + reason@,
            Error::InvalidBlockData { offset, reason } => "invalid block data at offset "@ + message::decimal(offset as nat) + ": "@ + reason@,
            Error::LimitExceeded { resource, value, limit } => resource@ + " value "@ + message::decimal(value as nat) + " exceeds configured limit "@ + message::decimal(limit as nat),
            Error::UnexpectedChunk { expected, actual } => "expected "@ + expected@ + ", found "@ + message::byte_list(actual@),
            Error::PayloadTooLarge { size, limit } => "payload size "@ + message::decimal(size as nat) + " exceeds limit "@ + message::decimal(limit as nat),
            Error::InvalidChunkSequence { reason } => "invalid top-level chunk sequence: "@ + reason@,
            Error::InvalidDatabase { reason } => "invalid embedded SQLite database: "@ + reason@,
            Error::MissingTable { table } => "SQLite table "@ + message::quoted_text(table@) + " is not present"@,
            Error::MissingColumn { table, column } => "SQLite column "@ + table@ + "."@ + column@ + " is not present"@,
            Error::Sqlite { reason } => "SQLite error: "@ + reason@,
            Error::InvalidDocument { reason } => "invalid CLIP document model: "@ + reason@,
            Error::InvalidCmc { reason } => "invalid CLIP page-management file: "@ + reason@,
            Error::InvalidCorrection { reason } => "invalid correction-layer data: "@ + reason@,
            Error::InvalidRuler { reason } => "invalid ruler data: "@ + reason@,
            Error::InvalidRaster { reason } => "invalid raster data: "@ + reason@,
            Error::UnsupportedRaster { reason } => "unsupported raster layout: "@ + reason@,
            Error::InvalidAnimation { reason } => "invalid animation data: "@ + reason@,
            Error::InvalidTimeLapse { reason } => "invalid time-lapse data: "@ + reason@,
            Error::InvalidWrite { reason } => "cannot write CLIP container: "@ + reason@,
        }
    }

    /// A one-line description of the error.
    pub fn message(&self) -> (text: String)
        ensures
            text@ == self.message_text(),
    {
        match self {
            Error::Io { reason } => Message::new("I/O error: ").text(reason).build(),
            Error::InvalidMagic(magic) => Message::new("invalid CLIP magic: ").bytes(magic).build(),
            Error::FileSizeMismatch { declared, actual } => Message::new(
                "declared file size ",
            ).number(*declared).text(" does not match actual size ").number(*actual).build(),
            Error::InvalidFirstChunkOffset { offset, file_size } => Message::new(
                "first chunk offset ",
            ).number(*offset).text(" is invalid for a ").number(*file_size).text("-byte file").build(),
            Error::InvalidChunkTag { offset, tag } => Message::new(
                "invalid chunk tag ",
            ).bytes(tag).text(" at offset ").number(*offset).build(),
            Error::ChunkOutOfBounds { offset, payload_size, file_size } => Message::new("chunk at offset ").number(*offset).text(" with ").number(*payload_size).text("-byte payload exceeds file size ").number(*file_size).build(),
            Error::OffsetOverflow => Message::new("offset arithmetic overflow").build(),
            Error::MissingFileHeader => Message::new("first chunk is not CHNKHead").build(),
            Error::InvalidFileHeader { reason } => Message::new(
                "invalid CHNKHead payload: ",
            ).text(reason).build(),
            Error::InvalidExternalChunk { reason } => Message::new(
                "invalid CHNKExta payload: ",
            ).text(reason).build(),
            Error::InvalidBlockData { offset, reason } => Message::new(
                "invalid block data at offset ",
            ).number(*offset).text(": ").text(reason).build(),
            Error::LimitExceeded { resource, value, limit } => Message::new(resource).text(" value ").number(*value).text(" exceeds configured limit ").number(*limit).build(),
            Error::UnexpectedChunk { expected, actual } => Message::new("expected ").text(expected).text(", found ").bytes(actual).build(),
            Error::PayloadTooLarge { size, limit } => Message::new("payload size ").number(*size).text(" exceeds limit ").number(*limit).build(),
            Error::InvalidChunkSequence { reason } => Message::new(
                "invalid top-level chunk sequence: ",
            ).text(reason).build(),
            Error::InvalidDatabase { reason } => Message::new(
                "invalid embedded SQLite database: ",
            ).text(reason).build(),
            Error::MissingTable { table } => Message::new("SQLite table ").quoted(table).text(" is not present").build(),
            Error::MissingColumn { table, column } => Message::new("SQLite column ").text(table).text(".").text(column).text(" is not present").build(),
            Error::Sqlite { reason } => Message::new("SQLite error: ").text(reason).build(),
            Error::InvalidDocument { reason } => Message::new(
                "invalid CLIP document model: ",
            ).text(reason).build(),
            Error::InvalidCmc { reason } => Message::new(
                "invalid CLIP page-management file: ",
            ).text(reason).build(),
            Error::InvalidCorrection { reason } => Message::new(
                "invalid correction-layer data: ",
            ).text(reason).build(),
            Error::InvalidRuler { reason } => Message::new(
                "invalid ruler data: ",
            ).text(reason).build(),
            Error::InvalidRaster { reason } => Message::new(
                "invalid raster data: ",
            ).text(reason).build(),
            Error::UnsupportedRaster { reason } => Message::new(
                "unsupported raster layout: ",
            ).text(reason).build(),
            Error::InvalidAnimation { reason } => Message::new(
                "invalid animation data: ",
            ).text(reason).build(),
            Error::InvalidTimeLapse { reason } => Message::new(
                "invalid time-lapse data: ",
            ).text(reason).build(),
            Error::InvalidWrite { reason } => Message::new(
                "cannot write CLIP container: ",
            ).text(reason).build(),
        }
    }

    /// A read past the end of the data.
    pub fn unexpected_end() -> (error: Error)
        ensures
            error@ == Failure::Io,
    {
        Error::Io { reason: "failed to fill whole buffer".to_owned() }
    }

    /// A limit on `resource` that `value` exceeds.
    pub fn limit(resource: &'static str, value: u64, limit: u64) -> (error: Error)
        ensures
            error@ == (Failure::LimitExceeded { resource: resource@, value, limit }),
    {
        Error::LimitExceeded { resource, value, limit }
    }
}

/// The number after a count, as far as 64 bits go.
pub open spec fn one_more(count: nat) -> u64 {
    if count >= u64::MAX {
        u64::MAX
    } else {
        (count + 1) as u64
    }
}

/// What a result with a list is, item by item, once the wording of error details
/// is set aside.
pub open spec fn listed<T: View>(result: Result<Vec<T>, Error>) -> Result<Seq<T::V>, Failure> {
    match result {
        Ok(values) => Ok(views(values@)),
        Err(error) => Err(error@),
    }
}

/// What a result is once the wording of error details is set aside.
pub open spec fn outcome<T: View>(result: Result<T, Error>) -> Result<T::V, Failure> {
    match result {
        Ok(value) => Ok(value@),
        Err(error) => Err(error@),
    }
}

/// [`outcome`] for a value that is its own model.
pub open spec fn plain<T>(result: Result<T, Error>) -> Result<T, Failure> {
    match result {
        Ok(value) => Ok(value),
        Err(error) => Err(error@),
    }
}

/// The models of the items of a sequence, in order.
pub open spec fn views<T: View>(items: Seq<T>) -> Seq<T::V> {
    Seq::new(items.len(), |i: int| items[i]@)
}

pub broadcast proof fn views_push<T: View>(items: Seq<T>, item: T)
    ensures
        #[trigger] views(items.push(item)) == views(items).push(item@),
{
    assert(views(items.push(item)) =~= views(items).push(item@));
}

/// The model of an item that may be absent.
pub open spec fn optional<T: View>(item: Option<T>) -> Option<T::V> {
    match item {
        Some(item) => Some(item@),
        None => None,
    }
}

/// The model of a result that may hold nothing.
pub open spec fn optional_outcome<T: View>(result: Result<Option<T>, Error>) -> Result<
    Option<T::V>,
    Failure,
> {
    match result {
        Ok(value) => Ok(optional(value)),
        Err(error) => Err(error@),
    }
}

/// The model of a text that may be absent.
pub open spec fn optional_text(text: Option<String>) -> Option<Seq<char>> {
    match text {
        Some(text) => Some(text@),
        None => None,
    }
}

/// The model of bytes that may be absent.
pub open spec fn optional_bytes(bytes: Option<Vec<u8>>) -> Option<Seq<u8>> {
    match bytes {
        Some(bytes) => Some(bytes@),
        None => None,
    }
}

} // verus!
