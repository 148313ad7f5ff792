//! The `CSFCHUNK` envelope: the root header, top-level chunks, the file header,
//! and the prefix of external chunks.

use vstd::prelude::*;

use crate::error;
use crate::bytes;
use crate::bytes::{copy_bytes, read_be64};
use crate::error::{Error, Failure};
use crate::limits::Limits;

verus! {

/// Size of the root container header in bytes.
pub const ROOT_HEADER_SIZE: u64 = 24;

/// Size of a top-level chunk header in bytes.
pub const CHUNK_HEADER_SIZE: u64 = 16;

/// The signature `CSFCHUNK`.
pub open spec fn root_magic() -> Seq<u8> {
    seq![0x43u8, 0x53, 0x46, 0x43, 0x48, 0x55, 0x4e, 0x4b]
}

/// The tag `CHNKHead`.
pub open spec fn file_header_tag() -> Seq<u8> {
    seq![0x43u8, 0x48, 0x4e, 0x4b, 0x48, 0x65, 0x61, 0x64]
}

/// The tag `CHNKExta`.
pub open spec fn external_tag() -> Seq<u8> {
    seq![0x43u8, 0x48, 0x4e, 0x4b, 0x45, 0x78, 0x74, 0x61]
}

/// The tag `CHNKSQLi`.
pub open spec fn sqlite_tag() -> Seq<u8> {
    seq![0x43u8, 0x48, 0x4e, 0x4b, 0x53, 0x51, 0x4c, 0x69]
}

/// The tag `CHNKFoot`.
pub open spec fn footer_tag() -> Seq<u8> {
    seq![0x43u8, 0x48, 0x4e, 0x4b, 0x46, 0x6f, 0x6f, 0x74]
}

/// The prefix `CHNK` of every chunk tag.
pub open spec fn chunk_prefix() -> Seq<u8> {
    seq![0x43u8, 0x48, 0x4e, 0x4b]
}

/// The root `CSFCHUNK` header.
#[derive(Clone, Copy, Debug, PartialEq, Eq, Structural)]
pub struct RootHeader {
    pub declared_file_size: u64,
    pub first_chunk_offset: u64,
}

impl RootHeader {
    /// File size recorded in the container header.
    #[must_use]
    pub fn declared_file_size(&self) -> (size: u64)
        ensures
            size == self.declared_file_size,
    {
        self.declared_file_size
    }

    /// Absolute offset of the first top-level chunk.
    #[must_use]
    pub fn first_chunk_offset(&self) -> (offset: u64)
        ensures
            offset == self.first_chunk_offset,
    {
        self.first_chunk_offset
    }
}

/// The known kind of a top-level chunk.
#[derive(Clone, Copy, Debug, PartialEq, Eq)]
#[non_exhaustive]
pub enum ChunkKind {
    /// The file metadata header (`CHNKHead`).
    Header,
    /// An external data object (`CHNKExta`).
    External,
    /// The embedded SQLite database (`CHNKSQLi`).
    Sqlite,
    /// The empty terminal chunk (`CHNKFoot`).
    Footer,
    /// A well-formed but currently unknown `CHNKxxxx` tag.
    Other([u8; 8]),
}

/// The kind that a tag stands for.
pub open spec fn kind_of_tag(tag: [u8; 8]) -> ChunkKind {
    if tag@ == file_header_tag() {
        ChunkKind::Header
    } else if tag@ == external_tag() {
        ChunkKind::External
    } else if tag@ == sqlite_tag() {
        ChunkKind::Sqlite
    } else if tag@ == footer_tag() {
        ChunkKind::Footer
    } else {
        ChunkKind::Other(tag)
    }
}

fn same_tag(tag: &[u8; 8], expected: &[u8; 8]) -> (same: bool)
    ensures
        same == (tag@ == expected@),
{
    let mut index: usize = 0;
    while index < 8
        invariant
            index <= 8,
            forall|i: int| 0 <= i < index ==> tag@[i] == expected@[i],
        decreases 8 - index,
    {
        if tag[index] != expected[index] {
            return false;
        }
        index += 1;
    }
    assert(tag@ =~= expected@);
    true
}

impl From<[u8; 8]> for ChunkKind {
    fn from(tag: [u8; 8]) -> (kind: Self) {
        let head: [u8; 8] = [0x43, 0x48, 0x4e, 0x4b, 0x48, 0x65, 0x61, 0x64];
        let external: [u8; 8] = [0x43, 0x48, 0x4e, 0x4b, 0x45, 0x78, 0x74, 0x61];
        let sqlite: [u8; 8] = [0x43, 0x48, 0x4e, 0x4b, 0x53, 0x51, 0x4c, 0x69];
        let footer: [u8; 8] = [0x43, 0x48, 0x4e, 0x4b, 0x46, 0x6f, 0x6f, 0x74];
        proof {
            assert(head@ =~= file_header_tag());
            assert(external@ =~= external_tag());
            assert(sqlite@ =~= sqlite_tag());
            assert(footer@ =~= footer_tag());
        }
        if same_tag(&tag, &head) {
            ChunkKind::Header
        } else if same_tag(&tag, &external) {
            ChunkKind::External
        } else if same_tag(&tag, &sqlite) {
            ChunkKind::Sqlite
        } else if same_tag(&tag, &footer) {
            ChunkKind::Footer
        } else {
            ChunkKind::Other(tag)
        }
    }
}

impl vstd::std_specs::convert::FromSpecImpl<[u8; 8]> for ChunkKind {
    open spec fn obeys_from_spec() -> bool {
        true
    }

    open spec fn from_spec(tag: [u8; 8]) -> ChunkKind {
        kind_of_tag(tag)
    }
}

/// Metadata for one top-level chunk.
#[derive(Clone, Copy, Debug, PartialEq, Eq)]
pub struct ChunkHeader {
    pub tag: [u8; 8],
    pub offset: u64,
    pub payload_offset: u64,
    pub payload_size: u64,
}

/// The model of a [`ChunkHeader`].
pub struct ChunkModel {
    pub tag: Seq<u8>,
    pub offset: u64,
    pub payload_offset: u64,
    pub payload_size: u64,
}

impl View for ChunkHeader {
    type V = ChunkModel;

    open spec fn view(&self) -> ChunkModel {
        ChunkModel {
            tag: self.tag@,
            offset: self.offset,
            payload_offset: self.payload_offset,
            payload_size: self.payload_size,
        }
    }
}

impl ChunkHeader {
    /// The raw 8-byte chunk tag.
    #[must_use]
    pub fn tag(&self) -> (tag: [u8; 8])
        ensures
            tag == self.tag,
    {
        self.tag
    }

    /// The recognized chunk kind.
    #[must_use]
    pub fn kind(&self) -> (kind: ChunkKind)
        ensures
            kind == kind_of_tag(self.tag),
    {
        ChunkKind::from(self.tag)
    }

    /// Absolute offset of the 16-byte chunk header.
    #[must_use]
    pub fn offset(&self) -> (offset: u64)
        ensures
            offset == self.offset,
    {
        self.offset
    }

    /// Absolute offset of the chunk payload.
    #[must_use]
    pub fn payload_offset(&self) -> (offset: u64)
        ensures
            offset == self.payload_offset,
    {
        self.payload_offset
    }

    /// Length of the chunk payload.
    #[must_use]
    pub fn payload_size(&self) -> (size: u64)
        ensures
            size == self.payload_size,
    {
        self.payload_size
    }

    /// Absolute offset just past the payload.
    pub fn end_offset(&self) -> (end: Result<u64, Error>)
        ensures
            error::plain(end) == chunk_end(self@),
    {
        match self.payload_offset.checked_add(self.payload_size) {
            Some(end) => Ok(end),
            None => Err(Error::OffsetOverflow),
        }
    }
}

/// The offset just past a chunk's payload.
pub open spec fn chunk_end(chunk: ChunkModel) -> Result<u64, Failure> {
    if chunk.payload_offset + chunk.payload_size > u64::MAX {
        Err(Failure::OffsetOverflow)
    } else {
        Ok((chunk.payload_offset + chunk.payload_size) as u64)
    }
}

/// Parsed fields from the `CHNKHead` payload.
#[derive(Clone, Debug, PartialEq, Eq)]
pub struct FileHeader {
    pub format_version: u64,
    pub database_offset: u64,
    pub identifier: Vec<u8>,
}

/// The model of a [`FileHeader`].
pub struct FileHeaderModel {
    pub format_version: u64,
    pub database_offset: u64,
    pub identifier: Seq<u8>,
}

impl View for FileHeader {
    type V = FileHeaderModel;

    open spec fn view(&self) -> FileHeaderModel {
        FileHeaderModel {
            format_version: self.format_version,
            database_offset: self.database_offset,
            identifier: self.identifier@,
        }
    }
}

impl FileHeader {
    /// Container format value. All currently analyzed samples use `256`.
    #[must_use]
    pub fn format_version(&self) -> (version: u64)
        ensures
            version == self.format_version,
    {
        self.format_version
    }

    /// Absolute offset of the `CHNKSQLi` chunk header.
    #[must_use]
    pub fn database_offset(&self) -> (offset: u64)
        ensures
            offset == self.database_offset,
    {
        self.database_offset
    }

    /// Opaque file identifier bytes. Current samples contain a 16-byte UUID.
    #[must_use]
    pub fn identifier(&self) -> (identifier: &[u8])
        ensures
            identifier@ == self.identifier@,
    {
        self.identifier.as_slice()
    }
}

/// Parsed prefix of a `CHNKExta` payload.
#[derive(Clone, Debug, PartialEq, Eq)]
pub struct ExternalChunkHeader {
    pub identifier: Vec<u8>,
    pub body_offset: u64,
    pub body_size: u64,
}

/// The model of an [`ExternalChunkHeader`].
pub struct ExternalHeaderModel {
    pub identifier: Seq<u8>,
    pub body_offset: u64,
    pub body_size: u64,
}

impl View for ExternalChunkHeader {
    type V = ExternalHeaderModel;

    open spec fn view(&self) -> ExternalHeaderModel {
        ExternalHeaderModel {
            identifier: self.identifier@,
            body_offset: self.body_offset,
            body_size: self.body_size,
        }
    }
}

impl ExternalChunkHeader {
    /// Opaque external object identifier.
    #[must_use]
    pub fn identifier(&self) -> (identifier: &[u8])
        ensures
            identifier@ == self.identifier@,
    {
        self.identifier.as_slice()
    }

    /// Absolute offset at which the external object's body begins.
    #[must_use]
    pub fn body_offset(&self) -> (offset: u64)
        ensures
            offset == self.body_offset,
    {
        self.body_offset
    }

    /// Length of the external object's body.
    #[must_use]
    pub fn body_size(&self) -> (size: u64)
        ensures
            size == self.body_size,
    {
        self.body_size
    }
}

/// Counts returned after strict top-level validation.
#[derive(Clone, Copy, Debug, PartialEq, Eq, Structural)]
pub struct ValidationSummary {
    pub external_chunks: u64,
    pub database_payload_size: u64,
}

impl ValidationSummary {
    /// Number of external data chunks.
    #[must_use]
    pub fn external_chunks(&self) -> (count: u64)
        ensures
            count == self.external_chunks,
    {
        self.external_chunks
    }

    /// Length of the embedded SQLite database.
    #[must_use]
    pub fn database_payload_size(&self) -> (size: u64)
        ensures
            size == self.database_payload_size,
    {
        self.database_payload_size
    }
}

/// Eight bytes at an offset that may lie past the end.
pub open spec fn number_at(data: Seq<u8>, offset: int) -> Result<u64, Failure> {
    if offset + 8 > data.len() {
        Err(Failure::Io)
    } else {
        Ok(bytes::be64(data, offset) as u64)
    }
}

/// Bytes from an offset on: `size` of them, or as many as the data holds.
pub open spec fn available_bytes(data: Seq<u8>, offset: int, size: int) -> Seq<u8> {
    if offset >= data.len() {
        Seq::empty()
    } else if offset + size <= data.len() {
        data.subrange(offset, offset + size)
    } else {
        data.subrange(offset, data.len() as int)
    }
}

pub fn read_available(data: &[u8], offset: u64, size: u64) -> (bytes: Vec<u8>)
    ensures
        bytes@ == available_bytes(data@, offset as int, size as int),
        bytes@.len() <= size,
{
    let length: u64 = data.len() as u64;
    if offset >= length {
        return Vec::new();
    }
    if size <= length - offset {
        copy_bytes(data, offset as usize, (offset + size) as usize)
    } else {
        copy_bytes(data, offset as usize, data.len())
    }
}

fn read_number(data: &[u8], offset: u64) -> (number: Result<u64, Error>)
    ensures
        error::plain(number) == number_at(data@, offset as int),
{
    let length: u64 = data.len() as u64;
    if length < 8 || offset > length - 8 {
        return Err(Error::unexpected_end());
    }
    Ok(read_be64(data, offset as usize))
}

fn read_tag(data: &[u8], at: usize) -> (tag: [u8; 8])
    requires
        at + 8 <= data@.len(),
    ensures
        tag@ == data@.subrange(at as int, at + 8),
{
    assert(data.len() == data@.len());
    let tag: [u8; 8] = [
        data[at],
        data[at + 1],
        data[at + 2],
        data[at + 3],
        data[at + 4],
        data[at + 5],
        data[at + 6],
        data[at + 7],
    ];
    proof {
        assert(tag@ =~= data@.subrange(at as int, at + 8));
    }
    tag
}

/// The chunk whose header stands at `offset`.
pub open spec fn chunk_at(data: Seq<u8>, offset: int) -> Result<ChunkModel, Failure> {
    if offset + 16 > u64::MAX {
        Err(Failure::OffsetOverflow)
    } else if offset + 16 > data.len() {
        Err(
            Failure::ChunkOutOfBounds {
                offset: offset as u64,
                payload_size: 0,
                file_size: data.len() as u64,
            },
        )
    } else {
        let tag = data.subrange(offset, offset + 8);
        let size = bytes::be64(data, offset + 8);
        if tag.take(4) != chunk_prefix() {
            Err(Failure::InvalidChunkTag { offset: offset as u64, tag })
        } else if offset + 16 + size > u64::MAX {
            Err(Failure::OffsetOverflow)
        } else if offset + 16 + size > data.len() {
            Err(
                Failure::ChunkOutOfBounds {
                    offset: offset as u64,
                    payload_size: size as u64,
                    file_size: data.len() as u64,
                },
            )
        } else {
            Ok(
                ChunkModel {
                    tag,
                    offset: offset as u64,
                    payload_offset: (offset + 16) as u64,
                    payload_size: size as u64,
                },
            )
        }
    }
}

pub fn read_chunk_header(data: &[u8], offset: u64) -> (chunk: Result<ChunkHeader, Error>)
    ensures
        error::outcome(chunk) == chunk_at(data@, offset as int),
{
    let file_size: u64 = data.len() as u64;
    let header_end: u64 = match offset.checked_add(CHUNK_HEADER_SIZE) {
        Some(end) => end,
        None => return Err(Error::OffsetOverflow),
    };
    if header_end > file_size {
        return Err(Error::ChunkOutOfBounds { offset, payload_size: 0, file_size });
    }
    let tag = read_tag(data, offset as usize);
    proof {
        assert(tag@.take(4) =~= seq![tag@[0], tag@[1], tag@[2], tag@[3]]);
        assert(tag@.take(4) == chunk_prefix() <==> tag@[0] == 0x43 && tag@[1] == 0x48 && tag@[2]
            == 0x4e && tag@[3] == 0x4b) by {
            assert(tag@.take(4)[0] == tag@[0] && tag@.take(4)[1] == tag@[1] && tag@.take(4)[2]
                == tag@[2] && tag@.take(4)[3] == tag@[3]);
            if tag@[0] == 0x43 && tag@[1] == 0x48 && tag@[2] == 0x4e && tag@[3] == 0x4b {
                assert(tag@.take(4) =~= chunk_prefix());
            }
        }
    }
    if !(tag[0] == 0x43 && tag[1] == 0x48 && tag[2] == 0x4e && tag[3] == 0x4b) {
        return Err(Error::InvalidChunkTag { offset, tag });
    }
    let payload_size: u64 = read_be64(data, (offset + 8) as usize);
    let payload_end: u64 = match header_end.checked_add(payload_size) {
        Some(end) => end,
        None => return Err(Error::OffsetOverflow),
    };
    if payload_end > file_size {
        return Err(Error::ChunkOutOfBounds { offset, payload_size, file_size });
    }
    Ok(ChunkHeader { tag, offset, payload_offset: header_end, payload_size })
}

/// The fields of the `CHNKHead` payload of `chunk`, a chunk of the same data.
pub open spec fn file_header_of(
    data: Seq<u8>,
    chunk: ChunkModel,
    max_identifier_size: u64,
) -> Result<FileHeaderModel, Failure> {
    let start = chunk.payload_offset as int;
    let size = bytes::be64(data, start + 16);
    if chunk.payload_size < 24 {
        Err(
            Failure::InvalidFileHeader {
                reason: "payload is shorter than the fixed fields"@,
            },
        )
    } else if size > max_identifier_size {
        Err(Failure::InvalidFileHeader { reason: "identifier exceeds the safety limit"@ })
    } else if 24 + size > u64::MAX {
        Err(Failure::OffsetOverflow)
    } else if 24 + size != chunk.payload_size {
        Err(
            Failure::InvalidFileHeader {
                reason: "identifier length does not match payload size"@,
            },
        )
    } else {
        Ok(
            FileHeaderModel {
                format_version: bytes::be64(data, start) as u64,
                database_offset: bytes::be64(data, start + 8) as u64,
                identifier: data.subrange(start + 24, start + 24 + size),
            },
        )
    }
}

fn read_file_header(data: &[u8], chunk: &ChunkHeader, max_identifier_size: u64) -> (header: Result<
    FileHeader,
    Error,
>)
    requires
        chunk.payload_offset + chunk.payload_size <= data@.len(),
    ensures
        error::outcome(header) == file_header_of(data@, chunk@, max_identifier_size),
{
    assert(data.len() == data@.len());
    if chunk.payload_size < 24 {
        return Err(
            Error::InvalidFileHeader { reason: "payload is shorter than the fixed fields" },
        );
    }
    let start: usize = chunk.payload_offset as usize;
    let format_version: u64 = read_be64(data, start);
    let database_offset: u64 = read_be64(data, start + 8);
    let identifier_size: u64 = read_be64(data, start + 16);
    if identifier_size > max_identifier_size {
        return Err(Error::InvalidFileHeader { reason: "identifier exceeds the safety limit" });
    }
    let expected_size: u64 = match identifier_size.checked_add(24) {
        Some(size) => size,
        None => return Err(Error::OffsetOverflow),
    };
    if expected_size != chunk.payload_size {
        return Err(
            Error::InvalidFileHeader { reason: "identifier length does not match payload size" },
        );
    }
    let identifier = copy_bytes(data, start + 24, start + 24 + identifier_size as usize);
    Ok(FileHeader { format_version, database_offset, identifier })
}

/// The root and file headers of a file.
pub open spec fn headers_of(data: Seq<u8>, limits: Limits) -> Result<
    (RootHeader, FileHeaderModel),
    Failure,
> {
    if data.len() < 8 {
        Err(Failure::Io)
    } else if data.take(8) != root_magic() {
        Err(Failure::InvalidMagic { magic: data.take(8) })
    } else if data.len() < 24 {
        Err(Failure::Io)
    } else {
        let declared = bytes::be64(data, 8);
        let first = bytes::be64(data, 16);
        if declared != data.len() {
            Err(
                Failure::FileSizeMismatch { declared: declared as u64, actual: data.len() as u64 },
            )
        } else if first < 24 || first + 16 > data.len() {
            Err(
                Failure::InvalidFirstChunkOffset {
                    offset: first as u64,
                    file_size: data.len() as u64,
                },
            )
        } else {
            match chunk_at(data, first) {
                Err(failure) => Err(failure),
                Ok(chunk) => if chunk.tag != file_header_tag() {
                    Err(Failure::MissingFileHeader)
                } else {
                    match file_header_of(data, chunk, limits.max_identifier_size) {
                        Err(failure) => Err(failure),
                        Ok(header) => Ok(
                            (
                                RootHeader {
                                    declared_file_size: declared as u64,
                                    first_chunk_offset: first as u64,
                                },
                                header,
                            ),
                        ),
                    }
                },
            }
        }
    }
}

/// A CLIP container held in memory.
///
/// Opening validates the root header and parses `CHNKHead`. Use
/// [`ClipFile::chunks`] to scan metadata and [`ClipFile::copy_chunk_payload`] to
/// copy an individual payload out.
pub struct ClipFile {
    pub data: Vec<u8>,
    pub root_header: RootHeader,
    pub file_header: FileHeader,
    pub limits: Limits,
}

/// The opened file that [`headers_of`] describes.
pub open spec fn opened(file: Result<ClipFile, Error>, data: Seq<u8>, limits: Limits) -> bool {
    match (file, headers_of(data, limits)) {
        (Ok(file), Ok((root, header))) => {
            &&& file.data@ == data
            &&& file.root_header == root
            &&& file.file_header@ == header
            &&& file.limits == limits
        },
        (Err(error), Err(failure)) => error@ == failure,
        _ => false,
    }
}

impl ClipFile {
    /// Opens and validates the root and file headers of a file.
    pub fn open(data: Vec<u8>) -> (file: Result<ClipFile, Error>)
        ensures
            opened(file, data@, Limits::standard()),
    {
        ClipFile::open_with_limits(data, Limits::default())
    }

    /// Opens a file with custom parser safety limits.
    pub fn open_with_limits(data: Vec<u8>, limits: Limits) -> (file: Result<ClipFile, Error>)
        ensures
            opened(file, data@, limits),
    {
        let bytes: &[u8] = data.as_slice();
        let actual_size: u64 = bytes.len() as u64;
        if bytes.len() < 8 {
            return Err(Error::unexpected_end());
        }
        let magic = read_tag(bytes, 0);
        let expected: [u8; 8] = [0x43, 0x53, 0x46, 0x43, 0x48, 0x55, 0x4e, 0x4b];
        proof {
            assert(expected@ =~= root_magic());
            assert(magic@ =~= data@.take(8));
        }
        if !same_tag(&magic, &expected) {
            return Err(Error::InvalidMagic(magic));
        }
        if bytes.len() < 24 {
            return Err(Error::unexpected_end());
        }
        let declared_file_size: u64 = read_be64(bytes, 8);
        let first_chunk_offset: u64 = read_be64(bytes, 16);
        if declared_file_size != actual_size {
            return Err(
                Error::FileSizeMismatch { declared: declared_file_size, actual: actual_size },
            );
        }
        let in_range: bool = match first_chunk_offset.checked_add(CHUNK_HEADER_SIZE) {
            Some(minimum_end) => minimum_end <= actual_size,
            None => false,
        };
        if first_chunk_offset < ROOT_HEADER_SIZE || !in_range {
            return Err(
                Error::InvalidFirstChunkOffset {
                    offset: first_chunk_offset,
                    file_size: actual_size,
                },
            );
        }
        let root_header = RootHeader { declared_file_size, first_chunk_offset };
        let header_chunk = match read_chunk_header(bytes, first_chunk_offset) {
            Ok(chunk) => chunk,
            Err(error) => return Err(error),
        };
        let head: [u8; 8] = [0x43, 0x48, 0x4e, 0x4b, 0x48, 0x65, 0x61, 0x64];
        proof {
            assert(head@ =~= file_header_tag());
        }
        if !same_tag(&header_chunk.tag, &head) {
            return Err(Error::MissingFileHeader);
        }
        let file_header = match read_file_header(
            bytes,
            &header_chunk,
            limits.max_identifier_size(),
        ) {
            Ok(header) => header,
            Err(error) => return Err(error),
        };
        Ok(ClipFile { data, root_header, file_header, limits })
    }

    /// Returns the root container header.
    #[must_use]
    pub fn root_header(&self) -> (header: &RootHeader)
        ensures
            *header == self.root_header,
    {
        &self.root_header
    }

    /// Returns the parsed `CHNKHead` payload.
    #[must_use]
    pub fn file_header(&self) -> (header: &FileHeader)
        ensures
            *header == self.file_header,
    {
        &self.file_header
    }

    /// Returns the active parser safety limits.
    #[must_use]
    pub fn limits(&self) -> (limits: Limits)
        ensures
            limits == self.limits,
    {
        self.limits
    }

    /// Length of the file.
    #[must_use]
    pub fn file_size(&self) -> (size: u64)
        ensures
            size == self.data@.len(),
    {
        self.data.len() as u64
    }

    /// Returns the bytes of the file.
    #[must_use]
    pub fn into_inner(self) -> (data: Vec<u8>)
        ensures
            data == self.data,
    {
        self.data
    }
}

} // verus!
