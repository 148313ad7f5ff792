//! Scanning, copying, and validating the top-level chunks of a file.

use vstd::prelude::*;

use crate::error;
use crate::container;
use crate::bytes;
use crate::bytes::{copy_bytes, push_bytes, read_be64};
use crate::container::{read_available, read_chunk_header, ChunkHeader, ChunkKind, ChunkModel, ClipFile, ExternalChunkHeader, ExternalHeaderModel, ValidationSummary};
use crate::error::{Error, Failure};
use crate::limits::Limits;

verus! {

/// Where a scan over the top-level chunks stands.
pub struct ScanModel {
    pub next_offset: Option<u64>,
    pub chunks_seen: u64,
}

/// What one step of a scan gives, and where the scan stands after it.
pub open spec fn scan_step(data: Seq<u8>, max_chunks: u64, scan: ScanModel) -> (
    Option<Result<ChunkModel, Failure>>,
    ScanModel,
) {
    let stopped = ScanModel { next_offset: None, ..scan };
    match scan.next_offset {
        None => (None, scan),
        Some(offset) => if offset == data.len() {
            (None, stopped)
        } else if scan.chunks_seen >= max_chunks {
            (
                Some(
                    Err(
                        Failure::LimitExceeded {
                            resource: "top-level chunk count"@,
                            value: if scan.chunks_seen == u64::MAX {
                                u64::MAX
                            } else {
                                (scan.chunks_seen + 1) as u64
                            },
                            limit: max_chunks,
                        },
                    ),
                ),
                stopped,
            )
        } else {
            match container::chunk_at(data, offset as int) {
                Err(failure) => (Some(Err(failure)), stopped),
                Ok(chunk) => (
                    Some(Ok(chunk)),
                    ScanModel {
                        next_offset: Some((chunk.payload_offset + chunk.payload_size) as u64),
                        chunks_seen: (scan.chunks_seen + 1) as u64,
                    },
                ),
            }
        },
    }
}

/// Iterator over top-level chunk headers.
pub struct ChunkIter<'a> {
    pub data: &'a [u8],
    pub next_offset: Option<u64>,
    pub chunks_seen: u64,
    pub max_chunks: u64,
}

impl<'a> View for ChunkIter<'a> {
    type V = ScanModel;

    open spec fn view(&self) -> ScanModel {
        ScanModel { next_offset: self.next_offset, chunks_seen: self.chunks_seen }
    }
}

/// The model of one item of a scan.
pub open spec fn item_model(item: Option<Result<ChunkHeader, Error>>) -> Option<
    Result<ChunkModel, Failure>,
> {
    match item {
        None => None,
        Some(result) => Some(error::outcome(result)),
    }
}

impl<'a> ChunkIter<'a> {
    /// The next chunk header, or the error at which the scan stopped.
    pub fn next(&mut self) -> (item: Option<Result<ChunkHeader, Error>>)
        ensures
            (item_model(item), final(self)@) == scan_step(
                old(self).data@,
                old(self).max_chunks,
                old(self)@,
            ),
            final(self).data == old(self).data,
            final(self).max_chunks == old(self).max_chunks,
    {
        let offset: u64 = match self.next_offset {
            Some(offset) => offset,
            None => return None,
        };
        if offset == self.data.len() as u64 {
            self.next_offset = None;
            return None;
        }
        if self.chunks_seen >= self.max_chunks {
            self.next_offset = None;
            let value: u64 = self.chunks_seen.saturating_add(1);
            return Some(Err(Error::limit("top-level chunk count", value, self.max_chunks)));
        }
        match read_chunk_header(self.data, offset) {
            Ok(chunk) => {
                self.next_offset = Some(chunk.payload_offset + chunk.payload_size);
                self.chunks_seen = self.chunks_seen + 1;
                Some(Ok(chunk))
            },
            Err(error) => {
                self.next_offset = None;
                Some(Err(error))
            },
        }
    }
}

/// Every chunk of a scan from `at` on, after the chunks `found` before it.
pub open spec fn chunks_from(
    data: Seq<u8>,
    max_chunks: u64,
    at: int,
    found: Seq<ChunkModel>,
) -> Result<Seq<ChunkModel>, Failure>
    decreases data.len() - at,
    when 0 <= at
{
    if at == data.len() {
        Ok(found)
    } else if found.len() >= max_chunks {
        Err(
            Failure::LimitExceeded {
                resource: "top-level chunk count"@,
                value: if found.len() >= u64::MAX {
                    u64::MAX
                } else {
                    (found.len() + 1) as u64
                },
                limit: max_chunks,
            },
        )
    } else {
        match container::chunk_at(data, at) {
            Err(failure) => Err(failure),
            Ok(chunk) => chunks_from(
                data,
                max_chunks,
                chunk.payload_offset + chunk.payload_size,
                found.push(chunk),
            ),
        }
    }
}

/// Every top-level chunk of a file, in order.
pub open spec fn file_chunks(file: ClipFile) -> Result<Seq<ChunkModel>, Failure> {
    chunks_from(
        file.data@,
        file.limits.max_top_level_chunks,
        file.root_header.first_chunk_offset as int,
        Seq::empty(),
    )
}

/// The parsed prefix of an external chunk.
pub open spec fn external_header_of(
    data: Seq<u8>,
    chunk: ChunkModel,
    max_identifier_size: u64,
) -> Result<ExternalHeaderModel, Failure> {
    let start = chunk.payload_offset as int;
    if chunk.tag != container::external_tag() {
        Err(Failure::UnexpectedChunk { expected: "CHNKExta"@, actual: chunk.tag })
    } else if start + 8 > data.len() {
        Err(Failure::Io)
    } else {
        let size = bytes::be64(data, start);
        if size > max_identifier_size {
            Err(
                Failure::InvalidExternalChunk {
                    reason: "external identifier exceeds the safety limit"@,
                },
            )
        } else if 16 + size > u64::MAX {
            Err(Failure::OffsetOverflow)
        } else if 16 + size > chunk.payload_size {
            Err(
                Failure::InvalidExternalChunk {
                    reason: "external identifier exceeds chunk payload"@,
                },
            )
        } else if size > usize::MAX {
            Err(
                Failure::InvalidFileHeader {
                    reason: "byte string is too large for this platform"@,
                },
            )
        } else if start + 16 + size > data.len() {
            Err(Failure::Io)
        } else {
            let body_size = bytes::be64(data, start + 8 + size);
            if 16 + size + body_size > u64::MAX {
                Err(Failure::OffsetOverflow)
            } else if 16 + size + body_size != chunk.payload_size {
                Err(
                    Failure::InvalidExternalChunk {
                        reason: "external body size does not match chunk payload"@,
                    },
                )
            } else if start + 16 + size > u64::MAX {
                Err(Failure::OffsetOverflow)
            } else {
                Ok(
                    ExternalHeaderModel {
                        identifier: data.subrange(start + 8, start + 8 + size),
                        body_offset: (start + 16 + size) as u64,
                        body_size: body_size as u64,
                    },
                )
            }
        }
    }
}

/// A payload read whole, or the reason why it cannot be.
pub open spec fn payload_of(data: Seq<u8>, chunk: ChunkModel) -> Result<Seq<u8>, Failure> {
    let bytes = container::available_bytes(
        data,
        chunk.payload_offset as int,
        chunk.payload_size as int,
    );
    if bytes.len() != chunk.payload_size {
        Err(
            Failure::ChunkOutOfBounds {
                offset: chunk.offset,
                payload_size: chunk.payload_size,
                file_size: data.len() as u64,
            },
        )
    } else {
        Ok(bytes)
    }
}

/// How far strict validation of the chunk sequence has come.
pub struct SequenceModel {
    pub external_chunks: u64,
    pub database_payload_size: Option<u64>,
    pub saw_footer: bool,
}

/// The next stage of the accepted order when `chunk` comes next.
pub open spec fn sequence_step(
    sequence: SequenceModel,
    chunk: ChunkModel,
    database_offset: u64,
    max_database_size: u64,
    file_size: int,
) -> Result<SequenceModel, Failure> {
    if chunk.tag == container::external_tag() && sequence.database_payload_size is None {
        if sequence.external_chunks == u64::MAX {
            Err(Failure::OffsetOverflow)
        } else {
            Ok(
                SequenceModel {
                    external_chunks: (sequence.external_chunks + 1) as u64,
                    ..sequence
                },
            )
        }
    } else if chunk.tag == container::sqlite_tag() && sequence.database_payload_size is None {
        if chunk.payload_size > max_database_size {
            Err(
                Failure::LimitExceeded {
                    resource: "SQLite payload size"@,
                    value: chunk.payload_size,
                    limit: max_database_size,
                },
            )
        } else if chunk.offset != database_offset {
            Err(
                Failure::InvalidChunkSequence {
                    reason: "SQLite offset does not match CHNKHead"@,
                },
            )
        } else {
            Ok(SequenceModel { database_payload_size: Some(chunk.payload_size), ..sequence })
        }
    } else if chunk.tag == container::footer_tag() && sequence.database_payload_size is Some
        && !sequence.saw_footer {
        if chunk.payload_size != 0 || chunk.payload_offset + chunk.payload_size != file_size {
            Err(
                Failure::InvalidChunkSequence {
                    reason: "footer must be empty and terminate the file"@,
                },
            )
        } else {
            Ok(SequenceModel { saw_footer: true, ..sequence })
        }
    } else {
        Err(Failure::InvalidChunkSequence { reason: "unexpected chunk kind or order"@ })
    }
}

/// The outcome of strict validation of the chunks from `at` on.
pub open spec fn sequence_from(
    data: Seq<u8>,
    limits: Limits,
    database_offset: u64,
    at: int,
    chunks_seen: u64,
    sequence: SequenceModel,
) -> Result<ValidationSummary, Failure>
    decreases data.len() - at,
    when 0 <= at
{
    if at == data.len() {
        match sequence.database_payload_size {
            Some(size) if sequence.saw_footer => Ok(
                ValidationSummary {
                    external_chunks: sequence.external_chunks,
                    database_payload_size: size,
                },
            ),
            _ => Err(
                Failure::InvalidChunkSequence { reason: "missing SQLite chunk or footer"@ },
            ),
        }
    } else if chunks_seen >= limits.max_top_level_chunks {
        Err(
            Failure::LimitExceeded {
                resource: "top-level chunk count"@,
                value: if chunks_seen == u64::MAX {
                    u64::MAX
                } else {
                    (chunks_seen + 1) as u64
                },
                limit: limits.max_top_level_chunks,
            },
        )
    } else {
        match container::chunk_at(data, at) {
            Err(failure) => Err(failure),
            Ok(chunk) => match sequence_step(
                sequence,
                chunk,
                database_offset,
                limits.max_database_size,
                data.len() as int,
            ) {
                Err(failure) => Err(failure),
                Ok(next) => sequence_from(
                    data,
                    limits,
                    database_offset,
                    chunk.payload_offset + chunk.payload_size,
                    (chunks_seen + 1) as u64,
                    next,
                ),
            },
        }
    }
}

/// The outcome of strict validation of a file.
pub open spec fn validation_of(file: ClipFile) -> Result<ValidationSummary, Failure> {
    let first = file.root_header.first_chunk_offset as int;
    let start = SequenceModel {
        external_chunks: 0,
        database_payload_size: None,
        saw_footer: false,
    };
    match scan_step(
        file.data@,
        file.limits.max_top_level_chunks,
        ScanModel { next_offset: Some(first as u64), chunks_seen: 0 },
    ).0 {
        None => Err(Failure::MissingFileHeader),
        Some(Err(failure)) => Err(failure),
        Some(Ok(chunk)) => if chunk.tag != container::file_header_tag() {
            Err(Failure::MissingFileHeader)
        } else {
            sequence_from(
                file.data@,
                file.limits,
                file.file_header.database_offset,
                chunk.payload_offset + chunk.payload_size,
                1,
                start,
            )
        },
    }
}

impl ClipFile {
    /// Returns an iterator over top-level chunk headers.
    pub fn chunks(&self) -> (chunks: ChunkIter<'_>)
        ensures
            chunks.data@ == self.data@,
            chunks.max_chunks == self.limits.max_top_level_chunks,
            chunks@ == (ScanModel {
                next_offset: Some(self.root_header.first_chunk_offset),
                chunks_seen: 0,
            }),
    {
        ChunkIter {
            data: self.data.as_slice(),
            next_offset: Some(self.root_header.first_chunk_offset),
            chunks_seen: 0,
            max_chunks: self.limits.max_top_level_chunks(),
        }
    }

    /// Every top-level chunk header in file order.
    pub fn chunk_headers(&self) -> (chunks: Result<Vec<ChunkHeader>, Error>)
        ensures
            match chunks {
                Ok(chunks) => file_chunks(*self) == Ok::<Seq<ChunkModel>, Failure>(
                    error::views(chunks@),
                ),
                Err(error) => file_chunks(*self) == Err::<Seq<ChunkModel>, Failure>(error@),
            },
    {
        let mut scan = self.chunks();
        let mut chunks: Vec<ChunkHeader> = Vec::new();
        let ghost start = file_chunks(*self);
        proof {
            assert(error::views(chunks@) =~= Seq::empty());
        }
        loop
            invariant
                scan.data@ == self.data@,
                scan.max_chunks == self.limits.max_top_level_chunks,
                scan.chunks_seen == chunks@.len(),
                scan.next_offset matches Some(at) && start == chunks_from(
                    self.data@,
                    scan.max_chunks,
                    at as int,
                    error::views(chunks@),
                ),
                start == file_chunks(*self),
            decreases self.data@.len() - scan.next_offset.unwrap(),
        {
            let ghost at = scan.next_offset.unwrap();
            match scan.next() {
                None => return Ok(chunks),
                Some(Err(error)) => return Err(error),
                Some(Ok(chunk)) => {
                    proof {
                        error::views_push(chunks@, chunk);
                    }
                    chunks.push(chunk);
                },
            }
        }
    }

    /// The chunk whose header stands at `offset`.
    pub fn chunk_at_offset(&self, offset: u64) -> (chunk: Result<ChunkHeader, Error>)
        ensures
            error::outcome(chunk) == container::chunk_at(self.data@, offset as int),
    {
        read_chunk_header(self.data.as_slice(), offset)
    }

    /// Parses the internal prefix of an external chunk.
    pub fn external_chunk_header(&self, chunk: &ChunkHeader) -> (header: Result<
        ExternalChunkHeader,
        Error,
    >)
        ensures
            error::outcome(header) == external_header_of(
                self.data@,
                chunk@,
                self.limits.max_identifier_size,
            ),
    {
        let data: &[u8] = self.data.as_slice();
        let length: u64 = data.len() as u64;
        match chunk.kind() {
            ChunkKind::External => {},
            _ => {
                return Err(Error::UnexpectedChunk { expected: "CHNKExta", actual: chunk.tag });
            },
        }
        let start: u64 = chunk.payload_offset;
        if length < 8 || start > length - 8 {
            return Err(Error::unexpected_end());
        }
        let identifier_size: u64 = read_be64(data, start as usize);
        if identifier_size > self.limits.max_identifier_size() {
            return Err(
                Error::InvalidExternalChunk {
                    reason: "external identifier exceeds the safety limit",
                },
            );
        }
        let prefix_size: u64 = match identifier_size.checked_add(16) {
            Some(size) => size,
            None => return Err(Error::OffsetOverflow),
        };
        if prefix_size > chunk.payload_size {
            return Err(
                Error::InvalidExternalChunk {
                    reason: "external identifier exceeds chunk payload",
                },
            );
        }
        if identifier_size > usize::MAX as u64 {
            return Err(
                Error::InvalidFileHeader { reason: "byte string is too large for this platform" },
            );
        }
        if prefix_size > length - start {
            return Err(Error::unexpected_end());
        }
        let identifier_start: usize = start as usize + 8;
        let identifier_end: usize = identifier_start + identifier_size as usize;
        let identifier = copy_bytes(data, identifier_start, identifier_end);
        let body_size: u64 = read_be64(data, identifier_end);
        let total: u64 = match prefix_size.checked_add(body_size) {
            Some(total) => total,
            None => return Err(Error::OffsetOverflow),
        };
        if total != chunk.payload_size {
            return Err(
                Error::InvalidExternalChunk {
                    reason: "external body size does not match chunk payload",
                },
            );
        }
        let body_offset: u64 = match start.checked_add(prefix_size) {
            Some(offset) => offset,
            None => return Err(Error::OffsetOverflow),
        };
        Ok(ExternalChunkHeader { identifier, body_offset, body_size })
    }

    /// Reads a complete chunk payload after enforcing an allocation limit.
    pub fn read_chunk_payload(&self, chunk: &ChunkHeader, limit: u64) -> (payload: Result<
        Vec<u8>,
        Error,
    >)
        ensures
            error::outcome(payload)
                == if chunk.payload_size > limit || chunk.payload_size > usize::MAX {
                Err::<Seq<u8>, Failure>(
                    Failure::PayloadTooLarge { size: chunk.payload_size, limit },
                )
            } else {
                payload_of(self.data@, chunk@)
            },
    {
        if chunk.payload_size > limit || chunk.payload_size > usize::MAX as u64 {
            return Err(Error::PayloadTooLarge { size: chunk.payload_size, limit });
        }
        let data = read_available(self.data.as_slice(), chunk.payload_offset, chunk.payload_size);
        if data.len() as u64 != chunk.payload_size {
            return Err(
                Error::ChunkOutOfBounds {
                    offset: chunk.offset,
                    payload_size: chunk.payload_size,
                    file_size: self.file_size(),
                },
            );
        }
        Ok(data)
    }

    /// Appends a complete chunk payload to `writer` and returns its length. When
    /// the file ends inside the payload, the bytes up to the end are appended
    /// before the error is returned.
    pub fn copy_chunk_payload(&self, chunk: &ChunkHeader, writer: &mut Vec<u8>) -> (copied: Result<
        u64,
        Error,
    >)
        ensures
            final(writer)@ == old(writer)@ + container::available_bytes(
                self.data@,
                chunk.payload_offset as int,
                chunk.payload_size as int,
            ),
            match payload_of(self.data@, chunk@) {
                Ok(bytes) => error::plain(copied) == Ok::<u64, Failure>(chunk.payload_size),
                Err(failure) => error::plain(copied) == Err::<u64, Failure>(failure),
            },
    {
        let data = read_available(self.data.as_slice(), chunk.payload_offset, chunk.payload_size);
        push_bytes(writer, data.as_slice());
        if data.len() as u64 != chunk.payload_size {
            return Err(
                Error::ChunkOutOfBounds {
                    offset: chunk.offset,
                    payload_size: chunk.payload_size,
                    file_size: self.file_size(),
                },
            );
        }
        Ok(chunk.payload_size)
    }

    /// Strictly validates the known top-level sequence.
    ///
    /// The accepted order is one header, zero or more external chunks, one
    /// SQLite chunk at the offset declared by `CHNKHead`, and one empty footer.
    pub fn validate(&self) -> (summary: Result<ValidationSummary, Error>)
        ensures
            error::plain(summary) == validation_of(*self),
    {
        let database_offset: u64 = self.file_header.database_offset;
        let file_size: u64 = self.file_size();
        let max_database_size: u64 = self.limits.max_database_size();
        let mut chunks = self.chunks();
        let first = match chunks.next() {
            None => return Err(Error::MissingFileHeader),
            Some(Err(error)) => return Err(error),
            Some(Ok(chunk)) => chunk,
        };
        match first.kind() {
            ChunkKind::Header => {},
            _ => return Err(Error::MissingFileHeader),
        }
        let mut external_chunks: u64 = 0;
        let mut database_payload_size: Option<u64> = None;
        let mut saw_footer: bool = false;
        let ghost whole = validation_of(*self);
        loop
            invariant
                database_offset == self.file_header.database_offset,
                file_size == self.data@.len(),
                max_database_size == self.limits.max_database_size,
                chunks.data@ == self.data@,
                chunks.max_chunks == self.limits.max_top_level_chunks,
                chunks.next_offset is Some,
                saw_footer ==> database_payload_size is Some,
                whole == validation_of(*self),
                whole == sequence_from(
                    self.data@,
                    self.limits,
                    database_offset,
                    chunks.next_offset.unwrap() as int,
                    chunks.chunks_seen,
                    SequenceModel { external_chunks, database_payload_size, saw_footer },
                ),
            decreases self.data@.len() - chunks.next_offset.unwrap(),
        {
            let chunk = match chunks.next() {
                None => {
                    if !saw_footer {
                        return Err(
                            Error::InvalidChunkSequence {
                                reason: "missing SQLite chunk or footer",
                            },
                        );
                    }
                    return match database_payload_size {
                        Some(size) => Ok(
                            ValidationSummary { external_chunks, database_payload_size: size },
                        ),
                        None => Err(
                            Error::InvalidChunkSequence {
                                reason: "missing SQLite chunk or footer",
                            },
                        ),
                    };
                },
                Some(Err(error)) => return Err(error),
                Some(Ok(chunk)) => chunk,
            };
            match chunk.kind() {
                ChunkKind::External if database_payload_size.is_none() => {
                    external_chunks = match external_chunks.checked_add(1) {
                        Some(count) => count,
                        None => return Err(Error::OffsetOverflow),
                    };
                },
                ChunkKind::Sqlite if database_payload_size.is_none() => {
                    if chunk.payload_size > max_database_size {
                        return Err(
                            Error::limit(
                                "SQLite payload size",
                                chunk.payload_size,
                                max_database_size,
                            ),
                        );
                    }
                    if chunk.offset != database_offset {
                        return Err(
                            Error::InvalidChunkSequence {
                                reason: "SQLite offset does not match CHNKHead",
                            },
                        );
                    }
                    database_payload_size = Some(chunk.payload_size);
                },
                ChunkKind::Footer if database_payload_size.is_some() && !saw_footer => {
                    let end: u64 = match chunk.end_offset() {
                        Ok(end) => end,
                        Err(error) => return Err(error),
                    };
                    if chunk.payload_size != 0 || end != file_size {
                        return Err(
                            Error::InvalidChunkSequence {
                                reason: "footer must be empty and terminate the file",
                            },
                        );
                    }
                    saw_footer = true;
                },
                _ => {
                    return Err(
                        Error::InvalidChunkSequence { reason: "unexpected chunk kind or order" },
                    );
                },
            }
        }
    }
}

/// Whether chunks follow one another without a gap from `start` to `end`.
pub open spec fn contiguous(chunks: Seq<ChunkModel>, start: int, end: int) -> bool {
    &&& chunks.len() == 0 ==> start == end
    &&& chunks.len() > 0 ==> chunks[0].offset == start && chunks.last().payload_offset
        + chunks.last().payload_size == end
    &&& forall|i: int|
        0 <= i < chunks.len() ==> (#[trigger] chunks[i]).payload_offset == chunks[i].offset + 16
    &&& forall|i: int, j: int|
        0 <= i && j == i + 1 && j < chunks.len() ==> (#[trigger] chunks[j]).offset == (
        #[trigger] chunks[i]).payload_offset + chunks[i].payload_size
}

proof fn lemma_chunks_from(data: Seq<u8>, max_chunks: u64, at: int, found: Seq<ChunkModel>)
    requires
        0 <= at,
        chunks_from(data, max_chunks, at, found) is Ok,
        found.len() <= max_chunks,
    ensures
        ({
            let all = chunks_from(data, max_chunks, at, found)->Ok_0;
            &&& found.len() <= all.len() <= max_chunks
            &&& all.take(found.len() as int) == found
            &&& contiguous(all.skip(found.len() as int), at, data.len() as int)
        }),
    decreases data.len() - at,
{
    let all = chunks_from(data, max_chunks, at, found)->Ok_0;
    let n = found.len() as int;
    if at == data.len() {
        assert(all.take(n) =~= found);
        assert(all.skip(n).len() == 0);
    } else {
        let chunk = container::chunk_at(data, at)->Ok_0;
        let next = chunk.payload_offset + chunk.payload_size;
        lemma_chunks_from(data, max_chunks, next, found.push(chunk));
        let rest = all.skip(n + 1);
        let whole = all.skip(n);
        assert(all.take(n + 1) == found.push(chunk));
        assert(all[n] == all.take(n + 1)[n]);
        assert(all.take(n) =~= found) by {
            assert forall|i: int| 0 <= i < n implies all[i] == found[i] by {
                assert(all.take(n + 1)[i] == found.push(chunk)[i]);
            }
        }
        assert(whole[0] == chunk);
        assert forall|i: int| 0 <= i < rest.len() implies whole[i + 1] == rest[i] by {}
        assert forall|i: int| 0 <= i < whole.len() implies (#[trigger] whole[i]).payload_offset
            == whole[i].offset + 16 by {
            if i > 0 {
                assert(whole[i] == rest[i - 1]);
            }
        }
        assert forall|i: int, j: int| 0 <= i && j == i + 1 && j < whole.len() implies (
        #[trigger] whole[j]).offset == (#[trigger] whole[i]).payload_offset
            + whole[i].payload_size by {
            assert(whole[j] == rest[i]);
            if i > 0 {
                assert(whole[i] == rest[i - 1]);
            }
        }
        if rest.len() > 0 {
            assert(whole.last() == rest.last());
        }
    }
}

/// The top-level chunks of a file follow one another without a gap, from the
/// declared first chunk to the end of the file.
pub proof fn chunks_cover_the_file(file: ClipFile)
    requires
        file_chunks(file) is Ok,
    ensures
        file_chunks(file)->Ok_0.len() <= file.limits.max_top_level_chunks,
        contiguous(
            file_chunks(file)->Ok_0,
            file.root_header.first_chunk_offset as int,
            file.data@.len() as int,
        ),
{
    let all = file_chunks(file)->Ok_0;
    lemma_chunks_from(
        file.data@,
        file.limits.max_top_level_chunks,
        file.root_header.first_chunk_offset as int,
        Seq::empty(),
    );
    assert(all.skip(0) =~= all);
}

/// Whether the chunks from index `from` on are external chunks, then one SQLite
/// chunk at the declared offset and within its limit, then one empty footer.
pub open spec fn known_tail(
    chunks: Seq<ChunkModel>,
    from: int,
    database_offset: u64,
    max_database_size: u64,
) -> bool {
    let n = chunks.len() as int;
    &&& from + 2 <= n
    &&& forall|i: int| from <= i < n - 2 ==> (#[trigger] chunks[i]).tag == container::external_tag()
    &&& chunks[n - 2].tag == container::sqlite_tag()
    &&& chunks[n - 2].offset == database_offset
    &&& chunks[n - 2].payload_size <= max_database_size
    &&& chunks[n - 1].tag == container::footer_tag()
    &&& chunks[n - 1].payload_size == 0
}

proof fn lemma_tags_differ()
    ensures
        container::external_tag() != container::sqlite_tag(),
        container::external_tag() != container::footer_tag(),
        container::sqlite_tag() != container::footer_tag(),
{
    assert(container::external_tag()[4] == 0x45);
    assert(container::sqlite_tag()[4] == 0x53);
    assert(container::footer_tag()[4] == 0x46);
}

proof fn lemma_sequence(
    data: Seq<u8>,
    limits: Limits,
    database_offset: u64,
    at: int,
    found: Seq<ChunkModel>,
    sequence: SequenceModel,
)
    requires
        0 <= at,
        chunks_from(data, limits.max_top_level_chunks, at, found) is Ok,
        found.len() <= limits.max_top_level_chunks,
        !sequence.saw_footer,
        sequence.external_chunks <= found.len(),
        sequence.database_payload_size is Some ==> found.len() >= 1,
    ensures
        ({
            let all = chunks_from(data, limits.max_top_level_chunks, at, found)->Ok_0;
            let n = all.len() as int;
            let result = sequence_from(
                data,
                limits,
                database_offset,
                at,
                found.len() as u64,
                sequence,
            );
            match sequence.database_payload_size {
                None => {
                    &&& result is Ok <==> known_tail(
                        all,
                        found.len() as int,
                        database_offset,
                        limits.max_database_size,
                    )
                    &&& result is Ok ==> result->Ok_0.external_chunks == sequence.external_chunks
                        + n - 2 - found.len() && result->Ok_0.database_payload_size == all[n
                        - 2].payload_size
                },
                Some(size) => {
                    &&& result is Ok <==> n == found.len() + 1 && all[n - 1].tag
                        == container::footer_tag() && all[n - 1].payload_size == 0
                    &&& result is Ok ==> result->Ok_0.external_chunks == sequence.external_chunks
                        && result->Ok_0.database_payload_size == size
                },
            }
        }),
    decreases data.len() - at,
{
    lemma_tags_differ();
    lemma_chunks_from(data, limits.max_top_level_chunks, at, found);
    let all = chunks_from(data, limits.max_top_level_chunks, at, found)->Ok_0;
    let n = all.len() as int;
    let k = found.len() as int;
    if at == data.len() {
    } else {
        let chunk = container::chunk_at(data, at)->Ok_0;
        let next = chunk.payload_offset + chunk.payload_size;
        lemma_chunks_from(data, limits.max_top_level_chunks, next, found.push(chunk));
        assert(all.take(k + 1)[k] == found.push(chunk)[k]);
        assert(all[k] == chunk);
        let step = sequence_step(
            sequence,
            chunk,
            database_offset,
            limits.max_database_size,
            data.len() as int,
        );
        if step is Ok {
            let after = step->Ok_0;
            if after.saw_footer {
                assert(next == data.len());
                assert(n == k + 1);
            } else {
                lemma_sequence(data, limits, database_offset, next, found.push(chunk), after);
                if sequence.database_payload_size is None && chunk.tag
                    == container::external_tag() {
                    assert(known_tail(all, k, database_offset, limits.max_database_size)
                        <==> known_tail(all, k + 1, database_offset, limits.max_database_size));
                }
            }
        } else {
            if sequence.database_payload_size is Some && n == k + 1 && chunk.tag
                == container::footer_tag() {
                assert(contiguous(all.skip(k), at, data.len() as int));
                assert(all.skip(k).last() == chunk);
            }
        }
    }
}

/// Validation accepts exactly the known order of chunks: one header, zero or
/// more external chunks, one SQLite chunk at the offset that `CHNKHead` declares
/// and within its size limit, and one empty footer. Its summary counts the
/// external chunks and gives the size of the database.
pub proof fn validation_accepts_the_known_order(file: ClipFile)
    requires
        file_chunks(file) is Ok,
    ensures
        ({
            let chunks = file_chunks(file)->Ok_0;
            let n = chunks.len() as int;
            &&& validation_of(file) is Ok <==> n >= 1 && chunks[0].tag
                == container::file_header_tag() && known_tail(
                chunks,
                1,
                file.file_header.database_offset,
                file.limits.max_database_size,
            )
            &&& validation_of(file) is Ok ==> validation_of(file)->Ok_0.external_chunks == n - 3
                && validation_of(file)->Ok_0.database_payload_size == chunks[n - 2].payload_size
        }),
{
    let chunks = file_chunks(file)->Ok_0;
    let at = file.root_header.first_chunk_offset as int;
    let empty = Seq::<ChunkModel>::empty();
    let max_chunks = file.limits.max_top_level_chunks;
    chunks_cover_the_file(file);
    if at != file.data@.len() && max_chunks > 0 {
        let chunk = container::chunk_at(file.data@, at)->Ok_0;
        let next = chunk.payload_offset + chunk.payload_size;
        let start = SequenceModel {
            external_chunks: 0,
            database_payload_size: None,
            saw_footer: false,
        };
        lemma_chunks_from(file.data@, max_chunks, next, empty.push(chunk));
        assert(chunks.take(1)[0] == empty.push(chunk)[0]);
        assert(chunks[0] == chunk);
        lemma_sequence(
            file.data@,
            file.limits,
            file.file_header.database_offset,
            next,
            empty.push(chunk),
            start,
        );
    }
}

} // verus!
