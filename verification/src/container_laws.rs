//! Files as bytes, and what reading gives back of them.

use vstd::prelude::*;

use crate::bytes;
use crate::container;
use crate::container::{ChunkModel, ExternalHeaderModel, FileHeaderModel, RootHeader};
use crate::error::Failure;
use crate::external;
use crate::external::{ByteOrder, ExternalBody};
use crate::layout;
use crate::layout::{holds, laid_out, word32, word32_reversed, word64};
use crate::limits::Limits;
use crate::scan;

verus! {

/// Whether bytes spell a text of ASCII characters.
pub open spec fn spells(data: Seq<u8>, text: Seq<char>) -> bool {
    data.len() == text.len() && forall|i: int|
        0 <= i < data.len() ==> #[trigger] data[i] == text[i] as u32
}

proof fn eight_characters(data: Seq<u8>, text: Seq<char>)
    requires
        data.len() == 8,
        text.len() == 8,
        data[0] == text[0] as u32,
        data[1] == text[1] as u32,
        data[2] == text[2] as u32,
        data[3] == text[3] as u32,
        data[4] == text[4] as u32,
        data[5] == text[5] as u32,
        data[6] == text[6] as u32,
        data[7] == text[7] as u32,
    ensures
        spells(data, text),
{
    assert forall|i: int| 0 <= i < 8 implies #[trigger] data[i] == text[i] as u32 by {
        assert(i == 0 || i == 1 || i == 2 || i == 3 || i == 4 || i == 5 || i == 6 || i == 7);
    }
}

/// The signature and the tags of a file spell their names, and every tag starts with the same
/// four letters.
pub proof fn tags_spell_their_names()
    ensures
        spells(container::root_magic(), "CSFCHUNK"@),
        spells(container::file_header_tag(), "CHNKHead"@),
        spells(container::external_tag(), "CHNKExta"@),
        spells(container::sqlite_tag(), "CHNKSQLi"@),
        spells(container::footer_tag(), "CHNKFoot"@),
        container::file_header_tag().take(4) == container::chunk_prefix(),
        container::external_tag().take(4) == container::chunk_prefix(),
        container::sqlite_tag().take(4) == container::chunk_prefix(),
        container::footer_tag().take(4) == container::chunk_prefix(),
{
    reveal_strlit("CSFCHUNK");
    reveal_strlit("CHNKHead");
    reveal_strlit("CHNKExta");
    reveal_strlit("CHNKSQLi");
    reveal_strlit("CHNKFoot");
    eight_characters(container::root_magic(), "CSFCHUNK"@);
    eight_characters(container::file_header_tag(), "CHNKHead"@);
    eight_characters(container::external_tag(), "CHNKExta"@);
    eight_characters(container::sqlite_tag(), "CHNKSQLi"@);
    eight_characters(container::footer_tag(), "CHNKFoot"@);
    assert(container::file_header_tag().take(4) =~= container::chunk_prefix());
    assert(container::external_tag().take(4) =~= container::chunk_prefix());
    assert(container::sqlite_tag().take(4) =~= container::chunk_prefix());
    assert(container::footer_tag().take(4) =~= container::chunk_prefix());
}

/// A chunk that is to be written: its tag and its payload.
pub struct ChunkParts {
    pub tag: Seq<u8>,
    pub payload: Seq<u8>,
}

/// A chunk: its tag, the size of its payload, and this.
pub open spec fn chunk_bytes(chunk: ChunkParts) -> Seq<u8> {
    chunk.tag + word64(chunk.payload.len() as u64) + chunk.payload
}

/// Chunks, one after the other.
pub open spec fn chunks_bytes(chunks: Seq<ChunkParts>) -> Seq<u8> {
    laid_out(Seq::new(chunks.len(), |i: int| chunk_bytes(chunks[i])))
}

/// The payload of a file header: the version, the place of the database, the size of the
/// identifier, and this.
pub open spec fn header_payload(header: FileHeaderModel) -> Seq<u8> {
    laid_out(
        seq![
            word64(header.format_version),
            word64(header.database_offset),
            word64(header.identifier.len() as u64),
        ],
    ) + header.identifier
}

/// A file: its signature, its size, the place of the first chunk, the chunk of the file header,
/// and the other chunks.
pub open spec fn file_bytes(header: FileHeaderModel, chunks: Seq<ChunkParts>) -> Seq<u8> {
    let first = ChunkParts { tag: container::file_header_tag(), payload: header_payload(header) };
    let body = chunks_bytes(seq![first] + chunks);
    container::root_magic() + (word64((24 + body.len()) as u64) + word64(24)) + body
}

/// The bytes between two places.
pub open spec fn between(data: Seq<u8>, at: int, size: int) -> Seq<u8> {
    data.subrange(at, at + size)
}

proof fn held_is_between(data: Seq<u8>, at: int, part: Seq<u8>)
    requires
        holds(data, at, part),
    ensures
        0 <= at,
        at + part.len() <= data.len(),
        data.subrange(at, at + part.len() as int) == part,
{
    reveal(holds);
    assert(data.subrange(at, at + part.len() as int) =~= part);
}

/// A chunk that is written reads back where it stands: its tag, and its payload in its place.
pub proof fn chunk_reads_back(data: Seq<u8>, at: int, chunk: ChunkParts)
    requires
        holds(data, at, chunk_bytes(chunk)),
        chunk.tag.len() == 8,
        chunk.tag.take(4) == container::chunk_prefix(),
        data.len() <= u64::MAX,
    ensures
        container::chunk_at(data, at) == Ok::<ChunkModel, Failure>(
            ChunkModel {
                tag: chunk.tag,
                offset: at as u64,
                payload_offset: (at + 16) as u64,
                payload_size: chunk.payload.len() as u64,
            },
        ),
        holds(data, at + 16, chunk.payload),
        chunk_bytes(chunk).len() == 16 + chunk.payload.len(),
{
    held_is_between(data, at, chunk_bytes(chunk));
    let size = word64(chunk.payload.len() as u64);
    layout::three_parts(chunk.tag, size, chunk.payload);
    layout::part_of_part(data, at, chunk_bytes(chunk), 0, chunk.tag);
    layout::part_of_part(data, at, chunk_bytes(chunk), 8, size);
    layout::part_of_part(data, at, chunk_bytes(chunk), 16, chunk.payload);
    layout::held_numbers_read_back(data, at + 8);
    held_is_between(data, at, chunk.tag);
}

proof fn header_reads_back(
    data: Seq<u8>,
    chunk: ChunkModel,
    header: FileHeaderModel,
    max_identifier_size: u64,
)
    requires
        holds(data, chunk.payload_offset as int, header_payload(header)),
        chunk.payload_size == header_payload(header).len(),
        header.identifier.len() <= max_identifier_size,
        data.len() <= u64::MAX,
    ensures
        container::file_header_of(data, chunk, max_identifier_size) == Ok::<
            FileHeaderModel,
            Failure,
        >(header),
{
    let at = chunk.payload_offset as int;
    let words = seq![
        word64(header.format_version),
        word64(header.database_offset),
        word64(header.identifier.len() as u64),
    ];
    let head = laid_out(words);
    let payload = header_payload(header);
    held_is_between(data, at, payload);
    layout::equal_parts(words, 8);
    layout::three_parts(head, header.identifier, Seq::empty());
    assert(head + header.identifier + Seq::<u8>::empty() =~= payload);
    assert forall|i: int| 0 <= i < 3 implies holds(data, at + 8 * i, #[trigger] words[i]) by {
        assert(holds(head, 8 * i, words[i]));
        layout::part_of_part(payload, 0, head, 8 * i, words[i]);
        layout::part_of_part(data, at, payload, 8 * i, words[i]);
    }
    assert(holds(data, at + 8 * 0, words[0]));
    assert(holds(data, at + 8 * 1, words[1]));
    assert(holds(data, at + 8 * 2, words[2]));
    layout::held_numbers_read_back(data, at);
    layout::held_numbers_read_back(data, at + 8);
    layout::held_numbers_read_back(data, at + 16);
    layout::part_of_part(data, at, payload, 24, header.identifier);
    held_is_between(data, at + 24, header.identifier);
}

/// Whether chunks can be written: their tags are tags.
pub open spec fn chunks_writable(chunks: Seq<ChunkParts>) -> bool {
    forall|i: int|
        0 <= i < chunks.len() ==> (#[trigger] chunks[i]).tag.len() == 8 && chunks[i].tag.take(4)
            == container::chunk_prefix()
}

proof fn file_stands(header: FileHeaderModel, chunks: Seq<ChunkParts>)
    requires
        file_bytes(header, chunks).len() <= u64::MAX,
    ensures
        ({
            let data = file_bytes(header, chunks);
            let first = ChunkParts {
                tag: container::file_header_tag(),
                payload: header_payload(header),
            };
            let body = chunks_bytes(seq![first] + chunks);
            &&& data.len() == 24 + body.len()
            &&& data.take(8) == container::root_magic()
            &&& bytes::be64(data, 8) == data.len()
            &&& bytes::be64(data, 16) == 24
            &&& holds(data, 24, body)
        }),
{
    let data = file_bytes(header, chunks);
    let first = ChunkParts { tag: container::file_header_tag(), payload: header_payload(header) };
    let body = chunks_bytes(seq![first] + chunks);
    let size = word64((24 + body.len()) as u64);
    let place = word64(24);
    layout::three_parts(container::root_magic(), size + place, body);
    layout::three_parts(size, place, Seq::empty());
    assert(size + place + Seq::<u8>::empty() =~= size + place);
    layout::part_of_part(data, 8, size + place, 0, size);
    layout::part_of_part(data, 8, size + place, 8, place);
    layout::held_numbers_read_back(data, 8);
    layout::held_numbers_read_back(data, 16);
    held_is_between(data, 0, container::root_magic());
    assert(data.take(8) =~= container::root_magic());
}

/// A file that is written opens with its size, its first chunk and its header.
pub proof fn written_file_opens(
    header: FileHeaderModel,
    chunks: Seq<ChunkParts>,
    limits: Limits,
)
    requires
        file_bytes(header, chunks).len() <= u64::MAX,
        header.identifier.len() <= limits.max_identifier_size,
    ensures
        container::headers_of(file_bytes(header, chunks), limits) == Ok::<
            (RootHeader, FileHeaderModel),
            Failure,
        >(
            (
                RootHeader {
                    declared_file_size: file_bytes(header, chunks).len() as u64,
                    first_chunk_offset: 24,
                },
                header,
            ),
        ),
{
    let data = file_bytes(header, chunks);
    let first = ChunkParts { tag: container::file_header_tag(), payload: header_payload(header) };
    let all = seq![first] + chunks;
    let parts = Seq::new(all.len(), |i: int| chunk_bytes(all[i]));
    file_stands(header, chunks);
    tags_spell_their_names();
    layout::parts_stand_in_turn(parts, 0);
    assert(parts[0] == chunk_bytes(first));
    layout::part_of_part(data, 24, laid_out(parts), 0, chunk_bytes(first));
    held_is_between(data, 24, chunk_bytes(first));
    chunk_reads_back(data, 24, first);
    let chunk = container::chunk_at(data, 24)->Ok_0;
    header_reads_back(data, chunk, header, limits.max_identifier_size);
}

/// The chunks that a file is written from, as they are found in it.
pub open spec fn placed_chunks(chunks: Seq<ChunkParts>, start: int) -> Seq<ChunkModel> {
    let parts = Seq::new(chunks.len(), |i: int| chunk_bytes(chunks[i]));
    Seq::new(
        chunks.len(),
        |i: int|
            ChunkModel {
                tag: chunks[i].tag,
                offset: (start + layout::start_of(parts, i)) as u64,
                payload_offset: (start + layout::start_of(parts, i) + 16) as u64,
                payload_size: chunks[i].payload.len() as u64,
            },
    )
}

proof fn chunks_in_turn(
    data: Seq<u8>,
    start: int,
    chunks: Seq<ChunkParts>,
    max_chunks: u64,
    at: int,
)
    requires
        0 <= at <= chunks.len(),
        0 <= start,
        chunks_writable(chunks),
        chunks.len() <= max_chunks,
        holds(data, start, chunks_bytes(chunks)),
        data.len() == start + chunks_bytes(chunks).len(),
        data.len() <= u64::MAX,
    ensures
        ({
            let parts = Seq::new(chunks.len(), |i: int| chunk_bytes(chunks[i]));
            scan::chunks_from(
                data,
                max_chunks,
                start + layout::start_of(parts, at),
                placed_chunks(chunks, start).take(at),
            ) == Ok::<Seq<ChunkModel>, Failure>(placed_chunks(chunks, start))
        }),
    decreases chunks.len() - at,
{
    let parts = Seq::new(chunks.len(), |i: int| chunk_bytes(chunks[i]));
    let list = placed_chunks(chunks, start);
    layout::whole_size(parts);
    if at < chunks.len() {
        let place = start + layout::start_of(parts, at);
        layout::parts_stand_in_turn(parts, at);
        layout::part_of_part(
            data,
            start,
            laid_out(parts),
            layout::start_of(parts, at),
            chunk_bytes(chunks[at]),
        );
        held_is_between(data, place, chunk_bytes(chunks[at]));
        chunk_reads_back(data, place, chunks[at]);
        assert(list.take(at).push(list[at]) =~= list.take(at + 1));
        assert(layout::start_of(parts, at + 1) == layout::start_of(parts, at)
            + parts[at].len());
        chunks_in_turn(data, start, chunks, max_chunks, at + 1);
    } else {
        assert(list.take(at) =~= list);
    }
}

/// The chunks that a file is written from are found in it in order, each with its tag and with
/// its payload where its payload is said to be.
pub proof fn written_chunks_are_found(
    header: FileHeaderModel,
    chunks: Seq<ChunkParts>,
    max_chunks: u64,
)
    requires
        chunks_writable(chunks),
        chunks.len() < max_chunks,
        file_bytes(header, chunks).len() <= u64::MAX,
    ensures
        ({
            let data = file_bytes(header, chunks);
            let found = scan::chunks_from(data, max_chunks, 24, Seq::empty());
            &&& found is Ok
            &&& found->Ok_0.len() == chunks.len() + 1
            &&& forall|i: int|
                0 <= i < chunks.len() ==> {
                    let chunk = found->Ok_0[i + 1];
                    &&& chunk.tag == (#[trigger] chunks[i]).tag
                    &&& chunk.payload_size == chunks[i].payload.len()
                    &&& between(data, chunk.payload_offset as int, chunk.payload_size as int)
                        == chunks[i].payload
                }
        }),
{
    let data = file_bytes(header, chunks);
    let first = ChunkParts { tag: container::file_header_tag(), payload: header_payload(header) };
    let all = seq![first] + chunks;
    let parts = Seq::new(all.len(), |i: int| chunk_bytes(all[i]));
    file_stands(header, chunks);
    tags_spell_their_names();
    assert(chunks_writable(all)) by {
        assert forall|i: int| 0 <= i < all.len() implies (#[trigger] all[i]).tag.len() == 8
            && all[i].tag.take(4) == container::chunk_prefix() by {
            if i > 0 {
                assert(all[i] == chunks[i - 1]);
            }
        }
    }
    chunks_in_turn(data, 24, all, max_chunks, 0);
    let list = placed_chunks(all, 24);
    assert(list.take(0) =~= Seq::<ChunkModel>::empty());
    assert forall|i: int| 0 <= i < chunks.len() implies {
        let chunk = list[i + 1];
        &&& chunk.tag == (#[trigger] chunks[i]).tag
        &&& chunk.payload_size == chunks[i].payload.len()
        &&& between(data, chunk.payload_offset as int, chunk.payload_size as int)
            == chunks[i].payload
    } by {
        assert(all[i + 1] == chunks[i]);
        let place = layout::start_of(parts, i + 1);
        layout::parts_stand_in_turn(parts, i + 1);
        layout::part_of_part(data, 24, laid_out(parts), place, chunk_bytes(chunks[i]));
        chunk_reads_back(data, 24 + place, chunks[i]);
        held_is_between(data, 24 + place, chunk_bytes(chunks[i]));
        held_is_between(data, 24 + place + 16, chunks[i].payload);
    }
}

/// The payload of an external chunk: the size of its identifier, this, the size of its body, and
/// this.
pub open spec fn external_payload(identifier: Seq<u8>, body: Seq<u8>) -> Seq<u8> {
    word64(identifier.len() as u64) + identifier + (word64(body.len() as u64) + body)
}

/// An external chunk that is written reads back with its identifier, and with its body where its
/// body is said to be.
pub proof fn external_header_reads_back(
    data: Seq<u8>,
    chunk: ChunkModel,
    identifier: Seq<u8>,
    body: Seq<u8>,
    max_identifier_size: u64,
)
    requires
        chunk.tag == container::external_tag(),
        holds(data, chunk.payload_offset as int, external_payload(identifier, body)),
        chunk.payload_size == external_payload(identifier, body).len(),
        identifier.len() <= max_identifier_size,
        identifier.len() <= usize::MAX,
        data.len() <= u64::MAX,
    ensures
        ({
            let header = scan::external_header_of(data, chunk, max_identifier_size);
            &&& header is Ok
            &&& header->Ok_0.identifier == identifier
            &&& header->Ok_0.body_size == body.len()
            &&& between(
                data,
                header->Ok_0.body_offset as int,
                header->Ok_0.body_size as int,
            ) == body
        }),
{
    let at = chunk.payload_offset as int;
    let payload = external_payload(identifier, body);
    let first = word64(identifier.len() as u64);
    let second = word64(body.len() as u64);
    let size = identifier.len() as int;
    held_is_between(data, at, payload);
    layout::three_parts(first, identifier, second + body);
    layout::three_parts(second, body, Seq::empty());
    assert(second + body + Seq::<u8>::empty() =~= second + body);
    layout::part_of_part(data, at, payload, 0, first);
    layout::part_of_part(data, at, payload, 8, identifier);
    layout::part_of_part(data, at, payload, 8 + size, second + body);
    layout::part_of_part(data, at + (8 + size), second + body, 0, second);
    layout::part_of_part(data, at + (8 + size), second + body, 8, body);
    layout::held_numbers_read_back(data, at);
    layout::held_numbers_read_back(data, at + 8 + size);
    held_is_between(data, at + 8, identifier);
    held_is_between(data, at + 8 + size + 8, body);
}

/// A body with a length of its own before it: the number of bytes that follow, in either byte
/// order, and these.
pub open spec fn prefixed(order: ByteOrder, stream: Seq<u8>) -> Seq<u8> {
    match order {
        ByteOrder::BigEndian => word32(stream.len() as u32) + stream,
        ByteOrder::LittleEndian => word32_reversed(stream.len() as u32) + stream,
    }
}

/// A body that begins with its own length and a zlib stream is taken for that, unless it begins
/// like block data: the stream is all that follows the length, and the byte order is the one
/// that the length was written in, where only one order gives it.
pub proof fn prefixed_stream_is_recognized(
    order: ByteOrder,
    stream: Seq<u8>,
    header: ExternalHeaderModel,
    prefix: Seq<u8>,
)
    requires
        2 <= stream.len() <= u32::MAX,
        external::zlib_header(stream.take(2)),
        header.body_size == prefixed(order, stream).len(),
        header.body_offset + header.body_size <= u64::MAX,
        prefix == prefixed(order, stream).take(
            if header.body_size <= 16 {
                header.body_size as int
            } else {
                16
            },
        ),
        !external::block_data_prefix(prefix),
    ensures
        ({
            let kind = external::body_kind(prefix, header);
            &&& kind is Ok
            &&& kind->Ok_0 matches ExternalBody::LengthPrefixedZlib(found)
                && found.compressed_offset == header.body_offset + 4 && found.compressed_size
                == stream.len() && (found.byte_order == order || bytes::be32(prefix, 0)
                == bytes::le32(prefix, 0))
        }),
{
    let body = prefixed(order, stream);
    let size = stream.len() as u32;
    if order == ByteOrder::BigEndian {
        layout::three_parts(word32(size), stream, Seq::empty());
        assert(word32(size) + stream + Seq::<u8>::empty() =~= body);
    } else {
        layout::three_parts(word32_reversed(size), stream, Seq::empty());
        assert(word32_reversed(size) + stream + Seq::<u8>::empty() =~= body);
    }
    layout::held_numbers_read_back(body, 0);
    assert(bytes::be32(prefix, 0) == bytes::be32(body, 0));
    assert(bytes::le32(prefix, 0) == bytes::le32(body, 0));
    assert(prefix.subrange(4, 6) =~= stream.take(2));
}

} // verus!
