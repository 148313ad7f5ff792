use clipfile::{
    ChunkHeader, ChunkKind, ClipFile, Error, Limits, ValidationSummary, CHUNK_HEADER_SIZE,
    ROOT_HEADER_SIZE,
};

const ROOT_MAGIC: [u8; 8] = *b"CSFCHUNK";
const FILE_HEADER_TAG: [u8; 8] = *b"CHNKHead";
const EXTERNAL_TAG: [u8; 8] = *b"CHNKExta";
const SQLITE_TAG: [u8; 8] = *b"CHNKSQLi";
const FOOTER_TAG: [u8; 8] = *b"CHNKFoot";

fn push_u64(bytes: &mut Vec<u8>, value: u64) {
    bytes.extend_from_slice(&value.to_be_bytes());
}

fn push_chunk(bytes: &mut Vec<u8>, tag: &[u8; 8], payload: &[u8]) -> u64 {
    let offset = bytes.len() as u64;
    bytes.extend_from_slice(tag);
    push_u64(bytes, payload.len() as u64);
    bytes.extend_from_slice(payload);
    offset
}

fn sample(with_external: bool) -> Vec<u8> {
    let mut bytes = Vec::from(ROOT_MAGIC);
    push_u64(&mut bytes, 0);
    push_u64(&mut bytes, ROOT_HEADER_SIZE);

    let mut header = Vec::new();
    push_u64(&mut header, 256);
    let database_offset_position = header.len();
    push_u64(&mut header, 0);
    push_u64(&mut header, 16);
    header.extend_from_slice(&[0x42; 16]);
    push_chunk(&mut bytes, &FILE_HEADER_TAG, &header);

    if with_external {
        let identifier = b"extrnlid0123456789ABCDEF0123456789ABCDEF";
        let mut external = Vec::new();
        push_u64(&mut external, identifier.len() as u64);
        external.extend_from_slice(identifier);
        push_u64(&mut external, 3);
        external.extend_from_slice(b"abc");
        push_chunk(&mut bytes, &EXTERNAL_TAG, &external);
    }

    let database_offset = push_chunk(&mut bytes, &SQLITE_TAG, b"db!");
    push_chunk(&mut bytes, &FOOTER_TAG, b"");
    let file_size = bytes.len() as u64;
    bytes[8..16].copy_from_slice(&file_size.to_be_bytes());
    let absolute_database_field =
        ROOT_HEADER_SIZE as usize + CHUNK_HEADER_SIZE as usize + database_offset_position;
    bytes[absolute_database_field..absolute_database_field + 8]
        .copy_from_slice(&database_offset.to_be_bytes());
    bytes
}

fn find(file: &ClipFile, kind: ChunkKind) -> ChunkHeader {
    let mut chunks = file.chunks();
    while let Some(chunk) = chunks.next() {
        let chunk = chunk.unwrap();
        if chunk.kind() == kind {
            return chunk;
        }
    }
    panic!("chunk not found")
}

#[test]
fn opens_and_validates_minimal_container() {
    let bytes = sample(false);
    let file = ClipFile::open(bytes).unwrap();
    assert_eq!(file.file_header().format_version(), 256);
    assert_eq!(file.file_header().identifier(), &[0x42; 16]);
    assert_eq!(
        file.validate().unwrap(),
        ValidationSummary {
            external_chunks: 0,
            database_payload_size: 3,
        }
    );
}

#[test]
fn scans_and_parses_external_header() {
    let bytes = sample(true);
    let file = ClipFile::open(bytes).unwrap();
    let chunks = file.chunk_headers().unwrap();
    assert_eq!(chunks.len(), 4);
    let external = file.external_chunk_header(&chunks[1]).unwrap();
    assert_eq!(
        external.identifier(),
        b"extrnlid0123456789ABCDEF0123456789ABCDEF"
    );
    assert_eq!(external.body_size(), 3);
    assert_eq!(file.validate().unwrap().external_chunks(), 1);
}

#[test]
fn enforces_payload_allocation_limit() {
    let bytes = sample(false);
    let file = ClipFile::open(bytes).unwrap();
    let database = find(&file, ChunkKind::Sqlite);
    assert!(matches!(
        file.read_chunk_payload(&database, 2),
        Err(Error::PayloadTooLarge { size: 3, limit: 2 })
    ));
    assert_eq!(file.read_chunk_payload(&database, 3).unwrap(), b"db!");
}

#[test]
fn rejects_wrong_magic_and_size() {
    let mut wrong_magic = sample(false);
    wrong_magic[0] = b'X';
    assert!(matches!(
        ClipFile::open(wrong_magic),
        Err(Error::InvalidMagic(_))
    ));

    let mut wrong_size = sample(false);
    wrong_size[15] ^= 1;
    assert!(matches!(
        ClipFile::open(wrong_size),
        Err(Error::FileSizeMismatch { .. })
    ));
}

#[test]
fn rejects_out_of_bounds_header_chunk() {
    let mut bytes = sample(false);
    bytes[32..40].copy_from_slice(&u64::MAX.to_be_bytes());
    assert!(matches!(
        ClipFile::open(bytes),
        Err(Error::OffsetOverflow | Error::ChunkOutOfBounds { .. })
    ));
}

#[test]
fn rejects_mismatched_external_body_size() {
    let mut bytes = sample(true);
    let file = ClipFile::open(bytes.clone()).unwrap();
    let external = find(&file, ChunkKind::External);
    let body_size_offset = external.payload_offset() as usize + 8 + 40;
    bytes[body_size_offset..body_size_offset + 8].copy_from_slice(&4_u64.to_be_bytes());

    let file = ClipFile::open(bytes).unwrap();
    assert!(matches!(
        file.external_chunk_header(&external),
        Err(Error::InvalidExternalChunk { .. })
    ));
}

#[test]
fn chunks_follow_each_other_to_the_footer() {
    let bytes = sample(true);
    let size = bytes.len() as u64;
    let file = ClipFile::open(bytes.clone()).unwrap();
    let chunks = file.chunk_headers().unwrap();
    assert_eq!(chunks[0].offset(), file.root_header().first_chunk_offset());
    assert_eq!(chunks[0].end_offset().unwrap(), chunks[1].offset());
    assert_eq!(chunks[3].kind(), ChunkKind::Footer);
    assert_eq!(chunks[3].end_offset().unwrap(), size);
    assert_eq!(chunks[2].offset(), file.file_header().database_offset());
    assert_eq!(file.file_size(), size);
    assert_eq!(file.into_inner(), bytes);
}

#[test]
fn copies_a_payload_behind_what_was_written() {
    let file = ClipFile::open(sample(false)).unwrap();
    let database = find(&file, ChunkKind::Sqlite);
    let mut output = vec![1, 2];
    assert_eq!(file.copy_chunk_payload(&database, &mut output).unwrap(), 3);
    assert_eq!(output, [1, 2, b'd', b'b', b'!']);
}

#[test]
fn refuses_more_chunks_than_allowed() {
    let limits = Limits::default().with_max_top_level_chunks(2);
    let file = ClipFile::open_with_limits(sample(false), limits).unwrap();
    assert!(matches!(
        file.chunk_headers(),
        Err(Error::LimitExceeded { .. })
    ));
}

#[test]
fn truncated_containers_are_refused() {
    let bytes = sample(false);
    assert!(ClipFile::open(bytes[..20].to_vec()).is_err());
    assert!(ClipFile::open(bytes[..bytes.len() - 1].to_vec()).is_err());
    assert!(ClipFile::open(Vec::new()).is_err());
}
