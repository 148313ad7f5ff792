use clipfile::blocks::{
    begin_bytes, checksum_bytes, end_bytes, parse_block_data, read_trailer_values, status_bytes,
};
use clipfile::external::{is_zlib_header, looks_like_block_data};
use clipfile::rebuild::{push_trailer_values, rebuild_block_data_body};
use clipfile::{Error, ExternalChunkHeader};

fn push_u32_be(bytes: &mut Vec<u8>, value: u32) {
    bytes.extend_from_slice(&value.to_be_bytes());
}

fn push_u32_le(bytes: &mut Vec<u8>, value: u32) {
    bytes.extend_from_slice(&value.to_le_bytes());
}

fn push_block(bytes: &mut Vec<u8>, index: u32, payload: Option<&[u8]>) {
    let start = bytes.len();
    push_u32_be(bytes, 0);
    push_u32_be(bytes, 19);
    bytes.extend_from_slice(&begin_bytes());
    push_u32_be(bytes, index);
    bytes.extend_from_slice(&[0, 5, 0, 0, 0, 0, 1, 0, 0, 0, 1, 0]);
    push_u32_be(bytes, u32::from(payload.is_some()));
    if let Some(payload) = payload {
        push_u32_be(bytes, payload.len() as u32 + 4);
        push_u32_le(bytes, payload.len() as u32);
        bytes.extend_from_slice(payload);
    }
    push_u32_be(bytes, 17);
    bytes.extend_from_slice(&end_bytes());
    let size = (bytes.len() - start) as u32;
    bytes[start..start + 4].copy_from_slice(&size.to_be_bytes());
}

fn push_trailer(bytes: &mut Vec<u8>, marker: &[u8], values: &[u32]) {
    push_u32_be(bytes, (marker.len() / 2) as u32);
    bytes.extend_from_slice(marker);
    push_u32_be(bytes, 12);
    push_u32_be(bytes, values.len() as u32);
    push_u32_be(bytes, 4);
    for value in values {
        push_u32_be(bytes, *value);
    }
}

#[test]
fn parses_block_metadata_without_loading_payloads() {
    let mut bytes = Vec::new();
    push_block(&mut bytes, 0, Some(&[0x78, 0x01, 1, 2, 3]));
    push_block(&mut bytes, 1, None);
    push_trailer(&mut bytes, &status_bytes(), &[1, 0]);
    push_trailer(&mut bytes, &checksum_bytes(), &[0x1234, 0]);
    let size = bytes.len() as u64;
    let header = ExternalChunkHeader {
        identifier: b"id".to_vec(),
        body_offset: 0,
        body_size: size,
    };

    let data = parse_block_data(&bytes, &header, 10).unwrap();
    assert_eq!(data.blocks().len(), 2);
    assert_eq!(data.present_blocks(), 1);
    assert_eq!(data.empty_blocks(), 1);
    assert_eq!(data.blocks()[0].index(), 0);
    assert_eq!(data.blocks()[0].parameters().channel_count(), 5);
    assert_eq!(data.blocks()[0].parameters().width(), 256);
    assert!(data.blocks()[0].payload().unwrap().has_zlib_header());
    assert_eq!(data.blocks()[0].status(), 1);
    assert_eq!(data.blocks()[0].checksum(), 0x1234);
    assert!(data.blocks()[1].payload().is_none());
    assert_eq!(data.uniform_status(), None);
}

#[test]
fn reports_a_uniform_opaque_status() {
    let mut bytes = Vec::new();
    push_block(&mut bytes, 0, Some(&[0x78, 0x01]));
    push_block(&mut bytes, 1, None);
    push_trailer(&mut bytes, &status_bytes(), &[0, 0]);
    push_trailer(&mut bytes, &checksum_bytes(), &[1, 0]);
    let size = bytes.len() as u64;
    let header = ExternalChunkHeader {
        identifier: b"id".to_vec(),
        body_offset: 0,
        body_size: size,
    };

    let data = parse_block_data(&bytes, &header, 10).unwrap();
    assert_eq!(data.uniform_status(), Some(0));
}

#[test]
fn enforces_block_limit() {
    let mut bytes = Vec::new();
    push_block(&mut bytes, 0, None);
    push_trailer(&mut bytes, &status_bytes(), &[0]);
    push_trailer(&mut bytes, &checksum_bytes(), &[0]);
    let size = bytes.len() as u64;
    let header = ExternalChunkHeader {
        identifier: b"id".to_vec(),
        body_offset: 0,
        body_size: size,
    };
    assert!(matches!(
        parse_block_data(&bytes, &header, 0),
        Err(Error::LimitExceeded {
            resource: "blocks per external object",
            ..
        })
    ));
}

#[test]
fn rebuilding_one_block_preserves_the_other_block_records() {
    let untouched_payload = [0x78, 0x01, 1, 2, 3];
    let mut bytes = Vec::new();
    push_block(&mut bytes, 0, Some(&untouched_payload));
    push_block(&mut bytes, 1, None);
    push_trailer(&mut bytes, &status_bytes(), &[1, 0]);
    push_trailer(&mut bytes, &checksum_bytes(), &[0x1234, 0x5678]);

    let decoded = vec![0_u8; 5 * 256 * 256];
    let rebuilt = rebuild_block_data_body(
        &bytes,
        1,
        &decoded,
        0,
        10,
        decoded.len() as u64,
        1024 * 1024,
    )
    .unwrap();
    let header = ExternalChunkHeader {
        identifier: b"id".to_vec(),
        body_offset: 0,
        body_size: rebuilt.body.len() as u64,
    };
    let data = parse_block_data(&rebuilt.body, &header, 10).unwrap();

    let untouched = &data.blocks()[0];
    let payload = untouched.payload().unwrap();
    assert_eq!(
        &rebuilt.body[payload.offset() as usize
            ..(payload.offset() + payload.compressed_size()) as usize],
        untouched_payload
    );
    assert_eq!(untouched.status(), 1);
    assert_eq!(untouched.checksum(), 0x1234);
    assert_eq!(data.blocks()[1].status(), 0);
    assert_eq!(data.blocks()[1].checksum(), 0);
    assert!(data.blocks()[1].payload().unwrap().has_zlib_header());
}

#[test]
fn recognizes_observed_external_body_prefixes() {
    assert!(looks_like_block_data(&[
        0, 0, 0, 104, 0, 0, 0, 19, 0, b'B', 0, b'l'
    ]));
    assert!(is_zlib_header([0x78, 0x01]));
    assert!(is_zlib_header([0x78, 0x9c]));
    assert!(!is_zlib_header([0x50, 0x4b]));
}

#[test]
fn rebuilt_blocks_decode_to_what_was_written() {
    let mut bytes = Vec::new();
    push_block(&mut bytes, 0, None);
    push_trailer(&mut bytes, &status_bytes(), &[3]);
    push_trailer(&mut bytes, &checksum_bytes(), &[9]);
    let decoded = (0..5 * 256 * 256).map(|i| (i % 251) as u8).collect::<Vec<_>>();
    let rebuilt =
        rebuild_block_data_body(&bytes, 0, &decoded, 77, 10, decoded.len() as u64, 1 << 24).unwrap();
    let header = ExternalChunkHeader {
        identifier: Vec::new(),
        body_offset: 0,
        body_size: rebuilt.body.len() as u64,
    };
    let data = parse_block_data(&rebuilt.body, &header, 10).unwrap();
    assert_eq!(data.blocks().len(), 1);
    assert_eq!(data.blocks()[0].status(), 3);
    assert_eq!(data.blocks()[0].checksum(), 77);
    let payload = data.blocks()[0].payload().unwrap();
    assert_eq!(payload.compressed_size(), rebuilt.compressed_size);
    let start = payload.offset() as usize;
    let stream = &rebuilt.body[start..start + payload.compressed_size() as usize];
    assert_ne!(stream, decoded.as_slice());
    assert_eq!(clipfile::zlib::decompress(stream, 1 << 20).unwrap(), decoded);
    assert_eq!(rebuilt.decoded_size, decoded.len() as u64);
    assert_eq!(rebuilt.original_compressed_size, None);
    assert_eq!(rebuilt.original_checksum, 9);
}

#[test]
fn rebuilding_refuses_what_does_not_fit() {
    let mut bytes = Vec::new();
    push_block(&mut bytes, 0, None);
    push_trailer(&mut bytes, &status_bytes(), &[0]);
    push_trailer(&mut bytes, &checksum_bytes(), &[0]);
    let decoded = vec![0_u8; 5 * 256 * 256];
    assert!(matches!(
        rebuild_block_data_body(&bytes, 1, &decoded, 0, 10, 1 << 20, 1 << 20),
        Err(Error::InvalidWrite { .. })
    ));
    assert!(matches!(
        rebuild_block_data_body(&bytes, 0, &decoded[1..], 0, 10, 1 << 20, 1 << 20),
        Err(Error::InvalidWrite { .. })
    ));
    assert!(matches!(
        rebuild_block_data_body(&bytes, 0, &decoded, 0, 10, 100, 1 << 20),
        Err(Error::LimitExceeded {
            resource: "replacement decoded block size",
            value: 327_680,
            limit: 100,
        })
    ));
    assert!(matches!(
        rebuild_block_data_body(&bytes, 0, &decoded, 0, 10, 1 << 20, 8),
        Err(Error::LimitExceeded { .. })
    ));
}

#[test]
fn broken_block_data_is_refused() {
    let mut bytes = Vec::new();
    push_block(&mut bytes, 0, None);
    push_trailer(&mut bytes, &status_bytes(), &[0, 1]);
    push_trailer(&mut bytes, &checksum_bytes(), &[0]);
    let header = ExternalChunkHeader {
        identifier: Vec::new(),
        body_offset: 0,
        body_size: bytes.len() as u64,
    };
    assert!(matches!(
        parse_block_data(&bytes, &header, 10),
        Err(Error::InvalidBlockData { .. })
    ));
}

#[test]
fn zlib_streams_are_cut_and_refused() {
    let data = vec![5_u8; 1000];
    let stream = clipfile::zlib::compress(&data).unwrap();
    assert_ne!(stream, data);
    assert_eq!(clipfile::zlib::decompress(&stream, 10).unwrap(), vec![5_u8; 10]);
    assert!(matches!(
        clipfile::zlib::decompress(b"not a stream", 10),
        Err(Error::Io { .. })
    ));
    let (_, failure) = clipfile::zlib::decompress_partial(&stream[..stream.len() - 6], 1000);
    assert!(failure.is_some());
}

#[test]
fn trailers_have_one_number_for_each_block() {
    for count in [0_usize, 1, 2, 3] {
        let mut bytes = Vec::new();
        push_block(&mut bytes, 0, None);
        push_block(&mut bytes, 1, None);
        push_trailer(&mut bytes, &status_bytes(), &[7, 8, 9][..count]);
        push_trailer(&mut bytes, &checksum_bytes(), &[4, 5]);
        let header = ExternalChunkHeader {
            identifier: Vec::new(),
            body_offset: 0,
            body_size: bytes.len() as u64,
        };
        match parse_block_data(&bytes, &header, 10) {
            Ok(data) => {
                assert_eq!(count, 2);
                assert_eq!(data.blocks()[1].status(), 8);
                assert_eq!(data.blocks()[1].checksum(), 5);
            }
            Err(Error::InvalidBlockData { .. }) => assert_ne!(count, 2),
            Err(error) => panic!("{}", error.message()),
        }
    }
}

#[test]
fn written_trailers_read_back_between_other_bytes() {
    let marker = status_bytes();
    let values = [7, 0, u32::MAX];
    let mut bytes = vec![1, 2, 3];
    push_trailer_values(&mut bytes, &marker, &values).unwrap();
    let mut expected = vec![1, 2, 3];
    push_trailer(&mut expected, &marker, &values);
    assert_eq!(bytes, expected);
    let end = bytes.len() as u64;
    bytes.extend_from_slice(&[9; 5]);
    let at = 3 + 4 + marker.len() as u64;
    assert_eq!(
        read_trailer_values(&bytes, end, at, 3, 11).unwrap(),
        values.to_vec()
    );
    for blocks in [0, 2, 4] {
        assert!(matches!(
            read_trailer_values(&bytes, end, at, blocks, 11),
            Err(Error::InvalidBlockData {
                offset: 11,
                reason: "trailer count does not match block count",
            })
        ));
    }
}

#[test]
fn replacements_of_absent_blocks_are_described() {
    let mut bytes = Vec::new();
    push_block(&mut bytes, 0, None);
    push_trailer(&mut bytes, &status_bytes(), &[1]);
    push_trailer(&mut bytes, &checksum_bytes(), &[0]);
    let refused = |index: u32, size: usize| {
        rebuild_block_data_body(&bytes, index, &vec![0; size], 0, 10, 1_000_000, 1_000_000)
            .err()
            .unwrap()
            .message()
    };
    assert_eq!(
        refused(4, 5),
        "cannot write CLIP container: block-data object has no block index 4"
    );
    assert_eq!(
        refused(0, 5),
        "cannot write CLIP container: replacement for block 0 has 5 decoded bytes, expected 327680"
    );
}
