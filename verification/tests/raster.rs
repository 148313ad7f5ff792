use std::io::Write;

use clipfile::attributes::{pixel_format, replace_attribute_block_sizes};
use clipfile::blocks::{
    begin_bytes, checksum_bytes, end_bytes, parse_block_data, status_bytes,
};
use clipfile::clone_ids::{
    allocate_raster_ids, format_raster_uuid, seeded_identifier, sequential_raster_ids,
};
use clipfile::clone_plan::CloneRows;
use clipfile::raster::decode_zlib_range;
use clipfile::raster_clone::{encode_tiles, insert_raster_layer_clone, prepare_raster_clone};
use clipfile::raster_template::RasterLayerTemplate;
use clipfile::rebuild::rebuild_block_data_body;
use clipfile::tile_codec::{copy_tile, RasterEncoder};
use clipfile::{
    BlockParameters, ClipFile, ClipWriter, Database, DecodedTile, EditableDatabase, Error,
    ExternalChunkHeader, Gray8Pixel, GrayAlpha8Pixel, Limits, OffscreenAttributes, PixelFormat,
    RasterDataState, RasterImage, RasterPixel, Rgba8Pixel,
};
use flate2::{write::ZlibEncoder, Compression};
use rusqlite::Connection;

fn push_u32(bytes: &mut Vec<u8>, value: u32) {
    bytes.extend_from_slice(&value.to_be_bytes());
}

fn push_label(bytes: &mut Vec<u8>, value: &str) {
    push_u32(bytes, value.encode_utf16().count() as u32);
    for character in value.encode_utf16() {
        bytes.extend_from_slice(&character.to_be_bytes());
    }
}

fn attributes() -> Vec<u8> {
    attributes_with_packing(1, 4, 5, 32, 8)
}

fn attributes_with_packing(
    alpha_channels: u32,
    buffer_channels: u32,
    total_channels: u32,
    buffer_bit_depth: u32,
    alpha_bit_depth: u32,
) -> Vec<u8> {
    let mut parameter = Vec::new();
    push_label(&mut parameter, "Parameter");
    for value in [300, 200, 2, 1] {
        push_u32(&mut parameter, value);
    }
    let mut packing = [0_u32; 16];
    packing[1] = alpha_channels;
    packing[2] = buffer_channels;
    packing[3] = total_channels;
    packing[6] = buffer_bit_depth << 5;
    packing[8] = alpha_bit_depth << 5;
    packing[10] = 256;
    packing[11] = 256;
    for value in packing {
        push_u32(&mut parameter, value);
    }

    let mut init = Vec::new();
    push_label(&mut init, "InitColor");
    for value in [20, 0, 0, 0, 4] {
        push_u32(&mut init, value);
    }

    let mut blocks = Vec::new();
    push_label(&mut blocks, "BlockSize");
    for value in [12, 2, 4, 104, 104] {
        push_u32(&mut blocks, value);
    }

    let mut bytes = Vec::new();
    for value in [
        16,
        parameter.len() as u32,
        init.len() as u32,
        blocks.len() as u32,
    ] {
        push_u32(&mut bytes, value);
    }
    bytes.extend(parameter);
    bytes.extend(init);
    bytes.extend(blocks);
    bytes
}

fn raster_database() -> Database {
    let connection = Connection::open_in_memory().unwrap();
    connection
        .execute_batch(
            "CREATE TABLE Layer (
                MainId INTEGER,
                LayerRenderMipmap INTEGER,
                LayerLayerMaskMipmap INTEGER
             );
             INSERT INTO Layer VALUES (1, 10, 20);
             INSERT INTO Layer VALUES (2, 0, 0);
             CREATE TABLE Mipmap (MainId INTEGER, BaseMipmapInfo INTEGER);
             INSERT INTO Mipmap VALUES (10, 100);
             INSERT INTO Mipmap VALUES (20, 200);
             CREATE TABLE MipmapInfo (MainId INTEGER, Offscreen INTEGER);
             INSERT INTO MipmapInfo VALUES (100, 1000);
             INSERT INTO MipmapInfo VALUES (200, 2000);
             CREATE TABLE Offscreen (
                MainId INTEGER,
                LayerId INTEGER,
                Attribute BLOB,
                BlockData BLOB
             );",
        )
        .unwrap();
    let attributes = attributes();
    connection
        .execute(
            "INSERT INTO Offscreen VALUES (?1, ?2, ?3, NULL)",
            (1000_i64, 1_i64, &attributes),
        )
        .unwrap();
    connection
        .execute(
            "INSERT INTO Offscreen VALUES (?1, ?2, ?3, NULL)",
            (2000_i64, 1_i64, &attributes),
        )
        .unwrap();
    Database::from_connection(connection).unwrap()
}

fn raster_clone_database() -> Connection {
    let connection = Connection::open_in_memory().unwrap();
    connection
        .execute_batch(
            "CREATE TABLE Canvas (
                _PW_ID INTEGER PRIMARY KEY,
                MainId INTEGER,
                CanvasRootFolder INTEGER
             );
             INSERT INTO Canvas VALUES (1, 1, 2);
             CREATE TABLE Layer (
                _PW_ID INTEGER PRIMARY KEY,
                MainId INTEGER,
                CanvasId INTEGER,
                LayerName TEXT,
                LayerType INTEGER,
                LayerFolder INTEGER,
                LayerSelect INTEGER,
                LayerNextIndex INTEGER,
                LayerFirstChildIndex INTEGER,
                LayerUuid TEXT,
                LayerRenderMipmap INTEGER,
                LayerLayerMaskMipmap INTEGER,
                LayerRenderThumbnail INTEGER,
                LayerLayerMaskThumbnail INTEGER,
                OpaqueColumn BLOB
             );
             INSERT INTO Layer VALUES (
                1, 2, 1, 'root', 256, 1, 0, 0, 3,
                '00aaaaaaaa-aaaa-4aaa-8aaa-aaaaaaaaaa',
                0, 0, 0, 0, X'01'
             );
             INSERT INTO Layer VALUES (
                2, 3, 1, 'template', 1, 0, 1, 0, 0,
                '11bbbbbbbb-bbbb-4bbb-8bbb-bbbbbbbbbb',
                3, 0, 3, 0, X'CAFE'
             );
             CREATE TABLE Mipmap (
                _PW_ID INTEGER PRIMARY KEY,
                MainId INTEGER,
                CanvasId INTEGER,
                LayerId INTEGER,
                MipmapCount INTEGER,
                BaseMipmapInfo INTEGER,
                OpaqueColumn TEXT
             );
             INSERT INTO Mipmap VALUES (1, 3, 1, 3, 2, 5, 'mipmap');
             CREATE TABLE MipmapInfo (
                _PW_ID INTEGER PRIMARY KEY,
                MainId INTEGER,
                CanvasId INTEGER,
                LayerId INTEGER,
                ThisScale REAL,
                Offscreen INTEGER,
                NextIndex INTEGER,
                OpaqueColumn TEXT
             );
             INSERT INTO MipmapInfo VALUES (1, 5, 1, 3, 100.0, 7, 6, 'base');
             INSERT INTO MipmapInfo VALUES (2, 6, 1, 3, 50.0, 9, 0, 'derived');
             CREATE TABLE Offscreen (
                _PW_ID INTEGER PRIMARY KEY,
                MainId INTEGER,
                CanvasId INTEGER,
                LayerId INTEGER,
                Attribute BLOB,
                BlockData BLOB,
                OpaqueColumn INTEGER
             );
             CREATE TABLE LayerThumbnail (
                _PW_ID INTEGER PRIMARY KEY,
                MainId INTEGER,
                CanvasId INTEGER,
                LayerId INTEGER,
                ThumbnailOffscreen INTEGER,
                OpaqueColumn TEXT
             );
             INSERT INTO LayerThumbnail VALUES (1, 3, 1, 3, 8, 'thumbnail');
             CREATE TABLE ExternalChunk (
                _PW_ID INTEGER PRIMARY KEY,
                ExternalID BLOB,
                Offset INTEGER
             );
             CREATE TABLE ElemScheme (
                _PW_ID INTEGER PRIMARY KEY,
                TableName TEXT,
                MaxIndex INTEGER
             );
             INSERT INTO ElemScheme VALUES (1, 'Layer', 3);
             INSERT INTO ElemScheme VALUES (2, 'Mipmap', 3);
             INSERT INTO ElemScheme VALUES (3, 'MipmapInfo', 6);
             INSERT INTO ElemScheme VALUES (4, 'Offscreen', 9);
             INSERT INTO ElemScheme VALUES (5, 'LayerThumbnail', 3);",
        )
        .unwrap();
    let attribute = attributes();
    for (pw_id, main_id, identifier, opaque) in [
        (
            1_i64,
            7_i64,
            b"extrnlidAAAAAAAAAAAAAAAAAAAAAAAAAAAAAAAA".as_slice(),
            100_i64,
        ),
        (
            2,
            9,
            b"extrnlidBBBBBBBBBBBBBBBBBBBBBBBBBBBBBBBB".as_slice(),
            50,
        ),
        (
            3,
            8,
            b"extrnlidCCCCCCCCCCCCCCCCCCCCCCCCCCCCCCCC".as_slice(),
            25,
        ),
    ] {
        connection
            .execute(
                "INSERT INTO Offscreen VALUES (?1, ?2, 1, 3, ?3, ?4, ?5)",
                (pw_id, main_id, &attribute, identifier, opaque),
            )
            .unwrap();
    }
    connection
}

fn raster_clone_insertion(connection: &Connection, template: &RasterLayerTemplate) -> CloneRows {
    prepare_raster_clone(
        connection,
        template,
        "new raster",
        attributes(),
        vec![
            b"extrnlid11111111111111111111111111111111".to_vec(),
            b"extrnlid22222222222222222222222222222222".to_vec(),
            b"extrnlid33333333333333333333333333333333".to_vec(),
        ],
        Limits::default(),
    )
    .unwrap()
}

#[test]
fn parses_complete_attributes() {
    let attributes = OffscreenAttributes::parse(&attributes()).unwrap();
    assert_eq!(attributes.bitmap_width(), 300);
    assert_eq!(attributes.bitmap_height(), 200);
    assert_eq!(attributes.block_sizes(), &[104, 104]);
    assert_eq!(attributes.packing().alpha_channels(), 1);
    assert_eq!(attributes.packing().buffer_channels(), 4);
    assert_eq!(
        pixel_format(attributes.packing()).unwrap(),
        PixelFormat::Rgba8
    );
}

#[test]
fn recognizes_observed_eight_bit_gray_alpha_packing() {
    let attributes =
        OffscreenAttributes::parse(&attributes_with_packing(1, 1, 2, 8, 8)).unwrap();
    assert_eq!(
        pixel_format(attributes.packing()).unwrap(),
        PixelFormat::GrayAlpha8
    );
}

#[test]
fn rejects_attribute_section_size_mismatch() {
    let mut bytes = attributes();
    bytes[7] = bytes[7].wrapping_add(1);
    assert!(matches!(
        OffscreenAttributes::parse(&bytes),
        Err(Error::InvalidRaster { .. })
    ));
}

#[test]
fn resolves_render_and_mask_sources_for_a_layer() {
    let database = raster_database();
    let render = database.layer_raster_source(1).unwrap().unwrap();
    let mask = database.layer_mask_raster_source(1).unwrap().unwrap();
    assert_eq!(render.mipmap_id(), 10);
    assert_eq!(render.offscreen_id(), 1000);
    assert_eq!(mask.mipmap_id(), 20);
    assert_eq!(mask.offscreen_id(), 2000);
    assert!(database.layer_mask_raster_source(2).unwrap().is_none());
    assert!(database.layer_mask_raster_source(999).unwrap().is_none());
}

#[test]
fn classifies_raster_data_states() {
    assert!(RasterDataState::Constructed.is_constructed());
    assert!(RasterDataState::MissingReference.is_default_filled());
    assert!(RasterDataState::MissingExternalChunk.is_default_filled());
    assert!(!RasterDataState::Constructed.is_default_filled());
    assert!(!RasterDataState::Present.is_default_filled());
    assert!(!RasterDataState::MissingReference.is_present());
    assert!(!RasterDataState::MissingExternalChunk.is_present());
    assert!(RasterDataState::Present.is_present());
}

#[test]
fn constructs_raster_images_with_validated_dimensions() {
    let image = RasterImage::from_pixels(2, 1, PixelFormat::GrayAlpha8, vec![1, 2, 3, 4]).unwrap();
    assert_eq!(image.width(), 2);
    assert_eq!(image.height(), 1);
    assert_eq!(image.byte_len(), 4);
    assert!(image.data_state().is_constructed());
    assert!(matches!(
        RasterImage::from_pixels(2, 1, PixelFormat::Rgba8, vec![0; 4]),
        Err(Error::InvalidRaster { .. })
    ));
    assert!(matches!(
        RasterImage::from_pixels(0, 1, PixelFormat::Gray8, vec![]),
        Err(Error::InvalidRaster { .. })
    ));
}

#[test]
fn reads_and_edits_rgba8_pixels_by_named_channels() {
    let mut image = RasterImage {
        width: 2,
        height: 1,
        format: PixelFormat::Rgba8,
        state: RasterDataState::Present,
        pixels: vec![0, 10, 20, 30, 250, 240, 230, 220],
    };

    assert_eq!(
        image.rgba8_pixels().unwrap().collect(),
        vec![
            Rgba8Pixel {
                r: 0,
                g: 10,
                b: 20,
                a: 30,
            },
            Rgba8Pixel {
                r: 250,
                g: 240,
                b: 230,
                a: 220,
            },
        ]
    );
    assert!(image.gray8_pixels().is_none());
    assert!(image.gray8_pixels_mut().is_none());

    {
        let mut pixels = image.rgba8_pixels_mut().unwrap();
        while let Some(mut pixel) = pixels.next() {
            pixel.invert();
        }
    }
    assert_eq!(image.pixels(), &[255, 245, 235, 30, 5, 15, 25, 220]);
    assert_eq!(Rgba8Pixel::min().r, Rgba8Pixel::CHANNEL_MIN);
    assert_eq!(Rgba8Pixel::max().a, Rgba8Pixel::CHANNEL_MAX);
    let pixel = Rgba8Pixel {
        r: 250,
        g: 20,
        b: 30,
        a: 40,
    };
    assert!(pixel.checked_add_rgb(10).is_none());
    assert!(pixel.checked_sub_rgb(21).is_none());
    assert_eq!(
        pixel.saturating_add_rgb(10),
        Rgba8Pixel {
            r: 255,
            g: 30,
            b: 40,
            a: 40,
        }
    );
    assert_eq!(
        pixel.saturating_sub_rgb(25),
        Rgba8Pixel {
            r: 225,
            g: 0,
            b: 5,
            a: 40,
        }
    );
}

#[test]
fn reads_and_edits_gray8_pixels_by_named_values() {
    let mut image = RasterImage {
        width: 3,
        height: 1,
        format: PixelFormat::Gray8,
        state: RasterDataState::Present,
        pixels: vec![0, 128, 255],
    };

    assert_eq!(
        image.gray8_pixels().unwrap().collect(),
        vec![
            Gray8Pixel { value: 0 },
            Gray8Pixel { value: 128 },
            Gray8Pixel { value: 255 },
        ]
    );
    assert!(image.rgba8_pixels().is_none());
    assert!(image.rgba8_pixels_mut().is_none());

    {
        let mut pixels = image.gray8_pixels_mut().unwrap();
        while let Some(mut pixel) = pixels.next() {
            pixel.invert();
        }
    }
    assert_eq!(image.pixels(), &[255, 127, 0]);
    assert_eq!(Gray8Pixel::min().value, Gray8Pixel::CHANNEL_MIN);
    assert_eq!(Gray8Pixel::max().value, Gray8Pixel::CHANNEL_MAX);
    let pixel = Gray8Pixel { value: 250 };
    assert!(pixel.checked_add(6).is_none());
    assert_eq!(pixel.checked_sub(50), Some(Gray8Pixel { value: 200 }));
    assert_eq!(pixel.saturating_add(10), Gray8Pixel::max());
    assert_eq!(Gray8Pixel { value: 5 }.saturating_sub(10), Gray8Pixel::min());
}

#[test]
fn reads_and_edits_gray_alpha8_pixels_by_named_channels() {
    let mut image = RasterImage {
        width: 2,
        height: 1,
        format: PixelFormat::GrayAlpha8,
        state: RasterDataState::Present,
        pixels: vec![10, 20, 240, 230],
    };

    assert_eq!(
        image.gray_alpha8_pixels().unwrap().collect(),
        vec![
            GrayAlpha8Pixel {
                value: 10,
                alpha: 20,
            },
            GrayAlpha8Pixel {
                value: 240,
                alpha: 230,
            },
        ]
    );
    assert!(image.rgba8_pixels().is_none());
    assert!(image.gray8_pixels().is_none());

    {
        let mut pixels = image.gray_alpha8_pixels_mut().unwrap();
        while let Some(mut pixel) = pixels.next() {
            pixel.invert();
        }
    }
    assert_eq!(image.pixels(), &[245, 20, 15, 230]);

    let pixel = GrayAlpha8Pixel {
        value: 250,
        alpha: 42,
    };
    assert!(pixel.checked_add_value(10).is_none());
    assert!(pixel.checked_sub_value(251).is_none());
    assert_eq!(
        pixel.saturating_add_value(10),
        GrayAlpha8Pixel {
            value: 255,
            alpha: 42,
        }
    );
    assert_eq!(
        pixel.saturating_sub_value(251),
        GrayAlpha8Pixel {
            value: 0,
            alpha: 42,
        }
    );
}

#[test]
fn common_pixel_iterators_cover_all_supported_formats() {
    let mut rgba = RasterImage {
        width: 1,
        height: 1,
        format: PixelFormat::Rgba8,
        state: RasterDataState::Present,
        pixels: vec![250, 20, 30, 40],
    };
    assert_eq!(
        rgba.pixel_iter().collect(),
        vec![RasterPixel::Rgba8(Rgba8Pixel {
            r: 250,
            g: 20,
            b: 30,
            a: 40,
        })]
    );
    {
        let mut pixels = rgba.pixel_iter_mut();
        assert_eq!(pixels.len(), 1);
        let mut pixel = pixels.next().unwrap();
        assert_eq!(pixel.format(), PixelFormat::Rgba8);
        assert!(!pixel.checked_add_assign(10));
        pixel.saturating_add_assign(10);
    }
    assert_eq!(rgba.pixels(), &[255, 30, 40, 40]);

    let mut gray = RasterImage {
        width: 1,
        height: 1,
        format: PixelFormat::Gray8,
        state: RasterDataState::Present,
        pixels: vec![5],
    };
    {
        let mut pixel = gray.pixel_iter_mut().next().unwrap();
        assert_eq!(pixel.format(), PixelFormat::Gray8);
        assert!(!pixel.checked_sub_assign(10));
        pixel.saturating_sub_assign(10);
    }
    assert_eq!(gray.pixels(), &[0]);

    let mut gray_alpha = RasterImage {
        width: 1,
        height: 1,
        format: PixelFormat::GrayAlpha8,
        state: RasterDataState::Present,
        pixels: vec![5, 42],
    };
    {
        let mut pixel = gray_alpha.pixel_iter_mut().next().unwrap();
        assert_eq!(pixel.format(), PixelFormat::GrayAlpha8);
        pixel.invert();
    }
    assert_eq!(gray_alpha.pixels(), &[250, 42]);
}

#[test]
fn encodes_rgba_pixels_into_native_tiles_and_preserves_padding() {
    let attributes = OffscreenAttributes::parse(&attributes()).unwrap();
    let mut pixels = vec![0_u8; 300 * 200 * 4];
    pixels[0..4].copy_from_slice(&[1, 2, 3, 4]);
    let second_tile_pixel = (256 * 4) as usize;
    pixels[second_tile_pixel..second_tile_pixel + 4].copy_from_slice(&[5, 6, 7, 8]);
    let encoder = RasterEncoder::new(
        &attributes,
        PixelFormat::Rgba8,
        &pixels,
        4096,
        1024 * 1024,
        1024 * 1024,
    )
    .unwrap();
    assert_eq!(encoder.tile_count(), 2);

    let tile_area = 256 * 256;
    let first = encoder
        .encode_tile(0, Some(vec![0xAA; tile_area * 5]))
        .unwrap();
    assert_eq!(first[0], 4);
    assert_eq!(&first[tile_area..tile_area + 4], &[3, 2, 1, 0xAA]);
    assert_eq!(first[tile_area - 1], 0xAA);

    let second = encoder.encode_tile(1, None).unwrap();
    assert_eq!(second[0], 8);
    assert_eq!(&second[tile_area..tile_area + 4], &[7, 6, 5, 0]);
    assert_eq!(second[255], 0);
    assert_eq!(second[tile_area + 255 * 4], 0);
}

#[test]
fn encodes_gray_alpha_pixels_into_planar_native_tiles() {
    let attributes =
        OffscreenAttributes::parse(&attributes_with_packing(1, 1, 2, 8, 8)).unwrap();
    let mut pixels = vec![0_u8; 300 * 200 * 2];
    pixels[0..2].copy_from_slice(&[10, 20]);
    let second_tile_pixel = (256 * 2) as usize;
    pixels[second_tile_pixel..second_tile_pixel + 2].copy_from_slice(&[30, 40]);
    let encoder = RasterEncoder::new(
        &attributes,
        PixelFormat::GrayAlpha8,
        &pixels,
        4096,
        1024 * 1024,
        1024 * 1024,
    )
    .unwrap();

    let tile_area = 256 * 256;
    let first = encoder
        .encode_tile(0, Some(vec![0xAA; tile_area * 2]))
        .unwrap();
    assert_eq!(first[0], 20);
    assert_eq!(first[tile_area], 10);
    assert_eq!(first[tile_area - 1], 0xAA);

    let second = encoder.encode_tile(1, None).unwrap();
    assert_eq!(second[0], 40);
    assert_eq!(second[tile_area], 30);
    assert_eq!(second[255], 0);
    assert_eq!(second[tile_area + 255], 0);
}

#[test]
fn decodes_planar_gray_alpha_tiles_into_interleaved_pixels() {
    let attributes =
        OffscreenAttributes::parse(&attributes_with_packing(1, 1, 2, 8, 8)).unwrap();
    let tile_area = 256 * 256;
    let mut bytes = vec![0_u8; tile_area * 2];
    bytes[0] = 20;
    bytes[tile_area] = 10;
    let tile = DecodedTile {
        index: 0,
        parameters: BlockParameters::from_raw([0, 2, 0, 0, 0, 0, 1, 0, 0, 0, 1, 0]),
        bytes,
    };
    let mut image = RasterImage {
        width: 300,
        height: 200,
        format: PixelFormat::GrayAlpha8,
        state: RasterDataState::Present,
        pixels: vec![0; 300 * 200 * 2],
    };

    copy_tile(&mut image, &attributes, &tile).unwrap();
    assert_eq!(&image.pixels()[..2], &[10, 20]);
}

#[test]
fn converts_supported_rasters_to_image_rs_without_changing_bytes() {
    for (format, pixels) in [
        (PixelFormat::Rgba8, vec![1, 2, 3, 4]),
        (PixelFormat::Gray8, vec![5]),
        (PixelFormat::GrayAlpha8, vec![6, 7]),
    ] {
        let dynamic = RasterImage {
            width: 1,
            height: 1,
            format,
            state: RasterDataState::Present,
            pixels: pixels.clone(),
        }
        .into_dynamic_image();
        assert_eq!(dynamic.width(), 1);
        assert_eq!(dynamic.height(), 1);
        assert_eq!(dynamic.as_bytes(), pixels);
    }

    let rgb = image::DynamicImage::ImageRgb8(
        image::RgbImage::from_raw(1, 1, vec![10, 20, 30]).unwrap(),
    );
    let raster = RasterImage::try_from_dynamic_image(rgb).unwrap();
    assert_eq!(raster.format(), PixelFormat::Rgba8);
    assert_eq!(raster.pixels(), &[10, 20, 30, 255]);
    assert!(raster.data_state().is_constructed());

    let unsupported = image::DynamicImage::ImageRgba16(
        image::ImageBuffer::<image::Rgba<u16>, Vec<u16>>::from_raw(1, 1, vec![0; 4]).unwrap(),
    );
    assert!(matches!(
        RasterImage::try_from_dynamic_image(unsupported),
        Err(Error::UnsupportedRaster { .. })
    ));
}

#[test]
fn replaces_only_attribute_block_size_values() {
    let original = attributes();
    let updated = replace_attribute_block_sizes(&original, &[1234, 5678]).unwrap();
    assert_eq!(
        OffscreenAttributes::parse(&updated).unwrap().block_sizes(),
        &[1234, 5678]
    );
    let value_bytes = 2 * 4;
    assert_eq!(
        &updated[..updated.len() - value_bytes],
        &original[..original.len() - value_bytes]
    );
}

#[test]
fn rejects_a_raster_replacement_with_the_wrong_shape() {
    let attributes = OffscreenAttributes::parse(&attributes()).unwrap();
    assert!(matches!(
        RasterEncoder::new(
            &attributes,
            PixelFormat::Gray8,
            &[],
            4096,
            1024 * 1024,
            1024 * 1024,
        ),
        Err(Error::InvalidWrite { .. })
    ));
    assert!(matches!(
        RasterEncoder::new(
            &attributes,
            PixelFormat::Rgba8,
            &[0; 4],
            4096,
            1024 * 1024,
            1024 * 1024,
        ),
        Err(Error::InvalidWrite { .. })
    ));
}

#[test]
fn enforces_the_layer_limit_before_cloning_raster_rows() {
    let connection = raster_clone_database();
    assert!(matches!(
        RasterLayerTemplate::read(&connection, 3, 2, Limits::default().with_max_layers(2),),
        Err(Error::LimitExceeded {
            resource: "layers after raster clone",
            value: 3,
            limit: 2,
        })
    ));
}

#[test]
fn enforces_the_new_raster_layer_depth_at_the_parent_boundary() {
    let connection = raster_clone_database();
    connection
        .execute_batch(
            "UPDATE Layer SET LayerNextIndex = 4 WHERE MainId = 3;
             INSERT INTO Layer VALUES (
                3, 4, 1, 'destination', 256, 1, 0, 0, 0,
                '22cccccccc-cccc-4ccc-8ccc-cccccccccc',
                0, 0, 0, 0, X'02'
             );
             UPDATE ElemScheme SET MaxIndex = 4 WHERE TableName = 'Layer';",
        )
        .unwrap();

    assert!(
        RasterLayerTemplate::read(
            &connection,
            3,
            4,
            Limits::default().with_max_layer_tree_depth(2),
        )
        .is_ok()
    );
    assert!(matches!(
        RasterLayerTemplate::read(
            &connection,
            3,
            4,
            Limits::default().with_max_layer_tree_depth(1),
        ),
        Err(Error::LimitExceeded {
            resource: "new raster layer tree depth",
            value: 2,
            limit: 1,
        })
    ));
}

#[test]
fn clones_raster_rows_preserves_unknown_columns_and_invalidates_caches() {
    let mut connection = raster_clone_database();
    let template = RasterLayerTemplate::read(&connection, 3, 2, Limits::default()).unwrap();
    let insertion = raster_clone_insertion(&connection, &template);
    let layer_id = insert_raster_layer_clone(&mut connection, &template, &insertion).unwrap();
    assert_eq!(layer_id, 4);
    let layer: (i64, i64, i64, String, Vec<u8>) = connection
        .query_row(
            "SELECT LayerNextIndex, LayerRenderMipmap, LayerRenderThumbnail, \
             LayerUuid, OpaqueColumn FROM Layer WHERE MainId = 4",
            [],
            |row| {
                Ok((
                    row.get(0)?,
                    row.get(1)?,
                    row.get(2)?,
                    row.get(3)?,
                    row.get(4)?,
                ))
            },
        )
        .unwrap();
    assert_eq!((layer.0, layer.1, layer.2), (3, 4, 4));
    assert_eq!(layer.3.len(), 36);
    assert_eq!(layer.4, [0xCA, 0xFE]);
    assert_eq!(
        connection
            .query_row(
                "SELECT LayerFirstChildIndex FROM Layer WHERE MainId = 2",
                [],
                |row| row.get::<_, i64>(0),
            )
            .unwrap(),
        4
    );
    let offscreens = connection
        .prepare(
            "SELECT MainId, BlockData, OpaqueColumn FROM Offscreen \
             WHERE LayerId = 4 ORDER BY MainId",
        )
        .unwrap()
        .query_map([], |row| {
            Ok((
                row.get::<_, i64>(0)?,
                row.get::<_, Vec<u8>>(1)?,
                row.get::<_, i64>(2)?,
            ))
        })
        .unwrap()
        .collect::<rusqlite::Result<Vec<_>>>()
        .unwrap();
    assert_eq!(
        offscreens,
        vec![
            (
                10,
                b"extrnlid11111111111111111111111111111111".to_vec(),
                100,
            ),
            (11, b"extrnlid22222222222222222222222222222222".to_vec(), 50,),
            (12, b"extrnlid33333333333333333333333333333333".to_vec(), 25,),
        ]
    );
    let maxima = connection
        .prepare(
            "SELECT TableName, MaxIndex FROM ElemScheme \
             WHERE TableName IN ('Layer','Mipmap','MipmapInfo','Offscreen','LayerThumbnail') \
             ORDER BY TableName",
        )
        .unwrap()
        .query_map([], |row| {
            Ok((row.get::<_, String>(0)?, row.get::<_, i64>(1)?))
        })
        .unwrap()
        .collect::<rusqlite::Result<Vec<_>>>()
        .unwrap();
    assert_eq!(
        maxima,
        vec![
            ("Layer".to_owned(), 4),
            ("LayerThumbnail".to_owned(), 4),
            ("Mipmap".to_owned(), 4),
            ("MipmapInfo".to_owned(), 8),
            ("Offscreen".to_owned(), 12),
        ]
    );
}

#[test]
fn preserves_text_storage_for_cloned_raster_external_identifiers() {
    let mut connection = raster_clone_database();
    connection
        .execute(
            "UPDATE Offscreen SET BlockData = CAST(BlockData AS TEXT)",
            [],
        )
        .unwrap();
    let template = RasterLayerTemplate::read(&connection, 3, 2, Limits::default()).unwrap();
    let insertion = raster_clone_insertion(&connection, &template);
    insert_raster_layer_clone(&mut connection, &template, &insertion).unwrap();

    let rows = connection
        .prepare(
            "SELECT typeof(BlockData), BlockData FROM Offscreen \
             WHERE LayerId = 4 ORDER BY MainId",
        )
        .unwrap()
        .query_map([], |row| {
            Ok((row.get::<_, String>(0)?, row.get::<_, String>(1)?))
        })
        .unwrap()
        .collect::<rusqlite::Result<Vec<_>>>()
        .unwrap();
    assert_eq!(
        rows,
        vec![
            (
                "text".to_owned(),
                "extrnlid11111111111111111111111111111111".to_owned(),
            ),
            (
                "text".to_owned(),
                "extrnlid22222222222222222222222222222222".to_owned(),
            ),
            (
                "text".to_owned(),
                "extrnlid33333333333333333333333333333333".to_owned(),
            ),
        ]
    );
}

#[test]
fn rolls_back_every_raster_clone_row_when_a_late_insert_fails() {
    let mut connection = raster_clone_database();
    let template = RasterLayerTemplate::read(&connection, 3, 2, Limits::default()).unwrap();
    let insertion = raster_clone_insertion(&connection, &template);
    connection
        .execute_batch(
            "CREATE TRIGGER reject_second_cloned_offscreen \
             BEFORE INSERT ON Offscreen WHEN NEW.MainId = 11 \
             BEGIN SELECT RAISE(ABORT, 'test rollback'); END;",
        )
        .unwrap();
    assert!(insert_raster_layer_clone(&mut connection, &template, &insertion).is_err());
    for (table, count) in [
        ("Layer", 2),
        ("Mipmap", 1),
        ("MipmapInfo", 2),
        ("Offscreen", 3),
        ("LayerThumbnail", 1),
    ] {
        let actual: i64 = connection
            .query_row(&format!("SELECT count(*) FROM {table}"), [], |row| {
                row.get(0)
            })
            .unwrap();
        assert_eq!(actual, count, "{table}");
    }
    assert_eq!(
        connection
            .query_row(
                "SELECT LayerFirstChildIndex FROM Layer WHERE MainId = 2",
                [],
                |row| row.get::<_, i64>(0),
            )
            .unwrap(),
        3
    );
    assert_eq!(
        connection
            .query_row(
                "SELECT MaxIndex FROM ElemScheme WHERE TableName = 'Layer'",
                [],
                |row| row.get::<_, i64>(0),
            )
            .unwrap(),
        3
    );
}

#[test]
fn decompresses_only_the_expected_size() {
    let raw = vec![7_u8; 1024];
    let mut encoder = ZlibEncoder::new(Vec::new(), Compression::fast());
    encoder.write_all(&raw).unwrap();
    let compressed = encoder.finish().unwrap();
    let decoded = decode_zlib_range(
        &compressed,
        0,
        compressed.len() as u64,
        raw.len() as u64,
        raw.len() as u64,
    )
    .unwrap();
    assert_eq!(decoded, raw);
}

const IDENTIFIER: &[u8] = b"extrnlid0123456789ABCDEF0123456789ABCDEF";

fn push_u64(bytes: &mut Vec<u8>, value: u64) {
    bytes.extend_from_slice(&value.to_be_bytes());
}

fn push_chunk(bytes: &mut Vec<u8>, tag: &[u8; 8], payload: &[u8]) -> u64 {
    let offset = bytes.len() as u64;
    bytes.extend_from_slice(tag);
    push_u64(bytes, payload.len() as u64);
    bytes.extend_from_slice(payload);
    offset
}

fn container_with(body: &[u8]) -> (ClipFile, u64) {
    let mut bytes = Vec::from(b"CSFCHUNK".as_slice());
    push_u64(&mut bytes, 0);
    push_u64(&mut bytes, 24);
    let mut header = Vec::new();
    push_u64(&mut header, 256);
    push_u64(&mut header, 0);
    push_u64(&mut header, 16);
    header.extend_from_slice(&[0x42; 16]);
    push_chunk(&mut bytes, b"CHNKHead", &header);
    let mut external = Vec::new();
    push_u64(&mut external, IDENTIFIER.len() as u64);
    external.extend_from_slice(IDENTIFIER);
    push_u64(&mut external, body.len() as u64);
    external.extend_from_slice(body);
    let external_offset = push_chunk(&mut bytes, b"CHNKExta", &external);
    let database_offset = push_chunk(&mut bytes, b"CHNKSQLi", b"db!");
    push_chunk(&mut bytes, b"CHNKFoot", b"");
    let size = bytes.len() as u64;
    bytes[8..16].copy_from_slice(&size.to_be_bytes());
    bytes[48..56].copy_from_slice(&database_offset.to_be_bytes());
    (ClipFile::open(bytes).unwrap(), external_offset)
}

fn empty_blocks(count: u32) -> Vec<u8> {
    let mut bytes = Vec::new();
    for index in 0..count {
        let start = bytes.len();
        push_u32(&mut bytes, 0);
        push_u32(&mut bytes, 19);
        bytes.extend_from_slice(&begin_bytes());
        push_u32(&mut bytes, index);
        bytes.extend_from_slice(&[0, 5, 0, 0, 0, 0, 1, 0, 0, 0, 1, 0]);
        push_u32(&mut bytes, 0);
        push_u32(&mut bytes, 17);
        bytes.extend_from_slice(&end_bytes());
        let size = (bytes.len() - start) as u32;
        bytes[start..start + 4].copy_from_slice(&size.to_be_bytes());
    }
    for marker in [status_bytes(), checksum_bytes()] {
        push_u32(&mut bytes, (marker.len() / 2) as u32);
        bytes.extend_from_slice(&marker);
        push_u32(&mut bytes, 12);
        push_u32(&mut bytes, count);
        push_u32(&mut bytes, 4);
        for _ in 0..count {
            push_u32(&mut bytes, 0);
        }
    }
    bytes
}

fn sample_pixels() -> Vec<u8> {
    (0..300 * 200 * 4).map(|i| (i * 7 % 253) as u8).collect()
}

fn database_with_block_data(offset: u64) -> Database {
    let database = raster_database();
    database
        .connection()
        .execute_batch("CREATE TABLE ExternalChunk (ExternalID BLOB, Offset INTEGER)")
        .unwrap();
    database
        .connection()
        .execute("INSERT INTO ExternalChunk VALUES (?1, ?2)", (IDENTIFIER, offset as i64))
        .unwrap();
    database
        .connection()
        .execute("UPDATE Offscreen SET BlockData = ?1 WHERE MainId = 1000", (IDENTIFIER,))
        .unwrap();
    let EditableDatabase { mut connection, .. } = EditableDatabase::new(database);
    let data = connection.serialize(rusqlite::MAIN_DB).unwrap().to_vec();
    connection
        .deserialize_read_exact(rusqlite::MAIN_DB, data.as_slice(), data.len(), false)
        .unwrap();
    Database::from_connection(connection).unwrap()
}

#[test]
fn encoded_tiles_decode_to_the_same_pixels() {
    let parsed = OffscreenAttributes::parse(&attributes()).unwrap();
    let pixels = sample_pixels();
    let encoder =
        RasterEncoder::new(&parsed, PixelFormat::Rgba8, &pixels, 4096, 1 << 20, 1 << 20).unwrap();
    let tiles = encode_tiles(&encoder).unwrap();
    assert_eq!(tiles.len(), 2);
    let mut image = RasterImage {
        width: 300,
        height: 200,
        format: PixelFormat::Rgba8,
        state: RasterDataState::Constructed,
        pixels: vec![9; pixels.len()],
    };
    for (index, bytes) in tiles.into_iter().enumerate() {
        let tile = DecodedTile {
            index: index as u32,
            parameters: BlockParameters::from_raw([0, 5, 0, 0, 0, 0, 1, 0, 0, 0, 1, 0]),
            bytes,
        };
        copy_tile(&mut image, &parsed, &tile).unwrap();
    }
    assert_eq!(image.pixels(), pixels.as_slice());
}

#[test]
fn decodes_a_whole_raster_from_its_blocks() {
    let parsed = OffscreenAttributes::parse(&attributes()).unwrap();
    let pixels = sample_pixels();
    let encoder =
        RasterEncoder::new(&parsed, PixelFormat::Rgba8, &pixels, 4096, 1 << 20, 1 << 20).unwrap();
    let mut body = empty_blocks(2);
    for (index, tile) in encode_tiles(&encoder).unwrap().iter().enumerate() {
        body = rebuild_block_data_body(&body, index as u32, tile, 0, 10, 1 << 20, 1 << 22)
            .unwrap()
            .body;
    }
    let (clip, offset) = container_with(&body);
    let database = database_with_block_data(offset);
    let source = database.layer_raster_source(1).unwrap().unwrap();
    assert_eq!(source.external_identifier(), Some(IDENTIFIER));
    let image = clip.decode_raster(&database, &source).unwrap();
    assert!(image.data_state().is_present());
    assert_eq!((image.width(), image.height()), (300, 200));
    assert_eq!(image.pixels(), pixels.as_slice());

    let mask = database.layer_mask_raster_source(1).unwrap().unwrap();
    let blank = clip.decode_raster(&database, &mask).unwrap();
    assert_eq!(blank.data_state(), RasterDataState::MissingReference);
    assert!(blank.pixels().iter().all(|byte| *byte == 0));
}

#[test]
fn rasters_without_their_blocks_are_filled_or_refused() {
    let (clip, offset) = container_with(&empty_blocks(1));
    let database = database_with_block_data(offset);
    let source = database.layer_raster_source(1).unwrap().unwrap();
    assert!(matches!(
        clip.decode_raster(&database, &source),
        Err(Error::InvalidRaster { .. })
    ));
    database.connection().execute("DELETE FROM ExternalChunk", []).unwrap();
    let image = clip.decode_raster(&database, &source).unwrap();
    assert_eq!(image.data_state(), RasterDataState::MissingExternalChunk);

    let (clip, offset) = container_with(b"something else entirely");
    let database = database_with_block_data(offset);
    let source = database.layer_raster_source(1).unwrap().unwrap();
    assert!(matches!(
        clip.decode_raster(&database, &source),
        Err(Error::UnsupportedRaster { .. })
    ));
}

#[test]
fn walks_meet_from_both_ends() {
    let image =
        RasterImage::from_pixels(3, 1, PixelFormat::GrayAlpha8, vec![1, 2, 3, 4, 5, 6]).unwrap();
    let mut walk = image.gray_alpha8_pixels().unwrap();
    assert_eq!(walk.len(), 3);
    assert_eq!(walk.next_back(), Some(GrayAlpha8Pixel { value: 5, alpha: 6 }));
    assert_eq!(walk.next(), Some(GrayAlpha8Pixel { value: 1, alpha: 2 }));
    assert_eq!(walk.next(), Some(GrayAlpha8Pixel { value: 3, alpha: 4 }));
    assert_eq!(walk.next(), None);
    assert_eq!(walk.next_back(), None);
    let mut common = image.pixel_iter();
    assert_eq!(
        common.next_back(),
        Some(RasterPixel::GrayAlpha8(GrayAlpha8Pixel { value: 5, alpha: 6 }))
    );
    assert_eq!(common.len(), 2);
}

#[test]
fn pixels_are_set_in_the_image() {
    let mut image =
        RasterImage::from_pixels(2, 1, PixelFormat::Rgba8, vec![1, 2, 3, 4, 5, 6, 7, 8]).unwrap();
    {
        let mut walk = image.rgba8_pixels_mut().unwrap();
        let mut last = walk.next_back().unwrap();
        let mut first = walk.next().unwrap();
        assert!(walk.next().is_none());
        let mut pixel = first.get();
        pixel.r = 200;
        first.set(pixel);
        last.set(Rgba8Pixel { r: 9, g: 9, b: 9, a: 9 });
    }
    assert_eq!(image.pixels(), &[200, 2, 3, 4, 9, 9, 9, 9]);
    {
        let mut walk = image.pixel_iter_mut();
        let mut pixel = walk.next_back().unwrap();
        assert!(pixel.checked_add_assign(1));
        assert_eq!(
            pixel.get(),
            RasterPixel::Rgba8(Rgba8Pixel { r: 10, g: 10, b: 10, a: 9 })
        );
    }
    assert_eq!(image.pixels(), &[200, 2, 3, 4, 10, 10, 10, 9]);
}

#[test]
fn inverting_and_adding_are_taken_back() {
    let pixel = Rgba8Pixel { r: 1, g: 100, b: 255, a: 7 };
    let mut twice = pixel;
    twice.invert();
    assert_eq!(twice, Rgba8Pixel { r: 254, g: 155, b: 0, a: 7 });
    twice.invert_rgb();
    assert_eq!(twice, pixel);
    let gray = Gray8Pixel { value: 10 };
    assert_eq!(gray.checked_add(5).unwrap().checked_sub(5), Some(gray));
    let mut alpha = GrayAlpha8Pixel { value: 10, alpha: 20 };
    alpha.invert_value();
    assert_eq!(alpha, GrayAlpha8Pixel { value: 245, alpha: 20 });
}

#[test]
fn pictures_come_back_as_bitmaps() {
    for (format, pixels) in [
        (PixelFormat::Rgba8, vec![1, 2, 3, 4, 5, 6, 7, 8]),
        (PixelFormat::Gray8, vec![5, 6]),
        (PixelFormat::GrayAlpha8, vec![6, 7, 8, 9]),
    ] {
        let image = RasterImage::from_pixels(2, 1, format, pixels).unwrap();
        let copy = image.clone();
        let picture = image.into_dynamic_image();
        assert_eq!(RasterImage::try_from_dynamic_image(picture).unwrap(), copy);
    }
}

#[test]
fn clones_a_layer_with_new_pixels() {
    let (clip, offset) = container_with(&empty_blocks(2));
    let connection = raster_clone_database();
    connection
        .execute("UPDATE Offscreen SET BlockData = ?1 WHERE MainId = 7", (IDENTIFIER,))
        .unwrap();
    connection
        .execute(
            "INSERT INTO ExternalChunk (ExternalID, Offset) VALUES (?1, ?2)",
            (IDENTIFIER, offset as i64),
        )
        .unwrap();
    let mut writer = ClipWriter::new(&clip, Database::from_connection(connection).unwrap());
    let image =
        RasterImage::from_pixels(300, 200, PixelFormat::Rgba8, sample_pixels()).unwrap();
    assert!(matches!(
        writer.clone_raster_layer_from_template_image(
            3,
            2,
            "copy",
            image.clone(),
            &[1],
            Limits::default(),
        ),
        Err(Error::InvalidWrite { .. })
    ));
    assert!(matches!(
        writer.clone_raster_layer_from_template(
            3,
            2,
            "copy",
            PixelFormat::Rgba8,
            image.pixels(),
            &[1, 2],
            Limits::default().with_max_text_bytes(3),
        ),
        Err(Error::LimitExceeded {
            resource: "new raster layer name bytes",
            value: 4,
            limit: 3,
        })
    ));
    assert!(writer.staged().is_empty());
    let layer_id = writer
        .clone_raster_layer_from_template_image(3, 2, "copy", image, &[5, 6], Limits::default())
        .unwrap();
    assert_eq!(layer_id, 4);
    assert_eq!(writer.staged().len(), 1);
    let staged = writer.staged()[0].clone();
    assert_eq!(staged.identifier.len(), 40);
    assert!(staged.identifier.starts_with(b"extrnlid"));
    let header = ExternalChunkHeader {
        identifier: Vec::new(),
        body_offset: 0,
        body_size: staged.body.len() as u64,
    };
    let data = parse_block_data(&staged.body, &header, 10).unwrap();
    assert_eq!(data.present_blocks(), 2);
    assert_eq!(data.blocks()[1].checksum(), 6);
    let sizes = data
        .blocks()
        .iter()
        .map(|block| 112 + block.payload().unwrap().compressed_size() as u32)
        .collect::<Vec<_>>();
    assert_eq!(
        writer.external_body_for_update(&staged.identifier, 0).unwrap(),
        staged.body
    );

    let connection = writer.database().connection();
    let (name, uuid): (String, String) = connection
        .query_row("SELECT LayerName, LayerUuid FROM Layer WHERE MainId = 4", [], |row| {
            Ok((row.get(0)?, row.get(1)?))
        })
        .unwrap();
    assert_eq!(name, "copy");
    assert_eq!(uuid.len(), 36);
    assert_eq!(uuid.chars().filter(char::is_ascii_hexdigit).count(), 32);
    let (attribute, identifier): (Vec<u8>, Vec<u8>) = connection
        .query_row(
            "SELECT Attribute, BlockData FROM Offscreen WHERE LayerId = 4 ORDER BY MainId LIMIT 1",
            [],
            |row| Ok((row.get(0)?, row.get(1)?)),
        )
        .unwrap();
    assert_eq!(
        OffscreenAttributes::parse(&attribute).unwrap().block_sizes(),
        sizes.as_slice()
    );
    assert_eq!(identifier, staged.identifier);
    let distinct: i64 = connection
        .query_row("SELECT count(DISTINCT BlockData) FROM Offscreen", [], |row| row.get(0))
        .unwrap();
    assert_eq!(distinct, 6);
}

#[test]
fn templates_that_are_no_plain_leaves_are_refused() {
    for statement in [
        "UPDATE Layer SET LayerType = 2 WHERE MainId = 3",
        "UPDATE Layer SET LayerLayerMaskMipmap = 9 WHERE MainId = 3",
        "UPDATE Mipmap SET MipmapCount = 3",
        "UPDATE MipmapInfo SET NextIndex = 5 WHERE MainId = 6",
        "UPDATE MipmapInfo SET ThisScale = 120 WHERE MainId = 6",
        "UPDATE MipmapInfo SET ThisScale = 99 WHERE MainId = 5",
        "UPDATE Offscreen SET BlockData = NULL WHERE MainId = 7",
        "UPDATE Offscreen SET BlockData = 5 WHERE MainId = 9",
        "UPDATE LayerThumbnail SET LayerId = 2",
        "UPDATE Layer SET LayerNextIndex = 3 WHERE MainId = 3",
        "UPDATE Canvas SET CanvasRootFolder = 8",
        "ALTER TABLE Layer RENAME COLUMN LayerSelect TO Other",
    ] {
        let connection = raster_clone_database();
        assert!(RasterLayerTemplate::read(&connection, 3, 2, Limits::default()).is_ok());
        connection.execute_batch(statement).unwrap();
        assert!(
            matches!(
                RasterLayerTemplate::read(&connection, 3, 2, Limits::default()),
                Err(Error::InvalidWrite { .. })
            ),
            "{statement}"
        );
    }
}

#[test]
fn new_ids_follow_the_recorded_ones() {
    let connection = raster_clone_database();
    assert_eq!(allocate_raster_ids(&connection, "Offscreen", 3).unwrap(), (10, 12));
    assert!(matches!(
        allocate_raster_ids(&connection, "Offscreen", 0),
        Err(Error::InvalidWrite { .. })
    ));
    connection
        .execute("UPDATE ElemScheme SET MaxIndex = 2 WHERE TableName = 'Layer'", [])
        .unwrap();
    assert!(matches!(
        allocate_raster_ids(&connection, "Layer", 1),
        Err(Error::InvalidWrite { .. })
    ));
    connection
        .execute(
            "UPDATE ElemScheme SET MaxIndex = 9223372036854775807 WHERE TableName = 'Layer'",
            [],
        )
        .unwrap();
    assert!(matches!(
        allocate_raster_ids(&connection, "Layer", 1),
        Err(Error::OffsetOverflow)
    ));
    assert_eq!(sequential_raster_ids(7, 3).unwrap(), [7, 8, 9]);
    assert!(sequential_raster_ids(i64::MAX, 2).is_err());
}

#[test]
fn identifiers_and_uuids_are_written_from_their_seed() {
    let seed = [
        0x01, 0x23, 0x45, 0x67, 0x89, 0xab, 0x4d, 0xef, 0xbe, 0xdc, 0xba, 0x98, 0x76, 0x54, 0x32,
        0x10,
    ];
    assert_eq!(
        seeded_identifier(&seed),
        b"extrnlid0123456789AB4DEFBEDCBA9876543210"
    );
    let digits = seed.iter().flat_map(|byte| [byte / 16, byte % 16]).collect::<Vec<_>>();
    assert_eq!(format_raster_uuid(&digits), "1001234567-89ab-4def-bedc-ba98765432");
}

#[test]
fn a_clone_that_finds_its_parent_changed_is_undone_and_can_be_tried_again() {
    let mut connection = raster_clone_database();
    let template = RasterLayerTemplate::read(&connection, 3, 2, Limits::default()).unwrap();
    let insertion = raster_clone_insertion(&connection, &template);
    connection
        .execute_batch("UPDATE Layer SET LayerFirstChildIndex = 0 WHERE MainId = 2")
        .unwrap();
    let error = insert_raster_layer_clone(&mut connection, &template, &insertion).unwrap_err();
    assert_eq!(
        error.message(),
        "cannot write CLIP container: raster clone parent tree link changed during insertion"
    );
    let rows = |connection: &Connection| -> i64 {
        connection
            .query_row("SELECT count(*) FROM Layer", [], |row| row.get(0))
            .unwrap()
    };
    assert!(connection.is_autocommit());
    assert_eq!(rows(&connection), 2);
    connection
        .execute_batch("UPDATE Layer SET LayerFirstChildIndex = 3 WHERE MainId = 2")
        .unwrap();
    assert_eq!(insert_raster_layer_clone(&mut connection, &template, &insertion).unwrap(), 4);
    assert!(connection.is_autocommit());
    assert_eq!(rows(&connection), 3);
}

#[test]
fn a_clone_inside_another_transaction_is_not_begun() {
    let mut connection = raster_clone_database();
    let template = RasterLayerTemplate::read(&connection, 3, 2, Limits::default()).unwrap();
    let insertion = raster_clone_insertion(&connection, &template);
    connection.execute_batch("BEGIN").unwrap();
    assert!(matches!(
        insert_raster_layer_clone(&mut connection, &template, &insertion),
        Err(Error::Sqlite { .. })
    ));
    assert!(!connection.is_autocommit());
}

#[test]
fn broken_attributes_are_described() {
    let parsed = |bytes: &[u8]| OffscreenAttributes::parse(bytes).unwrap_err().message();
    let valid = attributes();
    let mut header = valid.clone();
    header[3] = 17;
    let mut label = valid.clone();
    label[21] = b'Q';
    let mut total = valid.clone();
    total.push(0);
    let size = valid.len();
    for (bytes, reason) in [
        (
            valid[..9].to_vec(),
            "unexpected end of Offscreen.Attribute".to_owned(),
        ),
        (
            header,
            "attribute header size is 17, expected 16".to_owned(),
        ),
        (
            label,
            "attribute label is \"Qarameter\", expected \"Parameter\"".to_owned(),
        ),
        (
            total,
            format!(
                "attribute sections total {size} bytes, BLOB contains {}",
                size + 1
            ),
        ),
    ] {
        assert_eq!(parsed(&bytes), format!("invalid raster data: {reason}"));
    }
    let packing = |bytes: Vec<u8>| {
        let attributes = OffscreenAttributes::parse(&bytes).unwrap();
        pixel_format(attributes.packing()).unwrap_err().message()
    };
    assert_eq!(
        packing(attributes_with_packing(1, 4, 6, 32, 8)),
        "invalid raster data: packing channel sum (1 + 4) does not match total 6"
    );
    assert_eq!(
        packing(attributes_with_packing(1, 4, 5, 31, 8)),
        "unsupported raster layout: only non-bit-packed 8-bit channels are supported \
         (alpha=1 at 8-bit, buffer=4 at None-bit/channel, monochrome=false)"
    );
    assert_eq!(
        packing(attributes_with_packing(1, 2, 3, 16, 8)),
        "unsupported raster layout: unsupported channel packing (1, 2)"
    );
    assert_eq!(
        RasterImage::from_pixels(2, 1, PixelFormat::GrayAlpha8, vec![0; 3])
            .unwrap_err()
            .message(),
        "invalid raster data: constructed GrayAlpha8 raster has 3 bytes, expected 4"
    );
}

#[test]
fn a_clone_looks_at_its_pixels_before_the_stored_body_and_at_the_checksums_after_it() {
    let (clip, _) = container_with(&empty_blocks(2));
    let connection = raster_clone_database();
    connection
        .execute("UPDATE Offscreen SET BlockData = ?1 WHERE MainId = 7", (IDENTIFIER,))
        .unwrap();
    let mut writer = ClipWriter::new(&clip, Database::from_connection(connection).unwrap());
    let mut refused = |pixels: &[u8]| {
        writer
            .clone_raster_layer_from_template(
                3,
                2,
                "copy",
                PixelFormat::Rgba8,
                pixels,
                &[1],
                Limits::default(),
            )
            .unwrap_err()
            .message()
    };
    assert_eq!(
        refused(&[0; 4]),
        "cannot write CLIP container: replacement raster has 4 bytes, expected 240000"
    );
    assert_eq!(
        refused(&sample_pixels()),
        "cannot write CLIP container: external object to update is missing"
    );
    assert!(writer.staged().is_empty());
}

#[test]
fn templates_that_cannot_be_cloned_are_described() {
    for (statement, reason) in [
        (
            "UPDATE Layer SET LayerType = 2 WHERE MainId = 3",
            "raster template layer 3 is not a plain unmasked pixel leaf",
        ),
        (
            "UPDATE MipmapInfo SET ThisScale = 50.5",
            "raster template base mipmap scale is 50.5, expected 100",
        ),
        (
            "DELETE FROM ElemScheme WHERE TableName = 'Layer'",
            "ElemScheme must contain exactly one Layer row, found 0",
        ),
    ] {
        let (clip, offset) = container_with(&empty_blocks(2));
        let connection = raster_clone_database();
        connection
            .execute("UPDATE Offscreen SET BlockData = ?1 WHERE MainId = 7", (IDENTIFIER,))
            .unwrap();
        connection
            .execute(
                "INSERT INTO ExternalChunk (ExternalID, Offset) VALUES (?1, ?2)",
                (IDENTIFIER, offset as i64),
            )
            .unwrap();
        connection.execute_batch(statement).unwrap();
        let mut writer = ClipWriter::new(&clip, Database::from_connection(connection).unwrap());
        let error = writer
            .clone_raster_layer_from_template(
                3,
                2,
                "copy",
                PixelFormat::Rgba8,
                &sample_pixels(),
                &[5, 6],
                Limits::default(),
            )
            .unwrap_err();
        assert_eq!(error.message(), format!("cannot write CLIP container: {reason}"));
        assert!(writer.staged().is_empty());
    }
}
