//! Validated, forward-compatible access to CLIP STUDIO PAINT files.
//!
//! The on-disk format is proprietary and not officially documented. This
//! crate focuses on the portions that can be validated consistently: the
//! `CSFCHUNK` envelope, top-level chunks, the file header, external chunks and
//! their block data, and the typed document, image, animation, and time-lapse
//! tables of the embedded database. Low-level container, SQLite, raw-value, and
//! opaque-body access remains available as an escape hatch for future or
//! not-yet-understood data.

pub mod animation;
pub mod animation_laws;
pub mod animation_reader;
pub mod attributes;
pub mod attributes_laws;
pub mod bitmap;
pub mod blocks;
pub mod bytes;
pub mod camera;
pub mod camera_laws;
pub mod clip_writer;
pub mod clone_ids;
pub mod clone_ids_laws;
pub mod clone_plan;
pub mod clone_rows;
pub mod cmc;
pub mod cmc_laws;
pub mod columns;
pub mod container;
pub mod container_laws;
pub mod correction;
pub mod correction_bytes;
pub mod database;
pub mod database_laws;
pub mod error;
pub mod external;
pub mod frames;
pub mod frames_laws;
pub mod layout;
pub mod limits;
pub mod links;
pub mod list_laws;
pub mod message;
pub mod mixer;
pub mod mixer_laws;
pub mod model;
pub mod model_laws;
pub mod pictures;
pub mod pixel_laws;
pub mod pixels;
pub mod raster;
pub mod raster_clone;
pub mod raster_laws;
pub mod raster_template;
pub mod raster_tree;
pub mod reals;
pub mod rebuild;
pub mod rebuild_laws;
pub mod row_laws;
pub mod ruler;
pub mod ruler_chain_laws;
pub mod ruler_laws;
pub mod scan;
pub mod sql;
pub mod template_laws;
pub mod text;
pub mod text_arrays;
pub mod text_codec;
pub mod text_laws;
pub mod text_readback;
pub mod tile_codec;
pub mod tiles;
pub mod timelapse;
pub mod timelapse_laws;
pub mod track_rows;
pub mod transaction;
pub mod zlib;

pub use animation::{Animation, AnimationTrack, AnimationTrackKind, CelKeyframe, CelTrack};
pub use attributes::{OffscreenAttributes, PixelPacking};
pub use bitmap::{
    RasterDataState, RasterImage, RasterPixel, RasterPixelMut, RasterPixels, RasterPixelsMut,
};
pub use camera::{
    AnimationTrackValue, AnimationTrackValueEntry, Camera2DLayerData, Camera2DPoint,
    Camera2DTrackValues, Camera2DTransform,
};
pub use clip_writer::ClipWriter;
pub use cmc::{CmcFile, CmcNode};
pub use container::{
    ChunkHeader, ChunkKind, ClipFile, ExternalChunkHeader, FileHeader, RootHeader,
    ValidationSummary, CHUNK_HEADER_SIZE, ROOT_HEADER_SIZE,
};
pub use correction::{
    ColorBalanceAdjustment, Correction, CorrectionCurve, CorrectionCurvePoint,
    CorrectionGradientPoint, CorrectionGradientStop, CorrectionLayerData, CorrectionLevel,
};
pub use database::{
    ColumnSchema, Database, DatabaseSchema, EditableDatabase, ExternalChunkRecord,
    ExternalReferenceColumn, TableSchema,
};
pub use error::Error;
pub use external::{
    Block, BlockData, BlockParameters, BlockPayload, ByteOrder, ExternalBody, ExternalObject,
    LengthPrefixedZlib, MediaKind,
};
pub use frames::{TimeLapseFrame, TimeLapseFrameKind};
pub use limits::Limits;
pub use mixer::{
    AnimationCurve, AnimationCurveKeyframe, SecondaryAnimationCurve,
    SecondaryAnimationCurveKeyframe,
};
pub use model::{BlendMode, Canvas, CanvasPreview, Document, Layer, LayerKind, LayerTree, Project};
pub use pixels::{
    Gray8Pixel, Gray8PixelMut, Gray8Pixels, Gray8PixelsMut, GrayAlpha8Pixel, GrayAlpha8PixelMut,
    GrayAlpha8Pixels, GrayAlpha8PixelsMut, PixelFormat, Rgba8Pixel, Rgba8PixelMut, Rgba8Pixels,
    Rgba8PixelsMut,
};
pub use raster::RasterSource;
pub use ruler::{
    Ruler, RulerCurveData, RulerCurvePoint, RulerKind, RulerLayerData, RulerPoint, RulerVanishPoint,
};
pub use scan::ChunkIter;
pub use text::{TextLayerData, TextObjectData, TextObjectWriteSummary};
pub use tile_codec::DecodedTile;
pub use timelapse::{TimeLapse, TimeLapseBlob, TimeLapseManager, TimeLapseRecord};
pub use track_rows::Timeline;
