//! Safety limits that bound what a parser accepts and allocates.

use vstd::prelude::*;

verus! {

/// Configurable safety limits applied while parsing untrusted files.
#[derive(Clone, Copy, Debug, PartialEq, Eq, Structural)]
pub struct Limits {
    pub max_identifier_size: u64,
    pub max_top_level_chunks: u64,
    pub max_blocks_per_external: u64,
    pub max_database_size: u64,
    pub max_decompressed_block_size: u64,
    pub max_raster_bytes: u64,
    pub max_preview_bytes: u64,
    pub max_vector_data_bytes: u64,
    pub max_vector_objects: u64,
    pub max_text_bytes: u64,
    pub max_text_objects: u64,
    pub max_layers: u64,
    pub max_layer_tree_depth: u64,
    pub max_canvas_dimension: u32,
    pub max_animation_bytes: u64,
    pub max_animation_items: u64,
    pub max_time_lapse_blob_bytes: u64,
    pub max_time_lapse_items: u64,
    pub max_cmc_nodes: u64,
    pub max_correction_bytes: u64,
    pub max_correction_items: u64,
    pub max_ruler_data_bytes: u64,
    pub max_ruler_items: u64,
    pub max_write_external_body_size: u64,
}

impl Limits {
    /// Returns the maximum accepted file or external-object identifier size.
    #[must_use]
    pub fn max_identifier_size(&self) -> (value: u64)
        ensures
            value == self.max_identifier_size,
    {
        self.max_identifier_size
    }

    /// Returns the maximum number of top-level chunks.
    #[must_use]
    pub fn max_top_level_chunks(&self) -> (value: u64)
        ensures
            value == self.max_top_level_chunks,
    {
        self.max_top_level_chunks
    }

    /// Returns the maximum number of blocks in one external object.
    #[must_use]
    pub fn max_blocks_per_external(&self) -> (value: u64)
        ensures
            value == self.max_blocks_per_external,
    {
        self.max_blocks_per_external
    }

    /// Returns the maximum accepted SQLite payload size.
    #[must_use]
    pub fn max_database_size(&self) -> (value: u64)
        ensures
            value == self.max_database_size,
    {
        self.max_database_size
    }

    /// Returns the maximum accepted decompressed size of one block.
    #[must_use]
    pub fn max_decompressed_block_size(&self) -> (value: u64)
        ensures
            value == self.max_decompressed_block_size,
    {
        self.max_decompressed_block_size
    }

    /// Returns the maximum allocation for one decoded raster image.
    #[must_use]
    pub fn max_raster_bytes(&self) -> (value: u64)
        ensures
            value == self.max_raster_bytes,
    {
        self.max_raster_bytes
    }

    /// Returns the maximum accepted encoded size of one canvas preview.
    #[must_use]
    pub fn max_preview_bytes(&self) -> (value: u64)
        ensures
            value == self.max_preview_bytes,
    {
        self.max_preview_bytes
    }

    /// Returns the maximum accepted size of one raw vector-data body.
    #[must_use]
    pub fn max_vector_data_bytes(&self) -> (value: u64)
        ensures
            value == self.max_vector_data_bytes,
    {
        self.max_vector_data_bytes
    }

    /// Returns the maximum number of vector-data rows accepted for one layer.
    #[must_use]
    pub fn max_vector_objects(&self) -> (value: u64)
        ensures
            value == self.max_vector_objects,
    {
        self.max_vector_objects
    }

    /// Returns the maximum accepted total text-layer payload size.
    #[must_use]
    pub fn max_text_bytes(&self) -> (value: u64)
        ensures
            value == self.max_text_bytes,
    {
        self.max_text_bytes
    }

    /// Returns the maximum number of text objects accepted for one layer.
    #[must_use]
    pub fn max_text_objects(&self) -> (value: u64)
        ensures
            value == self.max_text_objects,
    {
        self.max_text_objects
    }

    /// Returns the maximum number of layers accepted by the document model.
    #[must_use]
    pub fn max_layers(&self) -> (value: u64)
        ensures
            value == self.max_layers,
    {
        self.max_layers
    }

    /// Returns the maximum accepted layer-tree depth.
    #[must_use]
    pub fn max_layer_tree_depth(&self) -> (value: u64)
        ensures
            value == self.max_layer_tree_depth,
    {
        self.max_layer_tree_depth
    }

    /// Returns the maximum accepted width or height of a canvas.
    #[must_use]
    pub fn max_canvas_dimension(&self) -> (value: u32)
        ensures
            value == self.max_canvas_dimension,
    {
        self.max_canvas_dimension
    }

    /// Returns the maximum accepted size of one animation payload.
    #[must_use]
    pub fn max_animation_bytes(&self) -> (value: u64)
        ensures
            value == self.max_animation_bytes,
    {
        self.max_animation_bytes
    }

    /// Returns the maximum number of timelines, tracks, curves, keys, or values.
    #[must_use]
    pub fn max_animation_items(&self) -> (value: u64)
        ensures
            value == self.max_animation_items,
    {
        self.max_animation_items
    }

    /// Returns the maximum accepted decoded size of one time-lapse blob.
    #[must_use]
    pub fn max_time_lapse_blob_bytes(&self) -> (value: u64)
        ensures
            value == self.max_time_lapse_blob_bytes,
    {
        self.max_time_lapse_blob_bytes
    }

    /// Returns the maximum number of time-lapse rows or frames.
    #[must_use]
    pub fn max_time_lapse_items(&self) -> (value: u64)
        ensures
            value == self.max_time_lapse_items,
    {
        self.max_time_lapse_items
    }

    /// Returns the maximum number of page-management nodes.
    #[must_use]
    pub fn max_cmc_nodes(&self) -> (value: u64)
        ensures
            value == self.max_cmc_nodes,
    {
        self.max_cmc_nodes
    }

    /// Returns the maximum accepted size of one correction-layer payload.
    #[must_use]
    pub fn max_correction_bytes(&self) -> (value: u64)
        ensures
            value == self.max_correction_bytes,
    {
        self.max_correction_bytes
    }

    /// Returns the maximum number of channels, stops, or points in one correction.
    #[must_use]
    pub fn max_correction_items(&self) -> (value: u64)
        ensures
            value == self.max_correction_items,
    {
        self.max_correction_items
    }

    /// Returns the maximum accepted size of one ruler payload.
    #[must_use]
    pub fn max_ruler_data_bytes(&self) -> (value: u64)
        ensures
            value == self.max_ruler_data_bytes,
    {
        self.max_ruler_data_bytes
    }

    /// Returns the maximum number of rulers, guides, or curve points.
    #[must_use]
    pub fn max_ruler_items(&self) -> (value: u64)
        ensures
            value == self.max_ruler_items,
    {
        self.max_ruler_items
    }

    /// Returns the maximum accepted size of one rewritten external body.
    #[must_use]
    pub fn max_write_external_body_size(&self) -> (value: u64)
        ensures
            value == self.max_write_external_body_size,
    {
        self.max_write_external_body_size
    }

    /// Sets the maximum accepted file or external-object identifier size and keeps every other limit.
    #[must_use]
    pub fn with_max_identifier_size(self, value: u64) -> (limits: Limits)
        ensures
            limits == (Limits { max_identifier_size: value, ..self }),
    {
        Limits { max_identifier_size: value, ..self }
    }

    /// Sets the maximum number of top-level chunks and keeps every other limit.
    #[must_use]
    pub fn with_max_top_level_chunks(self, value: u64) -> (limits: Limits)
        ensures
            limits == (Limits { max_top_level_chunks: value, ..self }),
    {
        Limits { max_top_level_chunks: value, ..self }
    }

    /// Sets the maximum number of blocks in one external object and keeps every other limit.
    #[must_use]
    pub fn with_max_blocks_per_external(self, value: u64) -> (limits: Limits)
        ensures
            limits == (Limits { max_blocks_per_external: value, ..self }),
    {
        Limits { max_blocks_per_external: value, ..self }
    }

    /// Sets the maximum accepted SQLite payload size and keeps every other limit.
    #[must_use]
    pub fn with_max_database_size(self, value: u64) -> (limits: Limits)
        ensures
            limits == (Limits { max_database_size: value, ..self }),
    {
        Limits { max_database_size: value, ..self }
    }

    /// Sets the maximum accepted decompressed size of one block and keeps every other limit.
    #[must_use]
    pub fn with_max_decompressed_block_size(self, value: u64) -> (limits: Limits)
        ensures
            limits == (Limits { max_decompressed_block_size: value, ..self }),
    {
        Limits { max_decompressed_block_size: value, ..self }
    }

    /// Sets the maximum allocation for one decoded raster image and keeps every other limit.
    #[must_use]
    pub fn with_max_raster_bytes(self, value: u64) -> (limits: Limits)
        ensures
            limits == (Limits { max_raster_bytes: value, ..self }),
    {
        Limits { max_raster_bytes: value, ..self }
    }

    /// Sets the maximum accepted encoded size of one canvas preview and keeps every other limit.
    #[must_use]
    pub fn with_max_preview_bytes(self, value: u64) -> (limits: Limits)
        ensures
            limits == (Limits { max_preview_bytes: value, ..self }),
    {
        Limits { max_preview_bytes: value, ..self }
    }

    /// Sets the maximum accepted size of one raw vector-data body and keeps every other limit.
    #[must_use]
    pub fn with_max_vector_data_bytes(self, value: u64) -> (limits: Limits)
        ensures
            limits == (Limits { max_vector_data_bytes: value, ..self }),
    {
        Limits { max_vector_data_bytes: value, ..self }
    }

    /// Sets the maximum number of vector-data rows accepted for one layer and keeps every other limit.
    #[must_use]
    pub fn with_max_vector_objects(self, value: u64) -> (limits: Limits)
        ensures
            limits == (Limits { max_vector_objects: value, ..self }),
    {
        Limits { max_vector_objects: value, ..self }
    }

    /// Sets the maximum accepted total text-layer payload size and keeps every other limit.
    #[must_use]
    pub fn with_max_text_bytes(self, value: u64) -> (limits: Limits)
        ensures
            limits == (Limits { max_text_bytes: value, ..self }),
    {
        Limits { max_text_bytes: value, ..self }
    }

    /// Sets the maximum number of text objects accepted for one layer and keeps every other limit.
    #[must_use]
    pub fn with_max_text_objects(self, value: u64) -> (limits: Limits)
        ensures
            limits == (Limits { max_text_objects: value, ..self }),
    {
        Limits { max_text_objects: value, ..self }
    }

    /// Sets the maximum number of layers accepted by the document model and keeps every other limit.
    #[must_use]
    pub fn with_max_layers(self, value: u64) -> (limits: Limits)
        ensures
            limits == (Limits { max_layers: value, ..self }),
    {
        Limits { max_layers: value, ..self }
    }

    /// Sets the maximum accepted layer-tree depth and keeps every other limit.
    #[must_use]
    pub fn with_max_layer_tree_depth(self, value: u64) -> (limits: Limits)
        ensures
            limits == (Limits { max_layer_tree_depth: value, ..self }),
    {
        Limits { max_layer_tree_depth: value, ..self }
    }

    /// Sets the maximum accepted width or height of a canvas and keeps every other limit.
    #[must_use]
    pub fn with_max_canvas_dimension(self, value: u32) -> (limits: Limits)
        ensures
            limits == (Limits { max_canvas_dimension: value, ..self }),
    {
        Limits { max_canvas_dimension: value, ..self }
    }

    /// Sets the maximum accepted size of one animation payload and keeps every other limit.
    #[must_use]
    pub fn with_max_animation_bytes(self, value: u64) -> (limits: Limits)
        ensures
            limits == (Limits { max_animation_bytes: value, ..self }),
    {
        Limits { max_animation_bytes: value, ..self }
    }

    /// Sets the maximum number of timelines, tracks, curves, keys, or values and keeps every other limit.
    #[must_use]
    pub fn with_max_animation_items(self, value: u64) -> (limits: Limits)
        ensures
            limits == (Limits { max_animation_items: value, ..self }),
    {
        Limits { max_animation_items: value, ..self }
    }

    /// Sets the maximum accepted decoded size of one time-lapse blob and keeps every other limit.
    #[must_use]
    pub fn with_max_time_lapse_blob_bytes(self, value: u64) -> (limits: Limits)
        ensures
            limits == (Limits { max_time_lapse_blob_bytes: value, ..self }),
    {
        Limits { max_time_lapse_blob_bytes: value, ..self }
    }

    /// Sets the maximum number of time-lapse rows or frames and keeps every other limit.
    #[must_use]
    pub fn with_max_time_lapse_items(self, value: u64) -> (limits: Limits)
        ensures
            limits == (Limits { max_time_lapse_items: value, ..self }),
    {
        Limits { max_time_lapse_items: value, ..self }
    }

    /// Sets the maximum number of page-management nodes and keeps every other limit.
    #[must_use]
    pub fn with_max_cmc_nodes(self, value: u64) -> (limits: Limits)
        ensures
            limits == (Limits { max_cmc_nodes: value, ..self }),
    {
        Limits { max_cmc_nodes: value, ..self }
    }

    /// Sets the maximum accepted size of one correction-layer payload and keeps every other limit.
    #[must_use]
    pub fn with_max_correction_bytes(self, value: u64) -> (limits: Limits)
        ensures
            limits == (Limits { max_correction_bytes: value, ..self }),
    {
        Limits { max_correction_bytes: value, ..self }
    }

    /// Sets the maximum number of channels, stops, or points in one correction and keeps every other limit.
    #[must_use]
    pub fn with_max_correction_items(self, value: u64) -> (limits: Limits)
        ensures
            limits == (Limits { max_correction_items: value, ..self }),
    {
        Limits { max_correction_items: value, ..self }
    }

    /// Sets the maximum accepted size of one ruler payload and keeps every other limit.
    #[must_use]
    pub fn with_max_ruler_data_bytes(self, value: u64) -> (limits: Limits)
        ensures
            limits == (Limits { max_ruler_data_bytes: value, ..self }),
    {
        Limits { max_ruler_data_bytes: value, ..self }
    }

    /// Sets the maximum number of rulers, guides, or curve points and keeps every other limit.
    #[must_use]
    pub fn with_max_ruler_items(self, value: u64) -> (limits: Limits)
        ensures
            limits == (Limits { max_ruler_items: value, ..self }),
    {
        Limits { max_ruler_items: value, ..self }
    }

    /// Sets the maximum accepted size of one rewritten external body and keeps every other limit.
    #[must_use]
    pub fn with_max_write_external_body_size(self, value: u64) -> (limits: Limits)
        ensures
            limits == (Limits { max_write_external_body_size: value, ..self }),
    {
        Limits { max_write_external_body_size: value, ..self }
    }

    /// The limits used when a caller configures none.
    pub open spec fn standard() -> Limits {
        Limits {
            max_identifier_size: 65536,
            max_top_level_chunks: 1_000_000,
            max_blocks_per_external: 1_000_000,
            max_database_size: 536_870_912,
            max_decompressed_block_size: 16_777_216,
            max_raster_bytes: 1_073_741_824,
            max_preview_bytes: 268_435_456,
            max_vector_data_bytes: 268_435_456,
            max_vector_objects: 1_000_000,
            max_text_bytes: 67_108_864,
            max_text_objects: 1_000_000,
            max_layers: 1_000_000,
            max_layer_tree_depth: 4_096,
            max_canvas_dimension: 1_000_000,
            max_animation_bytes: 268_435_456,
            max_animation_items: 1_000_000,
            max_time_lapse_blob_bytes: 268_435_456,
            max_time_lapse_items: 1_000_000,
            max_cmc_nodes: 1_000_000,
            max_correction_bytes: 16_777_216,
            max_correction_items: 1_000_000,
            max_ruler_data_bytes: 67_108_864,
            max_ruler_items: 1_000_000,
            max_write_external_body_size: 1_073_741_824,
        }
    }
}

impl Default for Limits {
    fn default() -> (limits: Self)
        ensures
            limits == Limits::standard(),
    {
        Limits {
            max_identifier_size: 65536,
            max_top_level_chunks: 1_000_000,
            max_blocks_per_external: 1_000_000,
            max_database_size: 536_870_912,
            max_decompressed_block_size: 16_777_216,
            max_raster_bytes: 1_073_741_824,
            max_preview_bytes: 268_435_456,
            max_vector_data_bytes: 268_435_456,
            max_vector_objects: 1_000_000,
            max_text_bytes: 67_108_864,
            max_text_objects: 1_000_000,
            max_layers: 1_000_000,
            max_layer_tree_depth: 4_096,
            max_canvas_dimension: 1_000_000,
            max_animation_bytes: 268_435_456,
            max_animation_items: 1_000_000,
            max_time_lapse_blob_bytes: 268_435_456,
            max_time_lapse_items: 1_000_000,
            max_cmc_nodes: 1_000_000,
            max_correction_bytes: 16_777_216,
            max_correction_items: 1_000_000,
            max_ruler_data_bytes: 67_108_864,
            max_ruler_items: 1_000_000,
            max_write_external_body_size: 1_073_741_824,
        }
    }
}

} // verus!
