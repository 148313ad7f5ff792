//! Changes to a file: an editable copy of its database, and new external bodies.

use rusqlite::Connection;
use vstd::prelude::*;

use crate::bitmap::RasterImage;
use crate::blocks;
use crate::blocks::parse_block_data;
use crate::bytes::same_bytes;
use crate::container::{ClipFile, ExternalChunkHeader};
use crate::database;
use crate::database::Database;
use crate::error;
use crate::error::{Error, Failure};
use crate::external;
use crate::external::{Block, BlockModel, ExternalObjectModel};
use crate::limits::Limits;
use crate::message;
use crate::message::Message;
use crate::pixels::PixelFormat;
use crate::raster_clone;
use crate::raster_clone::{encode_tiles, insert_raster_clone, read_clone_template, CloneDraft};
use crate::raster_template;
use crate::raster_template::{CloneRequest, RasterLayerTemplate};
use crate::rebuild;
use crate::rebuild::rebuild_block_data_body;
use crate::sql::copy_all;
use crate::tile_codec;
use crate::tile_codec::RasterEncoder;

verus! {

fn unwritable(reason: Message) -> (error: Error)
    ensures
        error@ == (Failure::InvalidWrite { reason: reason@ }),
{
    Error::InvalidWrite { reason: reason.build() }
}

/// A body that is to be written under an identifier.
#[derive(Clone, Debug, PartialEq, Eq)]
pub struct StagedBody {
    pub identifier: Vec<u8>,
    pub body: Vec<u8>,
}

/// The model of a [`StagedBody`].
#[verifier::ext_equal]
pub struct StagedModel {
    pub identifier: Seq<u8>,
    pub body: Seq<u8>,
}

impl View for StagedBody {
    type V = StagedModel;

    open spec fn view(&self) -> StagedModel {
        StagedModel { identifier: self.identifier@, body: self.body@ }
    }
}

/// The body that is staged under an identifier, from the bodies below `count`; the last one
/// counts.
pub open spec fn staged_body(staged: Seq<StagedModel>, identifier: Seq<u8>, count: int) -> Option<
    Seq<u8>,
>
    decreases count,
{
    if count <= 0 {
        None
    } else if staged[count - 1].identifier == identifier {
        Some(staged[count - 1].body)
    } else {
        staged_body(staged, identifier, count - 1)
    }
}

/// The body of the object that an identifier names in the file.
pub open spec fn stored_body(
    file: ClipFile,
    object: Result<Option<ExternalObjectModel>, Failure>,
    limit: u64,
) -> Result<Seq<u8>, Failure> {
    match object {
        Err(failure) => Err(failure),
        Ok(None) => Err(
            Failure::InvalidWrite { reason: "external object to update is missing"@ },
        ),
        Ok(Some(object)) => external::limited_range_of(
            file.data@,
            object.header.body_offset,
            object.header.body_size,
            limit,
        ),
    }
}

/// Whether reading a body that is to be replaced can have this outcome.
#[verifier::opaque]
pub open spec fn body_read(
    connection: Connection,
    file: ClipFile,
    schema: Seq<database::TableModel>,
    staged: Seq<StagedModel>,
    identifier: Seq<u8>,
    limit: u64,
    outcome: Result<Seq<u8>, Failure>,
) -> bool {
    match staged_body(staged, identifier, staged.len() as int) {
        Some(body) => outcome == Ok::<Seq<u8>, Failure>(body),
        None => exists|object: Result<Option<ExternalObjectModel>, Failure>|
            #[trigger] database::object_read(
                connection,
                file,
                schema,
                identifier,
                object,
            ) && outcome
                == stored_body(file, object, limit),
    }
}

/// A body with a tile put in the place of one of its blocks.
#[verifier::opaque]
pub open spec fn tile_rebuilt(
    body: Seq<u8>,
    index: u32,
    tile: Seq<u8>,
    checksum: u32,
    limits: Limits,
) -> Result<Seq<u8>, Failure> {
    match rebuild::rebuilt_body(
        body,
        index,
        tile,
        checksum,
        limits.max_blocks_per_external,
        limits.max_decompressed_block_size,
        limits.max_write_external_body_size,
    ) {
        Err(failure) => Err(failure),
        Ok(rebuilt) => Ok(rebuilt.body),
    }
}

fn rebuild_tile(body: &[u8], index: u32, tile: &[u8], checksum: u32, limits: Limits) -> (rebuilt:
    Result<Vec<u8>, Error>)
    ensures
        error::outcome(rebuilt) == tile_rebuilt(body@, index, tile@, checksum, limits),
{
    proof {
        reveal(tile_rebuilt);
    }
    let rebuilt = rebuild_block_data_body(
        body,
        index,
        tile,
        checksum,
        limits.max_blocks_per_external(),
        limits.max_decompressed_block_size(),
        limits.max_write_external_body_size(),
    )?;
    Ok(rebuilt.body)
}

/// A body with the tiles from `at` on put in the place of its blocks.
pub open spec fn tiles_rebuilt(
    body: Seq<u8>,
    tiles: Seq<Seq<u8>>,
    checksums: Seq<u32>,
    at: int,
    limits: Limits,
) -> Result<Seq<u8>, Failure>
    decreases tiles.len() - at,
{
    if at >= tiles.len() {
        Ok(body)
    } else {
        match tile_rebuilt(body, at as u32, tiles[at], checksums[at], limits) {
            Err(failure) => Err(failure),
            Ok(rebuilt) => tiles_rebuilt(rebuilt, tiles, checksums, at + 1, limits),
        }
    }
}

/// The size of the record of a block.
pub open spec fn record_size(block: BlockModel) -> int {
    match block.payload {
        None => 104,
        Some(payload) => 112 + payload.compressed_size,
    }
}

/// The sizes of the records of blocks, which have to be as many as the tiles.
pub open spec fn record_sizes(blocks: Seq<BlockModel>, tiles: nat) -> Result<Seq<u32>, Failure> {
    if blocks.len() != tiles {
        Err(
            Failure::InvalidWrite {
                reason: "rebuilt raster contains "@ + message::decimal(blocks.len())
                    + " tiles, expected "@ + message::decimal(tiles),
            },
        )
    } else if exists|i: int| 0 <= i < blocks.len() && record_size(#[trigger] blocks[i]) > u32::MAX {
        Err(Failure::OffsetOverflow)
    } else {
        Ok(Seq::new(blocks.len(), |i: int| record_size(blocks[i]) as u32))
    }
}

fn read_record_sizes(blocks: &[Block], tiles: usize) -> (sizes: Result<Vec<u32>, Error>)
    ensures
        error::outcome(sizes) == record_sizes(error::views(blocks@), tiles as nat),
{
    let ghost models = error::views(blocks@);
    if blocks.len() != tiles {
        return Err(
            unwritable(
                Message::new("rebuilt raster contains ").number(blocks.len() as u64).text(
                    " tiles, expected ",
                ).number(tiles as u64),
            ),
        );
    }
    let mut sizes: Vec<u32> = Vec::new();
    while sizes.len() < blocks.len()
        invariant
            models == error::views(blocks@),
            blocks@.len() == tiles,
            sizes@.len() <= blocks@.len(),
            forall|i: int|
                0 <= i < sizes@.len() ==> record_size(#[trigger] models[i]) == sizes@[i],
        decreases blocks@.len() - sizes@.len(),
    {
        let block = &blocks[sizes.len()];
        assert(models[sizes@.len() as int] == block@);
        let extra: u64 = match block.payload {
            None => 0,
            Some(payload) => match payload.compressed_size.checked_add(8) {
                Some(extra) => extra,
                None => {
                    assert(record_size(models[sizes@.len() as int]) > u32::MAX);
                    return Err(Error::OffsetOverflow);
                },
            },
        };
        if extra > 0xffff_ff97 {
            assert(record_size(models[sizes@.len() as int]) > u32::MAX);
            return Err(Error::OffsetOverflow);
        }
        sizes.push(104 + extra as u32);
    }
    proof {
        assert(!exists|i: int|
            0 <= i < models.len() && record_size(#[trigger] models[i]) > u32::MAX) by {
            if exists|i: int| 0 <= i < models.len() && record_size(
                #[trigger] models[i],
            ) > u32::MAX {
                let i = choose|i: int|
                    0 <= i < models.len() && record_size(#[trigger] models[i]) > u32::MAX;
                assert(record_size(models[i]) == sizes@[i]);
            }
        }
        assert(sizes@ =~= Seq::new(models.len(), |i: int| record_size(models[i]) as u32));
    }
    Ok(sizes)
}

/// The sizes of the records in a body, which has to have so many.
#[verifier::opaque]
pub open spec fn sizes_in(body: Seq<u8>, tiles: nat, max_blocks: u64) -> Result<Seq<u32>, Failure> {
    match blocks::block_data_of(body, rebuild::whole_body(body.len() as int), max_blocks) {
        Err(failure) => Err(failure),
        Ok(blocks) => record_sizes(blocks, tiles),
    }
}

fn measure_blocks(body: &[u8], tiles: usize, max_blocks: u64) -> (sizes: Result<Vec<u32>, Error>)
    ensures
        error::outcome(sizes) == sizes_in(body@, tiles as nat, max_blocks),
{
    proof {
        reveal(sizes_in);
    }
    assert(body.len() == body@.len());
    let header = ExternalChunkHeader {
        identifier: Vec::new(),
        body_offset: 0,
        body_size: body.len() as u64,
    };
    assert(header@.identifier =~= rebuild::whole_body(body@.len() as int).identifier);
    let data = parse_block_data(body, &header, max_blocks)?;
    read_record_sizes(data.blocks.as_slice(), tiles)
}

/// A body with all of its blocks replaced by tiles, and the sizes of their records.
pub open spec fn body_with_tiles(
    body: Seq<u8>,
    tiles: Seq<Seq<u8>>,
    checksums: Seq<u32>,
    limits: Limits,
) -> Result<(Seq<u8>, Seq<u32>), Failure> {
    if checksums.len() != tiles.len() || tiles.len() > u32::MAX {
        Err(Failure::InvalidWrite { reason: "every tile needs a checksum"@ })
    } else {
        match tiles_rebuilt(body, tiles, checksums, 0, limits) {
            Err(failure) => Err(failure),
            Ok(rebuilt) => match sizes_in(rebuilt, tiles.len(), limits.max_blocks_per_external) {
                Err(failure) => Err(failure),
                Ok(sizes) => Ok((rebuilt, sizes)),
            },
        }
    }
}

/// Replaces all blocks of a body by tiles.
#[verifier::loop_isolation(false)]
pub fn replace_tiles(
    body: Vec<u8>,
    tiles: &Vec<Vec<u8>>,
    checksums: &[u32],
    limits: Limits,
) -> (rebuilt: Result<(Vec<u8>, Vec<u32>), Error>)
    ensures
        match rebuilt {
            Ok((rebuilt, sizes)) => body_with_tiles(
                body@,
                error::views(tiles@),
                checksums@,
                limits,
            ) == Ok::<(Seq<u8>, Seq<u32>), Failure>((rebuilt@, sizes@)),
            Err(error) => body_with_tiles(body@, error::views(tiles@), checksums@, limits) == Err::<
                (Seq<u8>, Seq<u32>),
                Failure,
            >(error@),
        },
{
    let ghost models = error::views(tiles@);
    let ghost start = body@;
    assert(checksums.len() == checksums@.len());
    assert(tiles.len() == tiles@.len());
    if checksums.len() != tiles.len() || tiles.len() as u64 > u32::MAX as u64 {
        return Err(unwritable(Message::new("every tile needs a checksum")));
    }
    let mut current = body;
    let mut at: usize = 0;
    while at < tiles.len()
        invariant
            at <= tiles@.len() <= u32::MAX,
            tiles_rebuilt(start, models, checksums@, 0, limits) == tiles_rebuilt(
                current@,
                models,
                checksums@,
                at as int,
                limits,
            ),
        decreases tiles@.len() - at,
    {
        assert(models[at as int] == tiles@[at as int]@);
        current = rebuild_tile(
            current.as_slice(),
            at as u32,
            tiles[at].as_slice(),
            checksums[at],
            limits,
        )?;
        at = at + 1;
    }
    let sizes = measure_blocks(current.as_slice(), tiles.len(), limits.max_blocks_per_external())?;
    Ok((current, sizes))
}

/// Changes to a file that are yet to be written.
pub struct ClipWriter<'a> {
    pub clip: &'a ClipFile,
    pub database: Database,
    pub staged: Vec<StagedBody>,
}

/// What a layer is cloned from.
pub struct CloneSource {
    pub request: CloneRequest,
    pub layer_name: Seq<char>,
    pub format: PixelFormat,
    pub pixels: Seq<u8>,
    pub checksums: Seq<u32>,
}

/// A layer that was cloned, and the body that was staged for it.
pub struct StagedClone {
    pub layer_id: i64,
    pub body: StagedModel,
}

/// What cloning a layer came to.
pub open spec fn cloned_outcome(done: Result<(i64, StagedBody), Error>) -> Result<
    StagedClone,
    Failure,
> {
    match done {
        Ok((id, body)) => Ok(StagedClone { layer_id: id, body: body@ }),
        Err(error) => Err(error@),
    }
}

/// The layer that was cloned, and the body to stage.
pub open spec fn staged_clone(
    done: Result<raster_clone::RasterCloneModel, Failure>,
    body: Seq<u8>,
) -> Result<StagedClone, Failure> {
    match done {
        Err(failure) => Err(failure),
        Ok(done) => Ok(
            StagedClone {
                layer_id: done.layer_id,
                body: StagedModel { identifier: done.base_identifier, body },
            },
        ),
    }
}

/// Whether cloning a layer, where its tiles have been encoded, can have this outcome.
pub open spec fn cloned_after_tiles(
    connection: Connection,
    source: CloneSource,
    template: raster_template::TemplateModel,
    body: Seq<u8>,
    tiles: Result<Seq<Seq<u8>>, Failure>,
    outcome: Result<StagedClone, Failure>,
) -> bool {
    match tiles {
        Err(failure) => outcome == Err::<StagedClone, Failure>(failure),
        Ok(tiles) => match body_with_tiles(body, tiles, source.checksums, source.request.limits) {
            Err(failure) => outcome == Err::<StagedClone, Failure>(failure),
            Ok((rebuilt, sizes)) => cloned_with_sizes(
                connection,
                source,
                raster_clone::DraftModel { template, tiles },
                rebuilt,
                sizes,
                outcome,
            ),
        },
    }
}

/// Whether cloning a layer, where its body has been read, can have this outcome.
pub open spec fn cloned_after_body(
    connection: Connection,
    source: CloneSource,
    template: raster_template::TemplateModel,
    body: Result<Seq<u8>, Failure>,
    outcome: Result<StagedClone, Failure>,
) -> bool {
    match body {
        Err(failure) => outcome == Err::<StagedClone, Failure>(failure),
        Ok(body) => exists|tiles: Result<Seq<Seq<u8>>, Failure>|
            #[trigger] raster_clone::tiles_of(
                template.levels[0].attributes,
                source.format,
                source.pixels,
                source.request.limits,
                tiles,
            ) && cloned_after_tiles(connection, source, template, body, tiles, outcome),
    }
}

/// Whether cloning a layer, where its new body is known, can have this outcome.
pub open spec fn cloned_with_sizes(
    connection: Connection,
    source: CloneSource,
    draft: raster_clone::DraftModel,
    rebuilt: Seq<u8>,
    sizes: Seq<u32>,
    outcome: Result<StagedClone, Failure>,
) -> bool {
    exists|done: Result<raster_clone::RasterCloneModel, Failure>|
        #[trigger] raster_clone::layer_cloned(
            connection,
            draft,
            source.layer_name,
            sizes,
            source.request.limits,
            done,
        ) && outcome == staged_clone(done, rebuilt)
}

/// Whether cloning a layer, where its template has been read, can have this outcome: first
/// the pixels have to suit the template, and then its body is read.
pub open spec fn cloned_after_template(
    connection: Connection,
    file: ClipFile,
    schema: Seq<database::TableModel>,
    staged: Seq<StagedModel>,
    source: CloneSource,
    template: Result<raster_template::TemplateModel, Failure>,
    outcome: Result<StagedClone, Failure>,
) -> bool {
    match template {
        Err(failure) => outcome == Err::<StagedClone, Failure>(failure),
        Ok(template) => match tile_codec::encoder_fault(
            template.levels[0].attributes,
            source.format,
            source.pixels.len() as int,
            source.request.limits.max_canvas_dimension,
            source.request.limits.max_raster_bytes,
            source.request.limits.max_decompressed_block_size,
        ) {
            Some(failure) => outcome == Err::<StagedClone, Failure>(failure),
            None => exists|body: Result<Seq<u8>, Failure>|
                #[trigger] body_read(
                    connection,
                    file,
                    schema,
                    staged,
                    template.base_identifier,
                    source.request.limits.max_write_external_body_size,
                    body,
                ) && cloned_after_body(connection, source, template, body, outcome),
        },
    }
}

/// Whether cloning a layer can have this outcome.
pub open spec fn clone_written(
    connection: Connection,
    file: ClipFile,
    schema: Seq<database::TableModel>,
    staged: Seq<StagedModel>,
    source: CloneSource,
    outcome: Result<StagedClone, Failure>,
) -> bool {
    exists|template: Result<raster_template::TemplateModel, Failure>|
        #[trigger] raster_clone::clone_template_read(
            connection,
            source.request,
            source.layer_name,
            template,
        ) && cloned_after_template(connection, file, schema, staged, source, template, outcome)
}

/// What a clone is written from.
pub open spec fn clone_source(
    request: CloneRequest,
    layer_name: Seq<char>,
    format: PixelFormat,
    pixels: Seq<u8>,
    checksums: Seq<u32>,
) -> CloneSource {
    CloneSource { request, layer_name, format, pixels, checksums }
}

/// Whether bodies were staged as a clone has it: one more for a layer that was cloned, and
/// none where cloning failed.
pub open spec fn clone_staged(
    connection: Connection,
    file: ClipFile,
    schema: Seq<database::TableModel>,
    before: Seq<StagedModel>,
    after: Seq<StagedModel>,
    source: CloneSource,
    id: Result<i64, Failure>,
) -> bool {
    match id {
        Ok(id) => after.len() == before.len() + 1 && after.drop_last() == before && clone_written(
            connection,
            file,
            schema,
            before,
            source,
            Ok(StagedClone { layer_id: id, body: after.last() }),
        ),
        Err(failure) => after == before && clone_written(
            connection,
            file,
            schema,
            before,
            source,
            Err(failure),
        ),
    }
}

#[verifier::spinoff_prover]
fn clone_with_tiles(
    connection: &mut Connection,
    draft: &CloneDraft,
    layer_name: &str,
    body: Vec<u8>,
    checksums: &[u32],
    limits: Limits,
    Ghost(source): Ghost<CloneSource>,
) -> (done: Result<(i64, StagedBody), Error>)
    requires
        draft@.template.levels.len() > 0,
        source.layer_name == layer_name@,
        source.checksums == checksums@,
        source.request.limits == limits,
    ensures
        *final(connection) == *old(connection),
        cloned_after_tiles(
            *old(connection),
            source,
            draft@.template,
            body@,
            Ok(draft@.tiles),
            cloned_outcome(done),
        ),
{
    let ghost tiles: Result<Seq<Seq<u8>>, Failure> = Ok(draft@.tiles);
    let ghost before = body@;
    let ghost template = draft@.template;
    let (rebuilt, sizes) = match replace_tiles(body, &draft.tiles, checksums, limits) {
        Ok(rebuilt) => rebuilt,
        Err(error) => {
            assert(
                cloned_after_tiles(*connection, source, template, before, tiles, Err(error@))
            );
            return Err(error);
        },
    };
    let done = insert_raster_clone(
        connection,
        draft,
        layer_name,
        sizes.as_slice(),
        limits,
    );
    let ghost inserted = error::outcome(done);
    assert(raster_clone::layer_cloned(
        *connection,
        draft@,
        source.layer_name,
        sizes@,
        source.request.limits,
        inserted,
    ));
    match done {
        Ok(done) => {
            let staged = StagedBody { identifier: done.base_identifier, body: rebuilt };
            proof {
                let outcome = Ok(StagedClone { layer_id: done.layer_id, body: staged@ });
                assert(outcome == staged_clone(inserted, rebuilt@));
                assert(cloned_with_sizes(*connection, source, draft@, rebuilt@, sizes@, outcome));
                assert(cloned_after_tiles(*connection, source, template, before, tiles, outcome));
            }
            Ok((done.layer_id, staged))
        },
        Err(error) => {
            assert(staged_clone(inserted, rebuilt@) == Err::<StagedClone, Failure>(error@));
            assert(cloned_with_sizes(*connection, source, draft@, rebuilt@, sizes@, Err(error@)));
            assert(
                cloned_after_tiles(*connection, source, template, before, tiles, Err(error@))
            );
            Err(error)
        },
    }
}

impl<'a> ClipWriter<'a> {
    /// Starts changes to a file, with its database opened for editing.
    #[must_use]
    pub fn new(clip: &'a ClipFile, database: Database) -> (writer: ClipWriter<'a>)
        ensures
            *writer.clip == *clip,
            writer.database == database,
            writer.staged@.len() == 0,
    {
        ClipWriter { clip, database, staged: Vec::new() }
    }

    /// The database that is edited.
    pub fn database(&self) -> (database: &Database)
        ensures
            *database == self.database,
    {
        &self.database
    }

    /// The bodies that are yet to be written.
    pub fn staged(&self) -> (staged: &[StagedBody])
        ensures
            staged@ == self.staged@,
    {
        self.staged.as_slice()
    }

    fn find_staged(&self, identifier: &[u8]) -> (body: Option<Vec<u8>>)
        ensures
            error::optional_bytes(body) == staged_body(
                error::views(self.staged@),
                identifier@,
                self.staged@.len() as int,
            ),
    {
        let ghost models = error::views(self.staged@);
        let mut count: usize = self.staged.len();
        while count > 0
            invariant
                count <= self.staged@.len(),
                models == error::views(self.staged@),
                staged_body(models, identifier@, self.staged@.len() as int) == staged_body(
                    models,
                    identifier@,
                    count as int,
                ),
            decreases count,
        {
            assert(models[count - 1] == self.staged@[count - 1]@);
            let entry = &self.staged[count - 1];
            if same_bytes(entry.identifier.as_slice(), identifier) {
                return Some(copy_all(&entry.body));
            }
            count = count - 1;
        }
        None
    }

    /// The body that an identifier names, as it stands with the changes.
    pub fn external_body_for_update(&self, identifier: &[u8], limit: u64) -> (body: Result<
        Vec<u8>,
        Error,
    >)
        ensures
            body_read(
                self.database.connection,
                *self.clip,
                self.database.schema@,
                error::views(self.staged@),
                identifier@,
                limit,
                error::outcome(body),
            ),
    {
        proof {
            reveal(body_read);
        }
        if let Some(body) = self.find_staged(identifier) {
            return Ok(body);
        }
        let object = self.clip.resolve_external_object(&self.database, identifier);
        let ghost read = error::optional_outcome(object);
        assert(
            database::object_read(
                self.database.connection,
                *self.clip,
                self.database.schema@,
                identifier@,
                read,
            )
        );
        let body = match object {
            Err(error) => Err(error),
            Ok(None) => Err(
                unwritable(Message::new("external object to update is missing")),
            ),
            Ok(Some(object)) => self.clip.read_external_body(&object, limit),
        };
        assert(error::outcome(body) == stored_body(*self.clip, read, limit));
        body
    }

    fn clone_from(
        &mut self,
        template: RasterLayerTemplate,
        layer_name: &str,
        format: PixelFormat,
        pixels: &[u8],
        checksums: &[u32],
        limits: Limits,
        Ghost(source): Ghost<CloneSource>,
    ) -> (done: Result<(i64, StagedBody), Error>)
        requires
            template@.levels.len() > 0,
            source.layer_name == layer_name@,
            source.format == format,
            source.pixels == pixels@,
            source.checksums == checksums@,
            source.request.limits == limits,
        ensures
            *final(self) == *old(self),
            cloned_after_template(
                old(self).database.connection,
                *old(self).clip,
                old(self).database.schema@,
                error::views(old(self).staged@),
                source,
                Ok(template@),
                cloned_outcome(done),
            ),
    {
        let ghost model = template@;
        let ghost connection = self.database.connection;
        assert(model.levels[0] == template.levels@[0]@);
        let encoder = RasterEncoder::new(
            &template.levels[0].attributes,
            format,
            pixels,
            limits.max_canvas_dimension(),
            limits.max_raster_bytes(),
            limits.max_decompressed_block_size(),
        )?;
        assert(raster_clone::encodes(encoder, model.levels[0].attributes, format, pixels@));
        let body = self.external_body_for_update(
            template.base_identifier.as_slice(),
            limits.max_write_external_body_size(),
        );
        let ghost read = error::outcome(body);
        assert(body_read(
            connection,
            *self.clip,
            self.database.schema@,
            error::views(self.staged@),
            model.base_identifier,
            source.request.limits.max_write_external_body_size,
            read,
        ));
        let body = match body {
            Ok(body) => body,
            Err(error) => {
                assert(cloned_after_body(connection, source, model, read, Err(error@)));
                return Err(error);
            },
        };
        let ghost stored = body@;
        let tiles = encode_tiles(&encoder);
        let ghost encoded = error::listed(tiles);
        assert(raster_clone::tiles_of(
            model.levels[0].attributes,
            source.format,
            source.pixels,
            source.request.limits,
            encoded,
        ));
        let tiles = match tiles {
            Ok(tiles) => tiles,
            Err(error) => {
                assert(
                    cloned_after_tiles(connection, source, model, stored, encoded, Err(error@))
                );
                assert(cloned_after_body(connection, source, model, read, Err(error@)));
                return Err(error);
            },
        };
        let draft = CloneDraft { template, tiles };
        let done = clone_with_tiles(
            &mut self.database.connection,
            &draft,
            layer_name,
            body,
            checksums,
            limits,
            Ghost(source),
        );
        proof {
            let outcome = cloned_outcome(done);
            assert(cloned_after_tiles(connection, source, model, stored, encoded, outcome));
            assert(cloned_after_body(connection, source, model, read, outcome));
        }
        done
    }

    /// Clones one plain raster layer and replaces its base pixels.
    ///
    /// The template and destination parent must belong to the same canvas.
    /// Every unknown column in the template's `Layer`, `Mipmap`,
    /// `MipmapInfo`, `Offscreen`, and `LayerThumbnail` rows is preserved.
    /// Row identities, semantic IDs, the layer UUID, external identifiers,
    /// ownership references, and tree links are regenerated transactionally.
    ///
    /// Only the 100% base mipmap receives a new external block-data body, which is
    /// staged; `checksums` holds the checksum of each of its tiles. Where the rows
    /// cannot be added, nothing is staged.
    ///
    /// The new layer is inserted as the first child of `parent_layer_id`.
    /// The template must be a leaf with `LayerType = 1`, no layer mask, one
    /// valid render-mipmap chain, and one valid render-thumbnail row.
    pub fn clone_raster_layer_from_template(
        &mut self,
        template_layer_id: i64,
        parent_layer_id: i64,
        layer_name: &str,
        format: PixelFormat,
        pixels: &[u8],
        checksums: &[u32],
        limits: Limits,
    ) -> (id: Result<i64, Error>)
        ensures
            final(self).clip == old(self).clip,
            final(self).database == old(self).database,
            clone_staged(
                old(self).database.connection,
                *old(self).clip,
                old(self).database.schema@,
                error::views(old(self).staged@),
                error::views(final(self).staged@),
                clone_source(
                    CloneRequest { layer_id: template_layer_id, parent_layer_id, limits },
                    layer_name@,
                    format,
                    pixels@,
                    checksums@,
                ),
                error::plain(id),
            ),
    {
        let request = CloneRequest { layer_id: template_layer_id, parent_layer_id, limits };
        let ghost source = clone_source(request, layer_name@, format, pixels@, checksums@);
        let ghost before = error::views(self.staged@);
        let ghost file = *self.clip;
        let ghost schema = self.database.schema@;
        let template = read_clone_template(&self.database.connection, request, layer_name);
        let ghost read = error::outcome(template);
        assert(raster_clone::clone_template_read(
            self.database.connection,
            source.request,
            source.layer_name,
            read,
        ));
        let template = match template {
            Ok(template) => template,
            Err(error) => {
                assert(
                    cloned_after_template(
                        self.database.connection,
                        file,
                        schema,
                        before,
                        source,
                        read,
                        Err(error@),
                    )
                );
                return Err(error);
            },
        };
        let done = self.clone_from(
            template,
            layer_name,
            format,
            pixels,
            checksums,
            limits,
            Ghost(source),
        );
        match done {
            Ok((id, staged)) => {
                proof {
                    error::views_push(self.staged@, staged);
                    let after = before.push(staged@);
                    assert(after.drop_last() =~= before);
                    assert(after.last() == staged@);
                }
                self.staged.push(staged);
                Ok(id)
            },
            Err(error) => Err(error),
        }
    }

    /// Clones one plain raster layer from a complete semantic image.
    ///
    /// The image's pixel format is retained. See
    /// [`Self::clone_raster_layer_from_template`] for raw row-major
    /// interoperability.
    pub fn clone_raster_layer_from_template_image(
        &mut self,
        template_layer_id: i64,
        parent_layer_id: i64,
        layer_name: &str,
        image: RasterImage,
        checksums: &[u32],
        limits: Limits,
    ) -> (id: Result<i64, Error>)
        ensures
            final(self).clip == old(self).clip,
            final(self).database == old(self).database,
            clone_staged(
                old(self).database.connection,
                *old(self).clip,
                old(self).database.schema@,
                error::views(old(self).staged@),
                error::views(final(self).staged@),
                clone_source(
                    CloneRequest { layer_id: template_layer_id, parent_layer_id, limits },
                    layer_name@,
                    image@.format,
                    image@.pixels,
                    checksums@,
                ),
                error::plain(id),
            ),
    {
        let format = image.format();
        let pixels = image.into_pixels();
        self.clone_raster_layer_from_template(
            template_layer_id,
            parent_layer_id,
            layer_name,
            format,
            pixels.as_slice(),
            checksums,
            limits,
        )
    }
}

} // verus!
