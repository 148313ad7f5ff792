//! Raster layers that others can be cloned from.

use std::collections::BTreeSet;

use rusqlite::Connection;
use vstd::prelude::*;

use crate::attributes;
use crate::attributes::OffscreenAttributes;
use crate::columns;
use crate::database;
use crate::error;
use crate::error::{Error, Failure};
use crate::limits::Limits;
use crate::message;
use crate::message::Message;
use crate::raster_tree;
use crate::raster_tree::{
    find_folder_depth, read_integers, require_raster_clone_columns, unique_row, TreeRow,
};
use crate::reals::Double;
use crate::sql;
use crate::sql::{collect, copy_all, query_all, query_by_id, Reply, SqlModel, SqlRow, SqlValue};
use crate::text_codec;
use crate::text_codec::decode_utf8;

verus! {

fn unwritable(reason: Message) -> (error: Error)
    ensures
        error@ == (Failure::InvalidWrite { reason: reason@ }),
{
    Error::InvalidWrite { reason: reason.build() }
}

/// How a column holds an external identifier.
#[derive(Clone, Copy, Debug, PartialEq, Eq, Structural)]
pub enum BlockStorage {
    /// As a text.
    Text,
    /// As a byte string.
    Blob,
}

/// An external identifier, and how a column holds it.
#[derive(Clone, Debug, PartialEq, Eq)]
pub struct BlockReference {
    pub identifier: Vec<u8>,
    pub storage: BlockStorage,
}

/// The model of a [`BlockReference`].
#[verifier::ext_equal]
pub struct ReferenceModel {
    pub identifier: Seq<u8>,
    pub storage: BlockStorage,
}

impl View for BlockReference {
    type V = ReferenceModel;

    open spec fn view(&self) -> ReferenceModel {
        ReferenceModel {
            identifier: self.identifier@,
            storage: self.storage,
        }
    }
}

/// The external identifier in a column; `None` where the column is `NULL`.
pub open spec fn reference_of(value: SqlModel) -> Result<Option<ReferenceModel>, Failure> {
    match value {
        SqlModel::Null => Ok(None),
        SqlModel::Text(identifier) => Ok(
            Some(ReferenceModel { identifier, storage: BlockStorage::Text }),
        ),
        SqlModel::Blob(identifier) => Ok(
            Some(ReferenceModel { identifier, storage: BlockStorage::Blob }),
        ),
        _ => Err(
            Failure::InvalidWrite {
                reason: "Offscreen.BlockData is neither NULL, TEXT, nor BLOB"@,
            },
        ),
    }
}

/// Reads the external identifier in a column.
pub fn raster_block_data(value: &SqlValue) -> (reference: Result<Option<BlockReference>, Error>)
    ensures
        error::optional_outcome(reference) == reference_of(value@),
{
    match value {
        SqlValue::Null => Ok(None),
        SqlValue::Text(data) => Ok(
            Some(BlockReference { identifier: copy_all(data), storage: BlockStorage::Text }),
        ),
        SqlValue::Blob(data) => Ok(
            Some(BlockReference { identifier: copy_all(data), storage: BlockStorage::Blob }),
        ),
        _ => Err(
            unwritable(Message::new("Offscreen.BlockData is neither NULL, TEXT, nor BLOB")),
        ),
    }
}

/// An offscreen row of a template layer.
#[derive(Clone, Debug, PartialEq, Eq)]
pub struct OffscreenTemplate {
    pub attribute: Vec<u8>,
    pub attributes: OffscreenAttributes,
    pub reference: Option<BlockReference>,
}

/// The model of an [`OffscreenTemplate`].
#[verifier::ext_equal]
pub struct OffscreenModel {
    pub attribute: Seq<u8>,
    pub attributes: attributes::AttributesModel,
    pub reference: Option<ReferenceModel>,
}

impl View for OffscreenTemplate {
    type V = OffscreenModel;

    open spec fn view(&self) -> OffscreenModel {
        OffscreenModel {
            attribute: self.attribute@,
            attributes: self.attributes@,
            reference: error::optional(self.reference),
        }
    }
}

/// Whether a column can be read whatever it holds: a text has to be valid UTF-8.
pub open spec fn value_readable(row: Seq<SqlModel>, column: int) -> bool {
    column < row.len() && (row[column] matches SqlModel::Text(data) ==> text_codec::utf8_text(data)
        is Some)
}

/// The offscreen row of a layer.
pub open spec fn offscreen_of(
    row: Seq<SqlModel>,
    canvas_id: i64,
    layer_id: i64,
    is_thumbnail: bool,
) -> Result<OffscreenModel, Failure> {
    match (sql::integer_at(row, 0), sql::integer_at(row, 1), sql::blob_at(row, 2)) {
        (Ok(canvas), Ok(layer), Ok(attribute)) => if !value_readable(row, 3) {
            Err(Failure::Sqlite)
        } else if canvas != canvas_id || layer != layer_id {
            Err(
                Failure::InvalidWrite {
                    reason: if is_thumbnail {
                        "raster template thumbnail Offscreen ownership is invalid"@
                    } else {
                        "raster template Offscreen ownership is invalid"@
                    },
                },
            )
        } else {
            match attributes::attributes_of(attribute) {
                Err(failure) => Err(failure),
                Ok(attributes) => match reference_of(row[3]) {
                    Err(failure) => Err(failure),
                    Ok(reference) => Ok(OffscreenModel { attribute, attributes, reference }),
                },
            }
        },
        _ => Err(Failure::Sqlite),
    }
}

/// Reads the offscreen row of a layer.
pub fn offscreen_from_row(
    row: &SqlRow,
    canvas_id: i64,
    layer_id: i64,
    is_thumbnail: bool,
) -> (offscreen: Result<OffscreenTemplate, Error>)
    ensures
        error::outcome(offscreen) == offscreen_of(row@, canvas_id, layer_id, is_thumbnail),
{
    let canvas: i64 = row.integer(0)?;
    let layer: i64 = row.integer(1)?;
    let attribute = row.blob(2)?;
    if row.values.len() <= 3 {
        return Err(Error::Sqlite { reason: Message::new("Offscreen row is too short").build() });
    }
    let value = &row.values[3];
    assert(row@[3] == value@);
    if let SqlValue::Text(data) = value {
        if decode_utf8(data.as_slice()).is_none() {
            return Err(
                Error::Sqlite { reason: Message::new("BlockData is not valid UTF-8").build() },
            );
        }
    }
    if canvas != canvas_id || layer != layer_id {
        return Err(
            unwritable(
                Message::new(
                    if is_thumbnail {
                        "raster template thumbnail Offscreen ownership is invalid"
                    } else {
                        "raster template Offscreen ownership is invalid"
                    },
                ),
            ),
        );
    }
    let attributes = OffscreenAttributes::parse(attribute.as_slice())?;
    let reference = raster_block_data(value)?;
    Ok(OffscreenTemplate { attribute, attributes, reference })
}

/// How a clone holds its own identifier where the template has this one.
pub open spec fn storage_of(reference: Option<ReferenceModel>) -> BlockStorage {
    match reference {
        Some(reference) => reference.storage,
        None => BlockStorage::Blob,
    }
}

fn storage(reference: &Option<BlockReference>) -> (storage: BlockStorage)
    ensures
        storage == storage_of(error::optional(*reference)),
{
    match reference {
        Some(reference) => reference.storage,
        None => BlockStorage::Blob,
    }
}

/// One mipmap level of a template layer.
#[derive(Clone, Debug, PartialEq, Eq)]
pub struct RasterMipmapTemplate {
    pub info_id: i64,
    pub offscreen_id: i64,
    pub attribute: Vec<u8>,
    pub attributes: OffscreenAttributes,
    pub block_data_storage: BlockStorage,
}

/// The model of a [`RasterMipmapTemplate`].
#[verifier::ext_equal]
pub struct LevelModel {
    pub info_id: i64,
    pub offscreen_id: i64,
    pub attribute: Seq<u8>,
    pub attributes: attributes::AttributesModel,
    pub block_data_storage: BlockStorage,
}

impl View for RasterMipmapTemplate {
    type V = LevelModel;

    open spec fn view(&self) -> LevelModel {
        LevelModel {
            info_id: self.info_id,
            offscreen_id: self.offscreen_id,
            attribute: self.attribute@,
            attributes: self.attributes@,
            block_data_storage: self.block_data_storage,
        }
    }
}

/// What a mipmap row says of one level.
#[derive(Clone, Copy, Debug, PartialEq, Eq)]
pub struct LevelInfo {
    pub canvas_id: i64,
    pub layer_id: i64,
    pub scale: Double,
    pub offscreen_id: i64,
    pub next: i64,
}

/// What a mipmap row says of one level.
pub open spec fn info_of(row: Seq<SqlModel>) -> Result<LevelInfo, Failure> {
    match (
        sql::integer_at(row, 0),
        sql::integer_at(row, 1),
        sql::real_at(row, 2),
        sql::integer_at(row, 3),
        sql::integer_at(row, 4),
    ) {
        (Ok(canvas_id), Ok(layer_id), Ok(scale), Ok(offscreen_id), Ok(next)) => Ok(
            LevelInfo { canvas_id, layer_id, scale, offscreen_id, next },
        ),
        _ => Err(Failure::Sqlite),
    }
}

fn info_from_row(row: &SqlRow) -> (info: Result<LevelInfo, Error>)
    ensures
        error::plain(info) == info_of(row@),
{
    Ok(
        LevelInfo {
            canvas_id: row.integer(0)?,
            layer_id: row.integer(1)?,
            scale: row.number(2)?,
            offscreen_id: row.integer(3)?,
            next: row.integer(4)?,
        },
    )
}

/// One hundred.
pub open spec fn hundred() -> Double {
    Double { bits: 0x4059_0000_0000_0000 }
}

/// Whether a level belongs to the layer and is smaller than the one before it; the first
/// one has the size of the layer.
pub open spec fn info_valid(
    info: LevelInfo,
    canvas_id: i64,
    layer_id: i64,
    previous: Option<Double>,
) -> bool {
    &&& info.canvas_id == canvas_id
    &&& info.layer_id == layer_id
    &&& info.scale.finite()
    &&& info.scale.order() > 0
    &&& info.offscreen_id > 0
    &&& match previous {
        Some(previous) => info.scale.order() < previous.order(),
        None => info.scale == hundred(),
    }
}

fn info_matches(info: LevelInfo, canvas_id: i64, layer_id: i64, previous: Option<Double>) -> (valid:
    bool)
    ensures
        valid == info_valid(info, canvas_id, layer_id, previous),
{
    let smaller: bool = match previous {
        Some(previous) => !previous.at_most(info.scale),
        None => info.scale.bits() == 0x4059_0000_0000_0000,
    };
    info.canvas_id == canvas_id && info.layer_id == layer_id && info.scale.is_finite()
        && info.scale.is_positive() && info.offscreen_id > 0 && smaller
}

/// What is said of a level that is not valid.
pub open spec fn info_complaint(
    info: LevelInfo,
    canvas_id: i64,
    layer_id: i64,
    is_base: bool,
    scale: Seq<char>,
) -> Seq<char> {
    if is_base && info.canvas_id == canvas_id && info.layer_id == layer_id && info.scale.finite()
        && info.scale.order() > 0 && info.offscreen_id > 0 {
        "raster template base mipmap scale is "@ + scale + ", expected 100"@
    } else {
        "raster template MipmapInfo chain metadata is invalid"@
    }
}

fn invalid_info(
    info: LevelInfo,
    canvas_id: i64,
    layer_id: i64,
    is_base: bool,
    scale: &str,
) -> (error: Error)
    ensures
        error@ == (Failure::InvalidWrite {
            reason: info_complaint(info, canvas_id, layer_id, is_base, scale@),
        }),
{
    if is_base && info.canvas_id == canvas_id && info.layer_id == layer_id
        && info.scale.is_finite() && info.scale.is_positive() && info.offscreen_id > 0 {
        unwritable(
            Message::new("raster template base mipmap scale is ").text(scale).text(
                ", expected 100",
            ),
        )
    } else {
        unwritable(Message::new("raster template MipmapInfo chain metadata is invalid"))
    }
}

/// What is asked for a level, in order.
pub open spec fn info_items() -> Seq<Seq<char>> {
    seq![
        "CanvasId"@,
        "LayerId"@,
        "ThisScale"@,
        "Offscreen"@,
        "coalesce(NextIndex, 0)"@,
    ]
}

/// The question that asks for a level.
pub open spec fn info_question() -> Seq<char> {
    columns::asked(info_items(), " FROM MipmapInfo WHERE MainId = ?1"@)
}

/// What is asked for an offscreen row, in order.
pub open spec fn offscreen_items() -> Seq<Seq<char>> {
    seq![
        "CanvasId"@,
        "LayerId"@,
        "Attribute"@,
        "BlockData"@,
    ]
}

/// The question that asks for an offscreen row.
pub open spec fn offscreen_question() -> Seq<char> {
    columns::asked(offscreen_items(), " FROM Offscreen WHERE MainId = ?1"@)
}

/// The offscreen row that a reply gives.
pub open spec fn offscreen_in(
    row: Result<Seq<SqlModel>, Failure>,
    canvas_id: i64,
    layer_id: i64,
    is_thumbnail: bool,
) -> Result<OffscreenModel, Failure> {
    match row {
        Err(failure) => Err(failure),
        Ok(row) => offscreen_of(row, canvas_id, layer_id, is_thumbnail),
    }
}

/// Whether reading the offscreen row of a layer can have this outcome.
pub open spec fn offscreen_read(
    connection: Connection,
    id: i64,
    canvas_id: i64,
    layer_id: i64,
    is_thumbnail: bool,
    outcome: Result<OffscreenModel, Failure>,
) -> bool {
    exists|row: Result<Seq<SqlModel>, Failure>|
        #[trigger] raster_tree::unique_row_read(
            connection,
            "Offscreen"@,
            id,
            offscreen_question(),
            row,
        )
            && outcome == offscreen_in(row, canvas_id, layer_id, is_thumbnail)
}

fn read_offscreen(
    connection: &Connection,
    id: i64,
    canvas_id: i64,
    layer_id: i64,
    is_thumbnail: bool,
) -> (offscreen:
    Result<OffscreenTemplate, Error>)
    ensures
        offscreen_read(
            *connection,
            id,
            canvas_id,
            layer_id,
            is_thumbnail,
            error::outcome(offscreen),
        ),
{
    let asked: [&str; 4] = ["CanvasId", "LayerId", "Attribute", "BlockData"];
    assert(database::names(asked@) =~= offscreen_items());
    let reply = unique_row(
        connection,
        "Offscreen",
        id,
        columns::ask(&asked, " FROM Offscreen WHERE MainId = ?1").as_str(),
    );
    let ghost row = raster_tree::row_given(reply);
    assert(raster_tree::unique_row_read(*connection, "Offscreen"@, id, offscreen_question(), row));
    let reply = match reply {
        Ok(reply) => reply,
        Err(error) => {
            assert(offscreen_in(row, canvas_id, layer_id, is_thumbnail) == Err::<
                OffscreenModel,
                Failure,
            >(error@));
            return Err(error);
        },
    };
    assert(reply@.rows[0] == reply.rows@[0]@);
    let offscreen = offscreen_from_row(&reply.rows[0], canvas_id, layer_id, is_thumbnail);
    assert(error::outcome(offscreen) == offscreen_in(row, canvas_id, layer_id, is_thumbnail));
    offscreen
}

/// A level as it was read, and what it leads to.
pub struct LevelStep {
    pub level: RasterMipmapTemplate,
    pub identifier: Option<Vec<u8>>,
    pub scale: Double,
    pub next: i64,
}

/// The model of a [`LevelStep`].
#[verifier::ext_equal]
pub struct StepModel {
    pub level: LevelModel,
    pub identifier: Option<Seq<u8>>,
    pub scale: Double,
    pub next: i64,
}

impl View for LevelStep {
    type V = StepModel;

    open spec fn view(&self) -> StepModel {
        StepModel {
            level: self.level@,
            identifier: error::optional_bytes(self.identifier),
            scale: self.scale,
            next: self.next,
        }
    }
}

/// The level that a mipmap row and its offscreen row make; the first one has to have an
/// identifier.
pub open spec fn level_of(
    id: i64,
    info: LevelInfo,
    first: bool,
    offscreen: Result<OffscreenModel, Failure>,
) -> Result<StepModel, Failure> {
    match offscreen {
        Err(failure) => Err(failure),
        Ok(offscreen) => {
            let identifier = match offscreen.reference {
                Some(reference) => Some(reference.identifier),
                None => None,
            };
            if first && (identifier is None || identifier.unwrap().len() == 0) {
                Err(
                    Failure::InvalidWrite {
                        reason: "raster template base Offscreen has no external identifier"@,
                    },
                )
            } else {
                Ok(
                    StepModel {
                        level: LevelModel {
                            info_id: id,
                            offscreen_id: info.offscreen_id,
                            attribute: offscreen.attribute,
                            attributes: offscreen.attributes,
                            block_data_storage: storage_of(offscreen.reference),
                        },
                        identifier,
                        scale: info.scale,
                        next: info.next,
                    },
                )
            }
        },
    }
}

fn make_level(
    id: i64,
    info: LevelInfo,
    first: bool,
    offscreen: OffscreenTemplate,
) -> (step: Result<LevelStep, Error>)
    ensures
        error::outcome(step) == level_of(id, info, first, Ok(offscreen@)),
{
    let block_data_storage = storage(&offscreen.reference);
    let identifier: Option<Vec<u8>> = match offscreen.reference {
        Some(reference) => Some(reference.identifier),
        None => None,
    };
    let named: bool = match &identifier {
        Some(identifier) => identifier.len() > 0,
        None => false,
    };
    if first && !named {
        return Err(
            unwritable(
                Message::new("raster template base Offscreen has no external identifier"),
            ),
        );
    }
    Ok(
        LevelStep {
            level: RasterMipmapTemplate {
                info_id: id,
                offscreen_id: info.offscreen_id,
                attribute: offscreen.attribute,
                attributes: offscreen.attributes,
                block_data_storage,
            },
            identifier,
            scale: info.scale,
            next: info.next,
        },
    )
}

/// Whether reading a level, whose mipmap row has been read, can have this outcome.
pub open spec fn level_after_info(
    connection: Connection,
    id: i64,
    canvas_id: i64,
    layer_id: i64,
    previous: Option<Double>,
    row: Result<Seq<SqlModel>, Failure>,
    outcome: Result<StepModel, Failure>,
) -> bool {
    match row {
        Err(failure) => outcome == Err::<StepModel, Failure>(failure),
        Ok(row) => match info_of(row) {
            Err(failure) => outcome == Err::<StepModel, Failure>(failure),
            Ok(info) => if !info_valid(info, canvas_id, layer_id, previous) {
                outcome == Err::<StepModel, Failure>(
                    Failure::InvalidWrite {
                        reason: info_complaint(
                            info,
                            canvas_id,
                            layer_id,
                            previous is None,
                            sql::real_text_at(row, 2),
                        ),
                    },
                )
            } else {
                exists|offscreen: Result<OffscreenModel, Failure>|
                    #[trigger] offscreen_read(
                        connection,
                        info.offscreen_id,
                        canvas_id,
                        layer_id,
                        false,
                        offscreen,
                    )
                        && outcome == level_of(id, info, previous is None, offscreen)
            },
        },
    }
}

/// Whether reading a level can have this outcome.
pub open spec fn level_read(
    connection: Connection,
    id: i64,
    canvas_id: i64,
    layer_id: i64,
    previous: Option<Double>,
    outcome: Result<StepModel, Failure>,
) -> bool {
    exists|row: Result<Seq<SqlModel>, Failure>|
        #[trigger] raster_tree::unique_row_read(connection, "MipmapInfo"@, id, info_question(), row)
            && level_after_info(connection, id, canvas_id, layer_id, previous, row, outcome)
}

#[verifier::spinoff_prover]
fn read_level(
    connection: &Connection,
    id: i64,
    canvas_id: i64,
    layer_id: i64,
    previous: Option<Double>,
) -> (step: Result<LevelStep, Error>)
    ensures
        level_read(*connection, id, canvas_id, layer_id, previous, error::outcome(step)),
{
    let asked: [&str; 5] = ["CanvasId", "LayerId", "ThisScale", "Offscreen", "coalesce(NextIndex, 0)"];
    assert(database::names(asked@) =~= info_items());
    let reply = unique_row(
        connection,
        "MipmapInfo",
        id,
        columns::ask(&asked, " FROM MipmapInfo WHERE MainId = ?1").as_str(),
    );
    let ghost row = raster_tree::row_given(reply);
    assert(raster_tree::unique_row_read(*connection, "MipmapInfo"@, id, info_question(), row));
    let reply = match reply {
        Ok(reply) => reply,
        Err(error) => {
            assert(
                level_after_info(*connection, id, canvas_id, layer_id, previous, row, Err(error@))
            );
            return Err(error);
        },
    };
    assert(reply@.rows[0] == reply.rows@[0]@);
    let info = match info_from_row(&reply.rows[0]) {
        Ok(info) => info,
        Err(error) => {
            assert(
                level_after_info(*connection, id, canvas_id, layer_id, previous, row, Err(error@))
            );
            return Err(error);
        },
    };
    if !info_matches(info, canvas_id, layer_id, previous) {
        let error = invalid_info(
            info,
            canvas_id,
            layer_id,
            previous.is_none(),
            reply.number_text(0, 2).as_str(),
        );
        assert(
            level_after_info(*connection, id, canvas_id, layer_id, previous, row, Err(error@))
        );
        return Err(error);
    }
    let offscreen = read_offscreen(connection, info.offscreen_id, canvas_id, layer_id, false);
    let ghost read = error::outcome(offscreen);
    assert(offscreen_read(*connection, info.offscreen_id, canvas_id, layer_id, false, read));
    let step = match offscreen {
        Ok(offscreen) => make_level(id, info, previous.is_none(), offscreen),
        Err(error) => Err(error),
    };
    assert(error::outcome(step) == level_of(id, info, previous is None, read));
    assert(level_after_info(
        *connection,
        id,
        canvas_id,
        layer_id,
        previous,
        row,
        error::outcome(step),
    ));
    step
}

/// No set of IDs has more than this many.
pub open spec fn id_count() -> nat {
    0x1_0000_0000_0000_0000
}

/// How many IDs are not in a set.
pub open spec fn ids_left(seen: Set<i64>) -> nat {
    (id_count() - seen.len()) as nat
}

proof fn ids_are_limited(seen: Set<i64>)
    requires
        seen.finite(),
    ensures
        seen.len() <= id_count(),
{
    let numbers = seen.map(|id: i64| id as int);
    let range = vstd::set_lib::set_int_range(i64::MIN as int, i64::MAX + 1);
    vstd::set_lib::lemma_int_range(i64::MIN as int, i64::MAX + 1);
    vstd::set_lib::lemma_map_size(seen, numbers, |id: i64| id as int);
    assert(numbers.subset_of(range));
    vstd::set_lib::lemma_len_subset(numbers, range);
}

/// The mipmap levels of a layer, and the identifier of the first.
#[derive(Clone, Debug, PartialEq, Eq)]
pub struct LevelChain {
    pub levels: Vec<RasterMipmapTemplate>,
    pub identifier: Option<Vec<u8>>,
}

/// The model of a [`LevelChain`].
#[verifier::ext_equal]
pub struct ChainModel {
    pub levels: Seq<LevelModel>,
    pub identifier: Option<Seq<u8>>,
}

impl View for LevelChain {
    type V = ChainModel;

    open spec fn view(&self) -> ChainModel {
        ChainModel {
            levels: error::views(self.levels@),
            identifier: error::optional_bytes(self.identifier),
        }
    }
}

/// A chain with one more level.
pub open spec fn chain_with(chain: ChainModel, step: StepModel) -> ChainModel {
    ChainModel {
        levels: chain.levels.push(step.level),
        identifier: if chain.levels.len() == 0 {
            step.identifier
        } else {
            chain.identifier
        },
    }
}

/// Whether following the levels from `current` on, after the ones in `chain`, can have this
/// outcome.
pub open spec fn chain_read(
    connection: Connection,
    canvas_id: i64,
    layer_id: i64,
    current: i64,
    seen: Set<i64>,
    previous: Option<Double>,
    chain: ChainModel,
    outcome: Result<ChainModel, Failure>,
) -> bool
    decreases ids_left(seen),
    when seen.finite()
    via chain_ends
{
    if current == 0 {
        outcome == Ok::<ChainModel, Failure>(chain)
    } else if seen.contains(current) {
        outcome == Err::<ChainModel, Failure>(
            Failure::InvalidWrite {
                reason: "raster template MipmapInfo chain contains a cycle"@,
            },
        )
    } else {
        exists|step: Result<StepModel, Failure>|
            #[trigger] level_read(
                connection,
                current,
                canvas_id,
                layer_id,
                previous,
                step,
            ) && match step {
                Err(failure) => outcome == Err::<ChainModel, Failure>(failure),
                Ok(step) => chain_read(
                    connection,
                    canvas_id,
                    layer_id,
                    step.next,
                    seen.insert(current),
                    Some(step.scale),
                    chain_with(chain, step),
                    outcome,
                ),
            }
    }
}

#[via_fn]
proof fn chain_ends(
    connection: Connection,
    canvas_id: i64,
    layer_id: i64,
    current: i64,
    seen: Set<i64>,
    previous: Option<Double>,
    chain: ChainModel,
    outcome: Result<ChainModel, Failure>,
) {
    if !seen.contains(current) {
        ids_are_limited(seen.insert(current));
    }
}

/// No levels.
pub open spec fn no_levels() -> ChainModel {
    ChainModel { levels: Seq::empty(), identifier: None }
}

#[verifier::spinoff_prover]
#[verifier::rlimit(40)]
fn read_chain(connection: &Connection, canvas_id: i64, layer_id: i64, first: i64) -> (chain: Result<
    LevelChain,
    Error,
>)
    ensures
        chain_read(
            *connection,
            canvas_id,
            layer_id,
            first,
            Set::empty(),
            None,
            no_levels(),
            error::outcome(chain),
        ),
{
    let mut chain = LevelChain { levels: Vec::new(), identifier: None };
    let mut seen: BTreeSet<i64> = BTreeSet::new();
    let mut previous: Option<Double> = None;
    let mut current: i64 = first;
    assert(chain@ =~= no_levels());
    while current != 0
        invariant
            seen@.finite(),
            previous is None == (chain.levels@.len() == 0),
            forall|outcome: Result<ChainModel, Failure>| #[trigger]
                chain_read(
                    *connection,
                    canvas_id,
                    layer_id,
                    current,
                    seen@,
                    previous,
                    chain@,
                    outcome,
                ) ==> chain_read(
                    *connection,
                    canvas_id,
                    layer_id,
                    first,
                    Set::empty(),
                    None,
                    no_levels(),
                    outcome,
                ),
        decreases ids_left(seen@),
    {
        let ghost before = chain@;
        let ghost visited = seen@;
        let ghost larger = previous;
        let ghost at = current;
        if seen.contains(&current) {
            let error = unwritable(
                Message::new("raster template MipmapInfo chain contains a cycle"),
            );
            assert(chain_read(
                *connection,
                canvas_id,
                layer_id,
                current,
                visited,
                previous,
                before,
                Err(error@),
            ));
            return Err(error);
        }
        proof {
            ids_are_limited(seen@.insert(current));
        }
        seen.insert(current);
        let step = read_level(connection, current, canvas_id, layer_id, previous);
        let ghost read = error::outcome(step);
        assert(level_read(*connection, current, canvas_id, layer_id, previous, read));
        let step = match step {
            Ok(step) => step,
            Err(error) => {
                assert(chain_read(
                    *connection,
                    canvas_id,
                    layer_id,
                    current,
                    visited,
                    previous,
                    before,
                    Err(error@),
                ));
                return Err(error);
            },
        };
        let ghost model = step@;
        if chain.levels.len() == 0 {
            chain.identifier = step.identifier;
        }
        proof {
            error::views_push(chain.levels@, step.level);
        }
        chain.levels.push(step.level);
        previous = Some(step.scale);
        current = step.next;
        proof {
            assert(chain@ =~= chain_with(before, model));
            assert forall|outcome: Result<ChainModel, Failure>| #[trigger]
                chain_read(
                    *connection,
                    canvas_id,
                    layer_id,
                    current,
                    seen@,
                    previous,
                    chain@,
                    outcome,
                ) implies chain_read(
                *connection,
                canvas_id,
                layer_id,
                first,
                Set::empty(),
                None,
                no_levels(),
                outcome,
            ) by {
                assert(
                    chain_read(
                        *connection,
                        canvas_id,
                        layer_id,
                        at,
                        visited,
                        larger,
                        before,
                        outcome,
                    )
                );
            }
        }
    }
    assert(
        chain_read(*connection, canvas_id, layer_id, current, seen@, previous, chain@, Ok(chain@))
    );
    Ok(chain)
}

/// A raster layer that others can be cloned from, and where a clone goes.
#[derive(Clone, Debug, PartialEq, Eq)]
pub struct RasterLayerTemplate {
    pub layer_id: i64,
    pub canvas_id: i64,
    pub parent_layer_id: i64,
    pub parent_first_child: i64,
    pub mipmap_id: i64,
    pub thumbnail_id: i64,
    pub thumbnail_offscreen_id: i64,
    pub thumbnail_block_data_storage: BlockStorage,
    pub levels: Vec<RasterMipmapTemplate>,
    pub base_identifier: Vec<u8>,
}

/// The model of a [`RasterLayerTemplate`].
#[verifier::ext_equal]
pub struct TemplateModel {
    pub layer_id: i64,
    pub canvas_id: i64,
    pub parent_layer_id: i64,
    pub parent_first_child: i64,
    pub mipmap_id: i64,
    pub thumbnail_id: i64,
    pub thumbnail_offscreen_id: i64,
    pub thumbnail_block_data_storage: BlockStorage,
    pub levels: Seq<LevelModel>,
    pub base_identifier: Seq<u8>,
}

impl View for RasterLayerTemplate {
    type V = TemplateModel;

    open spec fn view(&self) -> TemplateModel {
        TemplateModel {
            layer_id: self.layer_id,
            canvas_id: self.canvas_id,
            parent_layer_id: self.parent_layer_id,
            parent_first_child: self.parent_first_child,
            mipmap_id: self.mipmap_id,
            thumbnail_id: self.thumbnail_id,
            thumbnail_offscreen_id: self.thumbnail_offscreen_id,
            thumbnail_block_data_storage: self.thumbnail_block_data_storage,
            levels: error::views(self.levels@),
            base_identifier: self.base_identifier@,
        }
    }
}

/// The tables that a clone needs.
pub open spec fn clone_tables() -> Seq<Seq<char>> {
    seq!["Layer"@, "Mipmap"@, "MipmapInfo"@, "Offscreen"@, "LayerThumbnail"@, "Canvas"@, "ElemScheme"@]
}

/// The columns that a clone needs in a table.
pub open spec fn clone_columns(table: int) -> Seq<Seq<char>> {
    if table == 0 {
        seq!["MainId"@, "CanvasId"@, "LayerName"@, "LayerType"@, "LayerFolder"@, "LayerSelect"@, "LayerNextIndex"@, "LayerFirstChildIndex"@, "LayerRenderMipmap"@, "LayerLayerMaskMipmap"@, "LayerRenderThumbnail"@, "LayerLayerMaskThumbnail"@, "LayerUuid"@]
    } else if table == 1 {
        seq!["MainId"@, "CanvasId"@, "LayerId"@, "MipmapCount"@, "BaseMipmapInfo"@]
    } else if table == 2 {
        seq!["MainId"@, "CanvasId"@, "LayerId"@, "ThisScale"@, "Offscreen"@, "NextIndex"@]
    } else if table == 3 {
        seq!["MainId"@, "CanvasId"@, "LayerId"@, "Attribute"@, "BlockData"@]
    } else if table == 4 {
        seq!["MainId"@, "CanvasId"@, "LayerId"@, "ThumbnailOffscreen"@]
    } else if table == 5 {
        seq!["MainId"@, "CanvasRootFolder"@]
    } else if table == 6 {
        seq!["TableName"@, "MaxIndex"@]
    } else {
        Seq::empty()
    }
}

/// Whether checking the tables from `at` on can have this outcome.
pub open spec fn tables_checked(
    connection: Connection,
    at: int,
    outcome: Result<(), Failure>,
) -> bool
    decreases 7 - at,
{
    if at >= 7 {
        outcome == Ok::<(), Failure>(())
    } else {
        exists|check: Result<(), Failure>|
            #[trigger] raster_tree::table_check(
                connection,
                clone_tables()[at],
                clone_columns(at),
                check,
            )
                && match check {
                Err(failure) => outcome == Err::<(), Failure>(failure),
                Ok(()) => tables_checked(connection, at + 1, outcome),
            }
    }
}

/// Whether checking a table can have this outcome.
pub open spec fn clone_table_check(
    connection: Connection,
    at: int,
    outcome: Result<(), Failure>,
) -> bool {
    raster_tree::table_check(connection, clone_tables()[at], clone_columns(at), outcome)
}

proof fn checked_before(connection: Connection, at: int, outcome: Result<(), Failure>)
    requires
        0 <= at <= 7,
        forall|i: int| 0 <= i < at ==> #[trigger] clone_table_check(connection, i, Ok(())),
        tables_checked(connection, at, outcome),
    ensures
        tables_checked(connection, 0, outcome),
    decreases at,
{
    if at > 0 {
        assert(clone_table_check(connection, at - 1, Ok(())));
        assert(tables_checked(connection, at - 1, outcome));
        checked_before(connection, at - 1, outcome);
    }
}

fn check_table(connection: &Connection, table: &str, columns: &[&str], Ghost(at): Ghost<int>) -> (
result: Result<(), Error>)
    requires
        0 <= at < 7,
        table@ == clone_tables()[at],
        forall|i: int| 0 <= i < at ==> #[trigger] clone_table_check(*connection, i, Ok(())),
        forall|i: int|
            0 <= i < columns@.len() ==> (#[trigger] columns@[i])@ == clone_columns(at)[i],
        columns@.len() == clone_columns(at).len(),
    ensures
        clone_table_check(*connection, at, error::plain(result)),
        result matches Err(error) ==> tables_checked(*connection, 0, Err(error@)),
{
    let result = require_raster_clone_columns(connection, table, columns);
    proof {
        assert(crate::database::names(columns@) =~= clone_columns(at));
        assert(clone_table_check(*connection, at, error::plain(result)));
        if let Err(error) = &result {
            assert(tables_checked(*connection, at, Err(error@)));
            checked_before(*connection, at, Err(error@));
        }
    }
    result
}

fn check_tables(connection: &Connection) -> (result: Result<(), Error>)
    ensures
        tables_checked(*connection, 0, error::plain(result)),
{
    let columns: [&str; 13] = ["MainId", "CanvasId", "LayerName", "LayerType", "LayerFolder", "LayerSelect", "LayerNextIndex", "LayerFirstChildIndex", "LayerRenderMipmap", "LayerLayerMaskMipmap", "LayerRenderThumbnail", "LayerLayerMaskThumbnail", "LayerUuid"];
    if let Err(error) = check_table(connection, "Layer", &columns, Ghost(0)) {
        return Err(error);
    }
    let columns: [&str; 5] = ["MainId", "CanvasId", "LayerId", "MipmapCount", "BaseMipmapInfo"];
    if let Err(error) = check_table(connection, "Mipmap", &columns, Ghost(1)) {
        return Err(error);
    }
    let columns: [&str; 6] = ["MainId", "CanvasId", "LayerId", "ThisScale", "Offscreen", "NextIndex"];
    if let Err(error) = check_table(connection, "MipmapInfo", &columns, Ghost(2)) {
        return Err(error);
    }
    let columns: [&str; 5] = ["MainId", "CanvasId", "LayerId", "Attribute", "BlockData"];
    if let Err(error) = check_table(connection, "Offscreen", &columns, Ghost(3)) {
        return Err(error);
    }
    let columns: [&str; 4] = ["MainId", "CanvasId", "LayerId", "ThumbnailOffscreen"];
    if let Err(error) = check_table(connection, "LayerThumbnail", &columns, Ghost(4)) {
        return Err(error);
    }
    let columns: [&str; 2] = ["MainId", "CanvasRootFolder"];
    if let Err(error) = check_table(connection, "Canvas", &columns, Ghost(5)) {
        return Err(error);
    }
    let columns: [&str; 2] = ["TableName", "MaxIndex"];
    if let Err(error) = check_table(connection, "ElemScheme", &columns, Ghost(6)) {
        return Err(error);
    }
    proof {
        checked_before(*connection, 7, Ok(()));
    }
    Ok(())
}

/// What is asked for the layer of a template, in order.
pub open spec fn layer_items() -> Seq<Seq<char>> {
    seq![
        "CanvasId"@,
        "LayerType"@,
        "LayerFolder"@,
        "coalesce(LayerFirstChildIndex, 0)"@,
        "coalesce(LayerRenderMipmap, 0)"@,
        "coalesce(LayerLayerMaskMipmap, 0)"@,
        "coalesce(LayerRenderThumbnail, 0)"@,
        "coalesce(LayerLayerMaskThumbnail, 0)"@,
    ]
}

/// The question that asks for the layer to clone.
pub open spec fn layer_question() -> Seq<char> {
    columns::asked(layer_items(), " FROM Layer WHERE MainId = ?1"@)
}

/// What is asked for the parent of a clone, in order.
pub open spec fn parent_items() -> Seq<Seq<char>> {
    seq![
        "CanvasId"@,
        "LayerFolder"@,
        "coalesce(LayerFirstChildIndex, 0)"@,
    ]
}

/// The question that asks for the folder that a clone goes into.
pub open spec fn parent_question() -> Seq<char> {
    columns::asked(parent_items(), " FROM Layer WHERE MainId = ?1"@)
}

/// What is asked for a mipmap, in order.
pub open spec fn mipmap_items() -> Seq<Seq<char>> {
    seq![
        "CanvasId"@,
        "LayerId"@,
        "MipmapCount"@,
        "BaseMipmapInfo"@,
    ]
}

/// The question that asks for the mipmap of a layer.
pub open spec fn mipmap_question() -> Seq<char> {
    columns::asked(mipmap_items(), " FROM Mipmap WHERE MainId = ?1"@)
}

/// What is asked for a thumbnail, in order.
pub open spec fn thumbnail_items() -> Seq<Seq<char>> {
    seq![
        "CanvasId"@,
        "LayerId"@,
        "ThumbnailOffscreen"@,
    ]
}

/// The question that asks for the thumbnail of a layer.
pub open spec fn thumbnail_question() -> Seq<char> {
    columns::asked(thumbnail_items(), " FROM LayerThumbnail WHERE MainId = ?1"@)
}

/// The question that asks for the canvas of a folder.
pub open spec fn folder_question() -> Seq<char> {
    "SELECT CanvasId, LayerFolder FROM Layer WHERE MainId = ?1"@
}

/// The question that asks for the root folder of a canvas.
pub open spec fn root_question() -> Seq<char> {
    "SELECT CanvasRootFolder FROM Canvas WHERE MainId = ?1"@
}

/// What is asked for the layers of a canvas, in order.
pub open spec fn tree_items() -> Seq<Seq<char>> {
    seq![
        "MainId"@,
        "coalesce(LayerFirstChildIndex, 0)"@,
        "coalesce(LayerNextIndex, 0)"@,
    ]
}

/// The question that asks for the layer tree of a canvas.
pub open spec fn tree_question() -> Seq<char> {
    columns::asked(tree_items(), " FROM Layer WHERE CanvasId = ?1"@)
}

/// The question that asks for the number of layers.
pub open spec fn layers_question() -> Seq<char> {
    "SELECT count(*) FROM Layer"@
}

/// The integers that a row gives.
pub open spec fn integers_in(row: Result<Seq<SqlModel>, Failure>, count: nat) -> Result<
    Seq<i64>,
    Failure,
> {
    match row {
        Err(failure) => Err(failure),
        Ok(row) => raster_tree::integers_of(row, count),
    }
}

/// Whether reading the integers in the one row with an ID can have this outcome.
pub open spec fn integers_read(
    connection: Connection,
    table: Seq<char>,
    id: i64,
    question: Seq<char>,
    count: nat,
    outcome: Result<Seq<i64>, Failure>,
) -> bool {
    exists|row: Result<Seq<SqlModel>, Failure>|
        #[trigger] raster_tree::unique_row_read(connection, table, id, question, row) && outcome == integers_in(
            row,
            count,
        )
}

fn unique_integers(connection: &Connection, table: &str, id: i64, question: &str, count: usize) -> (
list: Result<Vec<i64>, Error>)
    ensures
        integers_read(*connection, table@, id, question@, count as nat, error::outcome(list)),
        list matches Ok(list) ==> list@.len() == count,
{
    let reply = unique_row(connection, table, id, question);
    let ghost row = raster_tree::row_given(reply);
    assert(raster_tree::unique_row_read(*connection, table@, id, question@, row));
    let reply = match reply {
        Ok(reply) => reply,
        Err(error) => {
            assert(integers_in(row, count as nat) == Err::<Seq<i64>, Failure>(error@));
            return Err(error);
        },
    };
    assert(reply@.rows[0] == reply.rows@[0]@);
    let list = read_integers(&reply.rows[0], count);
    assert(error::outcome(list) == integers_in(row, count as nat));
    list
}

/// The depth of a folder in a tree that a reply describes.
pub open spec fn depth_in(reply: sql::ReplyModel, root: i64, folder: i64, limits: Limits) -> Result<
    u64,
    Failure,
> {
    match sql::collected::<TreeRow>(reply) {
        Err(failure) => Err(failure),
        Ok(rows) => raster_tree::folder_depth(rows, root, folder, limits),
    }
}

/// Whether reading the tree of a canvas can have this outcome.
pub open spec fn tree_read(
    connection: Connection,
    canvas_id: i64,
    root: Result<Seq<i64>, Failure>,
    folder: i64,
    limits: Limits,
    outcome: Result<u64, Failure>,
) -> bool {
    match root {
        Err(failure) => outcome == Err::<u64, Failure>(failure),
        Ok(root) => exists|reply: sql::ReplyModel|
            #[trigger] sql::may_answer(
                connection,
                tree_question(),
                seq![sql::ParameterModel::Integer(canvas_id)],
                reply,
            ) && outcome == depth_in(reply, root[0], folder, limits),
    }
}

/// Whether reading the tree that a folder stands in can have this outcome.
pub open spec fn folder_tree_read(
    connection: Connection,
    row: Result<Seq<i64>, Failure>,
    folder: i64,
    limits: Limits,
    outcome: Result<u64, Failure>,
) -> bool {
    match row {
        Err(failure) => outcome == Err::<u64, Failure>(failure),
        Ok(row) => if row[1] == 0 {
            outcome == Err::<u64, Failure>(
                Failure::InvalidWrite { reason: "raster clone parent is not a folder"@ },
            )
        } else {
            exists|root: Result<Seq<i64>, Failure>|
                #[trigger] integers_read(connection, "Canvas"@, row[0], root_question(), 1, root) && tree_read(
                    connection,
                    row[0],
                    root,
                    folder,
                    limits,
                    outcome,
                )
        },
    }
}

/// Whether validating the tree that a folder stands in can have this outcome.
pub open spec fn depth_read(
    connection: Connection,
    folder: i64,
    limits: Limits,
    outcome: Result<u64, Failure>,
) -> bool {
    exists|row: Result<Seq<i64>, Failure>|
        #[trigger] integers_read(connection, "Layer"@, folder, folder_question(), 2, row) && folder_tree_read(
            connection,
            row,
            folder,
            limits,
            outcome,
        )
}

fn read_tree(connection: &Connection, canvas_id: i64, folder: i64, limits: Limits) -> (depth: Result<
    u64,
    Error,
>)
    ensures
        exists|root: Result<Seq<i64>, Failure>|
            #[trigger] integers_read(*connection, "Canvas"@, canvas_id, root_question(), 1, root) && tree_read(
                *connection,
                canvas_id,
                root,
                folder,
                limits,
                error::plain(depth),
            ),
{
    let root = unique_integers(
        connection,
        "Canvas",
        canvas_id,
        "SELECT CanvasRootFolder FROM Canvas WHERE MainId = ?1",
        1,
    );
    let ghost read = error::outcome(root);
    assert(integers_read(*connection, "Canvas"@, canvas_id, root_question(), 1, read));
    let root = match root {
        Ok(root) => root,
        Err(error) => {
            assert(tree_read(*connection, canvas_id, read, folder, limits, Err(error@)));
            return Err(error);
        },
    };
    let asked: [&str; 3] = ["MainId", "coalesce(LayerFirstChildIndex, 0)", "coalesce(LayerNextIndex, 0)"];
    assert(database::names(asked@) =~= tree_items());
    let reply = query_by_id(
        connection,
        columns::ask(&asked, " FROM Layer WHERE CanvasId = ?1").as_str(),
        canvas_id,
    );
    assert(sql::may_answer(
        *connection,
        tree_question(),
        seq![sql::ParameterModel::Integer(canvas_id)],
        reply@,
    ));
    let rows: Result<Vec<TreeRow>, Error> = collect(&reply);
    let depth = match rows {
        Err(error) => Err(error),
        Ok(rows) => {
            assert(error::views(rows@) =~= rows@);
            find_folder_depth(rows.as_slice(), root[0], folder, limits)
        },
    };
    assert(error::plain(depth) == depth_in(reply@, root@[0], folder, limits));
    assert(tree_read(*connection, canvas_id, read, folder, limits, error::plain(depth)));
    depth
}

/// Finds the depth of a folder in the tree of its canvas, which has to be sound.
pub fn validate_raster_canvas_tree(connection: &Connection, folder: i64, limits: Limits) -> (depth:
    Result<u64, Error>)
    ensures
        depth_read(*connection, folder, limits, error::plain(depth)),
{
    let row = unique_integers(
        connection,
        "Layer",
        folder,
        "SELECT CanvasId, LayerFolder FROM Layer WHERE MainId = ?1",
        2,
    );
    let ghost read = error::outcome(row);
    assert(integers_read(*connection, "Layer"@, folder, folder_question(), 2, read));
    let row = match row {
        Ok(row) => row,
        Err(error) => {
            assert(folder_tree_read(*connection, read, folder, limits, Err(error@)));
            return Err(error);
        },
    };
    if row[1] == 0 {
        let error = unwritable(Message::new("raster clone parent is not a folder"));
        assert(folder_tree_read(*connection, read, folder, limits, Err(error@)));
        return Err(error);
    }
    let depth = read_tree(connection, row[0], folder, limits);
    assert(folder_tree_read(*connection, read, folder, limits, error::plain(depth)));
    depth
}

/// What becomes of a clone where there are so many layers.
pub open spec fn layer_count_checked(
    count: Result<i64, Failure>,
    limit: u64,
) -> Result<(), Failure> {
    match count {
        Err(failure) => Err(failure),
        Ok(count) => if count < 0 {
            Err(Failure::OffsetOverflow)
        } else if count + 1 > limit {
            Err(raster_tree::above("layers after raster clone"@, (count + 1) as u64, limit))
        } else {
            Ok(())
        },
    }
}

/// What becomes of a clone in a folder at such a depth.
pub open spec fn depth_checked(depth: Result<u64, Failure>, limit: u64) -> Result<(), Failure> {
    match depth {
        Err(failure) => Err(failure),
        Ok(depth) => if depth == u64::MAX {
            Err(Failure::OffsetOverflow)
        } else if depth + 1 > limit {
            Err(raster_tree::above("new raster layer tree depth"@, (depth + 1) as u64, limit))
        } else {
            Ok(())
        },
    }
}

/// Whether checking the place of a clone, once the layers have been counted, can have this
/// outcome.
pub open spec fn place_after_count(
    connection: Connection,
    counted: Result<(), Failure>,
    folder: i64,
    limits: Limits,
    outcome: Result<(), Failure>,
) -> bool {
    match counted {
        Err(failure) => outcome == Err::<(), Failure>(failure),
        Ok(()) => exists|depth: Result<u64, Failure>|
            #[trigger] depth_read(connection, folder, limits, depth) && outcome == depth_checked(
                depth,
                limits.max_layer_tree_depth,
            ),
    }
}

/// Whether checking the place of a clone can have this outcome.
pub open spec fn place_read(
    connection: Connection,
    folder: i64,
    limits: Limits,
    outcome: Result<(), Failure>,
) -> bool {
    exists|reply: sql::ReplyModel|
        #[trigger] sql::may_answer(connection, layers_question(), Seq::empty(), reply) && place_after_count(
            connection,
            layer_count_checked(raster_tree::number_in(reply), limits.max_layers),
            folder,
            limits,
            outcome,
        )
}

fn check_layer_count(reply: &Reply, limit: u64) -> (result: Result<(), Error>)
    ensures
        error::plain(result) == layer_count_checked(raster_tree::number_in(reply@), limit),
{
    let count: i64 = reply.only_row()?.integer(0)?;
    if count < 0 {
        return Err(Error::OffsetOverflow);
    }
    let after: u64 = count as u64 + 1;
    if after > limit {
        return Err(Error::limit("layers after raster clone", after, limit));
    }
    Ok(())
}

fn check_place(connection: &Connection, folder: i64, limits: Limits) -> (result: Result<(), Error>)
    ensures
        place_read(*connection, folder, limits, error::plain(result)),
{
    let reply = query_all(connection, "SELECT count(*) FROM Layer");
    assert(sql::may_answer(*connection, layers_question(), Seq::empty(), reply@));
    let counted = check_layer_count(&reply, limits.max_layers());
    let ghost checked = error::plain(counted);
    if let Err(error) = counted {
        assert(place_after_count(*connection, checked, folder, limits, Err(error@)));
        return Err(error);
    }
    let depth = validate_raster_canvas_tree(connection, folder, limits);
    let ghost read = error::plain(depth);
    assert(depth_read(*connection, folder, limits, read));
    let result = match depth {
        Err(error) => Err(error),
        Ok(depth) => if depth == u64::MAX {
            Err(Error::OffsetOverflow)
        } else if depth + 1 > limits.max_layer_tree_depth() {
            Err(
                Error::limit(
                    "new raster layer tree depth",
                    depth + 1,
                    limits.max_layer_tree_depth(),
                ),
            )
        } else {
            Ok(())
        },
    };
    assert(error::plain(result) == depth_checked(read, limits.max_layer_tree_depth));
    assert(place_after_count(*connection, checked, folder, limits, error::plain(result)));
    result
}

/// Whether the numbers of a layer row are those of a plain unmasked pixel leaf.
pub open spec fn plain_leaf(layer: Seq<i64>) -> bool {
    &&& layer[1] == 1
    &&& layer[2] == 0
    &&& layer[3] == 0
    &&& layer[4] > 0
    &&& layer[5] == 0
    &&& layer[6] > 0
    &&& layer[7] == 0
}

/// What is said of a layer that cannot be a template.
pub open spec fn leaf_complaint(layer_id: i64) -> Seq<char> {
    "raster template layer "@ + message::decimal_signed(layer_id as int)
        + " is not a plain unmasked pixel leaf"@
}

/// What is wrong with the mipmap of a layer.
pub open spec fn mipmap_fault(
    mipmap: Seq<i64>,
    canvas_id: i64,
    layer_id: i64,
    limit: u64,
) -> Option<
    Failure,
> {
    if mipmap[0] != canvas_id || mipmap[1] != layer_id || mipmap[2] <= 0 {
        Some(
            Failure::InvalidWrite {
                reason: "raster template Mipmap ownership or count is invalid"@,
            },
        )
    } else if mipmap[2] > limit {
        Some(raster_tree::above("raster mipmap levels"@, mipmap[2] as u64, limit))
    } else {
        None
    }
}

/// What is wrong with the levels of a mipmap that announces so many.
pub open spec fn chain_fault(chain: ChainModel, count: i64, limit: u64) -> Option<Failure> {
    if chain.levels.len() != count {
        Some(
            Failure::InvalidWrite {
                reason: "raster template Mipmap declares "@ + message::decimal_signed(count as int)
                    + " levels but its chain has "@ + message::decimal(chain.levels.len()),
            },
        )
    } else {
        match chain.identifier {
            None => Some(
                Failure::InvalidWrite {
                    reason: "raster template has no base external identifier"@,
                },
            ),
            Some(identifier) => if identifier.len() > limit {
                Some(
                    raster_tree::above(
                        "raster base external identifier"@,
                        identifier.len() as u64,
                        limit,
                    ),
                )
            } else {
                None
            },
        }
    }
}

/// Whether a thumbnail belongs to the layer.
pub open spec fn thumbnail_valid(thumbnail: Seq<i64>, canvas_id: i64, layer_id: i64) -> bool {
    thumbnail[0] == canvas_id && thumbnail[1] == layer_id && thumbnail[2] > 0
}

/// The template that the rows of a layer make.
pub open spec fn template_of(
    request: CloneRequest,
    layer: Seq<i64>,
    parent: Seq<i64>,
    chain: ChainModel,
    thumbnail: Seq<i64>,
    offscreen: Result<OffscreenModel, Failure>,
) -> Result<TemplateModel, Failure> {
    match offscreen {
        Err(failure) => Err(failure),
        Ok(offscreen) => Ok(
            TemplateModel {
                layer_id: request.layer_id,
                canvas_id: layer[0],
                parent_layer_id: request.parent_layer_id,
                parent_first_child: parent[2],
                mipmap_id: layer[4],
                thumbnail_id: layer[6],
                thumbnail_offscreen_id: thumbnail[2],
                thumbnail_block_data_storage: storage_of(offscreen.reference),
                levels: chain.levels,
                base_identifier: chain.identifier.unwrap(),
            },
        ),
    }
}

/// What is to be cloned: a layer, and the folder that the clone goes into.
#[derive(Clone, Copy)]
pub struct CloneRequest {
    pub layer_id: i64,
    pub parent_layer_id: i64,
    pub limits: Limits,
}

/// Whether a template can be read so, where its thumbnail has been read.
pub open spec fn template_after_thumbnail(
    connection: Connection,
    request: CloneRequest,
    layer: Seq<i64>,
    parent: Seq<i64>,
    chain: ChainModel,
    thumbnail: Result<Seq<i64>, Failure>,
    outcome: Result<TemplateModel, Failure>,
) -> bool {
    match thumbnail {
        Err(failure) => outcome == Err::<TemplateModel, Failure>(failure),
        Ok(thumbnail) => if !thumbnail_valid(thumbnail, layer[0], request.layer_id) {
            outcome == Err::<TemplateModel, Failure>(
                Failure::InvalidWrite {
                    reason: "raster template LayerThumbnail ownership is invalid"@,
                },
            )
        } else {
            exists|offscreen: Result<OffscreenModel, Failure>|
                #[trigger] offscreen_read(
                    connection,
                    thumbnail[2],
                    layer[0],
                    request.layer_id,
                    true,
                    offscreen,
                )
                    && outcome == template_of(request, layer, parent, chain, thumbnail, offscreen)
        },
    }
}

/// Whether following the levels of a mipmap can have this outcome.
pub open spec fn levels_read(
    connection: Connection,
    canvas_id: i64,
    layer_id: i64,
    first: i64,
    outcome: Result<ChainModel, Failure>,
) -> bool {
    chain_read(connection, canvas_id, layer_id, first, Set::empty(), None, no_levels(), outcome)
}

/// Whether a template can be read so, where its levels have been read.
pub open spec fn template_after_levels(
    connection: Connection,
    request: CloneRequest,
    layer: Seq<i64>,
    parent: Seq<i64>,
    count: i64,
    chain: Result<ChainModel, Failure>,
    outcome: Result<TemplateModel, Failure>,
) -> bool {
    match chain {
        Err(failure) => outcome == Err::<TemplateModel, Failure>(failure),
        Ok(chain) => match chain_fault(chain, count, request.limits.max_identifier_size) {
            Some(failure) => outcome == Err::<TemplateModel, Failure>(failure),
            None => exists|thumbnail: Result<Seq<i64>, Failure>|
                #[trigger] integers_read(
                    connection,
                    "LayerThumbnail"@,
                    layer[6],
                    thumbnail_question(),
                    3,
                    thumbnail,
                ) && template_after_thumbnail(connection, request, layer, parent, chain, thumbnail, outcome),
        },
    }
}

/// Whether a template can be read so, where its mipmap row has been read.
pub open spec fn template_after_mipmap(
    connection: Connection,
    request: CloneRequest,
    layer: Seq<i64>,
    parent: Seq<i64>,
    mipmap: Result<Seq<i64>, Failure>,
    outcome: Result<TemplateModel, Failure>,
) -> bool {
    match mipmap {
        Err(failure) => outcome == Err::<TemplateModel, Failure>(failure),
        Ok(mipmap) => match mipmap_fault(
            mipmap,
            layer[0],
            request.layer_id,
            request.limits.max_layers,
        ) {
            Some(failure) => outcome == Err::<TemplateModel, Failure>(failure),
            None => exists|chain: Result<ChainModel, Failure>|
                #[trigger] levels_read(connection, layer[0], request.layer_id, mipmap[3], chain)
                    && template_after_levels(
                        connection,
                        request,
                        layer,
                        parent,
                        mipmap[2],
                        chain,
                        outcome,
                    ),
        },
    }
}

/// Whether a template can be read so, where its parent has been read.
pub open spec fn template_after_parent(
    connection: Connection,
    request: CloneRequest,
    layer: Seq<i64>,
    parent: Result<Seq<i64>, Failure>,
    outcome: Result<TemplateModel, Failure>,
) -> bool {
    match parent {
        Err(failure) => outcome == Err::<TemplateModel, Failure>(failure),
        Ok(parent) => if parent[0] != layer[0] || parent[1] == 0 {
            outcome == Err::<TemplateModel, Failure>(
                Failure::InvalidWrite {
                    reason: "raster clone parent is not a folder on the template canvas"@,
                },
            )
        } else {
            exists|mipmap: Result<Seq<i64>, Failure>|
                #[trigger] integers_read(
                    connection,
                    "Mipmap"@,
                    layer[4],
                    mipmap_question(),
                    4,
                    mipmap,
                )
                    && template_after_mipmap(connection, request, layer, parent, mipmap, outcome)
        },
    }
}

/// Whether a template can be read so, where its layer row has been read.
pub open spec fn template_after_layer(
    connection: Connection,
    request: CloneRequest,
    layer: Result<Seq<i64>, Failure>,
    outcome: Result<TemplateModel, Failure>,
) -> bool {
    match layer {
        Err(failure) => outcome == Err::<TemplateModel, Failure>(failure),
        Ok(layer) => if !plain_leaf(layer) {
            outcome == Err::<TemplateModel, Failure>(
                Failure::InvalidWrite { reason: leaf_complaint(request.layer_id) },
            )
        } else {
            exists|parent: Result<Seq<i64>, Failure>|
                #[trigger] integers_read(
                    connection,
                    "Layer"@,
                    request.parent_layer_id,
                    parent_question(),
                    3,
                    parent,
                ) && template_after_parent(connection, request, layer, parent, outcome)
        },
    }
}

/// Whether a template can be read so, where its place has been checked.
pub open spec fn template_after_place(
    connection: Connection,
    request: CloneRequest,
    place: Result<(), Failure>,
    outcome: Result<TemplateModel, Failure>,
) -> bool {
    match place {
        Err(failure) => outcome == Err::<TemplateModel, Failure>(failure),
        Ok(()) => exists|layer: Result<Seq<i64>, Failure>|
            #[trigger] integers_read(
                connection,
                "Layer"@,
                request.layer_id,
                layer_question(),
                8,
                layer,
            )
                && template_after_layer(connection, request, layer, outcome),
    }
}

/// Whether checking the tables that a clone needs can have this outcome.
pub open spec fn clone_tables_checked(
    connection: Connection,
    outcome: Result<(), Failure>,
) -> bool {
    tables_checked(connection, 0, outcome)
}

/// Whether a template can be read so, where the tables have been checked.
pub open spec fn template_after_tables(
    connection: Connection,
    request: CloneRequest,
    tables: Result<(), Failure>,
    outcome: Result<TemplateModel, Failure>,
) -> bool {
    match tables {
        Err(failure) => outcome == Err::<TemplateModel, Failure>(failure),
        Ok(()) => exists|place: Result<(), Failure>|
            #[trigger] place_read(connection, request.parent_layer_id, request.limits, place)
                && template_after_place(connection, request, place, outcome),
    }
}

/// Whether reading a template can have this outcome.
pub open spec fn template_read(
    connection: Connection,
    request: CloneRequest,
    outcome: Result<TemplateModel, Failure>,
) -> bool {
    exists|tables: Result<(), Failure>|
        #[trigger] clone_tables_checked(connection, tables) && template_after_tables(
            connection,
            request,
            tables,
            outcome,
        )
}

fn check_leaf(layer: &Vec<i64>, layer_id: i64) -> (result: Result<(), Error>)
    requires
        layer@.len() == 8,
    ensures
        result is Ok == plain_leaf(layer@),
        result matches Err(error) ==> error@ == (Failure::InvalidWrite {
            reason: leaf_complaint(layer_id),
        }),
{
    if layer[1] != 1 || layer[2] != 0 || layer[3] != 0 || layer[4] <= 0 || layer[5] != 0 || layer[6]
        <= 0 || layer[7] != 0 {
        return Err(
            unwritable(
                Message::new("raster template layer ").integer(layer_id).text(
                    " is not a plain unmasked pixel leaf",
                ),
            ),
        );
    }
    Ok(())
}

fn check_mipmap(mipmap: &Vec<i64>, canvas_id: i64, layer_id: i64, limit: u64) -> (result: Result<
    (),
    Error,
>)
    requires
        mipmap@.len() == 4,
    ensures
        match result {
            Ok(()) => mipmap_fault(mipmap@, canvas_id, layer_id, limit) is None,
            Err(error) => mipmap_fault(mipmap@, canvas_id, layer_id, limit) == Some(error@),
        },
{
    if mipmap[0] != canvas_id || mipmap[1] != layer_id || mipmap[2] <= 0 {
        return Err(
            unwritable(Message::new("raster template Mipmap ownership or count is invalid")),
        );
    }
    let count: u64 = mipmap[2] as u64;
    if count > limit {
        return Err(Error::limit("raster mipmap levels", count, limit));
    }
    Ok(())
}

fn check_chain(chain: &LevelChain, count: i64, limit: u64) -> (result: Result<(), Error>)
    requires
        count > 0,
    ensures
        match result {
            Ok(()) => chain_fault(chain@, count, limit) is None,
            Err(error) => chain_fault(chain@, count, limit) == Some(error@),
        },
{
    if chain.levels.len() as u64 != count as u64 {
        return Err(
            unwritable(
                Message::new("raster template Mipmap declares ").integer(count).text(
                    " levels but its chain has ",
                ).number(chain.levels.len() as u64),
            ),
        );
    }
    match &chain.identifier {
        None => Err(
            unwritable(Message::new("raster template has no base external identifier")),
        ),
        Some(identifier) => if identifier.len() as u64 > limit {
            Err(
                Error::limit("raster base external identifier", identifier.len() as u64, limit),
            )
        } else {
            Ok(())
        },
    }
}

fn finish_template(
    connection: &Connection,
    request: CloneRequest,
    layer: &Vec<i64>,
    parent: &Vec<i64>,
    chain: LevelChain,
    identifier: Vec<u8>,
) -> (template: Result<RasterLayerTemplate, Error>)
    requires
        layer@.len() == 8,
        parent@.len() == 3,
        chain@.identifier == Some(identifier@),
        chain@.levels.len() > 0,
    ensures
        exists|thumbnail: Result<Seq<i64>, Failure>|
            #[trigger] integers_read(
                *connection,
                "LayerThumbnail"@,
                layer@[6],
                thumbnail_question(),
                3,
                thumbnail,
            ) && template_after_thumbnail(
                *connection,
                request,
                layer@,
                parent@,
                chain@,
                thumbnail,
                error::outcome(template),
            ),
        template matches Ok(template) ==> template@.levels.len() > 0,
{
    let asked: [&str; 3] = ["CanvasId", "LayerId", "ThumbnailOffscreen"];
    assert(database::names(asked@) =~= thumbnail_items());
    let thumbnail = unique_integers(
        connection,
        "LayerThumbnail",
        layer[6],
        columns::ask(&asked, " FROM LayerThumbnail WHERE MainId = ?1").as_str(),
        3,
    );
    let ghost read = error::outcome(thumbnail);
    assert(integers_read(*connection, "LayerThumbnail"@, layer@[6], thumbnail_question(), 3, read));
    let thumbnail = match thumbnail {
        Ok(thumbnail) => thumbnail,
        Err(error) => {
            assert(template_after_thumbnail(
                *connection,
                request,
                layer@,
                parent@,
                chain@,
                read,
                Err(error@),
            ));
            return Err(error);
        },
    };
    if thumbnail[0] != layer[0] || thumbnail[1] != request.layer_id || thumbnail[2] <= 0 {
        let error = unwritable(
            Message::new("raster template LayerThumbnail ownership is invalid"),
        );
        assert(template_after_thumbnail(
            *connection,
            request,
            layer@,
            parent@,
            chain@,
            read,
            Err(error@),
        ));
        return Err(error);
    }
    let offscreen = read_offscreen(connection, thumbnail[2], layer[0], request.layer_id, true);
    let ghost shown = error::outcome(offscreen);
    let ghost model = chain@;
    assert(offscreen_read(*connection, thumbnail@[2], layer@[0], request.layer_id, true, shown));
    let template = match offscreen {
        Err(error) => Err(error),
        Ok(offscreen) => Ok(
            RasterLayerTemplate {
                layer_id: request.layer_id,
                canvas_id: layer[0],
                parent_layer_id: request.parent_layer_id,
                parent_first_child: parent[2],
                mipmap_id: layer[4],
                thumbnail_id: layer[6],
                thumbnail_offscreen_id: thumbnail[2],
                thumbnail_block_data_storage: storage(&offscreen.reference),
                levels: chain.levels,
                base_identifier: identifier,
            },
        ),
    };
    assert(error::outcome(template) == template_of(
        request,
        layer@,
        parent@,
        model,
        thumbnail@,
        shown,
    ));
    assert(template_after_thumbnail(
        *connection,
        request,
        layer@,
        parent@,
        model,
        read,
        error::outcome(template),
    ));
    template
}

fn read_levels(
    connection: &Connection,
    request: CloneRequest,
    layer: &Vec<i64>,
    parent: &Vec<i64>,
    first: i64,
    count: i64,
) -> (template: Result<RasterLayerTemplate, Error>)
    requires
        layer@.len() == 8,
        parent@.len() == 3,
        count > 0,
    ensures
        exists|chain: Result<ChainModel, Failure>|
            #[trigger] levels_read(*connection, layer@[0], request.layer_id, first, chain)
                && template_after_levels(
                *connection,
                request,
                layer@,
                parent@,
                count,
                chain,
                error::outcome(template),
            ),
        template matches Ok(template) ==> template@.levels.len() > 0,
{
    let chain = read_chain(connection, layer[0], request.layer_id, first);
    let ghost read = error::outcome(chain);
    assert(levels_read(*connection, layer@[0], request.layer_id, first, read));
    let chain = match chain {
        Ok(chain) => chain,
        Err(error) => {
            assert(
                template_after_levels(
                    *connection,
                    request,
                    layer@,
                    parent@,
                    count,
                    read,
                    Err(error@),
                )
            );
            return Err(error);
        },
    };
    if let Err(error) = check_chain(&chain, count, request.limits.max_identifier_size()) {
        assert(
            template_after_levels(*connection, request, layer@, parent@, count, read, Err(error@))
        );
        return Err(error);
    }
    let identifier = match &chain.identifier {
        Some(identifier) => copy_all(identifier),
        None => Vec::new(),
    };
    let template = finish_template(connection, request, layer, parent, chain, identifier);
    assert(template_after_levels(
        *connection,
        request,
        layer@,
        parent@,
        count,
        read,
        error::outcome(template),
    ));
    template
}

fn read_layer(connection: &Connection, request: CloneRequest) -> (template: Result<
    RasterLayerTemplate,
    Error,
>)
    ensures
        exists|layer: Result<Seq<i64>, Failure>|
            #[trigger] integers_read(
                *connection,
                "Layer"@,
                request.layer_id,
                layer_question(),
                8,
                layer,
            )
                && template_after_layer(*connection, request, layer, error::outcome(template)),
        template matches Ok(template) ==> template@.levels.len() > 0,
{
    let asked: [&str; 8] = ["CanvasId", "LayerType", "LayerFolder", "coalesce(LayerFirstChildIndex, 0)", "coalesce(LayerRenderMipmap, 0)", "coalesce(LayerLayerMaskMipmap, 0)", "coalesce(LayerRenderThumbnail, 0)", "coalesce(LayerLayerMaskThumbnail, 0)"];
    assert(database::names(asked@) =~= layer_items());
    let layer = unique_integers(
        connection,
        "Layer",
        request.layer_id,
        columns::ask(&asked, " FROM Layer WHERE MainId = ?1").as_str(),
        8,
    );
    let ghost read_layer = error::outcome(layer);
    assert(integers_read(*connection, "Layer"@, request.layer_id, layer_question(), 8, read_layer));
    let layer = match layer {
        Ok(layer) => layer,
        Err(error) => {
            assert(template_after_layer(*connection, request, read_layer, Err(error@)));
            return Err(error);
        },
    };
    if let Err(error) = check_leaf(&layer, request.layer_id) {
        assert(template_after_layer(*connection, request, read_layer, Err(error@)));
        return Err(error);
    }
    let asked: [&str; 3] = ["CanvasId", "LayerFolder", "coalesce(LayerFirstChildIndex, 0)"];
    assert(database::names(asked@) =~= parent_items());
    let parent = unique_integers(
        connection,
        "Layer",
        request.parent_layer_id,
        columns::ask(&asked, " FROM Layer WHERE MainId = ?1").as_str(),
        3,
    );
    let ghost read_parent = error::outcome(parent);
    assert(
        integers_read(
            *connection,
            "Layer"@,
            request.parent_layer_id,
            parent_question(),
            3,
            read_parent,
        )
    );
    let parent = match parent {
        Ok(parent) => parent,
        Err(error) => {
            assert(template_after_parent(*connection, request, layer@, read_parent, Err(error@)));
            assert(template_after_layer(*connection, request, read_layer, Err(error@)));
            return Err(error);
        },
    };
    if parent[0] != layer[0] || parent[1] == 0 {
        let error = unwritable(
            Message::new("raster clone parent is not a folder on the template canvas"),
        );
        assert(template_after_parent(*connection, request, layer@, read_parent, Err(error@)));
        assert(template_after_layer(*connection, request, read_layer, Err(error@)));
        return Err(error);
    }
    let template = read_mipmap(connection, request, &layer, &parent);
    assert(
        template_after_parent(*connection, request, layer@, read_parent, error::outcome(template))
    );
    assert(template_after_layer(*connection, request, read_layer, error::outcome(template)));
    template
}

fn read_mipmap(
    connection: &Connection,
    request: CloneRequest,
    layer: &Vec<i64>,
    parent: &Vec<i64>,
) -> (template: Result<RasterLayerTemplate, Error>)
    requires
        layer@.len() == 8,
        parent@.len() == 3,
    ensures
        exists|mipmap: Result<Seq<i64>, Failure>|
            #[trigger] integers_read(
                *connection,
                "Mipmap"@,
                layer@[4],
                mipmap_question(),
                4,
                mipmap,
            )
                && template_after_mipmap(
                *connection,
                request,
                layer@,
                parent@,
                mipmap,
                error::outcome(template),
            ),
        template matches Ok(template) ==> template@.levels.len() > 0,
{
    let asked: [&str; 4] = ["CanvasId", "LayerId", "MipmapCount", "BaseMipmapInfo"];
    assert(database::names(asked@) =~= mipmap_items());
    let mipmap = unique_integers(
        connection,
        "Mipmap",
        layer[4],
        columns::ask(&asked, " FROM Mipmap WHERE MainId = ?1").as_str(),
        4,
    );
    let ghost read = error::outcome(mipmap);
    assert(integers_read(*connection, "Mipmap"@, layer@[4], mipmap_question(), 4, read));
    let mipmap = match mipmap {
        Ok(mipmap) => mipmap,
        Err(error) => {
            assert(template_after_mipmap(*connection, request, layer@, parent@, read, Err(error@)));
            return Err(error);
        },
    };
    if let Err(error) = check_mipmap(
        &mipmap,
        layer[0],
        request.layer_id,
        request.limits.max_layers(),
    ) {
        assert(template_after_mipmap(*connection, request, layer@, parent@, read, Err(error@)));
        return Err(error);
    }
    let template = read_levels(connection, request, layer, parent, mipmap[3], mipmap[2]);
    assert(
        template_after_mipmap(*connection, request, layer@, parent@, read, error::outcome(template))
    );
    template
}

impl RasterLayerTemplate {
    /// Reads and validates a layer that others can be cloned from.
    pub fn read(connection: &Connection, layer_id: i64, parent_layer_id: i64, limits: Limits) -> (
    template: Result<RasterLayerTemplate, Error>)
        ensures
            template_read(
                *connection,
                (CloneRequest { layer_id, parent_layer_id, limits }),
                error::outcome(template),
            ),
            template matches Ok(template) ==> template@.levels.len() > 0,
    {
        let request = CloneRequest { layer_id, parent_layer_id, limits };
        let tables = check_tables(connection);
        let ghost checked = error::plain(tables);
        assert(clone_tables_checked(*connection, checked));
        if let Err(error) = tables {
            assert(template_after_tables(*connection, request, checked, Err(error@)));
            return Err(error);
        }
        let place = check_place(connection, request.parent_layer_id, request.limits);
        let ghost placed = error::plain(place);
        assert(place_read(*connection, request.parent_layer_id, request.limits, placed));
        if let Err(error) = place {
            assert(template_after_place(*connection, request, placed, Err(error@)));
            assert(template_after_tables(*connection, request, checked, Err(error@)));
            return Err(error);
        }
        let template = read_layer(connection, request);
        assert(template_after_place(*connection, request, placed, error::outcome(template)));
        assert(template_after_tables(*connection, request, checked, error::outcome(template)));
        template
    }
}

} // verus!
