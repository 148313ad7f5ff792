//! Cloning a raster layer: its rows are prepared, and added in one transaction.

use rusqlite::{Connection, Transaction};
use vstd::prelude::*;
use vstd::utf8;

use crate::attributes;
use crate::attributes::replace_attribute_block_sizes;
use crate::clone_ids;
use crate::clone_ids::{
    allocate_raster_ids, generate_raster_external_identifiers, generate_raster_layer_uuid,
    sequential_raster_ids,
};
use crate::clone_plan;
use crate::clone_plan::{plan_raster_clone, ClonePlan, CloneRows, Step};
use crate::error;
use crate::error::{Error, Failure};
use crate::limits::Limits;
use crate::message;
use crate::message::Message;
use crate::pixels::PixelFormat;
use crate::raster_template;
use crate::raster_template::{CloneRequest, RasterLayerTemplate};
use crate::raster_tree;
use crate::raster_tree::cloneable_table_columns;
use crate::sql::copy_all;
use crate::tile_codec;
use crate::tile_codec::RasterEncoder;
use crate::transaction;

verus! {

fn unwritable(reason: Message) -> (error: Error)
    ensures
        error@ == (Failure::InvalidWrite { reason: reason@ }),
{
    Error::InvalidWrite { reason: reason.build() }
}

/// The tables that a cloned layer has rows in.
pub open spec fn row_table(at: int) -> Seq<char> {
    if at == 0 {
        "Layer"@
    } else if at == 1 {
        "Mipmap"@
    } else if at == 2 {
        "MipmapInfo"@
    } else if at == 3 {
        "Offscreen"@
    } else {
        "LayerThumbnail"@
    }
}

fn row_table_name(at: usize) -> (name: &'static str)
    ensures
        name@ == row_table(at as int),
{
    if at == 0 {
        "Layer"
    } else if at == 1 {
        "Mipmap"
    } else if at == 2 {
        "MipmapInfo"
    } else if at == 3 {
        "Offscreen"
    } else {
        "LayerThumbnail"
    }
}

/// Whether reading the columns of the tables from `at` on, after the ones in `found`, can
/// have this outcome.
pub open spec fn all_columns_read(
    connection: Connection,
    at: int,
    found: Seq<Seq<Seq<char>>>,
    outcome: Result<Seq<Seq<Seq<char>>>, Failure>,
) -> bool
    decreases 5 - at,
{
    if at >= 5 {
        outcome == Ok::<Seq<Seq<Seq<char>>>, Failure>(found)
    } else {
        exists|columns: Result<Seq<Seq<char>>, Failure>|
            #[trigger] raster_tree::columns_read(
                connection,
                row_table(at),
                columns,
            ) && match columns {
                Err(failure) => outcome == Err::<Seq<Seq<Seq<char>>>, Failure>(failure),
                Ok(columns) => all_columns_read(connection, at + 1, found.push(columns), outcome),
            }
    }
}

/// Lists of columns, or why there are none.
pub open spec fn columns_given(result: Result<Vec<Vec<String>>, Error>) -> Result<
    Seq<Seq<Seq<char>>>,
    Failure,
> {
    match result {
        Ok(lists) => Ok(clone_plan::text_lists(lists@)),
        Err(error) => Err(error@),
    }
}

fn read_all_columns(connection: &Connection) -> (lists: Result<Vec<Vec<String>>, Error>)
    ensures
        all_columns_read(*connection, 0, Seq::empty(), columns_given(lists)),
        lists matches Ok(lists) ==> lists@.len() == 5,
{
    let mut lists: Vec<Vec<String>> = Vec::new();
    assert(clone_plan::text_lists(lists@) =~= Seq::<Seq<Seq<char>>>::empty());
    while lists.len() < 5
        invariant
            lists@.len() <= 5,
            forall|outcome: Result<Seq<Seq<Seq<char>>>, Failure>| #[trigger]
                all_columns_read(
                    *connection,
                    lists@.len() as int,
                    clone_plan::text_lists(lists@),
                    outcome,
                ) ==> all_columns_read(*connection, 0, Seq::empty(), outcome),
        decreases 5 - lists@.len(),
    {
        let ghost at = lists@.len() as int;
        let ghost found = clone_plan::text_lists(lists@);
        let columns = cloneable_table_columns(connection, row_table_name(lists.len()));
        let ghost read = raster_tree::text_list(columns);
        assert(raster_tree::columns_read(*connection, row_table(at), read));
        let columns = match columns {
            Ok(columns) => columns,
            Err(error) => {
                assert(all_columns_read(*connection, at, found, Err(error@)));
                return Err(error);
            },
        };
        let ghost model = raster_tree::texts(columns@);
        lists.push(columns);
        proof {
            assert(clone_plan::text_lists(lists@) =~= found.push(model));
            assert forall|outcome: Result<Seq<Seq<Seq<char>>>, Failure>| #[trigger]
                all_columns_read(
                    *connection,
                    lists@.len() as int,
                    clone_plan::text_lists(lists@),
                    outcome,
                ) implies all_columns_read(*connection, 0, Seq::empty(), outcome) by {
                assert(all_columns_read(*connection, at, found, outcome));
            }
        }
    }
    assert(all_columns_read(
        *connection,
        lists@.len() as int,
        clone_plan::text_lists(lists@),
        Ok(clone_plan::text_lists(lists@)),
    ));
    Ok(lists)
}

/// How many rows a layer with so many levels has in a table.
pub open spec fn row_amount(at: int, levels: nat) -> nat {
    if at == 2 {
        levels
    } else if at == 3 {
        levels + 1
    } else {
        1
    }
}

/// Whether allocating IDs in the tables from `at` on, after the ones in `found`, can have
/// this outcome.
pub open spec fn all_ids_allocated(
    connection: Connection,
    at: int,
    levels: nat,
    found: Seq<(i64, i64)>,
    outcome: Result<Seq<(i64, i64)>, Failure>,
) -> bool
    decreases 5 - at,
{
    if at >= 5 {
        outcome == Ok::<Seq<(i64, i64)>, Failure>(found)
    } else {
        exists|ids: Result<(i64, i64), Failure>|
            #[trigger] clone_ids::allocated(connection, row_table(at), row_amount(at, levels), ids)
                && match ids {
                Err(failure) => outcome == Err::<Seq<(i64, i64)>, Failure>(failure),
                Ok(ids) => all_ids_allocated(connection, at + 1, levels, found.push(ids), outcome),
            }
    }
}

fn allocate_all_ids(
    connection: &Connection,
    levels: usize,
) -> (list: Result<Vec<(i64, i64)>, Error>)
    requires
        levels < usize::MAX,
    ensures
        all_ids_allocated(*connection, 0, levels as nat, Seq::empty(), error::outcome(list)),
        list matches Ok(list) ==> list@.len() == 5,
{
    let mut list: Vec<(i64, i64)> = Vec::new();
    assert(list@ =~= Seq::<(i64, i64)>::empty());
    while list.len() < 5
        invariant
            list@.len() <= 5,
            levels < usize::MAX,
            forall|outcome: Result<Seq<(i64, i64)>, Failure>| #[trigger]
                all_ids_allocated(
                    *connection,
                    list@.len() as int,
                    levels as nat,
                    list@,
                    outcome,
                ) ==> all_ids_allocated(*connection, 0, levels as nat, Seq::empty(), outcome),
        decreases 5 - list@.len(),
    {
        let ghost at = list@.len() as int;
        let ghost found = list@;
        let amount: usize = if list.len() == 2 {
            levels
        } else if list.len() == 3 {
            levels + 1
        } else {
            1
        };
        let ids = allocate_raster_ids(connection, row_table_name(list.len()), amount);
        let ghost read = error::plain(ids);
        assert(
            clone_ids::allocated(*connection, row_table(at), row_amount(at, levels as nat), read)
        );
        let ids: (i64, i64) = match ids {
            Ok(ids) => ids,
            Err(error) => {
                assert(all_ids_allocated(*connection, at, levels as nat, found, Err(error@)));
                return Err(error);
            },
        };
        list.push(ids);
        proof {
            assert forall|outcome: Result<Seq<(i64, i64)>, Failure>| #[trigger]
                all_ids_allocated(
                    *connection,
                    list@.len() as int,
                    levels as nat,
                    list@,
                    outcome,
                ) implies all_ids_allocated(*connection, 0, levels as nat, Seq::empty(), outcome) by {
                assert(all_ids_allocated(*connection, at, levels as nat, found, outcome));
            }
        }
    }
    assert(all_ids_allocated(*connection, list@.len() as int, levels as nat, list@, Ok(list@)));
    Ok(list)
}

/// What a clone is prepared from beside its template.
pub struct CloneInput {
    pub layer_name: Seq<char>,
    pub base_attribute: Seq<u8>,
    pub identifiers: Seq<Seq<u8>>,
}

/// Whether the IDs that follow from the allocated ones are in range.
pub open spec fn ids_in_range(ids: Seq<(i64, i64)>, levels: nat) -> bool {
    levels <= i64::MAX && ids[2].0 + levels - 1 <= i64::MAX && ids[3].0 + levels <= i64::MAX
}

/// The rows of a clone.
pub open spec fn rows_of(
    input: CloneInput,
    levels: nat,
    columns: Seq<Seq<Seq<char>>>,
    ids: Seq<(i64, i64)>,
    uuid: Result<Seq<char>, Failure>,
) -> Result<clone_plan::RowsModel, Failure> {
    match uuid {
        Err(failure) => Err(failure),
        Ok(layer_uuid) => Ok(
            clone_plan::RowsModel {
                layer_name: input.layer_name,
                layer_id: ids[0].0,
                layer_uuid,
                mipmap_id: ids[1].0,
                mipmap_info_ids: clone_ids::ids_from(ids[2].0, levels),
                offscreen_ids: clone_ids::ids_from(ids[3].0, levels),
                thumbnail_id: ids[4].0,
                thumbnail_offscreen_id: (ids[3].0 + levels) as i64,
                base_attribute: input.base_attribute,
                identifiers: input.identifiers,
                columns,
                maxima: Seq::new(5, |i: int| ids[i].1),
            },
        ),
    }
}

/// Whether preparing a clone, where its IDs have been allocated, can have this outcome.
pub open spec fn prepared_after_ids(
    connection: Connection,
    input: CloneInput,
    levels: nat,
    limits: Limits,
    columns: Seq<Seq<Seq<char>>>,
    ids: Result<Seq<(i64, i64)>, Failure>,
    outcome: Result<clone_plan::RowsModel, Failure>,
) -> bool {
    match ids {
        Err(failure) => outcome == Err::<clone_plan::RowsModel, Failure>(failure),
        Ok(ids) => if !ids_in_range(ids, levels) {
            outcome == Err::<clone_plan::RowsModel, Failure>(Failure::OffsetOverflow)
        } else {
            exists|uuid: Result<Seq<char>, Failure>|
                #[trigger] clone_ids::uuid_generated(connection, limits, uuid) && outcome == rows_of(
                    input,
                    levels,
                    columns,
                    ids,
                    uuid,
                )
        },
    }
}

/// Whether allocating all IDs of a clone can have this outcome.
pub open spec fn ids_allocated(
    connection: Connection,
    levels: nat,
    outcome: Result<Seq<(i64, i64)>, Failure>,
) -> bool {
    all_ids_allocated(connection, 0, levels, Seq::empty(), outcome)
}

/// Whether preparing a clone, where the columns have been read, can have this outcome.
pub open spec fn prepared_after_columns(
    connection: Connection,
    input: CloneInput,
    levels: nat,
    limits: Limits,
    columns: Result<Seq<Seq<Seq<char>>>, Failure>,
    outcome: Result<clone_plan::RowsModel, Failure>,
) -> bool {
    match columns {
        Err(failure) => outcome == Err::<clone_plan::RowsModel, Failure>(failure),
        Ok(columns) => exists|ids: Result<Seq<(i64, i64)>, Failure>|
            #[trigger] ids_allocated(connection, levels, ids) && prepared_after_ids(
                connection,
                input,
                levels,
                limits,
                columns,
                ids,
                outcome,
            ),
    }
}

/// Whether reading the columns of all tables can have this outcome.
pub open spec fn row_columns_read(
    connection: Connection,
    outcome: Result<Seq<Seq<Seq<char>>>, Failure>,
) -> bool {
    all_columns_read(connection, 0, Seq::empty(), outcome)
}

/// Whether preparing a clone can have this outcome.
pub open spec fn clone_prepared(
    connection: Connection,
    input: CloneInput,
    levels: nat,
    limits: Limits,
    outcome: Result<clone_plan::RowsModel, Failure>,
) -> bool {
    if input.identifiers.len() != levels + 1 {
        outcome == Err::<clone_plan::RowsModel, Failure>(
            Failure::InvalidWrite {
                reason: "raster clone identifier allocation count is inconsistent"@,
            },
        )
    } else {
        exists|columns: Result<Seq<Seq<Seq<char>>>, Failure>|
            #[trigger] row_columns_read(connection, columns) && prepared_after_columns(
                connection,
                input,
                levels,
                limits,
                columns,
                outcome,
            )
    }
}

/// What a clone is prepared from.
pub open spec fn input_of(
    layer_name: Seq<char>,
    base_attribute: Seq<u8>,
    identifiers: Seq<Seq<u8>>,
) -> CloneInput {
    CloneInput { layer_name, base_attribute, identifiers }
}

#[verifier::spinoff_prover]
#[verifier::rlimit(40)]
fn prepare_rows(
    connection: &Connection,
    levels: usize,
    layer_name: &str,
    base_attribute: Vec<u8>,
    identifiers: Vec<Vec<u8>>,
    columns: Vec<Vec<String>>,
    limits: Limits,
) -> (rows: Result<CloneRows, Error>)
    requires
        identifiers@.len() == levels + 1,
        columns@.len() == 5,
    ensures
        prepared_after_columns(
            *connection,
            input_of(layer_name@, base_attribute@, error::views(identifiers@)),
            levels as nat,
            limits,
            Ok(clone_plan::text_lists(columns@)),
            error::outcome(rows),
        ),
        rows matches Ok(rows) ==> rows@.mipmap_info_ids.len() == levels
            && rows@.offscreen_ids.len() == levels && rows@.identifiers.len() == levels + 1
            && rows@.columns.len() == 5 && rows@.maxima.len() == 5,
{
    assert(identifiers.len() == identifiers@.len());
    let ghost input = input_of(layer_name@, base_attribute@, error::views(identifiers@));
    let ghost lists = clone_plan::text_lists(columns@);
    let ids = allocate_all_ids(connection, levels);
    let ghost read = error::outcome(ids);
    assert(ids_allocated(*connection, levels as nat, read));
    let ids = match ids {
        Ok(ids) => ids,
        Err(error) => {
            assert(
                prepared_after_ids(
                    *connection,
                    input,
                    levels as nat,
                    limits,
                    lists,
                    read,
                    Err(error@),
                )
            );
            return Err(error);
        },
    };
    let mipmap_info_ids = match sequential_raster_ids(ids[2].0, levels) {
        Ok(list) => list,
        Err(error) => {
            assert(
                prepared_after_ids(
                    *connection,
                    input,
                    levels as nat,
                    limits,
                    lists,
                    read,
                    Err(error@),
                )
            );
            return Err(error);
        },
    };
    let offscreen_ids = match sequential_raster_ids(ids[3].0, levels) {
        Ok(list) => list,
        Err(error) => {
            assert(
                prepared_after_ids(
                    *connection,
                    input,
                    levels as nat,
                    limits,
                    lists,
                    read,
                    Err(error@),
                )
            );
            return Err(error);
        },
    };
    let small: bool = levels as u64 <= i64::MAX as u64;
    let sum: Option<i64> = if small {
        ids[3].0.checked_add(levels as i64)
    } else {
        None
    };
    let thumbnail_offscreen_id: i64 = match sum {
        Some(id) => id,
        None => {
            proof {
                assert(!ids_in_range(ids@, levels as nat));
                assert(prepared_after_ids(
                    *connection,
                    input,
                    levels as nat,
                    limits,
                    lists,
                    read,
                    Err(Failure::OffsetOverflow),
                ));
            }
            return Err(Error::OffsetOverflow);
        },
    };
    let uuid = generate_raster_layer_uuid(connection, limits);
    let ghost made = error::outcome(uuid);
    assert(clone_ids::uuid_generated(*connection, limits, made));
    assert(ids_in_range(ids@, levels as nat));
    let layer_uuid = match uuid {
        Ok(uuid) => uuid,
        Err(error) => {
            assert(rows_of(input, levels as nat, lists, ids@, made) == Err::<
                clone_plan::RowsModel,
                Failure,
            >(error@));
            assert(
                prepared_after_ids(
                    *connection,
                    input,
                    levels as nat,
                    limits,
                    lists,
                    read,
                    Err(error@),
                )
            );
            return Err(error);
        },
    };
    let mut maxima: Vec<i64> = Vec::new();
    maxima.push(ids[0].1);
    maxima.push(ids[1].1);
    maxima.push(ids[2].1);
    maxima.push(ids[3].1);
    maxima.push(ids[4].1);
    let rows = CloneRows {
        layer_name: Message::new(layer_name).build(),
        layer_id: ids[0].0,
        layer_uuid,
        mipmap_id: ids[1].0,
        mipmap_info_ids,
        offscreen_ids,
        thumbnail_id: ids[4].0,
        thumbnail_offscreen_id,
        base_attribute,
        identifiers,
        columns,
        maxima,
    };
    proof {
        let model = rows_of(input, levels as nat, lists, ids@, made)->Ok_0;
        assert(rows@.maxima =~= model.maxima);
        assert(rows@ =~= model);
        assert(
            prepared_after_ids(*connection, input, levels as nat, limits, lists, read, Ok(rows@))
        );
    }
    Ok(rows)
}

/// Prepares the rows of a clone.
pub fn prepare_raster_clone(
    connection: &Connection,
    template: &RasterLayerTemplate,
    layer_name: &str,
    base_attribute: Vec<u8>,
    identifiers: Vec<Vec<u8>>,
    limits: Limits,
) -> (rows: Result<CloneRows, Error>)
    requires
        template@.levels.len() > 0,
    ensures
        clone_prepared(
            *connection,
            input_of(layer_name@, base_attribute@, error::views(identifiers@)),
            template@.levels.len(),
            limits,
            error::outcome(rows),
        ),
        rows matches Ok(rows) ==> clone_plan::rows_fit(template@, rows@),
{
    assert(template.levels.len() == template@.levels.len());
    assert(identifiers.len() == error::views(identifiers@).len());
    let ghost input = input_of(layer_name@, base_attribute@, error::views(identifiers@));
    if identifiers.len() == 0 || identifiers.len() - 1 != template.levels.len() {
        return Err(
            unwritable(Message::new("raster clone identifier allocation count is inconsistent")),
        );
    }
    let columns = read_all_columns(connection);
    let ghost read = columns_given(columns);
    assert(row_columns_read(*connection, read));
    let columns = match columns {
        Ok(columns) => columns,
        Err(error) => {
            assert(prepared_after_columns(
                *connection,
                input,
                template@.levels.len(),
                limits,
                read,
                Err(error@),
            ));
            return Err(error);
        },
    };
    prepare_rows(
        connection,
        template.levels.len(),
        layer_name,
        base_attribute,
        identifiers,
        columns,
        limits,
    )
}

/// Whether a transaction on a connection has run the statements of a plan in order, no
/// further than the first that did not change one row.
pub open spec fn follows(
    progress: transaction::Progress,
    connection: Connection,
    steps: Seq<clone_plan::StepModel>,
) -> bool {
    &&& progress.connection == connection
    &&& progress.statements.len() <= steps.len()
    &&& forall|i: int|
        0 <= i < progress.statements.len() ==> (#[trigger] progress.statements[i]).sql
            == steps[i].sql && progress.statements[i].parameters == steps[i].parameters
    &&& forall|i: int|
        0 <= i < progress.statements.len() - 1 ==> (#[trigger] progress.statements[i]).changed
            == Some(1usize)
}

/// Whether every statement that a transaction has run changed one row.
pub open spec fn has_run_well(progress: transaction::Progress) -> bool {
    progress.statements.len() > 0 ==> progress.statements.last().changed == Some(1usize)
}

/// Whether a transaction has run every statement of a plan, each of which changed one row.
pub open spec fn has_run_whole(
    progress: transaction::Progress,
    connection: Connection,
    steps: Seq<clone_plan::StepModel>,
) -> bool {
    &&& follows(progress, connection, steps)
    &&& progress.statements.len() == steps.len()
    &&& has_run_well(progress)
}

/// What came of the statements that a transaction has run: the last one is the only one that
/// can have failed.
pub open spec fn run_result(
    progress: transaction::Progress,
    steps: Seq<clone_plan::StepModel>,
) -> Result<(), Failure> {
    if has_run_well(progress) {
        Ok(())
    } else if progress.statements.last().changed is None {
        Err(Failure::Sqlite)
    } else {
        let step = steps[progress.statements.len() - 1];
        Err(
            Failure::InvalidWrite {
                reason: if step.tells_count {
                    step.complaint + message::decimal(
                        progress.statements.last().changed->Some_0 as nat,
                    ) + " rows"@
                } else {
                    step.complaint
                },
            },
        )
    }
}

fn run_steps(transaction: &mut Transaction<'_>, steps: &Vec<Step>) -> (result: Result<(), Error>)
    requires
        transaction::progress_of(*old(transaction)).statements.len() == 0,
    ensures
        ({
            let progress = transaction::progress_of(*final(transaction));
            &&& follows(
                progress,
                transaction::progress_of(*old(transaction)).connection,
                error::views(steps@),
            )
            &&& error::plain(result) == run_result(progress, error::views(steps@))
            &&& result is Ok ==> progress.statements.len() == steps@.len()
        }),
{
    let ghost models = error::views(steps@);
    let ghost connection = transaction::progress_of(*transaction).connection;
    let mut at: usize = 0;
    while at < steps.len()
        invariant
            at <= steps@.len(),
            models == error::views(steps@),
            connection == transaction::progress_of(*old(transaction)).connection,
            follows(transaction::progress_of(*transaction), connection, models),
            has_run_well(transaction::progress_of(*transaction)),
            transaction::progress_of(*transaction).statements.len() == at,
        decreases steps@.len() - at,
    {
        assert(models[at as int] == steps@[at as int]@);
        let count: usize = transaction::run(
            transaction,
            steps[at].sql.as_str(),
            &steps[at].parameters,
        )?;
        if count != 1 {
            let complaint = Message::new(steps[at].complaint.as_str());
            return Err(
                unwritable(
                    if steps[at].tells_count {
                        complaint.number(count as u64).text(" rows")
                    } else {
                        complaint
                    },
                ),
            );
        }
        at = at + 1;
    }
    Ok(())
}

/// What running the statements of a plan in a transaction comes to.
pub open spec fn plan_result(
    progress: transaction::Progress,
    plan: clone_plan::PlanModel,
) -> Result<(), Failure> {
    if run_result(progress, plan.steps) is Ok && plan.refused {
        Err(
            Failure::InvalidWrite {
                reason: "generated raster external identifier is not valid UTF-8"@,
            },
        )
    } else {
        run_result(progress, plan.steps)
    }
}

fn run_plan(transaction: &mut Transaction<'_>, plan: &ClonePlan) -> (result: Result<(), Error>)
    requires
        transaction::progress_of(*old(transaction)).statements.len() == 0,
    ensures
        ({
            let progress = transaction::progress_of(*final(transaction));
            &&& follows(
                progress,
                transaction::progress_of(*old(transaction)).connection,
                plan@.steps,
            )
            &&& error::plain(result) == plan_result(progress, plan@)
            &&& run_result(progress, plan@.steps) is Ok ==> progress.statements.len()
                == plan@.steps.len()
        }),
{
    let result = run_steps(transaction, &plan.steps);
    if result.is_ok() && plan.refused {
        return Err(
            unwritable(
                Message::new("generated raster external identifier is not valid UTF-8"),
            ),
        );
    }
    result
}

/// Whether a transaction was given up.
pub open spec fn rolled_back(progress: transaction::Progress) -> bool {
    exists|undone: bool| #[trigger] transaction::may_roll_back(progress, undone)
}

/// Whether closing a transaction whose statements came to `run` can have this outcome: what
/// succeeded is committed, and what failed, or cannot be committed, is rolled back.
pub open spec fn transaction_closed(
    progress: transaction::Progress,
    run: Result<(), Failure>,
    outcome: Result<(), Failure>,
) -> bool {
    match run {
        Err(failure) => rolled_back(progress) && outcome == Err::<(), Failure>(failure),
        Ok(()) => match outcome {
            Ok(()) => transaction::may_commit(progress, true),
            Err(failure) => failure == Failure::Sqlite && transaction::may_commit(progress, false)
                && rolled_back(progress),
        },
    }
}

/// Whether a transaction that got this far with a plan can have this outcome: it has run the
/// statements in order, up to the first that failed or to the end, and was then closed.
pub open spec fn plan_closed(
    progress: transaction::Progress,
    connection: Connection,
    plan: clone_plan::PlanModel,
    outcome: Result<(), Failure>,
) -> bool {
    &&& follows(progress, connection, plan.steps)
    &&& run_result(progress, plan.steps) is Ok ==> progress.statements.len() == plan.steps.len()
    &&& transaction_closed(progress, plan_result(progress, plan), outcome)
}

/// Whether running a plan in one transaction can have this outcome.
pub open spec fn transaction_run(
    connection: Connection,
    plan: clone_plan::PlanModel,
    outcome: Result<(), Failure>,
) -> bool {
    ||| transaction::may_begin(connection, false) && outcome == Err::<(), Failure>(Failure::Sqlite)
    ||| transaction::may_begin(connection, true) && exists|progress: transaction::Progress|
        #[trigger] plan_closed(progress, connection, plan, outcome)
}

/// Whether adding the rows of a clone can have this outcome.
pub open spec fn clone_inserted(
    connection: Connection,
    template: raster_template::TemplateModel,
    rows: clone_plan::RowsModel,
    outcome: Result<i64, Failure>,
) -> bool {
    match outcome {
        Ok(id) => id == rows.layer_id && transaction_run(
            connection,
            clone_plan::clone_plan(template, rows),
            Ok(()),
        ),
        Err(failure) => transaction_run(
            connection,
            clone_plan::clone_plan(template, rows),
            Err(failure),
        ),
    }
}

fn run_transaction(connection: &mut Connection, plan: &ClonePlan) -> (result: Result<(), Error>)
    ensures
        transaction_run(*old(connection), plan@, error::plain(result)),
        *final(connection) == *old(connection),
{
    let ghost place = *connection;
    let mut transaction = transaction::begin(connection)?;
    let run = run_plan(&mut transaction, plan);
    let ghost progress = transaction::progress_of(transaction);
    if let Err(error) = run {
        let _ = transaction::roll_back(transaction);
        assert(plan_closed(progress, place, plan@, Err(error@)));
        return Err(error);
    }
    let done = transaction::commit(transaction);
    assert(plan_closed(progress, place, plan@, error::plain(done)));
    done
}

/// Adds the rows of a clone in one transaction, and gives the ID of the new layer. A
/// failure rolls every row back.
pub fn insert_raster_layer_clone(
    connection: &mut Connection,
    template: &RasterLayerTemplate,
    rows: &CloneRows,
) -> (id: Result<i64, Error>)
    requires
        clone_plan::rows_fit(template@, rows@),
    ensures
        clone_inserted(*old(connection), template@, rows@, error::plain(id)),
        *final(connection) == *old(connection),
{
    let plan = plan_raster_clone(template, rows);
    match run_transaction(connection, &plan) {
        Ok(()) => Ok(rows.layer_id),
        Err(error) => Err(error),
    }
}

/// The rows of a clone go in together or not at all. Where the clone succeeds, one
/// transaction has run every statement of its plan, in order, each of which changed one row,
/// and was committed. Where it fails, no transaction began, or the one that did had run the
/// statements in order, no further than the first that failed, and was rolled back.
pub proof fn clone_goes_in_whole_or_not_at_all(
    connection: Connection,
    template: raster_template::TemplateModel,
    rows: clone_plan::RowsModel,
    outcome: Result<i64, Failure>,
)
    requires
        clone_inserted(connection, template, rows, outcome),
    ensures
        ({
            let steps = clone_plan::clone_plan(template, rows).steps;
            match outcome {
                Ok(_) => exists|progress: transaction::Progress|
                    #[trigger] has_run_whole(progress, connection, steps)
                        && transaction::may_commit(progress, true),
                Err(_) => transaction::may_begin(connection, false) || exists|
                    progress: transaction::Progress,
                |
                    #[trigger] follows(progress, connection, steps) && rolled_back(progress),
            }
        }),
{
    let plan = clone_plan::clone_plan(template, rows);
    let run: Result<(), Failure> = match outcome {
        Ok(_) => Ok(()),
        Err(failure) => Err(failure),
    };
    if !transaction::may_begin(connection, false) || run is Ok {
        let progress = choose|progress: transaction::Progress| #[trigger]
            plan_closed(progress, connection, plan, run);
        assert(plan_closed(progress, connection, plan, run));
        assert(follows(progress, connection, plan.steps));
        if run is Ok {
            assert(has_run_whole(progress, connection, plan.steps));
        }
    }
}

/// The tiles from `at` on, after the ones in `found`.
pub open spec fn tiles_from(encoder: RasterEncoder<'_>, at: int, found: Seq<Seq<u8>>) -> Result<
    Seq<Seq<u8>>,
    Failure,
>
    decreases encoder.tile_count - at,
{
    if at >= encoder.tile_count {
        Ok(found)
    } else {
        match encoder.encoded(at as u32, None) {
            Err(failure) => Err(failure),
            Ok(tile) => tiles_from(encoder, at + 1, found.push(tile)),
        }
    }
}

/// Encodes every tile of a bitmap.
pub fn encode_tiles(encoder: &RasterEncoder<'_>) -> (tiles: Result<Vec<Vec<u8>>, Error>)
    requires
        encoder.ready(),
    ensures
        error::listed(tiles) == tiles_from(*encoder, 0, Seq::empty()),
{
    let mut tiles: Vec<Vec<u8>> = Vec::new();
    let mut at: u32 = 0;
    assert(error::views(tiles@) =~= Seq::<Seq<u8>>::empty());
    while at < encoder.tile_count
        invariant
            at <= encoder.tile_count,
            encoder.ready(),
            tiles_from(*encoder, 0, Seq::empty()) == tiles_from(
                *encoder,
                at as int,
                error::views(tiles@),
            ),
        decreases encoder.tile_count - at,
    {
        let tile = encoder.encode_tile(at, None)?;
        proof {
            error::views_push(tiles@, tile);
        }
        tiles.push(tile);
        at = at + 1;
    }
    Ok(tiles)
}

/// A layer that is about to be cloned: its template, and the tiles of its new pixels.
pub struct CloneDraft {
    pub template: RasterLayerTemplate,
    pub tiles: Vec<Vec<u8>>,
}

/// The model of a [`CloneDraft`].
#[verifier::ext_equal]
pub struct DraftModel {
    pub template: raster_template::TemplateModel,
    pub tiles: Seq<Seq<u8>>,
}

impl View for CloneDraft {
    type V = DraftModel;

    open spec fn view(&self) -> DraftModel {
        DraftModel { template: self.template@, tiles: error::views(self.tiles@) }
    }
}

/// Whether tiles are those of pixels for the attributes of a template.
pub open spec fn tiles_of(
    attributes: attributes::AttributesModel,
    format: PixelFormat,
    pixels: Seq<u8>,
    limits: Limits,
    outcome: Result<Seq<Seq<u8>>, Failure>,
) -> bool {
    match tile_codec::encoder_fault(
        attributes,
        format,
        pixels.len() as int,
        limits.max_canvas_dimension,
        limits.max_raster_bytes,
        limits.max_decompressed_block_size,
    ) {
        Some(failure) => outcome == Err::<Seq<Seq<u8>>, Failure>(failure),
        None => exists|encoder: RasterEncoder<'_>|
            #[trigger] encodes(encoder, attributes, format, pixels) && outcome == tiles_from(
                encoder,
                0,
                Seq::empty(),
            ),
    }
}

/// Whether an encoder is ready to encode these pixels.
pub open spec fn encodes(
    encoder: RasterEncoder<'_>,
    attributes: attributes::AttributesModel,
    format: PixelFormat,
    pixels: Seq<u8>,
) -> bool {
    &&& encoder.ready()
    &&& encoder.attributes@ == attributes
    &&& encoder.format == format
    &&& encoder.pixels@ == pixels
}

/// Whether reading the template of a clone can have this outcome.
pub open spec fn clone_template_read(
    connection: Connection,
    request: CloneRequest,
    layer_name: Seq<char>,
    outcome: Result<raster_template::TemplateModel, Failure>,
) -> bool {
    let length = utf8::encode_utf8(layer_name).len();
    if length > request.limits.max_text_bytes {
        outcome == Err::<raster_template::TemplateModel, Failure>(
            raster_tree::above(
                "new raster layer name bytes"@,
                length as u64,
                request.limits.max_text_bytes,
            ),
        )
    } else {
        raster_template::template_read(connection, request, outcome)
    }
}

/// A cloned layer, and the identifier that its pixels go by.
#[derive(Clone, Debug, PartialEq, Eq)]
pub struct RasterClone {
    pub layer_id: i64,
    pub base_identifier: Vec<u8>,
}

/// The model of a [`RasterClone`].
#[verifier::ext_equal]
pub struct RasterCloneModel {
    pub layer_id: i64,
    pub base_identifier: Seq<u8>,
}

impl View for RasterClone {
    type V = RasterCloneModel;

    open spec fn view(&self) -> RasterCloneModel {
        RasterCloneModel { layer_id: self.layer_id, base_identifier: self.base_identifier@ }
    }
}

/// Whether a clone whose rows have been prepared can have this outcome.
pub open spec fn cloned_after_rows(
    connection: Connection,
    template: raster_template::TemplateModel,
    rows: Result<clone_plan::RowsModel, Failure>,
    outcome: Result<RasterCloneModel, Failure>,
) -> bool {
    match rows {
        Err(failure) => outcome == Err::<RasterCloneModel, Failure>(failure),
        Ok(rows) => match outcome {
            Ok(done) => done.base_identifier == rows.identifiers[0] && clone_inserted(
                connection,
                template,
                rows,
                Ok(done.layer_id),
            ),
            Err(failure) => clone_inserted(connection, template, rows, Err(failure)),
        },
    }
}

/// Whether a clone whose identifiers have been generated can have this outcome.
pub open spec fn cloned_after_identifiers(
    connection: Connection,
    template: raster_template::TemplateModel,
    layer_name: Seq<char>,
    base_attribute: Seq<u8>,
    identifiers: Result<Seq<Seq<u8>>, Failure>,
    limits: Limits,
    outcome: Result<RasterCloneModel, Failure>,
) -> bool {
    match identifiers {
        Err(failure) => outcome == Err::<RasterCloneModel, Failure>(failure),
        Ok(identifiers) => cloned_with(
            connection,
            template,
            input_of(layer_name, base_attribute, identifiers),
            limits,
            outcome,
        ),
    }
}

/// Whether a clone that is prepared from an input can have this outcome.
pub open spec fn cloned_with(
    connection: Connection,
    template: raster_template::TemplateModel,
    input: CloneInput,
    limits: Limits,
    outcome: Result<RasterCloneModel, Failure>,
) -> bool {
    exists|rows: Result<clone_plan::RowsModel, Failure>|
        #[trigger] clone_prepared(connection, input, template.levels.len(), limits, rows)
            && cloned_after_rows(connection, template, rows, outcome)
}

/// Whether cloning a layer from a draft can have this outcome.
pub open spec fn layer_cloned(
    connection: Connection,
    draft: DraftModel,
    layer_name: Seq<char>,
    block_sizes: Seq<u32>,
    limits: Limits,
    outcome: Result<RasterCloneModel, Failure>,
) -> bool {
    if block_sizes.len() != draft.tiles.len() {
        outcome == Err::<RasterCloneModel, Failure>(
            Failure::InvalidWrite {
                reason: "rebuilt raster contains "@ + message::decimal(block_sizes.len())
                    + " tiles, expected "@ + message::decimal(draft.tiles.len()),
            },
        )
    } else {
        match attributes::replaced_attributes(draft.template.levels[0].attribute, block_sizes) {
            Err(failure) => outcome == Err::<RasterCloneModel, Failure>(failure),
            Ok(base_attribute) => if draft.template.levels.len() + 1 > usize::MAX {
                outcome == Err::<RasterCloneModel, Failure>(Failure::OffsetOverflow)
            } else {
                exists|identifiers: Result<Seq<Seq<u8>>, Failure>|
                    #[trigger] clone_ids::identifiers_generated(
                        connection,
                        draft.template.levels.len() + 1,
                        limits,
                        identifiers,
                    ) && cloned_after_identifiers(
                        connection,
                        draft.template,
                        layer_name,
                        base_attribute,
                        identifiers,
                        limits,
                        outcome,
                    )
            },
        }
    }
}

fn clone_with_identifiers(
    connection: &mut Connection,
    template: &RasterLayerTemplate,
    layer_name: &str,
    base_attribute: Vec<u8>,
    identifiers: Vec<Vec<u8>>,
    limits: Limits,
) -> (done: Result<RasterClone, Error>)
    requires
        template@.levels.len() > 0,
    ensures
        *final(connection) == *old(connection),
        cloned_with(
            *old(connection),
            template@,
            input_of(layer_name@, base_attribute@, error::views(identifiers@)),
            limits,
            error::outcome(done),
        ),
{
    let ghost input = input_of(layer_name@, base_attribute@, error::views(identifiers@));
    let rows = prepare_raster_clone(
        connection,
        template,
        layer_name,
        base_attribute,
        identifiers,
        limits,
    );
    let ghost read = error::outcome(rows);
    assert(clone_prepared(*connection, input, template@.levels.len(), limits, read));
    let rows = match rows {
        Ok(rows) => rows,
        Err(error) => {
            assert(cloned_after_rows(*connection, template@, read, Err(error@)));
            return Err(error);
        },
    };
    assert(rows@.identifiers[0] == rows.identifiers@[0]@);
    let done = match insert_raster_layer_clone(connection, template, &rows) {
        Ok(layer_id) => Ok(
            RasterClone { layer_id, base_identifier: copy_all(&rows.identifiers[0]) },
        ),
        Err(error) => Err(error),
    };
    assert(cloned_after_rows(*connection, template@, read, error::outcome(done)));
    done
}

/// Reads the template of a clone.
///
/// The template must be a leaf with `LayerType = 1`, no layer mask, one
/// valid render-mipmap chain, and one valid render-thumbnail row.
pub fn read_clone_template(connection: &Connection, request: CloneRequest, layer_name: &str) -> (
    template: Result<RasterLayerTemplate, Error>)
    ensures
        clone_template_read(*connection, request, layer_name@, error::outcome(template)),
        template matches Ok(template) ==> template@.levels.len() > 0,
{
    let name = layer_name.as_bytes();
    assert(name@ =~= utf8::encode_utf8(layer_name@));
    let length: u64 = name.len() as u64;
    if length > request.limits.max_text_bytes() {
        return Err(
            Error::limit(
                "new raster layer name bytes",
                length,
                request.limits.max_text_bytes(),
            ),
        );
    }
    RasterLayerTemplate::read(
        connection,
        request.layer_id,
        request.parent_layer_id,
        request.limits,
    )
}

/// Clones one plain raster layer, whose new pixels have been encoded into tiles.
///
/// Every unknown column in the template's `Layer`, `Mipmap`,
/// `MipmapInfo`, `Offscreen`, and `LayerThumbnail` rows is preserved.
/// Row identities, semantic IDs, the layer UUID, external identifiers,
/// ownership references, and tree links are regenerated transactionally.
///
/// `block_sizes` holds the size of the record of each tile in the block-data
/// body that the returned identifier is to name. Observed CLIP files store
/// lower mipmap levels as cache references whose identifiers are absent
/// from `ExternalChunk`; every derived level and the thumbnail atlas get a
/// fresh absent identifier, so that no pixels from the template can be
/// displayed as a stale cache.
///
/// The new layer is inserted as the first child of its parent.
pub fn insert_raster_clone(
    connection: &mut Connection,
    draft: &CloneDraft,
    layer_name: &str,
    block_sizes: &[u32],
    limits: Limits,
) -> (done: Result<RasterClone, Error>)
    requires
        draft@.template.levels.len() > 0,
    ensures
        *final(connection) == *old(connection),
        layer_cloned(
            *old(connection),
            draft@,
            layer_name@,
            block_sizes@,
            limits,
            error::outcome(done),
        ),
{
    assert(draft@.template.levels[0] == draft.template.levels@[0]@);
    if block_sizes.len() != draft.tiles.len() {
        return Err(
            unwritable(
                Message::new("rebuilt raster contains ").number(
                    block_sizes.len() as u64,
                ).text(" tiles, expected ").number(draft.tiles.len() as u64),
            ),
        );
    }
    let base_attribute = replace_attribute_block_sizes(
        draft.template.levels[0].attribute.as_slice(),
        block_sizes,
    )?;
    let count: usize = match draft.template.levels.len().checked_add(1) {
        Some(count) => count,
        None => return Err(Error::OffsetOverflow),
    };
    let identifiers = generate_raster_external_identifiers(connection, count, limits);
    let ghost made = error::listed(identifiers);
    let ghost base = base_attribute@;
    assert(clone_ids::identifiers_generated(
        *connection,
        draft@.template.levels.len() + 1,
        limits,
        made,
    ));
    let identifiers = match identifiers {
        Ok(identifiers) => identifiers,
        Err(error) => {
            assert(cloned_after_identifiers(
                *connection,
                draft@.template,
                layer_name@,
                base,
                made,
                limits,
                Err(error@),
            ));
            return Err(error);
        },
    };
    let done = clone_with_identifiers(
        connection,
        &draft.template,
        layer_name,
        base_attribute,
        identifiers,
        limits,
    );
    assert(cloned_after_identifiers(
        *connection,
        draft@.template,
        layer_name@,
        base,
        made,
        limits,
        error::outcome(done),
    ));
    done
}

} // verus!
