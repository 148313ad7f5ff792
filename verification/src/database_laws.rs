//! How tables, columns and external data are found.

use vstd::prelude::*;

use crate::container;
use crate::container::{ChunkModel, ClipFile};
use crate::database;
use crate::database::{ColumnModel, ExternalRecordModel, TableModel};
use crate::error::Failure;
use crate::external;
use crate::limits::Limits;
use crate::raster_tree;
use crate::raster_tree::{CloneColumnModel, TreeRow};
use crate::scan;

verus! {

proof fn column_position_is_first(columns: Seq<ColumnModel>, name: Seq<char>, at: int)
    requires
        0 <= at <= columns.len(),
    ensures
        ({
            let position = database::column_position(columns, name, at);
            &&& at <= position <= columns.len()
            &&& position < columns.len() ==> columns[position].name == name
            &&& forall|j: int| at <= j < position ==> (#[trigger] columns[j]).name != name
        }),
    decreases columns.len() - at,
{
    if at < columns.len() && columns[at].name != name {
        column_position_is_first(columns, name, at + 1);
    }
}

proof fn table_position_is_first(tables: Seq<TableModel>, name: Seq<char>, at: int)
    requires
        0 <= at <= tables.len(),
    ensures
        ({
            let position = database::table_position(tables, name, at);
            &&& at <= position <= tables.len()
            &&& position < tables.len() ==> tables[position].name == name
            &&& forall|j: int| at <= j < position ==> (#[trigger] tables[j]).name != name
        }),
    decreases tables.len() - at,
{
    if at < tables.len() && tables[at].name != name {
        table_position_is_first(tables, name, at + 1);
    }
}

/// Tables and columns are found by their names: what is found is the first with the name, and
/// nothing is found just when none has it.
pub proof fn tables_and_columns_are_found_by_name(
    schema: Seq<TableModel>,
    table: TableModel,
    name: Seq<char>,
)
    ensures
        database::table_of(schema, name) matches Some(found) ==> found.name == name
            && exists|i: int|
            0 <= i < schema.len() && #[trigger] schema[i] == found && forall|j: int|
                0 <= j < i ==> (#[trigger] schema[j]).name != name,
        database::table_of(schema, name) is None <==> forall|i: int|
            0 <= i < schema.len() ==> (#[trigger] schema[i]).name != name,
        database::column_of(table, name) matches Some(found) ==> found.name == name
            && exists|i: int|
            0 <= i < table.columns.len() && #[trigger] table.columns[i] == found && forall|j: int|
                0 <= j < i ==> (#[trigger] table.columns[j]).name != name,
        database::column_of(table, name) is None <==> forall|i: int|
            0 <= i < table.columns.len() ==> (#[trigger] table.columns[i]).name != name,
{
    table_position_is_first(schema, name, 0);
    column_position_is_first(table.columns, name, 0);
    let place = database::table_position(schema, name, 0);
    if place < schema.len() {
        assert(schema[place].name == name);
    }
    let position = database::column_position(table.columns, name, 0);
    if position < table.columns.len() {
        assert(table.columns[position].name == name);
    }
}

/// A column is there just when its table is found and has it. A question asks for a column that
/// is there by its name, and for none in the place of one that is not.
pub proof fn missing_columns_are_asked_as_none(
    schema: Seq<TableModel>,
    table: Seq<char>,
    column: Seq<char>,
)
    ensures
        database::column_exists(schema, table, column) <==> database::table_of(
            schema,
            table,
        ) is Some && database::column_of(
            database::table_of(schema, table)->Some_0,
            column,
        ) is Some,
        database::column_exists(schema, table, column) ==> database::column_or_null(
            schema,
            table,
            column,
        ) == column,
        !database::column_exists(schema, table, column) ==> database::column_or_null(
            schema,
            table,
            column,
        ) == "NULL"@,
{
}

/// Nothing is missing of a list of columns just when each of them is there. Otherwise the
/// failure names the table, or the first column that is not there.
pub proof fn first_missing_column_is_named(
    schema: Seq<TableModel>,
    table: Seq<char>,
    columns: Seq<Seq<char>>,
    at: int,
)
    requires
        0 <= at <= columns.len(),
    ensures
        database::first_missing(schema, table, columns, at) is None <==> forall|i: int|
            at <= i < columns.len() ==> database::column_exists(
                schema,
                table,
                #[trigger] columns[i],
            ),
        database::first_missing(schema, table, columns, at) matches Some(failure) ==> if
            database::table_of(schema, table) is None {
            failure == (Failure::MissingTable { table })
        } else {
            exists|i: int|
                {
                    &&& at <= i < columns.len()
                    &&& failure == (Failure::MissingColumn {
                        table,
                        column: #[trigger] columns[i],
                    })
                    &&& !database::column_exists(schema, table, columns[i])
                    &&& forall|j: int|
                        at <= j < i ==> database::column_exists(
                            schema,
                            table,
                            #[trigger] columns[j],
                        )
                }
        },
    decreases columns.len() - at,
{
    if at < columns.len() {
        first_missing_column_is_named(schema, table, columns, at + 1);
        if database::missing(schema, table, columns[at]) is None && database::first_missing(
            schema,
            table,
            columns,
            at,
        ) is Some && database::table_of(schema, table) is Some {
            let failure = database::first_missing(schema, table, columns, at)->Some_0;
            let i = choose|i: int|
                {
                    &&& at + 1 <= i < columns.len()
                    &&& failure == (Failure::MissingColumn {
                        table,
                        column: #[trigger] columns[i],
                    })
                    &&& !database::column_exists(schema, table, columns[i])
                    &&& forall|j: int|
                        at + 1 <= j < i ==> database::column_exists(
                            schema,
                            table,
                            #[trigger] columns[j],
                        )
                };
            assert(database::column_exists(schema, table, columns[at]));
        }
    }
}

/// Quoting a name doubles each quotation mark in it and keeps every other character, one after
/// another, and puts a quotation mark at both ends.
pub proof fn quoting_doubles_quotation_marks(left: Seq<char>, right: Seq<char>, character: char)
    ensures
        database::doubled_quotes(left + right) == database::doubled_quotes(left)
            + database::doubled_quotes(right),
        character != '"' ==> database::doubled_quotes(seq![character]) == seq![character],
        database::doubled_quotes(seq!['"']) == seq!['"', '"'],
        database::quoted_name(left) == seq!['"'] + database::doubled_quotes(left) + seq!['"'],
    decreases right.len(),
{
    let none = Seq::<char>::empty();
    assert(database::doubled_quotes(none) == none);
    assert(seq![character].drop_last() =~= none);
    assert(seq!['"'].drop_last() =~= none);
    assert(none.push(character) =~= seq![character]);
    assert(none.push('"').push('"') =~= seq!['"', '"']);
    assert(seq![character].last() == character);
    assert(seq!['"'].last() == '"');
    if right.len() == 0 {
        assert(left + right =~= left);
        assert(database::doubled_quotes(left) + none =~= database::doubled_quotes(left));
    } else {
        quoting_doubles_quotation_marks(left, right.drop_last(), character);
        assert((left + right).drop_last() =~= left + right.drop_last());
        assert((left + right).last() == right.last());
        let before = database::doubled_quotes(left);
        let rest = database::doubled_quotes(right.drop_last());
        assert((before + rest).push('"').push('"') =~= before + rest.push('"').push('"'));
        assert((before + rest).push(right.last()) =~= before + rest.push(right.last()));
    }
}

proof fn database_chunk_is_found(data: Seq<u8>, max_chunks: u64, at: int, seen: u64)
    requires
        0 <= at,
        data.len() <= u64::MAX,
        database::sqlite_chunk_from(data, max_chunks, at, seen) is Ok,
    ensures
        ({
            let chunk = database::sqlite_chunk_from(data, max_chunks, at, seen)->Ok_0;
            &&& chunk.tag == container::sqlite_tag()
            &&& exists|offset: u64| #[trigger]
                container::chunk_at(data, offset as int) == Ok::<ChunkModel, Failure>(
                    chunk,
                )
        }),
    decreases data.len() - at,
{
    let step = scan::scan_step(
        data,
        max_chunks,
        scan::ScanModel { next_offset: Some(at as u64), chunks_seen: seen },
    ).0;
    let chunk = step->Some_0->Ok_0;
    if chunk.tag != container::sqlite_tag() {
        let next = chunk.payload_offset + chunk.payload_size;
        database_chunk_is_found(data, max_chunks, next, (seen + 1) as u64);
    } else {
        assert(container::chunk_at(data, (at as u64) as int) == Ok::<
            ChunkModel,
            Failure,
        >(chunk));
    }
}

/// The database of a file is the payload of the chunk for databases that stands where the header
/// of the file says.
pub proof fn database_is_the_payload_of_its_chunk(file: ClipFile)
    requires
        file.data@.len() <= u64::MAX,
        database::database_payload_of(file) is Ok,
    ensures
        ({
            let data = file.data@;
            let place = file.file_header.database_offset as int;
            let chunk = container::chunk_at(data, place)->Ok_0;
            &&& container::chunk_at(data, place) is Ok
            &&& chunk.tag == container::sqlite_tag()
            &&& chunk.payload_size <= file.limits.max_database_size
            &&& database::database_payload_of(file)->Ok_0 == data.subrange(
                chunk.payload_offset as int,
                chunk.payload_offset + chunk.payload_size,
            )
        }),
{
    let data = file.data@;
    let first = file.root_header.first_chunk_offset as int;
    database_chunk_is_found(data, file.limits.max_top_level_chunks, first, 0);
    let chunk = database::sqlite_chunk_from(
        data,
        file.limits.max_top_level_chunks,
        first,
        0,
    )->Ok_0;
    let offset = choose|offset: u64| #[trigger]
        container::chunk_at(data, offset as int) == Ok::<ChunkModel, Failure>(chunk);
    assert(chunk.offset == offset);
    assert(container::available_bytes(
        data,
        chunk.payload_offset as int,
        chunk.payload_size as int,
    ) =~= data.subrange(
        chunk.payload_offset as int,
        chunk.payload_offset + chunk.payload_size,
    ));
}

/// External data is found where its record says, in a chunk for external data with the
/// identifier that was asked for. Without a record there is none.
pub proof fn external_data_is_found_by_its_record(
    file: ClipFile,
    record: Option<ExternalRecordModel>,
    identifier: Seq<u8>,
)
    ensures
        record is None ==> database::resolved_object(file, record, identifier) == Ok::<
            Option<external::ExternalObjectModel>,
            Failure,
        >(None),
        database::resolved_object(file, record, identifier) matches Ok(Some(object)) ==> {
            let chunk = container::chunk_at(file.data@, record->Some_0.offset as int);
            &&& record is Some
            &&& object.header.identifier == identifier
            &&& chunk is Ok
            &&& chunk->Ok_0.tag == container::external_tag()
            &&& external::external_object_of(file, chunk->Ok_0) == Ok::<
                external::ExternalObjectModel,
                Failure,
            >(object)
        },
{
}

/// A cloned row has the columns of its table, in order, but for its own key and for those that
/// are hidden.
pub proof fn all_plain_columns_are_cloned(columns: Seq<CloneColumnModel>, count: int)
    requires
        0 <= count <= columns.len(),
    ensures
        raster_tree::kept_columns(columns, count) == columns.take(count).filter(
            |column: CloneColumnModel| column.name != "_PW_ID"@ && column.hidden == 0,
        ).map_values(|column: CloneColumnModel| column.name),
    decreases count,
{
    reveal(Seq::filter);
    let plain = |column: CloneColumnModel| column.name != "_PW_ID"@ && column.hidden == 0;
    let named = |column: CloneColumnModel| column.name;
    if count > 0 {
        all_plain_columns_are_cloned(columns, count - 1);
        let before = columns.take(count - 1).filter(plain);
        assert(columns.take(count).drop_last() =~= columns.take(count - 1));
        assert(columns.take(count).last() == columns[count - 1]);
        assert(before.push(columns[count - 1]).map_values(named) =~= before.map_values(named).push(
            columns[count - 1].name,
        ));
    } else {
        assert(columns.take(0).filter(plain).map_values(named) =~= Seq::<Seq<char>>::empty());
    }
}

/// Whether a layer lies directly behind another one on a way through a tree: it is its first
/// child, one level below it, or its next sibling, on the same level.
pub open spec fn leads(rows: Seq<TreeRow>, from: (i64, u64), to: (i64, u64)) -> bool {
    exists|k: int|
        {
            &&& 0 <= k < rows.len()
            &&& (#[trigger] rows[k]).id == from.0
            &&& (rows[k].child == to.0 && to.0 != 0 && to.1 == from.1 + 1) || (rows[k].next == to.0
                && to.0 != 0 && to.1 == from.1)
        }
}

/// Whether a way leads from the root of a tree to a layer on a level.
pub open spec fn is_way(
    rows: Seq<TreeRow>,
    root: i64,
    way: Seq<(i64, u64)>,
    id: i64,
    level: u64,
) -> bool {
    &&& way.len() > 0
    &&& way[0] == (root, 0u64)
    &&& way.last() == (id, level)
    &&& forall|i: int| 0 <= i < way.len() - 1 ==> leads(rows, #[trigger] way[i], way[i + 1])
}

/// Whether a layer is reached from the root of a tree on a level.
pub open spec fn is_reached(rows: Seq<TreeRow>, root: i64, id: i64, level: u64) -> bool {
    exists|way: Seq<(i64, u64)>| #[trigger] is_way(rows, root, way, id, level)
}

proof fn one_step_on(rows: Seq<TreeRow>, root: i64, from: (i64, u64), to: (i64, u64))
    requires
        is_reached(rows, root, from.0, from.1),
        leads(rows, from, to),
    ensures
        is_reached(rows, root, to.0, to.1),
{
    let way = choose|way: Seq<(i64, u64)>| #[trigger] is_way(rows, root, way, from.0, from.1);
    let more = way.push(to);
    assert forall|i: int| 0 <= i < more.len() - 1 implies leads(
        rows,
        #[trigger] more[i],
        more[i + 1],
    ) by {
        if i < way.len() - 1 {
            assert(leads(rows, way[i], way[i + 1]));
        }
    }
    assert(is_way(rows, root, more, to.0, to.1));
}

proof fn row_by_id(rows: Seq<TreeRow>, count: int, id: i64)
    requires
        0 <= count <= rows.len(),
        raster_tree::rows_by_id(rows, count).contains_key(id),
    ensures
        exists|k: int|
            0 <= k < rows.len() && (#[trigger] rows[k]).id == id && raster_tree::rows_by_id(
                rows,
                count,
            )[id] == rows[k],
    decreases count,
{
    if count > 0 {
        if rows[count - 1].id != id {
            row_by_id(rows, count - 1, id);
        } else {
            assert(raster_tree::rows_by_id(rows, count)[id] == rows[count - 1]);
        }
    }
}

#[verifier::spinoff_prover]
#[verifier::rlimit(40)]
proof fn descent_follows_ways(
    rows: Seq<TreeRow>,
    root: i64,
    wanted: i64,
    limit: u64,
    stack: Seq<(i64, u64)>,
    visited: Set<i64>,
    depth: Option<u64>,
)
    requires
        raster_tree::rows_by_id(rows, rows.len() as int).dom().finite(),
        forall|i: int|
            0 <= i < stack.len() ==> is_reached(
                rows,
                root,
                (#[trigger] stack[i]).0,
                stack[i].1,
            ),
        depth matches Some(level) ==> is_reached(rows, root, wanted, level) && level <= limit,
        raster_tree::descended(
            raster_tree::rows_by_id(rows, rows.len() as int),
            wanted,
            limit,
            stack,
            visited,
            depth,
        ) is Ok,
    ensures
        raster_tree::descended(
            raster_tree::rows_by_id(rows, rows.len() as int),
            wanted,
            limit,
            stack,
            visited,
            depth,
        )->Ok_0.1 matches Some(level) ==> is_reached(rows, root, wanted, level) && level <= limit,
    decreases
            raster_tree::unreached_layers(
                raster_tree::rows_by_id(rows, rows.len() as int),
                visited,
            ),
{
    let links = raster_tree::rows_by_id(rows, rows.len() as int);
    if stack.len() > 0 {
        let (id, level) = stack.last();
        assert(is_reached(rows, root, id, level)) by {
            assert(stack[stack.len() - 1] == stack.last());
        }
        row_by_id(rows, rows.len() as int, id);
        let row = links[id];
        let rest = stack.drop_last();
        let next = raster_tree::pushed(rest, row, level);
        assert forall|i: int| 0 <= i < next.len() implies is_reached(
            rows,
            root,
            (#[trigger] next[i]).0,
            next[i].1,
        ) by {
            if i < rest.len() {
                assert(next[i] == stack[i]);
            } else {
                assert(leads(rows, (id, level), next[i]));
                one_step_on(rows, root, (id, level), next[i]);
            }
        }
        let found = if id == wanted {
            Some(level)
        } else {
            depth
        };
        raster_tree::one_layer_fewer(links, visited, id);
        descent_follows_ways(rows, root, wanted, limit, next, visited.insert(id), found);
    }
}

proof fn rows_are_finite(rows: Seq<TreeRow>, count: int)
    ensures
        raster_tree::rows_by_id(rows, count).dom().finite(),
    decreases count,
{
    if count > 0 {
        rows_are_finite(rows, count - 1);
    }
}

/// The depth of a folder is that of a way from the root to it: so many of its steps go to a
/// child, and the others to a sibling.
pub proof fn folder_depth_is_that_of_a_way(
    rows: Seq<TreeRow>,
    root: i64,
    folder: i64,
    limits: Limits,
)
    requires
        raster_tree::folder_depth(rows, root, folder, limits) is Ok,
    ensures
        is_reached(rows, root, folder, raster_tree::folder_depth(rows, root, folder, limits)->Ok_0),
        raster_tree::folder_depth(rows, root, folder, limits)->Ok_0
            <= limits.max_layer_tree_depth,
{
    let way = seq![(root, 0u64)];
    assert(is_way(rows, root, way, root, 0));
    rows_are_finite(rows, rows.len() as int);
    descent_follows_ways(
        rows,
        root,
        folder,
        limits.max_layer_tree_depth,
        way,
        Set::empty(),
        None,
    );
}

} // verus!
