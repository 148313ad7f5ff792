//! What the rows of a cloned layer hold, told from the statements that add them.

use rusqlite::Connection;
use vstd::prelude::*;

use crate::attributes;
use crate::blocks;
use crate::clip_writer;
use crate::clip_writer::StagedModel;
use crate::clone_ids;
use crate::clone_plan;
use crate::clone_plan::{ReplacementModel, RowsModel, StepModel};
use crate::columns::comma_separated;
use crate::container::ClipFile;
use crate::database;
use crate::error;
use crate::error::Failure;
use crate::limits::Limits;
use crate::message;
use crate::raster_clone;
use crate::raster_template;
use crate::raster_template::BlockStorage;
use crate::raster_tree;
use crate::rebuild;
use crate::sql::ParameterModel;
use crate::text_codec;
use crate::transaction;

verus! {

/// Names as SQL writes them between quotation marks.
pub open spec fn quoted_names(names: Seq<Seq<char>>) -> Seq<Seq<char>> {
    Seq::new(names.len(), |i: int| database::quoted_name(names[i]))
}

/// Whether a statement adds one row to a table for the row that has the ID `template_id`
/// there, and `items` stand for what goes into `columns`.
pub open spec fn adds_row(
    sql: Seq<char>,
    parameters: Seq<ParameterModel>,
    table: Seq<char>,
    template_id: i64,
    columns: Seq<Seq<char>>,
    items: Seq<Seq<char>>,
) -> bool {
    &&& items.len() == columns.len()
    &&& parameters.len() > 0
    &&& parameters.last() == ParameterModel::Integer(template_id)
    &&& sql == "INSERT INTO "@ + database::quoted_name(table) + " ("@ + comma_separated(
        quoted_names(columns),
    ) + ") SELECT "@ + comma_separated(items) + " FROM "@ + database::quoted_name(table)
        + " AS template WHERE template.MainId = ?"@ + message::decimal(
        error::one_more((parameters.len() - 1) as nat) as nat,
    )
}

/// Whether an item stands for a value that is bound to the statement.
pub open spec fn binds(
    parameters: Seq<ParameterModel>,
    item: Seq<char>,
    value: ParameterModel,
) -> bool {
    exists|k: int|
        0 <= k < parameters.len() - 1 && #[trigger] parameters[k] == value && item == "?"@
            + message::decimal((k + 1) as nat)
}

/// Whether a statement adds one row to a table, and puts a value into a column of it where the
/// table has that column.
pub open spec fn puts(
    sql: Seq<char>,
    parameters: Seq<ParameterModel>,
    table: Seq<char>,
    template_id: i64,
    columns: Seq<Seq<char>>,
    column: Seq<char>,
    value: ParameterModel,
) -> bool {
    exists|items: Seq<Seq<char>>|
        #[trigger] adds_row(sql, parameters, table, template_id, columns, items) && forall|i: int|
            0 <= i < columns.len() && columns[i] == column ==> binds(
                parameters,
                #[trigger] items[i],
                value,
            )
}

/// Whether a statement adds one row to a table, and copies a column of it from the row that has
/// the ID `template_id`.
pub open spec fn copies(
    sql: Seq<char>,
    parameters: Seq<ParameterModel>,
    table: Seq<char>,
    template_id: i64,
    columns: Seq<Seq<char>>,
    column: Seq<char>,
) -> bool {
    exists|items: Seq<Seq<char>>|
        #[trigger] adds_row(sql, parameters, table, template_id, columns, items) && forall|i: int|
            0 <= i < columns.len() && columns[i] == column ==> #[trigger] items[i] == "template."@
                + database::quoted_name(column)
}

/// A value that holds an external identifier, as a text or as a byte string.
pub open spec fn holds_identifier(value: ParameterModel, identifier: Seq<u8>) -> bool {
    ||| value == ParameterModel::Blob(identifier)
    ||| value matches ParameterModel::Text(text) && text_codec::utf8_text(identifier) == Some(text)
}

/// One item of a statement that clones a row.
spec fn item_of(columns: Seq<Seq<char>>, changes: Seq<ReplacementModel>, at: int) -> Seq<char> {
    if clone_plan::replacement_for(changes, columns[at], 0) is Some {
        "?"@ + message::decimal((clone_plan::selection(columns, changes, at).1.len() + 1) as nat)
    } else {
        "template."@ + database::quoted_name(columns[at])
    }
}

spec fn items_of(columns: Seq<Seq<char>>, changes: Seq<ReplacementModel>, count: int) -> Seq<
    Seq<char>,
> {
    Seq::new(count as nat, |i: int| item_of(columns, changes, i))
}

proof fn column_list_is_separated(columns: Seq<Seq<char>>, count: int)
    requires
        0 <= count <= columns.len(),
    ensures
        clone_plan::column_list(columns, count) == comma_separated(
            quoted_names(columns.take(count)),
        ),
    decreases count,
{
    let names = quoted_names(columns.take(count));
    if count > 1 {
        column_list_is_separated(columns, count - 1);
        assert(names.drop_last() =~= quoted_names(columns.take(count - 1)));
    }
}

proof fn selection_is_separated(
    columns: Seq<Seq<char>>,
    changes: Seq<ReplacementModel>,
    count: int,
)
    requires
        0 <= count <= columns.len(),
    ensures
        clone_plan::selection(columns, changes, count).0 == comma_separated(
            items_of(columns, changes, count),
        ),
    decreases count,
{
    let items = items_of(columns, changes, count);
    if count > 0 {
        selection_is_separated(columns, changes, count - 1);
        assert(items.drop_last() =~= items_of(columns, changes, count - 1));
        let before = clone_plan::selection(columns, changes, count - 1).0;
        let item = item_of(columns, changes, count - 1);
        if count == 1 {
            assert(before =~= Seq::empty());
            assert(clone_plan::selection(columns, changes, count).0 =~= item);
        } else {
            assert(clone_plan::selection(columns, changes, count).0 =~= before + ", "@ + item);
        }
    }
}

proof fn selection_grows(
    columns: Seq<Seq<char>>,
    changes: Seq<ReplacementModel>,
    at: int,
    count: int,
)
    requires
        0 <= at < count <= columns.len(),
        clone_plan::replacement_for(changes, columns[at], 0) is Some,
    ensures
        ({
            let place = clone_plan::selection(columns, changes, at).1.len();
            let values = clone_plan::selection(columns, changes, count).1;
            &&& place < values.len()
            &&& values[place as int] == clone_plan::replacement_for(changes, columns[at], 0)->Some_0
        }),
    decreases count,
{
    if at < count - 1 {
        selection_grows(columns, changes, at, count - 1);
    }
}

proof fn step_adds_a_row(
    table: Seq<char>,
    columns: Seq<Seq<char>>,
    template_id: i64,
    changes: Seq<ReplacementModel>,
)
    ensures
        ({
            let step = clone_plan::clone_step(table, columns, template_id, changes);
            let items = items_of(columns, changes, columns.len() as int);
            &&& adds_row(step.sql, step.parameters, table, template_id, columns, items)
        }),
{
    let count = columns.len() as int;
    column_list_is_separated(columns, count);
    selection_is_separated(columns, changes, count);
    assert(columns.take(count) =~= columns);
}

proof fn changed_column_is_put(
    table: Seq<char>,
    columns: Seq<Seq<char>>,
    template_id: i64,
    changes: Seq<ReplacementModel>,
    column: Seq<char>,
    value: ParameterModel,
)
    requires
        clone_plan::replacement_for(changes, column, 0) == Some(value),
    ensures
        ({
            let step = clone_plan::clone_step(table, columns, template_id, changes);
            puts(step.sql, step.parameters, table, template_id, columns, column, value)
        }),
{
    let step = clone_plan::clone_step(table, columns, template_id, changes);
    let items = items_of(columns, changes, columns.len() as int);
    let values = clone_plan::selection(columns, changes, columns.len() as int).1;
    step_adds_a_row(table, columns, template_id, changes);
    assert forall|i: int| 0 <= i < columns.len() && columns[i] == column implies binds(
        step.parameters,
        #[trigger] items[i],
        value,
    ) by {
        selection_grows(columns, changes, i, columns.len() as int);
        let place = clone_plan::selection(columns, changes, i).1.len() as int;
        assert(step.parameters[place] == values[place]);
        assert(step.parameters[place] == value);
    }
}

proof fn other_column_is_copied(
    table: Seq<char>,
    columns: Seq<Seq<char>>,
    template_id: i64,
    changes: Seq<ReplacementModel>,
    column: Seq<char>,
)
    requires
        clone_plan::replacement_for(changes, column, 0) is None,
    ensures
        ({
            let step = clone_plan::clone_step(table, columns, template_id, changes);
            copies(step.sql, step.parameters, table, template_id, columns, column)
        }),
{
    step_adds_a_row(table, columns, template_id, changes);
    let step = clone_plan::clone_step(table, columns, template_id, changes);
    let items = items_of(columns, changes, columns.len() as int);
    assert(adds_row(step.sql, step.parameters, table, template_id, columns, items));
}

proof fn change_is_found(changes: Seq<ReplacementModel>, at: int, index: int)
    requires
        0 <= at <= index < changes.len(),
        forall|j: int| at <= j < index ==> (#[trigger] changes[j]).column != changes[index].column,
    ensures
        clone_plan::replacement_for(changes, changes[index].column, at) == Some(
            changes[index].value,
        ),
    decreases index - at,
{
    if at < index {
        assert(changes[at].column != changes[index].column);
        change_is_found(changes, at + 1, index);
    }
}

proof fn no_change_is_found(changes: Seq<ReplacementModel>, column: Seq<char>, at: int)
    requires
        0 <= at,
        forall|j: int| at <= j < changes.len() ==> (#[trigger] changes[j]).column != column,
    ensures
        clone_plan::replacement_for(changes, column, at) is None,
    decreases changes.len() - at,
{
    if at < changes.len() {
        no_change_is_found(changes, column, at + 1);
    }
}

proof fn column_names_differ()
    ensures
        "MainId"@.len() == 6,
        "LayerId"@.len() == 7,
        "LayerName"@.len() == 9,
        "LayerName"@[5] == 'N',
        "LayerUuid"@.len() == 9,
        "LayerUuid"@[5] == 'U',
        "LayerSelect"@.len() == 11,
        "LayerNextIndex"@.len() == 14,
        "LayerFirstChildIndex"@.len() == 20,
        "LayerFirstChildIndex"@[5] == 'F',
        "LayerRenderMipmap"@.len() == 17,
        "LayerLayerMaskMipmap"@.len() == 20,
        "LayerLayerMaskMipmap"@[5] == 'L',
        "LayerRenderThumbnail"@.len() == 20,
        "LayerRenderThumbnail"@[5] == 'R',
        "LayerLayerMaskThumbnail"@.len() == 23,
        "BaseMipmapInfo"@.len() == 14,
        "Offscreen"@.len() == 9,
        "Offscreen"@[0] == 'O',
        "NextIndex"@.len() == 9,
        "NextIndex"@[0] == 'N',
        "Attribute"@.len() == 9,
        "Attribute"@[0] == 'A',
        "BlockData"@.len() == 9,
        "BlockData"@[0] == 'B',
        "ThumbnailOffscreen"@.len() == 18,
{
    reveal_strlit("MainId");
    reveal_strlit("LayerId");
    reveal_strlit("LayerName");
    reveal_strlit("LayerUuid");
    reveal_strlit("LayerSelect");
    reveal_strlit("LayerNextIndex");
    reveal_strlit("LayerFirstChildIndex");
    reveal_strlit("LayerRenderMipmap");
    reveal_strlit("LayerLayerMaskMipmap");
    reveal_strlit("LayerRenderThumbnail");
    reveal_strlit("LayerLayerMaskThumbnail");
    reveal_strlit("BaseMipmapInfo");
    reveal_strlit("Offscreen");
    reveal_strlit("NextIndex");
    reveal_strlit("Attribute");
    reveal_strlit("BlockData");
    reveal_strlit("ThumbnailOffscreen");
}

proof fn level_rows(
    template: raster_template::TemplateModel,
    rows: RowsModel,
    level: int,
    steps: Seq<StepModel>,
    at: int,
)
    requires
        0 <= level <= at,
        level <= template.levels.len(),
        !clone_plan::level_steps(template, rows, level, steps).refused,
    ensures
        ({
            let after = clone_plan::level_steps(template, rows, level, steps).steps;
            let place = steps.len() + 2 * (at - level);
            let stored = clone_plan::identifier_value(
                template.levels[at].block_data_storage,
                rows.identifiers[at],
            );
            &&& after.len() == steps.len() + 2 * (template.levels.len() - level)
            &&& forall|i: int| 0 <= i < steps.len() ==> #[trigger] after[i] == steps[i]
            &&& at < template.levels.len() ==> {
                &&& stored is Some
                &&& after[place] == clone_plan::clone_step(
                    "MipmapInfo"@,
                    rows.columns[2],
                    template.levels[at].info_id,
                    clone_plan::info_changes(rows, at),
                )
                &&& after[place + 1] == clone_plan::clone_step(
                    "Offscreen"@,
                    rows.columns[3],
                    template.levels[at].offscreen_id,
                    clone_plan::offscreen_changes(template, rows, at, stored->Some_0),
                )
            }
        }),
    decreases template.levels.len() - level,
{
    if level < template.levels.len() {
        let info = clone_plan::clone_step(
            "MipmapInfo"@,
            rows.columns[2],
            template.levels[level].info_id,
            clone_plan::info_changes(rows, level),
        );
        let value = clone_plan::identifier_value(
            template.levels[level].block_data_storage,
            rows.identifiers[level],
        )->Some_0;
        let offscreen = clone_plan::clone_step(
            "Offscreen"@,
            rows.columns[3],
            template.levels[level].offscreen_id,
            clone_plan::offscreen_changes(template, rows, level, value),
        );
        let more = steps.push(info).push(offscreen);
        level_rows(
            template,
            rows,
            level + 1,
            more,
            if at > level {
                at
            } else {
                level + 1
            },
        );
        let after = clone_plan::level_steps(template, rows, level, steps).steps;
        assert(after[steps.len() as int] == more[steps.len() as int]);
        assert(after[steps.len() + 1int] == more[steps.len() + 1int]);
        assert forall|i: int| 0 <= i < steps.len() implies #[trigger] after[i] == steps[i] by {
            assert(after[i] == more[i]);
        }
    }
}

/// A row that a statement adds to a table, as a copy of the row with the ID `template_id`.
pub struct AddedRow {
    pub sql: Seq<char>,
    pub parameters: Seq<ParameterModel>,
    pub table: Seq<char>,
    pub template_id: i64,
    pub columns: Seq<Seq<char>>,
}

impl AddedRow {
    /// Whether the row has a value in a column, where its table has that column.
    pub open spec fn has(self, column: Seq<char>, value: ParameterModel) -> bool {
        puts(
            self.sql,
            self.parameters,
            self.table,
            self.template_id,
            self.columns,
            column,
            value,
        )
    }

    /// Whether the row has a number in a column, where its table has that column.
    pub open spec fn has_number(self, column: Seq<char>, value: i64) -> bool {
        self.has(column, ParameterModel::Integer(value))
    }

    /// Whether the row has in every column but these what the row that it is a copy of has.
    pub open spec fn keeps_all_but(self, changed: Seq<Seq<char>>) -> bool {
        forall|column: Seq<char>|
            !changed.contains(column) ==> #[trigger] copies(
                self.sql,
                self.parameters,
                self.table,
                self.template_id,
                self.columns,
                column,
            )
    }
}

/// The row that a statement adds to a table.
pub open spec fn added(
    statement: StepModel,
    table: Seq<char>,
    template_id: i64,
    columns: Seq<Seq<char>>,
) -> AddedRow {
    AddedRow {
        sql: statement.sql,
        parameters: statement.parameters,
        table,
        template_id,
        columns,
    }
}

proof fn row_of_step(
    table: Seq<char>,
    columns: Seq<Seq<char>>,
    template_id: i64,
    changes: Seq<ReplacementModel>,
    changed: Seq<Seq<char>>,
)
    requires
        changed.len() == changes.len(),
        forall|i: int| 0 <= i < changes.len() ==> (#[trigger] changes[i]).column == changed[i],
        forall|i: int, j: int| 0 <= i < j < changed.len() ==> changed[i] != changed[j],
    ensures
        ({
            let row = added(
                clone_plan::clone_step(table, columns, template_id, changes),
                table,
                template_id,
                columns,
            );
            &&& row.keeps_all_but(changed)
            &&& forall|i: int|
                0 <= i < changes.len() ==> row.has(changed[i], (#[trigger] changes[i]).value)
        }),
{
    let step = clone_plan::clone_step(table, columns, template_id, changes);
    let row = added(step, table, template_id, columns);
    assert forall|i: int| 0 <= i < changes.len() implies row.has(
        changed[i],
        (#[trigger] changes[i]).value,
    ) by {
        change_is_found(changes, 0, i);
        changed_column_is_put(
            table,
            columns,
            template_id,
            changes,
            changed[i],
            changes[i].value,
        );
    }
    assert forall|column: Seq<char>| !changed.contains(column) implies #[trigger] copies(
        row.sql,
        row.parameters,
        row.table,
        row.template_id,
        row.columns,
        column,
    ) by {
        assert forall|j: int| 0 <= j < changes.len() implies (#[trigger] changes[j]).column
            != column by {
            assert(changed[j] == changes[j].column);
        }
        no_change_is_found(changes, column, 0);
        other_column_is_copied(table, columns, template_id, changes, column);
    }
}

/// The rows that are added first are the layer and its mipmap: the layer has its ID and its
/// name, its mipmap is the one that is added, which belongs to it, and it is not selected and
/// has no children and no mask. It leads on to what was the first layer of its parent. All else
/// is as in the template.
pub proof fn cloned_layer_has_its_mipmap(template: raster_template::TemplateModel, rows: RowsModel)
    requires
        rows_fit_plan(template, rows),
    ensures
        ({
            let steps = clone_plan::clone_plan(template, rows).steps;
            let layer = added(steps[0], "Layer"@, template.layer_id, rows.columns[0]);
            let mipmap = added(steps[1], "Mipmap"@, template.mipmap_id, rows.columns[1]);
            &&& layer.has_number("MainId"@, rows.layer_id)
            &&& layer.has("LayerName"@, ParameterModel::Text(rows.layer_name))
            &&& layer.has("LayerUuid"@, ParameterModel::Text(rows.layer_uuid))
            &&& layer.has_number("LayerSelect"@, 0)
            &&& layer.has_number("LayerFirstChildIndex"@, 0)
            &&& layer.has_number("LayerLayerMaskMipmap"@, 0)
            &&& layer.has_number("LayerLayerMaskThumbnail"@, 0)
            &&& layer.has_number("LayerNextIndex"@, template.parent_first_child)
            &&& layer.has_number("LayerRenderMipmap"@, rows.mipmap_id)
            &&& layer.has_number("LayerRenderThumbnail"@, rows.thumbnail_id)
            &&& layer.keeps_all_but(layer_columns())
            &&& mipmap.has_number("MainId"@, rows.mipmap_id)
            &&& mipmap.has_number("LayerId"@, rows.layer_id)
            &&& mipmap.keeps_all_but(seq!["MainId"@, "LayerId"@, "BaseMipmapInfo"@])
        }),
{
    column_names_differ();
    plan_starts_and_ends(template, rows);
    let layer = clone_plan::layer_changes(template, rows);
    let mipmap = clone_plan::mipmap_changes(rows);
    row_of_step("Layer"@, rows.columns[0], template.layer_id, layer, layer_columns());
    row_of_step(
        "Mipmap"@,
        rows.columns[1],
        template.mipmap_id,
        mipmap,
        seq!["MainId"@, "LayerId"@, "BaseMipmapInfo"@],
    );
    let row = added(
        clone_plan::clone_plan(template, rows).steps[0],
        "Layer"@,
        template.layer_id,
        rows.columns[0],
    );
    assert forall|i: int| 0 <= i < 10 implies row.has(
        layer_columns()[i],
        #[trigger] layer[i].value,
    ) by {}
    assert(row.has(layer_columns()[0], layer[0].value));
    assert(row.has(layer_columns()[1], layer[1].value));
    assert(row.has(layer_columns()[2], layer[2].value));
    assert(row.has(layer_columns()[3], layer[3].value));
    assert(row.has(layer_columns()[4], layer[4].value));
    assert(row.has(layer_columns()[5], layer[5].value));
    assert(row.has(layer_columns()[6], layer[6].value));
    assert(row.has(layer_columns()[7], layer[7].value));
    assert(row.has(layer_columns()[8], layer[8].value));
    assert(row.has(layer_columns()[9], layer[9].value));
    assert(mipmap[0].value == ParameterModel::Integer(rows.mipmap_id));
    assert(mipmap[1].value == ParameterModel::Integer(rows.layer_id));
}

/// The columns in which the row of a cloned layer differs from its template.
pub open spec fn layer_columns() -> Seq<Seq<char>> {
    seq![
        "MainId"@,
        "LayerName"@,
        "LayerSelect"@,
        "LayerNextIndex"@,
        "LayerFirstChildIndex"@,
        "LayerUuid"@,
        "LayerRenderMipmap"@,
        "LayerLayerMaskMipmap"@,
        "LayerRenderThumbnail"@,
        "LayerLayerMaskThumbnail"@,
    ]
}

/// Whether there are IDs and identifiers for every level of the template, and every identifier
/// can be stored.
pub open spec fn rows_fit_plan(template: raster_template::TemplateModel, rows: RowsModel) -> bool {
    clone_plan::rows_fit(template, rows) && !clone_plan::clone_plan(template, rows).refused
}

proof fn plan_starts_and_ends(template: raster_template::TemplateModel, rows: RowsModel)
    requires
        rows_fit_plan(template, rows),
    ensures
        ({
            let steps = clone_plan::clone_plan(template, rows).steps;
            let count: int = 2 * template.levels.len() as int;
            let stored = clone_plan::identifier_value(
                template.thumbnail_block_data_storage,
                rows.identifiers[template.levels.len() as int],
            );
            &&& steps.len() == count + 10
            &&& steps[0] == clone_plan::clone_step(
                "Layer"@,
                rows.columns[0],
                template.layer_id,
                clone_plan::layer_changes(template, rows),
            )
            &&& steps[1] == clone_plan::clone_step(
                "Mipmap"@,
                rows.columns[1],
                template.mipmap_id,
                clone_plan::mipmap_changes(rows),
            )
            &&& steps[count + 2] == clone_plan::clone_step(
                "LayerThumbnail"@,
                rows.columns[4],
                template.thumbnail_id,
                clone_plan::thumbnail_changes(rows),
            )
            &&& stored is Some
            &&& forall|i: int|
                0 <= i < 7 ==> #[trigger] steps[count + 3 + i] == clone_plan::closing_steps(
                    template,
                    rows,
                    stored->Some_0,
                )[i]
        }),
{
    let first = seq![
        clone_plan::clone_step(
            "Layer"@,
            rows.columns[0],
            template.layer_id,
            clone_plan::layer_changes(template, rows),
        ),
        clone_plan::clone_step(
            "Mipmap"@,
            rows.columns[1],
            template.mipmap_id,
            clone_plan::mipmap_changes(rows),
        ),
    ];
    level_rows(template, rows, 0, first, 0);
    let after = clone_plan::level_steps(template, rows, 0, first).steps;
    assert(after[0] == first[0]);
    assert(after[1] == first[1]);
}

/// The mipmap of a cloned layer has the level that is cloned from the first level of the
/// template as its base. Each level belongs to the layer, leads on to the next, and the last
/// one to none. Each has its own offscreen row, which belongs to the layer and holds the
/// identifier of that level: for the base, the one that the new pixels are staged under. All
/// else is as in the level of the template.
#[verifier::spinoff_prover]
#[verifier::rlimit(60)]
pub proof fn cloned_levels_hold_their_identifiers(
    template: raster_template::TemplateModel,
    rows: RowsModel,
    level: int,
)
    requires
        rows_fit_plan(template, rows),
        0 <= level < template.levels.len(),
    ensures
        ({
            let steps = clone_plan::clone_plan(template, rows).steps;
            let mipmap = added(steps[1], "Mipmap"@, template.mipmap_id, rows.columns[1]);
            let info = added(
                steps[2 + 2 * level],
                "MipmapInfo"@,
                template.levels[level].info_id,
                rows.columns[2],
            );
            let offscreen = added(
                steps[3 + 2 * level],
                "Offscreen"@,
                template.levels[level].offscreen_id,
                rows.columns[3],
            );
            let info_id = rows.mipmap_info_ids[level];
            let offscreen_id = rows.offscreen_ids[level];
            &&& info.has_number("MainId"@, info_id)
            &&& level == 0 ==> mipmap.has_number("BaseMipmapInfo"@, info_id)
            &&& info.has_number("LayerId"@, rows.layer_id)
            &&& info.has_number("Offscreen"@, offscreen_id)
            &&& offscreen.has_number("MainId"@, offscreen_id)
            &&& offscreen.has_number("LayerId"@, rows.layer_id)
            &&& info.has_number(
                "NextIndex"@,
                if level + 1 < template.levels.len() {
                    rows.mipmap_info_ids[level + 1]
                } else {
                    0
                },
            )
            &&& offscreen.has(
                "Attribute"@,
                ParameterModel::Blob(
                    if level == 0 {
                        rows.base_attribute
                    } else {
                        template.levels[level].attribute
                    },
                ),
            )
            &&& exists|stored: ParameterModel|
                {
                    &&& #[trigger] offscreen.has("BlockData"@, stored)
                    &&& holds_identifier(stored, rows.identifiers[level])
                    &&& (stored is Text) == (template.levels[level].block_data_storage
                        == BlockStorage::Text)
                }
            &&& info.keeps_all_but(seq!["MainId"@, "LayerId"@, "Offscreen"@, "NextIndex"@])
            &&& offscreen.keeps_all_but(seq!["MainId"@, "LayerId"@, "Attribute"@, "BlockData"@])
        }),
{
    column_names_differ();
    plan_starts_and_ends(template, rows);
    let first = seq![
        clone_plan::clone_step(
            "Layer"@,
            rows.columns[0],
            template.layer_id,
            clone_plan::layer_changes(template, rows),
        ),
        clone_plan::clone_step(
            "Mipmap"@,
            rows.columns[1],
            template.mipmap_id,
            clone_plan::mipmap_changes(rows),
        ),
    ];
    level_rows(template, rows, 0, first, level);
    let steps = clone_plan::clone_plan(template, rows).steps;
    let after = clone_plan::level_steps(template, rows, 0, first).steps;
    assert(steps[2 + 2 * level] == after[2 + 2 * level]);
    assert(steps[3 + 2 * level] == after[3 + 2 * level]);
    let stored = clone_plan::identifier_value(
        template.levels[level].block_data_storage,
        rows.identifiers[level],
    )->Some_0;
    let base = clone_plan::mipmap_changes(rows);
    let infos = clone_plan::info_changes(rows, level);
    let offscreens = clone_plan::offscreen_changes(template, rows, level, stored);
    let info_columns = seq!["MainId"@, "LayerId"@, "Offscreen"@, "NextIndex"@];
    let offscreen_columns = seq!["MainId"@, "LayerId"@, "Attribute"@, "BlockData"@];
    row_of_step(
        "Mipmap"@,
        rows.columns[1],
        template.mipmap_id,
        base,
        seq!["MainId"@, "LayerId"@, "BaseMipmapInfo"@],
    );
    row_of_step(
        "MipmapInfo"@,
        rows.columns[2],
        template.levels[level].info_id,
        infos,
        info_columns,
    );
    row_of_step(
        "Offscreen"@,
        rows.columns[3],
        template.levels[level].offscreen_id,
        offscreens,
        offscreen_columns,
    );
    let mipmap = added(steps[1], "Mipmap"@, template.mipmap_id, rows.columns[1]);
    let info = added(
        steps[2 + 2 * level],
        "MipmapInfo"@,
        template.levels[level].info_id,
        rows.columns[2],
    );
    let offscreen = added(
        steps[3 + 2 * level],
        "Offscreen"@,
        template.levels[level].offscreen_id,
        rows.columns[3],
    );
    assert(base[2].value == ParameterModel::Integer(rows.mipmap_info_ids[0]));
    assert(mipmap.has_number("BaseMipmapInfo"@, rows.mipmap_info_ids[0]));
    assert(infos[0].value == ParameterModel::Integer(rows.mipmap_info_ids[level]));
    assert(infos[1].value == ParameterModel::Integer(rows.layer_id));
    assert(infos[2].value == ParameterModel::Integer(rows.offscreen_ids[level]));
    assert(infos[3].value == ParameterModel::Integer(clone_plan::next_info(rows, level)));
    assert(info.has_number("MainId"@, rows.mipmap_info_ids[level]));
    assert(info.has_number("LayerId"@, rows.layer_id));
    assert(info.has_number("Offscreen"@, rows.offscreen_ids[level]));
    assert(info.has_number("NextIndex"@, clone_plan::next_info(rows, level)));
    assert(offscreens[0].value == ParameterModel::Integer(rows.offscreen_ids[level]));
    assert(offscreens[1].value == ParameterModel::Integer(rows.layer_id));
    assert(offscreens[2].value == ParameterModel::Blob(
        clone_plan::level_attribute(template, rows, level),
    ));
    assert(offscreens[3].value == stored);
    assert(offscreen.has_number("MainId"@, rows.offscreen_ids[level]));
    assert(offscreen.has_number("LayerId"@, rows.layer_id));
    assert(offscreen.has("BlockData"@, stored));
}

/// The thumbnail of a cloned layer is the one that the layer names; it belongs to the layer and
/// has an offscreen row of its own, which belongs to the layer and holds the last identifier.
/// The parent, where it still has the first child it had, gets the layer as its first child, and
/// the last ID of each table is recorded.
pub proof fn cloned_layer_is_shown_and_linked(
    template: raster_template::TemplateModel,
    rows: RowsModel,
)
    requires
        rows_fit_plan(template, rows),
    ensures
        ({
            let steps = clone_plan::clone_plan(template, rows).steps;
            let count: int = 2 * template.levels.len() as int;
            let thumbnail = added(
                steps[count + 2],
                "LayerThumbnail"@,
                template.thumbnail_id,
                rows.columns[4],
            );
            let offscreen = added(
                steps[count + 3],
                "Offscreen"@,
                template.thumbnail_offscreen_id,
                rows.columns[3],
            );
            &&& steps.len() == count + 10
            &&& thumbnail.has_number("MainId"@, rows.thumbnail_id)
            &&& thumbnail.has_number("LayerId"@, rows.layer_id)
            &&& thumbnail.keeps_all_but(seq!["MainId"@, "LayerId"@, "ThumbnailOffscreen"@])
            &&& offscreen.keeps_all_but(seq!["MainId"@, "LayerId"@, "BlockData"@])
            &&& exists|id: i64, stored: ParameterModel|
                {
                    &&& #[trigger] thumbnail.has_number("ThumbnailOffscreen"@, id)
                    &&& offscreen.has_number("MainId"@, id)
                    &&& offscreen.has_number("LayerId"@, rows.layer_id)
                    &&& #[trigger] offscreen.has("BlockData"@, stored)
                    &&& holds_identifier(stored, rows.identifiers[template.levels.len() as int])
                    &&& (stored is Text) == (template.thumbnail_block_data_storage
                        == BlockStorage::Text)
                }
            &&& replaces_first_child(
                steps[count + 4],
                template.canvas_id,
                template.parent_layer_id,
                template.parent_first_child,
                rows.layer_id,
            )
            &&& records_last_id(steps, count + 5, "Layer"@, rows.maxima[0])
            &&& records_last_id(steps, count + 5, "Mipmap"@, rows.maxima[1])
            &&& records_last_id(steps, count + 5, "MipmapInfo"@, rows.maxima[2])
            &&& records_last_id(steps, count + 5, "Offscreen"@, rows.maxima[3])
            &&& records_last_id(steps, count + 5, "LayerThumbnail"@, rows.maxima[4])
        }),
{
    column_names_differ();
    plan_starts_and_ends(template, rows);
    let steps = clone_plan::clone_plan(template, rows).steps;
    let count: int = 2 * template.levels.len() as int;
    let stored = clone_plan::identifier_value(
        template.thumbnail_block_data_storage,
        rows.identifiers[template.levels.len() as int],
    )->Some_0;
    let shown = clone_plan::thumbnail_changes(rows);
    let atlas = clone_plan::atlas_changes(rows, stored);
    row_of_step(
        "LayerThumbnail"@,
        rows.columns[4],
        template.thumbnail_id,
        shown,
        seq!["MainId"@, "LayerId"@, "ThumbnailOffscreen"@],
    );
    row_of_step(
        "Offscreen"@,
        rows.columns[3],
        template.thumbnail_offscreen_id,
        atlas,
        seq!["MainId"@, "LayerId"@, "BlockData"@],
    );
    assert(steps[count + 3 + 0] == clone_plan::closing_steps(template, rows, stored)[0]);
    assert(steps[count + 3 + 1] == clone_plan::closing_steps(template, rows, stored)[1]);
    let thumbnail = added(
        steps[count + 2],
        "LayerThumbnail"@,
        template.thumbnail_id,
        rows.columns[4],
    );
    let offscreen = added(
        steps[count + 3],
        "Offscreen"@,
        template.thumbnail_offscreen_id,
        rows.columns[3],
    );
    assert(shown[0].value == ParameterModel::Integer(rows.thumbnail_id));
    assert(shown[1].value == ParameterModel::Integer(rows.layer_id));
    assert(shown[2].value == ParameterModel::Integer(rows.thumbnail_offscreen_id));
    assert(atlas[0].value == ParameterModel::Integer(rows.thumbnail_offscreen_id));
    assert(atlas[1].value == ParameterModel::Integer(rows.layer_id));
    assert(atlas[2].value == stored);
    assert(thumbnail.has_number("ThumbnailOffscreen"@, rows.thumbnail_offscreen_id));
    assert(offscreen.has_number("MainId"@, rows.thumbnail_offscreen_id));
    assert(offscreen.has_number("LayerId"@, rows.layer_id));
    assert(offscreen.has("BlockData"@, stored));
    assert(steps[count + 3 + 2] == clone_plan::scheme_step("Layer"@, rows.maxima[0]));
    assert(steps[count + 3 + 3] == clone_plan::scheme_step("LayerThumbnail"@, rows.maxima[4]));
    assert(steps[count + 3 + 4] == clone_plan::scheme_step("Mipmap"@, rows.maxima[1]));
    assert(steps[count + 3 + 5] == clone_plan::scheme_step("MipmapInfo"@, rows.maxima[2]));
    assert(steps[count + 3 + 6] == clone_plan::scheme_step("Offscreen"@, rows.maxima[3]));
    assert(records_id(steps[count + 5], "Layer"@, rows.maxima[0]));
    assert(records_id(steps[count + 6], "LayerThumbnail"@, rows.maxima[4]));
    assert(records_id(steps[count + 7], "Mipmap"@, rows.maxima[1]));
    assert(records_id(steps[count + 8], "MipmapInfo"@, rows.maxima[2]));
    assert(records_id(steps[count + 9], "Offscreen"@, rows.maxima[3]));
}

/// Whether a statement makes a layer the first child of its parent, where that is on the canvas
/// and has the first child it had.
pub open spec fn replaces_first_child(
    statement: StepModel,
    canvas_id: i64,
    parent_id: i64,
    before: i64,
    after: i64,
) -> bool {
    &&& statement.sql
        == "UPDATE Layer SET LayerFirstChildIndex = ?1 WHERE MainId = ?2 AND CanvasId = ?3 AND coalesce(LayerFirstChildIndex, 0) = ?4"@
    &&& statement.parameters == seq![
        ParameterModel::Integer(after),
        ParameterModel::Integer(parent_id),
        ParameterModel::Integer(canvas_id),
        ParameterModel::Integer(before),
    ]
}

/// Whether a statement records the last ID of a table.
pub open spec fn records_id(statement: StepModel, table: Seq<char>, id: i64) -> bool {
    &&& statement.sql == "UPDATE ElemScheme SET MaxIndex = ?1 WHERE TableName = ?2"@
    &&& statement.parameters == seq![ParameterModel::Integer(id), ParameterModel::Text(table)]
}

/// Whether one of the statements from `from` on records the last ID of a table.
pub open spec fn records_last_id(
    statements: Seq<StepModel>,
    from: int,
    table: Seq<char>,
    id: i64,
) -> bool {
    exists|i: int| from <= i < statements.len() && records_id(#[trigger] statements[i], table, id)
}

proof fn allocated_in_turn(
    connection: Connection,
    at: int,
    levels: nat,
    found: Seq<(i64, i64)>,
    outcome: Result<Seq<(i64, i64)>, Failure>,
)
    requires
        0 <= at <= 5,
        found.len() == at,
        raster_clone::all_ids_allocated(connection, at, levels, found, outcome),
        outcome is Ok,
    ensures
        outcome->Ok_0.len() == 5,
        forall|i: int| 0 <= i < at ==> #[trigger] outcome->Ok_0[i] == found[i],
        forall|i: int|
            at <= i < 5 ==> #[trigger] clone_ids::allocated(
                connection,
                raster_clone::row_table(i),
                raster_clone::row_amount(i, levels),
                Ok(outcome->Ok_0[i]),
            ),
    decreases 5 - at,
{
    if at < 5 {
        let ids = choose|ids: Result<(i64, i64), Failure>|
            #[trigger] clone_ids::allocated(
                connection,
                raster_clone::row_table(at),
                raster_clone::row_amount(at, levels),
                ids,
            ) && match ids {
                Err(failure) => outcome == Err::<Seq<(i64, i64)>, Failure>(failure),
                Ok(ids) => raster_clone::all_ids_allocated(
                    connection,
                    at + 1,
                    levels,
                    found.push(ids),
                    outcome,
                ),
            };
        let more = found.push(ids->Ok_0);
        allocated_in_turn(connection, at + 1, levels, more, outcome);
        assert(outcome->Ok_0[at] == more[at]);
        assert forall|i: int| 0 <= i < at implies #[trigger] outcome->Ok_0[i] == found[i] by {
            assert(outcome->Ok_0[i] == more[i]);
        }
    }
}

/// The rows of a clone have the name, the attributes and the identifiers that it was prepared
/// from. Their IDs are the ones that were allocated in each table for just as many rows, one
/// after the other from the first on, and the last ones are to be recorded: the thumbnail has
/// the offscreen row after those of the levels.
pub proof fn prepared_rows_have_the_allocated_ids(
    connection: Connection,
    input: raster_clone::CloneInput,
    levels: nat,
    limits: Limits,
    rows: RowsModel,
)
    requires
        raster_clone::clone_prepared(connection, input, levels, limits, Ok(rows)),
        levels > 0,
    ensures
        rows.layer_name == input.layer_name,
        rows.base_attribute == input.base_attribute,
        rows.identifiers == input.identifiers,
        rows.identifiers.len() == levels + 1,
        rows.mipmap_info_ids.len() == levels,
        rows.offscreen_ids.len() == levels,
        rows.maxima.len() == 5,
        clone_ids::allocated(connection, "Layer"@, 1, Ok((rows.layer_id, rows.maxima[0]))),
        clone_ids::allocated(connection, "Mipmap"@, 1, Ok((rows.mipmap_id, rows.maxima[1]))),
        clone_ids::allocated(
            connection,
            "MipmapInfo"@,
            levels,
            Ok((rows.mipmap_info_ids[0], rows.maxima[2])),
        ),
        clone_ids::allocated(
            connection,
            "Offscreen"@,
            levels + 1,
            Ok((rows.offscreen_ids[0], rows.maxima[3])),
        ),
        clone_ids::allocated(
            connection,
            "LayerThumbnail"@,
            1,
            Ok((rows.thumbnail_id, rows.maxima[4])),
        ),
        forall|i: int|
            0 <= i < levels ==> #[trigger] rows.mipmap_info_ids[i] == rows.mipmap_info_ids[0] + i,
        forall|i: int|
            0 <= i < levels ==> #[trigger] rows.offscreen_ids[i] == rows.offscreen_ids[0] + i,
        rows.thumbnail_offscreen_id == rows.offscreen_ids[0] + levels,
        exists|uuid: Result<Seq<char>, Failure>| #[trigger]
            clone_ids::uuid_generated(connection, limits, uuid) && uuid == Ok::<
                Seq<char>,
                Failure,
            >(rows.layer_uuid),
        raster_clone::row_columns_read(connection, Ok(rows.columns)),
{
    let outcome = Ok::<RowsModel, Failure>(rows);
    let columns = choose|columns: Result<Seq<Seq<Seq<char>>>, Failure>|
        #[trigger] raster_clone::row_columns_read(connection, columns)
            && raster_clone::prepared_after_columns(
            connection,
            input,
            levels,
            limits,
            columns,
            outcome,
        );
    let ids = choose|ids: Result<Seq<(i64, i64)>, Failure>|
        #[trigger] raster_clone::ids_allocated(connection, levels, ids)
            && raster_clone::prepared_after_ids(
            connection,
            input,
            levels,
            limits,
            columns->Ok_0,
            ids,
            outcome,
        );
    let list = ids->Ok_0;
    allocated_in_turn(connection, 0, levels, Seq::empty(), ids);
    let uuid = choose|uuid: Result<Seq<char>, Failure>|
        #[trigger] clone_ids::uuid_generated(connection, limits, uuid) && outcome
            == raster_clone::rows_of(input, levels, columns->Ok_0, list, uuid);
    assert(uuid is Ok);
    assert(columns == Ok::<Seq<Seq<Seq<char>>>, Failure>(rows.columns));
    assert(clone_ids::allocated(
        connection,
        raster_clone::row_table(0),
        raster_clone::row_amount(0, levels),
        Ok(list[0]),
    ));
    assert(clone_ids::allocated(
        connection,
        raster_clone::row_table(1),
        raster_clone::row_amount(1, levels),
        Ok(list[1]),
    ));
    assert(clone_ids::allocated(
        connection,
        raster_clone::row_table(2),
        raster_clone::row_amount(2, levels),
        Ok(list[2]),
    ));
    assert(clone_ids::allocated(
        connection,
        raster_clone::row_table(3),
        raster_clone::row_amount(3, levels),
        Ok(list[3]),
    ));
    assert(clone_ids::allocated(
        connection,
        raster_clone::row_table(4),
        raster_clone::row_amount(4, levels),
        Ok(list[4]),
    ));
    assert(list[0] == (rows.layer_id, rows.maxima[0]));
    assert(list[1] == (rows.mipmap_id, rows.maxima[1]));
    assert(list[2] == (rows.mipmap_info_ids[0], rows.maxima[2]));
    assert(list[3] == (rows.offscreen_ids[0], rows.maxima[3]));
    assert(list[4] == (rows.thumbnail_id, rows.maxima[4]));
}

proof fn columns_in_turn(
    connection: Connection,
    at: int,
    found: Seq<Seq<Seq<char>>>,
    outcome: Result<Seq<Seq<Seq<char>>>, Failure>,
)
    requires
        0 <= at <= 5,
        found.len() == at,
        raster_clone::all_columns_read(connection, at, found, outcome),
        outcome is Ok,
    ensures
        outcome->Ok_0.len() == 5,
    decreases 5 - at,
{
    if at < 5 {
        let columns = choose|columns: Result<Seq<Seq<char>>, Failure>|
            #[trigger] raster_tree::columns_read(connection, raster_clone::row_table(at), columns)
                && match columns {
                Err(failure) => outcome == Err::<Seq<Seq<Seq<char>>>, Failure>(failure),
                Ok(columns) => raster_clone::all_columns_read(
                    connection,
                    at + 1,
                    found.push(columns),
                    outcome,
                ),
            };
        columns_in_turn(connection, at + 1, found.push(columns->Ok_0), outcome);
    }
}

proof fn read_template(
    connection: Connection,
    request: raster_template::CloneRequest,
    template: raster_template::TemplateModel,
)
    requires
        raster_template::template_read(connection, request, Ok(template)),
    ensures
        template.layer_id == request.layer_id,
        template.parent_layer_id == request.parent_layer_id,
        template.levels.len() > 0,
{
    let outcome = Ok::<raster_template::TemplateModel, Failure>(template);
    let tables = choose|tables: Result<(), Failure>|
        #[trigger] raster_template::clone_tables_checked(connection, tables)
            && raster_template::template_after_tables(connection, request, tables, outcome);
    let place = choose|place: Result<(), Failure>|
        #[trigger] raster_template::place_read(
            connection,
            request.parent_layer_id,
            request.limits,
            place,
        ) && raster_template::template_after_place(connection, request, place, outcome);
    let layer = choose|layer: Result<Seq<i64>, Failure>|
        #[trigger] raster_template::integers_read(
            connection,
            "Layer"@,
            request.layer_id,
            raster_template::layer_question(),
            8,
            layer,
        ) && raster_template::template_after_layer(connection, request, layer, outcome);
    let parent = choose|parent: Result<Seq<i64>, Failure>|
        #[trigger] raster_template::integers_read(
            connection,
            "Layer"@,
            request.parent_layer_id,
            raster_template::parent_question(),
            3,
            parent,
        ) && raster_template::template_after_parent(
            connection,
            request,
            layer->Ok_0,
            parent,
            outcome,
        );
    let mipmap = choose|mipmap: Result<Seq<i64>, Failure>|
        #[trigger] raster_template::integers_read(
            connection,
            "Mipmap"@,
            layer->Ok_0[4],
            raster_template::mipmap_question(),
            4,
            mipmap,
        ) && raster_template::template_after_mipmap(
            connection,
            request,
            layer->Ok_0,
            parent->Ok_0,
            mipmap,
            outcome,
        );
    let chain = choose|chain: Result<raster_template::ChainModel, Failure>|
        #[trigger] raster_template::levels_read(
            connection,
            layer->Ok_0[0],
            request.layer_id,
            mipmap->Ok_0[3],
            chain,
        ) && raster_template::template_after_levels(
            connection,
            request,
            layer->Ok_0,
            parent->Ok_0,
            mipmap->Ok_0[2],
            chain,
            outcome,
        );
    let thumbnail = choose|thumbnail: Result<Seq<i64>, Failure>|
        #[trigger] raster_template::integers_read(
            connection,
            "LayerThumbnail"@,
            layer->Ok_0[6],
            raster_template::thumbnail_question(),
            3,
            thumbnail,
        ) && raster_template::template_after_thumbnail(
            connection,
            request,
            layer->Ok_0,
            parent->Ok_0,
            chain->Ok_0,
            thumbnail,
            outcome,
        );
    assert(chain->Ok_0.levels.len() == mipmap->Ok_0[2]);
}

/// Whether one committed transaction on a connection has added the rows of a clone.
pub open spec fn rows_committed(
    connection: Connection,
    template: raster_template::TemplateModel,
    rows: RowsModel,
) -> bool {
    exists|progress: transaction::Progress|
        #[trigger] raster_clone::has_run_whole(
            progress,
            connection,
            clone_plan::clone_plan(template, rows).steps,
        ) && transaction::may_commit(progress, true)
}

/// A clone that succeeds has added its rows in one committed transaction, as a copy of the
/// layer that was asked for and under the parent that was asked for. The new layer has the ID
/// that is given back and the name that was asked for. What is staged beyond what was staged
/// before goes by the identifier that the base of the new layer holds, and holds a block for
/// each tile; the attributes of the base say how large their records are.
#[verifier::spinoff_prover]
#[verifier::rlimit(60)]
pub proof fn cloned_layer_shows_what_is_staged(
    connection: Connection,
    file: ClipFile,
    schema: Seq<database::TableModel>,
    before: Seq<StagedModel>,
    after: Seq<StagedModel>,
    source: clip_writer::CloneSource,
    id: i64,
)
    requires
        clip_writer::clone_staged(connection, file, schema, before, after, source, Ok(id)),
    ensures
        after.len() == before.len() + 1,
        after.drop_last() == before,
        exists|template: raster_template::TemplateModel, rows: RowsModel|
            {
                &&& #[trigger] rows_committed(connection, template, rows)
                &&& rows_fit_plan(template, rows)
                &&& template.layer_id == source.request.layer_id
                &&& template.parent_layer_id == source.request.parent_layer_id
                &&& rows.layer_id == id
                &&& rows.layer_name == source.layer_name
                &&& rows.identifiers[0] == after.last().identifier
                &&& body_matches(
                    after.last().body,
                    template.levels[0].attribute,
                    rows.base_attribute,
                    source.request.limits.max_blocks_per_external,
                )
            },
{
    let outcome = Ok::<clip_writer::StagedClone, Failure>(
        clip_writer::StagedClone { layer_id: id, body: after.last() },
    );
    let read = choose|template: Result<raster_template::TemplateModel, Failure>|
        #[trigger] raster_clone::clone_template_read(
            connection,
            source.request,
            source.layer_name,
            template,
        ) && clip_writer::cloned_after_template(
            connection,
            file,
            schema,
            before,
            source,
            template,
            outcome,
        );
    let template = read->Ok_0;
    read_template(connection, source.request, template);
    let limits = source.request.limits;
    let body = choose|body: Result<Seq<u8>, Failure>|
        #[trigger] clip_writer::body_read(
            connection,
            file,
            schema,
            before,
            template.base_identifier,
            limits.max_write_external_body_size,
            body,
        ) && clip_writer::cloned_after_body(connection, source, template, body, outcome);
    let encoded = choose|tiles: Result<Seq<Seq<u8>>, Failure>|
        #[trigger] raster_clone::tiles_of(
            template.levels[0].attributes,
            source.format,
            source.pixels,
            limits,
            tiles,
        ) && clip_writer::cloned_after_tiles(
            connection,
            source,
            template,
            body->Ok_0,
            tiles,
            outcome,
        );
    let tiles = encoded->Ok_0;
    let (rebuilt, sizes) = clip_writer::body_with_tiles(
        body->Ok_0,
        tiles,
        source.checksums,
        limits,
    )->Ok_0;
    let draft = raster_clone::DraftModel { template, tiles };
    let cloned = choose|done: Result<raster_clone::RasterCloneModel, Failure>|
        #[trigger] raster_clone::layer_cloned(
            connection,
            draft,
            source.layer_name,
            sizes,
            limits,
            done,
        ) && outcome == clip_writer::staged_clone(done, rebuilt);
    let base = attributes::replaced_attributes(template.levels[0].attribute, sizes)->Ok_0;
    let identifiers = choose|identifiers: Result<Seq<Seq<u8>>, Failure>|
        #[trigger] clone_ids::identifiers_generated(
            connection,
            template.levels.len() + 1,
            limits,
            identifiers,
        ) && raster_clone::cloned_after_identifiers(
            connection,
            template,
            source.layer_name,
            base,
            identifiers,
            limits,
            cloned,
        );
    let input = raster_clone::input_of(source.layer_name, base, identifiers->Ok_0);
    let prepared = choose|rows: Result<RowsModel, Failure>|
        #[trigger] raster_clone::clone_prepared(
            connection,
            input,
            template.levels.len(),
            limits,
            rows,
        ) && raster_clone::cloned_after_rows(connection, template, rows, cloned);
    let rows = prepared->Ok_0;
    prepared_rows_have_the_allocated_ids(
        connection,
        input,
        template.levels.len(),
        limits,
        rows,
    );
    columns_in_turn(connection, 0, Seq::empty(), Ok(rows.columns));
    rows_go_in(connection, template, rows, cloned->Ok_0.layer_id);
    sizes_match(
        rebuilt,
        template.levels[0].attribute,
        tiles.len(),
        sizes,
        limits.max_blocks_per_external,
    );
    assert(rows_committed(connection, template, rows));
}

proof fn rows_go_in(
    connection: Connection,
    template: raster_template::TemplateModel,
    rows: RowsModel,
    id: i64,
)
    requires
        clone_plan::rows_fit(template, rows),
        raster_clone::clone_inserted(connection, template, rows, Ok(id)),
    ensures
        rows.layer_id == id,
        rows_fit_plan(template, rows),
        rows_committed(connection, template, rows),
{
    let plan = clone_plan::clone_plan(template, rows);
    raster_clone::clone_goes_in_whole_or_not_at_all(connection, template, rows, Ok(id));
    let progress = choose|progress: transaction::Progress| #[trigger]
        raster_clone::plan_closed(progress, connection, plan, Ok(()));
    assert(raster_clone::plan_closed(progress, connection, plan, Ok(())));
}

proof fn sizes_match(
    body: Seq<u8>,
    attribute: Seq<u8>,
    tiles: nat,
    sizes: Seq<u32>,
    max_blocks: u64,
)
    requires
        clip_writer::sizes_in(body, tiles, max_blocks) == Ok::<Seq<u32>, Failure>(sizes),
        attributes::replaced_attributes(attribute, sizes) is Ok,
    ensures
        body_matches(
            body,
            attribute,
            attributes::replaced_attributes(attribute, sizes)->Ok_0,
            max_blocks,
        ),
{
    reveal(clip_writer::sizes_in);
    attributes::replaced_sizes_read_back(attribute, sizes);
}

/// Whether attribute data differs from that of a template only in the sizes of the blocks of a
/// body, one for each block in it, and says of each block with how many bytes it stands in the
/// body.
pub open spec fn body_matches(
    body: Seq<u8>,
    template_attribute: Seq<u8>,
    attribute: Seq<u8>,
    max_blocks: u64,
) -> bool {
    let found = blocks::block_data_of(body, rebuild::whole_body(body.len() as int), max_blocks);
    let before = attributes::attributes_of(template_attribute);
    let after = attributes::attributes_of(attribute);
    &&& found is Ok
    &&& before is Ok
    &&& after is Ok
    &&& after->Ok_0 == attributes::with_sizes(before->Ok_0, after->Ok_0.block_sizes)
    &&& after->Ok_0.block_sizes.len() == found->Ok_0.len()
    &&& forall|i: int|
        0 <= i < found->Ok_0.len() ==> #[trigger] after->Ok_0.block_sizes[i]
            == match found->Ok_0[i].payload {
            None => 104,
            Some(payload) => 112 + payload.compressed_size,
        }
}

} // verus!
