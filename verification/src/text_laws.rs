//! What edits of text layers write, and which identifiers they give.

use rusqlite::Connection;
use vstd::prelude::*;

use crate::database;
use crate::error::Failure;
use crate::limits::Limits;
use crate::links;
use crate::sql;
use crate::sql::ParameterModel;
use crate::text;
use crate::text::{
    AdditionModel, RemovalModel, ReplacementModel, TextObjectModel, TextObjectWriteSummary,
    TextRowModel, UpdateModel,
};
use crate::text_arrays;

verus! {

/// Whether a statement was reported to change just one row.
pub open spec fn changed_one(
    connection: Connection,
    statement: Seq<char>,
    parameters: Seq<ParameterModel>,
) -> bool {
    sql::may_change(connection, statement, parameters, Some(1usize))
}

/// A replacement that is carried out gives the text that was there. It writes the new text to
/// the column of the first string, or all of the array to the column of the other strings, in
/// the row of the layer; or nothing, if the text is the same.
pub proof fn replacement_sets_its_column(
    connection: Connection,
    layer_id: i64,
    plan: ReplacementModel,
    given: Seq<char>,
)
    requires
        text::replacement_applied(connection, layer_id, plan, Ok(given)),
    ensures
        given == plan.original,
        plan.update matches UpdateModel::Primary(data) ==> changed_one(
            connection,
            "UPDATE Layer SET TextLayerString = ?1 WHERE MainId = ?2"@,
            seq![ParameterModel::Blob(data), ParameterModel::Integer(layer_id)],
        ),
        plan.update matches UpdateModel::Array(data) ==> changed_one(
            connection,
            "UPDATE Layer SET TextLayerStringArray = ?1 WHERE MainId = ?2"@,
            seq![ParameterModel::Blob(data), ParameterModel::Integer(layer_id)],
        ),
{
}

/// An addition that is carried out writes the three arrays of the layer, each to its column.
pub proof fn addition_sets_its_columns(
    connection: Connection,
    layer_id: i64,
    plan: AdditionModel,
    summary: TextObjectWriteSummary,
    given: TextObjectWriteSummary,
)
    requires
        text::addition_applied(connection, layer_id, plan, summary, Ok(given)),
    ensures
        given == summary,
        changed_one(
            connection,
            "UPDATE Layer SET TextLayerStringArray = ?1, TextLayerAttributesArray = ?2, TextLayerAddAttributesV01 = ?3 WHERE MainId = ?4"@,
            seq![
                ParameterModel::Blob(plan.strings),
                ParameterModel::Blob(plan.attributes),
                ParameterModel::Blob(plan.additional),
                ParameterModel::Integer(layer_id),
            ],
        ),
{
}

/// A removal that is carried out gives the object that was there. It writes the first string and
/// its attributes and the three arrays of the layer, each to its column. An array that is not
/// there is written as none.
pub proof fn removal_sets_its_columns(
    connection: Connection,
    layer_id: i64,
    plan: RemovalModel,
    given: TextObjectModel,
)
    requires
        text::removal_applied(connection, layer_id, plan, Ok(given)),
    ensures
        given == plan.removed,
        changed_one(
            connection,
            "UPDATE Layer SET TextLayerString = ?1, TextLayerAttributes = ?2, TextLayerStringArray = ?3, TextLayerAttributesArray = ?4, TextLayerAddAttributesV01 = ?5 WHERE MainId = ?6"@,
            seq![
                ParameterModel::Blob(plan.string),
                ParameterModel::Blob(plan.attributes),
                match plan.string_array {
                    Some(data) => ParameterModel::Blob(data),
                    None => ParameterModel::Null,
                },
                match plan.attributes_array {
                    Some(data) => ParameterModel::Blob(data),
                    None => ParameterModel::Null,
                },
                ParameterModel::Blob(plan.additional),
                ParameterModel::Integer(layer_id),
            ],
        ),
{
    assert(text::removal_parameters(layer_id, plan) =~= seq![
        ParameterModel::Blob(plan.string),
        ParameterModel::Blob(plan.attributes),
        match plan.string_array {
            Some(data) => ParameterModel::Blob(data),
            None => ParameterModel::Null,
        },
        match plan.attributes_array {
            Some(data) => ParameterModel::Blob(data),
            None => ParameterModel::Null,
        },
        ParameterModel::Blob(plan.additional),
        ParameterModel::Integer(layer_id),
    ]);
}

proof fn listed_identifiers(records: Seq<Seq<u8>>, at: int, used: Seq<i64>)
    requires
        0 <= at <= records.len(),
        text::identifier_list(used),
        text::identifiers_with(records, at, used) is Ok,
    ensures
        ({
            let list = text::identifiers_with(records, at, used)->Ok_0;
            &&& text::identifier_list(list)
            &&& forall|value: i64| #[trigger] used.contains(value) ==> list.contains(value)
            &&& forall|j: int|
                at <= j < records.len() ==> text_arrays::identifier_of(#[trigger] records[j]) is Ok
                    && list.contains(text_arrays::identifier_of(records[j])->Ok_0.0 as i64)
        }),
    decreases records.len() - at,
{
    if at < records.len() {
        let value = text_arrays::identifier_of(records[at])->Ok_0.0;
        let more = links::placed(used, value as i64);
        links::placed_in_order(used, value as i64);
        assert forall|i: int| 0 <= i < more.len() implies 0 <= #[trigger] more[i] <= u32::MAX by {
            assert(more.contains(more[i]));
            if more[i] != value {
                let k = choose|k: int| 0 <= k < used.len() && used[k] == more[i];
                assert(0 <= used[k] <= u32::MAX);
            }
        }
        assert(more.contains(value as i64));
        listed_identifiers(records, at + 1, more);
        let list = text::identifiers_with(records, at, used)->Ok_0;
        assert(list == text::identifiers_with(records, at + 1, more)->Ok_0);
        assert forall|value: i64| #[trigger] used.contains(value) implies list.contains(value) by {
            assert(more.contains(value));
        }
        assert(list.contains(value as i64));
    }
}

/// Whether a list has the identifier of each text object in the rows of a reply up to a row.
pub open spec fn lists_identifiers(
    reply: sql::ReplyModel,
    limits: Limits,
    count: int,
    list: Seq<i64>,
) -> bool {
    forall|i: int, j: int|
        0 <= i < count && 0 <= j < text::attribute_records_of(
            reply.rows[i],
            limits,
        )->Ok_0.len() ==> list.contains(
            text_arrays::identifier_of(
                #[trigger] text::attribute_records_of(reply.rows[i], limits)->Ok_0[j],
            )->Ok_0.0 as i64,
        )
}

proof fn all_identifiers_are_listed(
    reply: sql::ReplyModel,
    limits: Limits,
    at: int,
    used: Seq<i64>,
)
    requires
        0 <= at <= reply.rows.len(),
        text::identifier_list(used),
        lists_identifiers(reply, limits, at, used),
        text::identifiers_from(reply, limits, at, used) is Ok,
    ensures
        ({
            let list = text::identifiers_from(reply, limits, at, used)->Ok_0;
            &&& text::identifier_list(list)
            &&& lists_identifiers(reply, limits, reply.rows.len() as int, list)
        }),
    decreases reply.rows.len() - at,
{
    if at < reply.rows.len() {
        let records = text::attribute_records_of(reply.rows[at], limits)->Ok_0;
        let more = text::identifiers_with(records, 0, used)->Ok_0;
        listed_identifiers(records, 0, used);
        assert forall|i: int, j: int|
            0 <= i < at + 1 && 0 <= j < text::attribute_records_of(
                reply.rows[i],
                limits,
            )->Ok_0.len() implies more.contains(
            text_arrays::identifier_of(
                #[trigger] text::attribute_records_of(reply.rows[i], limits)->Ok_0[j],
            )->Ok_0.0 as i64,
        ) by {
            if i == at {
                assert(text_arrays::identifier_of(records[j]) is Ok);
            } else {
                assert(used.contains(
                    text_arrays::identifier_of(
                        text::attribute_records_of(reply.rows[i], limits)->Ok_0[j],
                    )->Ok_0.0 as i64,
                ));
            }
        }
        all_identifiers_are_listed(reply, limits, at + 1, more);
    }
}

/// The identifier that a new text object gets is not zero, and no text object of any layer has
/// it.
pub proof fn new_identifier_is_unused(reply: sql::ReplyModel, limits: Limits)
    requires
        text::next_identifier_of(reply, limits) is Ok,
    ensures
        ({
            let free = text::next_identifier_of(reply, limits)->Ok_0;
            &&& free > 0
            &&& forall|i: int, j: int|
                0 <= i < reply.rows.len() && 0 <= j < text::attribute_records_of(
                    reply.rows[i],
                    limits,
                )->Ok_0.len() ==> text_arrays::identifier_of(
                    #[trigger] text::attribute_records_of(reply.rows[i], limits)->Ok_0[j],
                )->Ok_0.0 != free
        }),
{
    let none = Seq::<i64>::empty();
    all_identifiers_are_listed(reply, limits, 0, none);
    let list = text::identifiers_from(reply, limits, 0, none)->Ok_0;
    text::fresh_identifier_is_free(list);
}

/// Whether adding an object reads this row.
pub open spec fn addition_read(
    connection: Connection,
    schema: Seq<database::TableModel>,
    layer_id: i64,
    row: TextRowModel,
) -> bool {
    text::text_row_read(
        connection,
        schema,
        layer_id,
        text::edit_columns(),
        text::edit_question(),
        Failure::Sqlite,
        "add a text object"@,
        Ok(row),
    )
}

/// An object that is added comes after the objects that its layer had, has the identifier that
/// was allocated, and is written.
pub proof fn added_object_is_numbered_and_written(
    connection: Connection,
    schema: Seq<database::TableModel>,
    layer_id: i64,
    template_index: int,
    replacement: Seq<char>,
    limits: Limits,
    summary: TextObjectWriteSummary,
)
    requires
        text::text_added(
            connection,
            schema,
            layer_id,
            template_index,
            replacement,
            limits,
            Ok(summary),
        ),
    ensures
        text::identifier_allocated(connection, schema, limits, Ok(summary.identifier)),
        exists|row: TextRowModel|
            {
                let parts = text::template_parts(
                    layer_id,
                    row,
                    template_index,
                    replacement,
                    limits,
                );
                let plan = text::addition_of(
                    row,
                    parts->Ok_0,
                    template_index,
                    replacement,
                    summary.identifier,
                    limits,
                );
                &&& #[trigger] addition_read(connection, schema, layer_id, row)
                &&& parts is Ok
                &&& summary.object_index == parts->Ok_0.parts.strings.len() as usize
                &&& plan is Ok
                &&& changed_one(
                    connection,
                    text::addition_statement(),
                    seq![
                        ParameterModel::Blob(plan->Ok_0.strings),
                        ParameterModel::Blob(plan->Ok_0.attributes),
                        ParameterModel::Blob(plan->Ok_0.additional),
                        ParameterModel::Integer(layer_id),
                    ],
                )
            },
{
    let outcome = Ok::<TextObjectWriteSummary, Failure>(summary);
    let row = choose|row: Result<TextRowModel, Failure>|
        #[trigger] text::text_row_read(
            connection,
            schema,
            layer_id,
            text::edit_columns(),
            text::edit_question(),
            Failure::Sqlite,
            "add a text object"@,
            row,
        ) && match row {
            Err(failure) => outcome == Err::<TextObjectWriteSummary, Failure>(failure),
            Ok(row) => match text::template_parts(
                layer_id,
                row,
                template_index,
                replacement,
                limits,
            ) {
                Err(failure) => outcome == Err::<TextObjectWriteSummary, Failure>(failure),
                Ok(parts) => text::template_used(
                    connection,
                    schema,
                    layer_id,
                    row,
                    parts,
                    template_index,
                    replacement,
                    limits,
                    outcome,
                ),
            },
        };
    let row = row->Ok_0;
    let parts = text::template_parts(
        layer_id,
        row,
        template_index,
        replacement,
        limits,
    )->Ok_0;
    assert(addition_read(connection, schema, layer_id, row));
    let identifier = choose|identifier: Result<u32, Failure>|
        #[trigger] text::identifier_allocated(
            connection,
            schema,
            limits,
            identifier,
        ) && match identifier {
            Err(failure) => outcome == Err::<TextObjectWriteSummary, Failure>(failure),
            Ok(identifier) => match text::addition_of(
                row,
                parts,
                template_index,
                replacement,
                identifier,
                limits,
            ) {
                Err(failure) => outcome == Err::<TextObjectWriteSummary, Failure>(failure),
                Ok(plan) => text::addition_applied(
                    connection,
                    layer_id,
                    plan,
                    TextObjectWriteSummary {
                        object_index: parts.parts.strings.len() as usize,
                        identifier,
                    },
                    outcome,
                ),
            },
        };
    let plan = text::addition_of(
        row,
        parts,
        template_index,
        replacement,
        identifier->Ok_0,
        limits,
    )->Ok_0;
    addition_sets_its_columns(
        connection,
        layer_id,
        plan,
        TextObjectWriteSummary {
            object_index: parts.parts.strings.len() as usize,
            identifier: identifier->Ok_0,
        },
        summary,
    );
}

proof fn gap_is_the_least(list: Seq<i64>, at: int, candidate: int)
    requires
        text::identifier_list(list),
        0 <= at <= list.len(),
        1 <= candidate <= u32::MAX,
        forall|i: int| 0 <= i < at ==> #[trigger] list[i] < candidate,
        forall|value: int|
            1 <= value < candidate ==> list.contains(#[trigger] (value as i64)),
    ensures
        match text::gap_from(list, at, candidate) {
            Some(free) => {
                &&& candidate <= free
                &&& !list.contains(free as i64)
                &&& forall|value: int|
                    1 <= value < free ==> list.contains(#[trigger] (value as i64))
            },
            None => forall|value: int|
                1 <= value <= u32::MAX ==> list.contains(#[trigger] (value as i64)),
        },
    decreases list.len() - at,
{
    if at >= list.len() || list[at] > candidate {
        assert(!list.contains(candidate as i64)) by {
            if list.contains(candidate as i64) {
                let k = choose|k: int| 0 <= k < list.len() && list[k] == candidate as i64;
                if k < at {
                    assert(list[k] < candidate);
                } else if k > at {
                    assert(list[at] < list[k]);
                }
            }
        }
    } else if list[at] == candidate {
        assert(list.contains(candidate as i64));
        if candidate < u32::MAX {
            assert forall|i: int| 0 <= i < at + 1 implies #[trigger] list[i] < candidate + 1 by {}
            assert forall|value: int| 1 <= value < candidate + 1 implies list.contains(
                #[trigger] (value as i64),
            ) by {
                if value < candidate {
                    assert(list.contains(value as i64));
                }
            }
            gap_is_the_least(list, at + 1, candidate + 1);
        } else {
            assert forall|value: int| 1 <= value <= u32::MAX implies list.contains(
                #[trigger] (value as i64),
            ) by {
                if value < candidate {
                    assert(list.contains(value as i64));
                }
            }
        }
    } else {
        assert forall|i: int| 0 <= i < at + 1 implies #[trigger] list[i] < candidate by {}
        gap_is_the_least(list, at + 1, candidate);
    }
}

/// A fresh identifier is one more than the largest in use, or one if none is. Only where the
/// largest that there can be is in use, it is the least one that is not, if any is left.
pub proof fn fresh_identifier_follows_the_largest(list: Seq<i64>)
    requires
        text::identifier_list(list),
    ensures
        list.len() == 0 ==> text::fresh_identifier(list) == Some(1u32),
        list.len() > 0 && list.last() < u32::MAX ==> text::fresh_identifier(list) is Some
            && text::fresh_identifier(list)->Some_0 == list.last() + 1 && forall|i: int|
            0 <= i < list.len() ==> #[trigger] list[i] < text::fresh_identifier(list)->Some_0,
        list.len() > 0 && list.last() == u32::MAX ==> match text::fresh_identifier(list) {
            Some(free) => {
                &&& 1 <= free
                &&& !list.contains(free as i64)
                &&& forall|value: int|
                    1 <= value < free ==> list.contains(#[trigger] (value as i64))
            },
            None => forall|value: int|
                1 <= value <= u32::MAX ==> list.contains(#[trigger] (value as i64)),
        },
{
    gap_is_the_least(list, 0, 1);
    if list.len() > 0 {
        assert(0 <= list[list.len() - 1] <= u32::MAX);
        assert forall|i: int| 0 <= i < list.len() implies #[trigger] list[i] <= list.last() by {
            if i < list.len() - 1 {
                assert(list[i] < list[list.len() - 1]);
            }
        }
    }
}

} // verus!
