//! What a text layer reads as once an edit has been written.

use rusqlite::Connection;
use vstd::prelude::*;
use vstd::utf8;

use crate::database;
use crate::error::Failure;
use crate::limits::Limits;
use crate::sql;
use crate::sql::SqlModel;
use crate::text;
use crate::text::{
    AdditionModel, RemovalModel, TextLayerModel, TextObjectModel, TextRowModel, UpdateModel,
};
use crate::text_arrays;

verus! {

/// Whether the row of a text layer, in the columns that are read, holds what an edit of the
/// layer has read.
pub open spec fn same_columns(row: Seq<SqlModel>, edited: TextRowModel) -> bool {
    &&& row.len() == 8
    &&& sql::optional_bytes_at(row, 1) == Ok::<Option<Seq<u8>>, Failure>(edited.first)
    &&& sql::optional_bytes_at(row, 2) == Ok::<Option<Seq<u8>>, Failure>(edited.first_attributes)
    &&& sql::optional_bytes_at(row, 3) == Ok::<Option<Seq<u8>>, Failure>(edited.string_array)
    &&& sql::optional_bytes_at(row, 4) == Ok::<Option<Seq<u8>>, Failure>(edited.attributes_array)
    &&& sql::optional_bytes_at(row, 5) == Ok::<Option<Seq<u8>>, Failure>(edited.additional)
}

/// Bytes in a column, or their absence.
pub open spec fn stored(data: Option<Seq<u8>>) -> SqlModel {
    match data {
        Some(data) => SqlModel::Blob(data),
        None => SqlModel::Null,
    }
}

/// The row of a text layer once a removal has been written.
pub open spec fn row_after_removal(row: Seq<SqlModel>, plan: RemovalModel) -> Seq<SqlModel> {
    seq![
        row[0],
        SqlModel::Blob(plan.string),
        SqlModel::Blob(plan.attributes),
        stored(plan.string_array),
        stored(plan.attributes_array),
        SqlModel::Blob(plan.additional),
        row[6],
        row[7],
    ]
}

/// The number of bytes that an array takes.
spec fn array_size(items: Seq<Seq<u8>>) -> nat {
    text_arrays::array_bytes(items).len()
}

proof fn pushed_size(items: Seq<Seq<u8>>, item: Seq<u8>)
    ensures
        array_size(items.push(item)) == array_size(items) + 4 + item.len(),
{
    assert(items.push(item).drop_last() =~= items);
}

proof fn removed_size(items: Seq<Seq<u8>>, index: int)
    requires
        0 <= index < items.len(),
    ensures
        array_size(items.remove(index)) + 4 + items[index].len() == array_size(items),
    decreases items.len(),
{
    let front = items.drop_last();
    assert(front.push(items.last()) =~= items);
    pushed_size(front, items.last());
    if index == items.len() - 1 {
        assert(items.remove(index) =~= front);
    } else {
        removed_size(front, index);
        assert(items.remove(index) =~= front.remove(index).push(items.last()));
        pushed_size(front.remove(index), items.last());
    }
}

proof fn read_items_fill_the_array(
    data: Seq<u8>,
    field: Seq<char>,
    max_items: u64,
    at: int,
    found: Seq<Seq<u8>>,
)
    requires
        0 <= at <= data.len(),
        array_size(found) == at,
        text_arrays::items_fit(found),
        text_arrays::items_from(data, field, max_items, at, found) is Ok,
    ensures
        ({
            let items = text_arrays::items_from(data, field, max_items, at, found)->Ok_0;
            array_size(items) == data.len() && text_arrays::items_fit(items)
        }),
    decreases data.len() - at,
{
    if at < data.len() {
        let end = at + 4 + crate::bytes::le32(data, at);
        let item = data.subrange(at + 4, end);
        pushed_size(found, item);
        read_items_fill_the_array(data, field, max_items, end, found.push(item));
    }
}

/// The number of bytes in a column.
spec fn column_size(column: Option<Seq<u8>>) -> nat {
    match column {
        Some(data) => data.len(),
        None => 0,
    }
}

proof fn optional_items_fill(array: Option<Seq<u8>>, field: Seq<char>, max_items: u64)
    requires
        text::optional_items(array, field, max_items) is Ok,
    ensures
        ({
            let items = text::optional_items(array, field, max_items)->Ok_0;
            array_size(items) == column_size(array) && text_arrays::items_fit(items)
        }),
{
    if let Some(data) = array {
        read_items_fill_the_array(data, field, max_items, 0, Seq::empty());
    }
}

/// The objects that strings and attribute records make up.
pub open spec fn objects_of(
    strings: Seq<Seq<u8>>,
    attributes: Seq<Seq<u8>>,
) -> Seq<TextObjectModel> {
    Seq::new(
        strings.len(),
        |i: int|
            TextObjectModel {
                text: text::stored_text(strings[i])->Ok_0,
                attributes: attributes[i],
            },
    )
}

/// The number of bytes in the columns of a text layer.
spec fn row_size(edited: TextRowModel) -> nat {
    column_size(edited.first) + column_size(edited.first_attributes) + column_size(
        edited.string_array,
    ) + column_size(edited.attributes_array) + column_size(edited.additional)
}

/// Whether a row can be read as these strings and attribute records.
spec fn reads_as(
    row: Seq<SqlModel>,
    edited: TextRowModel,
    strings: Seq<Seq<u8>>,
    attributes: Seq<Seq<u8>>,
    limits: Limits,
) -> bool {
    &&& same_columns(row, edited)
    &&& edited.first is Some
    &&& edited.first_attributes is Some
    &&& row_size(edited) <= limits.max_text_bytes
    &&& text::optional_items(
        edited.string_array,
        "TextLayerStringArray"@,
        text::extra_limit(limits),
    ) is Ok
    &&& text::optional_items(
        edited.attributes_array,
        "TextLayerAttributesArray"@,
        text::extra_limit(limits),
    ) is Ok
    &&& strings == text::led_by(
        edited.first.unwrap(),
        text::optional_items(
            edited.string_array,
            "TextLayerStringArray"@,
            text::extra_limit(limits),
        )->Ok_0,
    )
    &&& attributes == text::led_by(
        edited.first_attributes.unwrap(),
        text::optional_items(
            edited.attributes_array,
            "TextLayerAttributesArray"@,
            text::extra_limit(limits),
        )->Ok_0,
    )
    &&& text::all_text(strings)
    &&& strings.len() == attributes.len()
    &&& strings.len() <= limits.max_text_objects
    &&& sql::integer_at(row, 0) is Ok
    &&& sql::optional_integer_at(row, 6) is Ok
    &&& sql::optional_integer_at(row, 7) is Ok
}

/// What a row reads as.
spec fn layer_read(
    layer_id: i64,
    kind: i64,
    row: Seq<SqlModel>,
    edited: TextRowModel,
    objects: Seq<TextObjectModel>,
) -> TextLayerModel {
    TextLayerModel {
        layer_id,
        layer_type: sql::integer_at(row, 0)->Ok_0,
        text_layer_type: kind,
        attributes_version: sql::optional_integer_at(row, 6)->Ok_0,
        version: sql::optional_integer_at(row, 7)->Ok_0,
        additional_attributes: edited.additional,
        objects,
    }
}

#[verifier::spinoff_prover]
proof fn readable_row_is_read(
    layer_id: i64,
    kind: i64,
    row: Seq<SqlModel>,
    edited: TextRowModel,
    strings: Seq<Seq<u8>>,
    attributes: Seq<Seq<u8>>,
    limits: Limits,
)
    requires
        reads_as(row, edited, strings, attributes, limits),
    ensures
        text::text_layer_of(layer_id, kind, row, limits) == Ok::<TextLayerModel, Failure>(
            layer_read(layer_id, kind, row, edited, objects_of(strings, attributes)),
        ),
{
    let extra = text::optional_items(
        edited.string_array,
        "TextLayerStringArray"@,
        text::extra_limit(limits),
    )->Ok_0;
    assert(strings[0] == edited.first.unwrap());
    assert forall|i: int| 0 <= i < extra.len() implies text::stored_text(
        #[trigger] extra[i],
    ) is Ok by {
        assert(strings[i + 1] == extra[i]);
    }
}

#[verifier::spinoff_prover]
proof fn read_row_is_readable(
    layer_id: i64,
    kind: i64,
    row: Seq<SqlModel>,
    edited: TextRowModel,
    limits: Limits,
) -> (parts: (Seq<Seq<u8>>, Seq<Seq<u8>>))
    requires
        same_columns(row, edited),
        text::text_layer_of(layer_id, kind, row, limits) is Ok,
    ensures
        reads_as(row, edited, parts.0, parts.1, limits),
        text::text_layer_of(layer_id, kind, row, limits)->Ok_0 == layer_read(
            layer_id,
            kind,
            row,
            edited,
            objects_of(parts.0, parts.1),
        ),
{
    let extra = text::optional_items(
        edited.string_array,
        "TextLayerStringArray"@,
        text::extra_limit(limits),
    )->Ok_0;
    let records = text::optional_items(
        edited.attributes_array,
        "TextLayerAttributesArray"@,
        text::extra_limit(limits),
    )->Ok_0;
    let strings = text::led_by(edited.first.unwrap(), extra);
    let attributes = text::led_by(edited.first_attributes.unwrap(), records);
    assert forall|i: int| 0 <= i < strings.len() implies text::stored_text(
        #[trigger] strings[i],
    ) is Ok by {
        if i > 0 {
            assert(strings[i] == extra[i - 1]);
        }
    }
    (strings, attributes)
}

/// What an edit reads in the row of a text layer once a removal has been written.
spec fn columns_after_removal(edited: TextRowModel, plan: RemovalModel) -> TextRowModel {
    TextRowModel {
        kind: edited.kind,
        first: Some(plan.string),
        first_attributes: Some(plan.attributes),
        string_array: plan.string_array,
        attributes_array: plan.attributes_array,
        additional: Some(plan.additional),
    }
}

/// The number of bytes of an item that stands alone and of an array of others.
spec fn led_size(items: Seq<Seq<u8>>) -> nat {
    items[0].len() + array_size(items.skip(1))
}

proof fn removal_shrinks(first: Seq<u8>, rest: Seq<Seq<u8>>, index: int)
    requires
        0 <= index <= rest.len(),
        rest.len() > 0,
    ensures
        led_size(text::led_by(first, rest).remove(index)) <= first.len() + array_size(rest),
{
    let left = text::led_by(first, rest).remove(index);
    if index == 0 {
        assert(left =~= rest);
        assert(left.skip(1) =~= rest.remove(0));
        removed_size(rest, 0);
    } else {
        assert(left.skip(1) =~= rest.remove(index - 1));
        assert(left[0] == first);
        removed_size(rest, index - 1);
    }
}

/// Once a removal has been written, the layer reads as it did before, without the object at
/// the index: the other objects keep their order, texts and attribute bytes, and the next one
/// is the primary one where that was removed. The array of additional attributes loses just
/// the record at the index, and the object that is returned is the one that was there.
#[verifier::spinoff_prover]
#[verifier::rlimit(60)]
pub proof fn removal_reads_back(
    layer_id: i64,
    kind: i64,
    row: Seq<SqlModel>,
    edited: TextRowModel,
    index: int,
    limits: Limits,
)
    requires
        same_columns(row, edited),
        text::text_layer_of(layer_id, kind, row, limits) is Ok,
        0 <= index,
        text::removal_of(layer_id, edited, index, limits) is Ok,
    ensures
        ({
            let before = text::text_layer_of(layer_id, kind, row, limits)->Ok_0;
            let plan = text::removal_of(layer_id, edited, index, limits)->Ok_0;
            let records = text::optional_items(
                edited.additional,
                "TextLayerAddAttributesV01"@,
                limits.max_text_objects,
            );
            &&& index < before.objects.len()
            &&& plan.removed == before.objects[index]
            &&& text::text_layer_of(layer_id, kind, row_after_removal(row, plan), limits) == Ok::<
                TextLayerModel,
                Failure,
            >(
                TextLayerModel {
                    objects: before.objects.remove(index),
                    additional_attributes: Some(plan.additional),
                    ..before
                },
            )
            &&& records is Ok
            &&& text_arrays::items_of(
                plan.additional,
                "TextLayerAddAttributesV01"@,
                limits.max_text_objects,
            ) == Ok::<
                Seq<Seq<u8>>,
                Failure,
            >(records->Ok_0.remove(index))
        }),
{
    let before = text::text_layer_of(layer_id, kind, row, limits)->Ok_0;
    let plan = text::removal_of(layer_id, edited, index, limits)->Ok_0;
    let found = text::removable_parts(layer_id, edited, index, limits)->Ok_0;
    let (strings, attributes) = read_row_is_readable(layer_id, kind, row, edited, limits);
    let extra = text::optional_items(
        edited.string_array,
        "TextLayerStringArray"@,
        text::extra_limit(limits),
    )->Ok_0;
    let records = text::optional_items(
        edited.attributes_array,
        "TextLayerAttributesArray"@,
        text::extra_limit(limits),
    )->Ok_0;
    assert(found.parts.strings == strings);
    assert(found.parts.attributes == attributes);
    text::removal_keeps_the_other_objects(layer_id, edited, index, limits);
    let left = strings.remove(index);
    let left_attributes = attributes.remove(index);
    optional_items_fill(
        edited.string_array,
        "TextLayerStringArray"@,
        text::extra_limit(limits),
    );
    optional_items_fill(
        edited.attributes_array,
        "TextLayerAttributesArray"@,
        text::extra_limit(limits),
    );
    optional_items_fill(
        edited.additional,
        "TextLayerAddAttributesV01"@,
        limits.max_text_objects,
    );
    removal_shrinks(edited.first.unwrap(), extra, index);
    removal_shrinks(edited.first_attributes.unwrap(), records, index);
    removed_size(found.additional, index);
    let after = row_after_removal(row, plan);
    let columns = columns_after_removal(edited, plan);
    assert(left =~= text::led_by(left[0], left.skip(1)));
    assert(left_attributes =~= text::led_by(left_attributes[0], left_attributes.skip(1)));
    assert(row_size(columns) <= row_size(edited));
    assert forall|i: int| 0 <= i < left.len() implies text::stored_text(
        #[trigger] left[i],
    ) is Ok by {
        assert(left[i] == strings[if i < index {
            i
        } else {
            i + 1
        }]);
    }
    assert(same_columns(after, columns));
    assert(reads_as(after, columns, left, left_attributes, limits));
    readable_row_is_read(layer_id, kind, after, columns, left, left_attributes, limits);
    assert(objects_of(left, left_attributes) =~= objects_of(strings, attributes).remove(index));
}

/// Whether the additional attribute records of a row are those of its objects: as many, each
/// with the identifier of its object.
pub open spec fn records_agree(layer_id: i64, edited: TextRowModel, limits: Limits) -> bool {
    match (
        text::paired_parts(layer_id, edited, limits),
        text::optional_items(
            edited.additional,
            "TextLayerAddAttributesV01"@,
            limits.max_text_objects,
        ),
    ) {
        (Ok(parts), Ok(additional)) => additional.len() == parts.strings.len()
            && text::objects_agree(parts.strings, parts.attributes, additional, 0) is Ok,
        _ => false,
    }
}

/// A layer that can be read, and whose records agree, gives up any of two or more objects; one
/// that has a single object, or none at the index, is refused.
#[verifier::spinoff_prover]
pub proof fn removal_is_owed(
    layer_id: i64,
    kind: i64,
    row: Seq<SqlModel>,
    edited: TextRowModel,
    index: int,
    limits: Limits,
)
    requires
        same_columns(row, edited),
        text::text_layer_of(layer_id, kind, row, limits) is Ok,
        0 <= index,
    ensures
        ({
            let objects = text::text_layer_of(layer_id, kind, row, limits)->Ok_0.objects;
            let plan = text::removal_of(layer_id, edited, index, limits);
            &&& objects.len() <= 1 || index >= objects.len() ==> plan == Err::<
                RemovalModel,
                Failure,
            >(
                Failure::InvalidWrite {
                    reason: if edited.kind is None || edited.additional is None {
                        text::absence_complaint(layer_id, edited)
                    } else {
                        text::removal_complaint(layer_id, objects.len() as int, index)
                    },
                },
            )
            &&& objects.len() >= 2 && index < objects.len() && records_agree(
                layer_id,
                edited,
                limits,
            )
                ==> plan is Ok
        }),
{
    let objects = text::text_layer_of(layer_id, kind, row, limits)->Ok_0.objects;
    let (strings, attributes) = read_row_is_readable(layer_id, kind, row, edited, limits);
    if objects.len() >= 2 && index < objects.len() && records_agree(layer_id, edited, limits) {
        let extra = text::optional_items(
            edited.string_array,
            "TextLayerStringArray"@,
            text::extra_limit(limits),
        )->Ok_0;
        let records = text::optional_items(
            edited.attributes_array,
            "TextLayerAttributesArray"@,
            text::extra_limit(limits),
        )->Ok_0;
        let additional = text::optional_items(
            edited.additional,
            "TextLayerAddAttributesV01"@,
            limits.max_text_objects,
        )->Ok_0;
        optional_items_fill(
            edited.string_array,
            "TextLayerStringArray"@,
            text::extra_limit(limits),
        );
        optional_items_fill(
            edited.attributes_array,
            "TextLayerAttributesArray"@,
            text::extra_limit(limits),
        );
        optional_items_fill(
            edited.additional,
            "TextLayerAddAttributesV01"@,
            limits.max_text_objects,
        );
        rest_fits(edited.first.unwrap(), extra, index);
        rest_fits(edited.first_attributes.unwrap(), records, index);
        assert forall|i: int| 0 <= i < additional.remove(index).len() implies (
        #[trigger] additional.remove(index)[i]).len() <= u32::MAX by {
            assert(additional.remove(index)[i] == additional[if i < index {
                i
            } else {
                i + 1
            }]);
        }
    }
}

proof fn rest_fits(first: Seq<u8>, rest: Seq<Seq<u8>>, index: int)
    requires
        0 <= index <= rest.len(),
        rest.len() > 0,
        text_arrays::items_fit(rest),
    ensures
        text_arrays::items_fit(text::led_by(first, rest).remove(index).skip(1)),
{
    let left = text::led_by(first, rest).remove(index).skip(1);
    assert forall|i: int| 0 <= i < left.len() implies (#[trigger] left[i]).len() <= u32::MAX by {
        assert(left[i] == rest[if i + 1 < index {
            i
        } else {
            i + 1
        }]);
    }
}

/// The one statement that a removal runs, and the number of rows that it was reported to
/// change.
pub open spec fn removal_reported(
    connection: Connection,
    layer_id: i64,
    plan: RemovalModel,
    changed: Option<usize>,
) -> bool {
    sql::may_change(
        connection,
        text::removal_statement(),
        text::removal_parameters(layer_id, plan),
        changed,
    )
}

/// Whether an edit of a text layer has read this row.
pub open spec fn edit_read(
    connection: Connection,
    schema: Seq<database::TableModel>,
    layer_id: i64,
    row: Result<TextRowModel, Failure>,
) -> bool {
    text::text_row_read(
        connection,
        schema,
        layer_id,
        text::edit_columns(),
        text::edit_question(),
        Failure::Sqlite,
        "remove a text object"@,
        row,
    )
}

/// Where a removal fails, the row could not be read or the removal was refused, for which
/// nothing is written; or the one statement that writes all five columns was reported to fail,
/// or to change no row or more than one. Where it succeeds, that statement was reported to
/// change one row.
pub proof fn removal_writes_all_or_fails(
    connection: Connection,
    schema: Seq<database::TableModel>,
    layer_id: i64,
    index: int,
    limits: Limits,
    outcome: Result<TextObjectModel, Failure>,
)
    requires
        text::text_removed(connection, schema, layer_id, index, limits, outcome),
    ensures
        exists|row: Result<TextRowModel, Failure>|
            #[trigger] edit_read(connection, schema, layer_id, row) && match row {
                Err(failure) => outcome == Err::<TextObjectModel, Failure>(failure),
                Ok(row) => match text::removal_of(layer_id, row, index, limits) {
                    Err(failure) => outcome == Err::<TextObjectModel, Failure>(failure),
                    Ok(plan) => exists|changed: Option<usize>|
                        #[trigger] removal_reported(connection, layer_id, plan, changed) && (
                        outcome is Ok <==> changed == Some(1usize)) && (outcome is Ok ==> outcome
                            == Ok::<TextObjectModel, Failure>(plan.removed)),
                },
            },
{
    let row = choose|row: Result<TextRowModel, Failure>|
        #[trigger] text::text_row_read(
            connection,
            schema,
            layer_id,
            text::edit_columns(),
            text::edit_question(),
            Failure::Sqlite,
            "remove a text object"@,
            row,
        ) && match row {
            Err(failure) => outcome == Err::<TextObjectModel, Failure>(failure),
            Ok(row) => match text::removal_of(layer_id, row, index, limits) {
                Err(failure) => outcome == Err::<TextObjectModel, Failure>(failure),
                Ok(plan) => text::removal_applied(connection, layer_id, plan, outcome),
            },
        };
    assert(edit_read(connection, schema, layer_id, row));
    if let Ok(row) = row {
        if let Ok(plan) = text::removal_of(layer_id, row, index, limits) {
            let changed = choose|changed: Option<usize>|
                #[trigger] sql::may_change(
                    connection,
                    text::removal_statement(),
                    text::removal_parameters(layer_id, plan),
                    changed,
                ) && outcome == match changed {
                    None => Err::<TextObjectModel, Failure>(Failure::Sqlite),
                    Some(count) => if count == 1 {
                        Ok(plan.removed)
                    } else {
                        Err(
                            Failure::InvalidWrite {
                                reason: text::layer_complaint(layer_id, " is not unique"@),
                            },
                        )
                    },
                };
            assert(removal_reported(connection, layer_id, plan, changed));
        }
    }
}

proof fn updated_size(items: Seq<Seq<u8>>, index: int, item: Seq<u8>)
    requires
        0 <= index < items.len(),
    ensures
        array_size(items.update(index, item)) + items[index].len() == array_size(items)
            + item.len(),
    decreases items.len(),
{
    let front = items.drop_last();
    assert(front.push(items.last()) =~= items);
    pushed_size(front, items.last());
    if index == items.len() - 1 {
        assert(items.update(index, item) =~= front.push(item));
        pushed_size(front, item);
    } else {
        updated_size(front, index, item);
        assert(items.update(index, item) =~= front.update(index, item).push(items.last()));
        pushed_size(front.update(index, item), items.last());
    }
}

/// The row of a text layer once a replacement has been written.
pub open spec fn row_after_replacement(row: Seq<SqlModel>, update: UpdateModel) -> Seq<SqlModel> {
    match update {
        UpdateModel::Nothing => row,
        UpdateModel::Primary(data) => row.update(1, SqlModel::Blob(data)),
        UpdateModel::Array(data) => row.update(3, SqlModel::Blob(data)),
    }
}

/// What an edit reads in the row of a text layer once a replacement has been written.
spec fn columns_after_replacement(edited: TextRowModel, update: UpdateModel) -> TextRowModel {
    match update {
        UpdateModel::Nothing => edited,
        UpdateModel::Primary(data) => TextRowModel { first: Some(data), ..edited },
        UpdateModel::Array(data) => TextRowModel { string_array: Some(data), ..edited },
    }
}

/// Once a replacement has been written, the layer reads as it did before, but for the text of
/// the object at the index, which is the new one. The text that is returned is the one that
/// was there.
#[verifier::spinoff_prover]
#[verifier::rlimit(40)]
pub proof fn replacement_reads_back(
    layer_id: i64,
    kind: i64,
    row: Seq<SqlModel>,
    edited: TextRowModel,
    index: int,
    replacement: Seq<char>,
    limits: Limits,
)
    requires
        same_columns(row, edited),
        text::text_layer_of(layer_id, kind, row, limits) is Ok,
        0 <= index,
        text::replacement_of(layer_id, edited, index, replacement, limits) is Ok,
    ensures
        ({
            let before = text::text_layer_of(layer_id, kind, row, limits)->Ok_0;
            let plan = text::replacement_of(layer_id, edited, index, replacement, limits)->Ok_0;
            &&& index < before.objects.len()
            &&& plan.original == before.objects[index].text
            &&& text::text_layer_of(
                layer_id,
                kind,
                row_after_replacement(row, plan.update),
                limits,
            ) == Ok::<TextLayerModel, Failure>(
                TextLayerModel {
                    objects: before.objects.update(
                        index,
                        TextObjectModel { text: replacement, ..before.objects[index] },
                    ),
                    ..before
                },
            )
        }),
{
    let plan = text::replacement_of(layer_id, edited, index, replacement, limits)->Ok_0;
    let parts = text::replaceable_parts(layer_id, edited, limits)->Ok_0;
    let (strings, attributes) = read_row_is_readable(layer_id, kind, row, edited, limits);
    let extra = text::optional_items(
        edited.string_array,
        "TextLayerStringArray"@,
        text::extra_limit(limits),
    )->Ok_0;
    let data = utf8::encode_utf8(replacement);
    assert(parts.strings == strings);
    text::replacement_changes_one_string(layer_id, edited, index, replacement, limits);
    text::replacement_keeps_size(layer_id, edited, index, replacement, limits);
    utf8::encode_utf8_valid_utf8(replacement);
    utf8::encode_utf8_decode_utf8(replacement);
    assert(text::stored_text(data) == Ok::<Seq<char>, Failure>(replacement));
    optional_items_fill(
        edited.string_array,
        "TextLayerStringArray"@,
        text::extra_limit(limits),
    );
    let after = row_after_replacement(row, plan.update);
    let columns = columns_after_replacement(edited, plan.update);
    let changed = if plan.update is Nothing {
        strings
    } else {
        strings.update(index, data)
    };
    if plan.update is Array {
        assert(strings.skip(1) =~= extra);
        updated_size(extra, index - 1, data);
        assert(changed =~= text::led_by(
            edited.first.unwrap(),
            strings.skip(1).update(index - 1, data),
        ));
        optional_items_fill(
            columns.string_array,
            "TextLayerStringArray"@,
            text::extra_limit(limits),
        );
    } else if plan.update is Primary {
        assert(changed =~= text::led_by(data, extra));
    }
    assert(row_size(columns) == row_size(edited));
    assert forall|i: int| 0 <= i < changed.len() implies text::stored_text(
        #[trigger] changed[i],
    ) is Ok by {
        if i != index {
            assert(changed[i] == strings[i]);
        }
    }
    assert(same_columns(after, columns));
    assert(reads_as(after, columns, changed, attributes, limits));
    readable_row_is_read(layer_id, kind, after, columns, changed, attributes, limits);
    let objects = objects_of(strings, attributes);
    assert(objects_of(changed, attributes) =~= objects.update(
        index,
        TextObjectModel { text: replacement, ..objects[index] },
    ));
}

/// The row of a text layer once an addition has been written.
pub open spec fn row_after_addition(row: Seq<SqlModel>, plan: AdditionModel) -> Seq<SqlModel> {
    row.update(3, SqlModel::Blob(plan.strings)).update(4, SqlModel::Blob(plan.attributes)).update(
        5,
        SqlModel::Blob(plan.additional),
    )
}

/// Once an addition has been written, the layer reads as it did before, with the new object
/// after the others: its text is the new one, and its attribute bytes are those of the
/// template with the new identifier.
#[verifier::spinoff_prover]
#[verifier::rlimit(40)]
pub proof fn addition_reads_back(
    layer_id: i64,
    kind: i64,
    row: Seq<SqlModel>,
    edited: TextRowModel,
    template_index: int,
    replacement: Seq<char>,
    identifier: u32,
    limits: Limits,
)
    requires
        same_columns(row, edited),
        text::text_layer_of(layer_id, kind, row, limits) is Ok,
        0 <= template_index,
        text::template_parts(layer_id, edited, template_index, replacement, limits) is Ok,
        text::addition_of(
            edited,
            text::template_parts(layer_id, edited, template_index, replacement, limits)->Ok_0,
            template_index,
            replacement,
            identifier,
            limits,
        ) is Ok,
    ensures
        ({
            let before = text::text_layer_of(layer_id, kind, row, limits)->Ok_0;
            let plan = text::addition_of(
                edited,
                text::template_parts(layer_id, edited, template_index, replacement, limits)->Ok_0,
                template_index,
                replacement,
                identifier,
                limits,
            )->Ok_0;
            &&& template_index < before.objects.len()
            &&& text::text_layer_of(layer_id, kind, row_after_addition(row, plan), limits) == Ok::<
                TextLayerModel,
                Failure,
            >(
                TextLayerModel {
                    objects: before.objects.push(
                        TextObjectModel {
                            text: replacement,
                            attributes: text::cloned_record(
                                before.objects[template_index].attributes,
                                identifier,
                            ),
                        },
                    ),
                    additional_attributes: Some(plan.additional),
                    ..before
                },
            )
        }),
{
    let found = text::template_parts(layer_id, edited, template_index, replacement, limits)->Ok_0;
    let plan = text::addition_of(
        edited,
        found,
        template_index,
        replacement,
        identifier,
        limits,
    )->Ok_0;
    let (strings, attributes) = read_row_is_readable(layer_id, kind, row, edited, limits);
    let extra = text::optional_items(
        edited.string_array,
        "TextLayerStringArray"@,
        text::extra_limit(limits),
    )->Ok_0;
    let records = text::optional_items(
        edited.attributes_array,
        "TextLayerAttributesArray"@,
        text::extra_limit(limits),
    )->Ok_0;
    let data = utf8::encode_utf8(replacement);
    let own = text::cloned_record(attributes[template_index], identifier);
    assert(found.parts.strings == strings);
    assert(found.parts.attributes == attributes);
    text::added_object_comes_last(
        layer_id,
        edited,
        template_index,
        replacement,
        identifier,
        limits,
    );
    utf8::encode_utf8_valid_utf8(replacement);
    utf8::encode_utf8_decode_utf8(replacement);
    assert(text::stored_text(data) == Ok::<Seq<char>, Failure>(replacement));
    let after = row_after_addition(row, plan);
    let columns = TextRowModel {
        string_array: Some(plan.strings),
        attributes_array: Some(plan.attributes),
        additional: Some(plan.additional),
        ..edited
    };
    let more = strings.push(data);
    let more_attributes = attributes.push(own);
    assert(strings.skip(1) =~= extra);
    assert(attributes.skip(1) =~= records);
    assert(more =~= text::led_by(edited.first.unwrap(), strings.skip(1).push(data)));
    assert(more_attributes =~= text::led_by(
        edited.first_attributes.unwrap(),
        attributes.skip(1).push(own),
    ));
    assert(row_size(columns) <= limits.max_text_bytes);
    assert forall|i: int| 0 <= i < more.len() implies text::stored_text(
        #[trigger] more[i],
    ) is Ok by {
        if i < strings.len() {
            assert(more[i] == strings[i]);
        }
    }
    assert(same_columns(after, columns));
    assert(reads_as(after, columns, more, more_attributes, limits));
    readable_row_is_read(layer_id, kind, after, columns, more, more_attributes, limits);
    let objects = objects_of(strings, attributes);
    assert(objects_of(more, more_attributes) =~= objects.push(
        TextObjectModel { text: replacement, attributes: own },
    ));
}

} // verus!
