//! Camera values as bytes, and what reading gives back of them.

use vstd::prelude::*;

use crate::attributes_laws::{label_bytes, units_bytes};
use crate::camera;
use crate::camera::{Camera2DPoint, EntryModel, TrackValueModel};
use crate::error::Failure;
use crate::layout;
use crate::layout::{holds, laid_out, word16, word32, word64};
use crate::limits::Limits;
use crate::text_codec;

verus! {

/// The kind, the text and the payload of a value: a number, a text with a number, two numbers,
/// or something else.
pub open spec fn value_parts(value: TrackValueModel) -> (u32, Seq<char>, Seq<u8>) {
    match value {
        TrackValueModel::Float(number) => (0u32, Seq::empty(), word64(number.bits)),
        TrackValueModel::IndexedText { text, numeric_value } => (
            2u32,
            text,
            word32(numeric_value),
        ),
        TrackValueModel::Vector2 { x, y } => (
            3u32,
            Seq::empty(),
            word64(x.bits) + word64(y.bits),
        ),
        TrackValueModel::Unknown { kind, text, payload } => (kind, text, payload),
    }
}

/// Whether a value can be written: its numbers are finite, and an unknown one is not of the form
/// of a known one.
pub open spec fn value_writable(value: TrackValueModel) -> bool {
    match value {
        TrackValueModel::Float(number) => number.finite(),
        TrackValueModel::IndexedText { .. } => true,
        TrackValueModel::Vector2 { x, y } => x.finite() && y.finite(),
        TrackValueModel::Unknown { kind, text, payload } => {
            &&& !(kind == 0 && payload.len() == 8 && text.len() == 0)
            &&& !(kind == 2 && payload.len() == 4)
            &&& !(kind == 3 && payload.len() == 16 && text.len() == 0)
        },
    }
}

/// What comes after the size of an entry: its name, its text, its kind, and its payload.
pub open spec fn entry_body(entry: EntryModel) -> Seq<u8> {
    let (kind, text, payload) = value_parts(entry.value);
    laid_out(seq![label_bytes(entry.name), label_bytes(text), word32(kind), payload])
}

/// An entry of a value map: its size, and what comes after it.
pub open spec fn entry_bytes(entry: EntryModel) -> Seq<u8> {
    word32((4 + entry_body(entry).len()) as u32) + entry_body(entry)
}

/// A value map: the size of its header, the number of its entries, and these.
pub open spec fn value_map_bytes(entries: Seq<EntryModel>) -> Seq<u8> {
    word32(8) + word32(entries.len() as u32) + laid_out(
        Seq::new(entries.len(), |i: int| entry_bytes(entries[i])),
    )
}

proof fn held_part(data: Seq<u8>, at: int, part: Seq<u8>)
    requires
        holds(data, at, part),
    ensures
        0 <= at,
        at + part.len() <= data.len(),
        data.subrange(at, at + part.len() as int) == part,
{
    reveal(holds);
    assert(data.subrange(at, at + part.len() as int) =~= part);
}

/// A value that is written reads back as it was.
pub proof fn value_reads_back(value: TrackValueModel)
    requires
        value_writable(value),
    ensures
        ({
            let (kind, text, payload) = value_parts(value);
            camera::track_value_of(kind, text, payload) == Ok::<TrackValueModel, Failure>(value)
        }),
{
    reveal(camera::double_at);
    let (kind, text, payload) = value_parts(value);
    match value {
        TrackValueModel::Float(number) => {
            layout::three_parts(payload, Seq::empty(), Seq::empty());
            assert(payload + Seq::<u8>::empty() + Seq::<u8>::empty() =~= payload);
            layout::held_numbers_read_back(payload, 0);
        },
        TrackValueModel::IndexedText { numeric_value, .. } => {
            layout::three_parts(payload, Seq::empty(), Seq::empty());
            assert(payload + Seq::<u8>::empty() + Seq::<u8>::empty() =~= payload);
            layout::held_numbers_read_back(payload, 0);
        },
        TrackValueModel::Vector2 { x, y } => {
            layout::three_parts(word64(x.bits), word64(y.bits), Seq::empty());
            assert(word64(x.bits) + word64(y.bits) + Seq::<u8>::empty() =~= payload);
            layout::held_numbers_read_back(payload, 0);
            layout::held_numbers_read_back(payload, 8);
        },
        TrackValueModel::Unknown { .. } => {},
    }
}

proof fn text_reads_back(data: Seq<u8>, at: int, limit: int, text: Seq<char>)
    requires
        holds(data, at, label_bytes(text)),
        at + label_bytes(text).len() <= limit <= data.len(),
        text_codec::text_units(text).len() <= u32::MAX,
        data.len() <= usize::MAX,
    ensures
        camera::wide_text_at(data, at, limit) == Ok::<(Seq<char>, int), Failure>(
            (text, at + label_bytes(text).len()),
        ),
{
    let units = text_codec::text_units(text);
    let head = word32(units.len() as u32);
    let body = units_bytes(units);
    let parts = Seq::new(units.len(), |i: int| word16(units[i]));
    layout::equal_parts(parts, 2);
    layout::three_parts(head, body, Seq::empty());
    assert(head + body + Seq::<u8>::empty() =~= label_bytes(text));
    held_part(data, at, label_bytes(text));
    layout::part_of_part(data, at, label_bytes(text), 0, head);
    layout::part_of_part(data, at, label_bytes(text), 4, body);
    layout::held_numbers_read_back(data, at);
    let read = text_codec::units_at(data, at + 4, units.len());
    assert forall|i: int| 0 <= i < units.len() implies #[trigger] read[i] == units[i] by {
        assert(holds(laid_out(parts), 2 * i, parts[i]));
        layout::part_of_part(data, at + 4, body, 2 * i, parts[i]);
        layout::held_numbers_read_back(data, at + 4 + 2 * i);
    }
    assert(read =~= units);
    text_codec::utf16_decodes_what_was_encoded(text);
}

/// Whether an entry can be written.
pub open spec fn entry_writable(entry: EntryModel) -> bool {
    &&& value_writable(entry.value)
    &&& text_codec::text_units(entry.name).len() <= u32::MAX
    &&& text_codec::text_units(value_parts(entry.value).1).len() <= u32::MAX
    &&& 4 + entry_body(entry).len() <= u32::MAX
}

proof fn entry_reads_back(data: Seq<u8>, at: int, entry: EntryModel)
    requires
        holds(data, at, entry_bytes(entry)),
        entry_writable(entry),
        data.len() <= usize::MAX,
    ensures
        camera::entry_at(data, at) == Ok::<(EntryModel, int), Failure>(
            (entry, at + entry_bytes(entry).len()),
        ),
{
    let (kind, text, payload) = value_parts(entry.value);
    let body = entry_body(entry);
    let size = word32((4 + body.len()) as u32);
    let first = label_bytes(entry.name);
    let second = label_bytes(text);
    let parts = seq![first, second, word32(kind), payload];
    let end = at + entry_bytes(entry).len();
    held_part(data, at, entry_bytes(entry));
    layout::three_parts(size, body, Seq::empty());
    assert(size + body + Seq::<u8>::empty() =~= entry_bytes(entry));
    layout::part_of_part(data, at, entry_bytes(entry), 0, size);
    layout::part_of_part(data, at, entry_bytes(entry), 4, body);
    layout::held_numbers_read_back(data, at);
    layout::parts_stand_in_turn(parts, 0);
    layout::parts_stand_in_turn(parts, 1);
    layout::parts_stand_in_turn(parts, 2);
    layout::parts_stand_in_turn(parts, 3);
    reveal_with_fuel(layout::start_of, 5);
    let a = first.len() as int;
    let b = a + second.len();
    assert(layout::start_of(parts, 0) == 0);
    assert(layout::start_of(parts, 1) == a);
    assert(layout::start_of(parts, 2) == b);
    assert(layout::start_of(parts, 3) == b + 4);
    assert(body.len() == b + 4 + payload.len());
    layout::part_of_part(data, at + 4, body, 0, first);
    layout::part_of_part(data, at + 4, body, a, second);
    layout::part_of_part(data, at + 4, body, b, word32(kind));
    layout::part_of_part(data, at + 4, body, b + 4, payload);
    text_reads_back(data, at + 4, end, entry.name);
    text_reads_back(data, at + 4 + a, end, text);
    layout::held_numbers_read_back(data, at + 4 + b);
    held_part(data, at + 4 + (b + 4), payload);
    value_reads_back(entry.value);
}

proof fn entries_in_turn(data: Seq<u8>, entries: Seq<EntryModel>, at: int)
    requires
        0 <= at <= entries.len(),
        forall|i: int| 0 <= i < entries.len() ==> entry_writable(#[trigger] entries[i]),
        data == value_map_bytes(entries),
        data.len() <= usize::MAX,
    ensures
        ({
            let parts = Seq::new(entries.len(), |i: int| entry_bytes(entries[i]));
            camera::entries_from(
                data,
                entries.len() as int,
                8 + layout::start_of(parts, at),
                entries.take(at),
            ) == Ok::<Seq<EntryModel>, Failure>(entries)
        }),
    decreases entries.len() - at,
{
    let parts = Seq::new(entries.len(), |i: int| entry_bytes(entries[i]));
    layout::whole_size(parts);
    if at < entries.len() {
        layout::three_parts(word32(8), word32(entries.len() as u32), laid_out(parts));
        layout::parts_stand_in_turn(parts, at);
        layout::part_of_part(
            data,
            8,
            laid_out(parts),
            layout::start_of(parts, at),
            entry_bytes(entries[at]),
        );
        entry_reads_back(data, 8 + layout::start_of(parts, at), entries[at]);
        assert(entries.take(at).push(entries[at]) =~= entries.take(at + 1));
        assert(layout::start_of(parts, at + 1) == layout::start_of(parts, at) + parts[at].len());
        entries_in_turn(data, entries, at + 1);
    } else {
        assert(entries.take(at) =~= entries);
    }
}

/// A value map that is written reads back as its entries, in order, each with its name and its
/// value.
pub proof fn value_map_reads_back(entries: Seq<EntryModel>, limits: Limits)
    requires
        entries.len() <= u32::MAX,
        entries.len() <= limits.max_animation_items,
        value_map_bytes(entries).len() <= limits.max_animation_bytes,
        value_map_bytes(entries).len() <= usize::MAX,
        forall|i: int| 0 <= i < entries.len() ==> entry_writable(#[trigger] entries[i]),
    ensures
        camera::value_map_of(value_map_bytes(entries), limits) == Ok::<Seq<EntryModel>, Failure>(
            entries,
        ),
{
    let data = value_map_bytes(entries);
    let parts = Seq::new(entries.len(), |i: int| entry_bytes(entries[i]));
    layout::three_parts(word32(8), word32(entries.len() as u32), laid_out(parts));
    layout::held_numbers_read_back(data, 0);
    layout::held_numbers_read_back(data, 4);
    entries_in_turn(data, entries, 0);
    assert(entries.take(0) =~= Seq::<EntryModel>::empty());
}

/// Whether just one entry has a name, and it has a value.
pub open spec fn has_only(
    entries: Seq<EntryModel>,
    name: Seq<char>,
    value: TrackValueModel,
) -> bool {
    &&& exists|i: int| 0 <= i < entries.len() && (#[trigger] entries[i]).name == name
    &&& forall|i: int|
        0 <= i < entries.len() && (#[trigger] entries[i]).name == name ==> entries[i].value
            == value
    &&& forall|i: int, j: int|
        0 <= i < j < entries.len() ==> (#[trigger] entries[i]).name != name || (
        #[trigger] entries[j]).name != name
}

proof fn named_value_is_the_only_one(entries: Seq<EntryModel>, name: Seq<char>)
    requires
        camera::value_named(entries, name) is Ok,
    ensures
        has_only(entries, name, camera::value_named(entries, name)->Ok_0),
{
    let k = choose|i: int| camera::only_entry(entries, name, i);
    assert(camera::only_entry(entries, name, k));
    assert(entries[k].name == name);
}

/// The values of a camera track are those of the entries with their names, each of which is
/// there just once.
pub proof fn camera_values_are_found_by_name(entries: Seq<EntryModel>)
    ensures
        camera::camera_values_of(entries) matches Ok(values) ==> {
            &&& has_only(
                entries,
                "ImageCenter"@,
                TrackValueModel::Vector2 { x: values.image_center.x, y: values.image_center.y },
            )
            &&& has_only(
                entries,
                "ImagePosition"@,
                TrackValueModel::Vector2 {
                    x: values.image_position.x,
                    y: values.image_position.y,
                },
            )
            &&& has_only(entries, "ImageRotation"@, TrackValueModel::Float(values.rotation))
            &&& has_only(entries, "ImageScale"@, TrackValueModel::Float(values.scale))
            &&& has_only(entries, "Opacity"@, TrackValueModel::Float(values.opacity))
        },
{
    if camera::camera_values_of(entries) is Ok {
        named_value_is_the_only_one(entries, "ImageCenter"@);
        named_value_is_the_only_one(entries, "ImagePosition"@);
        named_value_is_the_only_one(entries, "ImageRotation"@);
        named_value_is_the_only_one(entries, "ImageScale"@);
        named_value_is_the_only_one(entries, "Opacity"@);
    }
}

/// Whether data holds a point.
pub open spec fn holds_point(data: Seq<u8>, at: int, point: Camera2DPoint) -> bool {
    holds(data, at, word64(point.x.bits)) && holds(data, at + 8, word64(point.y.bits))
}

proof fn read_point_is_held(data: Seq<u8>, at: int)
    requires
        0 <= at,
        at + 16 <= data.len(),
    ensures
        holds_point(data, at, camera::camera_point_at(data, at)),
{
    reveal(camera::double_at);
    layout::read_numbers_are_held(data, at);
    layout::read_numbers_are_held(data, at + 8);
}

/// A transform that is read holds what the snapshot holds: the sizes of its header and of a
/// point and the number of points, five numbers, the width and height, the scale, the rotation,
/// the position, the center of the image, six numbers, and a corner for each point.
pub proof fn transform_is_what_the_snapshot_holds(data: Seq<u8>, limits: Limits)
    ensures
        camera::transform_of(data, limits) matches Ok(transform) ==> {
            let size = transform.header_size as int;
            let step = transform.point_record_size as int;
            &&& holds(data, 0, word32(transform.header_size))
            &&& holds(data, 4, word32(transform.point_record_size))
            &&& holds(data, 8, word32(transform.corners.len() as u32))
            &&& forall|i: int|
                0 <= i < 5 ==> holds(data, 12 + 4 * i, word32(#[trigger] transform.prefix_words[i]))
            &&& holds(data, 32, word32(transform.width))
            &&& holds(data, 36, word32(transform.height))
            &&& holds_point(data, 40, transform.scale)
            &&& holds(data, 56, word64(transform.rotation.bits))
            &&& holds_point(data, 64, transform.position)
            &&& holds_point(data, 80, transform.image_center)
            &&& forall|i: int|
                0 <= i < 6 ==> holds(data, 96 + 4 * i, word32(#[trigger] transform.suffix_words[i]))
            &&& forall|i: int|
                0 <= i < transform.corners.len() ==> holds_point(
                    data,
                    size + step * i,
                    #[trigger] transform.corners[i],
                )
            &&& transform.raw == data
            &&& data.len() == size + step * transform.corners.len()
            &&& 0 < transform.width <= limits.max_canvas_dimension
            &&& 0 < transform.height <= limits.max_canvas_dimension
        },
{
    if let Ok(transform) = camera::transform_of(data, limits) {
        reveal(camera::double_at);
        let size = transform.header_size as int;
        let step = transform.point_record_size as int;
        let count = transform.corners.len() as int;
        assert(count * step == step * count) by (nonlinear_arith);
        assert(0 <= step * count) by (nonlinear_arith)
            requires
                0 <= step,
                0 <= count,
        ;
        layout::read_numbers_are_held(data, 0);
        layout::read_numbers_are_held(data, 4);
        layout::read_numbers_are_held(data, 8);
        layout::read_numbers_are_held(data, 32);
        layout::read_numbers_are_held(data, 36);
        layout::read_numbers_are_held(data, 56);
        read_point_is_held(data, 40);
        read_point_is_held(data, 64);
        read_point_is_held(data, 80);
        assert forall|i: int| 0 <= i < 5 implies holds(
            data,
            12 + 4 * i,
            word32(#[trigger] transform.prefix_words[i]),
        ) by {
            layout::read_numbers_are_held(data, 12 + 4 * i);
        }
        assert forall|i: int| 0 <= i < 6 implies holds(
            data,
            96 + 4 * i,
            word32(#[trigger] transform.suffix_words[i]),
        ) by {
            layout::read_numbers_are_held(data, 96 + 4 * i);
        }
        assert forall|i: int| 0 <= i < count implies holds_point(
            data,
            size + step * i,
            #[trigger] transform.corners[i],
        ) by {
            assert(0 <= step * i && step * i + step <= step * count) by (nonlinear_arith)
                requires
                    0 <= i < count,
                    0 <= step,
            ;
            read_point_is_held(data, size + step * i);
        }
    }
}

} // verus!
