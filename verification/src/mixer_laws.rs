//! Curves as bytes, and what reading gives back of them.

use vstd::prelude::*;
use vstd::utf8;

use crate::bytes;
use crate::error::Failure;
use crate::layout;
use crate::layout::{holds, laid_out, word32_reversed, word64_reversed};
use crate::mixer;
use crate::mixer::{
    CurveModel, FieldsModel, HeaderModel, MixerModel, NumberForm, SecondaryCurveModel,
};
use crate::reals::{Double, Single};
use crate::text_codec;

verus! {

/// A string of a mixer: the number of its bytes in UTF-8, and these.
pub open spec fn string_bytes(text: Seq<char>) -> Seq<u8> {
    seq![utf8::encode_utf8(text).len() as u8] + utf8::encode_utf8(text)
}

/// Strings of a mixer that are written read back in order, and end where they end.
pub proof fn strings_read_back(data: Seq<u8>, start: int, strings: Seq<Seq<char>>, at: int)
    requires
        0 <= at <= strings.len(),
        holds(data, start, laid_out(Seq::new(strings.len(), |i: int| string_bytes(strings[i])))),
        forall|i: int|
            0 <= i < strings.len() ==> utf8::encode_utf8(#[trigger] strings[i]).len() < 256,
    ensures
        ({
            let parts = Seq::new(strings.len(), |i: int| string_bytes(strings[i]));
            mixer::strings_from(
                data,
                strings.len() as int,
                start + layout::start_of(parts, at),
                strings.take(at),
            ) == Ok::<(Seq<Seq<char>>, int), Failure>((strings, start + laid_out(parts).len()))
        }),
    decreases strings.len() - at,
{
    let parts = Seq::new(strings.len(), |i: int| string_bytes(strings[i]));
    layout::whole_size(parts);
    if at < strings.len() {
        let place = start + layout::start_of(parts, at);
        let text = strings[at];
        let encoded = utf8::encode_utf8(text);
        layout::parts_stand_in_turn(parts, at);
        layout::part_of_part(
            data,
            start,
            laid_out(parts),
            layout::start_of(parts, at),
            string_bytes(text),
        );
        layout::held_part(data, place, string_bytes(text));
        assert(string_bytes(text)[0] == data[place + 0]);
        assert(encoded.len() < 256);
        assert(data[place] == encoded.len());
        assert(data.subrange(place + 1, place + 1 + encoded.len() as int) =~= encoded) by {
            assert forall|i: int| 0 <= i < encoded.len() implies data[place + 1 + i]
                == #[trigger] encoded[i] by {
                assert(string_bytes(text)[i + 1] == data[place + (i + 1)]);
            }
        }
        encoded_text_decodes(text);
        assert(strings.take(at).push(text) =~= strings.take(at + 1));
        assert(layout::start_of(parts, at + 1) == layout::start_of(parts, at) + parts[at].len());
        strings_read_back(data, start, strings, at + 1);
    } else {
        assert(strings.take(at) =~= strings);
    }
}

proof fn encoded_text_decodes(text: Seq<char>)
    ensures
        text_codec::utf8_text(utf8::encode_utf8(text)) == Some(text),
{
    utf8::encode_utf8_valid_utf8(text);
    utf8::encode_utf8_decode_utf8(text);
}

/// Whether a curve header tells just what its properties say: the kind is the value of the only
/// property for the type, and the axis that of the only property for the axis, if there is one.
pub open spec fn tells(
    strings: Seq<Seq<char>>,
    properties: Seq<(u32, u32)>,
    kind: Option<Seq<char>>,
    axis: Option<Seq<char>>,
) -> bool {
    &&& forall|i: int|
        0 <= i < properties.len() ==> (#[trigger] properties[i]).0 < strings.len()
            && properties[i].1 < strings.len()
    &&& forall|i: int|
        0 <= i < properties.len() && strings[(#[trigger] properties[i]).0 as int] == "Type"@
            ==> kind == Some(strings[properties[i].1 as int])
    &&& forall|i: int|
        0 <= i < properties.len() && strings[(#[trigger] properties[i]).0 as int] == "Axis"@
            ==> axis == Some(strings[properties[i].1 as int])
    &&& kind is Some ==> exists|i: int|
        0 <= i < properties.len() && strings[(#[trigger] properties[i]).0 as int] == "Type"@
    &&& axis is Some ==> exists|i: int|
        0 <= i < properties.len() && strings[(#[trigger] properties[i]).0 as int] == "Axis"@
}

proof fn properties_tell(
    data: Seq<u8>,
    strings: Seq<Seq<char>>,
    at: int,
    left: nat,
    seen: Seq<(u32, u32)>,
    kind: Option<Seq<char>>,
    axis: Option<Seq<char>>,
)
    requires
        0 <= at,
        tells(strings, seen, kind, axis),
        mixer::properties_from(data, strings, at, left, kind, axis) is Some,
    ensures
        ({
            let header = mixer::properties_from(data, strings, at, left, kind, axis)->Some_0;
            &&& header.at == at + 8 * left
            &&& exists|more: Seq<(u32, u32)>|
                {
                    &&& more.len() == left
                    &&& #[trigger] tells(strings, seen + more, Some(header.kind), header.axis)
                    &&& forall|i: int|
                        0 <= i < left ==> (#[trigger] more[i]).0 == bytes::le32(data, at + 8 * i)
                            && more[i].1 == bytes::le32(data, at + 8 * i + 4)
                }
        }),
    decreases left,
{
    if left == 0 {
        assert(seen + Seq::<(u32, u32)>::empty() =~= seen);
        let none = Seq::<(u32, u32)>::empty();
        let header = mixer::properties_from(data, strings, at, left, kind, axis)->Some_0;
        assert(tells(strings, seen + none, Some(header.kind), header.axis));
    } else {
        reveal_strlit("Type");
        reveal_strlit("Axis");
        assert("Type"@[0] != "Axis"@[0]);
        let pair = (bytes::le32(data, at) as u32, bytes::le32(data, at + 4) as u32);
        let next = seen.push(pair);
        let name = strings[pair.0 as int];
        let value = strings[pair.1 as int];
        let new_kind = if name == "Type"@ {
            Some(value)
        } else {
            kind
        };
        let new_axis = if name == "Axis"@ {
            Some(value)
        } else {
            axis
        };
        assert(next[seen.len() as int] == pair);
        assert forall|i: int| 0 <= i < seen.len() implies next[i] == #[trigger] seen[i] by {}
        assert(tells(strings, next, new_kind, new_axis)) by {
            if new_kind is Some {
                if name == "Type"@ {
                    assert(strings[next[seen.len() as int].0 as int] == "Type"@);
                } else {
                    let i = choose|i: int|
                        0 <= i < seen.len() && strings[(#[trigger] seen[i]).0 as int] == "Type"@;
                    assert(strings[next[i].0 as int] == "Type"@);
                }
            }
            if new_axis is Some {
                if name == "Axis"@ {
                    assert(strings[next[seen.len() as int].0 as int] == "Axis"@);
                } else {
                    let i = choose|i: int|
                        0 <= i < seen.len() && strings[(#[trigger] seen[i]).0 as int] == "Axis"@;
                    assert(strings[next[i].0 as int] == "Axis"@);
                }
            }
        }
        properties_tell(data, strings, at + 8, (left - 1) as nat, next, new_kind, new_axis);
        let header = mixer::properties_from(data, strings, at, left, kind, axis)->Some_0;
        let rest = choose|more: Seq<(u32, u32)>|
            {
                &&& more.len() == left - 1
                &&& #[trigger] tells(strings, next + more, Some(header.kind), header.axis)
                &&& forall|i: int|
                    0 <= i < left - 1 ==> (#[trigger] more[i]).0 == bytes::le32(
                        data,
                        at + 8 + 8 * i,
                    ) && more[i].1 == bytes::le32(data, at + 8 + 8 * i + 4)
            };
        let more = seq![pair] + rest;
        assert(seen + more =~= next + rest);
        assert forall|i: int| 0 <= i < left implies (#[trigger] more[i]).0 == bytes::le32(
            data,
            at + 8 * i,
        ) && more[i].1 == bytes::le32(data, at + 8 * i + 4) by {
            if i > 0 {
                assert(more[i] == rest[i - 1]);
                assert(at + 8 + 8 * (i - 1) == at + 8 * i);
            }
        }
        assert(tells(strings, seen + more, Some(header.kind), header.axis));
    }
}

/// A curve starts where the word for curves, zero and one to eight properties stand, each a name
/// and a value from the strings. Its kind is the value of its property for the type, its axis
/// that of its property for the axis, and its fields come after its properties.
pub proof fn curve_header_tells_its_properties(
    data: Seq<u8>,
    strings: Seq<Seq<char>>,
    fcurve: u32,
    at: int,
)
    requires
        0 <= at,
        mixer::header_at(data, strings, fcurve, at) is Some,
    ensures
        ({
            let header = mixer::header_at(data, strings, fcurve, at)->Some_0;
            let count = bytes::le32(data, at + 8);
            &&& bytes::le32(data, at) == fcurve
            &&& bytes::le32(data, at + 4) == 0
            &&& 1 <= count <= 8
            &&& header.at == at + 12 + 8 * count
            &&& exists|properties: Seq<(u32, u32)>|
                {
                    &&& properties.len() == count
                    &&& #[trigger] tells(strings, properties, Some(header.kind), header.axis)
                    &&& forall|i: int|
                        0 <= i < count ==> (#[trigger] properties[i]).0 == bytes::le32(
                            data,
                            at + 12 + 8 * i,
                        ) && properties[i].1 == bytes::le32(data, at + 12 + 8 * i + 4)
                }
        }),
{
    let count = bytes::le32(data, at + 8) as nat;
    let none = Seq::<(u32, u32)>::empty();
    assert(tells(strings, none, None, None));
    properties_tell(data, strings, at + 12, count, none, None, None);
    let header = mixer::header_at(data, strings, fcurve, at)->Some_0;
    let more = choose|more: Seq<(u32, u32)>|
        {
            &&& more.len() == count
            &&& #[trigger] tells(strings, none + more, Some(header.kind), header.axis)
            &&& forall|i: int|
                0 <= i < count ==> (#[trigger] more[i]).0 == bytes::le32(data, at + 12 + 8 * i)
                    && more[i].1 == bytes::le32(data, at + 12 + 8 * i + 4)
        };
    assert(none + more =~= more);
    assert(tells(strings, more, Some(header.kind), header.axis));
}

/// The numbers of an array in a form: as single-precision numbers that are kept or widened, or
/// as double-precision numbers.
pub open spec fn number_bytes(form: NumberForm, bits: u64) -> Seq<u8> {
    match form {
        NumberForm::Wide => word64_reversed(bits),
        _ => word32_reversed(bits as u32),
    }
}

/// What a stored number is read to.
pub open spec fn read_as(form: NumberForm, bits: u64) -> u64 {
    match form {
        NumberForm::Widened => (Single { bits: bits as u32 }).widened(),
        _ => bits,
    }
}

/// Numbers of an array that are written read back in order.
pub proof fn numbers_read_back(
    data: Seq<u8>,
    start: int,
    form: NumberForm,
    numbers: Seq<u64>,
    at: int,
)
    requires
        0 <= at <= numbers.len(),
        holds(
            data,
            start,
            laid_out(Seq::new(numbers.len(), |i: int| number_bytes(form, numbers[i]))),
        ),
        form != NumberForm::Wide ==> forall|i: int|
            0 <= i < numbers.len() ==> #[trigger] numbers[i] <= u32::MAX,
    ensures
        mixer::numbers_from(
            data,
            form,
            numbers.len() as int,
            start + mixer::number_size(form) * at,
            Seq::new(at as nat, |i: int| read_as(form, numbers[i])),
        ) == Ok::<(Seq<u64>, int), Failure>(
            (
                Seq::new(numbers.len(), |i: int| read_as(form, numbers[i])),
                start + mixer::number_size(form) * numbers.len(),
            ),
        ),
    decreases numbers.len() - at,
{
    let size: int = mixer::number_size(form);
    let parts = Seq::new(numbers.len(), |i: int| number_bytes(form, numbers[i]));
    let found = Seq::new(at as nat, |i: int| read_as(form, numbers[i]));
    layout::equal_parts(parts, size as nat);
    if at < numbers.len() {
        let place = start + size * at;
        layout::held_part(data, start, laid_out(parts));
        assert(holds(laid_out(parts), size * at, parts[at]));
        layout::part_of_part(data, start, laid_out(parts), size * at, parts[at]);
        layout::held_part(data, place, parts[at]);
        layout::held_numbers_read_back(data, place);
        assert(numbers[at] == numbers[at]);
        let more = Seq::new((at + 1) as nat, |i: int| read_as(form, numbers[i]));
        assert(found.push(read_as(form, numbers[at])) =~= more);
        assert(size * at + size == size * (at + 1)) by (nonlinear_arith);
        numbers_read_back(data, start, form, numbers, at + 1);
    } else {
        assert(found =~= Seq::new(numbers.len(), |i: int| read_as(form, numbers[i])));
    }
}

/// An array of numbers under one of the four names for numbers adds them to the arrays under
/// that name and leaves the others as they were.
pub proof fn number_arrays_go_by_name(
    data: Seq<u8>,
    strings: Seq<Seq<char>>,
    wide: bool,
    field: Seq<char>,
    kind: Seq<char>,
    numbers: Seq<u64>,
    at: int,
    fields: FieldsModel,
)
    requires
        mixer::number_form(wide, kind) is Some,
        field == "Frame"@ || field == "Value"@ || field == "LeftSlope"@ || field == "RightSlope"@,
        holds(
            data,
            at,
            laid_out(
                Seq::new(
                    numbers.len(),
                    |i: int| number_bytes(mixer::number_form(wide, kind)->Some_0, numbers[i]),
                ),
            ),
        ),
        mixer::number_form(wide, kind)->Some_0 != NumberForm::Wide ==> forall|i: int|
            0 <= i < numbers.len() ==> #[trigger] numbers[i] <= u32::MAX,
    ensures
        ({
            let form = mixer::number_form(wide, kind)->Some_0;
            let read = Some(Seq::new(numbers.len(), |i: int| read_as(form, numbers[i])));
            let added = mixer::array_at(
                data,
                strings,
                wide,
                field,
                kind,
                numbers.len() as int,
                at,
                fields,
            );
            &&& added is Ok
            &&& added->Ok_0.1 == at + mixer::number_size(form) * numbers.len()
            &&& field == "Frame"@ ==> added->Ok_0.0 == (FieldsModel { frames: read, ..fields })
            &&& field == "Value"@ ==> added->Ok_0.0 == (FieldsModel { values: read, ..fields })
            &&& field == "LeftSlope"@ ==> added->Ok_0.0 == (FieldsModel {
                left_slopes: read,
                ..fields
            })
            &&& field == "RightSlope"@ ==> added->Ok_0.0 == (FieldsModel {
                right_slopes: read,
                ..fields
            })
        }),
{
    reveal_strlit("Frame");
    reveal_strlit("Value");
    reveal_strlit("LeftSlope");
    reveal_strlit("RightSlope");
    assert("Frame"@[0] != "Value"@[0]);
    assert("LeftSlope"@.len() == 9 && "RightSlope"@.len() == 10 && "Frame"@.len() == 5);
    let form = mixer::number_form(wide, kind)->Some_0;
    numbers_read_back(data, at, form, numbers, 0);
    assert(Seq::new(0, |i: int| read_as(form, numbers[i])) =~= Seq::<u64>::empty());
    assert(mixer::number_size(form) * 0 == 0);
}

/// The types of arrays of numbers: single-precision numbers everywhere, which secondary curves
/// widen, and double-precision numbers in secondary curves.
pub proof fn number_types()
    ensures
        mixer::number_form(false, "Single[]"@) == Some(NumberForm::Narrow),
        mixer::number_form(true, "Single[]"@) == Some(NumberForm::Widened),
        mixer::number_form(true, "Double[]"@) == Some(NumberForm::Wide),
        mixer::number_form(false, "Double[]"@) is None,
        mixer::number_size(NumberForm::Narrow) == 4,
        mixer::number_size(NumberForm::Widened) == 4,
        mixer::number_size(NumberForm::Wide) == 8,
{
    reveal_strlit("Single[]");
    reveal_strlit("Double[]");
    assert("Single[]"@[0] != "Double[]"@[0]);
}

/// Names of an array that are written as their numbers read back in order.
pub proof fn names_read_back(
    data: Seq<u8>,
    strings: Seq<Seq<char>>,
    start: int,
    ids: Seq<u32>,
    at: int,
)
    requires
        0 <= at <= ids.len(),
        holds(data, start, laid_out(Seq::new(ids.len(), |i: int| word32_reversed(ids[i])))),
        forall|i: int| 0 <= i < ids.len() ==> #[trigger] ids[i] < strings.len(),
    ensures
        mixer::names_from(
            data,
            strings,
            ids.len() as int,
            start + 4 * at,
            Seq::new(at as nat, |i: int| strings[ids[i] as int]),
        ) == Ok::<(Seq<Seq<char>>, int), Failure>(
            (
                Seq::new(ids.len(), |i: int| strings[ids[i] as int]),
                start + 4 * ids.len(),
            ),
        ),
    decreases ids.len() - at,
{
    let parts = Seq::new(ids.len(), |i: int| word32_reversed(ids[i]));
    let found = Seq::new(at as nat, |i: int| strings[ids[i] as int]);
    layout::equal_parts(parts, 4);
    if at < ids.len() {
        assert(holds(laid_out(parts), 4 * at, parts[at]));
        layout::part_of_part(data, start, laid_out(parts), 4 * at, parts[at]);
        layout::held_part(data, start + 4 * at, parts[at]);
        layout::held_numbers_read_back(data, start + 4 * at);
        assert(ids[at] < strings.len());
        let more = Seq::new((at + 1) as nat, |i: int| strings[ids[i] as int]);
        assert(found.push(strings[ids[at] as int]) =~= more);
        names_read_back(data, strings, start, ids, at + 1);
    } else {
        assert(found =~= Seq::new(ids.len(), |i: int| strings[ids[i] as int]));
    }
}

/// An array of names under the name for tags or for interpolation, and one of bytes under its
/// name, adds them to the arrays under that name and leaves the others as they were.
pub proof fn other_arrays_go_by_name(
    data: Seq<u8>,
    strings: Seq<Seq<char>>,
    wide: bool,
    ids: Seq<u32>,
    constants: Seq<u8>,
    at: int,
    fields: FieldsModel,
)
    requires
        0 <= at,
        forall|i: int| 0 <= i < ids.len() ==> #[trigger] ids[i] < strings.len(),
    ensures
        ({
            let names = Some(Seq::new(ids.len(), |i: int| strings[ids[i] as int]));
            let stored = laid_out(Seq::new(ids.len(), |i: int| word32_reversed(ids[i])));
            let tags = mixer::array_at(
                data,
                strings,
                wide,
                "Tag"@,
                "String[]"@,
                ids.len() as int,
                at,
                fields,
            );
            let ways = mixer::array_at(
                data,
                strings,
                wide,
                "Interp"@,
                "String[]"@,
                ids.len() as int,
                at,
                fields,
            );
            let revised = mixer::array_at(
                data,
                strings,
                wide,
                "ReviseConstant"@,
                "Byte[]"@,
                constants.len() as int,
                at,
                fields,
            );
            &&& holds(data, at, stored) ==> tags == Ok::<(FieldsModel, int), Failure>(
                (FieldsModel { tags: names, ..fields }, at + 4 * ids.len()),
            )
            &&& holds(data, at, stored) ==> ways == Ok::<(FieldsModel, int), Failure>(
                (FieldsModel { interpolation: names, ..fields }, at + 4 * ids.len()),
            )
            &&& holds(data, at, constants) ==> revised == Ok::<(FieldsModel, int), Failure>(
                (
                    FieldsModel { revise_constant: Some(constants), ..fields },
                    at + constants.len(),
                ),
            )
        }),
{
    reveal_strlit("Tag");
    reveal_strlit("Interp");
    reveal_strlit("ReviseConstant");
    reveal_strlit("Frame");
    reveal_strlit("Value");
    reveal_strlit("LeftSlope");
    reveal_strlit("RightSlope");
    reveal_strlit("String[]");
    reveal_strlit("Byte[]");
    reveal_strlit("Single[]");
    reveal_strlit("Double[]");
    assert("Tag"@.len() == 3 && "Interp"@.len() == 6 && "ReviseConstant"@.len() == 14);
    assert("Frame"@.len() == 5 && "Value"@.len() == 5);
    assert("LeftSlope"@.len() == 9 && "RightSlope"@.len() == 10);
    assert("Byte[]"@.len() == 6 && "String[]"@.len() == 8 && "Single[]"@.len() == 8);
    assert("String[]"@[1] != "Single[]"@[1]);
    assert("String[]"@[0] != "Double[]"@[0]);
    let stored = laid_out(Seq::new(ids.len(), |i: int| word32_reversed(ids[i])));
    if holds(data, at, stored) {
        names_read_back(data, strings, at, ids, 0);
        assert(Seq::new(0, |i: int| strings[ids[i] as int]) =~= Seq::<Seq<char>>::empty());
    }
    if holds(data, at, constants) {
        layout::held_part(data, at, constants);
    }
}

/// A curve has a key for each time: with the value, the tag, the interpolation, the slopes and
/// the constant that stand at the same place in their arrays, where these are there.
pub proof fn curve_keys_come_from_their_arrays(header: HeaderModel, fields: FieldsModel)
    ensures
        mixer::curve_of(header, fields) matches Ok(curve) ==> {
            let frames = fields.frames->Some_0;
            let values = fields.values->Some_0;
            &&& fields.frames is Some
            &&& fields.values is Some
            &&& curve.kind == header.kind
            &&& curve.axis == header.axis
            &&& curve.keyframes.len() == frames.len()
            &&& values.len() == frames.len()
            &&& forall|i: int|
                0 <= i < frames.len() ==> {
                    let key = #[trigger] curve.keyframes[i];
                    &&& key.time_60hz.bits == frames[i] as u32
                    &&& key.value.bits == values[i] as u32
                    &&& key.tag == match fields.tags {
                        Some(tags) => Some(tags[i]),
                        None => None,
                    }
                    &&& key.interpolation == match fields.interpolation {
                        Some(ways) => Some(ways[i]),
                        None => None,
                    }
                    &&& key.left_slope == match fields.left_slopes {
                        Some(slopes) => Some(Single { bits: slopes[i] as u32 }),
                        None => None,
                    }
                    &&& key.right_slope == match fields.right_slopes {
                        Some(slopes) => Some(Single { bits: slopes[i] as u32 }),
                        None => None,
                    }
                    &&& key.revise_constant == match fields.revise_constant {
                        Some(constants) => Some(constants[i]),
                        None => None,
                    }
                }
        },
        mixer::secondary_curve_of(header, fields) matches Ok(curve) ==> {
            let frames = fields.frames->Some_0;
            let values = fields.values->Some_0;
            &&& fields.frames is Some
            &&& fields.values is Some
            &&& curve.kind == header.kind
            &&& curve.axis == header.axis
            &&& curve.keyframes.len() == frames.len()
            &&& values.len() == frames.len()
            &&& forall|i: int|
                0 <= i < frames.len() ==> {
                    let key = #[trigger] curve.keyframes[i];
                    &&& key.time_60hz.bits == frames[i]
                    &&& key.value.bits == values[i]
                    &&& key.tag == match fields.tags {
                        Some(tags) => Some(tags[i]),
                        None => None,
                    }
                    &&& key.interpolation == match fields.interpolation {
                        Some(ways) => Some(ways[i]),
                        None => None,
                    }
                    &&& key.left_slope == match fields.left_slopes {
                        Some(slopes) => Some(Double { bits: slopes[i] }),
                        None => None,
                    }
                    &&& key.right_slope == match fields.right_slopes {
                        Some(slopes) => Some(Double { bits: slopes[i] }),
                        None => None,
                    }
                    &&& key.revise_constant == match fields.revise_constant {
                        Some(constants) => Some(constants[i]),
                        None => None,
                    }
                }
        },
{
}

/// A field has the numbers of its name and of its type and the number of its items before its
/// array, and two zeros after it. In secondary curves three more numbers come before these.
pub proof fn field_is_its_named_array(
    data: Seq<u8>,
    mixer: MixerModel,
    curve: Seq<char>,
    at: int,
    fields: FieldsModel,
)
    requires
        0 <= at,
        mixer::field_at(data, mixer, curve, at, fields) is Ok,
    ensures
        ({
            let (next, end) = mixer::field_at(data, mixer, curve, at, fields)->Ok_0;
            let base = if mixer.wide {
                at + 12
            } else {
                at
            };
            let name = bytes::le32(data, base);
            let kind = bytes::le32(data, base + 4);
            let count = bytes::le32(data, base + 8);
            &&& name < mixer.strings.len()
            &&& kind < mixer.strings.len()
            &&& count <= mixer.limit
            &&& mixer::array_at(
                data,
                mixer.strings,
                mixer.wide,
                mixer.strings[name],
                mixer.strings[kind],
                count,
                base + 12,
                fields,
            ) == Ok::<(FieldsModel, int), Failure>((next, end - 8))
            &&& bytes::le32(data, end - 8) == 0
            &&& bytes::le32(data, end - 4) == 0
        }),
{
}

/// Whether curves stand at places in a mixer, in order and each with its own header, and no
/// other place up to an end has a header.
pub open spec fn curves_stand_at(
    data: Seq<u8>,
    mixer: MixerModel,
    fcurve: u32,
    start: int,
    end: int,
    places: Seq<int>,
    curves: Seq<CurveModel>,
) -> bool {
    &&& places.len() == curves.len()
    &&& forall|i: int|
        0 <= i < places.len() ==> {
            let header = mixer::header_at(data, mixer.strings, fcurve, #[trigger] places[i]);
            &&& start <= places[i] < end
            &&& header is Some
            &&& mixer::curve_at(data, mixer, header->Some_0) == Ok::<CurveModel, Failure>(curves[i])
        }
    &&& forall|i: int, j: int| 0 <= i < j < places.len() ==> places[i] < places[j]
    &&& forall|place: int|
        start <= place < end && #[trigger] mixer::header_at(
            data,
            mixer.strings,
            fcurve,
            place,
        ) is Some ==> places.contains(place)
}

proof fn curves_in_turn(
    data: Seq<u8>,
    mixer: MixerModel,
    fcurve: u32,
    first: int,
    start: int,
    places: Seq<int>,
    found: Seq<CurveModel>,
) -> (all: Seq<int>)
    requires
        0 <= first <= start,
        start + 12 <= data.len() || start == data.len() - 11 || start == first,
        curves_stand_at(data, mixer, fcurve, first, start, places, found),
        mixer::curves_from(data, mixer, fcurve, start, found) is Ok,
    ensures
        curves_stand_at(
            data,
            mixer,
            fcurve,
            first,
            data.len() - 11,
            all,
            mixer::curves_from(data, mixer, fcurve, start, found)->Ok_0,
        ),
    decreases data.len() - start,
{
    if start + 12 > data.len() {
        if start > data.len() - 11 {
            assert(places.len() == 0) by {
                if places.len() > 0 {
                    assert(first <= places[0] < start);
                }
            }
        }
        places
    } else {
        match mixer::header_at(data, mixer.strings, fcurve, start) {
            None => {
                assert(curves_stand_at(data, mixer, fcurve, first, start + 1, places, found));
                curves_in_turn(data, mixer, fcurve, first, start + 1, places, found)
            },
            Some(header) => {
                let curve = mixer::curve_at(data, mixer, header)->Ok_0;
                let more = places.push(start);
                assert forall|place: int|
                    first <= place < start + 1 && #[trigger] mixer::header_at(
                        data,
                        mixer.strings,
                        fcurve,
                        place,
                    ) is Some implies more.contains(place) by {
                    if place == start {
                        assert(more[places.len() as int] == start);
                    } else {
                        assert(places.contains(place));
                        let k = choose|k: int| 0 <= k < places.len() && places[k] == place;
                        assert(more[k] == place);
                    }
                }
                assert forall|i: int| 0 <= i < more.len() implies {
                    let header = mixer::header_at(data, mixer.strings, fcurve, #[trigger] more[i]);
                    &&& first <= more[i] < start + 1
                    &&& header is Some
                    &&& mixer::curve_at(data, mixer, header->Some_0) == Ok::<CurveModel, Failure>(
                        found.push(curve)[i],
                    )
                } by {
                    if i < places.len() {
                        assert(more[i] == places[i]);
                    }
                }
                assert(curves_stand_at(
                    data,
                    mixer,
                    fcurve,
                    first,
                    start + 1,
                    more,
                    found.push(curve),
                ));
                curves_in_turn(data, mixer, fcurve, first, start + 1, more, found.push(curve))
            },
        }
    }
}

/// The curves that are read of a mixer are those whose headers stand after its strings, each
/// once and in order.
pub proof fn every_curve_is_read_in_order(
    data: Seq<u8>,
    mixer: MixerModel,
    fcurve: u32,
    start: int,
)
    requires
        0 <= start,
        mixer::curves_from(data, mixer, fcurve, start, Seq::empty()) is Ok,
    ensures
        exists|places: Seq<int>| #[trigger]
            curves_stand_at(
                data,
                mixer,
                fcurve,
                start,
                data.len() - 11,
                places,
                mixer::curves_from(data, mixer, fcurve, start, Seq::empty())->Ok_0,
            ),
{
    let none = Seq::<int>::empty();
    let all = curves_in_turn(data, mixer, fcurve, start, start, none, Seq::empty());
}

/// Whether a secondary curve starts at a place: there is a header, and what comes before the
/// fields of a secondary curve stands where its fields start.
pub open spec fn secondary_starts(
    data: Seq<u8>,
    mixer: MixerModel,
    fcurve: u32,
    place: int,
) -> bool {
    mixer::header_at(data, mixer.strings, fcurve, place) matches Some(header) && mixer::field_meta(
        data,
        header.at + 4,
        mixer.strings.len() as int,
        mixer.int32,
    )
}

/// Whether secondary curves stand at places in a mixer, in order and each with its own header,
/// and none starts at another place up to an end.
pub open spec fn secondary_curves_stand_at(
    data: Seq<u8>,
    mixer: MixerModel,
    fcurve: u32,
    start: int,
    end: int,
    places: Seq<int>,
    curves: Seq<SecondaryCurveModel>,
) -> bool {
    &&& places.len() == curves.len()
    &&& forall|i: int|
        0 <= i < places.len() ==> {
            let header = mixer::header_at(data, mixer.strings, fcurve, #[trigger] places[i]);
            &&& start <= places[i] < end
            &&& header is Some
            &&& mixer::secondary_curve_at(data, mixer, header->Some_0, i) == Ok::<
                Option<SecondaryCurveModel>,
                Failure,
            >(Some(curves[i]))
        }
    &&& forall|i: int, j: int| 0 <= i < j < places.len() ==> places[i] < places[j]
    &&& forall|place: int|
        start <= place < end && #[trigger] secondary_starts(data, mixer, fcurve, place)
            ==> places.contains(place)
}

proof fn secondary_curves_in_turn(
    data: Seq<u8>,
    mixer: MixerModel,
    fcurve: u32,
    first: int,
    start: int,
    places: Seq<int>,
    found: Seq<SecondaryCurveModel>,
) -> (all: Seq<int>)
    requires
        0 <= first <= start,
        start + 12 <= data.len() || start == data.len() - 11 || start == first,
        secondary_curves_stand_at(data, mixer, fcurve, first, start, places, found),
        mixer::secondary_curves_from(data, mixer, fcurve, start, found) is Ok,
    ensures
        secondary_curves_stand_at(
            data,
            mixer,
            fcurve,
            first,
            data.len() - 11,
            all,
            mixer::secondary_curves_from(data, mixer, fcurve, start, found)->Ok_0,
        ),
    decreases data.len() - start,
{
    if start + 12 > data.len() {
        if start > data.len() - 11 {
            assert(places.len() == 0) by {
                if places.len() > 0 {
                    assert(first <= places[0] < start);
                }
            }
        }
        places
    } else {
        let header = mixer::header_at(data, mixer.strings, fcurve, start);
        let curve = mixer::secondary_curve_at(data, mixer, header->Some_0, found.len() as int);
        if header is None || curve->Ok_0 is None {
            assert(!secondary_starts(data, mixer, fcurve, start));
            assert(secondary_curves_stand_at(
                data,
                mixer,
                fcurve,
                first,
                start + 1,
                places,
                found,
            ));
            secondary_curves_in_turn(data, mixer, fcurve, first, start + 1, places, found)
        } else {
            let curve = curve->Ok_0->Some_0;
            let more = places.push(start);
            assert forall|place: int|
                first <= place < start + 1 && #[trigger] secondary_starts(
                    data,
                    mixer,
                    fcurve,
                    place,
                ) implies more.contains(place) by {
                if place == start {
                    assert(more[places.len() as int] == start);
                } else {
                    assert(places.contains(place));
                    let k = choose|k: int| 0 <= k < places.len() && places[k] == place;
                    assert(more[k] == place);
                }
            }
            assert forall|i: int| 0 <= i < more.len() implies {
                let header = mixer::header_at(data, mixer.strings, fcurve, #[trigger] more[i]);
                &&& first <= more[i] < start + 1
                &&& header is Some
                &&& mixer::secondary_curve_at(data, mixer, header->Some_0, i) == Ok::<
                    Option<SecondaryCurveModel>,
                    Failure,
                >(Some(found.push(curve)[i]))
            } by {
                if i < places.len() {
                    assert(more[i] == places[i]);
                }
            }
            assert(secondary_curves_stand_at(
                data,
                mixer,
                fcurve,
                first,
                start + 1,
                more,
                found.push(curve),
            ));
            secondary_curves_in_turn(
                data,
                mixer,
                fcurve,
                first,
                start + 1,
                more,
                found.push(curve),
            )
        }
    }
}

/// The secondary curves that are read of a mixer are those that start after its strings, each
/// once and in order.
pub proof fn every_secondary_curve_is_read_in_order(
    data: Seq<u8>,
    mixer: MixerModel,
    fcurve: u32,
    start: int,
)
    requires
        0 <= start,
        mixer::secondary_curves_from(data, mixer, fcurve, start, Seq::empty()) is Ok,
    ensures
        exists|places: Seq<int>| #[trigger]
            secondary_curves_stand_at(
                data,
                mixer,
                fcurve,
                start,
                data.len() - 11,
                places,
                mixer::secondary_curves_from(data, mixer, fcurve, start, Seq::empty())->Ok_0,
            ),
{
    let none = Seq::<int>::empty();
    let all = secondary_curves_in_turn(data, mixer, fcurve, start, start, none, Seq::empty());
}

} // verus!
