//! The byte layouts that text layers are stored in: arrays of length-prefixed items, and
//! attribute records made of parameters.

use vstd::prelude::*;
use vstd::utf8;

use crate::bytes;
use crate::bytes::{copy_bytes, push_bytes, push_le32, read_le32};
use crate::error;
use crate::error::{Error, Failure};
use crate::message;
use crate::message::Message;
use crate::text_codec::characters;

verus! {

fn invalid_write(reason: Message) -> (error: Error)
    ensures
        error@ == (Failure::InvalidWrite { reason: reason@ }),
{
    Error::InvalidWrite { reason: reason.build() }
}

/// The items of an array from `at` on, after the items `found` before.
pub open spec fn items_from(
    data: Seq<u8>,
    field: Seq<char>,
    max_items: u64,
    at: int,
    found: Seq<Seq<u8>>,
) -> Result<Seq<Seq<u8>>, Failure>
    decreases data.len() - at,
    when 0 <= at
{
    if at >= data.len() {
        Ok(found)
    } else if found.len() + 1 > max_items {
        Err(
            Failure::LimitExceeded {
                resource: "text objects per layer"@,
                value: (found.len() + 2) as u64,
                limit: (max_items + 1) as u64,
            },
        )
    } else if at + 4 > data.len() {
        Err(Failure::InvalidDocument { reason: field + " ends inside a length prefix"@ })
    } else {
        let end = at + 4 + bytes::le32(data, at);
        if end > data.len() {
            Err(
                Failure::InvalidDocument {
                    reason: field + " item extends beyond the stored array"@,
                },
            )
        } else {
            items_from(data, field, max_items, end, found.push(data.subrange(at + 4, end)))
        }
    }
}

/// The items of an array, each stored after its length. What is said of a broken array names
/// the field that holds it.
pub open spec fn items_of(data: Seq<u8>, field: Seq<char>, max_items: u64) -> Result<
    Seq<Seq<u8>>,
    Failure,
> {
    items_from(data, field, max_items, 0, Seq::empty())
}

/// An item after its length.
pub open spec fn item_bytes(item: Seq<u8>) -> Seq<u8> {
    bytes::le32_bytes(item.len() as u32) + item
}

/// The bytes that store items, each after its length.
pub open spec fn array_bytes(items: Seq<Seq<u8>>) -> Seq<u8>
    decreases items.len(),
{
    if items.len() == 0 {
        Seq::empty()
    } else {
        array_bytes(items.drop_last()) + item_bytes(items.last())
    }
}

/// Whether the length of every item fits in its prefix.
pub open spec fn items_fit(items: Seq<Seq<u8>>) -> bool {
    forall|i: int| 0 <= i < items.len() ==> (#[trigger] items[i]).len() <= u32::MAX
}

proof fn longer_array(
    data: Seq<u8>,
    more: Seq<u8>,
    field: Seq<char>,
    max_items: u64,
    larger: u64,
    at: int,
    found: Seq<Seq<u8>>,
)
    requires
        0 <= at <= data.len(),
        items_from(data, field, max_items, at, found) is Ok,
        items_from(data, field, max_items, at, found)->Ok_0.len() <= larger,
    ensures
        items_from(data + more, field, larger, at, found) == items_from(
            data + more,
            field,
            larger,
            data.len() as int,
            items_from(data, field, max_items, at, found)->Ok_0,
        ),
        items_from(data, field, max_items, at, found)->Ok_0.len() >= found.len(),
    decreases data.len() - at,
{
    if at < data.len() {
        let end = at + 4 + bytes::le32(data, at);
        let whole = data + more;
        assert(bytes::le32(whole, at) == bytes::le32(data, at));
        assert(whole.subrange(at + 4, end) =~= data.subrange(at + 4, end));
        longer_array(
            data,
            more,
            field,
            max_items,
            larger,
            end,
            found.push(data.subrange(at + 4, end)),
        );
    }
}

/// An item that is appended to an array is read back after the items before it.
pub proof fn appended_item_reads_back(
    data: Seq<u8>,
    item: Seq<u8>,
    field: Seq<char>,
    max_items: u64,
    larger: u64,
)
    requires
        items_of(data, field, max_items) is Ok,
        items_of(data, field, max_items)->Ok_0.len() + 1 <= larger,
        item.len() <= u32::MAX,
    ensures
        items_of(data + item_bytes(item), field, larger) == Ok::<Seq<Seq<u8>>, Failure>(
            items_of(data, field, max_items)->Ok_0.push(item),
        ),
{
    let more = item_bytes(item);
    let whole = data + more;
    let items = items_of(data, field, max_items)->Ok_0;
    longer_array(data, more, field, max_items, larger, 0, Seq::empty());
    let at = data.len() as int;
    let prefix = bytes::le32_bytes(item.len() as u32);
    bytes::number_bytes_round_trip(item.len() as u32);
    assert(whole[at] == prefix[0]);
    assert(whole[at + 1] == prefix[1]);
    assert(whole[at + 2] == prefix[2]);
    assert(whole[at + 3] == prefix[3]);
    assert(bytes::le32(whole, at) == bytes::le32(prefix, 0));
    assert(whole.subrange(at + 4, at + 4 + item.len()) =~= item);
    assert(whole.len() == at + 4 + item.len());
    assert(items_from(whole, field, larger, at, items) == items_from(
        whole,
        field,
        larger,
        at + 4 + item.len(),
        items.push(item),
    ));
}

/// Items that are written as an array are read back.
pub proof fn written_items_read_back(items: Seq<Seq<u8>>, field: Seq<char>, max_items: u64)
    requires
        items_fit(items),
        items.len() <= max_items,
    ensures
        items_of(array_bytes(items), field, max_items) == Ok::<Seq<Seq<u8>>, Failure>(items),
    decreases items.len(),
{
    if items.len() > 0 {
        let before = items.drop_last();
        written_items_read_back(before, field, max_items);
        appended_item_reads_back(
            array_bytes(before),
            items.last(),
            field,
            max_items,
            max_items,
        );
        assert(before.push(items.last()) =~= items);
    } else {
        assert(items =~= Seq::empty());
    }
}

/// Reads the items of an array.
pub fn split_array(data: &[u8], field: &str, max_items: u64) -> (items: Result<Vec<Vec<u8>>, Error>)
    ensures
        error::listed(items) == items_of(data@, field@, max_items),
{
    assert(data.len() == data@.len());
    let mut items: Vec<Vec<u8>> = Vec::new();
    let mut at: usize = 0;
    assert(error::views(items@) =~= Seq::<Seq<u8>>::empty());
    while at < data.len()
        invariant
            at <= data@.len(),
            data.len() == data@.len(),
            4 * items@.len() <= at,
            items_of(data@, field@, max_items) == items_from(
                data@,
                field@,
                max_items,
                at as int,
                error::views(items@),
            ),
        decreases data@.len() - at,
    {
        let count: u64 = items.len() as u64;
        if count >= max_items {
            return Err(Error::limit("text objects per layer", count + 2, max_items + 1));
        }
        if data.len() - at < 4 {
            return Err(
                Error::InvalidDocument {
                    reason: Message::new(field).text(" ends inside a length prefix").build(),
                },
            );
        }
        let length: u32 = read_le32(data, at);
        if length as u64 > (data.len() - at - 4) as u64 {
            return Err(
                Error::InvalidDocument {
                    reason: Message::new(field).text(
                        " item extends beyond the stored array",
                    ).build(),
                },
            );
        }
        let end: usize = at + 4 + length as usize;
        let item = copy_bytes(data, at + 4, end);
        proof {
            error::views_push(items@, item);
        }
        items.push(item);
        at = end;
    }
    Ok(items)
}

/// Writes items as an array.
pub fn encode_array(items: &[Vec<u8>]) -> (data: Result<Vec<u8>, Error>)
    ensures
        error::outcome(data) == if items_fit(error::views(items@)) {
            Ok::<Seq<u8>, Failure>(array_bytes(error::views(items@)))
        } else {
            Err(Failure::OffsetOverflow)
        },
{
    let ghost models = error::views(items@);
    let mut data: Vec<u8> = Vec::new();
    let mut at: usize = 0;
    assert(models.take(0) =~= Seq::<Seq<u8>>::empty());
    assert(data@ =~= array_bytes(models.take(0)));
    while at < items.len()
        invariant
            at <= items@.len(),
            models == error::views(items@),
            data@ == array_bytes(models.take(at as int)),
            forall|i: int| 0 <= i < at ==> (#[trigger] models[i]).len() <= u32::MAX,
        decreases items@.len() - at,
    {
        assert(models[at as int] == items@[at as int]@);
        let length: usize = items[at].len();
        if length as u64 > u32::MAX as u64 {
            assert(models[at as int].len() > u32::MAX);
            return Err(Error::OffsetOverflow);
        }
        assert(models.take(at + 1).drop_last() =~= models.take(at as int));
        assert(models.take(at + 1).last() == models[at as int]);
        let ghost before = data@;
        push_le32(&mut data, length as u32);
        push_bytes(&mut data, items[at].as_slice());
        at = at + 1;
        assert(data@ =~= before + item_bytes(models[at - 1]));
    }
    assert(models.take(at as int) =~= models);
    Ok(data)
}

/// The bytes of an array, where no array stands for one without items.
pub open spec fn stored_array(existing: Option<Seq<u8>>) -> Seq<u8> {
    match existing {
        Some(data) => data,
        None => Seq::empty(),
    }
}

/// Appends an item to an array.
pub fn append_array_item(existing: Option<&Vec<u8>>, item: &[u8]) -> (data: Result<Vec<u8>, Error>)
    ensures
        error::outcome(data) == if item@.len() > u32::MAX {
            Err::<Seq<u8>, Failure>(Failure::OffsetOverflow)
        } else {
            Ok(
                stored_array(
                    match existing {
                        Some(data) => Some(data@),
                        None => None,
                    },
                ) + item_bytes(item@),
            )
        },
{
    assert(item.len() == item@.len());
    if item.len() as u64 > u32::MAX as u64 {
        return Err(Error::OffsetOverflow);
    }
    let mut data: Vec<u8> = Vec::new();
    assert(data@ =~= Seq::<u8>::empty());
    if let Some(existing) = existing {
        push_bytes(&mut data, existing.as_slice());
        assert(data@ =~= existing@);
    }
    let ghost before = data@;
    push_le32(&mut data, item.len() as u32);
    push_bytes(&mut data, item);
    assert(data@ =~= before + item_bytes(item@));
    Ok(data)
}

/// How many bytes a character takes in UTF-8.
pub open spec fn utf8_width(character: char) -> int {
    let code = character as u32;
    if code < 0x80 {
        1
    } else if code < 0x800 {
        2
    } else if code < 0x1_0000 {
        3
    } else {
        4
    }
}

/// How many units a character takes in UTF-16.
pub open spec fn utf16_width(character: char) -> int {
    if (character as u32) < 0x1_0000 {
        1
    } else {
        2
    }
}

/// Whether two texts have characters of the same widths throughout.
pub open spec fn same_widths(left: Seq<char>, right: Seq<char>) -> bool {
    left.len() == right.len() && forall|i: int|
        0 <= i < left.len() ==> utf8_width(#[trigger] left[i]) == utf8_width(right[i])
            && utf16_width(left[i]) == utf16_width(right[i])
}

fn widths(character: char) -> (widths: (u8, u8))
    ensures
        widths.0 == utf8_width(character),
        widths.1 == utf16_width(character),
{
    let code: u32 = character as u32;
    if code < 0x80 {
        (1, 1)
    } else if code < 0x800 {
        (2, 1)
    } else if code < 0x1_0000 {
        (3, 1)
    } else {
        (4, 2)
    }
}

/// Whether two texts have characters of the same widths throughout.
pub fn same_character_encoding_widths(template: &str, replacement: &str) -> (same: bool)
    ensures
        same == same_widths(template@, replacement@),
{
    let left = characters(template);
    let right = characters(replacement);
    if left.len() != right.len() {
        return false;
    }
    let mut at: usize = 0;
    while at < left.len()
        invariant
            at <= left@.len(),
            left@.len() == right@.len(),
            left@ == template@,
            right@ == replacement@,
            forall|i: int|
                0 <= i < at ==> utf8_width(#[trigger] left@[i]) == utf8_width(right@[i])
                    && utf16_width(left@[i]) == utf16_width(right@[i]),
        decreases left@.len() - at,
    {
        let (left_bytes, left_units) = widths(left[at]);
        let (right_bytes, right_units) = widths(right[at]);
        if left_bytes != right_bytes || left_units != right_units {
            return false;
        }
        at = at + 1;
    }
    true
}

proof fn encoded_width(character: char)
    ensures
        utf8::encode_scalar(character as u32).len() == utf8_width(character),
{
    utf8::char_is_scalar(character);
}

/// A text whose characters have the widths of another takes as many bytes.
pub proof fn same_widths_same_size(left: Seq<char>, right: Seq<char>)
    requires
        same_widths(left, right),
    ensures
        utf8::encode_utf8(left).len() == utf8::encode_utf8(right).len(),
    decreases left.len(),
{
    if left.len() > 0 {
        encoded_width(left[0]);
        encoded_width(right[0]);
        assert(utf8_width(left[0]) == utf8_width(right[0]));
        assert forall|i: int| 0 <= i < left.drop_first().len() implies utf8_width(
            #[trigger] left.drop_first()[i],
        ) == utf8_width(right.drop_first()[i]) && utf16_width(left.drop_first()[i]) == utf16_width(
            right.drop_first()[i],
        ) by {
            assert(left.drop_first()[i] == left[i + 1]);
        }
        same_widths_same_size(left.drop_first(), right.drop_first());
    }
}

/// The value and the position of the object identifier in an attribute record, from the
/// parameter at `at` on, where `found` was found before.
pub open spec fn identifier_from(data: Seq<u8>, at: int, found: Option<(u32, int)>) -> Result<
    (u32, int),
    Failure,
>
    decreases data.len() - at,
    when 0 <= at
{
    if at >= data.len() {
        match found {
            Some(found) => Ok(found),
            None => Err(
                Failure::InvalidWrite {
                    reason: "text attributes have no object identifier parameter 50"@,
                },
            ),
        }
    } else if at + 8 > data.len() {
        if at + 8 > usize::MAX {
            Err(Failure::OffsetOverflow)
        } else {
            Err(
                Failure::InvalidWrite {
                    reason: "text attributes end inside a parameter header"@,
                },
            )
        }
    } else {
        let kind = bytes::le32(data, at);
        let size = bytes::le32(data, at + 4);
        let end = at + 8 + size;
        if end > data.len() {
            if end > usize::MAX {
                Err(Failure::OffsetOverflow)
            } else {
                Err(
                    Failure::InvalidWrite {
                        reason: "text attribute parameter "@ + message::decimal(kind as nat)
                            + " exceeds its blob"@,
                    },
                )
            }
        } else if kind == 50 {
            if size != 4 {
                Err(
                    Failure::InvalidWrite {
                        reason: "text object identifier parameter has "@ + message::decimal(size as nat)
                            + " bytes instead of 4"@,
                    },
                )
            } else if found is Some {
                Err(
                    Failure::InvalidWrite {
                        reason: "text attributes repeat object identifier parameter 50"@,
                    },
                )
            } else {
                identifier_from(data, end, Some((bytes::le32(data, at + 8) as u32, at + 8)))
            }
        } else {
            identifier_from(data, end, found)
        }
    }
}

/// The value and the position of the object identifier in an attribute record, which is
/// parameter 50.
pub open spec fn identifier_of(data: Seq<u8>) -> Result<(u32, int), Failure> {
    identifier_from(data, 0, None)
}

/// Finds the object identifier in an attribute record, and where it stands.
pub fn text_attribute_identifier(attributes: &[u8]) -> (identifier: Result<(u32, usize), Error>)
    ensures
        match identifier {
            Ok((value, at)) => identifier_of(attributes@) == Ok::<(u32, int), Failure>(
                (value, at as int),
            ) && at + 4 <= attributes@.len(),
            Err(error) => identifier_of(attributes@) == Err::<(u32, int), Failure>(error@),
        },
{
    assert(attributes.len() == attributes@.len());
    let length: usize = attributes.len();
    let mut at: usize = 0;
    let mut found: Option<(u32, usize)> = None;
    while at < length
        invariant
            at <= length,
            length == attributes@.len(),
            length == attributes.len(),
            found matches Some(found) ==> found.1 + 4 <= length,
            identifier_of(attributes@) == identifier_from(
                attributes@,
                at as int,
                match found {
                    Some((value, position)) => Some((value, position as int)),
                    None => None,
                },
            ),
        decreases length - at,
    {
        let header_end: usize = match at.checked_add(8) {
            Some(end) => end,
            None => return Err(Error::OffsetOverflow),
        };
        if header_end > length {
            return Err(
                invalid_write(Message::new("text attributes end inside a parameter header")),
            );
        }
        let kind: u32 = read_le32(attributes, at);
        let size: u32 = read_le32(attributes, at + 4);
        let end: usize = match header_end.checked_add(size as usize) {
            Some(end) => end,
            None => return Err(Error::OffsetOverflow),
        };
        if end > length {
            return Err(
                invalid_write(
                    Message::new("text attribute parameter ").number(kind as u64).text(
                        " exceeds its blob",
                    ),
                ),
            );
        }
        if kind == 50 {
            if size != 4 {
                return Err(
                    invalid_write(
                        Message::new("text object identifier parameter has ").number(
                            size as u64,
                        ).text(" bytes instead of 4"),
                    ),
                );
            }
            if found.is_some() {
                return Err(
                    invalid_write(
                        Message::new("text attributes repeat object identifier parameter 50"),
                    ),
                );
            }
            found = Some((read_le32(attributes, header_end), header_end));
        }
        at = end;
    }
    match found {
        Some(found) => Ok(found),
        None => Err(
            invalid_write(
                Message::new("text attributes have no object identifier parameter 50"),
            ),
        ),
    }
}

/// An attribute record with another object identifier.
pub open spec fn with_identifier(data: Seq<u8>, at: int, identifier: u32) -> Seq<u8> {
    data.take(at) + bytes::le32_bytes(identifier) + data.skip(at + 4)
}

proof fn identifier_position(data: Seq<u8>, at: int, found: Option<(u32, int)>)
    requires
        0 <= at <= data.len(),
        identifier_from(data, at, found) is Ok,
    ensures
        ({
            let (value, position) = identifier_from(data, at, found)->Ok_0;
            match found {
                Some(found) => found == (value, position),
                None => at + 8 <= position && position + 4 <= data.len() && value == bytes::le32(
                    data,
                    position,
                ),
            }
        }),
    decreases data.len() - at,
{
    if at < data.len() {
        let kind = bytes::le32(data, at);
        let size = bytes::le32(data, at + 4);
        let end = at + 8 + size;
        if kind == 50 {
            identifier_position(
                data,
                end,
                Some((bytes::le32(data, at + 8) as u32, at + 8)),
            );
        } else {
            identifier_position(data, end, found);
        }
    }
}

proof fn replaced_walk(
    data: Seq<u8>,
    changed: Seq<u8>,
    position: int,
    identifier: u32,
    at: int,
    found: Option<(u32, int)>,
)
    requires
        0 <= at <= data.len(),
        changed.len() == data.len(),
        identifier_from(data, at, found) is Ok,
        identifier_from(data, at, found)->Ok_0.1 == position,
        forall|i: int|
            0 <= i < data.len() && !(position <= i < position + 4) ==> changed[i] == data[i],
        bytes::le32(changed, position) == identifier,
        found is Some ==> position + 4 <= at,
    ensures
        identifier_from(
            changed,
            at,
            match found {
                Some(_) => Some((identifier, position)),
                None => None,
            },
        ) == Ok::<(u32, int), Failure>((identifier, position)),
    decreases data.len() - at,
{
    identifier_position(data, at, found);
    if at < data.len() {
        let kind = bytes::le32(data, at);
        let size = bytes::le32(data, at + 4);
        let end = at + 8 + size;
        assert(bytes::le32(changed, at) == kind);
        assert(bytes::le32(changed, at + 4) == size);
        if kind == 50 {
            let next = Some((bytes::le32(data, at + 8) as u32, at + 8));
            identifier_position(data, end, next);
            replaced_walk(data, changed, position, identifier, end, next);
        } else {
            identifier_position(data, end, found);
            replaced_walk(data, changed, position, identifier, end, found);
        }
    }
}

/// An object identifier that was put into an attribute record is found there, in the same
/// place, and the rest of the record is unchanged.
pub proof fn replaced_identifier_reads_back(data: Seq<u8>, identifier: u32)
    requires
        identifier_of(data) is Ok,
    ensures
        ({
            let at = identifier_of(data)->Ok_0.1;
            let changed = with_identifier(data, at, identifier);
            &&& identifier_of(changed) == Ok::<(u32, int), Failure>((identifier, at))
            &&& changed.len() == data.len()
            &&& changed.take(at) == data.take(at)
            &&& changed.skip(at + 4) == data.skip(at + 4)
        }),
{
    identifier_position(data, 0, None);
    let at = identifier_of(data)->Ok_0.1;
    let changed = with_identifier(data, at, identifier);
    let field = bytes::le32_bytes(identifier);
    bytes::number_bytes_round_trip(identifier);
    assert(changed[at] == field[0]);
    assert(changed[at + 1] == field[1]);
    assert(changed[at + 2] == field[2]);
    assert(changed[at + 3] == field[3]);
    assert(bytes::le32(changed, at) == bytes::le32(field, 0));
    replaced_walk(data, changed, at, identifier, 0, None);
    assert(changed.take(at) =~= data.take(at));
    assert(changed.skip(at + 4) =~= data.skip(at + 4));
}

/// Replaces the object identifier of an attribute record, and returns the one before.
pub fn replace_text_attribute_identifier(attributes: &mut Vec<u8>, identifier: u32) -> (original:
    Result<u32, Error>)
    ensures
        match original {
            Ok(original) => identifier_of(old(attributes)@) matches Ok(found) && original == found.0
                && final(attributes)@ == with_identifier(old(attributes)@, found.1, identifier),
            Err(error) => identifier_of(old(attributes)@) == Err::<(u32, int), Failure>(error@)
                && final(attributes)@ == old(attributes)@,
        },
{
    let ghost before = attributes@;
    let (original, at) = text_attribute_identifier(attributes.as_slice())?;
    let mut changed = copy_bytes(attributes.as_slice(), 0, at);
    push_le32(&mut changed, identifier);
    let length: usize = attributes.len();
    let rest = copy_bytes(attributes.as_slice(), at + 4, length);
    push_bytes(&mut changed, rest.as_slice());
    assert(changed@ =~= with_identifier(before, at as int, identifier));
    *attributes = changed;
    Ok(original)
}

} // verus!
