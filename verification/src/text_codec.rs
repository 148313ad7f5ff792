//! Text in UTF-8 and UTF-16, and comparison of texts.

use vstd::prelude::*;
use vstd::utf8;

use crate::bytes;
use crate::bytes::{read_be16, same_bytes};

verus! {

/// `std::str::from_utf8`: the text that the bytes encode, exactly when they are
/// valid UTF-8.
#[verifier::external_body]
fn from_utf8(bytes: &[u8]) -> (text: Option<&str>)
    ensures
        text is Some <==> utf8::valid_utf8(bytes@),
        text matches Some(text) ==> text@ == utf8::decode_utf8(bytes@),
{
    std::str::from_utf8(bytes).ok()
}

/// `char::from_u32`: the character with this code point, exactly when it is a
/// Unicode scalar value.
pub assume_specification[ char::from_u32 ](code: u32) -> (character: Option<char>)
    ensures
        character is Some <==> (code < 0xd800 || 0xe000 <= code <= 0x10ffff),
        character matches Some(character) ==> character as u32 == code,
;

/// The text that bytes encode in UTF-8, when they are valid.
pub open spec fn utf8_text(bytes: Seq<u8>) -> Option<Seq<char>> {
    if utf8::valid_utf8(bytes) {
        Some(utf8::decode_utf8(bytes))
    } else {
        None
    }
}

/// Decodes UTF-8.
pub fn decode_utf8(bytes: &[u8]) -> (text: Option<String>)
    ensures
        crate::error::optional_text(text) == utf8_text(bytes@),
{
    match from_utf8(bytes) {
        Some(text) => Some(text.to_owned()),
        None => None,
    }
}

/// Whether two texts are equal.
pub fn same_text(left: &str, right: &str) -> (same: bool)
    ensures
        same == (left@ == right@),
{
    let same: bool = same_bytes(left.as_bytes(), right.as_bytes());
    proof {
        utf8::encode_utf8_decode_utf8(left@);
        utf8::encode_utf8_decode_utf8(right@);
    }
    same
}

/// The UTF-16 code units of `count` pairs of bytes at `at`.
pub open spec fn units_at(data: Seq<u8>, at: int, count: nat) -> Seq<u16> {
    Seq::new(count, |i: int| bytes::be16(data, at + 2 * i) as u16)
}

pub open spec fn high_surrogate(unit: u16) -> bool {
    0xd800 <= unit < 0xdc00
}

pub open spec fn low_surrogate(unit: u16) -> bool {
    0xdc00 <= unit < 0xe000
}

/// The character that a pair of surrogates encodes.
pub open spec fn paired(high: u16, low: u16) -> char {
    (0x1_0000 + (high - 0xd800) * 0x400 + (low - 0xdc00)) as u32 as char
}

/// The text that UTF-16 code units encode from `from` on, after `found`; `None`
/// when a surrogate stands alone.
pub open spec fn utf16_from(units: Seq<u16>, from: int, found: Seq<char>) -> Option<Seq<char>>
    decreases units.len() - from,
{
    if from >= units.len() {
        Some(found)
    } else if !high_surrogate(units[from]) && !low_surrogate(units[from]) {
        utf16_from(units, from + 1, found.push(units[from] as u32 as char))
    } else if high_surrogate(units[from]) && from + 1 < units.len() && low_surrogate(
        units[from + 1],
    ) {
        utf16_from(units, from + 2, found.push(paired(units[from], units[from + 1])))
    } else {
        None
    }
}

/// The text that UTF-16 code units encode.
pub open spec fn utf16_text(units: Seq<u16>) -> Option<Seq<char>> {
    utf16_from(units, 0, Seq::empty())
}

/// Decodes `count` big-endian UTF-16 code units at `at`.
pub fn decode_utf16be(data: &[u8], at: usize, count: usize) -> (text: Option<String>)
    requires
        at + 2 * count <= data@.len(),
    ensures
        crate::error::optional_text(text) == utf16_text(units_at(data@, at as int, count as nat)),
{
    assert(data.len() == data@.len());
    let ghost units = units_at(data@, at as int, count as nat);
    let mut text = String::new();
    let mut index: usize = 0;
    proof {
        assert(text@ =~= Seq::empty());
    }
    while index < count
        invariant
            index <= count,
            at + 2 * count <= data@.len(),
            data@.len() == data.len(),
            units == units_at(data@, at as int, count as nat),
            utf16_text(units) == utf16_from(units, index as int, text@),
        decreases count - index,
    {
        let unit: u16 = read_be16(data, at + 2 * index);
        assert(unit == units[index as int]);
        if unit < 0xd800 || unit >= 0xe000 {
            match char::from_u32(unit as u32) {
                Some(character) => {
                    proof {
                        utf8::char_u32_cast(character, unit as u32);
                    }
                    text.push(character);
                },
                None => return None,
            }
            index += 1;
        } else {
            if unit >= 0xdc00 || index + 1 >= count {
                return None;
            }
            let low: u16 = read_be16(data, at + 2 * (index + 1));
            assert(low == units[index + 1]);
            if low < 0xdc00 || low >= 0xe000 {
                return None;
            }
            let code: u32 = 0x1_0000 + (unit as u32 - 0xd800) * 0x400 + (low as u32 - 0xdc00);
            match char::from_u32(code) {
                Some(character) => {
                    proof {
                        utf8::char_u32_cast(character, code);
                    }
                    text.push(character);
                },
                None => return None,
            }
            index += 2;
        }
    }
    Some(text)
}

/// Whether a byte string precedes another in lexicographic order.
pub open spec fn precedes(left: Seq<u8>, right: Seq<u8>) -> bool
    decreases right.len(),
{
    if right.len() == 0 {
        false
    } else if left.len() == 0 {
        true
    } else if left[0] != right[0] {
        left[0] < right[0]
    } else {
        precedes(left.drop_first(), right.drop_first())
    }
}

pub proof fn precedes_is_an_order(a: Seq<u8>, b: Seq<u8>, c: Seq<u8>)
    ensures
        !precedes(a, a),
        precedes(a, b) && precedes(b, c) ==> precedes(a, c),
        a == b || precedes(a, b) || precedes(b, a),
        !(precedes(a, b) && precedes(b, a)),
    decreases a.len() + b.len() + c.len(),
{
    if a.len() > 0 && b.len() > 0 && c.len() > 0 {
        precedes_is_an_order(a.drop_first(), b.drop_first(), c.drop_first());
        if a[0] == b[0] && a.drop_first() == b.drop_first() {
            assert(a =~= b) by {
                assert forall|i: int| 0 <= i < a.len() implies a[i] == b[i] by {
                    if i > 0 {
                        assert(a.drop_first()[i - 1] == b.drop_first()[i - 1]);
                    }
                }
            }
        }
    } else if a.len() > 0 && b.len() > 0 {
        precedes_is_an_order(a.drop_first(), b.drop_first(), c);
        if a[0] == b[0] && a.drop_first() == b.drop_first() {
            assert(a =~= b) by {
                assert forall|i: int| 0 <= i < a.len() implies a[i] == b[i] by {
                    if i > 0 {
                        assert(a.drop_first()[i - 1] == b.drop_first()[i - 1]);
                    }
                }
            }
        }
    } else if a.len() == 0 && b.len() == 0 {
        assert(a =~= b);
    } else if a.len() > 0 {
        precedes_is_an_order(a.drop_first(), b, c);
    }
}

/// Whether a byte string precedes another in lexicographic order.
pub fn bytes_precede(left: &[u8], right: &[u8]) -> (first: bool)
    ensures
        first == precedes(left@, right@),
{
    let mut index: usize = 0;
    proof {
        assert(left@.skip(0) =~= left@);
        assert(right@.skip(0) =~= right@);
    }
    loop
        invariant
            index <= left@.len(),
            index <= right@.len(),
            precedes(left@, right@) == precedes(
                left@.skip(index as int),
                right@.skip(index as int),
            ),
        decreases right@.len() - index,
    {
        if index == right.len() {
            return false;
        }
        if index == left.len() {
            return true;
        }
        if left[index] != right[index] {
            return left[index] < right[index];
        }
        proof {
            assert(left@.skip(index as int).drop_first() =~= left@.skip(index + 1));
            assert(right@.skip(index as int).drop_first() =~= right@.skip(index + 1));
        }
        index += 1;
    }
}

/// The characters of a text, in order.
pub fn characters(text: &str) -> (list: Vec<char>)
    ensures
        list@ == text@,
{
    let mut list: Vec<char> = Vec::new();
    for character in iter: text.chars()
        invariant
            iter.seq() == text@,
            list@ == text@.take(iter.index() as int),
    {
        list.push(character);
        assert(list@ =~= text@.take(iter.index() + 1));
    }
    assert(text@.take(text@.len() as int) =~= text@);
    list
}

/// The text that a range of characters makes up.
pub fn text_of(list: &[char], start: usize, end: usize) -> (text: String)
    requires
        start <= end <= list@.len(),
    ensures
        text@ == list@.subrange(start as int, end as int),
{
    let mut text = String::new();
    let mut at: usize = start;
    assert(text@ =~= list@.subrange(start as int, start as int));
    while at < end
        invariant
            start <= at <= end <= list@.len(),
            text@ == list@.subrange(start as int, at as int),
        decreases end - at,
    {
        text.push(list[at]);
        at = at + 1;
        assert(text@ =~= list@.subrange(start as int, at as int));
    }
    text
}

/// The UTF-16 code units of a character: its number, or a pair of surrogates for the bits above
/// the lower sixteen.
pub open spec fn character_units(character: char) -> Seq<u16> {
    let number = character as u32;
    if number < 0x1_0000 {
        seq![number as u16]
    } else {
        seq![
            (0xd800 + (number - 0x1_0000) / 0x400) as u16,
            (0xdc00 + (number - 0x1_0000) % 0x400) as u16,
        ]
    }
}

/// The UTF-16 code units of a text.
pub open spec fn text_units(text: Seq<char>) -> Seq<u16>
    decreases text.len(),
{
    if text.len() == 0 {
        Seq::empty()
    } else {
        character_units(text[0]) + text_units(text.skip(1))
    }
}

proof fn units_decode(before: Seq<u16>, found: Seq<char>, text: Seq<char>)
    ensures
        utf16_from(before + text_units(text), before.len() as int, found) == Some(found + text),
    decreases text.len(),
{
    let units = before + text_units(text);
    if text.len() == 0 {
        assert(found + text =~= found);
    } else {
        let character = text[0];
        let first = character_units(character);
        let rest = text.skip(1);
        let more = before + first;
        assert(units =~= more + text_units(rest));
        units_decode(more, found.push(character), rest);
        assert(found.push(character) + rest =~= found + text);
        let number = character as u32;
        vstd::utf8::char_is_scalar(character);
        assert(number < 0xd800 || 0xe000 <= number <= 0x10_ffff);
        vstd::utf8::char_u32_cast(character, number);
        assert(units[before.len() as int] == first[0]);
        if number >= 0x1_0000 {
            assert(units[before.len() + 1int] == first[1]);
        }
    }
}

/// The UTF-16 code units of a text decode to the text.
pub proof fn utf16_decodes_what_was_encoded(text: Seq<char>)
    ensures
        utf16_text(text_units(text)) == Some(text),
{
    units_decode(Seq::empty(), Seq::empty(), text);
    assert(Seq::<u16>::empty() + text_units(text) =~= text_units(text));
    assert(Seq::<char>::empty() + text =~= text);
}

} // verus!
