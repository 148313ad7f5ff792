//! Numbers as bytes, and bytes laid out one part after the other.

use vstd::prelude::*;

use crate::bytes;

verus! {

/// The two bytes of a number, most significant first.
pub open spec fn word16(value: u16) -> Seq<u8> {
    seq![(value / 0x100) as u8, (value % 0x100) as u8]
}

/// The four bytes of a number, most significant first.
pub open spec fn word32(value: u32) -> Seq<u8> {
    seq![
        (value / 0x100_0000) as u8,
        (value / 0x1_0000 % 0x100) as u8,
        (value / 0x100 % 0x100) as u8,
        (value % 0x100) as u8,
    ]
}

/// The four bytes of a number, least significant first.
pub open spec fn word32_reversed(value: u32) -> Seq<u8> {
    seq![
        (value % 0x100) as u8,
        (value / 0x100 % 0x100) as u8,
        (value / 0x1_0000 % 0x100) as u8,
        (value / 0x100_0000) as u8,
    ]
}

/// The eight bytes of a number, most significant first.
pub open spec fn word64(value: u64) -> Seq<u8> {
    word32((value / 0x1_0000_0000) as u32) + word32((value % 0x1_0000_0000) as u32)
}

/// The eight bytes of a number, least significant first.
pub open spec fn word64_reversed(value: u64) -> Seq<u8> {
    word32_reversed((value % 0x1_0000_0000) as u32) + word32_reversed(
        (value / 0x1_0000_0000) as u32,
    )
}

/// The four bytes of a number in two's complement, most significant first.
pub open spec fn signed32(value: i32) -> Seq<u8> {
    word32(
        if value < 0 {
            (value + 0x1_0000_0000) as u32
        } else {
            value as u32
        },
    )
}

/// The two bytes of a number in two's complement, most significant first.
pub open spec fn signed16(value: i16) -> Seq<u8> {
    word16(
        if value < 0 {
            (value + 0x1_0000) as u16
        } else {
            value as u16
        },
    )
}

/// Parts one after the other.
pub open spec fn laid_out(parts: Seq<Seq<u8>>) -> Seq<u8>
    decreases parts.len(),
{
    if parts.len() == 0 {
        Seq::empty()
    } else {
        laid_out(parts.drop_last()) + parts.last()
    }
}

/// Whether data holds a part at a position.
#[verifier::opaque]
pub open spec fn holds(data: Seq<u8>, at: int, part: Seq<u8>) -> bool {
    &&& 0 <= at
    &&& at + part.len() <= data.len()
    &&& forall|i: int| 0 <= i < part.len() ==> #[trigger] part[i] == data[at + i]
}

/// A number that data holds reads back from there.
pub proof fn held_numbers_read_back(data: Seq<u8>, at: int)
    ensures
        forall|value: u16| #[trigger]
            holds(data, at, word16(value)) ==> bytes::be16(data, at) == value,
        forall|value: u32| #[trigger]
            holds(data, at, word32(value)) ==> bytes::be32(data, at) == value,
        forall|value: u64| #[trigger]
            holds(data, at, word64(value)) ==> bytes::be64(data, at) == value,
        forall|value: i32| #[trigger]
            holds(data, at, signed32(value)) ==> bytes::be32_signed(data, at) == value,
        forall|value: i16| #[trigger]
            holds(data, at, signed16(value)) ==> bytes::be16_signed(data, at) == value,
        forall|value: u32| #[trigger]
            holds(data, at, word32_reversed(value)) ==> bytes::le32(data, at) == value,
        forall|value: u64| #[trigger]
            holds(data, at, word64_reversed(value)) ==> bytes::le64(data, at) == value,
{
    reveal(holds);
    assert forall|value: u16| #[trigger] holds(data, at, word16(value)) implies bytes::be16(
        data,
        at,
    ) == value by {
        assert(word16(value)[0] == data[at + 0]);
        assert(word16(value)[1] == data[at + 1]);
    }
    assert forall|value: u32| #[trigger] holds(data, at, word32(value)) implies bytes::be32(
        data,
        at,
    ) == value by {
        held_word32(data, at, value);
    }
    assert forall|value: i32| #[trigger] holds(
        data,
        at,
        signed32(value),
    ) implies bytes::be32_signed(data, at) == value by {
        held_word32(
            data,
            at,
            if value < 0 {
                (value + 0x1_0000_0000) as u32
            } else {
                value as u32
            },
        );
    }
    assert forall|value: i16| #[trigger] holds(
        data,
        at,
        signed16(value),
    ) implies bytes::be16_signed(data, at) == value by {
        assert(signed16(value)[0] == data[at + 0]);
        assert(signed16(value)[1] == data[at + 1]);
    }
    assert forall|value: u32| #[trigger] holds(
        data,
        at,
        word32_reversed(value),
    ) implies bytes::le32(data, at) == value by {
        held_word32_reversed(data, at, value);
    }
    assert forall|value: u64| #[trigger] holds(data, at, word64(value)) implies bytes::be64(
        data,
        at,
    ) == value by {
        let high = word32((value / 0x1_0000_0000) as u32);
        let low = word32((value % 0x1_0000_0000) as u32);
        assert forall|i: int| 0 <= i < 4 implies #[trigger] high[i] == data[at + i] by {
            assert(word64(value)[i] == high[i]);
        }
        assert forall|i: int| 0 <= i < 4 implies #[trigger] low[i] == data[at + 4 + i] by {
            assert(word64(value)[4 + i] == low[i]);
        }
        held_word32(data, at, (value / 0x1_0000_0000) as u32);
        held_word32(data, at + 4, (value % 0x1_0000_0000) as u32);
    }
    assert forall|value: u64| #[trigger] holds(
        data,
        at,
        word64_reversed(value),
    ) implies bytes::le64(data, at) == value by {
        let low = word32_reversed((value % 0x1_0000_0000) as u32);
        let high = word32_reversed((value / 0x1_0000_0000) as u32);
        assert forall|i: int| 0 <= i < 4 implies #[trigger] low[i] == data[at + i] by {
            assert(word64_reversed(value)[i] == low[i]);
        }
        assert forall|i: int| 0 <= i < 4 implies #[trigger] high[i] == data[at + 4 + i] by {
            assert(word64_reversed(value)[4 + i] == high[i]);
        }
        held_word32_reversed(data, at, (value % 0x1_0000_0000) as u32);
        held_word32_reversed(data, at + 4, (value / 0x1_0000_0000) as u32);
    }
}

proof fn held_word32(data: Seq<u8>, at: int, value: u32)
    requires
        holds(data, at, word32(value)),
    ensures
        bytes::be32(data, at) == value,
{
    reveal(holds);
    assert(word32(value)[0] == data[at + 0]);
    assert(word32(value)[1] == data[at + 1]);
    assert(word32(value)[2] == data[at + 2]);
    assert(word32(value)[3] == data[at + 3]);
}

proof fn held_word32_reversed(data: Seq<u8>, at: int, value: u32)
    requires
        holds(data, at, word32_reversed(value)),
    ensures
        bytes::le32(data, at) == value,
{
    reveal(holds);
    assert(word32_reversed(value)[0] == data[at + 0]);
    assert(word32_reversed(value)[1] == data[at + 1]);
    assert(word32_reversed(value)[2] == data[at + 2]);
    assert(word32_reversed(value)[3] == data[at + 3]);
}

/// The bytes of a number that is read from data stand there.
pub proof fn read_numbers_are_held(data: Seq<u8>, at: int)
    requires
        0 <= at,
    ensures
        at + 2 <= data.len() ==> holds(data, at, word16(bytes::be16(data, at) as u16)),
        at + 4 <= data.len() ==> holds(data, at, word32(bytes::be32(data, at) as u32)),
        at + 4 <= data.len() ==> holds(data, at, word32_reversed(bytes::le32(data, at) as u32)),
        at + 8 <= data.len() ==> holds(data, at, word64(bytes::be64(data, at) as u64)),
{
    reveal(holds);
    if at + 2 <= data.len() {
        let value = bytes::be16(data, at) as u16;
        assert(value / 0x100 == data[at]);
        assert(value % 0x100 == data[at + 1]);
        assert forall|i: int| 0 <= i < 2 implies #[trigger] word16(value)[i] == data[at + i] by {}
    }
    if at + 4 <= data.len() {
        read_word32_is_held(data, at);
        let value = bytes::le32(data, at) as u32;
        assert(value % 0x100 == data[at]);
        assert(value / 0x100 % 0x100 == data[at + 1]);
        assert(value / 0x1_0000 % 0x100 == data[at + 2]);
        assert(value / 0x100_0000 == data[at + 3]);
        assert forall|i: int| 0 <= i < 4 implies #[trigger] word32_reversed(value)[i] == data[at
            + i] by {}
    }
    if at + 8 <= data.len() {
        read_word32_is_held(data, at);
        read_word32_is_held(data, at + 4);
        let value = bytes::be64(data, at) as u64;
        let high = bytes::be32(data, at) as u32;
        let low = bytes::be32(data, at + 4) as u32;
        assert(value / 0x1_0000_0000 == high);
        assert(value % 0x1_0000_0000 == low);
        assert forall|i: int| 0 <= i < 8 implies #[trigger] word64(value)[i] == data[at + i] by {
            if i < 4 {
                assert(word32(high)[i] == data[at + i]);
            } else {
                assert(word32(low)[i - 4] == data[at + 4 + (i - 4)]);
            }
        }
    }
}

proof fn read_word32_is_held(data: Seq<u8>, at: int)
    requires
        0 <= at,
        at + 4 <= data.len(),
    ensures
        holds(data, at, word32(bytes::be32(data, at) as u32)),
{
    reveal(holds);
    let value = bytes::be32(data, at) as u32;
    assert(value / 0x100_0000 == data[at]);
    assert(value / 0x1_0000 % 0x100 == data[at + 1]);
    assert(value / 0x100 % 0x100 == data[at + 2]);
    assert(value % 0x100 == data[at + 3]);
    assert forall|i: int| 0 <= i < 4 implies #[trigger] word32(value)[i] == data[at + i] by {}
}

/// What a part holds, the data that holds the part holds too.
pub proof fn part_of_part(data: Seq<u8>, at: int, part: Seq<u8>, inside: int, piece: Seq<u8>)
    requires
        holds(data, at, part),
        holds(part, inside, piece),
    ensures
        holds(data, at + inside, piece),
{
    reveal(holds);
    assert forall|i: int| 0 <= i < piece.len() implies #[trigger] piece[i] == data[at + inside
        + i] by {
        assert(piece[i] == part[inside + i]);
        assert(part[inside + i] == data[at + (inside + i)]);
    }
}

/// What comes first in data, in the middle and last stands there.
pub proof fn three_parts(first: Seq<u8>, middle: Seq<u8>, last: Seq<u8>)
    ensures
        holds(first + middle + last, 0, first),
        holds(first + middle + last, first.len() as int, middle),
        holds(first + middle + last, (first.len() + middle.len()) as int, last),
{
    reveal(holds);
    let data = first + middle + last;
    assert forall|i: int| 0 <= i < first.len() implies #[trigger] first[i] == data[0 + i] by {}
    assert forall|i: int| 0 <= i < middle.len() implies #[trigger] middle[i] == data[first.len()
        + i] by {}
    assert forall|i: int| 0 <= i < last.len() implies #[trigger] last[i] == data[first.len()
        + middle.len() + i] by {}
}

/// Where a part starts, after the parts before it.
pub open spec fn start_of(parts: Seq<Seq<u8>>, at: int) -> int
    decreases at,
{
    if at <= 0 {
        0
    } else {
        start_of(parts, at - 1) + parts[at - 1].len()
    }
}

proof fn start_depends_on_front(parts: Seq<Seq<u8>>, others: Seq<Seq<u8>>, at: int)
    requires
        at <= parts.len(),
        at <= others.len(),
        forall|i: int| 0 <= i < at ==> parts[i] == others[i],
    ensures
        start_of(parts, at) == start_of(others, at),
    decreases at,
{
    if at > 0 {
        start_depends_on_front(parts, others, at - 1);
    }
}

/// Parts that are laid out one after the other stand where they start, and end with the last.
pub proof fn parts_stand_in_turn(parts: Seq<Seq<u8>>, at: int)
    requires
        0 <= at < parts.len(),
    ensures
        laid_out(parts).len() == start_of(parts, parts.len() as int),
        holds(laid_out(parts), start_of(parts, at), parts[at]),
    decreases parts.len(),
{
    reveal(holds);
    let before = parts.drop_last();
    let data = laid_out(parts);
    let part = parts[at];
    start_depends_on_front(parts, before, parts.len() - 1);
    whole_size(before);
    if at < before.len() {
        parts_stand_in_turn(before, at);
        start_depends_on_front(parts, before, at);
        assert forall|i: int| 0 <= i < part.len() implies #[trigger] part[i] == data[start_of(
            parts,
            at,
        ) + i] by {
            assert(part[i] == laid_out(before)[start_of(parts, at) + i]);
        }
    } else {
        assert forall|i: int| 0 <= i < part.len() implies #[trigger] part[i] == data[start_of(
            parts,
            at,
        ) + i] by {}
    }
}

/// Parts that are laid out take as many bytes as they have.
pub proof fn whole_size(parts: Seq<Seq<u8>>)
    ensures
        laid_out(parts).len() == start_of(parts, parts.len() as int),
    decreases parts.len(),
{
    if parts.len() > 0 {
        whole_size(parts.drop_last());
        start_depends_on_front(parts, parts.drop_last(), parts.len() - 1);
    }
}

proof fn equal_starts(parts: Seq<Seq<u8>>, width: nat, at: int)
    requires
        0 <= at <= parts.len(),
        forall|i: int| 0 <= i < parts.len() ==> (#[trigger] parts[i]).len() == width,
    ensures
        start_of(parts, at) == width * at,
    decreases at,
{
    if at > 0 {
        equal_starts(parts, width, at - 1);
        assert(width * at == width * (at - 1) + width) by (nonlinear_arith);
    } else {
        assert(width * at == 0) by (nonlinear_arith)
            requires
                at == 0,
        ;
    }
}

/// Where parts of one width stand that are laid out one after the other.
pub proof fn equal_parts(parts: Seq<Seq<u8>>, width: nat)
    requires
        forall|i: int| 0 <= i < parts.len() ==> (#[trigger] parts[i]).len() == width,
    ensures
        laid_out(parts).len() == width * parts.len(),
        forall|i: int|
            0 <= i < parts.len() ==> holds(laid_out(parts), width * i, #[trigger] parts[i]),
{
    whole_size(parts);
    equal_starts(parts, width, parts.len() as int);
    assert forall|i: int| 0 <= i < parts.len() implies holds(
        laid_out(parts),
        width * i,
        #[trigger] parts[i],
    ) by {
        parts_stand_in_turn(parts, i);
        equal_starts(parts, width, i);
    }
}

/// A part that data holds at a position is what stands there.
pub proof fn held_part(data: Seq<u8>, at: int, part: Seq<u8>)
    requires
        holds(data, at, part),
    ensures
        0 <= at,
        at + part.len() <= data.len(),
        data.subrange(at, at + part.len() as int) == part,
        forall|i: int| 0 <= i < part.len() ==> #[trigger] part[i] == data[at + i],
{
    reveal(holds);
    assert(data.subrange(at, at + part.len() as int) =~= part);
}

} // verus!
