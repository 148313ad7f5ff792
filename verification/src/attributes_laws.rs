//! Attributes as bytes, and what parsing gives back of them.

use vstd::prelude::*;

use crate::attributes;
use crate::attributes::AttributesModel;
use crate::bytes;
use crate::error::Failure;
use crate::layout;
use crate::layout::{holds, laid_out, word16, word32};
use crate::pixels::PixelFormat;
use crate::text_codec;

verus! {

/// UTF-16 code units, most significant byte first.
pub open spec fn units_bytes(units: Seq<u16>) -> Seq<u8> {
    laid_out(Seq::new(units.len(), |i: int| word16(units[i])))
}

/// A label: the number of its code units, and these.
pub open spec fn label_bytes(label: Seq<char>) -> Seq<u8> {
    word32(text_codec::text_units(label).len() as u32) + units_bytes(
        text_codec::text_units(label),
    )
}

/// Numbers, one after the other.
pub open spec fn words_bytes(words: Seq<u32>) -> Seq<u8> {
    laid_out(Seq::new(words.len(), |i: int| word32(words[i])))
}

/// The section of the parameters: the size of the bitmap, the tiles across and down, and the
/// packing.
pub open spec fn parameter_section(attributes: AttributesModel) -> Seq<u8> {
    label_bytes("Parameter"@) + words_bytes(
        seq![
            attributes.bitmap_width,
            attributes.bitmap_height,
            attributes.block_grid_width,
            attributes.block_grid_height,
        ] + attributes.packing,
    )
}

/// The section of the colors: the size of its record, the default fill, a number that is not
/// read, the number of colors, the size of a color, and the colors.
pub open spec fn color_section(attributes: AttributesModel, unread: u32) -> Seq<u8> {
    label_bytes("InitColor"@) + words_bytes(
        seq![
            20u32,
            attributes.default_fill,
            unread,
            attributes.initial_colors.len() as u32,
            4u32,
        ] + attributes.initial_colors,
    )
}

/// The section of the block sizes: the size of its record, the number of sizes, the size of a
/// size, and the sizes.
pub open spec fn size_section(attributes: AttributesModel) -> Seq<u8> {
    label_bytes("BlockSize"@) + words_bytes(
        seq![12u32, attributes.block_sizes.len() as u32, 4u32] + attributes.block_sizes,
    )
}

/// Attributes: the size of their header, the sizes of the three sections, and these.
pub open spec fn attributes_bytes(attributes: AttributesModel, unread: u32) -> Seq<u8> {
    words_bytes(
        seq![
            16u32,
            parameter_section(attributes).len() as u32,
            color_section(attributes, unread).len() as u32,
            size_section(attributes).len() as u32,
        ],
    ) + (parameter_section(attributes) + color_section(attributes, unread) + size_section(
        attributes,
    ))
}

/// Whether attributes can be written: they have sixteen packing values and a block size for each
/// tile, and the sizes of their sections fit.
pub open spec fn attributes_writable(attributes: AttributesModel, unread: u32) -> bool {
    &&& attributes.packing.len() == 16
    &&& attributes.initial_colors.len() <= u32::MAX
    &&& attributes.block_sizes.len() <= u32::MAX
    &&& attributes.block_sizes.len() == attributes.block_grid_width * attributes.block_grid_height
    &&& parameter_section(attributes).len() <= u32::MAX
    &&& color_section(attributes, unread).len() <= u32::MAX
    &&& size_section(attributes).len() <= u32::MAX
    &&& attributes_bytes(attributes, unread).len() <= usize::MAX
}

proof fn words_stand(data: Seq<u8>, at: int, words: Seq<u32>)
    requires
        holds(data, at, words_bytes(words)),
    ensures
        words_bytes(words).len() == 4 * words.len(),
        forall|i: int|
            0 <= i < words.len() ==> bytes::be32(data, at + 4 * i) == #[trigger] words[i],
{
    let parts = Seq::new(words.len(), |i: int| word32(words[i]));
    layout::equal_parts(parts, 4);
    assert forall|i: int| 0 <= i < words.len() implies bytes::be32(data, at + 4 * i)
        == #[trigger] words[i] by {
        assert(holds(laid_out(parts), 4 * i, parts[i]));
        layout::part_of_part(data, at, words_bytes(words), 4 * i, parts[i]);
        layout::held_numbers_read_back(data, at + 4 * i);
    }
}

proof fn words_size(words: Seq<u32>)
    ensures
        words_bytes(words).len() == 4 * words.len(),
{
    layout::equal_parts(Seq::new(words.len(), |i: int| word32(words[i])), 4);
}

proof fn held_parts_fit(data: Seq<u8>, at: int, part: Seq<u8>)
    requires
        holds(data, at, part),
    ensures
        0 <= at,
        at + part.len() <= data.len(),
{
    reveal(holds);
}

proof fn words_read_back(data: Seq<u8>, at: int, words: Seq<u32>, from: int, count: nat)
    requires
        holds(data, at, words_bytes(words)),
        0 <= from,
        from + count <= words.len(),
    ensures
        attributes::words_of(data, at + 4 * from, count) == Ok::<Seq<u32>, Failure>(
            words.subrange(from, from + count),
        ),
        attributes::words_at(data, at + 4 * from, count) == words.subrange(from, from + count),
{
    words_stand(data, at, words);
    held_parts_fit(data, at, words_bytes(words));
    let read = attributes::words_at(data, at + 4 * from, count);
    assert forall|i: int| 0 <= i < count implies #[trigger] read[i] == words[from + i] by {
        assert(at + 4 * from + 4 * i == at + 4 * (from + i));
    }
    assert(read =~= words.subrange(from, from + count));
}

proof fn label_reads_back(data: Seq<u8>, at: int, label: Seq<char>)
    requires
        holds(data, at, label_bytes(label)),
        text_codec::text_units(label).len() <= 100,
        data.len() <= usize::MAX,
    ensures
        attributes::label_end(data, at, label) == Ok::<int, Failure>(
            at + label_bytes(label).len(),
        ),
{
    let units = text_codec::text_units(label);
    let head = word32(units.len() as u32);
    let body = units_bytes(units);
    let parts = Seq::new(units.len(), |i: int| word16(units[i]));
    layout::equal_parts(parts, 2);
    layout::three_parts(head, body, Seq::empty());
    assert(head + body + Seq::<u8>::empty() =~= label_bytes(label));
    held_parts_fit(data, at, label_bytes(label));
    layout::part_of_part(data, at, label_bytes(label), 0, head);
    layout::part_of_part(data, at, label_bytes(label), 4, body);
    layout::held_numbers_read_back(data, at);
    let read = text_codec::units_at(data, at + 4, units.len());
    assert forall|i: int| 0 <= i < units.len() implies #[trigger] read[i] == units[i] by {
        assert(holds(laid_out(parts), 2 * i, parts[i]));
        layout::part_of_part(data, at + 4, body, 2 * i, parts[i]);
        layout::held_numbers_read_back(data, at + 4 + 2 * i);
    }
    assert(read =~= units);
    text_codec::utf16_decodes_what_was_encoded(label);
}

proof fn short_text(text: Seq<char>)
    ensures
        text_codec::text_units(text).len() <= 2 * text.len(),
    decreases text.len(),
{
    if text.len() > 0 {
        short_text(text.skip(1));
    }
}

proof fn labels_are_short()
    ensures
        text_codec::text_units("Parameter"@).len() <= 100,
        text_codec::text_units("InitColor"@).len() <= 100,
        text_codec::text_units("BlockSize"@).len() <= 100,
{
    reveal_strlit("Parameter");
    reveal_strlit("InitColor");
    reveal_strlit("BlockSize");
    short_text("Parameter"@);
    short_text("InitColor"@);
    short_text("BlockSize"@);
}

proof fn labelled_words(data: Seq<u8>, at: int, label: Seq<char>, words: Seq<u32>)
    requires
        holds(data, at, label_bytes(label) + words_bytes(words)),
        text_codec::text_units(label).len() <= 100,
        data.len() <= usize::MAX,
    ensures
        attributes::label_end(data, at, label) == Ok::<int, Failure>(
            at + label_bytes(label).len(),
        ),
        holds(data, at + label_bytes(label).len(), words_bytes(words)),
        (label_bytes(label) + words_bytes(words)).len() == label_bytes(label).len() + 4
            * words.len(),
{
    let head = label_bytes(label);
    let body = words_bytes(words);
    layout::three_parts(head, body, Seq::empty());
    assert(head + body + Seq::<u8>::empty() =~= head + body);
    layout::part_of_part(data, at, head + body, 0, head);
    layout::part_of_part(data, at, head + body, head.len() as int, body);
    label_reads_back(data, at, label);
    words_size(words);
}

proof fn parameters_read_back(data: Seq<u8>, at: int, attributes: AttributesModel)
    requires
        attributes.packing.len() == 16,
        data.len() <= usize::MAX,
        holds(data, at, parameter_section(attributes)),
    ensures
        attributes::parameters_of(data, at, at + parameter_section(attributes).len()) == Ok::<
            Seq<u32>,
            Failure,
        >(
            seq![
                attributes.bitmap_width,
                attributes.bitmap_height,
                attributes.block_grid_width,
                attributes.block_grid_height,
            ] + attributes.packing,
        ),
{
    labels_are_short();
    let words = seq![
        attributes.bitmap_width,
        attributes.bitmap_height,
        attributes.block_grid_width,
        attributes.block_grid_height,
    ] + attributes.packing;
    labelled_words(data, at, "Parameter"@, words);
    let start = at + label_bytes("Parameter"@).len();
    words_read_back(data, start, words, 0, 20);
    assert(words.subrange(0, 20) =~= words);
}

proof fn colors_read_back(data: Seq<u8>, at: int, attributes: AttributesModel, unread: u32)
    requires
        attributes.initial_colors.len() <= u32::MAX,
        data.len() <= usize::MAX,
        holds(data, at, color_section(attributes, unread)),
    ensures
        attributes::colors_of(data, at, at + color_section(attributes, unread).len()) == Ok::<
            (u32, Seq<u32>),
            Failure,
        >((attributes.default_fill, attributes.initial_colors)),
{
    labels_are_short();
    let colors = attributes.initial_colors;
    let words = seq![20u32, attributes.default_fill, unread, colors.len() as u32, 4u32] + colors;
    labelled_words(data, at, "InitColor"@, words);
    let start = at + label_bytes("InitColor"@).len();
    words_read_back(data, start, words, 0, 1);
    words_read_back(data, start, words, 1, 4);
    words_read_back(data, start, words, 5, colors.len());
    assert(words.subrange(5, 5 + colors.len() as int) =~= colors);
    assert(words.subrange(0, 1)[0] == 20);
    assert(words.subrange(1, 5)[0] == attributes.default_fill);
    assert(words.subrange(1, 5)[2] == colors.len());
    assert(words.subrange(1, 5)[3] == 4);
}

proof fn sizes_read_back(data: Seq<u8>, at: int, attributes: AttributesModel)
    requires
        attributes.block_sizes.len() <= u32::MAX,
        data.len() <= usize::MAX,
        holds(data, at, size_section(attributes)),
        at + size_section(attributes).len() == data.len(),
    ensures
        ({
            let head = attributes::sizes_head(data, at);
            &&& head is Ok
            &&& head->Ok_0.1 == attributes.block_sizes.len()
            &&& head->Ok_0.0 + 4 * attributes.block_sizes.len() == data.len()
            &&& attributes::words_at(data, head->Ok_0.0, attributes.block_sizes.len())
                == attributes.block_sizes
        }),
{
    labels_are_short();
    let sizes = attributes.block_sizes;
    let words = seq![12u32, sizes.len() as u32, 4u32] + sizes;
    labelled_words(data, at, "BlockSize"@, words);
    let start = at + label_bytes("BlockSize"@).len();
    words_read_back(data, start, words, 0, 1);
    words_read_back(data, start, words, 1, 2);
    words_read_back(data, start, words, 3, sizes.len());
    assert(words.subrange(3, 3 + sizes.len() as int) =~= sizes);
    assert(words.subrange(0, 1)[0] == 12);
    assert(words.subrange(1, 3)[0] == sizes.len());
    assert(words.subrange(1, 3)[1] == 4);
}

proof fn sections_stand(attributes: AttributesModel, unread: u32)
    requires
        attributes_writable(attributes, unread),
    ensures
        ({
            let data = attributes_bytes(attributes, unread);
            let first = parameter_section(attributes);
            let second = color_section(attributes, unread);
            let third = size_section(attributes);
            &&& data.len() == 16 + first.len() + second.len() + third.len()
            &&& bytes::be32(data, 0) == 16
            &&& bytes::be32(data, 4) == first.len()
            &&& bytes::be32(data, 8) == second.len()
            &&& bytes::be32(data, 12) == third.len()
            &&& holds(data, 16, first)
            &&& holds(data, 16 + first.len() as int, second)
            &&& holds(data, 16 + first.len() as int + second.len(), third)
        }),
{
    let data = attributes_bytes(attributes, unread);
    let first = parameter_section(attributes);
    let second = color_section(attributes, unread);
    let third = size_section(attributes);
    let words = seq![16u32, first.len() as u32, second.len() as u32, third.len() as u32];
    let head = words_bytes(words);
    words_size(words);
    layout::three_parts(head, first + second + third, Seq::empty());
    assert(head + (first + second + third) + Seq::<u8>::empty() =~= data);
    layout::three_parts(first, second, third);
    layout::part_of_part(data, 16, first + second + third, 0, first);
    layout::part_of_part(data, 16, first + second + third, first.len() as int, second);
    layout::part_of_part(
        data,
        16,
        first + second + third,
        (first.len() + second.len()) as int,
        third,
    );
    words_stand(data, 0, words);
    assert(bytes::be32(data, 0 + 4 * 0int) == words[0]);
    assert(bytes::be32(data, 0 + 4 * 1int) == words[1]);
    assert(bytes::be32(data, 0 + 4 * 2int) == words[2]);
    assert(bytes::be32(data, 0 + 4 * 3int) == words[3]);
}

/// Attributes that are written read back as they were.
#[verifier::spinoff_prover]
#[verifier::rlimit(60)]
pub proof fn attributes_read_back(attributes: AttributesModel, unread: u32)
    requires
        attributes_writable(attributes, unread),
    ensures
        attributes::attributes_of(attributes_bytes(attributes, unread)) == Ok::<
            AttributesModel,
            Failure,
        >(attributes),
{
    let data = attributes_bytes(attributes, unread);
    let colors_start = 16 + parameter_section(attributes).len() as int;
    let sizes_start = colors_start + color_section(attributes, unread).len();
    sections_stand(attributes, unread);
    parameters_read_back(data, 16, attributes);
    colors_read_back(data, colors_start, attributes, unread);
    sizes_read_back(data, sizes_start, attributes);
    let parameters = seq![
        attributes.bitmap_width,
        attributes.bitmap_height,
        attributes.block_grid_width,
        attributes.block_grid_height,
    ] + attributes.packing;
    assert(parameters.skip(4) =~= attributes.packing);
    parts_make_attributes(
        data,
        parameters,
        attributes.default_fill,
        attributes.initial_colors,
        attributes::sizes_head(data, sizes_start)->Ok_0.0,
        attributes.block_sizes,
    );
    assert(attributes::attributes_of(data)->Ok_0 =~= attributes);
}

proof fn parts_make_attributes(
    data: Seq<u8>,
    parameters: Seq<u32>,
    default_fill: u32,
    colors: Seq<u32>,
    values: int,
    sizes: Seq<u32>,
)
    requires
        attributes::header_valid(data),
        parameters.len() == 20,
        sizes.len() == parameters[2] * parameters[3],
        sizes.len() <= u32::MAX,
        ({
            let colors_start = 16 + bytes::be32(data, 4);
            let sizes_start = colors_start + bytes::be32(data, 8);
            &&& attributes::parameters_of(data, 16, colors_start) == Ok::<Seq<u32>, Failure>(
                parameters,
            )
            &&& attributes::colors_of(data, colors_start, sizes_start) == Ok::<
                (u32, Seq<u32>),
                Failure,
            >((default_fill, colors))
            &&& attributes::sizes_head(data, sizes_start) == Ok::<(int, u32), Failure>(
                (values, sizes.len() as u32),
            )
        }),
        values + 4 * sizes.len() == data.len(),
        attributes::words_at(data, values, sizes.len()) == sizes,
    ensures
        attributes::attributes_of(data) == Ok::<AttributesModel, Failure>(
            AttributesModel {
                bitmap_width: parameters[0],
                bitmap_height: parameters[1],
                block_grid_width: parameters[2],
                block_grid_height: parameters[3],
                packing: parameters.skip(4),
                default_fill,
                initial_colors: colors,
                block_sizes: sizes,
            },
        ),
{
    reveal(attributes::head_of);
}

/// Packing values that are accepted have as many channels in all as with alpha and without, and
/// just as many as pixels of that format take: one alpha channel and a buffer of four for color,
/// one of both for gray with alpha, and one of either for gray.
pub proof fn formats_have_their_channels(packing: Seq<u32>)
    ensures
        attributes::format_of(packing) matches Ok(format) ==> {
            &&& packing[1] + packing[2] == packing[3]
            &&& packing[14] == 0
            &&& packing[3] == match format {
                PixelFormat::Rgba8 => 5u32,
                PixelFormat::GrayAlpha8 => 2u32,
                PixelFormat::Gray8 => 1u32,
            }
            &&& format is GrayAlpha8 ==> packing[1] == 1
            &&& format is Rgba8 ==> packing[1] == 1
            &&& packing[1] != 0 ==> packing[8] >> 5 == 8
            &&& packing[2] != 0 ==> (packing[6] >> 5) % packing[2] == 0 && (packing[6] >> 5)
                / packing[2] == 8
        },
{
}

} // verus!
