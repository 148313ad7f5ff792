//! What replacing blocks of a body changes in what is read of it.

use vstd::prelude::*;

use crate::blocks;
use crate::clip_writer;
use crate::clip_writer::StagedModel;
use crate::external::BlockModel;
use crate::limits::Limits;
use crate::rebuild;
use crate::rebuild::RecordModel;
use crate::zlib;

verus! {

/// Whether a body can be read as blocks.
#[verifier::opaque]
pub open spec fn is_read(body: Seq<u8>, max_blocks: u64) -> bool {
    blocks::block_data_of(body, rebuild::whole_body(body.len() as int), max_blocks) is Ok
}

/// What is read of a body: its blocks with their payloads.
#[verifier::opaque]
pub open spec fn read(body: Seq<u8>, max_blocks: u64) -> Seq<RecordModel> {
    rebuild::records_of(
        body,
        blocks::block_data_of(
            body,
            rebuild::whole_body(body.len() as int),
            max_blocks,
        )->Ok_0,
    )
}

proof fn blocks_within_limit(
    data: Seq<u8>,
    end: int,
    max_blocks: u64,
    at: int,
    found: Seq<BlockModel>,
    statuses: Option<Seq<u32>>,
    checksums: Option<Seq<u32>>,
)
    requires
        blocks::blocks_from(data, end, max_blocks, at, found, statuses, checksums) is Ok,
        found.len() <= max_blocks,
    ensures
        blocks::blocks_from(
            data,
            end,
            max_blocks,
            at,
            found,
            statuses,
            checksums,
        )->Ok_0.len() <= max_blocks,
    decreases
            if at < end {
                end - at
            } else {
                0
            },
{
    if at < end {
        let word = blocks::word_at(data, at, end)->Ok_0;
        if word == 11 {
            let values = blocks::trailer_at(data, end, at + 26, found.len(), at)->Ok_0;
            let next = at + 38 + 4 * found.len();
            blocks_within_limit(data, end, max_blocks, next, found, Some(values), checksums);
        } else if word == 13 {
            let values = blocks::trailer_at(data, end, at + 30, found.len(), at)->Ok_0;
            let next = at + 42 + 4 * found.len();
            blocks_within_limit(data, end, max_blocks, next, found, statuses, Some(values));
        } else {
            let block = blocks::block_at(data, end, at, word)->Ok_0;
            let more = found.push(block);
            blocks_within_limit(data, end, max_blocks, at + word, more, statuses, checksums);
        }
    }
}

/// Whether a place is the only one with an index among what was read.
pub open spec fn only_place(records: Seq<RecordModel>, index: u32, place: int) -> bool {
    &&& 0 <= place < records.len()
    &&& records[place].index == index
    &&& forall|i: int|
        0 <= i < records.len() && i != place ==> (#[trigger] records[i]).index != index
}

/// Replacing a block gives a body that reads as the one before, but that the only block with
/// the index has the compressed replacement for its payload and the new checksum. What is told
/// of it is its size before and after, the size of the replacement, and its checksum before.
#[verifier::spinoff_prover]
#[verifier::rlimit(60)]
pub proof fn rebuilding_replaces_one_block(
    body: Seq<u8>,
    index: u32,
    decoded: Seq<u8>,
    checksum: u32,
    max_blocks: u64,
    decoded_limit: u64,
    body_limit: u64,
) -> (place: int)
    requires
        body.len() <= u64::MAX,
        rebuild::rebuilt_body(
            body,
            index,
            decoded,
            checksum,
            max_blocks,
            decoded_limit,
            body_limit,
        ) is Ok,
    ensures
        ({
            let rebuilt = rebuild::rebuilt_body(
                body,
                index,
                decoded,
                checksum,
                max_blocks,
                decoded_limit,
                body_limit,
            )->Ok_0;
            let before = read(body, max_blocks);
            let after = read(rebuilt.body, max_blocks);
            &&& is_read(body, max_blocks)
            &&& is_read(rebuilt.body, max_blocks)
            &&& rebuilt.body.len() <= u64::MAX
            &&& only_place(before, index, place)
            &&& after.len() == before.len()
            &&& forall|i: int|
                0 <= i < before.len() && i != place ==> #[trigger] after[i] == before[i]
            &&& after[place].index == index
            &&& after[place].parameters == before[place].parameters
            &&& after[place].status == before[place].status
            &&& after[place].checksum == checksum
            &&& zlib::zlib_deflated(decoded) is Some
            &&& after[place].payload == zlib::zlib_deflated(decoded)
            &&& rebuilt.decoded_size == decoded.len()
            &&& rebuilt.compressed_size == after[place].payload->Some_0.len()
            &&& rebuilt.original_checksum == before[place].checksum
            &&& rebuilt.original_compressed_size is Some == before[place].payload is Some
            &&& rebuilt.original_compressed_size matches Some(size) ==> size
                == before[place].payload->Some_0.len()
        }),
{
    reveal(is_read);
    reveal(read);
    let (found, target) = rebuild::replacement_target(
        body,
        index,
        decoded.len() as int,
        max_blocks,
        decoded_limit,
        body_limit,
    )->Ok_0;
    let stream = zlib::zlib_deflated(decoded)->Some_0;
    let before = rebuild::records_of(body, found);
    let place = rebuild::first_with_index(found, index, 0)->Some_0;
    rebuild::lemma_first_with_index(found, index, 0);
    rebuild::lemma_first_with_index(found, index, place + 1);
    rebuild::lemma_blocks_fit(
        body,
        body.len() as int,
        max_blocks,
        0,
        Seq::empty(),
        None,
        None,
    );
    blocks_within_limit(body, body.len() as int, max_blocks, 0, Seq::empty(), None, None);
    assert forall|i: int| 0 <= i < before.len() && i != place implies (
    #[trigger] before[i]).index != index by {
        assert(found[i].index != index);
    }
    let records = rebuild::with_block(before, index, stream, checksum);
    let rebuilt = rebuild::rebuilt_body(
        body,
        index,
        decoded,
        checksum,
        max_blocks,
        decoded_limit,
        body_limit,
    )->Ok_0;
    assert(target == found[place]);
    assert(rebuilt.body == rebuild::body_bytes(records));
    assert forall|k: int| 0 <= k < records.len() implies rebuild::writable(
        #[trigger] records[k],
    ) by {
        assert(rebuild::block_fits(found[k], body.len() as int));
    }
    rebuild::serialized_body_reads_back(records, max_blocks);
    rebuild::serialized_payloads_read_back(records);
    assert(rebuild::block_fits(found[place], body.len() as int));
    place
}

/// Whether a body reads as another one, but for the payloads and checksums of the blocks with
/// an index from `at` up to the number of tiles: these have the compressed tiles.
pub open spec fn tiles_stand(
    before: Seq<RecordModel>,
    after: Seq<RecordModel>,
    tiles: Seq<Seq<u8>>,
    checksums: Seq<u32>,
    at: int,
) -> bool {
    &&& after.len() == before.len()
    &&& forall|i: int|
        0 <= i < before.len() ==> {
            let block = #[trigger] after[i];
            let index = before[i].index as int;
            &&& block.index == index
            &&& block.parameters == before[i].parameters
            &&& block.status == before[i].status
            &&& at <= index < tiles.len() ==> zlib::zlib_deflated(tiles[index]) is Some
                && block.payload == zlib::zlib_deflated(tiles[index]) && block.checksum
                == checksums[index]
            &&& !(at <= index < tiles.len()) ==> block == before[i]
        }
}

#[verifier::spinoff_prover]
#[verifier::rlimit(60)]
proof fn one_tile_stands(
    body: Seq<u8>,
    tiles: Seq<Seq<u8>>,
    checksums: Seq<u32>,
    at: int,
    limits: Limits,
) -> (place: int)
    requires
        body.len() <= u64::MAX,
        0 <= at < tiles.len() <= u32::MAX,
        clip_writer::tile_rebuilt(body, at as u32, tiles[at], checksums[at], limits) is Ok,
    ensures
        ({
            let next = clip_writer::tile_rebuilt(
                body,
                at as u32,
                tiles[at],
                checksums[at],
                limits,
            )->Ok_0;
            let before = read(body, limits.max_blocks_per_external);
            let middle = read(next, limits.max_blocks_per_external);
            &&& next.len() <= u64::MAX
            &&& is_read(next, limits.max_blocks_per_external)
            &&& only_place(before, at as u32, place)
            &&& middle.len() == before.len()
            &&& forall|i: int|
                0 <= i < before.len() && i != place ==> #[trigger] middle[i] == before[i]
            &&& middle[place].index == at
            &&& middle[place].parameters == before[place].parameters
            &&& middle[place].status == before[place].status
            &&& middle[place].checksum == checksums[at]
            &&& zlib::zlib_deflated(tiles[at]) is Some
            &&& middle[place].payload == zlib::zlib_deflated(tiles[at])
        }),
{
    reveal(clip_writer::tile_rebuilt);
    rebuilding_replaces_one_block(
        body,
        at as u32,
        tiles[at],
        checksums[at],
        limits.max_blocks_per_external,
        limits.max_decompressed_block_size,
        limits.max_write_external_body_size,
    )
}

proof fn one_tile_more(
    before: Seq<RecordModel>,
    middle: Seq<RecordModel>,
    after: Seq<RecordModel>,
    tiles: Seq<Seq<u8>>,
    checksums: Seq<u32>,
    at: int,
    place: int,
)
    requires
        0 <= at < tiles.len() <= u32::MAX,
        only_place(before, at as u32, place),
        middle.len() == before.len(),
        forall|i: int| 0 <= i < before.len() && i != place ==> #[trigger] middle[i] == before[i],
        middle[place].index == at,
        middle[place].parameters == before[place].parameters,
        middle[place].status == before[place].status,
        middle[place].checksum == checksums[at],
        zlib::zlib_deflated(tiles[at]) is Some,
        middle[place].payload == zlib::zlib_deflated(tiles[at]),
        tiles_stand(middle, after, tiles, checksums, at + 1),
    ensures
        tiles_stand(before, after, tiles, checksums, at),
{
    assert forall|i: int| 0 <= i < before.len() implies {
        let block = #[trigger] after[i];
        let index = before[i].index as int;
        &&& block.index == index
        &&& block.parameters == before[i].parameters
        &&& block.status == before[i].status
        &&& at <= index < tiles.len() ==> zlib::zlib_deflated(tiles[index]) is Some
            && block.payload == zlib::zlib_deflated(tiles[index]) && block.checksum
            == checksums[index]
        &&& !(at <= index < tiles.len()) ==> block == before[i]
    } by {
        if i != place {
            assert(middle[i] == before[i]);
            assert(before[i].index != at);
        }
    }
}

/// Replacing all tiles gives a body in which each block holds the compressed tile of its index
/// and its checksum. The rest of the body reads as before.
pub proof fn rebuilt_tiles_stand_in_their_blocks(
    body: Seq<u8>,
    tiles: Seq<Seq<u8>>,
    checksums: Seq<u32>,
    at: int,
    limits: Limits,
)
    requires
        body.len() <= u64::MAX,
        is_read(body, limits.max_blocks_per_external),
        0 <= at <= tiles.len() <= u32::MAX,
        checksums.len() == tiles.len(),
        clip_writer::tiles_rebuilt(body, tiles, checksums, at, limits) is Ok,
    ensures
        ({
            let rebuilt = clip_writer::tiles_rebuilt(body, tiles, checksums, at, limits)->Ok_0;
            &&& rebuilt.len() <= u64::MAX
            &&& is_read(rebuilt, limits.max_blocks_per_external)
            &&& tiles_stand(
                read(body, limits.max_blocks_per_external),
                read(rebuilt, limits.max_blocks_per_external),
                tiles,
                checksums,
                at,
            )
        }),
    decreases tiles.len() - at,
{
    if at < tiles.len() {
        let max_blocks = limits.max_blocks_per_external;
        let place = one_tile_stands(body, tiles, checksums, at, limits);
        let next = clip_writer::tile_rebuilt(
            body,
            at as u32,
            tiles[at],
            checksums[at],
            limits,
        )->Ok_0;
        rebuilt_tiles_stand_in_their_blocks(next, tiles, checksums, at + 1, limits);
        let rebuilt = clip_writer::tiles_rebuilt(body, tiles, checksums, at, limits)->Ok_0;
        let before = read(body, max_blocks);
        let middle = read(next, max_blocks);
        let after = read(rebuilt, max_blocks);
        one_tile_more(before, middle, after, tiles, checksums, at, place);
    }
}

/// Replacing the tiles of a body gives a body whose blocks hold the compressed tiles, and the
/// sizes that its blocks take, in order.
pub proof fn body_with_tiles_holds_them(
    body: Seq<u8>,
    tiles: Seq<Seq<u8>>,
    checksums: Seq<u32>,
    limits: Limits,
)
    requires
        body.len() <= u64::MAX,
        is_read(body, limits.max_blocks_per_external),
        clip_writer::body_with_tiles(body, tiles, checksums, limits) is Ok,
    ensures
        ({
            let done = clip_writer::body_with_tiles(body, tiles, checksums, limits)->Ok_0;
            let after = read(done.0, limits.max_blocks_per_external);
            &&& checksums.len() == tiles.len()
            &&& after.len() == tiles.len()
            &&& is_read(done.0, limits.max_blocks_per_external)
            &&& tiles_stand(
                read(body, limits.max_blocks_per_external),
                after,
                tiles,
                checksums,
                0,
            )
            &&& done.1.len() == after.len()
            &&& forall|i: int|
                0 <= i < after.len() ==> #[trigger] done.1[i] == rebuild::block_bytes(
                    after[i],
                ).len()
        }),
{
    let done = clip_writer::body_with_tiles(body, tiles, checksums, limits)->Ok_0;
    let max_blocks = limits.max_blocks_per_external;
    rebuilt_tiles_stand_in_their_blocks(body, tiles, checksums, 0, limits);
    sizes_are_those_of_blocks(done.0, tiles.len(), max_blocks);
}

#[verifier::spinoff_prover]
#[verifier::rlimit(60)]
proof fn read_blocks_fit(body: Seq<u8>, max_blocks: u64)
    requires
        body.len() <= u64::MAX,
        is_read(body, max_blocks),
    ensures
        ({
            let found = blocks::block_data_of(
                body,
                rebuild::whole_body(body.len() as int),
                max_blocks,
            )->Ok_0;
            forall|i: int|
                0 <= i < found.len() ==> rebuild::block_fits(
                    #[trigger] found[i],
                    body.len() as int,
                )
        }),
{
    reveal(is_read);
    let end = body.len() as int;
    assert(blocks::block_data_of(body, rebuild::whole_body(end), max_blocks)
        == blocks::blocks_from(body, end, max_blocks, 0, Seq::empty(), None, None));
    rebuild::lemma_blocks_fit(body, end, max_blocks, 0, Seq::empty(), None, None);
}

proof fn sizes_of_fitting_blocks(body: Seq<u8>, found: Seq<BlockModel>, tiles: nat)
    requires
        clip_writer::record_sizes(found, tiles) is Ok,
        forall|i: int|
            0 <= i < found.len() ==> rebuild::block_fits(#[trigger] found[i], body.len() as int),
    ensures
        ({
            let sizes = clip_writer::record_sizes(found, tiles)->Ok_0;
            let records = rebuild::records_of(body, found);
            &&& records.len() == tiles
            &&& sizes.len() == tiles
            &&& forall|i: int|
                0 <= i < tiles ==> #[trigger] sizes[i] == rebuild::block_bytes(records[i]).len()
        }),
{
    let sizes = clip_writer::record_sizes(found, tiles)->Ok_0;
    let records = rebuild::records_of(body, found);
    assert forall|i: int| 0 <= i < tiles implies #[trigger] sizes[i] == rebuild::block_bytes(
        records[i],
    ).len() by {
        assert(rebuild::block_fits(found[i], body.len() as int));
        assert(clip_writer::record_size(found[i]) <= u32::MAX);
        rebuild::lemma_block_bytes_len(records[i]);
        assert(rebuild::block_size(records[i]) == clip_writer::record_size(found[i]));
    }
}

#[verifier::spinoff_prover]
#[verifier::rlimit(60)]
proof fn sizes_are_those_of_blocks(body: Seq<u8>, tiles: nat, max_blocks: u64)
    requires
        body.len() <= u64::MAX,
        clip_writer::sizes_in(body, tiles, max_blocks) is Ok,
    ensures
        ({
            let sizes = clip_writer::sizes_in(body, tiles, max_blocks)->Ok_0;
            let records = read(body, max_blocks);
            &&& records.len() == tiles
            &&& sizes.len() == tiles
            &&& forall|i: int|
                0 <= i < tiles ==> #[trigger] sizes[i] == rebuild::block_bytes(records[i]).len()
        }),
{
    reveal(clip_writer::sizes_in);
    reveal(read);
    reveal(is_read);
    let found = blocks::block_data_of(
        body,
        rebuild::whole_body(body.len() as int),
        max_blocks,
    )->Ok_0;
    read_blocks_fit(body, max_blocks);
    sizes_of_fitting_blocks(body, found, tiles);
}

/// The body that is staged under an identifier is the last one that was, and there is none just
/// when nothing was staged under it.
pub proof fn last_staged_body_counts(staged: Seq<StagedModel>, identifier: Seq<u8>, count: int)
    requires
        0 <= count <= staged.len(),
    ensures
        match clip_writer::staged_body(staged, identifier, count) {
            Some(body) => exists|i: int|
                {
                    &&& 0 <= i < count
                    &&& (#[trigger] staged[i]).identifier == identifier
                    &&& staged[i].body == body
                    &&& forall|j: int|
                        i < j < count ==> (#[trigger] staged[j]).identifier != identifier
                },
            None => forall|i: int|
                0 <= i < count ==> (#[trigger] staged[i]).identifier != identifier,
        },
    decreases count,
{
    if count > 0 {
        if staged[count - 1].identifier == identifier {
            assert(staged[count - 1].body == clip_writer::staged_body(
                staged,
                identifier,
                count,
            )->Some_0);
        } else {
            last_staged_body_counts(staged, identifier, count - 1);
        }
    }
}

} // verus!
