//! What the recordings of a time-lapse are made of.

use rusqlite::Connection;
use vstd::prelude::*;
use vstd::seq_lib;
use vstd::set_lib;

use crate::container::ClipFile;
use crate::database;
use crate::error;
use crate::error::Failure;
use crate::external::{ByteOrder, ExternalBody, ExternalObjectModel};
use crate::frames;
use crate::frames::{FrameModel, ScannerModel};
use crate::layout::laid_out;
use crate::limits::Limits;
use crate::row_laws;
use crate::sql;
use crate::timelapse;
use crate::timelapse::{
    BlobModel, ManagerModel, ManagerRow, RecordModel, RecordRowModel, RecordingRows, UsedRows,
};
use crate::zlib;

verus! {

/// The link that leads to a place in a chain of blobs: the first one, or that of the blob before.
pub open spec fn blob_link(first: Option<i64>, chain: Seq<BlobModel>, at: int) -> Option<i64> {
    if at == 0 {
        first
    } else {
        chain[at - 1].next_blob_id
    }
}

/// Whether a chain of stored blobs is the one that starts with a link: each link leads to the
/// next blob, and the last one nowhere.
pub open spec fn blobs_linked(
    stored: Seq<BlobModel>,
    first: Option<i64>,
    chain: Seq<BlobModel>,
) -> bool {
    &&& forall|i: int|
        0 <= i < chain.len() ==> {
            &&& blob_link(first, chain, i) == Some((#[trigger] chain[i]).id)
            &&& stored.contains(chain[i])
        }
    &&& blob_link(first, chain, chain.len() as int) is None
}

proof fn chained_blobs_are_linked(
    blobs: Seq<BlobModel>,
    limit: u64,
    canvas_id: i64,
    first: Option<i64>,
    current: Option<i64>,
    offset: u64,
    used: Set<i64>,
    ordered: Seq<BlobModel>,
)
    requires
        forall|i: int|
            0 <= i < ordered.len() ==> {
                &&& blob_link(first, ordered, i) == Some((#[trigger] ordered[i]).id)
                &&& blobs.contains(ordered[i])
            },
        blob_link(first, ordered, ordered.len() as int) == current,
    ensures
        timelapse::blob_chain(blobs, limit, canvas_id, current, offset, used, ordered) matches Ok(
            chain,
        ) ==> blobs_linked(blobs, first, chain.1),
    decreases limit - ordered.len(),
{
    if let Some(id) = current {
        if timelapse::blob_chain(
            blobs,
            limit,
            canvas_id,
            current,
            offset,
            used,
            ordered,
        ) is Ok {
            let position = timelapse::blob_position(blobs, id, 0);
            blob_position_finds(blobs, id, 0);
            let blob = blobs[position];
            let more = ordered.push(blob);
            assert forall|i: int| 0 <= i < more.len() implies blob_link(first, more, i) == Some(
                (#[trigger] more[i]).id,
            ) && blobs.contains(more[i]) by {
                if i < ordered.len() {
                    assert(more[i] == ordered[i]);
                }
                if 0 < i {
                    assert(more[i - 1] == ordered[i - 1]);
                }
            }
            chained_blobs_are_linked(
                blobs,
                limit,
                canvas_id,
                first,
                blob.next_blob_id,
                (offset + blob.decoded_size) as u64,
                used.insert(id),
                more,
            );
        }
    }
}

proof fn blob_position_finds(blobs: Seq<BlobModel>, id: i64, at: int)
    requires
        0 <= at <= blobs.len(),
    ensures
        at <= timelapse::blob_position(blobs, id, at) <= blobs.len(),
        timelapse::blob_position(blobs, id, at) < blobs.len() ==> blobs[timelapse::blob_position(
            blobs,
            id,
            at,
        )].id == id,
    decreases blobs.len() - at,
{
    if at < blobs.len() && blobs[at].id != id {
        blob_position_finds(blobs, id, at + 1);
    }
}

proof fn record_position_finds(records: Seq<RecordRowModel>, id: i64, at: int)
    requires
        0 <= at <= records.len(),
    ensures
        at <= timelapse::record_position(records, id, at) <= records.len(),
        timelapse::record_position(records, id, at) < records.len()
            ==> records[timelapse::record_position(records, id, at)].id == id,
    decreases records.len() - at,
{
    if at < records.len() && records[at].id != id {
        record_position_finds(records, id, at + 1);
    }
}

/// Whether a record is a stored one: it has its properties, and the blobs that its first link
/// leads to, which lie end to end and are of its canvas.
pub open spec fn record_is_stored(rows: RecordingRows, record: RecordModel) -> bool {
    &&& exists|k: int|
        {
            &&& 0 <= k < rows.records.len()
            &&& (#[trigger] rows.records[k]).id == record.id
            &&& rows.records[k].canvas_id == record.canvas_id
            &&& rows.records[k].next_record_id == record.next_record_id
            &&& rows.records[k].encoder_name == record.encoder_name
            &&& rows.records[k].encoder_sequence == record.encoder_sequence
            &&& blobs_linked(rows.blobs, rows.records[k].first_blob_id, record.blobs)
        }
    &&& timelapse::blobs_contiguous(record.blobs)
    &&& forall|i: int|
        0 <= i < record.blobs.len() ==> (#[trigger] record.blobs[i]).canvas_id == record.canvas_id
}

/// The link that leads to a place in a chain of records: the first one, or that of the record
/// before.
pub open spec fn record_link(first: Option<i64>, chain: Seq<RecordModel>, at: int) -> Option<
    i64,
> {
    if at == 0 {
        first
    } else {
        chain[at - 1].next_record_id
    }
}

/// Whether a chain of stored records of a canvas is the one that starts with a link.
pub open spec fn records_linked(
    rows: RecordingRows,
    canvas_id: i64,
    first: Option<i64>,
    chain: Seq<RecordModel>,
) -> bool {
    &&& records_so_far(rows, canvas_id, first, chain)
    &&& record_link(first, chain, chain.len() as int) is None
}

/// Whether each link of a chain leads to the next record, which is a stored one of the canvas.
pub open spec fn records_so_far(
    rows: RecordingRows,
    canvas_id: i64,
    first: Option<i64>,
    chain: Seq<RecordModel>,
) -> bool {
    forall|i: int|
        0 <= i < chain.len() ==> {
            &&& record_link(first, chain, i) == Some((#[trigger] chain[i]).id)
            &&& chain[i].canvas_id == canvas_id
            &&& record_is_stored(rows, chain[i])
        }
}

proof fn chained_records_are_linked(
    rows: RecordingRows,
    canvas_id: i64,
    first: Option<i64>,
    current: Option<i64>,
    used: UsedRows,
    ordered: Seq<RecordModel>,
)
    requires
        records_so_far(rows, canvas_id, first, ordered),
        record_link(first, ordered, ordered.len() as int) == current,
    ensures
        timelapse::record_chain(rows, canvas_id, current, used, ordered) matches Ok(chain)
            ==> records_linked(rows, canvas_id, first, chain.1),
    decreases timelapse::unused_records(rows.records, used.records),
{
    if let Some(id) = current {
        if timelapse::record_chain(rows, canvas_id, current, used, ordered) is Ok {
            let position = timelapse::record_position(rows.records, id, 0);
            record_position_finds(rows.records, id, 0);
            let row = rows.records[position];
            let none = Seq::<BlobModel>::empty();
            chained_blobs_are_linked(
                rows.blobs,
                rows.limit,
                row.canvas_id,
                row.first_blob_id,
                row.first_blob_id,
                0,
                used.blobs,
                none,
            );
            timelapse::chained_blobs_are_contiguous(
                rows.blobs,
                rows.limit,
                row.canvas_id,
                row.first_blob_id,
                0,
                used.blobs,
                none,
            );
            let blobs = timelapse::blob_chain(
                rows.blobs,
                rows.limit,
                row.canvas_id,
                row.first_blob_id,
                0,
                used.blobs,
                none,
            )->Ok_0;
            let record = timelapse::record_with(row, blobs.1);
            let more = ordered.push(record);
            assert(record_is_stored(rows, record)) by {
                assert(rows.records[position].id == record.id);
            }
            assert forall|i: int| 0 <= i < more.len() implies record_link(first, more, i) == Some(
                (#[trigger] more[i]).id,
            ) && more[i].canvas_id == canvas_id && record_is_stored(rows, more[i]) by {
                if i < ordered.len() {
                    assert(more[i] == ordered[i]);
                }
                if 0 < i {
                    assert(more[i - 1] == ordered[i - 1]);
                }
            }
            timelapse::one_record_fewer(rows.records, used.records, id);
            chained_records_are_linked(
                rows,
                canvas_id,
                first,
                row.next_record_id,
                UsedRows { records: used.records.insert(id), blobs: blobs.0 },
                more,
            );
        }
    }
}

proof fn found_managers_are_linked(
    rows: RecordingRows,
    managers: Seq<ManagerRow>,
    at: int,
    used: UsedRows,
    found: Seq<ManagerModel>,
)
    requires
        0 <= at <= managers.len(),
        found.len() == at,
        forall|i: int| 0 <= i < at ==> manager_is_stored(rows, managers[i], #[trigger] found[i]),
    ensures
        timelapse::managers_from(rows, managers, at, used, found) matches Ok(all) ==> {
            &&& all.len() == managers.len()
            &&& forall|i: int|
                0 <= i < managers.len() ==> manager_is_stored(rows, managers[i], #[trigger] all[i])
        },
    decreases managers.len() - at,
{
    if at < managers.len() {
        if timelapse::managers_from(rows, managers, at, used, found) is Ok {
            let none = Seq::<RecordModel>::empty();
            let first = managers[at].first_record_id;
            chained_records_are_linked(rows, managers[at].canvas_id, first, first, used, none);
            let chain = timelapse::record_chain(
                rows,
                managers[at].canvas_id,
                first,
                used,
                none,
            )->Ok_0;
            let more = found.push(
                ManagerModel {
                    id: managers[at].id,
                    canvas_id: managers[at].canvas_id,
                    records: chain.1,
                },
            );
            assert forall|i: int| 0 <= i < more.len() implies manager_is_stored(
                rows,
                managers[i],
                #[trigger] more[i],
            ) by {
                if i < at {
                    assert(more[i] == found[i]);
                }
            }
            found_managers_are_linked(rows, managers, at + 1, chain.0, more);
        }
    }
}

/// Whether a manager is a stored one: it has its properties, and the records that its first
/// link leads to.
pub open spec fn manager_is_stored(
    rows: RecordingRows,
    row: ManagerRow,
    manager: ManagerModel,
) -> bool {
    &&& manager.id == row.id
    &&& manager.canvas_id == row.canvas_id
    &&& records_linked(rows, row.canvas_id, row.first_record_id, manager.records)
}

/// Recordings that are accepted hold every manager in order. Each has the records that its links
/// lead to, with the properties that are stored of them, and each record has the blobs that its
/// links lead to. The first link is that of the manager or record, and the last one leads
/// nowhere.
pub proof fn recordings_follow_their_links(reply: sql::ReplyModel, rows: RecordingRows)
    requires
        timelapse::managers_of(reply, rows) is Ok,
    ensures
        ({
            let managers = timelapse::managers_of(reply, rows)->Ok_0;
            &&& managers.len() == reply.rows.len()
            &&& forall|i: int|
                0 <= i < managers.len() ==> {
                    let row = sql::integer_at(reply.rows[i], 0);
                    &&& row == Ok::<i64, Failure>((#[trigger] managers[i]).id)
                    &&& sql::integer_at(reply.rows[i], 1) == Ok::<i64, Failure>(
                        managers[i].canvas_id,
                    )
                    &&& records_linked(
                        rows,
                        managers[i].canvas_id,
                        timelapse::nonzero_of(sql::integer_at(reply.rows[i], 2)->Ok_0),
                        managers[i].records,
                    )
                }
        }),
{
    let stored = sql::collected::<ManagerRow>(reply)->Ok_0;
    found_managers_are_linked(rows, stored, 0, timelapse::no_rows_used(), Seq::empty());
    row_laws::every_row_is_read_in_order::<ManagerRow>(reply);
}

/// Whether one of the blobs has an ID.
pub open spec fn has_blob(blobs: Seq<BlobModel>, id: i64) -> bool {
    exists|i: int| 0 <= i < blobs.len() && (#[trigger] blobs[i]).id == id
}

/// Whether one of the records has an ID.
pub open spec fn has_record(records: Seq<RecordModel>, id: i64) -> bool {
    exists|i: int| 0 <= i < records.len() && (#[trigger] records[i]).id == id
}

/// Whether a blob of one of the records has an ID.
pub open spec fn record_has_blob(records: Seq<RecordModel>, id: i64) -> bool {
    exists|i: int| 0 <= i < records.len() && has_blob((#[trigger] records[i]).blobs, id)
}

/// Whether a record of one of the managers has an ID.
pub open spec fn manager_has_record(managers: Seq<ManagerModel>, id: i64) -> bool {
    exists|i: int| 0 <= i < managers.len() && has_record((#[trigger] managers[i]).records, id)
}

/// Whether a blob of a record of one of the managers has an ID.
pub open spec fn manager_has_blob(managers: Seq<ManagerModel>, id: i64) -> bool {
    exists|i: int|
        0 <= i < managers.len() && record_has_blob((#[trigger] managers[i]).records, id)
}

proof fn used_blobs_are_chained(
    blobs: Seq<BlobModel>,
    limit: u64,
    canvas_id: i64,
    current: Option<i64>,
    offset: u64,
    before: Set<i64>,
    used: Set<i64>,
    ordered: Seq<BlobModel>,
)
    requires
        forall|id: i64| #[trigger]
            used.contains(id) ==> before.contains(id) || has_blob(ordered, id),
        forall|id: i64| #[trigger] used.contains(id) ==> before.contains(id) || has_blob(blobs, id),
    ensures
        timelapse::blob_chain(blobs, limit, canvas_id, current, offset, used, ordered) matches Ok(
            chain,
        ) ==> {
            &&& forall|id: i64| #[trigger]
                chain.0.contains(id) ==> before.contains(id) || has_blob(chain.1, id)
            &&& forall|id: i64| #[trigger]
                chain.0.contains(id) ==> before.contains(id) || has_blob(blobs, id)
        },
    decreases limit - ordered.len(),
{
    if let Some(id) = current {
        if timelapse::blob_chain(blobs, limit, canvas_id, current, offset, used, ordered) is Ok {
            let position = timelapse::blob_position(blobs, id, 0);
            blob_position_finds(blobs, id, 0);
            let blob = blobs[position];
            let more = ordered.push(blob);
            assert forall|other: i64| #[trigger] used.insert(id).contains(other) implies
                before.contains(other) || has_blob(more, other) by {
                if other == id {
                    assert(more[ordered.len() as int].id == id);
                } else if !before.contains(other) {
                    assert(used.contains(other));
                    let k = choose|k: int|
                        0 <= k < ordered.len() && (#[trigger] ordered[k]).id == other;
                    assert(more[k].id == other);
                }
            }
            assert forall|other: i64| #[trigger] used.insert(id).contains(other) implies
                before.contains(other) || has_blob(blobs, other) by {
                if other == id {
                    assert(blobs[position].id == id);
                } else {
                    assert(used.contains(other));
                }
            }
            used_blobs_are_chained(
                blobs,
                limit,
                canvas_id,
                blob.next_blob_id,
                (offset + blob.decoded_size) as u64,
                before,
                used.insert(id),
                more,
            );
        }
    }
}

/// Whether all rows that are used were so before, or are among records and their blobs.
pub open spec fn used_by_records(
    before: UsedRows,
    used: UsedRows,
    records: Seq<RecordModel>,
) -> bool {
    &&& forall|id: i64| #[trigger]
        used.records.contains(id) ==> before.records.contains(id) || has_record(records, id)
    &&& forall|id: i64| #[trigger]
        used.blobs.contains(id) ==> before.blobs.contains(id) || record_has_blob(records, id)
}

#[verifier::spinoff_prover]
#[verifier::rlimit(40)]
proof fn one_record_more(
    before: UsedRows,
    used: UsedRows,
    blobs: Set<i64>,
    ordered: Seq<RecordModel>,
    record: RecordModel,
)
    requires
        used_by_records(before, used, ordered),
        forall|id: i64| #[trigger]
            blobs.contains(id) ==> used.blobs.contains(id) || has_blob(record.blobs, id),
    ensures
        used_by_records(
            before,
            UsedRows { records: used.records.insert(record.id), blobs },
            ordered.push(record),
        ),
{
    let more = ordered.push(record);
    assert(more[ordered.len() as int] == record);
    assert forall|id: i64| #[trigger] used.records.insert(record.id).contains(id) implies
        before.records.contains(id) || has_record(more, id) by {
        if id != record.id && !before.records.contains(id) {
            assert(used.records.contains(id));
            let k = choose|k: int| 0 <= k < ordered.len() && (#[trigger] ordered[k]).id == id;
            assert(more[k].id == id);
        } else if id == record.id {
            assert(more[ordered.len() as int].id == id);
        }
    }
    assert forall|id: i64| #[trigger] blobs.contains(id) implies before.blobs.contains(id)
        || record_has_blob(more, id) by {
        if has_blob(record.blobs, id) {
            assert(has_blob(more[ordered.len() as int].blobs, id));
        } else {
            assert(used.blobs.contains(id));
            if !before.blobs.contains(id) {
                let k = choose|k: int|
                    0 <= k < ordered.len() && has_blob((#[trigger] ordered[k]).blobs, id);
                assert(has_blob(more[k].blobs, id));
            }
        }
    }
}

proof fn used_records_are_chained(
    rows: RecordingRows,
    canvas_id: i64,
    current: Option<i64>,
    before: UsedRows,
    used: UsedRows,
    ordered: Seq<RecordModel>,
)
    requires
        used_by_records(before, used, ordered),
    ensures
        timelapse::record_chain(rows, canvas_id, current, used, ordered) matches Ok(chain)
            ==> used_by_records(before, chain.0, chain.1),
    decreases timelapse::unused_records(rows.records, used.records),
{
    if let Some(id) = current {
        if timelapse::record_chain(rows, canvas_id, current, used, ordered) is Ok {
            let position = timelapse::record_position(rows.records, id, 0);
            record_position_finds(rows.records, id, 0);
            let row = rows.records[position];
            let none = Seq::<BlobModel>::empty();
            used_blobs_are_chained(
                rows.blobs,
                rows.limit,
                row.canvas_id,
                row.first_blob_id,
                0,
                used.blobs,
                used.blobs,
                none,
            );
            let chain = timelapse::blob_chain(
                rows.blobs,
                rows.limit,
                row.canvas_id,
                row.first_blob_id,
                0,
                used.blobs,
                none,
            )->Ok_0;
            let record = timelapse::record_with(row, chain.1);
            one_record_more(before, used, chain.0, ordered, record);
            timelapse::one_record_fewer(rows.records, used.records, id);
            used_records_are_chained(
                rows,
                canvas_id,
                row.next_record_id,
                before,
                UsedRows { records: used.records.insert(id), blobs: chain.0 },
                ordered.push(record),
            );
        }
    }
}

/// Whether all rows that are used are among the records of managers and their blobs.
pub open spec fn used_by_managers(used: UsedRows, managers: Seq<ManagerModel>) -> bool {
    &&& forall|id: i64| #[trigger]
        used.records.contains(id) ==> manager_has_record(managers, id)
    &&& forall|id: i64| #[trigger] used.blobs.contains(id) ==> manager_has_blob(managers, id)
}

#[verifier::spinoff_prover]
#[verifier::rlimit(40)]
proof fn one_manager_more(
    used: UsedRows,
    next: UsedRows,
    found: Seq<ManagerModel>,
    manager: ManagerModel,
)
    requires
        used_by_managers(used, found),
        used_by_records(used, next, manager.records),
    ensures
        used_by_managers(next, found.push(manager)),
{
    let more = found.push(manager);
    assert(more[found.len() as int] == manager);
    assert forall|id: i64| #[trigger] next.records.contains(id) implies manager_has_record(
        more,
        id,
    ) by {
        if has_record(manager.records, id) {
            assert(has_record(more[found.len() as int].records, id));
        } else {
            assert(used.records.contains(id));
            let k = choose|k: int|
                0 <= k < found.len() && has_record((#[trigger] found[k]).records, id);
            assert(has_record(more[k].records, id));
        }
    }
    assert forall|id: i64| #[trigger] next.blobs.contains(id) implies manager_has_blob(
        more,
        id,
    ) by {
        if record_has_blob(manager.records, id) {
            assert(record_has_blob(more[found.len() as int].records, id));
        } else {
            assert(used.blobs.contains(id));
            let k = choose|k: int|
                0 <= k < found.len() && record_has_blob((#[trigger] found[k]).records, id);
            assert(record_has_blob(more[k].records, id));
        }
    }
}

proof fn managers_use_all_rows(
    rows: RecordingRows,
    managers: Seq<ManagerRow>,
    at: int,
    used: UsedRows,
    found: Seq<ManagerModel>,
) -> (last: UsedRows)
    requires
        used_by_managers(used, found),
        timelapse::managers_from(rows, managers, at, used, found) is Ok,
    ensures
        used_by_managers(last, timelapse::managers_from(rows, managers, at, used, found)->Ok_0),
        last.records.len() == rows.records.len(),
        last.blobs.len() == rows.blobs.len(),
    decreases managers.len() - at,
{
    if at < managers.len() {
        let none = Seq::<RecordModel>::empty();
        let first = managers[at].first_record_id;
        used_records_are_chained(rows, managers[at].canvas_id, first, used, used, none);
        let (next, records) = timelapse::record_chain(
            rows,
            managers[at].canvas_id,
            first,
            used,
            none,
        )->Ok_0;
        let manager = ManagerModel {
            id: managers[at].id,
            canvas_id: managers[at].canvas_id,
            records,
        };
        one_manager_more(used, next, found, manager);
        managers_use_all_rows(rows, managers, at + 1, next, found.push(manager))
    } else {
        used
    }
}

proof fn full_part_is_all(part: Set<i64>, ids: Seq<i64>)
    requires
        ids.no_duplicates(),
        part.len() == ids.len(),
        forall|id: i64| #[trigger] part.contains(id) ==> ids.contains(id),
    ensures
        forall|id: i64| #[trigger] ids.contains(id) ==> part.contains(id),
{
    ids.unique_seq_to_set();
    seq_lib::seq_to_set_is_finite(ids);
    assert(part.subset_of(ids.to_set()));
    set_lib::lemma_set_subset_finite(ids.to_set(), part);
    set_lib::lemma_subset_equality(part, ids.to_set());
    assert forall|id: i64| #[trigger] ids.contains(id) implies part.contains(id) by {
        assert(ids.to_set().contains(id));
    }
}

proof fn placed_record_is_stored(
    rows: RecordingRows,
    stored: Seq<ManagerRow>,
    managers: Seq<ManagerModel>,
    id: i64,
)
    requires
        managers.len() == stored.len(),
        forall|i: int|
            0 <= i < managers.len() ==> manager_is_stored(rows, stored[i], #[trigger] managers[i]),
    ensures
        manager_has_record(managers, id) ==> exists|k: int|
            0 <= k < rows.records.len() && (#[trigger] rows.records[k]).id == id,
        manager_has_blob(managers, id) ==> has_blob(rows.blobs, id),
{
    if manager_has_record(managers, id) {
        let i = choose|i: int|
            0 <= i < managers.len() && has_record((#[trigger] managers[i]).records, id);
        let chain = managers[i].records;
        let r = choose|r: int| 0 <= r < chain.len() && (#[trigger] chain[r]).id == id;
        assert(record_is_stored(rows, chain[r]));
    }
    if manager_has_blob(managers, id) {
        let i = choose|i: int|
            0 <= i < managers.len() && record_has_blob((#[trigger] managers[i]).records, id);
        let chain = managers[i].records;
        let r = choose|r: int| 0 <= r < chain.len() && has_blob((#[trigger] chain[r]).blobs, id);
        assert(record_is_stored(rows, chain[r]));
        let blobs = chain[r].blobs;
        let b = choose|b: int| 0 <= b < blobs.len() && (#[trigger] blobs[b]).id == id;
        assert(rows.blobs.contains(blobs[b]));
        let k = choose|k: int| 0 <= k < rows.blobs.len() && rows.blobs[k] == blobs[b];
        assert(rows.blobs[k].id == id);
    }
}

/// Recordings that are accepted leave no row out: every record that is stored is in one of the
/// managers, and every blob in one of their records.
pub proof fn recordings_hold_every_row(reply: sql::ReplyModel, rows: RecordingRows)
    requires
        timelapse::unique_records(rows.records),
        timelapse::unique_blobs(rows.blobs),
        timelapse::managers_of(reply, rows) is Ok,
    ensures
        ({
            let managers = timelapse::managers_of(reply, rows)->Ok_0;
            &&& forall|k: int|
                0 <= k < rows.records.len() ==> manager_has_record(
                    managers,
                    (#[trigger] rows.records[k]).id,
                )
            &&& forall|k: int|
                0 <= k < rows.blobs.len() ==> manager_has_blob(
                    managers,
                    (#[trigger] rows.blobs[k]).id,
                )
        }),
{
    let stored = sql::collected::<ManagerRow>(reply)->Ok_0;
    let managers = timelapse::managers_of(reply, rows)->Ok_0;
    let none = Seq::<ManagerModel>::empty();
    found_managers_are_linked(rows, stored, 0, timelapse::no_rows_used(), none);
    let last = managers_use_all_rows(rows, stored, 0, timelapse::no_rows_used(), none);
    let records = Seq::new(rows.records.len(), |k: int| rows.records[k].id);
    let blobs = Seq::new(rows.blobs.len(), |k: int| rows.blobs[k].id);
    assert forall|i: int, j: int| 0 <= i < j < records.len() implies records[i] != records[j] by {
        assert(rows.records[i].id != rows.records[j].id);
    }
    assert forall|i: int, j: int| 0 <= i < j < blobs.len() implies blobs[i] != blobs[j] by {
        assert(rows.blobs[i].id != rows.blobs[j].id);
    }
    assert forall|id: i64| #[trigger] last.records.contains(id) implies records.contains(id) by {
        placed_record_is_stored(rows, stored, managers, id);
        let k = choose|k: int| 0 <= k < rows.records.len() && (#[trigger] rows.records[k]).id == id;
        assert(records[k] == id);
    }
    assert forall|id: i64| #[trigger] last.blobs.contains(id) implies blobs.contains(id) by {
        placed_record_is_stored(rows, stored, managers, id);
        let k = choose|k: int| 0 <= k < rows.blobs.len() && (#[trigger] rows.blobs[k]).id == id;
        assert(blobs[k] == id);
    }
    full_part_is_all(last.records, records);
    full_part_is_all(last.blobs, blobs);
    assert forall|k: int| 0 <= k < rows.records.len() implies manager_has_record(
        managers,
        (#[trigger] rows.records[k]).id,
    ) by {
        assert(records[k] == rows.records[k].id);
        assert(records.contains(rows.records[k].id));
        assert(last.records.contains(rows.records[k].id));
    }
    assert forall|k: int| 0 <= k < rows.blobs.len() implies manager_has_blob(
        managers,
        (#[trigger] rows.blobs[k]).id,
    ) by {
        assert(blobs[k] == rows.blobs[k].id);
        assert(blobs.contains(rows.blobs[k].id));
        assert(last.blobs.contains(rows.blobs[k].id));
    }
}

/// The stream of a blob is the compressed part of its external data, which has the size that
/// the blob tells with the four bytes before it.
pub proof fn blob_stream_is_its_external_data(
    file: ClipFile,
    object: Option<ExternalObjectModel>,
    blob: BlobModel,
    limits: Limits,
)
    requires
        timelapse::blob_stream_of(file, object, blob, limits) is Ok,
    ensures
        ({
            let stream = timelapse::blob_stream_of(file, object, blob, limits)->Ok_0;
            &&& object is Some
            &&& object->Some_0.body matches ExternalBody::LengthPrefixedZlib(found)
                && found.byte_order == ByteOrder::BigEndian && stream == file.data@.subrange(
                found.compressed_offset as int,
                found.compressed_offset + found.compressed_size,
            )
            &&& stream.len() + 4 == blob.stored_size
            &&& stream.len() <= limits.max_time_lapse_blob_bytes
        }),
{
}

/// Whether data is what the stream of a blob decompresses to.
pub open spec fn is_blob_data(
    connection: Connection,
    file: ClipFile,
    schema: Seq<database::TableModel>,
    blob: BlobModel,
    limits: Limits,
    data: Seq<u8>,
) -> bool {
    &&& data.len() == blob.decoded_size
    &&& exists|stream: Seq<u8>|
        {
            &&& #[trigger] timelapse::blob_stream_read(
                connection,
                file,
                schema,
                blob,
                limits,
                Ok(stream),
            )
            &&& zlib::zlib_inflated(stream, error::one_more(blob.decoded_size as nat)) == Some(data)
        }
}

/// A blob that is read has the size that it tells, and is what its stream decompresses to.
pub proof fn read_blob_is_its_decompressed_stream(
    connection: Connection,
    file: ClipFile,
    schema: Seq<database::TableModel>,
    blob: BlobModel,
    limits: Limits,
    data: Seq<u8>,
)
    requires
        timelapse::blob_read(connection, file, schema, blob, limits, Ok(data)),
    ensures
        is_blob_data(connection, file, schema, blob, limits, data),
{
    let stream = choose|stream: Result<Seq<u8>, Failure>|
        #[trigger] timelapse::blob_stream_read(
            connection,
            file,
            schema,
            blob,
            limits,
            stream,
        ) && Ok::<Seq<u8>, Failure>(data) == match stream {
            Err(failure) => Err::<Seq<u8>, Failure>(failure),
            Ok(stream) => timelapse::blob_data_of(stream, blob),
        };
    assert(stream == Ok::<Seq<u8>, Failure>(stream->Ok_0));
}

/// Whether pieces are the data of the blobs of a record from one on, in order.
pub open spec fn are_blob_data(
    connection: Connection,
    file: ClipFile,
    schema: Seq<database::TableModel>,
    blobs: Seq<BlobModel>,
    limits: Limits,
    at: int,
    pieces: Seq<Seq<u8>>,
) -> bool {
    &&& pieces.len() == blobs.len() - at
    &&& forall|i: int|
        0 <= i < pieces.len() ==> is_blob_data(
            connection,
            file,
            schema,
            blobs[at + i],
            limits,
            #[trigger] pieces[i],
        )
}

/// Whether frames are those of the stream that pieces make one after another, which are the
/// data of the blobs of a record from one on.
pub open spec fn are_frames_of(
    connection: Connection,
    file: ClipFile,
    schema: Seq<database::TableModel>,
    record: RecordModel,
    limits: Limits,
    at: int,
    scanner: ScannerModel,
    pieces: Seq<Seq<u8>>,
    found: Seq<FrameModel>,
) -> bool {
    &&& are_blob_data(connection, file, schema, record.blobs, limits, at, pieces)
    &&& frames::scanned(scanner, laid_out(pieces)) is Ok
    &&& frames::finished(
        frames::scanned(scanner, laid_out(pieces))->Ok_0,
        record.id,
        timelapse::decoded_total(record.blobs, record.blobs.len() as int),
        record.encoder_sequence,
    ) == Ok::<Seq<FrameModel>, Failure>(found)
}

proof fn one_blob_scanned(
    connection: Connection,
    file: ClipFile,
    schema: Seq<database::TableModel>,
    record: RecordModel,
    limits: Limits,
    at: int,
    scanner: ScannerModel,
    found: Seq<FrameModel>,
) -> (data: Seq<u8>)
    requires
        0 <= at < record.blobs.len(),
        timelapse::frames_read(
            connection,
            file,
            schema,
            record,
            limits,
            at,
            scanner,
            Ok(found),
        ),
    ensures
        is_blob_data(connection, file, schema, record.blobs[at], limits, data),
        frames::scanned(scanner, data) is Ok,
        timelapse::frames_read(
            connection,
            file,
            schema,
            record,
            limits,
            at + 1,
            frames::scanned(scanner, data)->Ok_0,
            Ok(found),
        ),
{
    let outcome = Ok::<Seq<FrameModel>, Failure>(found);
    let blob = record.blobs[at];
    let stream = choose|stream: Result<Seq<u8>, Failure>|
        #[trigger] timelapse::blob_stream_read(
            connection,
            file,
            schema,
            record.blobs[at],
            limits,
            stream,
        ) && match stream {
            Err(failure) => outcome == Err::<Seq<FrameModel>, Failure>(failure),
            Ok(stream) => match zlib::zlib_inflated(
                stream,
                timelapse::decode_bound(record.blobs[at]),
            ) {
                None => timelapse::broken_blob_scanned(scanner, outcome),
                Some(data) => match frames::scanned(scanner, data) {
                    Err(failure) => outcome == Err::<Seq<FrameModel>, Failure>(failure),
                    Ok(next) => if data.len() != record.blobs[at].decoded_size {
                        outcome == Err::<Seq<FrameModel>, Failure>(
                            Failure::InvalidTimeLapse {
                                reason: timelapse::size_complaint(
                                    record.blobs[at],
                                    data.len() as int,
                                ),
                            },
                        )
                    } else {
                        timelapse::frames_read(
                            connection,
                            file,
                            schema,
                            record,
                            limits,
                            at + 1,
                            next,
                            outcome,
                        )
                    },
                },
            },
        };
    let data = zlib::zlib_inflated(stream->Ok_0, timelapse::decode_bound(blob))->Some_0;
    assert(stream == Ok::<Seq<u8>, Failure>(stream->Ok_0));
    data
}

#[verifier::spinoff_prover]
#[verifier::rlimit(60)]
proof fn one_blob_before(
    connection: Connection,
    file: ClipFile,
    schema: Seq<database::TableModel>,
    record: RecordModel,
    limits: Limits,
    at: int,
    scanner: ScannerModel,
    data: Seq<u8>,
    rest: Seq<Seq<u8>>,
    found: Seq<FrameModel>,
)
    requires
        0 <= at < record.blobs.len(),
        is_blob_data(connection, file, schema, record.blobs[at], limits, data),
        frames::scanned(scanner, data) is Ok,
        are_frames_of(
            connection,
            file,
            schema,
            record,
            limits,
            at + 1,
            frames::scanned(scanner, data)->Ok_0,
            rest,
            found,
        ),
    ensures
        are_frames_of(
            connection,
            file,
            schema,
            record,
            limits,
            at,
            scanner,
            seq![data] + rest,
            found,
        ),
{
    let pieces = seq![data] + rest;
    laid_out_after(data, rest);
    frames::scanning_in_pieces(scanner, data, laid_out(rest));
    assert forall|i: int| 0 <= i < pieces.len() implies is_blob_data(
        connection,
        file,
        schema,
        record.blobs[at + i],
        limits,
        #[trigger] pieces[i],
    ) by {
        if i > 0 {
            assert(pieces[i] == rest[i - 1]);
            assert(record.blobs[at + 1 + (i - 1)] == record.blobs[at + i]);
        }
    }
}

/// The frames that are read of a record are those of the stream that its blobs make one after
/// another, whatever the places at which it is cut into blobs.
pub proof fn frames_are_those_of_the_joined_blobs(
    connection: Connection,
    file: ClipFile,
    schema: Seq<database::TableModel>,
    record: RecordModel,
    limits: Limits,
    at: int,
    scanner: ScannerModel,
    found: Seq<FrameModel>,
)
    requires
        0 <= at <= record.blobs.len(),
        timelapse::frames_read(
            connection,
            file,
            schema,
            record,
            limits,
            at,
            scanner,
            Ok(found),
        ),
    ensures
        exists|pieces: Seq<Seq<u8>>| #[trigger]
            are_frames_of(
                connection,
                file,
                schema,
                record,
                limits,
                at,
                scanner,
                pieces,
                found,
            ),
    decreases record.blobs.len() - at,
{
    if at >= record.blobs.len() {
        let none = Seq::<Seq<u8>>::empty();
        assert(laid_out(none) =~= Seq::<u8>::empty());
        assert(are_frames_of(
            connection,
            file,
            schema,
            record,
            limits,
            at,
            scanner,
            none,
            found,
        ));
    } else {
        let data = one_blob_scanned(
            connection,
            file,
            schema,
            record,
            limits,
            at,
            scanner,
            found,
        );
        let next = frames::scanned(scanner, data)->Ok_0;
        frames_are_those_of_the_joined_blobs(
            connection,
            file,
            schema,
            record,
            limits,
            at + 1,
            next,
            found,
        );
        let rest = choose|pieces: Seq<Seq<u8>>| #[trigger]
            are_frames_of(
                connection,
                file,
                schema,
                record,
                limits,
                at + 1,
                next,
                pieces,
                found,
            );
        one_blob_before(
            connection,
            file,
            schema,
            record,
            limits,
            at,
            scanner,
            data,
            rest,
            found,
        );
    }
}

proof fn laid_out_after(first: Seq<u8>, rest: Seq<Seq<u8>>)
    ensures
        laid_out(seq![first] + rest) == first + laid_out(rest),
    decreases rest.len(),
{
    let all = seq![first] + rest;
    if rest.len() == 0 {
        assert(all.drop_last() =~= Seq::<Seq<u8>>::empty());
        assert(all.last() == first);
        assert(laid_out(Seq::<Seq<u8>>::empty()) == Seq::<u8>::empty());
        assert(laid_out(all) =~= first + laid_out(rest));
    } else {
        laid_out_after(first, rest.drop_last());
        assert(all.drop_last() =~= seq![first] + rest.drop_last());
        assert(all.last() == rest.last());
        assert(laid_out(all) =~= first + laid_out(rest));
    }
}

} // verus!
