//! Time-lapse recordings: their managers, records, and blobs, and how blobs decode.

use std::collections::{BTreeMap, BTreeSet};

use rusqlite::Connection;
use vstd::prelude::*;

use crate::bytes::{copy_bytes, push_bytes};
use crate::columns;
use crate::container::ClipFile;
use crate::database;
use crate::database::{Database, DatabaseSchema};
use crate::error;
use crate::error::{Error, Failure};
use crate::external;
use crate::external::{ByteOrder, ExternalBody, ExternalObject, ExternalObjectModel};
use crate::frames;
use crate::frames::{TimeLapseFrame, TimeLapseFrameScanner};
use crate::limits::Limits;
use crate::message;
use crate::message::Message;
use crate::sql;
use crate::sql::{collect, query_all, query_all_within, FromRow, Reply, SqlModel, SqlRow};
use crate::text_codec::same_text;
use crate::zlib;
use crate::zlib::{decompress, decompress_partial};

verus! {

fn time_lapse_error(reason: Message) -> (error: Error)
    ensures
        error@ == (Failure::InvalidTimeLapse { reason: reason@ }),
{
    Error::InvalidTimeLapse { reason: reason.build() }
}

/// One time-lapse blob row and its opaque external-object identifier.
#[derive(Clone, Debug, PartialEq, Eq)]
pub struct TimeLapseBlob {
    pub id: i64,
    pub canvas_id: i64,
    pub next_blob_id: Option<i64>,
    pub offset: u64,
    pub decoded_size: u64,
    pub stored_size: u64,
    pub kind: i64,
    pub external_identifier: Vec<u8>,
}

/// The model of a [`TimeLapseBlob`].
#[verifier::ext_equal]
pub struct BlobModel {
    pub id: i64,
    pub canvas_id: i64,
    pub next_blob_id: Option<i64>,
    pub offset: u64,
    pub decoded_size: u64,
    pub stored_size: u64,
    pub kind: i64,
    pub external_identifier: Seq<u8>,
}

impl View for TimeLapseBlob {
    type V = BlobModel;

    open spec fn view(&self) -> BlobModel {
        BlobModel {
            id: self.id,
            canvas_id: self.canvas_id,
            next_blob_id: self.next_blob_id,
            offset: self.offset,
            decoded_size: self.decoded_size,
            stored_size: self.stored_size,
            kind: self.kind,
            external_identifier: self.external_identifier@,
        }
    }
}

impl TimeLapseBlob {
    /// `TimeLapseBlob.MainId`.
    #[must_use]
    pub fn id(&self) -> (value: i64)
        ensures
            value == self.id,
    {
        self.id
    }

    /// Owning canvas ID.
    #[must_use]
    pub fn canvas_id(&self) -> (value: i64)
        ensures
            value == self.canvas_id,
    {
        self.canvas_id
    }

    /// Next blob ID, or `None` at the end of the chain.
    #[must_use]
    pub fn next_blob_id(&self) -> (value: Option<i64>)
        ensures
            value == self.next_blob_id,
    {
        self.next_blob_id
    }

    /// Byte offset in the reconstructed decoded stream.
    #[must_use]
    pub fn offset(&self) -> (value: u64)
        ensures
            value == self.offset,
    {
        self.offset
    }

    /// Expected decoded byte count.
    #[must_use]
    pub fn decoded_size(&self) -> (value: u64)
        ensures
            value == self.decoded_size,
    {
        self.decoded_size
    }

    /// Stored byte count including the four-byte compressed-length prefix.
    #[must_use]
    pub fn stored_size(&self) -> (value: u64)
        ensures
            value == self.stored_size,
    {
        self.stored_size
    }

    /// Uninterpreted `BlobType` value.
    #[must_use]
    pub fn kind(&self) -> (value: i64)
        ensures
            value == self.kind,
    {
        self.kind
    }

    /// Opaque external-object identifier from `BlobData`.
    #[must_use]
    pub fn external_identifier(&self) -> (list: &[u8])
        ensures
            list@ == self.external_identifier@,
    {
        self.external_identifier.as_slice()
    }

    fn duplicate(&self) -> (copy: TimeLapseBlob)
        ensures
            copy@ == self@,
    {
        let length: usize = self.external_identifier.len();
        let external_identifier = copy_bytes(self.external_identifier.as_slice(), 0, length);
        assert(external_identifier@ =~= self.external_identifier@);
        TimeLapseBlob {
            id: self.id,
            canvas_id: self.canvas_id,
            next_blob_id: self.next_blob_id,
            offset: self.offset,
            decoded_size: self.decoded_size,
            stored_size: self.stored_size,
            kind: self.kind,
            external_identifier,
        }
    }
}

/// One time-lapse encoder record and its ordered blob chain.
#[derive(Clone, Debug, PartialEq, Eq)]
pub struct TimeLapseRecord {
    pub id: i64,
    pub canvas_id: i64,
    pub next_record_id: Option<i64>,
    pub encoder_name: String,
    pub encoder_sequence: i64,
    pub blobs: Vec<TimeLapseBlob>,
}

/// The model of a [`TimeLapseRecord`].
#[verifier::ext_equal]
pub struct RecordModel {
    pub id: i64,
    pub canvas_id: i64,
    pub next_record_id: Option<i64>,
    pub encoder_name: Seq<char>,
    pub encoder_sequence: i64,
    pub blobs: Seq<BlobModel>,
}

impl View for TimeLapseRecord {
    type V = RecordModel;

    open spec fn view(&self) -> RecordModel {
        RecordModel {
            id: self.id,
            canvas_id: self.canvas_id,
            next_record_id: self.next_record_id,
            encoder_name: self.encoder_name@,
            encoder_sequence: self.encoder_sequence,
            blobs: error::views(self.blobs@),
        }
    }
}

/// How many bytes the first `count` blobs decode to.
pub open spec fn decoded_total(blobs: Seq<BlobModel>, count: int) -> int
    decreases count,
{
    if count <= 0 {
        0
    } else {
        decoded_total(blobs, count - 1) + blobs[count - 1].decoded_size
    }
}

proof fn total_grows(blobs: Seq<BlobModel>, count: int, more: int)
    requires
        0 <= count <= more,
    ensures
        0 <= decoded_total(blobs, count) <= decoded_total(blobs, more),
    decreases more,
{
    if count < more {
        total_grows(blobs, count, more - 1);
    } else if count > 0 {
        total_grows(blobs, count - 1, count - 1);
    }
}

impl TimeLapseRecord {
    /// `TimeLapseRecord.MainId`.
    #[must_use]
    pub fn id(&self) -> (value: i64)
        ensures
            value == self.id,
    {
        self.id
    }

    /// Owning canvas ID.
    #[must_use]
    pub fn canvas_id(&self) -> (value: i64)
        ensures
            value == self.canvas_id,
    {
        self.canvas_id
    }

    /// Next record ID, or `None` at the end of the chain.
    #[must_use]
    pub fn next_record_id(&self) -> (value: Option<i64>)
        ensures
            value == self.next_record_id,
    {
        self.next_record_id
    }

    /// Encoder identifier, observed as `WEBP`.
    #[must_use]
    pub fn encoder_name(&self) -> (text: &str)
        ensures
            text@ == self.encoder_name@,
    {
        self.encoder_name.as_str()
    }

    /// Uninterpreted encoder sequence value.
    #[must_use]
    pub fn encoder_sequence(&self) -> (value: i64)
        ensures
            value == self.encoder_sequence,
    {
        self.encoder_sequence
    }

    /// Ordered contiguous blob chain.
    #[must_use]
    pub fn blobs(&self) -> (list: &[TimeLapseBlob])
        ensures
            list@ == self.blobs@,
    {
        self.blobs.as_slice()
    }

    /// Total decoded byte count across all blobs.
    #[must_use]
    pub fn decoded_size(&self) -> (size: u64)
        requires
            decoded_total(self@.blobs, self@.blobs.len() as int) <= u64::MAX,
        ensures
            size == decoded_total(self@.blobs, self@.blobs.len() as int),
    {
        let mut size: u64 = 0;
        let mut at: usize = 0;
        while at < self.blobs.len()
            invariant
                at <= self.blobs@.len(),
                size == decoded_total(self@.blobs, at as int),
                decoded_total(self@.blobs, self@.blobs.len() as int) <= u64::MAX,
            decreases self.blobs@.len() - at,
        {
            proof {
                total_grows(self@.blobs, at + 1, self@.blobs.len() as int);
                assert(self@.blobs[at as int] == self.blobs@[at as int]@);
            }
            size = size + self.blobs[at].decoded_size;
            at = at + 1;
        }
        size
    }
}

/// One canvas-level time-lapse manager and its ordered record chain.
#[derive(Clone, Debug, PartialEq, Eq)]
pub struct TimeLapseManager {
    pub id: i64,
    pub canvas_id: i64,
    pub records: Vec<TimeLapseRecord>,
}

/// The model of a [`TimeLapseManager`].
#[verifier::ext_equal]
pub struct ManagerModel {
    pub id: i64,
    pub canvas_id: i64,
    pub records: Seq<RecordModel>,
}

impl View for TimeLapseManager {
    type V = ManagerModel;

    open spec fn view(&self) -> ManagerModel {
        ManagerModel {
            id: self.id,
            canvas_id: self.canvas_id,
            records: error::views(self.records@),
        }
    }
}

impl TimeLapseManager {
    /// `TimeLapseManager.MainId`.
    #[must_use]
    pub fn id(&self) -> (value: i64)
        ensures
            value == self.id,
    {
        self.id
    }

    /// Owning canvas ID.
    #[must_use]
    pub fn canvas_id(&self) -> (value: i64)
        ensures
            value == self.canvas_id,
    {
        self.canvas_id
    }

    /// Ordered record chain.
    #[must_use]
    pub fn records(&self) -> (list: &[TimeLapseRecord])
        ensures
            list@ == self.records@,
    {
        self.records.as_slice()
    }
}

/// Validated time-lapse metadata for a document.
#[derive(Clone, Debug, PartialEq, Eq)]
pub struct TimeLapse {
    pub managers: Vec<TimeLapseManager>,
}

impl View for TimeLapse {
    type V = Seq<ManagerModel>;

    open spec fn view(&self) -> Seq<ManagerModel> {
        error::views(self.managers@)
    }
}

impl TimeLapse {
    /// Canvas managers ordered by `MainId`.
    #[must_use]
    pub fn managers(&self) -> (list: &[TimeLapseManager])
        ensures
            list@ == self.managers@,
    {
        self.managers.as_slice()
    }
}

/// A reference, where zero stands for none.
pub open spec fn nonzero_of(value: i64) -> Option<i64> {
    if value != 0 {
        Some(value)
    } else {
        None
    }
}

fn nonzero(value: i64) -> (id: Option<i64>)
    ensures
        id == nonzero_of(value),
{
    if value != 0 {
        Some(value)
    } else {
        None
    }
}

/// The number in a column, which may not be negative.
pub open spec fn size_at(row: Seq<SqlModel>, column: int, field: Seq<char>) -> Result<
    u64,
    Failure,
> {
    match sql::integer_at(row, column) {
        Err(failure) => Err(failure),
        Ok(value) => if value < 0 {
            Err(Failure::InvalidTimeLapse { reason: field + " is negative"@ })
        } else {
            Ok(value as u64)
        },
    }
}

fn read_size(row: &SqlRow, column: usize, field: &str) -> (size: Result<u64, Error>)
    ensures
        error::plain(size) == size_at(row@, column as int, field@),
{
    let value: i64 = row.integer(column)?;
    if value < 0 {
        return Err(time_lapse_error(Message::new(field).text(" is negative")));
    }
    Ok(value as u64)
}

/// The failure of a size that is over its limit.
pub open spec fn over(resource: Seq<char>, value: int, limit: u64) -> Failure {
    Failure::LimitExceeded { resource, value: value as u64, limit }
}

/// The largest stored size of a blob: the largest decoded one and a length prefix.
pub open spec fn stored_limit(limits: Limits) -> u64 {
    if limits.max_time_lapse_blob_bytes > u64::MAX - 4 {
        u64::MAX
    } else {
        (limits.max_time_lapse_blob_bytes + 4) as u64
    }
}

/// The columns of a blob row from the third on: the sizes, and the kind.
pub open spec fn blob_sizes_of(row: Seq<SqlModel>) -> Result<(u64, u64, u64, i64), Failure> {
    match size_at(row, 3, "BlobOffset"@) {
        Err(failure) => Err(failure),
        Ok(offset) => match size_at(row, 4, "BlobSize"@) {
            Err(failure) => Err(failure),
            Ok(decoded_size) => match size_at(row, 5, "BlobSizeCompressed"@) {
                Err(failure) => Err(failure),
                Ok(stored_size) => match sql::integer_at(row, 6) {
                    Err(failure) => Err(failure),
                    Ok(kind) => Ok((offset, decoded_size, stored_size, kind)),
                },
            },
        },
    }
}

/// The blob that a row describes.
pub open spec fn blob_of(row: Seq<SqlModel>, limits: Limits) -> Result<BlobModel, Failure> {
    match (sql::integer_at(row, 0), sql::bytes_at(row, 7)) {
        (Ok(id), Ok(external_identifier)) => if external_identifier.len()
            > limits.max_identifier_size {
            Err(
                over(
                    "time-lapse external identifier"@,
                    external_identifier.len() as int,
                    limits.max_identifier_size,
                ),
            )
        } else {
            match (sql::integer_at(row, 1), sql::integer_at(row, 2)) {
                (Ok(canvas_id), Ok(next)) => match blob_sizes_of(row) {
                    Err(failure) => Err(failure),
                    Ok((offset, decoded_size, stored_size, kind)) => if decoded_size
                        > limits.max_time_lapse_blob_bytes {
                        Err(
                            over(
                                "decoded time-lapse blob bytes"@,
                                decoded_size as int,
                                limits.max_time_lapse_blob_bytes,
                            ),
                        )
                    } else if stored_size < 4 {
                        Err(
                            Failure::InvalidTimeLapse {
                                reason: "blob "@ + message::decimal_signed(id as int)
                                    + " stored size is shorter than its length prefix"@,
                            },
                        )
                    } else if stored_size > stored_limit(limits) {
                        Err(
                            over(
                                "stored time-lapse blob bytes"@,
                                stored_size as int,
                                stored_limit(limits),
                            ),
                        )
                    } else {
                        Ok(
                            BlobModel {
                                id,
                                canvas_id,
                                next_blob_id: nonzero_of(next),
                                offset,
                                decoded_size,
                                stored_size,
                                kind,
                                external_identifier,
                            },
                        )
                    },
                },
                _ => Err(Failure::Sqlite),
            }
        },
        _ => Err(Failure::Sqlite),
    }
}

fn enforce_blob_size(value: u64, limits: Limits) -> (result: Result<(), Error>)
    ensures
        error::plain(result) == if value > limits.max_time_lapse_blob_bytes {
            Err::<(), Failure>(
                over(
                    "decoded time-lapse blob bytes"@,
                    value as int,
                    limits.max_time_lapse_blob_bytes,
                ),
            )
        } else {
            Ok(())
        },
{
    if value > limits.max_time_lapse_blob_bytes() {
        return Err(
            Error::limit(
                "decoded time-lapse blob bytes",
                value,
                limits.max_time_lapse_blob_bytes(),
            ),
        );
    }
    Ok(())
}

fn stored_bound(limits: Limits) -> (limit: u64)
    ensures
        limit == stored_limit(limits),
{
    limits.max_time_lapse_blob_bytes().saturating_add(4)
}

/// The blob that a row describes.
pub fn blob_from_row(row: &SqlRow, limits: Limits) -> (blob: Result<TimeLapseBlob, Error>)
    ensures
        error::outcome(blob) == blob_of(row@, limits),
{
    let id: i64 = row.integer(0)?;
    let external_identifier = row.bytes(7)?;
    let length: u64 = external_identifier.len() as u64;
    if length > limits.max_identifier_size() {
        return Err(
            Error::limit("time-lapse external identifier", length, limits.max_identifier_size()),
        );
    }
    let canvas_id: i64 = row.integer(1)?;
    let next: i64 = row.integer(2)?;
    let offset: u64 = read_size(row, 3, "BlobOffset")?;
    let decoded_size: u64 = read_size(row, 4, "BlobSize")?;
    let stored_size: u64 = read_size(row, 5, "BlobSizeCompressed")?;
    let kind: i64 = row.integer(6)?;
    enforce_blob_size(decoded_size, limits)?;
    if stored_size < 4 {
        return Err(
            time_lapse_error(
                Message::new("blob ").integer(id).text(
                    " stored size is shorter than its length prefix",
                ),
            ),
        );
    }
    if stored_size > stored_bound(limits) {
        return Err(
            Error::limit("stored time-lapse blob bytes", stored_size, stored_bound(limits)),
        );
    }
    Ok(
        TimeLapseBlob {
            id,
            canvas_id,
            next_blob_id: nonzero(next),
            offset,
            decoded_size,
            stored_size,
            kind,
            external_identifier,
        },
    )
}

/// The position of the first blob with an ID at or after `at`, or their number.
pub open spec fn blob_position(blobs: Seq<BlobModel>, id: i64, at: int) -> int
    decreases blobs.len() - at,
{
    if at >= blobs.len() {
        blobs.len() as int
    } else if blobs[at].id == id {
        at
    } else {
        blob_position(blobs, id, at + 1)
    }
}

/// Whether no two blobs have one ID.
pub open spec fn unique_blobs(blobs: Seq<BlobModel>) -> bool {
    forall|i: int, j: int|
        0 <= i < j < blobs.len() ==> (#[trigger] blobs[i]).id != (#[trigger] blobs[j]).id
}

proof fn blob_found(blobs: Seq<BlobModel>, id: i64, at: int)
    requires
        0 <= at <= blobs.len(),
    ensures
        at <= blob_position(blobs, id, at) <= blobs.len(),
        blob_position(blobs, id, at) < blobs.len() ==> blobs[blob_position(blobs, id, at)].id
            == id,
        forall|i: int|
            at <= i < blob_position(blobs, id, at) ==> (#[trigger] blobs[i]).id != id,
    decreases blobs.len() - at,
{
    if at < blobs.len() && blobs[at].id != id {
        blob_found(blobs, id, at + 1);
    }
}

/// The blobs of a reply from `at` on, after the blobs `found` before.
pub open spec fn blobs_from(
    reply: sql::ReplyModel,
    limits: Limits,
    at: int,
    found: Seq<BlobModel>,
) -> Result<Seq<BlobModel>, Failure>
    decreases reply.rows.len() - at,
{
    if at >= reply.rows.len() {
        if reply.failed {
            Err(Failure::Sqlite)
        } else {
            Ok(found)
        }
    } else if found.len() + 1 > limits.max_time_lapse_items {
        Err(over("time-lapse blobs"@, found.len() + 1int, limits.max_time_lapse_items))
    } else {
        match blob_of(reply.rows[at], limits) {
            Err(failure) => Err(failure),
            Ok(blob) => if blob_position(found, blob.id, 0) < found.len() {
                Err(
                    Failure::InvalidTimeLapse {
                        reason: "duplicate blob ID "@ + message::decimal_signed(blob.id as int),
                    },
                )
            } else {
                blobs_from(reply, limits, at + 1, found.push(blob))
            },
        }
    }
}

/// Which position each ID has.
pub open spec fn blob_index(index: Map<i64, usize>, blobs: Seq<BlobModel>) -> bool {
    &&& forall|i: int|
        0 <= i < blobs.len() ==> index.contains_key((#[trigger] blobs[i]).id)
            && index[blobs[i].id] == i
    &&& forall|id: i64| #[trigger] index.contains_key(id) ==> index[id] < blobs.len()
        && blobs[index[id] as int].id == id
}

proof fn indexed_blob(index: Map<i64, usize>, blobs: Seq<BlobModel>, id: i64)
    requires
        blob_index(index, blobs),
    ensures
        index.contains_key(id) ==> blob_position(blobs, id, 0) == index[id],
        !index.contains_key(id) ==> blob_position(blobs, id, 0) == blobs.len(),
        unique_blobs(blobs),
{
    blob_found(blobs, id, 0);
    assert forall|i: int, j: int| 0 <= i < j < blobs.len() implies (#[trigger] blobs[i]).id != (
    #[trigger] blobs[j]).id by {
        assert(index[blobs[i].id] == i && index[blobs[j].id] == j);
    }
    if index.contains_key(id) {
        let position = blob_position(blobs, id, 0);
        assert(position <= index[id]);
        assert(index[blobs[position].id] == position);
    }
}

/// Reads the blobs of a reply, no ID twice.
pub fn blobs_from_reply(reply: &Reply, limits: Limits) -> (blobs: Result<Vec<TimeLapseBlob>, Error>)
    ensures
        error::listed(blobs) == blobs_from(reply@, limits, 0, Seq::empty()),
        blobs matches Ok(blobs) ==> unique_blobs(error::views(blobs@)),
{
    let mut blobs: Vec<TimeLapseBlob> = Vec::new();
    let mut index: BTreeMap<i64, usize> = BTreeMap::new();
    let mut at: usize = 0;
    assert(error::views(blobs@) =~= Seq::<BlobModel>::empty());
    while at < reply.rows.len()
        invariant
            at <= reply.rows@.len(),
            blob_index(index@, error::views(blobs@)),
            blobs_from(reply@, limits, 0, Seq::empty()) == blobs_from(
                reply@,
                limits,
                at as int,
                error::views(blobs@),
            ),
            blobs@.len() <= at,
        decreases reply.rows@.len() - at,
    {
        assert(reply@.rows[at as int] == reply.rows@[at as int]@);
        let ghost before = error::views(blobs@);
        let count: u64 = blobs.len() as u64;
        if count >= limits.max_time_lapse_items() {
            return Err(
                Error::limit("time-lapse blobs", count + 1, limits.max_time_lapse_items()),
            );
        }
        let blob = blob_from_row(&reply.rows[at], limits)?;
        proof {
            indexed_blob(index@, before, blob.id);
        }
        if index.contains_key(&blob.id) {
            return Err(
                time_lapse_error(Message::new("duplicate blob ID ").integer(blob.id)),
            );
        }
        index.insert(blob.id, blobs.len());
        proof {
            error::views_push(blobs@, blob);
            let after = before.push(blob@);
            assert forall|i: int| 0 <= i < after.len() implies index@.contains_key(
                (#[trigger] after[i]).id,
            ) && index@[after[i].id] == i by {
                if i < before.len() {
                    assert(after[i] == before[i]);
                }
            }
        }
        blobs.push(blob);
        at = at + 1;
    }
    proof {
        indexed_blob(index@, error::views(blobs@), 0);
    }
    match reply.failure() {
        Some(error) => Err(error),
        None => Ok(blobs),
    }
}

/// One row of `TimeLapseRecord`.
#[derive(Clone, Debug, PartialEq, Eq)]
pub struct RecordRow {
    pub id: i64,
    pub canvas_id: i64,
    pub next_record_id: Option<i64>,
    pub encoder_name: String,
    pub encoder_sequence: i64,
    pub first_blob_id: Option<i64>,
}

/// The model of a [`RecordRow`].
#[verifier::ext_equal]
pub struct RecordRowModel {
    pub id: i64,
    pub canvas_id: i64,
    pub next_record_id: Option<i64>,
    pub encoder_name: Seq<char>,
    pub encoder_sequence: i64,
    pub first_blob_id: Option<i64>,
}

impl View for RecordRow {
    type V = RecordRowModel;

    open spec fn view(&self) -> RecordRowModel {
        RecordRowModel {
            id: self.id,
            canvas_id: self.canvas_id,
            next_record_id: self.next_record_id,
            encoder_name: self.encoder_name@,
            encoder_sequence: self.encoder_sequence,
            first_blob_id: self.first_blob_id,
        }
    }
}

/// The record that a row describes, after names that took `used` bytes, and the bytes
/// that the names have taken with it.
pub open spec fn record_of(row: Seq<SqlModel>, used: u64, limits: Limits) -> Result<
    (RecordRowModel, u64),
    Failure,
> {
    match (sql::integer_at(row, 0), sql::bytes_at(row, 3), sql::loose_text_at(row, 3)) {
        (Ok(id), Ok(encoded), Ok(encoder_name)) => if used + encoded.len() > u64::MAX {
            Err(Failure::OffsetOverflow)
        } else if used + encoded.len() > limits.max_time_lapse_blob_bytes {
            Err(
                over(
                    "time-lapse encoder names"@,
                    used + encoded.len(),
                    limits.max_time_lapse_blob_bytes,
                ),
            )
        } else {
            match (
                sql::integer_at(row, 1),
                sql::integer_at(row, 2),
                sql::integer_at(row, 4),
                sql::integer_at(row, 5),
            ) {
                (Ok(canvas_id), Ok(next), Ok(encoder_sequence), Ok(first_blob)) => Ok(
                    (
                        RecordRowModel {
                            id,
                            canvas_id,
                            next_record_id: nonzero_of(next),
                            encoder_name,
                            encoder_sequence,
                            first_blob_id: nonzero_of(first_blob),
                        },
                        (used + encoded.len()) as u64,
                    ),
                ),
                _ => Err(Failure::Sqlite),
            }
        },
        _ => Err(Failure::Sqlite),
    }
}

/// The record that a row describes, and the bytes that the names have taken with it.
pub fn record_from_row(row: &SqlRow, used: u64, limits: Limits) -> (record: Result<
    (RecordRow, u64),
    Error,
>)
    ensures
        match record {
            Ok((record, total)) => record_of(row@, used, limits) == Ok::<
                (RecordRowModel, u64),
                Failure,
            >((record@, total)),
            Err(error) => record_of(row@, used, limits) == Err::<(RecordRowModel, u64), Failure>(
                error@,
            ),
        },
{
    let id: i64 = row.integer(0)?;
    let encoded = row.bytes(3)?;
    let encoder_name = row.loose_text(3)?;
    let total: u64 = match used.checked_add(encoded.len() as u64) {
        Some(total) => total,
        None => return Err(Error::OffsetOverflow),
    };
    if total > limits.max_time_lapse_blob_bytes() {
        return Err(
            Error::limit(
                "time-lapse encoder names",
                total,
                limits.max_time_lapse_blob_bytes(),
            ),
        );
    }
    let canvas_id: i64 = row.integer(1)?;
    let next: i64 = row.integer(2)?;
    let encoder_sequence: i64 = row.integer(4)?;
    let first_blob: i64 = row.integer(5)?;
    Ok(
        (
            RecordRow {
                id,
                canvas_id,
                next_record_id: nonzero(next),
                encoder_name,
                encoder_sequence,
                first_blob_id: nonzero(first_blob),
            },
            total,
        ),
    )
}

/// The position of the first record with an ID at or after `at`, or their number.
pub open spec fn record_position(records: Seq<RecordRowModel>, id: i64, at: int) -> int
    decreases records.len() - at,
{
    if at >= records.len() {
        records.len() as int
    } else if records[at].id == id {
        at
    } else {
        record_position(records, id, at + 1)
    }
}

/// Whether no two records have one ID.
pub open spec fn unique_records(records: Seq<RecordRowModel>) -> bool {
    forall|i: int, j: int|
        0 <= i < j < records.len() ==> (#[trigger] records[i]).id != (#[trigger] records[j]).id
}

proof fn record_found(records: Seq<RecordRowModel>, id: i64, at: int)
    requires
        0 <= at <= records.len(),
    ensures
        at <= record_position(records, id, at) <= records.len(),
        record_position(records, id, at) < records.len() ==> records[record_position(
            records,
            id,
            at,
        )].id == id,
        forall|i: int|
            at <= i < record_position(records, id, at) ==> (#[trigger] records[i]).id != id,
    decreases records.len() - at,
{
    if at < records.len() && records[at].id != id {
        record_found(records, id, at + 1);
    }
}

/// The records of a reply from `at` on, after the records `found` before.
pub open spec fn records_from(
    reply: sql::ReplyModel,
    limits: Limits,
    at: int,
    used: u64,
    found: Seq<RecordRowModel>,
) -> Result<Seq<RecordRowModel>, Failure>
    decreases reply.rows.len() - at,
{
    if at >= reply.rows.len() {
        if reply.failed {
            Err(Failure::Sqlite)
        } else {
            Ok(found)
        }
    } else if found.len() + 1 > limits.max_time_lapse_items {
        Err(over("time-lapse records"@, found.len() + 1int, limits.max_time_lapse_items))
    } else {
        match record_of(reply.rows[at], used, limits) {
            Err(failure) => Err(failure),
            Ok((record, total)) => if record_position(found, record.id, 0) < found.len() {
                Err(
                    Failure::InvalidTimeLapse {
                        reason: "duplicate record ID "@ + message::decimal_signed(
                            record.id as int,
                        ),
                    },
                )
            } else {
                records_from(reply, limits, at + 1, total, found.push(record))
            },
        }
    }
}

/// Which position each ID has.
pub open spec fn record_index(index: Map<i64, usize>, records: Seq<RecordRowModel>) -> bool {
    &&& forall|i: int|
        0 <= i < records.len() ==> index.contains_key((#[trigger] records[i]).id)
            && index[records[i].id] == i
    &&& forall|id: i64| #[trigger] index.contains_key(id) ==> index[id] < records.len()
        && records[index[id] as int].id == id
}

proof fn indexed_record(index: Map<i64, usize>, records: Seq<RecordRowModel>, id: i64)
    requires
        record_index(index, records),
    ensures
        index.contains_key(id) ==> record_position(records, id, 0) == index[id],
        !index.contains_key(id) ==> record_position(records, id, 0) == records.len(),
        unique_records(records),
{
    record_found(records, id, 0);
    assert forall|i: int, j: int| 0 <= i < j < records.len() implies (#[trigger] records[i]).id != (
    #[trigger] records[j]).id by {
        assert(index[records[i].id] == i && index[records[j].id] == j);
    }
    if index.contains_key(id) {
        let position = record_position(records, id, 0);
        assert(position <= index[id]);
        assert(index[records[position].id] == position);
    }
}

/// Reads the records of a reply, no ID twice.
pub fn records_from_reply(reply: &Reply, limits: Limits) -> (records: Result<Vec<RecordRow>, Error>)
    ensures
        error::listed(records) == records_from(reply@, limits, 0, 0, Seq::empty()),
        records matches Ok(records) ==> unique_records(error::views(records@)),
{
    let mut records: Vec<RecordRow> = Vec::new();
    let mut index: BTreeMap<i64, usize> = BTreeMap::new();
    let mut at: usize = 0;
    let mut used: u64 = 0;
    assert(error::views(records@) =~= Seq::<RecordRowModel>::empty());
    while at < reply.rows.len()
        invariant
            at <= reply.rows@.len(),
            record_index(index@, error::views(records@)),
            records_from(reply@, limits, 0, 0, Seq::empty()) == records_from(
                reply@,
                limits,
                at as int,
                used,
                error::views(records@),
            ),
            records@.len() <= at,
        decreases reply.rows@.len() - at,
    {
        assert(reply@.rows[at as int] == reply.rows@[at as int]@);
        let ghost before = error::views(records@);
        let count: u64 = records.len() as u64;
        if count >= limits.max_time_lapse_items() {
            return Err(
                Error::limit("time-lapse records", count + 1, limits.max_time_lapse_items()),
            );
        }
        let (record, total) = record_from_row(&reply.rows[at], used, limits)?;
        proof {
            indexed_record(index@, before, record.id);
        }
        if index.contains_key(&record.id) {
            return Err(
                time_lapse_error(Message::new("duplicate record ID ").integer(record.id)),
            );
        }
        index.insert(record.id, records.len());
        proof {
            error::views_push(records@, record);
            let after = before.push(record@);
            assert forall|i: int| 0 <= i < after.len() implies index@.contains_key(
                (#[trigger] after[i]).id,
            ) && index@[after[i].id] == i by {
                if i < before.len() {
                    assert(after[i] == before[i]);
                }
            }
        }
        records.push(record);
        used = total;
        at = at + 1;
    }
    proof {
        indexed_record(index@, error::views(records@), 0);
    }
    match reply.failure() {
        Some(error) => Err(error),
        None => Ok(records),
    }
}

/// The chain of blobs from `current` on, after the blobs `ordered` that end at
/// `offset`, and the blobs used by then.
pub open spec fn blob_chain(
    blobs: Seq<BlobModel>,
    limit: u64,
    canvas_id: i64,
    current: Option<i64>,
    offset: u64,
    used: Set<i64>,
    ordered: Seq<BlobModel>,
) -> Result<(Set<i64>, Seq<BlobModel>), Failure>
    decreases limit - ordered.len(),
{
    match current {
        None => Ok((used, ordered)),
        Some(id) => {
            let position = blob_position(blobs, id, 0);
            let blob = blobs[position];
            if ordered.len() + 1 > limit {
                Err(over("time-lapse blob chain"@, error::one_more(ordered.len()) as int, limit))
            } else if used.contains(id) || position >= blobs.len() || blob.canvas_id != canvas_id
                || blob.offset != offset {
                Err(
                    Failure::InvalidTimeLapse {
                        reason: "blob "@ + message::decimal_signed(id as int) + (if used.contains(
                            id,
                        ) {
                            " is cyclic or shared"@
                        } else if position >= blobs.len() {
                            " is missing"@
                        } else {
                            " has a noncontiguous offset or different canvas"@
                        }),
                    },
                )
            } else if offset + blob.decoded_size > u64::MAX {
                Err(Failure::OffsetOverflow)
            } else {
                blob_chain(
                    blobs,
                    limit,
                    canvas_id,
                    blob.next_blob_id,
                    (offset + blob.decoded_size) as u64,
                    used.insert(id),
                    ordered.push(blob),
                )
            }
        },
    }
}

/// Whether blobs lie end to end from the start of a stream.
pub open spec fn blobs_contiguous(blobs: Seq<BlobModel>) -> bool {
    &&& forall|i: int|
        0 <= i < blobs.len() ==> (#[trigger] blobs[i]).offset == decoded_total(blobs, i)
    &&& decoded_total(blobs, blobs.len() as int) <= u64::MAX
}

proof fn total_of_prefix(blobs: Seq<BlobModel>, more: Seq<BlobModel>, count: int)
    requires
        0 <= count <= blobs.len(),
        count <= more.len(),
        forall|i: int| 0 <= i < count ==> blobs[i] == more[i],
    ensures
        decoded_total(blobs, count) == decoded_total(more, count),
    decreases count,
{
    if count > 0 {
        total_of_prefix(blobs, more, count - 1);
    }
}

/// The blobs of a chain lie end to end from the start of the stream, and belong to the
/// canvas of their record.
pub proof fn chained_blobs_are_contiguous(
    blobs: Seq<BlobModel>,
    limit: u64,
    canvas_id: i64,
    current: Option<i64>,
    offset: u64,
    used: Set<i64>,
    ordered: Seq<BlobModel>,
)
    requires
        blobs_contiguous(ordered),
        offset == decoded_total(ordered, ordered.len() as int),
        forall|i: int| 0 <= i < ordered.len() ==> (#[trigger] ordered[i]).canvas_id == canvas_id,
    ensures
        blob_chain(blobs, limit, canvas_id, current, offset, used, ordered) matches Ok(chain) ==> {
            &&& blobs_contiguous(chain.1)
            &&& forall|i: int|
                0 <= i < chain.1.len() ==> (#[trigger] chain.1[i]).canvas_id == canvas_id
        },
    decreases limit - ordered.len(),
{
    if let Some(id) = current {
        if blob_chain(blobs, limit, canvas_id, current, offset, used, ordered) is Ok {
            let blob = blobs[blob_position(blobs, id, 0)];
            let more = ordered.push(blob);
            total_of_prefix(ordered, more, ordered.len() as int);
            assert forall|i: int| 0 <= i < more.len() implies (#[trigger] more[i]).offset
                == decoded_total(more, i) by {
                total_of_prefix(ordered, more, i);
                if i < ordered.len() {
                    assert(more[i] == ordered[i]);
                }
            }
            chained_blobs_are_contiguous(
                blobs,
                limit,
                canvas_id,
                blob.next_blob_id,
                (offset + blob.decoded_size) as u64,
                used.insert(id),
                more,
            );
        }
    }
}

fn order_blobs(
    blobs: &[TimeLapseBlob],
    index: &BTreeMap<i64, usize>,
    limit: u64,
    canvas_id: i64,
    first: Option<i64>,
    used: &mut BTreeSet<i64>,
) -> (chain: Result<Vec<TimeLapseBlob>, Error>)
    requires
        blob_index(index@, error::views(blobs@)),
    ensures
        match chain {
            Ok(chain) => blob_chain(
                error::views(blobs@),
                limit,
                canvas_id,
                first,
                0,
                old(used)@,
                Seq::empty(),
            ) == Ok::<(Set<i64>, Seq<BlobModel>), Failure>((final(used)@, error::views(chain@))),
            Err(error) => blob_chain(
                error::views(blobs@),
                limit,
                canvas_id,
                first,
                0,
                old(used)@,
                Seq::empty(),
            ) == Err::<(Set<i64>, Seq<BlobModel>), Failure>(error@),
        },
{
    let ghost models = error::views(blobs@);
    let ghost whole = blob_chain(models, limit, canvas_id, first, 0, used@, Seq::empty());
    let mut ordered: Vec<TimeLapseBlob> = Vec::new();
    let mut offset: u64 = 0;
    let mut current: Option<i64> = first;
    assert(error::views(ordered@) =~= Seq::<BlobModel>::empty());
    loop
        invariant
            models == error::views(blobs@),
            blob_index(index@, models),
            ordered@.len() <= limit,
            whole == blob_chain(
                models,
                limit,
                canvas_id,
                first,
                0,
                old(used)@,
                Seq::empty(),
            ),
            whole == blob_chain(
                models,
                limit,
                canvas_id,
                current,
                offset,
                used@,
                error::views(ordered@),
            ),
        decreases limit - ordered@.len(),
    {
        let id: i64 = match current {
            Some(id) => id,
            None => return Ok(ordered),
        };
        let count: u64 = ordered.len() as u64;
        if count >= limit {
            return Err(Error::limit("time-lapse blob chain", count.saturating_add(1), limit));
        }
        proof {
            indexed_blob(index@, models, id);
        }
        if used.contains(&id) {
            return Err(
                time_lapse_error(
                    Message::new("blob ").integer(id).text(" is cyclic or shared"),
                ),
            );
        }
        let position: usize = match index.get(&id) {
            Some(position) => *position,
            None => {
                return Err(
                    time_lapse_error(Message::new("blob ").integer(id).text(" is missing")),
                );
            },
        };
        let blob = &blobs[position];
        assert(models[position as int] == blob@);
        if blob.canvas_id != canvas_id || blob.offset != offset {
            return Err(
                time_lapse_error(
                    Message::new("blob ").integer(id).text(
                        " has a noncontiguous offset or different canvas",
                    ),
                ),
            );
        }
        let next: u64 = match offset.checked_add(blob.decoded_size) {
            Some(next) => next,
            None => return Err(Error::OffsetOverflow),
        };
        used.insert(id);
        let copy = blob.duplicate();
        proof {
            error::views_push(ordered@, copy);
        }
        ordered.push(copy);
        offset = next;
        current = blob.next_blob_id;
    }
}

/// One row of `TimeLapseManager`.
#[derive(Clone, Copy, Debug, PartialEq, Eq)]
pub struct ManagerRow {
    pub id: i64,
    pub canvas_id: i64,
    pub first_record_id: Option<i64>,
}

impl View for ManagerRow {
    type V = ManagerRow;

    open spec fn view(&self) -> ManagerRow {
        *self
    }
}

impl FromRow for ManagerRow {
    open spec fn row_model(row: Seq<SqlModel>) -> Result<ManagerRow, Failure> {
        match (sql::integer_at(row, 0), sql::integer_at(row, 1), sql::integer_at(row, 2)) {
            (Ok(id), Ok(canvas_id), Ok(first)) => Ok(
                ManagerRow { id, canvas_id, first_record_id: nonzero_of(first) },
            ),
            _ => Err(Failure::Sqlite),
        }
    }

    fn read_row(row: &SqlRow) -> (value: Result<ManagerRow, Error>) {
        Ok(
            ManagerRow {
                id: row.integer(0)?,
                canvas_id: row.integer(1)?,
                first_record_id: nonzero(row.integer(2)?),
            },
        )
    }
}

/// The rows that recordings are made of.
pub struct RecordingRows {
    pub records: Seq<RecordRowModel>,
    pub blobs: Seq<BlobModel>,
    pub limit: u64,
}

/// The rows that have found their place.
#[verifier::ext_equal]
pub struct UsedRows {
    pub records: Set<i64>,
    pub blobs: Set<i64>,
}

/// The IDs of records.
pub open spec fn record_ids(records: Seq<RecordRowModel>) -> Set<i64> {
    Seq::new(records.len(), |i: int| records[i].id).to_set()
}

/// How many records have not been used yet.
pub open spec fn unused_records(records: Seq<RecordRowModel>, used: Set<i64>) -> nat {
    record_ids(records).difference(used).len()
}

pub(crate) proof fn one_record_fewer(records: Seq<RecordRowModel>, used: Set<i64>, id: i64)
    requires
        record_position(records, id, 0) < records.len(),
        !used.contains(id),
    ensures
        unused_records(records, used.insert(id)) + 1 == unused_records(records, used),
{
    let ids = Seq::new(records.len(), |i: int| records[i].id);
    record_found(records, id, 0);
    assert(ids[record_position(records, id, 0)] == id);
    vstd::seq_lib::seq_to_set_is_finite(ids);
    assert(record_ids(records).contains(id));
    assert(record_ids(records).difference(used.insert(id)) =~= record_ids(records).difference(
        used,
    ).remove(id));
}

/// The chain of records from `current` on, after the records `ordered`, and the rows
/// used by then.
pub open spec fn record_chain(
    rows: RecordingRows,
    canvas_id: i64,
    current: Option<i64>,
    used: UsedRows,
    ordered: Seq<RecordModel>,
) -> Result<(UsedRows, Seq<RecordModel>), Failure>
    decreases unused_records(rows.records, used.records),
    via record_chain_ends
{
    match current {
        None => Ok((used, ordered)),
        Some(id) => {
            let position = record_position(rows.records, id, 0);
            let row = rows.records[position];
            if used.records.contains(id) || position >= rows.records.len() || row.canvas_id
                != canvas_id {
                Err(
                    Failure::InvalidTimeLapse {
                        reason: "record "@ + message::decimal_signed(id as int) + (
                        if used.records.contains(id) {
                            " is cyclic or shared"@
                        } else if position >= rows.records.len() {
                            " is missing"@
                        } else {
                            " belongs to a different canvas"@
                        }),
                    },
                )
            } else {
                match blob_chain(
                    rows.blobs,
                    rows.limit,
                    row.canvas_id,
                    row.first_blob_id,
                    0,
                    used.blobs,
                    Seq::empty(),
                ) {
                    Err(failure) => Err(failure),
                    Ok((used_blobs, blobs)) => record_chain(
                        rows,
                        canvas_id,
                        row.next_record_id,
                        UsedRows { records: used.records.insert(id), blobs: used_blobs },
                        ordered.push(record_with(row, blobs)),
                    ),
                }
            }
        },
    }
}

#[via_fn]
proof fn record_chain_ends(
    rows: RecordingRows,
    canvas_id: i64,
    current: Option<i64>,
    used: UsedRows,
    ordered: Seq<RecordModel>,
) {
    if let Some(id) = current {
        let position = record_position(rows.records, id, 0);
        if !used.records.contains(id) && position < rows.records.len() {
            one_record_fewer(rows.records, used.records, id);
        }
    }
}

/// A record with its blobs.
pub open spec fn record_with(row: RecordRowModel, blobs: Seq<BlobModel>) -> RecordModel {
    RecordModel {
        id: row.id,
        canvas_id: row.canvas_id,
        next_record_id: row.next_record_id,
        encoder_name: row.encoder_name,
        encoder_sequence: row.encoder_sequence,
        blobs,
    }
}

/// The managers from `at` on with their records, after the managers `found`; all rows
/// have to find their place.
pub open spec fn managers_from(
    rows: RecordingRows,
    managers: Seq<ManagerRow>,
    at: int,
    used: UsedRows,
    found: Seq<ManagerModel>,
) -> Result<Seq<ManagerModel>, Failure>
    decreases managers.len() - at,
{
    if at >= managers.len() {
        if used.records.len() != rows.records.len() || used.blobs.len() != rows.blobs.len() {
            Err(
                Failure::InvalidTimeLapse {
                    reason: "time-lapse tables contain unreachable records or blobs"@,
                },
            )
        } else {
            Ok(found)
        }
    } else {
        match record_chain(
            rows,
            managers[at].canvas_id,
            managers[at].first_record_id,
            used,
            Seq::empty(),
        ) {
            Err(failure) => Err(failure),
            Ok((next, records)) => managers_from(
                rows,
                managers,
                at + 1,
                next,
                found.push(
                    ManagerModel {
                        id: managers[at].id,
                        canvas_id: managers[at].canvas_id,
                        records,
                    },
                ),
            ),
        }
    }
}

/// Nothing has found its place yet.
pub open spec fn no_rows_used() -> UsedRows {
    UsedRows { records: Set::empty(), blobs: Set::empty() }
}

/// The managers that a reply lists, with the records and blobs that belong to them.
pub open spec fn managers_of(reply: sql::ReplyModel, rows: RecordingRows) -> Result<
    Seq<ManagerModel>,
    Failure,
> {
    match sql::collected::<ManagerRow>(reply) {
        Err(failure) => Err(failure),
        Ok(managers) => if managers.len() > rows.limit {
            Err(over("time-lapse managers"@, managers.len() as int, rows.limit))
        } else {
            managers_from(rows, managers, 0, no_rows_used(), Seq::empty())
        },
    }
}

fn order_records(
    records: &[RecordRow],
    record_places: &BTreeMap<i64, usize>,
    blobs: &[TimeLapseBlob],
    blob_places: &BTreeMap<i64, usize>,
    limit: u64,
    manager: ManagerRow,
    used_records: &mut BTreeSet<i64>,
    used_blobs: &mut BTreeSet<i64>,
) -> (chain: Result<Vec<TimeLapseRecord>, Error>)
    requires
        record_index(record_places@, error::views(records@)),
        blob_index(blob_places@, error::views(blobs@)),
    ensures
        ({
            let rows = RecordingRows {
                records: error::views(records@),
                blobs: error::views(blobs@),
                limit,
            };
            let before = UsedRows { records: old(used_records)@, blobs: old(used_blobs)@ };
            let expected = record_chain(
                rows,
                manager.canvas_id,
                manager.first_record_id,
                before,
                Seq::empty(),
            );
            match chain {
                Ok(chain) => expected == Ok::<(UsedRows, Seq<RecordModel>), Failure>(
                    (
                        UsedRows { records: final(used_records)@, blobs: final(used_blobs)@ },
                        error::views(chain@),
                    ),
                ),
                Err(error) => expected == Err::<(UsedRows, Seq<RecordModel>), Failure>(error@),
            }
        }),
{
    let ghost rows = RecordingRows {
        records: error::views(records@),
        blobs: error::views(blobs@),
        limit,
    };
    let ghost before = UsedRows { records: used_records@, blobs: used_blobs@ };
    let ghost whole = record_chain(
        rows,
        manager.canvas_id,
        manager.first_record_id,
        before,
        Seq::empty(),
    );
    let mut ordered: Vec<TimeLapseRecord> = Vec::new();
    let mut current: Option<i64> = manager.first_record_id;
    assert(error::views(ordered@) =~= Seq::<RecordModel>::empty());
    loop
        invariant
            rows == (RecordingRows {
                records: error::views(records@),
                blobs: error::views(blobs@),
                limit,
            }),
            before == (UsedRows { records: old(used_records)@, blobs: old(used_blobs)@ }),
            record_index(record_places@, rows.records),
            blob_index(blob_places@, rows.blobs),
            whole == record_chain(
                rows,
                manager.canvas_id,
                manager.first_record_id,
                before,
                Seq::empty(),
            ),
            whole == record_chain(
                rows,
                manager.canvas_id,
                current,
                UsedRows { records: used_records@, blobs: used_blobs@ },
                error::views(ordered@),
            ),
        decreases unused_records(rows.records, used_records@),
    {
        let id: i64 = match current {
            Some(id) => id,
            None => return Ok(ordered),
        };
        proof {
            indexed_record(record_places@, rows.records, id);
        }
        if used_records.contains(&id) {
            return Err(
                time_lapse_error(
                    Message::new("record ").integer(id).text(" is cyclic or shared"),
                ),
            );
        }
        let position: usize = match record_places.get(&id) {
            Some(position) => *position,
            None => {
                return Err(
                    time_lapse_error(Message::new("record ").integer(id).text(" is missing")),
                );
            },
        };
        let row = &records[position];
        assert(rows.records[position as int] == row@);
        if row.canvas_id != manager.canvas_id {
            return Err(
                time_lapse_error(
                    Message::new("record ").integer(id).text(" belongs to a different canvas"),
                ),
            );
        }
        proof {
            one_record_fewer(rows.records, used_records@, id);
        }
        let chain = order_blobs(
            blobs,
            blob_places,
            limit,
            row.canvas_id,
            row.first_blob_id,
            used_blobs,
        )?;
        used_records.insert(id);
        let record = TimeLapseRecord {
            id: row.id,
            canvas_id: row.canvas_id,
            next_record_id: row.next_record_id,
            encoder_name: row.encoder_name.clone(),
            encoder_sequence: row.encoder_sequence,
            blobs: chain,
        };
        proof {
            error::views_push(ordered@, record);
        }
        ordered.push(record);
        current = row.next_record_id;
    }
}

fn index_blobs(blobs: &[TimeLapseBlob]) -> (index: BTreeMap<i64, usize>)
    requires
        unique_blobs(error::views(blobs@)),
    ensures
        blob_index(index@, error::views(blobs@)),
{
    let ghost models = error::views(blobs@);
    let mut index: BTreeMap<i64, usize> = BTreeMap::new();
    let mut at: usize = 0;
    assert(blob_index(index@, models.take(0)));
    while at < blobs.len()
        invariant
            at <= blobs@.len(),
            models == error::views(blobs@),
            unique_blobs(models),
            blob_index(index@, models.take(at as int)),
        decreases blobs@.len() - at,
    {
        assert(models[at as int] == blobs@[at as int]@);
        let ghost before = index@;
        index.insert(blobs[at].id, at);
        proof {
            let now = models.take(at + 1);
            let earlier = models.take(at as int);
            assert forall|i: int| 0 <= i < now.len() implies index@.contains_key(
                (#[trigger] now[i]).id,
            ) && index@[now[i].id] == i by {
                if i < at {
                    assert(earlier[i] == now[i]);
                    assert(models[i].id != models[at as int].id);
                }
            }
            assert forall|id: i64| #[trigger] index@.contains_key(id) implies index@[id] < now.len()
                && now[index@[id] as int].id == id by {
                if id != models[at as int].id {
                    assert(before.contains_key(id));
                    assert(earlier[before[id] as int] == now[before[id] as int]);
                }
            }
        }
        at = at + 1;
    }
    assert(models.take(at as int) =~= models);
    index
}

fn index_records(records: &[RecordRow]) -> (index: BTreeMap<i64, usize>)
    requires
        unique_records(error::views(records@)),
    ensures
        record_index(index@, error::views(records@)),
{
    let ghost models = error::views(records@);
    let mut index: BTreeMap<i64, usize> = BTreeMap::new();
    let mut at: usize = 0;
    assert(record_index(index@, models.take(0)));
    while at < records.len()
        invariant
            at <= records@.len(),
            models == error::views(records@),
            unique_records(models),
            record_index(index@, models.take(at as int)),
        decreases records@.len() - at,
    {
        assert(models[at as int] == records@[at as int]@);
        let ghost before = index@;
        index.insert(records[at].id, at);
        proof {
            let now = models.take(at + 1);
            let earlier = models.take(at as int);
            assert forall|i: int| 0 <= i < now.len() implies index@.contains_key(
                (#[trigger] now[i]).id,
            ) && index@[now[i].id] == i by {
                if i < at {
                    assert(earlier[i] == now[i]);
                    assert(models[i].id != models[at as int].id);
                }
            }
            assert forall|id: i64| #[trigger] index@.contains_key(id) implies index@[id] < now.len()
                && now[index@[id] as int].id == id by {
                if id != models[at as int].id {
                    assert(before.contains_key(id));
                    assert(earlier[before[id] as int] == now[before[id] as int]);
                }
            }
        }
        at = at + 1;
    }
    assert(models.take(at as int) =~= models);
    index
}

/// Reads the managers that a reply lists, with the records and blobs that belong to
/// them.
pub fn managers_from_reply(
    reply: &Reply,
    records: &[RecordRow],
    blobs: &[TimeLapseBlob],
    limit: u64,
) -> (managers: Result<Vec<TimeLapseManager>, Error>)
    requires
        unique_records(error::views(records@)),
        unique_blobs(error::views(blobs@)),
    ensures
        error::listed(managers) == managers_of(
            reply@,
            RecordingRows { records: error::views(records@), blobs: error::views(blobs@), limit },
        ),
{
    let ghost rows = RecordingRows {
        records: error::views(records@),
        blobs: error::views(blobs@),
        limit,
    };
    let managers: Vec<ManagerRow> = collect(reply)?;
    assert(error::views(managers@) =~= managers@);
    let count: u64 = managers.len() as u64;
    if count > limit {
        return Err(Error::limit("time-lapse managers", count, limit));
    }
    let record_places = index_records(records);
    let blob_places = index_blobs(blobs);
    let mut used_records: BTreeSet<i64> = BTreeSet::new();
    let mut used_blobs: BTreeSet<i64> = BTreeSet::new();
    let mut found: Vec<TimeLapseManager> = Vec::new();
    let mut at: usize = 0;
    proof {
        assert(error::views(found@) =~= Seq::<ManagerModel>::empty());
        assert(UsedRows { records: used_records@, blobs: used_blobs@ } =~= no_rows_used());
    }
    while at < managers.len()
        invariant
            at <= managers@.len(),
            rows == (RecordingRows {
                records: error::views(records@),
                blobs: error::views(blobs@),
                limit,
            }),
            record_index(record_places@, rows.records),
            blob_index(blob_places@, rows.blobs),
            managers_from(rows, managers@, 0, no_rows_used(), Seq::empty()) == managers_from(
                rows,
                managers@,
                at as int,
                UsedRows { records: used_records@, blobs: used_blobs@ },
                error::views(found@),
            ),
            managers_of(reply@, rows) == managers_from(
                rows,
                managers@,
                0,
                no_rows_used(),
                Seq::empty(),
            ),
        decreases managers@.len() - at,
    {
        let manager: ManagerRow = managers[at];
        let chain = order_records(
            records,
            &record_places,
            blobs,
            &blob_places,
            limit,
            manager,
            &mut used_records,
            &mut used_blobs,
        )?;
        let next = TimeLapseManager {
            id: manager.id,
            canvas_id: manager.canvas_id,
            records: chain,
        };
        proof {
            error::views_push(found@, next);
        }
        found.push(next);
        at = at + 1;
    }
    if used_records.len() != records.len() || used_blobs.len() != blobs.len() {
        return Err(
            time_lapse_error(
                Message::new("time-lapse tables contain unreachable records or blobs"),
            ),
        );
    }
    Ok(found)
}

/// Whether the blobs of every record lie end to end.
pub open spec fn recordings_contiguous(managers: Seq<ManagerModel>) -> bool {
    forall|m: int, r: int|
        0 <= m < managers.len() && 0 <= r < managers[m].records.len() ==> blobs_contiguous(
            (#[trigger] managers[m].records[r]).blobs,
        )
}

proof fn chained_records_are_contiguous(
    rows: RecordingRows,
    canvas_id: i64,
    current: Option<i64>,
    used: UsedRows,
    ordered: Seq<RecordModel>,
)
    requires
        forall|r: int| 0 <= r < ordered.len() ==> blobs_contiguous((#[trigger] ordered[r]).blobs),
    ensures
        record_chain(rows, canvas_id, current, used, ordered) matches Ok(chain) ==> forall|r: int|
            0 <= r < chain.1.len() ==> blobs_contiguous((#[trigger] chain.1[r]).blobs),
    decreases unused_records(rows.records, used.records),
{
    if let Some(id) = current {
        if record_chain(rows, canvas_id, current, used, ordered) is Ok {
            let position = record_position(rows.records, id, 0);
            let row = rows.records[position];
            let none = Seq::<BlobModel>::empty();
            let (used_blobs, blobs) = blob_chain(
                rows.blobs,
                rows.limit,
                row.canvas_id,
                row.first_blob_id,
                0,
                used.blobs,
                none,
            )->Ok_0;
            chained_blobs_are_contiguous(
                rows.blobs,
                rows.limit,
                row.canvas_id,
                row.first_blob_id,
                0,
                used.blobs,
                none,
            );
            one_record_fewer(rows.records, used.records, id);
            let more = ordered.push(record_with(row, blobs));
            assert forall|r: int| 0 <= r < more.len() implies blobs_contiguous(
                (#[trigger] more[r]).blobs,
            ) by {
                if r < ordered.len() {
                    assert(more[r] == ordered[r]);
                }
            }
            chained_records_are_contiguous(
                rows,
                canvas_id,
                row.next_record_id,
                UsedRows { records: used.records.insert(id), blobs: used_blobs },
                more,
            );
        }
    }
}

proof fn found_managers_are_contiguous(
    rows: RecordingRows,
    managers: Seq<ManagerRow>,
    at: int,
    used: UsedRows,
    found: Seq<ManagerModel>,
)
    requires
        recordings_contiguous(found),
    ensures
        managers_from(rows, managers, at, used, found) matches Ok(list) ==> recordings_contiguous(
            list,
        ),
    decreases managers.len() - at,
{
    if at < managers.len() && managers_from(rows, managers, at, used, found) is Ok {
        let manager = managers[at];
        let none = Seq::<RecordModel>::empty();
        chained_records_are_contiguous(
            rows,
            manager.canvas_id,
            manager.first_record_id,
            used,
            none,
        );
        let (next, records) = record_chain(
            rows,
            manager.canvas_id,
            manager.first_record_id,
            used,
            none,
        )->Ok_0;
        let more = found.push(
            ManagerModel { id: manager.id, canvas_id: manager.canvas_id, records },
        );
        assert forall|m: int, r: int|
            0 <= m < more.len() && 0 <= r < more[m].records.len() implies blobs_contiguous(
            (#[trigger] more[m].records[r]).blobs,
        ) by {
            if m < found.len() {
                assert(found[m].records[r] == more[m].records[r]);
            } else {
                assert(records[r] == more[m].records[r]);
            }
        }
        found_managers_are_contiguous(rows, managers, at + 1, next, more);
    }
}

/// In recordings that are accepted, the blobs of every record lie end to end from the
/// start of its stream.
pub proof fn accepted_recordings_are_contiguous(reply: sql::ReplyModel, rows: RecordingRows)
    requires
        managers_of(reply, rows) is Ok,
    ensures
        recordings_contiguous(managers_of(reply, rows)->Ok_0),
{
    let managers = sql::collected::<ManagerRow>(reply)->Ok_0;
    found_managers_are_contiguous(rows, managers, 0, no_rows_used(), Seq::empty());
}

/// What is asked for blobs, in order.
pub open spec fn blob_items() -> Seq<Seq<char>> {
    seq![
        "MainId"@,
        "CanvasId"@,
        "NextIndex"@,
        "BlobOffset"@,
        "BlobSize"@,
        "BlobSizeCompressed"@,
        "BlobType"@,
        "BlobData"@,
    ]
}

/// The question that lists the blobs.
pub open spec fn blobs_question() -> Seq<char> {
    columns::asked(blob_items(), " FROM TimeLapseBlob ORDER BY MainId"@)
}

/// What is asked for records, in order.
pub open spec fn record_items() -> Seq<Seq<char>> {
    seq![
        "MainId"@,
        "CanvasId"@,
        "NextIndex"@,
        "EncoderName"@,
        "EncoderSequence"@,
        "BlobFirstIndex"@,
    ]
}

/// The question that lists the records.
pub open spec fn records_question() -> Seq<char> {
    columns::asked(record_items(), " FROM TimeLapseRecord ORDER BY MainId"@)
}

/// What is asked for managers, in order.
pub open spec fn manager_items() -> Seq<Seq<char>> {
    seq![
        "MainId"@,
        "CanvasId"@,
        "RecordFirstIndex"@,
    ]
}

/// The question that lists the managers.
pub open spec fn managers_question() -> Seq<char> {
    columns::asked(manager_items(), " FROM TimeLapseManager ORDER BY MainId"@)
}

/// How many of the three tables of recordings are there.
pub open spec fn recording_tables(schema: Seq<database::TableModel>) -> int {
    (if database::table_of(schema, "TimeLapseManager"@) is Some {
        1int
    } else {
        0
    }) + (if database::table_of(schema, "TimeLapseRecord"@) is Some {
        1int
    } else {
        0
    }) + (if database::table_of(schema, "TimeLapseBlob"@) is Some {
        1int
    } else {
        0
    })
}

/// The first column that recordings need and that is missing.
pub open spec fn missing_recording_column(schema: Seq<database::TableModel>) -> Option<Failure> {
    match database::first_missing(
        schema,
        "TimeLapseManager"@,
        seq!["MainId"@, "CanvasId"@, "RecordFirstIndex"@],
        0,
    ) {
        Some(failure) => Some(failure),
        None => match database::first_missing(
            schema,
            "TimeLapseRecord"@,
            seq!["MainId"@, "CanvasId"@, "NextIndex"@, "EncoderName"@, "EncoderSequence"@, "BlobFirstIndex"@],
            0,
        ) {
            Some(failure) => Some(failure),
            None => database::first_missing(
                schema,
                "TimeLapseBlob"@,
                seq!["MainId"@, "CanvasId"@, "NextIndex"@, "BlobOffset"@, "BlobSize"@, "BlobSizeCompressed"@, "BlobType"@, "BlobData"@],
                0,
            ),
        },
    }
}

fn first_missing_recording_column(schema: &DatabaseSchema) -> (found: Option<Error>)
    ensures
        error::optional(found) == missing_recording_column(schema@),
{
    let manager_columns: [&str; 3] = ["MainId", "CanvasId", "RecordFirstIndex"];
    let record_columns: [&str; 6] = ["MainId", "CanvasId", "NextIndex", "EncoderName", "EncoderSequence", "BlobFirstIndex"];
    let blob_columns: [&str; 8] = ["MainId", "CanvasId", "NextIndex", "BlobOffset", "BlobSize", "BlobSizeCompressed", "BlobType", "BlobData"];
    assert(database::names(manager_columns@) =~= seq!["MainId"@, "CanvasId"@, "RecordFirstIndex"@]);
    assert(
        database::names(record_columns@) =~= seq!["MainId"@, "CanvasId"@, "NextIndex"@, "EncoderName"@, "EncoderSequence"@, "BlobFirstIndex"@]
    );
    assert(
        database::names(blob_columns@) =~= seq!["MainId"@, "CanvasId"@, "NextIndex"@, "BlobOffset"@, "BlobSize"@, "BlobSizeCompressed"@, "BlobType"@, "BlobData"@]
    );
    if let Some(error) = schema.first_missing_column("TimeLapseManager", &manager_columns) {
        return Some(error);
    }
    if let Some(error) = schema.first_missing_column("TimeLapseRecord", &record_columns) {
        return Some(error);
    }
    schema.first_missing_column("TimeLapseBlob", &blob_columns)
}

/// Whether reading recordings can have this outcome.
pub open spec fn time_lapse_read(
    connection: Connection,
    schema: Seq<database::TableModel>,
    limits: Limits,
    outcome: Result<Option<Seq<ManagerModel>>, Failure>,
) -> bool {
    if recording_tables(schema) == 0 {
        outcome == Ok::<Option<Seq<ManagerModel>>, Failure>(None)
    } else if recording_tables(schema) < 3 {
        outcome == Err::<Option<Seq<ManagerModel>>, Failure>(
            Failure::InvalidTimeLapse { reason: "time-lapse tables are only partially present"@ },
        )
    } else {
        match missing_recording_column(schema) {
            Some(failure) => outcome == Err::<Option<Seq<ManagerModel>>, Failure>(failure),
            None => exists|blobs: sql::ReplyModel|
                #[trigger] sql::may_answer_within(
                    connection,
                    blobs_question(),
                    Seq::empty(),
                    limits.max_time_lapse_items,
                    blobs,
                ) && match blobs_from(
                    blobs,
                    limits,
                    0,
                    Seq::empty(),
                ) {
                    Err(failure) => outcome == Err::<Option<Seq<ManagerModel>>, Failure>(failure),
                    Ok(blobs) => records_read(connection, blobs, limits, outcome),
                },
        }
    }
}

/// Whether reading records and managers, once the blobs are known, can have this
/// outcome.
pub open spec fn records_read(
    connection: Connection,
    blobs: Seq<BlobModel>,
    limits: Limits,
    outcome: Result<Option<Seq<ManagerModel>>, Failure>,
) -> bool {
    exists|records: sql::ReplyModel|
        #[trigger] sql::may_answer_within(
            connection,
            records_question(),
            Seq::empty(),
            limits.max_time_lapse_items,
            records,
        ) && match records_from(
            records,
            limits,
            0,
            0,
            Seq::empty(),
        ) {
            Err(failure) => outcome == Err::<Option<Seq<ManagerModel>>, Failure>(failure),
            Ok(records) => managers_read(
                connection,
                RecordingRows { records, blobs, limit: limits.max_time_lapse_items },
                outcome,
            ),
        }
}

/// Whether reading managers, once their rows are known, can have this outcome.
pub open spec fn managers_read(
    connection: Connection,
    rows: RecordingRows,
    outcome: Result<Option<Seq<ManagerModel>>, Failure>,
) -> bool {
    exists|managers: sql::ReplyModel|
        #[trigger] sql::may_answer(
            connection,
            managers_question(),
            Seq::empty(),
            managers,
        ) && outcome
            == match managers_of(managers, rows) {
            Err(failure) => Err::<Option<Seq<ManagerModel>>, Failure>(failure),
            Ok(managers) => Ok(Some(managers)),
        }
}

impl Database {
    /// Reads and validates the document's time-lapse record and blob chains.
    ///
    /// Documents without time-lapse tables return `None`.
    pub fn time_lapse(&self, limits: Limits) -> (recordings: Result<Option<TimeLapse>, Error>)
        ensures
            time_lapse_read(
                self.connection,
                self.schema@,
                limits,
                error::optional_outcome(recordings),
            ),
            recordings matches Ok(Some(recordings)) ==> recordings_contiguous(recordings@),
    {
        let managers: bool = self.schema.table("TimeLapseManager").is_some();
        let records: bool = self.schema.table("TimeLapseRecord").is_some();
        let blobs: bool = self.schema.table("TimeLapseBlob").is_some();
        if !managers && !records && !blobs {
            return Ok(None);
        }
        if !managers || !records || !blobs {
            return Err(
                time_lapse_error(Message::new("time-lapse tables are only partially present")),
            );
        }
        if let Some(error) = first_missing_recording_column(&self.schema) {
            return Err(error);
        }
        let asked: [&str; 8] = ["MainId", "CanvasId", "NextIndex", "BlobOffset", "BlobSize", "BlobSizeCompressed", "BlobType", "BlobData"];
        assert(database::names(asked@) =~= blob_items());
        let reply = query_all_within(
            &self.connection,
            columns::ask(&asked, " FROM TimeLapseBlob ORDER BY MainId").as_str(),
            limits.max_time_lapse_items(),
        );
        assert(sql::may_answer_within(
            self.connection,
            blobs_question(),
            Seq::empty(),
            limits.max_time_lapse_items,
            reply@,
        ));
        let blobs = blobs_from_reply(&reply, limits)?;
        let asked: [&str; 6] = ["MainId", "CanvasId", "NextIndex", "EncoderName", "EncoderSequence", "BlobFirstIndex"];
        assert(database::names(asked@) =~= record_items());
        let reply = query_all_within(
            &self.connection,
            columns::ask(&asked, " FROM TimeLapseRecord ORDER BY MainId").as_str(),
            limits.max_time_lapse_items(),
        );
        assert(sql::may_answer_within(
            self.connection,
            records_question(),
            Seq::empty(),
            limits.max_time_lapse_items,
            reply@,
        ));
        let records = match records_from_reply(&reply, limits) {
            Ok(records) => records,
            Err(error) => {
                assert(records_read(self.connection, error::views(blobs@), limits, Err(error@)));
                return Err(error);
            },
        };
        let asked: [&str; 3] = ["MainId", "CanvasId", "RecordFirstIndex"];
        assert(database::names(asked@) =~= manager_items());
        let reply = query_all(
            &self.connection,
            columns::ask(&asked, " FROM TimeLapseManager ORDER BY MainId").as_str(),
        );
        assert(sql::may_answer(self.connection, managers_question(), Seq::empty(), reply@));
        let ghost rows = RecordingRows {
            records: error::views(records@),
            blobs: error::views(blobs@),
            limit: limits.max_time_lapse_items,
        };
        let managers = managers_from_reply(
            &reply,
            records.as_slice(),
            blobs.as_slice(),
            limits.max_time_lapse_items(),
        );
        let recordings: Result<Option<TimeLapse>, Error> = match managers {
            Ok(managers) => {
                proof {
                    accepted_recordings_are_contiguous(reply@, rows);
                }
                Ok(Some(TimeLapse { managers }))
            },
            Err(error) => Err(error),
        };
        proof {
            let outcome = error::optional_outcome(recordings);
            assert(managers_read(self.connection, rows, outcome));
            assert(records_read(self.connection, error::views(blobs@), limits, outcome));
        }
        recordings
    }
}

/// What is wrong with the sizes of a blob before its data is looked for.
pub open spec fn blob_size_failure(blob: BlobModel, limits: Limits) -> Option<Failure> {
    if blob.decoded_size > limits.max_time_lapse_blob_bytes {
        Some(
            over(
                "decoded time-lapse blob bytes"@,
                blob.decoded_size as int,
                limits.max_time_lapse_blob_bytes,
            ),
        )
    } else if blob.stored_size < 4 || blob.stored_size > stored_limit(limits) {
        Some(
            over(
                "stored time-lapse blob bytes"@,
                blob.stored_size as int,
                stored_limit(limits),
            ),
        )
    } else {
        None
    }
}

/// The compressed bytes of a blob, from the external object that holds them.
pub open spec fn blob_stream_of(
    file: ClipFile,
    object: Option<ExternalObjectModel>,
    blob: BlobModel,
    limits: Limits,
) -> Result<Seq<u8>, Failure> {
    let subject = "blob "@ + message::decimal_signed(blob.id as int);
    match object {
        None => Err(
            Failure::InvalidTimeLapse { reason: subject + " external data is missing"@ },
        ),
        Some(object) => match object.body {
            ExternalBody::LengthPrefixedZlib(stream) => if stream.byte_order
                != ByteOrder::BigEndian {
                Err(
                    Failure::InvalidTimeLapse {
                        reason: subject + " compressed length is not big-endian"@,
                    },
                )
            } else if stream.compressed_size + 4 != blob.stored_size {
                Err(
                    Failure::InvalidTimeLapse {
                        reason: subject + " stored size does not match its external object"@,
                    },
                )
            } else {
                external::limited_range_of(
                    file.data@,
                    stream.compressed_offset,
                    stream.compressed_size,
                    limits.max_time_lapse_blob_bytes,
                )
            },
            _ => Err(
                Failure::InvalidTimeLapse {
                    reason: subject + " is not a length-prefixed zlib stream"@,
                },
            ),
        },
    }
}

/// What is said of a blob that decodes to another size than its own.
pub open spec fn size_complaint(blob: BlobModel, size: int) -> Seq<char> {
    "blob "@ + message::decimal_signed(blob.id as int) + " decoded to "@ + message::decimal(
        size as nat,
    ) + " bytes instead of "@ + message::decimal(blob.decoded_size as nat)
}

/// One byte more than a blob may decode to, to notice that it is too long.
pub open spec fn decode_bound(blob: BlobModel) -> u64 {
    error::one_more(blob.decoded_size as nat)
}

/// The decoded bytes of a blob, from its compressed ones.
pub open spec fn blob_data_of(stream: Seq<u8>, blob: BlobModel) -> Result<Seq<u8>, Failure> {
    match zlib::zlib_inflated(stream, decode_bound(blob)) {
        None => Err(Failure::Io),
        Some(data) => if data.len() != blob.decoded_size {
            Err(Failure::InvalidTimeLapse { reason: size_complaint(blob, data.len() as int) })
        } else {
            Ok(data)
        },
    }
}

fn check_blob_sizes(blob: &TimeLapseBlob, limits: Limits) -> (result: Result<(), Error>)
    ensures
        match result {
            Ok(()) => blob_size_failure(blob@, limits) is None,
            Err(error) => blob_size_failure(blob@, limits) == Some(error@),
        },
{
    enforce_blob_size(blob.decoded_size, limits)?;
    if blob.stored_size < 4 || blob.stored_size > stored_bound(limits) {
        return Err(
            Error::limit("stored time-lapse blob bytes", blob.stored_size, stored_bound(limits)),
        );
    }
    Ok(())
}

fn wrong_size(blob: &TimeLapseBlob, size: usize) -> (error: Error)
    ensures
        error@ == (Failure::InvalidTimeLapse { reason: size_complaint(blob@, size as int) }),
{
    time_lapse_error(
        Message::new("blob ").integer(blob.id).text(" decoded to ").number(size as u64).text(
            " bytes instead of ",
        ).number(blob.decoded_size),
    )
}

/// Decodes the compressed bytes of a blob.
pub fn decode_blob(stream: &[u8], blob: &TimeLapseBlob) -> (data: Result<Vec<u8>, Error>)
    ensures
        error::outcome(data) == blob_data_of(stream@, blob@),
{
    let data = decompress(stream, blob.decoded_size.saturating_add(1))?;
    if data.len() as u64 != blob.decoded_size {
        return Err(wrong_size(blob, data.len()));
    }
    Ok(data)
}

/// Whether looking for the compressed bytes of a blob can have this outcome.
pub open spec fn blob_stream_read(
    connection: Connection,
    file: ClipFile,
    schema: Seq<database::TableModel>,
    blob: BlobModel,
    limits: Limits,
    outcome: Result<Seq<u8>, Failure>,
) -> bool {
    match blob_size_failure(blob, limits) {
        Some(failure) => outcome == Err::<Seq<u8>, Failure>(failure),
        None => exists|object: Result<Option<ExternalObjectModel>, Failure>|
            #[trigger] database::object_read(
                connection,
                file,
                schema,
                blob.external_identifier,
                object,
            )
                && outcome == match object {
                Err(failure) => Err::<Seq<u8>, Failure>(failure),
                Ok(object) => blob_stream_of(file, object, blob, limits),
            },
    }
}

/// Whether reading and decoding a blob can have this outcome.
pub open spec fn blob_read(
    connection: Connection,
    file: ClipFile,
    schema: Seq<database::TableModel>,
    blob: BlobModel,
    limits: Limits,
    outcome: Result<Seq<u8>, Failure>,
) -> bool {
    exists|stream: Result<Seq<u8>, Failure>|
        #[trigger] blob_stream_read(
            connection,
            file,
            schema,
            blob,
            limits,
            stream,
        ) && outcome == match stream {
            Err(failure) => Err::<Seq<u8>, Failure>(failure),
            Ok(stream) => blob_data_of(stream, blob),
        }
}

/// Whether scanning the frames of the blobs from `at` on can have this outcome.
pub open spec fn frames_read(
    connection: Connection,
    file: ClipFile,
    schema: Seq<database::TableModel>,
    record: RecordModel,
    limits: Limits,
    at: int,
    scanner: frames::ScannerModel,
    outcome: Result<Seq<frames::FrameModel>, Failure>,
) -> bool
    decreases record.blobs.len() - at,
{
    if at >= record.blobs.len() {
        outcome == frames::finished(
            scanner,
            record.id,
            decoded_total(record.blobs, record.blobs.len() as int),
            record.encoder_sequence,
        )
    } else {
        exists|stream: Result<Seq<u8>, Failure>|
            #[trigger] blob_stream_read(connection, file, schema, record.blobs[at], limits, stream)
                && match stream {
                Err(failure) => outcome == Err::<Seq<frames::FrameModel>, Failure>(failure),
                Ok(stream) => match zlib::zlib_inflated(stream, decode_bound(record.blobs[at])) {
                    None => broken_blob_scanned(scanner, outcome),
                    Some(data) => match frames::scanned(scanner, data) {
                        Err(failure) => outcome == Err::<Seq<frames::FrameModel>, Failure>(failure),
                        Ok(next) => if data.len() != record.blobs[at].decoded_size {
                            outcome == Err::<Seq<frames::FrameModel>, Failure>(
                                Failure::InvalidTimeLapse {
                                    reason: size_complaint(record.blobs[at], data.len() as int),
                                },
                            )
                        } else {
                            frames_read(
                                connection,
                                file,
                                schema,
                                record,
                                limits,
                                at + 1,
                                next,
                                outcome,
                            )
                        },
                    },
                },
            }
    }
}

/// Whether a blob that cannot be decoded to its end can have this outcome: the frames
/// before the break may be at fault, else the break is.
pub open spec fn broken_blob_scanned(
    scanner: frames::ScannerModel,
    outcome: Result<Seq<frames::FrameModel>, Failure>,
) -> bool {
    outcome == Err::<Seq<frames::FrameModel>, Failure>(Failure::Io) || exists|data: Seq<u8>|
        #[trigger] frames::scanned(scanner, data) is Err && outcome == Err::<
            Seq<frames::FrameModel>,
            Failure,
        >(frames::scanned(scanner, data)->Err_0)
}

impl ClipFile {
    /// The compressed bytes of a blob, from the external object that holds them.
    pub fn blob_stream(
        &self,
        object: Option<&ExternalObject>,
        blob: &TimeLapseBlob,
        limits: Limits,
    ) -> (stream: Result<Vec<u8>, Error>)
        ensures
            error::outcome(stream) == blob_stream_of(
                *self,
                match object {
                    Some(object) => Some(object@),
                    None => None,
                },
                blob@,
                limits,
            ),
    {
        let object = match object {
            Some(object) => object,
            None => {
                return Err(
                    time_lapse_error(
                        Message::new("blob ").integer(blob.id).text(" external data is missing"),
                    ),
                );
            },
        };
        let stream = match object.body() {
            ExternalBody::LengthPrefixedZlib(stream) => stream,
            _ => {
                return Err(
                    time_lapse_error(
                        Message::new("blob ").integer(blob.id).text(
                            " is not a length-prefixed zlib stream",
                        ),
                    ),
                );
            },
        };
        match stream.byte_order() {
            ByteOrder::BigEndian => {},
            ByteOrder::LittleEndian => {
                return Err(
                    time_lapse_error(
                        Message::new("blob ").integer(blob.id).text(
                            " compressed length is not big-endian",
                        ),
                    ),
                );
            },
        }
        let stored: Option<u64> = stream.compressed_size().checked_add(4);
        let matches: bool = match stored {
            Some(stored) => stored == blob.stored_size,
            None => false,
        };
        if !matches {
            return Err(
                time_lapse_error(
                    Message::new("blob ").integer(blob.id).text(
                        " stored size does not match its external object",
                    ),
                ),
            );
        }
        self.read_length_prefixed_zlib(stream, limits.max_time_lapse_blob_bytes())
    }

    fn find_blob_stream(&self, database: &Database, blob: &TimeLapseBlob, limits: Limits) -> (
    stream: Result<Vec<u8>, Error>)
        ensures
            blob_stream_read(
                database.connection,
                *self,
                database.schema@,
                blob@,
                limits,
                error::outcome(stream),
            ),
    {
        check_blob_sizes(blob, limits)?;
        let object = self.resolve_external_object(database, blob.external_identifier());
        assert(database::object_read(
            database.connection,
            *self,
            database.schema@,
            blob@.external_identifier,
            error::optional_outcome(object),
        ));
        let object = object?;
        match &object {
            Some(object) => self.blob_stream(Some(object), blob, limits),
            None => self.blob_stream(None, blob, limits),
        }
    }

    /// Reads and decodes one time-lapse blob after enforcing its size limit.
    pub fn read_time_lapse_blob(
        &self,
        database: &Database,
        blob: &TimeLapseBlob,
        limits: Limits,
    ) -> (data: Result<Vec<u8>, Error>)
        ensures
            blob_read(
                database.connection,
                *self,
                database.schema@,
                blob@,
                limits,
                error::outcome(data),
            ),
    {
        let stream = self.find_blob_stream(database, blob, limits);
        assert(blob_stream_read(
            database.connection,
            *self,
            database.schema@,
            blob@,
            limits,
            error::outcome(stream),
        ));
        let stream = stream?;
        decode_blob(stream.as_slice(), blob)
    }

    /// Decodes one time-lapse blob, appends it to `writer`, and returns the byte count.
    pub fn copy_time_lapse_blob(
        &self,
        database: &Database,
        blob: &TimeLapseBlob,
        limits: Limits,
        writer: &mut Vec<u8>,
    ) -> (copied: Result<u64, Error>)
        ensures
            old(writer)@.len() <= final(writer)@.len(),
            final(writer)@.take(old(writer)@.len() as int) == old(writer)@,
            blob_read(
                database.connection,
                *self,
                database.schema@,
                blob@,
                limits,
                match copied {
                    Ok(_) => Ok(final(writer)@.skip(old(writer)@.len() as int)),
                    Err(error) => Err(error@),
                },
            ),
            copied matches Ok(copied) ==> copied == final(writer)@.len() - old(writer)@.len(),
    {
        let ghost before = writer@;
        assert(before.take(before.len() as int) =~= before);
        let data = self.read_time_lapse_blob(database, blob, limits)?;
        push_bytes(writer, data.as_slice());
        proof {
            assert(writer@.take(before.len() as int) =~= before);
            assert(writer@.skip(before.len() as int) =~= data@);
        }
        Ok(data.len() as u64)
    }

    /// Streams and validates a record's internal `GMIK`/`GMID` frame index.
    ///
    /// Encoded WebP payloads are skipped rather than retained. The returned
    /// metadata allocation is bounded by [`Limits::max_time_lapse_items`].
    #[verifier::spinoff_prover]
    pub fn read_time_lapse_frame_index(
        &self,
        database: &Database,
        record: &TimeLapseRecord,
        limits: Limits,
    ) -> (index: Result<Vec<TimeLapseFrame>, Error>)
        requires
            decoded_total(record@.blobs, record@.blobs.len() as int) <= u64::MAX,
        ensures
            if record@.encoder_name != "WEBP"@ {
                error::listed(index) == Err::<Seq<frames::FrameModel>, Failure>(
                    Failure::InvalidTimeLapse {
                        reason: "record "@ + message::decimal_signed(record@.id as int)
                            + " uses unsupported frame encoder "@ + message::quoted_text(
                            record@.encoder_name,
                        ),
                    },
                )
            } else {
                frames_read(
                    database.connection,
                    *self,
                    database.schema@,
                    record@,
                    limits,
                    0,
                    frames::fresh_scanner(limits),
                    error::listed(index),
                )
            },
    {
        if !same_text(record.encoder_name.as_str(), "WEBP") {
            return Err(
                time_lapse_error(
                    Message::new("record ").integer(record.id).text(
                        " uses unsupported frame encoder ",
                    ).quoted(record.encoder_name.as_str()),
                ),
            );
        }
        let mut scanner = TimeLapseFrameScanner::new(limits);
        let ghost schema = database.schema@;
        let mut at: usize = 0;
        while at < record.blobs.len()
            invariant
                at <= record.blobs@.len(),
                schema == database.schema@,
                record@.encoder_name == "WEBP"@,
                frames::scanner_in_order(scanner@),
                forall|outcome: Result<Seq<frames::FrameModel>, Failure>| #[trigger]
                    frames_read(
                        database.connection,
                        *self,
                        schema,
                        record@,
                        limits,
                        at as int,
                        scanner@,
                        outcome,
                    ) ==> frames_read(
                        database.connection,
                        *self,
                        schema,
                        record@,
                        limits,
                        0,
                        frames::fresh_scanner(limits),
                        outcome,
                    ),
            decreases record.blobs@.len() - at,
        {
            let blob = &record.blobs[at];
            let ghost before = scanner@;
            assert(record@.blobs[at as int] == blob@);
            let stream = self.find_blob_stream(database, blob, limits);
            assert(blob_stream_read(
                database.connection,
                *self,
                schema,
                record@.blobs[at as int],
                limits,
                error::outcome(stream),
            ));
            let stream = match stream {
                Ok(stream) => stream,
                Err(error) => {
                    assert(frames_read(
                        database.connection,
                        *self,
                        schema,
                        record@,
                        limits,
                        at as int,
                        before,
                        Err(error@),
                    ));
                    return Err(error);
                },
            };
            let (data, broken) = decompress_partial(
                stream.as_slice(),
                blob.decoded_size.saturating_add(1),
            );
            if let Err(error) = scanner.feed(data.as_slice()) {
                proof {
                    assert(frames::scanned(before, data@) is Err);
                    if broken is Some {
                        assert(broken_blob_scanned(before, Err(error@)));
                    }
                    assert(frames_read(
                        database.connection,
                        *self,
                        schema,
                        record@,
                        limits,
                        at as int,
                        before,
                        Err(error@),
                    ));
                }
                return Err(error);
            }
            if let Some(error) = broken {
                proof {
                    assert(broken_blob_scanned(before, Err(error@)));
                    assert(frames_read(
                        database.connection,
                        *self,
                        schema,
                        record@,
                        limits,
                        at as int,
                        before,
                        Err(error@),
                    ));
                }
                return Err(error);
            }
            if data.len() as u64 != blob.decoded_size {
                let error = wrong_size(blob, data.len());
                assert(frames_read(
                    database.connection,
                    *self,
                    schema,
                    record@,
                    limits,
                    at as int,
                    before,
                    Err(error@),
                ));
                return Err(error);
            }
            proof {
                assert forall|outcome: Result<Seq<frames::FrameModel>, Failure>| #[trigger]
                    frames_read(
                        database.connection,
                        *self,
                        schema,
                        record@,
                        limits,
                        at + 1,
                        scanner@,
                        outcome,
                    ) implies frames_read(
                    database.connection,
                    *self,
                    schema,
                    record@,
                    limits,
                    0,
                    frames::fresh_scanner(limits),
                    outcome,
                ) by {
                    assert(frames_read(
                        database.connection,
                        *self,
                        schema,
                        record@,
                        limits,
                        at as int,
                        before,
                        outcome,
                    ));
                }
            }
            at = at + 1;
        }
        let ghost last = scanner@;
        let size: u64 = record.decoded_size();
        let index = scanner.finish(record.id, size, record.encoder_sequence);
        assert(frames_read(
            database.connection,
            *self,
            schema,
            record@,
            limits,
            at as int,
            last,
            error::listed(index),
        ));
        index
    }
}

} // verus!
