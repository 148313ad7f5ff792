//! The rows that describe timelines, their tracks, and the layers that tracks name.

use std::collections::{BTreeMap, BTreeSet};

use rusqlite::Connection;
use vstd::prelude::*;

use crate::bytes;
use crate::bytes::read_be64;
use crate::columns;
use crate::database;
use crate::database::Database;
use crate::error;
use crate::error::{Error, Failure};
use crate::limits::Limits;
use crate::links;
use crate::links::{follow_siblings, Link, LinkFault};
use crate::message;
use crate::message::Message;
use crate::mixer;
use crate::reals::Double;
use crate::sql;
use crate::sql::{query_all, query_all_within, query_by_id_within, Reply, SqlModel, SqlRow};
use crate::text_codec;
use crate::text_codec::decode_utf8;

verus! {

fn animation_error(reason: Message) -> (error: Error)
    ensures
        error@ == (Failure::InvalidAnimation { reason: reason@ }),
{
    Error::InvalidAnimation { reason: reason.build() }
}

/// One timeline row with validated playback metadata.
#[derive(Clone, Debug, PartialEq)]
pub struct Timeline {
    pub id: i64,
    pub bank_id: i64,
    pub next_timeline_id: Option<i64>,
    pub first_track_id: Option<i64>,
    pub name: Option<String>,
    pub frame_rate: Double,
    pub start_frame: Double,
    pub end_frame: Double,
    pub current_frame: Option<Double>,
}

/// The model of a [`Timeline`].
#[verifier::ext_equal]
pub struct TimelineModel {
    pub id: i64,
    pub bank_id: i64,
    pub next_timeline_id: Option<i64>,
    pub first_track_id: Option<i64>,
    pub name: Option<Seq<char>>,
    pub frame_rate: Double,
    pub start_frame: Double,
    pub end_frame: Double,
    pub current_frame: Option<Double>,
}

impl View for Timeline {
    type V = TimelineModel;

    open spec fn view(&self) -> TimelineModel {
        TimelineModel {
            id: self.id,
            bank_id: self.bank_id,
            next_timeline_id: self.next_timeline_id,
            first_track_id: self.first_track_id,
            name: error::optional_text(self.name),
            frame_rate: self.frame_rate,
            start_frame: self.start_frame,
            end_frame: self.end_frame,
            current_frame: self.current_frame,
        }
    }
}

impl Timeline {
    /// `TimeLine.MainId`.
    #[must_use]
    pub fn id(&self) -> (value: i64)
        ensures
            value == self.id,
    {
        self.id
    }

    /// Owning animation bank ID.
    #[must_use]
    pub fn bank_id(&self) -> (value: i64)
        ensures
            value == self.bank_id,
    {
        self.bank_id
    }

    /// Next timeline ID when stored.
    #[must_use]
    pub fn next_timeline_id(&self) -> (value: Option<i64>)
        ensures
            value == self.next_timeline_id,
    {
        self.next_timeline_id
    }

    /// First track ID when stored.
    #[must_use]
    pub fn first_track_id(&self) -> (value: Option<i64>)
        ensures
            value == self.first_track_id,
    {
        self.first_track_id
    }

    /// Timeline name when stored.
    #[must_use]
    pub fn name(&self) -> (text: Option<&str>)
        ensures
            text is Some == self.name is Some,
            text matches Some(text) ==> text@ == self.name.unwrap()@,
    {
        match &self.name {
            Some(text) => Some(text.as_str()),
            None => None,
        }
    }

    /// Frames per second.
    #[must_use]
    pub fn frame_rate(&self) -> (value: Double)
        ensures
            value == self.frame_rate,
    {
        self.frame_rate
    }

    /// Inclusive playback-range start in display frames.
    #[must_use]
    pub fn start_frame(&self) -> (value: Double)
        ensures
            value == self.start_frame,
    {
        self.start_frame
    }

    /// Inclusive playback-range end in display frames.
    #[must_use]
    pub fn end_frame(&self) -> (value: Double)
        ensures
            value == self.end_frame,
    {
        self.end_frame
    }

    /// Current display frame when stored.
    #[must_use]
    pub fn current_frame(&self) -> (value: Option<Double>)
        ensures
            value == self.current_frame,
    {
        self.current_frame
    }
}

/// An ID, where zero stands for none.
pub open spec fn nonzero_of(id: Option<i64>) -> Option<i64> {
    match id {
        Some(id) if id != 0 => Some(id),
        _ => None,
    }
}

fn nonzero(id: Option<i64>) -> (found: Option<i64>)
    ensures
        found == nonzero_of(id),
{
    match id {
        Some(id) => if id != 0 {
            Some(id)
        } else {
            None
        },
        None => None,
    }
}

/// Whether the numbers of a timeline row make sense: frames come at a positive rate, and
/// the range does not end before it starts.
pub open spec fn playback_valid(
    frame_rate: Double,
    start_frame: Double,
    end_frame: Double,
    current_frame: Option<Double>,
) -> bool {
    &&& frame_rate.finite() && frame_rate.order() > 0
    &&& start_frame.finite() && end_frame.finite() && start_frame.order() <= end_frame.order()
    &&& current_frame matches Some(frame) ==> frame.finite()
}

/// The name in a timeline row, after names that took `used` bytes, and the bytes that the
/// names have taken with it.
pub open spec fn timeline_name_of(row: Seq<SqlModel>, used: u64, limit: u64) -> Result<
    (Option<Seq<char>>, u64),
    Failure,
> {
    match (sql::optional_bytes_at(row, 4), sql::optional_loose_text_at(row, 4)) {
        (Ok(Some(encoded)), Ok(Some(name))) => if used + encoded.len() > u64::MAX {
            Err(Failure::OffsetOverflow)
        } else if used + encoded.len() > limit {
            Err(mixer::too_many("animation timeline names"@, used + encoded.len(), limit))
        } else {
            Ok((Some(name), (used + encoded.len()) as u64))
        },
        (Ok(None), Ok(None)) => Ok((None, used)),
        _ => Err(Failure::Sqlite),
    }
}

fn read_timeline_name(row: &SqlRow, used: u64, limit: u64) -> (name: Result<
    (Option<String>, u64),
    Error,
>)
    ensures
        match name {
            Ok((name, total)) => timeline_name_of(row@, used, limit) == Ok::<
                (Option<Seq<char>>, u64),
                Failure,
            >((error::optional_text(name), total)),
            Err(error) => timeline_name_of(row@, used, limit) == Err::<
                (Option<Seq<char>>, u64),
                Failure,
            >(error@),
        },
{
    let encoded = row.optional_bytes(4)?;
    let name = row.optional_loose_text(4)?;
    let encoded = match encoded {
        Some(encoded) => encoded,
        None => return Ok((name, used)),
    };
    let total: u64 = match used.checked_add(encoded.len() as u64) {
        Some(total) => total,
        None => return Err(Error::OffsetOverflow),
    };
    if total > limit {
        return Err(Error::limit("animation timeline names", total, limit));
    }
    Ok((name, total))
}

/// The timeline that a row describes, after names that took `used` bytes, and the bytes
/// that the names have taken with it.
pub open spec fn timeline_of(row: Seq<SqlModel>, used: u64, limits: Limits) -> Result<
    (TimelineModel, u64),
    Failure,
> {
    match sql::integer_at(row, 0) {
        Err(failure) => Err(failure),
        Ok(id) => if id <= 0 {
            Err(
                Failure::InvalidAnimation {
                    reason: "TimeLine.MainId must be positive, found "@ + message::decimal_signed(
                        id as int,
                    ),
                },
            )
        } else {
            match (
                sql::real_at(row, 5),
                sql::real_at(row, 6),
                sql::real_at(row, 7),
                sql::optional_real_at(row, 8),
            ) {
                (Ok(frame_rate), Ok(start_frame), Ok(end_frame), Ok(current_frame)) => {
                    if !playback_valid(frame_rate, start_frame, end_frame, current_frame) {
                        Err(
                            Failure::InvalidAnimation {
                                reason: if !frame_rate.finite() || frame_rate.order() <= 0 {
                                    "timeline "@ + message::decimal_signed(id as int)
                                        + " has invalid frame rate "@ + sql::real_text_at(row, 5)
                                } else {
                                    "timeline "@ + message::decimal_signed(id as int)
                                        + " has an invalid frame range"@
                                },
                            },
                        )
                    } else {
                        match timeline_name_of(row, used, limits.max_animation_bytes) {
                            Err(failure) => Err(failure),
                            Ok((name, total)) => match (
                                sql::integer_at(row, 1),
                                sql::optional_integer_at(row, 2),
                                sql::optional_integer_at(row, 3),
                            ) {
                                (Ok(bank_id), Ok(next_timeline_id), Ok(first_track_id)) => Ok(
                                    (
                                        TimelineModel {
                                            id,
                                            bank_id,
                                            next_timeline_id,
                                            first_track_id: nonzero_of(first_track_id),
                                            name,
                                            frame_rate,
                                            start_frame,
                                            end_frame,
                                            current_frame,
                                        },
                                        total,
                                    ),
                                ),
                                _ => Err(Failure::Sqlite),
                            },
                        }
                    }
                },
                _ => Err(Failure::Sqlite),
            }
        },
    }
}

fn wrong_frame_rate(id: i64, rate: &str) -> (error: Error)
    ensures
        error@ == (Failure::InvalidAnimation {
            reason: "timeline "@ + message::decimal_signed(id as int) + " has invalid frame rate "@
                + rate@,
        }),
{
    animation_error(
        Message::new("timeline ").integer(id).text(" has invalid frame rate ").text(rate),
    )
}

/// Reads the timeline that a row describes.
pub fn timeline_from_row(row: &SqlRow, used: u64, limits: Limits) -> (timeline: Result<
    (Timeline, u64),
    Error,
>)
    ensures
        match timeline {
            Ok((timeline, total)) => timeline_of(row@, used, limits) == Ok::<
                (TimelineModel, u64),
                Failure,
            >((timeline@, total)),
            Err(error) => timeline_of(row@, used, limits) == Err::<(TimelineModel, u64), Failure>(
                error@,
            ),
        },
{
    let id: i64 = row.integer(0)?;
    if id <= 0 {
        return Err(
            animation_error(Message::new("TimeLine.MainId must be positive, found ").integer(id)),
        );
    }
    let frame_rate = row.number(5)?;
    let start_frame = row.number(6)?;
    let end_frame = row.number(7)?;
    let current_frame = row.optional_number(8)?;
    if !frame_rate.is_finite() || !frame_rate.is_positive() {
        return Err(
            wrong_frame_rate(id, row.number_text(5).as_str()),
        );
    }
    let current_valid: bool = match current_frame {
        Some(frame) => frame.is_finite(),
        None => true,
    };
    if !start_frame.is_finite() || !end_frame.is_finite() || !start_frame.at_most(end_frame)
        || !current_valid {
        return Err(
            animation_error(
                Message::new("timeline ").integer(id).text(" has an invalid frame range"),
            ),
        );
    }
    let (name, total) = read_timeline_name(row, used, limits.max_animation_bytes())?;
    let bank_id: i64 = row.integer(1)?;
    let next_timeline_id: Option<i64> = row.optional_integer(2)?;
    let first_track_id: Option<i64> = nonzero(row.optional_integer(3)?);
    Ok(
        (
            Timeline {
                id,
                bank_id,
                next_timeline_id,
                first_track_id,
                name,
                frame_rate,
                start_frame,
                end_frame,
                current_frame,
            },
            total,
        ),
    )
}

/// The timelines of a reply from `at` on, after the ones in `found`, whose names took
/// `used` bytes.
pub open spec fn timelines_from(
    reply: sql::ReplyModel,
    limits: Limits,
    at: int,
    used: u64,
    found: Seq<TimelineModel>,
) -> Result<Seq<TimelineModel>, Failure>
    decreases reply.rows.len() - at,
{
    if at >= reply.rows.len() {
        if reply.failed {
            Err(Failure::Sqlite)
        } else {
            Ok(found)
        }
    } else if at + 1 > limits.max_animation_items {
        Err(mixer::too_many("animation timelines"@, at + 1, limits.max_animation_items))
    } else {
        match timeline_of(reply.rows[at], used, limits) {
            Err(failure) => Err(failure),
            Ok((timeline, total)) => timelines_from(
                reply,
                limits,
                at + 1,
                total,
                found.push(timeline),
            ),
        }
    }
}

/// Reads the timelines of a reply.
pub fn timelines_from_reply(reply: &Reply, limits: Limits) -> (timelines: Result<
    Vec<Timeline>,
    Error,
>)
    ensures
        error::listed(timelines) == timelines_from(reply@, limits, 0, 0, Seq::empty()),
{
    let mut timelines: Vec<Timeline> = Vec::new();
    let mut at: usize = 0;
    let mut used: u64 = 0;
    assert(error::views(timelines@) =~= Seq::<TimelineModel>::empty());
    while at < reply.rows.len()
        invariant
            at <= reply.rows@.len(),
            timelines_from(reply@, limits, 0, 0, Seq::empty()) == timelines_from(
                reply@,
                limits,
                at as int,
                used,
                error::views(timelines@),
            ),
        decreases reply.rows@.len() - at,
    {
        assert(reply@.rows[at as int] == reply.rows@[at as int]@);
        let count: u64 = at as u64 + 1;
        if count > limits.max_animation_items() {
            return Err(Error::limit("animation timelines", count, limits.max_animation_items()));
        }
        let (timeline, total) = timeline_from_row(&reply.rows[at], used, limits)?;
        proof {
            error::views_push(timelines@, timeline);
        }
        timelines.push(timeline);
        used = total;
        at = at + 1;
    }
    match reply.failure() {
        Some(error) => Err(error),
        None => Ok(timelines),
    }
}

/// The columns that every timeline is read from.
pub open spec fn timeline_columns() -> Seq<Seq<char>> {
    seq!["MainId"@, "BankId"@, "FrameRate"@, "StartFrame"@, "EndFrame"@]
}

/// What is asked for timelines, in order.
pub open spec fn timeline_items(schema: Seq<database::TableModel>) -> Seq<Seq<char>> {
    seq![
        "MainId"@,
        "BankId"@,
        database::column_or_null(schema, "TimeLine"@, "NextTimeLine"@),
        database::column_or_null(schema, "TimeLine"@, "FirstTrack"@),
        database::column_or_null(schema, "TimeLine"@, "TimeLineName"@),
        "FrameRate"@,
        "StartFrame"@,
        "EndFrame"@,
        database::column_or_null(schema, "TimeLine"@, "CurrentFrame"@),
    ]
}

/// The question that asks for the timelines.
pub open spec fn timelines_question(schema: Seq<database::TableModel>) -> Seq<char> {
    columns::asked(timeline_items(schema), " FROM TimeLine ORDER BY MainId"@)
}

/// Whether reading the timelines can have this outcome.
pub open spec fn timelines_read(
    connection: Connection,
    schema: Seq<database::TableModel>,
    limits: Limits,
    outcome: Result<Seq<TimelineModel>, Failure>,
) -> bool {
    if database::table_of(schema, "TimeLine"@) is None {
        outcome == Ok::<Seq<TimelineModel>, Failure>(Seq::empty())
    } else {
        match database::first_missing(schema, "TimeLine"@, timeline_columns(), 0) {
            Some(failure) => outcome == Err::<Seq<TimelineModel>, Failure>(failure),
            None => exists|reply: sql::ReplyModel|
                #[trigger] sql::may_answer_within(
                    connection,
                    timelines_question(schema),
                    Seq::empty(),
                    limits.max_animation_items,
                    reply,
                )
                    && outcome == timelines_from(reply, limits, 0, 0, Seq::empty()),
        }
    }
}

impl Database {
    /// Reads all timelines ordered by `MainId`.
    pub fn timelines(&self, limits: Limits) -> (timelines: Result<Vec<Timeline>, Error>)
        ensures
            timelines_read(self.connection, self.schema@, limits, error::listed(timelines)),
    {
        if self.schema.table("TimeLine").is_none() {
            let none: Vec<Timeline> = Vec::new();
            assert(error::views(none@) =~= Seq::<TimelineModel>::empty());
            return Ok(none);
        }
        let columns: [&str; 5] = ["MainId", "BankId", "FrameRate", "StartFrame", "EndFrame"];
        assert(database::names(columns@) =~= timeline_columns());
        if let Some(error) = self.schema.first_missing_column("TimeLine", &columns) {
            return Err(error);
        }
        let asked: [&str; 9] = [
            "MainId",
            "BankId",
            self.schema.column_or_null("TimeLine", "NextTimeLine"),
            self.schema.column_or_null("TimeLine", "FirstTrack"),
            self.schema.column_or_null("TimeLine", "TimeLineName"),
            "FrameRate",
            "StartFrame",
            "EndFrame",
            self.schema.column_or_null("TimeLine", "CurrentFrame"),
        ];
        assert(database::names(asked@) =~= timeline_items(self.schema@));
        let question = columns::ask(&asked, " FROM TimeLine ORDER BY MainId");
        let reply = query_all_within(
            &self.connection,
            question.as_str(),
            limits.max_animation_items(),
        );
        assert(sql::may_answer_within(
            self.connection,
            timelines_question(self.schema@),
            Seq::empty(),
            limits.max_animation_items,
            reply@,
        ));
        timelines_from_reply(&reply, limits)
    }
}

/// The question that asks which timeline is played.
pub open spec fn preferred_question(schema: Seq<database::TableModel>) -> Seq<char> {
    if database::column_exists(schema, "AnimationCutBank"@, "Enable"@) {
        "SELECT FirstTimeLine FROM AnimationCutBank WHERE Enable != 0 ORDER BY MainId LIMIT 1"@
    } else {
        "SELECT FirstTimeLine FROM AnimationCutBank ORDER BY MainId LIMIT 1"@
    }
}

/// The timeline that a reply says is played.
pub open spec fn preferred_of(reply: sql::ReplyModel) -> Result<Option<i64>, Failure> {
    match sql::first_row(reply) {
        Err(failure) => Err(failure),
        Ok(None) => Ok(None),
        Ok(Some(row)) => match sql::optional_integer_at(row, 0) {
            Err(failure) => Err(failure),
            Ok(id) => Ok(nonzero_of(id)),
        },
    }
}

/// Reads which timeline a reply says is played.
pub fn preferred_from_reply(reply: &Reply) -> (id: Result<Option<i64>, Error>)
    ensures
        error::plain(id) == preferred_of(reply@),
{
    match reply.first_row()? {
        None => Ok(None),
        Some(row) => Ok(nonzero(row.optional_integer(0)?)),
    }
}

/// Whether reading which timeline is played can have this outcome.
pub open spec fn preferred_read(
    connection: Connection,
    schema: Seq<database::TableModel>,
    outcome: Result<Option<i64>, Failure>,
) -> bool {
    if !database::column_exists(schema, "AnimationCutBank"@, "FirstTimeLine"@) {
        outcome == Ok::<Option<i64>, Failure>(None)
    } else {
        exists|reply: sql::ReplyModel|
            #[trigger] sql::may_answer(
                connection,
                preferred_question(schema),
                Seq::empty(),
                reply,
            ) && outcome
                == preferred_of(reply)
    }
}

/// Reads which timeline is played.
pub fn preferred_timeline_id(database: &Database) -> (id: Result<Option<i64>, Error>)
    ensures
        preferred_read(database.connection, database.schema@, error::plain(id)),
{
    if !database.schema.has_column("AnimationCutBank", "FirstTimeLine") {
        return Ok(None);
    }
    let question = if database.schema.has_column("AnimationCutBank", "Enable") {
        "SELECT FirstTimeLine FROM AnimationCutBank WHERE Enable != 0 ORDER BY MainId LIMIT 1"
    } else {
        "SELECT FirstTimeLine FROM AnimationCutBank ORDER BY MainId LIMIT 1"
    };
    let reply = query_all(&database.connection, question);
    assert(
        sql::may_answer(
            database.connection,
            preferred_question(database.schema@),
            Seq::empty(),
            reply@,
        )
    );
    preferred_from_reply(&reply)
}

/// The value of a hexadecimal digit.
pub open spec fn hex_digit_of(byte: u8) -> Option<u8> {
    if 48 <= byte <= 57 {
        Some((byte - 48) as u8)
    } else if 97 <= byte <= 102 {
        Some((byte - 87) as u8)
    } else if 65 <= byte <= 70 {
        Some((byte - 55) as u8)
    } else {
        None
    }
}

/// The value of a hexadecimal digit.
pub fn hex_digit(byte: u8) -> (value: Option<u8>)
    ensures
        value == hex_digit_of(byte),
{
    if 48 <= byte && byte <= 57 {
        Some(byte - 48)
    } else if 97 <= byte && byte <= 102 {
        Some(byte - 87)
    } else if 65 <= byte && byte <= 70 {
        Some(byte - 55)
    } else {
        None
    }
}

/// The hexadecimal digits among the first `count` bytes; the others are passed over.
pub open spec fn digits_of(data: Seq<u8>, count: int) -> Seq<u8>
    decreases count,
{
    if count <= 0 {
        Seq::empty()
    } else {
        match hex_digit_of(data[count - 1]) {
            Some(digit) => digits_of(data, count - 1).push(digit),
            None => digits_of(data, count - 1),
        }
    }
}

/// The number that hexadecimal digits spell.
pub open spec fn number_of(digits: Seq<u8>) -> int
    decreases digits.len(),
{
    if digits.len() == 0 {
        0
    } else {
        number_of(digits.drop_last()) * 16 + digits.last()
    }
}

/// The UUID that bytes hold: sixteen bytes as they are, most significant first, or text
/// with thirty-two hexadecimal digits.
pub open spec fn uuid_of(data: Seq<u8>) -> Result<u128, Failure> {
    if data.len() == 16 {
        Ok((bytes::be64(data, 0) * 0x1_0000_0000_0000_0000 + bytes::be64(data, 8)) as u128)
    } else if text_codec::utf8_text(data) is None {
        Err(
            Failure::InvalidAnimation {
                reason: "layer UUID is neither 16 raw bytes nor UTF-8 text"@,
            },
        )
    } else {
        let digits = digits_of(data, data.len() as int);
        if digits.len() != 32 {
            Err(
                Failure::InvalidAnimation {
                    reason: "text layer UUID has "@ + message::decimal(digits.len())
                        + " hexadecimal digits instead of 32"@,
                },
            )
        } else {
            Ok(number_of(digits) as u128)
        }
    }
}

/// The largest number that this many hexadecimal digits spell, plus one.
spec fn sixteens(count: nat) -> int
    decreases count,
{
    if count == 0 {
        1
    } else {
        16 * sixteens((count - 1) as nat)
    }
}

proof fn sixteens_grow(less: nat, more: nat)
    requires
        less <= more,
    ensures
        1 <= sixteens(less) <= sixteens(more),
    decreases more,
{
    if more > 0 {
        if less < more {
            sixteens_grow(less, (more - 1) as nat);
        } else {
            sixteens_grow((less - 1) as nat, (more - 1) as nat);
        }
    }
}

proof fn thirty_two_digits()
    ensures
        sixteens(32) == 0x1_0000_0000_0000_0000_0000_0000_0000_0000,
{
    reveal_with_fuel(sixteens, 33);
}

/// The number that at most thirty-two hexadecimal digits spell.
pub fn spelled_number(digits: &[u8]) -> (number: u128)
    requires
        digits@.len() <= 32,
        forall|i: int| 0 <= i < digits@.len() ==> #[trigger] digits@[i] < 16,
    ensures
        number == number_of(digits@),
{
    let mut number: u128 = 0;
    let mut at: usize = 0;
    assert(digits@.take(0) =~= Seq::<u8>::empty());
    while at < digits.len()
        invariant
            at <= digits@.len() <= 32,
            forall|i: int| 0 <= i < digits@.len() ==> #[trigger] digits@[i] < 16,
            number == number_of(digits@.take(at as int)),
            number < sixteens(at as nat),
        decreases digits@.len() - at,
    {
        proof {
            let next = digits@.take(at + 1);
            assert(next.drop_last() =~= digits@.take(at as int));
            assert(next.last() == digits@[at as int]);
            thirty_two_digits();
            sixteens_grow((at + 1) as nat, 32);
        }
        number = number * 16 + digits[at] as u128;
        at = at + 1;
    }
    assert(digits@.take(at as int) =~= digits@);
    number
}

/// Reads a UUID, as bytes or as text.
pub fn normalize_uuid(data: &[u8]) -> (uuid: Result<u128, Error>)
    ensures
        error::plain(uuid) == uuid_of(data@),
{
    if data.len() == 16 {
        let high: u128 = read_be64(data, 0) as u128;
        let low: u128 = read_be64(data, 8) as u128;
        assert(data.len() == data@.len());
        return Ok(high * 0x1_0000_0000_0000_0000 + low);
    }
    if decode_utf8(data).is_none() {
        return Err(
            animation_error(Message::new("layer UUID is neither 16 raw bytes nor UTF-8 text")),
        );
    }
    let mut number: u128 = 0;
    let mut found: usize = 0;
    let mut at: usize = 0;
    let ghost mut digits: Seq<u8> = Seq::empty();
    while at < data.len()
        invariant
            at <= data@.len(),
            found <= at,
            digits == digits_of(data@, at as int),
            digits.len() == found,
            found <= 32 ==> number == number_of(digits),
            found <= 32 ==> number < sixteens(found as nat),
        decreases data@.len() - at,
    {
        if let Some(digit) = hex_digit(data[at]) {
            proof {
                digits = digits.push(digit);
                assert(digits.drop_last() =~= digits_of(data@, at as int));
                thirty_two_digits();
            }
            if found < 32 {
                proof {
                    sixteens_grow((found + 1) as nat, 32);
                }
                number = number * 16 + digit as u128;
            }
            found = found + 1;
        }
        at = at + 1;
    }
    if found != 32 {
        return Err(
            animation_error(
                Message::new("text layer UUID has ").number(found as u64).text(
                    " hexadecimal digits instead of 32",
                ),
            ),
        );
    }
    Ok(number)
}

/// Whether a text spells bytes: its hexadecimal digits are those of the bytes, in order.
pub open spec fn spells(text: Seq<u8>, data: Seq<u8>) -> bool {
    let digits = digits_of(text, text.len() as int);
    &&& digits.len() == 2 * data.len()
    &&& forall|i: int|
        0 <= i < data.len() ==> 16 * digits[2 * i] + digits[2 * i + 1] == #[trigger] data[i]
}

proof fn two_digits_more(digits: Seq<u8>, count: int)
    requires
        0 <= count,
        count + 2 <= digits.len(),
    ensures
        number_of(digits.take(count + 2)) == number_of(digits.take(count)) * 256 + 16
            * digits[count] + digits[count + 1],
{
    let longest = digits.take(count + 2);
    let longer = digits.take(count + 1);
    assert(longest.drop_last() =~= longer);
    assert(longer.drop_last() =~= digits.take(count));
    assert(longest.last() == digits[count + 1]);
    assert(longer.last() == digits[count]);
    assert(number_of(longest) == number_of(longer) * 16 + digits[count + 1]);
    assert(number_of(longer) == number_of(digits.take(count)) * 16 + digits[count]);
}

/// A UUID is the same whether it is stored as sixteen bytes or as a text that spells them,
/// whatever stands between the digits and whichever case they have.
pub proof fn uuid_text_and_bytes_agree(text: Seq<u8>, data: Seq<u8>)
    requires
        data.len() == 16,
        text.len() != 16,
        text_codec::utf8_text(text) is Some,
        spells(text, data),
    ensures
        uuid_of(text) == uuid_of(data),
{
    let digits = digits_of(text, text.len() as int);
    assert(digits.take(0) =~= Seq::<u8>::empty());
    assert(digits.take(32) =~= digits);
    two_digits_more(digits, 0);
    assert(16 * digits[0] + digits[1] == data[0]);
    two_digits_more(digits, 2);
    assert(16 * digits[2] + digits[3] == data[1]);
    two_digits_more(digits, 4);
    assert(16 * digits[4] + digits[5] == data[2]);
    two_digits_more(digits, 6);
    assert(16 * digits[6] + digits[7] == data[3]);
    two_digits_more(digits, 8);
    assert(16 * digits[8] + digits[9] == data[4]);
    two_digits_more(digits, 10);
    assert(16 * digits[10] + digits[11] == data[5]);
    two_digits_more(digits, 12);
    assert(16 * digits[12] + digits[13] == data[6]);
    two_digits_more(digits, 14);
    assert(16 * digits[14] + digits[15] == data[7]);
    two_digits_more(digits, 16);
    assert(16 * digits[16] + digits[17] == data[8]);
    two_digits_more(digits, 18);
    assert(16 * digits[18] + digits[19] == data[9]);
    two_digits_more(digits, 20);
    assert(16 * digits[20] + digits[21] == data[10]);
    two_digits_more(digits, 22);
    assert(16 * digits[22] + digits[23] == data[11]);
    two_digits_more(digits, 24);
    assert(16 * digits[24] + digits[25] == data[12]);
    two_digits_more(digits, 26);
    assert(16 * digits[26] + digits[27] == data[13]);
    two_digits_more(digits, 28);
    assert(16 * digits[28] + digits[29] == data[14]);
    two_digits_more(digits, 30);
    assert(16 * digits[30] + digits[31] == data[15]);
}

/// The layers of a reply from `at` on by their UUIDs, with the ones in `found`.
pub open spec fn layers_from(
    reply: sql::ReplyModel,
    limits: Limits,
    at: int,
    found: Map<u128, i64>,
) -> Result<Map<u128, i64>, Failure>
    decreases reply.rows.len() - at,
{
    if at >= reply.rows.len() {
        if reply.failed {
            Err(Failure::Sqlite)
        } else {
            Ok(found)
        }
    } else if at + 1 > limits.max_animation_items {
        Err(mixer::too_many("animation layer UUIDs"@, at + 1, limits.max_animation_items))
    } else {
        match sql::bytes_at(reply.rows[at], 1) {
            Err(failure) => Err(failure),
            Ok(raw) => if raw.len() > limits.max_identifier_size {
                Err(
                    mixer::too_many(
                        "animation layer UUID"@,
                        raw.len() as int,
                        limits.max_identifier_size,
                    ),
                )
            } else {
                match uuid_of(raw) {
                    Err(failure) => Err(failure),
                    Ok(uuid) => match sql::integer_at(reply.rows[at], 0) {
                        Err(failure) => Err(failure),
                        Ok(id) => if found.contains_key(uuid) {
                            Err(
                                Failure::InvalidAnimation {
                                    reason: "layers "@ + message::decimal_signed(
                                        found[uuid] as int,
                                    ) + " and "@ + message::decimal_signed(id as int)
                                        + " have the same normalized UUID"@,
                                },
                            )
                        } else {
                            layers_from(reply, limits, at + 1, found.insert(uuid, id))
                        },
                    },
                }
            },
        }
    }
}

/// The layers of a reply by their UUIDs, no UUID twice.
pub fn layers_from_reply(reply: &Reply, limits: Limits) -> (layers: Result<
    BTreeMap<u128, i64>,
    Error,
>)
    ensures
        error::outcome(layers) == layers_from(reply@, limits, 0, Map::empty()),
{
    let mut layers: BTreeMap<u128, i64> = BTreeMap::new();
    let mut at: usize = 0;
    while at < reply.rows.len()
        invariant
            at <= reply.rows@.len(),
            layers_from(reply@, limits, 0, Map::empty()) == layers_from(
                reply@,
                limits,
                at as int,
                layers@,
            ),
        decreases reply.rows@.len() - at,
    {
        assert(reply@.rows[at as int] == reply.rows@[at as int]@);
        let count: u64 = at as u64 + 1;
        if count > limits.max_animation_items() {
            return Err(Error::limit("animation layer UUIDs", count, limits.max_animation_items()));
        }
        let raw = reply.rows[at].bytes(1)?;
        if raw.len() as u64 > limits.max_identifier_size() {
            return Err(
                Error::limit(
                    "animation layer UUID",
                    raw.len() as u64,
                    limits.max_identifier_size(),
                ),
            );
        }
        let uuid: u128 = normalize_uuid(raw.as_slice())?;
        let id: i64 = reply.rows[at].integer(0)?;
        if let Some(previous) = layers.get(&uuid) {
            return Err(
                animation_error(
                    Message::new("layers ").integer(*previous).text(" and ").integer(id).text(
                        " have the same normalized UUID",
                    ),
                ),
            );
        }
        layers.insert(uuid, id);
        at = at + 1;
    }
    match reply.failure() {
        Some(error) => Err(error),
        None => Ok(layers),
    }
}

/// What is asked for the UUIDs of layers, in order.
pub open spec fn layer_uuid_items() -> Seq<Seq<char>> {
    seq![
        "MainId"@,
        "LayerUuid"@,
    ]
}

/// The question that asks for the UUIDs of the layers.
pub open spec fn layers_question() -> Seq<char> {
    columns::asked(layer_uuid_items(), " FROM Layer WHERE LayerUuid IS NOT NULL ORDER BY MainId"@)
}

/// Whether reading the UUIDs of the layers can have this outcome.
pub open spec fn layers_read(
    connection: Connection,
    schema: Seq<database::TableModel>,
    limits: Limits,
    outcome: Result<Map<u128, i64>, Failure>,
) -> bool {
    match database::first_missing(schema, "Layer"@, seq!["MainId"@, "LayerUuid"@], 0) {
        Some(failure) => outcome == Err::<Map<u128, i64>, Failure>(failure),
        None => exists|reply: sql::ReplyModel|
            #[trigger] sql::may_answer_within(
                connection,
                layers_question(),
                Seq::empty(),
                limits.max_animation_items,
                reply,
            ) && outcome
                == layers_from(reply, limits, 0, Map::empty()),
    }
}

/// Reads the layers by their UUIDs.
pub fn layer_uuid_ids(database: &Database, limits: Limits) -> (layers: Result<
    BTreeMap<u128, i64>,
    Error,
>)
    ensures
        layers_read(database.connection, database.schema@, limits, error::outcome(layers)),
{
    let columns: [&str; 2] = ["MainId", "LayerUuid"];
    assert(database::names(columns@) =~= seq!["MainId"@, "LayerUuid"@]);
    if let Some(error) = database.schema.first_missing_column("Layer", &columns) {
        return Err(error);
    }
    let asked: [&str; 2] = ["MainId", "LayerUuid"];
    assert(database::names(asked@) =~= layer_uuid_items());
    let reply = query_all_within(
        &database.connection,
        columns::ask(&asked, " FROM Layer WHERE LayerUuid IS NOT NULL ORDER BY MainId").as_str(),
        limits.max_animation_items(),
    );
    assert(sql::may_answer_within(
        database.connection,
        layers_question(),
        Seq::empty(),
        limits.max_animation_items,
        reply@,
    ));
    layers_from_reply(&reply, limits)
}

/// One track row, before the data that it names is read.
#[derive(Clone, Debug, PartialEq, Eq)]
pub struct TrackSource {
    pub id: i64,
    pub kind: i64,
    pub next_track_id: Option<i64>,
    pub external_identifier: Option<Vec<u8>>,
    pub secondary_external_identifier: Option<Vec<u8>>,
    pub value_map: Option<Vec<u8>>,
    pub layer_uuid: Option<u128>,
}

/// The model of a [`TrackSource`].
#[verifier::ext_equal]
pub struct SourceModel {
    pub id: i64,
    pub kind: i64,
    pub next_track_id: Option<i64>,
    pub external_identifier: Option<Seq<u8>>,
    pub secondary_external_identifier: Option<Seq<u8>>,
    pub value_map: Option<Seq<u8>>,
    pub layer_uuid: Option<u128>,
}

impl View for TrackSource {
    type V = SourceModel;

    open spec fn view(&self) -> SourceModel {
        SourceModel {
            id: self.id,
            kind: self.kind,
            next_track_id: self.next_track_id,
            external_identifier: error::optional_bytes(self.external_identifier),
            secondary_external_identifier: error::optional_bytes(
                self.secondary_external_identifier,
            ),
            value_map: error::optional_bytes(self.value_map),
            layer_uuid: self.layer_uuid,
        }
    }
}

/// The bytes in a column, which may be at most `limit` long.
pub open spec fn limited_bytes_at(
    row: Seq<SqlModel>,
    column: int,
    resource: Seq<char>,
    limit: u64,
) -> Result<Option<Seq<u8>>, Failure> {
    match sql::optional_bytes_at(row, column) {
        Ok(Some(data)) if data.len() > limit => Err(
            mixer::too_many(resource, data.len() as int, limit),
        ),
        other => other,
    }
}

fn limited_bytes(row: &SqlRow, column: usize, resource: &'static str, limit: u64) -> (data: Result<
    Option<Vec<u8>>,
    Error,
>)
    ensures
        match data {
            Ok(data) => limited_bytes_at(row@, column as int, resource@, limit) == Ok::<
                Option<Seq<u8>>,
                Failure,
            >(error::optional_bytes(data)),
            Err(error) => limited_bytes_at(row@, column as int, resource@, limit) == Err::<
                Option<Seq<u8>>,
                Failure,
            >(error@),
        },
{
    let data = row.optional_bytes(column)?;
    if let Some(data) = &data {
        if data.len() as u64 > limit {
            return Err(Error::limit(resource, data.len() as u64, limit));
        }
    }
    Ok(data)
}

/// The UUID in a track row.
pub open spec fn track_uuid_of(raw: Option<Seq<u8>>) -> Result<Option<u128>, Failure> {
    match raw {
        None => Ok(None),
        Some(raw) => match uuid_of(raw) {
            Err(failure) => Err(failure),
            Ok(uuid) => Ok(Some(uuid)),
        },
    }
}

/// The numbers of a track row, with the data read before.
pub open spec fn source_with(
    row: Seq<SqlModel>,
    external: Option<Seq<u8>>,
    secondary: Option<Seq<u8>>,
    value_map: Option<Seq<u8>>,
    uuid: Option<Seq<u8>>,
) -> Result<SourceModel, Failure> {
    match (sql::integer_at(row, 0), sql::integer_at(row, 1), sql::optional_integer_at(row, 6)) {
        (Ok(id), Ok(kind), Ok(next)) => match track_uuid_of(uuid) {
            Err(failure) => Err(failure),
            Ok(layer_uuid) => Ok(
                SourceModel {
                    id,
                    kind,
                    next_track_id: nonzero_of(next),
                    external_identifier: external,
                    secondary_external_identifier: secondary,
                    value_map,
                    layer_uuid,
                },
            ),
        },
        _ => Err(Failure::Sqlite),
    }
}

/// The track that a row describes.
pub open spec fn source_of(row: Seq<SqlModel>, limits: Limits) -> Result<SourceModel, Failure> {
    match limited_bytes_at(row, 2, "animation external identifier"@, limits.max_identifier_size) {
        Err(failure) => Err(failure),
        Ok(external) => match limited_bytes_at(
            row,
            4,
            "secondary animation external identifier"@,
            limits.max_identifier_size,
        ) {
            Err(failure) => Err(failure),
            Ok(secondary) => match limited_bytes_at(
                row,
                5,
                "animation track value map"@,
                limits.max_animation_bytes,
            ) {
                Err(failure) => Err(failure),
                Ok(value_map) => match limited_bytes_at(
                    row,
                    3,
                    "animation layer UUID"@,
                    limits.max_identifier_size,
                ) {
                    Err(failure) => Err(failure),
                    Ok(uuid) => source_with(row, external, secondary, value_map, uuid),
                },
            },
        },
    }
}

/// Reads the track that a row describes.
pub fn source_from_row(row: &SqlRow, limits: Limits) -> (source: Result<TrackSource, Error>)
    ensures
        error::outcome(source) == source_of(row@, limits),
{
    let external_identifier = limited_bytes(
        row,
        2,
        "animation external identifier",
        limits.max_identifier_size(),
    )?;
    let secondary_external_identifier = limited_bytes(
        row,
        4,
        "secondary animation external identifier",
        limits.max_identifier_size(),
    )?;
    let value_map = limited_bytes(
        row,
        5,
        "animation track value map",
        limits.max_animation_bytes(),
    )?;
    let uuid = limited_bytes(row, 3, "animation layer UUID", limits.max_identifier_size())?;
    let id: i64 = row.integer(0)?;
    let kind: i64 = row.integer(1)?;
    let next_track_id: Option<i64> = nonzero(row.optional_integer(6)?);
    let layer_uuid: Option<u128> = match &uuid {
        Some(raw) => Some(normalize_uuid(raw.as_slice())?),
        None => None,
    };
    Ok(
        TrackSource {
            id,
            kind,
            next_track_id,
            external_identifier,
            secondary_external_identifier,
            value_map,
            layer_uuid,
        },
    )
}

/// The tracks of a reply from `at` on, after the ones in `found`.
pub open spec fn sources_from(
    reply: sql::ReplyModel,
    limits: Limits,
    at: int,
    found: Seq<SourceModel>,
) -> Result<Seq<SourceModel>, Failure>
    decreases reply.rows.len() - at,
{
    if at >= reply.rows.len() {
        if reply.failed {
            Err(Failure::Sqlite)
        } else {
            Ok(found)
        }
    } else if at + 1 > limits.max_animation_items {
        Err(mixer::too_many("animation tracks"@, at + 1, limits.max_animation_items))
    } else {
        match source_of(reply.rows[at], limits) {
            Err(failure) => Err(failure),
            Ok(source) => sources_from(reply, limits, at + 1, found.push(source)),
        }
    }
}

/// The links between the first `count` tracks.
pub open spec fn track_links(sources: Seq<SourceModel>, count: int) -> Map<i64, Link>
    decreases count,
{
    if count <= 0 {
        Map::empty()
    } else {
        track_links(sources, count - 1).insert(
            sources[count - 1].id,
            Link { next: sources[count - 1].next_track_id, first_child: None },
        )
    }
}

/// Whether no two tracks have one ID.
pub open spec fn unique_tracks(sources: Seq<SourceModel>) -> bool {
    forall|i: int, j: int|
        0 <= i < j < sources.len() ==> (#[trigger] sources[i]).id != (#[trigger] sources[j]).id
}

/// Whether the chain that starts at `first` runs through every track once.
pub open spec fn track_chain_valid(sources: Seq<SourceModel>, first: i64) -> bool {
    unique_tracks(sources) && match links::siblings_from(
        track_links(sources, sources.len() as int),
        Set::empty(),
        Some(first),
        Seq::empty(),
    ) {
        Some((_, order)) => order.len() == sources.len(),
        None => false,
    }
}

/// What is said of a chain that does not run through every track once.
pub open spec fn chain_complaint(sources: Seq<SourceModel>, first: i64) -> Seq<char> {
    if !unique_tracks(sources) {
        "timeline contains duplicate track IDs"@
    } else {
        match links::chain_fault(
            track_links(sources, sources.len() as int),
            Set::empty(),
            Some(first),
        ) {
            Some(links::ChainFault::Missing(id)) => "timeline track "@ + message::decimal_signed(
                id as int,
            ) + " is missing"@,
            Some(links::ChainFault::Repeated(id)) => "timeline track chain is cyclic at track "@
                + message::decimal_signed(id as int),
            None => "timeline track chain contains unreachable tracks"@,
        }
    }
}

proof fn links_hold_ids(sources: Seq<SourceModel>, count: int)
    requires
        0 <= count <= sources.len(),
    ensures
        track_links(sources, count).dom().finite(),
        forall|id: i64| #[trigger]
            track_links(sources, count).contains_key(id) <==> exists|i: int|
                0 <= i < count && (#[trigger] sources[i]).id == id,
        unique_tracks(sources) ==> track_links(sources, count).dom().len() == count,
    decreases count,
{
    if count > 0 {
        links_hold_ids(sources, count - 1);
        let before = track_links(sources, count - 1);
        assert forall|id: i64| #[trigger]
            track_links(sources, count).contains_key(id) <==> exists|i: int|
                0 <= i < count && (#[trigger] sources[i]).id == id by {
            if before.contains_key(id) {
                let i = choose|i: int| 0 <= i < count - 1 && (#[trigger] sources[i]).id == id;
                assert(sources[i].id == id);
            }
            if exists|i: int| 0 <= i < count && (#[trigger] sources[i]).id == id {
                let i = choose|i: int| 0 <= i < count && (#[trigger] sources[i]).id == id;
                if i < count - 1 {
                    assert(before.contains_key(id));
                }
            }
            assert(sources[count - 1].id == sources[count - 1].id);
        }
        if unique_tracks(sources) {
            let id = sources[count - 1].id;
            if before.contains_key(id) {
                let i = choose|i: int| 0 <= i < count - 1 && (#[trigger] sources[i]).id == id;
                assert(sources[i].id != sources[count - 1].id);
            }
            assert(track_links(sources, count).dom() =~= before.dom().insert(id));
        }
    }
}

/// An accepted chain of tracks starts at the first track, follows the stored links to
/// their end, and runs through every track exactly once.
pub proof fn accepted_chain_holds_every_track(sources: Seq<SourceModel>, first: i64)
    requires
        track_chain_valid(sources, first),
    ensures
        exists|order: Seq<i64>| #[trigger]
            links::is_chain(track_links(sources, sources.len() as int), Some(first), order)
                && order.no_duplicates() && order.len() == sources.len() && forall|i: int|
                0 <= i < sources.len() ==> order.contains((#[trigger] sources[i]).id),
{
    let map = track_links(sources, sources.len() as int);
    links_hold_ids(sources, sources.len() as int);
    links::followed_chain(map, Set::empty(), Some(first), Seq::empty());
    let (after, order) = links::siblings_from(map, Set::empty(), Some(first), Seq::empty())->Some_0;
    assert(order.skip(0) =~= order);
    assert(links::is_chain(map, Some(first), order));
    assert forall|i: int| 0 <= i < sources.len() implies order.contains(
        (#[trigger] sources[i]).id,
    ) by {
        order.unique_seq_to_set();
        assert(order.to_set().subset_of(map.dom())) by {
            assert forall|id: i64| order.to_set().contains(id) implies map.dom().contains(id) by {
                let k = choose|k: int| 0 <= k < order.len() && order[k] == id;
                assert(links::leads_on(map, order, k));
            }
        }
        vstd::set_lib::lemma_len_subset(order.to_set(), map.dom());
        vstd::set_lib::lemma_subset_equality(order.to_set(), map.dom());
        assert(map.contains_key(sources[i].id));
        assert(order.to_set().contains(sources[i].id));
    }
}

/// Checks that the chain that starts at `first` runs through every track once.
pub fn validate_track_chain(sources: &[TrackSource], first: i64) -> (result: Result<(), Error>)
    ensures
        match result {
            Ok(()) => track_chain_valid(error::views(sources@), first),
            Err(error) => !track_chain_valid(error::views(sources@), first) && error@ == (
            Failure::InvalidAnimation { reason: chain_complaint(error::views(sources@), first) }),
        },
{
    let ghost models = error::views(sources@);
    let mut map: BTreeMap<i64, Link> = BTreeMap::new();
    let mut at: usize = 0;
    while at < sources.len()
        invariant
            at <= sources@.len(),
            models == error::views(sources@),
            map@ == track_links(models, at as int),
            forall|i: int, j: int|
                0 <= i < j < at ==> (#[trigger] models[i]).id != (#[trigger] models[j]).id,
        decreases sources@.len() - at,
    {
        let source = &sources[at];
        assert(models[at as int] == source@);
        proof {
            links_hold_ids(models, at as int);
        }
        if map.contains_key(&source.id) {
            proof {
                let i = choose|i: int| 0 <= i < at && (#[trigger] models[i]).id == source.id;
                assert(models[i].id == models[at as int].id);
            }
            return Err(animation_error(Message::new("timeline contains duplicate track IDs")));
        }
        proof {
            assert forall|i: int, j: int| 0 <= i < j < at + 1 implies (#[trigger] models[i]).id != (
            #[trigger] models[j]).id by {
                if j == at {
                    assert(models[i].id != source.id);
                }
            }
        }
        map.insert(source.id, Link { next: source.next_track_id, first_child: None });
        at = at + 1;
    }
    let mut visited: BTreeSet<i64> = BTreeSet::new();
    match follow_siblings(&map, &mut visited, Some(first)) {
        Err(LinkFault::Missing(id)) => Err(
            animation_error(Message::new("timeline track ").integer(id).text(" is missing")),
        ),
        Err(LinkFault::Repeated(id)) | Err(LinkFault::Cyclic(id)) => Err(
            animation_error(
                Message::new("timeline track chain is cyclic at track ").integer(id),
            ),
        ),
        Err(LinkFault::Depth(_)) => Err(
            animation_error(Message::new("timeline track chain is too deep")),
        ),
        Ok(order) => if order.len() != sources.len() {
            Err(animation_error(Message::new("timeline track chain contains unreachable tracks")))
        } else {
            Ok(())
        },
    }
}

/// The tracks of a reply, whose chain has to start at `first` where there is one.
pub open spec fn sources_of(reply: sql::ReplyModel, limits: Limits, first: Option<i64>) -> Result<
    Seq<SourceModel>,
    Failure,
> {
    match sources_from(reply, limits, 0, Seq::empty()) {
        Err(failure) => Err(failure),
        Ok(sources) => match first {
            Some(first) if !track_chain_valid(sources, first) => Err(
                Failure::InvalidAnimation { reason: chain_complaint(sources, first) },
            ),
            _ => Ok(sources),
        },
    }
}

/// Reads the tracks of a reply, whose chain has to start at `first` where there is one.
pub fn sources_from_reply(reply: &Reply, limits: Limits, first: Option<i64>) -> (sources: Result<
    Vec<TrackSource>,
    Error,
>)
    ensures
        error::listed(sources) == sources_of(reply@, limits, first),
{
    let mut sources: Vec<TrackSource> = Vec::new();
    let mut at: usize = 0;
    assert(error::views(sources@) =~= Seq::<SourceModel>::empty());
    while at < reply.rows.len()
        invariant
            at <= reply.rows@.len(),
            sources_from(reply@, limits, 0, Seq::empty()) == sources_from(
                reply@,
                limits,
                at as int,
                error::views(sources@),
            ),
        decreases reply.rows@.len() - at,
    {
        assert(reply@.rows[at as int] == reply.rows@[at as int]@);
        let count: u64 = at as u64 + 1;
        if count > limits.max_animation_items() {
            return Err(Error::limit("animation tracks", count, limits.max_animation_items()));
        }
        let source = source_from_row(&reply.rows[at], limits)?;
        proof {
            error::views_push(sources@, source);
        }
        sources.push(source);
        at = at + 1;
    }
    if let Some(error) = reply.failure() {
        return Err(error);
    }
    if let Some(first) = first {
        validate_track_chain(sources.as_slice(), first)?;
    }
    Ok(sources)
}

/// The columns that every track is read from.
pub open spec fn track_columns() -> Seq<Seq<char>> {
    seq!["MainId"@, "BankId"@, "TrackKind"@, "TrackActionMixer"@, "LayerUuidWithTrack"@]
}

/// What is asked for tracks, in order.
pub open spec fn track_items(schema: Seq<database::TableModel>) -> Seq<Seq<char>> {
    seq![
        "MainId"@,
        "TrackKind"@,
        "TrackActionMixer"@,
        "LayerUuidWithTrack"@,
        database::column_or_null(schema, "Track"@, "TrackActionMixer2"@),
        database::column_or_null(schema, "Track"@, "TrackValueMap"@),
        database::column_or_null(schema, "Track"@, "TrackNextIndex"@),
    ]
}

/// The question that asks for the tracks of a bank.
pub open spec fn tracks_question(schema: Seq<database::TableModel>) -> Seq<char> {
    columns::asked(track_items(schema), " FROM Track WHERE BankId = ?1 ORDER BY MainId"@)
}

/// Where the chain of tracks of a timeline has to start; `None` where it is not checked.
pub open spec fn checked_chain(
    schema: Seq<database::TableModel>,
    timeline: TimelineModel,
) -> Option<
    i64,
> {
    if database::column_exists(schema, "Track"@, "TrackNextIndex"@) {
        timeline.first_track_id
    } else {
        None
    }
}

/// Whether reading the tracks of a timeline can have this outcome.
pub open spec fn sources_read(
    connection: Connection,
    schema: Seq<database::TableModel>,
    timeline: TimelineModel,
    limits: Limits,
    outcome: Result<Seq<SourceModel>, Failure>,
) -> bool {
    if database::table_of(schema, "Track"@) is None {
        outcome == if timeline.first_track_id is None {
            Ok::<Seq<SourceModel>, Failure>(Seq::empty())
        } else {
            Err(
                Failure::InvalidAnimation {
                    reason: "timeline references a missing Track table"@,
                },
            )
        }
    } else {
        match database::first_missing(schema, "Track"@, track_columns(), 0) {
            Some(failure) => outcome == Err::<Seq<SourceModel>, Failure>(failure),
            None => exists|reply: sql::ReplyModel|
                #[trigger] sql::may_answer_within(
                    connection,
                    tracks_question(schema),
                    seq![sql::ParameterModel::Integer(timeline.bank_id)],
                    limits.max_animation_items,
                    reply,
                ) && outcome == sources_of(reply, limits, checked_chain(schema, timeline)),
        }
    }
}

/// Reads the tracks of a timeline.
pub fn animation_track_sources(database: &Database, timeline: &Timeline, limits: Limits) -> (sources:
    Result<Vec<TrackSource>, Error>)
    ensures
        sources_read(
            database.connection,
            database.schema@,
            timeline@,
            limits,
            error::listed(sources),
        ),
{
    if database.schema.table("Track").is_none() {
        if timeline.first_track_id.is_none() {
            let none: Vec<TrackSource> = Vec::new();
            assert(error::views(none@) =~= Seq::<SourceModel>::empty());
            return Ok(none);
        }
        return Err(animation_error(Message::new("timeline references a missing Track table")));
    }
    let columns: [&str; 5] = ["MainId", "BankId", "TrackKind", "TrackActionMixer", "LayerUuidWithTrack"];
    assert(database::names(columns@) =~= track_columns());
    if let Some(error) = database.schema.first_missing_column("Track", &columns) {
        return Err(error);
    }
    let asked: [&str; 7] = [
        "MainId",
        "TrackKind",
        "TrackActionMixer",
        "LayerUuidWithTrack",
        database.schema.column_or_null("Track", "TrackActionMixer2"),
        database.schema.column_or_null("Track", "TrackValueMap"),
        database.schema.column_or_null("Track", "TrackNextIndex"),
    ];
    assert(database::names(asked@) =~= track_items(database.schema@));
    let question = columns::ask(&asked, " FROM Track WHERE BankId = ?1 ORDER BY MainId");
    let reply = query_by_id_within(
        &database.connection,
        question.as_str(),
        timeline.bank_id,
        limits.max_animation_items(),
    );
    assert(sql::may_answer_within(
        database.connection,
        tracks_question(database.schema@),
        seq![sql::ParameterModel::Integer(timeline@.bank_id)],
        limits.max_animation_items,
        reply@,
    ));
    let first: Option<i64> = if database.schema.has_column("Track", "TrackNextIndex") {
        timeline.first_track_id
    } else {
        None
    };
    let sources = sources_from_reply(&reply, limits, first);
    assert(error::listed(sources) == sources_of(
        reply@,
        limits,
        checked_chain(database.schema@, timeline@),
    ));
    sources
}

} // verus!
