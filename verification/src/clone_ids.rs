//! IDs, UUIDs, and external identifiers for the rows of a cloned layer.

use std::collections::BTreeSet;

use rusqlite::Connection;
use vstd::prelude::*;

use crate::bytes::{copy_bytes, same_bytes};
use crate::database;
use crate::database::quote_identifier;
use crate::error;
use crate::error::{Error, Failure};
use crate::limits::Limits;
use crate::message;
use crate::message::Message;
use crate::raster_tree;
use crate::sql;
use crate::sql::{
    copy_all, query, query_all, query_all_within, Reply, SqlModel, SqlParameter, SqlRow, SqlValue,
};
use crate::track_rows;
use crate::track_rows::{hex_digit, spelled_number};

verus! {

fn unwritable(reason: Message) -> (error: Error)
    ensures
        error@ == (Failure::InvalidWrite { reason: reason@ }),
{
    Error::InvalidWrite { reason: reason.build() }
}

/// The largest ID in use, from a row that counts IDs, which have to be there and differ.
pub open spec fn largest_of(table: Seq<char>, row: Seq<SqlModel>) -> Result<i64, Failure> {
    match (
        sql::integer_at(row, 0),
        sql::integer_at(row, 1),
        sql::integer_at(row, 2),
        sql::optional_integer_at(row, 3),
    ) {
        (Ok(rows), Ok(named), Ok(distinct), Ok(maximum)) => {
            let largest = match maximum {
                Some(maximum) => maximum,
                None => 0,
            };
            if rows != named || rows != distinct {
                Err(
                    Failure::InvalidWrite {
                        reason: table + ".MainId contains NULL or duplicate values"@,
                    },
                )
            } else if largest < 0 {
                Err(Failure::InvalidWrite { reason: table + ".MainId maximum is negative"@ })
            } else {
                Ok(largest)
            }
        },
        _ => Err(Failure::Sqlite),
    }
}

fn read_largest(row: &SqlRow, table: &str) -> (largest: Result<i64, Error>)
    ensures
        error::plain(largest) == largest_of(table@, row@),
{
    let rows: i64 = row.integer(0)?;
    let named: i64 = row.integer(1)?;
    let distinct: i64 = row.integer(2)?;
    let maximum: Option<i64> = row.optional_integer(3)?;
    if rows != named || rows != distinct {
        return Err(
            unwritable(Message::new(table).text(".MainId contains NULL or duplicate values")),
        );
    }
    let largest: i64 = match maximum {
        Some(maximum) => maximum,
        None => 0,
    };
    if largest < 0 {
        return Err(unwritable(Message::new(table).text(".MainId maximum is negative")));
    }
    Ok(largest)
}

/// The first of `amount` new IDs and the last, from the row that records the last ID ever
/// given.
pub open spec fn allocation_of(
    table: Seq<char>,
    row: Seq<SqlModel>,
    largest: i64,
    amount: nat,
) -> Result<(i64, i64), Failure> {
    match (sql::integer_at(row, 0), sql::optional_integer_at(row, 1)) {
        (Ok(rows), Ok(recorded)) => if rows != 1 {
            Err(
                Failure::InvalidWrite {
                    reason: "ElemScheme must contain exactly one "@ + table + " row, found "@
                        + message::decimal_signed(rows as int),
                },
            )
        } else {
            match recorded {
                None => Err(
                    Failure::InvalidWrite {
                        reason: "ElemScheme "@ + table + " MaxIndex is NULL"@,
                    },
                ),
                Some(recorded) => if recorded < largest {
                    Err(
                        Failure::InvalidWrite {
                            reason: "ElemScheme "@ + table + " MaxIndex "@
                                + message::decimal_signed(recorded as int) + " is below MainId maximum "@
                                + message::decimal_signed(largest as int),
                        },
                    )
                } else if recorded + amount > i64::MAX {
                    Err(Failure::OffsetOverflow)
                } else {
                    Ok(((recorded + 1) as i64, (recorded + amount) as i64))
                },
            }
        },
        _ => Err(Failure::Sqlite),
    }
}

fn read_allocation(row: &SqlRow, largest: i64, amount: usize, table: &str) -> (ids: Result<
    (i64, i64),
    Error,
>)
    requires
        largest >= 0,
        amount > 0,
    ensures
        error::plain(ids) == allocation_of(table@, row@, largest, amount as nat),
{
    let rows: i64 = row.integer(0)?;
    let recorded: Option<i64> = row.optional_integer(1)?;
    if rows != 1 {
        return Err(
            unwritable(
                Message::new("ElemScheme must contain exactly one ").text(table).text(
                    " row, found ",
                ).integer(rows),
            ),
        );
    }
    let recorded: i64 = match recorded {
        Some(recorded) => recorded,
        None => {
            return Err(
                unwritable(Message::new("ElemScheme ").text(table).text(" MaxIndex is NULL")),
            );
        },
    };
    if recorded < largest {
        return Err(
            unwritable(
                Message::new("ElemScheme ").text(table).text(" MaxIndex ").integer(recorded).text(
                    " is below MainId maximum ",
                ).integer(largest),
            ),
        );
    }
    if amount as u64 > (i64::MAX - recorded) as u64 {
        return Err(Error::OffsetOverflow);
    }
    Ok((recorded + 1, recorded + amount as i64))
}

/// New IDs are larger than every ID in use, and the last of them is the one to record.
pub proof fn allocated_ids_are_new(
    table: Seq<char>,
    row: Seq<SqlModel>,
    largest: i64,
    amount: nat,
)
    requires
        largest >= 0,
        amount > 0,
        allocation_of(table, row, largest, amount) is Ok,
    ensures
        ({
            let (first, last) = allocation_of(table, row, largest, amount)->Ok_0;
            largest < first <= last && last - first + 1 == amount
        }),
{
}

/// The question that counts the IDs of a table.
pub open spec fn ids_question(table: Seq<char>) -> Seq<char> {
    "SELECT count(*), count(MainId), count(DISTINCT MainId), max(MainId) FROM "@
        + database::quoted_name(table)
}

/// The question that asks for the last ID ever given.
pub open spec fn scheme_question() -> Seq<char> {
    "SELECT count(*), max(MaxIndex) FROM ElemScheme WHERE TableName = ?1"@
}

/// What a reply gives where one row is asked for.
pub open spec fn largest_in(table: Seq<char>, reply: sql::ReplyModel) -> Result<i64, Failure> {
    match sql::only_row(reply) {
        Err(failure) => Err(failure),
        Ok(row) => largest_of(table, row),
    }
}

/// The new IDs that a reply allows.
pub open spec fn allocation_in(
    table: Seq<char>,
    reply: sql::ReplyModel,
    largest: i64,
    amount: nat,
) -> Result<(i64, i64), Failure> {
    match sql::only_row(reply) {
        Err(failure) => Err(failure),
        Ok(row) => allocation_of(table, row, largest, amount),
    }
}

/// Whether allocating IDs, where the largest in use has been read, can have this outcome.
pub open spec fn allocated_after(
    connection: Connection,
    table: Seq<char>,
    largest: Result<i64, Failure>,
    amount: nat,
    outcome: Result<(i64, i64), Failure>,
) -> bool {
    match largest {
        Err(failure) => outcome == Err::<(i64, i64), Failure>(failure),
        Ok(largest) => exists|reply: sql::ReplyModel|
            #[trigger] sql::may_answer(
                connection,
                scheme_question(),
                seq![sql::ParameterModel::Text(table)],
                reply,
            ) && outcome == allocation_in(table, reply, largest, amount),
    }
}

/// Whether allocating IDs can have this outcome.
pub open spec fn allocated(
    connection: Connection,
    table: Seq<char>,
    amount: nat,
    outcome: Result<(i64, i64), Failure>,
) -> bool {
    if amount == 0 {
        outcome == Err::<(i64, i64), Failure>(
            Failure::InvalidWrite { reason: "raster clone requested no "@ + table + " IDs"@ },
        )
    } else {
        exists|reply: sql::ReplyModel|
            #[trigger] sql::may_answer(connection, ids_question(table), Seq::empty(), reply)
                && allocated_after(connection, table, largest_in(table, reply), amount, outcome)
    }
}

/// Allocates IDs for new rows of a table: the first and the last of them.
pub fn allocate_raster_ids(connection: &Connection, table: &str, amount: usize) -> (ids: Result<
    (i64, i64),
    Error,
>)
    ensures
        allocated(*connection, table@, amount as nat, error::plain(ids)),
{
    if amount == 0 {
        return Err(
            unwritable(Message::new("raster clone requested no ").text(table).text(" IDs")),
        );
    }
    let question = Message::new(
        "SELECT count(*), count(MainId), count(DISTINCT MainId), max(MainId) FROM ",
    ).text(quote_identifier(table).as_str()).build();
    let reply = query_all(connection, question.as_str());
    assert(sql::may_answer(*connection, ids_question(table@), Seq::empty(), reply@));
    let largest = match reply.only_row() {
        Ok(row) => read_largest(row, table),
        Err(error) => Err(error),
    };
    let ghost read = error::plain(largest);
    assert(read == largest_in(table@, reply@));
    let largest: i64 = match largest {
        Ok(largest) => largest,
        Err(error) => {
            assert(allocated_after(*connection, table@, read, amount as nat, Err(error@)));
            return Err(error);
        },
    };
    let mut parameters: Vec<SqlParameter> = Vec::new();
    parameters.push(SqlParameter::Text(Message::new(table).build()));
    assert(error::views(parameters@) =~= seq![sql::ParameterModel::Text(table@)]);
    let reply = query(
        connection,
        "SELECT count(*), max(MaxIndex) FROM ElemScheme WHERE TableName = ?1",
        &parameters,
    );
    assert(sql::may_answer(
        *connection,
        scheme_question(),
        seq![sql::ParameterModel::Text(table@)],
        reply@,
    ));
    let ids = match reply.only_row() {
        Ok(row) => read_allocation(row, largest, amount, table),
        Err(error) => Err(error),
    };
    assert(error::plain(ids) == allocation_in(table@, reply@, largest, amount as nat));
    assert(allocated_after(*connection, table@, read, amount as nat, error::plain(ids)));
    ids
}

/// So many IDs in a row.
pub open spec fn ids_from(first: i64, count: nat) -> Seq<i64> {
    Seq::new(count, |i: int| (first + i) as i64)
}

/// So many IDs in a row.
pub fn sequential_raster_ids(first: i64, count: usize) -> (ids: Result<Vec<i64>, Error>)
    ensures
        error::outcome(ids) == if count > 0 && first + count - 1 > i64::MAX {
            Err::<Seq<i64>, Failure>(Failure::OffsetOverflow)
        } else {
            Ok(ids_from(first, count as nat))
        },
{
    let mut ids: Vec<i64> = Vec::new();
    let mut next: Option<i64> = Some(first);
    while ids.len() < count
        invariant
            ids@.len() <= count,
            ids@ =~= ids_from(first, ids@.len()),
            ids@.len() > 0 ==> first + ids@.len() - 1 <= i64::MAX,
            match next {
                Some(next) => next == first + ids@.len(),
                None => first + ids@.len() > i64::MAX,
            },
        decreases count - ids@.len(),
    {
        let id: i64 = match next {
            Some(id) => id,
            None => return Err(Error::OffsetOverflow),
        };
        ids.push(id);
        next = id.checked_add(1);
    }
    Ok(ids)
}

/// The random bytes of a seed with the marks of a random UUID.
pub open spec fn marked(seed: Seq<u8>) -> Seq<u8> {
    seed.update(6, (seed[6] % 16 + 64) as u8).update(8, (seed[8] % 64 + 128) as u8)
}

/// The seed that a reply gives.
pub open spec fn seed_in(reply: sql::ReplyModel, purpose: Seq<char>) -> Result<
    Seq<u8>,
    Failure,
> {
    match sql::only_row(reply) {
        Err(failure) => Err(failure),
        Ok(row) => match sql::blob_at(row, 0) {
            Err(failure) => Err(failure),
            Ok(seed) => if seed.len() != 16 {
                Err(
                    Failure::InvalidWrite {
                        reason: "SQLite returned an invalid raster "@ + purpose + " seed"@,
                    },
                )
            } else {
                Ok(marked(seed))
            },
        },
    }
}

/// The question that asks for a seed.
pub open spec fn seed_question() -> Seq<char> {
    "SELECT randomblob(16)"@
}

/// Reads the seed that a reply gives.
pub fn seed_from_reply(reply: &Reply, purpose: &str) -> (seed: Result<Vec<u8>, Error>)
    ensures
        error::outcome(seed) == seed_in(reply@, purpose@),
        seed matches Ok(seed) ==> seed@.len() == 16,
{
    let mut seed = reply.only_row()?.blob(0)?;
    if seed.len() != 16 {
        return Err(
            unwritable(
                Message::new("SQLite returned an invalid raster ").text(purpose).text(" seed"),
            ),
        );
    }
    let version: u8 = seed[6] % 16 + 64;
    let variant: u8 = seed[8] % 64 + 128;
    seed.set(6, version);
    seed.set(8, variant);
    Ok(seed)
}

/// The hexadecimal digits of bytes.
pub open spec fn byte_digits(data: Seq<u8>) -> Seq<u8> {
    Seq::new(
        2 * data.len(),
        |i: int|
            if i % 2 == 0 {
                (data[i / 2] / 16) as u8
            } else {
                (data[i / 2] % 16) as u8
            },
    )
}

fn digits_of_bytes(data: &[u8]) -> (digits: Vec<u8>)
    ensures
        digits@ == byte_digits(data@),
        forall|i: int| 0 <= i < digits@.len() ==> #[trigger] digits@[i] < 16,
{
    let mut digits: Vec<u8> = Vec::new();
    let mut at: usize = 0;
    while at < data.len()
        invariant
            at <= data@.len(),
            digits@.len() == 2 * at,
            forall|i: int| 0 <= i < digits@.len() ==> #[trigger] digits@[i]
                == byte_digits(data@)[i],
        decreases data@.len() - at,
    {
        let byte: u8 = data[at];
        digits.push(byte / 16);
        digits.push(byte % 16);
        at = at + 1;
    }
    assert(digits@ =~= byte_digits(data@));
    digits
}

/// The character for a hexadecimal digit.
pub open spec fn digit_character(digit: u8) -> char {
    if digit < 10 {
        (48 + digit) as char
    } else {
        (87 + digit) as char
    }
}

/// The byte for a hexadecimal digit in upper case.
pub open spec fn digit_byte(digit: u8) -> u8 {
    if digit < 10 {
        (48 + digit) as u8
    } else {
        (55 + digit) as u8
    }
}

fn character_of(digit: u8) -> (character: char)
    requires
        digit < 16,
    ensures
        character == digit_character(digit),
{
    let byte: u8 = if digit < 10 {
        48 + digit
    } else {
        87 + digit
    };
    byte as char
}

/// The text of a UUID: its digits in groups, the last two in front.
pub open spec fn uuid_text_of(digits: Seq<u8>) -> Seq<char> {
    let text = digits.map_values(|digit: u8| digit_character(digit));
    text.subrange(30, 32) + text.subrange(0, 8) + "-"@ + text.subrange(8, 12) + "-"@
        + text.subrange(12, 16) + "-"@ + text.subrange(16, 20) + "-"@ + text.subrange(20, 30)
}

fn append_digits(text: String, digits: &[u8], start: usize, end: usize) -> (longer: String)
    requires
        start <= end <= digits@.len(),
        forall|i: int| 0 <= i < digits@.len() ==> #[trigger] digits@[i] < 16,
    ensures
        longer@ == text@ + digits@.map_values(|digit: u8| digit_character(digit)).subrange(
            start as int,
            end as int,
        ),
{
    let ghost all = digits@.map_values(|digit: u8| digit_character(digit));
    let ghost before = text@;
    let mut longer = text;
    let mut at: usize = start;
    assert(longer@ =~= before + all.subrange(start as int, at as int));
    while at < end
        invariant
            start <= at <= end <= digits@.len(),
            forall|i: int| 0 <= i < digits@.len() ==> #[trigger] digits@[i] < 16,
            all == digits@.map_values(|digit: u8| digit_character(digit)),
            longer@ == before + all.subrange(start as int, at as int),
        decreases end - at,
    {
        longer.push(character_of(digits[at]));
        assert(longer@ =~= before + all.subrange(start as int, at + 1));
        at = at + 1;
    }
    longer
}

/// Writes a UUID.
pub fn format_raster_uuid(digits: &[u8]) -> (text: String)
    requires
        digits@.len() == 32,
        forall|i: int| 0 <= i < digits@.len() ==> #[trigger] digits@[i] < 16,
    ensures
        text@ == uuid_text_of(digits@),
{
    let text = append_digits(String::new(), digits, 30, 32);
    let text = append_digits(text, digits, 0, 8);
    let text = append_digits(Message::new(text.as_str()).text("-").build(), digits, 8, 12);
    let text = append_digits(Message::new(text.as_str()).text("-").build(), digits, 12, 16);
    let text = append_digits(Message::new(text.as_str()).text("-").build(), digits, 16, 20);
    let text = append_digits(Message::new(text.as_str()).text("-").build(), digits, 20, 30);
    assert(text@ =~= uuid_text_of(digits@));
    text
}

/// The number that a stored UUID spells.
pub open spec fn stored_uuid_of(row: Seq<SqlModel>) -> Result<u128, Failure> {
    match (sql::text_at(row, 0), sql::bytes_at(row, 0)) {
        (Ok(_), Ok(data)) => {
            let digits = track_rows::digits_of(data, data.len() as int);
            if digits.len() != 32 {
                Err(
                    Failure::InvalidWrite {
                        reason: "LayerUuid has "@ + message::decimal(digits.len())
                            + " hexadecimal digits instead of 32"@,
                    },
                )
            } else {
                Ok(track_rows::number_of(digits) as u128)
            }
        },
        _ => Err(Failure::Sqlite),
    }
}

/// Reads the number that a stored UUID spells.
pub fn normalize_raster_uuid(row: &SqlRow) -> (uuid: Result<u128, Error>)
    ensures
        error::plain(uuid) == stored_uuid_of(row@),
{
    let _ = row.text(0)?;
    let data = row.bytes(0)?;
    let mut digits: Vec<u8> = Vec::new();
    let mut at: usize = 0;
    while at < data.len()
        invariant
            at <= data@.len(),
            digits@ == track_rows::digits_of(data@, at as int),
            forall|i: int| 0 <= i < digits@.len() ==> #[trigger] digits@[i] < 16,
        decreases data@.len() - at,
    {
        if let Some(digit) = hex_digit(data[at]) {
            digits.push(digit);
        }
        at = at + 1;
    }
    if digits.len() != 32 {
        return Err(
            unwritable(
                Message::new("LayerUuid has ").number(digits.len() as u64).text(
                    " hexadecimal digits instead of 32",
                ),
            ),
        );
    }
    Ok(spelled_number(digits.as_slice()))
}

/// The UUIDs in use, from the rows of a reply from `at` on, with the ones in `found`.
pub open spec fn uuids_from(
    reply: sql::ReplyModel,
    limit: u64,
    at: int,
    found: Set<u128>,
) -> Result<
    Set<u128>,
    Failure,
>
    decreases reply.rows.len() - at,
{
    if at >= reply.rows.len() && !reply.failed {
        Ok(found)
    } else if at + 1 > limit {
        Err(raster_tree::above("raster layer UUIDs"@, error::one_more(at as nat), limit))
    } else if at >= reply.rows.len() {
        Err(Failure::Sqlite)
    } else {
        match stored_uuid_of(reply.rows[at]) {
            Err(failure) => Err(failure),
            Ok(uuid) => if found.contains(uuid) {
                Err(
                    Failure::InvalidWrite { reason: "Layer contains duplicate normalized UUIDs"@ },
                )
            } else {
                uuids_from(reply, limit, at + 1, found.insert(uuid))
            },
        }
    }
}

/// Reads the UUIDs in use, no UUID twice.
pub fn uuids_from_reply(reply: &Reply, limit: u64) -> (uuids: Result<BTreeSet<u128>, Error>)
    ensures
        error::outcome(uuids) == uuids_from(reply@, limit, 0, Set::empty()),
{
    let mut uuids: BTreeSet<u128> = BTreeSet::new();
    let mut at: usize = 0;
    while at < reply.rows.len()
        invariant
            at <= reply.rows@.len(),
            uuids_from(reply@, limit, 0, Set::empty()) == uuids_from(
                reply@,
                limit,
                at as int,
                uuids@,
            ),
        decreases reply.rows@.len() - at,
    {
        assert(reply@.rows[at as int] == reply.rows@[at as int]@);
        let count: u64 = at as u64 + 1;
        if count > limit {
            return Err(Error::limit("raster layer UUIDs", count, limit));
        }
        let uuid: u128 = normalize_raster_uuid(&reply.rows[at])?;
        if uuids.contains(&uuid) {
            return Err(unwritable(Message::new("Layer contains duplicate normalized UUIDs")));
        }
        uuids.insert(uuid);
        at = at + 1;
    }
    if let Some(error) = reply.failure() {
        if at as u64 >= limit {
            let count: u64 = (at as u64).saturating_add(1);
            return Err(Error::limit("raster layer UUIDs", count, limit));
        }
        return Err(error);
    }
    Ok(uuids)
}

/// Whether up to `tries` attempts at a UUID that is not in use can have this outcome.
pub open spec fn uuid_tried(
    connection: Connection,
    occupied: Set<u128>,
    tries: nat,
    outcome: Result<Seq<char>, Failure>,
) -> bool
    decreases tries,
{
    if tries == 0 {
        outcome == Err::<Seq<char>, Failure>(
            Failure::InvalidWrite { reason: "could not generate a unique raster layer UUID"@ },
        )
    } else {
        exists|reply: sql::ReplyModel|
            #[trigger] sql::may_answer(connection, seed_question(), Seq::empty(), reply) && match seed_in(
                reply,
                "layer UUID"@,
            ) {
                Err(failure) => outcome == Err::<Seq<char>, Failure>(failure),
                Ok(seed) => if occupied.contains(
                    track_rows::number_of(byte_digits(seed)) as u128,
                ) {
                    uuid_tried(connection, occupied, (tries - 1) as nat, outcome)
                } else {
                    outcome == Ok::<Seq<char>, Failure>(uuid_text_of(byte_digits(seed)))
                },
            }
    }
}

/// The question that asks for the UUIDs in use.
pub open spec fn uuids_question() -> Seq<char> {
    "SELECT LayerUuid FROM Layer WHERE LayerUuid IS NOT NULL"@
}

/// Whether generating a UUID, where the ones in use have been read, can have this outcome.
pub open spec fn uuid_after(
    connection: Connection,
    occupied: Result<Set<u128>, Failure>,
    outcome: Result<Seq<char>, Failure>,
) -> bool {
    match occupied {
        Err(failure) => outcome == Err::<Seq<char>, Failure>(failure),
        Ok(occupied) => uuid_tried(connection, occupied, 128, outcome),
    }
}

/// Whether generating a UUID can have this outcome.
pub open spec fn uuid_generated(
    connection: Connection,
    limits: Limits,
    outcome: Result<Seq<char>, Failure>,
) -> bool {
    exists|reply: sql::ReplyModel|
        #[trigger] sql::may_answer_within(
            connection,
            uuids_question(),
            Seq::empty(),
            limits.max_layers,
            reply,
        ) && uuid_after(
            connection,
            uuids_from(reply, limits.max_layers, 0, Set::empty()),
            outcome,
        )
}

fn try_uuid(connection: &Connection, occupied: &BTreeSet<u128>) -> (uuid: Result<String, Error>)
    ensures
        uuid_tried(*connection, occupied@, 128, error::outcome(uuid)),
{
    let mut tries: usize = 128;
    while tries > 0
        invariant
            forall|outcome: Result<Seq<char>, Failure>| #[trigger]
                uuid_tried(*connection, occupied@, tries as nat, outcome) ==> uuid_tried(
                    *connection,
                    occupied@,
                    128,
                    outcome,
                ),
        decreases tries,
    {
        let reply = query_all(connection, "SELECT randomblob(16)");
        assert(sql::may_answer(*connection, seed_question(), Seq::empty(), reply@));
        let seed = match seed_from_reply(&reply, "layer UUID") {
            Ok(seed) => seed,
            Err(error) => {
                assert(uuid_tried(*connection, occupied@, tries as nat, Err(error@)));
                return Err(error);
            },
        };
        let digits = digits_of_bytes(seed.as_slice());
        if !occupied.contains(&spelled_number(digits.as_slice())) {
            let text = format_raster_uuid(digits.as_slice());
            assert(uuid_tried(*connection, occupied@, tries as nat, Ok(text@)));
            return Ok(text);
        }
        let ghost before = tries as nat;
        tries = tries - 1;
        proof {
            assert forall|outcome: Result<Seq<char>, Failure>| #[trigger]
                uuid_tried(*connection, occupied@, tries as nat, outcome) implies uuid_tried(
                *connection,
                occupied@,
                128,
                outcome,
            ) by {
                assert(uuid_tried(*connection, occupied@, before, outcome));
            }
        }
    }
    let error = unwritable(Message::new("could not generate a unique raster layer UUID"));
    assert(uuid_tried(*connection, occupied@, 0, Err(error@)));
    Err(error)
}

/// Generates a UUID for a new layer.
pub fn generate_raster_layer_uuid(connection: &Connection, limits: Limits) -> (uuid: Result<
    String,
    Error,
>)
    ensures
        uuid_generated(*connection, limits, error::outcome(uuid)),
{
    let reply = query_all_within(
        connection,
        "SELECT LayerUuid FROM Layer WHERE LayerUuid IS NOT NULL",
        limits.max_layers(),
    );
    assert(sql::may_answer_within(
        *connection,
        uuids_question(),
        Seq::empty(),
        limits.max_layers,
        reply@,
    ));
    let occupied = uuids_from_reply(&reply, limits.max_layers());
    let ghost read = error::outcome(occupied);
    let occupied = match occupied {
        Ok(occupied) => occupied,
        Err(error) => {
            assert(uuid_after(*connection, read, Err(error@)));
            return Err(error);
        },
    };
    let uuid = try_uuid(connection, &occupied);
    assert(uuid_after(*connection, read, error::outcome(uuid)));
    uuid
}

/// The external identifier that a seed makes.
pub open spec fn identifier_of(seed: Seq<u8>) -> Seq<u8> {
    seq![101u8, 120, 116, 114, 110, 108, 105, 100] + byte_digits(seed).map_values(
        |digit: u8| digit_byte(digit),
    )
}

/// Makes the external identifier of a seed.
pub fn seeded_identifier(seed: &[u8]) -> (identifier: Vec<u8>)
    ensures
        identifier@ == identifier_of(seed@),
{
    let digits = digits_of_bytes(seed);
    let prefix: [u8; 8] = [101, 120, 116, 114, 110, 108, 105, 100];
    let mut identifier = copy_bytes(prefix.as_slice(), 0, 8);
    let ghost front = identifier@;
    let ghost all = digits@.map_values(|digit: u8| digit_byte(digit));
    let mut at: usize = 0;
    assert(front =~= seq![101u8, 120, 116, 114, 110, 108, 105, 100]);
    assert(identifier@ =~= front + all.take(0));
    while at < digits.len()
        invariant
            at <= digits@.len(),
            all == digits@.map_values(|digit: u8| digit_byte(digit)),
            forall|i: int| 0 <= i < digits@.len() ==> #[trigger] digits@[i] < 16,
            identifier@ == front + all.take(at as int),
        decreases digits@.len() - at,
    {
        let digit: u8 = digits[at];
        identifier.push(
            if digit < 10 {
                48 + digit
            } else {
                55 + digit
            },
        );
        assert(identifier@ =~= front + all.take(at + 1));
        at = at + 1;
    }
    assert(all.take(at as int) =~= all);
    identifier
}

/// The identifier in a row of a reply.
pub open spec fn used_identifier(row: Seq<SqlModel>, origin: Seq<char>) -> Result<
    Seq<u8>,
    Failure,
> {
    if row.len() == 0 {
        Err(Failure::Sqlite)
    } else {
        match row[0] {
            SqlModel::Text(data) => Ok(data),
            SqlModel::Blob(data) => Ok(data),
            _ => Err(Failure::InvalidWrite { reason: origin + " is neither TEXT nor BLOB"@ }),
        }
    }
}

fn read_used(row: &SqlRow, origin: &str) -> (identifier: Result<Vec<u8>, Error>)
    ensures
        error::outcome(identifier) == used_identifier(row@, origin@),
{
    if row.values.len() == 0 {
        return Err(Error::Sqlite { reason: Message::new("row has no column").build() });
    }
    assert(row@[0] == row.values@[0]@);
    match &row.values[0] {
        SqlValue::Text(data) => Ok(copy_all(data)),
        SqlValue::Blob(data) => Ok(copy_all(data)),
        _ => Err(unwritable(Message::new(origin).text(" is neither TEXT nor BLOB"))),
    }
}

/// The identifiers in use, from the rows of a reply from `at` on, after the ones in
/// `found`.
pub open spec fn used_from(
    reply: sql::ReplyModel,
    origin: Seq<char>,
    limits: Limits,
    at: int,
    found: Seq<Seq<u8>>,
) -> Result<
    Seq<Seq<u8>>,
    Failure,
>
    decreases reply.rows.len() - at,
{
    if at >= reply.rows.len() {
        if reply.failed {
            Err(Failure::Sqlite)
        } else {
            Ok(found)
        }
    } else if limits.max_layers * 16 > u64::MAX {
        Err(Failure::OffsetOverflow)
    } else if at + 1 > limits.max_layers * 16 {
        Err(
            raster_tree::above(
                "raster external identifier candidates"@,
                (at + 1) as u64,
                (limits.max_layers * 16) as u64,
            ),
        )
    } else {
        match used_identifier(reply.rows[at], origin) {
            Err(failure) => Err(failure),
            Ok(identifier) => used_from(reply, origin, limits, at + 1, found.push(identifier)),
        }
    }
}

/// Reads the identifiers in use after the ones in `found`.
pub fn used_from_reply(
    reply: &Reply,
    origin: &str,
    limits: Limits,
    found: Vec<Vec<u8>>,
) -> (used: Result<
    Vec<Vec<u8>>,
    Error,
>)
    ensures
        error::listed(used) == used_from(reply@, origin@, limits, 0, error::views(found@)),
{
    let ghost start = error::views(found@);
    let mut used = found;
    let mut at: usize = 0;
    while at < reply.rows.len()
        invariant
            at <= reply.rows@.len(),
            start == error::views(found@),
            used_from(reply@, origin@, limits, 0, start) == used_from(
                reply@,
                origin@,
                limits,
                at as int,
                error::views(used@),
            ),
        decreases reply.rows@.len() - at,
    {
        assert(reply@.rows[at as int] == reply.rows@[at as int]@);
        let limit: u64 = match limits.max_layers().checked_mul(16) {
            Some(limit) => limit,
            None => return Err(Error::OffsetOverflow),
        };
        let count: u64 = at as u64 + 1;
        if count > limit {
            return Err(Error::limit("raster external identifier candidates", count, limit));
        }
        let identifier = read_used(&reply.rows[at], origin)?;
        proof {
            error::views_push(used@, identifier);
        }
        used.push(identifier);
        at = at + 1;
    }
    match reply.failure() {
        Some(error) => Err(error),
        None => Ok(used),
    }
}

/// The question that asks for the identifiers in a column.
pub open spec fn used_question(table: Seq<char>, column: Seq<char>) -> Seq<char> {
    "SELECT "@ + database::quoted_name(column) + " FROM "@ + database::quoted_name(table)
        + " WHERE "@ + database::quoted_name(column) + " IS NOT NULL"@
}

/// How many rows of a column may hold identifiers.
pub open spec fn candidate_limit(limits: Limits) -> u64 {
    if limits.max_layers * 16 <= u64::MAX {
        (limits.max_layers * 16) as u64
    } else {
        u64::MAX
    }
}

/// Whether reading the identifiers in a column, after the ones in `found`, can have this
/// outcome.
pub open spec fn used_read(
    connection: Connection,
    table: Seq<char>,
    column: Seq<char>,
    limits: Limits,
    found: Seq<Seq<u8>>,
    outcome: Result<Seq<Seq<u8>>, Failure>,
) -> bool {
    exists|reply: sql::ReplyModel|
        #[trigger] sql::may_answer_within(
            connection,
            used_question(table, column),
            Seq::empty(),
            candidate_limit(limits),
            reply,
        ) && outcome
            == used_from(reply, table + "."@ + column, limits, 0, found)
}

fn read_used_column(
    connection: &Connection,
    table: &str,
    column: &str,
    limits: Limits,
    found: Vec<Vec<u8>>,
) -> (used: Result<Vec<Vec<u8>>, Error>)
    ensures
        used_read(*connection, table@, column@, limits, error::views(found@), error::listed(used)),
{
    let quoted = quote_identifier(column);
    let question = Message::new("SELECT ").text(quoted.as_str()).text(" FROM ").text(
        quote_identifier(table).as_str(),
    ).text(" WHERE ").text(quoted.as_str()).text(" IS NOT NULL").build();
    let limit: u64 = match limits.max_layers().checked_mul(16) {
        Some(limit) => limit,
        None => u64::MAX,
    };
    let reply = query_all_within(
        connection,
        question.as_str(),
        limit,
    );
    assert(sql::may_answer_within(
        *connection,
        used_question(table@, column@),
        Seq::empty(),
        candidate_limit(limits),
        reply@,
    ));
    let origin = Message::new(table).text(".").text(column).build();
    used_from_reply(&reply, origin.as_str(), limits, found)
}

/// Whether up to `tries` attempts at an identifier that is not in use can have this
/// outcome; `None` where all failed.
pub open spec fn identifier_tried(
    connection: Connection,
    occupied: Seq<Seq<u8>>,
    tries: nat,
    outcome: Result<Option<Seq<u8>>, Failure>,
) -> bool
    decreases tries,
{
    if tries == 0 {
        outcome == Ok::<Option<Seq<u8>>, Failure>(None)
    } else {
        exists|reply: sql::ReplyModel|
            #[trigger] sql::may_answer(connection, seed_question(), Seq::empty(), reply) && match seed_in(
                reply,
                "external ID"@,
            ) {
                Err(failure) => outcome == Err::<Option<Seq<u8>>, Failure>(failure),
                Ok(seed) => if occupied.contains(identifier_of(seed)) {
                    identifier_tried(connection, occupied, (tries - 1) as nat, outcome)
                } else {
                    outcome == Ok::<Option<Seq<u8>>, Failure>(Some(identifier_of(seed)))
                },
            }
    }
}

fn holds_bytes(list: &Vec<Vec<u8>>, wanted: &[u8]) -> (found: bool)
    ensures
        found == error::views(list@).contains(wanted@),
{
    let ghost models = error::views(list@);
    let mut at: usize = 0;
    while at < list.len()
        invariant
            at <= list@.len(),
            models == error::views(list@),
            forall|i: int| 0 <= i < at ==> #[trigger] models[i] != wanted@,
        decreases list@.len() - at,
    {
        assert(models[at as int] == list@[at as int]@);
        if same_bytes(list[at].as_slice(), wanted) {
            return true;
        }
        at = at + 1;
    }
    false
}

fn try_identifier(connection: &Connection, occupied: &Vec<Vec<u8>>) -> (identifier: Result<
    Option<Vec<u8>>,
    Error,
>)
    ensures
        identifier_tried(
            *connection,
            error::views(occupied@),
            128,
            error::optional_outcome(identifier),
        ),
{
    let ghost used = error::views(occupied@);
    let mut tries: usize = 128;
    while tries > 0
        invariant
            used == error::views(occupied@),
            forall|outcome: Result<Option<Seq<u8>>, Failure>| #[trigger]
                identifier_tried(*connection, used, tries as nat, outcome) ==> identifier_tried(
                    *connection,
                    used,
                    128,
                    outcome,
                ),
        decreases tries,
    {
        let reply = query_all(connection, "SELECT randomblob(16)");
        assert(sql::may_answer(*connection, seed_question(), Seq::empty(), reply@));
        let seed = match seed_from_reply(&reply, "external ID") {
            Ok(seed) => seed,
            Err(error) => {
                assert(identifier_tried(*connection, used, tries as nat, Err(error@)));
                return Err(error);
            },
        };
        let identifier = seeded_identifier(seed.as_slice());
        if !holds_bytes(occupied, identifier.as_slice()) {
            assert(identifier_tried(*connection, used, tries as nat, Ok(Some(identifier@))));
            return Ok(Some(identifier));
        }
        let ghost before = tries as nat;
        tries = tries - 1;
        proof {
            assert forall|outcome: Result<Option<Seq<u8>>, Failure>| #[trigger]
                identifier_tried(*connection, used, tries as nat, outcome) implies identifier_tried(
                *connection,
                used,
                128,
                outcome,
            ) by {
                assert(identifier_tried(*connection, used, before, outcome));
            }
        }
    }
    assert(identifier_tried(*connection, used, 0, Ok(None)));
    Ok(None)
}

/// Whether one attempt at an identifier can have this outcome.
pub open spec fn one_identifier(
    connection: Connection,
    occupied: Seq<Seq<u8>>,
    outcome: Result<Option<Seq<u8>>, Failure>,
) -> bool {
    identifier_tried(connection, occupied, 128, outcome)
}

/// Whether generating identifiers until there are `count`, after the ones in `found`, can
/// have this outcome.
pub open spec fn identifiers_from(
    connection: Connection,
    occupied: Seq<Seq<u8>>,
    found: Seq<Seq<u8>>,
    count: nat,
    outcome: Result<Seq<Seq<u8>>, Failure>,
) -> bool
    decreases count - found.len(),
{
    if found.len() >= count {
        outcome == Ok::<Seq<Seq<u8>>, Failure>(found)
    } else if found.len() + 128 > usize::MAX {
        outcome == Err::<Seq<Seq<u8>>, Failure>(Failure::OffsetOverflow)
    } else {
        exists|one: Result<Option<Seq<u8>>, Failure>|
            #[trigger] one_identifier(connection, occupied, one) && match one {
                Err(failure) => outcome == Err::<Seq<Seq<u8>>, Failure>(failure),
                Ok(None) => outcome == Err::<Seq<Seq<u8>>, Failure>(
                    Failure::InvalidWrite {
                        reason: "could not generate unique raster external identifiers"@,
                    },
                ),
                Ok(Some(identifier)) => identifiers_from(
                    connection,
                    occupied.push(identifier),
                    found.push(identifier),
                    count,
                    outcome,
                ),
            }
    }
}

proof fn tried_identifier_is_new(
    connection: Connection,
    occupied: Seq<Seq<u8>>,
    tries: nat,
    outcome: Result<Option<Seq<u8>>, Failure>,
)
    requires
        identifier_tried(connection, occupied, tries, outcome),
    ensures
        outcome matches Ok(Some(identifier)) ==> !occupied.contains(identifier),
    decreases tries,
{
    if tries > 0 {
        let reply = choose|reply: sql::ReplyModel|
            #[trigger] sql::may_answer(connection, seed_question(), Seq::empty(), reply) && match seed_in(
                reply,
                "external ID"@,
            ) {
                Err(failure) => outcome == Err::<Option<Seq<u8>>, Failure>(failure),
                Ok(seed) => if occupied.contains(identifier_of(seed)) {
                    identifier_tried(connection, occupied, (tries - 1) as nat, outcome)
                } else {
                    outcome == Ok::<Option<Seq<u8>>, Failure>(Some(identifier_of(seed)))
                },
            };
        if let Ok(seed) = seed_in(reply, "external ID"@) {
            if occupied.contains(identifier_of(seed)) {
                tried_identifier_is_new(connection, occupied, (tries - 1) as nat, outcome);
            }
        }
    }
}

/// However the random bytes fall, the identifiers that are generated are as many as were
/// asked for, differ from each other, and differ from all that were in use.
pub proof fn generated_identifiers_are_new(
    connection: Connection,
    occupied: Seq<Seq<u8>>,
    found: Seq<Seq<u8>>,
    count: nat,
    outcome: Result<Seq<Seq<u8>>, Failure>,
)
    requires
        identifiers_from(connection, occupied, found, count, outcome),
        found.len() <= count,
        found.no_duplicates(),
        forall|i: int| 0 <= i < found.len() ==> occupied.contains(#[trigger] found[i]),
    ensures
        outcome matches Ok(list) ==> list.len() == count && list.no_duplicates() && forall|i: int|
            0 <= i < list.len() ==> (i < found.len() && #[trigger] list[i] == found[i])
                || !occupied.contains(list[i]),
    decreases count - found.len(),
{
    if found.len() < count && found.len() + 128 <= usize::MAX {
        let one = choose|one: Result<Option<Seq<u8>>, Failure>|
            #[trigger] one_identifier(connection, occupied, one) && match one {
                Err(failure) => outcome == Err::<Seq<Seq<u8>>, Failure>(failure),
                Ok(None) => outcome == Err::<Seq<Seq<u8>>, Failure>(
                    Failure::InvalidWrite {
                        reason: "could not generate unique raster external identifiers"@,
                    },
                ),
                Ok(Some(identifier)) => identifiers_from(
                    connection,
                    occupied.push(identifier),
                    found.push(identifier),
                    count,
                    outcome,
                ),
            };
        if let Ok(Some(identifier)) = one {
            tried_identifier_is_new(connection, occupied, 128, one);
            let more = occupied.push(identifier);
            let longer = found.push(identifier);
            assert(more[occupied.len() as int] == identifier);
            assert forall|i: int| 0 <= i < longer.len() implies more.contains(
                #[trigger] longer[i],
            ) by {
                if i < found.len() {
                    assert(occupied.contains(found[i]));
                    let k = choose|k: int| 0 <= k < occupied.len() && occupied[k] == found[i];
                    assert(more[k] == longer[i]);
                }
            }
            generated_identifiers_are_new(connection, more, longer, count, outcome);
            if let Ok(list) = outcome {
                assert forall|i: int| 0 <= i < list.len() implies (i < found.len()
                    && #[trigger] list[i] == found[i]) || !occupied.contains(list[i]) by {
                    if occupied.contains(list[i]) {
                        let k = choose|k: int| 0 <= k < occupied.len() && occupied[k] == list[i];
                        assert(more[k] == list[i]);
                    }
                }
            }
        }
    }
}

/// Whether generating identifiers, where the ones in use have been read, can have this
/// outcome.
pub open spec fn identifiers_after(
    connection: Connection,
    occupied: Result<Seq<Seq<u8>>, Failure>,
    count: nat,
    outcome: Result<Seq<Seq<u8>>, Failure>,
) -> bool {
    match occupied {
        Err(failure) => outcome == Err::<Seq<Seq<u8>>, Failure>(failure),
        Ok(occupied) => identifiers_from(connection, occupied, Seq::empty(), count, outcome),
    }
}

/// Whether generating identifiers, where those of the index have been read, can have this
/// outcome.
pub open spec fn identifiers_after_index(
    connection: Connection,
    indexed: Result<Seq<Seq<u8>>, Failure>,
    count: nat,
    limits: Limits,
    outcome: Result<Seq<Seq<u8>>, Failure>,
) -> bool {
    match indexed {
        Err(failure) => outcome == Err::<Seq<Seq<u8>>, Failure>(failure),
        Ok(indexed) => exists|occupied: Result<Seq<Seq<u8>>, Failure>|
            #[trigger] used_read(connection, "Offscreen"@, "BlockData"@, limits, indexed, occupied)
                && identifiers_after(connection, occupied, count, outcome),
    }
}

/// Whether generating external identifiers can have this outcome.
pub open spec fn identifiers_generated(
    connection: Connection,
    count: nat,
    limits: Limits,
    outcome: Result<Seq<Seq<u8>>, Failure>,
) -> bool {
    if limits.max_identifier_size < 40 {
        outcome == Err::<Seq<Seq<u8>>, Failure>(
            raster_tree::above(
                "generated raster external identifier"@,
                40,
                limits.max_identifier_size,
            ),
        )
    } else {
        exists|indexed: Result<Seq<Seq<u8>>, Failure>|
            #[trigger] used_read(
                connection,
                "ExternalChunk"@,
                "ExternalID"@,
                limits,
                Seq::empty(),
                indexed,
            )
                && identifiers_after_index(connection, indexed, count, limits, outcome)
    }
}

#[verifier::spinoff_prover]
fn make_identifiers(connection: &Connection, occupied: Vec<Vec<u8>>, count: usize) -> (identifiers:
    Result<Vec<Vec<u8>>, Error>)
    ensures
        identifiers_from(
            *connection,
            error::views(occupied@),
            Seq::empty(),
            count as nat,
            error::listed(identifiers),
        ),
{
    let ghost start = error::views(occupied@);
    let mut used = occupied;
    let mut identifiers: Vec<Vec<u8>> = Vec::new();
    assert(error::views(identifiers@) =~= Seq::<Seq<u8>>::empty());
    while identifiers.len() < count
        invariant
            identifiers@.len() <= count,
            start == error::views(occupied@),
            forall|outcome: Result<Seq<Seq<u8>>, Failure>| #[trigger]
                identifiers_from(
                    *connection,
                    error::views(used@),
                    error::views(identifiers@),
                    count as nat,
                    outcome,
                ) ==> identifiers_from(*connection, start, Seq::empty(), count as nat, outcome),
        decreases count - identifiers@.len(),
    {
        let ghost in_use = error::views(used@);
        let ghost found = error::views(identifiers@);
        if identifiers.len().checked_add(128).is_none() {
            assert(
                identifiers_from(
                    *connection,
                    in_use,
                    found,
                    count as nat,
                    Err(Failure::OffsetOverflow),
                )
            );
            return Err(Error::OffsetOverflow);
        }
        let one = try_identifier(connection, &used);
        let ghost tried = error::optional_outcome(one);
        assert(one_identifier(*connection, in_use, tried));
        let identifier = match one {
            Err(error) => {
                assert(identifiers_from(*connection, in_use, found, count as nat, Err(error@)));
                return Err(error);
            },
            Ok(None) => {
                let error = unwritable(
                    Message::new("could not generate unique raster external identifiers"),
                );
                assert(identifiers_from(*connection, in_use, found, count as nat, Err(error@)));
                return Err(error);
            },
            Ok(Some(identifier)) => identifier,
        };
        let copy = copy_all(&identifier);
        proof {
            error::views_push(used@, copy);
            error::views_push(identifiers@, identifier);
        }
        let ghost model = identifier@;
        used.push(copy);
        identifiers.push(identifier);
        proof {
            assert forall|outcome: Result<Seq<Seq<u8>>, Failure>| #[trigger]
                identifiers_from(
                    *connection,
                    error::views(used@),
                    error::views(identifiers@),
                    count as nat,
                    outcome,
                ) implies identifiers_from(*connection, start, Seq::empty(), count as nat, outcome) by {
                assert(error::views(used@) == in_use.push(model));
                assert(error::views(identifiers@) == found.push(model));
                assert(identifiers_from(*connection, in_use, found, count as nat, outcome));
            }
        }
    }
    assert(identifiers_from(
        *connection,
        error::views(used@),
        error::views(identifiers@),
        count as nat,
        Ok(error::views(identifiers@)),
    ));
    Ok(identifiers)
}

/// Generates external identifiers that are not in use.
pub fn generate_raster_external_identifiers(connection: &Connection, count: usize, limits: Limits) -> (
identifiers: Result<Vec<Vec<u8>>, Error>)
    ensures
        identifiers_generated(*connection, count as nat, limits, error::listed(identifiers)),
{
    if limits.max_identifier_size() < 40 {
        return Err(
            Error::limit(
                "generated raster external identifier",
                40,
                limits.max_identifier_size(),
            ),
        );
    }
    let none: Vec<Vec<u8>> = Vec::new();
    assert(error::views(none@) =~= Seq::<Seq<u8>>::empty());
    let indexed = read_used_column(connection, "ExternalChunk", "ExternalID", limits, none);
    let ghost read_index = error::listed(indexed);
    assert(
        used_read(*connection, "ExternalChunk"@, "ExternalID"@, limits, Seq::empty(), read_index)
    );
    let indexed = match indexed {
        Ok(indexed) => indexed,
        Err(error) => {
            assert(
                identifiers_after_index(*connection, read_index, count as nat, limits, Err(error@))
            );
            return Err(error);
        },
    };
    let ghost listed = error::views(indexed@);
    let occupied = read_used_column(connection, "Offscreen", "BlockData", limits, indexed);
    let ghost read_all = error::listed(occupied);
    assert(read_index is Ok && listed == read_index->Ok_0);
    assert(used_read(*connection, "Offscreen"@, "BlockData"@, limits, read_index->Ok_0, read_all));
    let occupied = match occupied {
        Ok(occupied) => occupied,
        Err(error) => {
            assert(identifiers_after(*connection, read_all, count as nat, Err(error@)));
            assert(
                identifiers_after_index(*connection, read_index, count as nat, limits, Err(error@))
            );
            return Err(error);
        },
    };
    let identifiers = make_identifiers(connection, occupied, count);
    assert(identifiers_after(*connection, read_all, count as nat, error::listed(identifiers)));
    assert(identifiers_after_index(
        *connection,
        read_index,
        count as nat,
        limits,
        error::listed(identifiers),
    ));
    identifiers
}

} // verus!
