//! What generated identifiers are made of.

use rusqlite::Connection;
use vstd::prelude::*;

use crate::clone_ids;
use crate::database;
use crate::error::Failure;
use crate::sql;
use crate::sql::SqlModel;
use crate::track_rows;

verus! {

/// A seed is marked as a random identifier of version four: the upper half of its seventh byte
/// is four, and the two upper bits of its ninth byte are one and zero. All else is kept.
pub proof fn seed_is_marked_as_random(seed: Seq<u8>)
    requires
        seed.len() == 16,
    ensures
        ({
            let marked = clone_ids::marked(seed);
            &&& marked.len() == 16
            &&& marked[6] / 16 == 4
            &&& marked[6] % 16 == seed[6] % 16
            &&& marked[8] / 64 == 2
            &&& marked[8] % 64 == seed[8] % 64
            &&& forall|i: int|
                0 <= i < 16 && i != 6 && i != 8 ==> #[trigger] marked[i] == seed[i]
        }),
{
}

/// An identifier of external data is a fixed word and the bytes of its seed, each as two
/// hexadecimal digits without small letters.
pub proof fn external_identifier_spells_its_seed(seed: Seq<u8>)
    ensures
        ({
            let identifier = clone_ids::identifier_of(seed);
            let word = "extrnlid"@;
            &&& identifier.len() == 8 + 2 * seed.len()
            &&& forall|i: int| 0 <= i < 8 ==> #[trigger] identifier[i] == word[i] as u8
            &&& forall|i: int|
                8 <= i < identifier.len() ==> !(97 <= #[trigger] identifier[i] <= 102)
            &&& forall|i: int|
                0 <= i < seed.len() ==> spells_byte(
                    identifier[8 + 2 * i],
                    identifier[9 + 2 * i],
                    #[trigger] seed[i],
                )
        }),
{
    reveal_strlit("extrnlid");
    let identifier = clone_ids::identifier_of(seed);
    let digits = clone_ids::byte_digits(seed);
    assert forall|i: int| 8 <= i < identifier.len() implies !(97 <= #[trigger] identifier[i]
        <= 102) by {
        assert(identifier[i] == clone_ids::digit_byte(digits[i - 8]));
        assert(digits[i - 8] < 16);
    }
    assert forall|i: int| 0 <= i < seed.len() implies spells_byte(
        identifier[8 + 2 * i],
        identifier[9 + 2 * i],
        #[trigger] seed[i],
    ) by {
        assert(digits[2 * i] == seed[i] / 16);
        assert(digits[2 * i + 1] == seed[i] % 16);
        assert(identifier[8 + 2 * i] == clone_ids::digit_byte(digits[2 * i]));
        assert(identifier[9 + 2 * i] == clone_ids::digit_byte(digits[2 * i + 1]));
    }
}

/// Whether two characters are the hexadecimal digits of a byte, the upper half first.
pub open spec fn spells_byte(upper: u8, lower: u8, byte: u8) -> bool {
    &&& track_rows::hex_digit_of(upper) is Some
    &&& track_rows::hex_digit_of(lower) is Some
    &&& 16 * track_rows::hex_digit_of(upper)->Some_0 + track_rows::hex_digit_of(lower)->Some_0
        == byte
}

/// Which byte of a seed the digit at a place of the text of a layer belongs to, and whether it
/// is the upper half of it: the last byte comes first, and dashes come after ten, fourteen,
/// eighteen and twenty-two digits.
pub open spec fn digit_place(at: int) -> int {
    if at < 2 {
        30 + at
    } else if at < 10 {
        at - 2
    } else if at < 15 {
        at - 3
    } else if at < 20 {
        at - 4
    } else if at < 25 {
        at - 5
    } else {
        at - 6
    }
}

/// The text of a layer identifier has its dashes after ten, fourteen, eighteen and twenty-two
/// digits. The other characters are the hexadecimal digits of the seed, without capital letters:
/// those of the last byte, and then those of the others in order.
#[verifier::spinoff_prover]
#[verifier::rlimit(40)]
pub proof fn layer_identifier_spells_its_seed(seed: Seq<u8>, at: int)
    requires
        seed.len() == 16,
        0 <= at < 36,
    ensures
        ({
            let text = clone_ids::uuid_text_of(clone_ids::byte_digits(seed));
            let place = digit_place(at);
            let dash = at == 10 || at == 15 || at == 20 || at == 25;
            &&& text.len() == 36
            &&& dash ==> text[at] == '-'
            &&& !dash ==> !(65 <= text[at] as u32 <= 70)
            &&& !dash ==> (text[at] as u32) < 256
            &&& !dash ==> track_rows::hex_digit_of(text[at] as u8) == Some(
                if place % 2 == 0 {
                    (seed[place / 2] / 16) as u8
                } else {
                    (seed[place / 2] % 16) as u8
                },
            )
        }),
{
    reveal_strlit("-");
    let digits = clone_ids::byte_digits(seed);
    let text = clone_ids::uuid_text_of(digits);
    let place = digit_place(at);
    assert(text.len() == 36);
    let dash = at == 10 || at == 15 || at == 20 || at == 25;
    if !dash {
        assert(0 <= place < 32);
        assert(text[at] == clone_ids::digit_character(digits[place]));
        assert(digits[place] < 16);
    }
}

/// The largest ID of a table comes from a row that counts its rows: as many have an ID, and as
/// many different IDs are there. It is zero in an empty table.
pub proof fn largest_id_is_that_of_the_table(table: Seq<char>, row: Seq<SqlModel>)
    requires
        clone_ids::largest_of(table, row) is Ok,
    ensures
        clone_ids::ids_question(table)
            == "SELECT count(*), count(MainId), count(DISTINCT MainId), max(MainId) FROM "@
            + database::quoted_name(table),
        ({
            let largest = clone_ids::largest_of(table, row)->Ok_0;
            &&& row.len() > 3
            &&& row[0] is Integer
            &&& row[1] == row[0]
            &&& row[2] == row[0]
            &&& row[3] == SqlModel::Integer(largest) || (row[3] == SqlModel::Null && largest == 0)
            &&& largest >= 0
        }),
{
    assert(sql::integer_at(row, 0) is Ok && sql::integer_at(row, 1) is Ok);
    assert(sql::integer_at(row, 2) is Ok && sql::optional_integer_at(row, 3) is Ok);
}

/// New IDs start after the last one that was ever given, which one row records, and which is no
/// less than the largest in use. There are as many as were asked for.
pub proof fn new_ids_follow_the_recorded_one(
    table: Seq<char>,
    row: Seq<SqlModel>,
    largest: i64,
    amount: nat,
)
    requires
        clone_ids::allocation_of(table, row, largest, amount) is Ok,
    ensures
        clone_ids::scheme_question()
            == "SELECT count(*), max(MaxIndex) FROM ElemScheme WHERE TableName = ?1"@,
        amount > 0 ==> {
            let (first, last) = clone_ids::allocation_of(table, row, largest, amount)->Ok_0;
            &&& row.len() > 1
            &&& row[0] == SqlModel::Integer(1)
            &&& row[1] == SqlModel::Integer((first - 1) as i64)
            &&& largest <= first - 1
            &&& last == first - 1 + amount
        },
        forall|i: int|
            0 <= i < amount ==> #[trigger] clone_ids::ids_from(
                clone_ids::allocation_of(table, row, largest, amount)->Ok_0.0,
                amount,
            )[i] == clone_ids::allocation_of(table, row, largest, amount)->Ok_0.0 + i,
{
    assert(sql::integer_at(row, 0) is Ok && sql::optional_integer_at(row, 1) is Ok);
}

/// Whether a text is that of a marked seed whose number is not among those in use.
pub open spec fn is_new_layer_text(occupied: Set<u128>, text: Seq<char>, seed: Seq<u8>) -> bool {
    &&& seed.len() == 16
    &&& seed[6] / 16 == 4
    &&& seed[8] / 64 == 2
    &&& text == clone_ids::uuid_text_of(clone_ids::byte_digits(seed))
    &&& !occupied.contains(track_rows::number_of(clone_ids::byte_digits(seed)) as u128)
}

/// However the random bytes fall, the text that is generated for a layer is that of a random
/// identifier which no layer has.
pub proof fn generated_layer_text_is_new(
    connection: Connection,
    occupied: Set<u128>,
    tries: nat,
    text: Seq<char>,
)
    requires
        clone_ids::uuid_tried(connection, occupied, tries, Ok(text)),
    ensures
        exists|seed: Seq<u8>| #[trigger] is_new_layer_text(occupied, text, seed),
    decreases tries,
{
    let outcome = Ok::<Seq<char>, Failure>(text);
    if tries > 0 {
        let reply = choose|reply: sql::ReplyModel|
            #[trigger] sql::may_answer(
                connection,
                clone_ids::seed_question(),
                Seq::empty(),
                reply,
            ) && match clone_ids::seed_in(reply, "layer UUID"@) {
                Err(failure) => outcome == Err::<Seq<char>, Failure>(failure),
                Ok(seed) => if occupied.contains(
                    track_rows::number_of(clone_ids::byte_digits(seed)) as u128,
                ) {
                    clone_ids::uuid_tried(connection, occupied, (tries - 1) as nat, outcome)
                } else {
                    outcome == Ok::<Seq<char>, Failure>(
                        clone_ids::uuid_text_of(clone_ids::byte_digits(seed)),
                    )
                },
            };
        let seed = clone_ids::seed_in(reply, "layer UUID"@)->Ok_0;
        if occupied.contains(track_rows::number_of(clone_ids::byte_digits(seed)) as u128) {
            generated_layer_text_is_new(connection, occupied, (tries - 1) as nat, text);
        } else {
            let row = sql::only_row(reply)->Ok_0;
            seed_is_marked_as_random(sql::blob_at(row, 0)->Ok_0);
            assert(is_new_layer_text(occupied, text, seed));
        }
    }
}

proof fn occupied_in_turn(reply: sql::ReplyModel, limit: u64, at: int, found: Set<u128>)
    requires
        0 <= at <= reply.rows.len(),
        forall|i: int|
            0 <= i < at ==> clone_ids::stored_uuid_of(#[trigger] reply.rows[i]) is Ok
                && found.contains(clone_ids::stored_uuid_of(reply.rows[i])->Ok_0),
        clone_ids::uuids_from(reply, limit, at, found) is Ok,
    ensures
        !reply.failed,
        forall|i: int|
            0 <= i < reply.rows.len() ==> clone_ids::stored_uuid_of(#[trigger] reply.rows[i]) is Ok
                && clone_ids::uuids_from(reply, limit, at, found)->Ok_0.contains(
                clone_ids::stored_uuid_of(reply.rows[i])->Ok_0,
            ),
    decreases reply.rows.len() - at,
{
    if at < reply.rows.len() {
        let uuid = clone_ids::stored_uuid_of(reply.rows[at])->Ok_0;
        let more = found.insert(uuid);
        assert forall|i: int| 0 <= i < at + 1 implies clone_ids::stored_uuid_of(
            #[trigger] reply.rows[i],
        ) is Ok && more.contains(clone_ids::stored_uuid_of(reply.rows[i])->Ok_0) by {
            if i < at {
                assert(found.contains(clone_ids::stored_uuid_of(reply.rows[i])->Ok_0));
            }
        }
        occupied_in_turn(reply, limit, at + 1, more);
    }
}

/// The identifiers of all layers in a reply count as in use.
pub proof fn every_layer_identifier_is_in_use(reply: sql::ReplyModel, limit: u64)
    requires
        clone_ids::uuids_from(reply, limit, 0, Set::empty()) is Ok,
    ensures
        !reply.failed,
        forall|i: int|
            0 <= i < reply.rows.len() ==> clone_ids::stored_uuid_of(#[trigger] reply.rows[i]) is Ok
                && clone_ids::uuids_from(reply, limit, 0, Set::empty())->Ok_0.contains(
                clone_ids::stored_uuid_of(reply.rows[i])->Ok_0,
            ),
{
    occupied_in_turn(reply, limit, 0, Set::empty());
}

} // verus!
