//! Questions that name their columns, and rows that answer them.

use vstd::prelude::*;

use crate::database;
use crate::message::Message;
use crate::reals;
use crate::reals::Double;
use crate::sql::SqlModel;
use crate::text_codec;

verus! {

/// Items with a comma and a space between them.
pub open spec fn comma_separated(items: Seq<Seq<char>>) -> Seq<char>
    decreases items.len(),
{
    if items.len() == 0 {
        Seq::empty()
    } else if items.len() == 1 {
        items[0]
    } else {
        comma_separated(items.drop_last()) + ", "@ + items.last()
    }
}

/// The question that asks for columns, in order.
pub open spec fn asked(columns: Seq<Seq<char>>, rest: Seq<char>) -> Seq<char> {
    "SELECT "@ + comma_separated(columns) + rest
}

/// The row that answers a question for columns, where `stored` holds what stands in each.
pub open spec fn answer(columns: Seq<Seq<char>>, stored: Map<Seq<char>, SqlModel>) -> Seq<
    SqlModel,
> {
    Seq::new(columns.len(), |i: int| stored[columns[i]])
}

/// What an answer gives for a column that a table may not have: nothing where it has it not.
pub open spec fn optional_cell(
    schema: Seq<database::TableModel>,
    table: Seq<char>,
    column: Seq<char>,
    stored: Map<Seq<char>, SqlModel>,
) -> SqlModel {
    if database::column_exists(schema, table, column) {
        stored[column]
    } else {
        SqlModel::Null
    }
}

/// Whether a cell holds an integer.
pub open spec fn gives_integer(cell: SqlModel, value: i64) -> bool {
    cell == SqlModel::Integer(value)
}

/// Whether a cell holds an integer, or nothing.
pub open spec fn gives_optional_integer(cell: SqlModel, value: Option<i64>) -> bool {
    match value {
        Some(value) => cell == SqlModel::Integer(value),
        None => cell == SqlModel::Null,
    }
}

/// Whether a cell holds an ID, where zero or nothing stands for none.
pub open spec fn gives_reference(cell: SqlModel, id: Option<i64>) -> bool {
    match id {
        Some(id) => id != 0 && cell == SqlModel::Integer(id),
        None => cell == SqlModel::Null || cell == SqlModel::Integer(0),
    }
}

/// Whether a cell holds a number, or an integer that stands for the nearest one.
pub open spec fn gives_number(cell: SqlModel, value: Double) -> bool {
    match cell {
        SqlModel::Real { value: held, .. } => held == value,
        SqlModel::Integer(held) => value.bits == reals::integer_bits(held as int),
        _ => false,
    }
}

/// Whether a cell holds a number, or nothing.
pub open spec fn gives_optional_number(cell: SqlModel, value: Option<Double>) -> bool {
    match value {
        Some(value) => gives_number(cell, value),
        None => cell == SqlModel::Null,
    }
}

/// Whether a cell holds a text.
pub open spec fn gives_text(cell: SqlModel, text: Seq<char>) -> bool {
    cell matches SqlModel::Text(data) && text_codec::utf8_text(data) == Some(text)
}

/// Whether a cell holds a text, or nothing.
pub open spec fn gives_optional_text(cell: SqlModel, text: Option<Seq<char>>) -> bool {
    match text {
        Some(text) => gives_text(cell, text),
        None => cell == SqlModel::Null,
    }
}

/// Whether a cell holds bytes, as a text or as a byte string.
pub open spec fn gives_bytes(cell: SqlModel, data: Seq<u8>) -> bool {
    cell == SqlModel::Text(data) || cell == SqlModel::Blob(data)
}

/// Whether a cell holds bytes, or nothing.
pub open spec fn gives_optional_bytes(cell: SqlModel, data: Option<Seq<u8>>) -> bool {
    match data {
        Some(data) => gives_bytes(cell, data),
        None => cell == SqlModel::Null,
    }
}

/// Makes the question that asks for columns.
pub fn ask(columns: &[&str], rest: &str) -> (question: String)
    ensures
        question@ == asked(database::names(columns@), rest@),
{
    let ghost names = database::names(columns@);
    let mut list = Message::new("");
    let mut at: usize = 0;
    proof {
        reveal_strlit("");
        assert(list@ =~= Seq::<char>::empty());
        assert(names.take(0) =~= Seq::<Seq<char>>::empty());
    }
    while at < columns.len()
        invariant
            at <= columns@.len(),
            names == database::names(columns@),
            list@ == comma_separated(names.take(at as int)),
        decreases columns@.len() - at,
    {
        let ghost before = list@;
        if at > 0 {
            list = list.text(", ");
        }
        list = list.text(columns[at]);
        proof {
            let more = names.take(at + 1);
            assert(more.drop_last() =~= names.take(at as int));
            assert(more.last() == columns@[at as int]@);
            if at == 0 {
                assert(list@ =~= more[0]);
            }
        }
        at = at + 1;
    }
    assert(names.take(at as int) =~= names);
    Message::new("SELECT ").text(list.build().as_str()).text(rest).build()
}

} // verus!
