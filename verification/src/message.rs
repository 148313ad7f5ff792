//! Text assembled from literal parts and decimal numbers.

use vstd::prelude::*;
use vstd::string::StringExecFns;

verus! {

/// `String::push` appends one character and keeps what was there.
pub assume_specification[ String::push ](string: &mut String, character: char)
    ensures
        final(string)@ == old(string)@.push(character),
;

/// The decimal digit with the value `digit`.
pub open spec fn digit_char(digit: nat) -> char {
    if digit == 0 {
        '0'
    } else if digit == 1 {
        '1'
    } else if digit == 2 {
        '2'
    } else if digit == 3 {
        '3'
    } else if digit == 4 {
        '4'
    } else if digit == 5 {
        '5'
    } else if digit == 6 {
        '6'
    } else if digit == 7 {
        '7'
    } else if digit == 8 {
        '8'
    } else {
        '9'
    }
}

/// A natural number in decimal, without leading zeros.
pub open spec fn decimal(value: nat) -> Seq<char>
    decreases value,
{
    if value < 10 {
        seq![digit_char(value)]
    } else {
        decimal(value / 10).push(digit_char(value % 10))
    }
}

/// An integer in decimal, with a minus sign when it is negative.
pub open spec fn decimal_signed(value: int) -> Seq<char> {
    if value < 0 {
        seq!['-'] + decimal((-value) as nat)
    } else {
        decimal(value as nat)
    }
}

/// Bytes in decimal between square brackets, separated by a comma and a space.
pub open spec fn byte_list(bytes: Seq<u8>) -> Seq<char> {
    "["@ + byte_list_items(bytes) + "]"@
}

pub open spec fn byte_list_items(bytes: Seq<u8>) -> Seq<char>
    decreases bytes.len(),
{
    if bytes.len() == 0 {
        Seq::empty()
    } else if bytes.len() == 1 {
        decimal(bytes[0] as nat)
    } else {
        byte_list_items(bytes.drop_last()) + ", "@ + decimal(bytes.last() as nat)
    }
}

/// `text` as the `Debug` formatting of `str` writes it: quoted, with the
/// characters escaped that Rust escapes in a string literal.
pub uninterp spec fn quoted_text(text: Seq<char>) -> Seq<char>;

/// Formats `text` with `format!("{:?}")`. The contract names the outcome, which
/// depends on the text alone.
#[verifier::external_body]
fn quote(text: &str) -> (quoted: String)
    ensures
        quoted@ == quoted_text(text@),
{
    format!("{text:?}")
}

fn push_digit(text: &mut String, digit: u64)
    requires
        digit < 10,
    ensures
        final(text)@ == old(text)@.push(digit_char(digit as nat)),
{
    let character: char = match digit {
        0 => '0',
        1 => '1',
        2 => '2',
        3 => '3',
        4 => '4',
        5 => '5',
        6 => '6',
        7 => '7',
        8 => '8',
        _ => '9',
    };
    text.push(character);
}

fn push_decimal(text: &mut String, value: u64)
    ensures
        final(text)@ == old(text)@ + decimal(value as nat),
    decreases value,
{
    if value >= 10 {
        push_decimal(text, value / 10);
    }
    push_digit(text, value % 10);
    proof {
        assert(text@ =~= old(text)@ + decimal(value as nat));
    }
}

/// A message under construction.
pub struct Message {
    pub text: String,
}

impl View for Message {
    type V = Seq<char>;

    open spec fn view(&self) -> Seq<char> {
        self.text@
    }
}

impl Message {
    /// A message that begins with `part`.
    pub fn new(part: &str) -> (message: Message)
        ensures
            message@ == part@,
    {
        Message { text: part.to_owned() }
    }

    /// Appends text.
    pub fn text(self, part: &str) -> (message: Message)
        ensures
            message@ == self@ + part@,
    {
        let mut text = self.text;
        text.append(part);
        Message { text }
    }

    /// Appends text as the `Debug` formatting of `str` writes it.
    pub fn quoted(self, part: &str) -> (message: Message)
        ensures
            message@ == self@ + quoted_text(part@),
    {
        let quoted = quote(part);
        self.text(quoted.as_str())
    }

    /// Appends a natural number in decimal.
    pub fn number(self, value: u64) -> (message: Message)
        ensures
            message@ == self@ + decimal(value as nat),
    {
        let mut text = self.text;
        push_decimal(&mut text, value);
        Message { text }
    }

    /// Appends an integer in decimal.
    pub fn integer(self, value: i64) -> (message: Message)
        ensures
            message@ == self@ + decimal_signed(value as int),
    {
        let mut text = self.text;
        if value < 0 {
            text.push('-');
            let magnitude: u64 = if value == i64::MIN {
                0x8000_0000_0000_0000
            } else {
                (-value) as u64
            };
            push_decimal(&mut text, magnitude);
            proof {
                assert(text@ =~= self.text@ + decimal_signed(value as int));
            }
        } else {
            push_decimal(&mut text, value as u64);
        }
        Message { text }
    }

    /// Appends bytes as a bracketed list of decimals.
    pub fn bytes(self, value: &[u8]) -> (message: Message)
        ensures
            message@ == self@ + byte_list(value@),
    {
        let mut message = self.text("[");
        let ghost start = message@;
        let mut index: usize = 0;
        while index < value.len()
            invariant
                index <= value@.len(),
                message@ == start + byte_list_items(value@.take(index as int)),
            decreases value@.len() - index,
        {
            proof {
                let taken = value@.take(index + 1);
                assert(taken.drop_last() =~= value@.take(index as int));
                assert(taken.last() == value@[index as int]);
            }
            if index > 0 {
                message = message.text(", ");
            }
            message = message.number(value[index] as u64);
            index += 1;
            proof {
                assert(message@ =~= start + byte_list_items(value@.take(index as int)));
            }
        }
        let message = message.text("]");
        proof {
            assert(value@.take(value@.len() as int) =~= value@);
            assert(message@ =~= self@ + byte_list(value@));
        }
        message
    }

    /// The finished text.
    pub fn build(self) -> (text: String)
        ensures
            text@ == self@,
    {
        self.text
    }
}

} // verus!
