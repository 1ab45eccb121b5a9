//! JSON documents as written: the grammar of the text that the decoder
//! accepts, what each document spells out, and what it means.

use vstd::prelude::*;
use crate::machine::char_of;
use crate::text::{digits_value, short_escape, unicode_escape};
use crate::value::Json;

verus! {

/// The byte of an ASCII character.
pub open spec fn byte_of(c: char) -> u8 {
    c as u8
}

/// The characters that a run of bytes stands for, byte by byte.
pub open spec fn chars_of(bytes: Seq<u8>) -> Seq<char> {
    Seq::new(bytes.len(), |i: int| char_of(bytes[i]))
}

/// A run of spaces, tabs, line feeds and carriage returns.
pub open spec fn is_blank(bytes: Seq<u8>) -> bool {
    forall|i: int|
        0 <= i < bytes.len() ==> {
            let b = #[trigger] bytes[i];
            b == 0x20 || b == 0x09 || b == 0x0A || b == 0x0D
        }
}

/// A decimal digit.
pub open spec fn is_digit_byte(b: u8) -> bool {
    0x30 <= b <= 0x39
}

/// One or more decimal digits.
pub open spec fn is_digits(bytes: Seq<u8>) -> bool {
    bytes.len() >= 1 && forall|i: int| 0 <= i < bytes.len() ==> is_digit_byte(#[trigger] bytes[i])
}

/// One character of a string, as written.
pub enum Piece {
    /// A byte that stands for itself: any but `"`, `\` and those below 0x20.
    Plain(u8),
    /// A backslash before `"`, `\` or `/`.
    Quoted(u8),
    /// A backslash before one of the letters `b`, `t`, `n`, `f`, `r`.
    Short(u8),
    /// `\u` before four hexadecimal digits.
    Unicode(u8, u8, u8, u8),
}

impl Piece {
    /// The digits of a `\u` escape, as characters.
    pub open spec fn digits(self) -> Seq<char> {
        match self {
            Piece::Unicode(a, b, c, d) => seq![char_of(a), char_of(b), char_of(c), char_of(d)],
            _ => Seq::empty(),
        }
    }

    /// The piece is written as the grammar asks, and a `\u` escape denotes a
    /// character: its four digits are hexadecimal and their code no surrogate.
    pub open spec fn valid(self) -> bool {
        match self {
            Piece::Plain(b) => b >= 0x20 && b != byte_of('"') && b != byte_of('\\'),
            Piece::Quoted(b) => b == byte_of('"') || b == byte_of('\\') || b == byte_of('/'),
            Piece::Short(b) => short_escape(b) is Some,
            Piece::Unicode(..) => unicode_escape(self.digits()) is Some,
        }
    }

    /// The bytes that spell the piece out.
    pub open spec fn text(self) -> Seq<u8> {
        match self {
            Piece::Plain(b) => seq![b],
            Piece::Quoted(b) => seq![byte_of('\\'), b],
            Piece::Short(b) => seq![byte_of('\\'), b],
            Piece::Unicode(a, b, c, d) => seq![byte_of('\\'), byte_of('u'), a, b, c, d],
        }
    }

    /// The character that the piece denotes.
    pub open spec fn value(self) -> char {
        match self {
            Piece::Plain(b) => char_of(b),
            Piece::Quoted(b) => char_of(b),
            Piece::Short(b) => short_escape(b)->0,
            Piece::Unicode(..) => unicode_escape(self.digits())->0,
        }
    }

    /// How many states the piece has the decoder save.
    pub open spec fn saves(self) -> nat {
        match self {
            Piece::Unicode(..) => 1,
            _ => 0,
        }
    }
}

/// The exponent of a number, as written.
pub struct Exponent {
    /// `E` rather than `e`.
    pub upper: bool,
    /// The sign, where one is written: `true` for `-`.
    pub sign: Option<bool>,
    pub digits: Seq<u8>,
}

impl Exponent {
    /// The exponent has one digit or more.
    pub open spec fn valid(self) -> bool {
        is_digits(self.digits)
    }

    /// The bytes that spell the exponent out.
    pub open spec fn text(self) -> Seq<u8> {
        seq![
            if self.upper {
                byte_of('E')
            } else {
                byte_of('e')
            },
        ] + (match self.sign {
            Some(minus) => seq![
                if minus {
                    byte_of('-')
                } else {
                    byte_of('+')
                },
            ],
            None => Seq::empty(),
        }) + self.digits
    }
}

/// A number, as written.
pub struct Number {
    pub negative: bool,
    /// The digits before the decimal point.
    pub whole: Seq<u8>,
    /// The digits after the decimal point, where there is one.
    pub fraction: Option<Seq<u8>>,
    pub exponent: Option<Exponent>,
}

impl Number {
    /// Neither a fraction nor an exponent.
    pub open spec fn is_integer(self) -> bool {
        self.fraction is None && self.exponent is None
    }

    /// The integer written, for a number without fraction and exponent.
    pub open spec fn integer(self) -> int {
        if self.negative {
            -digits_value(chars_of(self.whole))
        } else {
            digits_value(chars_of(self.whole))
        }
    }

    /// The digits are digits, the whole part has no needless leading zero, and
    /// an integer fits in 64 bits.
    pub open spec fn valid(self) -> bool {
        &&& is_digits(self.whole)
        &&& self.whole.len() > 1 ==> self.whole[0] != byte_of('0')
        &&& self.fraction matches Some(f) ==> is_digits(f)
        &&& self.exponent matches Some(e) ==> e.valid()
        &&& self.is_integer() ==> i64::MIN <= self.integer() <= i64::MAX
    }

    /// The sign, where the number is negative.
    pub open spec fn sign_text(self) -> Seq<u8> {
        if self.negative {
            seq![byte_of('-')]
        } else {
            Seq::empty()
        }
    }

    /// The decimal point and the digits after it, where there are any.
    pub open spec fn fraction_text(self) -> Seq<u8> {
        match self.fraction {
            Some(f) => seq![byte_of('.')] + f,
            None => Seq::empty(),
        }
    }

    /// The exponent, where there is one.
    pub open spec fn exponent_text(self) -> Seq<u8> {
        match self.exponent {
            Some(e) => e.text(),
            None => Seq::empty(),
        }
    }

    /// The bytes that spell the number out.
    pub open spec fn text(self) -> Seq<u8> {
        self.sign_text() + self.whole + self.fraction_text() + self.exponent_text()
    }

    /// The value that the number denotes: an integer, or else its own text.
    pub open spec fn value(self) -> Json {
        if self.is_integer() {
            Json::Int(self.integer())
        } else {
            Json::Float(chars_of(self.text()))
        }
    }
}

/// A JSON document, as written.
pub enum Doc {
    Null,
    True,
    False,
    Number(Number),
    Text(Seq<Piece>),
    /// The items of an array; `blank` is what stands between the brackets of
    /// an array without items.
    Array { blank: Seq<u8>, items: Seq<Doc> },
    /// The members of an object, each a key and a value; `blank` is what
    /// stands between the braces of an object without members.
    Object { blank: Seq<u8>, members: Seq<(Doc, Doc)> },
    /// A document with whitespace before and after it.
    Padded(Seq<u8>, Box<Doc>, Seq<u8>),
}

/// The text of the pieces of a string, one after the other.
pub open spec fn pieces_text(pieces: Seq<Piece>) -> Seq<u8>
    decreases pieces.len(),
{
    if pieces.len() == 0 {
        Seq::empty()
    } else {
        pieces_text(pieces.drop_last()) + pieces.last().text()
    }
}

/// The characters that the pieces of a string denote.
pub open spec fn pieces_value(pieces: Seq<Piece>) -> Seq<char>
    decreases pieces.len(),
{
    if pieces.len() == 0 {
        Seq::empty()
    } else {
        pieces_value(pieces.drop_last()).push(pieces.last().value())
    }
}

/// Each piece is valid.
pub open spec fn pieces_valid(pieces: Seq<Piece>) -> bool {
    forall|i: int| 0 <= i < pieces.len() ==> (#[trigger] pieces[i]).valid()
}

/// How many states the pieces of a string have the decoder save.
pub open spec fn pieces_saves(pieces: Seq<Piece>) -> nat
    decreases pieces.len(),
{
    if pieces.len() == 0 {
        0
    } else {
        pieces_saves(pieces.drop_last()) + pieces.last().saves()
    }
}

impl Doc {
    /// A string, with or without whitespace around it: what a key must be.
    pub open spec fn is_text(self) -> bool
        decreases self,
    {
        match self {
            Doc::Text(_) => true,
            Doc::Padded(_, inner, _) => inner.is_text(),
            _ => false,
        }
    }

    /// The document follows the grammar, and decodes: its integers fit in 64
    /// bits and its `\u` escapes are no surrogates.
    pub open spec fn valid(self) -> bool
        decreases self,
    {
        match self {
            Doc::Number(n) => n.valid(),
            Doc::Text(pieces) => pieces_valid(pieces),
            Doc::Array { blank, items } => {
                &&& is_blank(blank)
                &&& forall|i: int| 0 <= i < items.len() ==> (#[trigger] items[i]).valid()
            },
            Doc::Object { blank, members } => {
                &&& is_blank(blank)
                &&& forall|i: int|
                    0 <= i < members.len() ==> {
                        &&& (#[trigger] members[i]).0.valid()
                        &&& members[i].0.is_text()
                        &&& members[i].1.valid()
                    }
            },
            Doc::Padded(before, inner, after) => is_blank(before) && is_blank(after)
                && inner.valid(),
            _ => true,
        }
    }

    /// The bytes that spell the document out.
    pub open spec fn text(self) -> Seq<u8>
        decreases self,
    {
        match self {
            Doc::Null => seq![byte_of('n'), byte_of('u'), byte_of('l'), byte_of('l')],
            Doc::True => seq![byte_of('t'), byte_of('r'), byte_of('u'), byte_of('e')],
            Doc::False => seq![
                byte_of('f'),
                byte_of('a'),
                byte_of('l'),
                byte_of('s'),
                byte_of('e'),
            ],
            Doc::Number(n) => n.text(),
            Doc::Text(pieces) => seq![byte_of('"')] + pieces_text(pieces) + seq![byte_of('"')],
            Doc::Array { blank, items } => seq![byte_of('[')] + (if items.len() == 0 {
                blank
            } else {
                items_text(items)
            }) + seq![byte_of(']')],
            Doc::Object { blank, members } => seq![byte_of('{')] + (if members.len() == 0 {
                blank
            } else {
                members_text(members)
            }) + seq![byte_of('}')],
            Doc::Padded(before, inner, after) => before + inner.text() + after,
        }
    }

    /// The value that the document denotes.
    pub open spec fn value(self) -> Json
        decreases self,
    {
        match self {
            Doc::Null => Json::Null,
            Doc::True => Json::Bool(true),
            Doc::False => Json::Bool(false),
            Doc::Number(n) => n.value(),
            Doc::Text(pieces) => Json::String(pieces_value(pieces)),
            Doc::Array { blank, items } => Json::List(items_value(items)),
            Doc::Object { blank, members } => Json::Object(members_value(members)),
            Doc::Padded(before, inner, after) => inner.value(),
        }
    }

    /// How many values begin in the document, its `\u` escapes counted too:
    /// for each of them the decoder saves a state, and resumes one.
    pub open spec fn saves(self) -> nat
        decreases self,
    {
        match self {
            Doc::Text(pieces) => 1 + pieces_saves(pieces),
            Doc::Array { blank, items } => 1 + items_saves(items),
            Doc::Object { blank, members } => 1 + members_saves(members),
            Doc::Padded(before, inner, after) => inner.saves(),
            _ => 1,
        }
    }
}

/// The text of the items of an array, with commas between them.
pub open spec fn items_text(items: Seq<Doc>) -> Seq<u8>
    decreases items,
{
    if items.len() == 0 {
        Seq::empty()
    } else if items.len() == 1 {
        items[0].text()
    } else {
        items_text(items.drop_last()) + seq![byte_of(',')] + items.last().text()
    }
}

/// The values that the items of an array denote, in order.
pub open spec fn items_value(items: Seq<Doc>) -> Seq<Json>
    decreases items,
{
    if items.len() == 0 {
        Seq::empty()
    } else {
        items_value(items.drop_last()).push(items.last().value())
    }
}

/// How many states the items of an array have the decoder save.
pub open spec fn items_saves(items: Seq<Doc>) -> nat
    decreases items,
{
    if items.len() == 0 {
        0
    } else {
        items_saves(items.drop_last()) + items.last().saves()
    }
}

/// The text of one member of an object: the key, a colon, the value.
pub open spec fn member_text(member: (Doc, Doc)) -> Seq<u8>
    decreases member,
{
    member.0.text() + seq![byte_of(':')] + member.1.text()
}

/// The text of the members of an object, with commas between them.
pub open spec fn members_text(members: Seq<(Doc, Doc)>) -> Seq<u8>
    decreases members,
{
    if members.len() == 0 {
        Seq::empty()
    } else if members.len() == 1 {
        member_text(members[0])
    } else {
        members_text(members.drop_last()) + seq![byte_of(',')] + member_text(members.last())
    }
}

/// The bindings that the members of an object make, one after the other: a
/// later member takes the place of an earlier one with the same key.
pub open spec fn members_value(members: Seq<(Doc, Doc)>) -> Map<Seq<char>, Json>
    decreases members,
{
    if members.len() == 0 {
        Map::empty()
    } else {
        members_value(members.drop_last()).insert(
            members.last().0.value()->String_0,
            members.last().1.value(),
        )
    }
}

/// How many states the members of an object have the decoder save.
pub open spec fn members_saves(members: Seq<(Doc, Doc)>) -> nat
    decreases members,
{
    if members.len() == 0 {
        0
    } else {
        members_saves(members.drop_last()) + members.last().0.saves() + members.last().1.saves()
    }
}

} // verus!
