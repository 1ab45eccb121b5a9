//! What the decoder has read so far, as documents: for every configuration
//! that an input leads to, the documents that are complete, the ones that
//! are open, and where in an open one the input stands.

use vstd::prelude::*;
use crate::document::{
    byte_of, chars_of, Doc, Exponent, is_blank, is_digits, items_text, items_value, members_text,
    members_value, Number, Piece, pieces_text, pieces_valid, pieces_value,
};
use crate::machine::{Buffers, Machine};
use crate::tables::{
    blank_cat, C_BACKSLASH, C_COLON, C_COMMA, C_DIGIT, C_DOT, C_LBRACE, C_LBRACK, C_LOW_E, C_LOW_F,
    C_LOW_T, C_LOW_U, C_MINUS, C_QUOTE, C_RBRACE, C_RBRACK, C_SLASH, C_UP_E, C_ZERO, category_of,
    digit_cat, resume_of, S_ARRAY_ITEM, S_ARRAY_NEXT, S_ARRAY_OPEN, S_ARRAY_REST, S_DONE, S_ESCAPE,
    S_EXP_DIGITS, S_EXP_SIGN, S_EXPONENT, S_F, S_FRACTION, S_HEX1, S_INTEGER, S_MINUS, S_N,
    S_OBJECT_COLON, S_OBJECT_ITEM, S_OBJECT_KEY, S_OBJECT_NEXT, S_OBJECT_OPEN, S_OBJECT_REST,
    S_POINT, S_START, S_STRING, S_T, S_ZERO, transition,
};
use crate::value::Json;

verus! {

/// A place where values are expected: the top level, or an open array or
/// object.
pub enum Place {
    /// The top level, with the documents that are complete.
    Top { docs: Seq<Doc> },
    /// An open array: the whitespace before it, its items so far, whether a
    /// comma was read after the last of them, and an item that is complete
    /// and not yet appended.
    Array { before: Seq<u8>, items: Seq<Doc>, comma: bool, item: Option<Doc> },
    /// An open object: the whitespace before it, its members so far, whether
    /// a comma was read after the last of them, the key of the member being
    /// read, whether its colon was read, and its value once that is complete
    /// and not yet bound.
    Object {
        before: Seq<u8>,
        members: Seq<(Doc, Doc)>,
        comma: bool,
        key: Option<Doc>,
        colon: bool,
        value: Option<Doc>,
    },
}

/// The value that is being read inside the innermost place, if there is one.
pub enum Inner {
    /// Between values.
    Idle,
    /// A string: the whitespace before it, its pieces so far, and the bytes
    /// read of an escape that is not complete.
    Text { before: Seq<u8>, pieces: Seq<Piece>, partial: Seq<u8> },
    /// A number: the whitespace before it, what is read of it, and the state
    /// that tells how far it is read.
    Number { before: Seq<u8>, number: Number, state: u8 },
    /// `true`, `false` or `null`: the whitespace before it, which of them,
    /// and how many of its letters are read.
    Literal { before: Seq<u8>, doc: Doc, count: nat },
    /// A value that is complete, its saved state not yet resumed.
    Complete { doc: Doc },
}

/// What has been read: the places that are open, outermost first, the
/// whitespace read since the last other byte, and the value in progress.
pub struct Trail {
    pub places: Seq<Place>,
    pub lead: Seq<u8>,
    pub inner: Inner,
}

/// The document with whitespace before it.
pub open spec fn led(before: Seq<u8>, d: Doc) -> Doc {
    Doc::Padded(before, Box::new(d), Seq::empty())
}

/// The document with whitespace after it.
pub open spec fn trailed(d: Doc, after: Seq<u8>) -> Doc {
    Doc::Padded(Seq::empty(), Box::new(d), after)
}

/// The text of documents that stand one after the other.
pub open spec fn docs_text(docs: Seq<Doc>) -> Seq<u8>
    decreases docs.len(),
{
    if docs.len() == 0 {
        Seq::empty()
    } else {
        docs_text(docs.drop_last()) + docs.last().text()
    }
}

/// The text of a document that may be there.
pub open spec fn optional_text(d: Option<Doc>) -> Seq<u8> {
    match d {
        Some(d) => d.text(),
        None => Seq::empty(),
    }
}

/// The value of a document that may be there, as a run of values.
pub open spec fn optional_value(d: Option<Doc>) -> Seq<Json> {
    match d {
        Some(d) => seq![d.value()],
        None => Seq::empty(),
    }
}

/// The byte, where the flag is set.
pub open spec fn optional_byte(flag: bool, b: u8) -> Seq<u8> {
    if flag {
        seq![b]
    } else {
        Seq::empty()
    }
}

/// The whole part of a number is written as the grammar asks.
pub open spec fn whole_ok(n: Number) -> bool {
    is_digits(n.whole) && (n.whole.len() > 1 ==> n.whole[0] != byte_of('0'))
}

/// The fraction of a number, where it has one, is written as the grammar
/// asks.
pub open spec fn fraction_ok(n: Number) -> bool {
    n.fraction matches Some(f) ==> is_digits(f)
}

/// What is read of a number fits the state.
pub open spec fn number_ok(n: Number, state: u8) -> bool {
    if state == S_MINUS {
        n.negative && n.whole.len() == 0 && n.fraction is None && n.exponent is None
    } else if state == S_ZERO {
        n.whole == seq![byte_of('0')] && n.fraction is None && n.exponent is None
    } else if state == S_INTEGER {
        whole_ok(n) && n.whole[0] != byte_of('0') && n.fraction is None && n.exponent is None
    } else if state == S_POINT {
        whole_ok(n) && n.fraction == Some(Seq::<u8>::empty()) && n.exponent is None
    } else if state == S_FRACTION {
        whole_ok(n) && n.fraction is Some && fraction_ok(n) && n.exponent is None
    } else if state == S_EXPONENT {
        whole_ok(n) && fraction_ok(n) && (n.exponent matches Some(e) && e.sign is None
            && e.digits.len() == 0)
    } else if state == S_EXP_SIGN {
        whole_ok(n) && fraction_ok(n) && (n.exponent matches Some(e) && e.sign is Some
            && e.digits.len() == 0)
    } else if state == S_EXP_DIGITS {
        whole_ok(n) && fraction_ok(n) && (n.exponent matches Some(e) && is_digits(e.digits))
    } else {
        false
    }
}

/// The bytes read of an escape that is not complete: none, the backslash, or
/// `\u` and up to four bytes more.
pub open spec fn partial_ok(partial: Seq<u8>) -> bool {
    ||| partial.len() == 0
    ||| partial == seq![byte_of('\\')]
    ||| 2 <= partial.len() <= 6 && partial[0] == byte_of('\\') && partial[1] == byte_of('u')
}

/// The state inside a string, by what is read of an escape.
pub open spec fn text_state(partial: Seq<u8>) -> u8 {
    if partial.len() == 0 {
        S_STRING
    } else if partial.len() == 1 {
        S_ESCAPE
    } else {
        (S_HEX1 + partial.len() - 2) as u8
    }
}

/// The state inside a literal, by how many of its letters are read.
pub open spec fn literal_state(doc: Doc, count: nat) -> u8 {
    (match doc {
        Doc::True => S_T,
        Doc::False => S_F,
        _ => S_N,
    } + count - 1) as u8
}

impl Place {
    /// The state of the automaton at this place, between values.
    pub open spec fn state(self) -> u8 {
        match self {
            Place::Top { .. } => S_START,
            Place::Array { items, comma, item, .. } => if item is Some {
                S_ARRAY_ITEM
            } else if comma {
                S_ARRAY_NEXT
            } else if items.len() == 0 {
                S_ARRAY_OPEN
            } else {
                S_ARRAY_REST
            },
            Place::Object { members, comma, key, colon, value, .. } => if value is Some {
                S_OBJECT_ITEM
            } else if colon {
                S_OBJECT_COLON
            } else if key is Some {
                S_OBJECT_KEY
            } else if comma {
                S_OBJECT_NEXT
            } else if members.len() == 0 {
                S_OBJECT_OPEN
            } else {
                S_OBJECT_REST
            },
        }
    }

    /// What is read at the place is written as the grammar asks.
    pub open spec fn valid(self) -> bool {
        match self {
            Place::Top { docs } => forall|i: int|
                0 <= i < docs.len() ==> (#[trigger] docs[i]).valid(),
            Place::Array { before, items, comma, item } => {
                &&& is_blank(before)
                &&& forall|i: int| 0 <= i < items.len() ==> (#[trigger] items[i]).valid()
                &&& item matches Some(d) ==> d.valid() && (comma <==> items.len() > 0)
                &&& comma ==> items.len() > 0
            },
            Place::Object { before, members, comma, key, colon, value } => {
                &&& is_blank(before)
                &&& forall|i: int|
                    0 <= i < members.len() ==> {
                        &&& (#[trigger] members[i]).0.valid()
                        &&& members[i].0.is_text()
                        &&& members[i].1.valid()
                    }
                &&& key matches Some(k) ==> k.valid() && k.is_text() && (comma <==> members.len()
                    > 0)
                &&& colon ==> key is Some
                &&& value matches Some(v) ==> v.valid() && colon
                &&& comma ==> members.len() > 0
            },
        }
    }

    /// A value may begin here: a first one, or one after a comma, or the
    /// value of a key after its colon.
    pub open spec fn awaits_value(self) -> bool {
        match self {
            Place::Top { .. } => true,
            Place::Array { items, comma, item, .. } => item is None && (comma <==> items.len() > 0),
            Place::Object { colon, value, .. } => colon && value is None,
        }
    }

    /// A key may begin here.
    pub open spec fn awaits_key(self) -> bool {
        match self {
            Place::Object { members, comma, key, .. } => key is None && (comma <==> members.len()
                > 0),
            _ => false,
        }
    }

    /// The bytes read at this place and in what is complete inside it.
    pub open spec fn text(self) -> Seq<u8> {
        match self {
            Place::Top { docs } => docs_text(docs),
            Place::Array { before, items, comma, item } => before + seq![byte_of('[')]
                + items_text(items) + optional_byte(comma, byte_of(',')) + optional_text(item),
            Place::Object { before, members, comma, key, colon, value } => before + seq![
                byte_of('{'),
            ] + members_text(members) + optional_byte(comma, byte_of(',')) + optional_text(key)
                + optional_byte(colon, byte_of(':')) + optional_text(value),
        }
    }

    /// What the place has on the value stack.
    pub open spec fn values(self) -> Seq<Json> {
        match self {
            Place::Top { docs } => items_value(docs),
            Place::Array { items, item, .. } => seq![Json::List(items_value(items))]
                + optional_value(item),
            Place::Object { members, key, value, .. } => seq![
                Json::Object(members_value(members)),
            ] + optional_value(key) + optional_value(value),
        }
    }
}

impl Inner {
    /// The state of the automaton inside the value in progress.
    pub open spec fn state(self) -> u8 {
        match self {
            Inner::Idle => S_START,
            Inner::Text { partial, .. } => text_state(partial),
            Inner::Number { state, .. } => state,
            Inner::Literal { doc, count, .. } => literal_state(doc, count),
            Inner::Complete { .. } => S_DONE,
        }
    }

    /// What is read of the value is written as the grammar asks.
    pub open spec fn valid(self) -> bool {
        match self {
            Inner::Idle => true,
            Inner::Text { before, pieces, partial } => is_blank(before) && pieces_valid(pieces)
                && partial_ok(partial),
            Inner::Number { before, number, state } => is_blank(before) && number_ok(
                number,
                state,
            ),
            Inner::Literal { before, doc, count } => {
                &&& is_blank(before)
                &&& doc is True || doc is False || doc is Null
                &&& 1 <= count < doc.text().len()
            },
            Inner::Complete { doc } => doc.valid(),
        }
    }

    /// The value in progress is a string, or a string that is complete.
    pub open spec fn is_text(self) -> bool {
        match self {
            Inner::Text { .. } => true,
            Inner::Complete { doc } => doc.is_text(),
            _ => false,
        }
    }

    /// The bytes read of the value in progress.
    pub open spec fn text(self) -> Seq<u8> {
        match self {
            Inner::Idle => Seq::empty(),
            Inner::Text { before, pieces, partial } => before + seq![byte_of('"')] + pieces_text(
                pieces,
            ) + partial,
            Inner::Number { before, number, .. } => before + number.text(),
            Inner::Literal { before, doc, count } => before + doc.text().take(count as int),
            Inner::Complete { doc } => doc.text(),
        }
    }

    /// The raw text that the decoder holds for the value in progress.
    pub open spec fn raw(self) -> Seq<char> {
        match self {
            Inner::Text { pieces, .. } => pieces_value(pieces),
            Inner::Number { number, .. } => chars_of(number.text()),
            _ => Seq::empty(),
        }
    }

    /// The escape digits that the decoder holds for the value in progress.
    pub open spec fn escape(self) -> Seq<char> {
        match self {
            Inner::Text { partial, .. } => if partial.len() > 2 {
                chars_of(partial.skip(2))
            } else {
                Seq::empty()
            },
            _ => Seq::empty(),
        }
    }
}

/// The bytes read at the places, outermost first.
pub open spec fn places_text(places: Seq<Place>) -> Seq<u8>
    decreases places.len(),
{
    if places.len() == 0 {
        Seq::empty()
    } else {
        places_text(places.drop_last()) + places.last().text()
    }
}

/// What the places have on the value stack, outermost first.
pub open spec fn places_values(places: Seq<Place>) -> Seq<Json>
    decreases places.len(),
{
    if places.len() == 0 {
        Seq::empty()
    } else {
        places_values(places.drop_last()) + places.last().values()
    }
}

/// The states saved for the places: for each but the outermost, the state
/// that the place around it resumes.
pub open spec fn places_stack(places: Seq<Place>) -> Seq<u8>
    decreases places.len(),
{
    if places.len() <= 1 {
        Seq::empty()
    } else {
        places_stack(places.drop_last()).push(resume_of(places[places.len() - 2].state()))
    }
}

impl Trail {
    /// Nothing read yet.
    pub open spec fn start() -> Trail {
        Trail {
            places: seq![Place::Top { docs: Seq::empty() }],
            lead: Seq::empty(),
            inner: Inner::Idle,
        }
    }

    /// The innermost place.
    pub open spec fn place(self) -> Place {
        self.places.last()
    }

    /// The state of the automaton.
    pub open spec fn state(self) -> u8 {
        if self.inner is Idle {
            self.place().state()
        } else {
            self.inner.state()
        }
    }

    /// The trail is one that reading leads to: the outermost place is the top
    /// level and no other is; each place but the innermost awaits the value
    /// that the next place is; no whitespace is held where a value is not yet
    /// attached or is in progress; and what is read is written as the grammar
    /// asks.
    pub open spec fn valid(self) -> bool {
        &&& self.places.len() >= 1
        &&& self.places[0] is Top
        &&& forall|i: int| 1 <= i < self.places.len() ==> !(#[trigger] self.places[i] is Top)
        &&& forall|i: int| 0 <= i < self.places.len() ==> (#[trigger] self.places[i]).valid()
        &&& forall|i: int|
            0 <= i < self.places.len() - 1 ==> (#[trigger] self.places[i]).awaits_value()
        &&& is_blank(self.lead)
        &&& self.place().state() == S_ARRAY_ITEM || self.place().state() == S_OBJECT_ITEM
            ==> self.lead.len() == 0
        &&& self.inner.valid()
        &&& !(self.inner is Idle) ==> {
            &&& self.lead.len() == 0
            &&& self.place().awaits_value() || (self.place().awaits_key() && self.inner.is_text())
        }
    }

    /// All the bytes read.
    pub open spec fn text(self) -> Seq<u8> {
        places_text(self.places) + self.inner.text() + self.lead
    }

    /// The control stack of the automaton.
    pub open spec fn stack(self) -> Seq<u8> {
        if self.inner is Idle {
            places_stack(self.places)
        } else {
            places_stack(self.places).push(resume_of(self.place().state()))
        }
    }

    /// The value stack of the automaton.
    pub open spec fn values(self) -> Seq<Json> {
        places_values(self.places) + (match self.inner {
            Inner::Complete { doc } => seq![doc.value()],
            _ => Seq::empty(),
        })
    }

    /// The configuration of the automaton, but for the two counts.
    pub open spec fn machine(self, pushes: nat, pops: nat) -> Machine {
        Machine {
            state: self.state(),
            stack: self.stack(),
            buffers: Buffers {
                values: self.values(),
                raw: self.inner.raw(),
                escape: self.inner.escape(),
            },
            pushes,
            pops,
        }
    }
}

impl Place {
    /// The place with a complete document handed to it: one more document
    /// at the top level, the item of an array not yet appended, or the key
    /// or the value of an object.
    pub open spec fn given(self, doc: Doc) -> Place {
        match self {
            Place::Top { docs } => Place::Top { docs: docs.push(doc) },
            Place::Array { before, items, comma, item } => Place::Array {
                before,
                items,
                comma,
                item: Some(doc),
            },
            Place::Object { before, members, comma, key, colon, value } => if colon {
                Place::Object { before, members, comma, key, colon, value: Some(doc) }
            } else {
                Place::Object { before, members, comma, key: Some(doc), colon, value }
            },
        }
    }

    /// The place once what was handed to it is attached: the item appended
    /// or the value bound to its key. Where nothing was handed to it, the
    /// whitespace `lead` goes to the last item or member, after which it
    /// stands.
    pub open spec fn settled(self, lead: Seq<u8>) -> Place {
        match self {
            Place::Top { .. } => self,
            Place::Array { before, items, comma, item } => match item {
                Some(d) => Place::Array { before, items: items.push(d), comma: false, item: None },
                None => Place::Array {
                    before,
                    items: if items.len() > 0 {
                        items.update(items.len() - 1, trailed(items.last(), lead))
                    } else {
                        items
                    },
                    comma,
                    item,
                },
            },
            Place::Object { before, members, comma, key, colon, value } => match value {
                Some(v) => Place::Object {
                    before,
                    members: members.push((key->0, v)),
                    comma: false,
                    key: None,
                    colon: false,
                    value: None,
                },
                None => Place::Object {
                    before,
                    members: if members.len() > 0 {
                        members.update(
                            members.len() - 1,
                            (members.last().0, trailed(members.last().1, lead)),
                        )
                    } else {
                        members
                    },
                    comma,
                    key,
                    colon,
                    value,
                },
            },
        }
    }

    /// The place after a comma.
    pub open spec fn with_comma(self) -> Place {
        match self {
            Place::Top { .. } => self,
            Place::Array { before, items, comma, item } => Place::Array {
                before,
                items,
                comma: true,
                item,
            },
            Place::Object { before, members, comma, key, colon, value } => Place::Object {
                before,
                members,
                comma: true,
                key,
                colon,
                value,
            },
        }
    }

    /// The place after the colon of its key, which the whitespace `lead`
    /// came before.
    pub open spec fn with_colon(self, lead: Seq<u8>) -> Place {
        match self {
            Place::Object { before, members, comma, key, colon, value } => Place::Object {
                before,
                members,
                comma,
                key: Some(trailed(key->0, lead)),
                colon: true,
                value,
            },
            _ => self,
        }
    }

    /// The array or object that the place is once it is closed, after the
    /// whitespace `lead`.
    pub open spec fn closed(self, lead: Seq<u8>) -> Doc {
        match self.settled(lead) {
            Place::Top { .. } => Doc::Null,
            Place::Array { before, items, .. } => led(
                before,
                Doc::Array {
                    blank: if items.len() == 0 {
                        lead
                    } else {
                        Seq::empty()
                    },
                    items,
                },
            ),
            Place::Object { before, members, .. } => led(
                before,
                Doc::Object {
                    blank: if members.len() == 0 {
                        lead
                    } else {
                        Seq::empty()
                    },
                    members,
                },
            ),
        }
    }
}

/// What is read of a number that begins with the byte `b`.
pub open spec fn begun_number(b: u8) -> Number {
    if b == byte_of('-') {
        Number { negative: true, whole: Seq::empty(), fraction: None, exponent: None }
    } else {
        Number { negative: false, whole: seq![b], fraction: None, exponent: None }
    }
}

/// The value that begins with the byte `b` of category `cat`, after the
/// whitespace `lead`.
pub open spec fn begun_inner(lead: Seq<u8>, cat: u8, b: u8) -> Inner {
    if cat == C_QUOTE {
        Inner::Text { before: lead, pieces: Seq::empty(), partial: Seq::empty() }
    } else if cat == C_MINUS {
        Inner::Number { before: lead, number: begun_number(b), state: S_MINUS }
    } else if cat == C_ZERO {
        Inner::Number { before: lead, number: begun_number(b), state: S_ZERO }
    } else if cat == C_DIGIT {
        Inner::Number { before: lead, number: begun_number(b), state: S_INTEGER }
    } else if cat == C_LOW_T {
        Inner::Literal { before: lead, doc: Doc::True, count: 1 }
    } else if cat == C_LOW_F {
        Inner::Literal { before: lead, doc: Doc::False, count: 1 }
    } else {
        Inner::Literal { before: lead, doc: Doc::Null, count: 1 }
    }
}

/// What is read of a number, one byte further.
pub open spec fn grown_number(n: Number, state: u8, cat: u8, b: u8) -> Number {
    if digit_cat(cat) {
        if state == S_MINUS || state == S_INTEGER {
            Number { whole: n.whole.push(b), ..n }
        } else if state == S_POINT || state == S_FRACTION {
            Number { fraction: Some(n.fraction->0.push(b)), ..n }
        } else {
            Number {
                exponent: Some(Exponent { digits: n.exponent->0.digits.push(b), ..n.exponent->0 }),
                ..n
            }
        }
    } else if cat == C_DOT {
        Number { fraction: Some(Seq::empty()), ..n }
    } else if cat == C_LOW_E || cat == C_UP_E {
        Number {
            exponent: Some(Exponent { upper: cat == C_UP_E, sign: None, digits: Seq::empty() }),
            ..n
        }
    } else {
        Number {
            exponent: Some(Exponent { sign: Some(cat == C_MINUS), ..n.exponent->0 }),
            ..n
        }
    }
}

impl Trail {
    /// The trail after a transition that resumes the saved state: the value
    /// that is complete is handed to the place it belongs to; or, inside a
    /// string, the `\u` escape that is read is resolved.
    pub open spec fn reduced(self) -> Trail {
        let front = self.places.drop_last();
        match self.inner {
            Inner::Text { before, pieces, partial } => Trail {
                inner: Inner::Text {
                    before,
                    pieces: pieces.push(
                        Piece::Unicode(partial[2], partial[3], partial[4], partial[5]),
                    ),
                    partial: Seq::empty(),
                },
                ..self
            },
            Inner::Number { before, number, .. } => Trail {
                places: front.push(self.place().given(led(before, Doc::Number(number)))),
                lead: Seq::empty(),
                inner: Inner::Idle,
            },
            Inner::Complete { doc } => Trail {
                places: front.push(self.place().given(doc)),
                lead: Seq::empty(),
                inner: Inner::Idle,
            },
            _ => self,
        }
    }

    /// The trail after a byte that is consumed between values.
    pub open spec fn shifted_idle(self, b: u8) -> Trail {
        let cat = category_of(b);
        let front = self.places.drop_last();
        let place = self.place();
        if blank_cat(cat) {
            if place.state() == S_ARRAY_ITEM || place.state() == S_OBJECT_ITEM {
                Trail {
                    places: front.push(place.settled(self.lead)),
                    lead: seq![b],
                    inner: Inner::Idle,
                }
            } else {
                Trail { lead: self.lead.push(b), ..self }
            }
        } else if cat == C_COMMA {
            Trail {
                places: front.push(place.settled(self.lead).with_comma()),
                lead: Seq::empty(),
                inner: Inner::Idle,
            }
        } else if cat == C_COLON {
            Trail {
                places: front.push(place.with_colon(self.lead)),
                lead: Seq::empty(),
                inner: Inner::Idle,
            }
        } else if cat == C_RBRACK || cat == C_RBRACE {
            Trail {
                places: front,
                lead: Seq::empty(),
                inner: Inner::Complete { doc: place.closed(self.lead) },
            }
        } else if cat == C_LBRACK {
            Trail {
                places: self.places.push(
                    Place::Array {
                        before: self.lead,
                        items: Seq::empty(),
                        comma: false,
                        item: None,
                    },
                ),
                lead: Seq::empty(),
                inner: Inner::Idle,
            }
        } else if cat == C_LBRACE {
            Trail {
                places: self.places.push(
                    Place::Object {
                        before: self.lead,
                        members: Seq::empty(),
                        comma: false,
                        key: None,
                        colon: false,
                        value: None,
                    },
                ),
                lead: Seq::empty(),
                inner: Inner::Idle,
            }
        } else {
            Trail {
                places: self.places,
                lead: Seq::empty(),
                inner: begun_inner(self.lead, cat, b),
            }
        }
    }

    /// The trail after a byte that is consumed inside a value.
    pub open spec fn shifted_inner(self, b: u8) -> Trail {
        let cat = category_of(b);
        match self.inner {
            Inner::Text { before, pieces, partial } => if partial.len() == 0 {
                if cat == C_QUOTE {
                    Trail { inner: Inner::Complete { doc: led(before, Doc::Text(pieces)) }, ..self }
                } else if cat == C_BACKSLASH {
                    Trail { inner: Inner::Text { before, pieces, partial: seq![b] }, ..self }
                } else {
                    Trail {
                        inner: Inner::Text {
                            before,
                            pieces: pieces.push(Piece::Plain(b)),
                            partial,
                        },
                        ..self
                    }
                }
            } else if partial.len() == 1 {
                if cat == C_QUOTE || cat == C_BACKSLASH || cat == C_SLASH {
                    Trail {
                        inner: Inner::Text {
                            before,
                            pieces: pieces.push(Piece::Quoted(b)),
                            partial: Seq::empty(),
                        },
                        ..self
                    }
                } else if cat == C_LOW_U {
                    Trail {
                        inner: Inner::Text { before, pieces, partial: partial.push(b) },
                        ..self
                    }
                } else {
                    Trail {
                        inner: Inner::Text {
                            before,
                            pieces: pieces.push(Piece::Short(b)),
                            partial: Seq::empty(),
                        },
                        ..self
                    }
                }
            } else {
                Trail { inner: Inner::Text { before, pieces, partial: partial.push(b) }, ..self }
            },
            Inner::Number { before, number, state } => Trail {
                inner: Inner::Number {
                    before,
                    number: grown_number(number, state, cat, b),
                    state: transition(state, cat)->Shift_next,
                },
                ..self
            },
            Inner::Literal { before, doc, count } => if count + 1 == doc.text().len() {
                Trail { inner: Inner::Complete { doc: led(before, doc) }, ..self }
            } else {
                Trail { inner: Inner::Literal { before, doc, count: count + 1 }, ..self }
            },
            _ => self,
        }
    }

    /// The trail after a byte that is consumed.
    pub open spec fn shifted(self, b: u8) -> Trail {
        if self.inner is Idle {
            self.shifted_idle(b)
        } else {
            self.shifted_inner(b)
        }
    }

    /// The trail after one more byte of input: after the transition that
    /// resumes the saved state, where the byte has one first, and the
    /// transition that consumes the byte.
    pub open spec fn fed(self, b: u8) -> Trail {
        if transition(self.state(), category_of(b)) is Reduce {
            self.reduced().shifted(b)
        } else {
            self.shifted(b)
        }
    }
}

} // verus!
