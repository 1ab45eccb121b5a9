//! The trail follows the machine: byte by byte, what the decoder has read is
//! the text of documents, complete and open ones, that its configuration
//! holds the values of.

use vstd::prelude::*;
use crate::document::{
    byte_of, chars_of, Doc, is_blank, is_digit_byte, items_text, items_value, member_text,
    members_text, members_value, Number, Piece, pieces_text, pieces_valid, pieces_value,
};
use crate::grammar::nesting::lemma_text_value;
use crate::grammar::numbers::lemma_digit_chars;
use crate::grammar::rows::{lemma_categories, lemma_rows_key};
use crate::grammar::runs::{lemma_step_reduce, lemma_step_reject, lemma_step_shift};
use crate::machine::{Buffers, char_of, Machine};
use crate::tables::{
    A_APPEND, A_BIND, A_NONE, blank_cat, C_BACKSLASH, C_COLON, C_COMMA, C_DOT, C_LBRACE, C_LBRACK,
    C_LOW_E, C_LOW_U, C_QUOTE, C_RBRACE, C_RBRACK, C_SLASH, C_UP_E, category_of, digit_cat, Entry,
    lemma_category_bytes, lemma_table_is_transition, resume_of, S_ARRAY_ITEM, S_ARRAY_OPEN,
    S_ARRAY_REST, S_FRACTION, S_INTEGER, S_MINUS, S_OBJECT_ITEM, S_OBJECT_OPEN, S_OBJECT_REST,
    S_POINT, transition,
};
use crate::text::{int_literal, is_digit};
use crate::trail::{
    docs_text, grown_number, Inner, led, number_ok, optional_byte, optional_value, Place,
    places_stack, places_text, places_values, Trail, trailed, whole_ok,
};
use crate::value::Json;

verus! {

// Documents with whitespace, and runs of documents.

/// A document with whitespace before it.
pub proof fn lemma_led(before: Seq<u8>, d: Doc)
    ensures
        led(before, d).text() == before + d.text(),
        led(before, d).value() == d.value(),
        led(before, d).is_text() == d.is_text(),
        led(before, d).valid() == (is_blank(before) && d.valid()),
{
    assert(before + d.text() + Seq::<u8>::empty() =~= before + d.text());
    assert(is_blank(Seq::<u8>::empty()));
}

/// A document with whitespace after it.
pub proof fn lemma_trailed(d: Doc, after: Seq<u8>)
    ensures
        trailed(d, after).text() == d.text() + after,
        trailed(d, after).value() == d.value(),
        trailed(d, after).is_text() == d.is_text(),
        trailed(d, after).valid() == (is_blank(after) && d.valid()),
{
    assert(Seq::<u8>::empty() + d.text() + after =~= d.text() + after);
    assert(is_blank(Seq::<u8>::empty()));
}

/// One more item.
pub proof fn lemma_items_push(items: Seq<Doc>, d: Doc)
    ensures
        items_text(items.push(d)) == items_text(items) + optional_byte(
            items.len() > 0,
            byte_of(','),
        ) + d.text(),
        items_value(items.push(d)) == items_value(items).push(d.value()),
{
    let more = items.push(d);
    assert(more.drop_last() =~= items);
    assert(more.last() == d);
    if items.len() == 0 {
        assert(items_text(more) =~= items_text(items) + Seq::<u8>::empty() + d.text());
    }
}

/// Whitespace after the last item.
pub proof fn lemma_items_trailed(items: Seq<Doc>, lead: Seq<u8>)
    requires
        items.len() > 0,
    ensures
        items_text(items.update(items.len() - 1, trailed(items.last(), lead))) == items_text(items)
            + lead,
        items_value(items.update(items.len() - 1, trailed(items.last(), lead))) == items_value(
            items,
        ),
{
    let last = trailed(items.last(), lead);
    let after = items.update(items.len() - 1, last);
    lemma_trailed(items.last(), lead);
    assert(after.drop_last() =~= items.drop_last());
    assert(after.last() == last);
    if items.len() > 1 {
        assert(items_text(after) =~= items_text(items) + lead);
    }
}

/// One more member.
pub proof fn lemma_members_push(members: Seq<(Doc, Doc)>, key: Doc, value: Doc)
    ensures
        members_text(members.push((key, value))) == members_text(members) + optional_byte(
            members.len() > 0,
            byte_of(','),
        ) + key.text() + seq![byte_of(':')] + value.text(),
        members_value(members.push((key, value))) == members_value(members).insert(
            key.value()->String_0,
            value.value(),
        ),
{
    let more = members.push((key, value));
    assert(more.drop_last() =~= members);
    assert(more.last() == (key, value));
    assert(member_text((key, value)) == key.text() + seq![byte_of(':')] + value.text());
    if members.len() == 0 {
        assert(more[0] == (key, value));
        assert(members_text(members) =~= Seq::<u8>::empty());
        assert(members_text(more) =~= members_text(members) + Seq::<u8>::empty() + key.text()
            + seq![byte_of(':')] + value.text());
    } else {
        assert(members_text(more) =~= members_text(members) + seq![byte_of(',')] + key.text()
            + seq![byte_of(':')] + value.text());
    }
}

/// Whitespace after the last member.
pub proof fn lemma_members_trailed(members: Seq<(Doc, Doc)>, lead: Seq<u8>)
    requires
        members.len() > 0,
    ensures
        members_text(
            members.update(
                members.len() - 1,
                (members.last().0, trailed(members.last().1, lead)),
            ),
        ) == members_text(members) + lead,
        members_value(
            members.update(
                members.len() - 1,
                (members.last().0, trailed(members.last().1, lead)),
            ),
        ) == members_value(members),
{
    let last = (members.last().0, trailed(members.last().1, lead));
    let after = members.update(members.len() - 1, last);
    lemma_trailed(members.last().1, lead);
    assert(after.drop_last() =~= members.drop_last());
    assert(after.last() == last);
    assert(member_text(last) =~= member_text(members.last()) + lead);
    if members.len() > 1 {
        assert(members_text(after) =~= members_text(members) + lead);
    }
}

// Places.

/// Another place in the stead of the innermost.
pub proof fn lemma_places_replace(places: Seq<Place>, place: Place)
    requires
        places.len() >= 1,
    ensures
        places_text(places.drop_last().push(place)) == places_text(places.drop_last())
            + place.text(),
        places_values(places.drop_last().push(place)) == places_values(places.drop_last())
            + place.values(),
        places_stack(places.drop_last().push(place)) == places_stack(places),
{
    let after = places.drop_last().push(place);
    assert(after.drop_last() =~= places.drop_last());
    assert(after.last() == place);
    if places.len() >= 2 {
        assert(after[after.len() - 2] == places[places.len() - 2]);
    }
}

/// One more place inside the innermost.
pub proof fn lemma_places_push(places: Seq<Place>, place: Place)
    requires
        places.len() >= 1,
    ensures
        places_text(places.push(place)) == places_text(places) + place.text(),
        places_values(places.push(place)) == places_values(places) + place.values(),
        places_stack(places.push(place)) == places_stack(places).push(
            resume_of(places.last().state()),
        ),
{
    let after = places.push(place);
    assert(after.drop_last() =~= places);
    assert(after.last() == place);
    assert(after[after.len() - 2] == places.last());
}

/// The configuration is the one that the trail describes.
pub open spec fn tracks(t: Trail, m: Machine) -> bool {
    t.valid() && m == t.machine(m.pushes, m.pops)
}

/// The trail goes with a transition that consumes the byte `b`: where the
/// action succeeds, the trail after the byte describes the configuration
/// after it, and its text is one byte longer.
pub open spec fn shift_ok(t: Trail, m: Machine, b: u8) -> bool {
    transition(m.state, category_of(b)) matches Entry::Shift { save, action, next } ==> (m.saved(
        save,
    ).acted(action, b) matches Ok(after) ==> {
        &&& tracks(t.shifted(b), Machine { state: next, ..after })
        &&& t.shifted(b).text() == t.text().push(b)
    })
}

/// A trail with another innermost place and other whitespace, between
/// values, is valid where the place is.
pub proof fn lemma_valid_replace(t: Trail, place: Place, lead: Seq<u8>)
    requires
        t.valid(),
        place.valid(),
        is_blank(lead),
        place is Top == t.place() is Top,
        place.state() == S_ARRAY_ITEM || place.state() == S_OBJECT_ITEM ==> lead.len() == 0,
    ensures
        (Trail { places: t.places.drop_last().push(place), lead, inner: Inner::Idle }).valid(),
{
    let after = t.places.drop_last().push(place);
    assert forall|i: int| 0 <= i < after.len() implies (#[trigger] after[i]).valid() by {
        if i < after.len() - 1 {
            assert(after[i] == t.places[i]);
        }
    }
    assert forall|i: int| 0 <= i < after.len() - 1 implies (#[trigger] after[i]).awaits_value() by {
        assert(after[i] == t.places[i]);
    }
    assert forall|i: int| 1 <= i < after.len() implies !(#[trigger] after[i] is Top) by {
        if i < after.len() - 1 {
            assert(after[i] == t.places[i]);
        }
    }
    if after.len() > 1 {
        assert(after[0] == t.places[0]);
    }
}

/// Whitespace between values.
pub proof fn lemma_shift_blank(t: Trail, m: Machine, b: u8)
    requires
        tracks(t, m),
        t.inner is Idle,
        blank_cat(category_of(b)),
    ensures
        shift_ok(t, m, b),
{
    let cat = category_of(b);
    lemma_category_bytes(b);
    let place = t.place();
    let front = t.places.drop_last();
    let t2 = t.shifted(b);
    assert(t.places =~= front.push(place));
    if transition(m.state, cat) is Shift {
        if place.state() == S_ARRAY_ITEM || place.state() == S_OBJECT_ITEM {
            let settled = place.settled(t.lead);
            lemma_places_replace(t.places, settled);
            lemma_places_replace(t.places, place);
            assert(is_blank(seq![b]));
            match place {
                Place::Array { before, items, comma, item } => {
                    lemma_items_push(items, item->0);
                    let v = m.buffers.values;
                    assert(v.take(v.len() - 2) =~= places_values(front));
                    assert(settled.values() =~= seq![
                        Json::List(items_value(items).push(item->0.value())),
                    ]);
                    assert(t2.values() =~= places_values(front).push(
                        Json::List(items_value(items).push(item->0.value())),
                    ));
                    assert(settled.text() =~= place.text());
                    assert(settled.valid()) by {
                        let more = items.push(item->0);
                        assert forall|i: int| 0 <= i < more.len() implies (
                        #[trigger] more[i]).valid() by {
                            if i < items.len() {
                                assert(more[i] == items[i]);
                            }
                        }
                    }
                },
                Place::Object { before, members, comma, key, colon, value } => {
                    lemma_members_push(members, key->0, value->0);
                    let v = m.buffers.values;
                    assert(v.take(v.len() - 3) =~= places_values(front));
                    assert(t2.values() =~= places_values(front).push(
                        Json::Object(
                            members_value(members).insert(
                                key->0.value()->String_0,
                                value->0.value(),
                            ),
                        ),
                    ));
                    lemma_text_value(key->0);
                    assert(settled.text() =~= place.text());
                    assert(settled.valid()) by {
                        let more = members.push((key->0, value->0));
                        assert forall|i: int| 0 <= i < more.len() implies {
                            &&& (#[trigger] more[i]).0.valid()
                            &&& more[i].0.is_text()
                            &&& more[i].1.valid()
                        } by {
                            if i < members.len() {
                                assert(more[i] == members[i]);
                            }
                        }
                    }
                },
                _ => {},
            }
            lemma_valid_replace(t, settled, seq![b]);
            assert(t2.text() =~= t.text().push(b));
        } else {
            assert(t2.text() =~= t.text().push(b));
            assert(is_blank(t.lead.push(b))) by {
                assert forall|i: int| 0 <= i < t.lead.push(b).len() implies {
                    let x = #[trigger] t.lead.push(b)[i];
                    x == 0x20 || x == 0x09 || x == 0x0A || x == 0x0D
                } by {
                    if i < t.lead.len() {
                        assert(t.lead.push(b)[i] == t.lead[i]);
                    }
                }
            }
        }
    }
}

/// The items of an array, the last of them with whitespace after it, are
/// valid as they were.
proof fn lemma_settled_valid(place: Place, lead: Seq<u8>)
    requires
        place.valid(),
        is_blank(lead),
    ensures
        place.settled(lead).valid(),
        place.settled(lead).with_comma().valid() || place is Top || (place.settled(
            lead,
        ) matches Place::Array { items, .. } && items.len() == 0) || (place.settled(
            lead,
        ) matches Place::Object { members, .. } && members.len() == 0),
        place.settled(lead) is Top == place is Top,
{
    match place {
        Place::Top { .. } => {},
        Place::Array { before, items, comma, item } => {
            let after = place.settled(lead)->Array_items;
            assert forall|i: int| 0 <= i < after.len() implies (#[trigger] after[i]).valid() by {
                if i < items.len() - 1 || (item is Some && i < items.len()) {
                    assert(after[i] == items[i]);
                } else if item is None {
                    lemma_trailed(items.last(), lead);
                }
            }
        },
        Place::Object { before, members, comma, key, colon, value } => {
            let after = place.settled(lead)->Object_members;
            assert forall|i: int| 0 <= i < after.len() implies {
                &&& (#[trigger] after[i]).0.valid()
                &&& after[i].0.is_text()
                &&& after[i].1.valid()
            } by {
                if i < members.len() - 1 || (value is Some && i < members.len()) {
                    assert(after[i] == members[i]);
                } else if value is None {
                    lemma_trailed(members.last().1, lead);
                }
            }
        },
    }
}

/// What a place holds once what was handed to it is attached.
proof fn lemma_settled(place: Place, lead: Seq<u8>)
    requires
        place.valid(),
        place.state() == S_ARRAY_ITEM || place.state() == S_OBJECT_ITEM ==> lead.len() == 0,
        place.state() == S_ARRAY_ITEM || place.state() == S_OBJECT_ITEM || place.state()
            == S_ARRAY_REST || place.state() == S_OBJECT_REST,
    ensures
        place.settled(lead).text() == place.text() + lead,
        place.settled(lead).state() == S_ARRAY_REST || place.settled(lead).state()
            == S_OBJECT_REST,
        place.settled(lead) is Array == place is Array,
        place.settled(lead) is Object == place is Object,
        match place {
            Place::Array { items, item, .. } => place.settled(lead).values() == seq![
                Json::List(items_value(items) + optional_value(item)),
            ],
            Place::Object { members, key, value, .. } => place.settled(lead).values() == seq![
                match value {
                    Some(v) => Json::Object(
                        members_value(members).insert(key->0.value()->String_0, v.value()),
                    ),
                    None => Json::Object(members_value(members)),
                },
            ],
            _ => true,
        },
{
    match place {
        Place::Array { before, items, comma, item } => {
            match item {
                Some(d) => {
                    lemma_items_push(items, d);
                    assert(items_value(items) + optional_value(item) =~= items_value(items).push(
                        d.value(),
                    ));
                    assert(place.settled(lead).values() =~= seq![
                        Json::List(items_value(items).push(d.value())),
                    ]);
                    assert(place.settled(lead).text() =~= place.text() + lead);
                },
                None => {
                    lemma_items_trailed(items, lead);
                    assert(items_value(items) + optional_value(item) =~= items_value(items));
                    assert(place.settled(lead).values() =~= seq![Json::List(items_value(items))]);
                    assert(place.settled(lead).text() =~= place.text() + lead);
                },
            }
        },
        Place::Object { before, members, comma, key, colon, value } => {
            match value {
                Some(v) => {
                    lemma_members_push(members, key->0, v);
                    assert(place.settled(lead).values() =~= seq![
                        Json::Object(
                            members_value(members).insert(key->0.value()->String_0, v.value()),
                        ),
                    ]);
                    assert(place.settled(lead).text() =~= place.text() + lead);
                },
                None => {
                    lemma_members_trailed(members, lead);
                    assert(place.settled(lead).values() =~= seq![
                        Json::Object(members_value(members)),
                    ]);
                    assert(place.settled(lead).text() =~= place.text() + lead);
                },
            }
        },
        _ => {},
    }
}

/// What the machine does where a value is attached: the item appended, the
/// value bound, or nothing where there is none to attach.
proof fn lemma_attach(t: Trail, m: Machine, action: u8, ch: u8)
    requires
        tracks(t, m),
        t.inner is Idle,
        (m.state == S_ARRAY_ITEM && action == A_APPEND) || (m.state == S_OBJECT_ITEM && action
            == A_BIND) || ((m.state == S_ARRAY_REST || m.state == S_OBJECT_REST) && action
            == A_NONE),
    ensures
        m.acted(action, ch) matches Ok(after) && after == (Machine {
            buffers: Buffers {
                values: places_values(t.places.drop_last()) + t.place().settled(t.lead).values(),
                ..m.buffers
            },
            ..m
        }),
{
    let place = t.place();
    let front = t.places.drop_last();
    assert(t.places =~= front.push(place));
    lemma_settled(place, t.lead);
    let v = m.buffers.values;
    match place {
        Place::Array { before, items, comma, item } => {
            if item is Some {
                assert(v.take(v.len() - 2) =~= places_values(front));
                assert(items_value(items) + optional_value(item) =~= items_value(items).push(
                    item->0.value(),
                ));
                assert(places_values(front) + place.settled(t.lead).values()
                    =~= places_values(front).push(
                    Json::List(items_value(items).push(item->0.value())),
                ));
            } else {
                assert(items_value(items) + optional_value(item) =~= items_value(items));
                assert(place.values() =~= place.settled(t.lead).values());
            }
        },
        Place::Object { before, members, comma, key, colon, value } => {
            if value is Some {
                lemma_text_value(key->0);
                assert(v.take(v.len() - 3) =~= places_values(front));
                assert(places_values(front) + place.settled(t.lead).values()
                    =~= places_values(front).push(
                    Json::Object(
                        members_value(members).insert(key->0.value()->String_0, value->0.value()),
                    ),
                ));
            } else {
                assert(place.values() =~= place.settled(t.lead).values());
            }
        },
        _ => {},
    }
}

/// A comma after an item or a member.
pub proof fn lemma_shift_comma(t: Trail, m: Machine, b: u8)
    requires
        tracks(t, m),
        t.inner is Idle,
        category_of(b) == C_COMMA,
    ensures
        shift_ok(t, m, b),
{
    let cat = category_of(b);
    lemma_category_bytes(b);
    let place = t.place();
    let front = t.places.drop_last();
    let t2 = t.shifted(b);
    assert(t.places =~= front.push(place));
    if let Entry::Shift { save, action, next } = transition(m.state, cat) {
        let settled = place.settled(t.lead);
        let after = settled.with_comma();
        lemma_attach(t, m, action, b);
        lemma_settled(place, t.lead);
        lemma_settled_valid(place, t.lead);
        lemma_places_replace(t.places, after);
        lemma_places_replace(t.places, place);
        assert(after.values() == settled.values());
        assert(after.text() =~= settled.text() + seq![b]);
        assert(after.valid());
        assert(is_blank(Seq::<u8>::empty()));
        lemma_valid_replace(t, after, Seq::empty());
        assert(t2.text() =~= t.text().push(b));
    }
}

/// The colon after a key.
pub proof fn lemma_shift_colon(t: Trail, m: Machine, b: u8)
    requires
        tracks(t, m),
        t.inner is Idle,
        category_of(b) == C_COLON,
    ensures
        shift_ok(t, m, b),
{
    let cat = category_of(b);
    lemma_category_bytes(b);
    let place = t.place();
    let front = t.places.drop_last();
    let t2 = t.shifted(b);
    assert(t.places =~= front.push(place));
    if let Entry::Shift { save, action, next } = transition(m.state, cat) {
        let after = place.with_colon(t.lead);
        let key = place->Object_key->0;
        lemma_trailed(key, t.lead);
        lemma_places_replace(t.places, after);
        lemma_places_replace(t.places, place);
        assert(after.values() =~= place.values());
        assert(after.text() =~= place.text() + t.lead + seq![b]);
        assert(is_blank(Seq::<u8>::empty()));
        lemma_valid_replace(t, after, Seq::empty());
        assert(t2.text() =~= t.text().push(b));
    }
}

/// The bracket or brace that closes an array or an object.
pub proof fn lemma_shift_close(t: Trail, m: Machine, b: u8)
    requires
        tracks(t, m),
        t.inner is Idle,
        category_of(b) == C_RBRACK || category_of(b) == C_RBRACE,
    ensures
        shift_ok(t, m, b),
{
    let cat = category_of(b);
    lemma_category_bytes(b);
    let place = t.place();
    let front = t.places.drop_last();
    let t2 = t.shifted(b);
    assert(t.places =~= front.push(place));
    if let Entry::Shift { save, action, next } = transition(m.state, cat) {
        let settled = place.settled(t.lead);
        let doc = place.closed(t.lead);
        assert(t.places.len() >= 2);
        assert(front.last() == t.places[t.places.len() - 2]);
        assert(front.last().awaits_value());
        lemma_settled_valid(place, t.lead);
        assert forall|i: int| 0 <= i < front.len() implies (#[trigger] front[i]).valid() by {
            assert(front[i] == t.places[i]);
        }
        assert forall|i: int| 0 <= i < front.len() - 1 implies (
        #[trigger] front[i]).awaits_value() by {
            assert(front[i] == t.places[i]);
        }
        assert forall|i: int| 1 <= i < front.len() implies !(#[trigger] front[i] is Top) by {
            assert(front[i] == t.places[i]);
        }
        assert(front[0] == t.places[0]);
        assert(is_blank(Seq::<u8>::empty()));
        if m.state == S_ARRAY_OPEN || m.state == S_OBJECT_OPEN {
            assert(settled == place);
            match place {
                Place::Array { before, items, .. } => {
                    let inside = Doc::Array { blank: t.lead, items };
                    lemma_led(before, inside);
                    assert(items_value(items) =~= Seq::<Json>::empty());
                    assert(doc.text() =~= place.text() + t.lead + seq![b]);
                    assert(t2.values() =~= m.buffers.values);
                },
                Place::Object { before, members, .. } => {
                    let inside = Doc::Object { blank: t.lead, members };
                    lemma_led(before, inside);
                    assert(doc.text() =~= place.text() + t.lead + seq![b]);
                    assert(t2.values() =~= m.buffers.values);
                },
                _ => {},
            }
        } else {
            lemma_attach(t, m, action, b);
            lemma_settled(place, t.lead);
            match settled {
                Place::Array { before, items, .. } => {
                    let inside = Doc::Array { blank: Seq::empty(), items };
                    lemma_led(before, inside);
                    assert(doc.text() =~= settled.text() + seq![b]);
                },
                Place::Object { before, members, .. } => {
                    let inside = Doc::Object { blank: Seq::empty(), members };
                    lemma_led(before, inside);
                    assert(doc.text() =~= settled.text() + seq![b]);
                },
                _ => {},
            }
            assert(t2.values() =~= places_values(front) + settled.values());
        }
        assert(t2.text() =~= t.text().push(b));
    }
}

/// The bracket or brace that opens an array or an object.
pub proof fn lemma_shift_open(t: Trail, m: Machine, b: u8)
    requires
        tracks(t, m),
        t.inner is Idle,
        category_of(b) == C_LBRACK || category_of(b) == C_LBRACE,
    ensures
        shift_ok(t, m, b),
{
    let cat = category_of(b);
    lemma_category_bytes(b);
    let place = t.place();
    let t2 = t.shifted(b);
    if let Entry::Shift { save, action, next } = transition(m.state, cat) {
        let opened = t2.places.last();
        lemma_places_push(t.places, opened);
        assert(t2.places.drop_last() =~= t.places);
        assert(items_value(Seq::<Doc>::empty()) =~= Seq::<Json>::empty());
        assert(opened.values() =~= seq![
            if cat == C_LBRACK {
                Json::List(Seq::empty())
            } else {
                Json::Object(Map::empty())
            },
        ]);
        assert(t2.values() =~= m.buffers.values.push(opened.values()[0]));
        assert(opened.text() =~= t.lead + seq![b]);
        assert(t2.text() =~= t.text().push(b));
        assert(place.awaits_value());
        assert(is_blank(Seq::<u8>::empty()));
        assert forall|i: int| 0 <= i < t2.places.len() implies (
        #[trigger] t2.places[i]).valid() by {
            if i < t.places.len() {
                assert(t2.places[i] == t.places[i]);
            }
        }
        assert forall|i: int| 0 <= i < t2.places.len() - 1 implies (
        #[trigger] t2.places[i]).awaits_value() by {
            assert(t2.places[i] == t.places[i]);
        }
        assert forall|i: int| 1 <= i < t2.places.len() implies !(
        #[trigger] t2.places[i] is Top) by {
            if i < t.places.len() {
                assert(t2.places[i] == t.places[i]);
            }
        }
        assert(t2.places[0] == t.places[0]);
    }
}

/// The first byte of a string, a number or a literal.
pub proof fn lemma_shift_begin(t: Trail, m: Machine, b: u8)
    requires
        tracks(t, m),
        t.inner is Idle,
        !blank_cat(category_of(b)),
        category_of(b) != C_COMMA,
        category_of(b) != C_COLON,
        category_of(b) != C_RBRACK,
        category_of(b) != C_RBRACE,
        category_of(b) != C_LBRACK,
        category_of(b) != C_LBRACE,
    ensures
        shift_ok(t, m, b),
{
    let cat = category_of(b);
    lemma_category_bytes(b);
    let place = t.place();
    let t2 = t.shifted(b);
    if let Entry::Shift { save, action, next } = transition(m.state, cat) {
        assert(is_blank(Seq::<u8>::empty()));
        assert(t2.values() =~= m.buffers.values);
        match t2.inner {
            Inner::Text { before, pieces, partial } => {
                assert(pieces_text(pieces) =~= Seq::<u8>::empty());
                assert(pieces_value(pieces) =~= Seq::<char>::empty());
                assert(t2.inner.text() =~= t.lead + seq![b]);
            },
            Inner::Number { before, number, state } => {
                assert(number.text() =~= seq![b]);
                assert(chars_of(number.text()) =~= m.buffers.raw.push(char_of(b)));
                assert(t2.inner.text() =~= t.lead + seq![b]);
            },
            Inner::Literal { before, doc, count } => {
                assert(doc.text().take(1) =~= seq![b]);
                assert(t2.inner.text() =~= t.lead + seq![b]);
            },
            _ => {},
        }
        assert(t2.text() =~= t.text().push(b));
    }
}

/// Every byte that is consumed between values: the trail goes with it.
pub proof fn lemma_shift_idle(t: Trail, m: Machine, b: u8)
    requires
        tracks(t, m),
        t.inner is Idle,
    ensures
        shift_ok(t, m, b),
{
    let cat = category_of(b);
    if blank_cat(cat) {
        lemma_shift_blank(t, m, b);
    } else if cat == C_COMMA {
        lemma_shift_comma(t, m, b);
    } else if cat == C_COLON {
        lemma_shift_colon(t, m, b);
    } else if cat == C_RBRACK || cat == C_RBRACE {
        lemma_shift_close(t, m, b);
    } else if cat == C_LBRACK || cat == C_LBRACE {
        lemma_shift_open(t, m, b);
    } else {
        lemma_shift_begin(t, m, b);
    }
}

// Inside a value.

/// One more piece of a string.
proof fn lemma_pieces_push(pieces: Seq<Piece>, p: Piece)
    requires
        pieces_valid(pieces),
        p.valid(),
    ensures
        pieces_valid(pieces.push(p)),
        pieces_text(pieces.push(p)) == pieces_text(pieces) + p.text(),
        pieces_value(pieces.push(p)) == pieces_value(pieces).push(p.value()),
{
    let more = pieces.push(p);
    assert(more.drop_last() =~= pieces);
    assert(more.last() == p);
    assert forall|i: int| 0 <= i < more.len() implies (#[trigger] more[i]).valid() by {
        if i < pieces.len() {
            assert(more[i] == pieces[i]);
        }
    }
}

/// A byte inside a string.
pub proof fn lemma_shift_text(t: Trail, m: Machine, b: u8)
    requires
        tracks(t, m),
        t.inner is Text,
    ensures
        shift_ok(t, m, b),
{
    let cat = category_of(b);
    lemma_category_bytes(b);
    lemma_categories();
    let t2 = t.shifted(b);
    if let Entry::Shift { save, action, next } = transition(m.state, cat) {
        if let Inner::Text { before, pieces, partial } = t.inner {
            match m.acted(action, b) {
                Ok(after) => {
                    assert(is_blank(Seq::<u8>::empty()));
                    if partial.len() == 0 {
                        if cat == C_QUOTE {
                            lemma_led(before, Doc::Text(pieces));
                            assert(t2.values() =~= m.buffers.values.push(
                                Json::String(pieces_value(pieces)),
                            ));
                            assert(t2.inner.text() =~= t.inner.text().push(b));
                        } else if cat == C_BACKSLASH {
                            assert(t2.inner.text() =~= t.inner.text().push(b));
                        } else {
                            let p = Piece::Plain(b);
                            lemma_pieces_push(pieces, p);
                            assert(t2.inner.text() =~= t.inner.text().push(b));
                        }
                    } else if partial.len() == 1 {
                        if cat == C_QUOTE || cat == C_BACKSLASH || cat == C_SLASH {
                            let p = Piece::Quoted(b);
                            lemma_pieces_push(pieces, p);
                            assert(p.text() =~= partial.push(b));
                            assert(t2.inner.text() =~= t.inner.text().push(b));
                        } else if cat == C_LOW_U {
                            assert(partial.push(b) =~= seq![byte_of('\\'), byte_of('u')]);
                            assert(t2.inner.text() =~= t.inner.text().push(b));
                        } else {
                            let p = Piece::Short(b);
                            lemma_pieces_push(pieces, p);
                            assert(p.text() =~= partial.push(b));
                            assert(t2.inner.text() =~= t.inner.text().push(b));
                        }
                    } else {
                        let longer = partial.push(b);
                        assert(longer.skip(2) =~= partial.skip(2).push(b));
                        assert(chars_of(longer.skip(2)) =~= chars_of(partial.skip(2)).push(
                            char_of(b),
                        ));
                        if partial.len() == 2 {
                            assert(chars_of(partial.skip(2)) =~= Seq::<char>::empty());
                        }
                        assert(t2.inner.text() =~= t.inner.text().push(b));
                    }
                    assert(t2.text() =~= t.text().push(b));
                },
                Err(_) => {},
            }
        }
    }
}

/// What is read of a number, one byte further, is one byte longer.
proof fn lemma_grown_number(n: Number, state: u8, b: u8)
    requires
        number_ok(n, state),
        transition(state, category_of(b)) is Shift,
    ensures
        number_ok(
            grown_number(n, state, category_of(b), b),
            transition(state, category_of(b))->Shift_next,
        ),
        grown_number(n, state, category_of(b), b).text() == n.text().push(b),
{
    let cat = category_of(b);
    lemma_category_bytes(b);
    let g = grown_number(n, state, cat, b);
    if digit_cat(cat) {
        if state == S_MINUS || state == S_INTEGER {
            assert(g.text() =~= n.text().push(b));
            assert forall|i: int| 0 <= i < g.whole.len() implies is_digit_byte(
                #[trigger] g.whole[i],
            ) by {
                if i < n.whole.len() {
                    assert(g.whole[i] == n.whole[i]);
                }
            }
            if state == S_MINUS {
                assert(g.whole =~= seq![b]);
            } else {
                assert(g.whole[0] == n.whole[0]);
            }
        } else if state == S_POINT || state == S_FRACTION {
            let f = n.fraction->0;
            assert(g.fraction_text() =~= n.fraction_text().push(b));
            assert(g.text() =~= n.text().push(b));
            assert forall|i: int| 0 <= i < f.push(b).len() implies is_digit_byte(
                #[trigger] f.push(b)[i],
            ) by {
                if i < f.len() {
                    assert(f.push(b)[i] == f[i]);
                }
            }
        } else {
            let e = n.exponent->0;
            let e2 = g.exponent->0;
            assert(e2.text() =~= e.text().push(b));
            assert(g.text() =~= n.text().push(b));
            assert forall|i: int| 0 <= i < e2.digits.len() implies is_digit_byte(
                #[trigger] e2.digits[i],
            ) by {
                if i < e.digits.len() {
                    assert(e2.digits[i] == e.digits[i]);
                }
            }
        }
    } else if cat == C_DOT {
        assert(g.fraction_text() =~= seq![b]);
        assert(g.text() =~= n.text().push(b));
    } else if cat == C_LOW_E || cat == C_UP_E {
        assert(g.exponent_text() =~= seq![b]);
        assert(g.text() =~= n.text().push(b));
    } else {
        let e = n.exponent->0;
        let e2 = g.exponent->0;
        assert(e2.text() =~= e.text().push(b));
        assert(g.text() =~= n.text().push(b));
    }
}

/// A byte inside a number.
pub proof fn lemma_shift_number(t: Trail, m: Machine, b: u8)
    requires
        tracks(t, m),
        t.inner is Number,
    ensures
        shift_ok(t, m, b),
{
    let cat = category_of(b);
    let t2 = t.shifted(b);
    if let Entry::Shift { save, action, next } = transition(m.state, cat) {
        if let Inner::Number { before, number, state } = t.inner {
            lemma_grown_number(number, state, b);
            let g = grown_number(number, state, cat, b);
            assert(chars_of(g.text()) =~= chars_of(number.text()).push(char_of(b)));
            assert(t2.inner.text() =~= t.inner.text().push(b));
            assert(t2.text() =~= t.text().push(b));
        }
    }
}

/// A letter inside `true`, `false` or `null`.
pub proof fn lemma_shift_literal(t: Trail, m: Machine, b: u8)
    requires
        tracks(t, m),
        t.inner is Literal,
    ensures
        shift_ok(t, m, b),
{
    let cat = category_of(b);
    lemma_category_bytes(b);
    let t2 = t.shifted(b);
    if let Entry::Shift { save, action, next } = transition(m.state, cat) {
        if let Inner::Literal { before, doc, count } = t.inner {
            let word = doc.text();
            assert(word.take(count as int + 1) =~= word.take(count as int).push(b));
            assert(is_blank(Seq::<u8>::empty()));
            if count + 1 == word.len() {
                lemma_led(before, doc);
                assert(word.take(count as int + 1) =~= word);
                assert(t2.values() =~= m.buffers.values.push(doc.value()));
                assert(t2.inner.text() =~= t.inner.text().push(b));
            } else {
                assert(t2.inner.text() =~= t.inner.text().push(b));
            }
            assert(t2.text() =~= t.text().push(b));
        }
    }
}

/// Every byte that is consumed: the trail goes with it.
pub proof fn lemma_shift(t: Trail, m: Machine, b: u8)
    requires
        tracks(t, m),
    ensures
        shift_ok(t, m, b),
{
    match t.inner {
        Inner::Idle => {
            lemma_shift_idle(t, m, b);
        },
        Inner::Text { .. } => {
            lemma_shift_text(t, m, b);
        },
        Inner::Number { .. } => {
            lemma_shift_number(t, m, b);
        },
        Inner::Literal { .. } => {
            lemma_shift_literal(t, m, b);
        },
        Inner::Complete { .. } => {},
    }
}

// Transitions that resume the saved state.

/// The trail goes with a transition that resumes the saved state: where the
/// action succeeds, there is a state to resume, the trail after the
/// transition describes the configuration after it, with the same text, and
/// the state resumed consumes the byte or rejects it.
pub open spec fn reduce_ok(t: Trail, m: Machine, cat: u8, ch: u8) -> bool {
    transition(m.state, cat) matches Entry::Reduce { save, action } ==> (m.saved(save).acted(
        action,
        ch,
    ) matches Ok(after) ==> {
        &&& after.stack.len() > 0
        &&& tracks(t.reduced(), after.resumed())
        &&& t.reduced().text() == t.text()
        &&& !(transition(t.reduced().state(), cat) is Reduce)
    })
}

/// A complete document handed to the place it belongs to.
proof fn lemma_given(t: Trail, doc: Doc)
    requires
        t.valid(),
        !(t.inner is Idle),
        doc.valid(),
        t.place().awaits_value() || (t.place().awaits_key() && doc.is_text()),
    ensures
        ({
            let t2 = Trail {
                places: t.places.drop_last().push(t.place().given(doc)),
                lead: Seq::empty(),
                inner: Inner::Idle,
            };
            &&& t2.valid()
            &&& t2.state() == resume_of(t.place().state())
            &&& t2.stack() == places_stack(t.places)
            &&& t2.values() == places_values(t.places).push(doc.value())
            &&& t2.text() == places_text(t.places) + doc.text()
        }),
{
    let place = t.place();
    let front = t.places.drop_last();
    let given = place.given(doc);
    let t2 = Trail { places: front.push(given), lead: Seq::empty(), inner: Inner::Idle };
    assert(t.places =~= front.push(place));
    lemma_places_replace(t.places, given);
    lemma_places_replace(t.places, place);
    lemma_rows_key();
    assert(is_blank(Seq::<u8>::empty()));
    match place {
        Place::Top { docs } => {
            lemma_items_push(docs, doc);
            assert(docs.push(doc).drop_last() =~= docs);
            assert(given.values() =~= place.values().push(doc.value()));
            assert(given.text() =~= place.text() + doc.text());
            assert forall|i: int| 0 <= i < docs.push(doc).len() implies (#[trigger] docs.push(
                doc,
            )[i]).valid() by {
                if i < docs.len() {
                    assert(docs.push(doc)[i] == docs[i]);
                }
            }
        },
        Place::Array { before, items, comma, item } => {
            assert(given.values() =~= place.values().push(doc.value()));
            assert(given.text() =~= place.text() + doc.text());
        },
        Place::Object { before, members, comma, key, colon, value } => {
            assert(given.values() =~= place.values().push(doc.value()));
            assert(given.text() =~= place.text() + doc.text());
        },
    }
    assert(t2.values() =~= places_values(t.places).push(doc.value()));
    assert(t2.text() =~= places_text(t.places) + doc.text());
    lemma_valid_replace(t, given, Seq::empty());
}

/// The text of a number without fraction and exponent is an integer literal
/// of the number.
proof fn lemma_integer_text(n: Number)
    requires
        whole_ok(n),
        n.is_integer(),
    ensures
        int_literal(chars_of(n.text())) == Some(n.integer()),
{
    let s = chars_of(n.text());
    lemma_digit_chars(n.whole);
    assert(n.text() =~= n.sign_text() + n.whole);
    assert(is_digit_byte(n.whole[0]));
    if n.negative {
        assert(s[0] == '-');
        assert(s.skip(1) =~= chars_of(n.whole));
    } else {
        assert(s =~= chars_of(n.whole));
        assert(is_digit(s[0]));
    }
}

/// A complete value resumes the saved state.
proof fn lemma_reduce_complete(t: Trail, m: Machine, cat: u8, ch: u8)
    requires
        tracks(t, m),
        t.inner is Complete,
    ensures
        reduce_ok(t, m, cat, ch),
{
    lemma_rows_key();
    if let Entry::Reduce { save, action } = transition(m.state, cat) {
        let doc = t.inner->Complete_doc;
        let t2 = t.reduced();
        let r = m.resumed();
        lemma_given(t, doc);
        assert(m.stack.drop_last() =~= places_stack(t.places));
        assert(m.buffers.values =~= places_values(t.places).push(doc.value()));
        assert(t.text() =~= places_text(t.places) + doc.text());
        assert(r == t2.machine(r.pushes, r.pops));
    }
}

/// A number that is complete is pushed, and the saved state resumed.
proof fn lemma_reduce_number(t: Trail, m: Machine, cat: u8, ch: u8)
    requires
        tracks(t, m),
        t.inner is Number,
    ensures
        reduce_ok(t, m, cat, ch),
{
    lemma_rows_key();
    if let Entry::Reduce { save, action } = transition(m.state, cat) {
        if let Inner::Number { before, number, state } = t.inner {
            match m.acted(action, ch) {
                Ok(after) => {
                    let t2 = t.reduced();
                    let r = after.resumed();
                    let doc = led(before, Doc::Number(number));
                    lemma_led(before, Doc::Number(number));
                    if number.is_integer() {
                        lemma_integer_text(number);
                    }
                    assert(number.valid());
                    assert(t.place().awaits_value());
                    lemma_given(t, doc);
                    assert(m.buffers.values =~= places_values(t.places));
                    assert(after.stack.drop_last() =~= places_stack(t.places));
                    assert(t.text() =~= places_text(t.places) + doc.text());
                    assert(after.buffers.values == places_values(t.places).push(doc.value()));
                    assert(r == t2.machine(r.pushes, r.pops));
                },
                Err(_) => {},
            }
        }
    }
}

/// A `\u` escape that is read is resolved, and the string goes on.
proof fn lemma_reduce_escape(t: Trail, m: Machine, cat: u8, ch: u8)
    requires
        tracks(t, m),
        t.inner is Text,
    ensures
        reduce_ok(t, m, cat, ch),
{
    lemma_rows_key();
    if let Entry::Reduce { save, action } = transition(m.state, cat) {
        if let Inner::Text { before, pieces, partial } = t.inner {
            match m.saved(save).acted(action, ch) {
                Ok(after) => {
                    let t2 = t.reduced();
                    let r = after.resumed();
                    assert(partial.len() == 6);
                    let p = Piece::Unicode(partial[2], partial[3], partial[4], partial[5]);
                    assert(p.digits() =~= chars_of(partial.skip(2)));
                    assert(p.valid());
                    lemma_pieces_push(pieces, p);
                    assert(p.text() =~= partial);
                    assert(after.stack.drop_last() =~= m.stack);
                    assert(t2.inner.text() =~= t.inner.text());
                    assert(t2.text() =~= t.text());
                    assert(r == t2.machine(r.pushes, r.pops));
                },
                Err(_) => {},
            }
        }
    }
}

/// Every transition that resumes the saved state: the trail goes with it.
pub proof fn lemma_reduce(t: Trail, m: Machine, cat: u8, ch: u8)
    requires
        tracks(t, m),
    ensures
        reduce_ok(t, m, cat, ch),
{
    match t.inner {
        Inner::Complete { .. } => {
            lemma_reduce_complete(t, m, cat, ch);
        },
        Inner::Number { .. } => {
            lemma_reduce_number(t, m, cat, ch);
        },
        Inner::Text { .. } => {
            lemma_reduce_escape(t, m, cat, ch);
        },
        _ => {},
    }
}

// Byte by byte.

/// One byte of input: the trail goes with the machine.
pub proof fn lemma_fed(t: Trail, m: Machine, b: u8)
    requires
        tracks(t, m),
    ensures
        m.feed(b) matches Ok(after) ==> tracks(t.fed(b), after) && t.fed(b).text() == t.text().push(
            b,
        ),
{
    let cat = category_of(b);
    lemma_table_is_transition(m.state, cat);
    match transition(m.state, cat) {
        Entry::Reject => {
            lemma_step_reject(m, cat, b);
        },
        Entry::Shift { save, action, next } => {
            lemma_step_shift(m, cat, b, save, action, next);
            lemma_shift(t, m, b);
        },
        Entry::Reduce { save, action } => {
            lemma_step_reduce(m, cat, b, save, action);
            lemma_reduce(t, m, cat, b);
            match m.saved(save).acted(action, b) {
                Ok(after) => {
                    let r = after.resumed();
                    let t2 = t.reduced();
                    lemma_table_is_transition(r.state, cat);
                    match transition(r.state, cat) {
                        Entry::Reject => {
                            lemma_step_reject(r, cat, b);
                        },
                        Entry::Shift { save, action, next } => {
                            lemma_step_shift(r, cat, b, save, action, next);
                            lemma_shift(t2, r, b);
                        },
                        Entry::Reduce { .. } => {},
                    }
                },
                Err(_) => {},
            }
        },
    }
}

/// The trail of an input: what reading it byte by byte leads to.
pub open spec fn trail_of(input: Seq<u8>) -> Trail
    decreases input.len(),
{
    if input.len() == 0 {
        Trail::start()
    } else {
        trail_of(input.drop_last()).fed(input.last())
    }
}

/// Whatever input the machine gets through, it has read the text of
/// documents: the trail of the input describes the configuration that the
/// input leads to, and its text is the input.
pub proof fn lemma_run_tracks(input: Seq<u8>)
    ensures
        Machine::initial().run(input) matches Ok(m) ==> tracks(trail_of(input), m) && trail_of(
            input,
        ).text() == input,
    decreases input.len(),
{
    if input.len() == 0 {
        let t = Trail::start();
        assert(is_blank(Seq::<u8>::empty()));
        assert(t.places.drop_last() =~= Seq::<Place>::empty());
        assert(places_values(t.places.drop_last()) =~= Seq::<Json>::empty());
        assert(places_text(t.places.drop_last()) =~= Seq::<u8>::empty());
        assert(items_value(Seq::<Doc>::empty()) =~= Seq::<Json>::empty());
        assert(docs_text(Seq::<Doc>::empty()) =~= Seq::<u8>::empty());
        assert(places_values(t.places) =~= Seq::<Json>::empty());
        assert(places_text(t.places) =~= Seq::<u8>::empty());
        assert(t.values() =~= Seq::<Json>::empty());
        assert(t.text() =~= input);
    } else {
        lemma_run_tracks(input.drop_last());
        match Machine::initial().run(input.drop_last()) {
            Ok(before) => {
                lemma_fed(trail_of(input.drop_last()), before, input.last());
                assert(input.drop_last().push(input.last()) =~= input);
            },
            Err(_) => {},
        }
    }
}

} // verus!
