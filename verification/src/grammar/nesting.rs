//! The machine reads every valid document: arrays, objects and whitespace
//! around the values that the other proofs read.

use vstd::prelude::*;
use crate::document::{
    byte_of, Doc, is_blank, items_saves, items_text, items_value, member_text, members_saves,
    members_text, members_value, Number,
};
use crate::grammar::literals::{lemma_reads_false, lemma_reads_null, lemma_reads_true};
use crate::grammar::numbers::lemma_reads_number;
use crate::grammar::rows::{
    follows, lemma_categories, lemma_rows_array, lemma_rows_begin, lemma_rows_blank, lemma_rows_key,
    lemma_rows_object,
};
use crate::grammar::runs::{
    alike_after, done, lemma_done_returns, lemma_feed_go, lemma_feed_open, lemma_run_blank,
    lemma_run_concat, lemma_run_one, lemma_run_push, lemma_step_reject, lemma_step_shift, ready,
    ready_for_key, returned,
};
use crate::grammar::strings::lemma_reads_text;
use crate::machine::{Buffers, Machine};
use crate::tables::{
    A_APPEND, A_BIND, A_LIST, A_NONE, A_OBJECT, act, C_COMMA, C_RBRACE, C_RBRACK, C_SPACE, C_WS,
    category_of, entry, resume_of, S_ARRAY_ITEM, S_ARRAY_NEXT, S_ARRAY_OPEN, S_ARRAY_REST, S_DONE,
    S_OBJECT_COLON, S_OBJECT_ITEM, S_OBJECT_KEY, S_OBJECT_NEXT, S_OBJECT_OPEN, S_OBJECT_REST,
    S_START,
};
use crate::value::{Fault, Json};

verus! {

/// The configuration inside an array begun in `m`, with `items` appended so
/// far and `saves` states saved and resumed for them.
pub open spec fn array_at(m: Machine, state: u8, items: Seq<Json>, saves: nat) -> Machine {
    Machine {
        state,
        stack: m.stack.push(resume_of(m.state)),
        buffers: Buffers {
            values: m.buffers.values.push(Json::List(items)),
            raw: Seq::empty(),
            escape: Seq::empty(),
        },
        pushes: m.pushes + 1 + saves,
        pops: m.pops + saves,
    }
}

/// The configuration in which an item of the array is complete and not yet
/// appended.
pub open spec fn array_item(m: Machine, items: Seq<Json>, item: Json, saves: nat) -> Machine {
    Machine {
        state: S_ARRAY_ITEM,
        stack: m.stack.push(resume_of(m.state)),
        buffers: Buffers {
            values: m.buffers.values.push(Json::List(items)).push(item),
            raw: Seq::empty(),
            escape: Seq::empty(),
        },
        pushes: m.pushes + 1 + saves,
        pops: m.pops + saves,
    }
}

/// The configuration inside an object begun in `m`, with `bound` bound so far.
pub open spec fn object_at(
    m: Machine,
    state: u8,
    bound: Map<Seq<char>, Json>,
    saves: nat,
) -> Machine {
    Machine {
        state,
        stack: m.stack.push(resume_of(m.state)),
        buffers: Buffers {
            values: m.buffers.values.push(Json::Object(bound)),
            raw: Seq::empty(),
            escape: Seq::empty(),
        },
        pushes: m.pushes + 1 + saves,
        pops: m.pops + saves,
    }
}

/// The configuration in which a key of the object is complete, or, in
/// `S_OBJECT_COLON`, its colon passed.
pub open spec fn object_key(
    m: Machine,
    state: u8,
    bound: Map<Seq<char>, Json>,
    key: Seq<char>,
    saves: nat,
) -> Machine {
    Machine {
        state,
        stack: m.stack.push(resume_of(m.state)),
        buffers: Buffers {
            values: m.buffers.values.push(Json::Object(bound)).push(Json::String(key)),
            raw: Seq::empty(),
            escape: Seq::empty(),
        },
        pushes: m.pushes + 1 + saves,
        pops: m.pops + saves,
    }
}

/// The configuration in which the value of a key is complete and not yet
/// bound.
pub open spec fn object_item(
    m: Machine,
    bound: Map<Seq<char>, Json>,
    key: Seq<char>,
    value: Json,
    saves: nat,
) -> Machine {
    Machine {
        state: S_OBJECT_ITEM,
        stack: m.stack.push(resume_of(m.state)),
        buffers: Buffers {
            values: m.buffers.values.push(Json::Object(bound)).push(Json::String(key)).push(
                value,
            ),
            raw: Seq::empty(),
            escape: Seq::empty(),
        },
        pushes: m.pushes + 1 + saves,
        pops: m.pops + saves,
    }
}

/// From a configuration ready for it, the machine reads the document: it
/// comes through its text, and then does, on whatever byte may follow a
/// value, what it does once the document's value is pushed and the saved
/// state resumed.
pub open spec fn reads(m: Machine, d: Doc) -> bool {
    m.run(d.text()) matches Ok(after) && alike_after(
        after,
        returned(m, d.value(), d.saves()),
    )
}

/// A string, padded or not, denotes a string.
pub proof fn lemma_text_value(d: Doc)
    requires
        d.is_text(),
    ensures
        d.value() is String,
    decreases d,
{
    match d {
        Doc::Padded(_, inner, _) => {
            lemma_text_value(*inner);
        },
        _ => {},
    }
}

/// The byte that appends the complete item to its array.
proof fn lemma_feed_append(
    m: Machine,
    c: Machine,
    items: Seq<Json>,
    item: Json,
    saves: nat,
    byte: u8,
    next: u8,
)
    requires
        c == array_item(m, items, item, saves),
        entry(S_ARRAY_ITEM, category_of(byte)) == act(A_APPEND, next),
    ensures
        c.feed(byte) == Ok::<Machine, Fault>(array_at(m, next, items.push(item), saves)),
{
    lemma_step_shift(c, category_of(byte), byte, false, A_APPEND, next);
    let v = c.buffers.values;
    assert(v.take(v.len() - 2) =~= m.buffers.values);
}

/// The byte that binds the complete value to its key.
proof fn lemma_feed_bind(
    m: Machine,
    c: Machine,
    bound: Map<Seq<char>, Json>,
    key: Seq<char>,
    value: Json,
    saves: nat,
    byte: u8,
    next: u8,
)
    requires
        c == object_item(m, bound, key, value, saves),
        entry(S_OBJECT_ITEM, category_of(byte)) == act(A_BIND, next),
    ensures
        c.feed(byte) == Ok::<Machine, Fault>(object_at(m, next, bound.insert(key, value), saves)),
{
    lemma_step_shift(c, category_of(byte), byte, false, A_BIND, next);
    let v = c.buffers.values;
    assert(v.take(v.len() - 3) =~= m.buffers.values);
}

/// The states that a complete value resumes.
pub open spec fn resumes(state: u8) -> bool {
    state == S_START || state == S_ARRAY_ITEM || state == S_OBJECT_KEY || state == S_OBJECT_ITEM
}

/// Whitespace after a complete value: the value is attached, and what may
/// follow is taken as before.
proof fn lemma_settles(r: Machine, blank: Seq<u8>)
    requires
        resumes(r.state),
        is_blank(blank),
        blank.len() >= 1,
    ensures
        r.feed(blank[0]) matches Ok(w) && w.run(blank.skip(1)) == Ok::<Machine, Fault>(w)
            && alike_after(w, r),
{
    let b = blank[0];
    let cat = category_of(b);
    lemma_categories();
    lemma_rows_array();
    lemma_rows_object();
    lemma_rows_blank(S_START);
    lemma_rows_blank(S_OBJECT_KEY);
    lemma_rows_blank(S_ARRAY_REST);
    lemma_rows_blank(S_OBJECT_REST);
    assert(b == 0x20 || b == 0x09 || b == 0x0A || b == 0x0D);
    assert(cat == C_SPACE || cat == C_WS);
    let action = if r.state == S_ARRAY_ITEM {
        A_APPEND
    } else if r.state == S_OBJECT_ITEM {
        A_BIND
    } else {
        A_NONE
    };
    let next = if r.state == S_ARRAY_ITEM {
        S_ARRAY_REST
    } else if r.state == S_OBJECT_ITEM {
        S_OBJECT_REST
    } else {
        r.state
    };
    lemma_step_shift(r, cat, b, false, action, next);
    let w = r.feed(b)->Ok_0;
    assert(is_blank(blank.skip(1))) by {
        assert forall|i: int| 0 <= i < blank.skip(1).len() implies {
            let x = #[trigger] blank.skip(1)[i];
            x == 0x20 || x == 0x09 || x == 0x0A || x == 0x0D
        } by {
            assert(blank.skip(1)[i] == blank[i + 1]);
        }
    }
    lemma_run_blank(w, blank.skip(1));
    assert forall|c: u8, ch: u8| follows(c) implies #[trigger] w.step(c, ch) == r.step(c, ch) by {
        if r.state == S_ARRAY_ITEM || r.state == S_OBJECT_ITEM {
            if c == C_SPACE || c == C_WS {
                lemma_step_shift(w, c, ch, false, A_NONE, next);
                lemma_step_shift(r, c, ch, false, action, next);
            } else if c == C_COMMA {
                let after = if r.state == S_ARRAY_ITEM {
                    S_ARRAY_NEXT
                } else {
                    S_OBJECT_NEXT
                };
                lemma_step_shift(w, c, ch, false, A_NONE, after);
                lemma_step_shift(r, c, ch, false, action, after);
            } else if (c == C_RBRACK && r.state == S_ARRAY_ITEM) || (c == C_RBRACE && r.state
                == S_OBJECT_ITEM) {
                lemma_step_shift(w, c, ch, false, A_NONE, S_DONE);
                lemma_step_shift(r, c, ch, false, action, S_DONE);
            } else {
                lemma_step_reject(w, c, ch);
                lemma_step_reject(r, c, ch);
            }
        }
    }
}

/// The machine reads every valid document.
pub proof fn lemma_reads(m: Machine, d: Doc)
    requires
        d.valid(),
        ready(m) || (ready_for_key(m) && d.is_text()),
    ensures
        reads(m, d),
    decreases d, 0int,
{
    lemma_rows_key();
    lemma_categories();
    match d {
        Doc::Null => {
            lemma_reads_null(m);
            lemma_done_returns(m, Json::Null, 1);
        },
        Doc::True => {
            lemma_reads_true(m);
            lemma_done_returns(m, Json::Bool(true), 1);
        },
        Doc::False => {
            lemma_reads_false(m);
            lemma_done_returns(m, Json::Bool(false), 1);
        },
        Doc::Number(n) => {
            lemma_reads_number(m, n);
        },
        Doc::Text(pieces) => {
            lemma_reads_text(m, pieces);
        },
        Doc::Padded(before, inner, after) => {
            lemma_run_blank(m, before);
            lemma_reads(m, *inner);
            let r = returned(m, d.value(), d.saves());
            let x = m.run(inner.text())->Ok_0;
            lemma_run_concat(m, before, inner.text());
            lemma_run_concat(m, before + inner.text(), after);
            if after.len() == 0 {
            } else {
                lemma_settles(r, after);
                let b = after[0];
                assert(follows(category_of(b))) by {
                    assert(b == 0x20 || b == 0x09 || b == 0x0A || b == 0x0D);
                }
                assert(x.step(category_of(b), b) == r.step(category_of(b), b));
                lemma_run_one(x, b);
                lemma_run_concat(x, seq![b], after.skip(1));
                assert(seq![b] + after.skip(1) =~= after);
            }
        },
        Doc::Array { blank, items } => {
            let open = byte_of('[');
            let close = byte_of(']');
            lemma_rows_begin(m.state);
            lemma_rows_array();
            lemma_feed_open(m, open, A_LIST, S_ARRAY_OPEN);
            lemma_run_one(m, open);
            let a = array_at(m, S_ARRAY_OPEN, Seq::empty(), 0);
            assert(m.feed(open) == Ok::<Machine, Fault>(a));
            let inside = if items.len() == 0 {
                blank
            } else {
                items_text(items)
            };
            let saves = 1 + items_saves(items);
            let finished = done(m, d.value(), saves);
            if items.len() == 0 {
                lemma_run_blank(a, blank);
                lemma_run_concat(m, seq![open], blank);
                lemma_feed_go(a, close, S_DONE);
                assert(items_value(items) =~= Seq::<Json>::empty());
                assert(Machine { state: S_DONE, ..a } == finished);
            } else {
                let n = items.len() as int;
                lemma_reads_items(m, items, n);
                assert(items.take(n) =~= items);
                let x = m.run(seq![open] + inside)->Ok_0;
                let c = array_item(
                    m,
                    items_value(items.drop_last()),
                    items.last().value(),
                    items_saves(items),
                );
                assert(items.take(n - 1) =~= items.drop_last());
                assert(x.step(category_of(close), close) == c.step(category_of(close), close));
                lemma_feed_append(
                    m,
                    c,
                    items_value(items.drop_last()),
                    items.last().value(),
                    items_saves(items),
                    close,
                    S_DONE,
                );
                assert(array_at(m, S_DONE, items_value(items), items_saves(items)) == finished);
            }
            lemma_run_push(m, seq![open] + inside, close);
            assert((seq![open] + inside).push(close) =~= d.text());
            lemma_done_returns(m, d.value(), saves);
        },
        Doc::Object { blank, members } => {
            let open = byte_of('{');
            let close = byte_of('}');
            lemma_rows_begin(m.state);
            lemma_rows_object();
            lemma_feed_open(m, open, A_OBJECT, S_OBJECT_OPEN);
            lemma_run_one(m, open);
            let a = object_at(m, S_OBJECT_OPEN, Map::empty(), 0);
            assert(m.feed(open) == Ok::<Machine, Fault>(a));
            let inside = if members.len() == 0 {
                blank
            } else {
                members_text(members)
            };
            let saves = 1 + members_saves(members);
            let finished = done(m, d.value(), saves);
            if members.len() == 0 {
                lemma_run_blank(a, blank);
                lemma_run_concat(m, seq![open], blank);
                lemma_feed_go(a, close, S_DONE);
                assert(members_value(members) =~= Map::<Seq<char>, Json>::empty());
                assert(members_saves(members) == 0);
                assert(Machine { state: S_DONE, ..a } == finished);
            } else {
                let n = members.len() as int;
                lemma_reads_members(m, members, n);
                assert(members.take(n) =~= members);
                let x = m.run(seq![open] + inside)->Ok_0;
                let last = members.last();
                let key = last.0.value()->String_0;
                let c = object_item(
                    m,
                    members_value(members.drop_last()),
                    key,
                    last.1.value(),
                    members_saves(members),
                );
                assert(members.take(n - 1) =~= members.drop_last());
                assert(x.step(category_of(close), close) == c.step(category_of(close), close));
                lemma_feed_bind(
                    m,
                    c,
                    members_value(members.drop_last()),
                    key,
                    last.1.value(),
                    members_saves(members),
                    close,
                    S_DONE,
                );
                assert(object_at(m, S_DONE, members_value(members), members_saves(members))
                    == finished);
            }
            lemma_run_push(m, seq![open] + inside, close);
            assert((seq![open] + inside).push(close) =~= d.text());
            lemma_done_returns(m, d.value(), saves);
        },
    }
}

/// The opening bracket and the first `k` items of an array.
pub proof fn lemma_reads_items(m: Machine, items: Seq<Doc>, k: int)
    requires
        ready(m),
        1 <= k <= items.len(),
        forall|i: int| 0 <= i < items.len() ==> (#[trigger] items[i]).valid(),
    ensures
        m.run(seq![byte_of('[')] + items_text(items.take(k))) matches Ok(after) && alike_after(
            after,
            array_item(
                m,
                items_value(items.take(k - 1)),
                items[k - 1].value(),
                items_saves(items.take(k)),
            ),
        ),
    decreases items, k,
{
    let open = byte_of('[');
    let comma = byte_of(',');
    let item = items[k - 1];
    lemma_rows_key();
    lemma_categories();
    lemma_rows_array();
    assert(items.take(k).drop_last() =~= items.take(k - 1));
    assert(items.take(k).last() == item);
    if k == 1 {
        lemma_rows_begin(m.state);
        lemma_feed_open(m, open, A_LIST, S_ARRAY_OPEN);
        lemma_run_one(m, open);
        let a = array_at(m, S_ARRAY_OPEN, Seq::empty(), 0);
        assert(m.feed(open) == Ok::<Machine, Fault>(a));
        lemma_reads(a, item);
        lemma_run_concat(m, seq![open], item.text());
        assert(items.take(1)[0] == item);
        assert(items_value(items.take(0)) =~= Seq::<Json>::empty());
        assert(items_saves(items.take(0)) == 0);
        assert(returned(a, item.value(), item.saves()) == array_item(
            m,
            items_value(items.take(0)),
            item.value(),
            items_saves(items.take(1)),
        ));
    } else {
        lemma_reads_items(m, items, k - 1);
        let front = items.take(k - 1);
        let before = seq![open] + items_text(front);
        let x = m.run(before)->Ok_0;
        assert(front.drop_last() =~= items.take(k - 2));
        assert(front.last() == items[k - 2]);
        let c = array_item(
            m,
            items_value(items.take(k - 2)),
            items[k - 2].value(),
            items_saves(front),
        );
        assert(x.step(category_of(comma), comma) == c.step(category_of(comma), comma));
        lemma_feed_append(
            m,
            c,
            items_value(items.take(k - 2)),
            items[k - 2].value(),
            items_saves(front),
            comma,
            S_ARRAY_NEXT,
        );
        let a = array_at(m, S_ARRAY_NEXT, items_value(front), items_saves(front));
        lemma_run_push(m, before, comma);
        lemma_reads(a, item);
        lemma_run_concat(m, before.push(comma), item.text());
        assert(before.push(comma) + item.text() =~= seq![open] + items_text(items.take(k)));
        assert(returned(a, item.value(), item.saves()) == array_item(
            m,
            items_value(front),
            item.value(),
            items_saves(items.take(k)),
        ));
    }
}

/// The opening brace and the first `k` members of an object.
pub proof fn lemma_reads_members(m: Machine, members: Seq<(Doc, Doc)>, k: int)
    requires
        ready(m),
        1 <= k <= members.len(),
        forall|i: int|
            0 <= i < members.len() ==> {
                &&& (#[trigger] members[i]).0.valid()
                &&& members[i].0.is_text()
                &&& members[i].1.valid()
            },
    ensures
        m.run(seq![byte_of('{')] + members_text(members.take(k))) matches Ok(after)
            && alike_after(
            after,
            object_item(
                m,
                members_value(members.take(k - 1)),
                members[k - 1].0.value()->String_0,
                members[k - 1].1.value(),
                members_saves(members.take(k)),
            ),
        ),
    decreases members, k,
{
    let open = byte_of('{');
    let comma = byte_of(',');
    let colon = byte_of(':');
    let member = members[k - 1];
    let front = members.take(k - 1);
    lemma_rows_key();
    lemma_categories();
    lemma_rows_object();
    assert(members.take(k).drop_last() =~= front);
    assert(members.take(k).last() == member);
    assert(member.0.valid() && member.0.is_text() && member.1.valid());
    lemma_text_value(member.0);
    let key = member.0.value()->String_0;
    // Up to where the key begins.
    let before = if k == 1 {
        seq![open]
    } else {
        (seq![open] + members_text(front)).push(comma)
    };
    let state = if k == 1 {
        S_OBJECT_OPEN
    } else {
        S_OBJECT_NEXT
    };
    let a = object_at(m, state, members_value(front), members_saves(front));
    assert(m.run(before) == Ok::<Machine, Fault>(a)) by {
        if k == 1 {
            lemma_rows_begin(m.state);
            lemma_feed_open(m, open, A_OBJECT, S_OBJECT_OPEN);
            lemma_run_one(m, open);
        } else {
            lemma_reads_members(m, members, k - 1);
            let x = m.run(seq![open] + members_text(front))->Ok_0;
            let earlier = members[k - 2];
            assert(front.drop_last() =~= members.take(k - 2));
            assert(front.last() == earlier);
            let c = object_item(
                m,
                members_value(members.take(k - 2)),
                earlier.0.value()->String_0,
                earlier.1.value(),
                members_saves(front),
            );
            assert(x.step(category_of(comma), comma) == c.step(category_of(comma), comma));
            lemma_feed_bind(
                m,
                c,
                members_value(members.take(k - 2)),
                earlier.0.value()->String_0,
                earlier.1.value(),
                members_saves(front),
                comma,
                S_OBJECT_NEXT,
            );
            lemma_run_push(m, seq![open] + members_text(front), comma);
        }
    }
    // The key, then the colon.
    lemma_reads(a, member.0);
    let x1 = a.run(member.0.text())->Ok_0;
    let c1 = object_key(
        m,
        S_OBJECT_KEY,
        members_value(front),
        key,
        members_saves(front) + member.0.saves(),
    );
    assert(returned(a, member.0.value(), member.0.saves()) == c1);
    assert(x1.step(category_of(colon), colon) == c1.step(category_of(colon), colon));
    lemma_feed_go(c1, colon, S_OBJECT_COLON);
    let a2 = object_key(
        m,
        S_OBJECT_COLON,
        members_value(front),
        key,
        members_saves(front) + member.0.saves(),
    );
    lemma_run_push(a, member.0.text(), colon);
    // The value.
    lemma_reads(a2, member.1);
    assert(returned(a2, member.1.value(), member.1.saves()) == object_item(
        m,
        members_value(front),
        key,
        member.1.value(),
        members_saves(members.take(k)),
    ));
    lemma_run_concat(a, member.0.text().push(colon), member.1.text());
    assert(member.0.text().push(colon) + member.1.text() =~= member_text(member));
    lemma_run_concat(m, before, member_text(member));
    assert(before + member_text(member) =~= seq![open] + members_text(members.take(k))) by {
        if k == 1 {
            assert(members.take(1)[0] == member);
        }
    }
}

} // verus!
