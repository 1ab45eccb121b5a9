//! Runs of the machine over several bytes, and the configurations where a
//! value begins and where it is complete.

use vstd::prelude::*;
use crate::document::{chars_of, is_blank};
use crate::grammar::rows::{
    follows, lemma_categories, lemma_rows_blank, lemma_rows_done, lemma_rows_outside, skips_blank,
};
use crate::machine::{begins_value, Buffers, char_of, Machine};
use crate::tables::{
    A_FALSE, A_LIST, A_NONE, A_NULL, A_OBJECT, A_RAW, A_TRUE, act, begin, category_of, Entry, entry,
    go, NUM_CATEGORIES, resume_of, S_DONE, S_OBJECT_NEXT, S_OBJECT_OPEN,
};
use crate::value::{Fault, Json};

verus! {

/// A run with one more byte is the run, then that byte.
pub proof fn lemma_run_push(m: Machine, input: Seq<u8>, byte: u8)
    ensures
        m.run(input.push(byte)) == (match m.run(input) {
            Ok(after) => after.feed(byte),
            Err(e) => Err(e),
        }),
{
    assert(input.push(byte).drop_last() =~= input);
}

/// A run over two inputs, one after the other, is the run over the first and
/// then, from where that ends, the run over the second.
pub proof fn lemma_run_concat(m: Machine, first: Seq<u8>, second: Seq<u8>)
    ensures
        m.run(first + second) == (match m.run(first) {
            Ok(after) => after.run(second),
            Err(e) => Err(e),
        }),
    decreases second.len(),
{
    if second.len() == 0 {
        assert(first + second =~= first);
    } else {
        lemma_run_concat(m, first, second.drop_last());
        assert((first + second).drop_last() =~= first + second.drop_last());
    }
}

/// A run over one byte.
pub proof fn lemma_run_one(m: Machine, byte: u8)
    ensures
        m.run(seq![byte]) == m.feed(byte),
{
    reveal_with_fuel(Machine::run, 2);
    assert(seq![byte].drop_last() =~= Seq::<u8>::empty());
}

/// A value may begin: the state allows one, and nothing is accumulated.
pub open spec fn ready(m: Machine) -> bool {
    &&& begins_value(m.state)
    &&& m.buffers.raw == Seq::<char>::empty()
    &&& m.buffers.escape == Seq::<char>::empty()
}

/// A key may begin.
pub open spec fn ready_for_key(m: Machine) -> bool {
    &&& m.state == S_OBJECT_OPEN || m.state == S_OBJECT_NEXT
    &&& m.buffers.raw == Seq::<char>::empty()
    &&& m.buffers.escape == Seq::<char>::empty()
}

/// The configuration after the byte that began a value in `m`: in `state`,
/// with the state to resume saved.
pub open spec fn begun(m: Machine, state: u8) -> Machine {
    Machine { state, stack: m.stack.push(resume_of(m.state)), pushes: m.pushes + 1, ..m }
}

/// The configuration in which the value `v`, begun in `m`, is complete and
/// the saved state not yet resumed. With it `saves` states have been saved
/// since `m`.
pub open spec fn done(m: Machine, v: Json, saves: nat) -> Machine {
    Machine {
        state: S_DONE,
        stack: m.stack.push(resume_of(m.state)),
        buffers: Buffers {
            values: m.buffers.values.push(v),
            raw: Seq::empty(),
            escape: Seq::empty(),
        },
        pushes: m.pushes + saves,
        pops: (m.pops + saves - 1) as nat,
    }
}

/// The configuration in which the value `v`, begun in `m`, is complete and
/// the saved state resumed.
pub open spec fn returned(m: Machine, v: Json, saves: nat) -> Machine {
    Machine {
        state: resume_of(m.state),
        stack: m.stack,
        buffers: Buffers {
            values: m.buffers.values.push(v),
            raw: Seq::empty(),
            escape: Seq::empty(),
        },
        pushes: m.pushes + saves,
        pops: m.pops + saves,
    }
}

/// The two configurations do the same on whatever byte comes next.
pub open spec fn alike(a: Machine, b: Machine) -> bool {
    forall|cat: u8, ch: u8| #[trigger] a.step(cat, ch) == b.step(cat, ch)
}

/// The two configurations do the same on whatever byte may follow a value.
pub open spec fn alike_after(a: Machine, b: Machine) -> bool {
    forall|cat: u8, ch: u8| follows(cat) ==> #[trigger] a.step(cat, ch) == b.step(cat, ch)
}

/// The configuration after more bytes of a string or number: in `state`,
/// with the bytes' characters added to the raw text.
pub open spec fn typed(m: Machine, state: u8, bytes: Seq<u8>) -> Machine {
    Machine {
        state,
        buffers: Buffers { raw: m.buffers.raw + chars_of(bytes), ..m.buffers },
        ..m
    }
}

/// The characters of two runs of bytes, one after the other.
pub proof fn lemma_chars_of_concat(a: Seq<u8>, b: Seq<u8>)
    ensures
        chars_of(a + b) == chars_of(a) + chars_of(b),
{
    assert(chars_of(a + b) =~= chars_of(a) + chars_of(b));
}

/// Typing bytes and then more bytes is typing them all.
pub proof fn lemma_typed_twice(m: Machine, s1: u8, a: Seq<u8>, s2: u8, b: Seq<u8>)
    ensures
        typed(typed(m, s1, a), s2, b) == typed(m, s2, a + b),
{
    lemma_chars_of_concat(a, b);
    assert((m.buffers.raw + chars_of(a)) + chars_of(b) =~= m.buffers.raw + (chars_of(a) + chars_of(
        b,
    )));
}

/// A byte that the state does not allow.
pub proof fn lemma_step_reject(m: Machine, cat: u8, ch: u8)
    requires
        entry(m.state, cat) == Entry::Reject,
    ensures
        m.step(cat, ch) == Err::<Machine, Fault>(Fault::Syntax),
{
    reveal(Machine::step);
}

/// A transition that consumes the byte.
pub proof fn lemma_step_shift(m: Machine, cat: u8, ch: u8, save: bool, action: u8, next: u8)
    requires
        entry(m.state, cat) == (Entry::Shift { save, action, next }),
    ensures
        m.step(cat, ch) == (match m.saved(save).acted(action, ch) {
            Ok(after) => Ok(Machine { state: next, ..after }),
            Err(e) => Err(e),
        }),
{
    reveal(Machine::step);
}

/// A transition that resumes the saved state on the same byte.
pub proof fn lemma_step_reduce(m: Machine, cat: u8, ch: u8, save: bool, action: u8)
    requires
        entry(m.state, cat) == (Entry::Reduce { save, action }),
    ensures
        m.step(cat, ch) == (match m.saved(save).acted(action, ch) {
            Ok(after) => if after.stack.len() > 0 {
                after.resumed().step(cat, ch)
            } else {
                Err(Fault::Syntax)
            },
            Err(e) => Err(e),
        }),
{
    reveal(Machine::step);
}

/// A byte that only changes the state.
pub proof fn lemma_feed_go(m: Machine, byte: u8, next: u8)
    requires
        entry(m.state, category_of(byte)) == go(next),
    ensures
        m.feed(byte) == Ok::<Machine, Fault>(Machine { state: next, ..m }),
{
    lemma_step_shift(m, category_of(byte), byte, false, A_NONE, next);
}

/// A byte that the state adds to the raw text.
pub proof fn lemma_feed_raw(m: Machine, byte: u8, next: u8)
    requires
        entry(m.state, category_of(byte)) == act(A_RAW, next),
    ensures
        m.feed(byte) == Ok::<Machine, Fault>(typed(m, next, seq![byte])),
        m.run(seq![byte]) == Ok::<Machine, Fault>(typed(m, next, seq![byte])),
{
    lemma_step_shift(m, category_of(byte), byte, false, A_RAW, next);
    lemma_run_one(m, byte);
    assert(m.buffers.raw + chars_of(seq![byte]) =~= m.buffers.raw.push(char_of(byte)));
}

/// A byte that pushes a value and completes it.
pub proof fn lemma_feed_push(m: Machine, byte: u8, action: u8, v: Json)
    requires
        entry(m.state, category_of(byte)) == act(action, S_DONE),
        (action == A_TRUE && v == Json::Bool(true)) || (action == A_FALSE && v == Json::Bool(false))
            || (action == A_NULL && v == Json::Null),
    ensures
        m.feed(byte) == Ok::<Machine, Fault>(
            Machine {
                state: S_DONE,
                buffers: Buffers { values: m.buffers.values.push(v), ..m.buffers },
                ..m
            },
        ),
{
    lemma_step_shift(m, category_of(byte), byte, false, action, S_DONE);
}

/// A byte that begins a value without pushing anything.
pub proof fn lemma_feed_begin(m: Machine, byte: u8, next: u8)
    requires
        entry(m.state, category_of(byte)) == begin(A_NONE, next),
    ensures
        m.feed(byte) == Ok::<Machine, Fault>(begun(m, next)),
{
    lemma_step_shift(m, category_of(byte), byte, true, A_NONE, next);
}

/// A byte that begins a number.
pub proof fn lemma_feed_begin_raw(m: Machine, byte: u8, next: u8)
    requires
        entry(m.state, category_of(byte)) == begin(A_RAW, next),
    ensures
        m.feed(byte) == Ok::<Machine, Fault>(typed(begun(m, next), next, seq![byte])),
{
    lemma_step_shift(m, category_of(byte), byte, true, A_RAW, next);
    assert(m.buffers.raw + chars_of(seq![byte]) =~= m.buffers.raw.push(char_of(byte)));
}

/// A byte that begins an array or an object.
pub proof fn lemma_feed_open(m: Machine, byte: u8, action: u8, next: u8)
    requires
        entry(m.state, category_of(byte)) == begin(action, next),
        action == A_LIST || action == A_OBJECT,
    ensures
        m.feed(byte) == Ok::<Machine, Fault>(
            Machine {
                buffers: Buffers {
                    values: m.buffers.values.push(
                        if action == A_LIST {
                            Json::List(Seq::empty())
                        } else {
                            Json::Object(Map::empty())
                        },
                    ),
                    ..m.buffers
                },
                ..begun(m, next)
            },
        ),
{
    lemma_step_shift(m, category_of(byte), byte, true, action, next);
}

/// Whitespace between values changes nothing.
pub proof fn lemma_run_blank(m: Machine, blank: Seq<u8>)
    requires
        is_blank(blank),
        skips_blank(m.state),
    ensures
        m.run(blank) == Ok::<Machine, Fault>(m),
    decreases blank.len(),
{
    if blank.len() > 0 {
        lemma_run_blank(m, blank.drop_last());
        lemma_rows_blank(m.state);
        lemma_categories();
        let b = blank.last();
        assert(b == 0x20 || b == 0x09 || b == 0x0A || b == 0x0D);
        lemma_feed_go(m, b, m.state);
    }
}

/// A complete value resumes the saved state on whatever byte comes next.
pub proof fn lemma_done_returns(m: Machine, v: Json, saves: nat)
    requires
        saves >= 1,
    ensures
        alike(done(m, v, saves), returned(m, v, saves)),
{
    let d = done(m, v, saves);
    let r = returned(m, v, saves);
    assert(d.stack.drop_last() =~= m.stack);
    assert(d.resumed() == r);
    assert forall|cat: u8, ch: u8| #[trigger] d.step(cat, ch) == r.step(cat, ch) by {
        lemma_rows_done(cat);
        if cat < NUM_CATEGORIES {
            lemma_step_reduce(d, cat, ch, false, A_NONE);
        } else {
            lemma_rows_outside(r.state, cat);
            lemma_step_reject(d, cat, ch);
            lemma_step_reject(r, cat, ch);
        }
    }
}

} // verus!
