//! The machine reads `true`, `false` and `null`.

use vstd::prelude::*;
use crate::document::byte_of;
use crate::grammar::rows::{lemma_categories, lemma_rows_begin, lemma_rows_literal};
use crate::grammar::runs::{
    begun, done, lemma_feed_begin, lemma_feed_go, lemma_feed_push, lemma_run_one, lemma_run_push,
    ready,
};
use crate::machine::Machine;
use crate::tables::{
    A_FALSE, A_NONE, A_NULL, A_TRUE, act, begin, category_of, entry, go, S_DONE, S_F, S_FA, S_FAL,
    S_FALS, S_N, S_NU, S_NUL, S_T, S_TR, S_TRU,
};
use crate::value::{Fault, Json};

verus! {

/// Reading the first letter of a literal and then the letters `rest` of it,
/// the last of which pushes the value.
proof fn lemma_reads_letters(
    m: Machine,
    first: u8,
    states: Seq<u8>,
    rest: Seq<u8>,
    action: u8,
    v: Json,
)
    requires
        ready(m),
        rest.len() >= 1,
        states.len() == rest.len(),
        entry(m.state, category_of(first)) == begin(A_NONE, states[0]),
        forall|i: int|
            0 <= i < rest.len() - 1 ==> entry(#[trigger] states[i], category_of(rest[i])) == go(
                states[i + 1],
            ),
        entry(states.last(), category_of(rest.last())) == act(action, S_DONE),
        (action == A_TRUE && v == Json::Bool(true)) || (action == A_FALSE && v == Json::Bool(false))
            || (action == A_NULL && v == Json::Null),
    ensures
        m.run(seq![first] + rest) == Ok::<Machine, Fault>(done(m, v, 1)),
{
    lemma_feed_begin(m, first, states[0]);
    lemma_run_one(m, first);
    lemma_reads_middle_letters(m, first, states, rest, rest.len() - 1);
    let before = begun(m, states.last());
    lemma_feed_push(before, rest.last(), action, v);
    lemma_run_push(m, seq![first] + rest.drop_last(), rest.last());
    assert((seq![first] + rest.drop_last()).push(rest.last()) =~= seq![first] + rest);
    assert(rest.take(rest.len() - 1) =~= rest.drop_last());
}

/// Reading the first letter of a literal and `k` letters more.
proof fn lemma_reads_middle_letters(
    m: Machine,
    first: u8,
    states: Seq<u8>,
    rest: Seq<u8>,
    k: int,
)
    requires
        0 <= k < rest.len(),
        states.len() == rest.len(),
        m.run(seq![first]) == Ok::<Machine, Fault>(begun(m, states[0])),
        forall|i: int|
            0 <= i < rest.len() - 1 ==> entry(#[trigger] states[i], category_of(rest[i])) == go(
                states[i + 1],
            ),
    ensures
        m.run(seq![first] + rest.take(k)) == Ok::<Machine, Fault>(begun(m, states[k])),
    decreases k,
{
    if k == 0 {
        assert(seq![first] + rest.take(0) =~= seq![first]);
    } else {
        lemma_reads_middle_letters(m, first, states, rest, k - 1);
        let before = begun(m, states[k - 1]);
        assert(entry(states[k - 1], category_of(rest[k - 1])) == go(states[k]));
        lemma_feed_go(before, rest[k - 1], states[k]);
        lemma_run_push(m, seq![first] + rest.take(k - 1), rest[k - 1]);
        assert((seq![first] + rest.take(k - 1)).push(rest[k - 1]) =~= seq![first] + rest.take(k));
    }
}

/// The machine reads `true`.
pub proof fn lemma_reads_true(m: Machine)
    requires
        ready(m),
    ensures
        m.run(seq![byte_of('t'), byte_of('r'), byte_of('u'), byte_of('e')]) == Ok::<
            Machine,
            Fault,
        >(done(m, Json::Bool(true), 1)),
{
    lemma_rows_begin(m.state);
    lemma_rows_literal();
    lemma_categories();
    let rest = seq![byte_of('r'), byte_of('u'), byte_of('e')];
    lemma_reads_letters(m, byte_of('t'), seq![S_T, S_TR, S_TRU], rest, A_TRUE, Json::Bool(true));
    assert(seq![byte_of('t')] + rest =~= seq![
        byte_of('t'),
        byte_of('r'),
        byte_of('u'),
        byte_of('e'),
    ]);
}

/// The machine reads `false`.
pub proof fn lemma_reads_false(m: Machine)
    requires
        ready(m),
    ensures
        m.run(
            seq![byte_of('f'), byte_of('a'), byte_of('l'), byte_of('s'), byte_of('e')],
        ) == Ok::<Machine, Fault>(done(m, Json::Bool(false), 1)),
{
    lemma_rows_begin(m.state);
    lemma_rows_literal();
    lemma_categories();
    let rest = seq![byte_of('a'), byte_of('l'), byte_of('s'), byte_of('e')];
    lemma_reads_letters(
        m,
        byte_of('f'),
        seq![S_F, S_FA, S_FAL, S_FALS],
        rest,
        A_FALSE,
        Json::Bool(false),
    );
    assert(seq![byte_of('f')] + rest =~= seq![
        byte_of('f'),
        byte_of('a'),
        byte_of('l'),
        byte_of('s'),
        byte_of('e'),
    ]);
}

/// The machine reads `null`.
pub proof fn lemma_reads_null(m: Machine)
    requires
        ready(m),
    ensures
        m.run(seq![byte_of('n'), byte_of('u'), byte_of('l'), byte_of('l')]) == Ok::<
            Machine,
            Fault,
        >(done(m, Json::Null, 1)),
{
    lemma_rows_begin(m.state);
    lemma_rows_literal();
    lemma_categories();
    let rest = seq![byte_of('u'), byte_of('l'), byte_of('l')];
    lemma_reads_letters(m, byte_of('n'), seq![S_N, S_NU, S_NUL], rest, A_NULL, Json::Null);
    assert(seq![byte_of('n')] + rest =~= seq![
        byte_of('n'),
        byte_of('u'),
        byte_of('l'),
        byte_of('l'),
    ]);
}

} // verus!
