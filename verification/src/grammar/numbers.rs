//! The machine reads numbers.

use vstd::prelude::*;
use crate::document::{byte_of, chars_of, Exponent, is_digit_byte, is_digits, Number};
use crate::grammar::rows::{
    follows, lemma_categories, lemma_digit_category, lemma_rows_begin, lemma_rows_number,
    lemma_rows_number_end,
};
use crate::grammar::runs::{
    alike_after, begun, lemma_feed_begin_raw, lemma_feed_raw, lemma_run_concat, lemma_run_one,
    lemma_step_reduce, lemma_typed_twice, ready, returned, typed,
};
use crate::machine::Machine;
use crate::tables::{
    A_FLOAT, A_INT, A_RAW, act, C_DIGIT, C_ZERO, entry, S_EXP_DIGITS, S_EXP_SIGN, S_EXPONENT,
    S_FRACTION, S_INTEGER, S_MINUS, S_POINT, S_ZERO,
};
use crate::text::{all_digits, i64_literal, is_digit};
use crate::value::Fault;

verus! {

/// The states in which a digit is added to the raw text and the state kept.
pub open spec fn takes_digits(state: u8) -> bool {
    state == S_INTEGER || state == S_FRACTION || state == S_EXP_DIGITS
}

/// A run of digits inside a number.
pub proof fn lemma_run_digits(m: Machine, digits: Seq<u8>)
    requires
        takes_digits(m.state),
        forall|i: int| 0 <= i < digits.len() ==> is_digit_byte(#[trigger] digits[i]),
    ensures
        m.run(digits) == Ok::<Machine, Fault>(typed(m, m.state, digits)),
    decreases digits.len(),
{
    if digits.len() == 0 {
        assert(m.buffers.raw + chars_of(digits) =~= m.buffers.raw);
    } else {
        let front = digits.drop_last();
        let b = digits.last();
        lemma_run_digits(m, front);
        let mid = typed(m, m.state, front);
        lemma_rows_number();
        lemma_digit_category(b);
        lemma_feed_raw(mid, b, m.state);
        lemma_typed_twice(m, m.state, front, m.state, seq![b]);
        assert(front + seq![b] =~= digits);
    }
}

/// The first digit of a run of digits, then the others: from a state that
/// the first digit leaves for `state`.
pub proof fn lemma_run_first_digits(m: Machine, digits: Seq<u8>, state: u8)
    requires
        is_digits(digits),
        takes_digits(state),
        entry(m.state, C_ZERO) == act(A_RAW, state),
        entry(m.state, C_DIGIT) == act(A_RAW, state),
    ensures
        m.run(digits) == Ok::<Machine, Fault>(typed(m, state, digits)),
{
    let first = digits[0];
    let others = digits.skip(1);
    lemma_digit_category(first);
    lemma_feed_raw(m, first, state);
    let mid = typed(m, state, seq![first]);
    lemma_run_digits(mid, others);
    lemma_run_concat(m, seq![first], others);
    lemma_typed_twice(m, state, seq![first], state, others);
    assert(seq![first] + others =~= digits);
}

/// The configuration while a value begun in `m` is being read: in `state`,
/// with the characters of `bytes` as the raw text.
pub open spec fn reading(m: Machine, state: u8, bytes: Seq<u8>) -> Machine {
    typed(begun(m, state), state, bytes)
}

/// The state after the digits before the decimal point.
pub open spec fn whole_state(n: Number) -> u8 {
    if n.whole[0] == byte_of('0') {
        S_ZERO
    } else {
        S_INTEGER
    }
}

/// The state after the fraction, if there is one.
pub open spec fn fraction_state(n: Number) -> u8 {
    if n.fraction is Some {
        S_FRACTION
    } else {
        whole_state(n)
    }
}

/// The state after the whole number.
pub open spec fn end_state(n: Number) -> u8 {
    if n.exponent is Some {
        S_EXP_DIGITS
    } else {
        fraction_state(n)
    }
}

/// The sign and the digits before the decimal point.
proof fn lemma_reads_whole(m: Machine, n: Number)
    requires
        ready(m),
        n.valid(),
    ensures
        m.run(n.sign_text() + n.whole) == Ok::<Machine, Fault>(
            reading(m, whole_state(n), n.sign_text() + n.whole),
        ),
{
    let first = n.whole[0];
    let others = n.whole.skip(1);
    let state = whole_state(n);
    lemma_rows_begin(m.state);
    lemma_rows_number();
    lemma_categories();
    lemma_digit_category(first);
    assert(seq![first] + others =~= n.whole);
    if state == S_ZERO {
        assert(others =~= Seq::<u8>::empty());
    }
    if n.negative {
        let minus = byte_of('-');
        lemma_feed_begin_raw(m, minus, S_MINUS);
        lemma_run_one(m, minus);
        let x1 = reading(m, S_MINUS, seq![minus]);
        lemma_feed_raw(x1, first, state);
        let x2 = typed(x1, state, seq![first]);
        if state == S_INTEGER {
            lemma_run_digits(x2, others);
        }
        assert(x2.run(others) == Ok::<Machine, Fault>(typed(x2, state, others))) by {
            if state == S_ZERO {
                assert(x2.buffers.raw + chars_of(others) =~= x2.buffers.raw);
            }
        }
        lemma_run_concat(x1, seq![first], others);
        lemma_typed_twice(x1, state, seq![first], state, others);
        lemma_run_concat(m, seq![minus], n.whole);
        lemma_typed_twice(begun(m, state), S_MINUS, seq![minus], state, n.whole);
    } else {
        lemma_feed_begin_raw(m, first, state);
        lemma_run_one(m, first);
        let x2 = reading(m, state, seq![first]);
        if state == S_INTEGER {
            lemma_run_digits(x2, others);
        }
        assert(x2.run(others) == Ok::<Machine, Fault>(typed(x2, state, others))) by {
            if state == S_ZERO {
                assert(x2.buffers.raw + chars_of(others) =~= x2.buffers.raw);
            }
        }
        lemma_run_concat(m, seq![first], others);
        lemma_typed_twice(begun(m, state), state, seq![first], state, others);
        assert(n.sign_text() + n.whole =~= n.whole);
    }
}

/// The decimal point and the digits after it.
proof fn lemma_reads_fraction(x: Machine, digits: Seq<u8>)
    requires
        x.state == S_ZERO || x.state == S_INTEGER,
        is_digits(digits),
    ensures
        x.run(seq![byte_of('.')] + digits) == Ok::<Machine, Fault>(
            typed(x, S_FRACTION, seq![byte_of('.')] + digits),
        ),
{
    let point = byte_of('.');
    lemma_rows_number();
    lemma_categories();
    lemma_feed_raw(x, point, S_POINT);
    let x1 = typed(x, S_POINT, seq![point]);
    lemma_run_first_digits(x1, digits, S_FRACTION);
    lemma_run_concat(x, seq![point], digits);
    lemma_typed_twice(x, S_POINT, seq![point], S_FRACTION, digits);
}

/// The exponent: its letter, its sign if it has one, and its digits.
proof fn lemma_reads_exponent(x: Machine, e: Exponent)
    requires
        x.state == S_ZERO || x.state == S_INTEGER || x.state == S_FRACTION,
        e.valid(),
    ensures
        x.run(e.text()) == Ok::<Machine, Fault>(typed(x, S_EXP_DIGITS, e.text())),
{
    let letter = if e.upper {
        byte_of('E')
    } else {
        byte_of('e')
    };
    lemma_rows_number();
    lemma_categories();
    lemma_feed_raw(x, letter, S_EXPONENT);
    let x1 = typed(x, S_EXPONENT, seq![letter]);
    match e.sign {
        Some(minus) => {
            let sign = if minus {
                byte_of('-')
            } else {
                byte_of('+')
            };
            lemma_feed_raw(x1, sign, S_EXP_SIGN);
            let x2 = typed(x1, S_EXP_SIGN, seq![sign]);
            lemma_run_first_digits(x2, e.digits, S_EXP_DIGITS);
            lemma_run_concat(x1, seq![sign], e.digits);
            lemma_typed_twice(x1, S_EXP_SIGN, seq![sign], S_EXP_DIGITS, e.digits);
            lemma_run_concat(x, seq![letter], seq![sign] + e.digits);
            lemma_typed_twice(x, S_EXPONENT, seq![letter], S_EXP_DIGITS, seq![sign] + e.digits);
            assert(seq![letter] + (seq![sign] + e.digits) =~= e.text());
        },
        None => {
            lemma_run_first_digits(x1, e.digits, S_EXP_DIGITS);
            lemma_run_concat(x, seq![letter], e.digits);
            lemma_typed_twice(x, S_EXPONENT, seq![letter], S_EXP_DIGITS, e.digits);
            assert(seq![letter] + e.digits =~= e.text());
        },
    }
}

/// The whole text of a number.
proof fn lemma_reads_number_text(m: Machine, n: Number)
    requires
        ready(m),
        n.valid(),
    ensures
        m.run(n.text()) == Ok::<Machine, Fault>(reading(m, end_state(n), n.text())),
{
    let t1 = n.sign_text() + n.whole;
    let t2 = t1 + n.fraction_text();
    lemma_reads_whole(m, n);
    let x1 = reading(m, whole_state(n), t1);
    let x2 = reading(m, fraction_state(n), t2);
    assert(x1.run(n.fraction_text()) == Ok::<Machine, Fault>(x2)) by {
        match n.fraction {
            Some(f) => {
                lemma_reads_fraction(x1, f);
                lemma_typed_twice(
                    begun(m, S_FRACTION),
                    whole_state(n),
                    t1,
                    S_FRACTION,
                    n.fraction_text(),
                );
            },
            None => {
                assert(t2 =~= t1);
            },
        }
    }
    lemma_run_concat(m, t1, n.fraction_text());
    let x3 = reading(m, end_state(n), n.text());
    assert(x2.run(n.exponent_text()) == Ok::<Machine, Fault>(x3)) by {
        match n.exponent {
            Some(e) => {
                lemma_reads_exponent(x2, e);
                lemma_typed_twice(
                    begun(m, S_EXP_DIGITS),
                    fraction_state(n),
                    t2,
                    S_EXP_DIGITS,
                    n.exponent_text(),
                );
            },
            None => {
                assert(n.text() =~= t2);
            },
        }
    }
    lemma_run_concat(m, t2, n.exponent_text());
}

/// The characters of decimal digits are decimal digits, and write the same
/// number.
pub proof fn lemma_digit_chars(digits: Seq<u8>)
    requires
        forall|i: int| 0 <= i < digits.len() ==> is_digit_byte(#[trigger] digits[i]),
    ensures
        all_digits(chars_of(digits)),
{
    assert forall|i: int| 0 <= i < chars_of(digits).len() implies is_digit(
        #[trigger] chars_of(digits)[i],
    ) by {
        assert(is_digit_byte(digits[i]));
    }
}

/// The text of an integer is an integer literal of its value.
proof fn lemma_integer_literal(n: Number)
    requires
        n.valid(),
        n.is_integer(),
    ensures
        i64_literal(chars_of(n.text())) == Some(n.integer() as i64),
{
    let s = chars_of(n.text());
    lemma_digit_chars(n.whole);
    assert(n.text() =~= n.sign_text() + n.whole);
    assert(is_digit_byte(n.whole[0]));
    if n.negative {
        assert(s[0] == '-');
        assert(s.skip(1) =~= chars_of(n.whole));
    } else {
        assert(s =~= chars_of(n.whole));
        assert(is_digit(s[0]));
    }
}

/// After the text of a number the machine pushes the number, and resumes
/// the saved state, on whatever byte may follow a value.
pub proof fn lemma_reads_number(m: Machine, n: Number)
    requires
        ready(m),
        n.valid(),
    ensures
        m.run(n.text()) matches Ok(after) && alike_after(after, returned(m, n.value(), 1)),
{
    lemma_reads_number_text(m, n);
    let x = reading(m, end_state(n), n.text());
    let r = returned(m, n.value(), 1);
    assert(x.buffers.raw =~= chars_of(n.text()));
    assert(x.stack.drop_last() =~= m.stack);
    if n.is_integer() {
        lemma_integer_literal(n);
    }
    assert forall|cat: u8, ch: u8| follows(cat) implies #[trigger] x.step(cat, ch) == r.step(
        cat,
        ch,
    ) by {
        lemma_rows_number_end(cat);
        if n.is_integer() {
            lemma_step_reduce(x, cat, ch, false, A_INT);
            let after = x.acted(A_INT, ch)->Ok_0;
            assert(after.resumed() == r);
        } else {
            lemma_step_reduce(x, cat, ch, false, A_FLOAT);
            let after = x.acted(A_FLOAT, ch)->Ok_0;
            assert(after.resumed() == r);
        }
    }
}

} // verus!
