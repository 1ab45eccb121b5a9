//! What the tables hold, row by row: the transitions that the proofs about
//! the grammar go by.

use vstd::prelude::*;
use crate::document::{byte_of, is_digit_byte};
use crate::machine::begins_value;
use crate::tables::{
    A_APPEND, A_BIND, A_ESC, A_FALSE, A_FLOAT, A_INT, A_LIST, A_NONE, A_NULL, A_OBJECT, A_RAW,
    A_SHORT, A_STRING, A_TRUE, A_UNICODE, act, begin, C_BACKSLASH, C_COLON, C_COMMA, C_CTRL,
    C_DIGIT, C_DOT, C_LBRACE, C_LBRACK, C_LOW_A, C_LOW_B, C_LOW_E, C_LOW_F, C_LOW_L, C_LOW_N,
    C_LOW_R, C_LOW_S, C_LOW_T, C_LOW_U, C_MINUS, C_PLUS, C_QUOTE, C_RBRACE, C_RBRACK, C_SLASH,
    C_SPACE, C_UP_E, C_WS, C_ZERO, category_of, end, Entry, entry, go, NUM_CATEGORIES, resume_of,
    S_ARRAY_ITEM, S_ARRAY_NEXT, S_ARRAY_OPEN, S_ARRAY_REST, S_DONE, S_ESCAPE, S_EXP_DIGITS,
    S_EXP_SIGN, S_EXPONENT, S_F, S_FA, S_FAL, S_FALS, S_FRACTION, S_HEX1, S_HEX2, S_HEX3, S_HEX4,
    S_HEX_END, S_INTEGER, S_MINUS, S_N, S_NU, S_NUL, S_OBJECT_COLON, S_OBJECT_ITEM, S_OBJECT_KEY,
    S_OBJECT_NEXT, S_OBJECT_OPEN, S_OBJECT_REST, S_POINT, S_START, S_STRING, S_T, S_TR, S_TRU,
    S_ZERO,
};

verus! {

/// The states in which whitespace is passed over.
pub open spec fn skips_blank(state: u8) -> bool {
    ||| state == S_START
    ||| state == S_ARRAY_OPEN
    ||| state == S_ARRAY_NEXT
    ||| state == S_ARRAY_REST
    ||| state == S_OBJECT_OPEN
    ||| state == S_OBJECT_NEXT
    ||| state == S_OBJECT_KEY
    ||| state == S_OBJECT_COLON
    ||| state == S_OBJECT_REST
}

/// Whitespace between values is passed over.
pub proof fn lemma_rows_blank(state: u8)
    requires
        skips_blank(state),
    ensures
        entry(state, C_SPACE) == go(state),
        entry(state, C_WS) == go(state),
{
    reveal(entry);
}

/// Where a value may begin, each kind of value begins on its first byte.
pub proof fn lemma_rows_begin(state: u8)
    requires
        begins_value(state),
    ensures
        entry(state, C_LBRACK) == begin(A_LIST, S_ARRAY_OPEN),
        entry(state, C_LBRACE) == begin(A_OBJECT, S_OBJECT_OPEN),
        entry(state, C_QUOTE) == begin(A_NONE, S_STRING),
        entry(state, C_MINUS) == begin(A_RAW, S_MINUS),
        entry(state, C_ZERO) == begin(A_RAW, S_ZERO),
        entry(state, C_DIGIT) == begin(A_RAW, S_INTEGER),
        entry(state, C_LOW_T) == begin(A_NONE, S_T),
        entry(state, C_LOW_F) == begin(A_NONE, S_F),
        entry(state, C_LOW_N) == begin(A_NONE, S_N),
{
    reveal(entry);
}

/// Where a key may begin, a string begins; and the states that are saved.
pub proof fn lemma_rows_key()
    ensures
        entry(S_OBJECT_OPEN, C_QUOTE) == begin(A_NONE, S_STRING),
        entry(S_OBJECT_NEXT, C_QUOTE) == begin(A_NONE, S_STRING),
        resume_of(S_OBJECT_OPEN) == S_OBJECT_KEY,
        resume_of(S_OBJECT_NEXT) == S_OBJECT_KEY,
        resume_of(S_START) == S_START,
        resume_of(S_ARRAY_OPEN) == S_ARRAY_ITEM,
        resume_of(S_ARRAY_NEXT) == S_ARRAY_ITEM,
        resume_of(S_OBJECT_COLON) == S_OBJECT_ITEM,
        resume_of(S_HEX_END) == S_STRING,
{
    reveal(entry);
}

/// The letters of `true`, `false` and `null`.
pub proof fn lemma_rows_literal()
    ensures
        entry(S_T, C_LOW_R) == go(S_TR),
        entry(S_TR, C_LOW_U) == go(S_TRU),
        entry(S_TRU, C_LOW_E) == act(A_TRUE, S_DONE),
        entry(S_F, C_LOW_A) == go(S_FA),
        entry(S_FA, C_LOW_L) == go(S_FAL),
        entry(S_FAL, C_LOW_S) == go(S_FALS),
        entry(S_FALS, C_LOW_E) == act(A_FALSE, S_DONE),
        entry(S_N, C_LOW_U) == go(S_NU),
        entry(S_NU, C_LOW_L) == go(S_NUL),
        entry(S_NUL, C_LOW_L) == act(A_NULL, S_DONE),
{
    reveal(entry);
}

/// A complete value resumes the saved state on every byte.
pub proof fn lemma_rows_done(cat: u8)
    ensures
        entry(S_DONE, cat) == (if cat < NUM_CATEGORIES {
            end(A_NONE)
        } else {
            Entry::Reject
        }),
{
    reveal(entry);
}

/// No state has a transition on what is no category.
pub proof fn lemma_rows_outside(state: u8, cat: u8)
    requires
        cat >= NUM_CATEGORIES,
    ensures
        entry(state, cat) == Entry::Reject,
{
    reveal(entry);
}

/// The categories of the bytes that the grammar names.
pub proof fn lemma_categories()
    ensures
        category_of(byte_of(' ')) == C_SPACE,
        category_of(0x09) == C_WS,
        category_of(0x0A) == C_WS,
        category_of(0x0D) == C_WS,
        category_of(byte_of('{')) == C_LBRACE,
        category_of(byte_of('}')) == C_RBRACE,
        category_of(byte_of('[')) == C_LBRACK,
        category_of(byte_of(']')) == C_RBRACK,
        category_of(byte_of(',')) == C_COMMA,
        category_of(byte_of(':')) == C_COLON,
        category_of(byte_of('"')) == C_QUOTE,
        category_of(byte_of('\\')) == C_BACKSLASH,
        category_of(byte_of('/')) == C_SLASH,
        category_of(byte_of('-')) == C_MINUS,
        category_of(byte_of('+')) == C_PLUS,
        category_of(byte_of('.')) == C_DOT,
        category_of(byte_of('0')) == C_ZERO,
        category_of(byte_of('a')) == C_LOW_A,
        category_of(byte_of('e')) == C_LOW_E,
        category_of(byte_of('E')) == C_UP_E,
        category_of(byte_of('f')) == C_LOW_F,
        category_of(byte_of('l')) == C_LOW_L,
        category_of(byte_of('n')) == C_LOW_N,
        category_of(byte_of('r')) == C_LOW_R,
        category_of(byte_of('s')) == C_LOW_S,
        category_of(byte_of('t')) == C_LOW_T,
        category_of(byte_of('u')) == C_LOW_U,
{
}

/// The categories of the bytes that may follow a value.
pub open spec fn follows(cat: u8) -> bool {
    ||| cat == C_SPACE
    ||| cat == C_WS
    ||| cat == C_COMMA
    ||| cat == C_COLON
    ||| cat == C_RBRACK
    ||| cat == C_RBRACE
}

/// The bytes that go on with a number.
pub proof fn lemma_rows_number()
    ensures
        entry(S_MINUS, C_ZERO) == act(A_RAW, S_ZERO),
        entry(S_MINUS, C_DIGIT) == act(A_RAW, S_INTEGER),
        entry(S_ZERO, C_DOT) == act(A_RAW, S_POINT),
        entry(S_ZERO, C_LOW_E) == act(A_RAW, S_EXPONENT),
        entry(S_ZERO, C_UP_E) == act(A_RAW, S_EXPONENT),
        entry(S_INTEGER, C_ZERO) == act(A_RAW, S_INTEGER),
        entry(S_INTEGER, C_DIGIT) == act(A_RAW, S_INTEGER),
        entry(S_INTEGER, C_DOT) == act(A_RAW, S_POINT),
        entry(S_INTEGER, C_LOW_E) == act(A_RAW, S_EXPONENT),
        entry(S_INTEGER, C_UP_E) == act(A_RAW, S_EXPONENT),
        entry(S_POINT, C_ZERO) == act(A_RAW, S_FRACTION),
        entry(S_POINT, C_DIGIT) == act(A_RAW, S_FRACTION),
        entry(S_FRACTION, C_ZERO) == act(A_RAW, S_FRACTION),
        entry(S_FRACTION, C_DIGIT) == act(A_RAW, S_FRACTION),
        entry(S_FRACTION, C_LOW_E) == act(A_RAW, S_EXPONENT),
        entry(S_FRACTION, C_UP_E) == act(A_RAW, S_EXPONENT),
        entry(S_EXPONENT, C_PLUS) == act(A_RAW, S_EXP_SIGN),
        entry(S_EXPONENT, C_MINUS) == act(A_RAW, S_EXP_SIGN),
        entry(S_EXPONENT, C_ZERO) == act(A_RAW, S_EXP_DIGITS),
        entry(S_EXPONENT, C_DIGIT) == act(A_RAW, S_EXP_DIGITS),
        entry(S_EXP_SIGN, C_ZERO) == act(A_RAW, S_EXP_DIGITS),
        entry(S_EXP_SIGN, C_DIGIT) == act(A_RAW, S_EXP_DIGITS),
        entry(S_EXP_DIGITS, C_ZERO) == act(A_RAW, S_EXP_DIGITS),
        entry(S_EXP_DIGITS, C_DIGIT) == act(A_RAW, S_EXP_DIGITS),
{
    reveal(entry);
}

/// What may follow a value ends a number that is complete.
pub proof fn lemma_rows_number_end(cat: u8)
    requires
        follows(cat),
    ensures
        entry(S_ZERO, cat) == end(A_INT),
        entry(S_INTEGER, cat) == end(A_INT),
        entry(S_FRACTION, cat) == end(A_FLOAT),
        entry(S_EXP_DIGITS, cat) == end(A_FLOAT),
{
    reveal(entry);
}

/// The category of a decimal digit.
pub proof fn lemma_digit_category(b: u8)
    requires
        is_digit_byte(b),
    ensures
        category_of(b) == (if b == byte_of('0') {
            C_ZERO
        } else {
            C_DIGIT
        }),
{
}

/// The closing quote, the backslash, and what may follow a backslash.
pub proof fn lemma_rows_string()
    ensures
        entry(S_STRING, C_QUOTE) == act(A_STRING, S_DONE),
        entry(S_STRING, C_BACKSLASH) == go(S_ESCAPE),
        entry(S_ESCAPE, C_QUOTE) == act(A_RAW, S_STRING),
        entry(S_ESCAPE, C_BACKSLASH) == act(A_RAW, S_STRING),
        entry(S_ESCAPE, C_SLASH) == act(A_RAW, S_STRING),
        entry(S_ESCAPE, C_LOW_U) == go(S_HEX1),
        entry(S_ESCAPE, C_LOW_B) == act(A_SHORT, S_STRING),
        entry(S_ESCAPE, C_LOW_T) == act(A_SHORT, S_STRING),
        entry(S_ESCAPE, C_LOW_N) == act(A_SHORT, S_STRING),
        entry(S_ESCAPE, C_LOW_F) == act(A_SHORT, S_STRING),
        entry(S_ESCAPE, C_LOW_R) == act(A_SHORT, S_STRING),
{
    reveal(entry);
}

/// The categories that a string takes as they are.
pub open spec fn plain(cat: u8) -> bool {
    cat < NUM_CATEGORIES && cat != C_QUOTE && cat != C_BACKSLASH && cat != C_WS && cat != C_CTRL
}

/// A string takes a plain byte as it is.
pub proof fn lemma_rows_plain(cat: u8)
    requires
        plain(cat),
    ensures
        entry(S_STRING, cat) == act(A_RAW, S_STRING),
{
    reveal(entry);
}

/// The four digits after `\u` are taken whatever they are.
pub proof fn lemma_rows_hex(cat: u8)
    requires
        cat < NUM_CATEGORIES,
        cat != C_WS,
        cat != C_CTRL,
    ensures
        entry(S_HEX1, cat) == act(A_ESC, S_HEX2),
        entry(S_HEX2, cat) == act(A_ESC, S_HEX3),
        entry(S_HEX3, cat) == act(A_ESC, S_HEX4),
        entry(S_HEX4, cat) == act(A_ESC, S_HEX_END),
{
    reveal(entry);
}

/// After the four digits every byte has the escape resolved first.
pub proof fn lemma_rows_hex_end(cat: u8)
    ensures
        entry(S_HEX_END, cat) == (if cat < NUM_CATEGORIES {
            Entry::Reduce { save: true, action: A_UNICODE }
        } else {
            Entry::Reject
        }),
{
    reveal(entry);
}

/// The category of a byte from 0x20 up that is neither `"` nor `\`.
pub proof fn lemma_plain_category(b: u8)
    requires
        b >= 0x20,
    ensures
        category_of(b) < NUM_CATEGORIES,
        category_of(b) != C_WS,
        category_of(b) != C_CTRL,
        b != byte_of('"') ==> category_of(b) != C_QUOTE,
        b != byte_of('\\') ==> category_of(b) != C_BACKSLASH,
{
}

/// The categories of the letters of the one-letter escapes.
pub proof fn lemma_short_categories()
    ensures
        category_of(byte_of('b')) == C_LOW_B,
        category_of(byte_of('t')) == C_LOW_T,
        category_of(byte_of('n')) == C_LOW_N,
        category_of(byte_of('f')) == C_LOW_F,
        category_of(byte_of('r')) == C_LOW_R,
{
}

/// What may follow an item of an array, before and after it is appended.
pub proof fn lemma_rows_array()
    ensures
        entry(S_ARRAY_OPEN, C_RBRACK) == go(S_DONE),
        entry(S_ARRAY_ITEM, C_SPACE) == act(A_APPEND, S_ARRAY_REST),
        entry(S_ARRAY_ITEM, C_WS) == act(A_APPEND, S_ARRAY_REST),
        entry(S_ARRAY_ITEM, C_COMMA) == act(A_APPEND, S_ARRAY_NEXT),
        entry(S_ARRAY_ITEM, C_RBRACK) == act(A_APPEND, S_DONE),
        entry(S_ARRAY_ITEM, C_COLON) == Entry::Reject,
        entry(S_ARRAY_ITEM, C_RBRACE) == Entry::Reject,
        entry(S_ARRAY_REST, C_COMMA) == go(S_ARRAY_NEXT),
        entry(S_ARRAY_REST, C_RBRACK) == go(S_DONE),
        entry(S_ARRAY_REST, C_COLON) == Entry::Reject,
        entry(S_ARRAY_REST, C_RBRACE) == Entry::Reject,
{
    reveal(entry);
}

/// What may follow a key, and a value of an object before and after it is bound.
pub proof fn lemma_rows_object()
    ensures
        entry(S_OBJECT_OPEN, C_RBRACE) == go(S_DONE),
        entry(S_OBJECT_KEY, C_COLON) == go(S_OBJECT_COLON),
        entry(S_OBJECT_ITEM, C_SPACE) == act(A_BIND, S_OBJECT_REST),
        entry(S_OBJECT_ITEM, C_WS) == act(A_BIND, S_OBJECT_REST),
        entry(S_OBJECT_ITEM, C_COMMA) == act(A_BIND, S_OBJECT_NEXT),
        entry(S_OBJECT_ITEM, C_RBRACE) == act(A_BIND, S_DONE),
        entry(S_OBJECT_ITEM, C_COLON) == Entry::Reject,
        entry(S_OBJECT_ITEM, C_RBRACK) == Entry::Reject,
        entry(S_OBJECT_REST, C_COMMA) == go(S_OBJECT_NEXT),
        entry(S_OBJECT_REST, C_RBRACE) == go(S_DONE),
        entry(S_OBJECT_REST, C_COLON) == Entry::Reject,
        entry(S_OBJECT_REST, C_RBRACK) == Entry::Reject,
{
    reveal(entry);
}

} // verus!
