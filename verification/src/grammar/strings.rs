//! The machine reads strings.

use vstd::prelude::*;
use crate::document::{
    byte_of, chars_of, Doc, Piece, pieces_saves, pieces_text, pieces_valid, pieces_value,
};
use crate::grammar::rows::{
    lemma_categories, lemma_plain_category, lemma_rows_begin, lemma_rows_hex, lemma_rows_hex_end,
    lemma_rows_key, lemma_rows_outside, lemma_rows_plain, lemma_rows_string, lemma_short_categories,
};
use crate::grammar::runs::{
    alike, begun, done, lemma_done_returns, lemma_feed_begin, lemma_feed_go, lemma_feed_raw,
    lemma_run_concat, lemma_run_one, lemma_run_push, lemma_step_reduce, lemma_step_reject,
    lemma_step_shift, ready, ready_for_key, returned,
};
use crate::machine::{Buffers, char_of, Machine};
use crate::tables::{
    A_ESC, A_SHORT, A_STRING, A_UNICODE, act, C_CTRL, C_WS, category_of, entry, NUM_CATEGORIES,
    resume_of, S_DONE, S_ESCAPE, S_HEX1, S_HEX2, S_HEX3, S_HEX4, S_HEX_END, S_STRING,
};
use crate::text::hex_digit;
use crate::value::{Fault, Json};

verus! {

/// The configuration inside a string begun in `m`: with `raw` read so far,
/// and `saves` escapes resolved through the control stack.
pub open spec fn in_string(m: Machine, raw: Seq<char>, saves: nat) -> Machine {
    Machine {
        state: S_STRING,
        stack: m.stack.push(resume_of(m.state)),
        buffers: Buffers { values: m.buffers.values, raw, escape: Seq::empty() },
        pushes: m.pushes + 1 + saves,
        pops: m.pops + saves,
    }
}

/// The configuration inside a string after one more piece.
pub open spec fn piece_done(c: Machine, p: Piece) -> Machine {
    Machine {
        buffers: Buffers { raw: c.buffers.raw.push(p.value()), ..c.buffers },
        pushes: c.pushes + p.saves(),
        pops: c.pops + p.saves(),
        ..c
    }
}

/// A byte that the state adds to the escape digits.
proof fn lemma_feed_digit(m: Machine, byte: u8, next: u8)
    requires
        entry(m.state, category_of(byte)) == act(A_ESC, next),
    ensures
        m.feed(byte) == Ok::<Machine, Fault>(
            Machine {
                state: next,
                buffers: Buffers { escape: m.buffers.escape.push(char_of(byte)), ..m.buffers },
                ..m
            },
        ),
{
    lemma_step_shift(m, category_of(byte), byte, false, A_ESC, next);
}

/// The category of a hexadecimal digit.
proof fn lemma_hex_category(b: u8)
    requires
        hex_digit(char_of(b)) is Some,
    ensures
        category_of(b) < NUM_CATEGORIES,
        category_of(b) != C_WS,
        category_of(b) != C_CTRL,
{
    assert(b >= 0x20);
    lemma_plain_category(b);
}

/// A byte that stands for itself.
proof fn lemma_reads_plain(c: Machine, b: u8)
    requires
        c.state == S_STRING,
        Piece::Plain(b).valid(),
    ensures
        c.run(Piece::Plain(b).text()) == Ok::<Machine, Fault>(piece_done(c, Piece::Plain(b))),
{
    lemma_plain_category(b);
    lemma_rows_plain(category_of(b));
    lemma_feed_raw(c, b, S_STRING);
    assert(c.buffers.raw + chars_of(seq![b]) =~= c.buffers.raw.push(char_of(b)));
}

/// What follows the backslash of `\"`, `\\`, `\/` or a one-letter escape.
proof fn lemma_reads_escaped(c: Machine, p: Piece)
    requires
        c.state == S_STRING,
        c.buffers.escape == Seq::<char>::empty(),
        p is Quoted || p is Short,
        p.valid(),
    ensures
        c.run(p.text()) == Ok::<Machine, Fault>(piece_done(c, p)),
{
    let slash = byte_of('\\');
    lemma_rows_string();
    lemma_categories();
    lemma_short_categories();
    lemma_feed_go(c, slash, S_ESCAPE);
    lemma_run_one(c, slash);
    let x = Machine { state: S_ESCAPE, ..c };
    match p {
        Piece::Quoted(b) => {
            lemma_feed_raw(x, b, S_STRING);
            assert(x.buffers.raw + chars_of(seq![b]) =~= x.buffers.raw.push(char_of(b)));
            lemma_run_push(c, seq![slash], b);
            assert(seq![slash].push(b) =~= p.text());
        },
        Piece::Short(b) => {
            lemma_step_shift(x, category_of(b), b, false, A_SHORT, S_STRING);
            lemma_run_push(c, seq![slash], b);
            assert(seq![slash].push(b) =~= p.text());
        },
        _ => {},
    }
}

/// The configuration after `\u` and its four digits.
pub open spec fn escape_read(c: Machine, p: Piece) -> Machine {
    Machine { state: S_HEX_END, buffers: Buffers { escape: p.digits(), ..c.buffers }, ..c }
}

/// `\u` and its four digits.
proof fn lemma_reads_unicode(c: Machine, p: Piece)
    requires
        c.state == S_STRING,
        c.buffers.escape == Seq::<char>::empty(),
        p is Unicode,
        p.valid(),
    ensures
        c.run(p.text()) == Ok::<Machine, Fault>(escape_read(c, p)),
        alike(escape_read(c, p), piece_done(c, p)),
{
    let slash = byte_of('\\');
    let u = byte_of('u');
    lemma_rows_string();
    lemma_categories();
    if let Piece::Unicode(d1, d2, d3, d4) = p {
        let digits = p.digits();
        assert(digits[0] == char_of(d1) && digits[1] == char_of(d2) && digits[2] == char_of(d3)
            && digits[3] == char_of(d4));
        lemma_hex_category(d1);
        lemma_hex_category(d2);
        lemma_hex_category(d3);
        lemma_hex_category(d4);
        lemma_rows_hex(category_of(d1));
        lemma_rows_hex(category_of(d2));
        lemma_rows_hex(category_of(d3));
        lemma_rows_hex(category_of(d4));
        let x0 = Machine { state: S_ESCAPE, ..c };
        let x1 = Machine { state: S_HEX1, ..c };
        let x2 = Machine {
            state: S_HEX2,
            buffers: Buffers { escape: seq![char_of(d1)], ..c.buffers },
            ..c
        };
        let x3 = Machine {
            state: S_HEX3,
            buffers: Buffers { escape: seq![char_of(d1), char_of(d2)], ..c.buffers },
            ..c
        };
        let x4 = Machine {
            state: S_HEX4,
            buffers: Buffers { escape: seq![char_of(d1), char_of(d2), char_of(d3)], ..c.buffers },
            ..c
        };
        let x5 = escape_read(c, p);
        lemma_feed_go(c, slash, S_ESCAPE);
        lemma_feed_go(x0, u, S_HEX1);
        lemma_feed_digit(x1, d1, S_HEX2);
        lemma_feed_digit(x2, d2, S_HEX3);
        lemma_feed_digit(x3, d3, S_HEX4);
        lemma_feed_digit(x4, d4, S_HEX_END);
        assert(x1.buffers.escape.push(char_of(d1)) =~= x2.buffers.escape);
        assert(x2.buffers.escape.push(char_of(d2)) =~= x3.buffers.escape);
        assert(x3.buffers.escape.push(char_of(d3)) =~= x4.buffers.escape);
        assert(x4.buffers.escape.push(char_of(d4)) =~= digits);
        let t1 = seq![slash];
        let t2 = seq![slash, u];
        let t3 = seq![slash, u, d1];
        let t4 = seq![slash, u, d1, d2];
        let t5 = seq![slash, u, d1, d2, d3];
        lemma_run_one(c, slash);
        lemma_run_push(c, t1, u);
        assert(t1.push(u) =~= t2);
        lemma_run_push(c, t2, d1);
        assert(t2.push(d1) =~= t3);
        lemma_run_push(c, t3, d2);
        assert(t3.push(d2) =~= t4);
        lemma_run_push(c, t4, d3);
        assert(t4.push(d3) =~= t5);
        lemma_run_push(c, t5, d4);
        assert(t5.push(d4) =~= p.text());
        let target = piece_done(c, p);
        lemma_rows_key();
        assert forall|cat: u8, ch: u8| #[trigger] x5.step(cat, ch) == target.step(cat, ch) by {
            lemma_rows_hex_end(cat);
            if cat < NUM_CATEGORIES {
                lemma_step_reduce(x5, cat, ch, true, A_UNICODE);
                let after = x5.saved(true).acted(A_UNICODE, ch)->Ok_0;
                assert(after.stack.drop_last() =~= c.stack);
                assert(after.resumed() == target);
            } else {
                lemma_rows_outside(S_STRING, cat);
                lemma_step_reject(x5, cat, ch);
                lemma_step_reject(target, cat, ch);
            }
        }
    }
}

/// One piece of a string, from a configuration that does what `c` does.
proof fn lemma_reads_piece(x: Machine, c: Machine, p: Piece)
    requires
        alike(x, c),
        c.state == S_STRING,
        c.buffers.escape == Seq::<char>::empty(),
        p.valid(),
    ensures
        x.run(p.text()) matches Ok(after) && alike(after, piece_done(c, p)),
{
    let first = p.text()[0];
    let others = p.text().skip(1);
    assert(seq![first] + others =~= p.text());
    // On its first byte `x` does what `c` does; from there on they are one.
    assert(x.step(category_of(first), first) == c.step(category_of(first), first));
    lemma_run_one(x, first);
    lemma_run_one(c, first);
    lemma_run_concat(x, seq![first], others);
    lemma_run_concat(c, seq![first], others);
    match p {
        Piece::Plain(b) => {
            lemma_reads_plain(c, b);
        },
        Piece::Unicode(..) => {
            lemma_reads_unicode(c, p);
        },
        _ => {
            lemma_reads_escaped(c, p);
        },
    }
}

/// The opening quote and the first `k` pieces of a string.
proof fn lemma_reads_pieces(m: Machine, pieces: Seq<Piece>, k: int)
    requires
        ready(m) || ready_for_key(m),
        pieces_valid(pieces),
        0 <= k <= pieces.len(),
    ensures
        m.run(seq![byte_of('"')] + pieces_text(pieces.take(k))) matches Ok(after) && alike(
            after,
            in_string(m, pieces_value(pieces.take(k)), pieces_saves(pieces.take(k))),
        ),
    decreases k,
{
    let quote = byte_of('"');
    if k == 0 {
        lemma_categories();
        lemma_rows_key();
        if ready(m) {
            lemma_rows_begin(m.state);
        }
        lemma_feed_begin(m, quote, S_STRING);
        lemma_run_one(m, quote);
        assert(seq![quote] + pieces_text(pieces.take(0)) =~= seq![quote]);
        assert(begun(m, S_STRING) == in_string(m, Seq::empty(), 0));
        assert(pieces_value(pieces.take(0)) =~= Seq::<char>::empty());
    } else {
        lemma_reads_pieces(m, pieces, k - 1);
        let front = pieces.take(k - 1);
        let p = pieces[k - 1];
        assert(pieces.take(k).drop_last() =~= front);
        assert(pieces.take(k).last() == p);
        let x = m.run(seq![quote] + pieces_text(front))->Ok_0;
        let c = in_string(m, pieces_value(front), pieces_saves(front));
        lemma_reads_piece(x, c, p);
        lemma_run_concat(m, seq![quote] + pieces_text(front), p.text());
        assert((seq![quote] + pieces_text(front)) + p.text() =~= seq![quote] + pieces_text(
            pieces.take(k),
        ));
        assert(piece_done(c, p) == in_string(
            m,
            pieces_value(pieces.take(k)),
            pieces_saves(pieces.take(k)),
        ));
    }
}

/// After the text of a string the machine has pushed the string, and resumes
/// the saved state on whatever byte comes next.
pub proof fn lemma_reads_text(m: Machine, pieces: Seq<Piece>)
    requires
        ready(m) || ready_for_key(m),
        pieces_valid(pieces),
    ensures
        m.run(Doc::Text(pieces).text()) matches Ok(after) && alike(
            after,
            returned(m, Doc::Text(pieces).value(), Doc::Text(pieces).saves()),
        ),
{
    let quote = byte_of('"');
    let inside = seq![quote] + pieces_text(pieces);
    lemma_reads_pieces(m, pieces, pieces.len() as int);
    assert(pieces.take(pieces.len() as int) =~= pieces);
    let x = m.run(inside)->Ok_0;
    let c = in_string(m, pieces_value(pieces), pieces_saves(pieces));
    lemma_categories();
    lemma_rows_string();
    assert(x.step(category_of(quote), quote) == c.step(category_of(quote), quote));
    lemma_step_shift(c, category_of(quote), quote, false, A_STRING, S_DONE);
    let saves = 1 + pieces_saves(pieces);
    let d = done(m, Json::String(pieces_value(pieces)), saves);
    assert(c.feed(quote) == Ok::<Machine, Fault>(d));
    lemma_run_push(m, inside, quote);
    assert(inside.push(quote) =~= Doc::Text(pieces).text());
    lemma_done_returns(m, Json::String(pieces_value(pieces)), saves);
}

} // verus!
