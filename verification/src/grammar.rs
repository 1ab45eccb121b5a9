//! The decoder reads the documents of the grammar, and nothing else: decoding
//! the text of a valid document gives the value that the document denotes,
//! and whatever decodes is the text of a valid document.

use vstd::prelude::*;
use crate::decoder::outcome;
use crate::document::{byte_of, Doc, is_blank, items_saves, items_text, items_value};
use crate::grammar::following::{lemma_run_tracks, lemma_trailed, trail_of};
use crate::grammar::nesting::lemma_reads;
use crate::grammar::rows::{lemma_categories, lemma_rows_blank, lemma_rows_key};
use crate::grammar::runs::{
    lemma_run_blank, lemma_run_concat, lemma_run_one, lemma_run_push, lemma_step_shift, returned,
};
use crate::machine::{decode, END_BYTE, lemma_end_byte_is_immaterial, Machine};
use crate::tables::{A_NONE, C_SPACE, category_of, end, S_START, transition};
use crate::trail::{docs_text, Place, places_text, places_values, trailed};
use crate::value::{Fault, Json, JsonError, Value};

pub mod following;
pub mod literals;
pub mod nesting;
pub mod numbers;
pub mod rows;
pub mod runs;
pub mod strings;

verus! {

/// Decoding the text of a valid document gives the value that the document
/// denotes. Whitespace may stand wherever the grammar allows it, a string may
/// use every escape, and of two members with one key the later is kept.
pub proof fn lemma_decode_valid(d: Doc)
    requires
        d.valid(),
    ensures
        decode(d.text()) == Ok::<Json, Fault>(d.value()),
{
    lemma_control_stack_use(d);
}

/// While it decodes a valid document, the decoder saves one state on the
/// control stack for each value that begins and for each `\u` escape, and
/// resumes each of them: at the end as many states were resumed as saved, the
/// control stack is empty again, and the one value on the value stack is the
/// document's.
pub proof fn lemma_control_stack_use(d: Doc)
    requires
        d.valid(),
    ensures
        Machine::initial().run(d.text()) matches Ok(m) && m.ended() matches Ok(end) && {
            &&& end.state == S_START
            &&& end.pushes == d.saves()
            &&& end.pops == d.saves()
            &&& end.stack.len() == 0
            &&& end.buffers.values == seq![d.value()]
        },
{
    let m0 = Machine::initial();
    lemma_reads(m0, d);
    lemma_rows_key();
    lemma_rows_blank(S_START);
    let after = m0.run(d.text())->Ok_0;
    let r = returned(m0, d.value(), d.saves());
    assert(after.step(C_SPACE, END_BYTE) == r.step(C_SPACE, END_BYTE));
    lemma_step_shift(r, C_SPACE, END_BYTE, false, A_NONE, S_START);
    assert(r.buffers.values =~= seq![d.value()]);
}

/// An input of whitespace alone, the empty input too, holds no document.
pub proof fn lemma_blank_has_no_document(blank: Seq<u8>)
    requires
        is_blank(blank),
    ensures
        decode(blank) == Err::<Json, Fault>(Fault::NoObjects),
{
    let m0 = Machine::initial();
    lemma_run_blank(m0, blank);
    lemma_rows_blank(S_START);
    lemma_step_shift(m0, C_SPACE, END_BYTE, false, A_NONE, S_START);
}

/// Two valid documents with whitespace between them are one document too
/// many.
pub proof fn lemma_two_documents(first: Doc, blank: Seq<u8>, second: Doc)
    requires
        first.valid(),
        second.valid(),
        is_blank(blank),
        blank.len() >= 1,
    ensures
        decode(first.text() + blank + second.text()) == Err::<Json, Fault>(
            Fault::MultipleObjects,
        ),
{
    let m0 = Machine::initial();
    lemma_rows_key();
    lemma_rows_blank(S_START);
    lemma_categories();
    // The first document, and the whitespace that attaches it.
    lemma_reads(m0, first);
    let x = m0.run(first.text())->Ok_0;
    let r = returned(m0, first.value(), first.saves());
    let b = blank[0];
    assert(b == 0x20 || b == 0x09 || b == 0x0A || b == 0x0D);
    assert(x.step(category_of(b), b) == r.step(category_of(b), b));
    lemma_step_shift(r, category_of(b), b, false, A_NONE, S_START);
    lemma_run_one(x, b);
    assert(is_blank(blank.skip(1))) by {
        assert forall|i: int| 0 <= i < blank.skip(1).len() implies {
            let c = #[trigger] blank.skip(1)[i];
            c == 0x20 || c == 0x09 || c == 0x0A || c == 0x0D
        } by {
            assert(blank.skip(1)[i] == blank[i + 1]);
        }
    }
    lemma_run_blank(r, blank.skip(1));
    lemma_run_concat(x, seq![b], blank.skip(1));
    assert(seq![b] + blank.skip(1) =~= blank);
    lemma_run_concat(m0, first.text(), blank);
    // The second document, and the end of the input.
    lemma_reads(r, second);
    lemma_run_concat(m0, first.text() + blank, second.text());
    let y = r.run(second.text())->Ok_0;
    let r2 = returned(r, second.value(), second.saves());
    assert(y.step(C_SPACE, END_BYTE) == r2.step(C_SPACE, END_BYTE));
    lemma_step_shift(r2, C_SPACE, END_BYTE, false, A_NONE, S_START);
}

/// Arrays nested `depth` deep, the innermost empty: `[[[]]]` for 3.
pub open spec fn nest(depth: nat) -> Doc
    decreases depth,
{
    if depth <= 1 {
        Doc::Array { blank: Seq::empty(), items: Seq::empty() }
    } else {
        Doc::Array { blank: Seq::empty(), items: seq![nest((depth - 1) as nat)] }
    }
}

/// `depth` opening brackets, then as many closing ones.
pub open spec fn nest_text(depth: nat) -> Seq<u8> {
    Seq::new(depth, |i: int| byte_of('[')) + Seq::new(depth, |i: int| byte_of(']'))
}

/// Lists nested `depth` deep, the innermost empty.
pub open spec fn nest_value(depth: nat) -> Json
    decreases depth,
{
    if depth <= 1 {
        Json::List(Seq::empty())
    } else {
        Json::List(seq![nest_value((depth - 1) as nat)])
    }
}

/// Nested arrays are a valid document: their text is the brackets, their
/// value the nested lists, and they begin as many values as they are deep.
pub proof fn lemma_nest(depth: nat)
    requires
        depth >= 1,
    ensures
        nest(depth).valid(),
        nest(depth).text() == nest_text(depth),
        nest(depth).value() == nest_value(depth),
        nest(depth).saves() == depth,
    decreases depth,
{
    if depth <= 1 {
        assert(nest(depth).text() =~= nest_text(depth));
        assert(items_value(Seq::<Doc>::empty()) =~= Seq::<Json>::empty());
        assert(items_saves(Seq::<Doc>::empty()) == 0);
    } else {
        let inner = nest((depth - 1) as nat);
        let items = seq![inner];
        lemma_nest((depth - 1) as nat);
        assert(items.drop_last() =~= Seq::<Doc>::empty());
        assert(items.last() == inner);
        assert(items_value(items.drop_last()) =~= Seq::<Json>::empty());
        assert(items_value(items) =~= seq![inner.value()]);
        assert(items_saves(items.drop_last()) == 0);
        assert(items_saves(items) == inner.saves());
        assert(items_text(items) == inner.text());
        assert(nest(depth).text() =~= nest_text(depth));
    }
}

/// Arrays nested to any depth decode, to lists nested as deep, and the
/// decoder saves exactly `depth` states on the control stack and resumes
/// exactly `depth`.
pub proof fn lemma_nested_arrays(depth: nat)
    requires
        depth >= 1,
    ensures
        decode(nest_text(depth)) == Ok::<Json, Fault>(nest_value(depth)),
        Machine::initial().run(nest_text(depth)) matches Ok(m) && m.ended() matches Ok(end)
            && end.pushes == depth && end.pops == depth,
{
    lemma_nest(depth);
    lemma_control_stack_use(nest(depth));
}

/// Decoding depends on the input alone: two decodes of equal inputs give
/// equal values, or fail alike.
pub proof fn lemma_decode_is_a_function(
    first: Seq<u8>,
    second: Seq<u8>,
    r1: Result<Value, JsonError>,
    r2: Result<Value, JsonError>,
)
    requires
        first == second,
        outcome(r1) == decode(first),
        outcome(r2) == decode(second),
    ensures
        outcome(r1) == outcome(r2),
{
}

/// The items' values, one for each item.
proof fn lemma_items_value(items: Seq<Doc>)
    ensures
        items_value(items).len() == items.len(),
        forall|i: int|
            0 <= i < items.len() ==> #[trigger] items_value(items)[i] == items[i].value(),
    decreases items.len(),
{
    if items.len() > 0 {
        lemma_items_value(items.drop_last());
        assert forall|i: int| 0 <= i < items.len() implies #[trigger] items_value(items)[i]
            == items[i].value() by {
            if i < items.len() - 1 {
                assert(items.drop_last()[i] == items[i]);
            }
        }
    }
}

/// The document that an input spells out, where the input decodes: what the
/// decoder has read at the end of the input, and the whitespace after it.
pub open spec fn document_of(input: Seq<u8>) -> Doc {
    let t = trail_of(input.push(0x20));
    trailed(t.places[0]->Top_docs[0], t.lead.drop_last())
}

/// Whatever decodes is a valid document: an input that decodes to a value is
/// the text of a valid document, and the value is what that document
/// denotes. With `lemma_decode_valid` this says that the inputs that decode
/// are the texts of the valid documents, and no others.
pub proof fn lemma_decoded_is_document(input: Seq<u8>)
    requires
        decode(input) is Ok,
    ensures
        document_of(input).valid(),
        document_of(input).text() == input,
        document_of(input).value() == decode(input)->Ok_0,
{
    let m0 = Machine::initial();
    let space = 0x20u8;
    let m = m0.run(input)->Ok_0;
    lemma_categories();
    lemma_end_byte_is_immaterial(m, space);
    lemma_run_push(m0, input, space);
    let longer = input.push(space);
    let m2 = m0.run(longer)->Ok_0;
    lemma_run_tracks(input);
    lemma_run_tracks(longer);
    let t1 = trail_of(input);
    let t2 = trail_of(longer);
    assert(longer.drop_last() =~= input);
    assert(t2 == t1.fed(space));
    // At the end nothing is open: one document, and whitespace after it.
    assert(t2.inner is Idle);
    assert(t2.place() is Top);
    assert(t2.places.len() == 1);
    let docs = t2.places[0]->Top_docs;
    assert(t2.places.drop_last() =~= Seq::<Place>::empty());
    assert(places_values(t2.places.drop_last()) =~= Seq::<Json>::empty());
    assert(places_text(t2.places.drop_last()) =~= Seq::<u8>::empty());
    assert(t2.values() =~= items_value(docs));
    lemma_items_value(docs);
    assert(docs.len() == 1);
    let d = docs[0];
    assert(docs.drop_last() =~= Seq::<Doc>::empty());
    assert(docs_text(docs.drop_last()) =~= Seq::<u8>::empty());
    assert(t2.text() =~= d.text() + t2.lead);
    // The whitespace ends with the space that stands for the end of input.
    let before = if transition(t1.state(), category_of(space)) is Reduce {
        t1.reduced()
    } else {
        t1
    };
    assert(t2 == before.shifted(space));
    assert(before.inner is Idle);
    assert(t2.lead.len() >= 1 && t2.lead.last() == space);
    lemma_trailed(d, t2.lead.drop_last());
    assert(is_blank(t2.lead.drop_last())) by {
        assert forall|i: int| 0 <= i < t2.lead.drop_last().len() implies {
            let x = #[trigger] t2.lead.drop_last()[i];
            x == 0x20 || x == 0x09 || x == 0x0A || x == 0x0D
        } by {
            assert(t2.lead.drop_last()[i] == t2.lead[i]);
        }
    }
    assert(d.text() + t2.lead.drop_last() =~= input) by {
        assert((d.text() + t2.lead.drop_last()).push(space) =~= d.text() + t2.lead);
        assert(longer.drop_last() =~= input);
    }
}

/// The inputs that decode are the texts of the valid documents: an input
/// that decodes spells a valid document out and decodes to its value, and
/// the text of a valid document decodes to the value of the document.
pub proof fn lemma_decodes_documents(input: Seq<u8>)
    ensures
        decode(input) matches Ok(v) ==> {
            &&& document_of(input).valid()
            &&& document_of(input).text() == input
            &&& document_of(input).value() == v
        },
        forall|d: Doc|
            #![trigger d.text()]
            d.valid() && d.text() == input ==> decode(input) == Ok::<Json, Fault>(d.value()),
{
    if decode(input) is Ok {
        lemma_decoded_is_document(input);
    }
    assert forall|d: Doc| #![trigger d.text()] d.valid() && d.text() == input implies decode(input)
        == Ok::<Json, Fault>(d.value()) by {
        lemma_decode_valid(d);
    }
}

} // verus!
