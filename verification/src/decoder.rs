//! The decoder that runs: the action executor, the automaton driver, and the
//! entry point that decodes a whole input.

use vstd::prelude::*;
use crate::document::Doc;
use crate::grammar::{document_of, lemma_decodes_documents};
use crate::machine::{
    applicable, Buffers, decode, END_BYTE, lemma_transition_keeps_wf, Machine, perform,
    short_escape_text,
};
use crate::tables::{
    A_APPEND, A_BIND, A_ESC, A_FALSE, A_FLOAT, A_INT, A_LIST, A_NONE, A_NULL, A_OBJECT, A_RAW,
    A_SHORT, A_STRING, A_TRUE, C_SPACE, category, lemma_reductions_end, lookup, NUM_CATEGORIES, POP,
    rank, REJECT, resume, S_START, SAVE,
};
use crate::text::{parse_int, resolve_short, resolve_unicode, text_after, text_of};
use crate::value::{
    all_wf, bind, Fault, Json, JsonError, lemma_bindings_empty, lemma_list_view, lemma_models_push,
    lemma_models_take, lemma_object_view, models, Value,
};

verus! {

/// The buffers as the machine sees them.
pub open spec fn buffers_of(values: Seq<Value>, raw: Seq<char>, escape: Seq<char>) -> Buffers {
    Buffers { values: models(values), raw, escape }
}

/// The outcome of a decode as the machine sees it.
pub open spec fn outcome(r: Result<Value, JsonError>) -> Result<Json, Fault> {
    match r {
        Ok(v) => Ok(v@),
        Err(e) => Err(e@),
    }
}

/// Performs one action on the value stack `ds`, the raw text `ss` and the
/// escape digits `es`.
pub fn do_action(
    action: u8,
    ch: u8,
    ds: &mut Vec<Value>,
    ss: &mut Vec<char>,
    es: &mut Vec<char>,
) -> (r: Result<(), JsonError>)
    requires
        applicable(action, buffers_of(old(ds)@, old(ss)@, old(es)@)),
        all_wf(old(ds)@),
    ensures
        match perform(action, ch, buffers_of(old(ds)@, old(ss)@, old(es)@)) {
            Ok(b) => r is Ok && buffers_of(final(ds)@, final(ss)@, final(es)@) == b && all_wf(
                final(ds)@,
            ),
            Err(e) => {
                &&& r matches Err(err) && err@ == e
                &&& final(ds)@ == old(ds)@
                &&& final(ss)@ == old(ss)@
                &&& final(es)@ == old(es)@
            },
        },
{
    let ghost before = ds@;
    let ghost n = ds@.len() as int;
    if action == A_LIST {
        let items: Vec<Value> = Vec::new();
        proof {
            lemma_list_view(items);
            assert(models(items@) =~= Seq::<Json>::empty());
            lemma_models_push(before, Value::List(items));
        }
        ds.push(Value::List(items));
    } else if action == A_OBJECT {
        let entries: Vec<(String, Value)> = Vec::new();
        proof {
            lemma_object_view(entries);
            assert(entries@ =~= Seq::<(String, Value)>::empty());
            lemma_bindings_empty();
            lemma_models_push(before, Value::Object(entries));
        }
        ds.push(Value::Object(entries));
    } else if action == A_APPEND {
        let item = ds.pop().unwrap();
        let mut list = ds.pop().unwrap();
        proof {
            assert(list == before[n - 2]);
            assert(models(before)[n - 2] == list@);
        }
        let ghost old_items = list->List_0;
        let items = list.as_list();
        items.push(item);
        proof {
            let new_items = list->List_0;
            lemma_list_view(old_items);
            lemma_list_view(new_items);
            lemma_models_push(old_items@, item);
            assert(ds@ =~= before.take(n - 2));
            lemma_models_take(before, n - 2);
            lemma_models_push(ds@, list);
            assert(models(before)[n - 1] == item@);
            assert(list.wf()) by {
                assert forall|i: int| 0 <= i < new_items@.len() implies (
                #[trigger] new_items@[i]).wf() by {
                    if i < old_items@.len() {
                        assert(old_items@[i].wf());
                    }
                }
            }
        }
        ds.push(list);
    } else if action == A_BIND {
        let value = ds.pop().unwrap();
        let key = ds.pop().unwrap();
        let mut object = ds.pop().unwrap();
        proof {
            assert(value == before[n - 1]);
            assert(key == before[n - 2]);
            assert(object == before[n - 3]);
            assert(models(before)[n - 1] == value@);
            assert(models(before)[n - 2] == key@);
            assert(models(before)[n - 3] == object@);
        }
        let ghost old_entries = object->Object_0;
        let text = key.into_string();
        let entries = object.as_object();
        bind(entries, text, value);
        proof {
            let new_entries = object->Object_0;
            lemma_object_view(old_entries);
            lemma_object_view(new_entries);
            assert(ds@ =~= before.take(n - 3));
            lemma_models_take(before, n - 3);
            lemma_models_push(ds@, object);
        }
        ds.push(object);
    } else if action == A_NULL {
        proof {
            lemma_models_push(before, Value::Null);
        }
        ds.push(Value::Null);
    } else if action == A_TRUE {
        proof {
            lemma_models_push(before, Value::Bool(true));
        }
        ds.push(Value::Bool(true));
    } else if action == A_FALSE {
        proof {
            lemma_models_push(before, Value::Bool(false));
        }
        ds.push(Value::Bool(false));
    } else if action == A_STRING {
        let text = text_of(ss);
        proof {
            lemma_models_push(before, Value::String(text));
        }
        ds.push(Value::String(text));
        ss.clear();
        es.clear();
    } else if action == A_INT {
        match parse_int(ss) {
            Some(number) => {
                proof {
                    lemma_models_push(before, Value::Int(number));
                }
                ds.push(Value::Int(number));
                ss.clear();
            },
            None => {
                return Err(JsonError::Syntax);
            },
        }
    } else if action == A_FLOAT {
        let text = text_of(ss);
        proof {
            lemma_models_push(before, Value::Float(text));
        }
        ds.push(Value::Float(text));
        ss.clear();
    } else if action == A_RAW {
        ss.push(ch as char);
    } else if action == A_ESC {
        es.push(ch as char);
    } else if action == A_SHORT {
        match resolve_short(ch) {
            Some(c) => {
                ss.push(c);
                es.clear();
            },
            None => {
                let mut whole = String::new();
                whole.push('\\');
                whole.push(ch as char);
                proof {
                    assert(whole@ =~= short_escape_text(ch));
                }
                return Err(JsonError::InvalidEscape(whole));
            },
        }
    } else {
        match resolve_unicode(es) {
            Some(c) => {
                ss.push(c);
                es.clear();
            },
            None => {
                let text = text_after('\\', 'u', es);
                return Err(JsonError::InvalidEscape(text));
            },
        }
    }
    Ok(())
}

/// A decoder in the middle of an input: the automaton's state, its control
/// stack, and the three buffers.
pub struct Decoder {
    state: u8,
    stack: Vec<u8>,
    values: Vec<Value>,
    raw: Vec<char>,
    escape: Vec<char>,
    pushes: Ghost<nat>,
    pops: Ghost<nat>,
}

impl View for Decoder {
    type V = Machine;

    closed spec fn view(&self) -> Machine {
        Machine {
            state: self.state,
            stack: self.stack@,
            buffers: buffers_of(self.values@, self.raw@, self.escape@),
            pushes: self.pushes@,
            pops: self.pops@,
        }
    }
}

/// A failure cuts a run short: what follows the byte that failed is not
/// looked at.
pub proof fn lemma_run_stops_at_failure(m: Machine, input: Seq<u8>, k: int)
    requires
        0 <= k <= input.len(),
        m.run(input.take(k)) is Err,
    ensures
        m.run(input) == m.run(input.take(k)),
    decreases input.len() - k,
{
    if k == input.len() {
        assert(input.take(k) =~= input);
    } else {
        assert(input.take(k + 1).drop_last() =~= input.take(k));
        lemma_run_stops_at_failure(m, input, k + 1);
    }
}

impl Decoder {
    /// Every object on the value stack binds each of its keys once.
    pub closed spec fn values_wf(&self) -> bool {
        all_wf(self.values@)
    }

    /// The decoder is between two bytes, in a well-formed configuration.
    pub open spec fn wf(&self) -> bool {
        self@.wf() && self.values_wf()
    }

    /// A decoder that has seen no input.
    pub fn new() -> (d: Decoder)
        ensures
            d@ == Machine::initial(),
            d.wf(),
    {
        let d = Decoder {
            state: S_START,
            stack: Vec::new(),
            values: Vec::new(),
            raw: Vec::new(),
            escape: Vec::new(),
            pushes: Ghost(0),
            pops: Ghost(0),
        };
        proof {
            assert(models(d.values@) =~= Seq::<Json>::empty());
        }
        d
    }

    /// The automaton driver: takes in the byte `ch` of category `cat`. It
    /// follows transitions, each with its action, until one consumes the byte.
    pub fn parse_ch(&mut self, cat: u8, ch: u8) -> (r: Result<(), JsonError>)
        requires
            old(self).wf(),
            cat < NUM_CATEGORIES,
        ensures
            match old(self)@.step(cat, ch) {
                Ok(m) => r is Ok && final(self)@ == m && final(self).wf(),
                Err(e) => r matches Err(err) && err@ == e,
            },
    {
        loop
            invariant
                self.wf(),
                cat < NUM_CATEGORIES,
                self@.step(cat, ch) == old(self)@.step(cat, ch),
            decreases self.stack@.len(), rank(self.state),
        {
            let ghost before = self@;
            let code: u16 = lookup(self.state, cat);
            let high: u8 = (code >> 8) as u8;
            let low: u8 = (code & 0xFF) as u8;
            proof {
                assert(code >> 8 == code / 256 && code & 0xFF == code % 256) by (bit_vector);
                reveal(Machine::step);
                lemma_transition_keeps_wf(before, cat, ch);
                lemma_reductions_end(before.state, cat);
            }
            let mut action: u8 = high;
            if code == REJECT {
                return Err(JsonError::Syntax);
            } else if action >= SAVE {
                self.stack.push(resume(self.state));
                self.pushes = Ghost(self.pushes@ + 1);
                action = action - SAVE;
            }
            if action != A_NONE {
                match do_action(action, ch, &mut self.values, &mut self.raw, &mut self.escape) {
                    Ok(()) => {},
                    Err(e) => {
                        return Err(e);
                    },
                }
            }
            if low == POP {
                self.state = self.stack.pop().unwrap();
                self.pops = Ghost(self.pops@ + 1);
            } else {
                self.state = low;
                return Ok(());
            }
        }
    }

    /// How many states are saved on the control stack: how deep in unfinished
    /// values the input is.
    pub fn depth(&self) -> (n: usize)
        ensures
            n == self@.stack.len(),
    {
        self.stack.len()
    }

    /// Takes in one byte of input.
    pub fn feed(&mut self, byte: u8) -> (r: Result<(), JsonError>)
        requires
            old(self).wf(),
        ensures
            match old(self)@.feed(byte) {
                Ok(m) => r is Ok && final(self)@ == m && final(self).wf(),
                Err(e) => r matches Err(err) && err@ == e,
            },
    {
        let cat = category(byte);
        self.parse_ch(cat, byte)
    }

    /// Ends the input and gives the one value that it held.
    pub fn finish(self) -> (r: Result<Value, JsonError>)
        requires
            self.wf(),
        ensures
            outcome(r) == self@.finish(),
            r matches Ok(v) ==> v.wf(),
    {
        let mut d = self;
        match d.parse_ch(C_SPACE, END_BYTE) {
            Ok(()) => {},
            Err(e) => {
                return Err(e);
            },
        }
        if d.state != S_START {
            return Err(JsonError::Truncated);
        }
        let n: usize = d.values.len();
        if n == 0 {
            Err(JsonError::NoObjects)
        } else if n == 1 {
            Ok(d.values.pop().unwrap())
        } else {
            Err(JsonError::MultipleObjects)
        }
    }
}

/// Decodes a whole input: exactly one JSON value, with optional whitespace
/// around it. The inputs that decode are the texts of the valid documents,
/// each to the value that the document denotes; every other input fails, with
/// the error that the machine comes to.
pub fn parse(input: &[u8]) -> (r: Result<Value, JsonError>)
    ensures
        outcome(r) == decode(input@),
        r matches Ok(v) ==> v.wf(),
        r matches Ok(v) ==> {
            &&& document_of(input@).valid()
            &&& document_of(input@).text() == input@
            &&& document_of(input@).value() == v@
        },
        forall|d: Doc|
            #![trigger d.text()]
            d.valid() && d.text() == input@ ==> outcome(r) == Ok::<Json, Fault>(d.value()),
{
    let mut d = Decoder::new();
    let mut i: usize = 0;
    proof {
        assert(input@.take(0) =~= Seq::<u8>::empty());
    }
    while i < input.len()
        invariant
            0 <= i <= input@.len(),
            d.wf(),
            Machine::initial().run(input@.take(i as int)) == Ok::<Machine, Fault>(d@),
        decreases input@.len() - i,
    {
        proof {
            assert(input@.take(i + 1).drop_last() =~= input@.take(i as int));
        }
        match d.feed(input[i]) {
            Ok(()) => {},
            Err(e) => {
                proof {
                    lemma_run_stops_at_failure(Machine::initial(), input@, i + 1);
                    lemma_decodes_documents(input@);
                }
                return Err(e);
            },
        }
        i = i + 1;
    }
    proof {
        assert(input@.take(i as int) =~= input@);
        lemma_decodes_documents(input@);
    }
    d.finish()
}

} // verus!
