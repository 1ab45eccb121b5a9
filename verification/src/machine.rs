//! The decoder as a mathematical machine: what each action does to the
//! buffers, what one byte does to the whole configuration, and what a whole
//! input decodes to.

use vstd::prelude::*;
use crate::tables::{
    A_APPEND, A_BIND, A_ESC, A_FALSE, A_FLOAT, A_INT, A_LIST, A_NONE, A_NULL, A_OBJECT, A_RAW,
    A_SHORT, A_STRING, A_TRUE, A_UNICODE, C_SPACE, category_of, Entry, entry, lemma_reductions_end,
    NUM_STATES, rank, resume, resume_of, S_ARRAY_ITEM, S_ARRAY_NEXT, S_ARRAY_OPEN, S_ARRAY_REST,
    S_DONE, S_EXP_DIGITS, S_HEX1, S_HEX2, S_HEX4, S_HEX_END, S_MINUS, S_NUL, S_OBJECT_COLON,
    S_OBJECT_ITEM, S_OBJECT_KEY, S_OBJECT_NEXT, S_OBJECT_OPEN, S_OBJECT_REST, S_START, S_STRING,
    S_T,
};
use crate::text::{i64_literal, short_escape, unicode_escape};
use crate::value::{Fault, Json};

verus! {

/// The three buffers that the actions work on.
pub struct Buffers {
    /// Values finished or under construction, the latest last.
    pub values: Seq<Json>,
    /// The characters of the string or number being read.
    pub raw: Seq<char>,
    /// The digits of the `\u` escape being read.
    pub escape: Seq<char>,
}

/// A configuration of the automaton.
pub struct Machine {
    pub state: u8,
    /// The control stack: the states to resume, the latest last.
    pub stack: Seq<u8>,
    pub buffers: Buffers,
    /// How many states have been saved on the control stack so far.
    pub pushes: nat,
    /// How many states have been resumed from the control stack so far.
    pub pops: nat,
}

/// The byte fed after the input, under the category of a space. No decode
/// depends on which byte it is.
pub const END_BYTE: u8 = 0x3F;

/// The character that a byte stands for: the one with the byte's code.
pub open spec fn char_of(byte: u8) -> char {
    byte as char
}

/// Whether `action` has what it needs on the value stack. An action that does
/// not is a defect of the tables, not of the input.
pub open spec fn applicable(action: u8, b: Buffers) -> bool {
    let n = b.values.len();
    if action == A_APPEND {
        n >= 2 && b.values[n - 2] is List
    } else if action == A_BIND {
        n >= 3 && b.values[n - 2] is String && b.values[n - 3] is Object
    } else {
        A_LIST <= action <= A_UNICODE
    }
}

/// The text of an invalid one-letter escape: the backslash and the letter.
pub open spec fn short_escape_text(byte: u8) -> Seq<char> {
    seq!['\\', char_of(byte)]
}

/// The text of an invalid `\u` escape: `\u` and what was read after it.
pub open spec fn unicode_escape_text(digits: Seq<char>) -> Seq<char> {
    seq!['\\', 'u'] + digits
}

/// What `action` does to the buffers on the byte `ch`.
pub open spec fn perform(action: u8, ch: u8, b: Buffers) -> Result<Buffers, Fault> {
    let n = b.values.len() as int;
    if action == A_LIST {
        Ok(Buffers { values: b.values.push(Json::List(Seq::empty())), ..b })
    } else if action == A_OBJECT {
        Ok(Buffers { values: b.values.push(Json::Object(Map::empty())), ..b })
    } else if action == A_APPEND {
        let item = b.values[n - 1];
        let items = b.values[n - 2]->List_0;
        Ok(Buffers { values: b.values.take(n - 2).push(Json::List(items.push(item))), ..b })
    } else if action == A_BIND {
        let value = b.values[n - 1];
        let key = b.values[n - 2]->String_0;
        let object = b.values[n - 3]->Object_0;
        Ok(
            Buffers {
                values: b.values.take(n - 3).push(Json::Object(object.insert(key, value))),
                ..b
            },
        )
    } else if action == A_NULL {
        Ok(Buffers { values: b.values.push(Json::Null), ..b })
    } else if action == A_TRUE {
        Ok(Buffers { values: b.values.push(Json::Bool(true)), ..b })
    } else if action == A_FALSE {
        Ok(Buffers { values: b.values.push(Json::Bool(false)), ..b })
    } else if action == A_STRING {
        Ok(
            Buffers {
                values: b.values.push(Json::String(b.raw)),
                raw: Seq::empty(),
                escape: Seq::empty(),
            },
        )
    } else if action == A_INT {
        match i64_literal(b.raw) {
            Some(v) => Ok(
                Buffers { values: b.values.push(Json::Int(v as int)), raw: Seq::empty(), ..b },
            ),
            None => Err(Fault::Syntax),
        }
    } else if action == A_FLOAT {
        Ok(Buffers { values: b.values.push(Json::Float(b.raw)), raw: Seq::empty(), ..b })
    } else if action == A_RAW {
        Ok(Buffers { raw: b.raw.push(char_of(ch)), ..b })
    } else if action == A_ESC {
        Ok(Buffers { escape: b.escape.push(char_of(ch)), ..b })
    } else if action == A_SHORT {
        match short_escape(ch) {
            Some(c) => Ok(Buffers { raw: b.raw.push(c), escape: Seq::empty(), ..b }),
            None => Err(Fault::InvalidEscape(short_escape_text(ch))),
        }
    } else if action == A_UNICODE {
        match unicode_escape(b.escape) {
            Some(c) => Ok(Buffers { raw: b.raw.push(c), escape: Seq::empty(), ..b }),
            None => Err(Fault::InvalidEscape(unicode_escape_text(b.escape))),
        }
    } else {
        Ok(b)
    }
}

/// Whether a control stack and the values below the value in progress fit
/// together: each saved state finds below it the container that it will
/// attach to, and only a string can become a key.
pub open spec fn frames_ok(stack: Seq<u8>, values: Seq<Json>) -> bool
    decreases stack.len(),
{
    if stack.len() == 0 {
        false
    } else {
        let resume = stack.last();
        let below = stack.drop_last();
        let n = values.len() as int;
        if resume == S_START {
            below.len() == 0
        } else if resume == S_ARRAY_ITEM {
            n >= 1 && values[n - 1] is List && below.last() != S_OBJECT_KEY && frames_ok(
                below,
                values.take(n - 1),
            )
        } else if resume == S_OBJECT_KEY {
            n >= 1 && values[n - 1] is Object && below.last() != S_OBJECT_KEY && frames_ok(
                below,
                values.take(n - 1),
            )
        } else if resume == S_OBJECT_ITEM {
            n >= 2 && values[n - 1] is String && values[n - 2] is Object && below.last()
                != S_OBJECT_KEY && frames_ok(below, values.take(n - 2))
        } else {
            false
        }
    }
}

/// How many values on top of the stack belong to the construct that `state`
/// is in the middle of.
pub open spec fn held(state: u8) -> int {
    if state == S_ARRAY_OPEN || state == S_ARRAY_NEXT || state == S_ARRAY_REST || state
        == S_OBJECT_OPEN || state == S_OBJECT_NEXT || state == S_OBJECT_REST || state == S_DONE {
        1
    } else if state == S_ARRAY_ITEM || state == S_OBJECT_KEY || state == S_OBJECT_COLON {
        2
    } else if state == S_OBJECT_ITEM {
        3
    } else {
        0
    }
}

impl Machine {
    /// The configuration before any input.
    pub open spec fn initial() -> Machine {
        Machine {
            state: S_START,
            stack: Seq::empty(),
            buffers: Buffers { values: Seq::empty(), raw: Seq::empty(), escape: Seq::empty() },
            pushes: 0,
            pops: 0,
        }
    }

    /// The configurations that the automaton can be in between two bytes: the
    /// state, the control stack and the value stack fit together, so that no
    /// action lacks what it needs and no resumption finds the stack empty; the
    /// raw text is empty outside strings and numbers, and the escape digits are
    /// empty outside a `\u` escape.
    pub open spec fn wf(self) -> bool {
        let s = self.state;
        let v = self.buffers.values;
        let n = v.len() as int;
        if s == S_START {
            &&& self.stack.len() == 0
            &&& self.buffers.raw == Seq::<char>::empty()
            &&& self.buffers.escape == Seq::<char>::empty()
        } else {
            &&& s < NUM_STATES
            &&& !(in_string(s) || in_number(s)) ==> self.buffers.raw == Seq::<char>::empty()
            &&& !in_escape(s) ==> self.buffers.escape == Seq::<char>::empty()
            &&& n >= held(s)
            &&& frames_ok(self.stack, v.take(n - held(s)))
            &&& (s == S_ARRAY_OPEN || s == S_ARRAY_NEXT || s == S_ARRAY_REST) ==> v[n - 1] is List
            &&& s == S_ARRAY_ITEM ==> v[n - 2] is List
            &&& (s == S_OBJECT_OPEN || s == S_OBJECT_NEXT || s == S_OBJECT_REST) ==> v[n
                - 1] is Object
            &&& (s == S_OBJECT_KEY || s == S_OBJECT_COLON) ==> v[n - 1] is String && v[n
                - 2] is Object
            &&& s == S_OBJECT_ITEM ==> v[n - 2] is String && v[n - 3] is Object
            &&& s == S_DONE ==> (self.stack.last() == S_OBJECT_KEY ==> v[n - 1] is String)
            &&& !(s == S_DONE || (S_STRING <= s <= S_HEX_END)) ==> self.stack.last()
                != S_OBJECT_KEY
        }
    }

    /// Saves the state to resume, where the transition asks for it.
    pub open spec fn saved(self, save: bool) -> Machine {
        if save {
            Machine {
                stack: self.stack.push(resume_of(self.state)),
                pushes: self.pushes + 1,
                ..self
            }
        } else {
            self
        }
    }

    /// Performs the action, if there is one.
    pub open spec fn acted(self, action: u8, ch: u8) -> Result<Machine, Fault> {
        if action == A_NONE {
            Ok(self)
        } else {
            match perform(action, ch, self.buffers) {
                Ok(b) => Ok(Machine { buffers: b, ..self }),
                Err(e) => Err(e),
            }
        }
    }

    /// Resumes the state on top of the control stack.
    pub open spec fn resumed(self) -> Machine {
        Machine {
            state: self.stack.last(),
            stack: self.stack.drop_last(),
            pops: self.pops + 1,
            ..self
        }
    }

    /// One byte `ch` of category `cat`: transitions are followed, each with
    /// its action, until one consumes the byte.
    #[verifier::opaque]
    pub open spec fn step(self, cat: u8, ch: u8) -> Result<Machine, Fault>
        decreases self.stack.len(), rank(self.state),
    {
        match entry(self.state, cat) {
            Entry::Reject => Err(Fault::Syntax),
            Entry::Shift { save, action, next } => match self.saved(save).acted(action, ch) {
                Ok(m) => Ok(Machine { state: next, ..m }),
                Err(e) => Err(e),
            },
            Entry::Reduce { save, action } => match self.saved(save).acted(action, ch) {
                Ok(m) => if m.stack.len() > 0 {
                    proof {
                        lemma_reductions_end(self.state, cat);
                    }
                    m.resumed().step(cat, ch)
                } else {
                    // No well-formed configuration comes here.
                    Err(Fault::Syntax)
                },
                Err(e) => Err(e),
            },
        }
    }

    /// One byte of input.
    pub open spec fn feed(self, byte: u8) -> Result<Machine, Fault> {
        self.step(category_of(byte), byte)
    }

    /// A run of input bytes, up to the first that fails.
    pub open spec fn run(self, input: Seq<u8>) -> Result<Machine, Fault>
        decreases input.len(),
    {
        if input.len() == 0 {
            Ok(self)
        } else {
            match self.run(input.drop_last()) {
                Ok(m) => m.feed(input.last()),
                Err(e) => Err(e),
            }
        }
    }

    /// The step that ends the input: one more byte under the category of a
    /// space, which lets a number that the input ends with be pushed.
    pub open spec fn ended(self) -> Result<Machine, Fault> {
        self.step(C_SPACE, END_BYTE)
    }

    /// The end of the input: after the step that ends it, the state must be
    /// the start state again, with exactly one value.
    pub open spec fn finish(self) -> Result<Json, Fault> {
        verdict(self.ended())
    }
}

/// What the decode comes to, given how the step that ends the input went:
/// its failure; or `Truncated` where a value is left unfinished; or the one
/// value on the value stack, where there is exactly one.
pub open spec fn verdict(last: Result<Machine, Fault>) -> Result<Json, Fault> {
    match last {
        Err(e) => Err(e),
        Ok(m) => if m.state != S_START {
            Err(Fault::Truncated)
        } else if m.buffers.values.len() == 0 {
            Err(Fault::NoObjects)
        } else if m.buffers.values.len() == 1 {
            Ok(m.buffers.values[0])
        } else {
            Err(Fault::MultipleObjects)
        },
    }
}

/// The states in which a value may begin.
pub open spec fn begins_value(state: u8) -> bool {
    state == S_START || state == S_ARRAY_OPEN || state == S_ARRAY_NEXT || state == S_OBJECT_COLON
}

/// The states inside a string.
pub open spec fn in_string(state: u8) -> bool {
    S_STRING <= state <= S_HEX_END
}

/// The states in which digits of a `\u` escape are held.
pub open spec fn in_escape(state: u8) -> bool {
    S_HEX2 <= state <= S_HEX_END
}

/// The states of a string in which no digits of a `\u` escape are held.
pub open spec fn in_plain_string(state: u8) -> bool {
    S_STRING <= state <= S_HEX1
}

/// The states inside a number.
pub open spec fn in_number(state: u8) -> bool {
    S_MINUS <= state <= S_EXP_DIGITS
}

/// The states inside `true`, `false` or `null`.
pub open spec fn in_literal(state: u8) -> bool {
    S_T <= state <= S_NUL
}

/// The moves without an action that leave the construct in progress as it is.
pub open spec fn quiet_move(state: u8, next: u8) -> bool {
    ||| state == S_START && next == S_START
    ||| state == S_ARRAY_OPEN && (next == S_ARRAY_OPEN || next == S_DONE)
    ||| state == S_ARRAY_NEXT && next == S_ARRAY_NEXT
    ||| state == S_ARRAY_REST && (next == S_ARRAY_REST || next == S_ARRAY_NEXT || next == S_DONE)
    ||| state == S_OBJECT_OPEN && (next == S_OBJECT_OPEN || next == S_DONE)
    ||| state == S_OBJECT_NEXT && next == S_OBJECT_NEXT
    ||| state == S_OBJECT_KEY && (next == S_OBJECT_KEY || next == S_OBJECT_COLON)
    ||| state == S_OBJECT_COLON && next == S_OBJECT_COLON
    ||| state == S_OBJECT_REST && (next == S_OBJECT_REST || next == S_OBJECT_NEXT || next
        == S_DONE)
    ||| in_plain_string(state) && in_plain_string(next)
    ||| in_literal(state) && in_literal(next)
}

/// The shape of the transition table: which transitions a state may have,
/// whatever the byte.
pub open spec fn allowed(state: u8, e: Entry) -> bool {
    match e {
        Entry::Reject => true,
        Entry::Shift { save, action, next } => if save {
            ||| begins_value(state) && action == A_LIST && next == S_ARRAY_OPEN
            ||| begins_value(state) && action == A_OBJECT && next == S_OBJECT_OPEN
            ||| begins_value(state) && action == A_RAW && in_number(next)
            ||| begins_value(state) && action == A_NONE && in_literal(next)
            ||| (begins_value(state) || state == S_OBJECT_OPEN || state == S_OBJECT_NEXT) && action
                == A_NONE && next == S_STRING
        } else if action == A_NONE {
            quiet_move(state, next)
        } else if action == A_APPEND {
            state == S_ARRAY_ITEM && (next == S_ARRAY_REST || next == S_ARRAY_NEXT || next
                == S_DONE)
        } else if action == A_BIND {
            state == S_OBJECT_ITEM && (next == S_OBJECT_REST || next == S_OBJECT_NEXT || next
                == S_DONE)
        } else if action == A_STRING {
            in_string(state) && next == S_DONE
        } else if action == A_TRUE || action == A_FALSE || action == A_NULL {
            in_literal(state) && next == S_DONE
        } else if action == A_RAW {
            (in_plain_string(state) && in_plain_string(next)) || (in_number(state) && in_number(
                next,
            ))
        } else if action == A_SHORT {
            in_plain_string(state) && in_plain_string(next)
        } else if action == A_ESC {
            S_HEX1 <= state <= S_HEX4 && in_escape(next)
        } else {
            false
        },
        Entry::Reduce { save, action } => {
            ||| state == S_DONE && !save && action == A_NONE
            ||| in_number(state) && !save && (action == A_INT || action == A_FLOAT)
            ||| state == S_HEX_END && save && action == A_UNICODE
        },
    }
}

/// The transition table has the shape that `allowed` describes.
pub proof fn lemma_table_allowed(state: u8, cat: u8)
    ensures
        allowed(state, entry(state, cat)),
{
    reveal(entry);
}

/// Whether the transition `e` is safe in `m`: its action has what it needs, a
/// resumption finds a state to resume, and the configuration that results is
/// well formed.
pub open spec fn safe(m: Machine, e: Entry, ch: u8) -> bool {
    match e {
        Entry::Reject => true,
        Entry::Shift { save, action, next } => {
            &&& action != A_NONE ==> applicable(action, m.buffers)
            &&& m.saved(save).acted(action, ch) matches Ok(after) ==> (Machine {
                state: next,
                ..after
            }).wf()
        },
        Entry::Reduce { save, action } => {
            &&& action != A_NONE ==> applicable(action, m.buffers)
            &&& m.saved(save).stack.len() > 0
            &&& m.saved(save).acted(action, ch) matches Ok(after) ==> after.resumed().wf()
        },
    }
}

/// A transition that begins a value is safe.
proof fn lemma_safe_saving_shift(m: Machine, action: u8, next: u8, ch: u8)
    requires
        m.wf(),
        allowed(m.state, Entry::Shift { save: true, action, next }),
    ensures
        safe(m, Entry::Shift { save: true, action, next }, ch),
{
    let v = m.buffers.values;
    let n = v.len() as int;
    let saved = m.saved(true);
    assert(saved.stack.drop_last() =~= m.stack);
    assert(saved.stack.last() == resume_of(m.state));
    assert(v.take(n) =~= v);
    match saved.acted(action, ch) {
        Ok(after) => {
            let w = after.buffers.values;
            assert(w.take(w.len() - held(next)) =~= v);
            assert(frames_ok(saved.stack, v));
        },
        Err(_) => {},
    }
}

/// A transition that consumes the byte without beginning a value is safe.
proof fn lemma_safe_plain_shift(m: Machine, action: u8, next: u8, ch: u8)
    requires
        m.wf(),
        allowed(m.state, Entry::Shift { save: false, action, next }),
    ensures
        safe(m, Entry::Shift { save: false, action, next }, ch),
{
    let v = m.buffers.values;
    let n = v.len() as int;
    let k = held(m.state);
    match m.acted(action, ch) {
        Ok(after) => {
            let w = after.buffers.values;
            assert(v.take(n) =~= v);
            assert(w.take(w.len() - held(next)) =~= v.take(n - k));
        },
        Err(_) => {},
    }
}

/// A transition that resumes the saved state is safe.
proof fn lemma_safe_reduce(m: Machine, save: bool, action: u8, ch: u8)
    requires
        m.wf(),
        allowed(m.state, Entry::Reduce { save, action }),
    ensures
        safe(m, Entry::Reduce { save, action }, ch),
{
    let v = m.buffers.values;
    let n = v.len() as int;
    let saved = m.saved(save);
    assert(v.take(n) =~= v);
    if save {
        assert(saved.stack.drop_last() =~= m.stack);
        assert(saved.stack.last() == S_STRING);
    } else {
        match saved.acted(action, ch) {
            Ok(after) => {
                let w = after.buffers.values;
                let r = after.resumed();
                // What lies below the value that is complete.
                let rest = if m.state == S_DONE {
                    v.take(n - 1)
                } else {
                    v
                };
                let h = held(r.state);
                assert(frames_ok(m.stack, rest));
                assert(w.len() == rest.len() + 1);
                if h >= 2 {
                    assert(w.take(w.len() - h) =~= rest.take(rest.len() - (h - 1)));
                    assert(w[w.len() - 2] == rest[rest.len() - 1]);
                }
                if h >= 3 {
                    assert(w[w.len() - 3] == rest[rest.len() - 2]);
                }
            },
            Err(_) => {},
        }
    }
}

/// Every transition that the table's shape allows is safe in a well-formed
/// configuration.
pub proof fn lemma_allowed_is_safe(m: Machine, e: Entry, ch: u8)
    requires
        m.wf(),
        allowed(m.state, e),
    ensures
        safe(m, e, ch),
{
    match e {
        Entry::Reject => {},
        Entry::Shift { save, action, next } => {
            if save {
                lemma_safe_saving_shift(m, action, next, ch);
            } else {
                lemma_safe_plain_shift(m, action, next, ch);
            }
        },
        Entry::Reduce { save, action } => {
            lemma_safe_reduce(m, save, action, ch);
        },
    }
}

/// Every transition of the table is safe in a well-formed configuration.
pub proof fn lemma_transition_keeps_wf(m: Machine, cat: u8, ch: u8)
    requires
        m.wf(),
    ensures
        safe(m, entry(m.state, cat), ch),
{
    lemma_table_allowed(m.state, cat);
    lemma_allowed_is_safe(m, entry(m.state, cat), ch);
}

/// A step from a well-formed configuration ends in a well-formed one.
pub proof fn lemma_step_keeps_wf(m: Machine, cat: u8, ch: u8)
    requires
        m.wf(),
    ensures
        m.step(cat, ch) matches Ok(after) ==> after.wf(),
    decreases m.stack.len(), rank(m.state),
{
    reveal(Machine::step);
    lemma_transition_keeps_wf(m, cat, ch);
    match entry(m.state, cat) {
        Entry::Reduce { save, action } => match m.saved(save).acted(action, ch) {
            Ok(after) => {
                lemma_reductions_end(m.state, cat);
                lemma_step_keeps_wf(after.resumed(), cat, ch);
            },
            Err(_) => {},
        },
        _ => {},
    }
}

/// Every configuration that an input leads to is well formed: whatever the
/// bytes, no action lacks what it needs on the value stack, and no resumption
/// finds the control stack empty.
pub proof fn lemma_run_keeps_wf(input: Seq<u8>)
    ensures
        Machine::initial().run(input) matches Ok(after) ==> after.wf(),
    decreases input.len(),
{
    if input.len() > 0 {
        lemma_run_keeps_wf(input.drop_last());
        match Machine::initial().run(input.drop_last()) {
            Ok(before) => {
                lemma_step_keeps_wf(before, category_of(input.last()), input.last());
            },
            Err(_) => {},
        }
    }
}

/// What the transitions on the end of input may be: none begins a value, and
/// only those that leave the automaton inside a string use the byte.
pub proof fn lemma_rows_end(state: u8)
    ensures
        match entry(state, C_SPACE) {
            Entry::Reject => true,
            Entry::Shift { save, action, next } => {
                &&& !save
                &&& action == A_NONE || action == A_APPEND || action == A_BIND || ((action == A_RAW
                    || action == A_ESC) && next != S_START)
            },
            Entry::Reduce { save, action } => action == A_NONE || action == A_INT || action
                == A_FLOAT || action == A_UNICODE,
        },
{
    reveal(entry);
}

/// The byte that is fed at the end of input is immaterial: whatever byte
/// stands for it, the decode comes to the same.
pub proof fn lemma_end_byte_is_immaterial(m: Machine, byte: u8)
    ensures
        verdict(m.step(C_SPACE, byte)) == m.finish(),
    decreases m.stack.len(), rank(m.state),
{
    reveal(Machine::step);
    lemma_rows_end(m.state);
    match entry(m.state, C_SPACE) {
        Entry::Reduce { save, action } => match m.saved(save).acted(action, byte) {
            Ok(after) => {
                if after.stack.len() > 0 {
                    lemma_reductions_end(m.state, C_SPACE);
                    lemma_end_byte_is_immaterial(after.resumed(), byte);
                }
            },
            Err(_) => {},
        },
        _ => {},
    }
}

/// What an input decodes to.
pub open spec fn decode(input: Seq<u8>) -> Result<Json, Fault> {
    match Machine::initial().run(input) {
        Ok(m) => m.finish(),
        Err(e) => Err(e),
    }
}

} // verus!
