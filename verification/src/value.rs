//! The decoded value, its mathematical model, and the error taxonomy.

use vstd::prelude::*;

verus! {

/// The mathematical JSON value that a [`Value`] stands for.
pub enum Json {
    Null,
    Bool(bool),
    Int(int),
    /// A number with a fraction or an exponent, kept as its literal text.
    Float(Seq<char>),
    String(Seq<char>),
    List(Seq<Json>),
    Object(Map<Seq<char>, Json>),
}

/// A decoded JSON value.
#[derive(Debug)]
pub enum Value {
    Null,
    Bool(bool),
    Int(i64),
    /// A number with a fraction or an exponent, kept as its literal text.
    Float(String),
    String(String),
    List(Vec<Value>),
    /// Key-value bindings; in a well-formed value no key occurs twice.
    Object(Vec<(String, Value)>),
}

/// Index of the first binding of `key` among `entries`, if there is one.
pub open spec fn binding_of(entries: Seq<(String, Value)>, key: Seq<char>) -> int {
    choose|i: int| 0 <= i < entries.len() && (#[trigger] entries[i]).0@ == key
}

/// Whether some pair among `entries` has the key.
pub open spec fn has_binding(entries: Seq<(String, Value)>, key: Seq<char>) -> bool {
    exists|i: int| 0 <= i < entries.len() && (#[trigger] entries[i]).0@ == key
}

/// No key is bound twice.
pub open spec fn distinct_keys(entries: Seq<(String, Value)>) -> bool {
    forall|i: int, j: int|
        0 <= i < j < entries.len() ==> (#[trigger] entries[i]).0@ != (#[trigger] entries[j]).0@
}

impl View for Value {
    type V = Json;

    open spec fn view(&self) -> Json
        decreases self,
    {
        match self {
            Value::Null => Json::Null,
            Value::Bool(b) => Json::Bool(*b),
            Value::Int(n) => Json::Int(*n as int),
            Value::Float(t) => Json::Float(t@),
            Value::String(s) => Json::String(s@),
            Value::List(items) => Json::List(
                Seq::new(
                    items@.len(),
                    |i: int|
                        if 0 <= i < items@.len() {
                            items@[i].view()
                        } else {
                            Json::Null
                        },
                ),
            ),
            Value::Object(entries) => Json::Object(
                Map::new(
                    |k: Seq<char>| has_binding(entries@, k),
                    |k: Seq<char>|
                        {
                            let i = binding_of(entries@, k);
                            if 0 <= i < entries@.len() {
                                entries@[i].1.view()
                            } else {
                                Json::Null
                            }
                        },
                ),
            ),
        }
    }
}

/// The models of a run of values, in order.
pub open spec fn models(values: Seq<Value>) -> Seq<Json> {
    Seq::new(values.len(), |i: int| values[i]@)
}

/// Each of the values is well formed.
pub open spec fn all_wf(values: Seq<Value>) -> bool {
    forall|i: int| 0 <= i < values.len() ==> (#[trigger] values[i]).wf()
}

/// The bindings that a run of key-value pairs makes: for each key, the value
/// of its first pair.
pub open spec fn bindings(entries: Seq<(String, Value)>) -> Map<Seq<char>, Json> {
    Map::new(
        |k: Seq<char>| has_binding(entries, k),
        |k: Seq<char>| entries[binding_of(entries, k)].1@,
    )
}

impl Value {
    /// Every object, at every depth, binds each of its keys once.
    pub open spec fn wf(&self) -> bool
        decreases self,
    {
        match self {
            Value::List(items) => forall|i: int|
                0 <= i < items@.len() ==> (#[trigger] items@[i]).wf(),
            Value::Object(entries) => distinct_keys(entries@) && forall|i: int|
                0 <= i < entries@.len() ==> (#[trigger] entries@[i]).1.wf(),
            _ => true,
        }
    }
}

impl Value {
    /// The text of a string value.
    pub fn into_string(self) -> (text: String)
        requires
            self is String,
        ensures
            self == Value::String(text),
    {
        match self {
            Value::String(s) => s,
            _ => unreached(),
        }
    }

    /// The items of a list value, open to change.
    pub fn as_list(&mut self) -> (items: &mut Vec<Value>)
        requires
            *old(self) is List,
        ensures
            *items == (*old(self))->List_0,
            *final(self) == Value::List(*final(items)),
    {
        match self {
            Value::List(l) => l,
            _ => unreached(),
        }
    }

    /// The bindings of an object value, open to change.
    pub fn as_object(&mut self) -> (entries: &mut Vec<(String, Value)>)
        requires
            *old(self) is Object,
        ensures
            *entries == (*old(self))->Object_0,
            *final(self) == Value::Object(*final(entries)),
    {
        match self {
            Value::Object(o) => o,
            _ => unreached(),
        }
    }
}

/// In a run of pairs with distinct keys, the binding of a key is its one pair.
pub proof fn lemma_binding_unique(entries: Seq<(String, Value)>, i: int)
    requires
        distinct_keys(entries),
        0 <= i < entries.len(),
    ensures
        has_binding(entries, entries[i].0@),
        binding_of(entries, entries[i].0@) == i,
{
    let j = binding_of(entries, entries[i].0@);
    assert(0 <= j < entries.len() && entries[j].0@ == entries[i].0@);
    if j < i {
        assert(entries[j].0@ != entries[i].0@);
    }
    if i < j {
        assert(entries[i].0@ != entries[j].0@);
    }
}

/// A pair with a new key, added at the end, binds that key and changes no
/// other binding.
pub proof fn lemma_bindings_push(entries: Seq<(String, Value)>, key: String, value: Value)
    requires
        distinct_keys(entries),
        !has_binding(entries, key@),
    ensures
        distinct_keys(entries.push((key, value))),
        bindings(entries.push((key, value))) == bindings(entries).insert(key@, value@),
{
    let after = entries.push((key, value));
    assert forall|i: int, j: int| 0 <= i < j < after.len() implies (#[trigger] after[i]).0@ != (
    #[trigger] after[j]).0@ by {
        if j < entries.len() {
            assert(entries[i].0@ != entries[j].0@);
        } else {
            assert(entries[i].0@ == after[i].0@);
        }
    }
    assert forall|k: Seq<char>|
        has_binding(after, k) <==> (k == key@ || has_binding(entries, k)) by {
        if has_binding(after, k) {
            let i = binding_of(after, k);
            if i < entries.len() {
                assert(entries[i].0@ == k);
            }
        }
        if has_binding(entries, k) {
            let i = binding_of(entries, k);
            assert(after[i].0@ == k);
        }
        if k == key@ {
            assert(after[entries.len() as int].0@ == k);
        }
    }
    assert forall|k: Seq<char>| has_binding(after, k) implies #[trigger] bindings(after)[k]
        == bindings(entries).insert(key@, value@)[k] by {
        let i = binding_of(after, k);
        lemma_binding_unique(after, i);
        if i < entries.len() {
            assert(entries[i].0@ == k);
            lemma_binding_unique(entries, i);
        }
    }
    assert(bindings(after) =~= bindings(entries).insert(key@, value@));
}

/// A pair that takes the place of the pair with the same key rebinds that key
/// and changes no other binding.
pub proof fn lemma_bindings_update(
    entries: Seq<(String, Value)>,
    at: int,
    key: String,
    value: Value,
)
    requires
        distinct_keys(entries),
        0 <= at < entries.len(),
        entries[at].0@ == key@,
    ensures
        distinct_keys(entries.update(at, (key, value))),
        bindings(entries.update(at, (key, value))) == bindings(entries).insert(key@, value@),
{
    let after = entries.update(at, (key, value));
    assert forall|i: int| 0 <= i < after.len() implies (#[trigger] after[i]).0@
        == entries[i].0@ by {}
    assert forall|i: int, j: int| 0 <= i < j < after.len() implies (#[trigger] after[i]).0@ != (
    #[trigger] after[j]).0@ by {
        assert(entries[i].0@ != entries[j].0@);
    }
    assert forall|k: Seq<char>|
        has_binding(after, k) <==> (k == key@ || has_binding(entries, k)) by {
        if has_binding(after, k) {
            let i = binding_of(after, k);
            assert(entries[i].0@ == k);
        }
        if has_binding(entries, k) {
            let i = binding_of(entries, k);
            assert(after[i].0@ == k);
        }
        if k == key@ {
            assert(after[at].0@ == k);
        }
    }
    assert forall|k: Seq<char>| has_binding(after, k) implies #[trigger] bindings(after)[k]
        == bindings(entries).insert(key@, value@)[k] by {
        let i = binding_of(after, k);
        lemma_binding_unique(after, i);
        assert(entries[i].0@ == k);
        lemma_binding_unique(entries, i);
    }
    assert(bindings(after) =~= bindings(entries).insert(key@, value@));
}

/// Binds `key` to `value`: in place of the pair that has the key, or else at
/// the end. The last binding of a key wins.
pub fn bind(entries: &mut Vec<(String, Value)>, key: String, value: Value)
    requires
        distinct_keys(old(entries)@),
        forall|i: int| 0 <= i < old(entries)@.len() ==> (#[trigger] old(entries)@[i]).1.wf(),
        value.wf(),
    ensures
        distinct_keys(final(entries)@),
        forall|i: int| 0 <= i < final(entries)@.len() ==> (#[trigger] final(entries)@[i]).1.wf(),
        bindings(final(entries)@) == bindings(old(entries)@).insert(key@, value@),
{
    let n: usize = entries.len();
    let mut i: usize = 0;
    while i < n
        invariant
            0 <= i <= n,
            n == entries@.len(),
            *entries == *old(entries),
            distinct_keys(entries@),
            forall|j: int| 0 <= j < n ==> (#[trigger] entries@[j]).1.wf(),
            value.wf(),
            forall|j: int| 0 <= j < i ==> (#[trigger] entries@[j]).0@ != key@,
        decreases n - i,
    {
        if entries[i].0 == key {
            proof {
                lemma_bindings_update(entries@, i as int, key, value);
            }
            entries[i] = (key, value);
            return ;
        }
        i = i + 1;
    }
    proof {
        lemma_bindings_push(entries@, key, value);
    }
    entries.push((key, value));
}

/// No pairs, no bindings.
pub proof fn lemma_bindings_empty()
    ensures
        bindings(Seq::<(String, Value)>::empty()) == Map::<Seq<char>, Json>::empty(),
{
    assert(bindings(Seq::<(String, Value)>::empty()) =~= Map::<Seq<char>, Json>::empty());
}

/// The model of a run with one more value.
pub proof fn lemma_models_push(values: Seq<Value>, value: Value)
    ensures
        models(values.push(value)) == models(values).push(value@),
{
    assert(models(values.push(value)) =~= models(values).push(value@));
}

/// The model of the beginning of a run.
pub proof fn lemma_models_take(values: Seq<Value>, n: int)
    requires
        0 <= n <= values.len(),
    ensures
        models(values.take(n)) == models(values).take(n),
{
    assert(models(values.take(n)) =~= models(values).take(n));
}

/// What went wrong, as a mathematical value.
pub enum Fault {
    Truncated,
    NoObjects,
    MultipleObjects,
    Syntax,
    InvalidEscape(Seq<char>),
    IO,
}

/// Why a decode failed.
#[derive(Debug)]
pub enum JsonError {
    /// The input ended inside a value.
    Truncated,
    /// The input held no value at all.
    NoObjects,
    /// The input held more than one top-level value.
    MultipleObjects,
    /// A byte that the grammar does not allow where it stands, or an integer
    /// that 64 bits cannot hold.
    Syntax,
    /// A malformed escape, with its text.
    InvalidEscape(String),
    /// The source of the bytes failed.
    IO(std::io::Error),
}

impl View for JsonError {
    type V = Fault;

    open spec fn view(&self) -> Fault {
        match self {
            JsonError::Truncated => Fault::Truncated,
            JsonError::NoObjects => Fault::NoObjects,
            JsonError::MultipleObjects => Fault::MultipleObjects,
            JsonError::Syntax => Fault::Syntax,
            JsonError::InvalidEscape(text) => Fault::InvalidEscape(text@),
            JsonError::IO(_) => Fault::IO,
        }
    }
}

/// A list value stands for the list of its items' models.
pub proof fn lemma_list_view(items: Vec<Value>)
    ensures
        Value::List(items)@ == Json::List(models(items@)),
{
    assert(Value::List(items)@->List_0 =~= models(items@));
}

/// An object value stands for the bindings of its pairs.
pub proof fn lemma_object_view(entries: Vec<(String, Value)>)
    ensures
        Value::Object(entries)@ == Json::Object(bindings(entries@)),
{
    assert forall|k: Seq<char>| has_binding(entries@, k) implies 0 <= binding_of(entries@, k)
        < entries@.len() by {}
    assert(Value::Object(entries)@->Object_0 =~= bindings(entries@));
}

} // verus!
