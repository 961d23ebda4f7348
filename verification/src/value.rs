//! The value model: tagged variants for event payloads and action
//! payloads.
//!
//! A [`Value`] is a tree: null, booleans, integers, strings, arrays and
//! objects. Objects are ordered association lists with unique keys.
//! Contracts speak of the mathematical mirror [`Model`], obtained through
//! [`Value::model`].

use vstd::prelude::*;

verus! {

/// A payload value: the unit of data carried by events and actions.
#[derive(Debug, PartialEq)]
pub enum Value {
    Null,
    Bool(bool),
    Int(i64),
    Str(String),
    Arr(Vec<Value>),
    Obj(Payload),
}

/// An object: an ordered association list from string keys to values.
#[derive(Debug, PartialEq)]
pub struct Payload {
    pub entries: Vec<(String, Value)>,
}

/// The mathematical mirror of a [`Value`].
pub enum Model {
    Null,
    Bool(bool),
    Int(int),
    Str(Seq<char>),
    Arr(Seq<Model>),
    Obj(Seq<(Seq<char>, Model)>),
}

/// The mirror of a sequence of values.
pub open spec fn model_seq(items: Seq<Value>) -> Seq<Model>
    decreases items,
{
    if items.len() == 0 {
        Seq::empty()
    } else {
        seq![items[0].model()] + model_seq(items.subrange(1, items.len() as int))
    }
}

/// The mirror of a sequence of object entries.
pub open spec fn model_entries(entries: Seq<(String, Value)>) -> Seq<(Seq<char>, Model)>
    decreases entries,
{
    if entries.len() == 0 {
        Seq::empty()
    } else {
        seq![(entries[0].0@, entries[0].1.model())] + model_entries(
            entries.subrange(1, entries.len() as int),
        )
    }
}

impl Value {
    /// The mathematical mirror of this value.
    pub open spec fn model(self) -> Model
        decreases self,
    {
        match self {
            Value::Null => Model::Null,
            Value::Bool(b) => Model::Bool(b),
            Value::Int(n) => Model::Int(n as int),
            Value::Str(s) => Model::Str(s@),
            Value::Arr(items) => Model::Arr(model_seq(items@)),
            Value::Obj(p) => Model::Obj(model_entries(p.entries@)),
        }
    }
}

impl Payload {
    /// The mirror of this object's entries.
    pub open spec fn model(self) -> Seq<(Seq<char>, Model)> {
        model_entries(self.entries@)
    }
}

pub broadcast proof fn lemma_model_seq_len(items: Seq<Value>)
    ensures
        #[trigger] model_seq(items).len() == items.len(),
    decreases items,
{
    if items.len() > 0 {
        lemma_model_seq_len(items.subrange(1, items.len() as int));
    }
}

pub broadcast proof fn lemma_model_seq_index(items: Seq<Value>, i: int)
    requires
        0 <= i < items.len(),
    ensures
        #[trigger] model_seq(items)[i] == items[i].model(),
    decreases items,
{
    lemma_model_seq_len(items);
    if i > 0 {
        lemma_model_seq_index(items.subrange(1, items.len() as int), i - 1);
    }
}

pub broadcast proof fn lemma_model_entries_len(entries: Seq<(String, Value)>)
    ensures
        #[trigger] model_entries(entries).len() == entries.len(),
    decreases entries,
{
    if entries.len() > 0 {
        lemma_model_entries_len(entries.subrange(1, entries.len() as int));
    }
}

pub broadcast proof fn lemma_model_entries_index(entries: Seq<(String, Value)>, i: int)
    requires
        0 <= i < entries.len(),
    ensures
        #[trigger] model_entries(entries)[i] == (entries[i].0@, entries[i].1.model()),
    decreases entries,
{
    lemma_model_entries_len(entries);
    if i > 0 {
        lemma_model_entries_index(entries.subrange(1, entries.len() as int), i - 1);
    }
}

/// Looks `key` up among `entries`, starting at position `i`; the first
/// matching entry wins.
pub open spec fn obj_get_from(
    entries: Seq<(Seq<char>, Model)>,
    key: Seq<char>,
    i: int,
) -> Option<Model>
    decreases entries.len() - i,
{
    if i < 0 || i >= entries.len() {
        None
    } else if entries[i].0 == key {
        Some(entries[i].1)
    } else {
        obj_get_from(entries, key, i + 1)
    }
}

/// Looks `key` up among `entries`; the first matching entry wins.
pub open spec fn obj_get(entries: Seq<(Seq<char>, Model)>, key: Seq<char>) -> Option<Model> {
    obj_get_from(entries, key, 0)
}

/// Whether two string slices hold the same characters.
pub fn str_eq(a: &str, b: &str) -> (r: bool)
    ensures
        r == (a@ == b@),
{
    let a_len = a.unicode_len();
    let b_len = b.unicode_len();
    if a_len != b_len {
        assert(a@ != b@) by {
            assert(a@.len() != b@.len());
        }
        return false;
    }
    let mut i: usize = 0;
    while i < a_len
        invariant
            i <= a_len,
            a_len == a@.len(),
            b_len == b@.len(),
            a_len == b_len,
            forall|j: int| 0 <= j < i ==> a@[j] == b@[j],
        decreases a_len - i,
    {
        if a.get_char(i) != b.get_char(i) {
            return false;
        }
        i = i + 1;
    }
    proof {
        assert(a@ =~= b@);
    }
    true
}

impl Payload {
    /// An empty object.
    pub fn new() -> (r: Payload)
        ensures
            r.model() == Seq::<(Seq<char>, Model)>::empty(),
    {
        Payload { entries: Vec::new() }
    }

    /// The number of entries.
    pub fn len(&self) -> (r: usize)
        ensures
            r == self.model().len(),
    {
        proof {
            lemma_model_entries_len(self.entries@);
        }
        self.entries.len()
    }

    /// A reference to the value stored under `key`, if any; the first
    /// matching entry wins.
    pub fn get(&self, key: &str) -> (r: Option<&Value>)
        ensures
            match r {
                Some(v) => obj_get(self.model(), key@) == Some(v.model()),
                None => obj_get(self.model(), key@) is None,
            },
    {
        proof {
            lemma_model_entries_len(self.entries@);
        }
        let n = self.entries.len();
        let mut i: usize = 0;
        while i < n
            invariant
                i <= n,
                n == self.entries@.len(),
                obj_get(self.model(), key@) == obj_get_from(self.model(), key@, i as int),
                forall|j: int| 0 <= j < i ==> self.model()[j].0 != key@,
                self.model().len() == n,
            decreases n - i,
        {
            proof {
                lemma_model_entries_index(self.entries@, i as int);
            }
            if str_eq(self.entries[i].0.as_str(), key) {
                return Some(&self.entries[i].1);
            }
            i = i + 1;
        }
        None
    }

    /// Appends or replaces: if `key` is present its first entry's value is
    /// replaced in place, otherwise the pair is appended at the end.
    pub fn insert(&mut self, key: String, value: Value)
        ensures
            final(self).model() == spec_insert(old(self).model(), key@, value.model()),
    {
        proof {
            lemma_model_entries_len(self.entries@);
        }
        let n = self.entries.len();
        let mut i: usize = 0;
        while i < n
            invariant
                i <= n,
                n == self.entries@.len(),
                self.model().len() == n,
                *self == *old(self),
                forall|j: int| 0 <= j < i ==> self.model()[j].0 != key@,
            decreases n - i,
        {
            proof {
                lemma_model_entries_index(self.entries@, i as int);
            }
            if str_eq(self.entries[i].0.as_str(), key.as_str()) {
                self.entries[i] = (key, value);
                proof {
                    lemma_insert_replace(old(self).entries@, self.entries@, key@, i as int);
                }
                return ;
            }
            i = i + 1;
        }
        self.entries.push((key, value));
        proof {
            lemma_insert_append(old(self).entries@, self.entries@, key@);
        }
    }
}

/// The entries after storing `value` under `key`: the first entry holding
/// `key` is replaced, or the pair is appended if no entry holds `key`.
pub open spec fn spec_insert(
    entries: Seq<(Seq<char>, Model)>,
    key: Seq<char>,
    value: Model,
) -> Seq<(Seq<char>, Model)> {
    if exists|i: int| 0 <= i < entries.len() && entries[i].0 == key {
        let i = spec_first_key(entries, key);
        entries.update(i, (key, value))
    } else {
        entries.push((key, value))
    }
}

/// The position of the first entry holding `key`.
pub open spec fn spec_first_key(entries: Seq<(Seq<char>, Model)>, key: Seq<char>) -> int {
    choose|i: int|
        0 <= i < entries.len() && entries[i].0 == key && (forall|j: int|
            0 <= j < i ==> entries[j].0 != key)
}

proof fn lemma_insert_replace(
    old_entries: Seq<(String, Value)>,
    new_entries: Seq<(String, Value)>,
    key: Seq<char>,
    i: int,
)
    requires
        0 <= i < old_entries.len(),
        model_entries(old_entries)[i].0 == key,
        forall|j: int| 0 <= j < i ==> #[trigger] model_entries(old_entries)[j].0 != key,
        new_entries.len() == old_entries.len(),
        new_entries[i].0@ == key,
        forall|j: int| 0 <= j < old_entries.len() && j != i ==> new_entries[j] == old_entries[j],
    ensures
        model_entries(new_entries) == spec_insert(
            model_entries(old_entries),
            key,
            new_entries[i].1.model(),
        ),
{
    lemma_model_entries_len(old_entries);
    lemma_model_entries_len(new_entries);
    assert forall|j: int| 0 <= j < new_entries.len() implies #[trigger] model_entries(new_entries)[j]
        == (new_entries[j].0@, new_entries[j].1.model()) by {
        lemma_model_entries_index(new_entries, j);
    }
    assert forall|j: int| 0 <= j < old_entries.len() implies #[trigger] model_entries(old_entries)[j]
        == (old_entries[j].0@, old_entries[j].1.model()) by {
        lemma_model_entries_index(old_entries, j);
    }
    let m_old = model_entries(old_entries);
    let m_new = model_entries(new_entries);
    assert(exists|k: int| 0 <= k < m_old.len() && m_old[k].0 == key) by {
        assert(m_old[i].0 == key);
    }
    let w = spec_first_key(m_old, key);
    assert(0 <= w < m_old.len() && m_old[w].0 == key && (forall|j: int|
        0 <= j < w ==> m_old[j].0 != key)) by {
        assert(0 <= i < m_old.len() && m_old[i].0 == key && (forall|j: int|
            0 <= j < i ==> m_old[j].0 != key));
    }
    assert(w == i) by {
        if w < i {
            assert(m_old[w].0 != key);
        }
        if i < w {
            assert(m_old[i].0 != key);
        }
    }
    assert(m_new =~= m_old.update(i, (key, new_entries[i].1.model())));
}

impl Value {
    /// The held string, if this value is a string.
    pub fn get_text(&self) -> (r: Option<&String>)
        ensures
            match r {
                Some(s) => self.model() == Model::Str(s@),
                None => !(self.model() is Str),
            },
    {
        match self {
            Value::Str(s) => Some(s),
            _ => None,
        }
    }

    /// The held boolean, if this value is a boolean.
    pub fn get_bool(&self) -> (r: Option<&bool>)
        ensures
            match r {
                Some(b) => self.model() == Model::Bool(*b),
                None => !(self.model() is Bool),
            },
    {
        match self {
            Value::Bool(b) => Some(b),
            _ => None,
        }
    }

    /// The held object, if this value is an object.
    pub fn get_map(&self) -> (r: Option<&Payload>)
        ensures
            match r {
                Some(p) => self.model() == Model::Obj(p.model()),
                None => !(self.model() is Obj),
            },
    {
        match self {
            Value::Obj(p) => Some(p),
            _ => None,
        }
    }

    /// The held array, if this value is an array.
    pub fn get_array(&self) -> (r: Option<&Vec<Value>>)
        ensures
            match r {
                Some(items) => self.model() == Model::Arr(model_seq(items@)),
                None => !(self.model() is Arr),
            },
    {
        match self {
            Value::Arr(items) => Some(items),
            _ => None,
        }
    }

    /// A value with the same mathematical mirror.
    pub fn deep_clone(&self) -> (r: Value)
        ensures
            r.model() == self.model(),
        decreases self,
    {
        match self {
            Value::Null => Value::Null,
            Value::Bool(b) => Value::Bool(*b),
            Value::Int(n) => Value::Int(*n),
            Value::Str(s) => Value::Str(s.clone()),
            Value::Arr(items) => {
                let mut out: Vec<Value> = Vec::new();
                let mut i: usize = 0;
                let n = items.len();
                while i < n
                    invariant
                        i <= n,
                        n == items@.len(),
                        out@.len() == i,
                        *self == Value::Arr(*items),
                        forall|j: int| 0 <= j < i ==> (#[trigger] out@[j]).model() == items@[j].model(),
                    decreases n - i,
                {
                    proof {
                        assert(decreases_to!(*self => self->Arr_0));
                        assert(decreases_to!(self->Arr_0 => self->Arr_0@));
                        assert(decreases_to!(self->Arr_0@ => self->Arr_0@[i as int]));
                    }
                    out.push(items[i].deep_clone());
                    i = i + 1;
                }
                proof {
                    lemma_model_seq_len(items@);
                    lemma_model_seq_len(out@);
                    assert forall|j: int| 0 <= j < n implies #[trigger] model_seq(out@)[j]
                        == model_seq(items@)[j] by {
                        lemma_model_seq_index(items@, j);
                        lemma_model_seq_index(out@, j);
                    }
                    assert(model_seq(out@) =~= model_seq(items@));
                }
                Value::Arr(out)
            },
            Value::Obj(p) => Value::Obj(p.deep_clone()),
        }
    }
}

impl Payload {
    /// An object with the same mathematical mirror.
    pub fn deep_clone(&self) -> (r: Payload)
        ensures
            r.model() == self.model(),
        decreases self,
    {
        let mut out: Vec<(String, Value)> = Vec::new();
        let mut i: usize = 0;
        let n = self.entries.len();
        while i < n
            invariant
                i <= n,
                n == self.entries@.len(),
                out@.len() == i,
                forall|j: int|
                    0 <= j < i ==> ((#[trigger] out@[j]).0@ == self.entries@[j].0@ && out@[j].1.model()
                        == self.entries@[j].1.model()),
            decreases n - i,
        {
            proof {
                assert(decreases_to!(*self => self.entries));
                assert(decreases_to!(self.entries => self.entries@));
                assert(decreases_to!(self.entries@ => self.entries@[i as int]));
                assert(decreases_to!(self.entries@[i as int] => self.entries@[i as int].1));
            }
            let key = self.entries[i].0.clone();
            let value = self.entries[i].1.deep_clone();
            out.push((key, value));
            i = i + 1;
        }
        proof {
            lemma_model_entries_len(self.entries@);
            lemma_model_entries_len(out@);
            assert forall|j: int| 0 <= j < n implies #[trigger] model_entries(out@)[j]
                == model_entries(self.entries@)[j] by {
                lemma_model_entries_index(self.entries@, j);
                lemma_model_entries_index(out@, j);
            }
            assert(model_entries(out@) =~= model_entries(self.entries@));
        }
        Payload { entries: out }
    }
}

/// Whether two values have the same mathematical mirror.
pub fn value_eq(a: &Value, b: &Value) -> (r: bool)
    ensures
        r == (a.model() == b.model()),
    decreases a,
{
    match (a, b) {
        (Value::Null, Value::Null) => true,
        (Value::Bool(x), Value::Bool(y)) => x == y,
        (Value::Int(x), Value::Int(y)) => x == y,
        (Value::Str(x), Value::Str(y)) => str_eq(x.as_str(), y.as_str()),
        (Value::Arr(x), Value::Arr(y)) => {
            proof {
                lemma_model_seq_len(x@);
                lemma_model_seq_len(y@);
            }
            let n = x.len();
            if n != y.len() {
                return false;
            }
            let mut i: usize = 0;
            while i < n
                invariant
                    i <= n,
                    n == x@.len(),
                    n == y@.len(),
                    a == Value::Arr(*x),
                    b == Value::Arr(*y),
                    forall|j: int|
                        0 <= j < i ==> (#[trigger] x@[j]).model() == y@[j].model(),
                decreases n - i,
            {
                proof {
                    assert(decreases_to!(*a => a->Arr_0));
                    assert(decreases_to!(a->Arr_0 => a->Arr_0@));
                    assert(decreases_to!(a->Arr_0@ => a->Arr_0@[i as int]));
                }
                if !value_eq(&x[i], &y[i]) {
                    proof {
                        lemma_model_seq_index(x@, i as int);
                        lemma_model_seq_index(y@, i as int);
                    }
                    return false;
                }
                i = i + 1;
            }
            proof {
                assert forall|j: int| 0 <= j < n implies #[trigger] model_seq(x@)[j] == model_seq(
                    y@,
                )[j] by {
                    lemma_model_seq_index(x@, j);
                    lemma_model_seq_index(y@, j);
                }
                lemma_model_seq_len(x@);
                lemma_model_seq_len(y@);
                assert(model_seq(x@) =~= model_seq(y@));
            }
            true
        },
        (Value::Obj(p), Value::Obj(q)) => {
            proof {
                lemma_model_entries_len(p.entries@);
                lemma_model_entries_len(q.entries@);
            }
            let n = p.entries.len();
            if n != q.entries.len() {
                return false;
            }
            let mut i: usize = 0;
            while i < n
                invariant
                    i <= n,
                    n == p.entries@.len(),
                    n == q.entries@.len(),
                    a == Value::Obj(*p),
                    b == Value::Obj(*q),
                    forall|j: int|
                        0 <= j < i ==> ((#[trigger] p.entries@[j]).0@ == q.entries@[j].0@
                            && p.entries@[j].1.model() == q.entries@[j].1.model()),
                decreases n - i,
            {
                proof {
                    assert(decreases_to!(*a => a->Obj_0));
                    assert(decreases_to!(a->Obj_0 => a->Obj_0.entries));
                    assert(decreases_to!(a->Obj_0.entries => a->Obj_0.entries@));
                    assert(decreases_to!(a->Obj_0.entries@ => a->Obj_0.entries@[i as int]));
                    assert(decreases_to!(a->Obj_0.entries@[i as int] => a->Obj_0.entries@[i as int].1));
                }
                if !str_eq(p.entries[i].0.as_str(), q.entries[i].0.as_str()) {
                    proof {
                        lemma_model_entries_index(p.entries@, i as int);
                        lemma_model_entries_index(q.entries@, i as int);
                    }
                    return false;
                }
                if !value_eq(&p.entries[i].1, &q.entries[i].1) {
                    proof {
                        lemma_model_entries_index(p.entries@, i as int);
                        lemma_model_entries_index(q.entries@, i as int);
                    }
                    return false;
                }
                proof {
                    assert(p.entries@[i as int].0@ == q.entries@[i as int].0@);
                    assert(p.entries@[i as int].1.model() == q.entries@[i as int].1.model());
                }
                i = i + 1;
            }
            proof {
                assert forall|j: int| 0 <= j < n implies #[trigger] model_entries(p.entries@)[j]
                    == model_entries(q.entries@)[j] by {
                    lemma_model_entries_index(p.entries@, j);
                    lemma_model_entries_index(q.entries@, j);
                }
                lemma_model_entries_len(p.entries@);
                lemma_model_entries_len(q.entries@);
                assert(model_entries(p.entries@) =~= model_entries(q.entries@));
            }
            true
        },
        _ => {
            proof {
                lemma_models_differ(a, b);
            }
            false
        },
    }
}

/// Values built from different constructors have different mirrors.
proof fn lemma_models_differ(a: &Value, b: &Value)
    requires
        !(a is Null && b is Null),
        !(a is Bool && b is Bool),
        !(a is Int && b is Int),
        !(a is Str && b is Str),
        !(a is Arr && b is Arr),
        !(a is Obj && b is Obj),
    ensures
        a.model() != b.model(),
{
}

proof fn lemma_insert_append(
    old_entries: Seq<(String, Value)>,
    new_entries: Seq<(String, Value)>,
    key: Seq<char>,
)
    requires
        new_entries.len() == old_entries.len() + 1,
        forall|j: int| 0 <= j < old_entries.len() ==> new_entries[j] == old_entries[j],
        new_entries.last().0@ == key,
        forall|j: int|
            0 <= j < old_entries.len() ==> #[trigger] model_entries(old_entries)[j].0 != key,
    ensures
        model_entries(new_entries) == spec_insert(
            model_entries(old_entries),
            key,
            new_entries.last().1.model(),
        ),
{
    lemma_model_entries_len(old_entries);
    lemma_model_entries_len(new_entries);
    assert forall|j: int| 0 <= j < new_entries.len() implies #[trigger] model_entries(new_entries)[j]
        == (new_entries[j].0@, new_entries[j].1.model()) by {
        lemma_model_entries_index(new_entries, j);
    }
    assert forall|j: int| 0 <= j < old_entries.len() implies #[trigger] model_entries(old_entries)[j]
        == (old_entries[j].0@, old_entries[j].1.model()) by {
        lemma_model_entries_index(old_entries, j);
    }
    let m_old = model_entries(old_entries);
    assert(!(exists|k: int| 0 <= k < m_old.len() && m_old[k].0 == key));
    assert(model_entries(new_entries) =~= m_old.push((key, new_entries.last().1.model())));
}

} // verus!
