//! Events, extracted variables and actions: what flows through the
//! matcher.

use vstd::prelude::*;
use crate::value::{Value, Payload, Model, model_entries};

verus! {

/// An input event: immutable after ingestion.
#[derive(Debug, PartialEq)]
pub struct Event {
    /// Correlation id propagated through processing.
    pub trace_id: String,
    /// The event type; rules commonly match on it.
    pub event_type: String,
    /// Creation instant, in milliseconds since the epoch. Signed, so
    /// the instant lives inside the integer value model that payload
    /// numbers use.
    pub created_ms: i64,
    /// The event body.
    pub payload: Payload,
    /// Transport metadata added by collectors.
    pub metadata: Payload,
}

/// The mathematical mirror of an [`Event`].
pub struct EventModel {
    pub trace_id: Seq<char>,
    pub event_type: Seq<char>,
    pub created_ms: int,
    pub payload: Seq<(Seq<char>, Model)>,
    pub metadata: Seq<(Seq<char>, Model)>,
}

impl Event {
    /// The mathematical mirror of this event.
    pub open spec fn model(self) -> EventModel {
        EventModel {
            trace_id: self.trace_id@,
            event_type: self.event_type@,
            created_ms: self.created_ms as int,
            payload: model_entries(self.payload.entries@),
            metadata: model_entries(self.metadata.entries@),
        }
    }

    /// An event of the given type with empty payload and metadata.
    pub fn new(event_type: &str) -> (r: Event)
        ensures
            r.model() == (EventModel {
                trace_id: Seq::<char>::empty(),
                event_type: event_type@,
                created_ms: 0,
                payload: Seq::<(Seq<char>, Model)>::empty(),
                metadata: Seq::<(Seq<char>, Model)>::empty(),
            }),
    {
        Event {
            trace_id: String::new(),
            event_type: event_type.to_owned(),
            created_ms: 0,
            payload: Payload::new(),
            metadata: Payload::new(),
        }
    }

    /// An event of the given type carrying `payload`.
    pub fn new_with_payload(event_type: &str, payload: Payload) -> (r: Event)
        ensures
            r.model() == (EventModel {
                trace_id: Seq::<char>::empty(),
                event_type: event_type@,
                created_ms: 0,
                payload: payload.model(),
                metadata: Seq::<(Seq<char>, Model)>::empty(),
            }),
    {
        Event {
            trace_id: String::new(),
            event_type: event_type.to_owned(),
            created_ms: 0,
            payload,
            metadata: Payload::new(),
        }
    }
}

/// The event seen as a value, for whole-event accessor expressions.
pub open spec fn event_as_model(e: EventModel) -> Model {
    Model::Obj(
        seq![
            (seq!['t', 'r', 'a', 'c', 'e', '_', 'i', 'd'], Model::Str(e.trace_id)),
            (seq!['t', 'y', 'p', 'e'], Model::Str(e.event_type)),
            (seq!['c', 'r', 'e', 'a', 't', 'e', 'd', '_', 'm', 's'], Model::Int(e.created_ms)),
            (seq!['p', 'a', 'y', 'l', 'o', 'a', 'd'], Model::Obj(e.payload)),
            (seq!['m', 'e', 't', 'a', 'd', 'a', 't', 'a'], Model::Obj(e.metadata)),
        ],
    )
}

impl Event {
    /// This event as a value: an object with the five event fields.
    pub fn as_value(&self) -> (r: Value)
        ensures
            r.model() == event_as_model(self.model()),
    {
        let mut entries: Vec<(String, Value)> = Vec::new();
        entries.push((trace_id_key(), Value::Str(self.trace_id.clone())));
        entries.push((type_key(), Value::Str(self.event_type.clone())));
        entries.push((created_ms_key(), Value::Int(self.created_ms)));
        entries.push((payload_key(), Value::Obj(self.payload.deep_clone())));
        entries.push((metadata_key(), Value::Obj(self.metadata.deep_clone())));
        let r = Value::Obj(Payload { entries });
        proof {
            reveal_strlit("trace_id");
            reveal_strlit("type");
            reveal_strlit("created_ms");
            reveal_strlit("payload");
            reveal_strlit("metadata");
            assert(r.model() is Obj);
            assert(r->Obj_0.entries@.len() == 5);
            crate::value::lemma_model_entries_len(r->Obj_0.entries@);
            crate::value::lemma_model_entries_index(r->Obj_0.entries@, 0);
            crate::value::lemma_model_entries_index(r->Obj_0.entries@, 1);
            crate::value::lemma_model_entries_index(r->Obj_0.entries@, 2);
            crate::value::lemma_model_entries_index(r->Obj_0.entries@, 3);
            crate::value::lemma_model_entries_index(r->Obj_0.entries@, 4);
            assert(model_entries(r->Obj_0.entries@) =~= event_as_model(self.model())->Obj_0);
        }
        r
    }
}

fn trace_id_key() -> (r: String)
    ensures
        r@ == seq!['t', 'r', 'a', 'c', 'e', '_', 'i', 'd'],
{
    proof {
        reveal_strlit("trace_id");
    }
    let r = "trace_id".to_owned();
    proof {
        assert(r@ =~= seq!['t', 'r', 'a', 'c', 'e', '_', 'i', 'd']);
    }
    r
}

fn type_key() -> (r: String)
    ensures
        r@ == seq!['t', 'y', 'p', 'e'],
{
    proof {
        reveal_strlit("type");
    }
    let r = "type".to_owned();
    proof {
        assert(r@ =~= seq!['t', 'y', 'p', 'e']);
    }
    r
}

fn created_ms_key() -> (r: String)
    ensures
        r@ == seq!['c', 'r', 'e', 'a', 't', 'e', 'd', '_', 'm', 's'],
{
    proof {
        reveal_strlit("created_ms");
    }
    let r = "created_ms".to_owned();
    proof {
        assert(r@ =~= seq!['c', 'r', 'e', 'a', 't', 'e', 'd', '_', 'm', 's']);
    }
    r
}

fn payload_key() -> (r: String)
    ensures
        r@ == seq!['p', 'a', 'y', 'l', 'o', 'a', 'd'],
{
    proof {
        reveal_strlit("payload");
    }
    let r = "payload".to_owned();
    proof {
        assert(r@ =~= seq!['p', 'a', 'y', 'l', 'o', 'a', 'd']);
    }
    r
}

fn metadata_key() -> (r: String)
    ensures
        r@ == seq!['m', 'e', 't', 'a', 'd', 'a', 't', 'a'],
{
    proof {
        reveal_strlit("metadata");
    }
    let r = "metadata".to_owned();
    proof {
        assert(r@ =~= seq!['m', 'e', 't', 'a', 'd', 'a', 't', 'a']);
    }
    r
}

/// Variables written by rule extractors during processing, scoped by
/// rule name, in insertion order.
#[derive(Debug, PartialEq)]
pub struct ExtractedVars {
    pub entries: Vec<(String, String, Value)>,
}

/// The mirror of a sequence of extracted variables.
pub open spec fn vars_model(entries: Seq<(String, String, Value)>) -> Seq<
    (Seq<char>, Seq<char>, Model),
>
    decreases entries,
{
    if entries.len() == 0 {
        Seq::empty()
    } else {
        seq![(entries[0].0@, entries[0].1@, entries[0].2.model())] + vars_model(
            entries.subrange(1, entries.len() as int),
        )
    }
}

pub broadcast proof fn lemma_vars_model_len(entries: Seq<(String, String, Value)>)
    ensures
        #[trigger] vars_model(entries).len() == entries.len(),
    decreases entries,
{
    if entries.len() > 0 {
        lemma_vars_model_len(entries.subrange(1, entries.len() as int));
    }
}

pub broadcast proof fn lemma_vars_model_index(entries: Seq<(String, String, Value)>, i: int)
    requires
        0 <= i < entries.len(),
    ensures
        #[trigger] vars_model(entries)[i] == (entries[i].0@, entries[i].1@, entries[i].2.model()),
    decreases entries,
{
    lemma_vars_model_len(entries);
    if i > 0 {
        lemma_vars_model_index(entries.subrange(1, entries.len() as int), i - 1);
    }
}

/// Looks up the variable `var` of rule `rule`, starting at position `i`;
/// the first matching entry wins.
pub open spec fn vars_get_from(
    vars: Seq<(Seq<char>, Seq<char>, Model)>,
    rule: Seq<char>,
    var: Seq<char>,
    i: int,
) -> Option<Model>
    decreases vars.len() - i,
{
    if i < 0 || i >= vars.len() {
        None
    } else if vars[i].0 == rule && vars[i].1 == var {
        Some(vars[i].2)
    } else {
        vars_get_from(vars, rule, var, i + 1)
    }
}

/// Looks up the variable `var` of rule `rule`; the first matching entry
/// wins.
pub open spec fn vars_get(
    vars: Seq<(Seq<char>, Seq<char>, Model)>,
    rule: Seq<char>,
    var: Seq<char>,
) -> Option<Model> {
    vars_get_from(vars, rule, var, 0)
}

impl ExtractedVars {
    /// The mirror of these variables.
    pub open spec fn model(self) -> Seq<(Seq<char>, Seq<char>, Model)> {
        vars_model(self.entries@)
    }

    /// No variables.
    pub fn new() -> (r: ExtractedVars)
        ensures
            r.model() == Seq::<(Seq<char>, Seq<char>, Model)>::empty(),
    {
        ExtractedVars { entries: Vec::new() }
    }

    /// A reference to the value of `var` within `rule`, if present.
    pub fn get(&self, rule: &str, var: &str) -> (r: Option<&Value>)
        ensures
            match r {
                Some(v) => vars_get(self.model(), rule@, var@) == Some(v.model()),
                None => vars_get(self.model(), rule@, var@) is None,
            },
    {
        proof {
            lemma_vars_model_len(self.entries@);
        }
        let n = self.entries.len();
        let mut i: usize = 0;
        while i < n
            invariant
                i <= n,
                n == self.entries@.len(),
                self.model().len() == n,
                vars_get(self.model(), rule@, var@) == vars_get_from(
                    self.model(),
                    rule@,
                    var@,
                    i as int,
                ),
            decreases n - i,
        {
            proof {
                lemma_vars_model_index(self.entries@, i as int);
            }
            if crate::value::str_eq(self.entries[i].0.as_str(), rule) && crate::value::str_eq(
                self.entries[i].1.as_str(),
                var,
            ) {
                return Some(&self.entries[i].2);
            }
            i = i + 1;
        }
        None
    }

    /// Records `value` as the variable `var` of rule `rule`, appended
    /// after all existing entries.
    pub fn push(&mut self, rule: String, var: String, value: Value)
        ensures
            final(self).model() == old(self).model().push((rule@, var@, value.model())),
    {
        proof {
            lemma_vars_model_len(self.entries@);
        }
        self.entries.push((rule, var, value));
        proof {
            lemma_vars_model_len(self.entries@);
            assert forall|j: int| 0 <= j < self.entries@.len() implies #[trigger] vars_model(
                self.entries@,
            )[j] == (self.entries@[j].0@, self.entries@[j].1@, self.entries@[j].2.model()) by {
                lemma_vars_model_index(self.entries@, j);
            }
            assert forall|j: int| 0 <= j < old(self).entries@.len() implies #[trigger] vars_model(
                old(self).entries@,
            )[j] == (old(self).entries@[j].0@, old(self).entries@[j].1@, old(
                self,
            ).entries@[j].2.model()) by {
                lemma_vars_model_index(old(self).entries@, j);
            }
            assert(self.model() =~= old(self).model().push(
                (self.entries@.last().0@, self.entries@.last().1@, self.entries@.last().2.model()),
            ));
        }
    }
}

/// The unit dispatched to executors once a rule has matched.
#[derive(Debug, PartialEq)]
pub struct Action {
    pub id: String,
    pub payload: Payload,
    pub trace_id: String,
}

/// The mathematical mirror of an [`Action`].
pub struct ActionModel {
    pub id: Seq<char>,
    pub payload: Seq<(Seq<char>, Model)>,
    pub trace_id: Seq<char>,
}

impl Action {
    /// The mathematical mirror of this action.
    pub open spec fn model(self) -> ActionModel {
        ActionModel { id: self.id@, payload: self.payload.model(), trace_id: self.trace_id@ }
    }

    /// An action with the given id and an empty payload.
    pub fn new(id: &str) -> (r: Action)
        ensures
            r.model() == (ActionModel {
                id: id@,
                payload: Seq::<(Seq<char>, Model)>::empty(),
                trace_id: Seq::<char>::empty(),
            }),
    {
        Action { id: id.to_owned(), payload: Payload::new(), trace_id: String::new() }
    }

    /// An action with the same mathematical mirror.
    pub fn deep_clone(&self) -> (r: Action)
        ensures
            r.model() == self.model(),
    {
        Action {
            id: self.id.clone(),
            payload: self.payload.deep_clone(),
            trace_id: self.trace_id.clone(),
        }
    }

    /// An action with the given id and payload.
    pub fn new_with_payload(id: &str, payload: Payload) -> (r: Action)
        ensures
            r.model() == (ActionModel {
                id: id@,
                payload: payload.model(),
                trace_id: Seq::<char>::empty(),
            }),
    {
        Action { id: id.to_owned(), payload, trace_id: String::new() }
    }
}

} // verus!
