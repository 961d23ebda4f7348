//! Per-item fan-out of actions: converting payload values into
//! actions and resolving `${item}` templates against each target item.
//!
//! The executor around this walks a `target` array and, for every
//! configured action and every item, publishes the resolved action on
//! the event bus.

use vstd::prelude::*;
use crate::accessor::{AccessorBuilder, eval_parts_item, spec_parse_template};
use crate::error::ExecutorError;
use crate::matcher::{act_models, lemma_act_models_len, lemma_act_models_index};
use crate::model::{Action, ActionModel};
use crate::value::{Model, Payload, Value, model_entries, model_seq, obj_get,
    lemma_model_entries_len, lemma_model_entries_index, lemma_model_seq_len,
    lemma_model_seq_index};

verus! {

pub open spec fn str_id() -> Seq<char> {
    seq!['i', 'd']
}

pub open spec fn str_payload_key() -> Seq<char> {
    seq!['p', 'a', 'y', 'l', 'o', 'a', 'd']
}

/// What a payload value must look like to denote an action: an object
/// whose `id` is a string and whose `payload` is an object.
pub open spec fn spec_to_action(m: Model) -> Option<ActionModel> {
    match m {
        Model::Obj(entries) => match obj_get(entries, str_id()) {
            Some(Model::Str(id)) => match obj_get(entries, str_payload_key()) {
                Some(Model::Obj(payload)) => Some(
                    ActionModel { id, payload, trace_id: Seq::empty() },
                ),
                _ => None,
            },
            _ => None,
        },
        _ => None,
    }
}

/// Reads an action out of a payload value: the value must be an object
/// holding a string `id` and an object `payload`.
pub fn to_action(value: &Value) -> (r: Result<Action, ExecutorError>)
    ensures
        match r {
            Ok(a) => spec_to_action(value.model()) == Some(a.model()),
            Err(e) => spec_to_action(value.model()) is None && e is MissingArgumentError,
        },
{
    proof {
        reveal_strlit("id");
        reveal_strlit("payload");
        assert("id"@ =~= str_id());
        assert("payload"@ =~= str_payload_key());
    }
    let obj = match value {
        Value::Obj(p) => p,
        _ => {
            return Err(
                ExecutorError::MissingArgumentError {
                    message: "not a valid action format".to_owned(),
                },
            );
        },
    };
    let id = match obj.get("id") {
        Some(Value::Str(id)) => id.clone(),
        _ => {
            return Err(
                ExecutorError::MissingArgumentError {
                    message: "not a valid action format: missing id".to_owned(),
                },
            );
        },
    };
    match obj.get("payload") {
        Some(Value::Obj(payload)) => Ok(
            Action { id, payload: payload.deep_clone(), trace_id: String::new() },
        ),
        _ => Err(
            ExecutorError::MissingArgumentError {
                message: "not a valid action format: missing payload".to_owned(),
            },
        ),
    }
}

/// Resolves one payload value against an item: a string is parsed as a
/// template and replaced by its value — or kept as it is when the
/// template addresses nothing — and arrays and objects are resolved
/// entrywise. An unparsable template is an error.
pub open spec fn spec_resolve_payload(item: Model, v: Model) -> Option<Model>
    decreases v, 0int,
{
    match v {
        Model::Str(s) => match spec_parse_template(s) {
            None => None,
            Some(parts) => match eval_parts_item(parts, item) {
                Some(m) => Some(m),
                None => Some(Model::Str(s)),
            },
        },
        Model::Arr(items) => match spec_resolve_list(item, items, 0) {
            Some(rs) => Some(Model::Arr(rs)),
            None => None,
        },
        Model::Obj(entries) => match spec_resolve_entries(item, entries, 0) {
            Some(rs) => Some(Model::Obj(rs)),
            None => None,
        },
        _ => Some(v),
    }
}

/// Resolves the items from position `i` on.
pub open spec fn spec_resolve_list(item: Model, items: Seq<Model>, i: int) -> Option<Seq<Model>>
    decreases items, 1int, items.len() - i,
{
    if i < 0 {
        None
    } else if i >= items.len() {
        Some(Seq::empty())
    } else {
        match spec_resolve_payload(item, items[i]) {
            Some(r) => match spec_resolve_list(item, items, i + 1) {
                Some(rest) => Some(seq![r] + rest),
                None => None,
            },
            None => None,
        }
    }
}

/// Resolves the entries from position `i` on, keeping the keys.
pub open spec fn spec_resolve_entries(
    item: Model,
    entries: Seq<(Seq<char>, Model)>,
    i: int,
) -> Option<Seq<(Seq<char>, Model)>>
    decreases entries, 1int, entries.len() - i,
{
    if i < 0 {
        None
    } else if i >= entries.len() {
        Some(Seq::empty())
    } else {
        match spec_resolve_payload(item, entries[i].1) {
            Some(r) => match spec_resolve_entries(item, entries, i + 1) {
                Some(rest) => Some(seq![(entries[i].0, r)] + rest),
                None => None,
            },
            None => None,
        }
    }
}

fn template_error() -> (r: ExecutorError)
    ensures
        r is ActionExecutionError,
{
    ExecutorError::ActionExecutionError {
        message: "cannot build a parser for the payload text".to_owned(),
        can_retry: false,
        code: None,
        data: Payload::new(),
    }
}

/// Resolves one payload value against the current item.
pub fn resolve_payload(item: &Value, value: &Value) -> (r: Result<Value, ExecutorError>)
    ensures
        match r {
            Ok(v) => spec_resolve_payload(item.model(), value.model()) == Some(v.model()),
            Err(_) => spec_resolve_payload(item.model(), value.model()) is None,
        },
    decreases value, 0int, 0int,
{
    match value {
        Value::Str(s) => match AccessorBuilder::new().build("", s.as_str()) {
            Err(_) => Err(template_error()),
            Ok(acc) => match acc.get_with_item(item) {
                Some(v) => Ok(v),
                None => Ok(Value::Str(s.clone())),
            },
        },
        Value::Arr(items) => {
            proof {
                lemma_model_seq_len(items@);
            }
            match resolve_list(item, items, 0) {
                Ok(rs) => Ok(Value::Arr(rs)),
                Err(e) => Err(e),
            }
        },
        Value::Obj(p) => {
            proof {
                lemma_model_entries_len(p.entries@);
            }
            match resolve_entries(item, &p.entries, 0) {
                Ok(rs) => Ok(Value::Obj(Payload { entries: rs })),
                Err(e) => Err(e),
            }
        },
        Value::Null => Ok(Value::Null),
        Value::Bool(b) => Ok(Value::Bool(*b)),
        Value::Int(n) => Ok(Value::Int(*n)),
    }
}

fn resolve_list(item: &Value, items: &Vec<Value>, i: usize) -> (r: Result<Vec<Value>, ExecutorError
>)
    requires
        i <= items@.len(),
    ensures
        match r {
            Ok(rs) => spec_resolve_list(item.model(), model_seq(items@), i as int) == Some(
                model_seq(rs@),
            ),
            Err(_) => spec_resolve_list(item.model(), model_seq(items@), i as int) is None,
        },
    decreases items@, 1int, items@.len() - i,
{
    proof {
        lemma_model_seq_len(items@);
    }
    if i == items.len() {
        let v: Vec<Value> = Vec::new();
        proof {
            assert(model_seq(v@) =~= Seq::<Model>::empty());
        }
        return Ok(v);
    }
    proof {
        lemma_model_seq_index(items@, i as int);
        assert(decreases_to!(items@ => items@[i as int]));
    }
    match resolve_payload(item, &items[i]) {
        Err(e) => Err(e),
        Ok(v) => match resolve_list(item, items, i + 1) {
            Err(e) => Err(e),
            Ok(mut rest) => {
                let ghost prev = rest@;
                rest.insert(0, v);
                proof {
                    assert(rest@.subrange(1, rest@.len() as int) =~= prev);
                }
                Ok(rest)
            },
        },
    }
}

fn resolve_entries(item: &Value, entries: &Vec<(String, Value)>, i: usize) -> (r: Result<
    Vec<(String, Value)>,
    ExecutorError,
>)
    requires
        i <= entries@.len(),
    ensures
        match r {
            Ok(rs) => spec_resolve_entries(item.model(), model_entries(entries@), i as int)
                == Some(model_entries(rs@)),
            Err(_) => spec_resolve_entries(item.model(), model_entries(entries@), i as int)
                is None,
        },
    decreases entries@, 1int, entries@.len() - i,
{
    proof {
        lemma_model_entries_len(entries@);
    }
    if i == entries.len() {
        let v: Vec<(String, Value)> = Vec::new();
        proof {
            assert(model_entries(v@) =~= Seq::<(Seq<char>, Model)>::empty());
        }
        return Ok(v);
    }
    proof {
        lemma_model_entries_index(entries@, i as int);
        assert(decreases_to!(entries@ => entries@[i as int]));
        assert(decreases_to!(entries@[i as int] => entries@[i as int].1));
    }
    match resolve_payload(item, &entries[i].1) {
        Err(e) => Err(e),
        Ok(v) => match resolve_entries(item, entries, i + 1) {
            Err(e) => Err(e),
            Ok(mut rest) => {
                let ghost prev = rest@;
                let key = entries[i].0.clone();
                rest.insert(0, (key, v));
                proof {
                    assert(rest@.subrange(1, rest@.len() as int) =~= prev);
                }
                Ok(rest)
            },
        },
    }
}

/// The action after resolving its whole payload against `item`: the
/// id and trace id are kept.
pub open spec fn spec_resolve_action(item: Model, a: ActionModel) -> Option<ActionModel> {
    match spec_resolve_entries(item, a.payload, 0) {
        Some(rs) => Some(ActionModel { id: a.id, payload: rs, trace_id: a.trace_id }),
        None => None,
    }
}

/// Resolves every entry of an action's payload against the current
/// item.
pub fn resolve_action(item: &Value, action: &Action) -> (r: Result<Action, ExecutorError>)
    ensures
        match r {
            Ok(a) => spec_resolve_action(item.model(), action.model()) == Some(a.model()),
            Err(_) => spec_resolve_action(item.model(), action.model()) is None,
        },
{
    match resolve_entries(item, &action.payload.entries, 0) {
        Ok(rs) => Ok(
            Action {
                id: action.id.clone(),
                payload: Payload { entries: rs },
                trace_id: action.trace_id.clone(),
            },
        ),
        Err(e) => Err(e),
    }
}


pub open spec fn str_target() -> Seq<char> {
    seq!['t', 'a', 'r', 'g', 'e', 't']
}

pub open spec fn str_actions_key() -> Seq<char> {
    seq!['a', 'c', 't', 'i', 'o', 'n', 's']
}

/// The well-formed actions among the payload values from position `i`
/// on; values that do not denote an action are skipped.
pub open spec fn spec_valid_actions(values: Seq<Model>, i: int) -> Seq<ActionModel>
    decreases values.len() - i,
{
    if i < 0 || i >= values.len() {
        Seq::empty()
    } else {
        match spec_to_action(values[i]) {
            Some(a) => seq![a] + spec_valid_actions(values, i + 1),
            None => spec_valid_actions(values, i + 1),
        }
    }
}

/// One action resolved against the items from position `j` on; items
/// on which resolution fails are skipped.
pub open spec fn spec_fanout_one(a: ActionModel, items: Seq<Model>, j: int) -> Seq<ActionModel>
    decreases items.len() - j,
{
    if j < 0 || j >= items.len() {
        Seq::empty()
    } else {
        match spec_resolve_action(items[j], a) {
            Some(ra) => seq![ra] + spec_fanout_one(a, items, j + 1),
            None => spec_fanout_one(a, items, j + 1),
        }
    }
}

/// Every action from position `i` on, resolved against every item, in
/// action-major order.
pub open spec fn spec_fanout(actions: Seq<ActionModel>, items: Seq<Model>, i: int) -> Seq<
    ActionModel,
>
    decreases actions.len() - i,
{
    if i < 0 || i >= actions.len() {
        Seq::empty()
    } else {
        spec_fanout_one(actions[i], items, 0) + spec_fanout(actions, items, i + 1)
    }
}

/// The actions a fan-out payload asks to publish: every well-formed
/// configured action resolved against every target item; nothing when
/// `target` or `actions` is missing or not an array.
pub open spec fn spec_foreach(payload: Seq<(Seq<char>, Model)>) -> Option<Seq<ActionModel>> {
    match obj_get(payload, str_target()) {
        Some(Model::Arr(items)) => match obj_get(payload, str_actions_key()) {
            Some(Model::Arr(avs)) => Some(
                spec_fanout(spec_valid_actions(avs, 0), items, 0),
            ),
            _ => None,
        },
        _ => None,
    }
}

/// The whole fan-out: reads the target items and the configured
/// actions out of the payload and resolves every action against every
/// item, in order. The caller publishes each returned action on the
/// bus under its id.
pub fn foreach_actions(payload: &Payload) -> (r: Result<Vec<Action>, ExecutorError>)
    ensures
        match r {
            Ok(out) => spec_foreach(payload.model()) == Some(act_models(out@)),
            Err(e) => spec_foreach(payload.model()) is None && e is MissingArgumentError,
        },
{
    proof {
        reveal_strlit("target");
        reveal_strlit("actions");
        assert("target"@ =~= str_target());
        assert("actions"@ =~= str_actions_key());
    }
    let items = match payload.get("target") {
        Some(Value::Arr(items)) => items,
        _ => {
            return Err(
                ExecutorError::MissingArgumentError {
                    message: "no target key found in the payload, or it is not an array"
                        .to_owned(),
                },
            );
        },
    };
    let action_values = match payload.get("actions") {
        Some(Value::Arr(avs)) => avs,
        _ => {
            return Err(
                ExecutorError::MissingArgumentError {
                    message: "no actions key found in the payload".to_owned(),
                },
            );
        },
    };
    proof {
        lemma_model_seq_len(action_values@);
        lemma_model_seq_len(items@);
    }
    let ghost avm = model_seq(action_values@);
    let ghost im = model_seq(items@);
    let an = action_values.len();
    let mut actions: Vec<Action> = Vec::new();
    let mut i: usize = 0;
    while i < an
        invariant
            i <= an,
            an == action_values@.len(),
            avm == model_seq(action_values@),
            avm.len() == an,
            spec_valid_actions(avm, 0) =~= act_models(actions@) + spec_valid_actions(
                avm,
                i as int,
            ),
        decreases an - i,
    {
        proof {
            lemma_model_seq_index(action_values@, i as int);
        }
        match to_action(&action_values[i]) {
            Ok(a) => {
                let ghost prev = actions@;
                actions.push(a);
                proof {
                    assert(actions@.subrange(0, prev.len() as int) =~= prev);
                    lemma_act_models_snoc_here(actions@);
                    assert(act_models(actions@) + spec_valid_actions(avm, i + 1)
                        =~= act_models(prev) + spec_valid_actions(avm, i as int));
                }
            },
            Err(_) => {},
        }
        i = i + 1;
    }
    proof {
        assert(spec_valid_actions(avm, an as int) =~= Seq::<ActionModel>::empty());
        assert(act_models(actions@) =~= spec_valid_actions(avm, 0));
        lemma_act_models_len(actions@);
    }
    let ghost am = act_models(actions@);
    let tn = items.len();
    let kn = actions.len();
    let mut out: Vec<Action> = Vec::new();
    let mut k: usize = 0;
    while k < kn
        invariant
            k <= kn,
            kn == actions@.len(),
            tn == items@.len(),
            im == model_seq(items@),
            im.len() == tn,
            am == act_models(actions@),
            am.len() == kn,
            spec_fanout(am, im, 0) =~= act_models(out@) + spec_fanout(am, im, k as int),
        decreases kn - k,
    {
        proof {
            lemma_act_models_index(actions@, k as int);
        }
        let ghost taken = act_models(out@);
        let mut j: usize = 0;
        while j < tn
            invariant
                j <= tn,
                k < kn,
                kn == actions@.len(),
                tn == items@.len(),
                im == model_seq(items@),
                im.len() == tn,
                am == act_models(actions@),
                am.len() == kn,
                am[k as int] == actions@[k as int].model(),
                act_models(out@) =~= taken + spec_fanout_one_prefix(
                    am[k as int],
                    im,
                    j as int,
                ),
            decreases tn - j,
        {
            proof {
                lemma_model_seq_index(items@, j as int);
            }
            match resolve_action(&items[j], &actions[k]) {
                Ok(ra) => {
                    let ghost prev = out@;
                    out.push(ra);
                    proof {
                        assert(out@.subrange(0, prev.len() as int) =~= prev);
                        lemma_act_models_snoc_here(out@);
                        lemma_fanout_prefix_step(am[k as int], im, j as int);
                        assert(act_models(out@) =~= taken + spec_fanout_one_prefix(
                            am[k as int],
                            im,
                            j + 1,
                        ));
                    }
                },
                Err(_) => {
                    proof {
                        lemma_fanout_prefix_step(am[k as int], im, j as int);
                        assert(spec_fanout_one_prefix(am[k as int], im, j + 1)
                            =~= spec_fanout_one_prefix(am[k as int], im, j as int));
                    }
                },
            }
            j = j + 1;
        }
        proof {
            lemma_fanout_prefix_whole(am[k as int], im);
            assert(act_models(out@) =~= taken + spec_fanout_one(am[k as int], im, 0));
            assert(spec_fanout(am, im, k as int) =~= spec_fanout_one(am[k as int], im, 0)
                + spec_fanout(am, im, k + 1));
            assert(act_models(out@) + spec_fanout(am, im, k + 1) =~= taken + spec_fanout(
                am,
                im,
                k as int,
            ));
        }
        k = k + 1;
    }
    proof {
        assert(spec_fanout(am, im, kn as int) =~= Seq::<ActionModel>::empty());
        assert(act_models(out@) =~= spec_fanout(am, im, 0));
    }
    Ok(out)
}

/// The first `j` resolutions of one action, in item order, skipping
/// failures.
pub open spec fn spec_fanout_one_prefix(a: ActionModel, items: Seq<Model>, j: int) -> Seq<
    ActionModel,
>
    decreases j,
{
    if j <= 0 || j > items.len() {
        Seq::empty()
    } else {
        spec_fanout_one_prefix(a, items, j - 1) + (match spec_resolve_action(items[j - 1], a) {
            Some(ra) => seq![ra],
            None => Seq::empty(),
        })
    }
}

proof fn lemma_fanout_prefix_step(a: ActionModel, items: Seq<Model>, j: int)
    requires
        0 <= j < items.len(),
    ensures
        spec_fanout_one_prefix(a, items, j + 1) == spec_fanout_one_prefix(a, items, j) + (
        match spec_resolve_action(items[j], a) {
            Some(ra) => seq![ra],
            None => Seq::<ActionModel>::empty(),
        }),
{
}

/// The complete prefix equals the suffix form of the same scan.
proof fn lemma_fanout_prefix_whole(a: ActionModel, items: Seq<Model>)
    ensures
        spec_fanout_one_prefix(a, items, items.len() as int) == spec_fanout_one(a, items, 0),
{
    lemma_fanout_agree(a, items, 0);
}

proof fn lemma_fanout_agree(a: ActionModel, items: Seq<Model>, j: int)
    requires
        0 <= j <= items.len(),
    ensures
        spec_fanout_one_prefix(a, items, items.len() as int) == spec_fanout_one_prefix(
            a,
            items,
            j,
        ) + spec_fanout_one(a, items, j),
    decreases items.len() - j,
{
    if j < items.len() {
        lemma_fanout_agree(a, items, j + 1);
        lemma_fanout_prefix_step(a, items, j);
        assert(spec_fanout_one_prefix(a, items, j) + spec_fanout_one(a, items, j)
            =~= spec_fanout_one_prefix(a, items, j + 1) + spec_fanout_one(a, items, j + 1));
    } else {
        assert(spec_fanout_one(a, items, j) =~= Seq::<ActionModel>::empty());
        assert(spec_fanout_one_prefix(a, items, j) + spec_fanout_one(a, items, j)
            =~= spec_fanout_one_prefix(a, items, j));
    }
}

/// A mirror sequence grows by the mirror of the pushed action.
proof fn lemma_act_models_snoc_here(acts: Seq<Action>)
    requires
        acts.len() > 0,
    ensures
        act_models(acts) == act_models(acts.subrange(0, acts.len() - 1)) + seq![
            acts.last().model(),
        ],
{
    let n = acts.len() as int;
    lemma_act_models_len(acts);
    lemma_act_models_len(acts.subrange(0, n - 1));
    assert forall|j: int| 0 <= j < n implies #[trigger] act_models(acts)[j] == (act_models(
        acts.subrange(0, n - 1),
    ) + seq![acts.last().model()])[j] by {
        lemma_act_models_index(acts, j);
        if j < n - 1 {
            lemma_act_models_index(acts.subrange(0, n - 1), j);
        }
    }
    assert(act_models(acts) =~= act_models(acts.subrange(0, n - 1)) + seq![acts.last().model()]);
}

} // verus!
