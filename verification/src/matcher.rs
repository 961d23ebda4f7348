//! The matcher: compiling a validated configuration into an executable
//! tree, and processing events against it.

use vstd::prelude::*;
use crate::accessor::{Accessor, AccessorBuilder, PartModel, eval_parts, spec_parse_template};
use crate::config::{MatcherConfig, ConfigModel, Rule, RuleModel, node_models, rule_models,
    with_models, action_models, lemma_node_models_len, lemma_node_models_index,
    lemma_rule_models_len, lemma_rule_models_index, lemma_with_models_len, lemma_with_models_index,
    lemma_action_models_len, lemma_action_models_index};
use crate::error::MatcherError;
use crate::extractor::{CompiledExtractor, CompiledExtractorModel, compile_extractor,
    extract_value};
use crate::model::{Action, ActionModel, Event, EventModel, ExtractedVars};
use crate::operator::{CompiledOperator, CompiledOpModel, compile_op, eval_op};
use crate::validator::{MatcherConfigValidator, spec_config_valid};
use crate::value::{Model, Payload, Value, model_entries, model_seq, lemma_model_entries_len,
    lemma_model_entries_index, lemma_model_seq_len, lemma_model_seq_index};

verus! {

// ---------------------------------------------------------------------
// Compiled action payloads
// ---------------------------------------------------------------------

/// An action payload value compiled for resolution: every string of the
/// configured payload has been parsed into a template.
#[derive(Debug)]
pub enum CValue {
    Null,
    Bool(bool),
    Int(i64),
    Tmpl(Accessor),
    Arr(Vec<CValue>),
    Obj(Vec<(String, CValue)>),
}

/// The mirror of a [`CValue`].
pub enum CValueModel {
    Null,
    Bool(bool),
    Int(int),
    Tmpl(Seq<PartModel>),
    Arr(Seq<CValueModel>),
    Obj(Seq<(Seq<char>, CValueModel)>),
}

/// The mirror of a sequence of compiled values.
pub open spec fn cvalue_models(items: Seq<CValue>) -> Seq<CValueModel>
    decreases items,
{
    if items.len() == 0 {
        Seq::empty()
    } else {
        seq![items[0].model()] + cvalue_models(items.subrange(1, items.len() as int))
    }
}

/// The mirror of a sequence of compiled object entries.
pub open spec fn centry_models(entries: Seq<(String, CValue)>) -> Seq<(Seq<char>, CValueModel)>
    decreases entries,
{
    if entries.len() == 0 {
        Seq::empty()
    } else {
        seq![(entries[0].0@, entries[0].1.model())] + centry_models(
            entries.subrange(1, entries.len() as int),
        )
    }
}

impl CValue {
    /// The mirror of this compiled value.
    pub open spec fn model(self) -> CValueModel
        decreases self,
    {
        match self {
            CValue::Null => CValueModel::Null,
            CValue::Bool(b) => CValueModel::Bool(b),
            CValue::Int(n) => CValueModel::Int(n as int),
            CValue::Tmpl(a) => CValueModel::Tmpl(a.model()),
            CValue::Arr(items) => CValueModel::Arr(cvalue_models(items@)),
            CValue::Obj(entries) => CValueModel::Obj(centry_models(entries@)),
        }
    }
}

pub broadcast proof fn lemma_cvalue_models_len(items: Seq<CValue>)
    ensures
        #[trigger] cvalue_models(items).len() == items.len(),
    decreases items,
{
    if items.len() > 0 {
        lemma_cvalue_models_len(items.subrange(1, items.len() as int));
    }
}

pub broadcast proof fn lemma_cvalue_models_index(items: Seq<CValue>, i: int)
    requires
        0 <= i < items.len(),
    ensures
        #[trigger] cvalue_models(items)[i] == items[i].model(),
    decreases items,
{
    lemma_cvalue_models_len(items);
    if i > 0 {
        lemma_cvalue_models_index(items.subrange(1, items.len() as int), i - 1);
    }
}

pub broadcast proof fn lemma_centry_models_len(entries: Seq<(String, CValue)>)
    ensures
        #[trigger] centry_models(entries).len() == entries.len(),
    decreases entries,
{
    if entries.len() > 0 {
        lemma_centry_models_len(entries.subrange(1, entries.len() as int));
    }
}

pub broadcast proof fn lemma_centry_models_index(entries: Seq<(String, CValue)>, i: int)
    requires
        0 <= i < entries.len(),
    ensures
        #[trigger] centry_models(entries)[i] == (entries[i].0@, entries[i].1.model()),
    decreases entries,
{
    lemma_centry_models_len(entries);
    if i > 0 {
        lemma_centry_models_index(entries.subrange(1, entries.len() as int), i - 1);
    }
}

/// Compiles a payload value: strings become templates, arrays and
/// objects are compiled entrywise; an unparsable template spoils the
/// compilation.
pub open spec fn compile_cvalue(m: Model) -> Option<CValueModel>
    decreases m, 0int,
{
    match m {
        Model::Null => Some(CValueModel::Null),
        Model::Bool(b) => Some(CValueModel::Bool(b)),
        Model::Int(n) => Some(CValueModel::Int(n)),
        Model::Str(s) => match spec_parse_template(s) {
            Some(parts) => Some(CValueModel::Tmpl(parts)),
            None => None,
        },
        Model::Arr(items) => match compile_cvalue_list(items, 0) {
            Some(cs) => Some(CValueModel::Arr(cs)),
            None => None,
        },
        Model::Obj(entries) => match compile_cvalue_entries(entries, 0) {
            Some(cs) => Some(CValueModel::Obj(cs)),
            None => None,
        },
    }
}

/// Compiles the items from position `i` on.
pub open spec fn compile_cvalue_list(items: Seq<Model>, i: int) -> Option<Seq<CValueModel>>
    decreases items, 1int, items.len() - i,
{
    if i < 0 {
        None
    } else if i >= items.len() {
        Some(Seq::empty())
    } else {
        match compile_cvalue(items[i]) {
            Some(c) => match compile_cvalue_list(items, i + 1) {
                Some(rest) => Some(seq![c] + rest),
                None => None,
            },
            None => None,
        }
    }
}

/// Compiles the entries from position `i` on.
pub open spec fn compile_cvalue_entries(entries: Seq<(Seq<char>, Model)>, i: int) -> Option<
    Seq<(Seq<char>, CValueModel)>,
>
    decreases entries, 1int, entries.len() - i,
{
    if i < 0 {
        None
    } else if i >= entries.len() {
        Some(Seq::empty())
    } else {
        match compile_cvalue(entries[i].1) {
            Some(c) => match compile_cvalue_entries(entries, i + 1) {
                Some(rest) => Some(seq![(entries[i].0, c)] + rest),
                None => None,
            },
            None => None,
        }
    }
}

/// Resolves a compiled payload value against an event: templates
/// evaluate and render; one that yields nothing resolves to null.
pub open spec fn resolve_cvalue(
    cv: CValueModel,
    ev: EventModel,
    vars: Seq<(Seq<char>, Seq<char>, Model)>,
) -> Model
    decreases cv, 0int,
{
    match cv {
        CValueModel::Null => Model::Null,
        CValueModel::Bool(b) => Model::Bool(b),
        CValueModel::Int(n) => Model::Int(n),
        CValueModel::Tmpl(parts) => match eval_parts(parts, ev, vars) {
            Some(m) => m,
            None => Model::Null,
        },
        CValueModel::Arr(items) => Model::Arr(resolve_cvalue_list(items, ev, vars, 0)),
        CValueModel::Obj(entries) => Model::Obj(resolve_cvalue_entries(entries, ev, vars, 0)),
    }
}

/// Resolves the items from position `i` on.
pub open spec fn resolve_cvalue_list(
    items: Seq<CValueModel>,
    ev: EventModel,
    vars: Seq<(Seq<char>, Seq<char>, Model)>,
    i: int,
) -> Seq<Model>
    decreases items, 1int, items.len() - i,
{
    if i < 0 || i >= items.len() {
        Seq::empty()
    } else {
        seq![resolve_cvalue(items[i], ev, vars)] + resolve_cvalue_list(items, ev, vars, i + 1)
    }
}

/// Resolves the entries from position `i` on.
pub open spec fn resolve_cvalue_entries(
    entries: Seq<(Seq<char>, CValueModel)>,
    ev: EventModel,
    vars: Seq<(Seq<char>, Seq<char>, Model)>,
    i: int,
) -> Seq<(Seq<char>, Model)>
    decreases entries, 1int, entries.len() - i,
{
    if i < 0 || i >= entries.len() {
        Seq::empty()
    } else {
        seq![(entries[i].0, resolve_cvalue(entries[i].1, ev, vars))] + resolve_cvalue_entries(
            entries,
            ev,
            vars,
            i + 1,
        )
    }
}

fn build_cvalue(v: &Value) -> (r: Result<CValue, MatcherError>)
    ensures
        match r {
            Ok(c) => compile_cvalue(v.model()) == Some(c.model()),
            Err(_) => compile_cvalue(v.model()) is None,
        },
    decreases v, 0int, 0int,
{
    match v {
        Value::Null => Ok(CValue::Null),
        Value::Bool(b) => Ok(CValue::Bool(*b)),
        Value::Int(n) => Ok(CValue::Int(*n)),
        Value::Str(s) => match AccessorBuilder::new().build("", s.as_str()) {
            Ok(acc) => Ok(CValue::Tmpl(acc)),
            Err(e) => Err(e),
        },
        Value::Arr(items) => {
            proof {
                lemma_model_seq_len(items@);
            }
            match build_cvalue_list(items, 0) {
                Ok(cs) => Ok(CValue::Arr(cs)),
                Err(e) => Err(e),
            }
        },
        Value::Obj(p) => {
            proof {
                lemma_model_entries_len(p.entries@);
            }
            match build_cvalue_entries(&p.entries, 0) {
                Ok(cs) => Ok(CValue::Obj(cs)),
                Err(e) => Err(e),
            }
        },
    }
}

fn build_cvalue_list(items: &Vec<Value>, i: usize) -> (r: Result<Vec<CValue>, MatcherError>)
    requires
        i <= items@.len(),
    ensures
        match r {
            Ok(cs) => compile_cvalue_list(model_seq(items@), i as int) == Some(cvalue_models(cs@)),
            Err(_) => compile_cvalue_list(model_seq(items@), i as int) is None,
        },
    decreases items@, 1int, items@.len() - i,
{
    proof {
        lemma_model_seq_len(items@);
    }
    if i == items.len() {
        let v: Vec<CValue> = Vec::new();
        proof {
            assert(cvalue_models(v@) =~= Seq::<CValueModel>::empty());
        }
        return Ok(v);
    }
    proof {
        lemma_model_seq_index(items@, i as int);
        assert(decreases_to!(items@ => items@[i as int]));
    }
    match build_cvalue(&items[i]) {
        Err(e) => Err(e),
        Ok(c) => match build_cvalue_list(items, i + 1) {
            Err(e) => Err(e),
            Ok(mut rest) => {
                let ghost prev = rest@;
                rest.insert(0, c);
                proof {
                    assert(rest@.subrange(1, rest@.len() as int) =~= prev);
                }
                Ok(rest)
            },
        },
    }
}

fn build_cvalue_entries(entries: &Vec<(String, Value)>, i: usize) -> (r: Result<
    Vec<(String, CValue)>,
    MatcherError,
>)
    requires
        i <= entries@.len(),
    ensures
        match r {
            Ok(cs) => compile_cvalue_entries(model_entries(entries@), i as int) == Some(
                centry_models(cs@),
            ),
            Err(_) => compile_cvalue_entries(model_entries(entries@), i as int) is None,
        },
    decreases entries@, 1int, entries@.len() - i,
{
    proof {
        lemma_model_entries_len(entries@);
    }
    if i == entries.len() {
        let v: Vec<(String, CValue)> = Vec::new();
        proof {
            assert(centry_models(v@) =~= Seq::<(Seq<char>, CValueModel)>::empty());
        }
        return Ok(v);
    }
    proof {
        lemma_model_entries_index(entries@, i as int);
        assert(decreases_to!(entries@ => entries@[i as int]));
        assert(decreases_to!(entries@[i as int] => entries@[i as int].1));
    }
    match build_cvalue(&entries[i].1) {
        Err(e) => Err(e),
        Ok(c) => match build_cvalue_entries(entries, i + 1) {
            Err(e) => Err(e),
            Ok(mut rest) => {
                let ghost prev = rest@;
                let key = entries[i].0.clone();
                rest.insert(0, (key, c));
                proof {
                    assert(rest@.subrange(1, rest@.len() as int) =~= prev);
                }
                Ok(rest)
            },
        },
    }
}

fn resolve_cvalue_exec(cv: &CValue, event: &Event, vars: &ExtractedVars) -> (r: Value)
    ensures
        r.model() == resolve_cvalue(cv.model(), event.model(), vars.model()),
    decreases cv,
{
    match cv {
        CValue::Null => Value::Null,
        CValue::Bool(b) => Value::Bool(*b),
        CValue::Int(n) => Value::Int(*n),
        CValue::Tmpl(a) => match a.get(event, vars) {
            Some(v) => v,
            None => Value::Null,
        },
        CValue::Arr(items) => {
            proof {
                lemma_cvalue_models_len(items@);
            }
            let n = items.len();
            let mut out: Vec<Value> = Vec::new();
            let mut i: usize = 0;
            while i < n
                invariant
                    i <= n,
                    n == items@.len(),
                    cvalue_models(items@).len() == n,
                    *cv == CValue::Arr(*items),
                    out@.len() == i,
                    forall|j: int|
                        0 <= j < i ==> (#[trigger] out@[j]).model() == resolve_cvalue(
                            cvalue_models(items@)[j],
                            event.model(),
                            vars.model(),
                        ),
                decreases n - i,
            {
                proof {
                    lemma_cvalue_models_index(items@, i as int);
                    assert(decreases_to!(*cv => cv->Arr_0));
                    assert(decreases_to!(cv->Arr_0 => cv->Arr_0@));
                    assert(decreases_to!(cv->Arr_0@ => cv->Arr_0@[i as int]));
                }
                out.push(resolve_cvalue_exec(&items[i], event, vars));
                i = i + 1;
            }
            proof {
                lemma_model_seq_len(out@);
                assert forall|j: int| 0 <= j < n implies #[trigger] model_seq(out@)[j]
                    == resolve_cvalue_list(
                    cvalue_models(items@),
                    event.model(),
                    vars.model(),
                    0,
                )[j] by {
                    lemma_model_seq_index(out@, j);
                    lemma_resolve_list_index(cvalue_models(items@), event.model(), vars.model(), j);
                }
                lemma_resolve_list_len(cvalue_models(items@), event.model(), vars.model(), 0);
                assert(model_seq(out@) =~= resolve_cvalue_list(
                    cvalue_models(items@),
                    event.model(),
                    vars.model(),
                    0,
                ));
            }
            Value::Arr(out)
        },
        CValue::Obj(entries) => {
            proof {
                lemma_centry_models_len(entries@);
            }
            let n = entries.len();
            let mut out: Vec<(String, Value)> = Vec::new();
            let mut i: usize = 0;
            while i < n
                invariant
                    i <= n,
                    n == entries@.len(),
                    centry_models(entries@).len() == n,
                    *cv == CValue::Obj(*entries),
                    out@.len() == i,
                    forall|j: int|
                        0 <= j < i ==> (#[trigger] out@[j]).0@ == centry_models(entries@)[j].0
                            && out@[j].1.model() == resolve_cvalue(
                            centry_models(entries@)[j].1,
                            event.model(),
                            vars.model(),
                        ),
                decreases n - i,
            {
                proof {
                    lemma_centry_models_index(entries@, i as int);
                    assert(decreases_to!(*cv => cv->Obj_0));
                    assert(decreases_to!(cv->Obj_0 => cv->Obj_0@));
                    assert(decreases_to!(cv->Obj_0@ => cv->Obj_0@[i as int]));
                    assert(decreases_to!(cv->Obj_0@[i as int] => cv->Obj_0@[i as int].1));
                }
                let key = entries[i].0.clone();
                let value = resolve_cvalue_exec(&entries[i].1, event, vars);
                out.push((key, value));
                i = i + 1;
            }
            proof {
                lemma_model_entries_len(out@);
                assert forall|j: int| 0 <= j < n implies #[trigger] model_entries(out@)[j]
                    == resolve_cvalue_entries(
                    centry_models(entries@),
                    event.model(),
                    vars.model(),
                    0,
                )[j] by {
                    lemma_model_entries_index(out@, j);
                    lemma_resolve_entries_index(
                        centry_models(entries@),
                        event.model(),
                        vars.model(),
                        j,
                    );
                }
                lemma_resolve_entries_len(centry_models(entries@), event.model(), vars.model(), 0);
                assert(model_entries(out@) =~= resolve_cvalue_entries(
                    centry_models(entries@),
                    event.model(),
                    vars.model(),
                    0,
                ));
            }
            Value::Obj(Payload { entries: out })
        },
    }
}

/// Resolution keeps the number of items.
pub proof fn lemma_resolve_list_len(
    items: Seq<CValueModel>,
    ev: EventModel,
    vars: Seq<(Seq<char>, Seq<char>, Model)>,
    i: int,
)
    requires
        0 <= i <= items.len(),
    ensures
        resolve_cvalue_list(items, ev, vars, i).len() == items.len() - i,
    decreases items.len() - i,
{
    if i < items.len() {
        lemma_resolve_list_len(items, ev, vars, i + 1);
    }
}

/// Each resolved item is the resolution of the item at its position.
pub proof fn lemma_resolve_list_index(
    items: Seq<CValueModel>,
    ev: EventModel,
    vars: Seq<(Seq<char>, Seq<char>, Model)>,
    j: int,
)
    requires
        0 <= j < items.len(),
    ensures
        resolve_cvalue_list(items, ev, vars, 0)[j] == resolve_cvalue(items[j], ev, vars),
{
    lemma_resolve_list_index_from(items, ev, vars, 0, j);
}

proof fn lemma_resolve_list_index_from(
    items: Seq<CValueModel>,
    ev: EventModel,
    vars: Seq<(Seq<char>, Seq<char>, Model)>,
    i: int,
    j: int,
)
    requires
        0 <= i <= j < items.len(),
    ensures
        resolve_cvalue_list(items, ev, vars, i)[j - i] == resolve_cvalue(items[j], ev, vars),
    decreases j - i,
{
    lemma_resolve_list_len(items, ev, vars, i);
    if i < j {
        lemma_resolve_list_index_from(items, ev, vars, i + 1, j);
        lemma_resolve_list_len(items, ev, vars, i + 1);
    }
}

/// Resolution keeps the number of entries.
pub proof fn lemma_resolve_entries_len(
    entries: Seq<(Seq<char>, CValueModel)>,
    ev: EventModel,
    vars: Seq<(Seq<char>, Seq<char>, Model)>,
    i: int,
)
    requires
        0 <= i <= entries.len(),
    ensures
        resolve_cvalue_entries(entries, ev, vars, i).len() == entries.len() - i,
    decreases entries.len() - i,
{
    if i < entries.len() {
        lemma_resolve_entries_len(entries, ev, vars, i + 1);
    }
}

/// Each resolved entry keeps its key and resolves its value.
pub proof fn lemma_resolve_entries_index(
    entries: Seq<(Seq<char>, CValueModel)>,
    ev: EventModel,
    vars: Seq<(Seq<char>, Seq<char>, Model)>,
    j: int,
)
    requires
        0 <= j < entries.len(),
    ensures
        resolve_cvalue_entries(entries, ev, vars, 0)[j] == (
            entries[j].0,
            resolve_cvalue(entries[j].1, ev, vars),
        ),
{
    lemma_resolve_entries_index_from(entries, ev, vars, 0, j);
}

proof fn lemma_resolve_entries_index_from(
    entries: Seq<(Seq<char>, CValueModel)>,
    ev: EventModel,
    vars: Seq<(Seq<char>, Seq<char>, Model)>,
    i: int,
    j: int,
)
    requires
        0 <= i <= j < entries.len(),
    ensures
        resolve_cvalue_entries(entries, ev, vars, i)[j - i] == (
            entries[j].0,
            resolve_cvalue(entries[j].1, ev, vars),
        ),
    decreases j - i,
{
    lemma_resolve_entries_len(entries, ev, vars, i);
    if i < j {
        lemma_resolve_entries_index_from(entries, ev, vars, i + 1, j);
        lemma_resolve_entries_len(entries, ev, vars, i + 1);
    }
}

// ---------------------------------------------------------------------
// The compiled tree
// ---------------------------------------------------------------------

/// A rule compiled for evaluation.
#[derive(Debug)]
pub struct CompiledRule {
    pub name: String,
    pub do_continue: bool,
    pub op: Option<CompiledOperator>,
    pub extractors: Vec<(String, CompiledExtractor)>,
    pub actions: Vec<(String, Vec<(String, CValue)>)>,
}

/// The mirror of a [`CompiledRule`].
pub struct CRuleModel {
    pub name: Seq<char>,
    pub do_continue: bool,
    pub op: Option<CompiledOpModel>,
    pub extractors: Seq<(Seq<char>, CompiledExtractorModel)>,
    pub actions: Seq<(Seq<char>, Seq<(Seq<char>, CValueModel)>)>,
}

/// The mirror of a sequence of named compiled extractors.
pub open spec fn cext_models(exts: Seq<(String, CompiledExtractor)>) -> Seq<
    (Seq<char>, CompiledExtractorModel),
>
    decreases exts,
{
    if exts.len() == 0 {
        Seq::empty()
    } else {
        seq![(exts[0].0@, exts[0].1.model())] + cext_models(exts.subrange(1, exts.len() as int))
    }
}

pub broadcast proof fn lemma_cext_models_len(exts: Seq<(String, CompiledExtractor)>)
    ensures
        #[trigger] cext_models(exts).len() == exts.len(),
    decreases exts,
{
    if exts.len() > 0 {
        lemma_cext_models_len(exts.subrange(1, exts.len() as int));
    }
}

pub broadcast proof fn lemma_cext_models_index(exts: Seq<(String, CompiledExtractor)>, i: int)
    requires
        0 <= i < exts.len(),
    ensures
        #[trigger] cext_models(exts)[i] == (exts[i].0@, exts[i].1.model()),
    decreases exts,
{
    lemma_cext_models_len(exts);
    if i > 0 {
        lemma_cext_models_index(exts.subrange(1, exts.len() as int), i - 1);
    }
}

/// The mirror of a sequence of compiled actions.
pub open spec fn cact_models(acts: Seq<(String, Vec<(String, CValue)>)>) -> Seq<
    (Seq<char>, Seq<(Seq<char>, CValueModel)>),
>
    decreases acts,
{
    if acts.len() == 0 {
        Seq::empty()
    } else {
        seq![(acts[0].0@, centry_models(acts[0].1@))] + cact_models(
            acts.subrange(1, acts.len() as int),
        )
    }
}

pub broadcast proof fn lemma_cact_models_len(acts: Seq<(String, Vec<(String, CValue)>)>)
    ensures
        #[trigger] cact_models(acts).len() == acts.len(),
    decreases acts,
{
    if acts.len() > 0 {
        lemma_cact_models_len(acts.subrange(1, acts.len() as int));
    }
}

pub broadcast proof fn lemma_cact_models_index(acts: Seq<(String, Vec<(String, CValue)>)>, i: int)
    requires
        0 <= i < acts.len(),
    ensures
        #[trigger] cact_models(acts)[i] == (acts[i].0@, centry_models(acts[i].1@)),
    decreases acts,
{
    lemma_cact_models_len(acts);
    if i > 0 {
        lemma_cact_models_index(acts.subrange(1, acts.len() as int), i - 1);
    }
}

impl CompiledRule {
    /// The mirror of this compiled rule.
    pub open spec fn model(self) -> CRuleModel {
        CRuleModel {
            name: self.name@,
            do_continue: self.do_continue,
            op: match self.op {
                Some(op) => Some(op.model()),
                None => None,
            },
            extractors: cext_models(self.extractors@),
            actions: cact_models(self.actions@),
        }
    }
}

/// The compiled configuration tree.
#[derive(Debug)]
pub enum CompiledNode {
    Filter { name: String, filter: Option<CompiledOperator>, nodes: Vec<(String, CompiledNode)> },
    Rules { rules: Vec<CompiledRule> },
}

/// The mirror of a [`CompiledNode`].
pub enum CNodeModel {
    Filter {
        name: Seq<char>,
        filter: Option<CompiledOpModel>,
        nodes: Seq<(Seq<char>, CNodeModel)>,
    },
    Rules { rules: Seq<CRuleModel> },
}

/// The mirror of a sequence of compiled rules.
pub open spec fn crule_models(rules: Seq<CompiledRule>) -> Seq<CRuleModel>
    decreases rules,
{
    if rules.len() == 0 {
        Seq::empty()
    } else {
        seq![rules[0].model()] + crule_models(rules.subrange(1, rules.len() as int))
    }
}

pub broadcast proof fn lemma_crule_models_len(rules: Seq<CompiledRule>)
    ensures
        #[trigger] crule_models(rules).len() == rules.len(),
    decreases rules,
{
    if rules.len() > 0 {
        lemma_crule_models_len(rules.subrange(1, rules.len() as int));
    }
}

pub broadcast proof fn lemma_crule_models_index(rules: Seq<CompiledRule>, i: int)
    requires
        0 <= i < rules.len(),
    ensures
        #[trigger] crule_models(rules)[i] == rules[i].model(),
    decreases rules,
{
    lemma_crule_models_len(rules);
    if i > 0 {
        lemma_crule_models_index(rules.subrange(1, rules.len() as int), i - 1);
    }
}

/// The mirror of a sequence of named compiled child nodes.
pub open spec fn cnode_models(nodes: Seq<(String, CompiledNode)>) -> Seq<(Seq<char>, CNodeModel)>
    decreases nodes,
{
    if nodes.len() == 0 {
        Seq::empty()
    } else {
        seq![(nodes[0].0@, nodes[0].1.model())] + cnode_models(
            nodes.subrange(1, nodes.len() as int),
        )
    }
}

pub broadcast proof fn lemma_cnode_models_len(nodes: Seq<(String, CompiledNode)>)
    ensures
        #[trigger] cnode_models(nodes).len() == nodes.len(),
    decreases nodes,
{
    if nodes.len() > 0 {
        lemma_cnode_models_len(nodes.subrange(1, nodes.len() as int));
    }
}

pub broadcast proof fn lemma_cnode_models_index(nodes: Seq<(String, CompiledNode)>, i: int)
    requires
        0 <= i < nodes.len(),
    ensures
        #[trigger] cnode_models(nodes)[i] == (nodes[i].0@, nodes[i].1.model()),
    decreases nodes,
{
    lemma_cnode_models_len(nodes);
    if i > 0 {
        lemma_cnode_models_index(nodes.subrange(1, nodes.len() as int), i - 1);
    }
}

impl CompiledNode {
    /// The mirror of this compiled node.
    pub open spec fn model(self) -> CNodeModel
        decreases self,
    {
        match self {
            CompiledNode::Filter { name, filter, nodes } => CNodeModel::Filter {
                name: name@,
                filter: match filter {
                    Some(op) => Some(op.model()),
                    None => None,
                },
                nodes: cnode_models(nodes@),
            },
            CompiledNode::Rules { rules } => CNodeModel::Rules { rules: crule_models(rules@) },
        }
    }
}

// ---------------------------------------------------------------------
// Compilation
// ---------------------------------------------------------------------

/// Compiles the named extractors from position `i` on, keeping their
/// order.
pub open spec fn compile_extractors(
    with: Seq<(Seq<char>, crate::extractor::ExtractorModel)>,
    i: int,
) -> Option<Seq<(Seq<char>, CompiledExtractorModel)>>
    decreases with.len() - i,
{
    if i < 0 {
        None
    } else if i >= with.len() {
        Some(Seq::empty())
    } else {
        match compile_extractor(with[i].1) {
            Some(c) => match compile_extractors(with, i + 1) {
                Some(rest) => Some(seq![(with[i].0, c)] + rest),
                None => None,
            },
            None => None,
        }
    }
}

/// Compiles the action templates from position `i` on.
pub open spec fn compile_actions(
    actions: Seq<crate::config::ActionTemplateModel>,
    i: int,
) -> Option<Seq<(Seq<char>, Seq<(Seq<char>, CValueModel)>)>>
    decreases actions.len() - i,
{
    if i < 0 {
        None
    } else if i >= actions.len() {
        Some(Seq::empty())
    } else {
        match compile_cvalue_entries(actions[i].payload, 0) {
            Some(entries) => match compile_actions(actions, i + 1) {
                Some(rest) => Some(seq![(actions[i].id, entries)] + rest),
                None => None,
            },
            None => None,
        }
    }
}

/// Compiles one rule: its operator, its extractors in order, and its
/// action payloads.
pub open spec fn compile_rule(r: RuleModel) -> Option<CRuleModel> {
    let op = match r.constraint.where_operator {
        Some(op) => match compile_op(op) {
            Some(c) => Some(Some(c)),
            None => None,
        },
        None => Some(None),
    };
    match op {
        None => None,
        Some(cop) => match compile_extractors(r.constraint.with, 0) {
            Some(exts) => match compile_actions(r.actions, 0) {
                Some(acts) => Some(
                    CRuleModel {
                        name: r.name,
                        do_continue: r.do_continue,
                        op: cop,
                        extractors: exts,
                        actions: acts,
                    },
                ),
                None => None,
            },
            None => None,
        },
    }
}

/// Compiles the rules from position `i` on; inactive rules are skipped
/// entirely.
pub open spec fn compile_rules(rules: Seq<RuleModel>, i: int) -> Option<Seq<CRuleModel>>
    decreases rules.len() - i,
{
    if i < 0 {
        None
    } else if i >= rules.len() {
        Some(Seq::empty())
    } else if !rules[i].active {
        compile_rules(rules, i + 1)
    } else {
        match compile_rule(rules[i]) {
            Some(c) => match compile_rules(rules, i + 1) {
                Some(rest) => Some(seq![c] + rest),
                None => None,
            },
            None => None,
        }
    }
}

/// Compiles a configuration tree, without validating it.
pub open spec fn compile_node(c: ConfigModel) -> Option<CNodeModel>
    decreases c, 0int, 0int,
{
    match c {
        ConfigModel::Rules { rules } => match compile_rules(rules, 0) {
            Some(cs) => Some(CNodeModel::Rules { rules: cs }),
            None => None,
        },
        ConfigModel::Filter { filter, nodes } => {
            let op = match filter.filter {
                Some(op) => match compile_op(op) {
                    Some(c) => Some(Some(c)),
                    None => None,
                },
                None => Some(None),
            };
            match op {
                None => None,
                Some(cop) => match compile_children(nodes, 0) {
                    Some(cs) => Some(
                        CNodeModel::Filter { name: filter.name, filter: cop, nodes: cs },
                    ),
                    None => None,
                },
            }
        },
    }
}

/// Compiles the child nodes from position `i` on, keeping their order.
pub open spec fn compile_children(nodes: Seq<(Seq<char>, ConfigModel)>, i: int) -> Option<
    Seq<(Seq<char>, CNodeModel)>,
>
    decreases nodes, 1int, nodes.len() - i,
{
    if i < 0 {
        None
    } else if i >= nodes.len() {
        Some(Seq::empty())
    } else {
        match compile_node(nodes[i].1) {
            Some(c) => match compile_children(nodes, i + 1) {
                Some(rest) => Some(seq![(nodes[i].0, c)] + rest),
                None => None,
            },
            None => None,
        }
    }
}

/// What compiling a configuration yields: nothing when validation or
/// any operator, extractor or template build fails, the compiled tree
/// otherwise.
pub open spec fn spec_compile(c: ConfigModel) -> Option<CNodeModel> {
    if spec_config_valid(c) {
        compile_node(c)
    } else {
        None
    }
}

fn build_extractors(with: &Vec<(String, crate::extractor::Extractor)>, i: usize) -> (r: Result<
    Vec<(String, CompiledExtractor)>,
    MatcherError,
>)
    requires
        i <= with@.len(),
    ensures
        match r {
            Ok(cs) => compile_extractors(with_models(with@), i as int) == Some(cext_models(cs@)),
            Err(_) => compile_extractors(with_models(with@), i as int) is None,
        },
    decreases with@.len() - i,
{
    proof {
        lemma_with_models_len(with@);
    }
    if i == with.len() {
        let v: Vec<(String, CompiledExtractor)> = Vec::new();
        proof {
            assert(cext_models(v@) =~= Seq::<(Seq<char>, CompiledExtractorModel)>::empty());
        }
        return Ok(v);
    }
    proof {
        lemma_with_models_index(with@, i as int);
    }
    match with[i].1.build() {
        Err(e) => Err(e),
        Ok(c) => match build_extractors(with, i + 1) {
            Err(e) => Err(e),
            Ok(mut rest) => {
                let ghost prev = rest@;
                let name = with[i].0.clone();
                rest.insert(0, (name, c));
                proof {
                    assert(rest@.subrange(1, rest@.len() as int) =~= prev);
                }
                Ok(rest)
            },
        },
    }
}

fn build_actions(actions: &Vec<crate::config::Action>, i: usize) -> (r: Result<
    Vec<(String, Vec<(String, CValue)>)>,
    MatcherError,
>)
    requires
        i <= actions@.len(),
    ensures
        match r {
            Ok(cs) => compile_actions(action_models(actions@), i as int) == Some(cact_models(cs@)),
            Err(_) => compile_actions(action_models(actions@), i as int) is None,
        },
    decreases actions@.len() - i,
{
    proof {
        lemma_action_models_len(actions@);
    }
    if i == actions.len() {
        let v: Vec<(String, Vec<(String, CValue)>)> = Vec::new();
        proof {
            assert(cact_models(v@) =~= Seq::<(Seq<char>, Seq<(Seq<char>, CValueModel)>)>::empty());
        }
        return Ok(v);
    }
    proof {
        lemma_action_models_index(actions@, i as int);
    }
    match build_cvalue_entries(&actions[i].payload.entries, 0) {
        Err(e) => Err(e),
        Ok(entries) => match build_actions(actions, i + 1) {
            Err(e) => Err(e),
            Ok(mut rest) => {
                let ghost prev = rest@;
                let id = actions[i].id.clone();
                rest.insert(0, (id, entries));
                proof {
                    assert(rest@.subrange(1, rest@.len() as int) =~= prev);
                }
                Ok(rest)
            },
        },
    }
}

fn build_rule(rule: &Rule) -> (r: Result<CompiledRule, MatcherError>)
    ensures
        match r {
            Ok(c) => compile_rule(rule.model()) == Some(c.model()),
            Err(_) => compile_rule(rule.model()) is None,
        },
{
    let op: Option<CompiledOperator> = match &rule.constraint.where_operator {
        Some(op) => match op.build() {
            Ok(c) => Some(c),
            Err(e) => {
                return Err(e);
            },
        },
        None => None,
    };
    let extractors = match build_extractors(&rule.constraint.with, 0) {
        Ok(cs) => cs,
        Err(e) => {
            return Err(e);
        },
    };
    let actions = match build_actions(&rule.actions, 0) {
        Ok(cs) => cs,
        Err(e) => {
            return Err(e);
        },
    };
    Ok(
        CompiledRule {
            name: rule.name.clone(),
            do_continue: rule.do_continue,
            op,
            extractors,
            actions,
        },
    )
}

fn build_rules(rules: &Vec<Rule>, i: usize) -> (r: Result<Vec<CompiledRule>, MatcherError>)
    requires
        i <= rules@.len(),
    ensures
        match r {
            Ok(cs) => compile_rules(rule_models(rules@), i as int) == Some(crule_models(cs@)),
            Err(_) => compile_rules(rule_models(rules@), i as int) is None,
        },
    decreases rules@.len() - i,
{
    proof {
        lemma_rule_models_len(rules@);
    }
    if i == rules.len() {
        let v: Vec<CompiledRule> = Vec::new();
        proof {
            assert(crule_models(v@) =~= Seq::<CRuleModel>::empty());
        }
        return Ok(v);
    }
    proof {
        lemma_rule_models_index(rules@, i as int);
    }
    if !rules[i].active {
        return build_rules(rules, i + 1);
    }
    match build_rule(&rules[i]) {
        Err(e) => Err(e),
        Ok(c) => match build_rules(rules, i + 1) {
            Err(e) => Err(e),
            Ok(mut rest) => {
                let ghost prev = rest@;
                rest.insert(0, c);
                proof {
                    assert(rest@.subrange(1, rest@.len() as int) =~= prev);
                }
                Ok(rest)
            },
        },
    }
}

fn build_node(config: &MatcherConfig) -> (r: Result<CompiledNode, MatcherError>)
    ensures
        match r {
            Ok(c) => compile_node(config.model()) == Some(c.model()),
            Err(_) => compile_node(config.model()) is None,
        },
    decreases config, 0int, 0int,
{
    match config {
        MatcherConfig::Rules { rules } => match build_rules(rules, 0) {
            Ok(cs) => Ok(CompiledNode::Rules { rules: cs }),
            Err(e) => Err(e),
        },
        MatcherConfig::Filter { filter, nodes } => {
            let op: Option<CompiledOperator> = match &filter.filter {
                Some(op) => match op.build() {
                    Ok(c) => Some(c),
                    Err(e) => {
                        return Err(e);
                    },
                },
                None => None,
            };
            proof {
                assert(decreases_to!(*config => config->Filter_nodes));
                assert(decreases_to!(config->Filter_nodes => config->Filter_nodes@));
            }
            match build_children(nodes, 0) {
                Ok(cs) => Ok(
                    CompiledNode::Filter { name: filter.name.clone(), filter: op, nodes: cs },
                ),
                Err(e) => Err(e),
            }
        },
    }
}

fn build_children(nodes: &Vec<(String, MatcherConfig)>, i: usize) -> (r: Result<
    Vec<(String, CompiledNode)>,
    MatcherError,
>)
    requires
        i <= nodes@.len(),
    ensures
        match r {
            Ok(cs) => compile_children(node_models(nodes@), i as int) == Some(cnode_models(cs@)),
            Err(_) => compile_children(node_models(nodes@), i as int) is None,
        },
    decreases nodes@, 1int, nodes@.len() - i,
{
    proof {
        lemma_node_models_len(nodes@);
    }
    if i == nodes.len() {
        let v: Vec<(String, CompiledNode)> = Vec::new();
        proof {
            assert(cnode_models(v@) =~= Seq::<(Seq<char>, CNodeModel)>::empty());
        }
        return Ok(v);
    }
    proof {
        lemma_node_models_index(nodes@, i as int);
        assert(decreases_to!(nodes@ => nodes@[i as int]));
        assert(decreases_to!(nodes@[i as int] => nodes@[i as int].1));
    }
    match build_node(&nodes[i].1) {
        Err(e) => Err(e),
        Ok(c) => match build_children(nodes, i + 1) {
            Err(e) => Err(e),
            Ok(mut rest) => {
                let ghost prev = rest@;
                let name = nodes[i].0.clone();
                rest.insert(0, (name, c));
                proof {
                    assert(rest@.subrange(1, rest@.len() as int) =~= prev);
                }
                Ok(rest)
            },
        },
    }
}

/// The compiled matcher: an immutable executable tree.
#[derive(Debug)]
pub struct Matcher {
    pub root: CompiledNode,
}

impl Matcher {
    /// Validates and compiles a configuration. Compilation is a pure
    /// function of the configuration: it either fails — on a validation
    /// error, a malformed template or a malformed regular expression —
    /// or yields exactly the tree [`spec_compile`] describes.
    pub fn build(config: &MatcherConfig) -> (r: Result<Matcher, MatcherError>)
        ensures
            match r {
                Ok(m) => spec_compile(config.model()) == Some(m.root.model()),
                Err(_) => spec_compile(config.model()) is None,
            },
            r is Err && crate::validator::config_issue(config.model()) is Some
                ==> crate::validator::issue_error(
                r->Err_0,
                crate::validator::config_issue(config.model()),
            ),
    {
        let validator = MatcherConfigValidator::new();
        if let Err(e) = validator.validate(config) {
            return Err(e);
        }
        match build_node(config) {
            Ok(root) => Ok(Matcher { root }),
            Err(e) => Err(e),
        }
    }
}

// ---------------------------------------------------------------------
// Processed events
// ---------------------------------------------------------------------

/// The outcome of a filter node.
#[derive(Debug, Clone, Copy, PartialEq, Eq, Structural)]
pub enum ProcessedFilterStatus {
    Matched,
    NotMatched,
    NotProcessed,
}

/// The outcome of one rule.
#[derive(Debug, Clone, Copy, PartialEq, Eq, Structural)]
pub enum ProcessedRuleStatus {
    Matched,
    NotMatched,
    PartiallyMatched,
    NotProcessed,
}

/// The record of one rule's evaluation.
#[derive(Debug, PartialEq)]
pub struct ProcessedRule {
    pub name: String,
    pub status: ProcessedRuleStatus,
    /// The variables this rule extracted, in extraction order.
    pub extracted_vars: Vec<(String, Value)>,
    /// The resolved actions of a matched rule.
    pub actions: Vec<Action>,
    /// The extractor that aborted the rule, for a partial match.
    pub failed_extractor: Option<String>,
    /// A diagnostic note, present only when metadata is included; it
    /// carries no semantics.
    pub trace: Option<String>,
}

/// The mirror of a [`ProcessedRule`]. The diagnostic note is not part
/// of the mirror.
pub struct PRuleModel {
    pub name: Seq<char>,
    pub status: ProcessedRuleStatus,
    pub extracted_vars: Seq<(Seq<char>, Model)>,
    pub actions: Seq<ActionModel>,
    pub failed_extractor: Option<Seq<char>>,
}

/// The mirror of a sequence of actions.
pub open spec fn act_models(acts: Seq<Action>) -> Seq<ActionModel>
    decreases acts,
{
    if acts.len() == 0 {
        Seq::empty()
    } else {
        seq![acts[0].model()] + act_models(acts.subrange(1, acts.len() as int))
    }
}

pub broadcast proof fn lemma_act_models_len(acts: Seq<Action>)
    ensures
        #[trigger] act_models(acts).len() == acts.len(),
    decreases acts,
{
    if acts.len() > 0 {
        lemma_act_models_len(acts.subrange(1, acts.len() as int));
    }
}

pub broadcast proof fn lemma_act_models_index(acts: Seq<Action>, i: int)
    requires
        0 <= i < acts.len(),
    ensures
        #[trigger] act_models(acts)[i] == acts[i].model(),
    decreases acts,
{
    lemma_act_models_len(acts);
    if i > 0 {
        lemma_act_models_index(acts.subrange(1, acts.len() as int), i - 1);
    }
}

impl ProcessedRule {
    /// The mirror of this record.
    pub open spec fn model(self) -> PRuleModel {
        PRuleModel {
            name: self.name@,
            status: self.status,
            extracted_vars: model_entries(self.extracted_vars@),
            actions: act_models(self.actions@),
            failed_extractor: match self.failed_extractor {
                Some(s) => Some(s@),
                None => None,
            },
        }
    }
}

/// The record of a whole subtree's evaluation, mirroring the compiled
/// tree.
#[derive(Debug, PartialEq)]
pub enum ProcessedNode {
    Filter { name: String, status: ProcessedFilterStatus, nodes: Vec<ProcessedNode> },
    Rules { rules: Vec<ProcessedRule> },
}

/// The mirror of a [`ProcessedNode`].
pub enum PNodeModel {
    Filter { name: Seq<char>, status: ProcessedFilterStatus, nodes: Seq<PNodeModel> },
    Rules { rules: Seq<PRuleModel> },
}

/// The mirror of a sequence of processed rules.
pub open spec fn prule_models(rules: Seq<ProcessedRule>) -> Seq<PRuleModel>
    decreases rules,
{
    if rules.len() == 0 {
        Seq::empty()
    } else {
        seq![rules[0].model()] + prule_models(rules.subrange(1, rules.len() as int))
    }
}

pub broadcast proof fn lemma_prule_models_len(rules: Seq<ProcessedRule>)
    ensures
        #[trigger] prule_models(rules).len() == rules.len(),
    decreases rules,
{
    if rules.len() > 0 {
        lemma_prule_models_len(rules.subrange(1, rules.len() as int));
    }
}

pub broadcast proof fn lemma_prule_models_index(rules: Seq<ProcessedRule>, i: int)
    requires
        0 <= i < rules.len(),
    ensures
        #[trigger] prule_models(rules)[i] == rules[i].model(),
    decreases rules,
{
    lemma_prule_models_len(rules);
    if i > 0 {
        lemma_prule_models_index(rules.subrange(1, rules.len() as int), i - 1);
    }
}

/// The mirror of a sequence of processed nodes.
pub open spec fn pnode_models(nodes: Seq<ProcessedNode>) -> Seq<PNodeModel>
    decreases nodes,
{
    if nodes.len() == 0 {
        Seq::empty()
    } else {
        seq![nodes[0].model()] + pnode_models(nodes.subrange(1, nodes.len() as int))
    }
}

pub broadcast proof fn lemma_pnode_models_len(nodes: Seq<ProcessedNode>)
    ensures
        #[trigger] pnode_models(nodes).len() == nodes.len(),
    decreases nodes,
{
    if nodes.len() > 0 {
        lemma_pnode_models_len(nodes.subrange(1, nodes.len() as int));
    }
}

pub broadcast proof fn lemma_pnode_models_index(nodes: Seq<ProcessedNode>, i: int)
    requires
        0 <= i < nodes.len(),
    ensures
        #[trigger] pnode_models(nodes)[i] == nodes[i].model(),
    decreases nodes,
{
    lemma_pnode_models_len(nodes);
    if i > 0 {
        lemma_pnode_models_index(nodes.subrange(1, nodes.len() as int), i - 1);
    }
}

impl ProcessedNode {
    /// The mirror of this record.
    pub open spec fn model(self) -> PNodeModel
        decreases self,
    {
        match self {
            ProcessedNode::Filter { name, status, nodes } => PNodeModel::Filter {
                name: name@,
                status,
                nodes: pnode_models(nodes@),
            },
            ProcessedNode::Rules { rules } => PNodeModel::Rules { rules: prule_models(rules@) },
        }
    }
}

/// The full result of processing one event.
#[derive(Debug)]
pub struct ProcessedEvent {
    pub event: Event,
    pub result: ProcessedNode,
    pub extracted_vars: ExtractedVars,
}

// ---------------------------------------------------------------------
// Processing: the semantics
// ---------------------------------------------------------------------

/// The record of a subtree none of whose nodes was processed.
pub open spec fn not_processed(n: CNodeModel) -> PNodeModel
    decreases n, 0int, 0int,
{
    match n {
        CNodeModel::Filter { name, filter, nodes } => PNodeModel::Filter {
            name,
            status: ProcessedFilterStatus::NotProcessed,
            nodes: not_processed_children(nodes, 0),
        },
        CNodeModel::Rules { rules } => PNodeModel::Rules {
            rules: not_processed_rules(rules, 0),
        },
    }
}

/// The unprocessed records of the children from position `i` on.
pub open spec fn not_processed_children(nodes: Seq<(Seq<char>, CNodeModel)>, i: int) -> Seq<
    PNodeModel,
>
    decreases nodes, 1int, nodes.len() - i,
{
    if i < 0 || i >= nodes.len() {
        Seq::empty()
    } else {
        seq![not_processed(nodes[i].1)] + not_processed_children(nodes, i + 1)
    }
}

/// The record of a rule that was not processed.
pub open spec fn not_processed_rule(r: CRuleModel) -> PRuleModel {
    PRuleModel {
        name: r.name,
        status: ProcessedRuleStatus::NotProcessed,
        extracted_vars: Seq::empty(),
        actions: Seq::empty(),
        failed_extractor: None,
    }
}

/// The unprocessed records of the rules from position `i` on.
pub open spec fn not_processed_rules(rules: Seq<CRuleModel>, i: int) -> Seq<PRuleModel>
    decreases rules.len() - i,
{
    if i < 0 || i >= rules.len() {
        Seq::empty()
    } else {
        seq![not_processed_rule(rules[i])] + not_processed_rules(rules, i + 1)
    }
}

/// Runs the extractors of rule `rule` from position `i` on: each value
/// is recorded immediately, so later extractors and the action
/// templates see it; the first failing extractor aborts.
///
/// Yields the collected pairs, the extended variables, and the name of
/// the failing extractor, if any.
pub open spec fn run_extractors(
    rule: Seq<char>,
    exts: Seq<(Seq<char>, CompiledExtractorModel)>,
    ev: EventModel,
    vars: Seq<(Seq<char>, Seq<char>, Model)>,
    i: int,
) -> (Seq<(Seq<char>, Model)>, Seq<(Seq<char>, Seq<char>, Model)>, Option<Seq<char>>)
    decreases exts.len() - i,
{
    if i < 0 || i >= exts.len() {
        (Seq::empty(), vars, None)
    } else {
        match extract_value(exts[i].1, ev, vars) {
            Some(v) => {
                let vars2 = vars.push((rule, exts[i].0, v));
                let rest = run_extractors(rule, exts, ev, vars2, i + 1);
                (seq![(exts[i].0, v)] + rest.0, rest.1, rest.2)
            },
            None => (Seq::empty(), vars, Some(exts[i].0)),
        }
    }
}

/// Resolves the actions from position `i` on against the event and the
/// rule's extracted variables; the action ids are taken verbatim from
/// the configuration and the event's trace id is attached.
pub open spec fn resolve_actions(
    acts: Seq<(Seq<char>, Seq<(Seq<char>, CValueModel)>)>,
    ev: EventModel,
    vars: Seq<(Seq<char>, Seq<char>, Model)>,
    i: int,
) -> Seq<ActionModel>
    decreases acts.len() - i,
{
    if i < 0 || i >= acts.len() {
        Seq::empty()
    } else {
        seq![
            ActionModel {
                id: acts[i].0,
                payload: resolve_cvalue_entries(acts[i].1, ev, vars, 0),
                trace_id: ev.trace_id,
            },
        ] + resolve_actions(acts, ev, vars, i + 1)
    }
}

/// Processes the rules from position `i` on, in order. Once a matched
/// rule asked to stop (`do_continue` false), every later rule of this
/// ruleset — and only of this ruleset — is recorded as not processed.
pub open spec fn process_rules(
    rules: Seq<CRuleModel>,
    ev: EventModel,
    vars: Seq<(Seq<char>, Seq<char>, Model)>,
    i: int,
    stopped: bool,
) -> (Seq<PRuleModel>, Seq<(Seq<char>, Seq<char>, Model)>)
    decreases rules.len() - i,
{
    if i < 0 || i >= rules.len() {
        (Seq::empty(), vars)
    } else if stopped {
        let rest = process_rules(rules, ev, vars, i + 1, true);
        (seq![not_processed_rule(rules[i])] + rest.0, rest.1)
    } else {
        let r = rules[i];
        let where_ok = match r.op {
            Some(op) => eval_op(op, ev, vars),
            None => true,
        };
        if !where_ok {
            let rest = process_rules(rules, ev, vars, i + 1, false);
            (
                seq![
                    PRuleModel {
                        name: r.name,
                        status: ProcessedRuleStatus::NotMatched,
                        extracted_vars: Seq::empty(),
                        actions: Seq::empty(),
                        failed_extractor: None,
                    },
                ] + rest.0,
                rest.1,
            )
        } else {
            let ex = run_extractors(r.name, r.extractors, ev, vars, 0);
            match ex.2 {
                Some(failed) => {
                    let rest = process_rules(rules, ev, ex.1, i + 1, false);
                    (
                        seq![
                            PRuleModel {
                                name: r.name,
                                status: ProcessedRuleStatus::PartiallyMatched,
                                extracted_vars: ex.0,
                                actions: Seq::empty(),
                                failed_extractor: Some(failed),
                            },
                        ] + rest.0,
                        rest.1,
                    )
                },
                None => {
                    let acts = resolve_actions(r.actions, ev, ex.1, 0);
                    let rest = process_rules(rules, ev, ex.1, i + 1, !r.do_continue);
                    (
                        seq![
                            PRuleModel {
                                name: r.name,
                                status: ProcessedRuleStatus::Matched,
                                extracted_vars: ex.0,
                                actions: acts,
                                failed_extractor: None,
                            },
                        ] + rest.0,
                        rest.1,
                    )
                },
            }
        }
    }
}

/// Processes one node: a filter gates its subtree, a ruleset walks its
/// rules; extracted variables thread through the whole walk in
/// depth-first order.
pub open spec fn process_node(
    n: CNodeModel,
    ev: EventModel,
    vars: Seq<(Seq<char>, Seq<char>, Model)>,
) -> (PNodeModel, Seq<(Seq<char>, Seq<char>, Model)>)
    decreases n, 0int, 0int,
{
    match n {
        CNodeModel::Rules { rules } => {
            let res = process_rules(rules, ev, vars, 0, false);
            (PNodeModel::Rules { rules: res.0 }, res.1)
        },
        CNodeModel::Filter { name, filter, nodes } => {
            let pass = match filter {
                Some(op) => eval_op(op, ev, vars),
                None => true,
            };
            if pass {
                let res = process_children(nodes, ev, vars, 0);
                (
                    PNodeModel::Filter {
                        name,
                        status: ProcessedFilterStatus::Matched,
                        nodes: res.0,
                    },
                    res.1,
                )
            } else {
                (
                    PNodeModel::Filter {
                        name,
                        status: ProcessedFilterStatus::NotMatched,
                        nodes: not_processed_children(nodes, 0),
                    },
                    vars,
                )
            }
        },
    }
}

/// Processes the children from position `i` on, in configuration
/// order, threading the extracted variables.
pub open spec fn process_children(
    nodes: Seq<(Seq<char>, CNodeModel)>,
    ev: EventModel,
    vars: Seq<(Seq<char>, Seq<char>, Model)>,
    i: int,
) -> (Seq<PNodeModel>, Seq<(Seq<char>, Seq<char>, Model)>)
    decreases nodes, 1int, nodes.len() - i,
{
    if i < 0 || i >= nodes.len() {
        (Seq::empty(), vars)
    } else {
        let first = process_node(nodes[i].1, ev, vars);
        let rest = process_children(nodes, ev, first.1, i + 1);
        (seq![first.0] + rest.0, rest.1)
    }
}

/// Processing a whole tree: the walk starts with no extracted
/// variables.
pub open spec fn spec_process(root: CNodeModel, ev: EventModel) -> (
    PNodeModel,
    Seq<(Seq<char>, Seq<char>, Model)>,
) {
    process_node(root, ev, Seq::empty())
}

// ---------------------------------------------------------------------
// Processing: the implementation
// ---------------------------------------------------------------------

fn empty_rule_record(name: &String, status: ProcessedRuleStatus, trace: Option<String>) -> (r:
    ProcessedRule)
    ensures
        r.model() == (PRuleModel {
            name: name@,
            status,
            extracted_vars: Seq::<(Seq<char>, Model)>::empty(),
            actions: Seq::<ActionModel>::empty(),
            failed_extractor: None::<Seq<char>>,
        }),
{
    let r = ProcessedRule {
        name: name.clone(),
        status,
        extracted_vars: Vec::new(),
        actions: Vec::new(),
        failed_extractor: None,
        trace,
    };
    proof {
        assert(model_entries(r.extracted_vars@) =~= Seq::<(Seq<char>, Model)>::empty());
        assert(act_models(r.actions@) =~= Seq::<ActionModel>::empty());
    }
    r
}

fn not_processed_exec(n: &CompiledNode) -> (r: ProcessedNode)
    ensures
        r.model() == not_processed(n.model()),
    decreases n,
{
    match n {
        CompiledNode::Rules { rules } => {
            proof {
                lemma_crule_models_len(rules@);
            }
            let ghost rm = crule_models(rules@);
            let m = rules.len();
            let mut out: Vec<ProcessedRule> = Vec::new();
            let mut i: usize = 0;
            while i < m
                invariant
                    i <= m,
                    m == rules@.len(),
                    rm == crule_models(rules@),
                    rm.len() == m,
                    not_processed_rules(rm, 0) =~= prule_models(out@) + not_processed_rules(
                        rm,
                        i as int,
                    ),
                decreases m - i,
            {
                proof {
                    lemma_crule_models_index(rules@, i as int);
                }
                let ghost prev = out@;
                out.push(
                    empty_rule_record(&rules[i].name, ProcessedRuleStatus::NotProcessed, None),
                );
                proof {
                    assert(out@.subrange(0, prev.len() as int) =~= prev);
                    lemma_prule_models_snoc(out@);
                    assert(prule_models(out@) + not_processed_rules(rm, i + 1) =~= prule_models(
                        prev,
                    ) + not_processed_rules(rm, i as int));
                }
                i = i + 1;
            }
            proof {
                assert(not_processed_rules(rm, m as int) =~= Seq::<PRuleModel>::empty());
                assert(prule_models(out@) =~= not_processed_rules(rm, 0));
            }
            ProcessedNode::Rules { rules: out }
        },
        CompiledNode::Filter { name, filter, nodes } => {
            proof {
                lemma_cnode_models_len(nodes@);
            }
            let ghost cn = cnode_models(nodes@);
            let m = nodes.len();
            let mut out: Vec<ProcessedNode> = Vec::new();
            let mut i: usize = 0;
            while i < m
                invariant
                    i <= m,
                    m == nodes@.len(),
                    *n == (CompiledNode::Filter {
                        name: *name,
                        filter: *filter,
                        nodes: *nodes,
                    }),
                    cn == cnode_models(nodes@),
                    cn.len() == m,
                    not_processed_children(cn, 0) =~= pnode_models(out@) + not_processed_children(
                        cn,
                        i as int,
                    ),
                decreases m - i,
            {
                proof {
                    lemma_cnode_models_index(nodes@, i as int);
                    assert(decreases_to!(*n => n->Filter_nodes));
                    assert(decreases_to!(n->Filter_nodes => n->Filter_nodes@));
                    assert(decreases_to!(n->Filter_nodes@ => n->Filter_nodes@[i as int]));
                    assert(decreases_to!(n->Filter_nodes@[i as int] => n->Filter_nodes@[
                        i as int
                    ].1));
                }
                let ghost prev = out@;
                out.push(not_processed_exec(&nodes[i].1));
                proof {
                    assert(out@.subrange(0, prev.len() as int) =~= prev);
                    lemma_pnode_models_snoc(out@);
                    assert(pnode_models(out@) + not_processed_children(cn, i + 1) =~= pnode_models(
                        prev,
                    ) + not_processed_children(cn, i as int));
                }
                i = i + 1;
            }
            proof {
                assert(not_processed_children(cn, m as int) =~= Seq::<PNodeModel>::empty());
                assert(pnode_models(out@) =~= not_processed_children(cn, 0));
            }
            ProcessedNode::Filter {
                name: name.clone(),
                status: ProcessedFilterStatus::NotProcessed,
                nodes: out,
            }
        },
    }
}

/// A mirror sequence grows by the mirror of the pushed element.
proof fn lemma_prule_models_snoc(rules: Seq<ProcessedRule>)
    requires
        rules.len() > 0,
    ensures
        prule_models(rules) == prule_models(rules.subrange(0, rules.len() - 1)) + seq![
            rules.last().model(),
        ],
{
    let n = rules.len() as int;
    lemma_prule_models_len(rules);
    lemma_prule_models_len(rules.subrange(0, n - 1));
    assert forall|j: int| 0 <= j < n implies #[trigger] prule_models(rules)[j] == (prule_models(
        rules.subrange(0, n - 1),
    ) + seq![rules.last().model()])[j] by {
        lemma_prule_models_index(rules, j);
        if j < n - 1 {
            lemma_prule_models_index(rules.subrange(0, n - 1), j);
        }
    }
    assert(prule_models(rules) =~= prule_models(rules.subrange(0, n - 1)) + seq![
        rules.last().model(),
    ]);
}

/// A mirror sequence grows by the mirror of the pushed element.
proof fn lemma_pnode_models_snoc(nodes: Seq<ProcessedNode>)
    requires
        nodes.len() > 0,
    ensures
        pnode_models(nodes) == pnode_models(nodes.subrange(0, nodes.len() - 1)) + seq![
            nodes.last().model(),
        ],
{
    let n = nodes.len() as int;
    lemma_pnode_models_len(nodes);
    lemma_pnode_models_len(nodes.subrange(0, n - 1));
    assert forall|j: int| 0 <= j < n implies #[trigger] pnode_models(nodes)[j] == (pnode_models(
        nodes.subrange(0, n - 1),
    ) + seq![nodes.last().model()])[j] by {
        lemma_pnode_models_index(nodes, j);
        if j < n - 1 {
            lemma_pnode_models_index(nodes.subrange(0, n - 1), j);
        }
    }
    assert(pnode_models(nodes) =~= pnode_models(nodes.subrange(0, n - 1)) + seq![
        nodes.last().model(),
    ]);
}

fn run_extractors_exec(
    rule_name: &String,
    exts: &Vec<(String, CompiledExtractor)>,
    event: &Event,
    vars: &mut ExtractedVars,
) -> (r: (Vec<(String, Value)>, Option<String>))
    ensures
        model_entries(r.0@) == run_extractors(
            rule_name@,
            cext_models(exts@),
            event.model(),
            old(vars).model(),
            0,
        ).0,
        final(vars).model() == run_extractors(
            rule_name@,
            cext_models(exts@),
            event.model(),
            old(vars).model(),
            0,
        ).1,
        match r.1 {
            Some(s) => run_extractors(
                rule_name@,
                cext_models(exts@),
                event.model(),
                old(vars).model(),
                0,
            ).2 == Some(s@),
            None => run_extractors(
                rule_name@,
                cext_models(exts@),
                event.model(),
                old(vars).model(),
                0,
            ).2 is None,
        },
{
    proof {
        lemma_cext_models_len(exts@);
    }
    let ghost em = cext_models(exts@);
    let ghost ev = event.model();
    let ghost vars0 = vars.model();
    let ghost full = run_extractors(rule_name@, em, ev, vars0, 0);
    let n = exts.len();
    let mut collected: Vec<(String, Value)> = Vec::new();
    let mut i: usize = 0;
    while i < n
        invariant
            i <= n,
            n == exts@.len(),
            em == cext_models(exts@),
            em.len() == n,
            ev == event.model(),
            vars0 == old(vars).model(),
            full == run_extractors(rule_name@, em, ev, vars0, 0),
            full.0 =~= model_entries(collected@) + run_extractors(
                rule_name@,
                em,
                ev,
                vars.model(),
                i as int,
            ).0,
            full.1 == run_extractors(rule_name@, em, ev, vars.model(), i as int).1,
            full.2 == run_extractors(rule_name@, em, ev, vars.model(), i as int).2,
        decreases n - i,
    {
        proof {
            lemma_cext_models_index(exts@, i as int);
        }
        let ghost vcur = vars.model();
        match exts[i].1.extract(event, vars) {
            Some(v) => {
                let name = exts[i].0.clone();
                let ghost prev = collected@;
                collected.push((name.clone(), v.deep_clone()));
                vars.push(rule_name.clone(), name, v);
                proof {
                    assert(vars.model() =~= vcur.push((rule_name@, em[i as int].0, v.model())));
                    assert(collected@.subrange(0, prev.len() as int) =~= prev);
                    lemma_model_entries_snoc(collected@);
                    assert(model_entries(collected@) + run_extractors(
                        rule_name@,
                        em,
                        ev,
                        vars.model(),
                        i + 1,
                    ).0 =~= model_entries(prev) + run_extractors(
                        rule_name@,
                        em,
                        ev,
                        vcur,
                        i as int,
                    ).0);
                }
            },
            None => {
                proof {
                    assert(run_extractors(rule_name@, em, ev, vcur, i as int).2 == Some(
                        em[i as int].0,
                    ));
                    assert(model_entries(collected@) + run_extractors(
                        rule_name@,
                        em,
                        ev,
                        vcur,
                        i as int,
                    ).0 =~= model_entries(collected@));
                }
                let failed = exts[i].0.clone();
                return (collected, Some(failed));
            },
        }
        i = i + 1;
    }
    proof {
        assert(run_extractors(rule_name@, em, ev, vars.model(), n as int).0 =~= Seq::<
            (Seq<char>, Model),
        >::empty());
        assert(model_entries(collected@) + run_extractors(
            rule_name@,
            em,
            ev,
            vars.model(),
            n as int,
        ).0 =~= model_entries(collected@));
    }
    (collected, None)
}

/// A mirror sequence grows by the mirror of the pushed entry.
proof fn lemma_model_entries_snoc(entries: Seq<(String, Value)>)
    requires
        entries.len() > 0,
    ensures
        model_entries(entries) == model_entries(entries.subrange(0, entries.len() - 1)) + seq![
            (entries.last().0@, entries.last().1.model()),
        ],
{
    let n = entries.len() as int;
    lemma_model_entries_len(entries);
    lemma_model_entries_len(entries.subrange(0, n - 1));
    assert forall|j: int| 0 <= j < n implies #[trigger] model_entries(entries)[j] == (model_entries(
        entries.subrange(0, n - 1),
    ) + seq![(entries.last().0@, entries.last().1.model())])[j] by {
        lemma_model_entries_index(entries, j);
        if j < n - 1 {
            lemma_model_entries_index(entries.subrange(0, n - 1), j);
        }
    }
    assert(model_entries(entries) =~= model_entries(entries.subrange(0, n - 1)) + seq![
        (entries.last().0@, entries.last().1.model()),
    ]);
}

fn resolve_actions_exec(
    acts: &Vec<(String, Vec<(String, CValue)>)>,
    event: &Event,
    vars: &ExtractedVars,
) -> (r: Vec<Action>)
    ensures
        act_models(r@) == resolve_actions(cact_models(acts@), event.model(), vars.model(), 0),
{
    proof {
        lemma_cact_models_len(acts@);
    }
    let ghost am = cact_models(acts@);
    let ghost ev = event.model();
    let ghost vm = vars.model();
    let n = acts.len();
    let mut out: Vec<Action> = Vec::new();
    let mut i: usize = 0;
    while i < n
        invariant
            i <= n,
            n == acts@.len(),
            am == cact_models(acts@),
            am.len() == n,
            ev == event.model(),
            vm == vars.model(),
            resolve_actions(am, ev, vm, 0) =~= act_models(out@) + resolve_actions(
                am,
                ev,
                vm,
                i as int,
            ),
        decreases n - i,
    {
        proof {
            lemma_cact_models_index(acts@, i as int);
            lemma_centry_models_len(acts@[i as int].1@);
        }
        let entries = &acts[i].1;
        let en = entries.len();
        let mut payload: Vec<(String, Value)> = Vec::new();
        let mut j: usize = 0;
        while j < en
            invariant
                j <= en,
                i < n,
                n == acts@.len(),
                entries == &acts@[i as int].1,
                en == entries@.len(),
                centry_models(entries@).len() == en,
                ev == event.model(),
                vm == vars.model(),
                payload@.len() == j,
                forall|k: int|
                    0 <= k < j ==> ((#[trigger] payload@[k]).0@ == centry_models(entries@)[k].0
                        && payload@[k].1.model() == resolve_cvalue(
                        centry_models(entries@)[k].1,
                        ev,
                        vm,
                    )),
            decreases en - j,
        {
            proof {
                lemma_centry_models_index(entries@, j as int);
            }
            let key = entries[j].0.clone();
            let value = resolve_cvalue_exec(&entries[j].1, event, vars);
            payload.push((key, value));
            j = j + 1;
        }
        proof {
            lemma_model_entries_len(payload@);
            assert forall|k: int| 0 <= k < en implies #[trigger] model_entries(payload@)[k]
                == resolve_cvalue_entries(centry_models(entries@), ev, vm, 0)[k] by {
                lemma_model_entries_index(payload@, k);
                lemma_resolve_entries_index(centry_models(entries@), ev, vm, k);
            }
            lemma_resolve_entries_len(centry_models(entries@), ev, vm, 0);
            assert(model_entries(payload@) =~= resolve_cvalue_entries(
                centry_models(entries@),
                ev,
                vm,
                0,
            ));
        }
        let ghost prev = out@;
        out.push(
            Action {
                id: acts[i].0.clone(),
                payload: Payload { entries: payload },
                trace_id: event.trace_id.clone(),
            },
        );
        proof {
            assert(out@.subrange(0, prev.len() as int) =~= prev);
            lemma_act_models_snoc(out@);
            assert(act_models(out@) + resolve_actions(am, ev, vm, i + 1) =~= act_models(prev)
                + resolve_actions(am, ev, vm, i as int));
        }
        i = i + 1;
    }
    proof {
        assert(resolve_actions(am, ev, vm, n as int) =~= Seq::<ActionModel>::empty());
        assert(act_models(out@) =~= resolve_actions(am, ev, vm, 0));
    }
    out
}

/// A mirror sequence grows by the mirror of the pushed action.
proof fn lemma_act_models_snoc(acts: Seq<Action>)
    requires
        acts.len() > 0,
    ensures
        act_models(acts) == act_models(acts.subrange(0, acts.len() - 1)) + seq![
            acts.last().model(),
        ],
{
    let n = acts.len() as int;
    lemma_act_models_len(acts);
    lemma_act_models_len(acts.subrange(0, n - 1));
    assert forall|j: int| 0 <= j < n implies #[trigger] act_models(acts)[j] == (act_models(
        acts.subrange(0, n - 1),
    ) + seq![acts.last().model()])[j] by {
        lemma_act_models_index(acts, j);
        if j < n - 1 {
            lemma_act_models_index(acts.subrange(0, n - 1), j);
        }
    }
    assert(act_models(acts) =~= act_models(acts.subrange(0, n - 1)) + seq![acts.last().model()]);
}

#[verifier::rlimit(100)]
fn process_rules_exec(
    rules: &Vec<CompiledRule>,
    event: &Event,
    vars: &mut ExtractedVars,
    include_metadata: bool,
) -> (r: Vec<ProcessedRule>)
    ensures
        prule_models(r@) == process_rules(
            crule_models(rules@),
            event.model(),
            old(vars).model(),
            0,
            false,
        ).0,
        final(vars).model() == process_rules(
            crule_models(rules@),
            event.model(),
            old(vars).model(),
            0,
            false,
        ).1,
{
    proof {
        lemma_crule_models_len(rules@);
    }
    let ghost rm = crule_models(rules@);
    let ghost ev = event.model();
    let ghost vars0 = vars.model();
    let ghost full = process_rules(rm, ev, vars0, 0, false);
    let n = rules.len();
    let mut out: Vec<ProcessedRule> = Vec::new();
    let mut stopped = false;
    let mut i: usize = 0;
    while i < n
        invariant
            i <= n,
            n == rules@.len(),
            rm == crule_models(rules@),
            rm.len() == n,
            ev == event.model(),
            vars0 == old(vars).model(),
            full == process_rules(rm, ev, vars0, 0, false),
            full.0 =~= prule_models(out@) + process_rules(rm, ev, vars.model(), i as int, stopped)
                .0,
            full.1 == process_rules(rm, ev, vars.model(), i as int, stopped).1,
        decreases n - i,
    {
        proof {
            lemma_crule_models_index(rules@, i as int);
        }
        let ghost vcur = vars.model();
        let rule = &rules[i];
        if stopped {
            let trace: Option<String> = if include_metadata {
                Some("not-processed".to_owned())
            } else {
                None
            };
            let ghost prev = out@;
            out.push(empty_rule_record(&rule.name, ProcessedRuleStatus::NotProcessed, trace));
            proof {
                assert(out@.subrange(0, prev.len() as int) =~= prev);
                lemma_prule_models_snoc(out@);
                assert(prule_models(out@) + process_rules(rm, ev, vcur, i + 1, true).0
                    =~= prule_models(prev) + process_rules(rm, ev, vcur, i as int, true).0);
            }
        } else {
            let where_ok = match &rule.op {
                Some(op) => op.evaluate(event, vars),
                None => true,
            };
            if !where_ok {
                let trace: Option<String> = if include_metadata {
                    Some("where-failed".to_owned())
                } else {
                    None
                };
                let ghost prev = out@;
                out.push(empty_rule_record(&rule.name, ProcessedRuleStatus::NotMatched, trace));
                proof {
                    assert(out@.subrange(0, prev.len() as int) =~= prev);
                    lemma_prule_models_snoc(out@);
                    assert(prule_models(out@) + process_rules(rm, ev, vcur, i + 1, false).0
                        =~= prule_models(prev) + process_rules(rm, ev, vcur, i as int, false).0);
                }
            } else {
                let extraction = run_extractors_exec(&rule.name, &rule.extractors, event, vars);
                match extraction.1 {
                    Some(failed) => {
                        let trace: Option<String> = if include_metadata {
                            Some("extractor-failed".to_owned())
                        } else {
                            None
                        };
                        let ghost prev = out@;
                        out.push(
                            ProcessedRule {
                                name: rule.name.clone(),
                                status: ProcessedRuleStatus::PartiallyMatched,
                                extracted_vars: extraction.0,
                                actions: Vec::new(),
                                failed_extractor: Some(failed),
                                trace,
                            },
                        );
                        proof {
                            assert(act_models(out@.last().actions@) =~= Seq::<
                                ActionModel,
                            >::empty());
                            assert(out@.subrange(0, prev.len() as int) =~= prev);
                            lemma_prule_models_snoc(out@);
                            assert(prule_models(out@) + process_rules(
                                rm,
                                ev,
                                vars.model(),
                                i + 1,
                                false,
                            ).0 =~= prule_models(prev) + process_rules(
                                rm,
                                ev,
                                vcur,
                                i as int,
                                false,
                            ).0);
                        }
                    },
                    None => {
                        let actions = resolve_actions_exec(&rule.actions, event, vars);
                        let stop_here = !rule.do_continue;
                        let trace: Option<String> = if include_metadata {
                            Some("matched".to_owned())
                        } else {
                            None
                        };
                        let ghost prev = out@;
                        out.push(
                            ProcessedRule {
                                name: rule.name.clone(),
                                status: ProcessedRuleStatus::Matched,
                                extracted_vars: extraction.0,
                                actions,
                                failed_extractor: None,
                                trace,
                            },
                        );
                        proof {
                            assert(out@.subrange(0, prev.len() as int) =~= prev);
                            lemma_prule_models_snoc(out@);
                            assert(prule_models(out@) + process_rules(
                                rm,
                                ev,
                                vars.model(),
                                i + 1,
                                stop_here,
                            ).0 =~= prule_models(prev) + process_rules(
                                rm,
                                ev,
                                vcur,
                                i as int,
                                false,
                            ).0);
                        }
                        if stop_here {
                            stopped = true;
                        }
                    },
                }
            }
        }
        i = i + 1;
    }
    proof {
        assert(process_rules(rm, ev, vars.model(), n as int, stopped).0 =~= Seq::<
            PRuleModel,
        >::empty());
        assert(prule_models(out@) =~= full.0);
    }
    out
}

#[verifier::rlimit(100)]
fn process_node_exec(
    n: &CompiledNode,
    event: &Event,
    vars: &mut ExtractedVars,
    include_metadata: bool,
) -> (r: ProcessedNode)
    ensures
        r.model() == process_node(n.model(), event.model(), old(vars).model()).0,
        final(vars).model() == process_node(n.model(), event.model(), old(vars).model()).1,
    decreases n,
{
    match n {
        CompiledNode::Rules { rules } => {
            let out = process_rules_exec(rules, event, vars, include_metadata);
            ProcessedNode::Rules { rules: out }
        },
        CompiledNode::Filter { name, filter, nodes } => {
            let pass = match filter {
                Some(op) => op.evaluate(event, vars),
                None => true,
            };
            if !pass {
                proof {
                    lemma_cnode_models_len(nodes@);
                }
                let ghost cn = cnode_models(nodes@);
                let m = nodes.len();
                let mut out: Vec<ProcessedNode> = Vec::new();
                let mut i: usize = 0;
                while i < m
                    invariant
                        i <= m,
                        m == nodes@.len(),
                        *n == (CompiledNode::Filter {
                            name: *name,
                            filter: *filter,
                            nodes: *nodes,
                        }),
                        cn == cnode_models(nodes@),
                        cn.len() == m,
                        not_processed_children(cn, 0) =~= pnode_models(out@)
                            + not_processed_children(cn, i as int),
                    decreases m - i,
                {
                    proof {
                        lemma_cnode_models_index(nodes@, i as int);
                    }
                    let ghost prev = out@;
                    out.push(not_processed_exec(&nodes[i].1));
                    proof {
                        assert(out@.subrange(0, prev.len() as int) =~= prev);
                        lemma_pnode_models_snoc(out@);
                        assert(pnode_models(out@) + not_processed_children(cn, i + 1)
                            =~= pnode_models(prev) + not_processed_children(cn, i as int));
                    }
                    i = i + 1;
                }
                proof {
                    assert(not_processed_children(cn, m as int) =~= Seq::<PNodeModel>::empty());
                    assert(pnode_models(out@) =~= not_processed_children(cn, 0));
                }
                return ProcessedNode::Filter {
                    name: name.clone(),
                    status: ProcessedFilterStatus::NotMatched,
                    nodes: out,
                };
            }
            proof {
                lemma_cnode_models_len(nodes@);
            }
            let ghost cn = cnode_models(nodes@);
            let ghost ev = event.model();
            let ghost vars0 = vars.model();
            let ghost full = process_children(cn, ev, vars0, 0);
            let m = nodes.len();
            let mut out: Vec<ProcessedNode> = Vec::new();
            let mut i: usize = 0;
            while i < m
                invariant
                    i <= m,
                    m == nodes@.len(),
                    *n == (CompiledNode::Filter {
                        name: *name,
                        filter: *filter,
                        nodes: *nodes,
                    }),
                    cn == cnode_models(nodes@),
                    cn.len() == m,
                    ev == event.model(),
                    vars0 == old(vars).model(),
                    full == process_children(cn, ev, vars0, 0),
                    full.0 =~= pnode_models(out@) + process_children(
                        cn,
                        ev,
                        vars.model(),
                        i as int,
                    ).0,
                    full.1 == process_children(cn, ev, vars.model(), i as int).1,
                decreases m - i,
            {
                proof {
                    lemma_cnode_models_index(nodes@, i as int);
                    assert(decreases_to!(*n => n->Filter_nodes));
                    assert(decreases_to!(n->Filter_nodes => n->Filter_nodes@));
                    assert(decreases_to!(n->Filter_nodes@ => n->Filter_nodes@[i as int]));
                    assert(decreases_to!(n->Filter_nodes@[i as int] => n->Filter_nodes@[
                        i as int
                    ].1));
                }
                let ghost vcur = vars.model();
                let ghost prev = out@;
                out.push(process_node_exec(&nodes[i].1, event, vars, include_metadata));
                proof {
                    assert(out@.subrange(0, prev.len() as int) =~= prev);
                    lemma_pnode_models_snoc(out@);
                    assert(pnode_models(out@) + process_children(cn, ev, vars.model(), i + 1).0
                        =~= pnode_models(prev) + process_children(cn, ev, vcur, i as int).0);
                }
                i = i + 1;
            }
            proof {
                assert(process_children(cn, ev, vars.model(), m as int).0 =~= Seq::<
                    PNodeModel,
                >::empty());
                assert(pnode_models(out@) =~= full.0);
            }
            ProcessedNode::Filter {
                name: name.clone(),
                status: ProcessedFilterStatus::Matched,
                nodes: out,
            }
        },
    }
}

impl Matcher {
    /// Processes one event against the compiled tree. Processing is
    /// total: it never fails, whatever the event holds. The result and
    /// the extracted variables are exactly what [`spec_process`]
    /// prescribes, whether or not metadata is included: the
    /// `include_metadata` flag only adds diagnostic notes, which carry
    /// no semantics and are not part of any mirror.
    pub fn process(&self, event: Event, include_metadata: bool) -> (r: ProcessedEvent)
        ensures
            r.result.model() == spec_process(self.root.model(), event.model()).0,
            r.extracted_vars.model() == spec_process(self.root.model(), event.model()).1,
            r.event == event,
    {
        let mut vars = ExtractedVars::new();
        proof {
            assert(vars.model() =~= Seq::<(Seq<char>, Seq<char>, Model)>::empty());
        }
        let result = process_node_exec(&self.root, &event, &mut vars, include_metadata);
        ProcessedEvent { event, result, extracted_vars: vars }
    }
}

} // verus!
