//! The matcher configuration tree: filters with named children and
//! rulesets holding ordered rules.

use vstd::prelude::*;
use crate::extractor::{Extractor, ExtractorModel};
use crate::operator::{Operator, OperatorModel};
use crate::value::{Payload, Model, model_entries};

verus! {

/// A configured action: an id and a payload whose strings may hold
/// `${...}` templates.
#[derive(Debug, PartialEq)]
pub struct Action {
    pub id: String,
    pub payload: Payload,
}

/// The mirror of a configured [`Action`].
pub struct ActionTemplateModel {
    pub id: Seq<char>,
    pub payload: Seq<(Seq<char>, Model)>,
}

impl Action {
    /// The mirror of this configured action.
    pub open spec fn model(self) -> ActionTemplateModel {
        ActionTemplateModel { id: self.id@, payload: model_entries(self.payload.entries@) }
    }

    /// An action template with the given id and an empty payload.
    pub fn new(id: &str) -> (r: Action)
        ensures
            r.model() == (ActionTemplateModel {
                id: id@,
                payload: Seq::<(Seq<char>, Model)>::empty(),
            }),
    {
        Action { id: id.to_owned(), payload: Payload::new() }
    }
}

/// The mirror of a sequence of configured actions.
pub open spec fn action_models(actions: Seq<Action>) -> Seq<ActionTemplateModel>
    decreases actions,
{
    if actions.len() == 0 {
        Seq::empty()
    } else {
        seq![actions[0].model()] + action_models(actions.subrange(1, actions.len() as int))
    }
}

pub broadcast proof fn lemma_action_models_len(actions: Seq<Action>)
    ensures
        #[trigger] action_models(actions).len() == actions.len(),
    decreases actions,
{
    if actions.len() > 0 {
        lemma_action_models_len(actions.subrange(1, actions.len() as int));
    }
}

pub broadcast proof fn lemma_action_models_index(actions: Seq<Action>, i: int)
    requires
        0 <= i < actions.len(),
    ensures
        #[trigger] action_models(actions)[i] == actions[i].model(),
    decreases actions,
{
    lemma_action_models_len(actions);
    if i > 0 {
        lemma_action_models_index(actions.subrange(1, actions.len() as int), i - 1);
    }
}

/// A rule's constraint: an optional boolean operator and named
/// extractors evaluated in insertion order.
#[derive(Debug, PartialEq)]
pub struct Constraint {
    pub where_operator: Option<Operator>,
    pub with: Vec<(String, Extractor)>,
}

/// The mirror of a [`Constraint`].
pub struct ConstraintModel {
    pub where_operator: Option<OperatorModel>,
    pub with: Seq<(Seq<char>, ExtractorModel)>,
}

/// The mirror of a sequence of named extractors.
pub open spec fn with_models(with: Seq<(String, Extractor)>) -> Seq<(Seq<char>, ExtractorModel)>
    decreases with,
{
    if with.len() == 0 {
        Seq::empty()
    } else {
        seq![(with[0].0@, with[0].1.model())] + with_models(with.subrange(1, with.len() as int))
    }
}

pub broadcast proof fn lemma_with_models_len(with: Seq<(String, Extractor)>)
    ensures
        #[trigger] with_models(with).len() == with.len(),
    decreases with,
{
    if with.len() > 0 {
        lemma_with_models_len(with.subrange(1, with.len() as int));
    }
}

pub broadcast proof fn lemma_with_models_index(with: Seq<(String, Extractor)>, i: int)
    requires
        0 <= i < with.len(),
    ensures
        #[trigger] with_models(with)[i] == (with[i].0@, with[i].1.model()),
    decreases with,
{
    lemma_with_models_len(with);
    if i > 0 {
        lemma_with_models_index(with.subrange(1, with.len() as int), i - 1);
    }
}

impl Constraint {
    /// The mirror of this constraint.
    pub open spec fn model(self) -> ConstraintModel {
        ConstraintModel {
            where_operator: match self.where_operator {
                Some(op) => Some(op.model()),
                None => None,
            },
            with: with_models(self.with@),
        }
    }
}

/// A configured rule.
#[derive(Debug, PartialEq)]
pub struct Rule {
    pub name: String,
    pub description: String,
    pub active: bool,
    pub do_continue: bool,
    pub constraint: Constraint,
    pub actions: Vec<Action>,
}

/// The mirror of a [`Rule`].
pub struct RuleModel {
    pub name: Seq<char>,
    pub active: bool,
    pub do_continue: bool,
    pub constraint: ConstraintModel,
    pub actions: Seq<ActionTemplateModel>,
}

impl Rule {
    /// The mirror of this rule. The description carries no semantics
    /// and is left out.
    pub open spec fn model(self) -> RuleModel {
        RuleModel {
            name: self.name@,
            active: self.active,
            do_continue: self.do_continue,
            constraint: self.constraint.model(),
            actions: action_models(self.actions@),
        }
    }
}

/// The mirror of a sequence of rules.
pub open spec fn rule_models(rules: Seq<Rule>) -> Seq<RuleModel>
    decreases rules,
{
    if rules.len() == 0 {
        Seq::empty()
    } else {
        seq![rules[0].model()] + rule_models(rules.subrange(1, rules.len() as int))
    }
}

pub broadcast proof fn lemma_rule_models_len(rules: Seq<Rule>)
    ensures
        #[trigger] rule_models(rules).len() == rules.len(),
    decreases rules,
{
    if rules.len() > 0 {
        lemma_rule_models_len(rules.subrange(1, rules.len() as int));
    }
}

pub broadcast proof fn lemma_rule_models_index(rules: Seq<Rule>, i: int)
    requires
        0 <= i < rules.len(),
    ensures
        #[trigger] rule_models(rules)[i] == rules[i].model(),
    decreases rules,
{
    lemma_rule_models_len(rules);
    if i > 0 {
        lemma_rule_models_index(rules.subrange(1, rules.len() as int), i - 1);
    }
}

/// An interior node's own data: a name and an optional gating operator.
#[derive(Debug, PartialEq)]
pub struct Filter {
    pub name: String,
    pub description: String,
    pub active: bool,
    pub filter: Option<Operator>,
}

/// The mirror of a [`Filter`].
pub struct FilterModel {
    pub name: Seq<char>,
    pub filter: Option<OperatorModel>,
}

impl Filter {
    /// The mirror of this filter. The description and the legacy
    /// `active` flag carry no semantics and are left out.
    pub open spec fn model(self) -> FilterModel {
        FilterModel {
            name: self.name@,
            filter: match self.filter {
                Some(op) => Some(op.model()),
                None => None,
            },
        }
    }
}

/// The configuration tree: interior filters with named children, and
/// rulesets at the leaves.
#[derive(Debug, PartialEq)]
pub enum MatcherConfig {
    Filter { filter: Filter, nodes: Vec<(String, MatcherConfig)> },
    Rules { rules: Vec<Rule> },
}

/// The mirror of a [`MatcherConfig`].
pub enum ConfigModel {
    Filter { filter: FilterModel, nodes: Seq<(Seq<char>, ConfigModel)> },
    Rules { rules: Seq<RuleModel> },
}

/// The mirror of a sequence of named child nodes.
pub open spec fn node_models(nodes: Seq<(String, MatcherConfig)>) -> Seq<(Seq<char>, ConfigModel)>
    decreases nodes,
{
    if nodes.len() == 0 {
        Seq::empty()
    } else {
        seq![(nodes[0].0@, nodes[0].1.model())] + node_models(
            nodes.subrange(1, nodes.len() as int),
        )
    }
}

pub broadcast proof fn lemma_node_models_len(nodes: Seq<(String, MatcherConfig)>)
    ensures
        #[trigger] node_models(nodes).len() == nodes.len(),
    decreases nodes,
{
    if nodes.len() > 0 {
        lemma_node_models_len(nodes.subrange(1, nodes.len() as int));
    }
}

pub broadcast proof fn lemma_node_models_index(nodes: Seq<(String, MatcherConfig)>, i: int)
    requires
        0 <= i < nodes.len(),
    ensures
        #[trigger] node_models(nodes)[i] == (nodes[i].0@, nodes[i].1.model()),
    decreases nodes,
{
    lemma_node_models_len(nodes);
    if i > 0 {
        lemma_node_models_index(nodes.subrange(1, nodes.len() as int), i - 1);
    }
}

impl MatcherConfig {
    /// The mirror of this configuration tree.
    pub open spec fn model(self) -> ConfigModel
        decreases self,
    {
        match self {
            MatcherConfig::Filter { filter, nodes } => ConfigModel::Filter {
                filter: filter.model(),
                nodes: node_models(nodes@),
            },
            MatcherConfig::Rules { rules } => ConfigModel::Rules { rules: rule_models(rules@) },
        }
    }
}

} // verus!
