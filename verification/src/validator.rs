//! Validation of a matcher configuration before compilation: every
//! name must match the identifier grammar, rule names must be unique
//! within their ruleset, and child node names unique within their
//! filter.

use vstd::prelude::*;
use crate::accessor::is_ident_char;
use crate::config::{ActionTemplateModel, Filter, FilterModel, MatcherConfig, Rule, RuleModel,
    ConfigModel, rule_models,
    lemma_rule_models_len, lemma_rule_models_index, node_models, lemma_node_models_len,
    lemma_node_models_index, lemma_with_models_len, lemma_with_models_index,
    lemma_action_models_len, lemma_action_models_index};
use crate::error::MatcherError;
use crate::extractor::ExtractorModel;
use crate::value::str_eq;

verus! {

/// Whether `c` may start an identifier: a letter or an underscore.
pub open spec fn is_ident_start(c: char) -> bool {
    (65 <= c as u32 && c as u32 <= 90) || (97 <= c as u32 && c as u32 <= 122) || c as u32 == 95
}

/// The identifier grammar all names must match: a letter or underscore
/// followed by letters, digits and underscores.
pub open spec fn valid_id(s: Seq<char>) -> bool {
    s.len() > 0 && is_ident_start(s[0]) && (forall|i: int|
        0 <= i < s.len() ==> is_ident_char(#[trigger] s[i]))
}

/// Whether a rule's own names are all well-formed: its name, its
/// extracted variable names and its action ids.
pub open spec fn spec_rule_valid(r: RuleModel) -> bool {
    valid_id(r.name) && (forall|i: int|
        0 <= i < r.constraint.with.len() ==> valid_id(#[trigger] r.constraint.with[i].0)) && (
    forall|i: int| 0 <= i < r.actions.len() ==> valid_id(#[trigger] r.actions[i].id))
}

/// Whether a ruleset is valid: every active rule is well-formed and no
/// two active rules share a name. Inactive rules are ignored.
pub open spec fn spec_rules_valid(rules: Seq<RuleModel>) -> bool {
    (forall|i: int|
        0 <= i < rules.len() && (#[trigger] rules[i]).active ==> spec_rule_valid(rules[i])) && (
    forall|i: int, j: int|
        0 <= i < j < rules.len() && (#[trigger] rules[i]).active && (#[trigger] rules[j]).active
            ==> rules[i].name != rules[j].name)
}

/// Whether a whole configuration tree is valid.
pub open spec fn spec_config_valid(c: ConfigModel) -> bool
    decreases c,
{
    match c {
        ConfigModel::Rules { rules } => spec_rules_valid(rules),
        ConfigModel::Filter { filter, nodes } => valid_id(filter.name) && (forall|i: int|
            0 <= i < nodes.len() ==> valid_id((#[trigger] nodes[i]).0)) && (forall|i: int, j: int|
            0 <= i < j < nodes.len() ==> (#[trigger] nodes[i]).0 != (#[trigger] nodes[j]).0) && (
        forall|i: int| 0 <= i < nodes.len() ==> spec_config_valid((#[trigger] nodes[i]).1)),
    }
}

/// Validity of a ruleset node is validity of its rules.
pub proof fn lemma_config_valid_rules(rules: Seq<RuleModel>)
    ensures
        spec_config_valid(ConfigModel::Rules { rules }) <==> spec_rules_valid(rules),
{
    reveal_with_fuel(spec_config_valid, 2);
}

/// Validity of a filter node is validity of its name, its child names,
/// their uniqueness, and of every child tree.
pub proof fn lemma_config_valid_filter(f: crate::config::FilterModel, ns: Seq<(Seq<char>, ConfigModel)>)
    ensures
        spec_config_valid(ConfigModel::Filter { filter: f, nodes: ns }) <==> (valid_id(f.name) && (
        forall|k: int| 0 <= k < ns.len() ==> valid_id((#[trigger] ns[k]).0)) && (forall|k: int, l: int|
            0 <= k < l < ns.len() ==> (#[trigger] ns[k]).0 != (#[trigger] ns[l]).0) && (forall|k: int|
            0 <= k < ns.len() ==> spec_config_valid((#[trigger] ns[k]).1))),
{
    reveal_with_fuel(spec_config_valid, 2);
    let c = ConfigModel::Filter { filter: f, nodes: ns };
    assert(c->Filter_nodes == ns);
    assert(c->Filter_filter == f);
    if spec_config_valid(c) {
        assert forall|k: int| 0 <= k < ns.len() implies valid_id((#[trigger] ns[k]).0) by {
            assert(c->Filter_nodes[k] == ns[k]);
        }
        assert forall|k: int, l: int|
            0 <= k < l < ns.len() implies (#[trigger] ns[k]).0 != (#[trigger] ns[l]).0 by {
            assert(c->Filter_nodes[k] == ns[k]);
            assert(c->Filter_nodes[l] == ns[l]);
        }
        assert forall|k: int| 0 <= k < ns.len() implies spec_config_valid((#[trigger] ns[k]).1) by {
            assert(c->Filter_nodes[k] == ns[k]);
        }
    }
    if valid_id(f.name) && (forall|k: int| 0 <= k < ns.len() ==> valid_id((#[trigger] ns[k]).0)) && (
    forall|k: int, l: int| 0 <= k < l < ns.len() ==> (#[trigger] ns[k]).0 != (#[trigger] ns[l]).0)
        && (forall|k: int| 0 <= k < ns.len() ==> spec_config_valid((#[trigger] ns[k]).1)) {
        assert forall|k: int|
            0 <= k < c->Filter_nodes.len() implies valid_id((#[trigger] c->Filter_nodes[k]).0) by {
            assert(c->Filter_nodes[k] == ns[k]);
        }
        assert forall|k: int, l: int|
            0 <= k < l < c->Filter_nodes.len() implies (#[trigger] c->Filter_nodes[k]).0 != (
            #[trigger] c->Filter_nodes[l]).0 by {
            assert(c->Filter_nodes[k] == ns[k]);
            assert(c->Filter_nodes[l] == ns[l]);
        }
        assert forall|k: int|
            0 <= k < c->Filter_nodes.len() implies spec_config_valid(
            (#[trigger] c->Filter_nodes[k]).1) by {
            assert(c->Filter_nodes[k] == ns[k]);
        }
        assert(spec_config_valid(c));
    }
}

/// The first name offence a left-to-right scan of a configuration
/// meets: an ill-formed name, a duplicated active rule name, or a
/// duplicated child node name.
pub enum ValidationIssue {
    BadName(Seq<char>),
    DupRuleName(Seq<char>),
    DupNodeName(Seq<char>),
}

/// The first ill-formed extracted-variable name from position `i` on.
pub open spec fn first_bad_with(with: Seq<(Seq<char>, ExtractorModel)>, i: int) -> Option<
    Seq<char>,
>
    decreases with.len() - i,
{
    if i < 0 || i >= with.len() {
        None
    } else if !valid_id(with[i].0) {
        Some(with[i].0)
    } else {
        first_bad_with(with, i + 1)
    }
}

/// The first ill-formed action id from position `i` on.
pub open spec fn first_bad_action(actions: Seq<ActionTemplateModel>, i: int) -> Option<Seq<char>>
    decreases actions.len() - i,
{
    if i < 0 || i >= actions.len() {
        None
    } else if !valid_id(actions[i].id) {
        Some(actions[i].id)
    } else {
        first_bad_action(actions, i + 1)
    }
}

/// The first ill-formed name inside one rule, in checking order: the
/// rule name, then the extracted-variable names, then the action ids.
pub open spec fn rule_issue(r: RuleModel) -> Option<Seq<char>> {
    if !valid_id(r.name) {
        Some(r.name)
    } else {
        match first_bad_with(r.constraint.with, 0) {
            Some(s) => Some(s),
            None => first_bad_action(r.actions, 0),
        }
    }
}

/// The first offence among the rules from position `i` on: inactive
/// rules are skipped; each active rule is checked before its name is
/// held against the earlier active names.
pub open spec fn rules_issue(rules: Seq<RuleModel>, i: int) -> Option<ValidationIssue>
    decreases rules.len() - i,
{
    if i < 0 || i >= rules.len() {
        None
    } else if !rules[i].active {
        rules_issue(rules, i + 1)
    } else {
        match rule_issue(rules[i]) {
            Some(s) => Some(ValidationIssue::BadName(s)),
            None => if exists|j: int|
                0 <= j < i && (#[trigger] rules[j]).active && rules[j].name == rules[i].name {
                Some(ValidationIssue::DupRuleName(rules[i].name))
            } else {
                rules_issue(rules, i + 1)
            },
        }
    }
}

/// The first offence among the child nodes from position `i` on: each
/// name is checked, then held against the earlier names, then the
/// child tree is scanned.
pub open spec fn node_issue(nodes: Seq<(Seq<char>, ConfigModel)>, i: int) -> Option<
    ValidationIssue,
>
    decreases nodes, 1int, nodes.len() - i,
{
    if i < 0 || i >= nodes.len() {
        None
    } else if !valid_id(nodes[i].0) {
        Some(ValidationIssue::BadName(nodes[i].0))
    } else if exists|j: int| 0 <= j < i && (#[trigger] nodes[j]).0 == nodes[i].0 {
        Some(ValidationIssue::DupNodeName(nodes[i].0))
    } else {
        match config_issue(nodes[i].1) {
            Some(x) => Some(x),
            None => node_issue(nodes, i + 1),
        }
    }
}

/// The first offence a scan of a whole tree meets.
pub open spec fn config_issue(c: ConfigModel) -> Option<ValidationIssue>
    decreases c, 0int, 0int,
{
    match c {
        ConfigModel::Rules { rules } => rules_issue(rules, 0),
        ConfigModel::Filter { filter, nodes } => if !valid_id(filter.name) {
            Some(ValidationIssue::BadName(filter.name))
        } else {
            node_issue(nodes, 0)
        },
    }
}

/// Whether `e` is the error that reports `issue`: an ill-formed or
/// duplicated node name is reported as the not-valid-name error
/// carrying that name, a duplicated active rule name as the
/// not-unique-rule-name error carrying it.
pub open spec fn issue_error(e: MatcherError, issue: Option<ValidationIssue>) -> bool {
    match issue {
        None => false,
        Some(ValidationIssue::BadName(s)) => e matches MatcherError::NotValidIdOrNameError {
            message,
        } && message@ == s,
        Some(ValidationIssue::DupNodeName(s)) => e matches MatcherError::NotValidIdOrNameError {
            message,
        } && message@ == s,
        Some(ValidationIssue::DupRuleName(s)) => e matches MatcherError::NotUniqueRuleNameError {
            name,
        } && name@ == s,
    }
}

/// The tree scan unfolds at a ruleset to the rule scan.
pub proof fn lemma_config_issue_rules(rules: Seq<RuleModel>)
    ensures
        config_issue(ConfigModel::Rules { rules }) == rules_issue(rules, 0),
{
    reveal_with_fuel(config_issue, 2);
}

/// The tree scan unfolds at a filter to its name check and the child
/// scan.
pub proof fn lemma_config_issue_filter(f: FilterModel, ns: Seq<(Seq<char>, ConfigModel)>)
    ensures
        config_issue(ConfigModel::Filter { filter: f, nodes: ns }) == (if !valid_id(f.name) {
            Some(ValidationIssue::BadName(f.name))
        } else {
            node_issue(ns, 0)
        }),
{
    reveal_with_fuel(config_issue, 2);
    let c = ConfigModel::Filter { filter: f, nodes: ns };
    assert(c->Filter_filter == f);
    assert(c->Filter_nodes == ns);
}

/// Checks a single name against the identifier grammar.
pub fn is_valid_id(s: &str) -> (r: bool)
    ensures
        r == valid_id(s@),
{
    let len = s.unicode_len();
    if len == 0 {
        return false;
    }
    let first = s.get_char(0);
    let u = first as u32;
    let start_ok = (65 <= u && u <= 90) || (97 <= u && u <= 122) || u == 95;
    if !start_ok {
        return false;
    }
    let mut i: usize = 0;
    while i < len
        invariant
            i <= len,
            len == s@.len(),
            forall|j: int| 0 <= j < i ==> is_ident_char(#[trigger] s@[j]),
            is_ident_start(s@[0]),
        decreases len - i,
    {
        let c = s.get_char(i);
        let v = c as u32;
        if !((48 <= v && v <= 57) || (65 <= v && v <= 90) || (97 <= v && v <= 122) || v == 95) {
            return false;
        }
        i = i + 1;
    }
    true
}

/// Checks individual names against the identifier grammar, wrapping
/// failures in the matching error.
#[derive(Debug, Default)]
pub struct IdValidator {}

impl IdValidator {
    /// A fresh validator.
    pub fn new() -> (r: IdValidator) {
        IdValidator {}
    }

    /// Valid exactly when `name` matches the identifier grammar.
    pub fn validate_rule_name(&self, name: &str) -> (r: Result<(), MatcherError>)
        ensures
            r is Ok <==> valid_id(name@),
            r is Err ==> (r->Err_0 matches MatcherError::NotValidIdOrNameError { message }
                && message@ == name@),
    {
        if is_valid_id(name) {
            Ok(())
        } else {
            Err(MatcherError::NotValidIdOrNameError { message: name.to_owned() })
        }
    }

    /// Valid exactly when `name` matches the identifier grammar.
    pub fn validate_filter_name(&self, name: &str) -> (r: Result<(), MatcherError>)
        ensures
            r is Ok <==> valid_id(name@),
            r is Err ==> (r->Err_0 matches MatcherError::NotValidIdOrNameError { message }
                && message@ == name@),
    {
        self.validate_rule_name(name)
    }

    /// Valid exactly when `name` matches the identifier grammar.
    pub fn validate_node_name(&self, name: &str) -> (r: Result<(), MatcherError>)
        ensures
            r is Ok <==> valid_id(name@),
            r is Err ==> (r->Err_0 matches MatcherError::NotValidIdOrNameError { message }
                && message@ == name@),
    {
        self.validate_rule_name(name)
    }

    /// Valid exactly when `var_name` matches the identifier grammar.
    pub fn validate_extracted_var_name(&self, var_name: &str, _rule_name: &str) -> (r: Result<
        (),
        MatcherError,
    >)
        ensures
            r is Ok <==> valid_id(var_name@),
            r is Err ==> (r->Err_0 matches MatcherError::NotValidIdOrNameError { message }
                && message@ == var_name@),
    {
        self.validate_rule_name(var_name)
    }

    /// Valid exactly when `action_id` matches the identifier grammar.
    pub fn validate_action_id(&self, action_id: &str, _rule_name: &str) -> (r: Result<
        (),
        MatcherError,
    >)
        ensures
            r is Ok <==> valid_id(action_id@),
            r is Err ==> (r->Err_0 matches MatcherError::NotValidIdOrNameError { message }
                && message@ == action_id@),
    {
        self.validate_rule_name(action_id)
    }
}

/// A validator for a whole matcher configuration.
#[derive(Debug, Default)]
pub struct MatcherConfigValidator {
    id: IdValidator,
}

impl MatcherConfigValidator {
    /// A fresh validator.
    pub fn new() -> (r: MatcherConfigValidator) {
        MatcherConfigValidator { id: IdValidator::new() }
    }

    /// Valid exactly when every name in the tree is well-formed, active
    /// rule names are unique per ruleset, and child node names are
    /// unique per filter.
    pub fn validate(&self, config: &MatcherConfig) -> (r: Result<(), MatcherError>)
        ensures
            r is Ok <==> spec_config_valid(config.model()),
            r is Ok <==> config_issue(config.model()) is None,
            r is Err ==> issue_error(r->Err_0, config_issue(config.model())),
        decreases config,
    {
        match config {
            MatcherConfig::Rules { rules } => {
                proof {
                    lemma_config_valid_rules(rule_models(rules@));
                    lemma_config_issue_rules(rule_models(rules@));
                }
                self.validate_rules(rules)
            },
            MatcherConfig::Filter { filter, nodes } => {
                proof {
                    assert(decreases_to!(*config => config->Filter_nodes));
                    assert(decreases_to!(config->Filter_nodes => config->Filter_nodes@));
                }
                self.validate_filter(filter, nodes)
            },
        }
    }

    /// Validates a filter's own name, its child names and, recursively,
    /// every child node.
    pub fn validate_filter(&self, filter: &Filter, nodes: &Vec<(String, MatcherConfig)>) -> (r:
        Result<(), MatcherError>)
        ensures
            r is Ok <==> spec_config_valid(
                ConfigModel::Filter { filter: filter.model(), nodes: node_models(nodes@) },
            ),
            r is Ok <==> config_issue(
                ConfigModel::Filter { filter: filter.model(), nodes: node_models(nodes@) },
            ) is None,
            r is Err ==> issue_error(
                r->Err_0,
                config_issue(
                    ConfigModel::Filter { filter: filter.model(), nodes: node_models(nodes@) },
                ),
            ),
        decreases nodes@,
    {
        proof {
            lemma_node_models_len(nodes@);
            lemma_config_issue_filter(filter.model(), node_models(nodes@));
        }
        if let Err(e) = self.id.validate_filter_name(filter.name.as_str()) {
            return Err(e);
        }
        let n = nodes.len();
        let mut i: usize = 0;
        while i < n
            invariant
                i <= n,
                n == nodes@.len(),
                node_models(nodes@).len() == n,
                valid_id(filter.model().name),
                node_issue(node_models(nodes@), 0) == node_issue(
                    node_models(nodes@),
                    i as int,
                ),
                forall|k: int| 0 <= k < i ==> valid_id((#[trigger] node_models(nodes@)[k]).0),
                forall|k: int, l: int|
                    0 <= k < l < i ==> (#[trigger] node_models(nodes@)[k]).0 != (
                    #[trigger] node_models(nodes@)[l]).0,
                forall|k: int|
                    0 <= k < i ==> spec_config_valid((#[trigger] node_models(nodes@)[k]).1),
            decreases n - i,
        {
            proof {
                lemma_node_models_index(nodes@, i as int);
            }
            if let Err(e) = self.id.validate_node_name(nodes[i].0.as_str()) {
                proof {
                    lemma_config_valid_filter(filter.model(), node_models(nodes@));
                    lemma_config_issue_filter(filter.model(), node_models(nodes@));
                    assert(!valid_id(node_models(nodes@)[i as int].0));
                }
                return Err(e);
            }
            let mut j: usize = 0;
            while j < i
                invariant
                    j <= i,
                    i < n,
                    n == nodes@.len(),
                    node_models(nodes@).len() == n,
                    valid_id(filter.model().name),
                    valid_id(node_models(nodes@)[i as int].0),
                    node_issue(node_models(nodes@), 0) == node_issue(
                        node_models(nodes@),
                        i as int,
                    ),
                    forall|k: int|
                        0 <= k < j ==> (#[trigger] node_models(nodes@)[k]).0 != node_models(
                            nodes@,
                        )[i as int].0,
                decreases i - j,
            {
                proof {
                    lemma_node_models_index(nodes@, j as int);
                    lemma_node_models_index(nodes@, i as int);
                }
                if str_eq(nodes[j].0.as_str(), nodes[i].0.as_str()) {
                    proof {
                        lemma_config_valid_filter(filter.model(), node_models(nodes@));
                        lemma_config_issue_filter(filter.model(), node_models(nodes@));
                        assert(node_models(nodes@)[j as int].0 == node_models(
                            nodes@,
                        )[i as int].0);
                        assert(node_issue(node_models(nodes@), i as int) == Some(
                            ValidationIssue::DupNodeName(node_models(nodes@)[i as int].0),
                        ));
                    }
                    return Err(
                        MatcherError::NotValidIdOrNameError { message: nodes[i].0.clone() },
                    );
                }
                j = j + 1;
            }
            proof {
                assert(decreases_to!(nodes@ => nodes@[i as int]));
                assert(decreases_to!(nodes@[i as int] => nodes@[i as int].1));
            }
            if let Err(e) = self.validate(&nodes[i].1) {
                proof {
                    lemma_node_models_index(nodes@, i as int);
                    lemma_config_valid_filter(filter.model(), node_models(nodes@));
                    lemma_config_issue_filter(filter.model(), node_models(nodes@));
                    assert(node_issue(node_models(nodes@), i as int) == config_issue(
                        node_models(nodes@)[i as int].1,
                    ));
                }
                return Err(e);
            }
            i = i + 1;
        }
        proof {
            lemma_config_valid_filter(filter.model(), node_models(nodes@));
            lemma_config_issue_filter(filter.model(), node_models(nodes@));
            assert(node_issue(node_models(nodes@), n as int) is None);
        }
        Ok(())
    }

    /// Validates a set of rules: every active rule is checked, and
    /// active rule names must be unique. Inactive rules are ignored.
    pub fn validate_rules(&self, rules: &Vec<Rule>) -> (r: Result<(), MatcherError>)
        ensures
            r is Ok <==> spec_rules_valid(rule_models(rules@)),
            r is Ok <==> rules_issue(rule_models(rules@), 0) is None,
            r is Err ==> issue_error(r->Err_0, rules_issue(rule_models(rules@), 0)),
    {
        proof {
            lemma_rule_models_len(rules@);
        }
        let ghost rm = rule_models(rules@);
        let n = rules.len();
        let mut i: usize = 0;
        while i < n
            invariant
                i <= n,
                n == rules@.len(),
                rm == rule_models(rules@),
                rm.len() == n,
                rules_issue(rm, 0) == rules_issue(rm, i as int),
                forall|k: int| 0 <= k < i && (#[trigger] rm[k]).active ==> spec_rule_valid(rm[k]),
                forall|k: int, l: int|
                    0 <= k < l < i && (#[trigger] rm[k]).active && (#[trigger] rm[l]).active
                        ==> rm[k].name != rm[l].name,
            decreases n - i,
        {
            proof {
                lemma_rule_models_index(rules@, i as int);
            }
            if rules[i].active {
                if let Err(e) = self.validate_rule(&rules[i]) {
                    proof {
                        assert(!spec_rules_valid(rm)) by {
                            assert((rm[i as int]).active && !spec_rule_valid(rm[i as int]));
                        }
                        assert(rules_issue(rm, i as int) == Some(
                            ValidationIssue::BadName(rule_issue(rm[i as int])->0),
                        ));
                    }
                    return Err(e);
                }
                let mut j: usize = 0;
                while j < i
                    invariant
                        j <= i,
                        i < n,
                        n == rules@.len(),
                        rm == rule_models(rules@),
                        rm.len() == n,
                        rm[i as int].active,
                        rule_issue(rm[i as int]) is None,
                        rules_issue(rm, 0) == rules_issue(rm, i as int),
                        forall|k: int|
                            0 <= k < j && (#[trigger] rm[k]).active ==> rm[k].name != rm[
                                i as int
                            ].name,
                    decreases i - j,
                {
                    proof {
                        lemma_rule_models_index(rules@, j as int);
                        lemma_rule_models_index(rules@, i as int);
                    }
                    if rules[j].active && str_eq(rules[j].name.as_str(), rules[i].name.as_str()) {
                        proof {
                            assert(!spec_rules_valid(rm)) by {
                                assert((rm[j as int]).active && (rm[i as int]).active && rm[
                                    j as int
                                ].name == rm[i as int].name);
                            }
                            assert(rules_issue(rm, i as int) == Some(
                                ValidationIssue::DupRuleName(rm[i as int].name),
                            )) by {
                                assert((rm[j as int]).active && rm[j as int].name == rm[
                                    i as int
                                ].name);
                            }
                        }
                        return Err(
                            MatcherError::NotUniqueRuleNameError { name: rules[i].name.clone() },
                        );
                    }
                    j = j + 1;
                }
            }
            i = i + 1;
        }
        Ok(())
    }

    /// Validates one rule: its name, its extracted variable names and
    /// its action ids.
    pub fn validate_rule(&self, rule: &Rule) -> (r: Result<(), MatcherError>)
        ensures
            r is Ok <==> spec_rule_valid(rule.model()),
            r is Ok <==> rule_issue(rule.model()) is None,
            r is Err ==> (r->Err_0 matches MatcherError::NotValidIdOrNameError { message }
                && Some(message@) == rule_issue(rule.model())),
    {
        if let Err(e) = self.id.validate_rule_name(rule.name.as_str()) {
            return Err(e);
        }
        proof {
            lemma_with_models_len(rule.constraint.with@);
        }
        let wn = rule.constraint.with.len();
        let mut i: usize = 0;
        while i < wn
            invariant
                i <= wn,
                wn == rule.constraint.with@.len(),
                rule.model().constraint.with.len() == wn,
                rule.model().constraint.with == crate::config::with_models(rule.constraint.with@),
                valid_id(rule.model().name),
                first_bad_with(rule.model().constraint.with, 0) == first_bad_with(
                    rule.model().constraint.with,
                    i as int,
                ),
                forall|k: int|
                    0 <= k < i ==> valid_id((#[trigger] rule.model().constraint.with[k]).0),
            decreases wn - i,
        {
            proof {
                lemma_with_models_index(rule.constraint.with@, i as int);
            }
            if let Err(e) = self.id.validate_extracted_var_name(
                rule.constraint.with[i].0.as_str(),
                rule.name.as_str(),
            ) {
                proof {
                    assert(!valid_id(rule.model().constraint.with[i as int].0));
                    assert(!spec_rule_valid(rule.model()));
                    assert(first_bad_with(rule.model().constraint.with, i as int) == Some(
                        rule.model().constraint.with[i as int].0,
                    ));
                }
                return Err(e);
            }
            i = i + 1;
        }
        proof {
            lemma_action_models_len(rule.actions@);
        }
        let an = rule.actions.len();
        let mut j: usize = 0;
        while j < an
            invariant
                j <= an,
                an == rule.actions@.len(),
                rule.model().actions.len() == an,
                rule.model().actions == crate::config::action_models(rule.actions@),
                valid_id(rule.model().name),
                first_bad_with(rule.model().constraint.with, 0) is None,
                first_bad_action(rule.model().actions, 0) == first_bad_action(
                    rule.model().actions,
                    j as int,
                ),
                forall|k: int|
                    0 <= k < rule.model().constraint.with.len() ==> valid_id(
                        (#[trigger] rule.model().constraint.with[k]).0,
                    ),
                forall|k: int| 0 <= k < j ==> valid_id((#[trigger] rule.model().actions[k]).id),
            decreases an - j,
        {
            proof {
                lemma_action_models_index(rule.actions@, j as int);
            }
            if let Err(e) = self.id.validate_action_id(
                rule.actions[j].id.as_str(),
                rule.name.as_str(),
            ) {
                proof {
                    assert(!valid_id(rule.model().actions[j as int].id));
                    assert(!spec_rule_valid(rule.model()));
                    assert(first_bad_action(rule.model().actions, j as int) == Some(
                        rule.model().actions[j as int].id,
                    ));
                }
                return Err(e);
            }
            j = j + 1;
        }
        Ok(())
    }

    /// Remembers `name`, failing when it was already seen.
    pub fn check_unique_name(rule_names: &mut Vec<String>, name: &str) -> (r: Result<
        (),
        MatcherError,
    >)
        ensures
            r is Ok <==> !(exists|j: int|
                0 <= j < old(rule_names)@.len() && (#[trigger] old(rule_names)@[j])@ == name@),
            r is Ok ==> final(rule_names)@.len() == old(rule_names)@.len() + 1 && (forall|j: int|
                0 <= j < old(rule_names)@.len() ==> #[trigger] final(rule_names)@[j] == old(
                    rule_names,
                )@[j]) && final(rule_names)@.last()@ == name@,
            r is Err ==> final(rule_names)@ == old(rule_names)@ && (
            r->Err_0 matches MatcherError::NotUniqueRuleNameError { name: n } && n@ == name@),
    {
        let n = rule_names.len();
        let mut i: usize = 0;
        while i < n
            invariant
                i <= n,
                n == rule_names@.len(),
                *rule_names == *old(rule_names),
                forall|j: int| 0 <= j < i ==> (#[trigger] rule_names@[j])@ != name@,
            decreases n - i,
        {
            if str_eq(rule_names[i].as_str(), name) {
                return Err(MatcherError::NotUniqueRuleNameError { name: name.to_owned() });
            }
            i = i + 1;
        }
        rule_names.push(name.to_owned());
        Ok(())
    }
}

} // verus!
