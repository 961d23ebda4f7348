//! Laws of the matcher: properties that hold of compilation and
//! processing for every configuration and every event.
//!
//! Processing is total by construction: [`crate::matcher::Matcher::process`]
//! has no precondition and is verified never to fail, whatever the
//! event holds.

use vstd::prelude::*;
use crate::config::{ConfigModel, RuleModel};
use crate::matcher::{CNodeModel, CRuleModel, CValueModel, PNodeModel, PRuleModel, compile_node,
    compile_rules, spec_compile, process_node, process_rules, process_children,
    not_processed, not_processed_rule, not_processed_rules, resolve_actions,
    resolve_cvalue_entries, not_processed_children};
use crate::model::{ActionModel, EventModel};
use crate::value::Model;
use crate::validator::spec_config_valid;

verus! {

/// Compilation is deterministic: it is a function of the configuration
/// alone, so any two compilations of one configuration agree. Together
/// with the contract of `Matcher::build`, two builds of one
/// configuration yield trees with one and the same mirror.
pub proof fn law_compile_deterministic(
    c: ConfigModel,
    r1: Option<CNodeModel>,
    r2: Option<CNodeModel>,
)
    requires
        r1 == spec_compile(c),
        r2 == spec_compile(c),
    ensures
        r1 == r2,
{
}

/// The validator agrees with compilation, up to operator, template and
/// regular-expression build errors: compilation succeeds exactly when
/// the configuration is valid and every such build succeeds, and a
/// successful compilation implies validity.
pub proof fn law_validate_iff_compile(c: ConfigModel)
    ensures
        spec_compile(c) is Some <==> (spec_config_valid(c) && compile_node(c) is Some),
        spec_compile(c) is Some ==> spec_config_valid(c),
{
}

/// Whether metadata is included does not change what is matched or
/// dispatched: the mirror of a processed event — statuses, extracted
/// variables and actions — is a function of the compiled tree and the
/// event alone, and `Matcher::process` ensures it for either flag
/// value.
pub proof fn law_metadata_irrelevant(
    root: CNodeModel,
    ev: EventModel,
    with_metadata: PNodeModel,
    without_metadata: PNodeModel,
)
    requires
        with_metadata == crate::matcher::spec_process(root, ev).0,
        without_metadata == crate::matcher::spec_process(root, ev).0,
    ensures
        with_metadata == without_metadata,
{
}

/// Resolved actions keep their configured ids, in order, and each
/// payload is a pure function of the event and the rule's extracted
/// variables.
pub proof fn law_action_ids(
    acts: Seq<(Seq<char>, Seq<(Seq<char>, CValueModel)>)>,
    ev: EventModel,
    vars: Seq<(Seq<char>, Seq<char>, Model)>,
)
    ensures
        resolve_actions(acts, ev, vars, 0).len() == acts.len(),
        forall|j: int|
            0 <= j < acts.len() ==> #[trigger] resolve_actions(acts, ev, vars, 0)[j]
                == (ActionModel {
                id: acts[j].0,
                payload: resolve_cvalue_entries(acts[j].1, ev, vars, 0),
                trace_id: ev.trace_id,
            }),
{
    lemma_resolve_actions_len(acts, ev, vars, 0);
    assert forall|j: int| 0 <= j < acts.len() implies #[trigger] resolve_actions(
        acts,
        ev,
        vars,
        0,
    )[j] == (ActionModel {
        id: acts[j].0,
        payload: resolve_cvalue_entries(acts[j].1, ev, vars, 0),
        trace_id: ev.trace_id,
    }) by {
        lemma_resolve_actions_index_from(acts, ev, vars, 0, j);
    }
}

proof fn lemma_resolve_actions_len(
    acts: Seq<(Seq<char>, Seq<(Seq<char>, CValueModel)>)>,
    ev: EventModel,
    vars: Seq<(Seq<char>, Seq<char>, Model)>,
    i: int,
)
    requires
        0 <= i <= acts.len(),
    ensures
        resolve_actions(acts, ev, vars, i).len() == acts.len() - i,
    decreases acts.len() - i,
{
    if i < acts.len() {
        lemma_resolve_actions_len(acts, ev, vars, i + 1);
    }
}

proof fn lemma_resolve_actions_index_from(
    acts: Seq<(Seq<char>, Seq<(Seq<char>, CValueModel)>)>,
    ev: EventModel,
    vars: Seq<(Seq<char>, Seq<char>, Model)>,
    i: int,
    j: int,
)
    requires
        0 <= i <= j < acts.len(),
    ensures
        resolve_actions(acts, ev, vars, i)[j - i] == (ActionModel {
            id: acts[j].0,
            payload: resolve_cvalue_entries(acts[j].1, ev, vars, 0),
            trace_id: ev.trace_id,
        }),
    decreases j - i,
{
    lemma_resolve_actions_len(acts, ev, vars, i);
    if i < j {
        lemma_resolve_actions_index_from(acts, ev, vars, i + 1, j);
        lemma_resolve_actions_len(acts, ev, vars, i + 1);
    }
}

/// Disabling a rule is the same as removing it from its ruleset: the
/// compiled rules of a ruleset holding an inactive rule are exactly
/// the compiled rules of the ruleset without it.
pub proof fn law_inactive_rule_is_removed(rules: Seq<RuleModel>, k: int)
    requires
        0 <= k < rules.len(),
        !rules[k].active,
    ensures
        compile_rules(rules, 0) == compile_rules(
            rules.subrange(0, k) + rules.subrange(k + 1, rules.len() as int),
            0,
        ),
{
    lemma_compile_rules_remove(rules, k, 0);
}

proof fn lemma_compile_rules_remove(rules: Seq<RuleModel>, k: int, i: int)
    requires
        0 <= i <= k < rules.len(),
        !rules[k].active,
    ensures
        compile_rules(rules, i) == compile_rules(
            rules.subrange(0, k) + rules.subrange(k + 1, rules.len() as int),
            i,
        ),
    decreases k - i,
{
    let shorter = rules.subrange(0, k) + rules.subrange(k + 1, rules.len() as int);
    assert(shorter.len() == rules.len() - 1);
    if i == k {
        assert(compile_rules(rules, k) == compile_rules(rules, k + 1));
        lemma_compile_rules_shifted(rules, k, k + 1);
    } else {
        assert(shorter[i] == rules[i]);
        lemma_compile_rules_remove(rules, k, i + 1);
    }
}

proof fn lemma_compile_rules_shifted(rules: Seq<RuleModel>, k: int, j: int)
    requires
        0 <= k < rules.len(),
        k + 1 <= j <= rules.len(),
    ensures
        compile_rules(rules, j) == compile_rules(
            rules.subrange(0, k) + rules.subrange(k + 1, rules.len() as int),
            j - 1,
        ),
    decreases rules.len() - j,
{
    let shorter = rules.subrange(0, k) + rules.subrange(k + 1, rules.len() as int);
    assert(shorter.len() == rules.len() - 1);
    if j < rules.len() {
        assert(shorter[j - 1] == rules[j]);
        lemma_compile_rules_shifted(rules, k, j + 1);
    }
}

/// A rule that matches and does not continue stops its own ruleset:
/// every rule after it is recorded as not processed. Sibling rulesets
/// are unaffected: each ruleset's walk starts afresh, as
/// `process_node` shows.
pub proof fn law_matched_stop_halts_ruleset(
    rules: Seq<CRuleModel>,
    ev: EventModel,
    vars: Seq<(Seq<char>, Seq<char>, Model)>,
    i: int,
)
    requires
        0 <= i < rules.len(),
        match rules[i].op {
            Some(op) => crate::operator::eval_op(op, ev, vars),
            None => true,
        },
        crate::matcher::run_extractors(
            rules[i].name,
            rules[i].extractors,
            ev,
            vars,
            0,
        ).2 is None,
        !rules[i].do_continue,
    ensures
        process_rules(rules, ev, vars, i, false).0.len() == rules.len() - i,
        process_rules(rules, ev, vars, i, false).0[0].status is Matched,
        forall|j: int|
            i < j < rules.len() ==> (#[trigger] process_rules(
                rules,
                ev,
                vars,
                i,
                false,
            ).0[j - i]).status is NotProcessed,
{
    let ex = crate::matcher::run_extractors(rules[i].name, rules[i].extractors, ev, vars, 0);
    let rest = process_rules(rules, ev, ex.1, i + 1, true);
    law_stop_marks_rest_not_processed(rules, ev, ex.1, i + 1);
    assert forall|j: int| i < j < rules.len() implies (#[trigger] process_rules(
        rules,
        ev,
        vars,
        i,
        false,
    ).0[j - i]).status is NotProcessed by {
        assert(process_rules(rules, ev, vars, i, false).0[j - i] == rest.0[j - i - 1]);
    }
}

/// Once a ruleset's walk has stopped, every remaining rule is recorded
/// as not processed.
pub proof fn law_stop_marks_rest_not_processed(
    rules: Seq<CRuleModel>,
    ev: EventModel,
    vars: Seq<(Seq<char>, Seq<char>, Model)>,
    i: int,
)
    requires
        0 <= i <= rules.len(),
    ensures
        process_rules(rules, ev, vars, i, true).0.len() == rules.len() - i,
        forall|j: int|
            0 <= j < rules.len() - i ==> (#[trigger] process_rules(rules, ev, vars, i, true).0[j])
                == not_processed_rule(rules[i + j]),
        forall|j: int|
            0 <= j < rules.len() - i ==> (#[trigger] process_rules(
                rules,
                ev,
                vars,
                i,
                true,
            ).0[j]).status is NotProcessed,
    decreases rules.len() - i,
{
    if i < rules.len() {
        law_stop_marks_rest_not_processed(rules, ev, vars, i + 1);
    }
}

/// A subtree below a failed filter is recorded as not processed
/// everywhere: no node in it is marked as not matched.
pub open spec fn all_not_processed(n: PNodeModel) -> bool
    decreases n, 0int, 0int,
{
    match n {
        PNodeModel::Filter { name, status, nodes } => status is NotProcessed
            && all_not_processed_children(nodes, 0),
        PNodeModel::Rules { rules } => forall|j: int|
            0 <= j < rules.len() ==> (#[trigger] rules[j]).status is NotProcessed,
    }
}

/// Whether every child from position `i` on is entirely unprocessed.
pub open spec fn all_not_processed_children(nodes: Seq<PNodeModel>, i: int) -> bool
    decreases nodes, 1int, nodes.len() - i,
{
    if i < 0 || i >= nodes.len() {
        true
    } else {
        all_not_processed(nodes[i]) && all_not_processed_children(nodes, i + 1)
    }
}

/// The unprocessed mirror of a compiled tree is entirely unprocessed.
pub proof fn law_filter_gates_subtree(n: CNodeModel)
    ensures
        all_not_processed(crate::matcher::not_processed(n)),
    decreases n, 0int, 0int,
{
    match n {
        CNodeModel::Filter { name, filter, nodes } => {
            lemma_not_processed_children_all(nodes, 0);
        },
        CNodeModel::Rules { rules } => {
            lemma_not_processed_rules_all(rules, 0);
            let out = crate::matcher::not_processed_rules(rules, 0);
            assert(crate::matcher::not_processed(n) == PNodeModel::Rules { rules: out });
        },
    }
}

proof fn lemma_not_processed_rules_all(rules: Seq<CRuleModel>, i: int)
    requires
        0 <= i <= rules.len(),
    ensures
        crate::matcher::not_processed_rules(rules, i).len() == rules.len() - i,
        forall|j: int|
            0 <= j < rules.len() - i ==> (#[trigger] crate::matcher::not_processed_rules(
                rules,
                i,
            )[j]).status is NotProcessed,
    decreases rules.len() - i,
{
    if i < rules.len() {
        lemma_not_processed_rules_all(rules, i + 1);
    }
}

proof fn lemma_not_processed_children_all(nodes: Seq<(Seq<char>, CNodeModel)>, i: int)
    requires
        0 <= i <= nodes.len(),
    ensures
        not_processed_children(nodes, i).len() == nodes.len() - i,
        all_not_processed_children(not_processed_children(nodes, i), 0),
    decreases nodes, 1int, nodes.len() - i,
{
    if i < nodes.len() {
        law_filter_gates_subtree(nodes[i].1);
        lemma_not_processed_children_all(nodes, i + 1);
        lemma_all_children_cons(
            crate::matcher::not_processed(nodes[i].1),
            not_processed_children(nodes, i + 1),
        );
        assert(not_processed_children(nodes, i) == seq![
            crate::matcher::not_processed(nodes[i].1),
        ] + not_processed_children(nodes, i + 1));
    }
}

proof fn lemma_all_children_cons(head: PNodeModel, rest: Seq<PNodeModel>)
    requires
        all_not_processed(head),
        all_not_processed_children(rest, 0),
    ensures
        all_not_processed_children(seq![head] + rest, 0),
{
    let combined = seq![head] + rest;
    lemma_all_children_shift(combined, rest, 1);
    assert(combined[0] == head);
}

proof fn lemma_all_children_shift(combined: Seq<PNodeModel>, rest: Seq<PNodeModel>, i: int)
    requires
        1 <= i <= combined.len(),
        combined.len() == rest.len() + 1,
        forall|j: int| 0 <= j < rest.len() ==> combined[j + 1] == rest[j],
        all_not_processed_children(rest, i - 1),
    ensures
        all_not_processed_children(combined, i),
    decreases combined.len() - i,
{
    if i < combined.len() {
        assert(combined[i] == rest[i - 1]);
        lemma_all_children_shift(combined, rest, i + 1);
    }
}


/// Whether a matched record's actions are faithful to the compiled
/// rule they came from: one action per configured template, each
/// keeping the configured id and the event's trace id, and the whole
/// list is the resolution of those templates against the event and
/// the variables accumulated when the rule matched.
pub open spec fn rule_actions_faithful(r: PRuleModel, cr: CRuleModel, ev: EventModel) -> bool {
    r.actions.len() == cr.actions.len() && (forall|a: int|
        0 <= a < r.actions.len() ==> (#[trigger] r.actions[a]).id == cr.actions[a].0
            && r.actions[a].trace_id == ev.trace_id) && (exists|
        vs: Seq<(Seq<char>, Seq<char>, Model)>,
    |
        r.actions == #[trigger] resolve_actions(cr.actions, ev, vs, 0))
}

/// Whether a processed tree is faithful to the compiled tree it came
/// from: same shape, rule names kept in order, and every matched
/// record's actions faithful to its rule.
pub open spec fn actions_faithful(p: PNodeModel, c: CNodeModel, ev: EventModel) -> bool
    decreases p, 0int, 0int,
{
    match (p, c) {
        (PNodeModel::Rules { rules: rs }, CNodeModel::Rules { rules: cs }) => rs.len() == cs.len()
            && (forall|j: int| 0 <= j < rs.len() ==> (#[trigger] rs[j]).name == cs[j].name) && (
        forall|j: int|
            0 <= j < rs.len() && (#[trigger] rs[j]).status is Matched ==> rule_actions_faithful(
                rs[j],
                cs[j],
                ev,
            )),
        (PNodeModel::Filter { nodes: pn, .. }, CNodeModel::Filter { nodes: cn, .. }) => pn.len()
            == cn.len() && (forall|j: int|
            0 <= j < pn.len() ==> actions_faithful(#[trigger] pn[j], cn[j].1, ev)),
        _ => false,
    }
}

proof fn lemma_faithful_rules_unfold(
    rs: Seq<PRuleModel>,
    cs: Seq<CRuleModel>,
    ev: EventModel,
)
    ensures
        actions_faithful(PNodeModel::Rules { rules: rs }, CNodeModel::Rules { rules: cs }, ev)
            <==> (rs.len() == cs.len() && (forall|j: int|
            0 <= j < rs.len() ==> (#[trigger] rs[j]).name == cs[j].name) && (forall|j: int|
            0 <= j < rs.len() && (#[trigger] rs[j]).status is Matched ==> rule_actions_faithful(
                rs[j],
                cs[j],
                ev,
            ))),
{
    reveal_with_fuel(actions_faithful, 2);
    let p = PNodeModel::Rules { rules: rs };
    let c = CNodeModel::Rules { rules: cs };
    assert(p->Rules_rules == rs);
    assert(c->Rules_rules == cs);
    if actions_faithful(p, c, ev) {
        assert forall|j: int| 0 <= j < rs.len() implies (#[trigger] rs[j]).name == cs[j].name by {
            assert(p->Rules_rules[j] == rs[j]);
            assert(c->Rules_rules[j] == cs[j]);
        }
        assert forall|j: int|
            0 <= j < rs.len() && (#[trigger] rs[j]).status is Matched implies
            rule_actions_faithful(rs[j], cs[j], ev) by {
            assert(p->Rules_rules[j] == rs[j]);
            assert(c->Rules_rules[j] == cs[j]);
        }
    }
    if rs.len() == cs.len() && (forall|j: int|
        0 <= j < rs.len() ==> (#[trigger] rs[j]).name == cs[j].name) && (forall|j: int|
        0 <= j < rs.len() && (#[trigger] rs[j]).status is Matched ==> rule_actions_faithful(
            rs[j],
            cs[j],
            ev,
        )) {
        assert forall|j: int|
            0 <= j < p->Rules_rules.len() implies (#[trigger] p->Rules_rules[j]).name
            == c->Rules_rules[j].name by {
            assert(p->Rules_rules[j] == rs[j]);
        }
        assert forall|j: int|
            0 <= j < p->Rules_rules.len() && (#[trigger] p->Rules_rules[j]).status is Matched
            implies rule_actions_faithful(p->Rules_rules[j], c->Rules_rules[j], ev) by {
            assert(p->Rules_rules[j] == rs[j]);
            assert(c->Rules_rules[j] == cs[j]);
        }
        assert(actions_faithful(p, c, ev));
    }
}

proof fn lemma_faithful_filter_unfold(
    pname: Seq<char>,
    pstatus: crate::matcher::ProcessedFilterStatus,
    pn: Seq<PNodeModel>,
    c: CNodeModel,
    ev: EventModel,
)
    requires
        c is Filter,
    ensures
        actions_faithful(
            PNodeModel::Filter { name: pname, status: pstatus, nodes: pn },
            c,
            ev,
        ) <==> (pn.len() == c->Filter_nodes.len() && (forall|j: int|
            0 <= j < pn.len() ==> actions_faithful(#[trigger] pn[j], c->Filter_nodes[j].1, ev))),
{
    reveal_with_fuel(actions_faithful, 2);
    let p = PNodeModel::Filter { name: pname, status: pstatus, nodes: pn };
    assert(p->Filter_nodes == pn);
    if actions_faithful(p, c, ev) {
        assert forall|j: int|
            0 <= j < pn.len() implies actions_faithful(#[trigger] pn[j], c->Filter_nodes[j].1, ev)
        by {
            assert(p->Filter_nodes[j] == pn[j]);
        }
    }
    if pn.len() == c->Filter_nodes.len() && (forall|j: int|
        0 <= j < pn.len() ==> actions_faithful(#[trigger] pn[j], c->Filter_nodes[j].1, ev)) {
        assert forall|j: int|
            0 <= j < p->Filter_nodes.len() implies actions_faithful(
            #[trigger] p->Filter_nodes[j],
            c->Filter_nodes[j].1,
            ev,
        ) by {
            assert(p->Filter_nodes[j] == pn[j]);
        }
        assert(actions_faithful(p, c, ev));
    }
}

proof fn lemma_rules_records_faithful(
    rules: Seq<CRuleModel>,
    ev: EventModel,
    vars: Seq<(Seq<char>, Seq<char>, Model)>,
    i: int,
    stopped: bool,
)
    requires
        0 <= i <= rules.len(),
    ensures
        process_rules(rules, ev, vars, i, stopped).0.len() == rules.len() - i,
        forall|j: int|
            0 <= j < rules.len() - i ==> (#[trigger] process_rules(
                rules,
                ev,
                vars,
                i,
                stopped,
            ).0[j]).name == rules[i + j].name,
        forall|j: int|
            0 <= j < rules.len() - i && (#[trigger] process_rules(
                rules,
                ev,
                vars,
                i,
                stopped,
            ).0[j]).status is Matched ==> rule_actions_faithful(
                process_rules(rules, ev, vars, i, stopped).0[j],
                rules[i + j],
                ev,
            ),
    decreases rules.len() - i,
{
    if i < rules.len() {
        let out = process_rules(rules, ev, vars, i, stopped).0;
        if stopped {
            lemma_rules_records_faithful(rules, ev, vars, i + 1, true);
        } else {
            let r = rules[i];
            let where_ok = match r.op {
                Some(op) => crate::operator::eval_op(op, ev, vars),
                None => true,
            };
            if !where_ok {
                lemma_rules_records_faithful(rules, ev, vars, i + 1, false);
            } else {
                let ex = crate::matcher::run_extractors(r.name, r.extractors, ev, vars, 0);
                match ex.2 {
                    Some(failed) => {
                        lemma_rules_records_faithful(rules, ev, ex.1, i + 1, false);
                    },
                    None => {
                        lemma_rules_records_faithful(rules, ev, ex.1, i + 1, !r.do_continue);
                        law_action_ids(r.actions, ev, ex.1);
                        assert(rule_actions_faithful(out[0], rules[i], ev)) by {
                            assert(out[0].actions == resolve_actions(r.actions, ev, ex.1, 0));
                        }
                    },
                }
            }
        }
    }
}

proof fn lemma_not_processed_faithful(c: CNodeModel, ev: EventModel)
    ensures
        actions_faithful(not_processed(c), c, ev),
    decreases c, 0int, 0int,
{
    match c {
        CNodeModel::Rules { rules } => {
            lemma_not_processed_rules_names(rules, 0);
            lemma_faithful_rules_unfold(not_processed_rules(rules, 0), rules, ev);
        },
        CNodeModel::Filter { name, filter, nodes } => {
            lemma_not_processed_children_faithful(nodes, ev, 0);
            lemma_faithful_filter_unfold(
                name,
                crate::matcher::ProcessedFilterStatus::NotProcessed,
                not_processed_children(nodes, 0),
                c,
                ev,
            );
        },
    }
}

proof fn lemma_not_processed_rules_names(rules: Seq<CRuleModel>, i: int)
    requires
        0 <= i <= rules.len(),
    ensures
        not_processed_rules(rules, i).len() == rules.len() - i,
        forall|j: int|
            0 <= j < rules.len() - i ==> (#[trigger] not_processed_rules(rules, i)[j])
                == not_processed_rule(rules[i + j]),
    decreases rules.len() - i,
{
    if i < rules.len() {
        lemma_not_processed_rules_names(rules, i + 1);
    }
}

proof fn lemma_not_processed_children_faithful(
    nodes: Seq<(Seq<char>, CNodeModel)>,
    ev: EventModel,
    i: int,
)
    requires
        0 <= i <= nodes.len(),
    ensures
        not_processed_children(nodes, i).len() == nodes.len() - i,
        forall|j: int|
            0 <= j < nodes.len() - i ==> actions_faithful(
                #[trigger] not_processed_children(nodes, i)[j],
                nodes[i + j].1,
                ev,
            ),
    decreases nodes, 1int, nodes.len() - i,
{
    if i < nodes.len() {
        lemma_not_processed_faithful(nodes[i].1, ev);
        lemma_not_processed_children_faithful(nodes, ev, i + 1);
    }
}

/// Every matched rule of a whole processed tree keeps its configured
/// action ids, in template order, attaches the event's trace id, and
/// its action list is the resolution of that rule's templates against
/// the event and the variables accumulated when the rule matched.
pub proof fn law_process_tree_action_ids(
    n: CNodeModel,
    ev: EventModel,
    vars: Seq<(Seq<char>, Seq<char>, Model)>,
)
    ensures
        actions_faithful(process_node(n, ev, vars).0, n, ev),
    decreases n, 0int, 0int,
{
    match n {
        CNodeModel::Rules { rules } => {
            lemma_rules_records_faithful(rules, ev, vars, 0, false);
            lemma_faithful_rules_unfold(process_rules(rules, ev, vars, 0, false).0, rules, ev);
        },
        CNodeModel::Filter { name, filter, nodes } => {
            let pass = match filter {
                Some(op) => crate::operator::eval_op(op, ev, vars),
                None => true,
            };
            if pass {
                lemma_process_children_faithful(nodes, ev, vars, 0);
                lemma_faithful_filter_unfold(
                    name,
                    crate::matcher::ProcessedFilterStatus::Matched,
                    process_children(nodes, ev, vars, 0).0,
                    n,
                    ev,
                );
            } else {
                lemma_not_processed_children_faithful(nodes, ev, 0);
                lemma_faithful_filter_unfold(
                    name,
                    crate::matcher::ProcessedFilterStatus::NotMatched,
                    not_processed_children(nodes, 0),
                    n,
                    ev,
                );
            }
        },
    }
}

proof fn lemma_process_children_faithful(
    nodes: Seq<(Seq<char>, CNodeModel)>,
    ev: EventModel,
    vars: Seq<(Seq<char>, Seq<char>, Model)>,
    i: int,
)
    requires
        0 <= i <= nodes.len(),
    ensures
        process_children(nodes, ev, vars, i).0.len() == nodes.len() - i,
        forall|j: int|
            0 <= j < nodes.len() - i ==> actions_faithful(
                #[trigger] process_children(nodes, ev, vars, i).0[j],
                nodes[i + j].1,
                ev,
            ),
    decreases nodes, 1int, nodes.len() - i,
{
    if i < nodes.len() {
        let first = process_node(nodes[i].1, ev, vars);
        law_process_tree_action_ids(nodes[i].1, ev, vars);
        lemma_process_children_faithful(nodes, ev, first.1, i + 1);
    }
}

} // verus!
