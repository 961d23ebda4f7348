//! The dispatcher: walking a processed event and collecting, in
//! traversal order, every action of every matched rule. The caller
//! hands each action to the mailbox registered under its id.

use vstd::prelude::*;
use crate::matcher::{PNodeModel, PRuleModel, ProcessedNode, ProcessedEvent, ProcessedRuleStatus,
    act_models, lemma_act_models_len, lemma_act_models_index, prule_models, pnode_models,
    lemma_prule_models_len, lemma_prule_models_index, lemma_pnode_models_len,
    lemma_pnode_models_index};
use crate::model::{Action, ActionModel};

verus! {

/// The actions of the first `i` rules, keeping only matched rules, in
/// order.
pub open spec fn rules_actions(rules: Seq<PRuleModel>, i: int) -> Seq<ActionModel>
    decreases i,
{
    if i <= 0 || i > rules.len() {
        Seq::empty()
    } else {
        rules_actions(rules, i - 1) + (if rules[i - 1].status is Matched {
            rules[i - 1].actions
        } else {
            Seq::empty()
        })
    }
}

/// The actions of a whole processed subtree, in traversal order.
pub open spec fn node_actions(n: PNodeModel) -> Seq<ActionModel>
    decreases n, 0int, 0int,
{
    match n {
        PNodeModel::Rules { rules } => rules_actions(rules, rules.len() as int),
        PNodeModel::Filter { name, status, nodes } => children_actions(nodes, nodes.len() as int),
    }
}

/// The actions of the first `i` children, in order.
pub open spec fn children_actions(nodes: Seq<PNodeModel>, i: int) -> Seq<ActionModel>
    decreases nodes, 1int, i,
{
    if i <= 0 || i > nodes.len() {
        Seq::empty()
    } else {
        children_actions(nodes, i - 1) + node_actions(nodes[i - 1])
    }
}

fn collect_node(n: &ProcessedNode, out: &mut Vec<Action>)
    ensures
        act_models(final(out)@) == act_models(old(out)@) + node_actions(n.model()),
    decreases n,
{
    match n {
        ProcessedNode::Rules { rules } => {
            proof {
                lemma_prule_models_len(rules@);
            }
            let ghost rm = prule_models(rules@);
            let m = rules.len();
            let mut i: usize = 0;
            while i < m
                invariant
                    i <= m,
                    m == rules@.len(),
                    rm == prule_models(rules@),
                    rm.len() == m,
                    act_models(out@) =~= act_models(old(out)@) + rules_actions(rm, i as int),
                decreases m - i,
            {
                proof {
                    lemma_prule_models_index(rules@, i as int);
                }
                let is_matched = match rules[i].status {
                    ProcessedRuleStatus::Matched => true,
                    _ => false,
                };
                if is_matched {
                    let acts = &rules[i].actions;
                    proof {
                        lemma_act_models_len(acts@);
                    }
                    let an = acts.len();
                    let mut j: usize = 0;
                    while j < an
                        invariant
                            j <= an,
                            i < m,
                            m == rules@.len(),
                            rm == prule_models(rules@),
                            rm.len() == m,
                            acts == &rules@[i as int].actions,
                            rm[i as int].status is Matched,
                            rm[i as int].actions == act_models(acts@),
                            an == acts@.len(),
                            act_models(acts@).len() == an,
                            act_models(out@) =~= act_models(old(out)@) + rules_actions(
                                rm,
                                i as int,
                            ) + act_models(acts@).subrange(0, j as int),
                        decreases an - j,
                    {
                        proof {
                            lemma_act_models_index(acts@, j as int);
                        }
                        let ghost prev = out@;
                        out.push(acts[j].deep_clone());
                        proof {
                            assert(out@.subrange(0, prev.len() as int) =~= prev);
                            lemma_act_models_push(out@);
                            assert(act_models(acts@).subrange(0, j + 1) =~= act_models(
                                acts@,
                            ).subrange(0, j as int) + seq![act_models(acts@)[j as int]]);
                            assert(act_models(out@) =~= act_models(old(out)@) + rules_actions(
                                rm,
                                i as int,
                            ) + act_models(acts@).subrange(0, j + 1));
                        }
                        j = j + 1;
                    }
                    proof {
                        assert(act_models(acts@).subrange(0, an as int) =~= act_models(acts@));
                        assert(act_models(out@) =~= act_models(old(out)@) + rules_actions(
                            rm,
                            i + 1,
                        ));
                    }
                } else {
                    proof {
                        assert(rules_actions(rm, i + 1) =~= rules_actions(rm, i as int));
                    }
                }
                i = i + 1;
            }
        },
        ProcessedNode::Filter { name, status, nodes } => {
            proof {
                lemma_pnode_models_len(nodes@);
            }
            let ghost cn = pnode_models(nodes@);
            let m = nodes.len();
            let mut i: usize = 0;
            while i < m
                invariant
                    i <= m,
                    m == nodes@.len(),
                    *n == (ProcessedNode::Filter {
                        name: *name,
                        status: *status,
                        nodes: *nodes,
                    }),
                    cn == pnode_models(nodes@),
                    cn.len() == m,
                    act_models(out@) =~= act_models(old(out)@) + children_actions(cn, i as int),
                decreases m - i,
            {
                proof {
                    lemma_pnode_models_index(nodes@, i as int);
                    assert(decreases_to!(*n => n->Filter_nodes));
                    assert(decreases_to!(n->Filter_nodes => n->Filter_nodes@));
                    assert(decreases_to!(n->Filter_nodes@ => n->Filter_nodes@[i as int]));
                }
                collect_node(&nodes[i], out);
                proof {
                    assert(act_models(out@) =~= act_models(old(out)@) + children_actions(
                        cn,
                        i + 1,
                    ));
                }
                i = i + 1;
            }
        },
    }
}

/// A mirror sequence grows by the mirror of the pushed action.
proof fn lemma_act_models_push(acts: Seq<Action>)
    requires
        acts.len() > 0,
    ensures
        act_models(acts) == act_models(acts.subrange(0, acts.len() - 1)) + seq![
            acts.last().model(),
        ],
{
    let n = acts.len() as int;
    lemma_act_models_len(acts);
    lemma_act_models_len(acts.subrange(0, n - 1));
    assert forall|j: int| 0 <= j < n implies #[trigger] act_models(acts)[j] == (act_models(
        acts.subrange(0, n - 1),
    ) + seq![acts.last().model()])[j] by {
        lemma_act_models_index(acts, j);
        if j < n - 1 {
            lemma_act_models_index(acts.subrange(0, n - 1), j);
        }
    }
    assert(act_models(acts) =~= act_models(acts.subrange(0, n - 1)) + seq![acts.last().model()]);
}

/// Walks a processed event and returns every action of every matched
/// rule, in traversal order. The caller publishes each action to the
/// mailbox registered under `action.id`; unknown ids are the caller's
/// to drop.
pub fn collect_actions(processed: &ProcessedEvent) -> (r: Vec<Action>)
    ensures
        act_models(r@) == node_actions(processed.result.model()),
{
    let mut out: Vec<Action> = Vec::new();
    proof {
        assert(act_models(out@) =~= Seq::<ActionModel>::empty());
    }
    collect_node(&processed.result, &mut out);
    proof {
        assert(act_models(out@) =~= node_actions(processed.result.model()));
    }
    out
}

} // verus!
