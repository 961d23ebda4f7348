//! Selecting the part of a configuration tree one caller may see: a
//! node filter names, per filter node, the children that survive,
//! each either kept whole or narrowed recursively. The engine
//! processes events for one tenant against such a selection.

use vstd::prelude::*;
use crate::config::{ConfigModel, MatcherConfig, node_models, lemma_node_models_len,
    lemma_node_models_index};
use crate::value::str_eq;

verus! {

/// What survives of one selected child.
#[derive(Debug, PartialEq)]
pub enum NodeFilter {
    /// The whole child subtree is kept.
    AllChildren,
    /// Only the named children are kept, each narrowed by its own
    /// filter.
    SelectedChildren(Vec<(String, NodeFilter)>),
}

/// The mirror of a [`NodeFilter`].
pub enum NodeFilterModel {
    AllChildren,
    SelectedChildren(Seq<(Seq<char>, NodeFilterModel)>),
}

/// The mirror of a selection list.
pub open spec fn sel_models(sel: Seq<(String, NodeFilter)>) -> Seq<(Seq<char>, NodeFilterModel)>
    decreases sel,
{
    if sel.len() == 0 {
        Seq::empty()
    } else {
        seq![(sel[0].0@, sel[0].1.model())] + sel_models(sel.subrange(1, sel.len() as int))
    }
}

impl NodeFilter {
    /// The mirror of this filter.
    pub open spec fn model(self) -> NodeFilterModel
        decreases self,
    {
        match self {
            NodeFilter::AllChildren => NodeFilterModel::AllChildren,
            NodeFilter::SelectedChildren(sel) => NodeFilterModel::SelectedChildren(
                sel_models(sel@),
            ),
        }
    }
}

pub broadcast proof fn lemma_sel_models_len(sel: Seq<(String, NodeFilter)>)
    ensures
        #[trigger] sel_models(sel).len() == sel.len(),
    decreases sel,
{
    if sel.len() > 0 {
        lemma_sel_models_len(sel.subrange(1, sel.len() as int));
    }
}

pub broadcast proof fn lemma_sel_models_index(sel: Seq<(String, NodeFilter)>, i: int)
    requires
        0 <= i < sel.len(),
    ensures
        #[trigger] sel_models(sel)[i] == (sel[i].0@, sel[i].1.model()),
    decreases sel,
{
    lemma_sel_models_len(sel);
    if i > 0 {
        lemma_sel_models_index(sel.subrange(1, sel.len() as int), i - 1);
    }
}

/// The position of the first selection entry named `name`, from
/// position `i` on; the length of the list when there is none.
pub open spec fn sel_index(sel: Seq<(Seq<char>, NodeFilterModel)>, name: Seq<char>, i: int) -> int
    decreases sel.len() - i,
{
    if i < 0 || i >= sel.len() {
        sel.len() as int
    } else if sel[i].0 == name {
        i
    } else {
        sel_index(sel, name, i + 1)
    }
}

/// What survives of a configuration under a filter: everything under
/// `AllChildren`; under a selection, a ruleset is kept whole, and a
/// filter node keeps exactly its selected children, each narrowed
/// recursively — and nothing when no child survives, so a selection
/// that matches no node yields nothing.
pub open spec fn spec_filter_config(c: ConfigModel, f: NodeFilterModel) -> Option<ConfigModel>
    decreases f, 0int, 0int,
{
    match f {
        NodeFilterModel::AllChildren => Some(c),
        NodeFilterModel::SelectedChildren(sel) => match c {
            ConfigModel::Rules { rules } => Some(c),
            ConfigModel::Filter { filter, nodes } => {
                let kept = spec_filter_children(nodes, sel, nodes.len() as int);
                if kept.len() == 0 {
                    None
                } else {
                    Some(ConfigModel::Filter { filter, nodes: kept })
                }
            },
        },
    }
}

/// The surviving children among the first `i` of `nodes`, in order.
pub open spec fn spec_filter_children(
    nodes: Seq<(Seq<char>, ConfigModel)>,
    sel: Seq<(Seq<char>, NodeFilterModel)>,
    i: int,
) -> Seq<(Seq<char>, ConfigModel)>
    decreases sel, 1int, i,
{
    if i <= 0 || i > nodes.len() {
        Seq::empty()
    } else {
        let head = spec_filter_children(nodes, sel, i - 1);
        let k = sel_index(sel, nodes[i - 1].0, 0);
        if 0 <= k && k < sel.len() {
            match spec_filter_config(nodes[i - 1].1, sel[k].1) {
                Some(c2) => head + seq![(nodes[i - 1].0, c2)],
                None => head,
            }
        } else {
            head
        }
    }
}

proof fn lemma_spec_filter_on_filter(
    filter: crate::config::FilterModel,
    nodes: Seq<(Seq<char>, ConfigModel)>,
    sel: Seq<(Seq<char>, NodeFilterModel)>,
)
    ensures
        spec_filter_config(
            ConfigModel::Filter { filter, nodes },
            NodeFilterModel::SelectedChildren(sel),
        ) == ({
            let kept = spec_filter_children(nodes, sel, nodes.len() as int);
            if kept.len() == 0 {
                None
            } else {
                Some(ConfigModel::Filter { filter, nodes: kept })
            }
        }),
{
    reveal_with_fuel(spec_filter_config, 2);
    let c = ConfigModel::Filter { filter, nodes };
    let f = NodeFilterModel::SelectedChildren(sel);
    assert(c->Filter_filter == filter);
    assert(c->Filter_nodes == nodes);
    assert(f->SelectedChildren_0 == sel);
}

/// Narrows a configuration to what the filter selects; yields nothing
/// when the selection matches no node.
pub fn filter_config(config: MatcherConfig, filter: &NodeFilter) -> (r: Option<MatcherConfig>)
    ensures
        match r {
            Some(c2) => spec_filter_config(config.model(), filter.model()) == Some(c2.model()),
            None => spec_filter_config(config.model(), filter.model()) is None,
        },
    decreases filter, 0int,
{
    let ghost cm = config.model();
    proof {
        reveal_with_fuel(spec_filter_config, 2);
    }
    match filter {
        NodeFilter::AllChildren => {
            proof {
                assert(filter.model() == NodeFilterModel::AllChildren);
                assert(spec_filter_config(cm, NodeFilterModel::AllChildren) == Some(cm));
            }
            Some(config)
        },
        NodeFilter::SelectedChildren(sel) => {
            let ghost fm = NodeFilterModel::SelectedChildren(sel_models(sel@));
            proof {
                assert(filter.model() == fm);
            }
            match config {
                MatcherConfig::Rules { rules } => {
                    proof {
                        assert(cm is Rules);
                        assert(spec_filter_config(cm, fm) == Some(cm));
                    }
                    let rebuilt = MatcherConfig::Rules { rules };
                    proof {
                        assert(rebuilt.model() == cm);
                    }
                    Some(rebuilt)
                },
                MatcherConfig::Filter { filter: head, nodes } => {
                    proof {
                        assert(decreases_to!(*filter => filter->SelectedChildren_0));
                        assert(decreases_to!(filter->SelectedChildren_0 =>
                            filter->SelectedChildren_0@));
                        assert(cm == ConfigModel::Filter {
                            filter: head.model(),
                            nodes: node_models(nodes@),
                        });
                    }
                    let ghost head_model = head.model();
                    let ghost nodes_view = nodes@;
                    let kept = filter_children(nodes, sel);
                    proof {
                        lemma_node_models_len(kept@);
                        lemma_node_models_len(nodes_view);
                        lemma_spec_filter_on_filter(
                            head_model,
                            node_models(nodes_view),
                            sel_models(sel@),
                        );
                    }
                    if kept.len() == 0 {
                        None
                    } else {
                        let rebuilt = MatcherConfig::Filter { filter: head, nodes: kept };
                        proof {
                            assert(rebuilt.model() == ConfigModel::Filter {
                                filter: head_model,
                                nodes: node_models(kept@),
                            });
                        }
                        Some(rebuilt)
                    }
                },
            }
        },
    }
}

fn sel_find(sel: &Vec<(String, NodeFilter)>, name: &str) -> (r: usize)
    ensures
        r as int == sel_index(sel_models(sel@), name@, 0),
        r <= sel@.len(),
{
    proof {
        lemma_sel_models_len(sel@);
    }
    let sn = sel.len();
    let mut k: usize = 0;
    while k < sn
        invariant
            k <= sn,
            sn == sel@.len(),
            sel_models(sel@).len() == sn,
            sel_index(sel_models(sel@), name@, 0) == sel_index(
                sel_models(sel@),
                name@,
                k as int,
            ),
        decreases sn - k,
    {
        proof {
            lemma_sel_models_index(sel@, k as int);
        }
        if str_eq(sel[k].0.as_str(), name) {
            return k;
        }
        k = k + 1;
    }
    sn
}

fn filter_children(nodes: Vec<(String, MatcherConfig)>, sel: &Vec<(String, NodeFilter)>) -> (r:
    Vec<(String, MatcherConfig)>)
    ensures
        node_models(r@) == spec_filter_children(
            node_models(nodes@),
            sel_models(sel@),
            nodes@.len() as int,
        ),
    decreases sel@, 1int,
{
    let ghost original = nodes@;
    let ghost nm = node_models(original);
    let ghost sm = sel_models(sel@);
    proof {
        lemma_node_models_len(original);
        lemma_sel_models_len(sel@);
    }
    let mut work = nodes;
    let mut out: Vec<(String, MatcherConfig)> = Vec::new();
    while work.len() > 0
        invariant
            original == nodes@,
            nm == node_models(original),
            sm == sel_models(sel@),
            nm.len() == original.len(),
            sm.len() == sel@.len(),
            work@ =~= original.subrange(0, work@.len() as int),
            work@.len() <= original.len(),
            spec_filter_children(nm, sm, original.len() as int) =~= spec_filter_children(
                nm,
                sm,
                work@.len() as int,
            ) + node_models(out@),
        decreases work@.len(),
    {
        let ghost m = work@.len() as int;
        let entry = work.pop().unwrap();
        proof {
            assert(work@ =~= original.subrange(0, m - 1));
            assert(entry == original[m - 1]);
            lemma_node_models_index(original, m - 1);
        }
        let name = entry.0;
        let child = entry.1;
        let sn = sel.len();
        let found = sel_find(sel, name.as_str());
        if found < sn {
            proof {
                lemma_sel_models_index(sel@, found as int);
                assert(sel_index(sm, name@, 0) == found as int);
                assert(decreases_to!(sel@ => sel@[found as int]));
                assert(decreases_to!(sel@[found as int] => sel@[found as int].1));
            }
            match filter_config(child, &sel[found].1) {
                Some(c2) => {
                    let ghost prev = out@;
                    out.insert(0, (name, c2));
                    proof {
                        assert(out@.subrange(1, out@.len() as int) =~= prev);
                        assert(node_models(out@) =~= seq![(out@[0].0@, out@[0].1.model())]
                            + node_models(prev));
                        assert(spec_filter_children(nm, sm, m) =~= spec_filter_children(
                            nm,
                            sm,
                            m - 1,
                        ) + seq![(nm[m - 1].0, c2.model())]);
                    }
                },
                None => {
                    proof {
                        assert(spec_filter_children(nm, sm, m) =~= spec_filter_children(
                            nm,
                            sm,
                            m - 1,
                        ));
                    }
                },
            }
        } else {
            proof {
                assert(sel_index(sm, name@, 0) == sm.len() as int);
                assert(spec_filter_children(nm, sm, m) =~= spec_filter_children(nm, sm, m - 1));
            }
        }
    }
    proof {
        assert(spec_filter_children(nm, sm, 0) =~= Seq::<(Seq<char>, ConfigModel)>::empty());
    }
    out
}

} // verus!
