use tornado::config::{Constraint, Filter, MatcherConfig, Rule};
use tornado::matcher::{Matcher, ProcessedNode, ProcessedRuleStatus};
use tornado::model::Event;
use tornado::node_filter::{filter_config, NodeFilter};
use tornado::operator::Operator;
use tornado::value::Value;

fn tenant_rule(name: &str, tenant: &str) -> Rule {
    Rule {
        name: name.to_owned(),
        description: String::new(),
        active: true,
        do_continue: true,
        constraint: Constraint {
            where_operator: Some(Operator::Equal {
                first: Value::Str("${event.payload.tenant_id}".to_owned()),
                second: Value::Str(tenant.to_owned()),
            }),
            with: Vec::new(),
        },
        actions: Vec::new(),
    }
}

fn tenant_config() -> MatcherConfig {
    MatcherConfig::Filter {
        filter: Filter {
            name: "root_node".to_owned(),
            description: String::new(),
            active: true,
            filter: None,
        },
        nodes: vec![
            (
                "alpha".to_owned(),
                MatcherConfig::Rules { rules: vec![tenant_rule("tenant_id_alpha", "alpha")] },
            ),
            (
                "beta".to_owned(),
                MatcherConfig::Rules { rules: vec![tenant_rule("tenant_id_beta", "beta")] },
            ),
        ],
    }
}

#[test]
fn should_execute_event_to_filtered_config_from_root() {
    let config = tenant_config();
    let filtered = filter_config(config, &NodeFilter::AllChildren).unwrap();
    let matcher = Matcher::build(&filtered).unwrap();

    let mut payload = tornado::value::Payload::new();
    payload.insert("tenant_id".to_owned(), Value::Str("alpha".to_owned()));
    let processed = matcher.process(Event::new_with_payload("test", payload), false);
    match &processed.result {
        ProcessedNode::Filter { nodes, .. } => {
            assert_eq!(2, nodes.len());
            match &nodes[0] {
                ProcessedNode::Rules { rules } => {
                    assert_eq!("tenant_id_alpha", rules[0].name);
                    assert_eq!(ProcessedRuleStatus::Matched, rules[0].status);
                }
                _ => panic!("expected a ruleset"),
            }
        }
        _ => panic!("expected a filter"),
    }
}

#[test]
fn should_execute_event_to_filtered_config_for_tenant() {
    let config = tenant_config();
    let selection = NodeFilter::SelectedChildren(vec![(
        "beta".to_owned(),
        NodeFilter::AllChildren,
    )]);
    let filtered = filter_config(config, &selection).unwrap();
    let matcher = Matcher::build(&filtered).unwrap();

    let mut payload = tornado::value::Payload::new();
    payload.insert("tenant_id".to_owned(), Value::Str("beta".to_owned()));
    let processed = matcher.process(Event::new_with_payload("test", payload), false);
    match &processed.result {
        ProcessedNode::Filter { nodes, .. } => {
            assert_eq!(1, nodes.len());
            match &nodes[0] {
                ProcessedNode::Rules { rules } => {
                    assert_eq!("tenant_id_beta", rules[0].name);
                    assert_eq!(ProcessedRuleStatus::Matched, rules[0].status);
                }
                _ => panic!("expected a ruleset"),
            }
        }
        _ => panic!("expected a filter"),
    }
}

#[test]
fn should_return_error_if_the_filter_matches_no_nodes() {
    let config = tenant_config();
    let selection = NodeFilter::SelectedChildren(vec![(
        "NOT_EXISTING_NODE_NAME".to_owned(),
        NodeFilter::AllChildren,
    )]);
    assert!(filter_config(config, &selection).is_none());
}
