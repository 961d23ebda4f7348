use tornado::config::{Action as ActionTemplate, Constraint, Filter, MatcherConfig, Rule};
use tornado::dispatcher::collect_actions;
use tornado::extractor::{Extractor, ExtractorRegex};
use tornado::validator::MatcherConfigValidator;
use tornado::matcher::{Matcher, ProcessedFilterStatus, ProcessedNode, ProcessedRuleStatus};
use tornado::model::Event;
use tornado::operator::Operator;
use tornado::value::{Payload, Value};

fn type_equals(expected: &str) -> Operator {
    Operator::Equal {
        first: Value::Str("${event.type}".to_owned()),
        second: Value::Str(expected.to_owned()),
    }
}

fn simple_rule(name: &str, operator: Option<Operator>) -> Rule {
    Rule {
        name: name.to_owned(),
        description: String::new(),
        active: true,
        do_continue: true,
        constraint: Constraint { where_operator: operator, with: Vec::new() },
        actions: Vec::new(),
    }
}

fn rules_of(processed: &ProcessedNode) -> Vec<(String, ProcessedRuleStatus)> {
    match processed {
        ProcessedNode::Rules { rules } => {
            let mut out = Vec::new();
            for r in rules {
                out.push((r.name.clone(), r.status));
            }
            out
        }
        ProcessedNode::Filter { .. } => panic!("expected a ruleset"),
    }
}

#[test]
fn basic_match_dispatches_archive_action() {
    let mut rule = simple_rule("r", Some(type_equals("trap")));
    let mut action = ActionTemplate::new("archive");
    action.payload.insert("path".to_owned(), Value::Str("/a.log".to_owned()));
    action.payload.insert("event".to_owned(), Value::Str("${event}".to_owned()));
    rule.actions.push(action);

    let config = MatcherConfig::Rules { rules: vec![rule] };
    let matcher = Matcher::build(&config).unwrap();
    let processed = matcher.process(Event::new("trap"), false);

    match &processed.result {
        ProcessedNode::Rules { rules } => {
            assert_eq!(1, rules.len());
            assert_eq!(ProcessedRuleStatus::Matched, rules[0].status);
            assert_eq!(1, rules[0].actions.len());
            let action = &rules[0].actions[0];
            assert_eq!("archive", action.id);
            assert_eq!(
                Some(&Value::Str("/a.log".to_owned())),
                action.payload.get("path")
            );
            assert_eq!(
                Some(&Event::new("trap").as_value()),
                action.payload.get("event")
            );
        }
        _ => panic!("expected a ruleset"),
    }

    let actions = collect_actions(&processed);
    assert_eq!(1, actions.len());
    assert_eq!("archive", actions[0].id);
}

#[test]
fn extractor_feeds_action_payload() {
    let mut rule = simple_rule("r", None);
    rule.constraint.with.push((
        "num".to_owned(),
        Extractor {
            from: "${event.payload.msg}".to_owned(),
            regex: ExtractorRegex {
                regex: "id=([0-9]+)".to_owned(),
                group_match_idx: 1,
                all_matches: false,
            },
        },
    ));
    let mut action = ActionTemplate::new("out");
    action
        .payload
        .insert("id".to_owned(), Value::Str("${_variables.r.num}".to_owned()));
    rule.actions.push(action);

    let config = MatcherConfig::Rules { rules: vec![rule] };
    let matcher = Matcher::build(&config).unwrap();

    let mut payload = Payload::new();
    payload.insert("msg".to_owned(), Value::Str("x id=42 y".to_owned()));
    let processed = matcher.process(Event::new_with_payload("t", payload), false);

    match &processed.result {
        ProcessedNode::Rules { rules } => {
            assert_eq!(ProcessedRuleStatus::Matched, rules[0].status);
            assert_eq!(
                Some(&Value::Str("42".to_owned())),
                rules[0].actions[0].payload.get("id")
            );
        }
        _ => panic!("expected a ruleset"),
    }
}

#[test]
fn extractor_without_match_aborts_the_rule() {
    let mut rule = simple_rule("r", None);
    rule.constraint.with.push((
        "num".to_owned(),
        Extractor {
            from: "${event.payload.msg}".to_owned(),
            regex: ExtractorRegex {
                regex: "id=([0-9]+)".to_owned(),
                group_match_idx: 1,
                all_matches: false,
            },
        },
    ));
    let mut action = ActionTemplate::new("out");
    action
        .payload
        .insert("id".to_owned(), Value::Str("${_variables.r.num}".to_owned()));
    rule.actions.push(action);

    let config = MatcherConfig::Rules { rules: vec![rule] };
    let matcher = Matcher::build(&config).unwrap();

    let mut payload = Payload::new();
    payload.insert("msg".to_owned(), Value::Str("nothing".to_owned()));
    let processed = matcher.process(Event::new_with_payload("t", payload), false);

    match &processed.result {
        ProcessedNode::Rules { rules } => {
            assert_eq!(ProcessedRuleStatus::PartiallyMatched, rules[0].status);
            assert_eq!(Some("num".to_owned()), rules[0].failed_extractor);
            assert_eq!(0, rules[0].actions.len());
        }
        _ => panic!("expected a ruleset"),
    }
}

#[test]
fn all_matches_extractor_without_match_aborts_the_rule() {
    let mut rule = simple_rule("r", None);
    rule.constraint.with.push((
        "nums".to_owned(),
        Extractor {
            from: "${event.payload.msg}".to_owned(),
            regex: ExtractorRegex {
                regex: "id=([0-9]+)".to_owned(),
                group_match_idx: 1,
                all_matches: true,
            },
        },
    ));
    let config = MatcherConfig::Rules { rules: vec![rule] };
    let matcher = Matcher::build(&config).unwrap();

    let mut payload = Payload::new();
    payload.insert("msg".to_owned(), Value::Str("nothing".to_owned()));
    let processed = matcher.process(Event::new_with_payload("t", payload), false);

    match &processed.result {
        ProcessedNode::Rules { rules } => {
            assert_eq!(ProcessedRuleStatus::PartiallyMatched, rules[0].status);
        }
        _ => panic!("expected a ruleset"),
    }

    let mut payload_two = Payload::new();
    payload_two.insert("msg".to_owned(), Value::Str("id=1 id=2".to_owned()));
    let matched = matcher.process(Event::new_with_payload("t", payload_two), false);
    match &matched.result {
        ProcessedNode::Rules { rules } => {
            assert_eq!(ProcessedRuleStatus::Matched, rules[0].status);
            assert_eq!(
                Some(&(
                    "nums".to_owned(),
                    Value::Arr(vec![
                        Value::Str("1".to_owned()),
                        Value::Str("2".to_owned()),
                    ])
                )),
                rules[0].extracted_vars.get(0)
            );
        }
        _ => panic!("expected a ruleset"),
    }
}

#[test]
fn do_continue_false_halts_the_ruleset_only() {
    let mut first = simple_rule("first", Some(type_equals("t")));
    first.do_continue = false;
    let second = simple_rule("second", Some(type_equals("t")));
    let third = simple_rule("third", Some(type_equals("t")));

    let config = MatcherConfig::Rules { rules: vec![first, second, third] };
    let matcher = Matcher::build(&config).unwrap();
    let processed = matcher.process(Event::new("t"), false);

    assert_eq!(
        vec![
            ("first".to_owned(), ProcessedRuleStatus::Matched),
            ("second".to_owned(), ProcessedRuleStatus::NotProcessed),
            ("third".to_owned(), ProcessedRuleStatus::NotProcessed),
        ],
        rules_of(&processed.result)
    );
}

#[test]
fn do_continue_false_leaves_sibling_rulesets_untouched() {
    let mut stopping = simple_rule("stopping", Some(type_equals("t")));
    stopping.do_continue = false;
    let sibling_rule = simple_rule("sibling_rule", Some(type_equals("t")));

    let config = MatcherConfig::Filter {
        filter: Filter {
            name: "root_node".to_owned(),
            description: String::new(),
            active: true,
            filter: None,
        },
        nodes: vec![
            ("left".to_owned(), MatcherConfig::Rules { rules: vec![stopping] }),
            ("right".to_owned(), MatcherConfig::Rules { rules: vec![sibling_rule] }),
        ],
    };
    let matcher = Matcher::build(&config).unwrap();
    let processed = matcher.process(Event::new("t"), false);

    match &processed.result {
        ProcessedNode::Filter { status, nodes, .. } => {
            assert_eq!(&ProcessedFilterStatus::Matched, status);
            assert_eq!(
                vec![("stopping".to_owned(), ProcessedRuleStatus::Matched)],
                rules_of(&nodes[0])
            );
            assert_eq!(
                vec![("sibling_rule".to_owned(), ProcessedRuleStatus::Matched)],
                rules_of(&nodes[1])
            );
        }
        _ => panic!("expected a filter"),
    }
}

#[test]
fn failed_filter_marks_descendants_not_processed() {
    let always = simple_rule("always", None);
    let config = MatcherConfig::Filter {
        filter: Filter {
            name: "gate".to_owned(),
            description: String::new(),
            active: true,
            filter: Some(type_equals("x")),
        },
        nodes: vec![("inner".to_owned(), MatcherConfig::Rules { rules: vec![always] })],
    };
    let matcher = Matcher::build(&config).unwrap();
    let processed = matcher.process(Event::new("y"), false);

    match &processed.result {
        ProcessedNode::Filter { status, nodes, .. } => {
            assert_eq!(&ProcessedFilterStatus::NotMatched, status);
            assert_eq!(
                vec![("always".to_owned(), ProcessedRuleStatus::NotProcessed)],
                rules_of(&nodes[0])
            );
        }
        _ => panic!("expected a filter"),
    }
}

#[test]
fn compilation_is_deterministic_and_metadata_changes_nothing() {
    let mut rule = simple_rule("r", Some(type_equals("t")));
    let mut action = ActionTemplate::new("out");
    action.payload.insert("k".to_owned(), Value::Str("${event.type}".to_owned()));
    rule.actions.push(action);
    let config = MatcherConfig::Rules { rules: vec![rule] };

    let first_build = Matcher::build(&config).unwrap();
    let second_build = Matcher::build(&config).unwrap();

    let bare = first_build.process(Event::new("t"), false);
    let with_metadata = second_build.process(Event::new("t"), true);

    // The two builds and the two flag values agree on statuses and
    // actions; only the diagnostic notes differ.
    match (&bare.result, &with_metadata.result) {
        (ProcessedNode::Rules { rules: a }, ProcessedNode::Rules { rules: b }) => {
            assert_eq!(a.len(), b.len());
            assert_eq!(a[0].status, b[0].status);
            assert_eq!(a[0].actions, b[0].actions);
            assert_eq!(a[0].extracted_vars, b[0].extracted_vars);
            assert_eq!(None, a[0].trace);
            assert!(b[0].trace.is_some());
        }
        _ => panic!("expected rulesets"),
    }
}

#[test]
fn disabling_a_rule_equals_removing_it() {
    let kept = simple_rule("kept", Some(type_equals("t")));
    let mut disabled = simple_rule("disabled", Some(type_equals("t")));
    disabled.active = false;
    let kept_again = simple_rule("kept", Some(type_equals("t")));

    let with_disabled =
        MatcherConfig::Rules { rules: vec![kept, disabled] };
    let without = MatcherConfig::Rules { rules: vec![kept_again] };

    let processed_with = Matcher::build(&with_disabled).unwrap().process(Event::new("t"), false);
    let processed_without = Matcher::build(&without).unwrap().process(Event::new("t"), false);
    assert_eq!(processed_with.result, processed_without.result);
}

#[test]
fn validation_failure_makes_the_build_fail() {
    let bad = simple_rule("bad name", None);
    let config = MatcherConfig::Rules { rules: vec![bad] };
    assert!(Matcher::build(&config).is_err());

    let good = simple_rule("good_name", None);
    let config_ok = MatcherConfig::Rules { rules: vec![good] };
    assert!(Matcher::build(&config_ok).is_ok());
}

#[test]
fn valid_config_with_bad_regex_passes_validation_but_fails_to_compile() {
    let mut rule = simple_rule("good_name", None);
    rule.constraint.with.push((
        "v".to_owned(),
        Extractor {
            from: "${event.type}".to_owned(),
            regex: ExtractorRegex {
                regex: "(".to_owned(),
                group_match_idx: 0,
                all_matches: false,
            },
        },
    ));
    let config = MatcherConfig::Rules { rules: vec![rule] };
    assert!(MatcherConfigValidator::new().validate(&config).is_ok());
    assert!(Matcher::build(&config).is_err());
}
