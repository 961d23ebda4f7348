use tornado::config::{Action, Constraint, Filter, MatcherConfig, Rule};
use tornado::error::MatcherError;
use tornado::extractor::{Extractor, ExtractorRegex};
use tornado::operator::Operator;
use tornado::validator::MatcherConfigValidator;
use tornado::value::{Payload, Value};

fn new_rule(name: &str, operator: Option<Operator>) -> Rule {
    let constraint = Constraint { where_operator: operator, with: Vec::new() };
    Rule {
        name: name.to_owned(),
        do_continue: true,
        active: true,
        actions: Vec::new(),
        description: String::new(),
        constraint,
    }
}

fn equal_op() -> Operator {
    Operator::Equal {
        first: Value::Str("1".to_owned()),
        second: Value::Str("1".to_owned()),
    }
}

#[test]
fn should_validate_correct_rule() {
    let rule = new_rule("rule_name", Some(equal_op()));
    let result = MatcherConfigValidator::new().validate_rules(&vec![rule]);
    assert!(result.is_ok());
}

#[test]
fn should_validate_correct_rules() {
    let rule_1 = new_rule("rule_name", Some(equal_op()));
    let rule_2 = new_rule("rule_name_2", Some(equal_op()));
    let result = MatcherConfigValidator::new().validate_rules(&vec![rule_1, rule_2]);
    assert!(result.is_ok());
}

#[test]
fn should_fail_validation_if_empty_name() {
    let rule_1 = new_rule("", Some(equal_op()));
    let result = MatcherConfigValidator::new().validate_rules(&vec![rule_1]);
    assert!(result.is_err());
}

#[test]
fn build_should_fail_if_not_unique_name() {
    let rule_1 = new_rule("rule_name", Some(equal_op()));
    let rule_2 = new_rule("rule_name", Some(equal_op()));
    let matcher = MatcherConfigValidator::new().validate_rules(&vec![rule_1, rule_2]);
    assert!(matcher.is_err());
    match matcher.err().unwrap() {
        MatcherError::NotUniqueRuleNameError { name } => assert_eq!("rule_name", name),
        _ => assert!(false),
    }
}

#[test]
fn build_should_fail_if_empty_spaces_in_rule_name() {
    let rule_1 = new_rule("rule name", Some(equal_op()));
    let matcher = MatcherConfigValidator::new().validate_rules(&vec![rule_1]);
    assert!(matcher.is_err());
}

#[test]
fn build_should_fail_if_not_correct_name() {
    let rule_1 = new_rule("rule.name", Some(equal_op()));
    let matcher = MatcherConfigValidator::new().validate_rules(&vec![rule_1]);
    assert!(matcher.is_err());
}

#[test]
fn build_should_fail_if_not_correct_extracted_var_name() {
    let mut rule_1 = new_rule("rule_name", Some(equal_op()));
    rule_1.constraint.with.push((
        "var.with.dot".to_owned(),
        Extractor {
            from: String::from("${event.type}"),
            regex: ExtractorRegex {
                regex: String::from(r"[0-9]+"),
                group_match_idx: 0,
                all_matches: false,
            },
        },
    ));
    let matcher = MatcherConfigValidator::new().validate_rules(&vec![rule_1]);
    assert!(matcher.is_err());
}

#[test]
fn build_should_fail_if_not_correct_action_id() {
    let mut rule_1 = new_rule("rule_name", Some(equal_op()));
    rule_1.actions.push(Action {
        id: "id.with.dot.and.question.mark?".to_owned(),
        payload: Payload::new(),
    });
    let matcher = MatcherConfigValidator::new().validate_rules(&vec![rule_1]);
    assert!(matcher.is_err());
}

#[test]
fn build_should_fail_if_wrong_filter_name() {
    let filter = Filter {
        filter: None,
        name: "wrong.because.of.dots".to_owned(),
        active: true,
        description: String::new(),
    };
    let matcher = MatcherConfigValidator::new().validate_filter(&filter, &vec![]);
    assert!(matcher.is_err());
}

#[test]
fn should_validate_filter_name() {
    let filter = Filter {
        filter: None,
        name: "good_name".to_owned(),
        active: true,
        description: String::new(),
    };
    let matcher = MatcherConfigValidator::new().validate_filter(&filter, &vec![]);
    assert!(matcher.is_ok());
}

#[test]
fn build_should_fail_if_wrong_node_name() {
    let filter = Filter {
        filter: None,
        name: "good_names".to_owned(),
        active: true,
        description: String::new(),
    };
    let rules = MatcherConfig::Rules { rules: vec![] };
    let node_name = "wrong.name!".to_owned();
    let matcher =
        MatcherConfigValidator::new().validate_filter(&filter, &vec![(node_name, rules)]);
    assert!(matcher.is_err());
}

#[test]
fn should_validate_node_name() {
    let filter = Filter {
        filter: None,
        name: "good_names".to_owned(),
        active: true,
        description: String::new(),
    };
    let rules = MatcherConfig::Rules { rules: vec![] };
    let node_name = "great_name".to_owned();
    let matcher =
        MatcherConfigValidator::new().validate_filter(&filter, &vec![(node_name, rules)]);
    assert!(matcher.is_ok());
}

#[test]
fn should_validate_a_config_recursively() {
    let filter1 = Filter {
        filter: None,
        name: "good_name".to_owned(),
        active: true,
        description: String::new(),
    };
    let filter2 = Filter {
        filter: None,
        name: "good_name".to_owned(),
        active: true,
        description: String::new(),
    };
    let rule_1 = new_rule("rule_name", None);
    let config = MatcherConfig::Filter {
        filter: filter1,
        nodes: vec![
            ("node_0".to_owned(), MatcherConfig::Filter { filter: filter2, nodes: vec![] }),
            ("node_1".to_owned(), MatcherConfig::Rules { rules: vec![rule_1] }),
        ],
    };
    let matcher = MatcherConfigValidator::new().validate(&config);
    assert!(matcher.is_ok());
}

#[test]
fn should_validate_a_config_recursively_and_fail_if_wrong_inner_rule_name() {
    let filter1 = Filter {
        filter: None,
        name: "good_name".to_owned(),
        active: true,
        description: String::new(),
    };
    let filter2 = Filter {
        filter: None,
        name: "good_name".to_owned(),
        active: true,
        description: String::new(),
    };
    let rule_1 = new_rule("rule.name!", None);
    let config = MatcherConfig::Filter {
        filter: filter1,
        nodes: vec![
            ("node_0".to_owned(), MatcherConfig::Filter { filter: filter2, nodes: vec![] }),
            ("node_1".to_owned(), MatcherConfig::Rules { rules: vec![rule_1] }),
        ],
    };
    let matcher = MatcherConfigValidator::new().validate(&config);
    assert!(matcher.is_err());
}
