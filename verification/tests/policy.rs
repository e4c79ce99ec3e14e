use pod_label_policy::evaluate;
use pod_label_policy::EvaluationDecision;
use pod_label_policy::LabelSet;
use pod_label_policy::RequiredLabel;
use pod_label_policy::Settings;

fn generate_settings() -> Settings {
    let mut labels: Vec<RequiredLabel> = Vec::new();
    labels.push(RequiredLabel {
        name: "owner".to_string(),
        allowed_values: Some(["razor-crest".to_string()].to_vec()),
    });

    labels.push(RequiredLabel {
        name: "cost-center".to_string(),
        allowed_values: Some(["cc-42".to_string()].to_vec()),
    });

    Settings { required_labels: labels }
}

#[test]
fn accept_pod_with_valid_name() -> Result<(), ()> {
    let settings = generate_settings();
    let mut labels = LabelSet::new();
    labels.insert("owner".to_string(), "razor-crest".to_string());
    labels.insert("cost-center".to_string(), "cc-42".to_string());

    let decision = evaluate(&"Pod".to_string(), Some(&labels), &settings);
    assert!(matches!(decision, EvaluationDecision::Accepted));

    Ok(())
}

#[test]
fn reject_pod_with_missing_label_owner() -> Result<(), ()> {
    let settings = generate_settings();
    let mut labels = LabelSet::new();
    labels.insert("cost-center".to_string(), "cc-42".to_string());

    let decision = evaluate(&"Pod".to_string(), Some(&labels), &settings);
    match decision {
        EvaluationDecision::Rejected { message } => {
            assert_eq!(message, String::from("pod label 'owner' is required"));
        }
        EvaluationDecision::Accepted => panic!("expected a rejection"),
    }

    Ok(())
}

#[test]
fn reject_pod_with_missing_label_cost_center() -> Result<(), ()> {
    let settings = generate_settings();
    let mut labels = LabelSet::new();
    labels.insert("owner".to_string(), "razor-crest".to_string());

    let decision = evaluate(&"Pod".to_string(), Some(&labels), &settings);
    match decision {
        EvaluationDecision::Rejected { message } => {
            assert_eq!(message, String::from("pod label 'cost-center' is required"));
        }
        EvaluationDecision::Accepted => panic!("expected a rejection"),
    }

    Ok(())
}

#[test]
fn reject_pod_with_missing_labels() -> Result<(), ()> {
    let settings = generate_settings();

    let decision = evaluate(&"Pod".to_string(), None, &settings);
    match decision {
        EvaluationDecision::Rejected { message } => {
            assert_eq!(
                message,
                String::from("pod labels 'owner, cost-center' are required")
            );
        }
        EvaluationDecision::Accepted => panic!("expected a rejection"),
    }

    Ok(())
}

#[test]
fn reject_pod_with_invalid_label_owner() -> Result<(), ()> {
    let settings = generate_settings();
    let mut labels = LabelSet::new();
    labels.insert("owner".to_string(), "foobar".to_string());
    labels.insert("cost-center".to_string(), "cc-42".to_string());

    let decision = evaluate(&"Pod".to_string(), Some(&labels), &settings);
    match decision {
        EvaluationDecision::Rejected { message } => {
            assert_eq!(
                message,
                String::from("invalid value for label 'owner: foobar'")
            );
        }
        EvaluationDecision::Accepted => panic!("expected a rejection"),
    }

    Ok(())
}

#[test]
fn accept_request_with_non_pod_resource() -> Result<(), ()> {
    let settings = generate_settings();
    let mut labels = LabelSet::new();
    labels.insert("unrelated".to_string(), "value".to_string());

    let decision = evaluate(&"Ingress".to_string(), Some(&labels), &settings);
    assert!(matches!(decision, EvaluationDecision::Accepted));

    Ok(())
}

#[test]
fn invalid_value_wins_over_earlier_missing_label() {
    // The first rule's label is missing, the second carries a disallowed
    // value: the value violation is reported alone.
    let settings = generate_settings();
    let mut labels = LabelSet::new();
    labels.insert("cost-center".to_string(), "bogus".to_string());

    let decision = evaluate(&"Pod".to_string(), Some(&labels), &settings);
    match decision {
        EvaluationDecision::Rejected { message } => {
            assert_eq!(
                message,
                String::from("invalid value for label 'cost-center: bogus'")
            );
        }
        EvaluationDecision::Accepted => panic!("expected a rejection"),
    }
}

#[test]
fn evaluate_twice_yields_identical_decisions() {
    let settings = generate_settings();
    let mut labels = LabelSet::new();
    labels.insert("owner".to_string(), "foobar".to_string());

    let first = evaluate(&"Pod".to_string(), Some(&labels), &settings);
    let second = evaluate(&"Pod".to_string(), Some(&labels), &settings);
    match (first, second) {
        (
            EvaluationDecision::Rejected { message: m1 },
            EvaluationDecision::Rejected { message: m2 },
        ) => assert_eq!(m1, m2),
        (EvaluationDecision::Accepted, EvaluationDecision::Accepted) => {}
        _ => panic!("the two decisions differ"),
    }
}

#[test]
fn no_rules_accepts_any_pod() {
    let settings = Settings { required_labels: Vec::new() };

    let decision = evaluate(&"Pod".to_string(), None, &settings);
    assert!(matches!(decision, EvaluationDecision::Accepted));
}

#[test]
fn rule_without_allowed_values_checks_presence_only() {
    let rules = vec![RequiredLabel { name: "owner".to_string(), allowed_values: None }];
    let settings = Settings { required_labels: rules };
    let mut labels = LabelSet::new();
    labels.insert("owner".to_string(), "anything-at-all".to_string());

    let decision = evaluate(&"Pod".to_string(), Some(&labels), &settings);
    assert!(matches!(decision, EvaluationDecision::Accepted));

    let decision = evaluate(&"Pod".to_string(), None, &settings);
    match decision {
        EvaluationDecision::Rejected { message } => {
            assert_eq!(message, String::from("pod label 'owner' is required"));
        }
        EvaluationDecision::Accepted => panic!("expected a rejection"),
    }
}

#[test]
fn empty_allowed_values_rejects_every_present_value() {
    let rules = vec![RequiredLabel { name: "owner".to_string(), allowed_values: Some(Vec::new()) }];
    let settings = Settings { required_labels: rules };
    let mut labels = LabelSet::new();
    labels.insert("owner".to_string(), "razor-crest".to_string());

    let decision = evaluate(&"Pod".to_string(), Some(&labels), &settings);
    match decision {
        EvaluationDecision::Rejected { message } => {
            assert_eq!(
                message,
                String::from("invalid value for label 'owner: razor-crest'")
            );
        }
        EvaluationDecision::Accepted => panic!("expected a rejection"),
    }
}

#[test]
fn duplicate_rules_report_the_name_twice() {
    let rules = vec![
        RequiredLabel { name: "owner".to_string(), allowed_values: None },
        RequiredLabel { name: "owner".to_string(), allowed_values: None },
    ];
    let settings = Settings { required_labels: rules };

    let decision = evaluate(&"Pod".to_string(), None, &settings);
    match decision {
        EvaluationDecision::Rejected { message } => {
            assert_eq!(message, String::from("pod labels 'owner, owner' are required"));
        }
        EvaluationDecision::Accepted => panic!("expected a rejection"),
    }
}

#[test]
fn missing_labels_are_reported_in_rule_order() {
    let rules = vec![
        RequiredLabel { name: "owner".to_string(), allowed_values: None },
        RequiredLabel { name: "cost-center".to_string(), allowed_values: None },
        RequiredLabel { name: "team".to_string(), allowed_values: None },
    ];
    let settings = Settings { required_labels: rules };

    let decision = evaluate(&"Pod".to_string(), None, &settings);
    match decision {
        EvaluationDecision::Rejected { message } => {
            assert_eq!(
                message,
                String::from("pod labels 'owner, cost-center, team' are required")
            );
        }
        EvaluationDecision::Accepted => panic!("expected a rejection"),
    }
}

#[test]
fn absent_labels_and_empty_label_set_decide_alike() {
    let settings = generate_settings();
    let empty = LabelSet::new();

    let without = evaluate(&"Pod".to_string(), None, &settings);
    let with_empty = evaluate(&"Pod".to_string(), Some(&empty), &settings);
    match (without, with_empty) {
        (
            EvaluationDecision::Rejected { message: m1 },
            EvaluationDecision::Rejected { message: m2 },
        ) => assert_eq!(m1, m2),
        _ => panic!("expected both evaluations to reject"),
    }
}

#[test]
fn inserting_a_key_again_replaces_its_value() {
    let settings = generate_settings();
    let mut labels = LabelSet::new();
    labels.insert("owner".to_string(), "foobar".to_string());
    labels.insert("owner".to_string(), "razor-crest".to_string());
    labels.insert("cost-center".to_string(), "cc-42".to_string());

    let decision = evaluate(&"Pod".to_string(), Some(&labels), &settings);
    assert!(matches!(decision, EvaluationDecision::Accepted));
}
