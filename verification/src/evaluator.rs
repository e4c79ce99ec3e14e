//! The policy evaluator: walks the configured rules over the candidate
//! object's labels and produces one decision — accept, or reject with a
//! message that either flags the first disallowed value or lists every
//! missing label.

use vstd::prelude::*;
use vstd::string::StringExecFns;

use crate::labels::LabelSet;
use crate::settings::RuleModel;
use crate::settings::Settings;

verus! {

/// Mathematical model of a decision.
pub ghost enum DecisionModel {
    Accepted,
    Rejected { message: Seq<char> },
}

/// The outcome of evaluating one object against the policy: accept, or
/// reject with a human-readable explanation.
pub enum EvaluationDecision {
    Accepted,
    Rejected { message: String },
}

impl View for EvaluationDecision {
    type V = DecisionModel;

    open spec fn view(&self) -> DecisionModel {
        match self {
            EvaluationDecision::Accepted => DecisionModel::Accepted,
            EvaluationDecision::Rejected { message } => DecisionModel::Rejected {
                message: message@,
            },
        }
    }
}

/// The only resource kind this policy judges; every other kind is accepted.
pub open spec fn supported_kind() -> Seq<char> {
    "Pod"@
}

/// The label mapping an optional label set stands for: an absent set is the
/// empty mapping.
pub open spec fn labels_model(object_labels: Option<&LabelSet>) -> Map<Seq<char>, Seq<char>> {
    match object_labels {
        None => Map::empty(),
        Some(l) => l@,
    }
}

/// The rule's label is present in the mapping.
pub open spec fn label_present(r: RuleModel, labels: Map<Seq<char>, Seq<char>>) -> bool {
    labels.dom().contains(r.name)
}

/// The rule's label is present but carries a value outside the rule's
/// allow-list. A rule without an allow-list is never violated this way.
pub open spec fn rule_violated(r: RuleModel, labels: Map<Seq<char>, Seq<char>>) -> bool {
    &&& label_present(r, labels)
    &&& (r.allowed_values matches Some(vs) && !vs.contains(labels[r.name]))
}

/// The rule is satisfied: its label is present and its value, where the rule
/// constrains values, is allowed.
pub open spec fn rule_satisfied(r: RuleModel, labels: Map<Seq<char>, Seq<char>>) -> bool {
    label_present(r, labels) && !rule_violated(r, labels)
}

/// The position of the first rule violated by a present but disallowed
/// value, if any.
pub open spec fn first_violation(rules: Seq<RuleModel>, labels: Map<Seq<char>, Seq<char>>) -> Option<
    int,
>
    decreases rules.len(),
{
    if rules.len() == 0 {
        None
    } else if rule_violated(rules[0], labels) {
        Some(0int)
    } else {
        match first_violation(rules.drop_first(), labels) {
            None => None,
            Some(j) => Some(j + 1),
        }
    }
}

/// The names of the rules whose label is absent, in rule order. A rule name
/// occurs once per rule that demands it, so duplicate rules are reported
/// twice.
pub open spec fn missing_names(rules: Seq<RuleModel>, labels: Map<Seq<char>, Seq<char>>) -> Seq<
    Seq<char>,
>
    decreases rules.len(),
{
    if rules.len() == 0 {
        Seq::empty()
    } else {
        missing_names(rules.drop_last(), labels) + if !label_present(rules.last(), labels) {
            seq![rules.last().name]
        } else {
            Seq::empty()
        }
    }
}

/// The rejection message for a label present with a disallowed value.
pub open spec fn invalid_value_message(name: Seq<char>, value: Seq<char>) -> Seq<char> {
    "invalid value for label '"@ + name + ": "@ + value + "'"@
}

/// The names joined by a comma and a space, in order.
pub open spec fn comma_join(names: Seq<Seq<char>>) -> Seq<char>
    decreases names.len(),
{
    if names.len() == 0 {
        Seq::empty()
    } else if names.len() == 1 {
        names[0]
    } else {
        comma_join(names.drop_last()) + ", "@ + names.last()
    }
}

/// The rejection message for missing labels: singular for exactly one name,
/// plural with the comma-joined list otherwise.
pub open spec fn missing_labels_message(names: Seq<Seq<char>>) -> Seq<char> {
    if names.len() == 1 {
        "pod label '"@ + names[0] + "' is required"@
    } else {
        "pod labels '"@ + comma_join(names) + "' are required"@
    }
}

/// The decision the policy prescribes: any kind but the supported one is
/// accepted outright; the first rule whose label carries a disallowed value
/// rejects alone, dropping any missing labels collected before it; otherwise
/// the missing labels, if any, reject together, in rule order.
pub open spec fn evaluation(
    kind: Seq<char>,
    labels: Map<Seq<char>, Seq<char>>,
    rules: Seq<RuleModel>,
) -> DecisionModel {
    if kind != supported_kind() {
        DecisionModel::Accepted
    } else {
        match first_violation(rules, labels) {
            Some(j) => DecisionModel::Rejected {
                message: invalid_value_message(rules[j].name, labels[rules[j].name]),
            },
            None => {
                let missing = missing_names(rules, labels);
                if missing.len() == 0 {
                    DecisionModel::Accepted
                } else {
                    DecisionModel::Rejected { message: missing_labels_message(missing) }
                }
            },
        }
    }
}

/// `first_violation` points at the first violated rule: a violated rule with
/// none violated before it is the one reported.
pub proof fn lemma_first_violation_at(
    rules: Seq<RuleModel>,
    labels: Map<Seq<char>, Seq<char>>,
    j: int,
)
    requires
        0 <= j < rules.len(),
        rule_violated(rules[j], labels),
        forall|k: int| 0 <= k < j ==> !rule_violated(#[trigger] rules[k], labels),
    ensures
        first_violation(rules, labels) == Some(j),
    decreases rules.len(),
{
    if j > 0 {
        assert(!rule_violated(rules[0], labels));
        assert(forall|k: int|
            0 <= k < j - 1 ==> !rule_violated(#[trigger] rules.drop_first()[k], labels));
        lemma_first_violation_at(rules.drop_first(), labels, j - 1);
    }
}

/// When no rule is violated, `first_violation` finds none.
pub proof fn lemma_no_violation(rules: Seq<RuleModel>, labels: Map<Seq<char>, Seq<char>>)
    requires
        forall|k: int| 0 <= k < rules.len() ==> !rule_violated(#[trigger] rules[k], labels),
    ensures
        first_violation(rules, labels) is None,
    decreases rules.len(),
{
    if rules.len() > 0 {
        assert(forall|k: int|
            0 <= k < rules.len() - 1 ==> !rule_violated(#[trigger] rules.drop_first()[k], labels));
        lemma_no_violation(rules.drop_first(), labels);
    }
}

/// Extending the evaluated prefix by one rule appends its name to the
/// missing list exactly when its label is absent.
pub proof fn lemma_missing_names_extend(
    rules: Seq<RuleModel>,
    labels: Map<Seq<char>, Seq<char>>,
    i: int,
)
    requires
        0 <= i < rules.len(),
    ensures
        missing_names(rules.take(i + 1), labels) == missing_names(rules.take(i), labels) + if !label_present(
            rules[i],
            labels,
        ) {
            seq![rules[i].name]
        } else {
            Seq::<Seq<char>>::empty()
        },
{
    assert(rules.take(i + 1).drop_last() =~= rules.take(i));
    assert(rules.take(i + 1).last() == rules[i]);
}

/// Looks the rule's label up in the optional label set.
fn lookup_label<'a>(object_labels: Option<&'a LabelSet>, name: &String) -> (r: Option<&'a String>)
    requires
        object_labels matches Some(l) ==> l.wf(),
    ensures
        match r {
            Some(v) => labels_model(object_labels).dom().contains(name@) && v@ == labels_model(
                object_labels,
            )[name@],
            None => !labels_model(object_labels).dom().contains(name@),
        },
{
    match object_labels {
        None => None,
        Some(l) => l.get(name),
    }
}

/// Whether the value is one of the allowed ones.
fn contains_value(values: &Vec<String>, value: &String) -> (r: bool)
    ensures
        r == values.deep_view().contains(value@),
{
    let mut i: usize = 0;
    while i < values.len()
        invariant
            i <= values@.len(),
            forall|k: int| 0 <= k < i ==> values.deep_view()[k] != value@,
        decreases values@.len() - i,
    {
        if values[i].eq(value) {
            assert(values.deep_view()[i as int] == value@);
            return true;
        }
        i += 1;
    }
    assert(!values.deep_view().contains(value@));
    false
}

/// Joins the names with a comma and a space, in order.
fn join_comma(names: &Vec<String>) -> (r: String)
    requires
        names@.len() > 0,
    ensures
        r@ == comma_join(names.deep_view()),
{
    let mut r = names[0].clone();
    let mut i: usize = 1;
    while i < names.len()
        invariant
            1 <= i <= names@.len(),
            r@ == comma_join(names.deep_view().take(i as int)),
        decreases names@.len() - i,
    {
        r.append(", ");
        r.append(names[i].as_str());
        proof {
            let dv = names.deep_view();
            assert(dv.take(i + 1).drop_last() =~= dv.take(i as int));
            assert(dv.take(i + 1).last() == dv[i as int]);
            assert(r@ =~= comma_join(dv.take(i + 1)));
        }
        i += 1;
    }
    proof {
        assert(names.deep_view().take(names@.len() as int) =~= names.deep_view());
    }
    r
}

/// Builds the missing-labels rejection message, singular or plural.
fn missing_message(names: &Vec<String>) -> (m: String)
    requires
        names@.len() > 0,
    ensures
        m@ == missing_labels_message(names.deep_view()),
{
    if names.len() == 1 {
        let m = String::from_str("pod label '").concat(names[0].as_str()).concat(
            "' is required",
        );
        proof {
            assert(m@ =~= missing_labels_message(names.deep_view()));
        }
        m
    } else {
        let joined = join_comma(names);
        let m = String::from_str("pod labels '").concat(joined.as_str()).concat(
            "' are required",
        );
        proof {
            assert(m@ =~= missing_labels_message(names.deep_view()));
        }
        m
    }
}

/// Evaluates one candidate object against the configured rules and returns
/// the decision the policy prescribes: exactly the value of `evaluation` on
/// the models of the inputs.
pub fn evaluate(
    object_kind: &String,
    object_labels: Option<&LabelSet>,
    settings: &Settings,
) -> (d: EvaluationDecision)
    requires
        object_labels matches Some(l) ==> l.wf(),
    ensures
        d@ == evaluation(object_kind@, labels_model(object_labels), settings@),
{
    let pod = String::from_str("Pod");
    if !object_kind.eq(&pod) {
        return EvaluationDecision::Accepted;
    }
    let ghost m = labels_model(object_labels);
    let ghost rs = settings@;
    let rules = &settings.required_labels;
    let mut missing: Vec<String> = Vec::new();
    let mut i: usize = 0;
    proof {
        assert(missing.deep_view() =~= missing_names(rs.take(0), m));
    }
    while i < rules.len()
        invariant
            i <= rules@.len(),
            rs == settings@,
            rs == rules.deep_view(),
            rs.len() == rules@.len(),
            m == labels_model(object_labels),
            object_kind@ == supported_kind(),
            object_labels matches Some(l) ==> l.wf(),
            forall|k: int| 0 <= k < i ==> !rule_violated(#[trigger] rs[k], m),
            missing.deep_view() == missing_names(rs.take(i as int), m),
        decreases rules@.len() - i,
    {
        let rule = &rules[i];
        proof {
            assert(rule@ == rs[i as int]);
        }
        match lookup_label(object_labels, &rule.name) {
            Some(value) => {
                if let Some(allowed) = &rule.allowed_values {
                    if !contains_value(allowed, value) {
                        proof {
                            assert(rule_violated(rs[i as int], m));
                            lemma_first_violation_at(rs, m, i as int);
                        }
                        let message = String::from_str("invalid value for label '").concat(
                            rule.name.as_str(),
                        ).concat(": ").concat(value.as_str()).concat("'");
                        proof {
                            assert(message@ =~= invalid_value_message(
                                rs[i as int].name,
                                m[rs[i as int].name],
                            ));
                        }
                        return EvaluationDecision::Rejected { message };
                    }
                }
            },
            None => {
                missing.push(rule.name.clone());
            },
        }
        proof {
            lemma_missing_names_extend(rs, m, i as int);
            assert(missing.deep_view() =~= missing_names(rs.take(i + 1), m));
        }
        i += 1;
    }
    proof {
        lemma_no_violation(rs, m);
        assert(rs.take(rs.len() as int) =~= rs);
    }
    if missing.len() == 0 {
        proof {
            assert(missing_names(rs, m).len() == 0);
        }
        return EvaluationDecision::Accepted;
    }
    let message = missing_message(&missing);
    EvaluationDecision::Rejected { message }
}

} // verus!
