//! General properties of the evaluation model, stated and proved once and
//! for all inputs. Together with the contract of `evaluate`, which pins the
//! returned decision to `evaluation` on the models of its inputs, they hold
//! of every call of the evaluator.

use vstd::prelude::*;

use crate::evaluator::comma_join;
use crate::evaluator::evaluation;
use crate::evaluator::first_violation;
use crate::evaluator::invalid_value_message;
use crate::evaluator::label_present;
use crate::evaluator::lemma_first_violation_at;
use crate::evaluator::lemma_no_violation;
use crate::evaluator::missing_labels_message;
use crate::evaluator::missing_names;
use crate::evaluator::rule_satisfied;
use crate::evaluator::rule_violated;
use crate::evaluator::supported_kind;
use crate::evaluator::DecisionModel;
use crate::settings::RuleModel;

verus! {

/// Any object whose kind is not the supported one is accepted, whatever the
/// rules and labels.
pub proof fn lemma_non_pod_accepted(
    kind: Seq<char>,
    labels: Map<Seq<char>, Seq<char>>,
    rules: Seq<RuleModel>,
)
    requires
        kind != supported_kind(),
    ensures
        evaluation(kind, labels, rules) == DecisionModel::Accepted,
{
}

/// Against an object with no labels at all, every rule's label is missing:
/// the missing list is the full list of rule names in rule order, and a
/// non-empty rule set rejects the object with the message over all of them.
pub proof fn lemma_no_labels_all_missing(rules: Seq<RuleModel>)
    ensures
        missing_names(rules, Map::empty()) == rules.map_values(|r: RuleModel| r.name),
        rules.len() > 0 ==> evaluation(supported_kind(), Map::empty(), rules) == (
        DecisionModel::Rejected {
            message: missing_labels_message(rules.map_values(|r: RuleModel| r.name)),
        }),
    decreases rules.len(),
{
    if rules.len() == 0 {
        assert(missing_names(rules, Map::empty()) =~= rules.map_values(|r: RuleModel| r.name));
    } else {
        lemma_no_labels_all_missing(rules.drop_last());
        assert(!label_present(rules.last(), Map::empty()));
        assert(missing_names(rules, Map::empty()) =~= rules.map_values(|r: RuleModel| r.name));
        assert(forall|k: int| 0 <= k < rules.len() ==> !rule_violated(#[trigger] rules[k], Map::empty()));
        lemma_no_violation(rules, Map::empty());
    }
}

/// When every rule's label is present, nothing is missing.
proof fn lemma_all_present_no_missing(rules: Seq<RuleModel>, labels: Map<Seq<char>, Seq<char>>)
    requires
        forall|i: int| 0 <= i < rules.len() ==> label_present(#[trigger] rules[i], labels),
    ensures
        missing_names(rules, labels) == Seq::<Seq<char>>::empty(),
    decreases rules.len(),
{
    if rules.len() > 0 {
        assert(forall|i: int|
            0 <= i < rules.len() - 1 ==> label_present(#[trigger] rules.drop_last()[i], labels));
        lemma_all_present_no_missing(rules.drop_last(), labels);
        assert(missing_names(rules, labels) =~= Seq::<Seq<char>>::empty());
    }
}

/// When every required label is present and every value, where the rule
/// constrains values, is allowed, the object is accepted — whatever its kind.
pub proof fn lemma_all_satisfied_accepted(
    kind: Seq<char>,
    labels: Map<Seq<char>, Seq<char>>,
    rules: Seq<RuleModel>,
)
    requires
        forall|i: int| 0 <= i < rules.len() ==> rule_satisfied(#[trigger] rules[i], labels),
    ensures
        evaluation(kind, labels, rules) == DecisionModel::Accepted,
{
    if kind == supported_kind() {
        lemma_no_violation(rules, labels);
        lemma_all_present_no_missing(rules, labels);
    }
}

/// A disallowed value takes precedence over, and truncates, missing-label
/// reporting: when an earlier rule's label is missing and a later rule is
/// the first whose label carries a disallowed value, the decision reports
/// that value alone and the missing label goes unmentioned.
pub proof fn lemma_invalid_value_precedence(
    labels: Map<Seq<char>, Seq<char>>,
    rules: Seq<RuleModel>,
    a: int,
    b: int,
)
    requires
        0 <= a < b < rules.len(),
        !label_present(rules[a], labels),
        rule_violated(rules[b], labels),
        forall|k: int| 0 <= k < b ==> !rule_violated(#[trigger] rules[k], labels),
    ensures
        evaluation(supported_kind(), labels, rules) == (DecisionModel::Rejected {
            message: invalid_value_message(rules[b].name, labels[rules[b].name]),
        }),
{
    lemma_first_violation_at(rules, labels, b);
}

/// When the first-violation search finds nothing, no rule is violated.
proof fn lemma_no_violation_converse(rules: Seq<RuleModel>, labels: Map<Seq<char>, Seq<char>>)
    requires
        first_violation(rules, labels) is None,
    ensures
        forall|k: int| 0 <= k < rules.len() ==> !rule_violated(#[trigger] rules[k], labels),
    decreases rules.len(),
{
    if rules.len() > 0 {
        lemma_no_violation_converse(rules.drop_first(), labels);
        assert forall|k: int| 0 <= k < rules.len() implies !rule_violated(
            #[trigger] rules[k],
            labels,
        ) by {
            if k > 0 {
                assert(rules.drop_first()[k - 1] == rules[k]);
            }
        }
    }
}

/// When nothing is missing, every rule's label is present.
proof fn lemma_no_missing_all_present(rules: Seq<RuleModel>, labels: Map<Seq<char>, Seq<char>>)
    requires
        missing_names(rules, labels).len() == 0,
    ensures
        forall|k: int| 0 <= k < rules.len() ==> label_present(#[trigger] rules[k], labels),
    decreases rules.len(),
{
    if rules.len() > 0 {
        assert(missing_names(rules.drop_last(), labels).len() == 0);
        lemma_no_missing_all_present(rules.drop_last(), labels);
        assert forall|k: int| 0 <= k < rules.len() implies label_present(
            #[trigger] rules[k],
            labels,
        ) by {
            if k < rules.len() - 1 {
                assert(rules.drop_last()[k] == rules[k]);
            }
        }
    }
}

/// The missing list, characterized: it is the names of the rules whose label
/// is absent, kept in rule order — duplicates included.
pub proof fn lemma_missing_names_characterized(
    rules: Seq<RuleModel>,
    labels: Map<Seq<char>, Seq<char>>,
)
    ensures
        missing_names(rules, labels) == rules.filter_map(
            (|r: RuleModel|
                if !label_present(r, labels) {
                    Some(r.name)
                } else {
                    None
                }),
        ),
    decreases rules.len(),
{
    if rules.len() > 0 {
        lemma_missing_names_characterized(rules.drop_last(), labels);
        assert(missing_names(rules, labels) =~= rules.filter_map(
            (|r: RuleModel|
                if !label_present(r, labels) {
                    Some(r.name)
                } else {
                    None
                }),
        ));
    }
}

/// Acceptance, characterized: an object is accepted exactly when its kind is
/// out of the policy's scope or every rule is satisfied — its label present
/// and its value, where constrained, allowed.
pub proof fn lemma_accepted_iff(
    kind: Seq<char>,
    labels: Map<Seq<char>, Seq<char>>,
    rules: Seq<RuleModel>,
)
    ensures
        evaluation(kind, labels, rules) is Accepted <==> (kind != supported_kind() || (forall|i: int|
            0 <= i < rules.len() ==> rule_satisfied(#[trigger] rules[i], labels))),
{
    if kind == supported_kind() {
        if evaluation(kind, labels, rules) is Accepted {
            lemma_no_violation_converse(rules, labels);
            lemma_no_missing_all_present(rules, labels);
        } else {
            if forall|i: int| 0 <= i < rules.len() ==> rule_satisfied(#[trigger] rules[i], labels) {
                lemma_all_satisfied_accepted(kind, labels, rules);
            }
        }
    }
}

/// The decision is a function of the inputs alone: evaluations of identical
/// inputs agree. Since `evaluate` returns exactly `evaluation` of its
/// inputs' models, two calls with identical inputs yield identical
/// decisions.
pub proof fn lemma_evaluation_deterministic(
    kind1: Seq<char>,
    labels1: Map<Seq<char>, Seq<char>>,
    rules1: Seq<RuleModel>,
    kind2: Seq<char>,
    labels2: Map<Seq<char>, Seq<char>>,
    rules2: Seq<RuleModel>,
)
    requires
        kind1 == kind2,
        labels1 == labels2,
        rules1 == rules2,
    ensures
        evaluation(kind1, labels1, rules1) == evaluation(kind2, labels2, rules2),
{
}

/// Exactly one missing name yields the singular message; two or more yield
/// the plural message over the comma-joined names, in order.
pub proof fn lemma_message_forms(names: Seq<Seq<char>>)
    ensures
        names.len() == 1 ==> missing_labels_message(names) == "pod label '"@ + names[0]
            + "' is required"@,
        names.len() >= 2 ==> missing_labels_message(names) == "pod labels '"@ + comma_join(names)
            + "' are required"@,
{
}

} // verus!
