//! The policy settings: an ordered list of required-label rules, with a
//! structural validation entry point that the host calls before first use.

use vstd::prelude::*;
use vstd::string::StringExecFns;

verus! {

/// Mathematical model of one rule: the label key it demands and, when the
/// rule constrains the value, the acceptable values in configured order.
pub ghost struct RuleModel {
    pub name: Seq<char>,
    pub allowed_values: Option<Seq<Seq<char>>>,
}

/// One configured rule: a label that every Pod must carry and, optionally,
/// the list of values that are acceptable for it. An absent `allowed_values`
/// means any value satisfies the rule (presence-only check).
pub struct RequiredLabel {
    pub name: String,
    pub allowed_values: Option<Vec<String>>,
}

impl View for RequiredLabel {
    type V = RuleModel;

    open spec fn view(&self) -> RuleModel {
        RuleModel {
            name: self.name@,
            allowed_values: match self.allowed_values {
                Some(vs) => Some(vs.deep_view()),
                None => None,
            },
        }
    }
}

impl DeepView for RequiredLabel {
    type V = RuleModel;

    open spec fn deep_view(&self) -> RuleModel {
        self.view()
    }
}

/// The policy settings: the ordered list of required-label rules. Duplicate
/// names are permitted and each occurrence is evaluated independently.
pub struct Settings {
    pub required_labels: Vec<RequiredLabel>,
}

impl View for Settings {
    type V = Seq<RuleModel>;

    open spec fn view(&self) -> Seq<RuleModel> {
        self.required_labels.deep_view()
    }
}

impl Default for Settings {
    /// The default configuration demands nothing.
    fn default() -> (s: Settings)
        ensures
            s@ =~= Seq::<RuleModel>::empty(),
    {
        Settings { required_labels: Vec::new() }
    }
}

/// A rule is structurally sound when it names a label and its allow-list,
/// where present, is non-empty.
pub open spec fn rule_wf(r: RuleModel) -> bool {
    &&& r.name.len() > 0
    &&& (r.allowed_values matches Some(vs) ==> vs.len() > 0)
}

/// A configuration is sound when every rule is.
pub open spec fn settings_wf(rules: Seq<RuleModel>) -> bool {
    forall|i: int| 0 <= i < rules.len() ==> rule_wf(#[trigger] rules[i])
}

/// The configuration error reported for a rule without a name.
pub open spec fn empty_name_error() -> Seq<char> {
    "a required label rule must have a non-empty name"@
}

/// The configuration error reported for a present but empty allow-list.
pub open spec fn empty_allowed_values_error() -> Seq<char> {
    "a required label rule must not have an empty list of allowed values"@
}

impl Settings {
    /// Structural validation of the configuration: every rule must name a
    /// label, and an allow-list, where present, must not be empty. The error
    /// reported is the one for the first rule that breaks a check.
    pub fn validate(&self) -> (r: Result<(), String>)
        ensures
            r is Ok <==> settings_wf(self@),
            r matches Err(m) ==> exists|j: int|
                {
                    &&& 0 <= j < self@.len()
                    &&& !rule_wf(#[trigger] self@[j])
                    &&& (forall|k: int| 0 <= k < j ==> rule_wf(#[trigger] self@[k]))
                    &&& m@ == if self@[j].name.len() == 0 {
                        empty_name_error()
                    } else {
                        empty_allowed_values_error()
                    }
                },
    {
        let rules = &self.required_labels;
        let mut i: usize = 0;
        while i < rules.len()
            invariant
                i <= rules.len(),
                self@ == rules.deep_view(),
                forall|k: int| 0 <= k < i ==> rule_wf(#[trigger] self@[k]),
            decreases rules.len() - i,
        {
            let rule = &rules[i];
            proof {
                assert(self@[i as int] == rules@[i as int].deep_view());
            }
            if rule.name.as_str().is_empty() {
                proof {
                    assert(!rule_wf(self@[i as int]));
                }
                return Err(String::from_str(
                    "a required label rule must have a non-empty name",
                ));
            }
            if let Some(values) = &rule.allowed_values {
                if values.len() == 0 {
                    proof {
                        assert(self@[i as int].allowed_values matches Some(vs) && vs.len() == 0);
                        assert(!rule_wf(self@[i as int]));
                    }
                    return Err(String::from_str(
                        "a required label rule must not have an empty list of allowed values",
                    ));
                }
            }
            i += 1;
        }
        Ok(())
    }
}

} // verus!
