//! An admission-control policy for Kubernetes-like workloads: given a Pod's
//! labels and an ordered list of required-label rules, decide whether to
//! accept the object, and explain a rejection by listing every missing label
//! or flagging the first disallowed value.

pub mod evaluator;
pub mod labels;
pub mod laws;
pub mod settings;

pub use evaluator::evaluate;
pub use evaluator::DecisionModel;
pub use evaluator::EvaluationDecision;
pub use labels::LabelSet;
pub use settings::RequiredLabel;
pub use settings::RuleModel;
pub use settings::Settings;
