//! Policy analysis logic for SELinux policy tools.
use vstd::prelude::*;

pub mod text;
pub mod keyed;
pub mod diff;
pub mod compat;
pub mod paths;
pub mod policy;
pub mod scan;
pub mod permmap;
pub mod rules;
pub mod rule_text;
pub mod pairs;
pub mod graph;
pub mod infoflow;
pub mod json;
pub mod runtime;
pub mod numbers;
pub mod arguments;
pub mod flow_args;
pub mod dta_args;
pub mod checker;
pub mod checks;
pub mod verdicts;
pub mod report;
pub mod diff_report;
pub mod diff_args;
pub mod policy_diff;
pub mod statistics;
pub mod dta_report;
pub mod flow_report;
pub mod trace;
pub mod seinfo;
pub mod labeling;
pub mod components;
pub mod class_rules;
pub mod table_counts;

verus! {
} // verus!
