//! The rules a coverage report is generated under, and the subset of them this tool supports.
use vstd::prelude::*;

use crate::text::{cat2, cat3, join, join_text, str_eq, to_owned, views};

verus! {

/// `RULES.json`, as far as the report reads it.
#[derive(Debug, Clone)]
pub struct RulesFile {
    pub rules_schema_version: u32,
    pub union: RulesUnion,
    pub globals: RulesGlobals,
    pub report: RulesReport,
    pub sorting: RulesSorting,
    pub parity_exclusions: Option<RulesParityExclusions>,
}

#[derive(Debug, Clone)]
pub struct RulesGlobals {
    pub effective_flags_model: RulesEffectiveFlagsModel,
}

#[derive(Debug, Clone)]
pub struct RulesEffectiveFlagsModel {
    pub enabled: bool,
}

#[derive(Debug, Clone)]
pub struct RulesUnion {
    pub expected_targets: Vec<String>,
    /// Each target's platform name, in key order.
    pub platform_mapping: Vec<(String, String)>,
}

#[derive(Debug, Clone)]
pub struct RulesSorting {
    pub report: RulesReportSorting,
}

#[derive(Debug, Clone)]
pub struct RulesReportSorting {
    pub missing_commands: String,
    pub missing_flags: String,
    pub missing_args: String,
    pub excluded_commands: String,
    pub excluded_flags: String,
    pub excluded_args: String,
    pub passthrough_candidates: String,
    pub unsupported: String,
    pub intentionally_unsupported: String,
    pub wrapper_only_commands: String,
    pub wrapper_only_flags: String,
    pub wrapper_only_args: String,
}

#[derive(Debug, Clone)]
pub struct RulesParityExclusions {
    pub schema_version: u32,
    pub units: Vec<ParityExclusionUnit>,
}

#[derive(Debug, Clone)]
pub struct ParityExclusionUnit {
    pub unit: String,
    pub path: Vec<String>,
    pub key: Option<String>,
    pub name: Option<String>,
    pub category: Option<String>,
    pub note: String,
}

#[derive(Debug, Clone)]
pub struct RulesReport {
    pub file_naming: RulesReportFileNaming,
    pub filter_semantics: RulesFilterSemantics,
}

#[derive(Debug, Clone)]
pub struct RulesReportFileNaming {
    pub any: String,
    pub all: String,
    pub per_target: String,
}

#[derive(Debug, Clone)]
pub struct RulesFilterSemantics {
    pub when_union_incomplete: RulesWhenUnionIncomplete,
}

#[derive(Debug, Clone)]
pub struct RulesWhenUnionIncomplete {
    pub all: String,
}

/// `<label>=<value>` when a setting is not the one value this tool supports.
pub open spec fn setting_problem(label: Seq<char>, value: Seq<char>, supported: Seq<char>) -> Seq<Seq<char>> {
    if value != supported {
        seq![label + "="@ + value]
    } else {
        Seq::empty()
    }
}

/// Every setting of `r` this tool does not support, in the order they are checked.
pub open spec fn unsupported_settings(r: RulesFile) -> Seq<Seq<char>> {
        setting_problem("report.file_naming.any"@, r.report.file_naming.any@, "coverage.any.json"@)
        + setting_problem("report.file_naming.all"@, r.report.file_naming.all@, "coverage.all.json"@)
        + setting_problem("report.file_naming.per_target"@, r.report.file_naming.per_target@, "coverage.<target_triple>.json"@)
        + setting_problem("sorting.report.missing_commands"@, r.sorting.report.missing_commands@, "by_path"@)
        + setting_problem("sorting.report.missing_flags"@, r.sorting.report.missing_flags@, "by_path_then_key"@)
        + setting_problem("sorting.report.missing_args"@, r.sorting.report.missing_args@, "by_path_then_name"@)
        + setting_problem("sorting.report.excluded_commands"@, r.sorting.report.excluded_commands@, "by_path"@)
        + setting_problem("sorting.report.excluded_flags"@, r.sorting.report.excluded_flags@, "by_path_then_key"@)
        + setting_problem("sorting.report.excluded_args"@, r.sorting.report.excluded_args@, "by_path_then_name"@)
        + setting_problem("sorting.report.passthrough_candidates"@, r.sorting.report.passthrough_candidates@, "by_path"@)
        + setting_problem("sorting.report.unsupported"@, r.sorting.report.unsupported@, "by_path"@)
        + setting_problem("sorting.report.intentionally_unsupported"@, r.sorting.report.intentionally_unsupported@, "by_kind_then_path_then_key_or_name"@)
        + setting_problem("sorting.report.wrapper_only_commands"@, r.sorting.report.wrapper_only_commands@, "by_path"@)
        + setting_problem("sorting.report.wrapper_only_flags"@, r.sorting.report.wrapper_only_flags@, "by_path_then_key"@)
        + setting_problem("sorting.report.wrapper_only_args"@, r.sorting.report.wrapper_only_args@, "by_path_then_name"@)
        + setting_problem("report.filter_semantics.when_union_incomplete.all"@, r.report.filter_semantics.when_union_incomplete.all@, "error"@)
        + if r.union.expected_targets.len() == 0 {
            seq!["union.expected_targets must not be empty"@]
        } else {
            Seq::empty()
        }
}

fn push_setting_problem(out: &mut Vec<String>, label: &str, value: &str, supported: &str)
    ensures
        views(final(out)@) == views(old(out)@) + setting_problem(label@, value@, supported@),
{
    if !str_eq(value, supported) {
        out.push(cat3(label, "=", value));
    }
    assert(views(out@) =~= views(old(out)@) + setting_problem(label@, value@, supported@));
}

/// The report supports one file naming, one sort order per list, and `error` when a union is
/// incomplete; anything else is refused, every unsupported setting named.
pub fn assert_supported_rules(rules: &RulesFile) -> (r: Result<(), String>)
    ensures
        unsupported_settings(*rules).len() == 0 ==> r is Ok,
        unsupported_settings(*rules).len() > 0 ==> (r matches Err(m)
            && m@ == "unsupported rules: "@ + join(unsupported_settings(*rules), ", "@)),
{
    let mut unsupported: Vec<String> = Vec::new();
    assert(views(unsupported@) =~= Seq::<Seq<char>>::empty());
    push_setting_problem(&mut unsupported, "report.file_naming.any", rules.report.file_naming.any.as_str(), "coverage.any.json");
    push_setting_problem(&mut unsupported, "report.file_naming.all", rules.report.file_naming.all.as_str(), "coverage.all.json");
    push_setting_problem(&mut unsupported, "report.file_naming.per_target", rules.report.file_naming.per_target.as_str(), "coverage.<target_triple>.json");
    push_setting_problem(&mut unsupported, "sorting.report.missing_commands", rules.sorting.report.missing_commands.as_str(), "by_path");
    push_setting_problem(&mut unsupported, "sorting.report.missing_flags", rules.sorting.report.missing_flags.as_str(), "by_path_then_key");
    push_setting_problem(&mut unsupported, "sorting.report.missing_args", rules.sorting.report.missing_args.as_str(), "by_path_then_name");
    push_setting_problem(&mut unsupported, "sorting.report.excluded_commands", rules.sorting.report.excluded_commands.as_str(), "by_path");
    push_setting_problem(&mut unsupported, "sorting.report.excluded_flags", rules.sorting.report.excluded_flags.as_str(), "by_path_then_key");
    push_setting_problem(&mut unsupported, "sorting.report.excluded_args", rules.sorting.report.excluded_args.as_str(), "by_path_then_name");
    push_setting_problem(&mut unsupported, "sorting.report.passthrough_candidates", rules.sorting.report.passthrough_candidates.as_str(), "by_path");
    push_setting_problem(&mut unsupported, "sorting.report.unsupported", rules.sorting.report.unsupported.as_str(), "by_path");
    push_setting_problem(&mut unsupported, "sorting.report.intentionally_unsupported", rules.sorting.report.intentionally_unsupported.as_str(), "by_kind_then_path_then_key_or_name");
    push_setting_problem(&mut unsupported, "sorting.report.wrapper_only_commands", rules.sorting.report.wrapper_only_commands.as_str(), "by_path");
    push_setting_problem(&mut unsupported, "sorting.report.wrapper_only_flags", rules.sorting.report.wrapper_only_flags.as_str(), "by_path_then_key");
    push_setting_problem(&mut unsupported, "sorting.report.wrapper_only_args", rules.sorting.report.wrapper_only_args.as_str(), "by_path_then_name");
    push_setting_problem(&mut unsupported, "report.filter_semantics.when_union_incomplete.all", rules.report.filter_semantics.when_union_incomplete.all.as_str(), "error");
    if rules.union.expected_targets.len() == 0 {
        let ghost before = views(unsupported@);
        unsupported.push(to_owned("union.expected_targets must not be empty"));
        assert(views(unsupported@) =~= before + seq!["union.expected_targets must not be empty"@]);
    } else {
        assert(views(unsupported@) =~= views(unsupported@) + Seq::<Seq<char>>::empty());
    }
    proof {
        assert(views(unsupported@) =~= unsupported_settings(*rules));
    }
    if unsupported.len() == 0 {
        Ok(())
    } else {
        let joined = join_text(&unsupported, ", ");
        Err(cat2("unsupported rules: ", joined.as_str()))
    }
}

} // verus!
