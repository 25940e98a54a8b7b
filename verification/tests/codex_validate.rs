use xtask_core::codex_validate::{build_parity_exclusions_index, format_command_path, rules_guardrail_error, support_matrix_issue_violations, validate_parity_exclusions_config, PublicationIssue, Violation};
use xtask_core::json_tree::JsonValue;
use xtask_core::manifest_rules::ParityExclusionUnit;

fn unit(kind: &str, path: &[&str], key: Option<&str>, name: Option<&str>, note: &str) -> ParityExclusionUnit {
    ParityExclusionUnit {
        unit: kind.to_string(),
        path: path.iter().map(|s| s.to_string()).collect(),
        key: key.map(str::to_string),
        name: name.map(str::to_string),
        category: None,
        note: note.to_string(),
    }
}

fn findings(schema_version: Option<u32>, units: Option<&Vec<ParityExclusionUnit>>) -> Vec<Violation> {
    let mut violations = Vec::new();
    validate_parity_exclusions_config(schema_version, units, &mut violations);
    violations
}

fn codes(violations: &[Violation]) -> Vec<&'static str> {
    violations.iter().map(|v| v.code).collect()
}

#[test]
fn no_parity_exclusions_means_no_findings() {
    assert!(findings(None, None).is_empty());
}

#[test]
fn only_schema_version_1_is_read() {
    let units = vec![unit("command", &["exec"], None, None, "")];
    let found = findings(Some(2), Some(&units));
    assert_eq!(codes(&found), vec!["PARITY_EXCLUSIONS_SCHEMA_VERSION"]);
    assert_eq!(found[0].message, "parity_exclusions.schema_version must be 1 (got 2)");
    assert_eq!(found[0].path, "RULES.json");
    assert_eq!(found[0].json_pointer.as_deref(), Some("/parity_exclusions/schema_version"));
    assert_eq!(found[0].unit, Some("rules"));
    assert_eq!(found[0].field, Some("parity_exclusions"));
}

#[test]
fn a_missing_unit_list_is_one_finding() {
    let found = findings(Some(1), None);
    assert_eq!(codes(&found), vec!["PARITY_EXCLUSIONS_MISSING_UNITS"]);
    assert_eq!(found[0].message, "parity_exclusions.units must exist");
}

#[test]
fn well_formed_sorted_units_pass() {
    let units = vec![
        unit("arg", &["exec"], None, Some("PROMPT"), "covered elsewhere"),
        unit("command", &[], None, None, "root"),
        unit("command", &["exec"], None, None, "noted"),
        unit("flag", &["exec"], Some("--json"), None, "noted"),
        unit("flag", &["exec", "resume"], Some("--all"), None, "noted"),
    ];
    assert!(findings(Some(1), Some(&units)).is_empty());
}

#[test]
fn each_malformed_unit_is_reported_where_it_stands() {
    let units = vec![
        unit("command", &["exec"], Some("--x"), None, "noted"),
        unit("flag", &["exec"], Some("  "), None, "noted"),
        unit("flag", &["exec"], Some("--y"), Some("y"), " "),
        unit("arg", &[], None, None, "noted"),
        unit("arg", &["run"], Some("--k"), Some("FILE"), "noted"),
        unit("option", &["run"], None, None, "noted"),
    ];
    let found = findings(Some(1), Some(&units));
    let summary = found
        .iter()
        .map(|v| (v.code, v.json_pointer.clone().unwrap(), v.message.clone(), v.command_path.clone(), v.key_or_name.clone()))
        .collect::<Vec<_>>();
    let s = |x: &str| Some(x.to_string());
    assert_eq!(
        summary,
        vec![
            ("PARITY_EXCLUSIONS_INVALID_ENTRY", "/parity_exclusions/units/0".to_string(), "parity_exclusions command entry must not include key or name".to_string(), s("exec"), None),
            ("PARITY_EXCLUSIONS_INVALID_ENTRY", "/parity_exclusions/units/1/key".to_string(), "parity_exclusions flag entry requires key".to_string(), s("exec"), None),
            ("PARITY_EXCLUSIONS_NOTE_MISSING", "/parity_exclusions/units/2/note".to_string(), "parity_exclusions entry requires non-empty note".to_string(), s("exec"), s("--y")),
            ("PARITY_EXCLUSIONS_INVALID_ENTRY", "/parity_exclusions/units/2/name".to_string(), "parity_exclusions flag entry must not include name".to_string(), s("exec"), s("--y")),
            ("PARITY_EXCLUSIONS_INVALID_ENTRY", "/parity_exclusions/units/3/name".to_string(), "parity_exclusions arg entry requires name".to_string(), s("[]"), None),
            ("PARITY_EXCLUSIONS_INVALID_ENTRY", "/parity_exclusions/units/4/key".to_string(), "parity_exclusions arg entry must not include key".to_string(), s("run"), s("FILE")),
            ("PARITY_EXCLUSIONS_INVALID_ENTRY", "/parity_exclusions/units/5/unit".to_string(), "parity_exclusions entry unit must be one of command|flag|arg (got option)".to_string(), s("run"), None),
            ("PARITY_EXCLUSIONS_NOT_SORTED", "/parity_exclusions/units".to_string(), "parity_exclusions.units must be stable-sorted by (unit,path,key_or_name)".to_string(), None, None),
        ]
    );
}

#[test]
fn a_blank_note_names_the_unit_when_there_is_no_key_or_name() {
    let units = vec![unit("command", &["exec"], None, None, "")];
    let found = findings(Some(1), Some(&units));
    assert_eq!(codes(&found), vec!["PARITY_EXCLUSIONS_NOTE_MISSING"]);
    assert_eq!(found[0].key_or_name.as_deref(), Some("command"));
}

#[test]
fn duplicates_and_disorder_are_reported() {
    let units = vec![
        unit("flag", &["exec"], Some("--json"), None, "noted"),
        unit("command", &["exec", "resume"], None, None, "noted"),
        unit("flag", &["exec"], Some("--json"), None, "again"),
    ];
    let found = findings(Some(1), Some(&units));
    assert_eq!(codes(&found), vec!["PARITY_EXCLUSIONS_DUPLICATE", "PARITY_EXCLUSIONS_NOT_SORTED"]);
    assert_eq!(
        found[0].message,
        "duplicate parity_exclusions identity (unit=flag command_path=exec key_or_name=--json)"
    );
    assert_eq!(found[0].json_pointer.as_deref(), Some("/parity_exclusions/units"));
    assert_eq!(found[1].message, "parity_exclusions.units must be stable-sorted by (unit,path,key_or_name)");
}

#[test]
fn paths_sort_element_by_element_with_prefixes_first() {
    let sorted = vec![
        unit("command", &["a"], None, None, "n"),
        unit("command", &["a", "b"], None, None, "n"),
        unit("command", &["ab"], None, None, "n"),
    ];
    assert!(findings(Some(1), Some(&sorted)).is_empty());
    let unsorted = vec![
        unit("command", &["a", "b"], None, None, "n"),
        unit("command", &["a"], None, None, "n"),
    ];
    assert_eq!(codes(&findings(Some(1), Some(&unsorted))), vec!["PARITY_EXCLUSIONS_NOT_SORTED"]);
}

#[test]
fn earlier_findings_are_kept() {
    let mut violations = findings(Some(1), None);
    validate_parity_exclusions_config(Some(3), None, &mut violations);
    assert_eq!(codes(&violations), vec!["PARITY_EXCLUSIONS_MISSING_UNITS", "PARITY_EXCLUSIONS_SCHEMA_VERSION"]);
}

#[test]
fn command_paths_are_slash_joined_and_the_root_is_brackets() {
    assert_eq!(format_command_path(&vec![]), "[]");
    assert_eq!(format_command_path(&vec!["exec".to_string(), "resume".to_string()]), "exec/resume");
}

fn violation(json_pointer: Option<&str>, details: Option<JsonValue>) -> Violation {
    Violation {
        code: "PARITY_EXCLUSION_INVALID",
        path: "RULES.json".to_string(),
        json_pointer: json_pointer.map(str::to_string),
        message: "bad entry".to_string(),
        unit: Some("rules"),
        command_path: None,
        key_or_name: Some("--x".to_string()),
        field: None,
        target_triple: None,
        details,
    }
}

#[test]
fn a_finding_prints_as_one_line() {
    assert_eq!(
        violation(Some("/parity_exclusions/units/0"), None).to_human_line(),
        "PARITY_EXCLUSION_INVALID error RULES.json /parity_exclusions/units/0 bad entry"
    );
    assert_eq!(violation(Some(""), None).to_human_line(), "PARITY_EXCLUSION_INVALID error RULES.json bad entry");
    assert_eq!(violation(None, None).sort_key(), ("RULES.json", "rules", "", "--x", ""));
}

#[test]
fn a_finding_as_json_lists_its_members_in_key_order() {
    let json = violation(Some("/p"), Some(JsonValue::Bool(true))).to_json();
    let keys: Vec<String> = match json {
        JsonValue::Object(members) => members.into_iter().map(|(k, _)| k).collect(),
        _ => panic!("an object"),
    };
    assert_eq!(keys, vec!["code", "details", "json_pointer", "message", "path", "severity"]);
    let bare = violation(None, None).to_json();
    match bare {
        JsonValue::Object(members) => assert_eq!(members.len(), 4),
        _ => panic!("an object"),
    }
}

#[test]
fn the_exclusions_index_keeps_the_last_entry_per_surface() {
    let units = vec![
        unit("command", &["exec"], None, None, "first"),
        unit("flag", &["exec"], Some("--json"), None, "flag"),
        unit("flag", &["exec"], None, None, "keyless"),
        unit("arg", &["exec"], None, Some("prompt"), "arg"),
        unit("command", &["exec"], None, None, "second"),
        unit("other", &["exec"], None, None, "ignored"),
    ];
    let index = build_parity_exclusions_index(&units);
    assert_eq!(index.commands.len(), 1);
    assert_eq!(index.commands[0].1.note, "second");
    assert_eq!(index.flags.len(), 1);
    assert_eq!(index.flags[0].0, (vec!["exec".to_string()], "--json".to_string()));
    assert_eq!(index.args.len(), 1);
    assert_eq!(index.args[0].1.note, "arg");
}

#[test]
fn supported_scope_rules_pass_the_guardrails() {
    assert_eq!(rules_guardrail_error("union.platform_mapping", "all_expected_targets", "union"), None);
}

#[test]
fn the_first_unsupported_scope_rule_is_reported() {
    assert_eq!(
        rules_guardrail_error("explicit", "nothing", "intersection"),
        Some("unsupported wrapper_coverage.scope_semantics.platforms_expand_using=explicit (expected union.platform_mapping)".to_string())
    );
    assert_eq!(
        rules_guardrail_error("union.platform_mapping", "nothing", "intersection"),
        Some("unsupported wrapper_coverage.scope_semantics.defaults.no_scope_means=nothing (expected all_expected_targets)".to_string())
    );
    assert_eq!(
        rules_guardrail_error("union.platform_mapping", "all_expected_targets", "intersection"),
        Some("unsupported wrapper_coverage.scope_semantics.scope_set_resolution.mode=intersection (expected union)".to_string())
    );
}

fn matrix_rows() -> Vec<(String, String, String)> {
    vec![
        ("codex".to_string(), "1.0.0".to_string(), "linux-x64".to_string()),
        ("codex".to_string(), "1.0.0".to_string(), "darwin-arm64".to_string()),
    ]
}

#[test]
fn a_support_matrix_with_another_schema_version_is_one_finding() {
    let found = support_matrix_issue_violations("cli_manifests/support_matrix/current.json", 2, &matrix_rows(), &vec![]);
    assert_eq!(found.len(), 1);
    assert_eq!(found[0].code, "SUPPORT_MATRIX_SCHEMA_INVALID");
    assert_eq!(found[0].message, "support_matrix/current.json.schema_version must be 1 (got 2)");
    assert_eq!(found[0].json_pointer.as_deref(), Some("/schema_version"));
}

#[test]
fn support_matrix_issues_point_at_their_row_or_at_the_rows() {
    let issues = vec![
        PublicationIssue {
            code: "SUPPORT_MATRIX_ROW_STALE",
            message: "stale row".to_string(),
            agent: "codex".to_string(),
            version: "1.0.0".to_string(),
            target: "darwin-arm64".to_string(),
        },
        PublicationIssue {
            code: "SUPPORT_MATRIX_ROW_MISSING",
            message: "missing row".to_string(),
            agent: "gemini_cli".to_string(),
            version: "2.0.0".to_string(),
            target: String::new(),
        },
    ];
    let found = support_matrix_issue_violations("cli_manifests/support_matrix/current.json", 1, &matrix_rows(), &issues);
    assert_eq!(found.len(), 2);
    assert_eq!(found[0].json_pointer.as_deref(), Some("/rows/1"));
    assert_eq!(found[0].key_or_name.as_deref(), Some("codex"));
    assert_eq!(found[0].target_triple.as_deref(), Some("darwin-arm64"));
    assert_eq!(found[1].json_pointer.as_deref(), Some("/rows"));
    assert_eq!(found[1].target_triple, None);
    assert_eq!(found[1].code, "SUPPORT_MATRIX_ROW_MISSING");
}
