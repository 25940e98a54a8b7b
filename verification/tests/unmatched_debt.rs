use xtask_core::json_tree::JsonValue;
use xtask_core::support_audit::{DebtInventoryRow, NON_TUI_SUPPORT_DEBT_PATH};
use xtask_core::unmatched_debt::{classify_unmatched_debt_rows, union_evidence, UnionCommand, UnionEvidence};

fn strings(items: &[&str]) -> Vec<String> {
    items.iter().map(|s| s.to_string()).collect()
}

fn row(row_id: &str, kind: &str, command_path: &str, surface_id: &str) -> DebtInventoryRow {
    DebtInventoryRow {
        row_id: row_id.to_string(),
        agent_id: "opencode".to_string(),
        surface_kind: kind.to_string(),
        command_path: command_path.to_string(),
        surface_id: surface_id.to_string(),
        current_reason: "r".to_string(),
        blocker_class: "requires_new_infra".to_string(),
        owner: "o".to_string(),
        milestone: "m".to_string(),
        follow_on: "f".to_string(),
        evidence_ref: "e".to_string(),
    }
}

fn union() -> UnionEvidence {
    union_evidence(
        "opencode",
        &strings(&["linux-x64", "darwin-arm64"]),
        &vec![
            UnionCommand { path: vec![], flag_keys: strings(&["--help"]), arg_names: vec![] },
            UnionCommand { path: strings(&["run"]), flag_keys: strings(&["--model"]), arg_names: strings(&["prompt"]) },
        ],
    )
}

fn excluded_deltas() -> Vec<(String, JsonValue)> {
    vec![(
        "excluded_commands".to_string(),
        JsonValue::Array(vec![JsonValue::Object(vec![(
            "path".to_string(),
            JsonValue::Array(vec![JsonValue::Str("tui".to_string())]),
        )])]),
    )]
}

#[test]
fn the_union_lists_every_command_flag_and_arg() {
    let u = union();
    assert_eq!(u.input_targets, strings(&["darwin-arm64", "linux-x64"]));
    let described: Vec<String> = u.surfaces.iter().map(|s| s.describe()).collect();
    assert_eq!(
        described,
        strings(&[
            "surface_kind=commands command_path=opencode surface_id=opencode",
            "surface_kind=commands command_path=opencode run surface_id=run",
            "surface_kind=flags command_path=opencode run surface_id=--model",
            "surface_kind=global_flags command_path=opencode surface_id=--help",
            "surface_kind=positional_args command_path=opencode run surface_id=prompt",
        ])
    );
}

#[test]
fn unmatched_rows_are_classified_by_the_evidence() {
    let rows = vec![
        row("excluded", "commands", "opencode tui", "tui"),
        row("covered", "flags", "opencode run", "--model"),
        row("gone", "commands", "opencode old", "old"),
    ];
    let refs: Vec<&DebtInventoryRow> = rows.iter().collect();
    let targets = strings(&["darwin-arm64", "linux-x64"]);
    let out = classify_unmatched_debt_rows(
        "opencode",
        "reports/1.0.0/coverage.any.json",
        Some("any"),
        Some(&targets),
        &excluded_deltas(),
        &refs,
        Ok(union()),
    )
    .expect("classified");
    let observations: Vec<&str> = out.iter().map(|u| u.observation.as_str()).collect();
    assert_eq!(observations, vec!["excluded_by_rules", "covered_by_wrapper", "not_observed"]);
    assert_eq!(out[1].debt_ref, format!("{NON_TUI_SUPPORT_DEBT_PATH}#covered"));
    assert_eq!(out[2].surface_id, "old");
}

#[test]
fn no_rows_need_no_evidence() {
    let out = classify_unmatched_debt_rows("opencode", "r.json", None, None, &vec![], &vec![], Err("unused".to_string()))
        .expect("nothing to classify");
    assert!(out.is_empty());
}

#[test]
fn the_report_must_be_the_any_target_report_of_the_union() {
    let rows = vec![row("gone", "commands", "opencode old", "old")];
    let refs: Vec<&DebtInventoryRow> = rows.iter().collect();
    let targets = strings(&["darwin-arm64", "linux-x64"]);
    let err = classify_unmatched_debt_rows("opencode", "r.json", Some("exact_target"), Some(&targets), &vec![], &refs, Ok(union()))
        .expect_err("exact target report");
    assert_eq!(err, "cannot classify unmatched debt rows: report r.json has `platform_filter.mode` `exact_target`, expected `any`");
    let err = classify_unmatched_debt_rows("opencode", "r.json", None, Some(&targets), &vec![], &refs, Ok(union()))
        .expect_err("no mode");
    assert_eq!(err, "cannot classify unmatched debt rows: report r.json is missing `platform_filter.mode`");
    let err = classify_unmatched_debt_rows("opencode", "r.json", Some("any"), None, &vec![], &refs, Ok(union()))
        .expect_err("no targets");
    assert_eq!(err, "cannot classify unmatched debt rows: report r.json has no usable `inputs.upstream.targets`");
    let one = strings(&["linux-x64"]);
    let err = classify_unmatched_debt_rows("opencode", "r.json", Some("any"), Some(&one), &vec![], &refs, Ok(union()))
        .expect_err("other targets");
    assert_eq!(
        err,
        "cannot classify unmatched debt rows: report r.json `inputs.upstream.targets` {\"linux-x64\"} differs from union input targets {\"darwin-arm64\", \"linux-x64\"}"
    );
    let err = classify_unmatched_debt_rows("opencode", "r.json", Some("any"), Some(&targets), &vec![], &refs, Err("union missing".to_string()))
        .expect_err("no union");
    assert_eq!(err, "union missing");
}
