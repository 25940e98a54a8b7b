use xtask_core::support_audit::{
    derive_support_surface_audit, parse_debt_inventory, report_gaps, DebtInventoryRow,
    SurfaceIdentity, NON_TUI_SUPPORT_DEBT_PATH,
};
use xtask_core::support_authorization::{DebtInventoryRow as GrantRow, TargetedGap};

// The root command row of the opencode 1.18.29 coverage report (`deltas.missing_commands[0]`).
const OPENCODE_1_18_29_ROOT_COMMAND_ROW: &str =
    r#"{"path": [], "upstream_available_on": ["linux-x64", "darwin-arm64", "win32-x64"]}"#;

fn identity(kind: &str, command_path: &str, surface_id: &str) -> SurfaceIdentity {
    SurfaceIdentity::new(kind.into(), command_path.into(), surface_id.into())
}

fn root_row() -> String {
    OPENCODE_1_18_29_ROOT_COMMAND_ROW.to_string()
}

fn deltas_with(
    missing_commands: &str,
    missing_flags: &str,
    missing_args: &str,
    intentionally_unsupported: Option<&str>,
) -> String {
    let mut text = format!(
        r#"{{"missing_commands": {missing_commands}, "missing_flags": {missing_flags}, "missing_args": {missing_args}"#
    );
    if let Some(unsupported) = intentionally_unsupported {
        text.push_str(&format!(r#", "intentionally_unsupported": {unsupported}"#));
    }
    text.push('}');
    text
}

fn deltas(missing_commands: &str, missing_flags: &str, missing_args: &str) -> String {
    deltas_with(missing_commands, missing_flags, missing_args, Some("[]"))
}

fn surfaces(agent_id: &str, deltas: &str) -> Result<Vec<SurfaceIdentity>, String> {
    report_gaps(agent_id, "coverage.any.json", &format!(r#"{{"deltas": {deltas}}}"#))
}

#[test]
fn a_root_command_row_is_identified_as_the_agent_command() {
    for agent_id in ["opencode", "codex"] {
        let found = surfaces(agent_id, &deltas(&format!("[{}]", root_row()), "[]", "[]"))
            .expect("a root command row is valid evidence");

        assert_eq!(found, vec![identity("commands", agent_id, agent_id)]);
    }
}

#[test]
fn root_flags_and_root_args_keep_their_existing_identities() {
    let found = surfaces(
        "opencode",
        &deltas(
            &format!("[{}]", root_row()),
            r#"[{"path": [], "key": "--help"}, {"path": ["run"], "key": "--help"}]"#,
            r#"[{"path": [], "name": "project"}]"#,
        ),
    )
    .expect("valid rows");

    assert_eq!(
        found,
        vec![
            identity("commands", "opencode", "opencode"),
            identity("flags", "opencode run", "--help"),
            identity("global_flags", "opencode", "--help"),
            identity("positional_args", "opencode", "project"),
        ]
    );
}

#[test]
fn the_root_command_stays_distinct_from_commands_that_share_its_name() {
    let found = surfaces(
        "opencode",
        &deltas(
            &format!(r#"[{}, {{"path": ["opencode"]}}, {{"path": ["tools", "opencode"]}}]"#, root_row()),
            "[]",
            "[]",
        ),
    )
    .expect("valid rows");

    assert_eq!(
        found,
        vec![
            identity("commands", "opencode", "opencode"),
            identity("commands", "opencode opencode", "opencode"),
            identity("subcommands", "opencode tools opencode", "opencode"),
        ]
    );
}

#[test]
fn a_root_command_listed_twice_is_one_surface() {
    let root = format!("[{}]", root_row());
    let report = deltas_with(&root, "[]", "[]", Some(&root));

    let found = surfaces("opencode", &report).expect("valid rows");

    assert_eq!(found, vec![identity("commands", "opencode", "opencode")]);
}

#[test]
fn malformed_rows_are_rejected_as_bad_report_evidence() {
    let cases = [
        deltas(r#"[{"upstream_available_on": []}]"#, "[]", "[]"),
        deltas(r#"[{"path": null}]"#, "[]", "[]"),
        deltas(r#"[{"path": "run"}]"#, "[]", "[]"),
        deltas(r#"[{"path": ["run", 7]}]"#, "[]", "[]"),
        deltas(r#"["not an object"]"#, "[]", "[]"),
        // A flag row whose key is not a string must not fall back to a root command.
        deltas("[]", r#"[{"path": [], "key": 17}]"#, "[]"),
        deltas("[]", r#"[{"path": [], "key": null}]"#, "[]"),
        deltas("[]", "[]", r#"[{"path": [], "name": false}]"#),
        deltas("[]", r#"[{"path": [], "key": "--x", "name": "x"}]"#, "[]"),
        // A row whose shape does not match the list it came from.
        deltas("[]", r#"[{"path": []}]"#, "[]"),
        deltas("[]", "[]", r#"[{"path": [], "key": "--x"}]"#),
        deltas(r#"[{"path": [], "name": "project"}]"#, "[]", "[]"),
    ];

    for report in cases {
        let error = surfaces("opencode", &report).expect_err(&format!("reject {report}"));
        assert!(error.starts_with("support-audit report row"), "unclassified error `{error}` for {report}");
    }
}

#[test]
fn only_the_intentionally_unsupported_list_may_be_omitted() {
    let report = deltas_with(&format!("[{}]", root_row()), "[]", "[]", None);
    assert_eq!(
        surfaces("opencode", &report).expect("the report writer omits an empty list"),
        vec![identity("commands", "opencode", "opencode")]
    );

    let cases = [
        ("missing_commands", r#"{"missing_flags": [], "missing_args": [], "intentionally_unsupported": []}"#),
        ("missing_flags", r#"{"missing_commands": [], "missing_args": [], "intentionally_unsupported": []}"#),
        ("missing_args", r#"{"missing_commands": [], "missing_flags": [], "intentionally_unsupported": []}"#),
        (
            "missing_commands",
            r#"{"missing_commands": {}, "missing_flags": [], "missing_args": [], "intentionally_unsupported": []}"#,
        ),
        ("intentionally_unsupported", &deltas_with("[]", "[]", "[]", Some("null"))),
        ("intentionally_unsupported", &deltas_with("[]", "[]", "[]", Some("{}"))),
    ];
    for (key, report) in cases {
        let error = surfaces("opencode", report).expect_err(&format!("reject {report}"));
        assert!(error.contains(&format!("`deltas.{key}`")), "unexpected error `{error}` for {report}");
    }
}

#[test]
fn intentionally_unsupported_accepts_every_row_shape() {
    let unsupported = format!(
        r#"[{}, {{"path": ["run"], "key": "--port"}}, {{"path": [], "name": "project"}}]"#,
        root_row()
    );
    let report = deltas_with("[]", "[]", "[]", Some(&unsupported));

    let found = surfaces("opencode", &report).expect("valid rows");

    assert_eq!(
        found,
        vec![
            identity("commands", "opencode", "opencode"),
            identity("flags", "opencode run", "--port"),
            identity("positional_args", "opencode", "project"),
        ]
    );
}

const CLAUDE_CODE_INSTALL_DEBT: &str = "\
# Non-TUI support debt

### `cc-install-command`

- `agent_id`: `claude_code`
- `surface_kind`: `commands`
- `command_path`: `claude_code install`
- `surface_id`: `install`
- `current_reason`: `windows-only installer`
- `blocker_class`: `platform_evidence_missing`
- `owner`: `maintainers`
- `milestone`: `later`
- `follow_on`: `none`
- `evidence_ref`: `cli_manifests/claude_code/reports/2.1.236/coverage.any.json`

### `cc-install-force-flag`

- `agent_id`: `claude_code`
- `surface_kind`: `flags`
- `command_path`: `claude_code install`
- `surface_id`: `--force`
- `current_reason`: `windows-only installer`
- `blocker_class`: `platform_evidence_missing`
- `owner`: `maintainers`
- `milestone`: `later`
- `follow_on`: `none`
- `evidence_ref`: `cli_manifests/claude_code/reports/2.1.236/coverage.any.json`
";

fn inventory(text: &str) -> Vec<DebtInventoryRow> {
    parse_debt_inventory(text, NON_TUI_SUPPORT_DEBT_PATH).expect("debt inventory")
}

/// A scoped grant as the inventory records it, built from the legacy row of the same id.
fn grant(legacy: &DebtInventoryRow, scope: &[&str], version: &str) -> GrantRow {
    let mut scope: Vec<String> = scope.iter().map(|t| t.to_string()).collect();
    scope.sort();
    GrantRow {
        row_id: legacy.row_id.clone(),
        agent_id: legacy.agent_id.clone(),
        surface_kind: legacy.surface_kind.clone(),
        command_path: legacy.command_path.clone(),
        surface_id: legacy.surface_id.clone(),
        current_reason: legacy.current_reason.clone(),
        blocker_class: legacy.blocker_class.clone(),
        owner: legacy.owner.clone(),
        milestone: legacy.milestone.clone(),
        follow_on: legacy.follow_on.clone(),
        evidence_ref: legacy.evidence_ref.clone(),
        scope_target_triples: scope,
        authorized_at_version: version.to_string(),
        authorization_evidence_ref: legacy.evidence_ref.clone(),
    }
}

fn targeted(gaps: Vec<SurfaceIdentity>, targets: &[&str]) -> Vec<TargetedGap> {
    let mut targets: Vec<String> = targets.iter().map(|t| t.to_string()).collect();
    targets.sort();
    gaps.into_iter().map(|identity| TargetedGap { identity, targets: targets.clone() }).collect()
}

#[test]
fn the_legacy_inventory_lists_both_install_rows() {
    let rows = inventory(CLAUDE_CODE_INSTALL_DEBT);
    let ids: Vec<&str> = rows.iter().map(|r| r.row_id.as_str()).collect();
    assert_eq!(ids, vec!["cc-install-command", "cc-install-force-flag"]);
    assert_eq!(rows[1].identity(), identity("flags", "claude_code install", "--force"));
}

#[test]
fn a_missing_root_command_remains_a_required_uplift() {
    let report = deltas(&format!("[{}]", root_row()), "[]", "[]");
    let gaps = surfaces("opencode", &report).expect("valid rows");
    let debt: Vec<GrantRow> =
        inventory(CLAUDE_CODE_INSTALL_DEBT).iter().map(|r| grant(r, &["win32-x64"], "2.1.236")).collect();
    let audit = derive_support_surface_audit(
        "opencode",
        "1.18.29",
        debt,
        Some((
            "cli_manifests/opencode/reports/1.18.29/coverage.any.json".to_string(),
            targeted(gaps, &["linux-x64", "darwin-arm64", "win32-x64"]),
        )),
        Vec::new(),
    );

    let root = identity("commands", "opencode", "opencode");
    let required = audit.required_uplifts_this_run.iter().map(|u| u.identity()).collect::<Vec<_>>();
    assert_eq!(required, vec![root.clone()]);
    assert_eq!(audit.missing_wrapper_support, vec![root.clone()]);
    assert!(audit.preexisting_unsupported_surface.iter().all(|surface| surface.identity() != root));
}

#[test]
fn claude_code_install_debt_matches_its_report_surfaces() {
    let unsupported = r#"[
        {"path": ["install"], "upstream_available_on": ["win32-x64"]},
        {"path": ["install"], "key": "--force", "upstream_available_on": ["win32-x64"]}
    ]"#;
    let report = deltas_with("[]", "[]", "[]", Some(unsupported));
    let gaps = surfaces("claude_code", &report).expect("valid rows");
    let debt: Vec<GrantRow> =
        inventory(CLAUDE_CODE_INSTALL_DEBT).iter().map(|r| grant(r, &["win32-x64"], "2.1.236")).collect();
    let audit = derive_support_surface_audit(
        "claude_code",
        "2.1.236",
        debt,
        Some((
            "cli_manifests/claude_code/reports/2.1.236/coverage.any.json".to_string(),
            targeted(gaps, &["win32-x64"]),
        )),
        Vec::new(),
    );

    let install = vec![
        identity("commands", "claude_code install", "install"),
        identity("flags", "claude_code install", "--force"),
    ];
    let preexisting =
        audit.preexisting_unsupported_surface.iter().map(|s| s.identity()).collect::<Vec<_>>();
    assert_eq!(preexisting, install);
    assert!(audit.required_uplifts_this_run.is_empty());
    assert_eq!(audit.pre_run_debt_count, 2);
}

#[test]
fn without_a_report_each_debt_row_defers_its_own_surface() {
    let debt: Vec<GrantRow> =
        inventory(CLAUDE_CODE_INSTALL_DEBT).iter().map(|r| grant(r, &["win32-x64"], "2.1.236")).collect();
    let audit = derive_support_surface_audit("claude_code", "2.1.237", debt, None, Vec::new());
    assert_eq!(audit.deferred_preexisting_gaps.len(), 2);
    assert!(audit.required_uplifts_this_run.is_empty());
    assert_eq!(audit.preexisting_unsupported_surface[0].debt_ref, format!("{NON_TUI_SUPPORT_DEBT_PATH}#cc-install-command"));
    assert_eq!(audit.deferred_preexisting_gaps[0].defer_reason, "platform_evidence_missing");
}

#[test]
fn a_report_without_a_deltas_object_is_refused() {
    assert_eq!(
        report_gaps("opencode", "r.json", r#"{"deltas": []}"#),
        Err("r.json is missing `deltas` object".to_string())
    );
    assert_eq!(
        report_gaps("opencode", "r.json", "[]"),
        Err("r.json is missing `deltas` object".to_string())
    );
    let error = report_gaps("opencode", "r.json", "{not json").unwrap_err();
    assert!(error.starts_with("parse r.json: "), "{error}");
}

#[test]
fn a_missing_list_names_the_report() {
    assert_eq!(
        report_gaps("opencode", "r.json", r#"{"deltas": {"missing_flags": [], "missing_args": []}}"#),
        Err("r.json is missing `deltas.missing_commands` array".to_string())
    );
}
