use xtask_core::agent_registry::{
    AgentRegistryEntry, CapabilityDeclaration, MaintenanceMetadata, PublicationFlags,
    ReleaseMetadata, ScaffoldMetadata, WrapperCoverageBinding,
};
use xtask_core::support_audit::{agent_inventory_rows, derive_support_surface_audit, SupportSurfaceAudit, SurfaceIdentity, NON_TUI_SUPPORT_DEBT_PATH};
use xtask_core::support_authorization::{
    authorize_gap, targeted_gaps, validate_agent_authorizations, parse_authorized_inventory, parse_scope, validate_authorization_evidence,
    validate_authorizations, DebtInventoryRow, TargetedGap, CONTRACT_MARKER_ROW_ID,
};

const INVENTORY: &str = "docs/specs/non-tui-support-debt.md";
const EVIDENCE: &str = "cli_manifests/opencode/reports/1.18.30/coverage.authorization.json";
const TARGETS: [&str; 2] = ["linux-x64", "darwin-arm64"];

fn entry() -> AgentRegistryEntry {
    AgentRegistryEntry {
        agent_id: "opencode".to_string(),
        display_name: "OpenCode".to_string(),
        crate_path: "crates/opencode".to_string(),
        backend_module: "crates/agent_api/src/backends/opencode".to_string(),
        manifest_root: "cli_manifests/opencode".to_string(),
        package_name: "unified-agent-api-opencode".to_string(),
        canonical_targets: vec!["linux-x64".to_string()],
        wrapper_coverage: WrapperCoverageBinding {
            binding_kind: "generated_from_wrapper_crate".to_string(),
            source_path: "crates/opencode".to_string(),
        },
        capability_declaration: CapabilityDeclaration {
            always_on: vec!["agent_api.run".to_string()],
            target_gated: vec![],
            config_gated: vec![],
            backend_extensions: vec![],
        },
        publication: PublicationFlags {
            support_matrix_enabled: true,
            capability_matrix_enabled: true,
            capability_matrix_target: None,
        },
        release: ReleaseMetadata { docs_release_track: "crates-io".to_string() },
        scaffold: ScaffoldMetadata { onboarding_pack_prefix: "opencode-onboarding".to_string() },
        maintenance: MaintenanceMetadata { governance_checks: vec![] },
    }
}

fn scoped_row(row_id: &str, kind: &str, command_path: &str, surface_id: &str, scope: &str, version: &str, evidence: &str) -> String {
    format!(
        "### `{row_id}`\n\n\
         - `agent_id`: `opencode`\n\
         - `surface_kind`: `{kind}`\n\
         - `command_path`: `{command_path}`\n\
         - `surface_id`: `{surface_id}`\n\
         - `current_reason`: `not yet wrapped`\n\
         - `blocker_class`: `requires_new_infra`\n\
         - `owner`: `maintainers`\n\
         - `milestone`: `later`\n\
         - `follow_on`: `track upstream`\n\
         - `evidence_ref`: `cli_manifests/opencode/reports/1.18.30/coverage.any.json`\n\
         - `scope_target_triples`: `{scope}`\n\
         - `authorized_at_version`: `{version}`\n\
         - `authorization_evidence_ref`: `{evidence}`\n\n"
    )
}

fn inventory(rows: &str) -> String {
    format!("# Support debt\n\n### `{CONTRACT_MARKER_ROW_ID}`\n\n{rows}")
}

fn parse(rows: &str) -> Result<Vec<DebtInventoryRow>, String> {
    parse_authorized_inventory(&inventory(rows), INVENTORY)
}

fn gap_report(version: &str, report_targets: &[&str], available_on: &[&str]) -> String {
    let quote = |items: &[&str]| items.iter().map(|t| format!("\"{t}\"")).collect::<Vec<_>>().join(", ");
    format!(
        r#"{{"inputs": {{"upstream": {{"semantic_version": "{version}", "targets": [{}]}}}},
            "deltas": {{"missing_commands": [{{"path": ["acp"], "upstream_available_on": [{}]}}],
                        "missing_flags": [], "missing_args": []}}}}"#,
        quote(report_targets),
        quote(available_on)
    )
}

fn evidence_for(rows: &[DebtInventoryRow], report: &str) -> Vec<(String, Result<String, String>)> {
    rows.iter().map(|row| (row.authorization_evidence_ref.clone(), Ok(report.to_string()))).collect()
}

fn expected() -> Vec<String> {
    TARGETS.iter().map(|t| t.to_string()).collect()
}

fn gap(kind: &str, command_path: &str, surface_id: &str, targets: &[&str]) -> TargetedGap {
    let mut targets: Vec<String> = targets.iter().map(|t| t.to_string()).collect();
    targets.sort();
    TargetedGap {
        identity: SurfaceIdentity::new(kind.into(), command_path.into(), surface_id.into()),
        targets,
    }
}

#[test]
fn an_inventory_row_is_read_with_its_scope_ascending() {
    let rows = parse(&scoped_row("grant", "commands", "opencode acp", "acp", "linux-x64, darwin-arm64", "1.18.30", EVIDENCE))
        .expect("valid inventory");
    assert_eq!(rows.len(), 1);
    assert_eq!(rows[0].row_id, "grant");
    assert_eq!(rows[0].scope_target_triples, vec!["darwin-arm64".to_string(), "linux-x64".to_string()]);
    assert_eq!(rows[0].authorized_at_version, "1.18.30");
    assert_eq!(rows[0].debt_ref(), format!("{NON_TUI_SUPPORT_DEBT_PATH}#grant"));
}

#[test]
fn the_contract_marker_is_required_and_may_appear_once() {
    let row = scoped_row("grant", "commands", "opencode acp", "acp", "linux-x64", "1.18.30", EVIDENCE);
    let error = parse_authorized_inventory(&format!("# Support debt\n\n{row}"), INVENTORY)
        .expect_err("a missing marker is refused");
    assert!(error.contains("is missing required contract marker"), "{error}");

    let twice = format!("### `{CONTRACT_MARKER_ROW_ID}`\n\n{row}");
    let error = parse(&twice).expect_err("a repeated marker is refused");
    assert!(error.contains("duplicate contract marker"), "{error}");
}

#[test]
fn unknown_and_repeated_fields_are_refused() {
    let row = scoped_row("grant", "commands", "opencode acp", "acp", "linux-x64", "1.18.30", EVIDENCE);
    let unknown = row.replace("- `owner`", "- `keeper`");
    let error = parse(&unknown).expect_err("an unknown field is refused");
    assert!(error.contains("debt row `grant` has unknown field `keeper`"), "{error}");

    let repeated = row.replace("- `milestone`: `later`", "- `owner`: `again`");
    let error = parse(&repeated).expect_err("a repeated field is refused");
    assert!(error.contains("debt row `grant` repeats field `owner`"), "{error}");
}

#[test]
fn missing_empty_or_malformed_authorization_fields_are_refused() {
    let row = scoped_row("grant", "commands", "opencode acp", "acp", "linux-x64", "1.18.30", EVIDENCE);
    let empty = row.replace("`scope_target_triples`: `linux-x64`", "`scope_target_triples`: ` `");
    let error = parse(&empty).expect_err("an empty scope is refused");
    assert!(error.contains("is missing or empty required field `scope_target_triples`"), "{error}");

    let malformed = parse(&scoped_row("grant", "commands", "opencode acp", "acp", "linux-x64, ", "1.18.30", EVIDENCE))
        .expect_err("an empty scope entry is refused");
    assert!(malformed.contains("has malformed scope_target_triples"), "{malformed}");

    let bad_version = parse(&scoped_row("grant", "commands", "opencode acp", "acp", "linux-x64", "1.18", EVIDENCE))
        .expect_err("an inexact version is refused");
    assert!(bad_version.contains("has malformed authorized_at_version `1.18`"), "{bad_version}");

    let bad_class = parse(&row.replace("requires_new_infra", "someday")).expect_err("an unknown blocker class is refused");
    assert!(bad_class.contains("has invalid blocker_class `someday`"), "{bad_class}");
}

#[test]
fn a_scope_may_not_repeat_a_target() {
    let error = parse_scope("grant", "linux-x64, linux-x64").expect_err("duplicate target");
    assert_eq!(
        error,
        "parse support debt inventory: debt row `grant` scope_target_triples contains a duplicate target"
    );
    assert_eq!(
        parse_scope("grant", " linux-x64 ,darwin-arm64").expect("two targets"),
        vec!["darwin-arm64".to_string(), "linux-x64".to_string()]
    );
}

#[test]
fn evidence_outside_the_agents_reports_is_refused() {
    let rows = parse(&scoped_row(
        "grant",
        "commands",
        "opencode acp",
        "acp",
        "linux-x64",
        "1.18.30",
        "cli_manifests/codex/reports/1.18.30/coverage.any.json",
    ))
    .expect("valid inventory");
    let error = validate_authorization_evidence(&entry(), &rows[0], "unused", Ok(String::new()))
        .expect_err("evidence of another agent is refused");
    assert!(error.contains("is not a coverage report for agent `opencode` at version `1.18.30`"), "{error}");

    let rows = parse(&scoped_row("grant", "commands", "opencode acp", "acp", "linux-x64", "1.18.30", "../coverage.any.json"))
        .expect("valid inventory");
    let error = validate_authorization_evidence(&entry(), &rows[0], "unused", Ok(String::new()))
        .expect_err("a path that climbs is refused");
    assert!(error.contains("must be a repository-relative coverage report"), "{error}");
}

#[test]
fn evidence_at_another_version_is_refused() {
    let rows = parse(&scoped_row("grant", "commands", "opencode acp", "acp", "linux-x64", "1.18.30", EVIDENCE))
        .expect("valid inventory");
    let report = gap_report("1.18.29", &TARGETS, &TARGETS);
    let error = validate_authorization_evidence(&entry(), &rows[0], EVIDENCE, Ok(report))
        .expect_err("a report of another version is refused");
    assert!(error.contains("upstream semantic_version Some(\"1.18.29\") does not equal `1.18.30`"), "{error}");
}

#[test]
fn authorization_scope_cannot_exceed_its_evidence_observations() {
    let rows = parse(&scoped_row("too-wide", "commands", "opencode acp", "acp", "linux-x64, darwin-arm64", "1.18.30", EVIDENCE))
        .expect("valid inventory");
    let report = gap_report("1.18.30", &["linux-x64"], &["linux-x64"]);
    let error = validate_authorizations(&entry(), &expected(), &rows, &evidence_for(&rows, &report))
        .expect_err("scope wider than evidence must fail");
    assert!(error.contains("scope exceeds surface observations"), "{error}");
    assert!(error.ends_with(": darwin-arm64"), "{error}");
}

#[test]
fn overlapping_grants_are_rejected() {
    let first = scoped_row("first", "commands", "opencode acp", "acp", "linux-x64", "1.18.30", EVIDENCE);
    let second = scoped_row("second", "commands", "opencode acp", "acp", "linux-x64, darwin-arm64", "1.18.30", EVIDENCE);
    let rows = parse(&format!("{first}{second}")).expect("valid inventory");
    let report = gap_report("1.18.30", &TARGETS, &TARGETS);
    let error = validate_authorizations(&entry(), &expected(), &rows, &evidence_for(&rows, &report))
        .expect_err("overlap must fail validation");
    assert!(error.contains("overlap") && error.contains("target=linux-x64"), "{error}");
    assert!(error.contains("debt rows `first` and `second`"), "{error}");
}

#[test]
fn a_target_outside_the_expected_targets_is_refused() {
    let rows = parse(&scoped_row("grant", "commands", "opencode acp", "acp", "win32-x64", "1.18.30", EVIDENCE))
        .expect("valid inventory");
    let report = gap_report("1.18.30", &TARGETS, &TARGETS);
    let error = validate_authorizations(&entry(), &expected(), &rows, &evidence_for(&rows, &report))
        .expect_err("an unexpected target is refused");
    assert!(error.contains("contains target `win32-x64` absent from cli_manifests/opencode/RULES.json"), "{error}");
}

#[test]
fn disjoint_grants_with_their_evidence_validate() {
    let linux = scoped_row("linux", "commands", "opencode acp", "acp", "linux-x64", "1.18.30", EVIDENCE);
    let darwin = scoped_row("darwin", "commands", "opencode acp", "acp", "darwin-arm64", "1.18.30", EVIDENCE);
    let rows = parse(&format!("{linux}{darwin}")).expect("valid inventory");
    let report = gap_report("1.18.30", &TARGETS, &TARGETS);
    validate_authorizations(&entry(), &expected(), &rows, &evidence_for(&rows, &report)).expect("disjoint grants");
}

fn audit(rows: &str) -> SupportSurfaceAudit {
    let rows = parse(rows).expect("valid inventory");
    derive_support_surface_audit(
        "opencode",
        "1.18.30",
        rows,
        Some((
            "cli_manifests/opencode/reports/1.18.30/coverage.any.json".to_string(),
            vec![gap("commands", "opencode acp", "acp", &TARGETS)],
        )),
        Vec::new(),
    )
}

#[test]
fn a_single_target_grant_does_not_authorize_a_new_target() {
    let audit = audit(&scoped_row("linux-only", "commands", "opencode acp", "acp", "linux-x64", "1.18.30", EVIDENCE));
    assert_eq!(audit.required_uplifts_this_run.len(), 1);
    assert_eq!(audit.deferred_preexisting_gaps.len(), 1);
}

#[test]
fn disjoint_grants_contribute_independently_and_order_does_not_change_the_verdict() {
    let linux = scoped_row("linux", "commands", "opencode acp", "acp", "linux-x64", "1.18.30", EVIDENCE);
    let darwin = scoped_row("darwin", "commands", "opencode acp", "acp", "darwin-arm64", "1.18.30", EVIDENCE);
    for text in [format!("{linux}{darwin}"), format!("{darwin}{linux}")] {
        let audit = audit(&text);
        assert!(audit.required_uplifts_this_run.is_empty());
        assert_eq!(audit.pre_run_debt_count, 1);
        assert_eq!(audit.deferred_preexisting_gaps.len(), 1);
        assert!(audit.preexisting_unsupported_surface[0].debt_ref.ends_with("#darwin"));
    }
}

#[test]
fn authorization_requires_the_exact_identity_version_and_every_gap_target() {
    let exact = audit(&scoped_row("grant", "commands", "opencode acp", "acp", "linux-x64, darwin-arm64", "1.18.30", EVIDENCE));
    assert!(exact.required_uplifts_this_run.is_empty());
    assert_eq!(exact.deferred_preexisting_gaps.len(), 1);

    let wrong_identity = audit(&scoped_row("grant", "flags", "opencode other", "acp", "linux-x64, darwin-arm64", "1.18.30", EVIDENCE));
    assert_eq!(wrong_identity.required_uplifts_this_run.len(), 1);

    let old_version = audit(&scoped_row(
        "grant",
        "commands",
        "opencode acp",
        "acp",
        "linux-x64, darwin-arm64",
        "1.18.29",
        "cli_manifests/opencode/reports/1.18.29/coverage.authorization.json",
    ));
    assert_eq!(old_version.required_uplifts_this_run.len(), 1);
}

#[test]
fn authorize_gap_leaves_the_target_a_grant_does_not_name() {
    let rows = parse(&scoped_row("linux-only", "commands", "opencode acp", "acp", "linux-x64", "1.18.30", EVIDENCE))
        .expect("valid inventory");
    let result = authorize_gap(&gap("commands", "opencode acp", "acp", &TARGETS), "1.18.30", &rows);
    assert_eq!(result.applicable_rows.len(), 1);
    assert_eq!(result.remaining_targets, vec!["darwin-arm64".to_string()]);
}

#[test]
fn authorize_gap_orders_applicable_rows_by_row_id_whatever_the_inventory_order() {
    let linux = scoped_row("linux", "commands", "opencode acp", "acp", "linux-x64", "1.18.30", EVIDENCE);
    let darwin = scoped_row("darwin", "commands", "opencode acp", "acp", "darwin-arm64", "1.18.30", EVIDENCE);
    for text in [format!("{linux}{darwin}"), format!("{darwin}{linux}")] {
        let rows = parse(&text).expect("valid inventory");
        let result = authorize_gap(&gap("commands", "opencode acp", "acp", &TARGETS), "1.18.30", &rows);
        assert!(result.remaining_targets.is_empty());
        let ids: Vec<&str> = result.applicable_rows.iter().map(|row| row.row_id.as_str()).collect();
        assert_eq!(ids, vec!["darwin", "linux"]);
    }
}

#[test]
fn authorize_gap_ignores_other_surfaces_and_versions() {
    let text = format!(
        "{}{}",
        scoped_row("other-surface", "flags", "opencode other", "acp", "linux-x64, darwin-arm64", "1.18.30", EVIDENCE),
        scoped_row(
            "old-version",
            "commands",
            "opencode acp",
            "acp",
            "linux-x64, darwin-arm64",
            "1.18.29",
            "cli_manifests/opencode/reports/1.18.29/coverage.authorization.json",
        )
    );
    let rows = parse(&text).expect("valid inventory");
    let result = authorize_gap(&gap("commands", "opencode acp", "acp", &TARGETS), "1.18.30", &rows);
    assert!(result.applicable_rows.is_empty());
    assert_eq!(result.remaining_targets, vec!["darwin-arm64".to_string(), "linux-x64".to_string()]);
}

fn exact_report(target: &str, missing_commands: &str) -> Result<String, String> {
    Ok(format!(
        r#"{{"inputs": {{"upstream": {{"semantic_version": "1.18.30", "targets": ["{target}"]}}}},
            "platform_filter": {{"mode": "exact_target", "target_triple": "{target}"}},
            "deltas": {{"missing_commands": {missing_commands}, "missing_flags": [], "missing_args": [], "intentionally_unsupported": []}}}}"#
    ))
}

#[test]
fn gap_targets_come_from_exact_reports_not_the_any_row_availability_mask() {
    let targets = vec!["darwin-arm64".to_string(), "linux-x64".to_string()];
    let reports = vec![
        exact_report("darwin-arm64", r#"[{"path": ["acp"], "upstream_available_on": ["linux-x64", "darwin-arm64"]}]"#),
        exact_report("linux-x64", "[]"),
    ];
    let gaps = targeted_gaps("opencode", "1.18.30", "reports/1.18.30", &targets, &reports).expect("load exact-target gaps");
    assert_eq!(gaps.len(), 1);
    assert_eq!(gaps[0].targets, vec!["darwin-arm64".to_string()]);
    assert_eq!(gaps[0].identity, SurfaceIdentity::new("commands".into(), "opencode acp".into(), "acp".into()));
}

#[test]
fn a_report_that_does_not_select_its_own_target_is_refused() {
    let targets = vec!["darwin-arm64".to_string()];
    let reports = vec![exact_report("linux-x64", "[]")];
    let err = targeted_gaps("opencode", "1.18.30", "reports/1.18.30", &targets, &reports).unwrap_err();
    assert_eq!(
        err,
        "parse support debt inventory: reports/1.18.30/coverage.darwin-arm64.json must select platform_filter.mode=exact_target and target_triple=darwin-arm64"
    );
}

#[test]
fn an_empty_expected_target_set_is_refused_before_any_row() {
    let rows = parse(&scoped_row("grant", "commands", "opencode acp", "acp", "linux-x64", "1.18.30", EVIDENCE)).expect("valid inventory");
    let evidence = evidence_for(&rows, "{}");
    assert_eq!(
        validate_agent_authorizations(&entry(), "cli_manifests/opencode/RULES.json", &vec![], &rows, &evidence),
        Err("parse support debt inventory: cli_manifests/opencode/RULES.json union.expected_targets must not be empty".to_string())
    );
}

#[test]
fn only_the_agents_own_rows_are_audited() {
    let mut rows = parse(&format!(
        "{}{}",
        scoped_row("first", "commands", "opencode acp", "acp", "linux-x64", "1.18.30", EVIDENCE),
        scoped_row("second", "commands", "opencode run", "run", "linux-x64", "1.18.30", EVIDENCE)
    ))
    .expect("valid inventory");
    rows[1].agent_id = "codex".to_string();
    let mine = agent_inventory_rows("opencode", rows);
    assert_eq!(mine.len(), 1);
    assert_eq!(mine[0].row_id, "first");
}

/// One authorized inventory row with a two-target scope, owned by `test`.
fn debt_row(row_id: &str, kind: &str, command_path: &str, surface_id: &str) -> String {
    scoped_row(row_id, kind, command_path, surface_id, "linux-x64, darwin-arm64", "1.18.30", EVIDENCE)
        .replace("- `owner`: `maintainers`", "- `owner`: `test`")
}

fn debt_inventory(rows: &str) -> String {
    inventory(rows)
}

#[test]
fn debt_schema_rejects_missing_empty_or_malformed_authorization_fields() {
    let valid = debt_inventory(&debt_row("row", "commands", "opencode acp", "acp"));
    assert!(parse_authorized_inventory(&valid, NON_TUI_SUPPORT_DEBT_PATH).is_ok());
    let cases = [
        valid.replace("- `scope_target_triples`: `linux-x64, darwin-arm64`\n", ""),
        valid.replace(
            "- `scope_target_triples`: `linux-x64, darwin-arm64`",
            "- `scope_target_triples`: ``",
        ),
        valid.replace("linux-x64, darwin-arm64", "linux-x64,"),
        valid.replace("- `authorized_at_version`: `1.18.30`\n", ""),
        valid.replace(
            "authorized_at_version`: `1.18.30",
            "authorized_at_version`: `current",
        ),
    ];
    for text in cases {
        assert!(parse_authorized_inventory(&text, NON_TUI_SUPPORT_DEBT_PATH).is_err());
    }
}

#[test]
fn debt_schema_requires_the_contract_marker_and_rejects_unknown_keys() {
    let valid = debt_inventory(&debt_row("row", "commands", "opencode acp", "acp"));
    assert!(parse_authorized_inventory(&valid, NON_TUI_SUPPORT_DEBT_PATH).is_ok());
    let cases = [
        valid.replace(
            "### `support-debt-authorization-contract-target-version-v1`\n\n",
            "",
        ),
        valid.replace(
            "- `owner`: `test`",
            "- `owner`: `test`\n- `scope_target_tripples`: `linux-x64`",
        ),
    ];
    for text in cases {
        assert!(parse_authorized_inventory(&text, NON_TUI_SUPPORT_DEBT_PATH).is_err());
    }
}
