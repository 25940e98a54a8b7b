use xtask_core::approval_artifact::{ApprovalArtifact, ApprovalDescriptor};
use xtask_core::prepare_publication::{
    discover_runtime_evidence, discover_runtime_evidence_for_approval, inspect_runtime_run, runtime_run_order, validate_required_commands, Error,
    RuntimeHandoff, RuntimeInputContract, RuntimeRunFiles, RuntimeRunStatus, RuntimeValidationReport,
};

const APPROVAL: &str = "docs/agents/lifecycle/gemini-onboarding/governance/approved-agent.toml";
const ROOT: &str = "/work/docs/agents/.uaa-temp/runtime-follow-on/runs";

fn strings(items: &[&str]) -> Vec<String> {
    items.iter().map(|s| s.to_string()).collect()
}

fn required() -> Vec<String> {
    strings(&["cargo run -p xtask -- support-matrix --check", "cargo run -p xtask -- capability-matrix --check"])
}

fn approval() -> ApprovalArtifact {
    ApprovalArtifact {
        relative_path: APPROVAL.to_string(),
        canonical_path: format!("/work/{APPROVAL}"),
        sha256: "ab".repeat(32),
        descriptor: ApprovalDescriptor {
            agent_id: "gemini_cli".to_string(),
            display_name: "Gemini CLI".to_string(),
            crate_path: "crates/gemini_cli".to_string(),
            backend_module: "crates/agent_api/src/backends/gemini_cli".to_string(),
            manifest_root: "cli_manifests/gemini_cli".to_string(),
            package_name: "unified-agent-api-gemini-cli".to_string(),
            canonical_targets: strings(&["linux-x64"]),
            wrapper_coverage_binding_kind: "generated_from_wrapper_crate".to_string(),
            wrapper_coverage_source_path: "crates/gemini_cli".to_string(),
            always_on_capabilities: strings(&["agent_api.run"]),
            target_gated_capabilities: vec![],
            config_gated_capabilities: vec![],
            backend_extensions: vec![],
            support_matrix_enabled: true,
            capability_matrix_enabled: true,
            capability_matrix_target: None,
            docs_release_track: "crates-io".to_string(),
            onboarding_pack_prefix: "gemini-onboarding".to_string(),
        },
    }
}

fn good_files(run_id: &str) -> RuntimeRunFiles {
    RuntimeRunFiles {
        run_status: Some(Ok(RuntimeRunStatus {
            approval_artifact_path: APPROVAL.to_string(),
            agent_id: "gemini_cli".to_string(),
            status: "write_validated".to_string(),
            validation_passed: true,
            handoff_ready: true,
            run_dir: format!("{ROOT}/{run_id}"),
        })),
        input_contract: Ok(RuntimeInputContract {
            approval_artifact_path: APPROVAL.to_string(),
            approval_artifact_sha256: "ab".repeat(32),
            agent_id: "gemini_cli".to_string(),
            manifest_root: "cli_manifests/gemini_cli".to_string(),
            required_handoff_commands: required(),
        }),
        validation_report: Ok(RuntimeValidationReport { status: "pass".to_string() }),
        handoff: Ok(RuntimeHandoff {
            agent_id: "gemini_cli".to_string(),
            manifest_root: "cli_manifests/gemini_cli".to_string(),
            runtime_lane_complete: true,
            publication_refresh_required: true,
            required_commands: required(),
            blockers: strings(&["", "  "]),
        }),
        written_paths: Ok(strings(&["crates/gemini_cli/src/lib.rs"])),
        run_summary: Ok("# Run summary\n".to_string()),
        present: vec![true; 6],
    }
}

fn inspect(run_id: &str, files: &RuntimeRunFiles) -> Result<Option<Vec<String>>, String> {
    inspect_runtime_run(&approval(), run_id, &format!("{ROOT}/{run_id}"), &required(), files)
        .map(|found| found.map(|bundle| bundle.runtime_evidence_paths))
        .map_err(|err| {
            assert_eq!(err.exit_code(), 2);
            err.message()
        })
}

fn stale(run_id: &str, detail: &str) -> String {
    format!(
        "runtime evidence run `{run_id}` {detail}; rerun `cargo run -p xtask -- repair-runtime-evidence --approval {APPROVAL} --check` to inspect or `cargo run -p xtask -- repair-runtime-evidence --approval {APPROVAL} --write` to repair the runtime evidence bundle"
    )
}

#[test]
fn a_complete_run_yields_its_evidence_paths() {
    let paths = inspect("run-2", &good_files("run-2")).unwrap().unwrap();
    let root = "docs/agents/.uaa-temp/runtime-follow-on/runs/run-2";
    assert_eq!(
        paths,
        vec![
            format!("{root}/input-contract.json"),
            format!("{root}/run-status.json"),
            format!("{root}/run-summary.md"),
            format!("{root}/validation-report.json"),
            format!("{root}/written-paths.json"),
            format!("{root}/handoff.json"),
        ]
    );
}

#[test]
fn a_run_without_status_or_for_another_approval_is_skipped() {
    let mut files = good_files("run-1");
    files.run_status = None;
    assert_eq!(inspect("run-1", &files), Ok(None));

    let mut files = good_files("run-1");
    if let Some(Ok(status)) = files.run_status.as_mut() {
        status.agent_id = "codex".to_string();
    }
    assert_eq!(inspect("run-1", &files), Ok(None));
}

#[test]
fn each_broken_piece_of_evidence_is_named() {
    let mut files = good_files("r");
    if let Some(Ok(status)) = files.run_status.as_mut() {
        status.validation_passed = false;
    }
    assert_eq!(inspect("r", &files), Err(stale("r", "is not a validated runtime handoff")));

    let mut files = good_files("r");
    if let Some(Ok(status)) = files.run_status.as_mut() {
        status.run_dir = "/elsewhere".to_string();
    }
    assert_eq!(inspect("r", &files), Err(stale("r", &format!("recorded run_dir `/elsewhere` but expected `{ROOT}/r`"))));

    let mut files = good_files("r");
    if let Ok(contract) = files.input_contract.as_mut() {
        contract.approval_artifact_sha256 = "00".to_string();
    }
    assert_eq!(inspect("r", &files), Err(stale("r", "no longer matches the approval artifact continuity")));

    let mut files = good_files("r");
    if let Ok(contract) = files.input_contract.as_mut() {
        contract.required_handoff_commands.reverse();
    }
    assert_eq!(
        inspect("r", &files),
        Err(stale("r", "runtime input-contract required_handoff_commands must match the frozen publication command set exactly"))
    );

    let mut files = good_files("r");
    files.validation_report = Ok(RuntimeValidationReport { status: "fail".to_string() });
    assert_eq!(inspect("r", &files), Err(stale("r", "validation-report.json is not green")));

    let mut files = good_files("r");
    if let Ok(handoff) = files.handoff.as_mut() {
        handoff.blockers.push("waiting on review".to_string());
    }
    assert_eq!(inspect("r", &files), Err(stale("r", "handoff.json still carries blocker text")));

    let mut files = good_files("r");
    if let Ok(handoff) = files.handoff.as_mut() {
        handoff.publication_refresh_required = false;
    }
    assert_eq!(inspect("r", &files), Err(stale("r", "handoff.json is not publication-ready")));

    let mut files = good_files("r");
    files.written_paths = Ok(vec![]);
    assert_eq!(inspect("r", &files), Err(stale("r", "did not record any written paths")));

    let mut files = good_files("r");
    files.run_summary = Ok(" \n".to_string());
    assert_eq!(inspect("r", &files), Err(stale("r", "run-summary.md is empty")));

    let mut files = good_files("r");
    files.present[3] = false;
    files.present[5] = false;
    assert_eq!(inspect("r", &files), Err(stale("r", "is missing required file `validation-report.json`")));
}

#[test]
fn an_unreadable_file_is_reported_as_read() {
    let mut files = good_files("r");
    files.handoff = Err("parse /work/r/handoff.json: expected value".to_string());
    assert_eq!(inspect("r", &files), Err("parse /work/r/handoff.json: expected value".to_string()));
}

fn run(run_id: &str, files: RuntimeRunFiles) -> (String, String, RuntimeRunFiles) {
    (run_id.to_string(), format!("{ROOT}/{run_id}"), files)
}

#[test]
fn discovery_takes_the_first_usable_run_and_otherwise_the_first_refusal() {
    let mut stale_files = good_files("run-3");
    stale_files.validation_report = Ok(RuntimeValidationReport { status: "fail".to_string() });
    let mut foreign = good_files("run-4");
    foreign.run_status = None;
    let runs = vec![run("run-4", foreign), run("run-3", stale_files), run("run-2", good_files("run-2"))];
    let found = discover_runtime_evidence(&approval(), &required(), &runs).unwrap();
    assert_eq!(found.run_id, "run-2");

    let mut stale_files = good_files("run-3");
    stale_files.validation_report = Ok(RuntimeValidationReport { status: "fail".to_string() });
    let mut other_stale = good_files("run-1");
    other_stale.written_paths = Ok(vec![]);
    let runs = vec![run("run-3", stale_files), run("run-1", other_stale)];
    let err = discover_runtime_evidence(&approval(), &required(), &runs).unwrap_err();
    assert_eq!(err.message(), stale("run-3", "validation-report.json is not green"));

    let err = discover_runtime_evidence(&approval(), &required(), &vec![]).unwrap_err();
    assert_eq!(
        err.message(),
        "no successful runtime-follow-on evidence run was found for `gemini_cli` under `docs/agents/.uaa-temp/runtime-follow-on/runs`"
    );
}

#[test]
fn runs_are_tried_newest_first() {
    let order = runtime_run_order(strings(&["2026-01-02", "2026-03-01", "2025-12-31"]));
    assert_eq!(order, strings(&["2026-03-01", "2026-01-02", "2025-12-31"]));
}

#[test]
fn the_newest_usable_run_is_chosen_whatever_the_listing_order() {
    let mut stale_files = good_files("2026-04-01");
    stale_files.validation_report = Ok(RuntimeValidationReport { status: "fail".to_string() });
    let runs = vec![
        run("2026-01-02", good_files("2026-01-02")),
        run("2026-04-01", stale_files),
        run("2026-03-01", good_files("2026-03-01")),
        run("2025-12-31", good_files("2025-12-31")),
    ];
    let found = discover_runtime_evidence_for_approval(&approval(), &required(), runs).unwrap();
    assert_eq!(found.run_id, "2026-03-01");
    assert!(found.runtime_evidence_paths[0].contains("/2026-03-01/"));
}

#[test]
fn with_no_usable_run_the_newest_refusal_is_reported() {
    let mut older = good_files("2026-01-02");
    older.written_paths = Ok(vec![]);
    let mut newer = good_files("2026-03-01");
    newer.validation_report = Ok(RuntimeValidationReport { status: "fail".to_string() });
    let runs = vec![run("2026-01-02", older), run("2026-03-01", newer)];
    let err = discover_runtime_evidence_for_approval(&approval(), &required(), runs).unwrap_err();
    assert_eq!(err.message(), stale("2026-03-01", "validation-report.json is not green"));
}

#[test]
fn command_sets_must_match_exactly() {
    assert!(validate_required_commands("handoff", &required(), &required()).is_ok());
    let err = validate_required_commands("handoff", &strings(&[]), &required()).unwrap_err();
    assert_eq!(err.message(), "handoff must match the frozen publication command set exactly");
    assert_eq!(Error::Internal("x".to_string()).exit_code(), 1);
}
