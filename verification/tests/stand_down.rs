use sha2::{Digest, Sha256};

use xtask_core::agent_registry::{
    AgentRegistry, AgentRegistryEntry, CapabilityDeclaration, MaintenanceMetadata, PublicationFlags,
    ReleaseMetadata, ScaffoldMetadata, WrapperCoverageBinding,
};
use xtask_core::stand_down::{
    assess, binding_report, expected_shape_text, marker_dir_for, marker_relative_path, outcome_report,
    render_marker_toml, validate_entry, Error, StandDownOutcome, EXIT_STOOD_DOWN, EXIT_VALIDATION,
};

const REQUEST: &str = "artifact_version = \"1\"\nrequest_recorded_at = \"2026-09-19T08:03:11Z\"\n";

fn entry(agent_id: &str) -> AgentRegistryEntry {
    AgentRegistryEntry {
        agent_id: agent_id.to_string(),
        display_name: agent_id.to_string(),
        crate_path: format!("crates/{agent_id}"),
        backend_module: format!("crates/agent_api/src/backends/{agent_id}"),
        manifest_root: format!("cli_manifests/{agent_id}"),
        package_name: format!("unified-agent-api-{agent_id}"),
        canonical_targets: vec!["x86_64-unknown-linux-musl".to_string()],
        wrapper_coverage: WrapperCoverageBinding {
            binding_kind: "generated_from_wrapper_crate".to_string(),
            source_path: format!("crates/{agent_id}"),
        },
        capability_declaration: CapabilityDeclaration {
            always_on: vec!["agent_api.run".to_string()],
            target_gated: vec![],
            config_gated: vec![],
            backend_extensions: vec![],
        },
        publication: PublicationFlags {
            support_matrix_enabled: true,
            capability_matrix_enabled: true,
            capability_matrix_target: None,
        },
        release: ReleaseMetadata { docs_release_track: "crates-io".to_string() },
        scaffold: ScaffoldMetadata { onboarding_pack_prefix: format!("{agent_id}-onboarding") },
        maintenance: MaintenanceMetadata { governance_checks: vec![] },
    }
}

/// The seeded registry: the agents a base-branch checkout knows.
fn registry() -> AgentRegistry {
    AgentRegistry { agents: vec![entry("codex"), entry("claude_code"), entry("opencode")] }
}

/// A marker directory: its (file name, text) entries, in file-name order.
#[derive(Default)]
struct Dir(Vec<(String, String)>);

impl Dir {
    fn write_marker(&mut self, file_name: &str, body: &str) {
        self.0.push((file_name.to_string(), body.to_string()));
        self.0.sort();
    }

    fn freeze(&mut self, version: &str) {
        self.write_marker(&format!("{version}.toml"), &marker_for(version));
    }
}

fn marker_for(version: &str) -> String {
    render_marker_toml("codex", version, "2026-09-19T08:03:11Z")
}

fn check(dir: &Dir, agent: &str, version: &str) -> Result<StandDownOutcome, Error> {
    assess(&registry(), agent, version, &dir.0).map(|a| a.outcome)
}

fn expect_validation(result: Result<StandDownOutcome, Error>, case: &str) -> String {
    match result {
        Ok(outcome) => panic!("{case}: expected a validation error, got {outcome:?}"),
        Err(err) => {
            assert_eq!(err.exit_code(), EXIT_VALIDATION, "{case}: exit code");
            err.message()
        }
    }
}

#[test]
fn no_marker_leaves_automation_in_authority() {
    let dir = Dir::default();

    assert_eq!(check(&dir, "codex", "0.155.0").expect("check"), StandDownOutcome::Authorized);
}

#[test]
fn a_marker_for_this_generation_stands_automation_down() {
    let mut dir = Dir::default();
    dir.freeze("0.155.0");

    let outcome = check(&dir, "codex", "0.155.0").expect("check");
    assert_eq!(outcome, StandDownOutcome::StoodDown);
    assert_eq!(outcome.exit_code(), EXIT_STOOD_DOWN);
}

#[test]
fn a_marker_for_another_generation_does_not_protect_this_one() {
    let mut dir = Dir::default();
    dir.freeze("0.155.0");

    assert_eq!(check(&dir, "codex", "0.156.0").expect("check"), StandDownOutcome::Authorized);
}

#[test]
fn two_generations_can_be_frozen_at_once() {
    let mut dir = Dir::default();
    dir.freeze("0.155.0");
    dir.freeze("0.156.0");

    for version in ["0.155.0", "0.156.0"] {
        assert_eq!(
            check(&dir, "codex", version).expect("check"),
            StandDownOutcome::StoodDown,
            "{version} must stay frozen while the other is"
        );
    }
    assert_eq!(check(&dir, "codex", "0.157.0").expect("check"), StandDownOutcome::Authorized);
}

#[test]
fn supersession_asks_about_the_candidate_and_is_refused() {
    let mut dir = Dir::default();
    dir.freeze("0.155.0");

    assert_eq!(check(&dir, "codex", "0.156.0").expect("run's own version"), StandDownOutcome::Authorized);
    assert_eq!(check(&dir, "codex", "0.155.0").expect("supersession candidate"), StandDownOutcome::StoodDown);
}

#[test]
fn a_merged_but_unpromoted_packet_can_still_be_protected() {
    let bytes = REQUEST.as_bytes().to_vec();
    let mut dir = Dir::default();
    dir.write_marker(
        "0.155.0.toml",
        &format!(
            "schema_version = 1\n\
             agent_id = \"codex\"\n\
             target_version = \"0.155.0\"\n\
             reason = \"closeout in progress\"\n\
             request_recorded_at = \"2026-09-19T08:03:11Z\"\n\
             request_sha256 = \"{}\"\n",
            hex::encode(Sha256::digest(&bytes))
        ),
    );

    assert_eq!(check(&dir, "codex", "0.155.0").expect("check"), StandDownOutcome::StoodDown);
}

#[test]
fn a_stale_generation_binding_still_stands_automation_down() {
    for stale in [
        "request_recorded_at = \"1999-01-01T00:00:00Z\"",
        "request_sha256 = \"0000000000000000000000000000000000000000000000000000000000000000\"",
    ] {
        let mut dir = Dir::default();
        dir.write_marker(
            "0.155.0.toml",
            &format!(
                "schema_version = 1\n\
                 agent_id = \"codex\"\n\
                 target_version = \"0.155.0\"\n\
                 reason = \"closeout in progress\"\n\
                 {stale}\n"
            ),
        );

        assert_eq!(
            check(&dir, "codex", "0.155.0").expect("check"),
            StandDownOutcome::StoodDown,
            "stale binding {stale} must not authorize"
        );
    }
}

#[test]
fn an_unusable_marker_is_never_read_as_permission() {
    let cases: [(&str, &str, &str, &str); 8] = [
        ("misnamed file", "v0.155.0.toml", &marker_for("v0.155.0"), "not named for a packet generation"),
        ("two-part version", "0.155.toml", &marker_for("0.155"), "not named for a packet generation"),
        (
            "prerelease version",
            "0.155.0-rc.1.toml",
            &marker_for("0.155.0-rc.1"),
            "not named for a packet generation",
        ),
        ("malformed toml", "0.155.0.toml", "schema_version = \n", "not a usable"),
        (
            "unknown field",
            "0.155.0.toml",
            "schema_version = 1\n\
             agent_id = \"codex\"\n\
             target_version = \"0.155.0\"\n\
             reason = \"r\"\n\
             request_sha256 = \"abc\"\n\
             until = \"forever\"\n",
            "not a usable",
        ),
        (
            "no generation binding",
            "0.155.0.toml",
            "schema_version = 1\n\
             agent_id = \"codex\"\n\
             target_version = \"0.155.0\"\n\
             reason = \"r\"\n",
            "request_recorded_at",
        ),
        (
            "wrong agent",
            "0.155.0.toml",
            "schema_version = 1\n\
             agent_id = \"opencode\"\n\
             target_version = \"0.155.0\"\n\
             reason = \"r\"\n\
             request_sha256 = \"abc\"\n",
            "sits in codex's maintenance root",
        ),
        ("name and field disagree", "0.155.0.toml", &marker_for("0.156.0"), "not the generation its file name claims"),
    ];

    for (case, file_name, body, expected_fragment) in cases {
        let mut dir = Dir::default();
        dir.write_marker(file_name, body);
        let message = expect_validation(check(&dir, "codex", "0.155.0"), case);
        assert!(message.contains(expected_fragment), "{case}: expected {expected_fragment:?} in {message:?}");
    }
}

#[test]
fn one_unreadable_entry_stands_down_every_generation() {
    let mut dir = Dir::default();
    dir.freeze("0.155.0");
    dir.write_marker("not-a-version.toml", "schema_version = 1\n");

    expect_validation(check(&dir, "codex", "0.156.0"), "unrelated bad entry");
}

#[test]
fn an_unknown_agent_is_a_validation_failure_not_an_authorization() {
    let dir = Dir::default();
    let message = expect_validation(check(&dir, "codexx", "0.155.0"), "typo'd agent");
    assert!(message.contains("unknown agent"), "{message:?}");
}

#[test]
fn the_shape_the_error_message_teaches_is_one_the_parser_accepts() {
    let example: String = expected_shape_text()
        .lines()
        .filter_map(|line| line.strip_prefix("    "))
        .map(|line| format!("{line}\n"))
        .collect();
    assert!(example.contains("schema_version"), "the indented example block moved, so this test is asserting on nothing");

    validate_entry(
        "codex",
        "docs/agents/lifecycle/codex-maintenance/governance/automation-stand-down",
        "0.155.0.toml",
        &example,
    )
    .expect("the error message's own example must be a usable marker");
}
