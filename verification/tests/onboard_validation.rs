use xtask_core::agent_registry::{
    AgentRegistry, AgentRegistryEntry, CapabilityDeclaration, ConfigGatedCapability, MaintenanceMetadata,
    PublicationFlags, ReleaseMetadata, ScaffoldMetadata, TargetGatedCapability, WrapperCoverageBinding,
};
use xtask_core::onboard_agent::Error;
use xtask_core::onboard_preview::{ConfigGate, DraftEntry, TargetGate};
use xtask_core::onboard_validation::{
    append_registry_entry, desired_registry_text, registry_entry_matches_draft,
    validate_manifest_root_artifact_conflicts, validate_manifest_root_targets, validate_registry_conflicts,
};

fn strings(items: &[&str]) -> Vec<String> {
    items.iter().map(|s| s.to_string()).collect()
}

fn draft(agent_id: &str) -> DraftEntry {
    DraftEntry {
        agent_id: agent_id.to_string(),
        display_name: "Gemini CLI".to_string(),
        crate_path: format!("crates/{agent_id}"),
        backend_module: format!("crates/agent_api/src/backends/{agent_id}"),
        manifest_root: format!("cli_manifests/{agent_id}"),
        package_name: format!("unified-agent-api-{agent_id}"),
        canonical_targets: strings(&["linux-x64", "darwin-arm64"]),
        wrapper_coverage_binding_kind: "generated_from_wrapper_crate".to_string(),
        wrapper_coverage_source_path: format!("crates/{agent_id}"),
        always_on_capabilities: strings(&["agent_api.run"]),
        target_gated_capabilities: vec![TargetGate {
            capability_id: "agent_api.tools.mcp.list.v1".to_string(),
            targets: strings(&["linux-x64"]),
        }],
        config_gated_capabilities: vec![ConfigGate {
            capability_id: "agent_api.exec.external_sandbox.v1".to_string(),
            config_key: "allow_external_sandbox_exec".to_string(),
            targets: None,
        }],
        backend_extensions: vec![],
        support_matrix_enabled: true,
        capability_matrix_enabled: true,
        capability_matrix_target: None,
        docs_release_track: "crates-io".to_string(),
        onboarding_pack_prefix: format!("{agent_id}-onboarding"),
        approval: None,
        approval_maintenance: None,
    }
}

fn entry_for(d: &DraftEntry) -> AgentRegistryEntry {
    AgentRegistryEntry {
        agent_id: d.agent_id.clone(),
        display_name: d.display_name.clone(),
        crate_path: d.crate_path.clone(),
        backend_module: d.backend_module.clone(),
        manifest_root: d.manifest_root.clone(),
        package_name: d.package_name.clone(),
        canonical_targets: d.canonical_targets.clone(),
        wrapper_coverage: WrapperCoverageBinding {
            binding_kind: d.wrapper_coverage_binding_kind.clone(),
            source_path: d.wrapper_coverage_source_path.clone(),
        },
        capability_declaration: CapabilityDeclaration {
            always_on: d.always_on_capabilities.clone(),
            target_gated: d
                .target_gated_capabilities
                .iter()
                .map(|g| TargetGatedCapability { capability_id: g.capability_id.clone(), targets: g.targets.clone() })
                .collect(),
            config_gated: d
                .config_gated_capabilities
                .iter()
                .map(|g| ConfigGatedCapability {
                    capability_id: g.capability_id.clone(),
                    config_key: g.config_key.clone(),
                    targets: g.targets.clone(),
                })
                .collect(),
            backend_extensions: d.backend_extensions.clone(),
        },
        publication: PublicationFlags {
            support_matrix_enabled: d.support_matrix_enabled,
            capability_matrix_enabled: d.capability_matrix_enabled,
            capability_matrix_target: d.capability_matrix_target.clone(),
        },
        release: ReleaseMetadata { docs_release_track: d.docs_release_track.clone() },
        scaffold: ScaffoldMetadata { onboarding_pack_prefix: d.onboarding_pack_prefix.clone() },
        maintenance: MaintenanceMetadata { governance_checks: vec![] },
    }
}

fn refusal(r: Result<(), Error>) -> String {
    let err = r.expect_err("expected a refusal");
    assert_eq!(err.exit_code(), 2);
    err.message()
}

#[test]
fn an_entry_built_from_the_draft_matches_it() {
    let d = draft("gemini_cli");
    let mut e = entry_for(&d);
    assert!(registry_entry_matches_draft(&e, &d));
    e.capability_declaration.target_gated[0].targets = strings(&["darwin-arm64"]);
    assert!(!registry_entry_matches_draft(&e, &d));
    let mut e = entry_for(&d);
    e.publication.capability_matrix_target = Some("linux-x64".to_string());
    assert!(!registry_entry_matches_draft(&e, &d));
}

#[test]
fn re_enrolling_the_same_draft_is_not_a_conflict() {
    let d = draft("gemini_cli");
    let registry = AgentRegistry { agents: vec![entry_for(&draft("codex")), entry_for(&d)] };
    assert!(validate_registry_conflicts(&registry, &d).is_ok());
}

#[test]
fn an_agent_id_enrolled_differently_is_a_conflict() {
    let d = draft("gemini_cli");
    let mut e = entry_for(&d);
    e.display_name = "Other".to_string();
    let registry = AgentRegistry { agents: vec![e] };
    assert_eq!(
        refusal(validate_registry_conflicts(&registry, &d)),
        "agent_id `gemini_cli` already exists in crates/xtask/data/agent_registry.toml"
    );
}

#[test]
fn claimed_paths_of_another_agent_are_conflicts() {
    let d = draft("gemini_cli");
    let mut other = entry_for(&draft("codex"));
    other.manifest_root = d.manifest_root.clone();
    let registry = AgentRegistry { agents: vec![other] };
    assert_eq!(
        refusal(validate_registry_conflicts(&registry, &d)),
        "manifest_root `cli_manifests/gemini_cli` is already owned by agent `codex`"
    );
    let mut other = entry_for(&draft("codex"));
    other.crate_path = d.crate_path.clone();
    other.package_name = d.package_name.clone();
    let registry = AgentRegistry { agents: vec![other] };
    assert_eq!(
        refusal(validate_registry_conflicts(&registry, &d)),
        "crate_path `crates/gemini_cli` is already owned by agent `codex`"
    );
}

#[test]
fn the_registry_text_gains_the_entry_after_a_blank_line() {
    assert_eq!(append_registry_entry("[[agents]]\nid = 1\n\n \n", "[[agents]]\nid = 2\n"), "[[agents]]\nid = 1\n\n[[agents]]\nid = 2\n");
    let d = draft("gemini_cli");
    let enrolled = AgentRegistry { agents: vec![entry_for(&d)] };
    assert_eq!(desired_registry_text(&enrolled, &d, "text\n", "entry\n"), "text\n");
    let empty = AgentRegistry { agents: vec![] };
    assert_eq!(desired_registry_text(&empty, &d, "text\n", "entry\n"), "text\n\nentry\n");
}

#[test]
fn existing_expected_targets_must_be_the_canonical_targets() {
    let d = draft("gemini_cli");
    let path = "cli_manifests/gemini_cli/current.json";
    assert!(validate_manifest_root_targets(&d, path, r#"{"expected_targets": ["linux-x64", "darwin-arm64"]}"#).is_ok());
    assert!(validate_manifest_root_targets(&d, path, r#"{"other": 1}"#).is_ok());
    assert_eq!(
        refusal(validate_manifest_root_targets(&d, path, r#"{"expected_targets": ["darwin-arm64", "linux-x64"]}"#)),
        "manifest_root `cli_manifests/gemini_cli` already contains expected_targets [\"darwin-arm64\", \"linux-x64\"], which conflicts with proposed canonical_targets [\"linux-x64\", \"darwin-arm64\"]"
    );
    assert_eq!(
        refusal(validate_manifest_root_targets(&d, path, r#"{"expected_targets": ["linux-x64", 3]}"#)),
        "cli_manifests/gemini_cli/current.json contains non-string expected_targets entries"
    );
    assert!(refusal(validate_manifest_root_targets(&d, path, "{")).starts_with("parse cli_manifests/gemini_cli/current.json: "));
}

#[test]
fn pre_existing_target_artifacts_are_listed_in_order() {
    let d = draft("gemini_cli");
    assert!(validate_manifest_root_artifact_conflicts(&d, &vec![(false, false, false), (false, false, false)]).is_ok());
    assert_eq!(
        refusal(validate_manifest_root_artifact_conflicts(&d, &vec![(false, true, true), (true, false, false)])),
        "pre-existing target artifacts conflict with proposed canonical_targets: \
         cli_manifests/gemini_cli/pointers/latest_supported/darwin-arm64.txt, \
         cli_manifests/gemini_cli/pointers/latest_validated/linux-x64.txt, \
         cli_manifests/gemini_cli/reports/**/coverage.linux-x64.json"
    );
}
