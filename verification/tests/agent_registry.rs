use xtask_core::agent_registry::{
    dot_component, ensure_has_prefix, validate_gate_targets, validate_non_empty_scalar,
    validate_repo_relative_path, validate_string_array, AgentRegistry, AgentRegistryEntry,
    AgentRegistryError, CapabilityDeclaration, MaintenanceMetadata, PublicationFlags,
    ReleaseMetadata, ScaffoldMetadata, WrapperCoverageBinding,
};

fn entry(agent_id: &str) -> AgentRegistryEntry {
    AgentRegistryEntry {
        agent_id: agent_id.to_string(),
        display_name: agent_id.to_string(),
        crate_path: format!("crates/{agent_id}"),
        backend_module: format!("crates/agent_api/src/backends/{agent_id}"),
        manifest_root: format!("cli_manifests/{agent_id}"),
        package_name: format!("unified-agent-api-{agent_id}"),
        canonical_targets: vec!["x86_64-unknown-linux-musl".to_string()],
        wrapper_coverage: WrapperCoverageBinding {
            binding_kind: "generated_from_wrapper_crate".to_string(),
            source_path: format!("crates/{agent_id}"),
        },
        capability_declaration: CapabilityDeclaration {
            always_on: vec!["agent_api.run".to_string()],
            target_gated: vec![],
            config_gated: vec![],
            backend_extensions: vec![],
        },
        publication: PublicationFlags {
            support_matrix_enabled: true,
            capability_matrix_enabled: true,
            capability_matrix_target: None,
        },
        release: ReleaseMetadata { docs_release_track: "crates-io".to_string() },
        scaffold: ScaffoldMetadata { onboarding_pack_prefix: format!("{agent_id}-onboarding") },
        maintenance: MaintenanceMetadata { governance_checks: vec![] },
    }
}

fn message(result: Result<(), AgentRegistryError>) -> String {
    result.expect_err("expected a validation failure").message()
}

fn strings(items: &[&str]) -> Vec<String> {
    items.iter().map(|s| s.to_string()).collect()
}

#[test]
fn a_blank_scalar_is_refused() {
    assert!(validate_non_empty_scalar("agent_id", "codex").is_ok());
    assert_eq!(message(validate_non_empty_scalar("agent_id", "  \t")), "agent_id must not be empty");
}

#[test]
fn repo_relative_paths_must_be_normalized() {
    assert!(validate_repo_relative_path("crate_path", "crates/codex").is_ok());
    assert_eq!(
        message(validate_repo_relative_path("crate_path", "/crates/codex")),
        "crate_path must be repo-relative (got absolute path `/crates/codex`)"
    );
    assert_eq!(
        message(validate_repo_relative_path("crate_path", "crates/../codex")),
        "crate_path must be normalized and repo-relative (got `crates/../codex`)"
    );
    assert_eq!(
        message(validate_repo_relative_path("crate_path", "./crates")),
        "crate_path must be normalized and repo-relative (got `./crates`)"
    );
    assert!(dot_component("./a"));
    assert!(dot_component("a/.."));
    assert!(!dot_component("a/./b"));
    assert!(!dot_component("a/.b"));
}

#[test]
fn prefixes_are_checked_as_text() {
    assert!(ensure_has_prefix("crate_path", "crates/codex", "crates/").is_ok());
    assert_eq!(
        message(ensure_has_prefix("crate_path", "lib/codex", "crates/")),
        "crate_path must start with `crates/` (got `lib/codex`)"
    );
}

#[test]
fn string_arrays_refuse_blank_and_duplicate_entries() {
    assert!(validate_string_array("always_on", &strings(&["a", "b"])).is_ok());
    assert!(validate_string_array("always_on", &strings(&[])).is_ok());
    assert_eq!(
        message(validate_string_array("always_on", &strings(&["a", "b", "a"]))),
        "always_on contains duplicate entry `a`"
    );
    assert_eq!(message(validate_string_array("always_on", &strings(&["a", " "]))), "always_on must not be empty");
}

#[test]
fn gate_targets_must_be_declared_canonical_targets() {
    let canonical = strings(&["linux", "darwin"]);
    assert!(validate_gate_targets("targets", &strings(&["darwin"]), &canonical).is_ok());
    assert_eq!(
        message(validate_gate_targets("targets", &strings(&[]), &canonical)),
        "targets must contain at least one target"
    );
    assert_eq!(
        message(validate_gate_targets("targets", &strings(&["linux", "linux"]), &canonical)),
        "targets contains duplicate target `linux`"
    );
    assert_eq!(
        message(validate_gate_targets("targets", &strings(&["windows"]), &canonical)),
        "targets references undeclared canonical target `windows`"
    );
}

#[test]
fn a_well_formed_registry_validates() {
    let registry = AgentRegistry { agents: vec![entry("codex"), entry("claude_code")] };
    assert!(registry.validate().is_ok());
}

#[test]
fn an_empty_registry_is_refused() {
    let registry = AgentRegistry { agents: vec![] };
    assert_eq!(message(registry.validate()), "registry must contain at least one [[agents]] entry");
}

#[test]
fn a_duplicate_agent_id_names_both_agents() {
    let mut second = entry("codex2");
    second.agent_id = "codex".to_string();
    let registry = AgentRegistry { agents: vec![entry("codex"), second] };
    assert_eq!(message(registry.validate()), "duplicate agent_id `codex` for agents `codex` and `codex`");
}

#[test]
fn a_shared_crate_path_is_refused() {
    let mut second = entry("other");
    second.crate_path = "crates/codex".to_string();
    let registry = AgentRegistry { agents: vec![entry("codex"), second] };
    assert_eq!(
        message(registry.validate()),
        "duplicate crate_path `crates/codex` for agents `codex` and `other`"
    );
}

#[test]
fn an_entry_reports_its_first_broken_rule() {
    let mut bad = entry("codex");
    bad.manifest_root = "manifests/codex".to_string();
    bad.package_name = String::new();
    assert_eq!(message(bad.validate()), "package_name must not be empty");

    let mut bad = entry("codex");
    bad.manifest_root = "manifests/codex".to_string();
    assert_eq!(message(bad.validate()), "manifest_root must start with `cli_manifests/` (got `manifests/codex`)");

    let mut bad = entry("codex");
    bad.wrapper_coverage.binding_kind = "hand_written".to_string();
    assert_eq!(
        message(bad.validate()),
        "wrapper_coverage.binding_kind must be `generated_from_wrapper_crate` (got `hand_written`)"
    );
}

#[test]
fn find_returns_the_first_agent_with_the_id() {
    let registry = AgentRegistry { agents: vec![entry("codex"), entry("opencode")] };
    assert_eq!(registry.find("opencode").map(|e| e.crate_path.as_str()), Some("crates/opencode"));
    assert!(registry.find("codexx").is_none());
}

#[test]
fn matrix_entries_keep_registry_order() {
    let mut hidden = entry("hidden");
    hidden.publication.support_matrix_enabled = false;
    hidden.publication.capability_matrix_enabled = false;
    let mut support_only = entry("support_only");
    support_only.publication.capability_matrix_enabled = false;
    let registry = AgentRegistry { agents: vec![entry("codex"), hidden, support_only, entry("opencode")] };

    let support = registry.support_matrix_entries().iter().map(|e| e.agent_id.clone()).collect::<Vec<_>>();
    assert_eq!(support, strings(&["codex", "support_only", "opencode"]));
    let capability = registry.capability_matrix_entries().iter().map(|e| e.agent_id.clone()).collect::<Vec<_>>();
    assert_eq!(capability, strings(&["codex", "opencode"]));
}

#[test]
fn registry_errors_display_as_the_loader_reports_them() {
    let read = AgentRegistryError::Read { path: "a.toml".to_string(), message: "gone".to_string() };
    assert_eq!(read.message(), "read a.toml: gone");
    assert_eq!(AgentRegistryError::Toml("bad".to_string()).message(), "parse agent registry TOML: bad");
    assert_eq!(AgentRegistryError::Validation("rule".to_string()).message(), "rule");
}
