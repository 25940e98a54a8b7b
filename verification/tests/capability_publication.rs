use xtask_core::agent_registry::{
    AgentRegistryEntry, CapabilityDeclaration, ConfigGatedCapability, MaintenanceMetadata,
    PublicationFlags, ReleaseMetadata, ScaffoldMetadata, TargetGatedCapability, WrapperCoverageBinding,
};
use xtask_core::capability_projection::{
    manifest_projected_capability_path, requires_explicit_publication_target,
    resolve_capability_publication_target, validate_config_key_allowlist, CapabilityPublicationTarget,
};
use xtask_core::capability_publication::{
    gate_capability_id, manifest_command_available_on_target, project_manifest_advertised_capabilities,
    push_mismatch, push_option_mismatch, push_vec_mismatch, render_canonical_target_header,
    render_publication_target_description, validate_capability_publication_target,
    validate_registry_approval_alignment, approval_artifact_path_for_entry, validate_agent_publication_continuity,
    LifecycleStamp, ManifestCommand,
    ManifestCurrent,
};
use xtask_core::approval_artifact::{ApprovalArtifact, ApprovalDescriptor};

fn strings(items: &[&str]) -> Vec<String> {
    items.iter().map(|s| s.to_string()).collect()
}

fn entry(agent_id: &str) -> AgentRegistryEntry {
    AgentRegistryEntry {
        agent_id: agent_id.to_string(),
        display_name: agent_id.to_string(),
        crate_path: format!("crates/{agent_id}"),
        backend_module: format!("crates/agent_api/src/backends/{agent_id}"),
        manifest_root: format!("cli_manifests/{agent_id}"),
        package_name: format!("unified-agent-api-{agent_id}"),
        canonical_targets: strings(&["linux-x64", "darwin-arm64"]),
        wrapper_coverage: WrapperCoverageBinding {
            binding_kind: "generated_from_wrapper_crate".to_string(),
            source_path: format!("crates/{agent_id}"),
        },
        capability_declaration: CapabilityDeclaration {
            always_on: strings(&["agent_api.run", "agent_api.events"]),
            target_gated: vec![],
            config_gated: vec![],
            backend_extensions: strings(&["backend.codex.exec"]),
        },
        publication: PublicationFlags {
            support_matrix_enabled: true,
            capability_matrix_enabled: true,
            capability_matrix_target: None,
        },
        release: ReleaseMetadata { docs_release_track: "crates-io".to_string() },
        scaffold: ScaffoldMetadata { onboarding_pack_prefix: format!("{agent_id}-onboarding") },
        maintenance: MaintenanceMetadata { governance_checks: vec![] },
    }
}

fn gated(agent_id: &str, target: Option<&str>) -> AgentRegistryEntry {
    let mut e = entry(agent_id);
    e.capability_declaration.target_gated = vec![
        TargetGatedCapability {
            capability_id: "agent_api.tools.mcp.list.v1".to_string(),
            targets: strings(&["linux-x64"]),
        },
        TargetGatedCapability {
            capability_id: "agent_api.tools.mcp.add.v1".to_string(),
            targets: strings(&["linux-x64"]),
        },
        TargetGatedCapability {
            capability_id: "agent_api.session.resume.v1".to_string(),
            targets: strings(&["darwin-arm64"]),
        },
    ];
    e.publication.capability_matrix_target = target.map(str::to_string);
    e
}

fn manifest() -> ManifestCurrent {
    ManifestCurrent {
        expected_targets: strings(&["linux-x64", "darwin-arm64"]),
        commands: vec![
            ManifestCommand { path: strings(&["mcp", "list"]), available_on: strings(&["linux-x64"]) },
            ManifestCommand { path: strings(&["mcp", "add"]), available_on: strings(&["darwin-arm64"]) },
        ],
    }
}

#[test]
fn the_default_profile_advertises_always_on_and_extensions_ascending() {
    let advertised = project_manifest_advertised_capabilities(&entry("codex"), &manifest()).unwrap();
    assert_eq!(advertised, strings(&["agent_api.events", "agent_api.run", "backend.codex.exec"]));
}

#[test]
fn an_explicit_target_adds_the_gates_its_manifest_confirms() {
    let advertised = project_manifest_advertised_capabilities(&gated("codex", Some("linux-x64")), &manifest()).unwrap();
    assert_eq!(
        advertised,
        strings(&["agent_api.events", "agent_api.run", "agent_api.tools.mcp.list.v1", "backend.codex.exec"])
    );
}

#[test]
fn target_scoped_declarations_need_an_explicit_target() {
    let err = project_manifest_advertised_capabilities(&gated("codex", None), &manifest()).unwrap_err();
    assert_eq!(
        err,
        "capability publication registry entry `codex` has invalid publication projection: publication.capability_matrix_target must be set when capability-matrix projection uses target-scoped declarations"
    );
    assert!(requires_explicit_publication_target(true, true, false));
    assert!(requires_explicit_publication_target(true, false, true));
    assert!(!requires_explicit_publication_target(false, true, true));
}

#[test]
fn a_target_outside_canonical_targets_is_refused() {
    let e = gated("codex", Some("win32-x64"));
    assert_eq!(
        resolve_capability_publication_target(&e).unwrap_err(),
        "publication.capability_matrix_target `win32-x64` must be listed in canonical_targets"
    );
    let e = gated("codex", Some("linux-x64"));
    assert_eq!(resolve_capability_publication_target(&e).unwrap(), CapabilityPublicationTarget::Explicit("linux-x64"));
}

#[test]
fn a_config_gate_scoped_to_targets_also_needs_an_explicit_target() {
    let mut e = entry("codex");
    e.capability_declaration.config_gated = vec![ConfigGatedCapability {
        capability_id: "agent_api.exec.external_sandbox.v1".to_string(),
        config_key: "allow_external_sandbox_exec".to_string(),
        targets: Some(strings(&["linux-x64"])),
    }];
    assert!(resolve_capability_publication_target(&e).is_err());
    e.publication.capability_matrix_enabled = false;
    assert_eq!(resolve_capability_publication_target(&e).unwrap(), CapabilityPublicationTarget::DefaultBuiltInConfig);
}

#[test]
fn the_manifest_must_expect_the_publication_target() {
    let e = gated("codex", Some("darwin-arm64"));
    let mut m = manifest();
    assert!(validate_capability_publication_target(&e, &m).is_ok());
    m.expected_targets = strings(&["linux-x64"]);
    assert_eq!(
        validate_capability_publication_target(&e, &m).unwrap_err(),
        "capability publication manifest `cli_manifests/codex/current.json` is missing publication.capability_matrix_target `darwin-arm64` in expected_targets"
    );
    assert!(validate_capability_publication_target(&entry("codex"), &m).is_ok());
}

#[test]
fn command_availability_matches_the_whole_path() {
    let m = manifest();
    assert!(manifest_command_available_on_target(&m, &["mcp", "list"], "linux-x64"));
    assert!(!manifest_command_available_on_target(&m, &["mcp", "list"], "darwin-arm64"));
    assert!(!manifest_command_available_on_target(&m, &["mcp"], "linux-x64"));
    assert_eq!(manifest_projected_capability_path("agent_api.tools.mcp.get.v1"), Some(["mcp", "get"]));
    assert_eq!(manifest_projected_capability_path("agent_api.run"), None);
}

#[test]
fn target_descriptions_and_headers_name_each_agent() {
    assert_eq!(
        render_publication_target_description(&entry("codex")).unwrap(),
        "the default publication target profile"
    );
    assert_eq!(
        render_publication_target_description(&gated("codex", Some("linux-x64"))).unwrap(),
        "publication.capability_matrix_target `linux-x64`"
    );
    assert_eq!(
        render_canonical_target_header(&[]).unwrap(),
        "Canonical publication target profile: none; no lifecycle-eligible agents are currently enrolled.\n"
    );
    let codex = gated("codex", Some("linux-x64"));
    let cc = entry("claude_code");
    let opencode = entry("opencode");
    assert_eq!(
        render_canonical_target_header(&[&codex, &cc, &opencode]).unwrap(),
        "Canonical publication target profile: `codex=linux-x64`; `claude_code`, `opencode` use their default lifecycle-backed target profile.\n"
    );
    assert_eq!(
        render_canonical_target_header(&[&cc]).unwrap(),
        "Canonical publication target profile: `claude_code` uses its default lifecycle-backed target profile.\n"
    );
}

#[test]
fn config_keys_come_from_the_allowlist() {
    assert!(validate_config_key_allowlist("allow_mcp_write", "config_key").is_ok());
    assert_eq!(
        validate_config_key_allowlist("allow_all", "config_key").unwrap_err(),
        "config_key must be one of `allow_external_sandbox_exec`, `allow_mcp_write` (got `allow_all`)"
    );
}

#[test]
fn gate_entries_reduce_to_their_capability_id() {
    assert_eq!(gate_capability_id("agent_api.tools.mcp.list.v1:linux-x64,darwin-arm64"), "agent_api.tools.mcp.list.v1");
    assert_eq!(gate_capability_id("agent_api.run"), "agent_api.run");
}

#[test]
fn mismatches_are_recorded_only_when_values_differ() {
    let mut mismatches = Vec::new();
    push_mismatch(&mut mismatches, "crate_path", "crates/a", "crates/a");
    assert!(mismatches.is_empty());
    push_mismatch(&mut mismatches, "crate_path", "crates/a", "crates/b");
    push_vec_mismatch(&mut mismatches, "canonical_targets", &strings(&["x"]), &strings(&["x"]));
    push_vec_mismatch(&mut mismatches, "canonical_targets", &strings(&["x"]), &strings(&["y", "x"]));
    push_option_mismatch(&mut mismatches, "capability_matrix_target", None, None);
    push_option_mismatch(&mut mismatches, "capability_matrix_target", Some("x"), None);
    assert_eq!(mismatches.len(), 3);
    assert_eq!(mismatches[0], "crate_path: approval=`crates/a` registry=`crates/b`");
    assert!(mismatches[1].contains("canonical_targets"), "{mismatches:?}");
    assert!(mismatches[2].contains("capability_matrix_target"), "{mismatches:?}");
}

fn approval_for(e: &AgentRegistryEntry) -> ApprovalArtifact {
    ApprovalArtifact {
        relative_path: format!("docs/agents/lifecycle/{}/governance/approved-agent.toml", e.scaffold.onboarding_pack_prefix),
        canonical_path: "/w/approved-agent.toml".to_string(),
        sha256: "ab".repeat(32),
        descriptor: ApprovalDescriptor {
            agent_id: e.agent_id.clone(),
            display_name: e.display_name.clone(),
            crate_path: e.crate_path.clone(),
            backend_module: e.backend_module.clone(),
            manifest_root: e.manifest_root.clone(),
            package_name: e.package_name.clone(),
            canonical_targets: e.canonical_targets.clone(),
            wrapper_coverage_binding_kind: e.wrapper_coverage.binding_kind.clone(),
            wrapper_coverage_source_path: e.wrapper_coverage.source_path.clone(),
            always_on_capabilities: e.capability_declaration.always_on.clone(),
            target_gated_capabilities: vec![],
            config_gated_capabilities: vec![],
            backend_extensions: e.capability_declaration.backend_extensions.clone(),
            support_matrix_enabled: e.publication.support_matrix_enabled,
            capability_matrix_enabled: e.publication.capability_matrix_enabled,
            capability_matrix_target: e.publication.capability_matrix_target.clone(),
            docs_release_track: e.release.docs_release_track.clone(),
            onboarding_pack_prefix: e.scaffold.onboarding_pack_prefix.clone(),
        },
    }
}

#[test]
fn an_approval_that_matches_its_registry_entry_aligns() {
    let e = entry("codex");
    assert_eq!(approval_artifact_path_for_entry(&e), "docs/agents/lifecycle/codex-onboarding/governance/approved-agent.toml");
    assert_eq!(validate_registry_approval_alignment(&approval_for(&e), &e), Ok(()));
}

#[test]
fn a_different_capability_matrix_target_is_a_mismatch() {
    let mut e = entry("codex");
    let approval = approval_for(&e);
    e.publication.capability_matrix_target = Some("linux-x64".to_string());
    assert_eq!(
        validate_registry_approval_alignment(&approval, &e),
        Err("approval/registry mismatch for `codex`: capability_matrix_target: approval=<none> registry=linux-x64".to_string())
    );
}

#[test]
fn an_approval_stored_elsewhere_is_a_mismatch_on_its_path() {
    let e = entry("codex");
    let mut approval = approval_for(&e);
    approval.relative_path = "docs/agents/lifecycle/other/governance/approved-agent.toml".to_string();
    approval.descriptor.crate_path = "crates/other".to_string();
    let err = validate_registry_approval_alignment(&approval, &e).unwrap_err();
    assert_eq!(
        err,
        "approval/registry mismatch for `codex`: crate_path: approval=`crates/other` registry=`crates/codex`; approved_agent_path: approval=`docs/agents/lifecycle/other/governance/approved-agent.toml` registry=`docs/agents/lifecycle/codex-onboarding/governance/approved-agent.toml`"
    );
}

fn stamp(e: &AgentRegistryEntry, approval: &ApprovalArtifact) -> LifecycleStamp {
    LifecycleStamp {
        agent_id: e.agent_id.clone(),
        onboarding_pack_prefix: e.scaffold.onboarding_pack_prefix.clone(),
        approval_artifact_path: approval.relative_path.clone(),
        approval_artifact_sha256: approval.sha256.clone(),
    }
}

const STATE: &str = "docs/agents/lifecycle/codex-onboarding/governance/lifecycle-state.json";

#[test]
fn a_published_agent_whose_projection_its_approval_covers_is_continuous() {
    let e = entry("codex");
    let approval = approval_for(&e);
    let state = stamp(&e, &approval);
    let result = validate_agent_publication_continuity(&e, STATE, Ok(approval), Ok((state, "published".to_string())), Ok(manifest()));
    assert_eq!(result, Ok(()));
}

#[test]
fn an_agent_too_early_in_its_lifecycle_cannot_publish() {
    let e = entry("codex");
    let approval = approval_for(&e);
    let state = stamp(&e, &approval);
    let result = validate_agent_publication_continuity(&e, STATE, Ok(approval), Ok((state, "enrolled".to_string())), Ok(manifest()));
    assert_eq!(
        result,
        Err(format!("capability publication for `codex` requires lifecycle stage `runtime_integrated`, `publication_ready`, `published`, or `closed_baseline` at `{STATE}` (found `enrolled`)"))
    );
}

#[test]
fn continuity_reports_the_first_load_or_alignment_failure() {
    let mut e = entry("codex");
    let approval = approval_for(&e);
    let mut state = stamp(&e, &approval);
    state.approval_artifact_sha256 = "cd".repeat(32);
    let result = validate_agent_publication_continuity(&e, STATE, Ok(approval.clone()), Ok((state, "published".to_string())), Ok(manifest()));
    assert_eq!(
        result,
        Err(format!("`{STATE}` approval_artifact_sha256 does not match `docs/agents/lifecycle/codex-onboarding/governance/approved-agent.toml`"))
    );
    let result = validate_agent_publication_continuity(&e, STATE, Err("no such file".to_string()), Err("unused".to_string()), Ok(manifest()));
    assert_eq!(
        result,
        Err("load approval artifact `docs/agents/lifecycle/codex-onboarding/governance/approved-agent.toml`: no such file".to_string())
    );
    e.publication.capability_matrix_enabled = false;
    let result = validate_agent_publication_continuity(&e, STATE, Err("no such file".to_string()), Err("unused".to_string()), Err("unused".to_string()));
    assert_eq!(result, Ok(()));
}
