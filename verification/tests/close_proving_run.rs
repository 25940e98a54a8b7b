use xtask_core::approval_artifact::{ApprovalArtifact, ApprovalDescriptor};
use xtask_core::close_proving_run::{
    docs_pack_root, onboarding_pack_prefix_from_closeout_path, supported_backends,
    validate_capability_matrix_audit_green, validate_packet_identity, PacketIdentity,
};
use xtask_core::paths::{components, Part};

fn strings(items: &[&str]) -> Vec<String> {
    items.iter().map(|s| s.to_string()).collect()
}

fn approval() -> ApprovalArtifact {
    ApprovalArtifact {
        relative_path: "docs/agents/lifecycle/gemini-onboarding/governance/approved-agent.toml".to_string(),
        canonical_path: "/w/approved-agent.toml".to_string(),
        sha256: "ff".repeat(32),
        descriptor: ApprovalDescriptor {
            agent_id: "gemini_cli".to_string(),
            display_name: "Gemini CLI".to_string(),
            crate_path: "crates/gemini_cli".to_string(),
            backend_module: "crates/agent_api/src/backends/gemini_cli".to_string(),
            manifest_root: "cli_manifests/gemini_cli".to_string(),
            package_name: "unified-agent-api-gemini-cli".to_string(),
            canonical_targets: strings(&["linux-x64"]),
            wrapper_coverage_binding_kind: "generated_from_wrapper_crate".to_string(),
            wrapper_coverage_source_path: "crates/gemini_cli".to_string(),
            always_on_capabilities: vec![],
            target_gated_capabilities: vec![],
            config_gated_capabilities: vec![],
            backend_extensions: vec![],
            support_matrix_enabled: true,
            capability_matrix_enabled: true,
            capability_matrix_target: None,
            docs_release_track: "crates-io".to_string(),
            onboarding_pack_prefix: "gemini-onboarding".to_string(),
        },
    }
}

#[test]
fn the_pack_prefix_comes_from_the_closeout_path() {
    assert_eq!(
        onboarding_pack_prefix_from_closeout_path("docs/agents/lifecycle/gemini-onboarding/governance/proving-run-closeout.json").unwrap(),
        "gemini-onboarding"
    );
    // `Path::components` skips repeated separators and interior `.` pieces.
    assert_eq!(
        onboarding_pack_prefix_from_closeout_path("docs//agents/./lifecycle/p/governance/proving-run-closeout.json").unwrap(),
        "p"
    );
    for bad in [
        "docs/agents/lifecycle/governance/proving-run-closeout.json",
        "/docs/agents/lifecycle/p/governance/proving-run-closeout.json",
        "docs/agents/lifecycle/p/governance/closeout.json",
    ] {
        assert_eq!(
            onboarding_pack_prefix_from_closeout_path(bad).unwrap_err().message(),
            format!("{bad} must point to docs/agents/lifecycle/<prefix>/governance/proving-run-closeout.json")
        );
    }
    assert_eq!(
        onboarding_pack_prefix_from_closeout_path("docs/agents/lifecycle/../governance/proving-run-closeout.json")
            .unwrap_err()
            .message(),
        "onboarding pack prefix must be a normal path component"
    );
    assert_eq!(docs_pack_root("p"), "docs/agents/lifecycle/p");
}

#[test]
fn path_components_follow_the_platform_rules() {
    assert_eq!(
        components("/a/./b/../c/"),
        vec![Part::Root, Part::Normal("a".into()), Part::Normal("b".into()), Part::Parent, Part::Normal("c".into())]
    );
    assert_eq!(components("./a"), vec![Part::Current, Part::Normal("a".into())]);
    assert!(components("").is_empty());
}

#[test]
fn a_packet_must_name_the_approval_agent_and_root() {
    let good = PacketIdentity {
        approval_artifact_path: approval().relative_path,
        approval_artifact_sha256: "ff".repeat(32),
        agent_id: "gemini_cli".to_string(),
        manifest_root: "cli_manifests/gemini_cli".to_string(),
    };
    assert!(validate_packet_identity("p.json", &good, &approval(), "cli_manifests/gemini_cli").is_ok());
    let mut other = good.clone();
    other.agent_id = "codex".to_string();
    assert_eq!(
        validate_packet_identity("p.json", &other, &approval(), "cli_manifests/gemini_cli").unwrap_err().message(),
        "`p.json` agent_id `codex` does not match `gemini_cli`"
    );
    let mut other = good.clone();
    other.approval_artifact_sha256 = "00".to_string();
    assert_eq!(
        validate_packet_identity("p.json", &other, &approval(), "cli_manifests/gemini_cli").unwrap_err().message(),
        format!("`p.json` approval_artifact_sha256 does not match `{}`", approval().relative_path)
    );
    assert_eq!(
        validate_packet_identity("p.json", &good, &approval(), "cli_manifests/other").unwrap_err().message(),
        "`p.json` manifest_root `cli_manifests/gemini_cli` does not match `cli_manifests/other`"
    );
}

#[test]
fn the_audit_is_green_only_when_every_capability_has_two_backends() {
    let backends = vec![
        ("claude_code".to_string(), strings(&["agent_api.run", "agent_api.session.v1"])),
        ("codex".to_string(), strings(&["agent_api.session.v1", "agent_api.tools.results.v1", "agent_api.x.v1"])),
    ];
    assert_eq!(supported_backends(&backends, "agent_api.session.v1"), strings(&["claude_code", "codex"]));
    let err = validate_capability_matrix_audit_green(&backends).unwrap_err();
    assert_eq!(err.exit_code(), 2);
    assert_eq!(
        err.message(),
        "capability-matrix-audit failed: agent_api.tools.results.v1: supported by 1 backend(s): [codex] | agent_api.x.v1: supported by 1 backend(s): [codex]"
    );
    let green = vec![
        ("claude_code".to_string(), strings(&["agent_api.run", "agent_api.session.v1"])),
        ("codex".to_string(), strings(&["agent_api.session.v1"])),
    ];
    assert!(validate_capability_matrix_audit_green(&green).is_ok());
}
