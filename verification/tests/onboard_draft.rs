use xtask_core::onboard_agent::{DraftDescriptorInput, OnboardArgs};
use xtask_core::onboard_draft::{sort_config_gates, sort_target_gates};
use xtask_core::onboard_preview::{ConfigGate, DraftEntry, TargetGate};

fn strings(items: &[&str]) -> Vec<String> {
    items.iter().map(|s| s.to_string()).collect()
}

fn args() -> OnboardArgs {
    OnboardArgs {
        agent_id: Some(" gemini_cli ".to_string()),
        display_name: Some("Gemini CLI".to_string()),
        crate_path: Some("crates/gemini_cli".to_string()),
        backend_module: Some("crates/agent_api/src/backends/gemini_cli".to_string()),
        manifest_root: Some("cli_manifests/gemini_cli".to_string()),
        package_name: Some("unified-agent-api-gemini-cli".to_string()),
        canonical_targets: strings(&["linux-x64", "darwin-arm64"]),
        wrapper_coverage_binding_kind: Some("generated_from_wrapper_crate".to_string()),
        wrapper_coverage_source_path: Some("crates/gemini_cli".to_string()),
        always_on_capabilities: strings(&["agent_api.run", "agent_api.events"]),
        target_gated_capabilities: strings(&["b.cap:linux-x64", "a.cap:darwin-arm64,linux-x64", "a.cap:linux-x64"]),
        config_gated_capabilities: strings(&["c.cap:key", "a.cap:key:linux-x64", "a.cap:key"]),
        backend_extensions: vec![],
        support_matrix_enabled: Some(true),
        capability_matrix_enabled: Some(false),
        capability_matrix_target: None,
        docs_release_track: Some("crates-io".to_string()),
        onboarding_pack_prefix: Some("gemini-cli-onboarding".to_string()),
    }
}

#[test]
fn raw_arguments_are_trimmed_into_a_descriptor() {
    let d = DraftDescriptorInput::from_raw_args(args()).expect("complete arguments");
    assert_eq!(d.agent_id, "gemini_cli");
    assert!(d.approval_provenance.is_none());
    assert_eq!(d.canonical_targets, strings(&["linux-x64", "darwin-arm64"]));
}

#[test]
fn a_missing_or_blank_argument_is_named_in_order() {
    let mut a = args();
    a.crate_path = None;
    a.docs_release_track = None;
    let err = DraftDescriptorInput::from_raw_args(a).expect_err("missing crate path");
    assert_eq!(err.message(), "--crate-path must be provided when --approval is not used");
    let mut a = args();
    a.display_name = Some("  ".to_string());
    let err = DraftDescriptorInput::from_raw_args(a).expect_err("blank display name");
    assert_eq!(err.message(), "--display-name must not be empty when --approval is not used");
    let mut a = args();
    a.capability_matrix_enabled = None;
    let err = DraftDescriptorInput::from_raw_args(a).expect_err("missing flag");
    assert_eq!(err.message(), "--capability-matrix-enabled must be provided when --approval is not used");
}

#[test]
fn the_draft_sorts_its_lists_and_gates() {
    let d = DraftEntry::from_args(DraftDescriptorInput::from_raw_args(args()).unwrap()).expect("valid draft");
    assert_eq!(d.always_on_capabilities, strings(&["agent_api.events", "agent_api.run"]));
    let ids: Vec<(String, Vec<String>)> = d
        .target_gated_capabilities
        .iter()
        .map(|g| (g.capability_id.clone(), g.targets.clone()))
        .collect();
    assert_eq!(
        ids,
        vec![
            ("a.cap".to_string(), strings(&["linux-x64"])),
            ("a.cap".to_string(), strings(&["linux-x64", "darwin-arm64"])),
            ("b.cap".to_string(), strings(&["linux-x64"])),
        ]
    );
    let configs: Vec<(String, Option<Vec<String>>)> = d
        .config_gated_capabilities
        .iter()
        .map(|g| (g.capability_id.clone(), g.targets.clone()))
        .collect();
    assert_eq!(
        configs,
        vec![
            ("a.cap".to_string(), None),
            ("a.cap".to_string(), Some(strings(&["linux-x64"]))),
            ("c.cap".to_string(), None),
        ]
    );
}

#[test]
fn a_gate_outside_the_canonical_targets_is_refused() {
    let mut a = args();
    a.target_gated_capabilities = strings(&["x.cap:freebsd"]);
    let err = DraftEntry::from_args(DraftDescriptorInput::from_raw_args(a).unwrap()).expect_err("unknown target");
    assert_eq!(err.message(), "--target-gated-capability target `freebsd` is not present in --canonical-target");
}

#[test]
fn sorting_keeps_equal_gates_in_order() {
    let gates = vec![
        TargetGate { capability_id: "b".to_string(), targets: strings(&["x"]) },
        TargetGate { capability_id: "a".to_string(), targets: strings(&["y"]) },
        TargetGate { capability_id: "a".to_string(), targets: strings(&["x", "y"]) },
        TargetGate { capability_id: "a".to_string(), targets: strings(&["x"]) },
    ];
    let sorted: Vec<(String, Vec<String>)> =
        sort_target_gates(gates).into_iter().map(|g| (g.capability_id, g.targets)).collect();
    assert_eq!(
        sorted,
        vec![
            ("a".to_string(), strings(&["x"])),
            ("a".to_string(), strings(&["x", "y"])),
            ("a".to_string(), strings(&["y"])),
            ("b".to_string(), strings(&["x"])),
        ]
    );
    let configs = vec![
        ConfigGate { capability_id: "a".to_string(), config_key: "k2".to_string(), targets: None },
        ConfigGate { capability_id: "a".to_string(), config_key: "k1".to_string(), targets: Some(strings(&["t"])) },
        ConfigGate { capability_id: "a".to_string(), config_key: "k1".to_string(), targets: None },
    ];
    let sorted: Vec<(String, Option<Vec<String>>)> =
        sort_config_gates(configs).into_iter().map(|g| (g.config_key, g.targets)).collect();
    assert_eq!(
        sorted,
        vec![
            ("k1".to_string(), None),
            ("k1".to_string(), Some(strings(&["t"]))),
            ("k2".to_string(), None),
        ]
    );
}
